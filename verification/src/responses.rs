//! Verified parsing of the daemons' RPC responses.
//!
//! Every parser is a pure function from the captured command output to a
//! typed result. A malformed response yields a configuration-class error
//! carrying the raw output for diagnostics.

use vstd::prelude::*;

use crate::error::{EngineResult, Error};
use crate::jsonrpc::{
    json_bool_field, json_get_bool, json_get_str, json_parse_string_array, json_str_field,
    json_string_array,
};
use crate::numstr::{parse_btc_sats, spec_parse_btc_sats, spec_trim, trim_str};

verus! {

/// The string the JSON field decodes to, or `"unknown"` when absent.
pub open spec fn str_or_unknown(o: Option<Seq<char>>) -> Seq<char> {
    match o {
        Some(s) => s,
        None => "unknown"@,
    }
}

/// The number the option holds, or zero.
pub open spec fn u64_or_zero(o: Option<u64>) -> u64 {
    match o {
        Some(v) => v,
        None => 0,
    }
}

/// The boolean the option holds, or the given default.
pub open spec fn bool_or(o: Option<bool>, d: bool) -> bool {
    match o {
        Some(b) => b,
        None => d,
    }
}

/// A satoshi amount parsed from fixed-point bitcoin text, or zero when the
/// text does not parse.
pub open spec fn sats_or_zero(s: Seq<char>) -> u64 {
    match spec_parse_btc_sats(s) {
        Some(v) => v,
        None => 0,
    }
}

/// Extracts a required string field from a JSON response; a response without
/// the field, or that is not JSON at all, is a configuration error.
fn required_str_field(raw: &str, key: &str, context: &str) -> (r: EngineResult<String>)
    ensures
        match r {
            Ok(s) => json_str_field(raw@, key@) == Some(s@),
            Err(e) => e is Config && json_str_field(raw@, key@) is None,
        },
{
    match json_get_str(raw, key) {
        Some(s) => Ok(s),
        None => {
            let mut msg = String::from_str(context);
            msg.append(". Output was: ");
            msg.append(raw);
            Err(Error::Config(msg))
        },
    }
}

/// The wallet address carried in a `newaddress` response.
pub fn parse_new_address(raw: &str) -> (r: EngineResult<String>)
    ensures
        match r {
            Ok(s) => json_str_field(raw@, "address"@) == Some(s@),
            Err(e) => e is Config && json_str_field(raw@, "address"@) is None,
        },
{
    required_str_field(raw, "address", "No address in response")
}

/// The node identity carried in a `getinfo` response.
pub fn parse_pubkey(raw: &str) -> (r: EngineResult<String>)
    ensures
        match r {
            Ok(s) => json_str_field(raw@, "identity_pubkey"@) == Some(s@),
            Err(e) => e is Config && json_str_field(raw@, "identity_pubkey"@) is None,
        },
{
    required_str_field(raw, "identity_pubkey", "No pubkey in response")
}

/// The funding transaction id carried in a channel-open response.
pub fn parse_funding_txid(raw: &str) -> (r: EngineResult<String>)
    ensures
        match r {
            Ok(s) => json_str_field(raw@, "funding_txid"@) == Some(s@),
            Err(e) => e is Config && json_str_field(raw@, "funding_txid"@) is None,
        },
{
    required_str_field(raw, "funding_txid", "No funding_txid in response")
}

/// The closing transaction id carried in a channel-close response.
pub fn parse_closing_txid(raw: &str) -> (r: EngineResult<String>)
    ensures
        match r {
            Ok(s) => json_str_field(raw@, "closing_txid"@) == Some(s@),
            Err(e) => e is Config && json_str_field(raw@, "closing_txid"@) is None,
        },
{
    required_str_field(raw, "closing_txid", "No closing_txid in response")
}

/// The payment request carried in an `addinvoice` response.
pub fn parse_payment_request(raw: &str) -> (r: EngineResult<String>)
    ensures
        match r {
            Ok(s) => json_str_field(raw@, "payment_request"@) == Some(s@),
            Err(e) => e is Config && json_str_field(raw@, "payment_request"@) is None,
        },
{
    required_str_field(raw, "payment_request", "No payment_request in response")
}

/// The payment hash carried in a `payinvoice` response.
pub fn parse_payment_hash(raw: &str) -> (r: EngineResult<String>)
    ensures
        match r {
            Ok(s) => json_str_field(raw@, "payment_hash"@) == Some(s@),
            Err(e) => e is Config && json_str_field(raw@, "payment_hash"@) is None,
        },
{
    required_str_field(raw, "payment_hash", "No payment_hash in response")
}

/// A transaction id or address answered as bare text: the output with
/// surrounding whitespace removed.
pub fn parse_plain_text(raw: &str) -> (r: String)
    ensures
        r@ == spec_trim(raw@),
{
    trim_str(raw)
}

/// The wallet balance answered by the full node: fixed-point bitcoin text,
/// converted to satoshi. Text that is not such a number is a configuration
/// error.
pub fn parse_balance_sats(raw: &str) -> (r: EngineResult<u64>)
    ensures
        match r {
            Ok(v) => spec_parse_btc_sats(spec_trim(raw@)) == Some(v),
            Err(e) => e is Config && spec_parse_btc_sats(spec_trim(raw@)) is None,
        },
{
    let trimmed = trim_str(raw);
    match parse_btc_sats(trimmed.as_str()) {
        Some(v) => Ok(v),
        None => {
            let mut msg = String::from_str("Failed to parse balance: ");
            msg.append(raw);
            Err(Error::Config(msg))
        },
    }
}

/// The block hashes answered by `generatetoaddress`: a JSON array of
/// strings.
pub fn parse_block_hashes(raw: &str) -> (r: EngineResult<Vec<String>>)
    ensures
        match r {
            Ok(v) => json_string_array(raw@) == Some(v.deep_view()),
            Err(e) => e is Config && json_string_array(raw@) is None,
        },
{
    match json_parse_string_array(raw) {
        Some(v) => Ok(v),
        None => {
            let mut msg = String::from_str("Failed to parse block hashes. Output was: ");
            msg.append(raw);
            Err(Error::Config(msg))
        },
    }
}

/// Whether a `getinfo` response reports the node synced to the chain; an
/// unreadable response counts as not synced.
pub fn parse_synced_to_chain(raw: &str) -> (r: bool)
    ensures
        r == bool_or(json_bool_field(raw@, "synced_to_chain"@), false),
{
    match json_get_bool(raw, "synced_to_chain") {
        Some(b) => b,
        None => false,
    }
}

/// How many of the captured `getinfo` responses report a node synced to the
/// chain.
pub open spec fn spec_count_synced(outputs: Seq<String>) -> int
    decreases outputs.len(),
{
    if outputs.len() == 0 {
        0
    } else {
        spec_count_synced(outputs.drop_last()) + if bool_or(
            json_bool_field(outputs.last()@, "synced_to_chain"@),
            false,
        ) {
            1 as int
        } else {
            0 as int
        }
    }
}

/// Counts the responses that report a synced node.
pub fn count_synced(outputs: &Vec<String>) -> (r: usize)
    ensures
        r == spec_count_synced(outputs@),
{
    let n = outputs.len();
    let mut count: usize = 0;
    let mut i: usize = 0;
    while i < n
        invariant
            n == outputs@.len(),
            i <= n,
            count == spec_count_synced(outputs@.take(i as int)),
            count <= i,
        decreases n - i,
    {
        if parse_synced_to_chain(outputs[i].as_str()) {
            count += 1;
        }
        proof {
            assert(outputs@.take(i as int + 1).drop_last() =~= outputs@.take(i as int));
            assert(outputs@.take(i as int + 1).last() == outputs@[i as int]);
        }
        i += 1;
    }
    proof {
        assert(outputs@.take(n as int) =~= outputs@);
    }
    count
}

} // verus!

verus! {

/// Maps the full node's reply that no wallet is loaded to a friendlier
/// configuration error pointing at a restart; every other error passes
/// through unchanged.
pub fn map_wallet_error(e: Error) -> (r: Error)
    ensures
        crate::numstr::spec_str_contains(e.spec_detail()@, "No wallet is loaded"@) ==> r is Config
            && r.spec_detail()@ == "No wallet loaded. Try restarting the network."@,
        !crate::numstr::spec_str_contains(e.spec_detail()@, "No wallet is loaded"@) ==> r == e,
{
    let found = crate::numstr::str_contains(e.detail().as_str(), "No wallet is loaded");
    if found {
        Error::Config(String::from_str("No wallet loaded. Try restarting the network."))
    } else {
        e
    }
}

} // verus!
