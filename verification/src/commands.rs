//! The command lines issued to the node daemons and the container runtime.
//!
//! Every RPC call is a fixed argument vector executed inside a running
//! container; the builders below pin each vector exactly. Credentials are
//! the fixed development credentials the containers are started with.

use vstd::prelude::*;

use crate::ids::{id_to_string, spec_id_str};
use crate::numstr::{sats_to_btc_string, spec_btc_string, spec_dec_digits, u64_to_dec};

verus! {

/// The argument vector renders exactly the expected words.
pub open spec fn cmd_matches(v: Seq<String>, expected: Seq<Seq<char>>) -> bool {
    v.len() == expected.len() && forall|i: int| 0 <= i < v.len() ==> (#[trigger] v[i])@ == expected[i]
}

/// The fixed first words of every full-node RPC call.
pub open spec fn btc_cli_prefix() -> Seq<Seq<char>> {
    seq!["bitcoin-cli"@, "-regtest"@, "-rpcuser=polaruser"@, "-rpcpassword=polarpass"@]
}

/// The fixed first words of every Lightning-node RPC call.
pub open spec fn lncli_prefix() -> Seq<Seq<char>> {
    seq![
        "lncli"@,
        "--network=regtest"@,
        "--tlscertpath=/home/lnd/.lnd/tls.cert"@,
        "--macaroonpath=/home/lnd/.lnd/data/chain/bitcoin/regtest/admin.macaroon"@,
    ]
}

fn btc_cli_base() -> (r: Vec<String>)
    ensures
        cmd_matches(r@, btc_cli_prefix()),
{
    let mut v: Vec<String> = Vec::new();
    v.push(String::from_str("bitcoin-cli"));
    v.push(String::from_str("-regtest"));
    v.push(String::from_str("-rpcuser=polaruser"));
    v.push(String::from_str("-rpcpassword=polarpass"));
    v
}

fn lncli_base() -> (r: Vec<String>)
    ensures
        cmd_matches(r@, lncli_prefix()),
{
    let mut v: Vec<String> = Vec::new();
    v.push(String::from_str("lncli"));
    v.push(String::from_str("--network=regtest"));
    v.push(String::from_str("--tlscertpath=/home/lnd/.lnd/tls.cert"));
    v.push(String::from_str("--macaroonpath=/home/lnd/.lnd/data/chain/bitcoin/regtest/admin.macaroon"));
    v
}

/// A full-node call with one subcommand word.
pub fn btc_simple_cmd(subcommand: &str) -> (r: Vec<String>)
    ensures
        cmd_matches(r@, btc_cli_prefix().push(subcommand@)),
{
    let mut v = btc_cli_base();
    v.push(String::from_str(subcommand));
    v
}

/// The call creating the default wallet the full node needs.
pub fn btc_createwallet_cmd() -> (r: Vec<String>)
    ensures
        cmd_matches(r@, btc_cli_prefix().push("createwallet"@).push("default"@)),
{
    let mut v = btc_cli_base();
    v.push(String::from_str("createwallet"));
    v.push(String::from_str("default"));
    v
}

/// The call mining `blocks` blocks to an address.
pub fn btc_generatetoaddress_cmd(blocks: u32, address: &str) -> (r: Vec<String>)
    ensures
        cmd_matches(
            r@,
            btc_cli_prefix().push("generatetoaddress"@).push(
                spec_dec_digits(blocks as int),
            ).push(address@),
        ),
{
    let mut v = btc_cli_base();
    v.push(String::from_str("generatetoaddress"));
    v.push(u64_to_dec(blocks as u64));
    v.push(String::from_str(address));
    v
}

/// The call sending an on-chain amount, given in satoshi, to an address.
pub fn btc_sendtoaddress_cmd(address: &str, amount_sats: u64) -> (r: Vec<String>)
    ensures
        cmd_matches(
            r@,
            btc_cli_prefix().push("sendtoaddress"@).push(address@).push(
                spec_btc_string(amount_sats),
            ),
        ),
{
    let mut v = btc_cli_base();
    v.push(String::from_str("sendtoaddress"));
    v.push(String::from_str(address));
    v.push(sats_to_btc_string(amount_sats));
    v
}

/// A Lightning-node call with one subcommand word.
pub fn lnd_simple_cmd(subcommand: &str) -> (r: Vec<String>)
    ensures
        cmd_matches(r@, lncli_prefix().push(subcommand@)),
{
    let mut v = lncli_base();
    v.push(String::from_str(subcommand));
    v
}

/// The call asking the Lightning node for a fresh deposit address.
pub fn lnd_newaddress_cmd() -> (r: Vec<String>)
    ensures
        cmd_matches(r@, lncli_prefix().push("newaddress"@).push("p2wkh"@)),
{
    let mut v = lncli_base();
    v.push(String::from_str("newaddress"));
    v.push(String::from_str("p2wkh"));
    v
}

/// The call connecting to a peer at `pubkey@host`.
pub fn lnd_connect_cmd(peer_pubkey: &str, peer_host: &str) -> (r: Vec<String>)
    ensures
        cmd_matches(
            r@,
            lncli_prefix().push("connect"@).push(peer_pubkey@ + "@"@ + peer_host@),
        ),
{
    let mut v = lncli_base();
    v.push(String::from_str("connect"));
    let mut addr = String::from_str(peer_pubkey);
    addr.append("@");
    addr.append(peer_host);
    v.push(addr);
    v
}

/// The call opening a channel to a peer with the given capacity in satoshi
/// and an optional push amount.
pub fn lnd_openchannel_cmd(peer_pubkey: &str, amount_sats: u64, push_sats: Option<u64>) -> (r: Vec<
    String,
>)
    ensures
        cmd_matches(
            r@,
            match push_sats {
                Some(p) => lncli_prefix().push("openchannel"@).push(peer_pubkey@).push(
                    spec_dec_digits(amount_sats as int),
                ).push(spec_dec_digits(p as int)),
                None => lncli_prefix().push("openchannel"@).push(peer_pubkey@).push(
                    spec_dec_digits(amount_sats as int),
                ),
            },
        ),
{
    let mut v = lncli_base();
    v.push(String::from_str("openchannel"));
    v.push(String::from_str(peer_pubkey));
    v.push(u64_to_dec(amount_sats));
    match push_sats {
        Some(p) => {
            v.push(u64_to_dec(p));
        },
        None => {},
    }
    v
}

/// The call closing the channel at a channel point, cooperatively or by
/// force.
pub fn lnd_closechannel_cmd(channel_point: &str, force: bool) -> (r: Vec<String>)
    ensures
        cmd_matches(
            r@,
            if force {
                lncli_prefix().push("closechannel"@).push("--chan_point"@).push(
                    channel_point@,
                ).push("--force"@)
            } else {
                lncli_prefix().push("closechannel"@).push("--chan_point"@).push(channel_point@)
            },
        ),
{
    let mut v = lncli_base();
    v.push(String::from_str("closechannel"));
    v.push(String::from_str("--chan_point"));
    v.push(String::from_str(channel_point));
    if force {
        v.push(String::from_str("--force"));
    }
    v
}

/// The call creating an invoice over an amount in satoshi, with an optional
/// memo.
pub fn lnd_addinvoice_cmd(amount_sats: u64, memo: Option<&str>) -> (r: Vec<String>)
    ensures
        cmd_matches(
            r@,
            match memo {
                Some(m) => lncli_prefix().push("addinvoice"@).push("--json"@).push("--amt"@).push(
                    spec_dec_digits(amount_sats as int),
                ).push("--memo"@).push(m@),
                None => lncli_prefix().push("addinvoice"@).push("--json"@).push("--amt"@).push(
                    spec_dec_digits(amount_sats as int),
                ),
            },
        ),
{
    let mut v = lncli_base();
    v.push(String::from_str("addinvoice"));
    v.push(String::from_str("--json"));
    v.push(String::from_str("--amt"));
    v.push(u64_to_dec(amount_sats));
    match memo {
        Some(m) => {
            v.push(String::from_str("--memo"));
            v.push(String::from_str(m));
        },
        None => {},
    }
    v
}

/// The call paying a payment request.
pub fn lnd_payinvoice_cmd(payment_request: &str) -> (r: Vec<String>)
    ensures
        cmd_matches(
            r@,
            lncli_prefix().push("payinvoice"@).push("--json"@).push("--force"@).push(
                payment_request@,
            ),
        ),
{
    let mut v = lncli_base();
    v.push(String::from_str("payinvoice"));
    v.push(String::from_str("--json"));
    v.push(String::from_str("--force"));
    v.push(String::from_str(payment_request));
    v
}

/// The container name of the full node with the given identifier.
pub open spec fn spec_btc_container_name(id: u128) -> Seq<char> {
    "polar-btc-"@ + spec_id_str(id)
}

/// Renders the container name of a full node.
pub fn btc_container_name(id: u128) -> (r: String)
    ensures
        r@ == spec_btc_container_name(id),
{
    let mut s = String::from_str("polar-btc-");
    let ids = id_to_string(id);
    s.append(ids.as_str());
    s
}

/// The container name of the Lightning node with the given identifier.
pub open spec fn spec_lnd_container_name(id: u128) -> Seq<char> {
    "polar-lnd-"@ + spec_id_str(id)
}

/// Renders the container name of a Lightning node.
pub fn lnd_container_name(id: u128) -> (r: String)
    ensures
        r@ == spec_lnd_container_name(id),
{
    let mut s = String::from_str("polar-lnd-");
    let ids = id_to_string(id);
    s.append(ids.as_str());
    s
}

/// The isolated container-network name of the network with the given
/// identifier.
pub open spec fn spec_docker_network_name(id: u128) -> Seq<char> {
    "polar-"@ + spec_id_str(id)
}

/// Renders the isolated container-network name of a network.
pub fn docker_network_name(id: u128) -> (r: String)
    ensures
        r@ == spec_docker_network_name(id),
{
    let mut s = String::from_str("polar-");
    let ids = id_to_string(id);
    s.append(ids.as_str());
    s
}

/// The peer endpoint of a Lightning node inside the isolated network: its
/// container name and the fixed peer port.
pub open spec fn spec_peer_host(id: u128) -> Seq<char> {
    spec_lnd_container_name(id) + ":9735"@
}

/// Renders the in-network peer endpoint of a Lightning node.
pub fn peer_host(id: u128) -> (r: String)
    ensures
        r@ == spec_peer_host(id),
{
    let mut s = lnd_container_name(id);
    s.append(":9735");
    s
}

/// The start command of a full-node container: regtest mode, RPC
/// credentials, notification endpoints and a fallback fee.
pub open spec fn spec_bitcoind_start_cmd() -> Seq<Seq<char>> {
    seq![
        "bitcoind"@,
        "-regtest"@,
        "-server"@,
        "-rpcuser=polaruser"@,
        "-rpcpassword=polarpass"@,
        "-rpcallowip=0.0.0.0/0"@,
        "-rpcbind=0.0.0.0"@,
        "-zmqpubrawblock=tcp://0.0.0.0:28334"@,
        "-zmqpubrawtx=tcp://0.0.0.0:28335"@,
        "-fallbackfee=0.00001"@,
    ]
}

/// Builds the start command of a full-node container.
pub fn bitcoind_start_cmd() -> (r: Vec<String>)
    ensures
        cmd_matches(r@, spec_bitcoind_start_cmd()),
{
    let mut v: Vec<String> = Vec::new();
    v.push(String::from_str("bitcoind"));
    v.push(String::from_str("-regtest"));
    v.push(String::from_str("-server"));
    v.push(String::from_str("-rpcuser=polaruser"));
    v.push(String::from_str("-rpcpassword=polarpass"));
    v.push(String::from_str("-rpcallowip=0.0.0.0/0"));
    v.push(String::from_str("-rpcbind=0.0.0.0"));
    v.push(String::from_str("-zmqpubrawblock=tcp://0.0.0.0:28334"));
    v.push(String::from_str("-zmqpubrawtx=tcp://0.0.0.0:28335"));
    v.push(String::from_str("-fallbackfee=0.00001"));
    v
}

/// The start command of a Lightning-node container, wired to the full node
/// whose container id it names.
pub open spec fn spec_lnd_start_cmd(alias: Seq<char>, btc_id: u128) -> Seq<Seq<char>> {
    seq![
        "lnd"@,
        "--noseedbackup"@,
        "--trickledelay=5000"@,
        "--alias="@ + alias,
        "--debuglevel=info"@,
        "--bitcoin.active"@,
        "--bitcoin.regtest"@,
        "--bitcoin.node=bitcoind"@,
        "--bitcoind.rpchost="@ + spec_btc_container_name(btc_id),
        "--bitcoind.rpcuser=polaruser"@,
        "--bitcoind.rpcpass=polarpass"@,
        "--bitcoind.zmqpubrawblock=tcp://"@ + spec_btc_container_name(btc_id) + ":28334"@,
        "--bitcoind.zmqpubrawtx=tcp://"@ + spec_btc_container_name(btc_id) + ":28335"@,
    ]
}

/// Builds the start command of a Lightning-node container pointed at the
/// full node as its chain backend.
pub fn lnd_start_cmd(alias: &str, btc_id: u128) -> (r: Vec<String>)
    ensures
        cmd_matches(r@, spec_lnd_start_cmd(alias@, btc_id)),
{
    let btc_name = btc_container_name(btc_id);
    let mut v: Vec<String> = Vec::new();
    v.push(String::from_str("lnd"));
    v.push(String::from_str("--noseedbackup"));
    v.push(String::from_str("--trickledelay=5000"));
    let mut alias_arg = String::from_str("--alias=");
    alias_arg.append(alias);
    v.push(alias_arg);
    v.push(String::from_str("--debuglevel=info"));
    v.push(String::from_str("--bitcoin.active"));
    v.push(String::from_str("--bitcoin.regtest"));
    v.push(String::from_str("--bitcoin.node=bitcoind"));
    let mut rpchost = String::from_str("--bitcoind.rpchost=");
    rpchost.append(btc_name.as_str());
    v.push(rpchost);
    v.push(String::from_str("--bitcoind.rpcuser=polaruser"));
    v.push(String::from_str("--bitcoind.rpcpass=polarpass"));
    let mut zmqb = String::from_str("--bitcoind.zmqpubrawblock=tcp://");
    zmqb.append(btc_name.as_str());
    zmqb.append(":28334");
    v.push(zmqb);
    let mut zmqt = String::from_str("--bitcoind.zmqpubrawtx=tcp://");
    zmqt.append(btc_name.as_str());
    zmqt.append(":28335");
    v.push(zmqt);
    v
}

} // verus!
