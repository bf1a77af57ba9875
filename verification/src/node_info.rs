//! Node information snapshots and their assembly from RPC responses.

use vstd::prelude::*;

use crate::error::{EngineResult, Error};
use crate::jsonrpc::{
    json_arr_bool, json_arr_str, json_array_len, json_bool_field, json_field_text,
    json_get_arr_bool, json_get_arr_str, json_get_array_len, json_get_bool, json_get_field_text,
    json_get_str, json_get_u64, json_is_valid, json_str_field, json_u64_field, json_valid,
};
use crate::numstr::{parse_i64, spec_parse_i64, spec_trim, trim_str};
use crate::responses::{bool_or, sats_or_zero, str_or_unknown, u64_or_zero};

verus! {

/// Information about a Bitcoin Core node. Amounts are in satoshi; the
/// difficulty is kept as the JSON text the node answered.
#[derive(Debug, Clone, PartialEq)]
pub struct BitcoinNodeInfo {
    /// Node version.
    pub version: String,
    /// Block height.
    pub blocks: u64,
    /// Chain name, such as `regtest`.
    pub chain: String,
    /// Number of connections.
    pub connections: u32,
    /// Network difficulty, as answered.
    pub difficulty: String,
    /// Whether the initial block download has completed.
    pub ibd_complete: bool,
    /// Wallet balance in satoshi.
    pub balance_sats: u64,
    /// RPC endpoint, host and port.
    pub rpc_host: String,
    /// P2P endpoint, host and port.
    pub p2p_host: String,
}

/// Information about a Lightning channel.
#[derive(Debug, Clone, PartialEq)]
pub struct ChannelInfo {
    /// Channel point: funding transaction id and output index.
    pub channel_point: String,
    /// Remote node public key.
    pub remote_pubkey: String,
    /// Channel capacity in satoshi.
    pub capacity: i64,
    /// Local balance in satoshi.
    pub local_balance: i64,
    /// Remote balance in satoshi.
    pub remote_balance: i64,
    /// Whether the channel is active.
    pub active: bool,
}

/// Information about an LND node.
#[derive(Debug, Clone, PartialEq)]
pub struct LndNodeInfo {
    /// Node alias.
    pub alias: String,
    /// Node version.
    pub version: String,
    /// Identity public key.
    pub identity_pubkey: String,
    /// Number of active channels.
    pub num_active_channels: u32,
    /// Number of pending channels.
    pub num_pending_channels: u32,
    /// Number of peers.
    pub num_peers: u32,
    /// Whether the node is synced to the chain.
    pub synced_to_chain: bool,
    /// Whether the node is synced to the graph.
    pub synced_to_graph: bool,
    /// Block height.
    pub block_height: u32,
    /// Block hash.
    pub block_hash: String,
    /// Wallet balance in satoshi.
    pub wallet_balance: i64,
    /// Channel balance in satoshi.
    pub channel_balance: i64,
    /// REST endpoint, host and port.
    pub rest_host: String,
    /// gRPC endpoint, host and port.
    pub grpc_host: String,
    /// Current channels.
    pub channels: Vec<ChannelInfo>,
}

/// Unified node information.
#[derive(Debug, Clone, PartialEq)]
pub enum NodeInfo {
    /// Bitcoin Core node information.
    Bitcoin(BitcoinNodeInfo),
    /// LND node information.
    Lnd(LndNodeInfo),
}

/// A host port binding as the container runtime reports it: optionally a
/// bound address and port text.
pub type HostBinding = Option<(Option<String>, Option<String>)>;

/// The endpoint text derived from a reported binding: `address:port` with
/// the runtime's defaults filled in, or the bare container port when the
/// container reports no binding.
pub open spec fn spec_host_endpoint(b: HostBinding, container_port: Seq<char>) -> Seq<char> {
    match b {
        None => container_port,
        Some(p) => (match p.0 {
            Some(ip) => ip@,
            None => "0.0.0.0"@,
        }) + ":"@ + (match p.1 {
            Some(port) => port@,
            None => container_port,
        }),
    }
}

/// Derives the host-facing endpoint text for one container port.
pub fn host_endpoint(b: &HostBinding, container_port: &str) -> (r: String)
    ensures
        r@ == spec_host_endpoint(*b, container_port@),
{
    match b {
        None => String::from_str(container_port),
        Some(p) => {
            let mut out: String = match &p.0 {
                Some(ip) => String::from_str(ip.as_str()),
                None => String::from_str("0.0.0.0"),
            };
            out.append(":");
            match &p.1 {
                Some(port) => out.append(port.as_str()),
                None => out.append(container_port),
            }
            out
        },
    }
}

/// The lowest thirty-two bits of a value: counters in a snapshot are kept
/// as thirty-two bit numbers.
pub open spec fn trunc_u32(v: u64) -> u32 {
    (v % 0x100000000) as u32
}

fn trunc_u32_exec(v: u64) -> (r: u32)
    ensures
        r == trunc_u32(v),
{
    (v % 0x100000000) as u32
}

/// The signed satoshi amount a string-typed JSON field decodes to, or zero.
pub open spec fn i64_str_field_or_zero(s: Seq<char>, key: Seq<char>) -> i64 {
    match json_str_field(s, key) {
        Some(t) => match spec_parse_i64(t) {
            Some(v) => v,
            None => 0,
        },
        None => 0,
    }
}

fn get_i64_str_field(raw: &str, key: &str) -> (r: i64)
    ensures
        r == i64_str_field_or_zero(raw@, key@),
{
    match json_get_str(raw, key) {
        Some(t) => match parse_i64(t.as_str()) {
            Some(v) => v,
            None => 0,
        },
        None => 0,
    }
}

fn field_str_or_unknown(raw: &str, key: &str) -> (r: String)
    ensures
        r@ == str_or_unknown(json_str_field(raw@, key@)),
{
    match json_get_str(raw, key) {
        Some(s) => s,
        None => String::from_str("unknown"),
    }
}

fn field_u64_or_zero(raw: &str, key: &str) -> (r: u64)
    ensures
        r == u64_or_zero(json_u64_field(raw@, key@)),
{
    match json_get_u64(raw, key) {
        Some(v) => v,
        None => 0,
    }
}

fn field_bool_or(raw: &str, key: &str, d: bool) -> (r: bool)
    ensures
        r == bool_or(json_bool_field(raw@, key@), d),
{
    match json_get_bool(raw, key) {
        Some(b) => b,
        None => d,
    }
}

/// The number of channel records in a `listchannels` response, zero when the
/// array is absent.
pub open spec fn spec_channel_count(raw: Seq<char>) -> int {
    match json_array_len(raw, "channels"@) {
        Some(n) => if n >= 0 {
            n
        } else {
            0
        },
        None => 0,
    }
}

/// The channel record the `listchannels` response describes at one index,
/// field by field, with the defaults the assembly fills in.
pub open spec fn channel_matches(raw: Seq<char>, i: int, c: ChannelInfo) -> bool {
    &&& c.channel_point@ == str_or_unknown(json_arr_str(raw, "channels"@, i, "channel_point"@))
    &&& c.remote_pubkey@ == str_or_unknown(json_arr_str(raw, "channels"@, i, "remote_pubkey"@))
    &&& c.capacity == arr_i64_or_zero(raw, i, "capacity"@)
    &&& c.local_balance == arr_i64_or_zero(raw, i, "local_balance"@)
    &&& c.remote_balance == arr_i64_or_zero(raw, i, "remote_balance"@)
    &&& c.active == bool_or(json_arr_bool(raw, "channels"@, i, "active"@), false)
}

/// The signed number a string field of one channel record decodes to, or
/// zero.
pub open spec fn arr_i64_or_zero(raw: Seq<char>, i: int, field: Seq<char>) -> i64 {
    match json_arr_str(raw, "channels"@, i, field) {
        Some(t) => match spec_parse_i64(t) {
            Some(v) => v,
            None => 0,
        },
        None => 0,
    }
}

fn get_arr_i64(raw: &str, i: usize, field: &str) -> (r: i64)
    ensures
        r == arr_i64_or_zero(raw@, i as int, field@),
{
    match json_get_arr_str(raw, "channels", i, field) {
        Some(t) => match parse_i64(t.as_str()) {
            Some(v) => v,
            None => 0,
        },
        None => 0,
    }
}

fn get_arr_str_or_unknown(raw: &str, i: usize, field: &str) -> (r: String)
    ensures
        r@ == str_or_unknown(json_arr_str(raw@, "channels"@, i as int, field@)),
{
    match json_get_arr_str(raw, "channels", i, field) {
        Some(s) => s,
        None => String::from_str("unknown"),
    }
}

/// Reads the channel list out of a `listchannels` response; a response
/// without the array yields an empty list.
pub fn parse_channel_list(raw: &str) -> (r: Vec<ChannelInfo>)
    ensures
        r@.len() == spec_channel_count(raw@),
        forall|i: int| 0 <= i < r@.len() ==> channel_matches(raw@, i, #[trigger] r@[i]),
{
    let count: usize = match json_get_array_len(raw, "channels") {
        Some(n) => n,
        None => 0,
    };
    let mut out: Vec<ChannelInfo> = Vec::new();
    let mut i: usize = 0;
    while i < count
        invariant
            i <= count,
            count as int == spec_channel_count(raw@),
            out@.len() == i,
            forall|j: int| 0 <= j < i ==> channel_matches(raw@, j, #[trigger] out@[j]),
        decreases count - i,
    {
        let c = ChannelInfo {
            channel_point: get_arr_str_or_unknown(raw, i, "channel_point"),
            remote_pubkey: get_arr_str_or_unknown(raw, i, "remote_pubkey"),
            capacity: get_arr_i64(raw, i, "capacity"),
            local_balance: get_arr_i64(raw, i, "local_balance"),
            remote_balance: get_arr_i64(raw, i, "remote_balance"),
            active: match json_get_arr_bool(raw, "channels", i, "active") {
                Some(b) => b,
                None => false,
            },
        };
        out.push(c);
        i += 1;
    }
    out
}

/// What a successfully assembled Bitcoin Core snapshot holds, field by
/// field, in terms of the three captured responses and the two reported
/// bindings.
pub open spec fn bitcoin_info_matches(
    info: BitcoinNodeInfo,
    blockchain_raw: Seq<char>,
    network_raw: Seq<char>,
    balance_raw: Seq<char>,
    rpc_binding: HostBinding,
    p2p_binding: HostBinding,
) -> bool {
    &&& info.version@ == str_or_unknown(json_str_field(network_raw, "subversion"@))
    &&& info.blocks == u64_or_zero(json_u64_field(blockchain_raw, "blocks"@))
    &&& info.chain@ == str_or_unknown(json_str_field(blockchain_raw, "chain"@))
    &&& info.connections == trunc_u32(u64_or_zero(json_u64_field(network_raw, "connections"@)))
    &&& info.difficulty@ == str_or_unknown(json_field_text(blockchain_raw, "difficulty"@))
    &&& info.ibd_complete == !bool_or(
        json_bool_field(blockchain_raw, "initialblockdownload"@),
        true,
    )
    &&& info.balance_sats == sats_or_zero(spec_trim(balance_raw))
    &&& info.rpc_host@ == spec_host_endpoint(rpc_binding, "18443"@)
    &&& info.p2p_host@ == spec_host_endpoint(p2p_binding, "18444"@)
}

/// Assembles a Bitcoin Core snapshot from the captured responses to
/// `getblockchaininfo`, `getnetworkinfo` and `getbalance`, and the reported
/// RPC and P2P bindings. A response that is not JSON is a configuration
/// error; absent fields fall back to fixed defaults, as does an unreadable
/// balance.
pub fn assemble_bitcoin_info(
    blockchain_raw: &str,
    network_raw: &str,
    balance_raw: &str,
    rpc_binding: HostBinding,
    p2p_binding: HostBinding,
) -> (r: EngineResult<BitcoinNodeInfo>)
    ensures
        match r {
            Ok(info) => json_valid(blockchain_raw@) && json_valid(network_raw@)
                && bitcoin_info_matches(
                info,
                blockchain_raw@,
                network_raw@,
                balance_raw@,
                rpc_binding,
                p2p_binding,
            ),
            Err(e) => e is Config && (!json_valid(blockchain_raw@) || !json_valid(network_raw@)),
        },
{
    if !json_is_valid(blockchain_raw) {
        return Err(Error::Config(String::from_str("Failed to parse blockchain info")));
    }
    if !json_is_valid(network_raw) {
        return Err(Error::Config(String::from_str("Failed to parse network info")));
    }
    let balance_trimmed = trim_str(balance_raw);
    let balance_sats: u64 = match crate::numstr::parse_btc_sats(balance_trimmed.as_str()) {
        Some(v) => v,
        None => 0,
    };
    Ok(
        BitcoinNodeInfo {
            version: field_str_or_unknown(network_raw, "subversion"),
            blocks: field_u64_or_zero(blockchain_raw, "blocks"),
            chain: field_str_or_unknown(blockchain_raw, "chain"),
            connections: trunc_u32_exec(field_u64_or_zero(network_raw, "connections")),
            difficulty: match json_get_field_text(blockchain_raw, "difficulty") {
                Some(t) => t,
                None => String::from_str("unknown"),
            },
            ibd_complete: !field_bool_or(blockchain_raw, "initialblockdownload", true),
            balance_sats,
            rpc_host: host_endpoint(&rpc_binding, "18443"),
            p2p_host: host_endpoint(&p2p_binding, "18444"),
        },
    )
}

/// What a successfully assembled LND snapshot holds, field by field, in
/// terms of the four captured responses and the two reported bindings.
pub open spec fn lnd_info_matches(
    info: LndNodeInfo,
    getinfo_raw: Seq<char>,
    wallet_raw: Seq<char>,
    channel_raw: Seq<char>,
    channels_raw: Seq<char>,
    rest_binding: HostBinding,
    grpc_binding: HostBinding,
) -> bool {
    &&& info.alias@ == str_or_unknown(json_str_field(getinfo_raw, "alias"@))
    &&& info.version@ == str_or_unknown(json_str_field(getinfo_raw, "version"@))
    &&& info.identity_pubkey@ == str_or_unknown(json_str_field(getinfo_raw, "identity_pubkey"@))
    &&& info.num_active_channels == trunc_u32(
        u64_or_zero(json_u64_field(getinfo_raw, "num_active_channels"@)),
    )
    &&& info.num_pending_channels == trunc_u32(
        u64_or_zero(json_u64_field(getinfo_raw, "num_pending_channels"@)),
    )
    &&& info.num_peers == trunc_u32(u64_or_zero(json_u64_field(getinfo_raw, "num_peers"@)))
    &&& info.synced_to_chain == bool_or(json_bool_field(getinfo_raw, "synced_to_chain"@), false)
    &&& info.synced_to_graph == bool_or(json_bool_field(getinfo_raw, "synced_to_graph"@), false)
    &&& info.block_height == trunc_u32(u64_or_zero(json_u64_field(getinfo_raw, "block_height"@)))
    &&& info.block_hash@ == str_or_unknown(json_str_field(getinfo_raw, "block_hash"@))
    &&& info.wallet_balance == i64_str_field_or_zero(wallet_raw, "confirmed_balance"@)
    &&& info.channel_balance == i64_str_field_or_zero(channel_raw, "balance"@)
    &&& info.rest_host@ == spec_host_endpoint(rest_binding, "8080"@)
    &&& info.grpc_host@ == spec_host_endpoint(grpc_binding, "10009"@)
    &&& info.channels@.len() == spec_channel_count(channels_raw)
    &&& forall|i: int|
        0 <= i < info.channels@.len() ==> channel_matches(
            channels_raw,
            i,
            #[trigger] info.channels@[i],
        )
}

/// Assembles an LND snapshot from the captured responses to `getinfo`,
/// `walletbalance`, `channelbalance` and `listchannels`, and the reported
/// REST and gRPC bindings. A response that is not JSON is a configuration
/// error; absent fields fall back to fixed defaults.
pub fn assemble_lnd_info(
    getinfo_raw: &str,
    wallet_raw: &str,
    channel_raw: &str,
    channels_raw: &str,
    rest_binding: HostBinding,
    grpc_binding: HostBinding,
) -> (r: EngineResult<LndNodeInfo>)
    ensures
        match r {
            Ok(info) => json_valid(getinfo_raw@) && json_valid(wallet_raw@) && json_valid(
                channel_raw@,
            ) && json_valid(channels_raw@) && lnd_info_matches(
                info,
                getinfo_raw@,
                wallet_raw@,
                channel_raw@,
                channels_raw@,
                rest_binding,
                grpc_binding,
            ),
            Err(e) => e is Config && (!json_valid(getinfo_raw@) || !json_valid(wallet_raw@)
                || !json_valid(channel_raw@) || !json_valid(channels_raw@)),
        },
{
    if !json_is_valid(getinfo_raw) {
        return Err(Error::Config(String::from_str("Failed to parse getinfo")));
    }
    if !json_is_valid(wallet_raw) {
        return Err(Error::Config(String::from_str("Failed to parse wallet balance")));
    }
    if !json_is_valid(channel_raw) {
        return Err(Error::Config(String::from_str("Failed to parse channel balance")));
    }
    if !json_is_valid(channels_raw) {
        return Err(Error::Config(String::from_str("Failed to parse channels list")));
    }
    Ok(
        LndNodeInfo {
            alias: field_str_or_unknown(getinfo_raw, "alias"),
            version: field_str_or_unknown(getinfo_raw, "version"),
            identity_pubkey: field_str_or_unknown(getinfo_raw, "identity_pubkey"),
            num_active_channels: trunc_u32_exec(
                field_u64_or_zero(getinfo_raw, "num_active_channels"),
            ),
            num_pending_channels: trunc_u32_exec(
                field_u64_or_zero(getinfo_raw, "num_pending_channels"),
            ),
            num_peers: trunc_u32_exec(field_u64_or_zero(getinfo_raw, "num_peers")),
            synced_to_chain: field_bool_or(getinfo_raw, "synced_to_chain", false),
            synced_to_graph: field_bool_or(getinfo_raw, "synced_to_graph", false),
            block_height: trunc_u32_exec(field_u64_or_zero(getinfo_raw, "block_height")),
            block_hash: field_str_or_unknown(getinfo_raw, "block_hash"),
            wallet_balance: get_i64_str_field(wallet_raw, "confirmed_balance"),
            channel_balance: get_i64_str_field(channel_raw, "balance"),
            rest_host: host_endpoint(&rest_binding, "8080"),
            grpc_host: host_endpoint(&grpc_binding, "10009"),
            channels: parse_channel_list(channels_raw),
        },
    )
}

} // verus!
