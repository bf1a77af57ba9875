use polar::node_info::{assemble_bitcoin_info, assemble_lnd_info, host_endpoint, parse_channel_list};
use polar::numstr::{parse_btc_sats, parse_i64, parse_u64, sats_to_btc_string, trim_str, u64_to_dec};
use polar::responses::{
    count_synced, parse_balance_sats, parse_block_hashes, parse_funding_txid, parse_new_address,
    parse_payment_hash, parse_payment_request, parse_plain_text, parse_pubkey,
    parse_synced_to_chain,
};
use polar::error::Error;
use polar::ids::id_to_string;
use polar::numstr::str_contains;
use polar::responses::map_wallet_error;

#[test]
fn test_decimal_rendering() {
    assert_eq!(u64_to_dec(0), "0");
    assert_eq!(u64_to_dec(7), "7");
    assert_eq!(u64_to_dec(1234567890), "1234567890");
}

#[test]
fn test_decimal_parsing() {
    assert_eq!(parse_u64("0"), Some(0));
    assert_eq!(parse_u64("101"), Some(101));
    assert_eq!(parse_u64("18446744073709551615"), Some(u64::MAX));
    assert_eq!(parse_u64("18446744073709551616"), None);
    assert_eq!(parse_u64(""), None);
    assert_eq!(parse_u64("12a"), None);
    assert_eq!(parse_i64("-42"), Some(-42));
    assert_eq!(parse_i64("42"), Some(42));
    assert_eq!(parse_i64("-"), None);
}

#[test]
fn test_btc_amount_rendering() {
    assert_eq!(sats_to_btc_string(100_000_000), "1.00000000");
    assert_eq!(sats_to_btc_string(0), "0.00000000");
    assert_eq!(sats_to_btc_string(50_000), "0.00050000");
    assert_eq!(sats_to_btc_string(123_456_789_012), "1234.56789012");
}

#[test]
fn test_btc_amount_parsing() {
    assert_eq!(parse_btc_sats("1.00000000"), Some(100_000_000));
    assert_eq!(parse_btc_sats("0.00000000"), Some(0));
    assert_eq!(parse_btc_sats("0"), Some(0));
    assert_eq!(parse_btc_sats("50"), Some(5_000_000_000));
    assert_eq!(parse_btc_sats("0.5"), Some(50_000_000));
    assert_eq!(parse_btc_sats("1.234567891"), None, "more than eight decimals");
    assert_eq!(parse_btc_sats("1."), None);
    assert_eq!(parse_btc_sats("abc"), None);
    assert_eq!(parse_btc_sats("1.2.3"), None);
}

#[test]
fn test_trim() {
    assert_eq!(trim_str("  x  "), "x");
    assert_eq!(trim_str("\nabc\r\n"), "abc");
    assert_eq!(trim_str("   "), "");
    assert_eq!(trim_str("inner space kept"), "inner space kept");
}

#[test]
fn test_balance_response() {
    assert_eq!(parse_balance_sats("50.00000000\n").unwrap(), 5_000_000_000);
    let err = parse_balance_sats("fifty\n").unwrap_err();
    assert!(matches!(err, Error::Config(_)));
}

#[test]
fn test_plain_text_response() {
    let txid = "9f86d081884c7d659a2feaa0c55ad015a3bf4f1b2b0b822cd15d6c15b0f00a08";
    assert_eq!(parse_plain_text(&format!("{}\n", txid)), txid);
}

#[test]
fn test_block_hashes_response() {
    let raw = r#"["00aa", "00bb", "00cc"]"#;
    let hashes = parse_block_hashes(raw).unwrap();
    assert_eq!(hashes, vec!["00aa", "00bb", "00cc"]);
    assert!(matches!(parse_block_hashes("oops"), Err(Error::Config(_))));
}

#[test]
fn test_required_field_responses() {
    assert_eq!(
        parse_new_address(r#"{"address": "bcrt1qxyz"}"#).unwrap(),
        "bcrt1qxyz"
    );
    assert!(parse_new_address(r#"{"other": 1}"#).is_err());
    assert!(parse_new_address("not json").is_err());
    assert_eq!(
        parse_pubkey(r#"{"identity_pubkey": "02abcd"}"#).unwrap(),
        "02abcd"
    );
    assert_eq!(
        parse_funding_txid(r#"{"funding_txid": "deadbeef"}"#).unwrap(),
        "deadbeef"
    );
    assert_eq!(
        parse_payment_request(r#"{"payment_request": "lnbcrt1..."}"#).unwrap(),
        "lnbcrt1..."
    );
    let hash64 = "a".repeat(64);
    let raw = format!(r#"{{"payment_hash": "{}"}}"#, hash64);
    let hash = parse_payment_hash(&raw).unwrap();
    assert_eq!(hash.len(), 64);
}

#[test]
fn test_sync_flags() {
    assert!(parse_synced_to_chain(r#"{"synced_to_chain": true}"#));
    assert!(!parse_synced_to_chain(r#"{"synced_to_chain": false}"#));
    assert!(!parse_synced_to_chain("garbage"));
    let outputs = vec![
        r#"{"synced_to_chain": true}"#.to_string(),
        r#"{"synced_to_chain": false}"#.to_string(),
        r#"{"synced_to_chain": true}"#.to_string(),
    ];
    assert_eq!(count_synced(&outputs), 2);
}

#[test]
fn test_host_endpoint() {
    assert_eq!(host_endpoint(&None, "8080"), "8080");
    assert_eq!(
        host_endpoint(&Some((None, Some("20000".to_string()))), "8080"),
        "0.0.0.0:20000"
    );
    assert_eq!(
        host_endpoint(&Some((Some("127.0.0.1".to_string()), None)), "8080"),
        "127.0.0.1:8080"
    );
}

#[test]
fn test_assemble_bitcoin_info() {
    let blockchain = r#"{"blocks": 101, "chain": "regtest", "difficulty": 1, "initialblockdownload": false}"#;
    let network = r#"{"subversion": "/Satoshi:28.0.0/", "connections": 3}"#;
    let info = assemble_bitcoin_info(
        blockchain,
        network,
        "50.00000000\n",
        Some((Some("0.0.0.0".to_string()), Some("20000".to_string()))),
        None,
    )
    .unwrap();
    assert_eq!(info.blocks, 101);
    assert_eq!(info.chain, "regtest");
    assert_eq!(info.version, "/Satoshi:28.0.0/");
    assert_eq!(info.connections, 3);
    assert_eq!(info.difficulty, "1");
    assert!(info.ibd_complete);
    assert_eq!(info.balance_sats, 5_000_000_000);
    assert_eq!(info.rpc_host, "0.0.0.0:20000");
    assert_eq!(info.p2p_host, "18444");

    assert!(assemble_bitcoin_info("nope", network, "0", None, None).is_err());
}

#[test]
fn test_assemble_lnd_info() {
    let getinfo = r#"{"alias": "polar-node-1", "version": "0.18.5-beta", "identity_pubkey": "02aa",
        "num_active_channels": 1, "num_pending_channels": 0, "num_peers": 2,
        "synced_to_chain": true, "synced_to_graph": false, "block_height": 107,
        "block_hash": "00ff"}"#;
    let wallet = r#"{"confirmed_balance": "99817100"}"#;
    let channel = r#"{"balance": "500000"}"#;
    let channels = r#"{"channels": [{"channel_point": "txid:0", "remote_pubkey": "03bb",
        "capacity": "1000000", "local_balance": "500000", "remote_balance": "500000",
        "active": true}]}"#;
    let info = assemble_lnd_info(getinfo, wallet, channel, channels, None, None).unwrap();
    assert_eq!(info.alias, "polar-node-1");
    assert_eq!(info.identity_pubkey, "02aa");
    assert_eq!(info.num_active_channels, 1);
    assert_eq!(info.num_peers, 2);
    assert!(info.synced_to_chain);
    assert!(!info.synced_to_graph);
    assert_eq!(info.block_height, 107);
    assert_eq!(info.wallet_balance, 99_817_100);
    assert_eq!(info.channel_balance, 500_000);
    assert_eq!(info.channels.len(), 1);
    assert_eq!(info.channels[0].channel_point, "txid:0");
    assert_eq!(info.channels[0].capacity, 1_000_000);
    assert_eq!(info.channels[0].local_balance, 500_000);
    assert!(info.channels[0].active);
    assert_eq!(info.rest_host, "8080");
    assert_eq!(info.grpc_host, "10009");

    assert!(assemble_lnd_info("x", wallet, channel, channels, None, None).is_err());
}

#[test]
fn test_channel_list_defaults() {
    // a response without the array yields an empty list; absent fields fall
    // back to fixed defaults
    assert_eq!(parse_channel_list(r#"{}"#).len(), 0);
    let one = parse_channel_list(r#"{"channels": [{}]}"#);
    assert_eq!(one.len(), 1);
    assert_eq!(one[0].channel_point, "unknown");
    assert_eq!(one[0].capacity, 0);
    assert!(!one[0].active);
}

#[test]
fn test_id_rendering() {
    let rendered = id_to_string(0);
    assert_eq!(rendered, "00000000-0000-0000-0000-000000000000");
    let rendered = id_to_string(u128::MAX);
    assert_eq!(rendered, "ffffffff-ffff-ffff-ffff-ffffffffffff");
    let rendered = id_to_string(0x0123456789abcdef0123456789abcdef);
    assert_eq!(rendered, "01234567-89ab-cdef-0123-456789abcdef");
}

#[test]
fn test_error_messages() {
    assert_eq!(
        Error::NetworkNotFound("alpha".to_string()).message(),
        "network not found: alpha"
    );
    assert_eq!(Error::Docker("boom".to_string()).message(), "docker error: boom");
    assert_eq!(Error::Io("disk".to_string()).message(), "io error: disk");
    assert_eq!(
        Error::Serialization("bad record".to_string()).message(),
        "serialization error: bad record"
    );
    assert_eq!(
        Error::NodeNotFound("lnd-9".to_string()).detail(),
        "lnd-9"
    );
}

#[test]
fn test_str_contains() {
    assert!(str_contains("hello world", "o w"));
    assert!(str_contains("abc", ""));
    assert!(str_contains("abc", "abc"));
    assert!(!str_contains("abc", "abcd"));
    assert!(!str_contains("hello", "world"));
}

#[test]
fn test_wallet_error_remap() {
    let raw = Error::Docker("error code -18: No wallet is loaded.".to_string());
    let mapped = map_wallet_error(raw);
    assert!(matches!(mapped, Error::Config(_)));
    assert_eq!(mapped.detail(), "No wallet loaded. Try restarting the network.");
    // every other error passes through unchanged
    let other = map_wallet_error(Error::Docker("connection refused".to_string()));
    assert!(matches!(other, Error::Docker(_)));
    assert_eq!(other.detail(), "connection refused");
}
