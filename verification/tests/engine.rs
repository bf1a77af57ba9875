use polar::codec::{decode_network, encode_network};
use polar::error::Error;
use polar::manager::{fund_check_balance, NetworkManager, DEFAULT_BITCOIN_IMAGE, DEFAULT_LND_IMAGE};
use polar::network::{LightningImpl, NetworkStatus, NodeKind};
use polar::responses::parse_block_hashes;

fn manager_with_network(name: &str, lnd_count: usize) -> NetworkManager {
    let mut m = NetworkManager::new();
    m.create_network_with_config(
        name.to_string(),
        lnd_count,
        "polar-node",
        DEFAULT_LND_IMAGE,
        DEFAULT_BITCOIN_IMAGE,
    )
    .unwrap();
    m
}

/// Drives a start to completion, handing each planned container a fake
/// container id derived from its name.
fn start_fully(m: &mut NetworkManager, name: &str) -> usize {
    let plan = m.start_network_begin(name).unwrap();
    if plan.already_running {
        return 0;
    }
    let count = plan.starts.len();
    for step in &plan.starts {
        let fake = format!("container-{}", step.container_name);
        m.start_node_started(name, step.node_id, fake).unwrap();
    }
    m.start_network_complete(name).unwrap();
    count
}

#[test]
fn test_create_network_layout() {
    let m = manager_with_network("alpha", 2);
    let net = m.get_network("alpha").unwrap();
    assert_eq!(net.status, NetworkStatus::Stopped);
    assert_eq!(net.nodes.len(), 3);
    assert_eq!(net.nodes[0].name, "bitcoin-1");
    assert_eq!(net.nodes[0].kind, NodeKind::BitcoinCore);
    assert_eq!(net.nodes[1].name, "lnd-1");
    assert_eq!(net.nodes[2].name, "lnd-2");
    assert!(net.nodes.iter().all(|n| n.container_id.is_none()));
    assert_eq!(net.port_mappings.len(), 0);
    assert_eq!(net.lnd_version.as_deref(), Some(DEFAULT_LND_IMAGE));
    assert_eq!(net.btc_version.as_deref(), Some(DEFAULT_BITCOIN_IMAGE));
}

#[test]
fn test_create_network_duplicate_name_rejected() {
    let mut m = manager_with_network("alpha", 1);
    let err = m.create_network("alpha".to_string()).unwrap_err();
    assert!(matches!(err, Error::Config(_)));
    assert!(err.message().contains("already exists"));
    assert_eq!(m.networks().len(), 1);
}

#[test]
fn test_start_plan_order_and_contents() {
    let mut m = manager_with_network("beta", 2);
    let plan = m.start_network_begin("beta").unwrap();
    assert!(!plan.already_running);
    assert_eq!(plan.starts.len(), 3);
    assert_eq!(plan.starts[0].kind, NodeKind::BitcoinCore);
    assert!(plan.starts[0].container_name.starts_with("polar-btc-"));
    assert_eq!(plan.starts[0].cmd[0], "bitcoind");
    assert!(plan.starts[0].cmd.contains(&"-regtest".to_string()));
    assert_eq!(
        plan.starts[0].port_bindings,
        vec![(18443, 20000), (18444, 20001), (28334, 20002), (28335, 20003)]
    );
    for (k, step) in plan.starts.iter().enumerate().skip(1) {
        assert_eq!(step.kind, NodeKind::Lnd);
        assert!(step.container_name.starts_with("polar-lnd-"));
        assert_eq!(step.cmd[0], "lnd");
        assert!(step.cmd.contains(&format!("--alias=polar-node-{}", k)));
        let rpchost = step
            .cmd
            .iter()
            .find(|a| a.starts_with("--bitcoind.rpchost="))
            .unwrap();
        assert!(rpchost.contains("polar-btc-"));
        assert_eq!(step.port_bindings.len(), 3);
    }
    assert!(plan.docker_network.starts_with("polar-"));
    // the network is now starting; ports are allocated for every node
    let net = m.get_network("beta").unwrap();
    assert_eq!(net.status, NetworkStatus::Starting);
    assert_eq!(net.port_mappings.len(), 3);
}

// Lifecycle idempotence: a second start of a running network performs no
// container operation; a second stop of a stopped network is a no-op.
#[test]
fn test_lifecycle_idempotence() {
    let mut m = manager_with_network("gamma", 1);
    let started = start_fully(&mut m, "gamma");
    assert_eq!(started, 2);
    assert_eq!(m.network_status("gamma").unwrap(), NetworkStatus::Running);

    let again = m.start_network_begin("gamma").unwrap();
    assert!(again.already_running);
    assert_eq!(again.starts.len(), 0);
    assert_eq!(m.network_status("gamma").unwrap(), NetworkStatus::Running);

    // stop it, then stop again
    let plan = m.stop_network_begin("gamma").unwrap();
    assert!(!plan.already_stopped);
    assert_eq!(plan.lnd_containers.len(), 1);
    assert_eq!(plan.btc_containers.len(), 1);
    for (node_id, _) in plan.lnd_containers.iter().chain(plan.btc_containers.iter()) {
        m.stop_node_stopped("gamma", *node_id).unwrap();
    }
    m.stop_network_complete("gamma").unwrap();
    assert_eq!(m.network_status("gamma").unwrap(), NetworkStatus::Stopped);
    let net = m.get_network("gamma").unwrap();
    assert!(net.nodes.iter().all(|n| n.container_id.is_none()));

    let noop = m.stop_network_begin("gamma").unwrap();
    assert!(noop.already_stopped);
    assert_eq!(noop.lnd_containers.len(), 0);
    assert_eq!(noop.btc_containers.len(), 0);
    assert_eq!(m.network_status("gamma").unwrap(), NetworkStatus::Stopped);
}

#[test]
fn test_start_failure_marks_error() {
    let mut m = manager_with_network("delta", 1);
    let _plan = m.start_network_begin("delta").unwrap();
    m.start_network_failed("delta").unwrap();
    assert_eq!(m.network_status("delta").unwrap(), NetworkStatus::Error);
}

// Mandatory-node invariant: deleting the full node fails in any status and
// leaves the node list unchanged.
#[test]
fn test_cannot_delete_bitcoin_node() {
    let mut m = manager_with_network("epsilon", 2);
    for start_first in [false, true] {
        if start_first {
            start_fully(&mut m, "epsilon");
        }
        let before = m.get_network("epsilon").unwrap().nodes.clone();
        let err = m
            .delete_lightning_node_begin("epsilon", "bitcoin-1")
            .unwrap_err();
        assert!(err.message().contains("Cannot delete Bitcoin node"));
        let err = m
            .delete_lightning_node_commit("epsilon", "bitcoin-1")
            .unwrap_err();
        assert!(err.message().contains("Cannot delete Bitcoin node"));
        let after = m.get_network("epsilon").unwrap().nodes.clone();
        assert_eq!(before, after, "the node list must be unchanged");
    }
}

// Node deletion updates the topology: deleting one of two Lightning nodes
// from a running three-node network leaves one Lightning node in the
// persisted record and stops its container first.
#[test]
fn test_delete_lightning_node_via_network_manager() {
    let mut m = manager_with_network("zeta", 2);
    start_fully(&mut m, "zeta");
    let container = m
        .delete_lightning_node_begin("zeta", "lnd-2")
        .unwrap()
        .expect("a running node has a container to stop");
    assert!(container.starts_with("container-polar-lnd-"));
    m.delete_lightning_node_commit("zeta", "lnd-2").unwrap();
    let net = m.get_network("zeta").unwrap();
    let lnd_count = net.nodes.iter().filter(|n| n.kind == NodeKind::Lnd).count();
    assert_eq!(lnd_count, 1, "should have 1 LND node remaining");
    // the persisted record agrees
    let reloaded = decode_network(encode_network(net).as_str()).unwrap();
    let persisted_lnds = reloaded
        .nodes
        .iter()
        .filter(|n| n.kind == NodeKind::Lnd)
        .count();
    assert_eq!(persisted_lnds, 1);
}

#[test]
fn test_delete_unknown_node() {
    let m = manager_with_network("eta", 1);
    let err = m.delete_lightning_node_begin("eta", "lnd-9").unwrap_err();
    assert!(err.message().contains("not found"));
}

#[test]
fn test_add_lightning_node_stopped_network() {
    let mut m = manager_with_network("theta", 1);
    let (name, step) = m.add_lightning_node("theta", LightningImpl::Lnd).unwrap();
    assert_eq!(name, "lnd-2");
    assert!(step.is_none(), "a stopped network starts nothing");
    let net = m.get_network("theta").unwrap();
    assert_eq!(net.nodes.len(), 3);
    assert_eq!(net.port_mappings.len(), 0);
}

#[test]
fn test_add_lightning_node_running_network() {
    let mut m = manager_with_network("iota", 1);
    start_fully(&mut m, "iota");
    let (name, step) = m.add_lightning_node("iota", LightningImpl::Lnd).unwrap();
    assert_eq!(name, "lnd-2");
    let step = step.expect("a running network starts the new node at once");
    assert_eq!(step.kind, NodeKind::Lnd);
    assert!(step.cmd.contains(&"--alias=polar-node-2".to_string()));
    // the new node got the next port block
    assert_eq!(step.port_bindings, vec![(8080, 20020), (10009, 20021), (9735, 20022)]);
}

#[test]
fn test_remove_network_idempotent() {
    let mut m = manager_with_network("kappa", 1);
    let id = m.remove_network("kappa");
    assert!(id.is_some());
    assert!(m.get_network("kappa").is_none());
    assert!(m.remove_network("kappa").is_none(), "removing again is a no-op");
}

#[test]
fn test_network_not_found_errors() {
    let mut m = NetworkManager::new();
    assert!(matches!(
        m.network_status("missing").unwrap_err(),
        Error::NetworkNotFound(_)
    ));
    assert!(matches!(
        m.start_network_begin("missing").unwrap_err(),
        Error::NetworkNotFound(_)
    ));
    assert!(matches!(
        m.mine_new_address_request("missing").unwrap_err(),
        Error::NetworkNotFound(_)
    ));
}

#[test]
fn test_node_not_found_on_step() {
    let mut m = manager_with_network("lambda", 1);
    let err = m
        .start_node_started("lambda", 424242, "c".to_string())
        .unwrap_err();
    assert!(matches!(err, Error::NodeNotFound(_)));
}

#[test]
fn test_register_loaded_network() {
    let mut m = manager_with_network("mu", 1);
    let copy = m.get_network("mu").unwrap().clone();
    // a record whose name is taken is rejected
    let err = m.register_loaded_network(copy.clone()).unwrap_err();
    assert!(matches!(err, Error::Serialization(_)));
    // the same record under a free name registers
    let mut renamed = copy;
    renamed.name = "mu-2".to_string();
    m.register_loaded_network(renamed).unwrap();
    assert!(m.get_network("mu-2").is_some());
    // a malformed record is rejected
    let mut broken = m.get_network("mu").unwrap().clone();
    broken.name = "mu-3".to_string();
    broken.nodes.clear();
    let err = m.register_loaded_network(broken).unwrap_err();
    assert!(matches!(err, Error::Serialization(_)));
}

// Funding below balance: a zero balance refuses the requested amount and no
// transfer command is ever built.
#[test]
fn test_fund_wallet_insufficient_balance() {
    let mut m = manager_with_network("nu", 1);
    start_fully(&mut m, "nu");
    // the balance request resolves both nodes
    let req = m.fund_balance_request("nu", "lnd-1").unwrap();
    assert_eq!(req.argv.last().unwrap(), "getbalance");
    // the full node reports 0 BTC; asking for 1.0 BTC must fail
    let err = fund_check_balance("0.00000000\n", 100_000_000).unwrap_err();
    assert!(err.message().contains("Insufficient balance"));
    // with enough funds the check passes and the transfer command is exact
    fund_check_balance("50.00000000\n", 100_000_000).unwrap();
    let send = m
        .fund_send_request("nu", "bcrt1qdest", 100_000_000)
        .unwrap();
    assert_eq!(
        send.argv[4..],
        ["sendtoaddress".to_string(), "bcrt1qdest".to_string(), "1.00000000".to_string()]
    );
}

#[test]
fn test_fund_unknown_lnd_node() {
    let mut m = manager_with_network("xi", 1);
    start_fully(&mut m, "xi");
    let err = m.fund_balance_request("xi", "lnd-7").unwrap_err();
    assert!(err.message().contains("LND node 'lnd-7' not found"));
    // the full node's name never resolves as a Lightning node
    let err = m.fund_address_request("xi", "bitcoin-1").unwrap_err();
    assert!(err.message().contains("not found"));
}

// Basic mine: the command mines exactly the requested number of blocks and
// the response parses back as that many hashes.
#[test]
fn test_mine_blocks() {
    let mut m = manager_with_network("omicron", 1);
    // before the network runs, mining is refused
    let err = m.mine_new_address_request("omicron").unwrap_err();
    assert!(err.message().contains("not running"));
    start_fully(&mut m, "omicron");
    let addr_req = m.mine_new_address_request("omicron").unwrap();
    assert_eq!(addr_req.argv.last().unwrap(), "getnewaddress");
    let gen_req = m
        .mine_generate_request("omicron", 10, "bcrt1qminer")
        .unwrap();
    assert_eq!(
        gen_req.argv[4..],
        ["generatetoaddress".to_string(), "10".to_string(), "bcrt1qminer".to_string()]
    );
    // the node answers ten hashes; exactly ten come back
    let hashes: Vec<String> = (0..10).map(|i| format!("hash{:02}", i)).collect();
    let raw = format!(
        "[{}]",
        hashes
            .iter()
            .map(|h| format!("\"{}\"", h))
            .collect::<Vec<_>>()
            .join(", ")
    );
    let parsed = parse_block_hashes(&raw).unwrap();
    assert_eq!(parsed.len(), 10);
    assert_eq!(parsed, hashes);
}

// Channel then payment: opening a channel builds the exact commands, and a
// payment returns the sixty-four character payment hash the node answered.
#[test]
fn test_channel_then_payment_commands() {
    let mut m = manager_with_network("pi", 2);
    start_fully(&mut m, "pi");
    let pk_req = m.channel_pubkey_request("pi", "lnd-2").unwrap();
    assert_eq!(pk_req.argv.last().unwrap(), "getinfo");
    let connect = m
        .channel_connect_request("pi", "lnd-1", "lnd-2", "02abcd")
        .unwrap();
    let peer = connect.argv.last().unwrap();
    assert!(peer.starts_with("02abcd@polar-lnd-"));
    assert!(peer.ends_with(":9735"));
    let open = m
        .channel_open_request("pi", "lnd-1", "02abcd", 1_000_000, Some(500_000))
        .unwrap();
    assert_eq!(
        open.argv[4..],
        [
            "openchannel".to_string(),
            "02abcd".to_string(),
            "1000000".to_string(),
            "500000".to_string()
        ]
    );
    let invoice = m
        .payment_invoice_request("pi", "lnd-1", 10_000, Some("test"))
        .unwrap();
    assert_eq!(
        invoice.argv[4..],
        [
            "addinvoice".to_string(),
            "--json".to_string(),
            "--amt".to_string(),
            "10000".to_string(),
            "--memo".to_string(),
            "test".to_string()
        ]
    );
    let pay = m
        .payment_pay_request("pi", "lnd-2", "lnbcrt1invoice")
        .unwrap();
    assert_eq!(
        pay.argv[4..],
        [
            "payinvoice".to_string(),
            "--json".to_string(),
            "--force".to_string(),
            "lnbcrt1invoice".to_string()
        ]
    );
    let close = m
        .channel_close_request("pi", "lnd-1", "txid:0", true)
        .unwrap();
    assert_eq!(
        close.argv[4..],
        [
            "closechannel".to_string(),
            "--chan_point".to_string(),
            "txid:0".to_string(),
            "--force".to_string()
        ]
    );
}

#[test]
fn test_payment_without_channel_error_surfaces() {
    // the engine cannot pre-check routes: a failed payment surfaces from the
    // node as a missing payment_hash in the captured output
    let raw = r#"{"payment_error": "no route"}"#;
    let err = polar::responses::parse_payment_hash(raw).unwrap_err();
    assert!(matches!(err, Error::Config(_)));
}

#[test]
fn test_sync_graph_pairs() {
    let mut m = manager_with_network("rho", 3);
    start_fully(&mut m, "rho");
    let pairs = m.sync_graph_pair_names("rho").unwrap();
    assert_eq!(
        pairs,
        vec![
            ("lnd-1".to_string(), "lnd-2".to_string()),
            ("lnd-1".to_string(), "lnd-3".to_string()),
            ("lnd-2".to_string(), "lnd-3".to_string()),
        ]
    );
    assert_eq!(m.sync_graph_count("rho").unwrap(), 3);

    let mut single = manager_with_network("rho-single", 1);
    start_fully(&mut single, "rho-single");
    assert_eq!(single.sync_graph_count("rho-single").unwrap(), 0);
    assert_eq!(single.sync_graph_pair_names("rho-single").unwrap().len(), 0);
}

#[test]
fn test_sync_chain_requests_skip_stopped_nodes() {
    let mut m = manager_with_network("sigma", 2);
    start_fully(&mut m, "sigma");
    // stop one Lightning node's container: it is skipped, not counted
    let net = m.get_network("sigma").unwrap();
    let lnd1_id = net.nodes.iter().find(|n| n.name == "lnd-1").unwrap().id;
    m.stop_node_stopped("sigma", lnd1_id).unwrap();
    let reqs = m.sync_chain_requests("sigma").unwrap();
    assert_eq!(reqs.len(), 1);
    assert_eq!(reqs[0].argv.last().unwrap(), "getinfo");
}

#[test]
fn test_node_info_request_dispatch() {
    let mut m = manager_with_network("tau", 1);
    start_fully(&mut m, "tau");
    let (kind, container) = m.node_info_request("tau", "bitcoin-1").unwrap();
    assert_eq!(kind, NodeKind::BitcoinCore);
    assert!(container.starts_with("container-polar-btc-"));
    let (kind, _) = m.node_info_request("tau", "lnd-1").unwrap();
    assert_eq!(kind, NodeKind::Lnd);
    let err = m.node_info_request("tau", "nobody").unwrap_err();
    assert!(err.message().contains("not found"));
}

#[test]
fn test_lightning_impl_catalog() {
    assert_eq!(LightningImpl::all(), vec![LightningImpl::Lnd]);
    assert_eq!(LightningImpl::Lnd.short_name(), "lnd");
    assert!(NodeKind::Lnd.is_lightning());
    assert!(!NodeKind::BitcoinCore.is_lightning());
}

#[test]
fn test_image_catalogs() {
    let btc = polar::manager::bitcoin_versions();
    assert_eq!(btc[0], polar::manager::DEFAULT_BITCOIN_IMAGE);
    assert_eq!(btc.len(), 3);
    let lnd = polar::manager::lnd_versions();
    assert_eq!(lnd[0], polar::manager::DEFAULT_LND_IMAGE);
    assert_eq!(lnd.len(), 4);
}

#[test]
fn test_absent_node_is_not_found() {
    let mut m = manager_with_network("upsilon", 1);
    start_fully(&mut m, "upsilon");
    // an absent node is classified as not found, not as a config error
    assert!(matches!(
        m.fund_balance_request("upsilon", "lnd-9").unwrap_err(),
        Error::NodeNotFound(_)
    ));
    assert!(matches!(
        m.node_info_request("upsilon", "nobody").unwrap_err(),
        Error::NodeNotFound(_)
    ));
    assert!(matches!(
        m.delete_lightning_node_begin("upsilon", "nobody").unwrap_err(),
        Error::NodeNotFound(_)
    ));
    assert!(matches!(
        m.channel_pubkey_request("upsilon", "nobody").unwrap_err(),
        Error::NodeNotFound(_)
    ));
    // the full node's name never resolves as a Lightning node
    assert!(matches!(
        m.fund_address_request("upsilon", "bitcoin-1").unwrap_err(),
        Error::NodeNotFound(_)
    ));
    // a resolved node that is not running is a workflow-precondition error
    let net = m.get_network("upsilon").unwrap();
    let lnd1_id = net.nodes.iter().find(|n| n.name == "lnd-1").unwrap().id;
    m.stop_node_stopped("upsilon", lnd1_id).unwrap();
    assert!(matches!(
        m.fund_address_request("upsilon", "lnd-1").unwrap_err(),
        Error::Config(_)
    ));
    // the forbidden deletion of the full node stays a config error
    assert!(matches!(
        m.delete_lightning_node_begin("upsilon", "bitcoin-1").unwrap_err(),
        Error::Config(_)
    ));
}

#[test]
fn test_stop_failure_marks_error() {
    let mut m = manager_with_network("phi", 1);
    start_fully(&mut m, "phi");
    let _plan = m.stop_network_begin("phi").unwrap();
    // a container error during teardown leaves the network in the error state
    m.stop_network_failed("phi").unwrap();
    assert_eq!(m.network_status("phi").unwrap(), NetworkStatus::Error);
}
