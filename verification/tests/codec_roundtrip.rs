use polar::codec::{decode_network, encode_network};
use polar::network::{Network, NetworkStatus, Node, NodeKind, NodePorts, PortConfig};

fn sample_network() -> Network {
    let mut net = Network::new("round-trip".to_string());
    net.status = NetworkStatus::Running;
    net.lnd_version = Some("polarlightning/lnd:0.18.5-beta".to_string());
    net.btc_version = Some("polarlightning/bitcoind:28.0".to_string());
    net.alias_prefix = Some("polar-node".to_string());
    let mut btc = Node::new("bitcoin-1".to_string(), NodeKind::BitcoinCore);
    btc.container_id = Some("abc123".to_string());
    let btc_id = btc.id;
    net.add_node(btc);
    let lnd = Node::new("lnd-1".to_string(), NodeKind::Lnd);
    let lnd_id = lnd.id;
    net.add_node(lnd);
    net.allocate_ports(btc_id, NodeKind::BitcoinCore).unwrap();
    net.allocate_ports(lnd_id, NodeKind::Lnd).unwrap();
    net
}

// Round-trip persistence: saving then loading yields an identical record.
#[test]
fn test_round_trip_full_record() {
    let net = sample_network();
    let text = encode_network(&net);
    let back = decode_network(text.as_str()).expect("a saved record must load");
    assert_eq!(back, net);
}

#[test]
fn test_round_trip_empty_network() {
    let net = Network::new("".to_string());
    let text = encode_network(&net);
    let back = decode_network(text.as_str()).expect("a saved record must load");
    assert_eq!(back, net);
    assert_eq!(back.nodes.len(), 0);
    assert_eq!(back.port_mappings.len(), 0);
}

#[test]
fn test_round_trip_every_status() {
    for status in [
        NetworkStatus::Stopped,
        NetworkStatus::Starting,
        NetworkStatus::Running,
        NetworkStatus::Stopping,
        NetworkStatus::Error,
    ] {
        let mut net = Network::new("statuses".to_string());
        net.status = status;
        let back = decode_network(encode_network(&net).as_str()).unwrap();
        assert_eq!(back.status, status);
    }
}

#[test]
fn test_round_trip_unusual_names() {
    let mut net = Network::new("name with spaces – and unicode ✓".to_string());
    let node = Node::new("nœud-1".to_string(), NodeKind::Lnd);
    net.add_node(node);
    let back = decode_network(encode_network(&net).as_str()).unwrap();
    assert_eq!(back, net);
}

#[test]
fn test_round_trip_arbitrary_port_map() {
    // decoding does not require the allocator's invariant: any stored map
    // comes back as written
    let mut net = Network::new("ports".to_string());
    net.port_mappings.push((
        42,
        PortConfig { ports: NodePorts::Lnd { rest: 1, grpc: 9, p2p: 65535 } },
    ));
    net.port_mappings.push((
        42,
        PortConfig {
            ports: NodePorts::BitcoinCore { rpc: 5, p2p: 5, zmq_block: 5, zmq_tx: 5 },
        },
    ));
    let back = decode_network(encode_network(&net).as_str()).unwrap();
    assert_eq!(back, net);
}

#[test]
fn test_decode_rejects_garbage() {
    assert!(decode_network("").is_none());
    assert!(decode_network("not a record").is_none());
    assert!(decode_network("000102").is_none());
}

#[test]
fn test_decode_rejects_trailing_text() {
    let net = Network::new("trail".to_string());
    let mut text = encode_network(&net);
    text.push('x');
    assert!(decode_network(text.as_str()).is_none());
}
