use polar::network::{Network, Node, NodeKind};

fn fresh_network() -> Network {
    Network::new("alloc-test".to_string())
}

#[test]
fn test_first_block_starts_at_range_base() {
    let mut net = fresh_network();
    let node = Node::new("bitcoin-1".to_string(), NodeKind::BitcoinCore);
    let id = node.id;
    net.add_node(node);
    let pc = net.allocate_ports(id, NodeKind::BitcoinCore).unwrap();
    let ports = pc.get_all_ports();
    assert_eq!(ports, vec![20000, 20001, 20002, 20003]);
}

#[test]
fn test_lightning_block_shape() {
    let mut net = fresh_network();
    let pc = net.allocate_ports(7, NodeKind::Lnd).unwrap();
    let ports = pc.get_all_ports();
    assert_eq!(ports, vec![20000, 20001, 20002]);
}

// Port disjointness: blocks allocated for an increasing number of nodes of
// mixed kinds never share a port within the network.
#[test]
fn test_port_disjointness_mixed_kinds() {
    let mut net = fresh_network();
    let mut all_ports: Vec<u16> = Vec::new();
    for i in 0..10u128 {
        let kind = if i % 2 == 0 { NodeKind::BitcoinCore } else { NodeKind::Lnd };
        let pc = net.allocate_ports(i, kind).unwrap();
        all_ports.extend(pc.get_all_ports());
    }
    let mut seen = all_ports.clone();
    seen.sort();
    seen.dedup();
    assert_eq!(seen.len(), all_ports.len(), "allocated ports must be globally unique");
}

// Allocation monotonicity: the Nth allocated block's minimum port is at
// least the base plus (N - 1) block sizes.
#[test]
fn test_allocation_monotonicity() {
    let mut net = fresh_network();
    for n in 1..=8u128 {
        let pc = net.allocate_ports(n, NodeKind::Lnd).unwrap();
        let min = *pc.get_all_ports().iter().min().unwrap();
        assert!(min as u32 >= 20000 + (n as u32 - 1) * 10);
        assert_eq!(min as u32, 20000 + (n as u32 - 1) * 10);
    }
}
