use polar::portmap::PortMap;

#[test]
fn test_port_map_creation() {
    let mut port_map = PortMap::new();
    port_map.add(8080, 20000);
    port_map.add(9735, 20001);

    assert_eq!(port_map.len(), 2);
    assert!(!port_map.is_empty());
}

#[test]
fn test_port_map_from_vec() {
    let port_map = PortMap::from(vec![(8080, 20000), (9735, 20001)]);
    assert_eq!(port_map.len(), 2);
}

#[test]
fn test_port_map_get_and_replace() {
    let mut port_map = PortMap::new();
    assert!(port_map.is_empty());
    assert_eq!(port_map.len(), 0);
    port_map.add(8080, 20000);
    assert_eq!(port_map.get(8080), Some(20000));
    assert_eq!(port_map.get(9735), None);
    // replacing keeps the count
    port_map.add(8080, 21000);
    assert_eq!(port_map.len(), 1);
    assert_eq!(port_map.get(8080), Some(21000));
}

#[test]
fn test_port_map_entries() {
    let mut port_map = PortMap::new();
    port_map.add(8080, 20000);
    port_map.add(9735, 20001);
    let entries = port_map.entries();
    assert_eq!(entries, vec![(8080, 20000), (9735, 20001)]);
}
