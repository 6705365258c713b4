use coordinator::topology::{connection_to_port, port_to_connection, ConfigError, Topology};

fn five() -> Topology {
    Topology::new(&vec![1, 2, 3, 4, 5]).unwrap()
}

#[test]
fn startup_listener_ports() {
    let t = five();
    let mut mesh = t.mesh_ports();
    mesh.sort();
    mesh.dedup();
    let mut expected = vec![];
    for a in 1..=5u64 {
        for b in 1..=5u64 {
            if a != b {
                expected.push(8000 + 10 * a + b);
            }
        }
    }
    expected.sort();
    assert_eq!(mesh.len(), 20);
    assert_eq!(mesh, expected);
    assert!(mesh.contains(&8012) && mesh.contains(&8021) && mesh.contains(&8013) && mesh.contains(&8054));
    assert_eq!(t.client_ports(), vec![8001, 8002, 8003, 8004, 8005]);
}

#[test]
fn startup_lookups() {
    let t = five();
    assert_eq!(t.peer_port(8012), Some(8021));
    assert_eq!(t.port_to_pid(8012), Some(1));
    assert_eq!(t.port_to_pid(8001), Some(1));
}

#[test]
fn peer_port_is_an_involution() {
    let t = five();
    for p in t.mesh_ports() {
        let q = t.peer_port(p).unwrap();
        assert_ne!(p, q);
        assert_eq!(t.peer_port(q), Some(p));
    }
    assert_eq!(t.peer_port(8011), None);
    assert_eq!(t.peer_port(8016), None);
    assert_eq!(t.peer_port(8001), None);
}

#[test]
fn port_to_pid_names_sender_and_owner() {
    let t = five();
    for a in 1..=5u64 {
        assert_eq!(t.port_to_pid(8000 + a), Some(a));
        for b in 1..=5u64 {
            if a != b {
                assert_eq!(t.port_to_pid(8000 + 10 * a + b), Some(a));
            }
        }
    }
    assert_eq!(t.port_to_pid(8006), None);
    assert_eq!(t.port_to_pid(8061), None);
    assert_eq!(t.port_to_pid(7999), None);
}

#[test]
fn refuses_bad_configurations() {
    assert_eq!(Topology::new(&vec![1, 0, 3]).err(), Some(ConfigError::InvalidNodeId(0)));
    assert_eq!(Topology::new(&vec![1, 2, 10]).err(), Some(ConfigError::InvalidNodeId(10)));
    assert_eq!(Topology::new(&vec![1, 2, 1, 0]).err(), Some(ConfigError::DuplicateNodeId(1)));
    assert!(Topology::new(&vec![3, 9, 1]).is_ok());
}

#[test]
fn port_formulas() {
    assert_eq!(connection_to_port(&1, &2), 8012);
    assert_eq!(connection_to_port(&5, &3), 8053);
    assert_eq!(port_to_connection(&8012), (1, 2));
    assert_eq!(port_to_connection(&8053), (3, 5));
    assert_eq!(port_to_connection(&8044), (4, 4));
}

#[test]
fn nodes_and_membership() {
    let t = Topology::new(&vec![2, 4]).unwrap();
    assert_eq!(t.nodes(), vec![2, 4]);
    assert!(t.contains_node(4));
    assert!(!t.contains_node(1));
    assert_eq!(t.mesh_ports().len(), 2);
}
