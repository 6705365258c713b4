use coordinator::partition::PartitionSet;
use coordinator::router::{route, route_all, IngressFrame, LineFramer};

fn sorted(s: &PartitionSet) -> Vec<(u64, u64)> {
    let mut v = s.undirected_pairs();
    v.sort();
    v
}

fn frame(src: u64, dst: u64, bytes: &[u8]) -> IngressFrame {
    IngressFrame { src_port: src, dst_port: dst, bytes: bytes.to_vec() }
}

#[test]
fn disconnect_one_pair_drops_its_frames() {
    let mut s = PartitionSet::new();
    s.set_undirected(1, 2, false);
    assert!(s.contains(8012));
    assert!(s.contains(8021));
    assert!(!s.contains(8013));
    assert_eq!(sorted(&s), vec![(1, 2)]);
    assert_eq!(route(&s, frame(8012, 8021, b"a\n")), None);
    assert_eq!(route(&s, frame(8013, 8031, b"b\n")), Some(frame(8013, 8031, b"b\n")));
}

#[test]
fn partition_set_stays_symmetric() {
    let mut s = PartitionSet::new();
    s.set_undirected(3, 5, false);
    s.set_undirected(2, 4, false);
    s.set_undirected(5, 3, true);
    s.set_all_from(&vec![1, 2, 3, 4, 5], 1, false);
    for a in 1..=9u64 {
        for b in 1..=9u64 {
            assert_eq!(s.contains(8000 + 10 * a + b), s.contains(8000 + 10 * b + a));
        }
    }
}

#[test]
fn disconnect_then_reconnect_restores() {
    let mut s = PartitionSet::new();
    s.set_undirected(2, 5, false);
    let before = sorted(&s);
    s.set_undirected(1, 3, false);
    s.set_undirected(1, 3, true);
    assert_eq!(sorted(&s), before);
    assert!(!s.contains(8013) && !s.contains(8031));
}

#[test]
fn disconnect_from_all_cuts_every_link_of_the_node() {
    let mut s = PartitionSet::new();
    let nodes = vec![1, 2, 3, 4, 5];
    s.set_all_from(&nodes, 3, false);
    assert_eq!(sorted(&s), vec![(1, 3), (2, 3), (3, 4), (3, 5)]);
    s.set_all_from(&nodes, 3, true);
    assert!(sorted(&s).is_empty());
    s.set_undirected(1, 2, false);
    s.clear();
    assert!(!s.contains(8012));
}

#[test]
fn framer_cuts_at_newlines() {
    let mut f = LineFramer::new();
    assert!(f.push(b"ab").is_empty());
    let out = f.push(b"c\nde\n\nf");
    assert_eq!(out, vec![b"abc\n".to_vec(), b"de\n".to_vec(), b"\n".to_vec()]);
    let out = f.push(b"\n");
    assert_eq!(out, vec![b"f\n".to_vec()]);
    assert!(f.push(b"").is_empty());
}

#[test]
fn router_keeps_per_source_order() {
    let mut s = PartitionSet::new();
    s.set_undirected(1, 2, false);
    let frames = vec![
        frame(8013, 8031, b"1\n"),
        frame(8012, 8021, b"x\n"),
        frame(8045, 8054, b"2\n"),
        frame(8013, 8031, b"3\n"),
        frame(8021, 8012, b"y\n"),
        frame(8013, 8031, b"4\n"),
    ];
    let out = route_all(&s, frames);
    assert_eq!(
        out,
        vec![
            frame(8013, 8031, b"1\n"),
            frame(8045, 8054, b"2\n"),
            frame(8013, 8031, b"3\n"),
            frame(8013, 8031, b"4\n"),
        ]
    );
}
