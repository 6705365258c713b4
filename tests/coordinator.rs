use coordinator::cluster::{ConstrainedFollowUp, Coordinator};
use coordinator::streamer::{Proposal, ProposalStreamer};
use coordinator::messages::{
    APIResponse, CDMessage, IOMessage, KVCommand, KeyValue, NetworkState, Round, UIMessage,
};
use coordinator::topology::Topology;
use coordinator::wire::{encode_request, response_event};

fn cluster() -> Coordinator {
    Coordinator::new(Topology::new(&vec![1, 2, 3, 4, 5]).unwrap())
}

fn snapshot_of(ui: &[UIMessage]) -> NetworkState {
    assert_eq!(ui.len(), 1);
    match &ui[0] {
        UIMessage::OmnipaxosNetworkUpdate(s) => s.clone(),
        other => panic!("expected a snapshot, got {:?}", other),
    }
}

fn pairs(s: &NetworkState) -> Vec<(u64, u64)> {
    let mut v = s.partitions.clone();
    v.sort();
    v
}

fn put(k: &str, v: &str) -> KVCommand {
    KVCommand::Put(KeyValue { key: k.to_string(), value: v.to_string() })
}

fn round(n: u32, l: u64) -> Round {
    Round { round_num: n, leader: l }
}

#[test]
fn new_round_report_raises_max_round() {
    let mut c = cluster();
    let event = response_event(3, APIResponse::NewRound(Some(round(7, 2))));
    assert_eq!(event, IOMessage::CDMessage(CDMessage::NewRound(3, Some(round(7, 2)))));
    let m = match event {
        IOMessage::CDMessage(m) => m,
        _ => unreachable!(),
    };
    let r = c.handle(m);
    assert_eq!(c.max_round(), Some(round(7, 2)));
    assert_eq!(snapshot_of(&r.ui).max_round, Some(round(7, 2)));
}

#[test]
fn put_goes_to_the_leader() {
    let mut c = cluster();
    c.handle(CDMessage::NewRound(3, Some(round(7, 2))));
    c.client_joined(2);
    let (msg, _) = coordinator::cli::parse_command("put x 1".to_string()).unwrap();
    match msg {
        IOMessage::CDMessage(m) => {
            c.handle(m);
        }
        _ => panic!("put is a control event"),
    }
    let tick = c.propose_tick();
    assert_eq!(
        tick.proposal,
        Some(Proposal::Send(
            2,
            "{\"APIRequest\":{\"Put\":{\"key\":\"x\",\"value\":\"1\"}}}\n".to_string()
        ))
    );
    assert_eq!(tick.status, Some(1));
    assert_eq!(c.queue_len(), 0);
}

#[test]
fn request_lines() {
    assert_eq!(
        encode_request(&KVCommand::Delete("k".to_string())),
        "{\"APIRequest\":{\"Delete\":\"k\"}}\n"
    );
    assert_eq!(
        encode_request(&KVCommand::Get("a\"b".to_string())),
        "{\"APIRequest\":{\"Get\":\"a\\\"b\"}}\n"
    );
}

#[test]
fn response_routing() {
    assert_eq!(
        response_event(4, APIResponse::Happiness(false)),
        IOMessage::CDMessage(CDMessage::Happiness(4, false))
    );
    assert_eq!(
        response_event(4, APIResponse::Decided(9)),
        IOMessage::UIMessage(UIMessage::OmnipaxosResponse(APIResponse::Decided(9)))
    );
    let get = APIResponse::Get("k".to_string(), Some("v".to_string()));
    assert_eq!(
        response_event(1, get.clone()),
        IOMessage::UIMessage(UIMessage::OmnipaxosResponse(get))
    );
}

#[test]
fn enqueued_commands_all_reach_the_leader() {
    let mut c = cluster();
    c.handle(CDMessage::NewRound(1, Some(round(1, 3))));
    c.client_joined(3);
    let n = 25;
    for i in 0..n {
        c.handle(CDMessage::KVCommand(put(&format!("k{i}"), "v"), None));
    }
    let mut sent = 0;
    for i in 0..n {
        match c.propose_tick().proposal {
            Some(Proposal::Send(pid, line)) => {
                assert_eq!(pid, 3);
                assert_eq!(line, encode_request(&put(&format!("k{i}"), "v")));
                sent += 1;
            }
            other => panic!("unexpected {:?}", other),
        }
    }
    assert_eq!(sent, n);
    assert_eq!(c.propose_tick().proposal, None);
}

#[test]
fn batch_progress_counts() {
    let mut c = cluster();
    c.handle(CDMessage::StartBatchingPropose(3));
    assert_eq!(c.queue_len(), 3);
    let t = c.propose_tick();
    assert_eq!(t.status, Some(3));
    assert_eq!(t.proposal, Some(Proposal::Unreachable));
    assert_eq!(c.propose_tick().status, None);
    assert_eq!(c.propose_tick().status, None);
    assert_eq!(c.queue_len(), 0);
    assert_eq!(c.propose_tick().status, Some(0));
    assert_eq!(c.propose_tick().status, None);
}

#[test]
fn crash_removes_one_alive_node() {
    let mut c = cluster();
    for p in 1..=5 {
        c.client_joined(p);
    }
    let events = c.client_closed(3);
    assert_eq!(
        events,
        vec![
            IOMessage::UIMessage(UIMessage::OmnipaxosNodeCrashed(3)),
            IOMessage::CDMessage(CDMessage::OmnipaxosNodeCrashed(3)),
        ]
    );
    assert!(!c.is_alive(3));
    let r = c.handle(CDMessage::OmnipaxosNodeCrashed(3));
    let mut alive = snapshot_of(&r.ui).alive_nodes;
    alive.sort();
    assert_eq!(alive, vec![1, 2, 4, 5]);
    assert_eq!(c.client_closed(3).len(), 2);
    assert_eq!(c.snapshot().alive_nodes.len(), 4);
}

#[test]
fn chained_scenario_partitions() {
    let mut c = cluster();
    let r = c.handle(CDMessage::Scenario("chained".to_string()));
    assert_eq!(
        pairs(&snapshot_of(&r.ui)),
        vec![(1, 2), (1, 3), (1, 4), (2, 4), (2, 5), (3, 5)]
    );
    let p = c.partitions();
    for port in [8012, 8021, 8013, 8031, 8014, 8041, 8024, 8042, 8025, 8052, 8035, 8053] {
        assert!(p.contains(port));
    }
    assert!(!p.contains(8015));
}

#[test]
fn unreachable_leader_consumes_the_command() {
    let mut c = cluster();
    for p in [1, 2, 3, 5] {
        c.client_joined(p);
    }
    c.handle(CDMessage::NewRound(2, Some(round(5, 4))));
    c.handle(CDMessage::KVCommand(put("a", "b"), None));
    let t = c.propose_tick();
    assert_eq!(t.proposal, Some(Proposal::Unreachable));
    assert_eq!(c.queue_len(), 0);
}

#[test]
fn no_leader_is_unreachable() {
    let mut c = cluster();
    c.handle(CDMessage::KVCommand(KVCommand::Get("a".to_string()), Some(2)));
    assert_eq!(c.propose_tick().proposal, Some(Proposal::Unreachable));
}

#[test]
fn lower_and_equal_rounds_are_ignored() {
    let mut c = cluster();
    assert_eq!(c.handle(CDMessage::NewRound(1, Some(round(5, 3)))).ui.len(), 1);
    assert!(c.handle(CDMessage::NewRound(1, Some(round(5, 3)))).ui.is_empty());
    assert!(c.handle(CDMessage::NewRound(1, Some(round(4, 5)))).ui.is_empty());
    assert!(c.handle(CDMessage::NewRound(1, None)).ui.is_empty());
    assert_eq!(c.max_round(), Some(round(5, 3)));
    c.handle(CDMessage::NewRound(1, Some(round(5, 4))));
    assert_eq!(c.max_round(), Some(round(5, 4)));
    assert!(round(6, 1).is_newer_than(&round(5, 9)));
}

#[test]
fn restore_after_scenarios_clears() {
    let mut c = cluster();
    c.handle(CDMessage::NewRound(1, Some(round(2, 1))));
    for name in ["chained", "qloss", "constrained"] {
        c.handle(CDMessage::Scenario(name.to_string()));
        let r = c.handle(CDMessage::Scenario("restore".to_string()));
        assert!(snapshot_of(&r.ui).partitions.is_empty());
        assert!(!c.partitions().contains(8012));
    }
}

#[test]
fn quorum_loss_isolates_all_but_next_leader() {
    let mut c = cluster();
    c.handle(CDMessage::NewRound(1, Some(round(2, 1))));
    let r = c.handle(CDMessage::Scenario("qloss".to_string()));
    assert_eq!(
        pairs(&snapshot_of(&r.ui)),
        vec![(1, 3), (1, 4), (1, 5), (3, 4), (3, 5), (4, 5)]
    );
}

#[test]
fn constrained_runs_in_two_phases() {
    let mut c = cluster();
    c.handle(CDMessage::NewRound(1, Some(round(2, 1))));
    let r = c.handle(CDMessage::Scenario("constrained".to_string()));
    assert_eq!(pairs(&snapshot_of(&r.ui)), vec![(1, 2), (2, 3), (2, 4), (2, 5)]);
    assert_eq!(c.queue_len(), 10);
    let f = r.follow_up.unwrap();
    assert_eq!(f, ConstrainedFollowUp { next_leader: 2, current_leader: 1 });
    let ui = c.finish_constrained(f);
    assert_eq!(
        pairs(&snapshot_of(&ui)),
        vec![(1, 2), (1, 3), (1, 4), (1, 5), (3, 4), (3, 5), (4, 5)]
    );
}

#[test]
fn scenarios_need_a_leader_and_five_nodes() {
    let mut c = cluster();
    let r = c.handle(CDMessage::Scenario("qloss".to_string()));
    assert!(matches!(r.ui[0], UIMessage::Debug(_)));
    assert!(r.follow_up.is_none());
    let mut small = Coordinator::new(Topology::new(&vec![1, 2, 3]).unwrap());
    let r = small.handle(CDMessage::Scenario("restore".to_string()));
    assert!(matches!(r.ui[0], UIMessage::Debug(_)));
    let r = c.handle(CDMessage::Scenario("unknown".to_string()));
    assert!(r.ui.is_empty());
}

#[test]
fn connection_commands() {
    let mut c = cluster();
    let r = c.handle(CDMessage::SetConnection(1, Some(2), false));
    assert_eq!(pairs(&snapshot_of(&r.ui)), vec![(1, 2)]);
    assert!(c.partitions().contains(8012) && c.partitions().contains(8021));
    let r = c.handle(CDMessage::SetConnection(1, Some(2), true));
    assert!(snapshot_of(&r.ui).partitions.is_empty());
    let r = c.handle(CDMessage::SetConnection(4, None, false));
    assert_eq!(pairs(&snapshot_of(&r.ui)), vec![(1, 4), (2, 4), (3, 4), (4, 5)]);
    let r = c.handle(CDMessage::SetConnection(7, None, false));
    assert_eq!(r.ui, vec![UIMessage::NoSuchNode(7, vec![1, 2, 3, 4, 5])]);
    let r = c.handle(CDMessage::SetConnection(1, Some(6), false));
    assert_eq!(r.ui, vec![UIMessage::NoSuchNode(6, vec![1, 2, 3, 4, 5])]);
}

#[test]
fn happiness_is_recorded() {
    let mut c = cluster();
    c.handle(CDMessage::Happiness(2, true));
    let r = c.handle(CDMessage::Happiness(2, false));
    assert_eq!(snapshot_of(&r.ui).happiness.get(&2), Some(&false));
}

#[test]
fn batch_puts_are_numeric() {
    let mut c = cluster();
    c.batch_proposals(2);
    c.handle(CDMessage::NewRound(1, Some(round(1, 1))));
    c.client_joined(1);
    for _ in 0..2 {
        match c.propose_tick().proposal {
            Some(Proposal::Send(1, line)) => assert!(line.starts_with("{\"APIRequest\":{\"Put\":{\"key\":\"")),
            other => panic!("unexpected {:?}", other),
        }
    }
}

#[test]
fn streamer_counters_and_addressing() {
    let mut s = ProposalStreamer::new();
    assert_eq!(s.sample(4), Some(4));
    s.settle(3);
    assert_eq!(s.sample(5), Some(6));
    s.settle(4);
    assert_eq!(s.sample(4), None);
    s.settle(0);
    assert_eq!(s.sample(0), Some(0));
    assert_eq!(s.sample(0), None);
    let cmd = KVCommand::Delete("z".to_string());
    assert_eq!(
        s.propose_command(&cmd, Some(5)),
        Proposal::Send(5, "{\"APIRequest\":{\"Delete\":\"z\"}}\n".to_string())
    );
    assert_eq!(s.propose_command(&cmd, None), Proposal::Unreachable);
}
