use coordinator::cli::{parse_command, parse_command_proposer_and_string, ParseCommandError, INVALID_BATCH_ARG1, INVALID_COMMAND, INVALID_CONNECTION, INVALID_CONNECTION_ARG1, INVALID_CONNECTION_ARG2, INVALID_CONNECTION_ARG3, INVALID_DELETE, INVALID_GET, INVALID_PUT, INVALID_SCENARIO, INVALID_BATCH};
use coordinator::messages::{CDMessage, IOMessage, KVCommand, KeyValue, Progress, UIMessage};

fn ok(line: &str) -> (IOMessage, String) {
    parse_command(line.to_string()).unwrap()
}

fn err(line: &str) -> String {
    parse_command(line.to_string()).unwrap_err().message()
}

#[test]
fn put_get_delete() {
    assert_eq!(
        ok("put x 1"),
        (
            IOMessage::CDMessage(CDMessage::KVCommand(
                KVCommand::Put(KeyValue { key: "x".to_string(), value: "1".to_string() }),
                None
            )),
            "Put key: x, value: 1 at leader".to_string()
        )
    );
    assert_eq!(
        ok("  get k 3 \n"),
        (
            IOMessage::CDMessage(CDMessage::KVCommand(KVCommand::Get("k".to_string()), Some(3))),
            "Get key: k from node 3".to_string()
        )
    );
    assert_eq!(
        ok("delete k"),
        (
            IOMessage::CDMessage(CDMessage::KVCommand(KVCommand::Delete("k".to_string()), None)),
            "Delete key: k at leader".to_string()
        )
    );
    assert_eq!(err("put x"), INVALID_PUT);
    assert_eq!(err("put x 1 two"), INVALID_PUT);
    assert_eq!(err("get"), INVALID_GET);
    assert_eq!(err("delete k x"), INVALID_DELETE);
}

#[test]
fn connection_forms() {
    assert_eq!(
        ok("connection 1 2 false"),
        (
            IOMessage::CDMessage(CDMessage::SetConnection(1, Some(2), false)),
            "Disconnecting node 1 from node 2".to_string()
        )
    );
    assert_eq!(
        ok("connection 3 true"),
        (
            IOMessage::CDMessage(CDMessage::SetConnection(3, None, true)),
            "Connecting node 3 to all nodes".to_string()
        )
    );
    assert_eq!(err("connection 1"), INVALID_CONNECTION);
    assert_eq!(err("connection a true"), INVALID_CONNECTION_ARG1);
    assert_eq!(err("connection 1 b true"), INVALID_CONNECTION_ARG2);
    assert_eq!(err("connection 1 2 yes"), INVALID_CONNECTION_ARG3);
    assert_eq!(err("connection 1 maybe"), INVALID_CONNECTION_ARG3);
}

#[test]
fn batch_scenario_clear() {
    assert_eq!(
        ok("batch 100"),
        (
            IOMessage::CDMessage(CDMessage::StartBatchingPropose(100)),
            "Batching 100 put operations".to_string()
        )
    );
    assert_eq!(err("batch"), INVALID_BATCH);
    assert_eq!(err("batch -1"), INVALID_BATCH_ARG1);
    assert_eq!(
        ok("scenario qloss"),
        (
            IOMessage::CDMessage(CDMessage::Scenario("qloss".to_string())),
            "Creating quorum-loss scenario".to_string()
        )
    );
    assert_eq!(ok("scenario restore").1, "Restoring all connections");
    assert_eq!(ok("scenario chained").1, "Creating chained scenario");
    assert_eq!(ok("scenario constrained").1, "Creating constrained election scenario");
    assert_eq!(err("scenario other"), INVALID_SCENARIO);
    assert_eq!(err("scenario"), INVALID_SCENARIO);
    assert_eq!(ok("clear"), (IOMessage::UIMessage(UIMessage::ClearConsole), "clear".to_string()));
    assert_eq!(err(""), INVALID_COMMAND);
    assert_eq!(err("hello"), INVALID_COMMAND);
    assert_eq!(
        parse_command("nope".to_string()),
        Err(ParseCommandError(INVALID_COMMAND.to_string()))
    );
}

#[test]
fn proposer_reading() {
    let words = vec!["put".to_string(), "k".to_string(), "v".to_string(), "+7".to_string()];
    assert_eq!(
        parse_command_proposer_and_string(&words, 3, "e".to_string()),
        Ok((Some(7), "node 7".to_string()))
    );
    assert_eq!(
        parse_command_proposer_and_string(&words, 4, "e".to_string()),
        Ok((None, "leader".to_string()))
    );
    assert_eq!(
        parse_command_proposer_and_string(&words, 2, "e".to_string()),
        Err(ParseCommandError("e".to_string()))
    );
}

#[test]
fn progress_follows_batches() {
    let mut p = Progress::new();
    p.on_status(10, 40);
    assert_eq!(p, Progress { starting_idx: 40, is_ongoing: true, finished: 0, total: 10 });
    p.on_decided(45);
    assert_eq!(p.finished, 5);
    p.on_status(12, 45);
    assert_eq!((p.total, p.starting_idx), (12, 40));
    p.on_status(0, 52);
    assert!(!p.is_ongoing);
    p.on_decided(3);
    assert_eq!(p.finished, 0);
}
