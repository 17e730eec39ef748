use syscallcage::enforcer::KillReason;
use syscallcage::watch::{next_step, parse_c_command, ChildExit, WatchStep};

#[test]
fn test_parse_c_command_valid() {
    let args = vec!["ls".to_string(), "-l".to_string()];
    let res = parse_c_command(&args);
    assert!(res.is_ok());
    let c_args = res.unwrap();
    assert_eq!(c_args.len(), 2);
}

#[test]
fn test_parse_c_command_null_byte_returns_err() {
    let args = vec!["echo".to_string(), "hello\0world".to_string()];
    let res = parse_c_command(&args);
    assert!(res.is_err());
    let (idx, _err) = res.unwrap_err();
    assert_eq!(idx, 1);
}

#[test]
fn test_parse_c_command_empty_returns_err() {
    let args: Vec<String> = vec![];
    let res = parse_c_command(&args);
    assert!(res.is_err());
    let (idx, _err) = res.unwrap_err();
    assert_eq!(idx, 0);
}

#[test]
fn parse_c_command_messages_and_bytes() {
    let (idx, msg) = parse_c_command(&["a".to_string(), "é\0".to_string()]).unwrap_err();
    assert_eq!(idx, 1);
    assert_eq!(msg, "argumento 1: nul byte found in provided data at position: 2");
    let (_, empty) = parse_c_command(&[]).unwrap_err();
    assert_eq!(empty, "comando não pode ser vazio");
    let ok = parse_c_command(&["ls".to_string(), "é".to_string()]).unwrap();
    assert_eq!(ok, vec![b"ls".to_vec(), "é".as_bytes().to_vec()]);
}

#[test]
fn watch_decisions() {
    assert_eq!(next_step(ChildExit::Signaled, Some(KillReason::PolicyViolation), 0, Some(5)), (WatchStep::HaltPolicyViolation, 0));
    assert_eq!(next_step(ChildExit::Exited(0), None, 2, Some(5)), (WatchStep::FinishedCleanly, 2));
    assert_eq!(next_step(ChildExit::Exited(1), None, 2, Some(5)), (WatchStep::Restart, 3));
    assert_eq!(next_step(ChildExit::Exited(1), None, 5, Some(5)), (WatchStep::RestartsExhausted, 5));
    assert_eq!(next_step(ChildExit::Signaled, None, 0, None), (WatchStep::EndedWithoutRestart, 0));
    assert_eq!(next_step(ChildExit::Signaled, None, 0, Some(0)), (WatchStep::RestartsExhausted, 0));
    assert_eq!(next_step(ChildExit::Exited(2), None, 0, None), (WatchStep::EndedWithoutRestart, 0));
    assert_eq!(next_step(ChildExit::Exited(0), None, 0, None), (WatchStep::FinishedCleanly, 0));
    assert_eq!(next_step(ChildExit::Signaled, None, 0, Some(1)), (WatchStep::Restart, 1));
    assert_eq!(next_step(ChildExit::Other, None, 7, Some(1)), (WatchStep::Respawn, 8));
    assert_eq!(next_step(ChildExit::Other, None, u32::MAX, None), (WatchStep::Respawn, 0));
}

#[test]
fn restarts_stop_at_the_limit() {
    let mut count = 0u32;
    let mut restarts = 0;
    loop {
        let (step, next) = next_step(ChildExit::Exited(3), None, count, Some(3));
        count = next;
        if step != WatchStep::Restart {
            assert_eq!(step, WatchStep::RestartsExhausted);
            break;
        }
        restarts += 1;
    }
    assert_eq!(restarts, 3);
}
