use syscallcage::logging::{fallback_line, fatal, info};

#[test]
fn entries_carry_their_level() {
    let e = info("2026-07-05T14:49:30Z".to_string(), "test", "test message");
    assert_eq!(e.level, "info");
    assert_eq!(e.component, "test");
    assert_eq!(e.message, "test message");
    assert!(e.pid.is_none() && e.event_type.is_none() && e.target.is_none() && e.action.is_none());
    let f = fatal("t".to_string(), "watch", "stop");
    assert_eq!(f.level, "fatal");
    assert_eq!(f.timestamp, "t");
}

#[test]
fn fallback_line_holds_the_mandatory_fields() {
    let e = info("2026-07-05T14:49:30Z".to_string(), "test", "test message");
    assert_eq!(
        fallback_line(&e),
        "{\"timestamp\":\"2026-07-05T14:49:30Z\",\"level\":\"info\",\"component\":\"test\",\"message\":\"test message\"}"
    );
}
