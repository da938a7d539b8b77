use shinobu::sys::{AcquireError, Inhibitor, IO_RETURN_SUCCESS};

#[test]
fn request_is_the_fixed_one() {
    let request = Inhibitor::new().request();
    assert_eq!(request.assertion_type, "PreventUserIdleDisplaySleep");
    assert_eq!(request.name, "Shinobu");
    assert_eq!(request.details, "System activity");
    assert_eq!(request.reason, "Shinobu is preventing sleep.");
    assert_eq!(request.bundle_path, "/System/Library/CoreServices/powerd.bundle");
    assert_eq!(request.timeout_seconds, 0);
    assert_eq!(request.timeout_action, "TimeoutActionRelease");
}

#[test]
fn granted_request_gives_the_assertion() {
    assert_eq!(IO_RETURN_SUCCESS, 0);
    let assertion = Inhibitor::new().inhibit(IO_RETURN_SUCCESS, 77).unwrap();
    assert_eq!(assertion.id(), 77);
    let assertion = Inhibitor::new().inhibit(0, 0).unwrap();
    assert_eq!(assertion.id(), 0);
}

#[test]
fn refused_request_gives_the_status() {
    let inhibitor = Inhibitor::new();
    for status in [-536870212i32, -1, 1, i32::MIN, i32::MAX] {
        assert_eq!(inhibitor.inhibit(status, 77), Err(AcquireError { status }));
    }
}
