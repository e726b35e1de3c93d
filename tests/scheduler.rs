use stardust::scheduler::{Command, ShutdownReason};

#[test]
fn operation_numbers() {
    assert_eq!(Command::Yield.op(), 0);
    assert_eq!(Command::Block.op(), 1);
    assert_eq!(Command::Shutdown(ShutdownReason::Poweroff).op(), 2);
    assert_eq!(Command::Poll { ports: vec![1, 2], timeout: 0 }.op(), 3);
    assert_eq!(Command::PinOverride { pcpu: -1 }.op(), 7);
}

#[test]
fn shutdown_reasons() {
    assert_eq!(ShutdownReason::Poweroff.code(), 0);
    assert_eq!(ShutdownReason::Reboot.code(), 1);
    assert_eq!(ShutdownReason::Crash.code(), 3);
    assert_eq!(ShutdownReason::Watchdog.code(), 4);
    assert_eq!(Command::RemoteShutdown { domain_id: 3, reason: ShutdownReason::Suspend }.reason_code(), Some(2));
    assert_eq!(Command::Yield.reason_code(), None);
}
