use krom::config::Config;
use krom::daemonizer::{close_range_limit, pid_file_contents};
use krom::main_loop::{
    input_step, listen_step, setup_failure, FlushSchedule, InputStep, ListenStep, SetupFailure, EINTR, EPERM,
};

#[test]
fn default_config() {
    let c = Config::default();
    assert!(c.enable_allowlist);
    assert_eq!(c.allowlist_path, "/etc/daeth/allowlist.db");
    assert_eq!(c.flush_timeout_sec, 120);
    assert_eq!(c.critical_susp, 5);
    assert!(!c.kill_parent);
    assert!(c.kill_children);
    assert!(!c.kill_proc_group);
    assert!(!c.use_sigterm);
}

#[test]
fn flush_every_sixty_fifth_batch() {
    let mut s = FlushSchedule::new();
    for round in 0..3 {
        for i in 0..64 {
            assert!(!s.tick(), "round {round} tick {i}");
        }
        assert!(s.tick());
    }
}

#[test]
fn poll_results() {
    assert_eq!(EINTR, libc::EINTR);
    assert_eq!(listen_step(Err(libc::EINTR)), ListenStep::Retry);
    assert_eq!(listen_step(Err(libc::EBADF)), ListenStep::Fail(libc::EBADF));
    assert_eq!(listen_step(Ok(0)), ListenStep::Idle);
    assert_eq!(listen_step(Ok(1)), ListenStep::HandleEvents);
    assert_eq!(input_step(2, true, true), InputStep::Stop);
    assert_eq!(input_step(1, false, true), InputStep::HandleEvents);
    assert_eq!(input_step(0, true, true), InputStep::Wait);
    assert_eq!(input_step(1, false, false), InputStep::Wait);
}

#[test]
fn pid_file() {
    assert_eq!(pid_file_contents(1234), b"1234\0".to_vec());
    assert_eq!(pid_file_contents(0), b"0\0".to_vec());
    assert_eq!(pid_file_contents(u32::MAX), b"4294967295\0".to_vec());
}

#[test]
fn close_range_clamps() {
    assert_eq!(close_range_limit(1024), 1024);
    assert_eq!(close_range_limit(-1), 0);
    assert_eq!(close_range_limit(i64::MAX), u32::MAX);
    assert_eq!(close_range_limit(u32::MAX as i64), u32::MAX);
}

#[test]
fn setup_failures() {
    assert_eq!(EPERM, libc::EPERM);
    assert_eq!(setup_failure(libc::EPERM), SetupFailure::NoPermission);
    assert_eq!(setup_failure(libc::EACCES), SetupFailure::OsError);
    assert_eq!(setup_failure(libc::EINVAL), SetupFailure::OsError);
    assert_eq!(setup_failure(0), SetupFailure::OsError);
}
