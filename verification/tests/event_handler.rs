use krom::config::Config;
use krom::event_handler::{
    after_allowlist, after_denylist, dispose_event, elapsed_nanos, DbCheckResult, EventDisposition,
    EventHandler, ExeCheck, ModifyOutcome,
};
use krom::fanotify::{
    EventFlags, FanotifyEventMetadata, FAN_ALLOW, FAN_CLOSE_WRITE, FAN_DENY, FAN_MODIFY,
    FAN_OPEN_EXEC_PERM, FAN_OPEN_PERM,
};

const NONE: ModifyOutcome = ModifyOutcome { add_to_denylist: false, kill: false, error: None };

fn write(h: &mut EventHandler, pid: i32, path: &str, now: i128) -> ModifyOutcome {
    let p = Ok(path.as_bytes().to_vec());
    assert!(h.modify_is_defined(pid, ExeCheck::Checked(DbCheckResult::MaybeSuspicious), &p));
    h.handle_modify_event(pid, ExeCheck::Checked(DbCheckResult::MaybeSuspicious), p, now)
}

#[test]
fn writes_in_one_directory_get_the_writer_killed() {
    let mut h = EventHandler::with_config(Config::default());
    assert_eq!(write(&mut h, 10, "/d/a", 1), NONE);
    assert_eq!(h.proc_stats(10).unwrap().susness, 0);
    assert_eq!(write(&mut h, 10, "/d/b", 2), NONE);
    assert_eq!(h.proc_stats(10).unwrap().susness, 2);
    assert_eq!(write(&mut h, 10, "/d/c", 3), NONE);
    assert_eq!(h.proc_stats(10).unwrap().susness, 4);
    assert_eq!(h.proc_stats(10).unwrap().last_update_time, 3);
    let o = write(&mut h, 10, "/d/e", 4);
    assert_eq!(o, ModifyOutcome { add_to_denylist: true, kill: true, error: None });
    assert!(h.proc_stats(10).is_none());
}

#[test]
fn rewriting_a_file_lowers_suspiciousness() {
    let mut h = EventHandler::with_config(Config::default());
    write(&mut h, 10, "/d/a", 1);
    write(&mut h, 10, "/d/b", 2);
    assert_eq!(h.proc_stats(10).unwrap().susness, 2);
    write(&mut h, 10, "/d//a", 3);
    assert_eq!(h.proc_stats(10).unwrap().susness, 1);
    assert_eq!(h.proc_stats(10).unwrap().paths.len(), 2);
    assert_eq!(h.proc_stats(10).unwrap().last_update_time, 2);
    write(&mut h, 10, "/d/a", 4);
    write(&mut h, 10, "/d/a", 5);
    assert_eq!(h.proc_stats(10).unwrap().susness, 0);
}

#[test]
fn neighbour_and_far_writes() {
    let mut h = EventHandler::with_config(Config::default());
    write(&mut h, 3, "/x/a/f", 1);
    write(&mut h, 3, "/x/b/g", 2);
    assert_eq!(h.proc_stats(3).unwrap().susness, 1);
    write(&mut h, 3, "/q/r/s/t", 3);
    assert_eq!(h.proc_stats(3).unwrap().susness, 1);
    assert_eq!(h.proc_stats(3).unwrap().paths.len(), 3);
}

#[test]
fn database_verdicts() {
    let mut h = EventHandler::with_config(Config::default());
    let trusted = h.handle_modify_event(
        5,
        ExeCheck::Checked(DbCheckResult::Trusted),
        Ok(b"/d/a".to_vec()),
        1,
    );
    assert_eq!(trusted, NONE);
    assert!(h.proc_stats(5).is_none());
    let denied = h.handle_modify_event(
        5,
        ExeCheck::Checked(DbCheckResult::DefSuspicious),
        Ok(b"/d/a".to_vec()),
        1,
    );
    assert_eq!(denied, ModifyOutcome { add_to_denylist: false, kill: true, error: None });
    assert!(h.proc_stats(5).is_none());
}

#[test]
fn unknown_executable_is_never_denylisted() {
    let mut c = Config::default();
    c.critical_susp = 1;
    let mut h = EventHandler::with_config(c);
    h.handle_modify_event(8, ExeCheck::Unknown, Ok(b"/d/a".to_vec()), 1);
    let o = h.handle_modify_event(8, ExeCheck::Unknown, Ok(b"/d/b".to_vec()), 2);
    assert_eq!(o, ModifyOutcome { add_to_denylist: false, kill: true, error: None });
}

#[test]
fn unreadable_path_keeps_a_fresh_record() {
    let mut h = EventHandler::with_config(Config::default());
    let o = h.handle_modify_event(9, ExeCheck::Unknown, Err(2), 77);
    assert_eq!(o, ModifyOutcome { add_to_denylist: false, kill: false, error: Some(2) });
    let s = h.proc_stats(9).unwrap();
    assert_eq!((s.susness, s.paths.len(), s.last_update_time), (0, 0, 77));
}

#[test]
fn open_requests() {
    let mut h = EventHandler::with_config(Config::default());
    assert_eq!(h.open_perm_response(1).bits(), FAN_ALLOW);
    write(&mut h, 1, "/d/a", 1);
    write(&mut h, 1, "/d/b", 2);
    assert_eq!(h.open_perm_response(1).bits(), FAN_ALLOW);
    let mut c = Config::default();
    c.critical_susp = -1;
    let mut h = EventHandler::with_config(c);
    h.handle_modify_event(4, ExeCheck::Unknown, Err(9), 1);
    assert_eq!(h.open_perm_response(4).bits(), FAN_DENY);
}

#[test]
fn flush_drops_idle_processes() {
    let mut h = EventHandler::with_config(Config::default());
    write(&mut h, 1, "/d/a", 100);
    write(&mut h, 2, "/d/a", 200);
    write(&mut h, 3, "/d/a", 1000);
    h.flush(1000, 801);
    assert!(h.proc_stats(1).is_none());
    assert!(h.proc_stats(2).is_some());
    assert!(h.proc_stats(3).is_some());
    h.flush(1000, 801);
    assert!(h.proc_stats(2).is_some());
    h.flush(999, 0);
    assert!(h.proc_stats(2).is_none());
    assert!(h.proc_stats(3).is_none());
}

#[test]
fn flush_keeps_records_from_the_future() {
    let mut h = EventHandler::with_config(Config::default());
    write(&mut h, 1, "/d/a", 5000);
    h.flush(10, 1);
    assert!(h.proc_stats(1).is_some());
}

#[test]
fn elapsed_time() {
    assert_eq!(elapsed_nanos(10, 3), 7);
    assert_eq!(elapsed_nanos(3, 10), 0);
    assert_eq!(elapsed_nanos(i128::MAX, i128::MIN), u128::MAX);
    assert_eq!(elapsed_nanos(-5, -9), 4);
}

#[test]
fn mixed_relative_and_absolute_paths_are_refused() {
    let mut h = EventHandler::with_config(Config::default());
    write(&mut h, 1, "/a", 1);
    let p = Ok(b"b".to_vec());
    assert!(!h.modify_is_defined(1, ExeCheck::Unknown, &p));
    assert!(h.modify_is_defined(1, ExeCheck::Checked(DbCheckResult::Trusted), &p));
}

#[test]
fn database_lookups() {
    assert_eq!(after_allowlist(Some(true)), Some(DbCheckResult::Trusted));
    assert_eq!(after_allowlist(Some(false)), None);
    assert_eq!(after_allowlist(None), Some(DbCheckResult::MaybeSuspicious));
    assert_eq!(after_denylist(Some(true)), DbCheckResult::DefSuspicious);
    assert_eq!(after_denylist(Some(false)), DbCheckResult::MaybeSuspicious);
    assert_eq!(after_denylist(None), DbCheckResult::MaybeSuspicious);
}

fn meta(vers: u8, mask: u64, fd: i32) -> FanotifyEventMetadata {
    FanotifyEventMetadata {
        event_len: 24,
        vers,
        metadata_len: 24,
        mask: EventFlags::from_bits_retain(mask),
        fd,
        pid: 1,
    }
}

#[test]
fn event_dispositions() {
    let w = EventFlags::from_bits_retain(FAN_CLOSE_WRITE);
    assert_eq!(dispose_event(&meta(2, FAN_OPEN_PERM, 3), w), EventDisposition::VersionMismatch);
    assert_eq!(dispose_event(&meta(3, FAN_OPEN_PERM, -1), w), EventDisposition::NoFd);
    assert_eq!(
        dispose_event(&meta(3, FAN_OPEN_PERM, 3), w),
        EventDisposition::Handle { respond: true, record_write: false }
    );
    assert_eq!(
        dispose_event(&meta(3, FAN_OPEN_EXEC_PERM | FAN_CLOSE_WRITE, 0), w),
        EventDisposition::Handle { respond: true, record_write: true }
    );
    assert_eq!(
        dispose_event(&meta(3, FAN_MODIFY, 4), w),
        EventDisposition::Handle { respond: false, record_write: false }
    );
    assert_eq!(
        dispose_event(&meta(3, FAN_MODIFY, 4), EventFlags::from_bits_retain(FAN_MODIFY)),
        EventDisposition::Handle { respond: false, record_write: true }
    );
}

#[test]
fn recorded_paths_never_repeat() {
    let mut h = EventHandler::with_config(Config::default());
    for (i, p) in ["/d/a", "/d/a", "/d//a", "/d/./a", "/e/b", "/d/a/", "/e/b"].iter().enumerate() {
        write(&mut h, 12, p, i as i128);
    }
    let paths = &h.proc_stats(12).unwrap().paths;
    assert_eq!(paths.len(), 2);
    for i in 0..paths.len() {
        for j in i + 1..paths.len() {
            let a = std::path::Path::new(std::str::from_utf8(&paths[i]).unwrap());
            let b = std::path::Path::new(std::str::from_utf8(&paths[j]).unwrap());
            assert_ne!(a, b);
        }
    }
}

#[test]
fn highest_level_that_fits_never_overflows() {
    let config = Config { critical_susp: i32::MAX - 2, ..Config::default() };
    let mut h = EventHandler::with_config(config);
    let exe = ExeCheck::Checked(DbCheckResult::MaybeSuspicious);
    write(&mut h, 20, "/d/a", 1);
    write(&mut h, 20, "/d/b", 2);
    assert_eq!(h.proc_stats(20).unwrap().susness, 2);
    // Any write whose distance to the last path is defined can be recorded.
    assert!(h.modify_is_defined(20, exe, &Ok(b"/d/c".to_vec())));
    assert!(h.modify_is_defined(20, exe, &Ok(b"/e/c".to_vec())));
    assert!(h.modify_is_defined(20, exe, &Ok(b"/x/y/z".to_vec())));
    // The root has no parent: its distance to "/d/b" is not defined.
    assert!(!h.modify_is_defined(20, exe, &Ok(b"/".to_vec())));
}
