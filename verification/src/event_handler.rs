//! The scanner's decisions: how suspicious each writing process looks, what
//! a permission request is answered, when a process is killed, and when the
//! statistics of an idle process are dropped.
use vstd::prelude::*;
use std::collections::HashMap;
use crate::config::Config;
use crate::fanotify::{
    EventFlags,
    FanotifyEventMetadata,
    Response,
    FANOTIFY_METADATA_VERSION,
    FAN_ALLOW,
    FAN_DENY,
    FAN_OPEN_EXEC_PERM,
    FAN_OPEN_PERM,
};
use crate::path::{
    byte_strings,
    distance,
    distance_defined,
    distance_is_defined,
    path_view,
    same_path,
    spec_distance,
    Distance,
};

verus! {

broadcast use vstd::std_specs::hash::group_hash_axioms;

/// This structure contains a field that measures how
/// suspicious this process is and stores all file paths
/// that were modified by this process.
#[derive(Debug, Clone)]
pub struct ProcStats {
    pub susness: i32,
    pub paths: Vec<Vec<u8>>,
    /// Time of the last update, in nanoseconds since the Unix epoch
    /// (negative before it).
    pub last_update_time: i128,
}

/// The contents of a `ProcStats`.
pub struct ProcStatsView {
    pub susness: i32,
    pub paths: Seq<Seq<u8>>,
    pub last_update_time: i128,
}

impl View for ProcStats {
    type V = ProcStatsView;

    open spec fn view(&self) -> ProcStatsView {
        ProcStatsView {
            susness: self.susness,
            paths: byte_strings(self.paths@),
            last_update_time: self.last_update_time,
        }
    }
}

impl ProcStats {
    /// Creates an empty record with zero fields, updated at `now`.
    pub fn new(now: i128) -> (s: ProcStats)
        ensures
            s@ == (ProcStatsView { susness: 0, paths: Seq::empty(), last_update_time: now }),
    {
        let s = ProcStats { susness: 0, paths: Vec::new(), last_update_time: now };
        assert(s@.paths =~= Seq::<Seq<u8>>::empty());
        s
    }
}

/// Where the executable of the writing process stands in the database.
#[derive(Clone, Copy, PartialEq, Eq, Debug, Structural)]
pub enum DbCheckResult {
    /// In the allow list.
    Trusted,
    /// In neither list, or the database could not be read.
    MaybeSuspicious,
    /// In the deny list.
    DefSuspicious,
}

/// The verdict after looking the executable up in the allow list (`None`
/// when the lookup failed): final unless the lookup said "not listed", in
/// which case the deny list decides.
pub fn after_allowlist(lookup: Option<bool>) -> (r: Option<DbCheckResult>)
    ensures
        r == (match lookup {
            Some(true) => Some(DbCheckResult::Trusted),
            Some(false) => None,
            None => Some(DbCheckResult::MaybeSuspicious),
        }),
{
    match lookup {
        Some(true) => Some(DbCheckResult::Trusted),
        Some(false) => None,
        None => Some(DbCheckResult::MaybeSuspicious),
    }
}

/// The verdict after looking the executable up in the deny list (`None`
/// when the lookup failed).
pub fn after_denylist(lookup: Option<bool>) -> (r: DbCheckResult)
    ensures
        r == (match lookup {
            Some(true) => DbCheckResult::DefSuspicious,
            _ => DbCheckResult::MaybeSuspicious,
        }),
{
    match lookup {
        Some(true) => DbCheckResult::DefSuspicious,
        _ => DbCheckResult::MaybeSuspicious,
    }
}

/// What is known of the executable of the writing process.
#[derive(Clone, Copy, PartialEq, Eq, Debug, Structural)]
pub enum ExeCheck {
    /// Its path could not be read.
    Unknown,
    /// Its path was read and looked up in the database.
    Checked(DbCheckResult),
}

/// What the caller has to do after a write was recorded.
#[derive(Clone, Copy, PartialEq, Eq, Debug, Structural)]
pub struct ModifyOutcome {
    /// Add the executable to the deny list.
    pub add_to_denylist: bool,
    /// Kill the process and its relatives.
    pub kill: bool,
    /// The error (an errno) that reading the written file's path gave.
    pub error: Option<i32>,
}

/// The path was recorded before.
pub open spec fn path_listed(paths: Seq<Seq<u8>>, p: Seq<u8>) -> bool {
    exists|i: int| 0 <= i < paths.len() && path_view(#[trigger] paths[i]) == path_view(p)
}

/// Suspiciousness one step lower, but never below zero.
pub open spec fn decreased(s: i32) -> i32 {
    if s > 0 {
        (s - 1) as i32
    } else {
        s
    }
}

/// The statistics of a process after it wrote the file at `p` at time `now`:
/// the first path is just recorded; writing a recorded path again lowers the
/// suspiciousness; a new path raises it by 2 in the same directory as the
/// last path, by 1 in a neighbouring directory, and is recorded with the time.
pub open spec fn updated_stats(s: ProcStatsView, p: Seq<u8>, now: i128) -> ProcStatsView {
    if s.paths.len() == 0 {
        ProcStatsView { paths: s.paths.push(p), ..s }
    } else if path_listed(s.paths, p) {
        ProcStatsView { susness: decreased(s.susness), ..s }
    } else {
        let sus = match spec_distance(path_view(p), path_view(s.paths.last())) {
            Distance::Zero => decreased(s.susness) as int,
            Distance::SameDir => s.susness + 2,
            Distance::NeigbourDirs => s.susness + 1,
            Distance::Far => s.susness as int,
        };
        ProcStatsView { susness: sus as i32, paths: s.paths.push(p), last_update_time: now }
    }
}

/// Recording a write needs the distance to the last path to be defined and the
/// raised suspiciousness to fit in an `i32`.
pub open spec fn update_defined(s: ProcStatsView, p: Seq<u8>) -> bool {
    s.paths.len() == 0 || path_listed(s.paths, p) || {
        &&& distance_defined(path_view(p), path_view(s.paths.last()))
        &&& spec_distance(path_view(p), path_view(s.paths.last())) == Distance::SameDir
            ==> s.susness <= i32::MAX - 2
        &&& spec_distance(path_view(p), path_view(s.paths.last())) == Distance::NeigbourDirs
            ==> s.susness <= i32::MAX - 1
    }
}

/// The statistics of `pid` before the write: the recorded ones, or a fresh record.
pub open spec fn stats_before(table: Map<i32, ProcStatsView>, pid: i32, now: i128) -> ProcStatsView {
    if table.contains_key(pid) {
        table[pid]
    } else {
        ProcStatsView { susness: 0, paths: Seq::empty(), last_update_time: now }
    }
}

/// The executable is in the allow list or in the deny list, which decides alone.
pub open spec fn db_decides(exe: ExeCheck) -> bool {
    exe == ExeCheck::Checked(DbCheckResult::Trusted) || exe == ExeCheck::Checked(
        DbCheckResult::DefSuspicious,
    )
}

/// The inputs on which recording a write returns.
pub open spec fn modify_defined(
    table: Map<i32, ProcStatsView>,
    pid: i32,
    exe: ExeCheck,
    fd_path: Result<Seq<u8>, i32>,
) -> bool {
    db_decides(exe) || match fd_path {
        Err(_) => true,
        Ok(p) => table.contains_key(pid) ==> update_defined(table[pid], p),
    }
}

/// The process table after `pid` wrote the file whose path reading gave
/// `fd_path`, at time `now`.
pub open spec fn modified_table(
    table: Map<i32, ProcStatsView>,
    critical: i32,
    pid: i32,
    exe: ExeCheck,
    fd_path: Result<Seq<u8>, i32>,
    now: i128,
) -> Map<i32, ProcStatsView> {
    if db_decides(exe) {
        table
    } else {
        let before = stats_before(table, pid, now);
        match fd_path {
            Err(_) => table.insert(pid, before),
            Ok(p) => {
                let after = updated_stats(before, p, now);
                if after.susness > critical {
                    table.remove(pid)
                } else {
                    table.insert(pid, after)
                }
            },
        }
    }
}

/// What the caller is told to do after `pid` wrote a file.
pub open spec fn modify_outcome(
    table: Map<i32, ProcStatsView>,
    critical: i32,
    pid: i32,
    exe: ExeCheck,
    fd_path: Result<Seq<u8>, i32>,
    now: i128,
) -> ModifyOutcome {
    if exe == ExeCheck::Checked(DbCheckResult::Trusted) {
        ModifyOutcome { add_to_denylist: false, kill: false, error: None }
    } else if exe == ExeCheck::Checked(DbCheckResult::DefSuspicious) {
        ModifyOutcome { add_to_denylist: false, kill: true, error: None }
    } else {
        match fd_path {
            Err(e) => ModifyOutcome { add_to_denylist: false, kill: false, error: Some(e) },
            Ok(p) => {
                let after = updated_stats(stats_before(table, pid, now), p, now);
                if after.susness > critical {
                    ModifyOutcome { add_to_denylist: exe is Checked, kill: true, error: None }
                } else {
                    ModifyOutcome { add_to_denylist: false, kill: false, error: None }
                }
            },
        }
    }
}

/// No two recorded paths name the same file, as `Path` compares paths.
pub open spec fn paths_distinct(paths: Seq<Seq<u8>>) -> bool {
    forall|i: int, j: int|
        0 <= i < j < paths.len() ==> path_view(#[trigger] paths[i]) != path_view(
            #[trigger] paths[j],
        )
}

/// The statistics of one process in a reachable state: suspiciousness is
/// never negative, a process with no recorded path is at zero, a process with
/// a recorded path is at most at the critical level (above it, it is killed
/// and dropped), and no path is recorded twice.
pub open spec fn stats_inv(s: ProcStatsView, critical: i32) -> bool {
    &&& s.susness >= 0
    &&& s.paths.len() == 0 ==> s.susness == 0
    &&& s.paths.len() > 0 ==> s.susness <= critical
    &&& paths_distinct(s.paths)
}

/// Every process in the table satisfies `stats_inv`.
pub open spec fn table_inv(table: Map<i32, ProcStatsView>, critical: i32) -> bool {
    forall|k: i32| #[trigger] table.contains_key(k) ==> stats_inv(table[k], critical)
}

/// How much time passed from `then` to `now`, zero when `then` is later.
pub open spec fn elapsed(now: i128, then: i128) -> int {
    if now >= then {
        now - then
    } else {
        0
    }
}

/// The entries that a flush at `now` keeps: those updated less than
/// `timeout` nanoseconds ago.
pub open spec fn flushed_table(table: Map<i32, ProcStatsView>, now: i128, timeout: u128) -> Map<
    i32,
    ProcStatsView,
> {
    Map::new(
        |k: i32| table.contains_key(k) && elapsed(now, table[k].last_update_time) < timeout,
        |k: i32| table[k],
    )
}

/// What the handler does with one event.
#[derive(Clone, Copy, PartialEq, Eq, Debug, Structural)]
pub enum EventDisposition {
    /// The record has another layout version: a fatal error.
    VersionMismatch,
    /// The event carries no file descriptor: nothing to do.
    NoFd,
    /// Answer the permission request and/or record the write, then close the
    /// descriptor.
    Handle { respond: bool, record_write: bool },
}

/// Decides what to do with an event: records of another version are fatal,
/// events without a descriptor are skipped, permission requests
/// (`FAN_OPEN_PERM`, `FAN_OPEN_EXEC_PERM`) are answered and events in
/// `write_event` record a write.
pub fn dispose_event(metadata: &FanotifyEventMetadata, write_event: EventFlags) -> (d:
    EventDisposition)
    ensures
        d == (if metadata.vers != FANOTIFY_METADATA_VERSION {
            EventDisposition::VersionMismatch
        } else if metadata.fd < 0 {
            EventDisposition::NoFd
        } else {
            EventDisposition::Handle {
                respond: metadata.mask.bits & FAN_OPEN_PERM == FAN_OPEN_PERM
                    || metadata.mask.bits & FAN_OPEN_EXEC_PERM == FAN_OPEN_EXEC_PERM,
                record_write: metadata.mask.bits & write_event.bits == write_event.bits,
            }
        }),
{
    if metadata.vers != FANOTIFY_METADATA_VERSION {
        EventDisposition::VersionMismatch
    } else if metadata.fd < 0 {
        EventDisposition::NoFd
    } else {
        let respond = metadata.mask.contains(EventFlags::from_bits_retain(FAN_OPEN_PERM))
            || metadata.mask.contains(EventFlags::from_bits_retain(FAN_OPEN_EXEC_PERM));
        let record_write = metadata.mask.contains(write_event);
        EventDisposition::Handle { respond, record_write }
    }
}

/// Whether the path is among the recorded ones, as `Path` compares paths.
pub fn contains_path(paths: &Vec<Vec<u8>>, p: &[u8]) -> (b: bool)
    ensures
        b == path_listed(byte_strings(paths@), p@),
{
    let mut i: usize = 0;
    while i < paths.len()
        invariant
            i <= paths@.len(),
            forall|j: int|
                0 <= j < i ==> path_view(#[trigger] byte_strings(paths@)[j]) != path_view(p@),
        decreases paths@.len() - i,
    {
        if same_path(paths[i].as_slice(), p) {
            assert(byte_strings(paths@)[i as int] == paths@[i as int]@);
            return true;
        }
        i = i + 1;
    }
    false
}

/// Main application struct that collects process stats
/// and handles `fanotify` events according to these stats.
pub struct EventHandler {
    proc_table: HashMap<i32, ProcStats>,
    config: Config,
}

impl EventHandler {
    /// The statistics of every known process, by process id.
    pub closed spec fn table(&self) -> Map<i32, ProcStatsView> {
        self.proc_table@.map_values(|s: ProcStats| s@)
    }

    /// The settings the handler runs with.
    pub closed spec fn spec_config(&self) -> Config {
        self.config
    }

    /// What every reachable state satisfies: see `table_inv`.
    pub open spec fn inv(&self) -> bool {
        table_inv(self.table(), self.spec_config().critical_susp)
    }

    /// Creates a new `EventHandler` instance with the given config and no
    /// known process.
    pub fn with_config(config: Config) -> (h: EventHandler)
        ensures
            h.table() == Map::<i32, ProcStatsView>::empty(),
            h.spec_config() == config,
            h.inv(),
    {
        let h = EventHandler { proc_table: HashMap::new(), config };
        assert(h.table() =~= Map::<i32, ProcStatsView>::empty());
        h
    }

    /// The settings the handler runs with.
    pub fn config(&self) -> (c: &Config)
        ensures
            *c == self.spec_config(),
    {
        &self.config
    }

    /// The statistics of a process, if it is known.
    pub fn proc_stats(&self, pid: i32) -> (s: Option<&ProcStats>)
        ensures
            match s {
                Some(st) => self.table().contains_key(pid) && self.table()[pid] == st@,
                None => !self.table().contains_key(pid),
            },
    {
        self.proc_table.get(&pid)
    }

    /// The answer to a process that asks to open a file: `FAN_DENY` if the
    /// process is known and above the critical level, `FAN_ALLOW` otherwise.
    pub fn open_perm_response(&self, pid: i32) -> (r: Response)
        ensures
            r.spec_bits() == (if self.table().contains_key(pid) && self.table()[pid].susness
                > self.spec_config().critical_susp {
                FAN_DENY
            } else {
                FAN_ALLOW
            }),
    {
        match self.proc_table.get(&pid) {
            Some(process) => {
                if process.susness > self.config.critical_susp {
                    Response::deny()
                } else {
                    Response::allow()
                }
            },
            None => Response::allow(),
        }
    }

    /// Whether `handle_modify_event` can be called with these inputs.
    pub fn modify_is_defined(&self, pid: i32, exe: ExeCheck, fd_path: &Result<Vec<u8>, i32>) -> (b:
        bool)
        ensures
            b == modify_defined(self.table(), pid, exe, result_view(fd_path)),
    {
        if exe == ExeCheck::Checked(DbCheckResult::Trusted) || exe == ExeCheck::Checked(
            DbCheckResult::DefSuspicious,
        ) {
            return true;
        }
        let p = match fd_path {
            Err(_) => return true,
            Ok(p) => p,
        };
        match self.proc_table.get(&pid) {
            None => true,
            Some(stats) => {
                if stats.paths.len() == 0 || contains_path(&stats.paths, p.as_slice()) {
                    return true;
                }
                let last = stats.paths.len() - 1;
                proof {
                    assert(byte_strings(stats.paths@).last() == stats.paths@[last as int]@);
                }
                if !distance_is_defined(p.as_slice(), stats.paths[last].as_slice()) {
                    return false;
                }
                match distance(p.as_slice(), stats.paths[last].as_slice()) {
                    Distance::SameDir => stats.susness <= i32::MAX - 2,
                    Distance::NeigbourDirs => stats.susness <= i32::MAX - 1,
                    _ => true,
                }
            },
        }
    }

    /// The process ids in the table.
    fn known_pids(&self) -> (v: Vec<i32>)
        ensures
            forall|k: i32| self.table().contains_key(k) <==> v@.contains(k),
    {
        let mut v: Vec<i32> = Vec::new();
        let ghost m = self.proc_table@;
        let keys = self.proc_table.keys();
        let ghost all = vstd::std_specs::iter::IteratorSpec::remaining(&keys).unref();
        proof {
            assert(all.to_set() == m.dom());
        }
        for k in it: keys
            invariant
                it.seq().unref() == all,
                all.to_set() == m.dom(),
                v@ == all.take(it.index() as int),
        {
            v.push(*k);
            proof {
                assert(v@ =~= all.take(it.index() + 1));
            }
        }
        proof {
            assert(v@ =~= all);
        }
        proof {
            assert forall|k: i32| self.table().contains_key(k) <==> v@.contains(k) by {
                assert(v@.to_set().contains(k) <==> v@.contains(k));
            }
        }
        v
    }

    /// Drops the statistics of every process not updated within the last
    /// `timeout` nanoseconds before `now`.
    pub fn flush(&mut self, now: i128, timeout: u128)
        ensures
            final(self).table() == flushed_table(old(self).table(), now, timeout),
            final(self).spec_config() == old(self).spec_config(),
            old(self).inv() ==> final(self).inv(),
    {
        let ghost t0 = self.table();
        let pids = self.known_pids();
        let mut i: usize = 0;
        while i < pids.len()
            invariant
                i <= pids@.len(),
                forall|k: i32| t0.contains_key(k) <==> pids@.contains(k),
                self.spec_config() == old(self).spec_config(),
                forall|k: i32|
                    #[trigger] self.table().contains_key(k) <==> (t0.contains_key(k) && (
                    pids@.take(i as int).contains(k) ==> elapsed(now, t0[k].last_update_time)
                        < timeout)),
                forall|k: i32| #[trigger]
                    self.table().contains_key(k) ==> self.table()[k] == t0[k],
            decreases pids@.len() - i,
        {
            let k = pids[i];
            let ghost before = self.table();
            let stale = match self.proc_table.get(&k) {
                Some(stats) => !(elapsed_nanos(now, stats.last_update_time) < timeout),
                None => false,
            };
            assert(stale <==> (before.contains_key(k) && !(elapsed(
                now,
                t0[k].last_update_time,
            ) < timeout)));
            if stale {
                self.proc_table.remove(&k);
                proof {
                    assert(self.table() =~= before.remove(k));
                }
            }
            i = i + 1;
            proof {
                assert(pids@.take(i as int)[i - 1] == k);
                assert forall|j: i32|
                    #[trigger] self.table().contains_key(j) <==> (t0.contains_key(j) && (
                    pids@.take(i as int).contains(j) ==> elapsed(now, t0[j].last_update_time)
                        < timeout)) by {
                    if pids@.take(i as int).contains(j) && j != k {
                        let w = choose|w: int| 0 <= w < i && #[trigger] pids@.take(i as int)[w] == j;
                        assert(pids@.take(i - 1)[w] == j);
                    }
                    if pids@.take(i - 1).contains(j) {
                        let w = choose|w: int| 0 <= w < i - 1 && #[trigger] pids@.take(i - 1)[w] == j;
                        assert(pids@.take(i as int)[w] == j);
                    }
                    if j == k {
                        assert(pids@.take(i as int).contains(j));
                    }
                }
            }
        }
        proof {
            assert(pids@.take(pids@.len() as int) =~= pids@);
            assert(self.table() =~= flushed_table(t0, now, timeout));
        }
    }

    /// Records that `pid` wrote the file whose path reading gave `fd_path`,
    /// at time `now`, given what is known of its executable: see
    /// `modified_table` and `modify_outcome`.
    pub fn handle_modify_event(
        &mut self,
        pid: i32,
        exe: ExeCheck,
        fd_path: Result<Vec<u8>, i32>,
        now: i128,
    ) -> (outcome: ModifyOutcome)
        requires
            modify_defined(old(self).table(), pid, exe, result_view(&fd_path)),
        ensures
            final(self).table() == modified_table(
                old(self).table(),
                old(self).spec_config().critical_susp,
                pid,
                exe,
                result_view(&fd_path),
                now,
            ),
            outcome == modify_outcome(
                old(self).table(),
                old(self).spec_config().critical_susp,
                pid,
                exe,
                result_view(&fd_path),
                now,
            ),
            final(self).spec_config() == old(self).spec_config(),
            old(self).inv() ==> final(self).inv(),
    {
        let ghost t0 = self.table();
        let ghost critical = self.config.critical_susp;
        let ghost fdv = result_view(&fd_path);
        match exe {
            ExeCheck::Checked(DbCheckResult::Trusted) => {
                return ModifyOutcome { add_to_denylist: false, kill: false, error: None };
            },
            ExeCheck::Checked(DbCheckResult::DefSuspicious) => {
                return ModifyOutcome { add_to_denylist: false, kill: true, error: None };
            },
            _ => {},
        }
        let mut stats = match self.proc_table.remove(&pid) {
            Some(s) => s,
            None => ProcStats::new(now),
        };
        let ghost before = stats@;
        assert(before == stats_before(t0, pid, now));
        proof {
            assert(self.table() =~= t0.remove(pid));
        }
        let path = match fd_path {
            Err(e) => {
                self.proc_table.insert(pid, stats);
                proof {
                    assert(self.table() =~= t0.insert(pid, before));
                    if old(self).inv() {
                        lemma_modify_preserves_inv(t0, critical, pid, exe, fdv, now);
                    }
                }
                return ModifyOutcome { add_to_denylist: false, kill: false, error: Some(e) };
            },
            Ok(p) => p,
        };
        if stats.paths.len() == 0 {
            stats.paths.push(path);
            proof {
                assert(stats@.paths =~= before.paths.push(path@));
            }
        } else if contains_path(&stats.paths, path.as_slice()) {
            if stats.susness > 0 {
                stats.susness = stats.susness - 1;
            }
        } else {
            let last = stats.paths.len() - 1;
            proof {
                assert(byte_strings(stats.paths@).last() == stats.paths@[last as int]@);
            }
            match distance(path.as_slice(), stats.paths[last].as_slice()) {
                Distance::Zero => {
                    if stats.susness > 0 {
                        stats.susness = stats.susness - 1;
                    }
                },
                Distance::SameDir => stats.susness = stats.susness + 2,
                Distance::NeigbourDirs => stats.susness = stats.susness + 1,
                Distance::Far => (),
            }
            let ghost path_bytes = path@;
            stats.paths.push(path);
            stats.last_update_time = now;
            proof {
                assert(stats@.paths =~= before.paths.push(path_bytes));
            }
        }
        assert(stats@ == updated_stats(before, fdv->Ok_0, now));
        if stats.susness > self.config.critical_susp {
            let deny = exe != ExeCheck::Unknown;
            proof {
                assert(self.table() =~= t0.remove(pid));
                if old(self).inv() {
                    lemma_modify_preserves_inv(t0, critical, pid, exe, fdv, now);
                }
            }
            ModifyOutcome { add_to_denylist: deny, kill: true, error: None }
        } else {
            let ghost after = stats@;
            self.proc_table.insert(pid, stats);
            proof {
                assert(self.table() =~= t0.insert(pid, after));
                if old(self).inv() {
                    lemma_modify_preserves_inv(t0, critical, pid, exe, fdv, now);
                }
            }
            ModifyOutcome { add_to_denylist: false, kill: false, error: None }
        }
    }
}

/// `now - then` in nanoseconds, zero when `then` is later.
pub fn elapsed_nanos(now: i128, then: i128) -> (d: u128)
    ensures
        d == elapsed(now, then),
{
    if now < then {
        0
    } else if then >= 0 || now < 0 {
        (now - then) as u128
    } else {
        let a = now as u128;
        let b = (-(then + 1)) as u128;
        a + b + 1
    }
}

/// The bytes of a read path, or the error.
pub open spec fn result_view(r: &Result<Vec<u8>, i32>) -> Result<Seq<u8>, i32> {
    match r {
        Ok(p) => Ok(p@),
        Err(e) => Err(*e),
    }
}

/// When the critical level is not negative, no process is ever denied an
/// open: a process that climbs above the level is killed and dropped on the
/// spot, so every known process is at or below it.
pub proof fn lemma_open_allowed_when_critical_nonnegative(h: EventHandler, pid: i32)
    requires
        h.inv(),
        h.spec_config().critical_susp >= 0,
    ensures
        !(h.table().contains_key(pid) && h.table()[pid].susness > h.spec_config().critical_susp),
{
    if h.table().contains_key(pid) {
        let s = h.table()[pid];
        assert(s.susness >= 0);
    }
}

/// Recording a write keeps every process within `stats_inv`: a process
/// raised above the critical level is dropped, suspiciousness goes down no
/// further than zero, and a path is appended only when it is not recorded
/// yet.
pub proof fn lemma_modify_preserves_inv(
    table: Map<i32, ProcStatsView>,
    critical: i32,
    pid: i32,
    exe: ExeCheck,
    fd_path: Result<Seq<u8>, i32>,
    now: i128,
)
    requires
        table_inv(table, critical),
        modify_defined(table, pid, exe, fd_path),
    ensures
        table_inv(modified_table(table, critical, pid, exe, fd_path, now), critical),
{
    if !db_decides(exe) {
        let before = stats_before(table, pid, now);
        assert(stats_inv(before, critical)) by {
            if !table.contains_key(pid) {
                assert(before.paths.len() == 0);
            }
        }
        let t = modified_table(table, critical, pid, exe, fd_path, now);
        match fd_path {
            Err(_) => {},
            Ok(p) => {
                let after = updated_stats(before, p, now);
                if after.susness <= critical {
                    if before.paths.len() > 0 && !path_listed(before.paths, p) {
                        let n = before.paths.len() as int;
                        assert forall|i: int, j: int|
                            0 <= i < j < after.paths.len() implies path_view(
                            #[trigger] after.paths[i],
                        ) != path_view(#[trigger] after.paths[j]) by {
                            assert(after.paths[i] == before.paths[i]);
                            if j < n {
                                assert(after.paths[j] == before.paths[j]);
                            } else {
                                assert(after.paths[j] == p);
                            }
                        }
                    }
                    assert(stats_inv(after, critical));
                }
            },
        }
        assert forall|k: i32| #[trigger] t.contains_key(k) implies stats_inv(t[k], critical) by {
            if k != pid {
                assert(table.contains_key(k));
            }
        }
    }
}

/// When the critical level leaves room for the largest raise (two steps),
/// suspiciousness never overflows: recording a write is defined wherever the
/// distance from the written path to the last recorded one is.
pub proof fn lemma_no_overflow_when_level_fits(
    table: Map<i32, ProcStatsView>,
    critical: i32,
    pid: i32,
    exe: ExeCheck,
    fd_path: Result<Seq<u8>, i32>,
)
    requires
        table_inv(table, critical),
        critical <= i32::MAX - 2,
    ensures
        modify_defined(table, pid, exe, fd_path) <==> (db_decides(exe) || match fd_path {
            Err(_) => true,
            Ok(p) => (table.contains_key(pid) && table[pid].paths.len() > 0 && !path_listed(
                table[pid].paths,
                p,
            )) ==> distance_defined(path_view(p), path_view(table[pid].paths.last())),
        }),
{
    if table.contains_key(pid) {
        assert(stats_inv(table[pid], critical));
    }
}

/// A write whose path could be read and that the database does not decide
/// leaves the writer either dropped, and then it is killed, or known and at
/// or below the critical level with the path recorded.
pub proof fn lemma_writer_killed_or_within_level(
    table: Map<i32, ProcStatsView>,
    critical: i32,
    pid: i32,
    exe: ExeCheck,
    p: Seq<u8>,
    now: i128,
)
    requires
        !db_decides(exe),
    ensures
        ({
            let t = modified_table(table, critical, pid, exe, Ok(p), now);
            let o = modify_outcome(table, critical, pid, exe, Ok(p), now);
            &&& o.kill <==> !t.contains_key(pid)
            &&& o.error is None
            &&& t.contains_key(pid) ==> t[pid].susness <= critical && path_listed(t[pid].paths, p)
            &&& o.add_to_denylist <==> (o.kill && exe is Checked)
        }),
{
    let before = stats_before(table, pid, now);
    let after = updated_stats(before, p, now);
    if before.paths.len() == 0 || !path_listed(before.paths, p) {
        assert(after.paths.last() == p);
        assert(path_view(after.paths[after.paths.len() - 1]) == path_view(p));
        assert(path_listed(after.paths, p));
    }
}

/// Writing again a file the process already wrote never raises its
/// suspiciousness: it goes one step down, stopping at zero.
pub proof fn lemma_rewrite_lowers_suspiciousness(s: ProcStatsView, p: Seq<u8>, now: i128)
    requires
        s.paths.len() > 0,
        path_listed(s.paths, p),
    ensures
        updated_stats(s, p, now).susness == decreased(s.susness),
        updated_stats(s, p, now).susness == (if s.susness > 0 {
            s.susness - 1
        } else {
            s.susness as int
        }),
        updated_stats(s, p, now).susness <= s.susness,
        updated_stats(s, p, now).paths == s.paths,
{
}

/// Flushing twice at the same time with the same timeout drops nothing more
/// than flushing once.
pub proof fn lemma_flush_idempotent(table: Map<i32, ProcStatsView>, now: i128, timeout: u128)
    ensures
        flushed_table(flushed_table(table, now, timeout), now, timeout) == flushed_table(
            table,
            now,
            timeout,
        ),
{
    assert(flushed_table(flushed_table(table, now, timeout), now, timeout) =~= flushed_table(
        table,
        now,
        timeout,
    ));
}

/// A flush keeps every process updated less than `timeout` ago, unchanged,
/// and nothing else.
pub proof fn lemma_flush_keeps_recent(table: Map<i32, ProcStatsView>, now: i128, timeout: u128, pid: i32)
    ensures
        flushed_table(table, now, timeout).contains_key(pid) <==> (table.contains_key(pid)
            && elapsed(now, table[pid].last_update_time) < timeout),
        flushed_table(table, now, timeout).contains_key(pid) ==> flushed_table(
            table,
            now,
            timeout,
        )[pid] == table[pid],
{
}

/// A write to a path not recorded yet raises suspiciousness by how close it
/// is to the last recorded path: by two in the same directory, by one in a
/// neighbouring directory, not at all farther away; it never lowers it. The
/// path is appended and the time of the write kept.
pub proof fn lemma_new_path_raises_suspiciousness(s: ProcStatsView, p: Seq<u8>, now: i128)
    requires
        s.paths.len() > 0,
        !path_listed(s.paths, p),
        update_defined(s, p),
    ensures
        ({
            let d = spec_distance(path_view(p), path_view(s.paths.last()));
            let u = updated_stats(s, p, now);
            &&& d != Distance::Zero
            &&& d == Distance::SameDir ==> u.susness == s.susness + 2
            &&& d == Distance::NeigbourDirs ==> u.susness == s.susness + 1
            &&& d == Distance::Far ==> u.susness == s.susness
            &&& u.susness >= s.susness
            &&& u.paths == s.paths.push(p)
            &&& u.last_update_time == now
        }),
{
    let last = s.paths.last();
    if path_view(p) == path_view(last) {
        assert(path_view(s.paths[s.paths.len() - 1]) == path_view(p));
        assert(path_listed(s.paths, p));
    }
}

/// The first write of a process only records the path: suspiciousness and
/// time stay as they were.
pub proof fn lemma_first_write_only_records(s: ProcStatsView, p: Seq<u8>, now: i128)
    requires
        s.paths.len() == 0,
    ensures
        updated_stats(s, p, now).susness == s.susness,
        updated_stats(s, p, now).paths == seq![p],
        updated_stats(s, p, now).last_update_time == s.last_update_time,
{
    assert(s.paths.push(p) =~= seq![p]);
}

/// A writer is killed exactly when its new suspiciousness passes the
/// critical level: at the level itself it is kept, with the new statistics.
pub proof fn lemma_killed_exactly_above_level(
    table: Map<i32, ProcStatsView>,
    critical: i32,
    pid: i32,
    exe: ExeCheck,
    p: Seq<u8>,
    now: i128,
)
    requires
        !db_decides(exe),
    ensures
        ({
            let after = updated_stats(stats_before(table, pid, now), p, now);
            let t = modified_table(table, critical, pid, exe, Ok(p), now);
            let o = modify_outcome(table, critical, pid, exe, Ok(p), now);
            &&& o.kill <==> after.susness > critical
            &&& after.susness <= critical ==> t.contains_key(pid) && t[pid] == after
            &&& forall|k: i32| k != pid ==> (#[trigger] t.contains_key(k) <==> table.contains_key(k))
            &&& forall|k: i32| k != pid && table.contains_key(k) ==> #[trigger] t[k] == table[k]
        }),
{
}

} // verus!
