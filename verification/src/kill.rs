//! Which processes are signalled when a suspicious process is found, and
//! with which signal: its process group, its parent, its descendants and the
//! process itself, as the configuration asks.
use vstd::prelude::*;
use crate::config::Config;
use crate::procfs::ProcessIds;

verus! {

/// The signal sent to the processes that are killed.
#[derive(Clone, Copy, PartialEq, Eq, Debug, Structural)]
pub enum KillSignal {
    /// `SIGTERM`
    Term,
    /// `SIGKILL`
    Kill,
}

/// `SIGTERM` when the configuration asks for it, `SIGKILL` otherwise.
pub fn kill_signal(config: &Config) -> (s: KillSignal)
    ensures
        s == (if config.use_sigterm {
            KillSignal::Term
        } else {
            KillSignal::Kill
        }),
{
    if config.use_sigterm {
        KillSignal::Term
    } else {
        KillSignal::Kill
    }
}

/// The target that addresses the whole process group of `pid` (its negation),
/// when the configuration asks for the group to be killed.
pub fn process_group_target(config: &Config, pid: i32) -> (t: Option<i32>)
    requires
        pid != i32::MIN,
    ensures
        t == (if config.kill_proc_group {
            Some((-pid) as i32)
        } else {
            None::<i32>
        }),
{
    if config.kill_proc_group {
        Some(-pid)
    } else {
        None
    }
}

/// The table is ordered by process id.
pub open spec fn sorted_by_pid(t: Seq<ProcessIds>) -> bool {
    forall|i: int, j: int| 0 <= i <= j < t.len() ==> t[i].pid <= t[j].pid
}

/// Whether some entry of the table has process id `pid`.
pub open spec fn has_pid(t: Seq<ProcessIds>, pid: i32) -> bool {
    exists|i: int| 0 <= i < t.len() && #[trigger] t[i].pid == pid
}

/// What a binary search for `pid` may return: an index holding `pid`, or
/// nothing, which on a table ordered by process id means `pid` is absent.
pub open spec fn find_result_ok(t: Seq<ProcessIds>, pid: i32, r: Option<usize>) -> bool {
    match r {
        Some(i) => i < t.len() && t[i as int].pid == pid,
        None => sorted_by_pid(t) ==> !has_pid(t, pid),
    }
}

/// Binary search of the table by process id.
pub fn find_process(table: &Vec<ProcessIds>, pid: i32) -> (r: Option<usize>)
    ensures
        find_result_ok(table@, pid, r),
{
    let mut lo: usize = 0;
    let mut hi: usize = table.len();
    while lo < hi
        invariant
            lo <= hi <= table@.len(),
            sorted_by_pid(table@) ==> forall|i: int|
                0 <= i < table@.len() && !(lo <= i < hi) ==> #[trigger] table@[i].pid != pid,
        decreases hi - lo,
    {
        let mid = lo + (hi - lo) / 2;
        let p = table[mid].pid;
        if p == pid {
            return Some(mid);
        } else if p < pid {
            lo = mid + 1;
        } else {
            hi = mid;
        }
    }
    None
}

/// The processes reached walking down from `pid` through the table in the
/// order the killer visits them: for each entry in table order whose parent is
/// `pid`, that entry and then, while `fuel` lasts, its own descendants.
pub open spec fn descendants_from(pid: i32, t: Seq<ProcessIds>, fuel: nat, k: nat) -> Seq<i32>
    decreases fuel, t.len() - k,
{
    if k >= t.len() {
        Seq::empty()
    } else {
        let here = if t[k as int].parent_id == pid {
            if fuel > 0 {
                seq![t[k as int].pid] + descendants_from(t[k as int].pid, t, (fuel - 1) as nat, 0)
            } else {
                seq![t[k as int].pid]
            }
        } else {
            Seq::empty()
        };
        here + descendants_from(pid, t, fuel, k + 1)
    }
}

/// Whether the walk down from `pid` ends within `fuel` levels: every child
/// reached still has fuel left to look for its own children. Without it the
/// walk goes round a cycle of parent ids forever.
pub open spec fn walk_ends_from(pid: i32, t: Seq<ProcessIds>, fuel: nat, k: nat) -> bool
    decreases fuel, t.len() - k,
{
    if k >= t.len() {
        true
    } else {
        let here = if t[k as int].parent_id == pid {
            fuel > 0 && walk_ends_from(t[k as int].pid, t, (fuel - 1) as nat, 0)
        } else {
            true
        };
        here && walk_ends_from(pid, t, fuel, k + 1)
    }
}

/// All descendants of `pid` in the table, parents before their children.
pub open spec fn spec_descendants(pid: i32, t: Seq<ProcessIds>) -> Seq<i32> {
    descendants_from(pid, t, t.len(), 0)
}

/// Whether the walk down from `pid` ends. It does whenever the parent ids of
/// the table form no cycle below `pid`: a deeper walk would repeat an entry.
pub open spec fn descendants_walk_ends(pid: i32, t: Seq<ProcessIds>) -> bool {
    walk_ends_from(pid, t, t.len(), 0)
}

/// Walks down from `pid`, appending what it reaches; false, with `out` left
/// in some state, when the walk runs out of fuel.
fn walk(pid: i32, table: &Vec<ProcessIds>, fuel: usize, out: &mut Vec<i32>) -> (ok: bool)
    ensures
        ok == walk_ends_from(pid, table@, fuel as nat, 0),
        ok ==> final(out)@ == old(out)@ + descendants_from(pid, table@, fuel as nat, 0),
    decreases fuel, 1nat, 0nat,
{
    walk_from(pid, table, fuel, 0, out)
}

fn walk_from(pid: i32, table: &Vec<ProcessIds>, fuel: usize, k: usize, out: &mut Vec<i32>) -> (ok:
    bool)
    requires
        k <= table@.len(),
    ensures
        ok == walk_ends_from(pid, table@, fuel as nat, k as nat),
        ok ==> final(out)@ == old(out)@ + descendants_from(pid, table@, fuel as nat, k as nat),
    decreases fuel, 0nat, table@.len() - k,
{
    if k == table.len() {
        assert(old(out)@ + Seq::<i32>::empty() =~= old(out)@);
        return true;
    }
    let entry = table[k];
    let ghost before = out@;
    if entry.parent_id == pid {
        if fuel == 0 {
            return false;
        }
        out.push(entry.pid);
        let ghost mid = out@;
        if !walk(entry.pid, table, fuel - 1, out) {
            return false;
        }
        let ghost after_child = out@;
        let ok = walk_from(pid, table, fuel, k + 1, out);
        proof {
            if ok {
                let sub = descendants_from(entry.pid, table@, (fuel - 1) as nat, 0);
                assert(mid == before.push(entry.pid));
                assert(after_child == mid + sub);
                assert(out@ =~= before + ((seq![entry.pid] + sub) + descendants_from(
                    pid,
                    table@,
                    fuel as nat,
                    (k + 1) as nat,
                )));
            }
        }
        ok
    } else {
        let ok = walk_from(pid, table, fuel, k + 1, out);
        proof {
            if ok {
                assert(out@ =~= before + (Seq::<i32>::empty() + descendants_from(
                    pid,
                    table@,
                    fuel as nat,
                    (k + 1) as nat,
                )));
            }
        }
        ok
    }
}

/// Whether `descendants` can be called: the walk down from `pid` ends.
pub fn descendants_terminate(pid: i32, table: &Vec<ProcessIds>) -> (b: bool)
    ensures
        b == descendants_walk_ends(pid, table@),
{
    let mut scratch: Vec<i32> = Vec::new();
    walk(pid, table, table.len(), &mut scratch)
}

/// All processes below `pid` in the table, each followed by its own
/// descendants, children in table order.
pub fn descendants(pid: i32, table: &Vec<ProcessIds>) -> (d: Vec<i32>)
    requires
        descendants_walk_ends(pid, table@),
    ensures
        d@ == spec_descendants(pid, table@),
{
    let mut out: Vec<i32> = Vec::new();
    let _ = walk(pid, table, table.len(), &mut out);
    assert(out@ =~= Seq::<i32>::empty() + spec_descendants(pid, table@));
    out
}

/// The processes killed once the process table has been read (or could not
/// be, `None`): the parent of `pid` when asked for and found and not `init`,
/// then the descendants of `pid` when asked for, and last `pid` itself.
/// `found` is where the search for `pid` in the table ended.
pub open spec fn spec_related_targets(
    config: Config,
    pid: i32,
    table: Option<Seq<ProcessIds>>,
    found: Option<usize>,
) -> Seq<i32> {
    match table {
        None => seq![pid],
        Some(t) => {
            let parent = match found {
                Some(i) => if config.kill_parent && t[i as int].parent_id != 1 {
                    seq![t[i as int].parent_id]
                } else {
                    Seq::empty()
                },
                None => Seq::empty(),
            };
            let children = if config.kill_children {
                spec_descendants(pid, t)
            } else {
                Seq::empty()
            };
            parent + children + seq![pid]
        }
    }
}

/// The contents of the table, if it was read.
pub open spec fn table_view(table: Option<&Vec<ProcessIds>>) -> Option<Seq<ProcessIds>> {
    match table {
        Some(t) => Some(t@),
        None => None,
    }
}

/// Whether `related_targets` can be called: the walk down from `pid` ends
/// wherever the configuration asks for it.
pub open spec fn related_targets_defined(config: Config, pid: i32, table: Option<Seq<ProcessIds>>) -> bool {
    match table {
        Some(t) => config.kill_children ==> descendants_walk_ends(pid, t),
        None => true,
    }
}

/// Decides, in order, the processes to kill besides the process group:
/// see `spec_related_targets`.
pub fn related_targets(config: &Config, pid: i32, table: Option<&Vec<ProcessIds>>) -> (targets: Vec<
    i32,
>)
    requires
        related_targets_defined(*config, pid, table_view(table)),
    ensures
        exists|found: Option<usize>|
            {
                &&& (table matches Some(t) ==> find_result_ok(t@, pid, found))
                &&& targets@ == spec_related_targets(
                    *config,
                    pid,
                    table_view(table),
                    found,
                )
            },
{
    match table {
        None => {
            let mut v: Vec<i32> = Vec::new();
            v.push(pid);
            assert(v@ =~= spec_related_targets(*config, pid, None, None));
            v
        },
        Some(t) => {
            let found = find_process(t, pid);
            let mut v: Vec<i32> = Vec::new();
            if let Some(i) = found {
                if config.kill_parent && t[i].parent_id != 1 {
                    v.push(t[i].parent_id);
                }
            }
            let ghost parent_part = v@;
            if config.kill_children {
                let d = descendants(pid, t);
                let mut j: usize = 0;
                while j < d.len()
                    invariant
                        j <= d@.len(),
                        v@ == parent_part + d@.take(j as int),
                    decreases d@.len() - j,
                {
                    v.push(d[j]);
                    j = j + 1;
                    proof {
                        assert(v@ =~= parent_part + d@.take(j as int));
                    }
                }
                assert(d@.take(d@.len() as int) =~= d@);
            }
            v.push(pid);
            proof {
                let spec_t = spec_related_targets(*config, pid, Some(t@), found);
                assert(v@ =~= spec_t);
                assert(table_view(table) == Some(t@));
            }
            v
        },
    }
}

proof fn lemma_child_in_walk(pid: i32, t: Seq<ProcessIds>, fuel: nat, j: nat, k: int)
    requires
        j <= k < t.len(),
        t[k].parent_id == pid,
        walk_ends_from(pid, t, fuel, j),
    ensures
        fuel > 0,
        descendants_from(pid, t, fuel, j).contains(t[k].pid),
        forall|x: i32|
            descendants_from(t[k].pid, t, (fuel - 1) as nat, 0).contains(x) ==> descendants_from(
                pid,
                t,
                fuel,
                j,
            ).contains(x),
    decreases k - j,
{
    let whole = descendants_from(pid, t, fuel, j);
    let rest = descendants_from(pid, t, fuel, j + 1);
    if j == k {
        let sub = descendants_from(t[k].pid, t, (fuel - 1) as nat, 0);
        let here = seq![t[k].pid] + sub;
        assert(whole == here + rest);
        assert(whole[0] == t[k].pid);
        assert forall|x: i32| sub.contains(x) implies whole.contains(x) by {
            let w = choose|w: int| 0 <= w < sub.len() && sub[w] == x;
            assert(whole[1 + w] == x);
        }
    } else {
        lemma_child_in_walk(pid, t, fuel, j + 1, k);
        let here = whole.subrange(0, whole.len() - rest.len());
        assert(whole == here + rest);
        assert forall|x: i32| rest.contains(x) implies whole.contains(x) by {
            let w = choose|w: int| 0 <= w < rest.len() && rest[w] == x;
            assert(whole[here.len() + w] == x);
        }
    }
}

/// Killing the descendants of `pid` reaches every process whose parent is
/// `pid`, and everything the walk below such a child reaches: the kill goes
/// down the whole subtree.
pub proof fn lemma_descendants_cover_subtrees(pid: i32, t: Seq<ProcessIds>, k: int)
    requires
        descendants_walk_ends(pid, t),
        0 <= k < t.len(),
        t[k].parent_id == pid,
    ensures
        spec_descendants(pid, t).contains(t[k].pid),
        forall|x: i32|
            descendants_from(t[k].pid, t, (t.len() - 1) as nat, 0).contains(x)
                ==> spec_descendants(pid, t).contains(x),
{
    lemma_child_in_walk(pid, t, t.len(), 0, k);
}

/// `rank` strictly decreases from every parent to its children in the table:
/// a process tree ranked by the height of each subtree is one.
pub open spec fn ranked_by(t: Seq<ProcessIds>, rank: spec_fn(i32) -> nat) -> bool {
    forall|k: int| 0 <= k < t.len() ==> #[trigger] rank(t[k].pid) < rank(t[k].parent_id)
}

proof fn lemma_ranked_walk_ends_from(
    pid: i32,
    t: Seq<ProcessIds>,
    fuel: nat,
    k: nat,
    rank: spec_fn(i32) -> nat,
)
    requires
        ranked_by(t, rank),
        rank(pid) <= fuel,
    ensures
        walk_ends_from(pid, t, fuel, k),
    decreases fuel, t.len() - k,
{
    if k < t.len() {
        if t[k as int].parent_id == pid {
            assert(rank(t[k as int].pid) < rank(pid));
            lemma_ranked_walk_ends_from(t[k as int].pid, t, (fuel - 1) as nat, 0, rank);
        }
        lemma_ranked_walk_ends_from(pid, t, fuel, k + 1, rank);
    }
}

/// On a table without cycles of parent ids the walk down from a process ends:
/// when some ranking decreases from parents to children and `pid` is ranked
/// no higher than the number of entries (the height of its subtree is), the
/// descendants of `pid` can be collected.
pub proof fn lemma_ranked_table_walk_ends(pid: i32, t: Seq<ProcessIds>, rank: spec_fn(i32) -> nat)
    requires
        ranked_by(t, rank),
        rank(pid) <= t.len(),
    ensures
        descendants_walk_ends(pid, t),
{
    lemma_ranked_walk_ends_from(pid, t, t.len(), 0, rank);
}

/// The process a path of entries down from `pid` ends at: `pid` itself for
/// the empty path, else the process of its last entry.
pub open spec fn chain_end(pid: i32, t: Seq<ProcessIds>, ks: Seq<int>) -> i32 {
    if ks.len() == 0 {
        pid
    } else {
        t[ks.last()].pid
    }
}

/// `ks` are the indices of table entries that lead down from `pid`: the first
/// is a child of `pid`, each next one a child of the one before.
pub open spec fn is_chain_below(pid: i32, t: Seq<ProcessIds>, ks: Seq<int>) -> bool {
    &&& forall|i: int| 0 <= i < ks.len() ==> 0 <= #[trigger] ks[i] < t.len()
    &&& forall|i: int|
        0 <= i < ks.len() ==> t[#[trigger] ks[i]].parent_id == chain_end(pid, t, ks.take(i))
}

/// No path down from `pid` through the table meets the same entry twice: the
/// parent ids below `pid` form no cycle.
pub open spec fn no_cycle_below(pid: i32, t: Seq<ProcessIds>) -> bool {
    forall|ks: Seq<int>| #[trigger] is_chain_below(pid, t, ks) ==> ks.no_duplicates()
}

proof fn lemma_distinct_indices_bounded(ks: Seq<int>, n: int)
    requires
        0 <= n,
        ks.no_duplicates(),
        forall|i: int| 0 <= i < ks.len() ==> 0 <= #[trigger] ks[i] < n,
    ensures
        ks.len() <= n,
{
    ks.unique_seq_to_set();
    vstd::set_lib::lemma_int_range(0, n);
    assert forall|x: int| ks.to_set().contains(x) implies vstd::set_lib::set_int_range(
        0,
        n,
    ).contains(x) by {
        let w = choose|w: int| 0 <= w < ks.len() && ks[w] == x;
        assert(0 <= ks[w] < n);
    }
    vstd::set_lib::lemma_len_subset(ks.to_set(), vstd::set_lib::set_int_range(0, n));
}

proof fn lemma_acyclic_walk_ends_from(pid: i32, t: Seq<ProcessIds>, ks: Seq<int>, fuel: nat, k: nat)
    requires
        no_cycle_below(pid, t),
        is_chain_below(pid, t, ks),
        ks.len() + fuel == t.len(),
    ensures
        walk_ends_from(chain_end(pid, t, ks), t, fuel, k),
    decreases fuel, t.len() - k,
{
    if k < t.len() {
        let q = chain_end(pid, t, ks);
        if t[k as int].parent_id == q {
            let ks2 = ks.push(k as int);
            assert forall|i: int| 0 <= i < ks2.len() implies t[#[trigger] ks2[i]].parent_id
                == chain_end(pid, t, ks2.take(i)) by {
                if i < ks.len() {
                    assert(ks2.take(i) =~= ks.take(i));
                    assert(ks2[i] == ks[i]);
                } else {
                    assert(ks2.take(i) =~= ks);
                }
            }
            assert(is_chain_below(pid, t, ks2));
            lemma_distinct_indices_bounded(ks2, t.len() as int);
            assert(chain_end(pid, t, ks2) == t[k as int].pid);
            lemma_acyclic_walk_ends_from(pid, t, ks2, (fuel - 1) as nat, 0);
        }
        lemma_acyclic_walk_ends_from(pid, t, ks, fuel, k + 1);
    }
}

/// When the parent ids below `pid` form no cycle, the walk down from `pid`
/// ends, so its descendants can be collected.
pub proof fn lemma_acyclic_walk_ends(pid: i32, t: Seq<ProcessIds>)
    requires
        no_cycle_below(pid, t),
    ensures
        descendants_walk_ends(pid, t),
{
    assert(is_chain_below(pid, t, Seq::<int>::empty()));
    lemma_acyclic_walk_ends_from(pid, t, Seq::empty(), t.len(), 0);
}

/// The parent is a target only when the configuration asks for it: with
/// `kill_parent` off, the targets are the descendants (when `kill_children`
/// is on) followed by the process itself, whatever the lookup found.
pub proof fn lemma_targets_without_parent(
    config: Config,
    pid: i32,
    table: Seq<ProcessIds>,
    found: Option<usize>,
)
    requires
        !config.kill_parent,
    ensures
        spec_related_targets(config, pid, Some(table), found) == (if config.kill_children {
            spec_descendants(pid, table)
        } else {
            Seq::<i32>::empty()
        }).push(pid),
        spec_related_targets(config, pid, None, found) == seq![pid],
{
    let children = if config.kill_children {
        spec_descendants(pid, table)
    } else {
        Seq::<i32>::empty()
    };
    assert(Seq::<i32>::empty() + children + seq![pid] =~= children.push(pid));
}

/// With `kill_parent` on, a found parent other than init comes first, then
/// the descendants (when `kill_children` is on), then the process itself.
pub proof fn lemma_targets_with_parent(config: Config, pid: i32, table: Seq<ProcessIds>, i: usize)
    requires
        config.kill_parent,
        i < table.len(),
        table[i as int].parent_id != 1,
    ensures
        spec_related_targets(config, pid, Some(table), Some(i)) == seq![table[i as int].parent_id]
            + (if config.kill_children {
            spec_descendants(pid, table)
        } else {
            Seq::<i32>::empty()
        }).push(pid),
{
    let children = if config.kill_children {
        spec_descendants(pid, table)
    } else {
        Seq::<i32>::empty()
    };
    assert(seq![table[i as int].parent_id] + children + seq![pid] =~= seq![
        table[i as int].parent_id,
    ] + children.push(pid));
}

/// Init is never a target as a parent: when the found entry's parent is 1,
/// the targets are the descendants (when `kill_children` is on) and then the
/// process itself.
pub proof fn lemma_init_parent_spared(config: Config, pid: i32, table: Seq<ProcessIds>, i: usize)
    requires
        i < table.len(),
        table[i as int].parent_id == 1,
    ensures
        spec_related_targets(config, pid, Some(table), Some(i)) == (if config.kill_children {
            spec_descendants(pid, table)
        } else {
            Seq::<i32>::empty()
        }).push(pid),
{
    let children = if config.kill_children {
        spec_descendants(pid, table)
    } else {
        Seq::<i32>::empty()
    };
    assert(Seq::<i32>::empty() + children + seq![pid] =~= children.push(pid));
}

} // verus!
