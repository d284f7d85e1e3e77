use krom::config::Config;
use krom::kill::{
    descendants, descendants_terminate, find_process, kill_signal, process_group_target,
    related_targets, KillSignal,
};
use krom::procfs::ProcessIds;

fn ids(pairs: &[(i32, i32)]) -> Vec<ProcessIds> {
    pairs.iter().map(|&(pid, parent_id)| ProcessIds { pid, parent_id }).collect()
}

fn tree() -> Vec<ProcessIds> {
    // 1 -> 100 -> {200, 300}; 200 -> 400; 300 -> 500; 1 -> 600
    ids(&[(1, 0), (100, 1), (200, 100), (300, 100), (400, 200), (500, 300), (600, 1)])
}

#[test]
fn binary_search_finds_present_pids() {
    let t = tree();
    for (i, e) in t.iter().enumerate() {
        assert_eq!(find_process(&t, e.pid), Some(i));
    }
    assert_eq!(find_process(&t, 250), None);
    assert_eq!(find_process(&t, 0), None);
    assert_eq!(find_process(&t, 1000), None);
    assert_eq!(find_process(&Vec::new(), 1), None);
}

#[test]
fn descendants_walk_the_tree_depth_first() {
    let t = tree();
    assert!(descendants_terminate(100, &t));
    assert_eq!(descendants(100, &t), vec![200, 400, 300, 500]);
    assert_eq!(descendants(1, &t), vec![100, 200, 400, 300, 500, 600]);
    assert_eq!(descendants(400, &t), Vec::<i32>::new());
}

#[test]
fn cycles_never_end() {
    let t = ids(&[(10, 20), (20, 10)]);
    assert!(!descendants_terminate(10, &t));
    let t = ids(&[(10, 10)]);
    assert!(!descendants_terminate(10, &t));
    assert!(descendants_terminate(5, &t));
}

#[test]
fn signal_and_group() {
    let mut c = Config::default();
    assert_eq!(kill_signal(&c), KillSignal::Kill);
    assert_eq!(process_group_target(&c, 300), None);
    c.use_sigterm = true;
    c.kill_proc_group = true;
    assert_eq!(kill_signal(&c), KillSignal::Term);
    assert_eq!(process_group_target(&c, 300), Some(-300));
}

#[test]
fn default_config_kills_children_then_process() {
    let c = Config::default();
    let t = tree();
    assert_eq!(related_targets(&c, 100, Some(&t)), vec![200, 400, 300, 500, 100]);
}

#[test]
fn parent_killed_unless_init() {
    let mut c = Config::default();
    c.kill_parent = true;
    c.kill_children = false;
    let t = tree();
    assert_eq!(related_targets(&c, 200, Some(&t)), vec![100, 200]);
    assert_eq!(related_targets(&c, 100, Some(&t)), vec![100]);
}

#[test]
fn without_table_only_the_process() {
    let mut c = Config::default();
    c.kill_parent = true;
    assert_eq!(related_targets(&c, 200, None), vec![200]);
}

#[test]
fn walk_ends_without_a_cycle_below() {
    // The deepest tree a table of n entries can hold: one chain of n processes.
    let chain: Vec<(i32, i32)> = (1..=50).rev().map(|p| (p + 1, p)).collect();
    let t = ids(&chain);
    assert!(descendants_terminate(1, &t));
    assert_eq!(descendants(1, &t), (2..=51).collect::<Vec<i32>>());
    // A cycle that cannot be reached from the process does not stop the walk.
    let t = ids(&[(10, 11), (11, 10), (2, 1), (3, 2)]);
    assert!(descendants_terminate(1, &t));
    assert_eq!(descendants(1, &t), vec![2, 3]);
    assert!(!descendants_terminate(10, &t));
}
