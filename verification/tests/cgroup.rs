//! Per-run cgroups.

use tallyrun::cgroup::{
    base_dir, leaf_is_there, next_removal, self_cgroup, setup, stat_field, subtree_has, FileWrite,
    Removal, RunCgroup, RunNumbers, Setup, SetupAction, CONTROLLER_SETS, ENABLE_RETRIES,
    REMOVE_RETRIES,
};

#[test]
fn stat_field_matches_whole_keys_only() {
    let stat = "usage_usec 116532\nuser_usec 110000\nsystem_usec 6532\n\
                core_sched.force_idle_usec 0\nnr_periods 0\n";
    assert_eq!(stat_field(stat, "usage_usec"), Some(116_532));
    assert_eq!(stat_field(stat, "user_usec"), Some(110_000));
    assert_eq!(stat_field(stat, "system_usec"), Some(6_532));
    // a key that is only a prefix of another line must not match it
    assert_eq!(stat_field(stat, "usage"), None);
    assert_eq!(stat_field(stat, "missing_usec"), None);
}

#[test]
fn a_field_that_is_no_number_is_none() {
    assert_eq!(stat_field("a x\na 5\n", "a"), None);
    assert_eq!(stat_field("a 18446744073709551616", "a"), None);
    assert_eq!(stat_field("a 18446744073709551615\r\n", "a"), Some(u64::MAX));
    assert_eq!(stat_field("a  +7 \n", "a"), Some(7));
    assert_eq!(stat_field("", "a"), None);
}

#[test]
fn the_own_cgroup_is_the_v2_line() {
    let content = "12:cpu:/x\n0::/user.slice/a.scope\n";
    assert_eq!(
        self_cgroup(content),
        Some("/sys/fs/cgroup/user.slice/a.scope".to_string())
    );
    assert_eq!(self_cgroup("0::/\n"), Some("/sys/fs/cgroup/".to_string()));
    assert_eq!(self_cgroup("0:://a"), Some("/sys/fs/cgroup/a".to_string()));
    assert_eq!(self_cgroup("1:cpu:/\n"), None);
}

#[test]
fn run_cgroups_go_next_to_the_leaf() {
    assert_eq!(base_dir("/sys/fs/cgroup/a/tallyrun-init"), "/sys/fs/cgroup/a");
    assert_eq!(base_dir("/sys/fs/cgroup/a/tallyrun-init/"), "/sys/fs/cgroup/a");
    assert_eq!(base_dir("/sys/fs/cgroup/a"), "/sys/fs/cgroup/a");
    assert_eq!(base_dir("/sys/fs/cgroup/a/not-tallyrun-init"), "/sys/fs/cgroup/a/not-tallyrun-init");
    assert_eq!(base_dir("/sys/fs/cgroup/tallyrun-init/b"), "/sys/fs/cgroup/tallyrun-init/b");
}

#[test]
fn controllers_are_whole_words() {
    assert!(subtree_has(Some("cpuset cpu memory pids\n"), "memory"));
    assert!(!subtree_has(Some("memory_x pids\n"), "memory"));
    assert!(!subtree_has(Some(""), "memory"));
    assert!(!subtree_has(None, "memory"));
}

#[test]
fn a_named_directory_is_used_and_not_vacated() {
    let mut s = setup(Some("/cg/a"), Some("/cg/b"));
    assert_eq!(s.dir, "/cg/a");
    assert_eq!(s.pending, SetupAction::ReadControl { prepared: true });
    assert_eq!(s.control_file(), "/cg/a/cgroup.subtree_control");
    s.advance(true, "cpu pids");
    for set in 0..CONTROLLER_SETS.len() {
        assert_eq!(
            s.pending,
            SetupAction::Enable {
                prepared: true,
                attempt: 0,
                set
            }
        );
        s.advance(false, "");
    }
    assert_eq!(s.pending, SetupAction::Ready);
    assert_eq!(s.dir, "/cg/a");
}

#[test]
fn the_environment_names_one_where_nobody_else_does() {
    let s = setup(None, Some("/cg/b"));
    assert_eq!(s.dir, "/cg/b");
    assert_eq!(setup(None, None).pending, SetupAction::ReadOwn);
}

#[test]
fn a_directory_with_the_memory_controller_is_ready() {
    let mut s = setup(Some("/cg"), None);
    s.advance(true, "memory pids");
    assert_eq!(s.pending, SetupAction::Ready);
    let mut s = setup(Some("/cg"), None);
    s.advance(false, "memory");
    assert!(matches!(s.pending, SetupAction::Enable { .. }));
}

fn found() -> Setup {
    let mut s = setup(None, None);
    s.advance(true, "0::/u\n");
    s
}

#[test]
fn an_own_cgroup_is_vacated_and_enabled() {
    let mut s = found();
    assert_eq!(s.dir, "/sys/fs/cgroup/u");
    assert_eq!(s.pending, SetupAction::ReadControl { prepared: false });
    s.advance(true, "");
    assert_eq!(s.pending, SetupAction::MakeLeaf);
    assert_eq!(s.leaf_dir(), "/sys/fs/cgroup/u/tallyrun-init");
    s.advance(true, "");
    assert_eq!(s.pending, SetupAction::ReadProcs { attempt: 0 });
    assert_eq!(s.procs_file(), "/sys/fs/cgroup/u/cgroup.procs");
    s.advance(true, "12\n34\n");
    assert_eq!(s.procs, vec!["12".to_string(), "34".to_string()]);
    assert_eq!(s.pending, SetupAction::Move { attempt: 0, next: 0 });
    assert_eq!(s.leaf_procs_file(), "/sys/fs/cgroup/u/tallyrun-init/cgroup.procs");
    s.advance(false, "");
    assert_eq!(s.pending, SetupAction::Move { attempt: 0, next: 1 });
    s.advance(true, "");
    assert_eq!(
        s.pending,
        SetupAction::Enable {
            prepared: false,
            attempt: 0,
            set: 0
        }
    );
    s.advance(false, "");
    s.advance(true, "");
    assert_eq!(s.pending, SetupAction::Ready);
}

#[test]
fn enabling_gives_up_after_its_retries() {
    let mut s = found();
    s.advance(true, "");
    s.advance(true, "");
    let mut naps = 0;
    while s.pending != SetupAction::Ready {
        if matches!(s.pending, SetupAction::Nap { .. }) {
            naps += 1;
        }
        s.advance(false, "");
    }
    assert_eq!(naps, ENABLE_RETRIES);
    assert_eq!(ENABLE_RETRIES, 20);
}

#[test]
fn a_leaf_that_cannot_be_made_ends_the_setup() {
    let mut s = found();
    s.advance(true, "");
    s.advance(false, "");
    assert_eq!(s.pending, SetupAction::Ready);
}

#[test]
fn no_cgroup_can_be_found() {
    let mut s = setup(None, None);
    s.advance(false, "");
    assert_eq!(s.pending, SetupAction::Unreadable);
    let mut s = setup(None, None);
    s.advance(true, "1:cpu:/\n");
    assert_eq!(s.pending, SetupAction::NoEntry);
    s.advance(true, "0::/\n");
    assert_eq!(s.pending, SetupAction::NoEntry);
}

fn parts(w: FileWrite) -> (String, String) {
    (w.path, w.text)
}

fn numbered(base: &str, pid: u32, nanos: u32, next: u64) -> RunCgroup {
    RunCgroup::create(base, pid, nanos, &mut RunNumbers { next })
}

fn cg() -> RunCgroup {
    numbered("/cg", 42, 7, 3)
}

#[test]
fn names_hold_pid_nanoseconds_and_count() {
    assert_eq!(cg().path, "/cg/tr-42-7-3");
    assert_eq!(cg().file("cpu.stat"), "/cg/tr-42-7-3/cpu.stat");
    assert_ne!(numbered("/cg", 42, 7, 4).path, cg().path);
    assert_ne!(numbered("/cg", 42, 73, 3).path, numbered("/cg", 42, 7, 33).path);
}

#[test]
fn runs_of_one_process_are_numbered() {
    let mut numbers = RunNumbers { next: 0 };
    let paths: Vec<String> = (0..3)
        .map(|_| RunCgroup::create("/cg", 1, 5, &mut numbers).path)
        .collect();
    assert_eq!(paths, vec!["/cg/tr-1-5-0", "/cg/tr-1-5-1", "/cg/tr-1-5-2"]);
    assert_eq!(numbers, RunNumbers { next: 3 });
    let mut last = RunNumbers { next: u64::MAX };
    RunCgroup::create("/cg", 1, 5, &mut last);
    assert_eq!(last, RunNumbers { next: 0 });
}

#[test]
fn a_leaf_that_exists_is_there() {
    assert!(leaf_is_there(true, None));
    assert!(leaf_is_there(false, Some(libc::EEXIST)));
    assert!(!leaf_is_there(false, Some(libc::EACCES)));
    assert!(!leaf_is_there(false, None));
}

#[test]
fn what_is_written_to_the_cgroup() {
    let at = |name: &str, text: &str| (format!("/cg/tr-42-7-3/{name}"), text.to_string());
    let [swap, max] = cg().set_memory_max(327_680);
    assert_eq!(parts(swap), at("memory.swap.max", "0"));
    assert_eq!(parts(max), at("memory.max", "335544320"));
    let [_, max] = cg().set_memory_max(u64::MAX);
    assert_eq!(parts(max), at("memory.max", "18446744073709551615"));
    assert_eq!(parts(cg().set_pids_max(4096)), at("pids.max", "4096"));
    assert_eq!(parts(cg().set_cpus(5)), at("cpuset.cpus", "5"));
    assert_eq!(parts(cg().add_pid(1234)), at("cgroup.procs", "1234"));
    assert_eq!(parts(cg().kill_all()), at("cgroup.kill", "1"));
}

#[test]
fn cap_and_peak_are_told_apart() {
    let mut c = cg();
    assert!(!c.has_memory_cap() && !c.has_memory_peak());
    c.files = vec!["cgroup.procs".to_string(), "memory.max".to_string()];
    assert!(c.has_memory_cap() && !c.has_memory_peak());
    c.files.push("memory.peak".to_string());
    assert!(c.has_memory_cap() && c.has_memory_peak());
}

#[test]
fn times_and_peak_are_read() {
    let stat = "usage_usec 116532\nuser_usec 110000\nsystem_usec 6532\n";
    assert_eq!(cg().cpu_ms(Some(stat)), Some(116));
    let t = cg().cpu_usec(Some(stat)).unwrap();
    assert_eq!((t.total, t.user, t.system), (116_532, 110_000, 6_532));
    assert!(cg().cpu_usec(Some("usage_usec 1\nuser_usec 1\n")).is_none());
    assert_eq!(cg().cpu_ms(None), None);
    assert!(cg().cpu_usec(None).is_none());
    assert_eq!(cg().peak_kb(Some("6004736\n")), Some(5864));
    assert_eq!(cg().peak_kb(Some("1023")), Some(0));
    assert_eq!(cg().peak_kb(Some("-2048")), Some(-2));
    assert_eq!(cg().peak_kb(Some("max")), None);
    assert_eq!(cg().peak_kb(None), None);
}

#[test]
fn removal_kills_then_tries_a_hundred_times() {
    let mut step = next_removal(Removal::Kill, false);
    let mut tries = 0;
    while step != Removal::Done {
        if matches!(step, Removal::Remove { .. }) {
            tries += 1;
        }
        step = next_removal(step, false);
    }
    assert_eq!(tries, REMOVE_RETRIES);
    assert_eq!(REMOVE_RETRIES, 100);
    assert_eq!(next_removal(Removal::Remove { tries: 4 }, true), Removal::Done);
    assert_eq!(next_removal(Removal::Done, true), Removal::Done);
}
