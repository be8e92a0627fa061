//! One cgroup v2 per run. It reports CPU time and peak RSS for the whole
//! process tree (wait4 stops at bwrap's PID namespace), caps real RSS, and
//! tears the run down with `cgroup.kill`.
//!
//! cgroup v2 doesn't let a cgroup hold processes while it has controllers
//! enabled for its children (the "no internal processes" rule). So `setup`
//! moves every process in the current cgroup into a `tallyrun-init` leaf and
//! enables the controllers; run cgroups are then created next to that leaf.
//! Later invocations start inside the leaf, because their parent was moved
//! there, and go straight to creating run cgroups.
//!
//! A deployment can instead prepare a delegated directory and point
//! `TALLYRUN_CGROUP_DIR` or `--cgroup-dir` at it. tallyrun then only creates
//! run cgroups there and never moves processes.
//!
//! This module says which files to read and write, and what their contents
//! mean; the caller does the reading and writing.

use crate::limits::capped_mul;
use crate::sys::errnos;
use crate::text::{
    after_prefix, chars_of, decimal, join, line_list, parse_signed, parse_unsigned, same,
    signed_decimal, trimmed, word_list,
};
use crate::{limits, text};
use vstd::prelude::*;
use vstd::string::*;

verus! {

pub const CGROUP_ROOT: &'static str = "/sys/fs/cgroup";

pub const INIT_LEAF: &'static str = "tallyrun-init";

/// What to say where /proc/self/cgroup has no v2 line.
pub const NO_ENTRY: &'static str = "no cgroup v2 entry in /proc/self/cgroup";

/// Controller sets to try, largest first. There's no +cpu because the cgroup
/// core keeps usage_usec in cpu.stat for every cgroup anyway. The controllers
/// are for the memory cap and peak, pids.max, and cpuset.cpus, which only
/// `--pin-cpu` sets (an enabled cpuset that is never set restricts nothing).
pub const CONTROLLER_SETS: [&'static str; 3] = [
    "+memory +pids +cpuset",
    "+memory +pids",
    "+memory",
];

/// How often enabling the controllers is tried.
pub const ENABLE_RETRIES: u32 = 20;

/// How often removing a cgroup is tried. `cgroup.kill` is asynchronous: killed
/// tasks stay around as "dying" and rmdir fails with EBUSY until the kernel
/// reaps them.
pub const REMOVE_RETRIES: u32 = 100;

/// The pause between two tries, in milliseconds.
pub const RETRY_SLEEP_MS: u64 = 5;

/// What follows `prefix` in the first of `ls` that starts with it.
pub open spec fn first_after(ls: Seq<Seq<char>>, prefix: Seq<char>) -> Option<Seq<char>>
    decreases ls.len(),
{
    if ls.len() == 0 {
        None
    } else if text::starts_with(ls[0], prefix) {
        Some(ls[0].skip(prefix.len() as int))
    } else {
        first_after(ls.drop_first(), prefix)
    }
}

/// What follows `prefix` in the first line of `content` that starts with it.
fn line_after(content: &str, prefix: &str) -> (r: Option<String>)
    ensures
        match first_after(text::lines(content@), prefix@) {
            Some(rest) => r matches Some(s) && s@ == rest,
            None => r is None,
        },
{
    let ls = line_list(content);
    let ghost all = text::lines(content@);
    let mut i: usize = 0;
    assert(all.skip(0) =~= all);
    while i < ls.len()
        invariant
            i <= ls@.len(),
            all == text::texts(ls@),
            all == text::lines(content@),
            first_after(all, prefix@) == first_after(all.skip(i as int), prefix@),
        decreases ls@.len() - i,
    {
        assert(all.skip(i as int)[0] == ls@[i as int]@);
        match after_prefix(ls[i].as_str(), prefix) {
            Some(rest) => {
                return Some(rest);
            },
            None => {},
        }
        assert(all.skip(i as int).drop_first() =~= all.skip(i + 1));
        i = i + 1;
    }
    None
}

/// The key `name` and the space after it.
pub open spec fn key(name: Seq<char>) -> Seq<char> {
    name + seq![' ']
}

/// The value of `name` in a flat-keyed cgroup file: the number in the first
/// line whose key is `name`, all of it.
pub open spec fn stat_value(stat: Seq<char>, name: Seq<char>) -> Option<nat> {
    match first_after(text::lines(stat), key(name)) {
        Some(v) => text::unsigned_up_to(text::trim(v), u64::MAX as nat),
        None => None,
    }
}

/// The value of `name` in a flat-keyed cgroup file such as cpu.stat.
pub fn stat_field(stat: &str, name: &str) -> (r: Option<u64>)
    ensures
        match stat_value(stat@, name@) {
            Some(n) => r == Some(n as u64),
            None => r is None,
        },
{
    let mut prefix = name.to_owned();
    proof {
        reveal_strlit(" ");
        assert(" "@ =~= seq![' ']);
    }
    prefix.append(" ");
    match line_after(stat, prefix.as_str()) {
        Some(v) => {
            let c = chars_of(v.as_str());
            parse_unsigned(trimmed(c.as_slice()), u64::MAX)
        },
        None => None,
    }
}

/// A key that is only the beginning of a longer one does not match it.
pub proof fn law_keys_match_whole(line: Seq<char>, longer: Seq<char>, name: Seq<char>)
    requires
        text::starts_with(line, key(longer)),
        text::starts_with(longer, name),
        longer.len() > name.len(),
        longer[name.len() as int] != ' ',
    ensures
        !text::starts_with(line, key(name)),
{
    let n = name.len() as int;
    assert(line[n] == line.take(key(longer).len() as int)[n]);
    assert(key(longer)[n] == longer[n]);
    if text::starts_with(line, key(name)) {
        assert(line.take(n + 1)[n] == key(name)[n]);
    }
}

/// `s` without the slashes that it starts with.
pub open spec fn without_leading_slashes(s: Seq<char>) -> Seq<char>
    decreases s.len(),
{
    if s.len() > 0 && s[0] == '/' {
        without_leading_slashes(s.drop_first())
    } else {
        s
    }
}

/// The cgroup that `content`, the text of /proc/self/cgroup, names in its v2
/// line, as an absolute path.
pub open spec fn own_cgroup(content: Seq<char>) -> Option<Seq<char>> {
    match first_after(text::lines(content), "0::"@) {
        Some(rel) => Some(text::joined(CGROUP_ROOT@, without_leading_slashes(rel))),
        None => None,
    }
}

/// This process's cgroup as an absolute path, from the text of
/// /proc/self/cgroup (the `0::` v2 line).
pub fn self_cgroup(content: &str) -> (r: Option<String>)
    ensures
        match own_cgroup(content@) {
            Some(path) => r matches Some(p) && p@ == path,
            None => r is None,
        },
{
    match line_after(content, "0::") {
        Some(rel) => {
            let c = chars_of(rel.as_str());
            let mut from: usize = 0;
            assert(c@.skip(0) =~= c@);
            while from < c.len() && c[from] == '/'
                invariant
                    from <= c@.len(),
                    without_leading_slashes(c@) == without_leading_slashes(c@.skip(from as int)),
                decreases c@.len() - from,
            {
                assert(c@.skip(from as int).drop_first() =~= c@.skip(from + 1));
                from = from + 1;
            }
            let below = rel.as_str().substring_char(from, c.len());
            assert(below@ =~= c@.skip(from as int));
            Some(join(CGROUP_ROOT, below))
        },
        None => None,
    }
}

/// `path` without trailing slashes and `.` components.
pub open spec fn bare(path: Seq<char>) -> Seq<char>
    decreases path.len(),
{
    let n = path.len() as int;
    if n > 1 && path[n - 1] == '/' {
        bare(path.drop_last())
    } else if n > 1 && path[n - 1] == '.' && path[n - 2] == '/' {
        bare(path.drop_last())
    } else {
        path
    }
}

/// Where the last component of `path` starts.
pub open spec fn leaf_start(path: Seq<char>) -> int
    decreases path.len(),
{
    if path.len() == 0 || path.last() == '/' {
        path.len() as int
    } else {
        leaf_start(path.drop_last())
    }
}

/// The last component of `path`.
pub open spec fn leaf(path: Seq<char>) -> Seq<char> {
    bare(path).skip(leaf_start(bare(path)))
}

/// `path` without its last component.
pub open spec fn parent(path: Seq<char>) -> Seq<char> {
    bare(bare(path).take(leaf_start(bare(path))))
}

/// The cgroup to create run cgroups in, for a process in `own`: inside the
/// leaf, an earlier run already moved our parent there and did the setup, so
/// run cgroups go next to the leaf.
pub open spec fn base_of(own: Seq<char>) -> Seq<char> {
    if leaf(own) == INIT_LEAF@ {
        parent(own)
    } else {
        own
    }
}

/// The length of `bare(path)`, which is a prefix of `path`.
fn bare_len(path: &Vec<char>, from: usize) -> (r: usize)
    requires
        from <= path@.len(),
    ensures
        r <= from,
        path@.take(r as int) == bare(path@.take(from as int)),
{
    let mut n: usize = from;
    while n > 1 && (path[n - 1] == '/' || (path[n - 1] == '.' && path[n - 2] == '/'))
        invariant
            n <= from <= path@.len(),
            bare(path@.take(n as int)) == bare(path@.take(from as int)),
        decreases n,
    {
        assert(path@.take(n as int).drop_last() =~= path@.take(n - 1));
        n = n - 1;
    }
    n
}

proof fn lemma_leaf_start(path: Seq<char>)
    ensures
        0 <= leaf_start(path) <= path.len(),
    decreases path.len(),
{
    if path.len() > 0 && path.last() != '/' {
        lemma_leaf_start(path.drop_last());
    }
}

/// The cgroup to create run cgroups in, for a process in `own`.
pub fn base_dir(own: &str) -> (r: String)
    ensures
        r@ == base_of(own@),
{
    let c = chars_of(own);
    let n: usize = bare_len(&c, c.len());
    let ghost whole = c@.take(n as int);
    assert(c@.take(c@.len() as int) =~= c@);
    let mut at: usize = n;
    assert(c@.take(at as int) =~= whole);
    while at > 0 && c[at - 1] != '/'
        invariant
            at <= n <= c@.len(),
            leaf_start(whole) == leaf_start(c@.take(at as int)),
        decreases at,
    {
        assert(c@.take(at as int).drop_last() =~= c@.take(at - 1));
        at = at - 1;
    }
    assert(leaf_start(whole) == at);
    let last = own.substring_char(at, n);
    assert(last@ =~= whole.skip(at as int));
    if same(last, INIT_LEAF) {
        let m: usize = bare_len(&c, at);
        assert(c@.take(at as int) =~= whole.take(at as int));
        let up = own.substring_char(0, m);
        assert(up@ =~= c@.take(m as int));
        up.to_owned()
    } else {
        own.to_owned()
    }
}

/// Whether `controller` is one of the words of `control`.
pub open spec fn lists(control: Seq<char>, controller: Seq<char>) -> bool {
    text::words(control).contains(controller)
}

/// Whether `controller` is enabled for children, from the text of
/// `cgroup.subtree_control`; not where that could not be read.
pub fn subtree_has(control: Option<&str>, controller: &str) -> (r: bool)
    ensures
        r == (control matches Some(c) && lists(c@, controller@)),
{
    match control {
        Some(c) => {
            let ws = word_list(c);
            let ghost all = text::words(c@);
            let mut i: usize = 0;
            while i < ws.len()
                invariant
                    i <= ws@.len(),
                    all == text::texts(ws@),
                    all == text::words(c@),
                    control == Some(c),
                    forall|j: int| 0 <= j < i ==> all[j] != controller@,
                decreases ws@.len() - i,
            {
                assert(all[i as int] == ws@[i as int]@);
                if same(ws[i].as_str(), controller) {
                    return true;
                }
                i = i + 1;
            }
            false
        },
        None => false,
    }
}

/// What preparing the directory for run cgroups asks for next.
#[derive(Debug, Clone, Copy, PartialEq, Eq, Structural)]
pub enum SetupAction {
    /// Read /proc/self/cgroup.
    ReadOwn,
    /// Read `cgroup.subtree_control` of the directory.
    ReadControl { prepared: bool },
    /// Write one of `CONTROLLER_SETS` to `cgroup.subtree_control`.
    Enable { prepared: bool, attempt: u32, set: usize },
    /// Create the leaf. It works where the leaf is there afterwards.
    MakeLeaf,
    /// Read `cgroup.procs` of the directory.
    ReadProcs { attempt: u32 },
    /// Write one of the processes that were read to `cgroup.procs` of the
    /// leaf. Already-exited processes and kernel threads fail, which is
    /// ignored.
    Move { attempt: u32, next: usize },
    /// Pause.
    Nap { attempt: u32 },
    /// Run cgroups can be created in the directory.
    Ready,
    /// /proc/self/cgroup could not be read.
    Unreadable,
    /// /proc/self/cgroup has no v2 line.
    NoEntry,
}

/// The directory for run cgroups on its way to being ready.
pub struct Setup {
    pub dir: String,
    pub procs: Vec<String>,
    pub pending: SetupAction,
}

/// The model of a `Setup`.
#[verifier::ext_equal]
pub struct SetupView {
    pub dir: Seq<char>,
    pub procs: Seq<Seq<char>>,
    pub pending: SetupAction,
}

impl View for Setup {
    type V = SetupView;

    open spec fn view(&self) -> SetupView {
        SetupView { dir: self.dir@, procs: text::texts(self.procs@), pending: self.pending }
    }
}

/// A prepared directory is only looked at; else the own cgroup has to be found
/// first. A directory that was named for this run comes before the one in the
/// environment.
pub open spec fn setup_start(explicit: Option<Seq<char>>, env: Option<Seq<char>>) -> SetupView {
    let named = if explicit is Some {
        explicit
    } else {
        env
    };
    match named {
        Some(dir) => SetupView {
            dir,
            procs: Seq::empty(),
            pending: SetupAction::ReadControl { prepared: true },
        },
        None => SetupView {
            dir: Seq::empty(),
            procs: Seq::empty(),
            pending: SetupAction::ReadOwn,
        },
    }
}

/// What follows when the pending action worked (`ok`), or did not. `content`
/// is what was read.
pub open spec fn setup_after(v: SetupView, ok: bool, content: Seq<char>) -> SetupView {
    match v.pending {
        SetupAction::ReadOwn => if !ok {
            SetupView { pending: SetupAction::Unreadable, ..v }
        } else {
            match own_cgroup(content) {
                Some(own) => SetupView {
                    dir: base_of(own),
                    pending: SetupAction::ReadControl { prepared: false },
                    ..v
                },
                None => SetupView { pending: SetupAction::NoEntry, ..v },
            }
        },
        SetupAction::ReadControl { prepared } => if ok && lists(content, "memory"@) {
            SetupView { pending: SetupAction::Ready, ..v }
        } else if prepared {
            SetupView { pending: SetupAction::Enable { prepared, attempt: 0, set: 0 }, ..v }
        } else {
            SetupView { pending: SetupAction::MakeLeaf, ..v }
        },
        SetupAction::Enable { prepared, attempt, set } => if ok {
            SetupView { pending: SetupAction::Ready, ..v }
        } else if set + 1 < 3 {
            SetupView {
                pending: SetupAction::Enable { prepared, attempt, set: (set + 1) as usize },
                ..v
            }
        } else if prepared {
            SetupView { pending: SetupAction::Ready, ..v }
        } else {
            SetupView { pending: SetupAction::Nap { attempt }, ..v }
        },
        SetupAction::MakeLeaf => if ok {
            SetupView { pending: SetupAction::ReadProcs { attempt: 0 }, ..v }
        } else {
            SetupView { pending: SetupAction::Ready, ..v }
        },
        SetupAction::ReadProcs { attempt } => if ok && text::words(content).len() > 0 {
            SetupView {
                procs: text::words(content),
                pending: SetupAction::Move { attempt, next: 0 },
                ..v
            }
        } else {
            SetupView {
                procs: Seq::empty(),
                pending: SetupAction::Enable { prepared: false, attempt, set: 0 },
                ..v
            }
        },
        SetupAction::Move { attempt, next } => if next + 1 < v.procs.len() {
            SetupView {
                pending: SetupAction::Move { attempt, next: (next + 1) as usize },
                ..v
            }
        } else {
            SetupView {
                pending: SetupAction::Enable { prepared: false, attempt, set: 0 },
                ..v
            }
        },
        SetupAction::Nap { attempt } => if attempt + 1 < ENABLE_RETRIES {
            SetupView {
                pending: SetupAction::ReadProcs { attempt: (attempt + 1) as u32 },
                ..v
            }
        } else {
            SetupView { pending: SetupAction::Ready, ..v }
        },
        _ => v,
    }
}

/// Starts to find or prepare the directory to create per-run cgroups in.
/// Missing controllers aren't an error: a bare child cgroup still reports CPU
/// for the tree, and only the memory side degrades (see
/// `RunCgroup::has_memory_cap` and `has_memory_peak`).
///
/// `explicit` is the directory named for this run, `env` that of
/// TALLYRUN_CGROUP_DIR.
pub fn setup(explicit: Option<&str>, env: Option<&str>) -> (r: Setup)
    ensures
        r@ == setup_start(
            (match explicit {
                Some(d) => Some(d@),
                None => None,
            }),
            (match env {
                Some(d) => Some(d@),
                None => None,
            }),
        ),
{
    let named: Option<&str> = match explicit {
        Some(d) => Some(d),
        None => env,
    };
    let procs: Vec<String> = Vec::new();
    assert(text::texts(procs@) =~= Seq::<Seq<char>>::empty());
    match named {
        Some(d) => Setup {
            dir: d.to_owned(),
            procs,
            pending: SetupAction::ReadControl { prepared: true },
        },
        None => Setup { dir: String::new(), procs, pending: SetupAction::ReadOwn },
    }
}

/// Whether the leaf is there after it was to be made: it was, or it was there
/// before, so that making it failed with EEXIST.
pub fn leaf_is_there(made: bool, errno: Option<i32>) -> (r: bool)
    ensures
        r == (made || errno == Some(17i32)),
{
    let e: [i32; 4] = errnos();
    made || match errno {
        Some(n) => n == e[3],
        None => false,
    }
}

impl Setup {
    /// Takes the outcome of the pending action, and what it read.
    ///
    /// Enabling retries because other tallyrun processes can appear in the
    /// directory between the move and the enable.
    pub fn advance(&mut self, ok: bool, content: &str)
        ensures
            final(self)@ == setup_after(old(self)@, ok, content@),
    {
        match self.pending {
            SetupAction::ReadOwn => {
                if !ok {
                    self.pending = SetupAction::Unreadable;
                } else {
                    match self_cgroup(content) {
                        Some(own) => {
                            self.dir = base_dir(own.as_str());
                            self.pending = SetupAction::ReadControl { prepared: false };
                        },
                        None => {
                            self.pending = SetupAction::NoEntry;
                        },
                    }
                }
            },
            SetupAction::ReadControl { prepared } => {
                self.pending = if ok && subtree_has(Some(content), "memory") {
                    SetupAction::Ready
                } else if prepared {
                    // A prepared dir has no processes to move. Try to enable
                    // the controllers; that only works inside a subtree
                    // delegated to us.
                    SetupAction::Enable { prepared, attempt: 0, set: 0 }
                } else {
                    SetupAction::MakeLeaf
                };
            },
            SetupAction::Enable { prepared, attempt, set } => {
                self.pending = if ok {
                    SetupAction::Ready
                } else if set < 2 {
                    SetupAction::Enable { prepared, attempt, set: set + 1 }
                } else if prepared {
                    SetupAction::Ready
                } else {
                    SetupAction::Nap { attempt }
                };
            },
            SetupAction::MakeLeaf => {
                self.pending = if ok {
                    SetupAction::ReadProcs { attempt: 0 }
                } else {
                    SetupAction::Ready
                };
            },
            SetupAction::ReadProcs { attempt } => {
                let found: Vec<String> = if ok {
                    word_list(content)
                } else {
                    Vec::new()
                };
                assert(!ok ==> text::texts(found@) =~= Seq::<Seq<char>>::empty());
                self.pending = if found.len() > 0 {
                    SetupAction::Move { attempt, next: 0 }
                } else {
                    SetupAction::Enable { prepared: false, attempt, set: 0 }
                };
                assert(found@.len() == 0 ==> text::texts(found@) =~= Seq::<Seq<char>>::empty());
                self.procs = found;
            },
            SetupAction::Move { attempt, next } => {
                let n: usize = self.procs.len();
                self.pending = if n > 0 && next < n - 1 {
                    SetupAction::Move { attempt, next: next + 1 }
                } else {
                    SetupAction::Enable { prepared: false, attempt, set: 0 }
                };
            },
            SetupAction::Nap { attempt } => {
                self.pending = if attempt < ENABLE_RETRIES - 1 {
                    SetupAction::ReadProcs { attempt: attempt + 1 }
                } else {
                    SetupAction::Ready
                };
            },
            SetupAction::Ready | SetupAction::Unreadable | SetupAction::NoEntry => {},
        }
    }

    /// `cgroup.subtree_control` of the directory.
    pub fn control_file(&self) -> (r: String)
        ensures
            r@ == text::joined(self@.dir, "cgroup.subtree_control"@),
    {
        join(self.dir.as_str(), "cgroup.subtree_control")
    }

    /// `cgroup.procs` of the directory.
    pub fn procs_file(&self) -> (r: String)
        ensures
            r@ == text::joined(self@.dir, "cgroup.procs"@),
    {
        join(self.dir.as_str(), "cgroup.procs")
    }

    /// The leaf.
    pub fn leaf_dir(&self) -> (r: String)
        ensures
            r@ == text::joined(self@.dir, INIT_LEAF@),
    {
        join(self.dir.as_str(), INIT_LEAF)
    }

    /// `cgroup.procs` of the leaf.
    pub fn leaf_procs_file(&self) -> (r: String)
        ensures
            r@ == text::joined(text::joined(self@.dir, INIT_LEAF@), "cgroup.procs"@),
    {
        join(self.leaf_dir().as_str(), "cgroup.procs")
    }
}

/// Whether `a` touches the processes of the directory.
pub open spec fn moves_processes(a: SetupAction) -> bool {
    a is MakeLeaf || a is ReadProcs || a is Move || a is Nap
}

/// Whether the directory was prepared by the deployment, so far as the action
/// tells.
pub open spec fn on_prepared(a: SetupAction) -> bool {
    match a {
        SetupAction::ReadControl { prepared } => prepared,
        SetupAction::Enable { prepared, .. } => prepared,
        SetupAction::Ready => true,
        _ => false,
    }
}

/// In a prepared directory no process is ever moved, the directory stays the
/// one that was named, and the setup cannot fail.
pub proof fn law_prepared_directory_is_left_alone(v: SetupView, ok: bool, content: Seq<char>)
    requires
        on_prepared(v.pending),
    ensures
        on_prepared(setup_after(v, ok, content).pending),
        !moves_processes(setup_after(v, ok, content).pending),
        setup_after(v, ok, content).dir == v.dir,
{
}

/// The first step on a named directory is one that leaves it alone.
pub proof fn law_named_directory_is_used(explicit: Option<Seq<char>>, env: Option<Seq<char>>)
    requires
        explicit is Some || env is Some,
    ensures
        on_prepared(setup_start(explicit, env).pending),
        setup_start(explicit, env).dir == (if explicit is Some {
            explicit->0
        } else {
            env->0
        }),
{
}

/// Once a directory is found, the setup ends with it: trouble with the
/// controllers is not an error.
pub proof fn law_found_directory_is_enough(v: SetupView, ok: bool, content: Seq<char>)
    requires
        !(v.pending is ReadOwn),
        !(v.pending is Unreadable),
        !(v.pending is NoEntry),
    ensures
        ({
            let w = setup_after(v, ok, content);
            &&& w.dir == v.dir
            &&& !(w.pending is ReadOwn)
            &&& !(w.pending is Unreadable)
            &&& !(w.pending is NoEntry)
        }),
{
}

/// How far the setup is from its end: which stage it is in, and how much of
/// that stage is left.
pub open spec fn setup_distance(v: SetupView) -> (nat, nat, nat) {
    match v.pending {
        SetupAction::ReadOwn => (24, 0, 0),
        SetupAction::ReadControl { .. } => (23, 0, 0),
        SetupAction::MakeLeaf => (22, 0, 0),
        SetupAction::ReadProcs { attempt } => (rounds_left(attempt), 4, 0),
        SetupAction::Move { attempt, next } => (
            rounds_left(attempt),
            3,
            if next < v.procs.len() {
                (v.procs.len() - next) as nat
            } else {
                0
            },
        ),
        SetupAction::Enable { prepared, attempt, set } => (
            if prepared {
                21
            } else {
                rounds_left(attempt)
            },
            2,
            if set < 3 {
                (3 - set) as nat
            } else {
                0
            },
        ),
        SetupAction::Nap { attempt } => (rounds_left(attempt), 1, 0),
        _ => (0, 0, 0),
    }
}

/// How many rounds of moving and enabling are left, this one included.
pub open spec fn rounds_left(attempt: u32) -> nat {
    if attempt < ENABLE_RETRIES {
        (ENABLE_RETRIES - attempt) as nat
    } else {
        1
    }
}

/// The setup comes to an end, whatever the kernel answers: every step brings
/// it closer, in the order of the distance's parts.
pub proof fn law_setup_ends(v: SetupView, ok: bool, content: Seq<char>)
    requires
        v.procs.len() <= usize::MAX,
        !(v.pending is Ready),
        !(v.pending is Unreadable),
        !(v.pending is NoEntry),
    ensures
        ({
            let a = setup_distance(v);
            let b = setup_distance(setup_after(v, ok, content));
            ||| b.0 < a.0
            ||| b.0 == a.0 && b.1 < a.1
            ||| b.0 == a.0 && b.1 == a.1 && b.2 < a.2
        }),
{
}

/// CPU time in microseconds: user+system total, and its split.
#[derive(Debug, Clone, Copy, PartialEq, Eq, Structural)]
pub struct CpuTimes {
    pub total: u64,
    pub user: u64,
    pub system: u64,
}

/// A text to write to a file.
#[derive(Debug, Clone)]
pub struct FileWrite {
    pub path: String,
    pub text: String,
}

impl View for FileWrite {
    /// The path and the text.
    type V = (Seq<char>, Seq<char>);

    open spec fn view(&self) -> (Seq<char>, Seq<char>) {
        (self.path@, self.text@)
    }
}

/// A number, a dash, and `rest`.
pub open spec fn dashed(n: nat, rest: Seq<char>) -> Seq<char> {
    text::digits(n) + seq!['-'] + rest
}

/// The name of a run cgroup: `tr-PID-NANOS-SEQ`.
pub open spec fn run_name(pid: u32, nanos: u32, seq: u64) -> Seq<char> {
    "tr-"@ + dashed(pid as nat, dashed(nanos as nat, text::digits(seq as nat)))
}

/// A number and what follows it can be told apart: digits do not contain a
/// dash.
proof fn lemma_number_then_dash(a: nat, b: nat, x: Seq<char>, y: Seq<char>)
    requires
        dashed(a, x) == dashed(b, y),
    ensures
        a == b,
        x == y,
{
    text::law_decimal_reads_back(a);
    text::law_decimal_reads_back(b);
    let da = text::digits(a);
    let db = text::digits(b);
    let s = dashed(a, x);
    let t = dashed(b, y);
    if da.len() < db.len() {
        assert(t[da.len() as int] == db[da.len() as int]);
        assert(s[da.len() as int] == '-');
        assert(text::is_digit(db[da.len() as int]));
    }
    if db.len() < da.len() {
        assert(s[db.len() as int] == da[db.len() as int]);
        assert(t[db.len() as int] == '-');
        assert(text::is_digit(da[db.len() as int]));
    }
    assert(da =~= s.take(da.len() as int));
    assert(db =~= t.take(db.len() as int));
    assert(x =~= s.skip(da.len() as int + 1));
    assert(y =~= t.skip(db.len() as int + 1));
}

/// Two runs share a name only where process, time and number are all the same;
/// so runs of one process, which counts them, never do.
pub proof fn law_names_are_unique(
    pid: u32,
    nanos: u32,
    seq: u64,
    other_pid: u32,
    other_nanos: u32,
    other_seq: u64,
)
    requires
        run_name(pid, nanos, seq) == run_name(other_pid, other_nanos, other_seq),
    ensures
        pid == other_pid,
        nanos == other_nanos,
        seq == other_seq,
{
    let a = run_name(pid, nanos, seq);
    let b = run_name(other_pid, other_nanos, other_seq);
    let k = "tr-"@.len() as int;
    let ra = dashed(nanos as nat, text::digits(seq as nat));
    let rb = dashed(other_nanos as nat, text::digits(other_seq as nat));
    assert(a.skip(k) =~= dashed(pid as nat, ra));
    assert(b.skip(k) =~= dashed(other_pid as nat, rb));
    lemma_number_then_dash(pid as nat, other_pid as nat, ra, rb);
    lemma_number_then_dash(
        nanos as nat,
        other_nanos as nat,
        text::digits(seq as nat),
        text::digits(other_seq as nat),
    );
    text::law_decimal_reads_back(seq as nat);
    text::law_decimal_reads_back(other_seq as nat);
}

/// The numbers that a process gives its runs, each once.
#[derive(Debug, PartialEq, Eq, Structural)]
pub struct RunNumbers {
    pub next: u64,
}

/// The numbers after one more was given. They start over after the last.
pub open spec fn numbers_after(n: RunNumbers) -> RunNumbers {
    RunNumbers {
        next: if n.next == u64::MAX {
            0
        } else {
            (n.next + 1) as u64
        },
    }
}

/// The `i`th number that is given, counted from 0, of those that start with
/// `n`.
pub open spec fn number_at(n: RunNumbers, i: nat) -> u64
    decreases i,
{
    if i == 0 {
        n.next
    } else {
        number_at(numbers_after(n), (i - 1) as nat)
    }
}

proof fn lemma_number_at(n: RunNumbers, i: nat)
    ensures
        number_at(n, i) == (n.next + i) % 0x1_0000_0000_0000_0000,
    decreases i,
{
    if i > 0 {
        lemma_number_at(numbers_after(n), (i - 1) as nat);
    }
}

/// No two runs of one process, up to 2^64 of them, have the same directory,
/// whatever the clock says.
pub proof fn law_runs_have_their_own_directories(
    n: RunNumbers,
    i: nat,
    j: nat,
    base: Seq<char>,
    pid: u32,
    nanos: u32,
    other_nanos: u32,
)
    requires
        i < j,
        j - i < 0x1_0000_0000_0000_0000,
    ensures
        text::joined(base, run_name(pid, nanos, number_at(n, i))) != text::joined(
            base,
            run_name(pid, other_nanos, number_at(n, j)),
        ),
{
    lemma_number_at(n, i);
    lemma_number_at(n, j);
    let a = run_name(pid, nanos, number_at(n, i));
    let b = run_name(pid, other_nanos, number_at(n, j));
    reveal_strlit("tr-");
    assert(a[0] == 't' && b[0] == 't');
    let k = text::joined(base, a).len() - a.len();
    if text::joined(base, a) == text::joined(base, b) {
        assert(text::joined(base, a).skip(k) =~= a);
        assert(text::joined(base, b).skip(k) =~= b);
        law_names_are_unique(
            pid,
            nanos,
            number_at(n, i),
            pid,
            other_nanos,
            number_at(n, j),
        );
    }
}

/// A cgroup for one run, to be removed when the run is over.
pub struct RunCgroup {
    /// Its directory.
    pub path: String,
    /// The interface files that the kernel put there.
    pub files: Vec<String>,
}

/// Whether `cg` has the interface file `name`.
pub open spec fn has_file(cg: RunCgroup, name: Seq<char>) -> bool {
    text::texts(cg.files@).contains(name)
}

/// The path of the interface file `name` of `cg`.
pub open spec fn file_path(cg: RunCgroup, name: Seq<char>) -> Seq<char> {
    text::joined(cg.path@, name)
}

/// The microseconds of cpu.stat.
pub open spec fn cpu_times(stat: Seq<char>) -> Option<CpuTimes> {
    match (
        stat_value(stat, "usage_usec"@),
        stat_value(stat, "user_usec"@),
        stat_value(stat, "system_usec"@),
    ) {
        (Some(total), Some(user), Some(system)) => Some(
            CpuTimes { total: total as u64, user: user as u64, system: system as u64 },
        ),
        _ => None,
    }
}

/// `n` bytes in KiB, rounded towards zero.
pub open spec fn bytes_to_kib(n: int) -> int {
    if n >= 0 {
        n / 1024
    } else {
        -((-n) / 1024)
    }
}

impl RunCgroup {
    /// The cgroup for a run of the process `pid`, below `base`. pid and number
    /// stay unique when several threads of one process start runs at once. The
    /// nanoseconds avoid a stale directory left by a crashed run whose pid was
    /// reused.
    pub fn create(base: &str, pid: u32, nanos: u32, numbers: &mut RunNumbers) -> (r: RunCgroup)
        ensures
            r.path@ == text::joined(base@, run_name(pid, nanos, number_at(*old(numbers), 0))),
            r.files@.len() == 0,
            *final(numbers) == numbers_after(*old(numbers)),
    {
        let seq: u64 = numbers.next;
        numbers.next = if seq == u64::MAX {
            0
        } else {
            seq + 1
        };
        let mut name = "tr-".to_owned();
        name.append(decimal(pid as u128).as_str());
        proof {
            reveal_strlit("-");
            assert("-"@ =~= seq!['-']);
        }
        name.append("-");
        name.append(decimal(nanos as u128).as_str());
        name.append("-");
        name.append(decimal(seq as u128).as_str());
        assert(name@ =~= run_name(pid, nanos, seq));
        RunCgroup { path: join(base, name.as_str()), files: Vec::new() }
    }

    /// The path of an interface file.
    pub fn file(&self, name: &str) -> (r: String)
        ensures
            r@ == file_path(*self, name@),
    {
        join(self.path.as_str(), name)
    }

    fn has(&self, name: &str) -> (r: bool)
        ensures
            r == has_file(*self, name@),
    {
        let mut i: usize = 0;
        while i < self.files.len()
            invariant
                i <= self.files@.len(),
                forall|j: int| 0 <= j < i ==> text::texts(self.files@)[j] != name@,
            decreases self.files@.len() - i,
        {
            assert(text::texts(self.files@)[i as int] == self.files@[i as int]@);
            if same(self.files[i].as_str(), name) {
                return true;
            }
            i = i + 1;
        }
        false
    }

    fn write(&self, name: &str, text: String) -> (r: FileWrite)
        ensures
            r@ == (file_path(*self, name@), text@),
    {
        FileWrite { path: self.file(name), text }
    }

    /// Cap real RSS at `kb` KiB: what to write, in order. swap.max goes to 0
    /// first; otherwise the kernel swaps and throttles an over-limit run
    /// instead of OOM-killing it, and the run just gets slow.
    pub fn set_memory_max(&self, kb: u64) -> (r: [FileWrite; 2])
        ensures
            r@[0]@ == (file_path(*self, "memory.swap.max"@), "0"@),
            r@[1]@ == (
                file_path(*self, "memory.max"@),
                text::digits(limits::capped_product(kb as nat, 1024) as nat),
            ),
    {
        let swap = self.write("memory.swap.max", "0".to_owned());
        let max = self.write("memory.max", decimal(capped_mul(kb, 1024) as u128));
        [swap, max]
    }

    /// Cap the number of processes at `n`: what to write.
    pub fn set_pids_max(&self, n: u64) -> (r: FileWrite)
        ensures
            r@ == (file_path(*self, "pids.max"@), text::digits(n as nat)),
    {
        self.write("pids.max", decimal(n as u128))
    }

    /// Pin the tree to one CPU: what to write. Unlike sched_setaffinity, this
    /// can't be widened back from inside. The outcome matters, because the
    /// backstop may only assume one core if the pin worked.
    pub fn set_cpus(&self, cpu: u32) -> (r: FileWrite)
        ensures
            r@ == (file_path(*self, "cpuset.cpus"@), text::digits(cpu as nat)),
    {
        self.write("cpuset.cpus", decimal(cpu as u128))
    }

    /// Whether memory.max exists, so the cap works. memory.peak only arrived
    /// in 5.19, so a 5.9-5.18 kernel (RHEL 9 ships 5.14) can enforce the cap
    /// but can't report the peak. Such kernels must still skip RLIMIT_AS, which
    /// counts virtual address space and kills the JVM and CPython for no good
    /// reason.
    pub fn has_memory_cap(&self) -> (r: bool)
        ensures
            r == has_file(*self, "memory.max"@),
    {
        self.has("memory.max")
    }

    /// Whether memory.peak exists (kernel 5.19+).
    pub fn has_memory_peak(&self) -> (r: bool)
        ensures
            r == has_file(*self, "memory.peak"@),
    {
        self.has("memory.peak")
    }

    /// Move the process `pid` into the cgroup: what to write.
    pub fn add_pid(&self, pid: i32) -> (r: FileWrite)
        ensures
            r@ == (file_path(*self, "cgroup.procs"@), text::int_text(pid as int)),
    {
        self.write("cgroup.procs", signed_decimal(pid as i64))
    }

    /// CPU time of the tree in milliseconds, from the text of cpu.stat, where
    /// that could be read.
    pub fn cpu_ms(&self, stat: Option<&str>) -> (r: Option<u64>)
        ensures
            r == (match stat {
                Some(s) => match stat_value(s@, "usage_usec"@) {
                    Some(us) => Some((us / 1000) as u64),
                    None => None,
                },
                None => None,
            }),
    {
        match stat {
            Some(s) => match stat_field(s, "usage_usec") {
                Some(us) => Some(us / 1000),
                None => None,
            },
            None => None,
        }
    }

    /// CPU time for the tree in microseconds, from the text of cpu.stat. The
    /// total is the scheduler's exact runtime; the user/system split is
    /// tick-sampled and scaled by the kernel to add up to it.
    pub fn cpu_usec(&self, stat: Option<&str>) -> (r: Option<CpuTimes>)
        ensures
            r == (match stat {
                Some(s) => cpu_times(s@),
                None => None,
            }),
    {
        match stat {
            Some(s) => match (
                stat_field(s, "usage_usec"),
                stat_field(s, "user_usec"),
                stat_field(s, "system_usec"),
            ) {
                (Some(total), Some(user), Some(system)) => Some(CpuTimes { total, user, system }),
                _ => None,
            },
            None => None,
        }
    }

    /// Peak memory of the tree in KiB, from the text of memory.peak, where that
    /// could be read.
    pub fn peak_kb(&self, peak: Option<&str>) -> (r: Option<i64>)
        ensures
            r == (match peak {
                Some(s) => match text::signed_value(text::trim(s@)) {
                    Some(n) if i64::MIN <= n <= i64::MAX => Some(bytes_to_kib(n) as i64),
                    _ => None,
                },
                None => None,
            }),
    {
        match peak {
            Some(s) => {
                let c = chars_of(s);
                match parse_signed(trimmed(c.as_slice())) {
                    Some(n) => if n >= 0 {
                        Some(n / 1024)
                    } else {
                        Some((-((-(n as i128)) / 1024)) as i64)
                    },
                    None => None,
                }
            },
            None => None,
        }
    }

    /// SIGKILL the whole tree in one step, which a fork bomb can't outrun: what
    /// to write.
    pub fn kill_all(&self) -> (r: FileWrite)
        ensures
            r@ == (file_path(*self, "cgroup.kill"@), "1"@),
    {
        self.write("cgroup.kill", "1".to_owned())
    }
}

/// What removing a run cgroup asks for next.
#[derive(Debug, Clone, Copy, PartialEq, Eq, Structural)]
pub enum Removal {
    /// Kill whatever is left.
    Kill,
    /// Remove the directory; this is the try after `tries` others.
    Remove { tries: u32 },
    /// Pause until the kernel has reaped more of the dying tasks.
    Nap { tries: u32 },
    /// Leave it.
    Done,
}

/// What follows `step` when it worked (`ok`), or did not.
pub open spec fn removal_after(step: Removal, ok: bool) -> Removal {
    match step {
        Removal::Kill => Removal::Remove { tries: 0 },
        Removal::Remove { tries } => if ok {
            Removal::Done
        } else {
            Removal::Nap { tries }
        },
        Removal::Nap { tries } => if tries + 1 < REMOVE_RETRIES {
            Removal::Remove { tries: (tries + 1) as u32 }
        } else {
            Removal::Done
        },
        Removal::Done => Removal::Done,
    }
}

/// Goes on removing a run cgroup, which starts with `Removal::Kill`. Read the
/// metrics before.
pub fn next_removal(step: Removal, ok: bool) -> (r: Removal)
    ensures
        r == removal_after(step, ok),
{
    match step {
        Removal::Kill => Removal::Remove { tries: 0 },
        Removal::Remove { tries } => if ok {
            Removal::Done
        } else {
            Removal::Nap { tries }
        },
        Removal::Nap { tries } => if tries < REMOVE_RETRIES - 1 {
            Removal::Remove { tries: tries + 1 }
        } else {
            Removal::Done
        },
        Removal::Done => Removal::Done,
    }
}

/// How many more steps the removal can take.
pub open spec fn removal_steps(step: Removal) -> nat {
    match step {
        Removal::Kill => 201,
        Removal::Remove { tries } => if tries < REMOVE_RETRIES {
            (2 * (REMOVE_RETRIES - tries)) as nat
        } else {
            2
        },
        Removal::Nap { tries } => if tries < REMOVE_RETRIES {
            (2 * (REMOVE_RETRIES - tries) - 1) as nat
        } else {
            1
        },
        Removal::Done => 0,
    }
}

/// Removal gives up after a hundred tries.
pub proof fn law_removal_ends(step: Removal, ok: bool)
    requires
        step != Removal::Done,
    ensures
        removal_steps(removal_after(step, ok)) < removal_steps(step),
{
}

/// A text of whole lines, the `tail` without an end behind them.
pub open spec fn file_text(ls: Seq<Seq<char>>, tail: Seq<char>) -> Seq<char> {
    text::ended(ls, false) + tail
}

/// Whether no line of `ls` starts with `prefix`.
pub open spec fn none_starts(ls: Seq<Seq<char>>, prefix: Seq<char>) -> bool {
    forall|i: int| 0 <= i < ls.len() ==> !text::starts_with(#[trigger] ls[i], prefix)
}

/// Whether every one of `ls` can be a line.
pub open spec fn all_lines(ls: Seq<Seq<char>>) -> bool {
    forall|i: int| 0 <= i < ls.len() ==> text::can_be_line(#[trigger] ls[i])
}

proof fn lemma_first_after(
    before: Seq<Seq<char>>,
    prefix: Seq<char>,
    rest: Seq<char>,
    after: Seq<Seq<char>>,
)
    requires
        none_starts(before, prefix),
    ensures
        first_after(before + seq![prefix + rest] + after, prefix) == Some(rest),
    decreases before.len(),
{
    let all = before + seq![prefix + rest] + after;
    if before.len() == 0 {
        assert(all[0] == prefix + rest);
        assert((prefix + rest).take(prefix.len() as int) =~= prefix);
        assert((prefix + rest).skip(prefix.len() as int) =~= rest);
    } else {
        assert(all[0] == before[0]);
        assert(all.drop_first() =~= before.drop_first() + seq![prefix + rest] + after);
        assert forall|i: int| 0 <= i < before.drop_first().len() implies !text::starts_with(
            #[trigger] before.drop_first()[i],
            prefix,
        ) by {
            assert(before.drop_first()[i] == before[i + 1]);
        }
        lemma_first_after(before.drop_first(), prefix, rest, after);
    }
}

proof fn lemma_none_after(ls: Seq<Seq<char>>, prefix: Seq<char>)
    requires
        none_starts(ls, prefix),
    ensures
        first_after(ls, prefix) is None,
    decreases ls.len(),
{
    if ls.len() > 0 {
        assert forall|i: int| 0 <= i < ls.drop_first().len() implies !text::starts_with(
            #[trigger] ls.drop_first()[i],
            prefix,
        ) by {
            assert(ls.drop_first()[i] == ls[i + 1]);
        }
        lemma_none_after(ls.drop_first(), prefix);
    }
}

/// The lines of a file that holds `line` among others.
proof fn lemma_line_in_file(
    before: Seq<Seq<char>>,
    line: Seq<char>,
    after: Seq<Seq<char>>,
    tail: Seq<char>,
) -> (more: Seq<Seq<char>>)
    requires
        all_lines(before),
        text::can_be_line(line),
        all_lines(after),
        !tail.contains('\n'),
    ensures
        text::lines(file_text(before + seq![line] + after, tail)) == before + seq![line] + more,
{
    let ls = before + seq![line] + after;
    assert forall|i: int| 0 <= i < ls.len() implies text::can_be_line(#[trigger] ls[i]) by {
        if i < before.len() {
            assert(ls[i] == before[i]);
        } else if i > before.len() {
            assert(ls[i] == after[i - before.len() - 1]);
        }
    }
    text::law_lines_read_back(ls, false, tail);
    let more = if tail.len() == 0 {
        after
    } else {
        after.push(tail)
    };
    assert(text::lines(file_text(ls, tail)) =~= before + seq![line] + more);
    more
}

/// The value of a key is the number behind it, in the first line that has this key
/// and a space in front, wherever that line stands in the file and whatever white
/// space is around the number; without such a line there is none.
pub proof fn law_values_are_found(
    before: Seq<Seq<char>>,
    name: Seq<char>,
    pad: (Seq<char>, Seq<char>),
    n: nat,
    after: Seq<Seq<char>>,
    tail: Seq<char>,
)
    requires
        all_lines(before),
        all_lines(after),
        !tail.contains('\n'),
        text::can_be_line(name + seq![' '] + (pad.0 + text::digits(n) + pad.1)),
        text::blank(pad.0),
        text::blank(pad.1),
        none_starts(before, name + seq![' ']),
    ensures
        stat_value(
            file_text(
                before + seq![name + seq![' '] + (pad.0 + text::digits(n) + pad.1)] + after,
                tail,
            ),
            name,
        ) == (if n <= 0xffff_ffff_ffff_ffff {
            Some(n)
        } else {
            None
        }),
        tail.len() == 0 ==> stat_value(file_text(before, tail), name) is None,
{
    let d = text::digits(n);
    let k = name + seq![' '];
    let v = pad.0 + d + pad.1;
    text::law_decimal_reads_back(n);
    assert forall|i: int| 0 <= i < d.len() implies !text::white_space(#[trigger] d[i]) by {
        assert(text::is_digit(d[i]));
    }
    let more = lemma_line_in_file(before, k + v, after, tail);
    lemma_first_after(before, k, v, more);
    text::law_trim_takes_white_space(pad.0, d, pad.1);
    if tail.len() == 0 {
        text::law_lines_read_back(before, false, tail);
        lemma_none_after(before, k);
    }
}

/// CPU times are the three values of cpu.stat under their own names, all or none.
pub proof fn law_cpu_times_by_name(stat: Seq<char>)
    ensures
        cpu_times(stat) is Some <==> stat_value(stat, "usage_usec"@) is Some && stat_value(
            stat,
            "user_usec"@,
        ) is Some && stat_value(stat, "system_usec"@) is Some,
        cpu_times(stat) matches Some(t) ==> {
            &&& stat_value(stat, "usage_usec"@) == Some(t.total as nat)
            &&& stat_value(stat, "user_usec"@) == Some(t.user as nat)
            &&& stat_value(stat, "system_usec"@) == Some(t.system as nat)
        },
{
}

/// Bytes become whole KiB: as many as fit.
pub proof fn law_kib_of_bytes(n: int)
    ensures
        n >= 0 ==> bytes_to_kib(n) * 1024 <= n < (bytes_to_kib(n) + 1) * 1024,
        bytes_to_kib(-n) == -bytes_to_kib(n),
{
}

proof fn lemma_leaf_after_slash(x: Seq<char>, c: Seq<char>)
    requires
        !c.contains('/'),
    ensures
        leaf_start(x + seq!['/'] + c) == x.len() + 1,
    decreases c.len(),
{
    let s = x + seq!['/'] + c;
    if c.len() == 0 {
        assert(s.last() == '/');
    } else {
        assert(s.last() == c.last());
        assert(c.contains(c.last()));
        assert(s.drop_last() =~= x + seq!['/'] + c.drop_last());
        assert(!c.drop_last().contains('/')) by {
            if c.drop_last().contains('/') {
                let i = choose|i: int| 0 <= i < c.drop_last().len() && c.drop_last()[i] == '/';
                assert(c[i] == '/');
            }
        }
        lemma_leaf_after_slash(x, c.drop_last());
    }
}

/// Whether `q` is a path that run cgroups can be created in, as /proc/self/cgroup
/// has it: empty for the root, else with a slash in front and none, nor a dot, as
/// its end.
pub open spec fn is_branch(q: Seq<char>) -> bool {
    &&& !q.contains('\n')
    &&& q.len() > 0 ==> {
        &&& q.len() > 1
        &&& q[0] == '/'
        &&& q[1] != '/'
        &&& q.last() != '/'
        &&& !(q.last() == '.' && q[q.len() - 2] == '/')
    }
}

/// Whether `c` is the name of a directory.
pub open spec fn is_name(c: Seq<char>) -> bool {
    &&& c.len() > 0
    &&& !c.contains('/')
    &&& !c.contains('\n')
    &&& c.last() != '\r'
    &&& c != seq!['.']
}

proof fn lemma_branch_dir(q: Seq<char>, c: Seq<char>)
    requires
        is_branch(q),
        is_name(c),
    ensures
        base_of("/sys/fs/cgroup"@ + q + seq!['/'] + c) == (if c == "tallyrun-init"@ {
            "/sys/fs/cgroup"@ + q
        } else {
            "/sys/fs/cgroup"@ + q + seq!['/'] + c
        }),
{
    reveal_strlit("/sys/fs/cgroup");
    let r = "/sys/fs/cgroup"@;
    assert(r.len() == 14 && r[13] == 'p');
    let x = r + q;
    let own = x + seq!['/'] + c;
    let n = own.len() as int;
    assert(own.last() == c.last());
    assert(c.contains(c.last()));
    if own[n - 1] == '.' && own[n - 2] == '/' {
        if c.len() == 1 {
            assert(c =~= seq!['.']);
        } else {
            assert(own[n - 2] == c[c.len() - 2]);
            assert(c.contains(c[c.len() - 2]));
        }
    }
    assert(bare(own) == own);
    lemma_leaf_after_slash(x, c);
    assert(own.skip(x.len() as int + 1) =~= c);
    let up = own.take(x.len() as int + 1);
    assert(up =~= x.push('/'));
    assert(up.drop_last() =~= x);
    let m = x.len() as int;
    if q.len() > 0 {
        assert(x[m - 1] == q.last());
        assert(x[m - 2] == q[q.len() - 2]);
    } else {
        assert(x =~= r);
    }
    assert(bare(x) == x);
    assert(bare(up) == x);
}

/// A process in `q/tallyrun-init` gets its run cgroups in `q`, next to the leaf, as
/// a process in `q` itself does; and a process anywhere else in the directory that
/// it is in: whatever else /proc/self/cgroup holds, the v2 line decides.
pub proof fn law_run_cgroups_go_next_to_the_leaf(
    before: Seq<Seq<char>>,
    q: Seq<char>,
    c: Seq<char>,
    after: Seq<Seq<char>>,
    tail: Seq<char>,
)
    requires
        all_lines(before),
        all_lines(after),
        !tail.contains('\n'),
        none_starts(before, "0::"@),
        is_branch(q),
        is_name(c),
    ensures
        ({
            let line = "0::"@ + q + seq!['/'] + c;
            let v = setup_after(
                setup_start(None, None),
                true,
                file_text(before + seq![line] + after, tail),
            );
            &&& v.pending == (SetupAction::ReadControl { prepared: false })
            &&& v.dir == (if c == "tallyrun-init"@ {
                "/sys/fs/cgroup"@ + q
            } else {
                "/sys/fs/cgroup"@ + q + seq!['/'] + c
            })
        }),
{
    reveal_strlit("0::");
    reveal_strlit("/sys/fs/cgroup");
    let rel = q + seq!['/'] + c;
    let line = "0::"@ + q + seq!['/'] + c;
    assert(line =~= "0::"@ + rel);
    assert forall|i: int| 0 <= i < line.len() implies line[i] != '\n' by {
        if i < 3 {
            assert(line[i] == "0::"@[i]);
        } else if i < 3 + q.len() {
            assert(line[i] == q[i - 3]);
            assert(q.contains(q[i - 3]));
        } else if i > 3 + q.len() {
            assert(line[i] == c[i - 4 - q.len()]);
            assert(c.contains(c[i - 4 - q.len()]));
        }
    }
    assert(line.last() == c.last());
    let more = lemma_line_in_file(before, line, after, tail);
    lemma_first_after(before, "0::"@, rel, more);
    let below = rel.drop_first();
    assert(rel[0] == '/');
    if q.len() > 0 {
        assert(below[0] == q[1]);
    } else {
        assert(below[0] == c[0]);
        assert(c.contains(c[0]));
    }
    assert(without_leading_slashes(below) == below);
    assert(without_leading_slashes(rel) == below);
    let r = "/sys/fs/cgroup"@;
    assert(r.len() == 14 && r[13] == 'p');
    assert(text::joined(r, below) =~= r + q + seq!['/'] + c);
    lemma_branch_dir(q, c);
}

/// Without a v2 line, or where it cannot be read, there is no directory.
pub proof fn law_no_line_no_directory(ls: Seq<Seq<char>>, content: Seq<char>)
    requires
        all_lines(ls),
        none_starts(ls, "0::"@),
    ensures
        setup_after(setup_start(None, None), true, file_text(ls, Seq::empty())).pending
            == SetupAction::NoEntry,
        setup_after(setup_start(None, None), false, content).pending == SetupAction::Unreadable,
{
    let e = Seq::<char>::empty();
    text::law_lines_read_back(ls, false, e);
    lemma_none_after(ls, "0::"@);
}

/// Where a step of the setup comes from: controllers are enabled in the process's
/// own cgroup only once every process that was found there was moved, each in its
/// turn; each set of controllers is tried only after the larger one failed; the
/// leaf is made only where the memory controller is not enabled yet; a new round
/// starts only when all sets failed; and the setup is over only where the memory
/// controller is enabled, or enabling worked, or there is no more to be tried.
pub proof fn law_setup_keeps_its_order(v: SetupView, ok: bool, content: Seq<char>)
    requires
        v.procs.len() <= usize::MAX,
        setup_after(v, ok, content).pending != v.pending,
    ensures
        ({
            let n = setup_after(v, ok, content);
            let listed = ok && text::words(content).contains("memory"@);
            &&& n.pending matches SetupAction::Move { attempt, next } ==> if next == 0 {
                &&& v.pending == (SetupAction::ReadProcs { attempt })
                &&& ok && n.procs == text::words(content) && n.procs.len() > 0
            } else {
                &&& v.pending == (SetupAction::Move { attempt, next: (next - 1) as usize })
                &&& n.procs == v.procs && next < n.procs.len()
            }
            &&& n.pending matches SetupAction::Enable { prepared, attempt, set } ==> if set > 0 {
                &&& v.pending == (SetupAction::Enable {
                    prepared,
                    attempt,
                    set: (set - 1) as usize,
                })
                &&& !ok && set < 3
            } else if prepared {
                v.pending == (SetupAction::ReadControl { prepared: true }) && !listed
            } else {
                ||| v.pending == (SetupAction::ReadProcs { attempt }) && (!ok || text::words(
                    content,
                ).len() == 0)
                ||| (v.pending matches SetupAction::Move { attempt: a, next } && a == attempt && next
                    + 1 >= v.procs.len())
            }
            &&& n.pending is MakeLeaf ==> v.pending == (SetupAction::ReadControl { prepared: false })
                && !listed
            &&& n.pending matches SetupAction::ReadProcs { attempt } ==> if attempt == 0 {
                v.pending is MakeLeaf && ok
            } else {
                v.pending == (SetupAction::Nap { attempt: (attempt - 1) as u32 }) && attempt < 20
            }
            &&& n.pending matches SetupAction::Nap { attempt } ==> !ok && (
            v.pending matches SetupAction::Enable { prepared, attempt: a, set } && !prepared && a
                == attempt && set >= 2)
            &&& n.pending is Ready ==> match v.pending {
                SetupAction::ReadControl { .. } => listed,
                SetupAction::Enable { prepared, set, .. } => ok || (prepared && set >= 2),
                SetupAction::MakeLeaf => !ok,
                SetupAction::Nap { attempt } => attempt + 1 >= 20,
                _ => false,
            }
            &&& !(v.pending is ReadOwn) ==> n.dir == v.dir
        }),
{
}

/// The controllers that are tried, the largest set first, always hold memory; and
/// the pin's controller is in the first.
pub proof fn law_controller_sets()
    ensures
        CONTROLLER_SETS@.len() == 3,
        CONTROLLER_SETS@[0]@ == "+memory +pids +cpuset"@,
        CONTROLLER_SETS@[1]@ == "+memory +pids"@,
        CONTROLLER_SETS@[2]@ == "+memory"@,
{
}

/// Removing starts by killing what is left, goes on until the directory is gone or a
/// hundred tries failed, and pauses after each.
pub proof fn law_removal_keeps_trying(ok: bool, tries: u32)
    requires
        tries < 100,
    ensures
        removal_after(Removal::Kill, ok) == (Removal::Remove { tries: 0 }),
        removal_after(Removal::Remove { tries }, true) == Removal::Done,
        removal_after(Removal::Remove { tries }, false) == (Removal::Nap { tries }),
        removal_after(Removal::Nap { tries }, ok) == (if tries == 99 {
            Removal::Done
        } else {
            Removal::Remove { tries: (tries + 1) as u32 }
        }),
{
}

/// The name of a run cgroup holds the process, the nanoseconds and the number, in
/// decimal, behind a prefix and with dashes between; it stands directly below its
/// directory.
pub proof fn law_names_spell_the_run(base: Seq<char>, pid: u32, nanos: u32, seq: u64)
    requires
        base.len() > 0,
        base.last() != '/',
    ensures
        text::joined(base, run_name(pid, nanos, seq)) == base + "/tr-"@ + text::digits(pid as nat)
            + "-"@ + text::digits(nanos as nat) + "-"@ + text::digits(seq as nat),
{
    reveal_strlit("/tr-");
    reveal_strlit("tr-");
    reveal_strlit("-");
    assert("-"@ =~= seq!['-']);
    assert("/tr-"@ =~= seq!['/'] + "tr-"@);
    let n = run_name(pid, nanos, seq);
    assert(n[0] == 't');
    let p = text::digits(pid as nat);
    let t = text::digits(nanos as nat);
    let s = text::digits(seq as nat);
    assert(n =~= "tr-"@ + p + seq!['-'] + t + seq!['-'] + s);
    assert(base + seq!['/'] + n =~= base + "/tr-"@ + p + "-"@ + t + "-"@ + s);
}

/// An interface file stands directly in the directory of its cgroup, and is there where
/// the kernel put one of just that name.
pub proof fn law_interface_files(cg: RunCgroup, name: Seq<char>)
    requires
        cg.path@.len() > 0,
        cg.path@.last() != '/',
        name.len() > 0,
        name[0] != '/',
    ensures
        file_path(cg, name) == cg.path@ + "/"@ + name,
        has_file(cg, name) <==> exists|i: int|
            0 <= i < cg.files@.len() && (#[trigger] cg.files@[i])@ == name,
{
    reveal_strlit("/");
    assert("/"@ =~= seq!['/']);
    let all = text::texts(cg.files@);
    if has_file(cg, name) {
        let i = choose|i: int| 0 <= i < all.len() && all[i] == name;
        assert(cg.files@[i]@ == name);
    }
    if exists|i: int| 0 <= i < cg.files@.len() && (#[trigger] cg.files@[i])@ == name {
        let i = choose|i: int| 0 <= i < cg.files@.len() && (#[trigger] cg.files@[i])@ == name;
        assert(all[i] == name);
    }
}

/// A controller is enabled where it is one of the words of the file, however many
/// spaces set them apart.
pub proof fn law_controllers_are_words(
    front: Seq<char>,
    names: Seq<Seq<char>>,
    gaps: Seq<Seq<char>>,
    name: Seq<char>,
)
    requires
        text::blank(front),
        gaps.len() == names.len(),
        forall|i: int|
            0 <= i < names.len() ==> (#[trigger] names[i]).len() > 0 && forall|j: int|
                0 <= j < names[i].len() ==> !text::white_space(#[trigger] names[i][j]),
        forall|i: int|
            0 <= i < gaps.len() ==> text::blank(#[trigger] gaps[i]) && (i < gaps.len() - 1
                ==> gaps[i].len() > 0),
    ensures
        lists(front + text::spaced(names, gaps), name) <==> exists|i: int|
            0 <= i < names.len() && #[trigger] names[i] == name,
{
    text::law_words_read_back(front, names, gaps);
}

/// The cgroup of the process is the one that the v2 line names, below
/// /sys/fs/cgroup, however many slashes it starts with.
pub proof fn law_own_cgroup_is_below_the_root(
    before: Seq<Seq<char>>,
    slashes: nat,
    rest: Seq<char>,
    after: Seq<Seq<char>>,
    tail: Seq<char>,
)
    requires
        all_lines(before),
        all_lines(after),
        !tail.contains('\n'),
        none_starts(before, "0::"@),
        rest.len() > 0 ==> rest[0] != '/',
        text::can_be_line("0::"@ + (Seq::new(slashes, |i: int| '/') + rest)),
    ensures
        own_cgroup(
            file_text(
                before + seq!["0::"@ + (Seq::new(slashes, |i: int| '/') + rest)] + after,
                tail,
            ),
        ) == Some("/sys/fs/cgroup/"@ + rest),
{
    let rel = Seq::new(slashes, |i: int| '/') + rest;
    let more = lemma_line_in_file(before, "0::"@ + rel, after, tail);
    lemma_first_after(before, "0::"@, rel, more);
    lemma_slashes_go(slashes, rest);
    reveal_strlit("/sys/fs/cgroup");
    reveal_strlit("/sys/fs/cgroup/");
    let r = "/sys/fs/cgroup"@;
    assert(r.len() == 14 && r[13] == 'p');
    assert("/sys/fs/cgroup/"@ =~= r + seq!['/']);
    assert(text::joined(r, rest) =~= r + seq!['/'] + rest);
}

proof fn lemma_slashes_go(n: nat, rest: Seq<char>)
    requires
        rest.len() > 0 ==> rest[0] != '/',
    ensures
        without_leading_slashes(Seq::new(n, |i: int| '/') + rest) == rest,
    decreases n,
{
    let s = Seq::new(n, |i: int| '/') + rest;
    if n == 0 {
        assert(s =~= rest);
    } else {
        let m = (n - 1) as nat;
        lemma_slashes_go(m, rest);
        assert(s[0] == '/');
        assert(s.drop_first() =~= Seq::new(m, |i: int| '/') + rest);
    }
}

/// A slash, or a slash and a dot, behind a path changes nothing of its last component
/// and of what is before that.
pub proof fn law_ends_of_paths_do_not_matter(path: Seq<char>)
    requires
        path.len() > 0,
    ensures
        leaf(path + "/"@) == leaf(path),
        parent(path + "/"@) == parent(path),
        leaf(path + "/."@) == leaf(path),
        parent(path + "/."@) == parent(path),
{
    reveal_strlit("/");
    reveal_strlit("/.");
    let a = path + "/"@;
    let b = path + "/."@;
    assert(a.last() == '/');
    assert(a.drop_last() =~= path);
    assert(b[b.len() - 1] == '.' && b[b.len() - 2] == '/');
    assert(b.drop_last() =~= a);
    assert(bare(a) == bare(path));
    assert(bare(b) == bare(a));
}

} // verus!
