//! Bringing a run up to the point where its program starts: in which order
//! things are asked of the system, what is made of a refusal, and what is
//! guaranteed when the program is let go.
//!
//! The child is forked early and waits on a pipe while it is moved into its
//! cgroup and the counters are opened on it, so everything from exec on is
//! accounted; and where something that was required is missing, it dies before
//! it runs anything.

use crate::limits::{address_space, core_count, cpu_budget_ms, memory_cap_kb, Limits};
use crate::report::{finish, shortfall, Ending, RunResult, Shortfall};
use crate::sandbox::{stdout_taken, ProcMode, SandboxSpec};
use crate::supervise::Supervisor;
use crate::{limits, report, sandbox, supervise};
use vstd::prelude::*;
use vstd::string::*;

verus! {

/// How many extra counters there are.
pub const EXTRA_COUNT: usize = 4;

/// Something that is not as it should be, but does not stop the run.
#[derive(Debug, Clone, Copy, PartialEq, Eq, Structural)]
pub enum Warning {
    NoFreshProc,
    NoCgroup,
    PinFailed,
    PinNeedsCgroup,
    NotEnrolled,
    NoCounter,
}

/// A standard stream of the payload.
#[derive(Debug, Clone, Copy, PartialEq, Eq, Structural)]
pub enum Stream {
    Stdin,
    Stdout,
    Stderr,
}

/// Why a run was not started.
#[derive(Debug, Clone, Copy, PartialEq, Eq, Structural)]
pub enum Failure {
    /// The payload would write where the result goes.
    StdoutReserved,
    /// The filter could not be installed.
    Filter,
    /// There is no cgroup, and one was required.
    CgroupRequired,
    /// The cgroup does not report memory, and that was required.
    MemoryRequired,
    /// An argument contains a NUL.
    ArgvNul,
    /// A stream could not be opened.
    Stream(Stream),
    /// There is no pipe.
    Pipe,
    /// There is no child.
    Fork,
    /// The child could not be moved into the cgroup, which was required.
    EnrollRequired,
    /// There is no instruction counter, and one was required.
    CounterRequired,
}

/// What the launch asks for next.
#[derive(Debug, Clone, Copy, PartialEq, Eq, Structural)]
pub enum Step {
    /// Put the filter into a memory file.
    MakeFilter,
    /// Find out whether a fresh procfs can be mounted.
    ProbeProc,
    /// Tell the user.
    Warn(Warning),
    /// Build the command line, with this filter and this kind of /proc.
    BuildCommand { filter: Option<i32>, fresh_proc: bool },
    /// Find a directory for run cgroups, and create one there.
    OpenCgroup,
    /// Cap the memory of the cgroup. Where memory.max cannot be written, the
    /// child's address space is limited instead.
    CapMemory { kb: u64 },
    /// Cap the processes of the cgroup, which may fail.
    CapPids { n: u64 },
    /// Pin the cgroup to one CPU.
    PinCpu { cpu: u32 },
    /// See which files the cgroup has.
    InspectCgroup,
    /// See whether an argument contains a NUL.
    CheckArgs,
    /// Get the descriptor for a stream.
    OpenStream(Stream),
    /// Create the pipe on which the child waits.
    MakePipe,
    /// Fork the child. It sets its limits, without one on address space where
    /// the cgroup caps memory, waits on the pipe, closes all descriptors but
    /// this one, and executes the command.
    Fork { cgroup_caps: bool, keep: i32 },
    /// Move the child into the cgroup.
    Enroll,
    /// Open the instruction counter on the child.
    OpenCounter,
    /// Open an extra counter on the child; one that the PMU doesn't offer is
    /// skipped.
    OpenExtra { index: usize },
    /// Kill the waiting child and reap it.
    Abort(Failure),
    /// Put this limit in bytes on the child's address space, which it has not
    /// set itself where the cgroup was to cap its memory; then write to the pipe:
    /// the program starts.
    Go { address_space: Option<u64> },
    /// There will be no run.
    Failed(Failure),
}

/// What came of it.
#[derive(Debug, Clone, Copy, PartialEq, Eq, Structural)]
pub enum Reply {
    Done,
    Failed,
    /// The filter's descriptor.
    Filter(i32),
    /// Whether a fresh procfs can be mounted.
    Probed(bool),
    /// Whether the cgroup has memory.max and memory.peak.
    Files { cap: bool, peak: bool },
}

/// A run on its way to its start.
#[derive(Debug, Clone, Copy)]
pub struct Launch {
    pub limits: Limits,
    /// Whether the run is in a box.
    pub boxed: bool,
    /// Whether a filter was asked for.
    pub seccomp: bool,
    pub proc_mode: ProcMode,
    pub filter: Option<i32>,
    pub fresh_proc: bool,
    /// Whether the run has a cgroup.
    pub cgroup: bool,
    /// Whether the run is pinned to one CPU.
    pub pinned: bool,
    /// Whether the memory cap was written to the cgroup.
    pub cap_written: bool,
    /// Whether the cgroup caps memory, and whether it has memory.peak, which are
    /// checked separately: 5.9-5.18 kernels have memory.max but no memory.peak,
    /// and the cap alone is enough to skip RLIMIT_AS.
    pub mem_cap: bool,
    pub mem_peak: bool,
    /// Whether instructions are counted.
    pub counting: bool,
    pub pending: Step,
}

/// `l` with another step.
pub open spec fn to(l: Launch, pending: Step) -> Launch {
    Launch { pending, ..l }
}

/// Build the command line with what is known.
pub open spec fn to_command(l: Launch) -> Launch {
    to(l, Step::BuildCommand { filter: l.filter, fresh_proc: l.fresh_proc })
}

/// Decide how `/proc` appears. Without a box nothing is mounted.
pub open spec fn to_proc(l: Launch) -> Launch {
    if !l.boxed {
        to_command(l)
    } else {
        match l.proc_mode {
            ProcMode::Fresh => to_command(Launch { fresh_proc: true, ..l }),
            ProcMode::Bind => to_command(l),
            ProcMode::Auto => to(l, Step::ProbeProc),
        }
    }
}

/// Set the caps of a cgroup.
pub open spec fn to_caps(l: Launch) -> Launch {
    match l.limits.mem_kb {
        Some(kb) => to(l, Step::CapMemory { kb: limits::memory_cap(kb) }),
        None => to(l, Step::CapPids { n: l.limits.max_procs }),
    }
}

/// Pin the run, where that was asked for.
pub open spec fn to_pin(l: Launch) -> Launch {
    match l.limits.pin_cpu {
        Some(cpu) => if l.cgroup {
            to(l, Step::PinCpu { cpu })
        } else {
            to(l, Step::Warn(Warning::PinNeedsCgroup))
        },
        None => to_inspect(l),
    }
}

/// Look at the cgroup, where there is one.
pub open spec fn to_inspect(l: Launch) -> Launch {
    if l.cgroup {
        to(l, Step::InspectCgroup)
    } else {
        to_args(l)
    }
}

/// Insist on whole-tree memory accounting, where it is required.
pub open spec fn to_args(l: Launch) -> Launch {
    if l.limits.require_cgroup && !l.mem_peak {
        to(l, Step::Failed(Failure::MemoryRequired))
    } else {
        to(l, Step::CheckArgs)
    }
}

/// Start the program. Its address space is limited where no cgroup caps its
/// memory: where it is in none, or in one whose cap could not be set.
pub open spec fn to_go(l: Launch) -> Launch {
    to(
        l,
        Step::Go { address_space: limits::address_space_of(l.limits, l.cgroup && l.mem_cap) },
    )
}

/// What follows a warning.
pub open spec fn after_warning(l: Launch, w: Warning) -> Launch {
    match w {
        Warning::NoFreshProc => to_command(l),
        Warning::NoCgroup => to_pin(l),
        Warning::PinFailed => to_inspect(l),
        Warning::PinNeedsCgroup => to_inspect(l),
        Warning::NotEnrolled => to(l, Step::OpenCounter),
        Warning::NoCounter => to_go(l),
    }
}

/// What follows when the filter was, or was not, put into a file.
pub open spec fn after_filter(l: Launch, reply: Reply) -> Launch {
    match reply {
        Reply::Filter(fd) => to_proc(Launch { filter: Some(fd), ..l }),
        Reply::Failed => to(l, Step::Failed(Failure::Filter)),
        _ => l,
    }
}

/// What follows when it was found out whether a fresh procfs can be mounted.
pub open spec fn after_probe(l: Launch, reply: Reply) -> Launch {
    match reply {
        Reply::Probed(ok) => if ok {
            to_command(Launch { fresh_proc: true, ..l })
        } else {
            to(l, Step::Warn(Warning::NoFreshProc))
        },
        _ => l,
    }
}

/// What follows when a cgroup was, or was not, created.
pub open spec fn after_cgroup(l: Launch, reply: Reply) -> Launch {
    match reply {
        Reply::Done => to_caps(Launch { cgroup: true, ..l }),
        Reply::Failed => if l.limits.require_cgroup {
            to(l, Step::Failed(Failure::CgroupRequired))
        } else {
            to(l, Step::Warn(Warning::NoCgroup))
        },
        _ => l,
    }
}

/// What follows when the memory cap was, or was not, written. RLIMIT_AS is left
/// out only where the cgroup already caps memory, which one that refused the cap
/// does not.
pub open spec fn after_cap(l: Launch, reply: Reply) -> Launch {
    if reply is Done || reply is Failed {
        to(
            Launch { cap_written: reply is Done, ..l },
            Step::CapPids { n: l.limits.max_procs },
        )
    } else {
        l
    }
}

/// What follows when the cgroup was, or was not, pinned.
pub open spec fn after_pin(l: Launch, reply: Reply) -> Launch {
    match reply {
        Reply::Done => to_inspect(Launch { pinned: true, ..l }),
        Reply::Failed => to(l, Step::Warn(Warning::PinFailed)),
        _ => l,
    }
}

/// What follows when the files of the cgroup are known.
pub open spec fn after_inspection(l: Launch, reply: Reply) -> Launch {
    match reply {
        Reply::Files { cap, peak } => to_args(
            Launch { mem_cap: cap && l.cap_written, mem_peak: peak, ..l },
        ),
        _ => l,
    }
}

/// What follows a step that makes the child ready, with `next` where it was
/// done and `failure` where it failed.
pub open spec fn done_or(l: Launch, reply: Reply, next: Step, failure: Failure) -> Launch {
    match reply {
        Reply::Done => to(l, next),
        Reply::Failed => to(l, Step::Failed(failure)),
        _ => l,
    }
}

/// The stream after `s`, or the pipe.
pub open spec fn next_stream(s: Stream) -> Step {
    match s {
        Stream::Stdin => Step::OpenStream(Stream::Stdout),
        Stream::Stdout => Step::OpenStream(Stream::Stderr),
        Stream::Stderr => Step::MakePipe,
    }
}

/// The child is to be forked, with what it needs to know.
pub open spec fn fork_step(l: Launch) -> Step {
    Step::Fork {
        cgroup_caps: l.mem_cap,
        keep: match l.filter {
            Some(fd) => fd,
            None => -1i32,
        },
    }
}

/// What follows when the waiting child was, or was not, moved into the cgroup.
pub open spec fn after_enroll(l: Launch, reply: Reply) -> Launch {
    match reply {
        Reply::Done => to(l, Step::OpenCounter),
        Reply::Failed => if l.limits.require_cgroup {
            to(l, Step::Abort(Failure::EnrollRequired))
        } else {
            to(Launch { cgroup: false, pinned: false, ..l }, Step::Warn(Warning::NotEnrolled))
        },
        _ => l,
    }
}

/// What follows when the instruction counter was, or was not, opened.
pub open spec fn after_counter(l: Launch, reply: Reply) -> Launch {
    match reply {
        Reply::Done => if l.limits.extra_counters {
            to(Launch { counting: true, ..l }, Step::OpenExtra { index: 0 })
        } else {
            to_go(Launch { counting: true, ..l })
        },
        Reply::Failed => if l.limits.require_insn {
            to(l, Step::Abort(Failure::CounterRequired))
        } else {
            to(l, Step::Warn(Warning::NoCounter))
        },
        _ => l,
    }
}

/// What follows an extra counter, whether it was opened or skipped.
pub open spec fn after_extra(l: Launch, index: usize, reply: Reply) -> Launch {
    if reply is Done || reply is Failed {
        if index + 1 < EXTRA_COUNT {
            to(l, Step::OpenExtra { index: (index + 1) as usize })
        } else {
            to_go(l)
        }
    } else {
        l
    }
}

/// What follows when the pending step came to `reply`. A reply that does not
/// belong to the step changes nothing.
pub open spec fn launch_after(l: Launch, reply: Reply) -> Launch {
    match l.pending {
        Step::MakeFilter => after_filter(l, reply),
        Step::ProbeProc => after_probe(l, reply),
        Step::Warn(w) => if reply is Done {
            after_warning(l, w)
        } else {
            l
        },
        Step::BuildCommand { .. } => if reply is Done {
            to(l, Step::OpenCgroup)
        } else {
            l
        },
        Step::OpenCgroup => after_cgroup(l, reply),
        Step::CapMemory { .. } => after_cap(l, reply),
        Step::CapPids { .. } => if reply is Done || reply is Failed {
            to_pin(l)
        } else {
            l
        },
        Step::PinCpu { .. } => after_pin(l, reply),
        Step::InspectCgroup => after_inspection(l, reply),
        Step::CheckArgs => done_or(l, reply, Step::OpenStream(Stream::Stdin), Failure::ArgvNul),
        Step::OpenStream(s) => done_or(l, reply, next_stream(s), Failure::Stream(s)),
        Step::MakePipe => done_or(l, reply, fork_step(l), Failure::Pipe),
        Step::Fork { .. } => done_or(
            l,
            reply,
            if l.cgroup {
                Step::Enroll
            } else {
                Step::OpenCounter
            },
            Failure::Fork,
        ),
        Step::Enroll => after_enroll(l, reply),
        Step::OpenCounter => after_counter(l, reply),
        Step::OpenExtra { index } => after_extra(l, index, reply),
        Step::Abort(f) => if reply is Done {
            to(l, Step::Failed(f))
        } else {
            l
        },
        Step::Go { .. } | Step::Failed(_) => l,
    }
}

/// Where the launch of a run starts.
pub open spec fn launch_start(spec: SandboxSpec, limits: Limits) -> Launch {
    let l = Launch {
        limits,
        boxed: spec.box_dir is Some,
        seccomp: spec.seccomp,
        proc_mode: spec.proc_mode,
        filter: None,
        fresh_proc: false,
        cgroup: false,
        pinned: false,
        cap_written: false,
        mem_cap: false,
        mem_peak: false,
        counting: false,
        pending: Step::Failed(Failure::StdoutReserved),
    };
    if sandbox::takes_stdout(spec) {
        l
    } else if l.boxed && l.seccomp {
        to(l, Step::MakeFilter)
    } else {
        to_proc(l)
    }
}

/// Starts to run `argv[0]` with the given isolation and limits.
pub fn run(argv: &[String], spec: &SandboxSpec, limits: &Limits) -> (r: Launch)
    requires
        argv@.len() > 0,
    ensures
        r == launch_start(*spec, *limits),
{
    let mut l = Launch {
        limits: *limits,
        boxed: spec.box_dir.is_some(),
        seccomp: spec.seccomp,
        proc_mode: spec.proc_mode,
        filter: None,
        fresh_proc: false,
        cgroup: false,
        pinned: false,
        cap_written: false,
        mem_cap: false,
        mem_peak: false,
        counting: false,
        pending: Step::Failed(Failure::StdoutReserved),
    };
    if !stdout_taken(spec) {
        if l.boxed && l.seccomp {
            l.pending = Step::MakeFilter;
        } else {
            l.go_to_proc();
        }
    }
    l
}

impl Launch {
    fn go_to_command(&mut self)
        ensures
            *final(self) == to_command(*old(self)),
    {
        self.pending = Step::BuildCommand { filter: self.filter, fresh_proc: self.fresh_proc };
    }

    fn go_to_proc(&mut self)
        ensures
            *final(self) == to_proc(*old(self)),
    {
        if !self.boxed {
            self.go_to_command();
        } else {
            match self.proc_mode {
                ProcMode::Fresh => {
                    self.fresh_proc = true;
                    self.go_to_command();
                },
                ProcMode::Bind => {
                    self.go_to_command();
                },
                ProcMode::Auto => {
                    self.pending = Step::ProbeProc;
                },
            }
        }
    }

    fn go_to_pin(&mut self)
        ensures
            *final(self) == to_pin(*old(self)),
    {
        match self.limits.pin_cpu {
            Some(cpu) => {
                self.pending = if self.cgroup {
                    Step::PinCpu { cpu }
                } else {
                    Step::Warn(Warning::PinNeedsCgroup)
                };
            },
            None => {
                self.go_to_inspect();
            },
        }
    }

    fn go_to_inspect(&mut self)
        ensures
            *final(self) == to_inspect(*old(self)),
    {
        if self.cgroup {
            self.pending = Step::InspectCgroup;
        } else {
            self.go_to_args();
        }
    }

    fn go_to_args(&mut self)
        ensures
            *final(self) == to_args(*old(self)),
    {
        self.pending = if self.limits.require_cgroup && !self.mem_peak {
            Step::Failed(Failure::MemoryRequired)
        } else {
            Step::CheckArgs
        };
    }

    fn go_to_start(&mut self)
        ensures
            *final(self) == to_go(*old(self)),
    {
        self.pending = Step::Go {
            address_space: address_space(&self.limits, self.cgroup && self.mem_cap),
        };
    }

    fn after_warning(&mut self, w: Warning)
        ensures
            *final(self) == after_warning(*old(self), w),
    {
        match w {
            Warning::NoFreshProc => {
                self.go_to_command();
            },
            Warning::NoCgroup => {
                self.go_to_pin();
            },
            Warning::PinFailed | Warning::PinNeedsCgroup => {
                self.go_to_inspect();
            },
            Warning::NotEnrolled => {
                self.pending = Step::OpenCounter;
            },
            Warning::NoCounter => {
                self.go_to_start();
            },
        }
    }

    fn after_filter(&mut self, reply: Reply)
        ensures
            *final(self) == after_filter(*old(self), reply),
    {
        match reply {
            Reply::Filter(fd) => {
                self.filter = Some(fd);
                self.go_to_proc();
            },
            Reply::Failed => {
                self.pending = Step::Failed(Failure::Filter);
            },
            _ => {},
        }
    }

    fn after_probe(&mut self, reply: Reply)
        ensures
            *final(self) == after_probe(*old(self), reply),
    {
        match reply {
            Reply::Probed(ok) => {
                if ok {
                    self.fresh_proc = true;
                    self.go_to_command();
                } else {
                    self.pending = Step::Warn(Warning::NoFreshProc);
                }
            },
            _ => {},
        }
    }

    fn after_cgroup(&mut self, reply: Reply)
        ensures
            *final(self) == after_cgroup(*old(self), reply),
    {
        match reply {
            Reply::Done => {
                self.cgroup = true;
                self.pending = match self.limits.mem_kb {
                    Some(kb) => Step::CapMemory { kb: memory_cap_kb(kb) },
                    None => Step::CapPids { n: self.limits.max_procs },
                };
            },
            Reply::Failed => {
                self.pending = if self.limits.require_cgroup {
                    Step::Failed(Failure::CgroupRequired)
                } else {
                    Step::Warn(Warning::NoCgroup)
                };
            },
            _ => {},
        }
    }

    fn after_cap(&mut self, reply: Reply)
        ensures
            *final(self) == after_cap(*old(self), reply),
    {
        let done = matches!(reply, Reply::Done);
        if done || matches!(reply, Reply::Failed) {
            self.cap_written = done;
            self.pending = Step::CapPids { n: self.limits.max_procs };
        }
    }

    fn after_pin(&mut self, reply: Reply)
        ensures
            *final(self) == after_pin(*old(self), reply),
    {
        match reply {
            Reply::Done => {
                self.pinned = true;
                self.go_to_inspect();
            },
            Reply::Failed => {
                self.pending = Step::Warn(Warning::PinFailed);
            },
            _ => {},
        }
    }

    fn after_inspection(&mut self, reply: Reply)
        ensures
            *final(self) == after_inspection(*old(self), reply),
    {
        match reply {
            Reply::Files { cap, peak } => {
                self.mem_cap = cap && self.cap_written;
                self.mem_peak = peak;
                self.go_to_args();
            },
            _ => {},
        }
    }

    fn done_or(&mut self, reply: Reply, next: Step, failure: Failure)
        ensures
            *final(self) == done_or(*old(self), reply, next, failure),
    {
        match reply {
            Reply::Done => {
                self.pending = next;
            },
            Reply::Failed => {
                self.pending = Step::Failed(failure);
            },
            _ => {},
        }
    }

    fn after_enroll(&mut self, reply: Reply)
        ensures
            *final(self) == after_enroll(*old(self), reply),
    {
        match reply {
            Reply::Done => {
                self.pending = Step::OpenCounter;
            },
            Reply::Failed => {
                if self.limits.require_cgroup {
                    self.pending = Step::Abort(Failure::EnrollRequired);
                } else {
                    // The pin is the cgroup's, and the child is not in it.
                    self.cgroup = false;
                    self.pinned = false;
                    self.pending = Step::Warn(Warning::NotEnrolled);
                }
            },
            _ => {},
        }
    }

    fn after_counter(&mut self, reply: Reply)
        ensures
            *final(self) == after_counter(*old(self), reply),
    {
        match reply {
            Reply::Done => {
                self.counting = true;
                if self.limits.extra_counters {
                    self.pending = Step::OpenExtra { index: 0 };
                } else {
                    self.go_to_start();
                }
            },
            Reply::Failed => {
                self.pending = if self.limits.require_insn {
                    Step::Abort(Failure::CounterRequired)
                } else {
                    Step::Warn(Warning::NoCounter)
                };
            },
            _ => {},
        }
    }

    fn after_extra(&mut self, index: usize, reply: Reply)
        ensures
            *final(self) == after_extra(*old(self), index, reply),
    {
        if matches!(reply, Reply::Done | Reply::Failed) {
            if index < EXTRA_COUNT - 1 {
                self.pending = Step::OpenExtra { index: index + 1 };
            } else {
                self.go_to_start();
            }
        }
    }

    /// Takes what came of the pending step. What does not belong to it changes
    /// nothing.
    pub fn advance(&mut self, reply: Reply)
        ensures
            *final(self) == launch_after(*old(self), reply),
    {
        let done = matches!(reply, Reply::Done);
        match self.pending {
            Step::MakeFilter => {
                self.after_filter(reply);
            },
            Step::ProbeProc => {
                self.after_probe(reply);
            },
            Step::Warn(w) => {
                if done {
                    self.after_warning(w);
                }
            },
            Step::BuildCommand { filter: _, fresh_proc: _ } => {
                if done {
                    self.pending = Step::OpenCgroup;
                }
            },
            Step::OpenCgroup => {
                self.after_cgroup(reply);
            },
            Step::CapMemory { kb: _ } => {
                self.after_cap(reply);
            },
            Step::CapPids { n: _ } => {
                if done || matches!(reply, Reply::Failed) {
                    self.go_to_pin();
                }
            },
            Step::PinCpu { cpu: _ } => {
                self.after_pin(reply);
            },
            Step::InspectCgroup => {
                self.after_inspection(reply);
            },
            // The streams are opened before the fork, so that their errors show
            // up here.
            Step::CheckArgs => {
                self.done_or(reply, Step::OpenStream(Stream::Stdin), Failure::ArgvNul);
            },
            Step::OpenStream(s) => {
                let next = match s {
                    Stream::Stdin => Step::OpenStream(Stream::Stdout),
                    Stream::Stdout => Step::OpenStream(Stream::Stderr),
                    Stream::Stderr => Step::MakePipe,
                };
                self.done_or(reply, next, Failure::Stream(s));
            },
            Step::MakePipe => {
                let keep: i32 = match self.filter {
                    Some(fd) => fd,
                    None => -1,
                };
                let next = Step::Fork { cgroup_caps: self.mem_cap, keep };
                self.done_or(reply, next, Failure::Pipe);
            },
            Step::Fork { cgroup_caps: _, keep: _ } => {
                let next = if self.cgroup {
                    Step::Enroll
                } else {
                    Step::OpenCounter
                };
                self.done_or(reply, next, Failure::Fork);
            },
            Step::Enroll => {
                self.after_enroll(reply);
            },
            Step::OpenCounter => {
                self.after_counter(reply);
            },
            Step::OpenExtra { index } => {
                self.after_extra(index, reply);
            },
            Step::Abort(f) => {
                if done {
                    self.pending = Step::Failed(f);
                }
            },
            Step::Go { address_space: _ } | Step::Failed(_) => {},
        }
    }
}

/// Where watching a launched run starts.
pub open spec fn watched(l: Launch, pidfd: bool, online: i64) -> Supervisor {
    supervise::watch_start(
        l.counting,
        l.limits.insn_limit,
        l.cgroup,
        pidfd,
        limits::cores_of(l.pinned, online),
        limits::capped_product(l.limits.cpu_seconds as nat, 1000),
        l.limits.wall_ms,
    )
}

impl Launch {
    /// Starts to watch the run, once its program was started: `pidfd` says
    /// whether the child's exit can be polled for, and `online` how many cores
    /// are online.
    pub fn watch(&self, pidfd: bool, online: i64) -> (r: Supervisor)
        ensures
            r == watched(*self, pidfd, online),
    {
        Supervisor::new(
            self.counting,
            self.limits.insn_limit,
            self.cgroup,
            pidfd,
            core_count(self.pinned, online),
            cpu_budget_ms(self.limits.cpu_seconds),
            self.limits.wall_ms,
        )
    }

    /// The result of the run, or what it was required to report and does not.
    pub fn conclude(&self, e: &Ending) -> (r: Result<RunResult, Shortfall>)
        requires
            report::plausible(e.rusage),
        ensures
            match r {
                Ok(result) => {
                    &&& report::reports(self.limits, self.counting, *e, result)
                    &&& report::shares_are_numbers(*e) ==> report::well_written(result)
                    &&& self.limits.require_insn ==> result.instructions is Some
                    &&& self.limits.require_cgroup ==> result.accounting@ == "cgroup"@
                },
                Err(Shortfall::Instructions) => self.limits.require_insn && e.insns is None,
                Err(Shortfall::Accounting) => {
                    &&& self.limits.require_cgroup
                    &&& e.cg_cpu is None || e.cg_peak is None
                    &&& self.limits.require_insn ==> e.insns is Some
                },
            },
            r is Ok <==> (self.limits.require_insn ==> e.insns is Some) && (
            self.limits.require_cgroup ==> e.cg_cpu is Some && e.cg_peak is Some),
    {
        let result = finish(&self.limits, self.counting, e);
        proof {
            reveal_strlit("cgroup");
            reveal_strlit("cpu-only");
            reveal_strlit("rusage");
            assert("cgroup"@.len() == 6 && "cpu-only"@.len() == 8);
            assert("cgroup"@[0] != "rusage"@[0]);
        }
        match shortfall(&self.limits, &result) {
            Some(s) => Err(s),
            None => Ok(result),
        }
    }
}

/// From the launch to the result: a run that is reported as timed out took at
/// least its wall time, where its end is no earlier than any reading of the
/// clock; and any other reason that the supervisor had comes with a reading over
/// that limit.
pub proof fn law_reported_kills_are_justified(
    l: Launch,
    pidfd: bool,
    online: i64,
    seen: Seq<supervise::Seen>,
    e: Ending,
    r: RunResult,
)
    requires
        e.killed == supervise::watch_after_all(watched(l, pidfd, online), seen).killed,
        forall|i: int|
            0 <= i < seen.len() ==> ((#[trigger] seen[i]) matches supervise::Seen::Elapsed(t) ==> t
                <= e.elapsed),
        report::reports(l.limits, l.counting, e, r),
    ensures
        r.timed_out ==> r.wall_ms >= l.limits.wall_ms,
        e.killed matches Some(k) ==> exists|i: int|
            0 <= i < seen.len() && supervise::exceeds(
                watched(l, pidfd, online),
                #[trigger] seen[i],
                k,
            ),
{
    let s = watched(l, pidfd, online);
    supervise::law_every_kill_has_its_reading(s, seen);
    supervise::law_wall_kill_took_its_time(s, seen, e.elapsed);
}

/// How far along the launch is.
pub open spec fn stage(step: Step) -> nat {
    match step {
        Step::MakeFilter => 0,
        Step::ProbeProc => 1,
        Step::Warn(Warning::NoFreshProc) => 2,
        Step::BuildCommand { .. } => 3,
        Step::OpenCgroup => 4,
        Step::Warn(Warning::NoCgroup) => 5,
        Step::CapMemory { .. } => 6,
        Step::CapPids { .. } => 7,
        Step::PinCpu { .. } => 8,
        Step::Warn(Warning::PinFailed) => 9,
        Step::Warn(Warning::PinNeedsCgroup) => 9,
        Step::InspectCgroup => 10,
        Step::CheckArgs => 11,
        Step::OpenStream(Stream::Stdin) => 12,
        Step::OpenStream(Stream::Stdout) => 13,
        Step::OpenStream(Stream::Stderr) => 14,
        Step::MakePipe => 15,
        Step::Fork { .. } => 16,
        Step::Enroll => 17,
        Step::Warn(Warning::NotEnrolled) => 18,
        Step::OpenCounter => 19,
        Step::Warn(Warning::NoCounter) => 20,
        Step::OpenExtra { index } => 21 + index as nat,
        Step::Abort(_) => 21 + EXTRA_COUNT as nat,
        Step::Go { .. } => 22 + EXTRA_COUNT as nat,
        Step::Failed(_) => 22 + EXTRA_COUNT as nat,
    }
}

/// Whether a child waits for its start, or for its end.
pub open spec fn child_waits(step: Step) -> bool {
    17 <= stage(step) && !(step is Go) && !(step is Failed)
}

/// What holds of the filter at every step.
pub open spec fn filter_kept(l: Launch) -> bool {
    if l.pending is MakeFilter {
        l.filter is None && l.boxed && l.seccomp
    } else {
        l.pending is Failed || (l.filter is Some <==> l.boxed && l.seccomp)
    }
}

/// What holds of the kind of /proc at every step.
pub open spec fn proc_kept(l: Launch) -> bool {
    &&& l.fresh_proc ==> l.boxed && l.proc_mode != ProcMode::Bind
    &&& l.boxed && l.proc_mode == ProcMode::Fresh ==> l.fresh_proc || l.pending is MakeFilter
        || l.pending is Failed
    &&& l.pending is ProbeProc ==> l.boxed && l.proc_mode == ProcMode::Auto
}

/// What holds of the command line.
pub open spec fn command_kept(l: Launch) -> bool {
    l.pending matches Step::BuildCommand { filter, fresh_proc } ==> filter == l.filter
        && fresh_proc == l.fresh_proc
}

/// What holds of the accounting at every step.
pub open spec fn accounting_kept(l: Launch) -> bool {
    &&& l.pinned ==> l.cgroup && l.limits.pin_cpu is Some && stage(l.pending) >= 10
    &&& l.counting ==> stage(l.pending) >= 21
    &&& l.limits.require_cgroup && stage(l.pending) >= 5 && !(l.pending is Failed) ==> l.cgroup
    &&& l.limits.require_cgroup && stage(l.pending) >= 11 && !(l.pending is Failed) ==> l.mem_peak
    &&& l.limits.require_insn ==> l.pending != Step::Warn(Warning::NoCounter)
    &&& l.limits.require_insn && stage(l.pending) >= 21 && !(l.pending is Failed) && !(
    l.pending is Abort) ==> l.counting
    &&& l.pending matches Step::OpenExtra { index } ==> index < EXTRA_COUNT && l.counting
        && l.limits.extra_counters
    &&& l.pending is PinCpu || l.pending is Enroll ==> l.cgroup
    &&& l.pending is CapMemory || l.pending is CapPids || l.pending is InspectCgroup ==> l.cgroup
    &&& l.pending == Step::Warn(Warning::PinFailed) ==> l.cgroup
    &&& l.pending matches Step::PinCpu { cpu } ==> l.limits.pin_cpu == Some(cpu)
}

/// What holds of the memory cap at every step: it was written where the cgroup
/// is said to have it, and the program starts under the one or the other.
pub open spec fn memory_kept(l: Launch) -> bool {
    &&& l.mem_cap ==> l.cap_written && stage(l.pending) >= 11
    &&& l.cap_written ==> l.limits.mem_kb is Some
    &&& l.pending matches Step::Fork { cgroup_caps, .. } ==> cgroup_caps == l.mem_cap
    &&& l.pending matches Step::CapMemory { kb } ==> (l.limits.mem_kb matches Some(limit) && kb
        == limits::memory_cap(limit))
    &&& l.pending matches Step::Go { address_space } ==> address_space == limits::address_space_of(
        l.limits,
        l.cgroup && l.mem_cap,
    )
}

/// The launch after all of `replies`.
pub open spec fn launch_after_all(l: Launch, replies: Seq<Reply>) -> Launch
    decreases replies.len(),
{
    if replies.len() == 0 {
        l
    } else {
        launch_after(launch_after_all(l, replies.drop_last()), replies.last())
    }
}

/// What holds at every step of a launch that started with these.
pub open spec fn kept(l: Launch, spec: SandboxSpec, limits: Limits) -> bool {
    &&& filter_kept(l)
    &&& proc_kept(l)
    &&& command_kept(l)
    &&& accounting_kept(l)
    &&& memory_kept(l)
    &&& l.limits == limits
    &&& l.boxed == (spec.box_dir is Some)
    &&& l.seccomp == spec.seccomp
    &&& l.proc_mode == spec.proc_mode
}

#[verifier::spinoff_prover]
#[verifier::rlimit(40)]
proof fn lemma_filter_stays(l: Launch, reply: Reply)
    ensures
        !(l.pending is MakeFilter) ==> launch_after(l, reply).filter == l.filter,
{
    match l.pending {
        Step::Warn(w) => match w {
            Warning::NoFreshProc => {},
            Warning::NoCgroup => {},
            _ => {},
        },
        Step::ProbeProc => {},
        Step::OpenCgroup => {},
        Step::CapMemory { .. } => {},
        Step::CapPids { .. } => {},
        Step::PinCpu { .. } => {},
        Step::InspectCgroup => {},
        Step::OpenStream(_) => {},
        Step::Fork { .. } => {},
        Step::Enroll => {},
        Step::OpenCounter => {},
        Step::OpenExtra { .. } => {},
        _ => {},
    }
}

#[verifier::spinoff_prover]
#[verifier::rlimit(40)]
proof fn lemma_filter_kept(l: Launch, reply: Reply)
    requires
        filter_kept(l),
    ensures
        filter_kept(launch_after(l, reply)),
{
    let next = launch_after(l, reply);
    lemma_settings_kept(l, reply);
    lemma_filter_stays(l, reply);
    if !(l.pending is MakeFilter) {
        assert(!(next.pending is MakeFilter));
        assert(l.pending is Failed ==> next.pending is Failed);
    }
}

#[verifier::spinoff_prover]
#[verifier::rlimit(40)]
proof fn lemma_proc_kept(l: Launch, reply: Reply)
    requires
        proc_kept(l),
    ensures
        proc_kept(launch_after(l, reply)),
{
}

#[verifier::spinoff_prover]
#[verifier::rlimit(40)]
proof fn lemma_command_kept(l: Launch, reply: Reply)
    requires
        command_kept(l),
    ensures
        command_kept(launch_after(l, reply)),
{
}

#[verifier::spinoff_prover]
#[verifier::rlimit(40)]
proof fn lemma_accounting_kept(l: Launch, reply: Reply)
    requires
        accounting_kept(l),
    ensures
        accounting_kept(launch_after(l, reply)),
{
}

#[verifier::spinoff_prover]
#[verifier::rlimit(40)]
proof fn lemma_memory_kept(l: Launch, reply: Reply)
    requires
        memory_kept(l),
    ensures
        memory_kept(launch_after(l, reply)),
{
    match l.pending {
        Step::Warn(w) => match w {
            Warning::NoFreshProc => {},
            Warning::NoCgroup => {},
            Warning::PinFailed => {},
            Warning::PinNeedsCgroup => {},
            Warning::NotEnrolled => {},
            Warning::NoCounter => {},
        },
        Step::MakeFilter => {},
        Step::ProbeProc => {},
        Step::OpenCgroup => {},
        Step::CapMemory { .. } => {},
        Step::CapPids { .. } => {},
        Step::PinCpu { .. } => {},
        Step::InspectCgroup => {},
        Step::OpenStream(_) => {},
        Step::Fork { .. } => {},
        Step::Enroll => {},
        Step::OpenCounter => {},
        Step::OpenExtra { .. } => {},
        _ => {},
    }
}

#[verifier::spinoff_prover]
#[verifier::rlimit(40)]
proof fn lemma_settings_kept(l: Launch, reply: Reply)
    ensures
        launch_after(l, reply).limits == l.limits,
        launch_after(l, reply).boxed == l.boxed,
        launch_after(l, reply).seccomp == l.seccomp,
        launch_after(l, reply).proc_mode == l.proc_mode,
{
}

#[verifier::spinoff_prover]
#[verifier::rlimit(40)]
proof fn lemma_goes_forward(l: Launch, reply: Reply)
    requires
        accounting_kept(l),
    ensures
        launch_after(l, reply) == l || stage(l.pending) < stage(launch_after(l, reply).pending),
{
    match l.pending {
        Step::MakeFilter => {},
        Step::ProbeProc => {},
        Step::Warn(w) => match w {
            Warning::NoFreshProc => {},
            Warning::NoCgroup => {},
            _ => {},
        },
        Step::BuildCommand { .. } => {},
        Step::OpenCgroup => {},
        Step::OpenExtra { .. } => {},
        _ => {},
    }
}

proof fn lemma_start_kept(spec: SandboxSpec, limits: Limits)
    ensures
        kept(launch_start(spec, limits), spec, limits),
{
}

proof fn lemma_all_keep(spec: SandboxSpec, limits: Limits, replies: Seq<Reply>)
    ensures
        kept(launch_after_all(launch_start(spec, limits), replies), spec, limits),
    decreases replies.len(),
{
    lemma_start_kept(spec, limits);
    if replies.len() > 0 {
        lemma_all_keep(spec, limits, replies.drop_last());
        let l = launch_after_all(launch_start(spec, limits), replies.drop_last());
        lemma_filter_kept(l, replies.last());
        lemma_proc_kept(l, replies.last());
        lemma_command_kept(l, replies.last());
        lemma_accounting_kept(l, replies.last());
        lemma_memory_kept(l, replies.last());
        lemma_settings_kept(l, replies.last());
    }
}

/// What a launch decides, it decides by the limits and the isolation that it was
/// started with: they stay as they were, whatever the system replied.
pub proof fn law_settings_stay(spec: SandboxSpec, limits: Limits, replies: Seq<Reply>)
    ensures
        ({
            let l = launch_after_all(launch_start(spec, limits), replies);
            &&& l.limits == limits
            &&& l.boxed == (spec.box_dir is Some)
            &&& l.seccomp == spec.seccomp
            &&& l.proc_mode == spec.proc_mode
        }),
{
    lemma_all_keep(spec, limits, replies);
}

/// What was required is there when the program starts, whatever the system
/// replied: with `require_insn` instructions are counted, and with
/// `require_cgroup` the run has a cgroup that reports its memory.
pub proof fn law_requirements_hold_at_start(
    spec: SandboxSpec,
    limits: Limits,
    replies: Seq<Reply>,
)
    ensures
        launch_after_all(launch_start(spec, limits), replies).pending is Go ==> {
            let l = launch_after_all(launch_start(spec, limits), replies);
            &&& limits.require_insn ==> l.counting
            &&& limits.require_cgroup ==> l.cgroup && l.mem_peak
        },
{
    lemma_all_keep(spec, limits, replies);
}

/// A run with a memory limit never starts without a cap: either it is in a
/// cgroup to which the cap was written, and its address space is free, or its
/// address space is limited. A run without one starts without either. The child
/// is told at the fork to leave its address space free only where the cap was
/// written.
pub proof fn law_memory_is_capped(spec: SandboxSpec, limits: Limits, replies: Seq<Reply>)
    ensures
        ({
            let l = launch_after_all(launch_start(spec, limits), replies);
            &&& l.pending matches Step::Go { address_space } ==> match limits.mem_kb {
                Some(kb) => if l.cgroup && l.mem_cap {
                    address_space is None && l.cap_written
                } else {
                    address_space == Some(limits::capped_product(kb as nat, 1024))
                },
                None => address_space is None && !l.cap_written,
            }
            &&& l.pending matches Step::Fork { cgroup_caps, .. } ==> cgroup_caps == l.mem_cap && (
            cgroup_caps ==> l.cap_written)
        }),
{
    lemma_all_keep(spec, limits, replies);
}

/// The cap counts as written only when memory.max was written, at a quarter
/// above the limit.
pub proof fn law_cap_was_written(
    spec: SandboxSpec,
    limits: Limits,
    replies: Seq<Reply>,
    reply: Reply,
)
    ensures
        ({
            let l = launch_after_all(launch_start(spec, limits), replies);
            !l.cap_written && launch_after(l, reply).cap_written ==> reply == Reply::Done && (
            limits.mem_kb matches Some(kb) && l.pending == (Step::CapMemory {
                kb: limits::memory_cap(kb),
            }))
        }),
{
    lemma_all_keep(spec, limits, replies);
    lemma_cap_written(launch_after_all(launch_start(spec, limits), replies), reply);
}

#[verifier::spinoff_prover]
#[verifier::rlimit(40)]
proof fn lemma_cap_written(l: Launch, reply: Reply)
    ensures
        !l.cap_written && launch_after(l, reply).cap_written ==> reply == Reply::Done
            && l.pending is CapMemory,
{
}

/// The extra counters are asked for only where they are wanted and instructions
/// are counted, one after the other from the first on.
pub proof fn law_extras_in_order(
    spec: SandboxSpec,
    limits: Limits,
    replies: Seq<Reply>,
    reply: Reply,
)
    ensures
        ({
            let l = launch_after_all(launch_start(spec, limits), replies);
            let next = launch_after(l, reply);
            &&& l.pending matches Step::OpenExtra { index } ==> index < EXTRA_COUNT && l.counting
                && limits.extra_counters
            &&& next != l && next.pending is OpenExtra ==> {
                let index = next.pending->index;
                if index == 0 {
                    l.pending is OpenCounter
                } else {
                    l.pending == (Step::OpenExtra { index: (index - 1) as usize })
                }
            }
        }),
{
    lemma_all_keep(spec, limits, replies);
    lemma_extra_follows(launch_after_all(launch_start(spec, limits), replies), reply);
}

#[verifier::spinoff_prover]
#[verifier::rlimit(40)]
proof fn lemma_extra_follows(l: Launch, reply: Reply)
    ensures
        launch_after(l, reply) != l ==> (launch_after(l, reply).pending matches Step::OpenExtra {
            index,
        } ==> if index == 0 {
            l.pending is OpenCounter
        } else {
            l.pending == (Step::OpenExtra { index: (index - 1) as usize })
        }),
{
}

/// A run in a box that asks for the filter never starts without it, and one
/// without a box, or that does not ask for it, never has it.
pub proof fn law_no_start_without_filter(spec: SandboxSpec, limits: Limits, replies: Seq<Reply>)
    ensures
        ({
            let l = launch_after_all(launch_start(spec, limits), replies);
            &&& l.pending is Go || l.pending is Fork ==> (l.filter is Some <==> spec.box_dir is Some
                && spec.seccomp)
            &&& l.pending matches Step::BuildCommand { filter, .. } ==> filter == l.filter && (
            filter is Some <==> spec.box_dir is Some && spec.seccomp)
        }),
{
    lemma_all_keep(spec, limits, replies);
}

/// The command line mounts a fresh procfs where that is forced, binds the
/// host's where that is forced, and mounts nothing without a box.
pub proof fn law_proc_mode_is_kept(spec: SandboxSpec, limits: Limits, replies: Seq<Reply>)
    ensures
        ({
            let l = launch_after_all(launch_start(spec, limits), replies);
            l.pending matches Step::BuildCommand { fresh_proc, .. } ==> {
                &&& spec.box_dir is None ==> !fresh_proc
                &&& spec.proc_mode == ProcMode::Bind ==> !fresh_proc
                &&& spec.proc_mode == ProcMode::Fresh && spec.box_dir is Some ==> fresh_proc
            }
        }),
{
    lemma_all_keep(spec, limits, replies);
}

/// One core is assumed only where the pin took effect: the run has a cgroup,
/// and was to be pinned.
pub proof fn law_pinned_means_pinned(spec: SandboxSpec, limits: Limits, replies: Seq<Reply>)
    ensures
        ({
            let l = launch_after_all(launch_start(spec, limits), replies);
            l.pinned ==> l.cgroup && limits.pin_cpu is Some
        }),
{
    lemma_all_keep(spec, limits, replies);
}

/// A payload that would write where the result goes is refused before anything
/// is done.
pub proof fn law_stdout_is_reserved(spec: SandboxSpec, limits: Limits, replies: Seq<Reply>)
    requires
        sandbox::takes_stdout(spec),
    ensures
        launch_after_all(launch_start(spec, limits), replies).pending == Step::Failed(
            Failure::StdoutReserved,
        ),
    decreases replies.len(),
{
    if replies.len() > 0 {
        law_stdout_is_reserved(spec, limits, replies.drop_last());
    }
}

/// The launch only goes forward, so it ends: each reply either leaves it as it
/// is, or takes it to a later stage, and there is a last one.
pub proof fn law_launch_ends(spec: SandboxSpec, limits: Limits, replies: Seq<Reply>, reply: Reply)
    ensures
        ({
            let l = launch_after_all(launch_start(spec, limits), replies);
            let next = launch_after(l, reply);
            &&& next == l || stage(l.pending) < stage(next.pending)
            &&& stage(l.pending) <= 22 + EXTRA_COUNT
        }),
{
    lemma_all_keep(spec, limits, replies);
    lemma_goes_forward(launch_after_all(launch_start(spec, limits), replies), reply);
}

/// Every step but the last ones has a reply that takes the launch on: it cannot
/// get stuck.
pub proof fn law_launch_moves(l: Launch)
    requires
        !(l.pending is Go),
        !(l.pending is Failed),
    ensures
        launch_after(
            l,
            match l.pending {
                Step::MakeFilter => Reply::Filter(0),
                Step::ProbeProc => Reply::Probed(true),
                Step::InspectCgroup => Reply::Files { cap: true, peak: true },
                _ => Reply::Done,
            },
        ).pending != l.pending,
{
}

/// Whether a reply gives no reason to refuse a run with these limits.
pub open spec fn favourable(reply: Reply, limits: Limits) -> bool {
    match reply {
        Reply::Failed => false,
        Reply::Files { peak, .. } => peak || !limits.require_cgroup,
        _ => true,
    }
}

/// Whether nothing has stood in the way of the run.
pub open spec fn unhindered(l: Launch) -> bool {
    &&& !(l.pending is Failed)
    &&& !(l.pending is Abort)
    &&& l.cgroup || stage(l.pending) <= 4
}

#[verifier::spinoff_prover]
#[verifier::rlimit(40)]
proof fn lemma_unhindered(l: Launch, reply: Reply)
    requires
        unhindered(l),
        favourable(reply, l.limits),
    ensures
        unhindered(launch_after(l, reply)),
{
    match l.pending {
        Step::Warn(w) => match w {
            Warning::NoFreshProc => {},
            Warning::NoCgroup => {},
            _ => {},
        },
        Step::MakeFilter => {},
        Step::ProbeProc => {},
        Step::OpenCgroup => {},
        Step::PinCpu { .. } => {},
        Step::InspectCgroup => {},
        _ => {},
    }
}

/// A run is refused only for a reason: where its output stays clear of the
/// result and no reply is unfavourable, it is never refused.
pub proof fn law_refusal_has_a_reason(spec: SandboxSpec, limits: Limits, replies: Seq<Reply>)
    requires
        !sandbox::takes_stdout(spec),
        forall|i: int| 0 <= i < replies.len() ==> favourable(#[trigger] replies[i], limits),
    ensures
        unhindered(launch_after_all(launch_start(spec, limits), replies)),
    decreases replies.len(),
{
    lemma_start_kept(spec, limits);
    if replies.len() > 0 {
        let before = replies.drop_last();
        assert forall|i: int| 0 <= i < before.len() implies favourable(
            #[trigger] before[i],
            limits,
        ) by {
            assert(before[i] == replies[i]);
        }
        law_refusal_has_a_reason(spec, limits, before);
        lemma_all_keep(spec, limits, before);
        lemma_unhindered(launch_after_all(launch_start(spec, limits), before), replies.last());
    }
}

/// A child that waits is never forgotten: when there will be no run after the
/// fork, it is killed and reaped first, and from there its program is never
/// started.
pub proof fn law_refused_child_is_reaped(l: Launch, reply: Reply)
    requires
        child_waits(l.pending),
    ensures
        launch_after(l, reply).pending is Failed ==> l.pending is Abort,
        l.pending is Abort ==> !(launch_after(l, reply).pending is Go),
{
}

/// What is decided stays decided.
pub proof fn law_decision_is_final(l: Launch, reply: Reply)
    requires
        l.pending is Go || l.pending is Failed,
    ensures
        launch_after(l, reply) == l,
{
}

/// What is said in front of and behind the cause of a warning.
pub open spec fn warning_frame(w: Warning) -> (Seq<char>, Seq<char>) {
    match w {
        Warning::NoFreshProc => (
            "cannot mount a fresh /proc here (hardened container?); binding host /proc read-only — sandboxed code can see host PIDs. Pass --proc-bind to silence, or fix the container's /proc masking."@,
            ""@,
        ),
        Warning::NoCgroup => (
            "no per-run cgroup ("@,
            "); cpu_ms/peak_kb degrade to per-process rusage and the memory cap to RLIMIT_AS"@,
        ),
        Warning::PinFailed => (
            "cpu pinning failed ("@,
            "); running unpinned (needs the cpuset controller delegated)"@,
        ),
        Warning::PinNeedsCgroup => ("cpu pinning needs a cgroup; running unpinned"@, ""@),
        Warning::NotEnrolled => (
            "cgroup enrollment failed ("@,
            "); accounting degrades to per-process rusage"@,
        ),
        Warning::NoCounter => (
            "perf_event_open failed ("@,
            "); instruction counting disabled, measurement degraded to CPU/wall time"@,
        ),
    }
}

/// Whether a warning names the error that led to it.
pub open spec fn warning_has_cause(w: Warning) -> bool {
    !(w is NoFreshProc) && !(w is PinNeedsCgroup)
}

/// What the user is told; `cause` is the error that led to it.
pub open spec fn warning_message(w: Warning, cause: Seq<char>) -> Seq<char> {
    let (front, back) = warning_frame(w);
    "tallyrun: warning: "@ + front + (if warning_has_cause(w) {
        cause
    } else {
        ""@
    }) + back
}

/// What the user is told; `cause` is the error that led to it.
pub fn warning_text(w: Warning, cause: &str) -> (r: String)
    ensures
        r@ == warning_message(w, cause@),
{
    let (front, back) = match w {
        Warning::NoFreshProc => (
            "cannot mount a fresh /proc here (hardened container?); binding host /proc read-only — sandboxed code can see host PIDs. Pass --proc-bind to silence, or fix the container's /proc masking.",
            "",
        ),
        Warning::NoCgroup => (
            "no per-run cgroup (",
            "); cpu_ms/peak_kb degrade to per-process rusage and the memory cap to RLIMIT_AS",
        ),
        Warning::PinFailed => (
            "cpu pinning failed (",
            "); running unpinned (needs the cpuset controller delegated)",
        ),
        Warning::PinNeedsCgroup => ("cpu pinning needs a cgroup; running unpinned", ""),
        Warning::NotEnrolled => (
            "cgroup enrollment failed (",
            "); accounting degrades to per-process rusage",
        ),
        Warning::NoCounter => (
            "perf_event_open failed (",
            "); instruction counting disabled, measurement degraded to CPU/wall time",
        ),
    };
    let mut r = "tallyrun: warning: ".to_owned();
    r.append(front);
    match w {
        Warning::NoFreshProc | Warning::PinNeedsCgroup => {
            r.append("");
        },
        _ => {
            r.append(cause);
        },
    }
    r.append(back);
    r
}

/// What sort of error a failure is.
#[derive(Debug, Clone, Copy, PartialEq, Eq, Structural)]
pub enum FailureKind {
    /// The caller asked for what cannot be.
    InvalidInput,
    /// The host cannot do what was asked.
    Unsupported,
    /// That of the error that led to it.
    AsReported,
}

/// What sort of error a failure is.
pub open spec fn kind_of(f: Failure) -> FailureKind {
    match f {
        Failure::StdoutReserved | Failure::ArgvNul => FailureKind::InvalidInput,
        Failure::MemoryRequired | Failure::CounterRequired => FailureKind::Unsupported,
        _ => FailureKind::AsReported,
    }
}

/// Why there was no run; `cause` is the error that led to it. Where the library
/// has nothing to add, that is the cause itself.
pub open spec fn failure_message(f: Failure, cause: Seq<char>) -> Seq<char> {
    match f {
        Failure::StdoutReserved =>
            "/dev/stdout is reserved for tallyrun's JSON result; send the program's output to a file"@,
        Failure::CgroupRequired => "cgroup accounting required but unavailable: "@ + cause,
        Failure::MemoryRequired =>
            "cgroup accounting required but the memory controller is not delegated (peak RSS / memory cap would be per-process only)"@,
        Failure::ArgvNul => "argv contains NUL"@,
        Failure::EnrollRequired => "cgroup accounting required but enrollment failed: "@ + cause,
        Failure::CounterRequired => "instruction counting required but perf_event_open failed: "@
            + cause
            + " (needs kernel.perf_event_paranoid <= 2, a real PMU, and a container seccomp policy that allows perf_event_open)"@,
        Failure::Filter | Failure::Stream(_) | Failure::Pipe | Failure::Fork => cause,
    }
}

impl Failure {
    /// What sort of error this is.
    pub fn kind(self) -> (r: FailureKind)
        ensures
            r == kind_of(self),
    {
        match self {
            Failure::StdoutReserved | Failure::ArgvNul => FailureKind::InvalidInput,
            Failure::MemoryRequired | Failure::CounterRequired => FailureKind::Unsupported,
            _ => FailureKind::AsReported,
        }
    }

    /// Why there was no run; `cause` is the error that led to it.
    pub fn text(self, cause: &str) -> (r: String)
        ensures
            r@ == failure_message(self, cause@),
    {
        match self {
            Failure::StdoutReserved => {
                "/dev/stdout is reserved for tallyrun's JSON result; send the program's output to a file".to_owned()
            },
            Failure::CgroupRequired => {
                let mut r = "cgroup accounting required but unavailable: ".to_owned();
                r.append(cause);
                r
            },
            Failure::MemoryRequired => {
                "cgroup accounting required but the memory controller is not delegated (peak RSS / memory cap would be per-process only)".to_owned()
            },
            Failure::ArgvNul => "argv contains NUL".to_owned(),
            Failure::EnrollRequired => {
                let mut r = "cgroup accounting required but enrollment failed: ".to_owned();
                r.append(cause);
                r
            },
            Failure::CounterRequired => {
                let mut r = "instruction counting required but perf_event_open failed: ".to_owned();
                r.append(cause);
                r.append(
                    " (needs kernel.perf_event_paranoid <= 2, a real PMU, and a container seccomp policy that allows perf_event_open)",
                );
                r
            },
            Failure::Filter | Failure::Stream(_) | Failure::Pipe | Failure::Fork => {
                cause.to_owned()
            },
        }
    }
}

/// What is known of a run is what the system replied, and nothing else: it has the
/// filter that was made, a cgroup once one was opened and until the child could not be
/// moved into it, a pin once that was set and as long as it has the cgroup, the
/// memory files that were seen, and a counter once one was opened.
#[verifier::spinoff_prover]
#[verifier::rlimit(60)]
pub proof fn law_replies_are_believed(l: Launch, reply: Reply)
    ensures
        ({
            let n = launch_after(l, reply);
            let enroll_failed = l.pending is Enroll && reply == Reply::Failed
                && !l.limits.require_cgroup;
            &&& n.filter == (match (l.pending, reply) {
                (Step::MakeFilter, Reply::Filter(fd)) => Some(fd),
                _ => l.filter,
            })
            &&& n.cgroup == (if enroll_failed {
                false
            } else {
                l.cgroup || (l.pending is OpenCgroup && reply == Reply::Done)
            })
            &&& n.pinned == (if enroll_failed {
                false
            } else {
                l.pinned || (l.pending is PinCpu && reply == Reply::Done)
            })
            &&& n.counting == (l.counting || (l.pending is OpenCounter && reply == Reply::Done))
            &&& n.mem_peak == (match (l.pending, reply) {
                (Step::InspectCgroup, Reply::Files { peak, .. }) => peak,
                _ => l.mem_peak,
            })
            &&& n.mem_cap == (match (l.pending, reply) {
                (Step::InspectCgroup, Reply::Files { cap, .. }) => cap && l.cap_written,
                _ => l.mem_cap,
            })
            &&& n.cap_written == (if l.pending is CapMemory && (reply == Reply::Done || reply
                == Reply::Failed) {
                reply == Reply::Done
            } else {
                l.cap_written
            })
            &&& l.pending is ProbeProc && reply == Reply::Probed(true) ==> n.fresh_proc
            &&& l.pending is ProbeProc && reply == Reply::Probed(false) ==> n.fresh_proc
                == l.fresh_proc
            &&& n.fresh_proc && !l.fresh_proc ==> (l.pending is ProbeProc && reply == Reply::Probed(
                true,
            )) || (l.pending is MakeFilter && l.boxed && l.proc_mode == ProcMode::Fresh)
        }),
{
    match l.pending {
        Step::MakeFilter => {},
        Step::ProbeProc => {},
        Step::Warn(w) => match w {
            Warning::NoFreshProc => {},
            Warning::NoCgroup => {},
            Warning::PinFailed => {},
            Warning::PinNeedsCgroup => {},
            Warning::NotEnrolled => {},
            Warning::NoCounter => {},
        },
        Step::OpenCgroup => {},
        Step::CapMemory { .. } => {},
        Step::CapPids { .. } => {},
        Step::PinCpu { .. } => {},
        Step::InspectCgroup => {},
        Step::OpenStream(_) => {},
        Step::MakePipe => {},
        Step::Fork { .. } => {},
        Step::Enroll => {},
        Step::OpenCounter => {},
        Step::OpenExtra { .. } => {},
        _ => {},
    }
}

/// Whether the start, with or without a limit on address space, follows `l`.
spec fn starts(l: Launch, n: Step) -> bool {
    n matches Step::Go { address_space } && address_space == limits::address_space_of(
        l.limits,
        l.cgroup && l.mem_cap,
    )
}

/// Whether a look at the cgroup, or what follows without one, follows `l`.
spec fn looks(l: Launch, n: Step) -> bool {
    if l.cgroup {
        n is InspectCgroup
    } else {
        n is CheckArgs || n is Failed
    }
}

/// Whether the pin, or what follows without one, follows `l`.
spec fn pins(l: Launch, n: Step) -> bool {
    match l.limits.pin_cpu {
        Some(cpu) => if l.cgroup {
            n == (Step::PinCpu { cpu })
        } else {
            n == Step::Warn(Warning::PinNeedsCgroup)
        },
        None => looks(l, n),
    }
}

/// Whether the step `n` can follow `l` when it gets `reply`.
spec fn can_follow(l: Launch, reply: Reply, n: Step) -> bool {
    let told = reply == Reply::Done;
    let over = told || reply == Reply::Failed;
    match l.pending {
        Step::MakeFilter => n is Failed || (reply is Filter && if l.boxed && l.proc_mode
            == ProcMode::Auto {
            n is ProbeProc
        } else {
            n is BuildCommand
        }),
        Step::ProbeProc => n == Step::Warn(Warning::NoFreshProc) || (reply == Reply::Probed(true)
            && n is BuildCommand),
        Step::Warn(Warning::NoFreshProc) => told && n is BuildCommand,
        Step::Warn(Warning::NoCgroup) => told && pins(l, n),
        Step::Warn(Warning::PinFailed) => told && looks(l, n),
        Step::Warn(Warning::PinNeedsCgroup) => told && looks(l, n),
        Step::Warn(Warning::NotEnrolled) => told && n is OpenCounter,
        Step::Warn(Warning::NoCounter) => told && starts(l, n),
        Step::BuildCommand { .. } => told && n is OpenCgroup,
        Step::OpenCgroup => n is Failed || n == Step::Warn(Warning::NoCgroup) || (told && if
            l.limits.mem_kb is Some {
            n is CapMemory
        } else {
            n == (Step::CapPids { n: l.limits.max_procs })
        }),
        Step::CapMemory { .. } => over && n == (Step::CapPids { n: l.limits.max_procs }),
        Step::CapPids { .. } => pins(l, n),
        Step::PinCpu { .. } => n == Step::Warn(Warning::PinFailed) || (told && looks(l, n)),
        Step::InspectCgroup => reply is Files && (n is CheckArgs || n is Failed),
        Step::CheckArgs => n is Failed || (told && n == Step::OpenStream(Stream::Stdin)),
        Step::OpenStream(s) => n is Failed || (told && n == next_stream(s)),
        Step::MakePipe => n is Failed || (told && n == fork_step(l)),
        Step::Fork { .. } => n is Failed || (told && if l.cgroup {
            n is Enroll
        } else {
            n is OpenCounter
        }),
        Step::Enroll => n is Abort || n == Step::Warn(Warning::NotEnrolled) || (told
            && n is OpenCounter),
        Step::OpenCounter => n is Abort || n == Step::Warn(Warning::NoCounter) || (told && if
            l.limits.extra_counters {
            n == (Step::OpenExtra { index: 0 })
        } else {
            starts(l, n)
        }),
        Step::OpenExtra { index } => over && if index + 1 < 4 {
            n == (Step::OpenExtra { index: (index + 1) as usize })
        } else {
            starts(l, n)
        },
        Step::Abort(_) => told && n is Failed,
        Step::Go { .. } | Step::Failed(_) => false,
    }
}

#[verifier::spinoff_prover]
#[verifier::rlimit(60)]
proof fn lemma_can_follow(l: Launch, reply: Reply)
    requires
        launch_after(l, reply).pending != l.pending,
    ensures
        can_follow(l, reply, launch_after(l, reply).pending),
{
    match l.pending {
        Step::Warn(w) => match w {
            Warning::NoFreshProc => {},
            Warning::NoCgroup => {},
            Warning::PinFailed => {},
            Warning::PinNeedsCgroup => {},
            Warning::NotEnrolled => {},
            Warning::NoCounter => {},
        },
        _ => {},
    }
}

/// The command line comes first: the filter is made before /proc is looked into, and
/// only when both are settled is the command built, and only then a cgroup asked for.
pub proof fn law_command_comes_first(l: Launch, reply: Reply)
    requires
        launch_after(l, reply).pending != l.pending,
    ensures
        ({
            let n = launch_after(l, reply).pending;
            let told = reply == Reply::Done;
            &&& !(n is MakeFilter)
            &&& n is ProbeProc ==> l.pending is MakeFilter && reply is Filter && l.boxed
                && l.proc_mode == ProcMode::Auto
            &&& n is BuildCommand ==> (l.pending is MakeFilter && reply is Filter && !(l.boxed
                && l.proc_mode == ProcMode::Auto)) || (l.pending is ProbeProc && reply
                == Reply::Probed(true)) || (l.pending == Step::Warn(Warning::NoFreshProc) && told)
            &&& n is OpenCgroup ==> l.pending is BuildCommand && told
        }),
{
    lemma_can_follow(l, reply);
    lemma_command_comes_first(l, reply, launch_after(l, reply).pending);
}

proof fn lemma_command_comes_first(l: Launch, reply: Reply, n: Step)
    requires
        can_follow(l, reply, n),
    ensures
        ({
            let told = reply == Reply::Done;
            &&& !(n is MakeFilter)
            &&& n is ProbeProc ==> l.pending is MakeFilter && reply is Filter && l.boxed
                && l.proc_mode == ProcMode::Auto
            &&& n is BuildCommand ==> (l.pending is MakeFilter && reply is Filter && !(l.boxed
                && l.proc_mode == ProcMode::Auto)) || (l.pending is ProbeProc && reply
                == Reply::Probed(true)) || (l.pending == Step::Warn(Warning::NoFreshProc) && told)
            &&& n is OpenCgroup ==> l.pending is BuildCommand && told
        }),
{
}

/// A cgroup is capped as soon as it is there: its memory where that is limited, and
/// then the number of processes that was asked for.
pub proof fn law_caps_follow_the_cgroup(l: Launch, reply: Reply)
    requires
        launch_after(l, reply).pending != l.pending,
    ensures
        ({
            let n = launch_after(l, reply).pending;
            let told = reply == Reply::Done;
            let over = told || reply == Reply::Failed;
            &&& n is CapMemory ==> l.pending is OpenCgroup && told && l.limits.mem_kb is Some
            &&& n matches Step::CapPids { n: procs } ==> procs == l.limits.max_procs && ((
            l.pending is OpenCgroup && told && l.limits.mem_kb is None) || (l.pending is CapMemory
                && over))
        }),
{
    lemma_can_follow(l, reply);
    lemma_caps_follow_the_cgroup(l, reply, launch_after(l, reply).pending);
}

proof fn lemma_caps_follow_the_cgroup(l: Launch, reply: Reply, n: Step)
    requires
        can_follow(l, reply, n),
    ensures
        ({
            let told = reply == Reply::Done;
            let over = told || reply == Reply::Failed;
            &&& n is CapMemory ==> l.pending is OpenCgroup && told && l.limits.mem_kb is Some
            &&& n matches Step::CapPids { n: procs } ==> procs == l.limits.max_procs && ((
            l.pending is OpenCgroup && told && l.limits.mem_kb is None) || (l.pending is CapMemory
                && over))
        }),
{
}

/// A capped cgroup is pinned, to the CPU that was asked for, before it is looked at.
pub proof fn law_pin_follows_the_caps(l: Launch, reply: Reply)
    requires
        launch_after(l, reply).pending != l.pending,
    ensures
        ({
            let n = launch_after(l, reply).pending;
            let told = reply == Reply::Done;
            &&& n matches Step::PinCpu { cpu } ==> l.limits.pin_cpu == Some(cpu) && l.cgroup && (
            l.pending is CapPids || l.pending == Step::Warn(Warning::NoCgroup))
            &&& n is InspectCgroup ==> l.cgroup && ((l.pending is PinCpu && told) || (
            l.pending == Step::Warn(Warning::PinFailed) && told) || (l.pending == Step::Warn(
                Warning::PinNeedsCgroup,
            ) && told) || ((l.pending is CapPids || l.pending == Step::Warn(Warning::NoCgroup))
                && l.limits.pin_cpu is None))
            &&& n is CheckArgs ==> (l.pending is InspectCgroup && reply is Files) || !l.cgroup
        }),
{
    lemma_can_follow(l, reply);
    lemma_pin_follows_the_caps(l, reply, launch_after(l, reply).pending);
}

proof fn lemma_pin_follows_the_caps(l: Launch, reply: Reply, n: Step)
    requires
        can_follow(l, reply, n),
    ensures
        ({
            let told = reply == Reply::Done;
            &&& n matches Step::PinCpu { cpu } ==> l.limits.pin_cpu == Some(cpu) && l.cgroup && (
            l.pending is CapPids || l.pending == Step::Warn(Warning::NoCgroup))
            &&& n is InspectCgroup ==> l.cgroup && ((l.pending is PinCpu && told) || (
            l.pending == Step::Warn(Warning::PinFailed) && told) || (l.pending == Step::Warn(
                Warning::PinNeedsCgroup,
            ) && told) || ((l.pending is CapPids || l.pending == Step::Warn(Warning::NoCgroup))
                && l.limits.pin_cpu is None))
            &&& n is CheckArgs ==> (l.pending is InspectCgroup && reply is Files) || !l.cgroup
        }),
{
}

/// The arguments are checked before the streams are opened, one after the other, and
/// the child is forked only when there is a pipe for it to wait on. It is told whether
/// the cgroup caps its memory, and to keep the filter open and nothing else.
pub proof fn law_fork_follows_the_streams(l: Launch, reply: Reply)
    requires
        launch_after(l, reply).pending != l.pending,
    ensures
        ({
            let n = launch_after(l, reply).pending;
            let told = reply == Reply::Done;
            &&& n == Step::OpenStream(Stream::Stdin) ==> l.pending is CheckArgs && told
            &&& n == Step::OpenStream(Stream::Stdout) ==> l.pending == Step::OpenStream(
                Stream::Stdin,
            ) && told
            &&& n == Step::OpenStream(Stream::Stderr) ==> l.pending == Step::OpenStream(
                Stream::Stdout,
            ) && told
            &&& n is MakePipe ==> l.pending == Step::OpenStream(Stream::Stderr) && told
            &&& n matches Step::Fork { cgroup_caps, keep } ==> {
                &&& l.pending is MakePipe && told
                &&& cgroup_caps == l.mem_cap
                &&& l.filter is Some ==> keep == l.filter->0
                &&& l.filter is None ==> keep == -1
            }
        }),
{
    lemma_can_follow(l, reply);
    lemma_fork_follows_the_streams(l, reply, launch_after(l, reply).pending);
}

proof fn lemma_fork_follows_the_streams(l: Launch, reply: Reply, n: Step)
    requires
        can_follow(l, reply, n),
    ensures
        ({
            let told = reply == Reply::Done;
            &&& n == Step::OpenStream(Stream::Stdin) ==> l.pending is CheckArgs && told
            &&& n == Step::OpenStream(Stream::Stdout) ==> l.pending == Step::OpenStream(
                Stream::Stdin,
            ) && told
            &&& n == Step::OpenStream(Stream::Stderr) ==> l.pending == Step::OpenStream(
                Stream::Stdout,
            ) && told
            &&& n is MakePipe ==> l.pending == Step::OpenStream(Stream::Stderr) && told
            &&& n matches Step::Fork { cgroup_caps, keep } ==> {
                &&& l.pending is MakePipe && told
                &&& cgroup_caps == l.mem_cap
                &&& l.filter is Some ==> keep == l.filter->0
                &&& l.filter is None ==> keep == -1
            }
        }),
{
}

/// A child is moved into its cgroup, where there is one, before the counter is opened
/// on it.
pub proof fn law_counter_follows_the_cgroup(l: Launch, reply: Reply)
    requires
        launch_after(l, reply).pending != l.pending,
    ensures
        ({
            let n = launch_after(l, reply).pending;
            let told = reply == Reply::Done;
            &&& n is Enroll ==> l.pending is Fork && told && l.cgroup
            &&& n is OpenCounter ==> told && ((l.pending is Fork && !l.cgroup) || l.pending is Enroll
                || l.pending == Step::Warn(Warning::NotEnrolled))
        }),
{
    lemma_can_follow(l, reply);
    lemma_counter_follows_the_cgroup(l, reply, launch_after(l, reply).pending);
}

proof fn lemma_counter_follows_the_cgroup(l: Launch, reply: Reply, n: Step)
    requires
        can_follow(l, reply, n),
    ensures
        ({
            let told = reply == Reply::Done;
            &&& n is Enroll ==> l.pending is Fork && told && l.cgroup
            &&& n is OpenCounter ==> told && ((l.pending is Fork && !l.cgroup) || l.pending is Enroll
                || l.pending == Step::Warn(Warning::NotEnrolled))
        }),
{
}

/// The program starts only once the counter was tried and all four extra counters,
/// where they are wanted, were asked for. Its address space is limited just where its
/// memory is limited and no cgroup that it is in caps it.
pub proof fn law_start_comes_last(l: Launch, reply: Reply)
    requires
        launch_after(l, reply).pending != l.pending,
    ensures
        ({
            let n = launch_after(l, reply).pending;
            let told = reply == Reply::Done;
            let over = told || reply == Reply::Failed;
            &&& n matches Step::OpenExtra { index } ==> if index == 0 {
                l.pending is OpenCounter && told && l.limits.extra_counters
            } else {
                l.pending == (Step::OpenExtra { index: (index - 1) as usize }) && over && index < 4
            }
            &&& n is Go ==> (l.pending is OpenCounter && told && !l.limits.extra_counters) || (
            l.pending matches Step::OpenExtra { index } && index >= 3 && over) || (l.pending
                == Step::Warn(Warning::NoCounter) && told)
            &&& n matches Step::Go { address_space } ==> {
                &&& address_space is Some <==> l.limits.mem_kb is Some && !(l.cgroup && l.mem_cap)
                &&& address_space matches Some(b) ==> b == l.limits.mem_kb->0 * 1024 || (b
                    == 0xffff_ffff_ffff_ffff && l.limits.mem_kb->0 * 1024 > 0xffff_ffff_ffff_ffff)
            }
        }),
{
    lemma_can_follow(l, reply);
    lemma_start_comes_last(l, reply, launch_after(l, reply).pending);
}

proof fn lemma_start_comes_last(l: Launch, reply: Reply, n: Step)
    requires
        can_follow(l, reply, n),
    ensures
        ({
            let told = reply == Reply::Done;
            let over = told || reply == Reply::Failed;
            &&& n matches Step::OpenExtra { index } ==> if index == 0 {
                l.pending is OpenCounter && told && l.limits.extra_counters
            } else {
                l.pending == (Step::OpenExtra { index: (index - 1) as usize }) && over && index < 4
            }
            &&& n is Go ==> (l.pending is OpenCounter && told && !l.limits.extra_counters) || (
            l.pending matches Step::OpenExtra { index } && index >= 3 && over) || (l.pending
                == Step::Warn(Warning::NoCounter) && told)
            &&& n matches Step::Go { address_space } ==> {
                &&& address_space is Some <==> l.limits.mem_kb is Some && !(l.cgroup && l.mem_cap)
                &&& address_space matches Some(b) ==> b == l.limits.mem_kb->0 * 1024 || (b
                    == 0xffff_ffff_ffff_ffff && l.limits.mem_kb->0 * 1024 > 0xffff_ffff_ffff_ffff)
            }
        }),
{
}

/// What a failed step leads to: what the run cannot do without, or was required,
/// refuses it under its own name, after a waiting child was killed; anything else is
/// warned of.
#[verifier::spinoff_prover]
#[verifier::rlimit(60)]
pub proof fn law_failures_are_answered(l: Launch)
    ensures
        ({
            let n = launch_after(l, Reply::Failed).pending;
            &&& l.pending is MakeFilter ==> n == Step::Failed(Failure::Filter)
            &&& l.pending is OpenCgroup && l.limits.require_cgroup ==> n == Step::Failed(
                Failure::CgroupRequired,
            )
            &&& l.pending is OpenCgroup && !l.limits.require_cgroup ==> n == Step::Warn(
                Warning::NoCgroup,
            )
            &&& l.pending is PinCpu ==> n == Step::Warn(Warning::PinFailed)
            &&& l.pending is CheckArgs ==> n == Step::Failed(Failure::ArgvNul)
            &&& l.pending == Step::OpenStream(Stream::Stdin) ==> n == Step::Failed(
                Failure::Stream(Stream::Stdin),
            )
            &&& l.pending == Step::OpenStream(Stream::Stdout) ==> n == Step::Failed(
                Failure::Stream(Stream::Stdout),
            )
            &&& l.pending == Step::OpenStream(Stream::Stderr) ==> n == Step::Failed(
                Failure::Stream(Stream::Stderr),
            )
            &&& l.pending is MakePipe ==> n == Step::Failed(Failure::Pipe)
            &&& l.pending is Fork ==> n == Step::Failed(Failure::Fork)
            &&& l.pending is Enroll && l.limits.require_cgroup ==> n == Step::Abort(
                Failure::EnrollRequired,
            )
            &&& l.pending is Enroll && !l.limits.require_cgroup ==> n == Step::Warn(
                Warning::NotEnrolled,
            )
            &&& l.pending is OpenCounter && l.limits.require_insn ==> n == Step::Abort(
                Failure::CounterRequired,
            )
            &&& l.pending is OpenCounter && !l.limits.require_insn ==> n == Step::Warn(
                Warning::NoCounter,
            )
            &&& l.pending is CapMemory ==> n is CapPids
            &&& l.pending is CapPids ==> !(n is CapPids) && (l.cgroup ==> !(n is Failed))
            &&& l.pending is OpenExtra ==> n is OpenExtra || n is Go
        }),
{
}

/// A run is refused or warned of in no other cases: for a required memory controller
/// that the cgroup does not have, for a /proc that cannot be mounted, and for a pin
/// without a cgroup.
#[verifier::spinoff_prover]
#[verifier::rlimit(60)]
pub proof fn law_refusals_and_warnings_have_their_steps(l: Launch, reply: Reply)
    requires
        launch_after(l, reply).pending != l.pending,
        reply != Reply::Failed,
    ensures
        ({
            let n = launch_after(l, reply).pending;
            &&& n matches Step::Failed(f) ==> l.pending == Step::Abort(f) || (f
                == Failure::MemoryRequired && l.limits.require_cgroup)
            &&& !(n is Abort)
            &&& n matches Step::Warn(w) ==> (w == Warning::NoFreshProc && l.pending is ProbeProc
                && reply == Reply::Probed(false)) || (w == Warning::PinNeedsCgroup && !l.cgroup
                && l.limits.pin_cpu is Some)
            &&& l.pending is InspectCgroup ==> (reply matches Reply::Files { peak, .. } ==> if
                l.limits.require_cgroup && !peak {
                n == Step::Failed(Failure::MemoryRequired)
            } else {
                n is CheckArgs
            })
        }),
{
    match l.pending {
        Step::MakeFilter => {},
        Step::ProbeProc => {},
        Step::Warn(w) => match w {
            Warning::NoFreshProc => {},
            Warning::NoCgroup => {},
            Warning::PinFailed => {},
            Warning::PinNeedsCgroup => {},
            Warning::NotEnrolled => {},
            Warning::NoCounter => {},
        },
        Step::OpenCgroup => {},
        Step::CapPids { .. } => {},
        Step::PinCpu { .. } => {},
        Step::InspectCgroup => {},
        Step::OpenStream(_) => {},
        Step::Fork { .. } => {},
        Step::OpenExtra { .. } => {},
        _ => {},
    }
}

/// A run starts with what it was asked for: one whose output or errors are to go to
/// /dev/stdout is refused; else the filter comes first where there is to be one, then
/// the question of /proc where it is open, and else the command line.
pub proof fn law_launch_starts_as_asked(spec: SandboxSpec, limits: Limits)
    ensures
        ({
            let l = launch_start(spec, limits);
            let taken = spec.stdout@ == "/dev/stdout"@ || spec.stderr@ == "/dev/stdout"@;
            let boxed = spec.box_dir is Some;
            let ask = boxed && spec.proc_mode == ProcMode::Auto;
            let fresh = boxed && spec.proc_mode == ProcMode::Fresh;
            &&& taken <==> l.pending == Step::Failed(Failure::StdoutReserved)
            &&& l.pending is Failed ==> taken
            &&& l.pending is MakeFilter <==> !taken && boxed && spec.seccomp
            &&& l.pending is ProbeProc <==> !taken && !(boxed && spec.seccomp) && ask
            &&& l.pending is BuildCommand <==> !taken && !(boxed && spec.seccomp) && !ask
            &&& l.pending matches Step::BuildCommand { filter, fresh_proc } ==> filter is None
                && fresh_proc == fresh
            &&& l.limits == limits && l.boxed == boxed && l.seccomp == spec.seccomp && l.proc_mode
                == spec.proc_mode
            &&& l.filter is None && !l.cgroup && !l.pinned && !l.counting && !l.mem_cap
                && !l.mem_peak && !l.cap_written
        }),
{
}

/// The watch over a run holds it to its own limits: its instructions where they are
/// counted, its CPU seconds in milliseconds, its wall time in nanoseconds; on one core
/// where it is pinned, else on all that are online.
pub proof fn law_watch_holds_the_limits(l: Launch, pidfd: bool, online: i64)
    ensures
        ({
            let s = watched(l, pidfd, online);
            &&& s.insn_limit == (if l.counting {
                l.limits.insn_limit
            } else {
                None
            })
            &&& s.cgroup == l.cgroup && s.pidfd == pidfd
            &&& l.limits.cpu_seconds * 1000 <= 0xffff_ffff_ffff_ffff ==> s.cpu_budget_ms
                == l.limits.cpu_seconds * 1000
            &&& l.limits.cpu_seconds * 1000 > 0xffff_ffff_ffff_ffff ==> s.cpu_budget_ms
                == 0xffff_ffff_ffff_ffff
            &&& s.wall == l.limits.wall_ms * 1_000_000
            &&& l.pinned ==> s.cores == 1
            &&& !l.pinned && online >= 1 ==> s.cores == online
            &&& !l.pinned && online < 1 ==> s.cores == 1
            &&& s.killed is None && s.pending == supervise::Watch::Reap
        }),
{
    supervise::law_watch_takes_its_limits(
        l.counting,
        l.limits.insn_limit,
        l.cgroup,
        pidfd,
        limits::cores_of(l.pinned, online),
        limits::capped_product(l.limits.cpu_seconds as nat, 1000),
        l.limits.wall_ms,
    );
}

/// A refusal is the caller's fault where what was asked for cannot be, the host's
/// where it lacks what was required, and else what the system reported; and it tells
/// the cause wherever there is one.
pub proof fn law_refusals_are_told(f: Failure, cause: Seq<char>)
    ensures
        kind_of(f) == FailureKind::InvalidInput <==> f == Failure::StdoutReserved || f
            == Failure::ArgvNul,
        kind_of(f) == FailureKind::Unsupported <==> f == Failure::MemoryRequired || f
            == Failure::CounterRequired,
        f == Failure::Filter || f == Failure::Pipe || f == Failure::Fork || f is Stream
            ==> failure_message(f, cause) == cause,
        f == Failure::CgroupRequired ==> failure_message(f, cause)
            == "cgroup accounting required but unavailable: "@ + cause,
        f == Failure::EnrollRequired ==> failure_message(f, cause)
            == "cgroup accounting required but enrollment failed: "@ + cause,
        f == Failure::CounterRequired ==> exists|hint: Seq<char>|
            failure_message(f, cause) == #[trigger] (
            "instruction counting required but perf_event_open failed: "@ + cause + hint),
        f == Failure::ArgvNul ==> failure_message(f, cause) == "argv contains NUL"@,
        f == Failure::StdoutReserved ==> failure_message(f, cause)
            == "/dev/stdout is reserved for tallyrun's JSON result; send the program's output to a file"@,
        f == Failure::MemoryRequired ==> failure_message(f, cause)
            == "cgroup accounting required but the memory controller is not delegated (peak RSS / memory cap would be per-process only)"@,
{
}

/// A warning says who warns, and tells its cause wherever there is one.
pub proof fn law_warnings_are_told(w: Warning, cause: Seq<char>)
    ensures
        ({
            let m = warning_message(w, cause);
            &&& w == Warning::NoCgroup ==> m == "tallyrun: warning: "@ + "no per-run cgroup ("@
                + cause
                + "); cpu_ms/peak_kb degrade to per-process rusage and the memory cap to RLIMIT_AS"@
            &&& w == Warning::PinFailed ==> m == "tallyrun: warning: "@ + "cpu pinning failed ("@
                + cause + "); running unpinned (needs the cpuset controller delegated)"@
            &&& w == Warning::NotEnrolled ==> m == "tallyrun: warning: "@
                + "cgroup enrollment failed ("@ + cause
                + "); accounting degrades to per-process rusage"@
            &&& w == Warning::NoCounter ==> m == "tallyrun: warning: "@
                + "perf_event_open failed ("@ + cause
                + "); instruction counting disabled, measurement degraded to CPU/wall time"@
            &&& w == Warning::PinNeedsCgroup ==> m == "tallyrun: warning: "@
                + "cpu pinning needs a cgroup; running unpinned"@
            &&& w == Warning::NoFreshProc || w == Warning::PinNeedsCgroup ==> m == warning_message(
                w,
                Seq::empty(),
            )
        }),
{
    reveal_strlit("");
    let p = "tallyrun: warning: "@ + "cpu pinning needs a cgroup; running unpinned"@;
    assert(p + ""@ + ""@ =~= p);
}

} // verus!
