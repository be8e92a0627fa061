# tallyrun

Runs one command in a rootless Linux sandbox, limits it by the CPU instructions
it retires, and reports it in one line of JSON.

    tallyrun run --box /tmp/box --insn-limit 10000000000 --wall-ms 5000 \
      --mem-kb 262144 --require-insn -- python3 main.py

## Layout

- `src/` is the library, verified with Verus. It holds the decisions of a run:
  what the command line asks for, the bubblewrap command, the seccomp program,
  the cgroup setup, the limits, the launch, the supervision and the result. It
  makes no system call. Where a decision hangs on what the system replies, it is
  a state machine that names the next action and is told what came of it.
- `app/` is the command: it performs those actions with `libc`.
- `tests/` runs the library on concrete values.

## What is proved

- Every public function has a contract that says what it returns.
- The seccomp program gives every call the verdict of its tables, whatever the
  architecture, number and argument (`seccomp::law_filter_verdict`).
- A run starts only with what was required of it, and a child that waits when
  the launch is given up is reaped (`launch::law_requirements_hold_at_start`,
  `launch::law_refused_child_is_reaped`).
- A run with a memory limit never starts without a cap on its memory or its
  address space (`launch::law_memory_is_capped`).
- Of the descriptors that were open, the program gets the standard ones and the
  filter's (`limits::law_only_standard_and_kept_stay`).
- A sleep above the floor of one millisecond is no longer than all cores need to
  spend what is left of a budget (`supervise::law_forking_cannot_outrun_the_read`,
  `supervise::law_cores_cannot_outrun_the_budget`). The supervisor sleeps at most
  a millisecond longer (`supervise::law_sleep_is_bounded`), so that a budget is
  exceeded by what the cores do in two milliseconds at most
  (`supervise::law_overshoot_is_bounded`).
- The result is one line, and a JSON object
  (`report::law_result_is_one_line`, `report::law_result_is_json`).
- Each kill comes with a reading over its limit
  (`supervise::law_every_kill_has_its_reading`).

What is taken from the C library without proof, numbers of the x86-64 Linux
interface and the macros that read a wait status, stands in `src/sys.rs`.
