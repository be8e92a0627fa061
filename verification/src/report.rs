//! The result of a run, and the line of JSON that reports it.

use crate::cgroup::CpuTimes;
use crate::limits::Limits;
use crate::perf::{extra_counter, CounterTimes, EXTRA_COUNTERS};
use crate::supervise::Kill;
use crate::sys::sigkill;
use crate::text::{decimal, same, signed_decimal};
use crate::{json, sys, text};
use vstd::prelude::*;
use vstd::string::*;

verus! {

/// One extra hardware counter's total over the process tree.
#[derive(Debug, Clone)]
pub struct Counter {
    pub name: &'static str,
    pub count: u64,
    /// time_running / time_enabled, as for `RunResult::instructions_running`,
    /// with six decimals.
    pub running: String,
}

/// Outcome of one measured execution.
#[derive(Debug, Clone)]
pub struct RunResult {
    pub exit_code: Option<i32>,
    pub signal: Option<i32>,
    /// The wall-clock timeout fired.
    pub timed_out: bool,
    /// Why tallyrun killed the process, if it did:
    /// "instructions" | "cpu" | "wall".
    pub killed: Option<&'static str>,
    /// Retired user-space instructions for the whole tree. `None` if perf
    /// couldn't open a counter (perf_event_paranoid too high, or no PMU).
    pub instructions: Option<u64>,
    pub cpu_ms: u64,
    pub wall_ms: u128,
    pub peak_kb: i64,
    /// Microsecond versions of `cpu_ms` (plus its user/system split) and
    /// `wall_ms`. Truncating to 1 ms is already a 5% error on a 20 ms run.
    pub cpu_us: u64,
    pub cpu_user_us: u64,
    pub cpu_sys_us: u64,
    pub wall_us: u128,
    /// Fraction of the run the instruction counter was on the PMU
    /// (time_running / time_enabled), with six decimals. Below 1.0 the kernel
    /// was sharing the PMU with other perf users and `instructions` is too
    /// low.
    pub instructions_running: Option<String>,
    /// Extra hardware counters, in `perf::EXTRA_COUNTERS` order; only those
    /// the PMU accepted. Empty unless `Limits::extra_counters`.
    pub counters: Vec<Counter>,
    /// Where cpu_ms/peak_kb came from: "cgroup" (whole tree), "cpu-only"
    /// (cgroup CPU, rusage memory), or "rusage" (one process, so multi-process
    /// runs are under-counted).
    pub accounting: &'static str,
}

/// A number, or null.
pub open spec fn opt_int(v: Option<i32>) -> Seq<char> {
    match v {
        Some(n) => text::int_text(n as int),
        None => "null"@,
    }
}

/// A number, or null.
pub open spec fn opt_count(v: Option<u64>) -> Seq<char> {
    match v {
        Some(n) => text::digits(n as nat),
        None => "null"@,
    }
}

/// A word in quotes, or null.
pub open spec fn opt_word(v: Option<&'static str>) -> Seq<char> {
    match v {
        Some(w) => "\""@ + w@ + "\""@,
        None => "null"@,
    }
}

/// A text as it is, or null.
pub open spec fn opt_text(v: Option<String>) -> Seq<char> {
    match v {
        Some(t) => t@,
        None => "null"@,
    }
}

pub open spec fn bool_text(b: bool) -> Seq<char> {
    if b {
        "true"@
    } else {
        "false"@
    }
}

/// `full` when instructions were counted. Redundant with a null
/// `instructions`, but harder to overlook: without perf, any verdict from the
/// run rests on load-dependent time.
pub open spec fn measurement(instructions: Option<u64>) -> Seq<char> {
    if instructions is Some {
        "full"@
    } else {
        "degraded"@
    }
}

/// One extra counter.
pub open spec fn counter_json(c: Counter) -> Seq<char> {
    "\""@ + c.name@ + "\":{\"count\":"@ + text::digits(c.count as nat) + ",\"running\":"@ + c.running@
        + "}"@
}

/// The extra counters, with commas between them.
pub open spec fn counter_items(cs: Seq<Counter>) -> Seq<char>
    decreases cs.len(),
{
    if cs.len() == 0 {
        ""@
    } else if cs.len() == 1 {
        counter_json(cs[0])
    } else {
        counter_items(cs.drop_last()) + ","@ + counter_json(cs.last())
    }
}

/// The extra counters as a field, which is left out where there are none.
pub open spec fn counters_json(cs: Seq<Counter>) -> Seq<char> {
    if cs.len() == 0 {
        ""@
    } else {
        ",\"counters\":{"@ + counter_items(cs) + "}"@
    }
}

/// The result as one object.
pub open spec fn json(r: RunResult) -> Seq<char> {
    "{\"exit_code\":"@ + opt_int(r.exit_code) + ",\"signal\":"@ + opt_int(r.signal)
        + ",\"timed_out\":"@ + bool_text(r.timed_out) + ",\"killed\":"@ + opt_word(r.killed)
        + ",\"instructions\":"@ + opt_count(r.instructions) + ",\"measurement\":\""@ + measurement(
        r.instructions,
    ) + "\",\"accounting\":\""@ + r.accounting@ + "\",\"cpu_ms\":"@ + text::digits(r.cpu_ms as nat)
        + ",\"wall_ms\":"@ + text::digits(r.wall_ms as nat) + ",\"peak_kb\":"@ + text::int_text(
        r.peak_kb as int,
    ) + ",\"cpu_us\":"@ + text::digits(r.cpu_us as nat) + ",\"cpu_user_us\":"@ + text::digits(
        r.cpu_user_us as nat,
    ) + ",\"cpu_sys_us\":"@ + text::digits(r.cpu_sys_us as nat) + ",\"wall_us\":"@ + text::digits(
        r.wall_us as nat,
    ) + ",\"instructions_running\":"@ + opt_text(r.instructions_running) + counters_json(
        r.counters@,
    ) + "}"@
}

fn opt_int_text(v: Option<i32>) -> (r: String)
    ensures
        r@ == opt_int(v),
{
    match v {
        Some(n) => signed_decimal(n as i64),
        None => "null".to_owned(),
    }
}

fn counter_text(c: &Counter) -> (r: String)
    ensures
        r@ == counter_json(*c),
{
    let mut s = "\"".to_owned();
    s.append(c.name);
    s.append("\":{\"count\":");
    s.append(decimal(c.count as u128).as_str());
    s.append(",\"running\":");
    s.append(c.running.as_str());
    s.append("}");
    s
}

fn counters_text(cs: &Vec<Counter>) -> (r: String)
    ensures
        r@ == counters_json(cs@),
{
    if cs.len() == 0 {
        return "".to_owned();
    }
    let mut items = counter_text(&cs[0]);
    let mut i: usize = 1;
    assert(cs@.take(1)[0] == cs@[0]);
    while i < cs.len()
        invariant
            1 <= i <= cs@.len(),
            items@ == counter_items(cs@.take(i as int)),
        decreases cs@.len() - i,
    {
        let next = counter_text(&cs[i]);
        items.append(",");
        items.append(next.as_str());
        i = i + 1;
        assert(cs@.take(i as int).drop_last() =~= cs@.take(i - 1));
        assert(cs@.take(i as int).last() == cs@[i - 1]);
    }
    assert(cs@.take(i as int) =~= cs@);
    let mut s = ",\"counters\":{".to_owned();
    s.append(items.as_str());
    s.append("}");
    s
}

impl RunResult {
    /// The JSON line that reports the run. Its fields are a stable contract:
    /// they are never renamed, removed or retyped, and new ones may be added.
    pub fn to_json(&self) -> (r: String)
        ensures
            r@ == json(*self),
            well_written(*self) ==> json::is_value(r@, 3),
    {
        proof {
            if well_written(*self) {
                law_result_is_json(*self);
            }
        }
        let mut s = "{\"exit_code\":".to_owned();
        s.append(opt_int_text(self.exit_code).as_str());
        s.append(",\"signal\":");
        s.append(opt_int_text(self.signal).as_str());
        s.append(",\"timed_out\":");
        s.append(
            if self.timed_out {
                "true"
            } else {
                "false"
            },
        );
        s.append(",\"killed\":");
        match self.killed {
            Some(w) => {
                let mut word = "\"".to_owned();
                word.append(w);
                word.append("\"");
                s.append(word.as_str());
            },
            None => {
                s.append("null");
            },
        }
        s.append(",\"instructions\":");
        match self.instructions {
            Some(n) => {
                s.append(decimal(n as u128).as_str());
            },
            None => {
                s.append("null");
            },
        }
        s.append(",\"measurement\":\"");
        s.append(
            if self.instructions.is_some() {
                "full"
            } else {
                "degraded"
            },
        );
        s.append("\",\"accounting\":\"");
        s.append(self.accounting);
        s.append("\",\"cpu_ms\":");
        s.append(decimal(self.cpu_ms as u128).as_str());
        s.append(",\"wall_ms\":");
        s.append(decimal(self.wall_ms).as_str());
        s.append(",\"peak_kb\":");
        s.append(signed_decimal(self.peak_kb).as_str());
        s.append(",\"cpu_us\":");
        s.append(decimal(self.cpu_us as u128).as_str());
        s.append(",\"cpu_user_us\":");
        s.append(decimal(self.cpu_user_us as u128).as_str());
        s.append(",\"cpu_sys_us\":");
        s.append(decimal(self.cpu_sys_us as u128).as_str());
        s.append(",\"wall_us\":");
        s.append(decimal(self.wall_us).as_str());
        s.append(",\"instructions_running\":");
        match &self.instructions_running {
            Some(t) => {
                s.append(t.as_str());
            },
            None => {
                s.append("null");
            },
        }
        s.append(counters_text(&self.counters).as_str());
        s.append("}");
        s
    }
}

/// Whether `s` stays on its line.
pub open spec fn one_line(s: Seq<char>) -> bool {
    forall|i: int| 0 <= i < s.len() ==> #[trigger] s[i] != '\n'
}

proof fn lemma_one_line_join(a: Seq<char>, b: Seq<char>)
    requires
        one_line(a),
        one_line(b),
    ensures
        one_line(a + b),
{
    let s = a + b;
    assert forall|i: int| 0 <= i < s.len() implies #[trigger] s[i] != '\n' by {
        if i < a.len() {
            assert(s[i] == a[i]);
        } else {
            assert(s[i] == b[i - a.len()]);
        }
    }
}

proof fn lemma_one_line_number(n: int)
    ensures
        one_line(text::int_text(n)),
        n >= 0 ==> one_line(text::digits(n as nat)),
{
    let m = (if n < 0 {
        -n
    } else {
        n
    }) as nat;
    text::law_decimal_reads_back(m);
    let d = text::digits(m);
    assert forall|i: int| 0 <= i < d.len() implies #[trigger] d[i] != '\n' by {
        assert(text::is_digit(d[i]));
    }
    lemma_one_line_join(seq!['-'], d);
}

/// The texts of the result that are not numbers stay on their lines.
pub open spec fn words_on_line(r: RunResult) -> bool {
    &&& r.killed matches Some(w) ==> one_line(w@)
    &&& one_line(r.accounting@)
    &&& r.instructions_running matches Some(t) ==> one_line(t@)
    &&& forall|i: int|
        0 <= i < r.counters@.len() ==> one_line((#[trigger] r.counters@[i]).name@) && one_line(
            r.counters@[i].running@,
        )
}

proof fn lemma_one_line_counters(cs: Seq<Counter>)
    requires
        forall|i: int|
            0 <= i < cs.len() ==> one_line((#[trigger] cs[i]).name@) && one_line(cs[i].running@),
    ensures
        one_line(counter_items(cs)),
    decreases cs.len(),
{
    reveal_strlit("");
    reveal_strlit("\"");
    reveal_strlit("\":{\"count\":");
    reveal_strlit(",\"running\":");
    reveal_strlit("}");
    reveal_strlit(",");
    if cs.len() > 0 {
        let c = cs.last();
        let n = text::digits(c.count as nat);
        lemma_one_line_number(c.count as int);
        lemma_one_line_join("\""@, c.name@);
        lemma_one_line_join("\""@ + c.name@, "\":{\"count\":"@);
        lemma_one_line_join("\""@ + c.name@ + "\":{\"count\":"@, n);
        let a = "\""@ + c.name@ + "\":{\"count\":"@ + n;
        lemma_one_line_join(a, ",\"running\":"@);
        lemma_one_line_join(a + ",\"running\":"@, c.running@);
        lemma_one_line_join(a + ",\"running\":"@ + c.running@, "}"@);
        assert(one_line(counter_json(c)));
        if cs.len() > 1 {
            let front = cs.drop_last();
            assert forall|i: int| 0 <= i < front.len() implies one_line((#[trigger] front[i]).name@)
                && one_line(front[i].running@) by {
                assert(front[i] == cs[i]);
            }
            lemma_one_line_counters(front);
            lemma_one_line_join(counter_items(front), ","@);
            lemma_one_line_join(counter_items(front) + ","@, counter_json(c));
        }
    }
}

/// The result is always a single line.
pub proof fn law_result_is_one_line(r: RunResult)
    requires
        words_on_line(r),
    ensures
        one_line(json(r)),
{
    reveal_strlit("null");
    reveal_strlit("\"");
    reveal_strlit("true");
    reveal_strlit("false");
    reveal_strlit("full");
    reveal_strlit("degraded");
    reveal_strlit("");
    reveal_strlit("}");
    reveal_strlit("{\"exit_code\":");
    reveal_strlit(",\"signal\":");
    reveal_strlit(",\"timed_out\":");
    reveal_strlit(",\"killed\":");
    reveal_strlit(",\"instructions\":");
    reveal_strlit(",\"measurement\":\"");
    reveal_strlit("\",\"accounting\":\"");
    reveal_strlit("\",\"cpu_ms\":");
    reveal_strlit(",\"wall_ms\":");
    reveal_strlit(",\"peak_kb\":");
    reveal_strlit(",\"cpu_us\":");
    reveal_strlit(",\"cpu_user_us\":");
    reveal_strlit(",\"cpu_sys_us\":");
    reveal_strlit(",\"wall_us\":");
    reveal_strlit(",\"instructions_running\":");
    reveal_strlit(",\"counters\":{");
    if let Some(n) = r.exit_code {
        lemma_one_line_number(n as int);
    }
    if let Some(n) = r.signal {
        lemma_one_line_number(n as int);
    }
    if let Some(n) = r.instructions {
        lemma_one_line_number(n as int);
    }
    if let Some(w) = r.killed {
        lemma_one_line_join("\""@, w@);
        lemma_one_line_join("\""@ + w@, "\""@);
    }
    lemma_one_line_number(r.cpu_ms as int);
    lemma_one_line_number(r.wall_ms as int);
    lemma_one_line_number(r.peak_kb as int);
    lemma_one_line_number(r.cpu_us as int);
    lemma_one_line_number(r.cpu_user_us as int);
    lemma_one_line_number(r.cpu_sys_us as int);
    lemma_one_line_number(r.wall_us as int);
    lemma_one_line_counters(r.counters@);
    lemma_one_line_join(",\"counters\":{"@, counter_items(r.counters@));
    lemma_one_line_join(",\"counters\":{"@ + counter_items(r.counters@), "}"@);
    let s = "{\"exit_code\":"@;
    let s = lemma_one_line_next(s, opt_int(r.exit_code), ",\"signal\":"@);
    let s = lemma_one_line_next(s, opt_int(r.signal), ",\"timed_out\":"@);
    let s = lemma_one_line_next(s, bool_text(r.timed_out), ",\"killed\":"@);
    let s = lemma_one_line_next(s, opt_word(r.killed), ",\"instructions\":"@);
    let s = lemma_one_line_next(s, opt_count(r.instructions), ",\"measurement\":\""@);
    let s = lemma_one_line_next(s, measurement(r.instructions), "\",\"accounting\":\""@);
    let s = lemma_one_line_next(s, r.accounting@, "\",\"cpu_ms\":"@);
    let s = lemma_one_line_next(s, text::digits(r.cpu_ms as nat), ",\"wall_ms\":"@);
    let s = lemma_one_line_next(s, text::digits(r.wall_ms as nat), ",\"peak_kb\":"@);
    let s = lemma_one_line_next(s, text::int_text(r.peak_kb as int), ",\"cpu_us\":"@);
    let s = lemma_one_line_next(s, text::digits(r.cpu_us as nat), ",\"cpu_user_us\":"@);
    let s = lemma_one_line_next(s, text::digits(r.cpu_user_us as nat), ",\"cpu_sys_us\":"@);
    let s = lemma_one_line_next(s, text::digits(r.cpu_sys_us as nat), ",\"wall_us\":"@);
    let s = lemma_one_line_next(
        s,
        text::digits(r.wall_us as nat),
        ",\"instructions_running\":"@,
    );
    let s = lemma_one_line_next(s, opt_text(r.instructions_running), counters_json(r.counters@));
    lemma_one_line_join(s, "}"@);
}

/// `s` with two more pieces.
proof fn lemma_one_line_next(s: Seq<char>, a: Seq<char>, b: Seq<char>) -> (t: Seq<char>)
    requires
        one_line(s),
        one_line(a),
        one_line(b),
    ensures
        t == s + a + b,
        one_line(t),
{
    lemma_one_line_join(s, a);
    lemma_one_line_join(s + a, b);
    s + a + b
}

/// The texts that are put into the result are what JSON takes them for: words
/// that stand for themselves between quotes, and numbers.
pub open spec fn well_written(r: RunResult) -> bool {
    &&& r.killed matches Some(w) ==> json::plain(w@)
    &&& json::plain(r.accounting@)
    &&& r.instructions_running matches Some(t) ==> json::is_six_decimals(t@)
    &&& forall|i: int|
        0 <= i < r.counters@.len() ==> json::plain((#[trigger] r.counters@[i]).name@)
            && json::is_six_decimals(r.counters@[i].running@)
}

/// An extra counter as the members of an object.
pub open spec fn counter_members(c: Counter) -> Seq<(Seq<char>, Seq<char>)> {
    seq![("count"@, text::digits(c.count as nat)), ("running"@, c.running@)]
}

/// The extra counters as the members of an object.
pub open spec fn counters_members(cs: Seq<Counter>) -> Seq<(Seq<char>, Seq<char>)> {
    cs.map_values(|c: Counter| (c.name@, json::object(counter_members(c))))
}

/// The result as the members of an object.
pub open spec fn members(r: RunResult) -> Seq<(Seq<char>, Seq<char>)> {
    let always = seq![
        ("exit_code"@, opt_int(r.exit_code)),
        ("signal"@, opt_int(r.signal)),
        ("timed_out"@, bool_text(r.timed_out)),
        ("killed"@, opt_word(r.killed)),
        ("instructions"@, opt_count(r.instructions)),
        ("measurement"@, json::quoted(measurement(r.instructions))),
        ("accounting"@, json::quoted(r.accounting@)),
        ("cpu_ms"@, text::digits(r.cpu_ms as nat)),
        ("wall_ms"@, text::digits(r.wall_ms as nat)),
        ("peak_kb"@, text::int_text(r.peak_kb as int)),
        ("cpu_us"@, text::digits(r.cpu_us as nat)),
        ("cpu_user_us"@, text::digits(r.cpu_user_us as nat)),
        ("cpu_sys_us"@, text::digits(r.cpu_sys_us as nat)),
        ("wall_us"@, text::digits(r.wall_us as nat)),
        ("instructions_running"@, opt_text(r.instructions_running)),
    ];
    if r.counters@.len() == 0 {
        always
    } else {
        always.push(("counters"@, json::object(counters_members(r.counters@))))
    }
}

/// What stands between a value and the next.
pub open spec fn sep(key: Seq<char>) -> Seq<char> {
    seq![','] + json::quoted(key) + seq![':']
}

proof fn lemma_separators()
    ensures
        ",\"signal\":"@ == sep("signal"@),
        ",\"timed_out\":"@ == sep("timed_out"@),
        ",\"killed\":"@ == sep("killed"@),
        ",\"instructions\":"@ == sep("instructions"@),
        ",\"wall_ms\":"@ == sep("wall_ms"@),
        ",\"peak_kb\":"@ == sep("peak_kb"@),
        ",\"cpu_us\":"@ == sep("cpu_us"@),
        ",\"cpu_user_us\":"@ == sep("cpu_user_us"@),
        ",\"cpu_sys_us\":"@ == sep("cpu_sys_us"@),
        ",\"wall_us\":"@ == sep("wall_us"@),
        ",\"instructions_running\":"@ == sep("instructions_running"@),
{
    reveal_strlit(",\"signal\":");
    reveal_strlit("signal");
    assert(",\"signal\":"@ =~= sep("signal"@));
    reveal_strlit(",\"timed_out\":");
    reveal_strlit("timed_out");
    assert(",\"timed_out\":"@ =~= sep("timed_out"@));
    reveal_strlit(",\"killed\":");
    reveal_strlit("killed");
    assert(",\"killed\":"@ =~= sep("killed"@));
    reveal_strlit(",\"instructions\":");
    reveal_strlit("instructions");
    assert(",\"instructions\":"@ =~= sep("instructions"@));
    reveal_strlit(",\"wall_ms\":");
    reveal_strlit("wall_ms");
    assert(",\"wall_ms\":"@ =~= sep("wall_ms"@));
    reveal_strlit(",\"peak_kb\":");
    reveal_strlit("peak_kb");
    assert(",\"peak_kb\":"@ =~= sep("peak_kb"@));
    reveal_strlit(",\"cpu_us\":");
    reveal_strlit("cpu_us");
    assert(",\"cpu_us\":"@ =~= sep("cpu_us"@));
    reveal_strlit(",\"cpu_user_us\":");
    reveal_strlit("cpu_user_us");
    assert(",\"cpu_user_us\":"@ =~= sep("cpu_user_us"@));
    reveal_strlit(",\"cpu_sys_us\":");
    reveal_strlit("cpu_sys_us");
    assert(",\"cpu_sys_us\":"@ =~= sep("cpu_sys_us"@));
    reveal_strlit(",\"wall_us\":");
    reveal_strlit("wall_us");
    assert(",\"wall_us\":"@ =~= sep("wall_us"@));
    reveal_strlit(",\"instructions_running\":");
    reveal_strlit("instructions_running");
    assert(",\"instructions_running\":"@ =~= sep("instructions_running"@));
}

proof fn lemma_quoted_separators(m: Seq<char>, a: Seq<char>)
    ensures
        ",\"measurement\":\""@ + m + "\",\"accounting\":\""@ + a + "\",\"cpu_ms\":"@ == sep(
            "measurement"@,
        ) + json::quoted(m) + sep("accounting"@) + json::quoted(a) + sep("cpu_ms"@),
{
    reveal_strlit(",\"measurement\":\"");
    reveal_strlit("\",\"accounting\":\"");
    reveal_strlit("\",\"cpu_ms\":");
    reveal_strlit("measurement");
    reveal_strlit("accounting");
    reveal_strlit("cpu_ms");
    assert(",\"measurement\":\""@ =~= sep("measurement"@) + seq!['"']);
    assert("\",\"accounting\":\""@ =~= seq!['"'] + sep("accounting"@) + seq!['"']);
    assert("\",\"cpu_ms\":"@ =~= seq!['"'] + sep("cpu_ms"@));
    assert(",\"measurement\":\""@ + m + "\",\"accounting\":\""@ + a + "\",\"cpu_ms\":"@ =~= sep(
        "measurement"@,
    ) + json::quoted(m) + sep("accounting"@) + json::quoted(a) + sep("cpu_ms"@));
}

proof fn lemma_counter_is_object(c: Counter)
    ensures
        counter_json(c) == json::member((c.name@, json::object(counter_members(c)))),
{
    reveal_strlit("\"");
    reveal_strlit("\":{\"count\":");
    reveal_strlit(",\"running\":");
    reveal_strlit("}");
    reveal_strlit("count");
    reveal_strlit("running");
    let ms = counter_members(c);
    let first = seq![ms[0]];
    json::lemma_next_member(first, ms[1]);
    assert(first.push(ms[1]) =~= ms);
    assert("\":{\"count\":"@ =~= seq!['"', ':', '{'] + json::quoted("count"@) + seq![':']);
    assert(",\"running\":"@ =~= sep("running"@));
    assert(counter_json(c) =~= json::member((c.name@, json::object(ms))));
}

proof fn lemma_counters_are_members(cs: Seq<Counter>)
    requires
        cs.len() > 0,
    ensures
        counter_items(cs) == json::members_text(counters_members(cs)),
    decreases cs.len(),
{
    let ms = counters_members(cs);
    lemma_counter_is_object(cs.last());
    if cs.len() > 1 {
        reveal_strlit(",");
        lemma_counters_are_members(cs.drop_last());
        assert(ms.drop_last() =~= counters_members(cs.drop_last()));
        assert(","@ =~= seq![',']);
    } else {
        assert(cs.last() == cs[0]);
    }
}

/// One more member on the way to the result.
proof fn lemma_grow(
    s: Seq<char>,
    ms: Seq<(Seq<char>, Seq<char>)>,
    key: Seq<char>,
    value: Seq<char>,
) -> (t: (Seq<char>, Seq<(Seq<char>, Seq<char>)>))
    requires
        ms.len() > 0,
        s == seq!['{'] + json::members_text(ms),
    ensures
        t.0 == s + sep(key) + value,
        t.1 == ms.push((key, value)),
        t.0 == seq!['{'] + json::members_text(t.1),
{
    let t = (s + sep(key) + value, ms.push((key, value)));
    json::lemma_next_member(ms, (key, value));
    assert(t.0 =~= seq!['{'] + json::members_text(t.1));
    t
}

proof fn lemma_first_member(v: Seq<char>)
    ensures
        "{\"exit_code\":"@ + v == seq!['{'] + json::members_text(seq![("exit_code"@, v)]),
{
    reveal_strlit("{\"exit_code\":");
    reveal_strlit("exit_code");
    assert("{\"exit_code\":"@ =~= seq!['{'] + json::quoted("exit_code"@) + seq![':']);
    assert("{\"exit_code\":"@ + v =~= seq!['{'] + json::members_text(seq![("exit_code"@, v)]));
}

proof fn lemma_words_between(s: Seq<char>, m: Seq<char>, a: Seq<char>)
    ensures
        s + ",\"measurement\":\""@ + m + "\",\"accounting\":\""@ + a + "\",\"cpu_ms\":"@ == s + sep(
            "measurement"@,
        ) + json::quoted(m) + sep("accounting"@) + json::quoted(a) + sep("cpu_ms"@),
{
    lemma_quoted_separators(m, a);
    let x = ",\"measurement\":\""@ + m + "\",\"accounting\":\""@ + a + "\",\"cpu_ms\":"@;
    assert(s + ",\"measurement\":\""@ + m + "\",\"accounting\":\""@ + a + "\",\"cpu_ms\":"@ =~= s
        + x);
    assert(s + sep("measurement"@) + json::quoted(m) + sep("accounting"@) + json::quoted(a) + sep(
        "cpu_ms"@,
    ) =~= s + x);
}

proof fn lemma_last_member(s: Seq<char>, cs: Seq<Counter>)
    ensures
        s + counters_json(cs) + "}"@ == (if cs.len() == 0 {
            s
        } else {
            s + sep("counters"@) + json::object(counters_members(cs))
        }) + seq!['}'],
{
    reveal_strlit("}");
    reveal_strlit("");
    reveal_strlit(",\"counters\":{");
    reveal_strlit("counters");
    assert("}"@ =~= seq!['}']);
    if cs.len() == 0 {
        assert(s + ""@ =~= s);
    } else {
        lemma_counters_are_members(cs);
        let o = json::object(counters_members(cs));
        assert(",\"counters\":{"@ =~= sep("counters"@) + seq!['{']);
        assert(counters_json(cs) =~= sep("counters"@) + o);
        assert(s + (sep("counters"@) + o) =~= s + sep("counters"@) + o);
    }
}

/// The result is the object of its members.
#[verifier::rlimit(40)]
proof fn lemma_result_is_object(r: RunResult)
    ensures
        json(r) == json::object(members(r)),
{
    let m = measurement(r.instructions);
    let a = r.accounting@;
    let first = seq![("exit_code"@, opt_int(r.exit_code))];
    lemma_first_member(opt_int(r.exit_code));
    let t = ("{\"exit_code\":"@ + opt_int(r.exit_code), first);
    let t = lemma_grow(t.0, t.1, "signal"@, opt_int(r.signal));
    let t = lemma_grow(t.0, t.1, "timed_out"@, bool_text(r.timed_out));
    let t = lemma_grow(t.0, t.1, "killed"@, opt_word(r.killed));
    let t = lemma_grow(t.0, t.1, "instructions"@, opt_count(r.instructions));
    lemma_words_between(t.0, m, a);
    let t = lemma_grow(t.0, t.1, "measurement"@, json::quoted(m));
    let t = lemma_grow(t.0, t.1, "accounting"@, json::quoted(a));
    let t = lemma_grow(t.0, t.1, "cpu_ms"@, text::digits(r.cpu_ms as nat));
    let t = lemma_grow(t.0, t.1, "wall_ms"@, text::digits(r.wall_ms as nat));
    let t = lemma_grow(t.0, t.1, "peak_kb"@, text::int_text(r.peak_kb as int));
    let t = lemma_grow(t.0, t.1, "cpu_us"@, text::digits(r.cpu_us as nat));
    let t = lemma_grow(t.0, t.1, "cpu_user_us"@, text::digits(r.cpu_user_us as nat));
    let t = lemma_grow(t.0, t.1, "cpu_sys_us"@, text::digits(r.cpu_sys_us as nat));
    let t = lemma_grow(t.0, t.1, "wall_us"@, text::digits(r.wall_us as nat));
    let t = lemma_grow(t.0, t.1, "instructions_running"@, opt_text(r.instructions_running));
    lemma_last_member(t.0, r.counters@);
    assert(json(r) == t.0 + counters_json(r.counters@) + "}"@) by {
        lemma_separators();
    }
    if r.counters@.len() == 0 {
        assert(t.1 =~= members(r));
    } else {
        let o = json::object(counters_members(r.counters@));
        let v = lemma_grow(t.0, t.1, "counters"@, o);
        assert(v.1 =~= members(r));
    }
}

proof fn lemma_names_are_plain()
    ensures
        json::plain("exit_code"@),
        json::plain("signal"@),
        json::plain("timed_out"@),
        json::plain("killed"@),
        json::plain("instructions"@),
        json::plain("measurement"@),
        json::plain("accounting"@),
        json::plain("cpu_ms"@),
        json::plain("wall_ms"@),
        json::plain("peak_kb"@),
        json::plain("cpu_us"@),
        json::plain("cpu_user_us"@),
        json::plain("cpu_sys_us"@),
        json::plain("wall_us"@),
        json::plain("instructions_running"@),
        json::plain("counters"@),
{
    reveal_strlit("exit_code");
    reveal_strlit("signal");
    reveal_strlit("timed_out");
    reveal_strlit("killed");
    reveal_strlit("instructions");
    reveal_strlit("measurement");
    reveal_strlit("accounting");
    reveal_strlit("cpu_ms");
    reveal_strlit("wall_ms");
    reveal_strlit("peak_kb");
    reveal_strlit("cpu_us");
    reveal_strlit("cpu_user_us");
    reveal_strlit("cpu_sys_us");
    reveal_strlit("wall_us");
    reveal_strlit("instructions_running");
    reveal_strlit("counters");
}

proof fn lemma_counter_value(c: Counter)
    requires
        json::is_six_decimals(c.running@),
    ensures
        json::is_value(json::object(counter_members(c)), 1),
{
    let ms = counter_members(c);
    reveal_strlit("count");
    reveal_strlit("running");
    json::lemma_number(c.count as int);
    assert(json::is_value(ms[0].1, 0));
    assert(json::is_value(ms[1].1, 0));
    assert forall|i: int| 0 <= i < ms.len() implies json::plain((#[trigger] ms[i]).0)
        && json::is_value(ms[i].1, 0) by {
        assert(i == 0 || i == 1);
    }
    assert(json::object(ms) == json::object(counter_members(c)));
}

proof fn lemma_counters_value(cs: Seq<Counter>)
    requires
        forall|i: int|
            0 <= i < cs.len() ==> json::plain((#[trigger] cs[i]).name@) && json::is_six_decimals(
                cs[i].running@,
            ),
    ensures
        json::is_value(json::object(counters_members(cs)), 2),
{
    let ms = counters_members(cs);
    assert forall|i: int| 0 <= i < ms.len() implies json::plain((#[trigger] ms[i]).0)
        && json::is_value(ms[i].1, 1) by {
        assert(ms[i] == (cs[i].name@, json::object(counter_members(cs[i]))));
        lemma_counter_value(cs[i]);
    }
    assert(json::object(ms) == json::object(counters_members(cs)));
}

proof fn lemma_opt_word(v: Option<&'static str>)
    requires
        v matches Some(w) ==> json::plain(w@),
    ensures
        json::is_scalar(opt_word(v)),
{
    if let Some(w) = v {
        reveal_strlit("\"");
        assert("\""@ =~= seq!['"']);
        json::lemma_string(w@);
        assert(opt_word(v) == json::quoted(w@));
    }
}

proof fn lemma_scalar_is_value(v: Seq<char>)
    requires
        json::is_scalar(v),
    ensures
        json::is_value(v, 2),
{
}

proof fn lemma_values(r: RunResult)
    requires
        well_written(r),
    ensures
        forall|i: int|
            0 <= i < members(r).len() ==> json::plain((#[trigger] members(r)[i]).0)
                && json::is_value(members(r)[i].1, 2),
{
    let ms = members(r);
    lemma_names_are_plain();
    if let Some(n) = r.exit_code {
        json::lemma_number(n as int);
    }
    if let Some(n) = r.signal {
        json::lemma_number(n as int);
    }
    if let Some(n) = r.instructions {
        json::lemma_number(n as int);
    }
    assert(json::plain(measurement(r.instructions))) by {
        reveal_strlit("full");
        reveal_strlit("degraded");
    }
    lemma_opt_word(r.killed);
    json::lemma_string(measurement(r.instructions));
    json::lemma_string(r.accounting@);
    json::lemma_number(r.cpu_ms as int);
    json::lemma_number(r.wall_ms as int);
    json::lemma_number(r.peak_kb as int);
    json::lemma_number(r.cpu_us as int);
    json::lemma_number(r.cpu_user_us as int);
    json::lemma_number(r.cpu_sys_us as int);
    json::lemma_number(r.wall_us as int);
    lemma_counters_value(r.counters@);
    assert forall|i: int| 0 <= i < ms.len() implies json::plain((#[trigger] ms[i]).0)
        && json::is_value(ms[i].1, 2) by {
        if i < 15 {
            assert(json::is_scalar(ms[i].1));
            lemma_scalar_is_value(ms[i].1);
        }
    }
}

/// A result whose texts are well written is a JSON object, and so are the extra
/// counters in it, and each of them: every value in them is a JSON value.
pub proof fn law_result_is_json(r: RunResult)
    requires
        well_written(r),
    ensures
        json(r) == json::object(members(r)),
        forall|i: int|
            0 <= i < members(r).len() ==> json::plain((#[trigger] members(r)[i]).0)
                && json::is_value(members(r)[i].1, 2),
        json::is_value(json(r), 3),
{
    lemma_result_is_object(r);
    lemma_values(r);
    assert(json::object(members(r)) == json(r));
}

/// What wait4 says of the resources that one process used.
#[derive(Debug, Clone, Copy, PartialEq, Eq, Structural)]
pub struct Rusage {
    pub user_sec: i64,
    pub user_usec: i64,
    pub system_sec: i64,
    pub system_usec: i64,
    pub maxrss: i64,
}

/// Seconds and microseconds in microseconds.
pub open spec fn micros(sec: i64, usec: i64) -> int {
    sec * 1_000_000 + usec
}

/// Whether the times are not negative, and their sum fits in 64 bits.
pub open spec fn plausible(ru: Rusage) -> bool {
    &&& ru.user_sec >= 0
    &&& ru.user_usec >= 0
    &&& ru.system_sec >= 0
    &&& ru.system_usec >= 0
    &&& micros(ru.user_sec, ru.user_usec) + micros(ru.system_sec, ru.system_usec) <= u64::MAX
}

/// Whether the times are not negative, and their sum fits in 64 bits.
pub fn is_plausible(ru: &Rusage) -> (r: bool)
    ensures
        r == plausible(*ru),
{
    ru.user_sec >= 0 && ru.user_usec >= 0 && ru.system_sec >= 0 && ru.system_usec >= 0 && (
    ru.user_sec as i128 * 1_000_000 + ru.user_usec as i128 + (ru.system_sec as i128 * 1_000_000
        + ru.system_usec as i128)) <= u64::MAX as i128
}

/// The CPU time of `ru`.
pub open spec fn rusage_cpu(ru: Rusage) -> CpuTimes {
    CpuTimes {
        total: (micros(ru.user_sec, ru.user_usec) + micros(ru.system_sec, ru.system_usec)) as u64,
        user: micros(ru.user_sec, ru.user_usec) as u64,
        system: micros(ru.system_sec, ru.system_usec) as u64,
    }
}

/// What one extra counter held at the end of the run.
#[derive(Debug, Clone)]
pub struct CounterRead {
    pub times: CounterTimes,
    /// The fraction of the time that it was running, with six decimals, where
    /// it was enabled.
    pub share: String,
}

/// What is known of a run when it is over.
pub struct Ending {
    pub status: i32,
    /// Why the supervisor killed it, if it did.
    pub killed: Option<Kill>,
    /// The instruction counter, where there is one that could be read.
    pub insns: Option<CounterTimes>,
    /// The fraction of the time that it was running, with six decimals, where
    /// it was enabled.
    pub insn_share: String,
    /// The extra counters, in the order of `EXTRA_COUNTERS`, where they were
    /// opened and could be read.
    pub reads: [Option<CounterRead>; 4],
    /// CPU time and peak memory of the cgroup, where it reports them.
    pub cg_cpu: Option<CpuTimes>,
    pub cg_peak: Option<i64>,
    pub rusage: Rusage,
    /// The duration in nanoseconds.
    pub elapsed: u128,
}

/// Why the run was killed, seen from its end. A kill by the PMU looks like any
/// other SIGKILL, so it is told by the count.
pub open spec fn attributed(limits: Limits, e: Ending) -> Option<Kill> {
    if e.killed is None && sys::signaled(e.status) && sys::signal_of(e.status) == 9
        && (e.insns matches Some(t) && limits.insn_limit matches Some(limit) && t.count > limit) {
        Some(Kill::Instructions)
    } else {
        e.killed
    }
}

/// The extra counters that could be read, under their names and in order. One
/// that was never enabled was never running.
pub open spec fn readable(reads: Seq<Option<CounterRead>>) -> Seq<(Seq<char>, u64, Seq<char>)>
    decreases reads.len(),
{
    if reads.len() == 0 {
        Seq::empty()
    } else {
        let front = readable(reads.drop_last());
        match reads.last() {
            Some(read) => front.push(
                (
                    EXTRA_COUNTERS@[reads.len() - 1].0@,
                    read.times.count,
                    if read.times.enabled > 0 {
                        read.share@
                    } else {
                        "0.000000"@
                    },
                ),
            ),
            None => front,
        }
    }
}

/// The extra counters to report: none where they were not asked for, or where
/// instructions were not counted.
pub open spec fn extras(limits: Limits, counting: bool, e: Ending) -> Seq<
    (Seq<char>, u64, Seq<char>),
> {
    if limits.extra_counters && counting {
        readable(e.reads@)
    } else {
        Seq::empty()
    }
}

/// Which of the extra counters could be read.
pub open spec fn places(reads: Seq<Option<CounterRead>>) -> Seq<int>
    decreases reads.len(),
{
    if reads.len() == 0 {
        Seq::empty()
    } else if reads.last() is Some {
        places(reads.drop_last()).push(reads.len() - 1)
    } else {
        places(reads.drop_last())
    }
}

/// The extra counters that are reported are just those that could be read, each
/// once, under their own names, in the order of `EXTRA_COUNTERS`.
pub proof fn law_counters_in_table_order(reads: Seq<Option<CounterRead>>)
    ensures
        readable(reads).len() == places(reads).len(),
        forall|k: int|
            0 <= k < places(reads).len() ==> {
                &&& 0 <= (#[trigger] places(reads)[k]) < reads.len()
                &&& reads[places(reads)[k]] is Some
                &&& readable(reads)[k].0 == EXTRA_COUNTERS@[places(reads)[k]].0@
                &&& readable(reads)[k].1 == reads[places(reads)[k]]->0.times.count
            },
        forall|j: int, k: int|
            0 <= j < k < places(reads).len() ==> #[trigger] places(reads)[j]
                < #[trigger] places(reads)[k],
        forall|i: int|
            0 <= i < reads.len() && (#[trigger] reads[i]) is Some ==> places(reads).contains(i),
    decreases reads.len(),
{
    if reads.len() > 0 {
        let front = reads.drop_last();
        law_counters_in_table_order(front);
        let p = places(reads);
        let q = places(front);
        assert forall|k: int| 0 <= k < p.len() implies {
            &&& 0 <= (#[trigger] p[k]) < reads.len()
            &&& reads[p[k]] is Some
            &&& readable(reads)[k].0 == EXTRA_COUNTERS@[p[k]].0@
            &&& readable(reads)[k].1 == reads[p[k]]->0.times.count
        } by {
            if k < q.len() {
                assert(p[k] == q[k]);
                assert(front[q[k]] == reads[q[k]]);
                assert(readable(reads)[k] == readable(front)[k]);
            }
        }
        assert forall|j: int, k: int| 0 <= j < k < p.len() implies #[trigger] p[j]
            < #[trigger] p[k] by {
            assert(p[j] == q[j]);
            if k < q.len() {
                assert(p[k] == q[k]);
            }
        }
        assert forall|i: int|
            0 <= i < reads.len() && (#[trigger] reads[i]) is Some implies p.contains(i) by {
            if i < front.len() {
                assert(front[i] == reads[i]);
                let k = choose|k: int| 0 <= k < q.len() && q[k] == i;
                assert(p[k] == i);
            } else {
                assert(p[p.len() - 1] == i);
            }
        }
    }
}

/// The extra counters of a result.
pub open spec fn counter_views(cs: Seq<Counter>) -> Seq<(Seq<char>, u64, Seq<char>)> {
    cs.map_values(|c: Counter| (c.name@, c.count, c.running@))
}

/// The source of cpu_ms and peak_kb.
pub open spec fn accounting_word(cpu: bool, peak: bool) -> Seq<char> {
    if cpu && peak {
        "cgroup"@
    } else if cpu {
        "cpu-only"@
    } else {
        "rusage"@
    }
}

/// The CPU time to report: the cgroup's, or else that of the process.
pub open spec fn reported_cpu(e: Ending) -> CpuTimes {
    match e.cg_cpu {
        Some(c) => c,
        None => rusage_cpu(e.rusage),
    }
}

/// The extra counters that could be read.
fn collect(reads: &[Option<CounterRead>; 4]) -> (r: Vec<Counter>)
    ensures
        counter_views(r@) == readable(reads@),
{
    let mut out: Vec<Counter> = Vec::new();
    let mut i: usize = 0;
    assert(counter_views(out@) =~= readable(reads@.take(0)));
    while i < 4
        invariant
            i <= 4,
            counter_views(out@) == readable(reads@.take(i as int)),
        decreases 4 - i,
    {
        let ghost before = out@;
        match &reads[i] {
            Some(read) => {
                let running = if read.times.enabled > 0 {
                    read.share.clone()
                } else {
                    "0.000000".to_owned()
                };
                let (name, _attr) = extra_counter(i);
                out.push(Counter { name, count: read.times.count, running });
            },
            None => {},
        }
        i = i + 1;
        proof {
            assert(reads@.take(i as int).drop_last() =~= reads@.take(i - 1));
            assert(reads@.take(i as int).last() == reads@[i - 1]);
            assert(counter_views(out@) =~= readable(reads@.take(i as int)));
        }
    }
    assert(reads@.take(i as int) =~= reads@);
    out
}

/// The fractions of the counters stay on their lines.
pub open spec fn shares_on_line(e: Ending) -> bool {
    &&& one_line(e.insn_share@)
    &&& forall|i: int|
        0 <= i < 4 ==> ((#[trigger] e.reads@[i]) matches Some(read) ==> one_line(read.share@))
}

proof fn lemma_readable_on_line(reads: Seq<Option<CounterRead>>)
    requires
        reads.len() <= 4,
        forall|i: int|
            0 <= i < reads.len() ==> ((#[trigger] reads[i]) matches Some(read) ==> one_line(
                read.share@,
            )),
    ensures
        forall|i: int|
            0 <= i < readable(reads).len() ==> one_line((#[trigger] readable(reads)[i]).0)
                && one_line(readable(reads)[i].2),
    decreases reads.len(),
{
    reveal_strlit("0.000000");
    reveal_strlit("l1d_read_misses");
    reveal_strlit("cache_misses");
    reveal_strlit("dtlb_read_misses");
    reveal_strlit("branch_misses");
    if reads.len() > 0 {
        let front = reads.drop_last();
        assert forall|i: int| 0 <= i < front.len() implies ((#[trigger] front[i]) matches Some(read)
            ==> one_line(read.share@)) by {
            assert(front[i] == reads[i]);
        }
        lemma_readable_on_line(front);
        assert(reads[reads.len() - 1] == reads.last());
        let all = readable(reads);
        assert forall|i: int| 0 <= i < all.len() implies one_line((#[trigger] all[i]).0)
            && one_line(all[i].2) by {
            if i < readable(front).len() {
                assert(all[i] == readable(front)[i]);
            } else {
                let n = reads.len() - 1;
                assert(n == 0 || n == 1 || n == 2 || n == 3);
                assert(one_line(EXTRA_COUNTERS@[n].0@));
            }
        }
    }
}

/// The fractions of the counters, where there are any, are numbers with six
/// decimals.
pub open spec fn shares_are_numbers(e: Ending) -> bool {
    &&& e.insns matches Some(t) ==> t.enabled > 0 ==> json::is_six_decimals(e.insn_share@)
    &&& forall|i: int|
        0 <= i < 4 ==> ((#[trigger] e.reads@[i]) matches Some(read) ==> read.times.enabled > 0
            ==> json::is_six_decimals(read.share@))
}

proof fn lemma_readable_are_numbers(reads: Seq<Option<CounterRead>>)
    requires
        reads.len() <= 4,
        forall|i: int|
            0 <= i < reads.len() ==> ((#[trigger] reads[i]) matches Some(read)
                ==> read.times.enabled > 0 ==> json::is_six_decimals(read.share@)),
    ensures
        forall|i: int|
            0 <= i < readable(reads).len() ==> json::plain((#[trigger] readable(reads)[i]).0)
                && json::is_six_decimals(readable(reads)[i].2),
    decreases reads.len(),
{
    if reads.len() > 0 {
        let front = reads.drop_last();
        assert forall|i: int| 0 <= i < front.len() implies ((#[trigger] front[i]) matches Some(read)
            ==> read.times.enabled > 0 ==> json::is_six_decimals(read.share@)) by {
            assert(front[i] == reads[i]);
        }
        lemma_readable_are_numbers(front);
        lemma_no_share();
        assert(reads[reads.len() - 1] == reads.last());
        let all = readable(reads);
        assert forall|i: int| 0 <= i < all.len() implies json::plain((#[trigger] all[i]).0)
            && json::is_six_decimals(all[i].2) by {
            if i < readable(front).len() {
                assert(all[i] == readable(front)[i]);
            } else {
                lemma_counter_name_is_plain(reads.len() - 1);
            }
        }
    }
}

proof fn lemma_no_share()
    ensures
        json::is_six_decimals("0.000000"@),
{
    reveal_strlit("0.000000");
    let s = "0.000000"@;
    assert(s.take(1) =~= seq!['0']);
    assert(s.skip(2) =~= seq!['0', '0', '0', '0', '0', '0']);
}

proof fn lemma_counter_name_is_plain(i: int)
    requires
        0 <= i < 4,
    ensures
        json::plain(EXTRA_COUNTERS@[i].0@),
{
    reveal_strlit("l1d_read_misses");
    reveal_strlit("cache_misses");
    reveal_strlit("dtlb_read_misses");
    reveal_strlit("branch_misses");
    assert(i == 0 || i == 1 || i == 2 || i == 3);
}

/// Whether `r` is what is reported of a run with these limits that ended as `e`
/// says. `counting` says whether the instruction counter was opened.
pub open spec fn reports(limits: Limits, counting: bool, e: Ending, r: RunResult) -> bool {
    &&& r.exit_code == (if sys::exited(e.status) {
        Some(sys::exit_code_of(e.status))
    } else {
        None
    })
    &&& r.signal == (if sys::signaled(e.status) {
        Some(sys::signal_of(e.status))
    } else {
        None
    })
    &&& r.timed_out == (e.killed == Some(Kill::Wall))
    &&& match attributed(limits, e) {
        Some(k) => r.killed matches Some(w) && w@ == k.word(),
        None => r.killed is None,
    }
    &&& r.instructions == (match e.insns {
        Some(t) => Some(t.count),
        None => None,
    })
    &&& r.cpu_ms == reported_cpu(e).total / 1000
    &&& r.wall_ms == e.elapsed / 1_000_000
    &&& r.peak_kb == (if e.cg_cpu is Some && e.cg_peak is Some {
        e.cg_peak->0
    } else {
        e.rusage.maxrss
    })
    &&& r.cpu_us == reported_cpu(e).total
    &&& r.cpu_user_us == reported_cpu(e).user
    &&& r.cpu_sys_us == reported_cpu(e).system
    &&& r.wall_us == e.elapsed / 1_000
    &&& r.instructions_running is Some == (e.insns matches Some(t) && t.enabled > 0)
    &&& r.instructions_running matches Some(s) ==> s@ == e.insn_share@
    &&& counter_views(r.counters@) == extras(limits, counting, e)
    &&& r.accounting@ == accounting_word(e.cg_cpu is Some, e.cg_peak is Some)
}

/// The result of a run that is over.
pub fn finish(limits: &Limits, counting: bool, e: &Ending) -> (r: RunResult)
    requires
        plausible(e.rusage),
    ensures
        reports(*limits, counting, *e, r),
        // A run ends in one way only, and times agree with each other.
        r.exit_code is None || r.signal is None,
        r.timed_out ==> (r.killed matches Some(w) && w@ == "wall"@),
        r.cpu_ms == r.cpu_us / 1000,
        r.wall_ms == r.wall_us / 1000,
        e.cg_cpu is None ==> r.cpu_us == r.cpu_user_us + r.cpu_sys_us,
        // What accounting names is where the peak comes from.
        r.accounting@ != "cgroup"@ ==> r.peak_kb == e.rusage.maxrss,
        r.accounting@ == "cgroup"@ ==> e.cg_peak == Some(r.peak_kb),
        shares_on_line(*e) ==> one_line(json(r)),
        shares_are_numbers(*e) ==> well_written(r),
{
    let exit_code: Option<i32> = if libc::WIFEXITED(e.status) {
        Some(libc::WEXITSTATUS(e.status))
    } else {
        None
    };
    let by_signal: bool = libc::WIFSIGNALED(e.status);
    let signal: Option<i32> = if by_signal {
        Some(libc::WTERMSIG(e.status))
    } else {
        None
    };
    let over: bool = match (e.insns, limits.insn_limit) {
        (Some(t), Some(limit)) => t.count > limit,
        _ => false,
    };
    let killed: Option<Kill> = if e.killed.is_none() && by_signal && libc::WTERMSIG(e.status)
        == sigkill() && over {
        Some(Kill::Instructions)
    } else {
        e.killed
    };
    let cpu: CpuTimes = match e.cg_cpu {
        Some(c) => c,
        None => {
            let ru = &e.rusage;
            let user: u64 = ru.user_sec as u64 * 1_000_000 + ru.user_usec as u64;
            let system: u64 = ru.system_sec as u64 * 1_000_000 + ru.system_usec as u64;
            CpuTimes { total: user + system, user, system }
        },
    };
    // The peak is the cgroup's only where the accounting says so.
    let (accounting, peak_kb): (&'static str, i64) = match (e.cg_cpu, e.cg_peak) {
        (Some(_), Some(kb)) => ("cgroup", kb),
        (Some(_), None) => ("cpu-only", e.rusage.maxrss),
        (None, _) => ("rusage", e.rusage.maxrss),
    };
    let counters: Vec<Counter> = if limits.extra_counters && counting {
        collect(&e.reads)
    } else {
        Vec::new()
    };
    assert(counter_views(counters@) =~= extras(*limits, counting, *e));
    let r = RunResult {
        exit_code,
        signal,
        timed_out: match e.killed {
            Some(Kill::Wall) => true,
            _ => false,
        },
        killed: match killed {
            Some(k) => Some(k.name()),
            None => None,
        },
        instructions: match e.insns {
            Some(t) => Some(t.count),
            None => None,
        },
        cpu_ms: cpu.total / 1000,
        wall_ms: e.elapsed / 1_000_000,
        peak_kb,
        cpu_us: cpu.total,
        cpu_user_us: cpu.user,
        cpu_sys_us: cpu.system,
        wall_us: e.elapsed / 1_000,
        instructions_running: match e.insns {
            Some(t) => if t.enabled > 0 {
                Some(e.insn_share.clone())
            } else {
                None
            },
            None => None,
        },
        counters,
        accounting,
    };
    proof {
        law_accounting_names_the_source(*limits, counting, *e, r);
        if shares_on_line(*e) {
            reveal_strlit("instructions");
            reveal_strlit("cpu");
            reveal_strlit("wall");
            reveal_strlit("cgroup");
            reveal_strlit("cpu-only");
            reveal_strlit("rusage");
            lemma_readable_on_line(e.reads@);
            assert forall|i: int| 0 <= i < r.counters@.len() implies one_line(
                (#[trigger] r.counters@[i]).name@,
            ) && one_line(r.counters@[i].running@) by {
                assert(counter_views(r.counters@)[i] == extras(*limits, counting, *e)[i]);
            }
            law_result_is_one_line(r);
        }
        if shares_are_numbers(*e) {
            lemma_words_are_plain();
            lemma_readable_are_numbers(e.reads@);
            assert forall|i: int| 0 <= i < r.counters@.len() implies json::plain(
                (#[trigger] r.counters@[i]).name@,
            ) && json::is_six_decimals(r.counters@[i].running@) by {
                assert(counter_views(r.counters@)[i] == extras(*limits, counting, *e)[i]);
            }
        }
    }
    r
}

proof fn lemma_words_are_plain()
    ensures
        json::plain("instructions"@),
        json::plain("cpu"@),
        json::plain("wall"@),
        json::plain("cgroup"@),
        json::plain("cpu-only"@),
        json::plain("rusage"@),
{
    reveal_strlit("instructions");
    reveal_strlit("cpu");
    reveal_strlit("wall");
    reveal_strlit("cgroup");
    reveal_strlit("cpu-only");
    reveal_strlit("rusage");
}

/// What a run was required to report, and does not.
#[derive(Debug, Clone, Copy, PartialEq, Eq, Structural)]
pub enum Shortfall {
    /// Its instructions.
    Instructions,
    /// The CPU time and the memory of its whole tree.
    Accounting,
}

impl Shortfall {
    /// What to say of it.
    pub open spec fn message(self) -> Seq<char> {
        match self {
            Shortfall::Instructions =>
                "instruction counting required but the counter could not be read"@,
            Shortfall::Accounting => "cgroup accounting required but the cgroup could not be read"@,
        }
    }

    /// What to say of it.
    pub fn text(self) -> (r: &'static str)
        ensures
            r@ == self.message(),
    {
        match self {
            Shortfall::Instructions => {
                "instruction counting required but the counter could not be read"
            },
            Shortfall::Accounting => "cgroup accounting required but the cgroup could not be read",
        }
    }
}

/// What a run with these limits was required to report, and `r` does not. A
/// result that leaves nothing out is measured in full where that is required,
/// and accounted for by the cgroup where that is.
pub fn shortfall(limits: &Limits, r: &RunResult) -> (s: Option<Shortfall>)
    ensures
        s == (if limits.require_insn && r.instructions is None {
            Some(Shortfall::Instructions)
        } else if limits.require_cgroup && r.accounting@ != "cgroup"@ {
            Some(Shortfall::Accounting)
        } else {
            None
        }),
        s is None && limits.require_insn ==> measurement(r.instructions) == "full"@,
        s is None && limits.require_cgroup ==> r.accounting@ == "cgroup"@,
{
    if limits.require_insn && r.instructions.is_none() {
        Some(Shortfall::Instructions)
    } else if limits.require_cgroup && !same(r.accounting, "cgroup") {
        Some(Shortfall::Accounting)
    } else {
        None
    }
}

/// An exit is reported with its code, and a death by a signal with that signal,
/// whether or not the process dumped core.
pub proof fn law_end_is_told(limits: Limits, counting: bool, e: Ending, r: RunResult, n: i32)
    requires
        reports(limits, counting, e, r),
    ensures
        0 <= n <= 255 && e.status == n * 256 ==> r.exit_code == Some(n) && r.signal is None,
        0 < n < 127 && (e.status == n || e.status == n + 128) ==> r.signal == Some(n)
            && r.exit_code is None,
{
    let s = e.status;
    assert(0 <= n <= 255 && s == n * 256 ==> s & 0x7f == 0 && (s >> 8) & 0xff == n)
        by (bit_vector);
    assert(0 < n < 127 && (s == n || s == n + 128) ==> s & 0x7f == n) by (bit_vector);
}

/// A run that the supervisor killed is reported with the word for its reason. One
/// that it did not kill is reported as killed just where SIGKILL ended it and its
/// instructions are over their limit. Timed out is what the clock killed, and
/// nothing else.
pub proof fn law_kill_is_told(limits: Limits, counting: bool, e: Ending, r: RunResult)
    requires
        reports(limits, counting, e, r),
    ensures
        e.killed == Some(Kill::Instructions) ==> r.killed is Some && r.killed->0@
            == "instructions"@,
        e.killed == Some(Kill::Cpu) ==> r.killed is Some && r.killed->0@ == "cpu"@,
        e.killed == Some(Kill::Wall) ==> r.killed is Some && r.killed->0@ == "wall"@,
        e.killed is None && r.killed is Some ==> r.killed->0@ == "instructions"@ && r.signal
            == Some(9i32) && r.instructions is Some && limits.insn_limit is Some
            && r.instructions->0 > limits.insn_limit->0,
        e.killed is None && r.signal == Some(9i32) && r.instructions is Some
            && limits.insn_limit is Some && r.instructions->0 > limits.insn_limit->0
            ==> r.killed is Some,
        r.timed_out <==> r.killed is Some && r.killed->0@ == "wall"@,
{
    reveal_strlit("instructions");
    reveal_strlit("cpu");
    reveal_strlit("wall");
    assert("instructions"@.len() == 12);
    assert("cpu"@.len() == 3);
    assert("wall"@.len() == 4);
}

/// The instructions are those of the counter, with the fraction of the time that it
/// ran unless it was never enabled.
pub proof fn law_instructions_are_the_counter(
    limits: Limits,
    counting: bool,
    e: Ending,
    r: RunResult,
)
    requires
        reports(limits, counting, e, r),
    ensures
        e.insns is Some <==> r.instructions is Some,
        e.insns is Some ==> r.instructions->0 == e.insns->0.count,
        e.insns is None ==> r.instructions_running is None,
        e.insns is Some && e.insns->0.enabled == 0 ==> r.instructions_running is None,
        e.insns is Some && e.insns->0.enabled != 0 ==> r.instructions_running is Some
            && r.instructions_running->0@ == e.insn_share@,
{
}

/// The accounting word names the source of every number: with "cgroup" both the
/// CPU time and the peak are the cgroup's, with "cpu-only" the CPU time is its own
/// and the peak that of the process, and with "rusage" both are those of the
/// process. It is "cgroup" just where the cgroup reports both, and "rusage" just
/// where it reports no CPU time.
pub proof fn law_accounting_names_the_source(
    limits: Limits,
    counting: bool,
    e: Ending,
    r: RunResult,
)
    requires
        plausible(e.rusage),
        reports(limits, counting, e, r),
    ensures
        r.accounting@ == "cgroup"@ || r.accounting@ == "cpu-only"@ || r.accounting@ == "rusage"@,
        r.accounting@ == "cgroup"@ ==> e.cg_peak == Some(r.peak_kb),
        r.accounting@ != "cgroup"@ ==> r.peak_kb == e.rusage.maxrss,
        r.accounting@ != "rusage"@ ==> e.cg_cpu == Some(
            CpuTimes { total: r.cpu_us, user: r.cpu_user_us, system: r.cpu_sys_us },
        ),
        r.accounting@ == "rusage"@ ==> {
            &&& r.cpu_user_us == e.rusage.user_sec * 1_000_000 + e.rusage.user_usec
            &&& r.cpu_sys_us == e.rusage.system_sec * 1_000_000 + e.rusage.system_usec
            &&& r.cpu_us == r.cpu_user_us + r.cpu_sys_us
        },
        r.accounting@ == "cgroup"@ <==> e.cg_cpu is Some && e.cg_peak is Some,
        r.accounting@ == "rusage"@ <==> e.cg_cpu is None,
{
    reveal_strlit("cgroup");
    reveal_strlit("cpu-only");
    reveal_strlit("rusage");
    assert("cgroup"@.len() == 6);
    assert("cpu-only"@.len() == 8);
    assert("cgroup"@[0] != "rusage"@[0]);
    assert("rusage"@.len() == 6);
}

/// Where the cgroup reports both, what wait4 says of the one process changes
/// nothing: two runs that differ in that alone are reported alike.
pub proof fn law_cgroup_readings_decide(
    limits: Limits,
    counting: bool,
    e: Ending,
    rusage: Rusage,
    r: RunResult,
    t: RunResult,
)
    requires
        e.cg_cpu is Some,
        reports(limits, counting, e, r),
        reports(limits, counting, Ending { rusage, ..e }, t),
    ensures
        e.cg_peak is Some ==> r.peak_kb == t.peak_kb,
        e.cg_peak is None ==> r.peak_kb == e.rusage.maxrss && t.peak_kb == rusage.maxrss,
        r.cpu_us == t.cpu_us,
        r.cpu_user_us == t.cpu_user_us,
        r.cpu_sys_us == t.cpu_sys_us,
        r.cpu_ms == t.cpu_ms,
        r.accounting@ == t.accounting@,
        r.exit_code == t.exit_code && r.signal == t.signal && r.timed_out == t.timed_out,
        r.instructions == t.instructions && r.wall_ms == t.wall_ms && r.wall_us == t.wall_us,
{
}

/// Every time is a whole number of its unit, as many as fit.
pub proof fn law_times_are_whole_units(limits: Limits, counting: bool, e: Ending, r: RunResult)
    requires
        reports(limits, counting, e, r),
    ensures
        r.wall_us * 1_000 <= e.elapsed < r.wall_us * 1_000 + 1_000,
        r.wall_ms * 1_000_000 <= e.elapsed < r.wall_ms * 1_000_000 + 1_000_000,
        r.cpu_ms * 1_000 <= r.cpu_us < r.cpu_ms * 1_000 + 1_000,
{
}

/// Extra counters are reported where they were asked for and instructions were
/// counted: each that could be read, and none else, with its count and the fraction
/// of the time that it ran.
pub proof fn law_extras_are_told(
    limits: Limits,
    counting: bool,
    e: Ending,
    r: RunResult,
    i: int,
)
    requires
        reports(limits, counting, e, r),
        0 <= i < 4,
    ensures
        !limits.extra_counters || !counting ==> r.counters@.len() == 0,
        limits.extra_counters && counting && e.reads@[i] is Some ==> exists|k: int|
            0 <= k < r.counters@.len() && k <= i && {
                let c = #[trigger] r.counters@[k];
                let read = e.reads@[i]->0;
                &&& c.name@ == (if i == 0 {
                    "l1d_read_misses"@
                } else if i == 1 {
                    "cache_misses"@
                } else if i == 2 {
                    "dtlb_read_misses"@
                } else {
                    "branch_misses"@
                })
                &&& c.count == read.times.count
                &&& read.times.enabled > 0 ==> c.running@ == read.share@
                &&& read.times.enabled == 0 ==> c.running@ == "0.000000"@
            },
        limits.extra_counters && counting && (forall|j: int|
            0 <= j < 4 ==> (#[trigger] e.reads@[j]) is Some) ==> r.counters@.len() == 4,
        limits.extra_counters && counting && (forall|j: int|
            0 <= j < 4 ==> (#[trigger] e.reads@[j]) is None) ==> r.counters@.len() == 0,
        r.counters@.len() <= 4,
{
    let cs = counter_views(r.counters@);
    assert(cs.len() == r.counters@.len());
    if limits.extra_counters && counting {
        lemma_readable_counts(e.reads@);
        if e.reads@[i] is Some {
            let k = lemma_read_is_told(e.reads@, i);
            assert(cs[k] == readable(e.reads@)[k]);
            assert(cs[k] == (r.counters@[k].name@, r.counters@[k].count, r.counters@[k].running@));
        }
    }
}

proof fn lemma_readable_counts(reads: Seq<Option<CounterRead>>)
    ensures
        readable(reads).len() <= reads.len(),
        (forall|j: int| 0 <= j < reads.len() ==> (#[trigger] reads[j]) is Some) ==> readable(
            reads,
        ).len() == reads.len(),
        (forall|j: int| 0 <= j < reads.len() ==> (#[trigger] reads[j]) is None) ==> readable(
            reads,
        ).len() == 0,
    decreases reads.len(),
{
    if reads.len() > 0 {
        let front = reads.drop_last();
        lemma_readable_counts(front);
        assert(reads[reads.len() - 1] == reads.last());
        assert(forall|j: int| 0 <= j < front.len() ==> #[trigger] front[j] == reads[j]);
    }
}

proof fn lemma_read_is_told(reads: Seq<Option<CounterRead>>, i: int) -> (k: int)
    requires
        0 <= i < reads.len(),
        reads[i] is Some,
    ensures
        0 <= k < readable(reads).len(),
        k <= i,
        readable(reads)[k] == (
            EXTRA_COUNTERS@[i].0@,
            reads[i]->0.times.count,
            if reads[i]->0.times.enabled > 0 {
                reads[i]->0.share@
            } else {
                "0.000000"@
            },
        ),
    decreases reads.len(),
{
    let front = reads.drop_last();
    lemma_readable_counts(front);
    if i == front.len() {
        readable(front).len() as int
    } else {
        assert(front[i] == reads[i]);
        lemma_read_is_told(front, i)
    }
}

/// Whether the text of an object says `"name":value`.
pub open spec fn says(s: Seq<char>, name: Seq<char>, value: Seq<char>) -> bool {
    exists|before: Seq<char>, after: Seq<char>| #[trigger]
        said(before, name, value, after) == s && after.len() > 0 && (after[0] == ',' || after[0]
            == '}')
}

/// `"name":value` between two texts.
pub open spec fn said(
    before: Seq<char>,
    name: Seq<char>,
    value: Seq<char>,
    after: Seq<char>,
) -> Seq<char> {
    before + seq!['"'] + name + seq!['"', ':'] + value + after
}

proof fn lemma_object_says(ms: Seq<(Seq<char>, Seq<char>)>, i: int)
    requires
        0 <= i < ms.len(),
    ensures
        says(json::object(ms), ms[i].0, ms[i].1),
{
    let (before, after) = lemma_members_say(ms, i);
    assert(json::object(ms) =~= said(
        seq!['{'] + before,
        ms[i].0,
        ms[i].1,
        after + seq!['}'],
    ));
}

proof fn lemma_members_say(ms: Seq<(Seq<char>, Seq<char>)>, i: int) -> (t: (Seq<char>, Seq<char>))
    requires
        0 <= i < ms.len(),
    ensures
        json::members_text(ms) == said(t.0, ms[i].0, ms[i].1, t.1),
        t.1.len() > 0 ==> t.1[0] == ',',
    decreases ms.len(),
{
    let e = Seq::<char>::empty();
    let m = ms[i];
    if ms.len() == 1 {
        assert(json::members_text(ms) =~= said(e, m.0, m.1, e));
        (e, e)
    } else {
        let front = json::members_text(ms.drop_last());
        if i == ms.len() - 1 {
            assert(json::members_text(ms) =~= said(front + seq![','], m.0, m.1, e));
            (front + seq![','], e)
        } else {
            let (before, after) = lemma_members_say(ms.drop_last(), i);
            assert(ms.drop_last()[i] == m);
            let rest = seq![','] + json::member(ms.last());
            assert(json::members_text(ms) =~= said(before, m.0, m.1, after + rest));
            (before, after + rest)
        }
    }
}

/// The line of JSON says each thing under its own name: numbers in decimal, words
/// in quotes, and null for what is not known.
pub proof fn law_line_says_it_all(r: RunResult)
    ensures
        r.exit_code is Some ==> says(
            json(r),
            "exit_code"@,
            text::int_text(r.exit_code->0 as int),
        ),
        r.exit_code is None ==> says(json(r), "exit_code"@, "null"@),
        r.signal is Some ==> says(json(r), "signal"@, text::int_text(r.signal->0 as int)),
        r.signal is None ==> says(json(r), "signal"@, "null"@),
        r.timed_out ==> says(json(r), "timed_out"@, "true"@),
        !r.timed_out ==> says(json(r), "timed_out"@, "false"@),
        r.killed is Some ==> says(json(r), "killed"@, seq!['"'] + r.killed->0@ + seq!['"']),
        r.killed is None ==> says(json(r), "killed"@, "null"@),
        r.instructions is Some ==> says(
            json(r),
            "instructions"@,
            text::digits(r.instructions->0 as nat),
        ) && says(json(r), "measurement"@, "\"full\""@),
        r.instructions is None ==> says(json(r), "instructions"@, "null"@) && says(
            json(r),
            "measurement"@,
            "\"degraded\""@,
        ),
        says(json(r), "accounting"@, seq!['"'] + r.accounting@ + seq!['"']),
        says(json(r), "cpu_ms"@, text::digits(r.cpu_ms as nat)),
        says(json(r), "wall_ms"@, text::digits(r.wall_ms as nat)),
        says(json(r), "peak_kb"@, text::int_text(r.peak_kb as int)),
        says(json(r), "cpu_us"@, text::digits(r.cpu_us as nat)),
        says(json(r), "cpu_user_us"@, text::digits(r.cpu_user_us as nat)),
        says(json(r), "cpu_sys_us"@, text::digits(r.cpu_sys_us as nat)),
        says(json(r), "wall_us"@, text::digits(r.wall_us as nat)),
        r.instructions_running is Some ==> says(
            json(r),
            "instructions_running"@,
            r.instructions_running->0@,
        ),
        r.instructions_running is None ==> says(json(r), "instructions_running"@, "null"@),
{
    let ms = members(r);
    lemma_result_is_object(r);
    lemma_object_says(ms, 0);
    lemma_object_says(ms, 1);
    lemma_object_says(ms, 2);
    lemma_object_says(ms, 3);
    lemma_object_says(ms, 4);
    lemma_object_says(ms, 5);
    lemma_object_says(ms, 6);
    lemma_object_says(ms, 7);
    lemma_object_says(ms, 8);
    lemma_object_says(ms, 9);
    lemma_object_says(ms, 10);
    lemma_object_says(ms, 11);
    lemma_object_says(ms, 12);
    lemma_object_says(ms, 13);
    lemma_object_says(ms, 14);
    reveal_strlit("\"");
    assert("\""@ =~= seq!['"']);
    reveal_strlit("full");
    reveal_strlit("\"full\"");
    assert("\"full\""@ =~= json::quoted("full"@));
    reveal_strlit("degraded");
    reveal_strlit("\"degraded\"");
    assert("\"degraded\""@ =~= json::quoted("degraded"@));
}

/// The line names every extra counter of the result, with its count and fraction.
pub proof fn law_line_says_the_counters(r: RunResult, i: int)
    requires
        0 <= i < r.counters@.len(),
    ensures
        says(
            json(r),
            r.counters@[i].name@,
            "{\"count\":"@ + text::digits(r.counters@[i].count as nat) + ",\"running\":"@
                + r.counters@[i].running@ + "}"@,
        ),
{
    let c = r.counters@[i];
    let ms = members(r);
    let cm = counters_members(r.counters@);
    lemma_result_is_object(r);
    lemma_object_says(ms, 15);
    assert(ms[15] == ("counters"@, json::object(cm)));
    lemma_object_says(cm, i);
    let v = json::object(counter_members(c));
    assert(cm[i] == (c.name@, v));
    let (a, b) = choose|a: Seq<char>, b: Seq<char>| #[trigger]
        said(a, "counters"@, json::object(cm), b) == json(r) && b.len() > 0 && (b[0] == ','
            || b[0] == '}');
    let (x, y) = choose|x: Seq<char>, y: Seq<char>| #[trigger]
        said(x, c.name@, v, y) == json::object(cm) && y.len() > 0 && (y[0] == ',' || y[0]
            == '}');
    lemma_said_inside(a, "counters"@, (x, y), c.name@, v, b);
    lemma_counter_spelled(c);
}

proof fn lemma_said_inside(
    a: Seq<char>,
    outer: Seq<char>,
    xy: (Seq<char>, Seq<char>),
    name: Seq<char>,
    v: Seq<char>,
    b: Seq<char>,
)
    ensures
        said(a, outer, said(xy.0, name, v, xy.1), b) == said(
            a + seq!['"'] + outer + seq!['"', ':'] + xy.0,
            name,
            v,
            xy.1 + b,
        ),
{
    assert(said(a, outer, said(xy.0, name, v, xy.1), b) =~= said(
        a + seq!['"'] + outer + seq!['"', ':'] + xy.0,
        name,
        v,
        xy.1 + b,
    ));
}

proof fn lemma_counter_spelled(c: Counter)
    ensures
        json::object(counter_members(c)) == "{\"count\":"@ + text::digits(c.count as nat)
            + ",\"running\":"@ + c.running@ + "}"@,
{
    let v = json::object(counter_members(c));
    reveal_strlit("{\"count\":");
    reveal_strlit(",\"running\":");
    reveal_strlit("}");
    reveal_strlit("count");
    reveal_strlit("running");
    let first = seq![counter_members(c)[0]];
    json::lemma_next_member(first, counter_members(c)[1]);
    assert(first.push(counter_members(c)[1]) =~= counter_members(c));
    assert("{\"count\":"@ =~= seq!['{'] + json::quoted("count"@) + seq![':']);
    assert(",\"running\":"@ =~= sep("running"@));
    assert(v =~= "{\"count\":"@ + text::digits(c.count as nat) + ",\"running\":"@ + c.running@
        + "}"@);
}

/// Times are plausible where none is negative and the whole of them, in microseconds,
/// fits in 64 bits; and no other reading is refused.
pub proof fn law_plausible_times_fit(ru: Rusage)
    requires
        ru.user_sec >= 0 && ru.user_usec >= 0 && ru.system_sec >= 0 && ru.system_usec >= 0,
    ensures
        plausible(ru) <==> (ru.user_sec + ru.system_sec) * 1_000_000 + ru.user_usec
            + ru.system_usec <= 0xffff_ffff_ffff_ffff,
{
}

/// A shortfall is told by what was required and could not be read.
pub proof fn law_shortfalls_are_told(s: Shortfall)
    ensures
        s == Shortfall::Instructions ==> s.message()
            == "instruction counting required but the counter could not be read"@,
        s == Shortfall::Accounting ==> s.message()
            == "cgroup accounting required but the cgroup could not be read"@,
{
}

} // verus!
