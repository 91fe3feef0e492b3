use vstd::prelude::*;
use vstd::string::StrSliceExecFns;
use vstd::string::StringExecFns;
use crate::decimal::{all_digits, dec_digits, dec_val, digit_val, is_digit};
use crate::decimal::u128_to_dec;
use crate::error::Error;

verus! {

/// A point in time or a duration, in milliseconds.
pub type TimeMs = u128;

/// A clock seeded with a fixed, reverse-ordered list of timestamps;
/// each request pops the last one. Deterministic, for demos and tests.
#[derive(Clone)]
pub struct InMemoryTimeSource {
    pub times: Vec<TimeMs>,
}

impl InMemoryTimeSource {
    pub fn new(times: Vec<TimeMs>) -> (r: Self)
        ensures
            r.times@ == times@,
    {
        Self { times }
    }

    /// A source with the same seeded timestamps.
    pub fn duplicate(&self) -> (r: Self)
        ensures
            r.times@ == self.times@,
    {
        let mut out: Vec<TimeMs> = Vec::new();
        let mut i: usize = 0;
        while i < self.times.len()
            invariant
                i <= self.times@.len(),
                out@ =~= self.times@.subrange(0, i as int),
            decreases self.times@.len() - i,
        {
            out.push(self.times[i]);
            i = i + 1;
        }
        proof {
            assert(out@ =~= self.times@);
        }
        Self { times: out }
    }

    /// Pops the next seeded timestamp, or yields zero when exhausted.
    pub fn get_time_ms(&mut self) -> (t: TimeMs)
        ensures
            old(self).times@.len() > 0 ==> t == old(self).times@.last() && final(self).times@
                == old(self).times@.drop_last(),
            old(self).times@.len() == 0 ==> t == 0 && final(self).times@ == old(self).times@,
    {
        match self.times.pop() {
            Some(t) => t,
            None => 0,
        }
    }
}

/// The wall clock.
#[derive(Clone)]
pub struct ClockTimeSource;

/// Relies on std::time::SystemTime::now for the current wall-clock
/// time in milliseconds since the epoch; nothing is assumed about the
/// value (a clock before the epoch yields zero).
#[verifier::external_body]
fn clock_now_ms() -> TimeMs {
    match std::time::SystemTime::now().duration_since(std::time::UNIX_EPOCH) {
        Ok(d) => d.as_millis(),
        Err(_) => 0,
    }
}

impl ClockTimeSource {
    /// The current wall-clock time; no property of the value is known.
    pub fn get_time_ms(&mut self) -> TimeMs {
        clock_now_ms()
    }
}

/// The closed set of clocks a task can run on.
#[derive(Clone)]
pub enum TimeSourceTypes {
    Clock(ClockTimeSource),
    InMemory(InMemoryTimeSource),
}

/// The two time sources hold the same state.
pub open spec fn ts_eq(a: TimeSourceTypes, b: TimeSourceTypes) -> bool {
    match a {
        TimeSourceTypes::Clock(_) => b is Clock,
        TimeSourceTypes::InMemory(x) => match b {
            TimeSourceTypes::InMemory(y) => x.times@ == y.times@,
            _ => false,
        },
    }
}

/// One reading of a time source: `ts2` is the state after the reading
/// and `t` the reported time. An in-memory source pops its seeded list
/// (zero once exhausted); of the wall clock nothing is known but that
/// its state does not change.
pub open spec fn ts_step(ts: TimeSourceTypes, ts2: TimeSourceTypes, t: TimeMs) -> bool {
    match ts {
        TimeSourceTypes::Clock(_) => ts2 is Clock,
        TimeSourceTypes::InMemory(m) => match ts2 {
            TimeSourceTypes::InMemory(m2) => {
                if m.times@.len() > 0 {
                    t == m.times@.last() && m2.times@ == m.times@.drop_last()
                } else {
                    t == 0 && m2.times@ == m.times@
                }
            },
            _ => false,
        },
    }
}

impl TimeSourceTypes {
    /// A source with the same state.
    pub fn duplicate(&self) -> (r: Self)
        ensures
            ts_eq(r, *self),
    {
        match self {
            TimeSourceTypes::Clock(_) => TimeSourceTypes::Clock(ClockTimeSource),
            TimeSourceTypes::InMemory(m) => TimeSourceTypes::InMemory(m.duplicate()),
        }
    }

    /// Reads the current time, advancing an in-memory source.
    pub fn get_time_ms(&mut self) -> (t: TimeMs)
        ensures
            ts_step(*old(self), *final(self), t),
    {
        match self {
            TimeSourceTypes::Clock(c) => c.get_time_ms(),
            TimeSourceTypes::InMemory(m) => m.get_time_ms(),
        }
    }
}

/// The due-time state machine of one logfile. `start` is an absolute
/// timestamp, so a persisted task resumes correctly after a restart.
#[derive(Clone)]
pub struct Task {
    pub repeat: bool,
    pub done: bool,
    pub delay: TimeMs,
    pub start: TimeMs,
    pub time_src: TimeSourceTypes,
}

/// The two tasks hold the same state.
pub open spec fn task_eq(a: Task, b: Task) -> bool {
    a.repeat == b.repeat && a.done == b.done && a.delay == b.delay && a.start == b.start && ts_eq(
        a.time_src,
        b.time_src,
    )
}

/// One due-check transition: from task `t1` the check reports `fired`
/// and leaves the task as `t2`. A finished task never fires and does
/// not change. Otherwise the clock is read once; the task fires
/// exactly when `start + delay` lies strictly before that reading, in
/// which case the clock is read a second time for the new `start` and
/// `done` becomes the negation of `repeat`.
pub open spec fn due_step(t1: Task, t2: Task, fired: bool) -> bool {
    if t1.done {
        !fired && task_eq(t2, t1)
    } else {
        exists|n1: TimeMs, ts1: TimeSourceTypes|
            #[trigger] ts_step(t1.time_src, ts1, n1) && {
                if t1.start + t1.delay < n1 {
                    fired && t2.repeat == t1.repeat && t2.delay == t1.delay && t2.done
                        == !t1.repeat && exists|n2: TimeMs, ts2: TimeSourceTypes|
                        #[trigger] ts_step(ts1, ts2, n2) && t2.start == n2 && ts_eq(t2.time_src, ts2)
                } else {
                    !fired && t2.repeat == t1.repeat && t2.done == t1.done && t2.delay == t1.delay
                        && t2.start == t1.start && ts_eq(t2.time_src, ts1)
                }
            }
    }
}

/// The value of the alternating number/unit delay string, accumulated
/// left to right exactly as `Task::scan` computes it: `ms`, `s`, `m`
/// and `h` multiply the number before them by 1, 1000, 60000 and
/// 3600000; a trailing bare number counts as milliseconds. A number
/// that is missing or does not fit, or a sum that does not fit, is a
/// `ParseIntError`; an unknown unit is a `TimeStringUnknownOperator`.
pub open spec fn spec_scan(s: Seq<char>) -> Result<TimeMs, Error> {
    spec_scan_from(s, 0, 0)
}

/// The end of the run of digits starting at `i`.
pub open spec fn digit_run_end(s: Seq<char>, i: int) -> int
    decreases s.len() - i,
    when 0 <= i <= s.len()
{
    if i >= s.len() {
        i
    } else if is_digit(s[i]) {
        digit_run_end(s, i + 1)
    } else {
        i
    }
}

/// A character of the latin alphabet.
pub open spec fn is_alpha_char(c: char) -> bool {
    ('a' <= c && c <= 'z') || ('A' <= c && c <= 'Z')
}

/// The end of the run of letters starting at `i`.
pub open spec fn alpha_run_end(s: Seq<char>, i: int) -> int
    decreases s.len() - i,
    when 0 <= i <= s.len()
{
    if i >= s.len() {
        i
    } else if is_alpha_char(s[i]) {
        alpha_run_end(s, i + 1)
    } else {
        i
    }
}

/// The multiplier a unit name stands for.
pub open spec fn unit_value(u: Seq<char>) -> Option<int> {
    if u.len() == 1 {
        if u[0] == 's' {
            Some(1000)
        } else if u[0] == 'm' {
            Some(60000)
        } else if u[0] == 'h' {
            Some(3600000)
        } else {
            None
        }
    } else if u.len() == 2 && u[0] == 'm' && u[1] == 's' {
        Some(1)
    } else {
        None
    }
}

/// The multiplier found after position `j`: a named unit, or 1 for a
/// number that ends the string with no unit after it.
pub open spec fn spec_operator(s: Seq<char>, j: int) -> Result<int, Error>
    recommends
        0 <= j <= s.len(),
{
    let k = alpha_run_end(s, j);
    if k == j {
        if j >= s.len() {
            Ok(1)
        } else {
            Err(Error::TimeStringUnknownOperator)
        }
    } else {
        match unit_value(s.subrange(j, k)) {
            Some(u) => Ok(u),
            None => Err(Error::TimeStringUnknownOperator),
        }
    }
}

/// The run ends lie between their start and the end of the string.
pub proof fn lemma_digit_run_end_bounds(s: Seq<char>, i: int)
    requires
        0 <= i <= s.len(),
    ensures
        i <= digit_run_end(s, i) <= s.len(),
    decreases s.len() - i,
{
    if i < s.len() && is_digit(s[i]) {
        lemma_digit_run_end_bounds(s, i + 1);
    }
}

/// The run ends lie between their start and the end of the string.
pub proof fn lemma_alpha_run_end_bounds(s: Seq<char>, i: int)
    requires
        0 <= i <= s.len(),
    ensures
        i <= alpha_run_end(s, i) <= s.len(),
    decreases s.len() - i,
{
    if i < s.len() && is_alpha_char(s[i]) {
        lemma_alpha_run_end_bounds(s, i + 1);
    }
}

#[via_fn]
proof fn spec_scan_from_dec(s: Seq<char>, i: int, acc: TimeMs) {
    if 0 <= i < s.len() {
        lemma_digit_run_end_bounds(s, i);
        let j = digit_run_end(s, i);
        if j != i {
            lemma_alpha_run_end_bounds(s, j);
        }
    }
}

/// `spec_scan` from position `i` with the sum so far in `acc`.
pub open spec fn spec_scan_from(s: Seq<char>, i: int, acc: TimeMs) -> Result<TimeMs, Error>
    decreases s.len() - i,
    when 0 <= i <= s.len()
    via spec_scan_from_dec
{
    if i >= s.len() {
        Ok(acc)
    } else {
        let j = digit_run_end(s, i);
        if j == i {
            Err(Error::ParseIntError)
        } else {
            let v = dec_val(s.subrange(i, j));
            if v > u128::MAX {
                Err(Error::ParseIntError)
            } else {
                match spec_operator(s, j) {
                    Err(e) => Err(e),
                    Ok(u) => {
                        let k = alpha_run_end(s, j);
                        if v * u > u128::MAX || acc + v * u > u128::MAX {
                            Err(Error::ParseIntError)
                        } else {
                            spec_scan_from(s, k, (acc + v * u) as u128)
                        }
                    },
                }
            }
        }
    }
}

/// The rendering of a delay: hours, minutes, seconds and leftover
/// milliseconds, largest unit first, all four present even when zero.
pub open spec fn spec_time_str(delay: int) -> Seq<char> {
    dec_digits(delay / 3600000) + "h"@ + dec_digits((delay % 3600000) / 60000) + "m"@ + dec_digits(
        ((delay % 3600000) % 60000) / 1000,
    ) + "s"@ + dec_digits(((delay % 3600000) % 60000) % 1000) + "ms"@
}

proof fn lemma_digit_run_end(s: Seq<char>, i: int, j: int)
    requires
        0 <= i <= j <= s.len(),
        forall|t: int| i <= t < j ==> is_digit(#[trigger] s[t]),
        j == s.len() || !is_digit(s[j]),
    ensures
        digit_run_end(s, i) == j,
    decreases j - i,
{
    if i < j {
        lemma_digit_run_end(s, i + 1, j);
    }
}

proof fn lemma_alpha_run_end(s: Seq<char>, i: int, j: int)
    requires
        0 <= i <= j <= s.len(),
        forall|t: int| i <= t < j ==> is_alpha_char(#[trigger] s[t]),
        j == s.len() || !is_alpha_char(s[j]),
    ensures
        alpha_run_end(s, i) == j,
    decreases j - i,
{
    if i < j {
        lemma_alpha_run_end(s, i + 1, j);
    }
}

impl Task {
    /// A task with the same state.
    pub fn duplicate(&self) -> (r: Self)
        ensures
            task_eq(r, *self),
    {
        Task {
            repeat: self.repeat,
            done: self.done,
            delay: self.delay,
            start: self.start,
            time_src: self.time_src.duplicate(),
        }
    }

    /// A fresh task whose `start` is read from the given time source.
    pub fn new(repeat: bool, delay: TimeMs, time_src: TimeSourceTypes) -> (t: Task)
        ensures
            t.repeat == repeat,
            !t.done,
            t.delay == delay,
            ts_step(time_src, t.time_src, t.start),
    {
        let mut ts = time_src;
        let start = ts.get_time_ms();
        Task { repeat, done: false, delay, start, time_src: ts }
    }

    /// A fresh task whose delay is scanned from a string.
    pub fn from_str(repeat: bool, time_str: &str, time_src: TimeSourceTypes) -> (r: Result<
        Task,
        Error,
    >)
        ensures
            spec_scan(time_str@) matches Ok(d) ==> r matches Ok(t) && t.repeat == repeat && !t.done
                && t.delay == d && ts_step(time_src, t.time_src, t.start),
            spec_scan(time_str@) matches Err(e) ==> r == Err::<Task, Error>(e),
    {
        match Self::scan(time_str) {
            Ok(delay) => Ok(Self::new(repeat, delay, time_src)),
            Err(e) => Err(e),
        }
    }

    /// A decimal digit.
    pub fn is_numeric(c: char) -> (r: bool)
        ensures
            r == is_digit(c),
    {
        (c as u32) >= 48 && (c as u32) <= 57
    }

    /// A letter of the latin alphabet.
    pub fn is_alpha(c: char) -> (r: bool)
        ensures
            r == is_alpha_char(c),
    {
        ((c as u32) >= 97 && (c as u32) <= 122) || ((c as u32) >= 65 && (c as u32) <= 90)
    }

    /// Scans the run of digits at `i`: its end, and its value unless it
    /// is empty or does not fit.
    fn scan_num(time_str: &str, i: usize, len: usize) -> (r: (usize, Result<TimeMs, Error>))
        requires
            len == time_str@.len(),
            i <= len,
        ensures
            r.0 == digit_run_end(time_str@, i as int),
            i <= r.0 <= len,
            ({
                let s = time_str@;
                let j = r.0 as int;
                if j == i {
                    r.1 == Err::<TimeMs, Error>(Error::ParseIntError)
                } else {
                    dec_val(s.subrange(i as int, j)) >= 0 && {
                        if dec_val(s.subrange(i as int, j)) > u128::MAX {
                            r.1 == Err::<TimeMs, Error>(Error::ParseIntError)
                        } else {
                            r.1 == Ok::<TimeMs, Error>(dec_val(s.subrange(i as int, j)) as u128)
                        }
                    }
                }
            }),
    {
        let ghost s = time_str@;
        let mut j: usize = i;
        let mut v: Option<TimeMs> = Some(0);
        proof {
            assert(s.subrange(i as int, i as int) =~= Seq::<char>::empty());
        }
        while j < len && Self::is_numeric(time_str.get_char(j))
            invariant
                len == s.len(),
                i <= j <= len,
                s == time_str@,
                forall|t: int| i <= t < j ==> is_digit(#[trigger] s[t]),
                all_digits(s.subrange(i as int, j as int)),
                match v {
                    Some(x) => x == dec_val(s.subrange(i as int, j as int)),
                    None => dec_val(s.subrange(i as int, j as int)) > u128::MAX,
                },
            decreases len - j,
        {
            let c = time_str.get_char(j);
            let d: u128 = (c as u32 as u128) - 48;
            let ghost pre = s.subrange(i as int, j as int);
            let ghost cur = s.subrange(i as int, j as int + 1);
            proof {
                assert(cur.drop_last() =~= pre);
                assert(cur.last() == s[j as int]);
                assert(dec_val(cur) == dec_val(pre) * 10 + digit_val(s[j as int]));
                crate::decimal::lemma_dec_val_nonneg(pre);
            }
            v = match v {
                Some(x) => {
                    match x.checked_mul(10) {
                        Some(y) => y.checked_add(d),
                        None => None,
                    }
                },
                None => None,
            };
            j = j + 1;
        }
        proof {
            lemma_digit_run_end(s, i as int, j as int);
            crate::decimal::lemma_dec_val_nonneg(s.subrange(i as int, j as int));
        }
        if j == i {
            (j, Err(Error::ParseIntError))
        } else {
            match v {
                Some(x) => (j, Ok(x)),
                None => (j, Err(Error::ParseIntError)),
            }
        }
    }

    /// Scans the unit after the number at `j`: the end of the letter
    /// run, and the multiplier `spec_operator` assigns to it.
    fn scan_operator(time_str: &str, j: usize, len: usize) -> (r: (usize, Result<TimeMs, Error>))
        requires
            len == time_str@.len(),
            j <= len,
        ensures
            r.0 == alpha_run_end(time_str@, j as int),
            j <= r.0 <= len,
            match spec_operator(time_str@, j as int) {
                Ok(u) => 1 <= u <= 3600000 && r.1 == Ok::<TimeMs, Error>(u as u128),
                Err(e) => r.1 == Err::<TimeMs, Error>(e),
            },
    {
        let ghost s = time_str@;
        let mut k: usize = j;
        while k < len && Self::is_alpha(time_str.get_char(k))
            invariant
                len == s.len(),
                j <= k <= len,
                s == time_str@,
                forall|t: int| j <= t < k ==> is_alpha_char(#[trigger] s[t]),
            decreases len - k,
        {
            k = k + 1;
        }
        proof {
            lemma_alpha_run_end(s, j as int, k as int);
        }
        if k == j {
            if j >= len {
                (k, Ok(1))
            } else {
                (k, Err(Error::TimeStringUnknownOperator))
            }
        } else if k - j == 1 {
            let c = time_str.get_char(j);
            proof {
                assert(s.subrange(j as int, k as int) =~= seq![s[j as int]]);
            }
            if c == 's' {
                (k, Ok(1000))
            } else if c == 'm' {
                (k, Ok(60000))
            } else if c == 'h' {
                (k, Ok(3600000))
            } else {
                (k, Err(Error::TimeStringUnknownOperator))
            }
        } else if k - j == 2 {
            let c0 = time_str.get_char(j);
            let c1 = time_str.get_char(j + 1);
            proof {
                assert(s.subrange(j as int, k as int) =~= seq![s[j as int], s[j as int + 1]]);
            }
            if c0 == 'm' && c1 == 's' {
                (k, Ok(1))
            } else {
                (k, Err(Error::TimeStringUnknownOperator))
            }
        } else {
            proof {
                assert(s.subrange(j as int, k as int).len() > 2);
            }
            (k, Err(Error::TimeStringUnknownOperator))
        }
    }

    /// Scans an alternating number/unit delay string such as `1h30m45s`
    /// into milliseconds.
    pub fn scan(time_str: &str) -> (r: Result<TimeMs, Error>)
        ensures
            r == spec_scan(time_str@),
    {
        let ghost s = time_str@;
        let len = time_str.unicode_len();
        let mut i: usize = 0;
        let mut acc: TimeMs = 0;
        loop
            invariant
                len == s.len(),
                s == time_str@,
                i <= len,
                spec_scan(s) == spec_scan_from(s, i as int, acc),
            decreases len - i,
        {
            if i >= len {
                return Ok(acc);
            }
            let (j, numres) = Self::scan_num(time_str, i, len);
            let num = match numres {
                Ok(n) => n,
                Err(e) => {
                    return Err(e);
                },
            };
            let (k, opres) = Self::scan_operator(time_str, j, len);
            let op = match opres {
                Ok(o) => o,
                Err(e) => {
                    return Err(e);
                },
            };
            let prod = match num.checked_mul(op) {
                Some(p) => p,
                None => {
                    return Err(Error::ParseIntError);
                },
            };
            acc = match acc.checked_add(prod) {
                Some(a) => a,
                None => {
                    return Err(Error::ParseIntError);
                },
            };
            proof {
                assert(k > i);
            }
            i = k;
        }
    }

    /// The absolute time of the next firing, `start + delay`, clamped
    /// to the largest representable time.
    pub fn next_time(&self) -> (r: TimeMs)
        ensures
            self.start + self.delay <= u128::MAX ==> r == self.start + self.delay,
            self.start + self.delay > u128::MAX ==> r == u128::MAX,
    {
        if self.delay <= u128::MAX - self.start {
            self.start + self.delay
        } else {
            u128::MAX
        }
    }

    /// One due check, as `due_step` describes: reports whether the
    /// task's delay has elapsed and advances the state machine.
    pub fn is_due(&mut self) -> (r: bool)
        ensures
            due_step(*old(self), *final(self), r),
    {
        if self.done {
            return false;
        }
        let now = self.time_src.get_time_ms();
        let ghost mid = self.time_src;
        let ghost n1 = now;
        if now > self.start && now - self.start > self.delay {
            self.done = !self.repeat;
            let start2 = self.time_src.get_time_ms();
            self.start = start2;
            proof {
                assert(ts_step(old(self).time_src, mid, n1));
                assert(ts_step(mid, self.time_src, start2));
                assert(ts_eq(self.time_src, self.time_src));
            }
            true
        } else {
            proof {
                assert(ts_step(old(self).time_src, mid, n1));
                assert(ts_eq(self.time_src, mid));
            }
            false
        }
    }

    /// Renders the delay as `spec_time_str` describes, for example
    /// `1h20m10s5ms`.
    pub fn get_time_str(&self) -> (r: String)
        ensures
            r@ == spec_time_str(self.delay as int),
    {
        let d = self.delay;
        let mut r = u128_to_dec(d / 3600000);
        r.append("h");
        let rem1 = d % 3600000;
        let m = u128_to_dec(rem1 / 60000);
        r.append(m.as_str());
        r.append("m");
        let rem2 = rem1 % 60000;
        let sdig = u128_to_dec(rem2 / 1000);
        r.append(sdig.as_str());
        r.append("s");
        let rem3 = rem2 % 1000;
        let msdig = u128_to_dec(rem3);
        r.append(msdig.as_str());
        r.append("ms");
        r
    }
}

/// A task that does not repeat fires at most once: along any chain of
/// due-check transitions from a non-repeating task, no two checks both
/// report true.
pub proof fn lemma_nonrepeat_fires_at_most_once(tasks: Seq<Task>, fired: Seq<bool>)
    requires
        tasks.len() == fired.len() + 1,
        tasks.len() >= 1,
        !tasks[0].repeat,
        forall|i: int| 0 <= i < fired.len() ==> due_step(tasks[i], #[trigger] tasks[i + 1], fired[i]),
    ensures
        forall|i: int, j: int| 0 <= i < j < fired.len() ==> !(fired[i] && fired[j]),
{
    assert forall|i: int, j: int| 0 <= i < j < fired.len() implies !(fired[i] && fired[j]) by {
        if fired[i] && fired[j] {
            lemma_repeat_persists(tasks, fired, i);
            assert(!tasks[i].repeat);
            assert(due_step(tasks[i], tasks[i + 1], fired[i]));
            assert(tasks[i + 1].done);
            lemma_done_persists(tasks, fired, i + 1, j);
            assert(tasks[j].done);
            assert(due_step(tasks[j], tasks[j + 1], fired[j]));
            assert(!fired[j]);
        }
    }
}

proof fn lemma_repeat_persists(tasks: Seq<Task>, fired: Seq<bool>, k: int)
    requires
        tasks.len() == fired.len() + 1,
        0 <= k < tasks.len(),
        !tasks[0].repeat,
        forall|i: int| 0 <= i < fired.len() ==> due_step(tasks[i], #[trigger] tasks[i + 1], fired[i]),
    ensures
        !tasks[k].repeat,
    decreases k,
{
    if k > 0 {
        lemma_repeat_persists(tasks, fired, k - 1);
        assert(due_step(tasks[k - 1], tasks[k - 1 + 1], fired[k - 1]));
    }
}

proof fn lemma_done_persists(tasks: Seq<Task>, fired: Seq<bool>, k: int, l: int)
    requires
        tasks.len() == fired.len() + 1,
        0 <= k <= l < tasks.len(),
        tasks[k].done,
        forall|i: int| 0 <= i < fired.len() ==> due_step(tasks[i], #[trigger] tasks[i + 1], fired[i]),
    ensures
        tasks[l].done,
    decreases l - k,
{
    if l > k {
        assert(due_step(tasks[k], tasks[k + 1], fired[k]));
        assert(tasks[k + 1].done);
        lemma_done_persists(tasks, fired, k + 1, l);
    }
}

} // verus!
