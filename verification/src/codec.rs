use vstd::prelude::*;
use vstd::string::StrSliceExecFns;
use vstd::string::StringExecFns;
use crate::decimal::{all_digits, dec_digits, dec_val, digit_val, is_digit, lemma_dec_digits_val,
    lemma_dec_val_nonneg, u128_to_dec};
use crate::error::Error;
use crate::logfile::Logfile;
use crate::logset::LogSet;
use crate::source::{DataSourceTypes, FileDataSource, HttpDataSource, InMemoryDataSource};
use crate::task::{ClockTimeSource, InMemoryTimeSource, Task, TimeSourceTypes};
use crate::text::push_char;
use crate::trigger::{RegexTrigger, TriggerType, TriggerTypes};

verus! {

// The persisted document is line-oriented: every value stands on a
// line of its own, ended by a newline. Strings are escaped so that a
// value never holds a newline; numbers are decimal; booleans are `0`
// and `1`; enumeration tags are fixed words. Parsing is positional,
// so the document needs no other structure.

/// A value as one terminated line.
pub open spec fn ln(s: Seq<char>) -> Seq<char> {
    s.push('\n')
}

/// How one character is escaped: a backslash introduces the two
/// escapes `\\` and `\n`; everything else stands for itself.
pub open spec fn esc_char(c: char) -> Seq<char> {
    if c == '\\' {
        seq!['\\', '\\']
    } else if c == '\n' {
        seq!['\\', 'n']
    } else {
        seq![c]
    }
}

/// The escaped form of a string: newline-free, decoded by `unesc`.
pub open spec fn esc(s: Seq<char>) -> Seq<char>
    decreases s.len(),
{
    if s.len() == 0 {
        Seq::empty()
    } else {
        esc_char(s.first()) + esc(s.drop_first())
    }
}

/// Decodes an escaped string. A backslash takes the next character
/// with it (`n` standing for a newline); a dangling backslash stands
/// for itself.
pub open spec fn unesc(s: Seq<char>) -> Seq<char>
    decreases s.len(),
{
    if s.len() == 0 {
        Seq::empty()
    } else if s.first() == '\\' && s.len() >= 2 {
        seq![if s[1] == 'n' {
            '\n'
        } else {
            s[1]
        }] + unesc(s.subrange(2, s.len() as int))
    } else {
        seq![s.first()] + unesc(s.subrange(1, s.len() as int))
    }
}

/// Escaping adds characters but never a newline.
pub proof fn lemma_esc_no_nl(s: Seq<char>)
    ensures
        forall|i: int| 0 <= i < esc(s).len() ==> #[trigger] esc(s)[i] != '\n',
    decreases s.len(),
{
    if s.len() > 0 {
        lemma_esc_no_nl(s.drop_first());
        assert forall|i: int| 0 <= i < esc(s).len() implies #[trigger] esc(s)[i] != '\n' by {
            let head = esc_char(s.first());
            if i < head.len() {
                assert(esc(s)[i] == head[i]);
            } else {
                assert(esc(s)[i] == esc(s.drop_first())[i - head.len()]);
            }
        }
    }
}

/// Escaping round-trips: decoding the escaped form gives the string
/// back.
pub proof fn lemma_unesc_esc(s: Seq<char>)
    ensures
        unesc(esc(s)) == s,
    decreases s.len(),
{
    if s.len() == 0 {
        assert(unesc(esc(s)) =~= s);
    } else {
        let c = s.first();
        let head = esc_char(c);
        let tail = esc(s.drop_first());
        lemma_unesc_esc(s.drop_first());
        let e = esc(s);
        assert(e == head + tail);
        if c == '\\' || c == '\n' {
            assert(e.len() >= 2);
            assert(e.first() == '\\');
            assert(e[1] == (if c == '\n' {
                'n'
            } else {
                '\\'
            }));
            assert(e.subrange(2, e.len() as int) =~= tail);
            assert(unesc(e) == seq![c] + unesc(tail));
        } else {
            assert(e.first() == c);
            assert(c != '\\');
            assert(e.subrange(1, e.len() as int) =~= tail);
            assert(unesc(e) == seq![c] + unesc(tail));
        }
        assert(seq![c] + s.drop_first() =~= s);
    }
}

/// Appending one character extends the escaped form by its escape.
proof fn lemma_esc_push(t: Seq<char>, c: char)
    ensures
        esc(t.push(c)) == esc(t) + esc_char(c),
    decreases t.len(),
{
    if t.len() == 0 {
        assert(t.push(c).first() == c);
        assert(t.push(c).drop_first() =~= Seq::<char>::empty());
        assert(esc(Seq::<char>::empty()) == Seq::<char>::empty());
        assert(esc(t.push(c)) =~= esc(t) + esc_char(c));
    } else {
        assert(t.push(c).first() == t.first());
        assert(t.push(c).drop_first() =~= t.drop_first().push(c));
        lemma_esc_push(t.drop_first(), c);
        assert(esc(t.push(c)) == esc_char(t.first()) + (esc(t.drop_first()) + esc_char(c)));
        assert(esc_char(t.first()) + (esc(t.drop_first()) + esc_char(c)) =~= (esc_char(t.first())
            + esc(t.drop_first())) + esc_char(c));
    }
}

/// Escapes a string for one document line.
fn escape(s: &str) -> (out: String)
    ensures
        out@ == esc(s@),
{
    let len = s.unicode_len();
    let mut out = String::new();
    let mut i: usize = 0;
    proof {
        assert(s@.subrange(0, 0) =~= Seq::<char>::empty());
    }
    while i < len
        invariant
            i <= len,
            len == s@.len(),
            out@ == esc(s@.subrange(0, i as int)),
        decreases len - i,
    {
        let c = s.get_char(i);
        proof {
            assert(s@.subrange(0, i as int + 1) =~= s@.subrange(0, i as int).push(s@[i as int]));
            lemma_esc_push(s@.subrange(0, i as int), s@[i as int]);
        }
        if c == '\\' {
            push_char(&mut out, '\\');
            push_char(&mut out, '\\');
        } else if c == '\n' {
            push_char(&mut out, '\\');
            push_char(&mut out, 'n');
        } else {
            push_char(&mut out, c);
        }
        proof {
            assert(out@ =~= esc(s@.subrange(0, i as int + 1)));
        }
        i = i + 1;
    }
    proof {
        assert(s@.subrange(0, len as int) =~= s@);
    }
    out
}

/// Decodes one escaped document line.
fn unescape(s: &str) -> (out: String)
    ensures
        out@ == unesc(s@),
{
    let len = s.unicode_len();
    let mut out = String::new();
    let mut i: usize = 0;
    proof {
        assert(s@.subrange(0, len as int) =~= s@);
        assert(unesc(s@) =~= out@ + unesc(s@.subrange(0, len as int)));
    }
    while i < len
        invariant
            i <= len,
            len == s@.len(),
            unesc(s@) == out@ + unesc(s@.subrange(i as int, len as int)),
        decreases len - i,
    {
        let ghost rem = s@.subrange(i as int, len as int);
        let c = s.get_char(i);
        proof {
            assert(rem.first() == s@[i as int]);
        }
        if c == '\\' && i + 1 < len {
            let d = s.get_char(i + 1);
            proof {
                assert(rem[1] == s@[i as int + 1]);
                assert(rem.subrange(2, rem.len() as int) =~= s@.subrange(
                    i as int + 2,
                    len as int,
                ));
            }
            push_char(
                &mut out,
                if d == 'n' {
                    '\n'
                } else {
                    d
                },
            );
            i = i + 2;
        } else {
            proof {
                assert(rem.subrange(1, rem.len() as int) =~= s@.subrange(
                    i as int + 1,
                    len as int,
                ));
            }
            push_char(&mut out, c);
            i = i + 1;
        }
        proof {
            assert(unesc(s@) =~= out@ + unesc(s@.subrange(i as int, len as int)));
        }
    }
    proof {
        assert(s@.subrange(len as int, len as int) =~= Seq::<char>::empty());
        assert(unesc(s@) =~= out@);
    }
    out
}

/// The position of the first newline at or after `pos`, or -1.
pub open spec fn find_line_end(s: Seq<char>, pos: int) -> int
    decreases s.len() - pos,
    when 0 <= pos <= s.len()
{
    if pos >= s.len() {
        -1
    } else if s[pos] == '\n' {
        pos
    } else {
        find_line_end(s, pos + 1)
    }
}

/// The next line of the document and the position after its newline,
/// or nothing where no full line is left.
pub open spec fn next_line(s: Seq<char>, pos: int) -> Option<(Seq<char>, int)> {
    let e = find_line_end(s, pos);
    if e >= 0 {
        Some((s.subrange(pos, e), e + 1))
    } else {
        None
    }
}

proof fn lemma_find_line_end_at(s: Seq<char>, pos: int, k: int)
    requires
        0 <= pos <= k < s.len(),
        s[k] == '\n',
        forall|t: int| pos <= t < k ==> s[t] != '\n',
    ensures
        find_line_end(s, pos) == k,
    decreases k - pos,
{
    if pos < k {
        lemma_find_line_end_at(s, pos + 1, k);
    }
}

proof fn lemma_find_line_end_none(s: Seq<char>, pos: int)
    requires
        0 <= pos <= s.len(),
        forall|t: int| pos <= t < s.len() ==> s[t] != '\n',
    ensures
        find_line_end(s, pos) == -1,
    decreases s.len() - pos,
{
    if pos < s.len() {
        lemma_find_line_end_none(s, pos + 1);
    }
}

/// A line embedded at `pos`, newline-terminated, is what `next_line`
/// reads there.
pub proof fn lemma_next_line_embedded(s: Seq<char>, pos: int, line: Seq<char>)
    requires
        0 <= pos,
        pos + line.len() + 1 <= s.len(),
        s.subrange(pos, pos + line.len()) == line,
        s[pos + line.len()] == '\n',
        forall|i: int| 0 <= i < line.len() ==> #[trigger] line[i] != '\n',
    ensures
        next_line(s, pos) == Some((line, pos + line.len() + 1)),
{
    assert forall|t: int| pos <= t < pos + line.len() implies s[t] != '\n' by {
        assert(s[t] == line[t - pos]);
    }
    lemma_find_line_end_at(s, pos, pos + line.len());
    assert(s.subrange(pos, pos + line.len()) == line);
}

/// Reads the next document line.
fn read_line(s: &str, pos: usize) -> (r: Option<(String, usize)>)
    requires
        pos <= s@.len(),
    ensures
        (match r {
            Some(t) => next_line(s@, pos as int) == Some((t.0@, t.1 as int)) && pos < t.1
                <= s@.len(),
            None => next_line(s@, pos as int) is None,
        }),
{
    let len = s.unicode_len();
    let mut line = String::new();
    let mut j: usize = pos;
    while j < len
        invariant
            pos <= j <= len,
            len == s@.len(),
            line@ == s@.subrange(pos as int, j as int),
            forall|t: int| pos <= t < j ==> s@[t] != '\n',
        decreases len - j,
    {
        let c = s.get_char(j);
        if c == '\n' {
            proof {
                lemma_find_line_end_at(s@, pos as int, j as int);
            }
            return Some((line, j + 1));
        }
        push_char(&mut line, c);
        proof {
            assert(line@ =~= s@.subrange(pos as int, j as int + 1));
        }
        j = j + 1;
    }
    proof {
        lemma_find_line_end_none(s@, pos as int);
    }
    None
}

// ---- rendered and parsed primitive values ----

/// A string value as a document line.
pub open spec fn render_string(v: Seq<char>) -> Seq<char> {
    ln(esc(v))
}

/// A number as a document line.
pub open spec fn render_num(n: u128) -> Seq<char> {
    ln(dec_digits(n as int))
}

/// A boolean as a document line: `1` or `0`.
pub open spec fn render_bool(b: bool) -> Seq<char> {
    if b {
        ln(seq!['1'])
    } else {
        ln(seq!['0'])
    }
}

/// A fixed tag word as a document line.
pub open spec fn render_tag(w: Seq<char>) -> Seq<char> {
    ln(w)
}

/// Reads a string value.
pub open spec fn parse_string(s: Seq<char>, pos: int) -> Option<(Seq<char>, int)> {
    match next_line(s, pos) {
        Some((line, p2)) => Some((unesc(line), p2)),
        None => None,
    }
}

/// Reads a number.
pub open spec fn parse_num(s: Seq<char>, pos: int) -> Option<(u128, int)> {
    match next_line(s, pos) {
        Some((line, p2)) => {
            if line.len() >= 1 && all_digits(line) && dec_val(line) <= u128::MAX {
                Some((dec_val(line) as u128, p2))
            } else {
                None
            }
        },
        None => None,
    }
}

/// Reads a boolean.
pub open spec fn parse_bool(s: Seq<char>, pos: int) -> Option<(bool, int)> {
    match next_line(s, pos) {
        Some((line, p2)) => {
            if line == seq!['1'] {
                Some((true, p2))
            } else if line == seq!['0'] {
                Some((false, p2))
            } else {
                None
            }
        },
        None => None,
    }
}

/// A rendered string value parses back to the value.
pub proof fn lemma_parse_string_render(s: Seq<char>, pos: int, v: Seq<char>)
    requires
        0 <= pos,
        pos + render_string(v).len() <= s.len(),
        s.subrange(pos, pos + render_string(v).len()) == render_string(v),
    ensures
        parse_string(s, pos) == Some((v, pos + render_string(v).len())),
{
    let e = esc(v);
    lemma_esc_no_nl(v);
    assert forall|i: int| 0 <= i < e.len() implies s[pos + i] == #[trigger] e[i] by {
        assert(s.subrange(pos, pos + render_string(v).len())[i] == s[pos + i]);
        assert(render_string(v)[i] == e[i]);
    }
    assert(s.subrange(pos, pos + e.len()) =~= e);
    assert(s[pos + e.len()] == render_string(v)[e.len() as int]);
    assert(render_string(v)[e.len() as int] == '\n');
    lemma_next_line_embedded(s, pos, e);
    lemma_unesc_esc(v);
}

/// A rendered number parses back to the number.
pub proof fn lemma_parse_num_render(s: Seq<char>, pos: int, n: u128)
    requires
        0 <= pos,
        pos + render_num(n).len() <= s.len(),
        s.subrange(pos, pos + render_num(n).len()) == render_num(n),
    ensures
        parse_num(s, pos) == Some((n, pos + render_num(n).len())),
{
    let d = dec_digits(n as int);
    lemma_dec_digits_val(n as int);
    assert forall|i: int| 0 <= i < d.len() implies s[pos + i] == #[trigger] d[i] by {
        assert(s.subrange(pos, pos + render_num(n).len())[i] == s[pos + i]);
        assert(render_num(n)[i] == d[i]);
    }
    assert(s.subrange(pos, pos + d.len()) =~= d);
    assert(s[pos + d.len()] == render_num(n)[d.len() as int]);
    assert(render_num(n)[d.len() as int] == '\n');
    assert forall|i: int| 0 <= i < d.len() implies #[trigger] d[i] != '\n' by {
        assert(is_digit(d[i]));
    }
    lemma_next_line_embedded(s, pos, d);
}

/// A rendered boolean parses back to the boolean.
pub proof fn lemma_parse_bool_render(s: Seq<char>, pos: int, b: bool)
    requires
        0 <= pos,
        pos + render_bool(b).len() <= s.len(),
        s.subrange(pos, pos + render_bool(b).len()) == render_bool(b),
    ensures
        parse_bool(s, pos) == Some((b, pos + render_bool(b).len())),
{
    let w = if b {
        seq!['1']
    } else {
        seq!['0']
    };
    assert forall|i: int| 0 <= i < w.len() implies s[pos + i] == #[trigger] w[i] by {
        assert(s.subrange(pos, pos + render_bool(b).len())[i] == s[pos + i]);
        assert(render_bool(b)[i] == w[i]);
    }
    assert(s.subrange(pos, pos + w.len()) =~= w);
    assert(s[pos + w.len()] == render_bool(b)[w.len() as int]);
    assert(render_bool(b)[w.len() as int] == '\n');
    assert forall|i: int| 0 <= i < w.len() implies #[trigger] w[i] != '\n' by {}
    lemma_next_line_embedded(s, pos, w);
    assert(seq!['1'][0] == '1');
    assert(seq!['0'][0] == '0');
    assert(seq!['1'] != seq!['0']) by {
        if seq!['1'] == seq!['0'] {
            assert(seq!['1'][0] == seq!['0'][0]);
        }
    }
}

// ---- the observable content of an engine state ----

/// The observable content of a time source.
pub ghost enum TimeSrcView {
    Clock,
    Memory(Seq<u128>),
}

/// The observable content of a data source.
pub ghost enum SourceView {
    InMemory(Seq<Seq<char>>),
    File(Seq<char>, usize),
    Http(Seq<char>),
}

/// The observable content of a task.
pub ghost struct TaskView {
    pub repeat: bool,
    pub done: bool,
    pub delay: u128,
    pub start: u128,
    pub src: TimeSrcView,
}

/// The observable content of a trigger.
pub ghost struct TrigView {
    pub name: Seq<char>,
    pub description: Seq<char>,
    pub trigger_type: TriggerType,
    pub pattern: Seq<char>,
    pub invert: bool,
}

/// The observable content of a logfile.
pub ghost struct LogfileView {
    pub name: Seq<char>,
    pub source: SourceView,
    pub task: TaskView,
    pub triggers: Seq<TrigView>,
    pub extra: Seq<(Seq<char>, Seq<char>)>,
}

/// The observable content of a whole set.
pub ghost struct LogSetView {
    pub logs: Seq<LogfileView>,
}

pub open spec fn ts_view(ts: TimeSourceTypes) -> TimeSrcView {
    match ts {
        TimeSourceTypes::Clock(_) => TimeSrcView::Clock,
        TimeSourceTypes::InMemory(m) => TimeSrcView::Memory(m.times@),
    }
}

pub open spec fn ds_view(d: DataSourceTypes) -> SourceView {
    match d {
        DataSourceTypes::InMemory(m) => SourceView::InMemory(
            m.data@.map_values(|x: String| x@),
        ),
        DataSourceTypes::File(f) => SourceView::File(f.path@, f.line_limit),
        DataSourceTypes::Http(h) => SourceView::Http(h.url@),
    }
}

pub open spec fn task_view(t: Task) -> TaskView {
    TaskView {
        repeat: t.repeat,
        done: t.done,
        delay: t.delay,
        start: t.start,
        src: ts_view(t.time_src),
    }
}

pub open spec fn trig_view(t: TriggerTypes) -> TrigView {
    TrigView {
        name: t.spec_name(),
        description: t.spec_description(),
        trigger_type: t.spec_type(),
        pattern: t.spec_pattern(),
        invert: t.spec_invert(),
    }
}

pub open spec fn lf_view(lf: Logfile) -> LogfileView {
    LogfileView {
        name: lf.name@,
        source: ds_view(lf.source),
        task: task_view(lf.task),
        triggers: lf.triggers@.map_values(|t: TriggerTypes| trig_view(t)),
        extra: lf.extra.spec_entries().map_values(|p: (String, String)| (p.0@, p.1@)),
    }
}

pub open spec fn ls_view(ls: LogSet) -> LogSetView {
    LogSetView { logs: ls.logs@.map_values(|l: Logfile| lf_view(l)) }
}

// ---- the document grammar ----

pub open spec fn tag_clock() -> Seq<char> {
    seq!['c', 'l', 'o', 'c', 'k']
}

pub open spec fn tag_memory() -> Seq<char> {
    seq!['m', 'e', 'm', 'o', 'r', 'y']
}

pub open spec fn tag_inmemory() -> Seq<char> {
    seq!['i', 'n', 'm', 'e', 'm', 'o', 'r', 'y']
}

pub open spec fn tag_file() -> Seq<char> {
    seq!['f', 'i', 'l', 'e']
}

pub open spec fn tag_http() -> Seq<char> {
    seq!['h', 't', 't', 'p']
}

pub open spec fn tag_regex() -> Seq<char> {
    seq!['r', 'e', 'g', 'e', 'x']
}

pub open spec fn type_word(t: TriggerType) -> Seq<char> {
    match t {
        TriggerType::NoEvent => seq!['n', 'o', 'e', 'v', 'e', 'n', 't'],
        TriggerType::Success => seq!['s', 'u', 'c', 'c', 'e', 's', 's'],
        TriggerType::Warning => seq!['w', 'a', 'r', 'n', 'i', 'n', 'g'],
        TriggerType::Error => seq!['e', 'r', 'r', 'o', 'r'],
    }
}

pub open spec fn render_num_list(ts: Seq<u128>) -> Seq<char>
    decreases ts.len(),
{
    if ts.len() == 0 {
        Seq::empty()
    } else {
        render_num(ts.first()) + render_num_list(ts.drop_first())
    }
}

pub open spec fn render_string_list(ss: Seq<Seq<char>>) -> Seq<char>
    decreases ss.len(),
{
    if ss.len() == 0 {
        Seq::empty()
    } else {
        render_string(ss.first()) + render_string_list(ss.drop_first())
    }
}

pub open spec fn render_timesrc(v: TimeSrcView) -> Seq<char> {
    match v {
        TimeSrcView::Clock => render_tag(tag_clock()),
        TimeSrcView::Memory(ts) => render_tag(tag_memory()) + render_num(ts.len() as u128)
            + render_num_list(ts),
    }
}

pub open spec fn render_source(v: SourceView) -> Seq<char> {
    match v {
        SourceView::InMemory(ss) => render_tag(tag_inmemory()) + render_num(ss.len() as u128)
            + render_string_list(ss),
        SourceView::File(p, ll) => render_tag(tag_file()) + render_string(p) + render_num(
            ll as u128,
        ),
        SourceView::Http(u) => render_tag(tag_http()) + render_string(u),
    }
}

pub open spec fn render_task(v: TaskView) -> Seq<char> {
    render_bool(v.repeat) + render_bool(v.done) + render_num(v.delay) + render_num(v.start)
        + render_timesrc(v.src)
}

pub open spec fn render_trigger(v: TrigView) -> Seq<char> {
    render_tag(tag_regex()) + render_string(v.name) + render_string(v.description) + render_tag(
        type_word(v.trigger_type),
    ) + render_string(v.pattern) + render_bool(v.invert)
}

pub open spec fn render_trig_list(ts: Seq<TrigView>) -> Seq<char>
    decreases ts.len(),
{
    if ts.len() == 0 {
        Seq::empty()
    } else {
        render_trigger(ts.first()) + render_trig_list(ts.drop_first())
    }
}

pub open spec fn render_pair_list(ps: Seq<(Seq<char>, Seq<char>)>) -> Seq<char>
    decreases ps.len(),
{
    if ps.len() == 0 {
        Seq::empty()
    } else {
        render_string(ps.first().0) + render_string(ps.first().1) + render_pair_list(
            ps.drop_first(),
        )
    }
}

pub open spec fn render_logfile(v: LogfileView) -> Seq<char> {
    render_string(v.name) + render_source(v.source) + render_task(v.task) + render_num(
        v.triggers.len() as u128,
    ) + render_trig_list(v.triggers) + render_num(v.extra.len() as u128) + render_pair_list(
        v.extra,
    )
}

pub open spec fn render_lf_list(ls: Seq<LogfileView>) -> Seq<char>
    decreases ls.len(),
{
    if ls.len() == 0 {
        Seq::empty()
    } else {
        render_logfile(ls.first()) + render_lf_list(ls.drop_first())
    }
}

/// The whole persisted document for one set.
pub open spec fn render_logset(v: LogSetView) -> Seq<char> {
    render_num(v.logs.len() as u128) + render_lf_list(v.logs)
}

// ---- reading the grammar back ----

pub open spec fn parse_num_list(s: Seq<char>, pos: int, n: int) -> Option<(Seq<u128>, int)>
    decreases n,
{
    if n <= 0 {
        Some((Seq::empty(), pos))
    } else {
        match parse_num(s, pos) {
            Some((x, p2)) => match parse_num_list(s, p2, n - 1) {
                Some((rest, p3)) => Some((seq![x] + rest, p3)),
                None => None,
            },
            None => None,
        }
    }
}

pub open spec fn parse_string_list(s: Seq<char>, pos: int, n: int) -> Option<(Seq<Seq<char>>, int)>
    decreases n,
{
    if n <= 0 {
        Some((Seq::empty(), pos))
    } else {
        match parse_string(s, pos) {
            Some((x, p2)) => match parse_string_list(s, p2, n - 1) {
                Some((rest, p3)) => Some((seq![x] + rest, p3)),
                None => None,
            },
            None => None,
        }
    }
}

pub open spec fn parse_timesrc(s: Seq<char>, pos: int) -> Option<(TimeSrcView, int)> {
    match next_line(s, pos) {
        Some((line, p2)) => {
            if line == tag_clock() {
                Some((TimeSrcView::Clock, p2))
            } else if line == tag_memory() {
                match parse_num(s, p2) {
                    Some((n, p3)) => match parse_num_list(s, p3, n as int) {
                        Some((ts, p4)) => Some((TimeSrcView::Memory(ts), p4)),
                        None => None,
                    },
                    None => None,
                }
            } else {
                None
            }
        },
        None => None,
    }
}

pub open spec fn parse_source(s: Seq<char>, pos: int) -> Option<(SourceView, int)> {
    match next_line(s, pos) {
        Some((line, p2)) => {
            if line == tag_inmemory() {
                match parse_num(s, p2) {
                    Some((n, p3)) => match parse_string_list(s, p3, n as int) {
                        Some((ss, p4)) => Some((SourceView::InMemory(ss), p4)),
                        None => None,
                    },
                    None => None,
                }
            } else if line == tag_file() {
                match parse_string(s, p2) {
                    Some((p, p3)) => match parse_num(s, p3) {
                        Some((ll, p4)) => {
                            if ll <= usize::MAX as u128 {
                                Some((SourceView::File(p, ll as usize), p4))
                            } else {
                                None
                            }
                        },
                        None => None,
                    },
                    None => None,
                }
            } else if line == tag_http() {
                match parse_string(s, p2) {
                    Some((u, p3)) => Some((SourceView::Http(u), p3)),
                    None => None,
                }
            } else {
                None
            }
        },
        None => None,
    }
}

pub open spec fn parse_task(s: Seq<char>, pos: int) -> Option<(TaskView, int)> {
    match parse_bool(s, pos) {
        Some((repeat, p1)) => match parse_bool(s, p1) {
            Some((done, p2)) => match parse_num(s, p2) {
                Some((delay, p3)) => match parse_num(s, p3) {
                    Some((start, p4)) => match parse_timesrc(s, p4) {
                        Some((src, p5)) => Some(
                            (TaskView { repeat, done, delay, start, src }, p5),
                        ),
                        None => None,
                    },
                    None => None,
                },
                None => None,
            },
            None => None,
        },
        None => None,
    }
}

pub open spec fn parse_type(s: Seq<char>, pos: int) -> Option<(TriggerType, int)> {
    match next_line(s, pos) {
        Some((line, p2)) => {
            if line == type_word(TriggerType::NoEvent) {
                Some((TriggerType::NoEvent, p2))
            } else if line == type_word(TriggerType::Success) {
                Some((TriggerType::Success, p2))
            } else if line == type_word(TriggerType::Warning) {
                Some((TriggerType::Warning, p2))
            } else if line == type_word(TriggerType::Error) {
                Some((TriggerType::Error, p2))
            } else {
                None
            }
        },
        None => None,
    }
}

pub open spec fn parse_trigger(s: Seq<char>, pos: int) -> Option<(TrigView, int)> {
    match next_line(s, pos) {
        Some((line, p1)) => {
            if line == tag_regex() {
                match parse_string(s, p1) {
                    Some((name, p2)) => match parse_string(s, p2) {
                        Some((description, p3)) => match parse_type(s, p3) {
                            Some((trigger_type, p4)) => match parse_string(s, p4) {
                                Some((pattern, p5)) => match parse_bool(s, p5) {
                                    Some((invert, p6)) => Some(
                                        (
                                            TrigView {
                                                name,
                                                description,
                                                trigger_type,
                                                pattern,
                                                invert,
                                            },
                                            p6,
                                        ),
                                    ),
                                    None => None,
                                },
                                None => None,
                            },
                            None => None,
                        },
                        None => None,
                    },
                    None => None,
                }
            } else {
                None
            }
        },
        None => None,
    }
}

pub open spec fn parse_trig_list(s: Seq<char>, pos: int, n: int) -> Option<(Seq<TrigView>, int)>
    decreases n,
{
    if n <= 0 {
        Some((Seq::empty(), pos))
    } else {
        match parse_trigger(s, pos) {
            Some((x, p2)) => match parse_trig_list(s, p2, n - 1) {
                Some((rest, p3)) => Some((seq![x] + rest, p3)),
                None => None,
            },
            None => None,
        }
    }
}

pub open spec fn parse_pair_list(s: Seq<char>, pos: int, n: int) -> Option<
    (Seq<(Seq<char>, Seq<char>)>, int),
>
    decreases n,
{
    if n <= 0 {
        Some((Seq::empty(), pos))
    } else {
        match parse_string(s, pos) {
            Some((k, p2)) => match parse_string(s, p2) {
                Some((v, p3)) => match parse_pair_list(s, p3, n - 1) {
                    Some((rest, p4)) => Some((seq![(k, v)] + rest, p4)),
                    None => None,
                },
                None => None,
            },
            None => None,
        }
    }
}

pub open spec fn parse_logfile(s: Seq<char>, pos: int) -> Option<(LogfileView, int)> {
    match parse_string(s, pos) {
        Some((name, p1)) => match parse_source(s, p1) {
            Some((source, p2)) => match parse_task(s, p2) {
                Some((task, p3)) => match parse_num(s, p3) {
                    Some((nt, p4)) => match parse_trig_list(s, p4, nt as int) {
                        Some((triggers, p5)) => match parse_num(s, p5) {
                            Some((ne, p6)) => match parse_pair_list(s, p6, ne as int) {
                                Some((extra, p7)) => Some(
                                    (LogfileView { name, source, task, triggers, extra }, p7),
                                ),
                                None => None,
                            },
                            None => None,
                        },
                        None => None,
                    },
                    None => None,
                },
                None => None,
            },
            None => None,
        },
        None => None,
    }
}

pub open spec fn parse_lf_list(s: Seq<char>, pos: int, n: int) -> Option<(Seq<LogfileView>, int)>
    decreases n,
{
    if n <= 0 {
        Some((Seq::empty(), pos))
    } else {
        match parse_logfile(s, pos) {
            Some((x, p2)) => match parse_lf_list(s, p2, n - 1) {
                Some((rest, p3)) => Some((seq![x] + rest, p3)),
                None => None,
            },
            None => None,
        }
    }
}

/// Reads a whole persisted document.
pub open spec fn parse_logset(s: Seq<char>, pos: int) -> Option<(LogSetView, int)> {
    match parse_num(s, pos) {
        Some((n, p1)) => match parse_lf_list(s, p1, n as int) {
            Some((logs, p2)) => Some((LogSetView { logs }, p2)),
            None => None,
        },
        None => None,
    }
}

// ---- the document parses back to what was rendered ----

/// Lengths that fit the machine; every view taken of a real engine
/// state is bounded this way.
pub open spec fn timesrc_wf(v: TimeSrcView) -> bool {
    match v {
        TimeSrcView::Clock => true,
        TimeSrcView::Memory(ts) => ts.len() <= usize::MAX,
    }
}

pub open spec fn source_wf(v: SourceView) -> bool {
    match v {
        SourceView::InMemory(ss) => ss.len() <= usize::MAX,
        SourceView::File(_, _) => true,
        SourceView::Http(_) => true,
    }
}

pub open spec fn lf_wf(v: LogfileView) -> bool {
    &&& source_wf(v.source)
    &&& timesrc_wf(v.task.src)
    &&& v.triggers.len() <= usize::MAX
    &&& v.extra.len() <= usize::MAX
}

pub open spec fn ls_wf(v: LogSetView) -> bool {
    &&& v.logs.len() <= usize::MAX
    &&& forall|i: int| 0 <= i < v.logs.len() ==> lf_wf(#[trigger] v.logs[i])
}

/// A concatenation embedded in a stream splits into its embedded
/// parts.
proof fn lemma_embed_split(s: Seq<char>, pos: int, a: Seq<char>, b: Seq<char>)
    requires
        0 <= pos,
        pos + a.len() + b.len() <= s.len(),
        s.subrange(pos, pos + a.len() + b.len()) == a + b,
    ensures
        s.subrange(pos, pos + a.len()) == a,
        s.subrange(pos + a.len(), pos + a.len() + b.len()) == b,
{
    let whole = s.subrange(pos, pos + a.len() + b.len());
    assert(s.subrange(pos, pos + a.len()) =~= a) by {
        assert forall|i: int| 0 <= i < a.len() implies s.subrange(pos, pos + a.len())[i] == a[i] by {
            assert(whole[i] == (a + b)[i]);
        }
    }
    assert(s.subrange(pos + a.len(), pos + a.len() + b.len()) =~= b) by {
        assert forall|i: int|
            0 <= i < b.len() implies s.subrange(pos + a.len(), pos + a.len() + b.len())[i]
            == b[i] by {
            assert(whole[a.len() + i] == (a + b)[a.len() + i]);
        }
    }
}

/// The tag words and type words hold no newline.
proof fn lemma_words_no_nl()
    ensures
        forall|i: int| 0 <= i < tag_clock().len() ==> #[trigger] tag_clock()[i] != '\n',
        forall|i: int| 0 <= i < tag_memory().len() ==> #[trigger] tag_memory()[i] != '\n',
        forall|i: int| 0 <= i < tag_inmemory().len() ==> #[trigger] tag_inmemory()[i] != '\n',
        forall|i: int| 0 <= i < tag_file().len() ==> #[trigger] tag_file()[i] != '\n',
        forall|i: int| 0 <= i < tag_http().len() ==> #[trigger] tag_http()[i] != '\n',
        forall|i: int| 0 <= i < tag_regex().len() ==> #[trigger] tag_regex()[i] != '\n',
        forall|t: TriggerType, i: int|
            0 <= i < type_word(t).len() ==> #[trigger] type_word(t)[i] != '\n',
{
}

/// A rendered tag line parses as that word.
proof fn lemma_parse_tag_embedded(s: Seq<char>, pos: int, w: Seq<char>)
    requires
        0 <= pos,
        pos + render_tag(w).len() <= s.len(),
        s.subrange(pos, pos + render_tag(w).len()) == render_tag(w),
        forall|i: int| 0 <= i < w.len() ==> #[trigger] w[i] != '\n',
    ensures
        next_line(s, pos) == Some((w, pos + w.len() + 1)),
{
    assert forall|i: int| 0 <= i < w.len() implies s[pos + i] == #[trigger] w[i] by {
        assert(s.subrange(pos, pos + render_tag(w).len())[i] == s[pos + i]);
        assert(render_tag(w)[i] == w[i]);
    }
    assert(s.subrange(pos, pos + w.len()) =~= w);
    assert(s[pos + w.len()] == render_tag(w)[w.len() as int]);
    assert(render_tag(w)[w.len() as int] == '\n');
    lemma_next_line_embedded(s, pos, w);
}

proof fn lemma_parse_num_list_render(s: Seq<char>, pos: int, ts: Seq<u128>)
    requires
        0 <= pos,
        pos + render_num_list(ts).len() <= s.len(),
        s.subrange(pos, pos + render_num_list(ts).len()) == render_num_list(ts),
    ensures
        parse_num_list(s, pos, ts.len() as int) == Some((ts, pos + render_num_list(ts).len())),
    decreases ts.len(),
{
    if ts.len() == 0 {
        assert(parse_num_list(s, pos, 0) == Some((Seq::<u128>::empty(), pos)));
        assert(ts =~= Seq::<u128>::empty());
    } else {
        let a = render_num(ts.first());
        let b = render_num_list(ts.drop_first());
        lemma_embed_split(s, pos, a, b);
        lemma_parse_num_render(s, pos, ts.first());
        lemma_parse_num_list_render(s, pos + a.len(), ts.drop_first());
        assert(seq![ts.first()] + ts.drop_first() =~= ts);
    }
}

proof fn lemma_parse_string_list_render(s: Seq<char>, pos: int, ss: Seq<Seq<char>>)
    requires
        0 <= pos,
        pos + render_string_list(ss).len() <= s.len(),
        s.subrange(pos, pos + render_string_list(ss).len()) == render_string_list(ss),
    ensures
        parse_string_list(s, pos, ss.len() as int) == Some(
            (ss, pos + render_string_list(ss).len()),
        ),
    decreases ss.len(),
{
    if ss.len() == 0 {
        assert(ss =~= Seq::<Seq<char>>::empty());
    } else {
        let a = render_string(ss.first());
        let b = render_string_list(ss.drop_first());
        lemma_embed_split(s, pos, a, b);
        lemma_parse_string_render(s, pos, ss.first());
        lemma_parse_string_list_render(s, pos + a.len(), ss.drop_first());
        assert(seq![ss.first()] + ss.drop_first() =~= ss);
    }
}

proof fn lemma_parse_timesrc_render(s: Seq<char>, pos: int, v: TimeSrcView)
    requires
        0 <= pos,
        timesrc_wf(v),
        pos + render_timesrc(v).len() <= s.len(),
        s.subrange(pos, pos + render_timesrc(v).len()) == render_timesrc(v),
    ensures
        parse_timesrc(s, pos) == Some((v, pos + render_timesrc(v).len())),
{
    lemma_words_no_nl();
    match v {
        TimeSrcView::Clock => {
            lemma_parse_tag_embedded(s, pos, tag_clock());
        },
        TimeSrcView::Memory(ts) => {
            let a = render_tag(tag_memory());
            let b = render_num(ts.len() as u128);
            let c = render_num_list(ts);
            assert(render_timesrc(v) =~= a + (b + c));
            lemma_embed_split(s, pos, a, b + c);
            lemma_embed_split(s, pos + a.len(), b, c);
            lemma_parse_tag_embedded(s, pos, tag_memory());
            assert(tag_memory() != tag_clock()) by {
                assert(tag_memory()[0] == 'm');
                assert(tag_clock()[0] == 'c');
            }
            lemma_parse_num_render(s, pos + a.len(), ts.len() as u128);
            lemma_parse_num_list_render(s, pos + a.len() + b.len(), ts);
            assert((ts.len() as u128) as int == ts.len() as int);
        },
    }
}

proof fn lemma_parse_source_render(s: Seq<char>, pos: int, v: SourceView)
    requires
        0 <= pos,
        source_wf(v),
        pos + render_source(v).len() <= s.len(),
        s.subrange(pos, pos + render_source(v).len()) == render_source(v),
    ensures
        parse_source(s, pos) == Some((v, pos + render_source(v).len())),
{
    lemma_words_no_nl();
    match v {
        SourceView::InMemory(ss) => {
            let a = render_tag(tag_inmemory());
            let b = render_num(ss.len() as u128);
            let c = render_string_list(ss);
            assert(render_source(v) =~= a + (b + c));
            lemma_embed_split(s, pos, a, b + c);
            lemma_embed_split(s, pos + a.len(), b, c);
            lemma_parse_tag_embedded(s, pos, tag_inmemory());
            lemma_parse_num_render(s, pos + a.len(), ss.len() as u128);
            lemma_parse_string_list_render(s, pos + a.len() + b.len(), ss);
            assert((ss.len() as u128) as int == ss.len() as int);
        },
        SourceView::File(p, ll) => {
            let a = render_tag(tag_file());
            let b = render_string(p);
            let c = render_num(ll as u128);
            assert(render_source(v) =~= a + (b + c));
            lemma_embed_split(s, pos, a, b + c);
            lemma_embed_split(s, pos + a.len(), b, c);
            lemma_parse_tag_embedded(s, pos, tag_file());
            assert(tag_file() != tag_inmemory()) by {
                assert(tag_file().len() == 4);
                assert(tag_inmemory().len() == 8);
            }
            lemma_parse_string_render(s, pos + a.len(), p);
            lemma_parse_num_render(s, pos + a.len() + b.len(), ll as u128);
            assert((ll as u128) <= usize::MAX as u128);
        },
        SourceView::Http(u) => {
            let a = render_tag(tag_http());
            let b = render_string(u);
            assert(render_source(v) =~= a + b);
            lemma_embed_split(s, pos, a, b);
            lemma_parse_tag_embedded(s, pos, tag_http());
            assert(tag_http() != tag_inmemory()) by {
                assert(tag_http().len() == 4);
                assert(tag_inmemory().len() == 8);
            }
            assert(tag_http() != tag_file()) by {
                assert(tag_http()[0] == 'h');
                assert(tag_file()[0] == 'f');
            }
            lemma_parse_string_render(s, pos + a.len(), u);
        },
    }
}

proof fn lemma_parse_task_render(s: Seq<char>, pos: int, v: TaskView)
    requires
        0 <= pos,
        timesrc_wf(v.src),
        pos + render_task(v).len() <= s.len(),
        s.subrange(pos, pos + render_task(v).len()) == render_task(v),
    ensures
        parse_task(s, pos) == Some((v, pos + render_task(v).len())),
{
    let a = render_bool(v.repeat);
    let b = render_bool(v.done);
    let c = render_num(v.delay);
    let d = render_num(v.start);
    let e = render_timesrc(v.src);
    assert(render_task(v) =~= a + (b + (c + (d + e))));
    lemma_embed_split(s, pos, a, b + (c + (d + e)));
    lemma_embed_split(s, pos + a.len(), b, c + (d + e));
    lemma_embed_split(s, pos + a.len() + b.len(), c, d + e);
    lemma_embed_split(s, pos + a.len() + b.len() + c.len(), d, e);
    lemma_parse_bool_render(s, pos, v.repeat);
    lemma_parse_bool_render(s, pos + a.len(), v.done);
    lemma_parse_num_render(s, pos + a.len() + b.len(), v.delay);
    lemma_parse_num_render(s, pos + a.len() + b.len() + c.len(), v.start);
    lemma_parse_timesrc_render(s, pos + a.len() + b.len() + c.len() + d.len(), v.src);
}

proof fn lemma_parse_type_render(s: Seq<char>, pos: int, t: TriggerType)
    requires
        0 <= pos,
        pos + render_tag(type_word(t)).len() <= s.len(),
        s.subrange(pos, pos + render_tag(type_word(t)).len()) == render_tag(type_word(t)),
    ensures
        parse_type(s, pos) == Some((t, pos + render_tag(type_word(t)).len())),
{
    lemma_words_no_nl();
    lemma_parse_tag_embedded(s, pos, type_word(t));
    assert(type_word(TriggerType::NoEvent)[0] == 'n');
    assert(type_word(TriggerType::Success)[0] == 's');
    assert(type_word(TriggerType::Warning)[0] == 'w');
    assert(type_word(TriggerType::Error)[0] == 'e');
}

proof fn lemma_parse_trigger_render(s: Seq<char>, pos: int, v: TrigView)
    requires
        0 <= pos,
        pos + render_trigger(v).len() <= s.len(),
        s.subrange(pos, pos + render_trigger(v).len()) == render_trigger(v),
    ensures
        parse_trigger(s, pos) == Some((v, pos + render_trigger(v).len())),
{
    lemma_words_no_nl();
    let a = render_tag(tag_regex());
    let b = render_string(v.name);
    let c = render_string(v.description);
    let d = render_tag(type_word(v.trigger_type));
    let e = render_string(v.pattern);
    let f = render_bool(v.invert);
    assert(render_trigger(v) =~= a + (b + (c + (d + (e + f)))));
    lemma_embed_split(s, pos, a, b + (c + (d + (e + f))));
    lemma_embed_split(s, pos + a.len(), b, c + (d + (e + f)));
    lemma_embed_split(s, pos + a.len() + b.len(), c, d + (e + f));
    lemma_embed_split(s, pos + a.len() + b.len() + c.len(), d, e + f);
    lemma_embed_split(s, pos + a.len() + b.len() + c.len() + d.len(), e, f);
    lemma_parse_tag_embedded(s, pos, tag_regex());
    lemma_parse_string_render(s, pos + a.len(), v.name);
    lemma_parse_string_render(s, pos + a.len() + b.len(), v.description);
    lemma_parse_type_render(s, pos + a.len() + b.len() + c.len(), v.trigger_type);
    lemma_parse_string_render(s, pos + a.len() + b.len() + c.len() + d.len(), v.pattern);
    lemma_parse_bool_render(s, pos + a.len() + b.len() + c.len() + d.len() + e.len(), v.invert);
}

proof fn lemma_parse_trig_list_render(s: Seq<char>, pos: int, ts: Seq<TrigView>)
    requires
        0 <= pos,
        pos + render_trig_list(ts).len() <= s.len(),
        s.subrange(pos, pos + render_trig_list(ts).len()) == render_trig_list(ts),
    ensures
        parse_trig_list(s, pos, ts.len() as int) == Some((ts, pos + render_trig_list(ts).len())),
    decreases ts.len(),
{
    if ts.len() == 0 {
        assert(ts =~= Seq::<TrigView>::empty());
    } else {
        let a = render_trigger(ts.first());
        let b = render_trig_list(ts.drop_first());
        lemma_embed_split(s, pos, a, b);
        lemma_parse_trigger_render(s, pos, ts.first());
        lemma_parse_trig_list_render(s, pos + a.len(), ts.drop_first());
        assert(seq![ts.first()] + ts.drop_first() =~= ts);
    }
}

proof fn lemma_parse_pair_list_render(s: Seq<char>, pos: int, ps: Seq<(Seq<char>, Seq<char>)>)
    requires
        0 <= pos,
        pos + render_pair_list(ps).len() <= s.len(),
        s.subrange(pos, pos + render_pair_list(ps).len()) == render_pair_list(ps),
    ensures
        parse_pair_list(s, pos, ps.len() as int) == Some((ps, pos + render_pair_list(ps).len())),
    decreases ps.len(),
{
    if ps.len() == 0 {
        assert(ps =~= Seq::<(Seq<char>, Seq<char>)>::empty());
    } else {
        let a = render_string(ps.first().0);
        let b = render_string(ps.first().1);
        let c = render_pair_list(ps.drop_first());
        assert(render_pair_list(ps) =~= a + (b + c));
        lemma_embed_split(s, pos, a, b + c);
        lemma_embed_split(s, pos + a.len(), b, c);
        lemma_parse_string_render(s, pos, ps.first().0);
        lemma_parse_string_render(s, pos + a.len(), ps.first().1);
        lemma_parse_pair_list_render(s, pos + a.len() + b.len(), ps.drop_first());
        assert(seq![(ps.first().0, ps.first().1)] + ps.drop_first() =~= ps);
    }
}

proof fn lemma_parse_logfile_render(s: Seq<char>, pos: int, v: LogfileView)
    requires
        0 <= pos,
        lf_wf(v),
        pos + render_logfile(v).len() <= s.len(),
        s.subrange(pos, pos + render_logfile(v).len()) == render_logfile(v),
    ensures
        parse_logfile(s, pos) == Some((v, pos + render_logfile(v).len())),
{
    let a = render_string(v.name);
    let b = render_source(v.source);
    let c = render_task(v.task);
    let d = render_num(v.triggers.len() as u128);
    let e = render_trig_list(v.triggers);
    let f = render_num(v.extra.len() as u128);
    let g = render_pair_list(v.extra);
    assert(render_logfile(v) =~= a + (b + (c + (d + (e + (f + g))))));
    lemma_embed_split(s, pos, a, b + (c + (d + (e + (f + g)))));
    let p1 = pos + a.len();
    lemma_embed_split(s, p1, b, c + (d + (e + (f + g))));
    let p2 = p1 + b.len();
    lemma_embed_split(s, p2, c, d + (e + (f + g)));
    let p3 = p2 + c.len();
    lemma_embed_split(s, p3, d, e + (f + g));
    let p4 = p3 + d.len();
    lemma_embed_split(s, p4, e, f + g);
    let p5 = p4 + e.len();
    lemma_embed_split(s, p5, f, g);
    let p6 = p5 + f.len();
    lemma_parse_string_render(s, pos, v.name);
    lemma_parse_source_render(s, p1, v.source);
    lemma_parse_task_render(s, p2, v.task);
    lemma_parse_num_render(s, p3, v.triggers.len() as u128);
    lemma_parse_trig_list_render(s, p4, v.triggers);
    assert((v.triggers.len() as u128) as int == v.triggers.len() as int);
    lemma_parse_num_render(s, p5, v.extra.len() as u128);
    lemma_parse_pair_list_render(s, p6, v.extra);
    assert((v.extra.len() as u128) as int == v.extra.len() as int);
}

proof fn lemma_parse_lf_list_render(s: Seq<char>, pos: int, ls: Seq<LogfileView>)
    requires
        0 <= pos,
        forall|i: int| 0 <= i < ls.len() ==> lf_wf(#[trigger] ls[i]),
        pos + render_lf_list(ls).len() <= s.len(),
        s.subrange(pos, pos + render_lf_list(ls).len()) == render_lf_list(ls),
    ensures
        parse_lf_list(s, pos, ls.len() as int) == Some((ls, pos + render_lf_list(ls).len())),
    decreases ls.len(),
{
    if ls.len() == 0 {
        assert(ls =~= Seq::<LogfileView>::empty());
    } else {
        let a = render_logfile(ls.first());
        let b = render_lf_list(ls.drop_first());
        lemma_embed_split(s, pos, a, b);
        lemma_parse_logfile_render(s, pos, ls.first());
        assert(forall|i: int|
            0 <= i < ls.drop_first().len() ==> lf_wf(#[trigger] ls.drop_first()[i]));
        lemma_parse_lf_list_render(s, pos + a.len(), ls.drop_first());
        assert(seq![ls.first()] + ls.drop_first() =~= ls);
    }
}

/// The round trip: a rendered document, embedded anywhere, parses
/// back to exactly the content it was rendered from.
pub proof fn lemma_parse_logset_render(s: Seq<char>, pos: int, v: LogSetView)
    requires
        0 <= pos,
        ls_wf(v),
        pos + render_logset(v).len() <= s.len(),
        s.subrange(pos, pos + render_logset(v).len()) == render_logset(v),
    ensures
        parse_logset(s, pos) == Some((v, pos + render_logset(v).len())),
{
    let a = render_num(v.logs.len() as u128);
    let b = render_lf_list(v.logs);
    lemma_embed_split(s, pos, a, b);
    lemma_parse_num_render(s, pos, v.logs.len() as u128);
    lemma_parse_lf_list_render(s, pos + a.len(), v.logs);
    assert((v.logs.len() as u128) as int == v.logs.len() as int);
}

/// Persistence round-trips: for any well-formed content, reading the
/// rendered document back yields that content, the whole document
/// consumed.
pub proof fn lemma_logset_round_trip(v: LogSetView)
    requires
        ls_wf(v),
    ensures
        parse_logset(render_logset(v), 0) == Some((v, render_logset(v).len() as int)),
{
    let s = render_logset(v);
    assert(s.subrange(0, s.len() as int) =~= s);
    lemma_parse_logset_render(s, 0, v);
}

// ---- executable emit and read of primitive values ----

/// Appends a string value to the document.
fn emit_string(out: &mut String, v: &str)
    ensures
        final(out)@ == old(out)@ + render_string(v@),
{
    let e = escape(v);
    out.append(e.as_str());
    push_char(out, '\n');
    proof {
        assert(old(out)@ + esc(v@) + seq!['\n'] =~= old(out)@ + render_string(v@));
        assert((old(out)@ + esc(v@)).push('\n') =~= old(out)@ + esc(v@) + seq!['\n']);
    }
}

/// Appends a number to the document.
fn emit_num(out: &mut String, n: u128)
    ensures
        final(out)@ == old(out)@ + render_num(n),
{
    let d = u128_to_dec(n);
    out.append(d.as_str());
    push_char(out, '\n');
    proof {
        assert((old(out)@ + dec_digits(n as int)).push('\n') =~= old(out)@ + render_num(n));
    }
}

/// Appends a boolean to the document.
fn emit_bool(out: &mut String, b: bool)
    ensures
        final(out)@ == old(out)@ + render_bool(b),
{
    if b {
        out.append("1");
        proof {
            reveal_strlit("1");
        }
    } else {
        out.append("0");
        proof {
            reveal_strlit("0");
        }
    }
    push_char(out, '\n');
    proof {
        if b {
            assert((old(out)@ + "1"@).push('\n') =~= old(out)@ + render_bool(b));
        } else {
            assert((old(out)@ + "0"@).push('\n') =~= old(out)@ + render_bool(b));
        }
    }
}

/// Appends a tag word.
fn emit_tag_line(out: &mut String, w: &str)
    ensures
        final(out)@ == old(out)@ + render_tag(w@),
{
    out.append(w);
    push_char(out, '\n');
    proof {
        assert((old(out)@ + w@).push('\n') =~= old(out)@ + render_tag(w@));
    }
}

/// Appends the seeded timestamps from index `i` on.
fn emit_nums(out: &mut String, v: &Vec<u128>, i: usize)
    requires
        i <= v@.len(),
    ensures
        final(out)@ == old(out)@ + render_num_list(v@.subrange(i as int, v@.len() as int)),
    decreases v@.len() - i,
{
    let ghost rem = v@.subrange(i as int, v@.len() as int);
    if i < v.len() {
        proof {
            assert(rem.first() == v@[i as int]);
            assert(rem.drop_first() =~= v@.subrange(i as int + 1, v@.len() as int));
        }
        let ghost mid0 = out@;
        emit_num(out, v[i]);
        emit_nums(out, v, i + 1);
        proof {
            assert((mid0 + render_num(v@[i as int])) + render_num_list(rem.drop_first())
                =~= mid0 + render_num_list(rem));
        }
    } else {
        proof {
            assert(rem =~= Seq::<u128>::empty());
            assert(old(out)@ + render_num_list(rem) =~= old(out)@);
        }
    }
}

/// Appends the canned responses from index `i` on.
fn emit_strings(out: &mut String, v: &Vec<String>, i: usize)
    requires
        i <= v@.len(),
    ensures
        final(out)@ == old(out)@ + render_string_list(
            v@.subrange(i as int, v@.len() as int).map_values(|x: String| x@),
        ),
    decreases v@.len() - i,
{
    let ghost rem = v@.subrange(i as int, v@.len() as int).map_values(|x: String| x@);
    if i < v.len() {
        proof {
            assert(rem.first() == v@[i as int]@);
            assert(rem.drop_first() =~= v@.subrange(i as int + 1, v@.len() as int).map_values(
                |x: String| x@,
            ));
        }
        let ghost mid0 = out@;
        emit_string(out, v[i].as_str());
        emit_strings(out, v, i + 1);
        proof {
            assert((mid0 + render_string(v@[i as int]@)) + render_string_list(rem.drop_first())
                =~= mid0 + render_string_list(rem));
        }
    } else {
        proof {
            assert(rem =~= Seq::<Seq<char>>::empty());
            assert(old(out)@ + render_string_list(rem) =~= old(out)@);
        }
    }
}

/// Appends a time source.
fn emit_timesrc(out: &mut String, ts: &TimeSourceTypes)
    ensures
        final(out)@ == old(out)@ + render_timesrc(ts_view(*ts)),
{
    match ts {
        TimeSourceTypes::Clock(_) => {
            emit_tag_line(out, "clock");
            proof {
                reveal_strlit("clock");
                assert("clock"@ =~= tag_clock());
            }
        },
        TimeSourceTypes::InMemory(m) => {
            let ghost out0 = out@;
            emit_tag_line(out, "memory");
            emit_num(out, m.times.len() as u128);
            emit_nums(out, &m.times, 0);
            proof {
                reveal_strlit("memory");
                assert("memory"@ =~= tag_memory());
                assert(m.times@.subrange(0, m.times@.len() as int) =~= m.times@);
                assert(((out0 + render_tag(tag_memory())) + render_num(m.times@.len() as u128))
                    + render_num_list(m.times@) =~= out0 + render_timesrc(ts_view(*ts)));
            }
        },
    }
}

/// Appends a data source.
fn emit_source(out: &mut String, d: &DataSourceTypes)
    ensures
        final(out)@ == old(out)@ + render_source(ds_view(*d)),
{
    match d {
        DataSourceTypes::InMemory(m) => {
            let ghost out0 = out@;
            emit_tag_line(out, "inmemory");
            emit_num(out, m.data.len() as u128);
            emit_strings(out, &m.data, 0);
            proof {
                reveal_strlit("inmemory");
                assert("inmemory"@ =~= tag_inmemory());
                assert(m.data@.subrange(0, m.data@.len() as int) =~= m.data@);
                assert(((out0 + render_tag(tag_inmemory())) + render_num(m.data@.len() as u128))
                    + render_string_list(m.data@.map_values(|x: String| x@)) =~= out0
                    + render_source(ds_view(*d)));
            }
        },
        DataSourceTypes::File(f) => {
            let ghost out0 = out@;
            emit_tag_line(out, "file");
            emit_string(out, f.path.as_str());
            emit_num(out, f.line_limit as u128);
            proof {
                reveal_strlit("file");
                assert("file"@ =~= tag_file());
                assert(((out0 + render_tag(tag_file())) + render_string(f.path@)) + render_num(
                    f.line_limit as u128,
                ) =~= out0 + render_source(ds_view(*d)));
            }
        },
        DataSourceTypes::Http(h) => {
            let ghost out0 = out@;
            emit_tag_line(out, "http");
            emit_string(out, h.url.as_str());
            proof {
                reveal_strlit("http");
                assert("http"@ =~= tag_http());
                assert((out0 + render_tag(tag_http())) + render_string(h.url@) =~= out0
                    + render_source(ds_view(*d)));
            }
        },
    }
}

/// Appends a task.
fn emit_task(out: &mut String, t: &Task)
    ensures
        final(out)@ == old(out)@ + render_task(task_view(*t)),
{
    let ghost out0 = out@;
    emit_bool(out, t.repeat);
    emit_bool(out, t.done);
    emit_num(out, t.delay);
    emit_num(out, t.start);
    emit_timesrc(out, &t.time_src);
    proof {
        assert((((out0 + render_bool(t.repeat) + render_bool(t.done)) + render_num(t.delay))
            + render_num(t.start)) + render_timesrc(ts_view(t.time_src)) =~= out0 + render_task(
            task_view(*t),
        ));
    }
}

/// Appends a trigger.
fn emit_trigger(out: &mut String, t: &TriggerTypes)
    ensures
        final(out)@ == old(out)@ + render_trigger(trig_view(*t)),
{
    match t {
        TriggerTypes::Regex(rt) => {
            let ghost out0 = out@;
            emit_tag_line(out, "regex");
            emit_string(out, rt.name.as_str());
            emit_string(out, rt.description.as_str());
            match rt.trigger_type {
                TriggerType::NoEvent => {
                    emit_tag_line(out, "noevent");
                    proof {
                        reveal_strlit("noevent");
                        assert("noevent"@ =~= type_word(TriggerType::NoEvent));
                    }
                },
                TriggerType::Success => {
                    emit_tag_line(out, "success");
                    proof {
                        reveal_strlit("success");
                        assert("success"@ =~= type_word(TriggerType::Success));
                    }
                },
                TriggerType::Warning => {
                    emit_tag_line(out, "warning");
                    proof {
                        reveal_strlit("warning");
                        assert("warning"@ =~= type_word(TriggerType::Warning));
                    }
                },
                TriggerType::Error => {
                    emit_tag_line(out, "error");
                    proof {
                        reveal_strlit("error");
                        assert("error"@ =~= type_word(TriggerType::Error));
                    }
                },
            }
            emit_string(out, rt.re.as_str());
            emit_bool(out, rt.invert);
            proof {
                reveal_strlit("regex");
                assert("regex"@ =~= tag_regex());
                assert((((((out0 + render_tag(tag_regex())) + render_string(rt.name@))
                    + render_string(rt.description@)) + render_tag(type_word(rt.trigger_type)))
                    + render_string(rt.re@)) + render_bool(rt.invert) =~= out0 + render_trigger(
                    trig_view(*t),
                ));
            }
        },
    }
}

/// Appends the triggers from index `i` on.
fn emit_triggers(out: &mut String, v: &Vec<TriggerTypes>, i: usize)
    requires
        i <= v@.len(),
    ensures
        final(out)@ == old(out)@ + render_trig_list(
            v@.subrange(i as int, v@.len() as int).map_values(|x: TriggerTypes| trig_view(x)),
        ),
    decreases v@.len() - i,
{
    let ghost rem = v@.subrange(i as int, v@.len() as int).map_values(
        |x: TriggerTypes| trig_view(x),
    );
    if i < v.len() {
        proof {
            assert(rem.first() == trig_view(v@[i as int]));
            assert(rem.drop_first() =~= v@.subrange(i as int + 1, v@.len() as int).map_values(
                |x: TriggerTypes| trig_view(x),
            ));
        }
        let ghost mid0 = out@;
        emit_trigger(out, &v[i]);
        emit_triggers(out, v, i + 1);
        proof {
            assert((mid0 + render_trigger(trig_view(v@[i as int]))) + render_trig_list(
                rem.drop_first(),
            ) =~= mid0 + render_trig_list(rem));
        }
    } else {
        proof {
            assert(rem =~= Seq::<TrigView>::empty());
            assert(old(out)@ + render_trig_list(rem) =~= old(out)@);
        }
    }
}

/// Appends the auxiliary entries from index `i` on.
fn emit_pairs(out: &mut String, v: &Vec<(String, String)>, i: usize)
    requires
        i <= v@.len(),
    ensures
        final(out)@ == old(out)@ + render_pair_list(
            v@.subrange(i as int, v@.len() as int).map_values(
                |p: (String, String)| (p.0@, p.1@),
            ),
        ),
    decreases v@.len() - i,
{
    let ghost rem = v@.subrange(i as int, v@.len() as int).map_values(
        |p: (String, String)| (p.0@, p.1@),
    );
    if i < v.len() {
        proof {
            assert(rem.first() == (v@[i as int].0@, v@[i as int].1@));
            assert(rem.drop_first() =~= v@.subrange(i as int + 1, v@.len() as int).map_values(
                |p: (String, String)| (p.0@, p.1@),
            ));
        }
        let ghost mid0 = out@;
        emit_string(out, v[i].0.as_str());
        emit_string(out, v[i].1.as_str());
        emit_pairs(out, v, i + 1);
        proof {
            assert(((mid0 + render_string(v@[i as int].0@)) + render_string(v@[i as int].1@))
                + render_pair_list(rem.drop_first()) =~= mid0 + render_pair_list(rem));
        }
    } else {
        proof {
            assert(rem =~= Seq::<(Seq<char>, Seq<char>)>::empty());
            assert(old(out)@ + render_pair_list(rem) =~= old(out)@);
        }
    }
}

/// Appends one logfile record.
fn emit_logfile(out: &mut String, lf: &Logfile)
    ensures
        final(out)@ == old(out)@ + render_logfile(lf_view(*lf)),
{
    let ghost out0 = out@;
    emit_string(out, lf.name.as_str());
    emit_source(out, &lf.source);
    emit_task(out, &lf.task);
    emit_num(out, lf.triggers.len() as u128);
    emit_triggers(out, &lf.triggers, 0);
    let entries = lf.extra.len();
    emit_num(out, entries as u128);
    emit_pairs(out, &lf.extra.data, 0);
    proof {
        assert(lf.triggers@.subrange(0, lf.triggers@.len() as int) =~= lf.triggers@);
        assert(lf.extra.data@.subrange(0, lf.extra.data@.len() as int) =~= lf.extra.data@);
        let v = lf_view(*lf);
        assert((((((out0 + render_string(v.name)) + render_source(v.source)) + render_task(v.task)
            + render_num(v.triggers.len() as u128)) + render_trig_list(v.triggers)) + render_num(
            v.extra.len() as u128,
        )) + render_pair_list(v.extra) =~= out0 + render_logfile(v));
    }
}

/// Appends the logfiles from index `i` on.
fn emit_lfs(out: &mut String, v: &Vec<Logfile>, i: usize)
    requires
        i <= v@.len(),
    ensures
        final(out)@ == old(out)@ + render_lf_list(
            v@.subrange(i as int, v@.len() as int).map_values(|x: Logfile| lf_view(x)),
        ),
    decreases v@.len() - i,
{
    let ghost rem = v@.subrange(i as int, v@.len() as int).map_values(|x: Logfile| lf_view(x));
    if i < v.len() {
        proof {
            assert(rem.first() == lf_view(v@[i as int]));
            assert(rem.drop_first() =~= v@.subrange(i as int + 1, v@.len() as int).map_values(
                |x: Logfile| lf_view(x),
            ));
        }
        let ghost mid0 = out@;
        emit_logfile(out, &v[i]);
        emit_lfs(out, v, i + 1);
        proof {
            assert((mid0 + render_logfile(lf_view(v@[i as int]))) + render_lf_list(
                rem.drop_first(),
            ) =~= mid0 + render_lf_list(rem));
        }
    } else {
        proof {
            assert(rem =~= Seq::<LogfileView>::empty());
            assert(old(out)@ + render_lf_list(rem) =~= old(out)@);
        }
    }
}

/// Reads a string value.
fn read_string(s: &str, pos: usize) -> (r: Option<(String, usize)>)
    requires
        pos <= s@.len(),
    ensures
        (match r {
            Some(t) => parse_string(s@, pos as int) == Some((t.0@, t.1 as int)) && pos < t.1
                <= s@.len(),
            None => parse_string(s@, pos as int) is None,
        }),
{
    match read_line(s, pos) {
        Some((line, p2)) => Some((unescape(line.as_str()), p2)),
        None => None,
    }
}

/// Reads a number.
fn read_num(s: &str, pos: usize) -> (r: Option<(u128, usize)>)
    requires
        pos <= s@.len(),
    ensures
        (match r {
            Some(t) => parse_num(s@, pos as int) == Some((t.0, t.1 as int)) && pos < t.1
                <= s@.len(),
            None => parse_num(s@, pos as int) is None,
        }),
{
    let (line, p2) = match read_line(s, pos) {
        Some(t) => t,
        None => {
            return None;
        },
    };
    let llen = line.as_str().unicode_len();
    if llen == 0 {
        return None;
    }
    let mut v: Option<u128> = Some(0);
    let mut i: usize = 0;
    proof {
        assert(line@.subrange(0, 0) =~= Seq::<char>::empty());
    }
    while i < llen
        invariant
            i <= llen,
            llen == line@.len(),
            next_line(s@, pos as int) == Some((line@, p2 as int)),
            pos < p2 <= s@.len(),
            all_digits(line@.subrange(0, i as int)),
            match v {
                Some(x) => x == dec_val(line@.subrange(0, i as int)),
                None => dec_val(line@.subrange(0, i as int)) > u128::MAX,
            },
        decreases llen - i,
    {
        let c = line.as_str().get_char(i);
        if !((c as u32) >= 48 && (c as u32) <= 57) {
            proof {
                assert(!is_digit(line@[i as int]));
                assert(!all_digits(line@));
            }
            return None;
        }
        let d: u128 = (c as u32 as u128) - 48;
        let ghost pre = line@.subrange(0, i as int);
        let ghost cur = line@.subrange(0, i as int + 1);
        proof {
            assert(cur.drop_last() =~= pre);
            assert(cur.last() == line@[i as int]);
            assert(dec_val(cur) == dec_val(pre) * 10 + digit_val(line@[i as int]));
            lemma_dec_val_nonneg(pre);
        }
        v = match v {
            Some(x) => {
                match x.checked_mul(10) {
                    Some(y) => y.checked_add(d),
                    None => None,
                }
            },
            None => None,
        };
        i = i + 1;
    }
    proof {
        assert(line@.subrange(0, llen as int) =~= line@);
    }
    match v {
        Some(x) => Some((x, p2)),
        None => None,
    }
}

/// Reads a boolean.
fn read_bool(s: &str, pos: usize) -> (r: Option<(bool, usize)>)
    requires
        pos <= s@.len(),
    ensures
        (match r {
            Some(t) => parse_bool(s@, pos as int) == Some((t.0, t.1 as int)) && pos < t.1
                <= s@.len(),
            None => parse_bool(s@, pos as int) is None,
        }),
{
    let (line, p2) = match read_line(s, pos) {
        Some(t) => t,
        None => {
            return None;
        },
    };
    proof {
        reveal_strlit("1");
        reveal_strlit("0");
        assert("1"@ =~= seq!['1']);
        assert("0"@ =~= seq!['0']);
        assert(seq!['1'][0] == '1');
        assert(seq!['0'][0] == '0');
        assert(seq!['1'] != seq!['0']) by {
            if seq!['1'] == seq!['0'] {
                assert(seq!['1'][0] == seq!['0'][0]);
            }
        }
    }
    if crate::text::str_eq(line.as_str(), "1") {
        Some((true, p2))
    } else if crate::text::str_eq(line.as_str(), "0") {
        Some((false, p2))
    } else {
        None
    }
}

/// Reads the seeded timestamps, `n` of them.
fn read_nums(s: &str, pos: usize, n: u128) -> (r: Option<(Vec<u128>, usize)>)
    requires
        pos <= s@.len(),
    ensures
        (match parse_num_list(s@, pos as int, n as int) {
            Some((ts, p)) => r matches Some(t) && t.0@ == ts && t.1 as int == p && t.1
                <= s@.len(),
            None => r is None,
        }),
    decreases n,
{
    if n == 0 {
        let out: Vec<u128> = Vec::new();
        proof {
            assert(out@ =~= Seq::<u128>::empty());
        }
        return Some((out, pos));
    }
    let (x, p2) = match read_num(s, pos) {
        Some(t) => t,
        None => {
            return None;
        },
    };
    let (mut rest, p3) = match read_nums(s, p2, n - 1) {
        Some(t) => t,
        None => {
            return None;
        },
    };
    let ghost rest0 = rest@;
    rest.insert(0, x);
    proof {
        assert(rest@ =~= seq![x] + rest0);
    }
    Some((rest, p3))
}

/// Reads the canned responses, `n` of them.
fn read_strings(s: &str, pos: usize, n: u128) -> (r: Option<(Vec<String>, usize)>)
    requires
        pos <= s@.len(),
    ensures
        (match parse_string_list(s@, pos as int, n as int) {
            Some((ss, p)) => r matches Some(t) && t.0@.map_values(|x: String| x@) == ss && t.1
                as int == p && t.1 <= s@.len(),
            None => r is None,
        }),
    decreases n,
{
    if n == 0 {
        let out: Vec<String> = Vec::new();
        proof {
            assert(out@.map_values(|x: String| x@) =~= Seq::<Seq<char>>::empty());
        }
        return Some((out, pos));
    }
    let (x, p2) = match read_string(s, pos) {
        Some(t) => t,
        None => {
            return None;
        },
    };
    let (mut rest, p3) = match read_strings(s, p2, n - 1) {
        Some(t) => t,
        None => {
            return None;
        },
    };
    let ghost rest0 = rest@;
    let ghost xv = x@;
    rest.insert(0, x);
    proof {
        assert(rest@.map_values(|y: String| y@) =~= seq![xv] + rest0.map_values(|y: String| y@));
    }
    Some((rest, p3))
}

/// Reads a time source.
fn read_timesrc(s: &str, pos: usize) -> (r: Option<(TimeSourceTypes, usize)>)
    requires
        pos <= s@.len(),
    ensures
        (match parse_timesrc(s@, pos as int) {
            Some((v, p)) => r matches Some(t) && ts_view(t.0) == v && t.1 as int == p && t.1
                <= s@.len(),
            None => r is None,
        }),
{
    let (line, p2) = match read_line(s, pos) {
        Some(t) => t,
        None => {
            return None;
        },
    };
    proof {
        reveal_strlit("clock");
        reveal_strlit("memory");
        assert("clock"@ =~= tag_clock());
        assert("memory"@ =~= tag_memory());
    }
    if crate::text::str_eq(line.as_str(), "clock") {
        return Some((TimeSourceTypes::Clock(ClockTimeSource), p2));
    }
    if !crate::text::str_eq(line.as_str(), "memory") {
        return None;
    }
    let (n, p3) = match read_num(s, p2) {
        Some(t) => t,
        None => {
            return None;
        },
    };
    let (times, p4) = match read_nums(s, p3, n) {
        Some(t) => t,
        None => {
            return None;
        },
    };
    Some((TimeSourceTypes::InMemory(InMemoryTimeSource { times }), p4))
}

/// Reads a data source.
fn read_source(s: &str, pos: usize) -> (r: Option<(DataSourceTypes, usize)>)
    requires
        pos <= s@.len(),
    ensures
        (match parse_source(s@, pos as int) {
            Some((v, p)) => r matches Some(t) && ds_view(t.0) == v && t.1 as int == p && t.1
                <= s@.len(),
            None => r is None,
        }),
{
    let (line, p2) = match read_line(s, pos) {
        Some(t) => t,
        None => {
            return None;
        },
    };
    proof {
        reveal_strlit("inmemory");
        reveal_strlit("file");
        reveal_strlit("http");
        assert("inmemory"@ =~= tag_inmemory());
        assert("file"@ =~= tag_file());
        assert("http"@ =~= tag_http());
    }
    if crate::text::str_eq(line.as_str(), "inmemory") {
        let (n, p3) = match read_num(s, p2) {
            Some(t) => t,
            None => {
                return None;
            },
        };
        let (data, p4) = match read_strings(s, p3, n) {
            Some(t) => t,
            None => {
                return None;
            },
        };
        return Some((DataSourceTypes::InMemory(InMemoryDataSource { data }), p4));
    }
    if crate::text::str_eq(line.as_str(), "file") {
        let (path, p3) = match read_string(s, p2) {
            Some(t) => t,
            None => {
                return None;
            },
        };
        let (ll, p4) = match read_num(s, p3) {
            Some(t) => t,
            None => {
                return None;
            },
        };
        if ll > usize::MAX as u128 {
            return None;
        }
        return Some(
            (DataSourceTypes::File(FileDataSource { path, line_limit: ll as usize }), p4),
        );
    }
    if crate::text::str_eq(line.as_str(), "http") {
        let (url, p3) = match read_string(s, p2) {
            Some(t) => t,
            None => {
                return None;
            },
        };
        return Some((DataSourceTypes::Http(HttpDataSource { url }), p3));
    }
    None
}

/// Reads a task.
fn read_task(s: &str, pos: usize) -> (r: Option<(Task, usize)>)
    requires
        pos <= s@.len(),
    ensures
        (match parse_task(s@, pos as int) {
            Some((v, p)) => r matches Some(t) && task_view(t.0) == v && t.1 as int == p && t.1
                <= s@.len(),
            None => r is None,
        }),
{
    let (repeat, p1) = match read_bool(s, pos) {
        Some(t) => t,
        None => {
            return None;
        },
    };
    let (done, p2) = match read_bool(s, p1) {
        Some(t) => t,
        None => {
            return None;
        },
    };
    let (delay, p3) = match read_num(s, p2) {
        Some(t) => t,
        None => {
            return None;
        },
    };
    let (start, p4) = match read_num(s, p3) {
        Some(t) => t,
        None => {
            return None;
        },
    };
    let (time_src, p5) = match read_timesrc(s, p4) {
        Some(t) => t,
        None => {
            return None;
        },
    };
    Some((Task { repeat, done, delay, start, time_src }, p5))
}

/// Reads a trigger classification.
fn read_type(s: &str, pos: usize) -> (r: Option<(TriggerType, usize)>)
    requires
        pos <= s@.len(),
    ensures
        (match parse_type(s@, pos as int) {
            Some((v, p)) => r matches Some(t) && t.0 == v && t.1 as int == p && t.1 <= s@.len(),
            None => r is None,
        }),
{
    let (line, p2) = match read_line(s, pos) {
        Some(t) => t,
        None => {
            return None;
        },
    };
    proof {
        reveal_strlit("noevent");
        reveal_strlit("success");
        reveal_strlit("warning");
        reveal_strlit("error");
        assert("noevent"@ =~= type_word(TriggerType::NoEvent));
        assert("success"@ =~= type_word(TriggerType::Success));
        assert("warning"@ =~= type_word(TriggerType::Warning));
        assert("error"@ =~= type_word(TriggerType::Error));
    }
    if crate::text::str_eq(line.as_str(), "noevent") {
        Some((TriggerType::NoEvent, p2))
    } else if crate::text::str_eq(line.as_str(), "success") {
        Some((TriggerType::Success, p2))
    } else if crate::text::str_eq(line.as_str(), "warning") {
        Some((TriggerType::Warning, p2))
    } else if crate::text::str_eq(line.as_str(), "error") {
        Some((TriggerType::Error, p2))
    } else {
        None
    }
}

/// Reads one trigger.
fn read_trigger(s: &str, pos: usize) -> (r: Option<(TriggerTypes, usize)>)
    requires
        pos <= s@.len(),
    ensures
        (match parse_trigger(s@, pos as int) {
            Some((v, p)) => r matches Some(t) && trig_view(t.0) == v && t.1 as int == p && t.1
                <= s@.len(),
            None => r is None,
        }),
{
    let (line, p1) = match read_line(s, pos) {
        Some(t) => t,
        None => {
            return None;
        },
    };
    proof {
        reveal_strlit("regex");
        assert("regex"@ =~= tag_regex());
    }
    if !crate::text::str_eq(line.as_str(), "regex") {
        return None;
    }
    let (name, p2) = match read_string(s, p1) {
        Some(t) => t,
        None => {
            return None;
        },
    };
    let (description, p3) = match read_string(s, p2) {
        Some(t) => t,
        None => {
            return None;
        },
    };
    let (trigger_type, p4) = match read_type(s, p3) {
        Some(t) => t,
        None => {
            return None;
        },
    };
    let (re, p5) = match read_string(s, p4) {
        Some(t) => t,
        None => {
            return None;
        },
    };
    let (invert, p6) = match read_bool(s, p5) {
        Some(t) => t,
        None => {
            return None;
        },
    };
    Some((TriggerTypes::Regex(RegexTrigger { name, description, trigger_type, re, invert }), p6))
}

/// Reads `n` triggers.
fn read_triggers(s: &str, pos: usize, n: u128) -> (r: Option<(Vec<TriggerTypes>, usize)>)
    requires
        pos <= s@.len(),
    ensures
        (match parse_trig_list(s@, pos as int, n as int) {
            Some((ts, p)) => r matches Some(t) && t.0@.map_values(|x: TriggerTypes| trig_view(x))
                == ts && t.1 as int == p && t.1 <= s@.len(),
            None => r is None,
        }),
    decreases n,
{
    if n == 0 {
        let out: Vec<TriggerTypes> = Vec::new();
        proof {
            assert(out@.map_values(|x: TriggerTypes| trig_view(x)) =~= Seq::<TrigView>::empty());
        }
        return Some((out, pos));
    }
    let (x, p2) = match read_trigger(s, pos) {
        Some(t) => t,
        None => {
            return None;
        },
    };
    let (mut rest, p3) = match read_triggers(s, p2, n - 1) {
        Some(t) => t,
        None => {
            return None;
        },
    };
    let ghost rest0 = rest@;
    let ghost xv = trig_view(x);
    rest.insert(0, x);
    proof {
        assert(rest@.map_values(|y: TriggerTypes| trig_view(y)) =~= seq![xv] + rest0.map_values(
            |y: TriggerTypes| trig_view(y),
        ));
    }
    Some((rest, p3))
}

/// Reads `n` auxiliary entries.
fn read_pairs(s: &str, pos: usize, n: u128) -> (r: Option<(Vec<(String, String)>, usize)>)
    requires
        pos <= s@.len(),
    ensures
        (match parse_pair_list(s@, pos as int, n as int) {
            Some((ps, p)) => r matches Some(t) && t.0@.map_values(
                |q: (String, String)| (q.0@, q.1@),
            ) == ps && t.1 as int == p && t.1 <= s@.len(),
            None => r is None,
        }),
    decreases n,
{
    if n == 0 {
        let out: Vec<(String, String)> = Vec::new();
        proof {
            assert(out@.map_values(|q: (String, String)| (q.0@, q.1@)) =~= Seq::<
                (Seq<char>, Seq<char>),
            >::empty());
        }
        return Some((out, pos));
    }
    let (k, p2) = match read_string(s, pos) {
        Some(t) => t,
        None => {
            return None;
        },
    };
    let (v, p3) = match read_string(s, p2) {
        Some(t) => t,
        None => {
            return None;
        },
    };
    let (mut rest, p4) = match read_pairs(s, p3, n - 1) {
        Some(t) => t,
        None => {
            return None;
        },
    };
    let ghost rest0 = rest@;
    let ghost kv = (k@, v@);
    rest.insert(0, (k, v));
    proof {
        assert(rest@.map_values(|q: (String, String)| (q.0@, q.1@)) =~= seq![kv]
            + rest0.map_values(|q: (String, String)| (q.0@, q.1@)));
    }
    Some((rest, p4))
}

/// Reads one logfile record.
fn read_logfile(s: &str, pos: usize) -> (r: Option<(Logfile, usize)>)
    requires
        pos <= s@.len(),
    ensures
        (match parse_logfile(s@, pos as int) {
            Some((v, p)) => r matches Some(t) && lf_view(t.0) == v && t.1 as int == p && t.1
                <= s@.len(),
            None => r is None,
        }),
{
    let (name, p1) = match read_string(s, pos) {
        Some(t) => t,
        None => {
            return None;
        },
    };
    let (source, p2) = match read_source(s, p1) {
        Some(t) => t,
        None => {
            return None;
        },
    };
    let (task, p3) = match read_task(s, p2) {
        Some(t) => t,
        None => {
            return None;
        },
    };
    let (nt, p4) = match read_num(s, p3) {
        Some(t) => t,
        None => {
            return None;
        },
    };
    let (triggers, p5) = match read_triggers(s, p4, nt) {
        Some(t) => t,
        None => {
            return None;
        },
    };
    let (ne, p6) = match read_num(s, p5) {
        Some(t) => t,
        None => {
            return None;
        },
    };
    let (entries, p7) = match read_pairs(s, p6, ne) {
        Some(t) => t,
        None => {
            return None;
        },
    };
    Some(
        (
            Logfile {
                name,
                source,
                task,
                triggers,
                extra: crate::extra::ExtraData { data: entries },
            },
            p7,
        ),
    )
}

/// Reads `n` logfile records.
fn read_lfs(s: &str, pos: usize, n: u128) -> (r: Option<(Vec<Logfile>, usize)>)
    requires
        pos <= s@.len(),
    ensures
        (match parse_lf_list(s@, pos as int, n as int) {
            Some((ls, p)) => r matches Some(t) && t.0@.map_values(|x: Logfile| lf_view(x)) == ls
                && t.1 as int == p && t.1 <= s@.len(),
            None => r is None,
        }),
    decreases n,
{
    if n == 0 {
        let out: Vec<Logfile> = Vec::new();
        proof {
            assert(out@.map_values(|x: Logfile| lf_view(x)) =~= Seq::<LogfileView>::empty());
        }
        return Some((out, pos));
    }
    let (x, p2) = match read_logfile(s, pos) {
        Some(t) => t,
        None => {
            return None;
        },
    };
    let (mut rest, p3) = match read_lfs(s, p2, n - 1) {
        Some(t) => t,
        None => {
            return None;
        },
    };
    let ghost rest0 = rest@;
    let ghost xv = lf_view(x);
    rest.insert(0, x);
    proof {
        assert(rest@.map_values(|y: Logfile| lf_view(y)) =~= seq![xv] + rest0.map_values(
            |y: Logfile| lf_view(y),
        ));
    }
    Some((rest, p3))
}

impl LogSet {
    /// Renders the whole set as its persisted document, as
    /// `render_logset` describes; `lemma_logset_round_trip` shows
    /// that `deserialize` reads the document back to the same
    /// observable content.
    pub fn serialize(&self) -> (r: Result<String, Error>)
        ensures
            r matches Ok(out) && out@ == render_logset(ls_view(*self)),
    {
        let mut out = String::new();
        emit_num(&mut out, self.logs.len() as u128);
        emit_lfs(&mut out, &self.logs, 0);
        proof {
            assert(self.logs@.subrange(0, self.logs@.len() as int) =~= self.logs@);
            assert(out@ =~= render_logset(ls_view(*self)));
        }
        Ok(out)
    }

    /// Reads a persisted document back, as `parse_logset` describes.
    /// A document that does not parse, or leaves anything unread,
    /// fails with `DeserializeError`.
    pub fn deserialize(s: &str) -> (r: Result<LogSet, Error>)
        ensures
            (match parse_logset(s@, 0) {
                Some((v, p)) => {
                    if p == s@.len() {
                        r matches Ok(ls) && ls_view(ls) == v
                    } else {
                        r == Err::<LogSet, Error>(Error::DeserializeError)
                    }
                },
                None => r == Err::<LogSet, Error>(Error::DeserializeError),
            }),
    {
        let len = s.unicode_len();
        let (n, p1) = match read_num(s, 0) {
            Some(t) => t,
            None => {
                return Err(Error::DeserializeError);
            },
        };
        let (logs, p2) = match read_lfs(s, p1, n) {
            Some(t) => t,
            None => {
                return Err(Error::DeserializeError);
            },
        };
        if p2 != len {
            return Err(Error::DeserializeError);
        }
        Ok(LogSet { logs })
    }
}

/// Persistence round-trips for every real set: the document
/// `serialize` renders for it parses back, fully consumed, to the
/// set's exact observable content — log count, names, source
/// configurations, trigger lists, task fields and auxiliary entries.
pub proof fn lemma_persistence_round_trip(x: LogSet)
    ensures
        parse_logset(render_logset(ls_view(x)), 0) == Some(
            (ls_view(x), render_logset(ls_view(x)).len() as int),
        ),
{
    lemma_ls_view_wf(x);
    lemma_logset_round_trip(ls_view(x));
}

/// Every view taken of a real set is well formed: its lists are held
/// in vectors, whose lengths fit the machine.
pub proof fn lemma_ls_view_wf(ls: LogSet)
    ensures
        ls_wf(ls_view(ls)),
{
    vstd::std_specs::vec::axiom_spec_len(&ls.logs);
    assert forall|i: int| 0 <= i < ls_view(ls).logs.len() implies lf_wf(
        #[trigger] ls_view(ls).logs[i],
    ) by {
        let lf = ls.logs@[i];
        assert(ls_view(ls).logs[i] == lf_view(lf));
        vstd::std_specs::vec::axiom_spec_len(&lf.triggers);
        vstd::std_specs::vec::axiom_spec_len(&lf.extra.data);
        match lf.source {
            DataSourceTypes::InMemory(m) => {
                vstd::std_specs::vec::axiom_spec_len(&m.data);
            },
            _ => {},
        }
        match lf.task.time_src {
            TimeSourceTypes::InMemory(m) => {
                vstd::std_specs::vec::axiom_spec_len(&m.times);
            },
            _ => {},
        }
    }
}

} // verus!
