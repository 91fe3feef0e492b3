use vstd::prelude::*;
use vstd::utf8::*;
use crate::error::Error;
use crate::text::{is_ascii_bytes, utf8_to_string, utf8_valid};

verus! {

/// The number of newline bytes in the sequence; the stream has one
/// line more than this.
pub open spec fn count_nl(s: Seq<u8>) -> nat
    decreases s.len(),
{
    if s.len() == 0 {
        0
    } else {
        (if s.first() == 10u8 {
            1nat
        } else {
            0nat
        }) + count_nl(s.drop_first())
    }
}

/// The position of the first newline byte, or -1 where there is none.
pub open spec fn find_nl(s: Seq<u8>) -> int
    decreases s.len(),
{
    if s.len() == 0 {
        -1
    } else if s.first() == 10u8 {
        0
    } else {
        let r = find_nl(s.drop_first());
        if r < 0 {
            -1
        } else {
            r + 1
        }
    }
}

/// Newlines in a concatenation are the newlines of the parts.
pub proof fn lemma_count_nl_concat(a: Seq<u8>, b: Seq<u8>)
    ensures
        count_nl(a + b) == count_nl(a) + count_nl(b),
    decreases a.len(),
{
    if a.len() == 0 {
        assert(a + b =~= b);
    } else {
        assert((a + b).drop_first() =~= a.drop_first() + b);
        assert((a + b).first() == a.first());
        lemma_count_nl_concat(a.drop_first(), b);
    }
}

/// There are no more newlines than bytes.
pub proof fn lemma_count_nl_le_len(s: Seq<u8>)
    ensures
        count_nl(s) <= s.len(),
    decreases s.len(),
{
    if s.len() > 0 {
        lemma_count_nl_le_len(s.drop_first());
    }
}

/// What `find_nl` reports is the first newline, where there is one.
pub proof fn lemma_find_nl(s: Seq<u8>)
    ensures
        find_nl(s) == -1 ==> count_nl(s) == 0,
        find_nl(s) >= 0 ==> 0 <= find_nl(s) < s.len() && s[find_nl(s)] == 10u8 && (forall|t: int|
            0 <= t < find_nl(s) ==> s[t] != 10u8),
    decreases s.len(),
{
    if s.len() > 0 && s.first() != 10u8 {
        lemma_find_nl(s.drop_first());
        let r = find_nl(s.drop_first());
        if r >= 0 {
            assert forall|t: int| 0 <= t < r + 1 implies s[t] != 10u8 by {
                if t > 0 {
                    assert(s.drop_first()[t - 1] != 10u8);
                }
            }
        }
    }
}

/// A newline preceded by none other is what `find_nl` reports.
pub proof fn lemma_find_nl_at(s: Seq<u8>, k: int)
    requires
        0 <= k < s.len(),
        s[k] == 10u8,
        forall|t: int| 0 <= t < k ==> s[t] != 10u8,
    ensures
        find_nl(s) == k,
    decreases s.len(),
{
    if k > 0 {
        assert(forall|t: int|
            0 <= t < k - 1 ==> s.drop_first()[t] == #[trigger] s[t + 1] && s[t + 1] != 10u8);
        lemma_find_nl_at(s.drop_first(), k - 1);
    }
}

/// A sequence without newline bytes has none to find or count.
pub proof fn lemma_find_nl_none(s: Seq<u8>)
    requires
        forall|t: int| 0 <= t < s.len() ==> s[t] != 10u8,
    ensures
        find_nl(s) == -1,
        count_nl(s) == 0,
    decreases s.len(),
{
    if s.len() > 0 {
        assert(forall|t: int|
            0 <= t < s.len() - 1 ==> s.drop_first()[t] == #[trigger] s[t + 1] && s[t + 1] != 10u8);
        lemma_find_nl_none(s.drop_first());
    }
}

/// Dropping everything through the first newline drops one newline.
pub proof fn lemma_count_nl_after_first(s: Seq<u8>, k: int)
    requires
        0 <= k < s.len(),
        s[k] == 10u8,
        forall|t: int| 0 <= t < k ==> s[t] != 10u8,
    ensures
        count_nl(s) == 1 + count_nl(s.subrange(k + 1, s.len() as int)),
{
    let pre = s.subrange(0, k);
    let mid = s.subrange(k, k + 1);
    let post = s.subrange(k + 1, s.len() as int);
    assert(s =~= pre + (mid + post));
    lemma_count_nl_concat(pre, mid + post);
    lemma_count_nl_concat(mid, post);
    assert forall|t: int| 0 <= t < pre.len() implies pre[t] != 10u8 by {
        assert(pre[t] == s[t]);
    }
    lemma_find_nl_none(pre);
    assert(mid =~= seq![10u8]);
    assert(seq![10u8].first() == 10u8);
    assert(seq![10u8].drop_first() =~= Seq::<u8>::empty());
    assert(count_nl(Seq::<u8>::empty()) == 0);
    assert(count_nl(seq![10u8]) == 1);
}

#[via_fn]
proof fn spec_trim_dec(s: Seq<u8>, limit: int) {
    lemma_find_nl(s);
}

/// The trailing slice that the tail read returns: while the buffer
/// still holds at least `limit` newlines, everything through the first
/// newline is dropped.
pub open spec fn spec_trim(s: Seq<u8>, limit: int) -> Seq<u8>
    decreases s.len(),
    via spec_trim_dec
{
    if count_nl(s) >= limit {
        let i = find_nl(s);
        if i >= 0 {
            spec_trim(s.subrange(i + 1, s.len() as int), limit)
        } else {
            s
        }
    } else {
        s
    }
}

/// Trimming a suffix that still holds more than `limit` newlines gives
/// the same slice as trimming the whole stream: the tail read may stop
/// loading as soon as the newline budget is exceeded.
pub proof fn lemma_trim_suffix(s: Seq<u8>, j: int, limit: int)
    requires
        0 <= j <= s.len(),
        limit >= 0,
        count_nl(s.subrange(j, s.len() as int)) > limit,
    ensures
        spec_trim(s.subrange(j, s.len() as int), limit) == spec_trim(s, limit),
    decreases s.len(),
{
    let b = s.subrange(j, s.len() as int);
    let pre = s.subrange(0, j);
    assert(s =~= pre + b);
    lemma_count_nl_concat(pre, b);
    assert(count_nl(s) >= count_nl(b));
    lemma_find_nl(s);
    let i = find_nl(s);
    if i == -1 {
        assert(count_nl(s) == 0);
        assert(count_nl(b) >= 1);
        assert(false);
    }
    assert(0 <= i < s.len() && s[i] == 10u8);
    if i >= j {
        // the prefix holds no newline: both sides step to the same slice
        assert forall|t: int| 0 <= t < i - j implies b[t] != 10u8 by {
            assert(b[t] == s[j + t]);
        }
        assert(b[i - j] == s[i]);
        lemma_find_nl_at(b, i - j);
        assert(spec_trim(b, limit) == spec_trim(b.subrange(i - j + 1, b.len() as int), limit));
        assert(b.subrange(i - j + 1, b.len() as int) =~= s.subrange(i + 1, s.len() as int));
        assert(spec_trim(s, limit) == spec_trim(s.subrange(i + 1, s.len() as int), limit));
    } else {
        // the first newline lies before the suffix: step the whole
        // stream once and recurse
        let s2 = s.subrange(i + 1, s.len() as int);
        assert(b =~= s2.subrange(j - i - 1, s2.len() as int));
        lemma_trim_suffix(s2, j - i - 1, limit);
        assert(spec_trim(s, limit) == spec_trim(s2, limit));
    }
}

proof fn lemma_trim_count_raw(s: Seq<u8>, limit: int)
    ensures
        count_nl(spec_trim(s, limit)) == if count_nl(s) < limit {
            count_nl(s) as int
        } else if limit >= 1 {
            limit - 1
        } else {
            0
        },
    decreases s.len(),
{
    if count_nl(s) >= limit {
        lemma_find_nl(s);
        let i = find_nl(s);
        if i >= 0 {
            lemma_count_nl_after_first(s, i);
            lemma_trim_count_raw(s.subrange(i + 1, s.len() as int), limit);
        }
    }
}

/// The tail slice holds `min(limit, total)` lines, counting one line
/// per newline plus the final unterminated line. (With a limit of
/// zero the slice still holds the unterminated last line.)
pub proof fn lemma_tail_line_count(s: Seq<u8>, limit: int)
    requires
        limit >= 1,
    ensures
        count_nl(spec_trim(s, limit)) + 1 == if count_nl(s) + 1 <= limit {
            count_nl(s) + 1int
        } else {
            limit
        },
{
    lemma_trim_count_raw(s, limit);
}

#[via_fn]
proof fn trim_start_dec(s: Seq<u8>, limit: int) {
    lemma_find_nl(s);
}

/// Where in the stream the tail slice begins.
pub open spec fn trim_start(s: Seq<u8>, limit: int) -> int
    decreases s.len(),
    via trim_start_dec
{
    if count_nl(s) >= limit {
        let i = find_nl(s);
        if i >= 0 {
            i + 1 + trim_start(s.subrange(i + 1, s.len() as int), limit)
        } else {
            0
        }
    } else {
        0
    }
}

/// The tail slice is a trailing slice of the stream that begins either
/// at the start or right after a newline: the stream is cut on a line
/// boundary only.
pub proof fn lemma_tail_is_suffix(s: Seq<u8>, limit: int)
    ensures
        0 <= trim_start(s, limit) <= s.len(),
        spec_trim(s, limit) == s.subrange(trim_start(s, limit), s.len() as int),
        trim_start(s, limit) == 0 || s[trim_start(s, limit) - 1] == 10u8,
    decreases s.len(),
{
    if count_nl(s) >= limit {
        lemma_find_nl(s);
        let i = find_nl(s);
        if i >= 0 {
            let s2 = s.subrange(i + 1, s.len() as int);
            lemma_tail_is_suffix(s2, limit);
            let j2 = trim_start(s2, limit);
            let j = i + 1 + j2;
            assert(trim_start(s, limit) == j);
            assert(s2.subrange(j2, s2.len() as int) =~= s.subrange(j, s.len() as int));
            assert(s[j - 1] == 10u8) by {
                if j2 == 0 {
                    assert(s[i] == 10u8);
                } else {
                    assert(s2[j2 - 1] == s[i + 1 + j2 - 1]);
                }
            }
        } else {
            assert(s.subrange(0, s.len() as int) =~= s);
        }
    } else {
        assert(s.subrange(0, s.len() as int) =~= s);
    }
}

/// Counts the newline bytes of a chunk.
fn count_nl_bytes(chunk: &[u8]) -> (n: usize)
    ensures
        n == count_nl(chunk@),
{
    let len = chunk.len();
    let mut n: usize = 0;
    let mut i: usize = 0;
    proof {
        assert(chunk@.subrange(0, 0) =~= Seq::<u8>::empty());
    }
    while i < len
        invariant
            i <= len,
            len == chunk@.len(),
            n == count_nl(chunk@.subrange(0, i as int)),
            n <= i,
        decreases len - i,
    {
        let b = chunk[i];
        proof {
            let pre = chunk@.subrange(0, i as int);
            let one = seq![chunk@[i as int]];
            assert(chunk@.subrange(0, i as int + 1) =~= pre + one);
            lemma_count_nl_concat(pre, one);
            assert(one.drop_first() =~= Seq::<u8>::empty());
            assert(one.len() == 1);
            assert(one.first() == chunk@[i as int]);
            assert(count_nl(Seq::<u8>::empty()) == 0);
            assert(count_nl(one) == (if chunk@[i as int] == 10u8 {
                1nat
            } else {
                0nat
            }));
        }
        if b == 10 {
            n = n + 1;
        }
        i = i + 1;
    }
    proof {
        assert(chunk@.subrange(0, len as int) =~= chunk@);
    }
    n
}

/// Finds the first newline byte at or after `from`.
fn find_nl_from(data: &Vec<u8>, from: usize) -> (r: Option<usize>)
    requires
        from <= data@.len(),
    ensures
        (match r {
            Some(k) => from <= k < data@.len() && data@[k as int] == 10u8 && find_nl(
                data@.subrange(from as int, data@.len() as int),
            ) == k - from,
            None => find_nl(data@.subrange(from as int, data@.len() as int)) == -1,
        }),
{
    let ghost s = data@.subrange(from as int, data@.len() as int);
    let len = data.len();
    let mut i: usize = from;
    while i < len
        invariant
            from <= i <= len,
            len == data@.len(),
            s == data@.subrange(from as int, data@.len() as int),
            forall|t: int| from <= t < i ==> data@[t] != 10u8,
        decreases len - i,
    {
        if data[i] == 10 {
            proof {
                assert forall|t: int| 0 <= t < i - from implies s[t] != 10u8 by {
                    assert(s[t] == data@[from + t]);
                }
                assert(s[i - from] == data@[i as int]);
                lemma_find_nl_at(s, i - from);
            }
            return Some(i);
        }
        i = i + 1;
    }
    proof {
        assert forall|t: int| 0 <= t < s.len() implies s[t] != 10u8 by {
            assert(s[t] == data@[from + t]);
        }
        lemma_find_nl_none(s);
    }
    None
}

/// Reads the last `line_limit` lines of a byte stream by stepping
/// backward in chunks of `chunk_size` bytes, without looking at more
/// of the stream than the chunks it loads.
pub struct TailReader {
    pub data: Vec<u8>,
    pub line_limit: usize,
    pub chunk_size: usize,
}

impl TailReader {
    /// A reader over the stream contents with the default chunk size.
    pub fn new(data: Vec<u8>, line_limit: usize) -> (r: Self)
        ensures
            r.data@ == data@,
            r.line_limit == line_limit,
            r.chunk_size == 64,
    {
        Self { data, line_limit, chunk_size: 64 }
    }

    /// The last `line_limit` lines of the stream, as `spec_trim`
    /// describes: the stream is loaded backward chunk by chunk until
    /// the newline budget is exceeded or the start is reached, then
    /// whole leading lines are dropped while at least `line_limit`
    /// newlines remain. The result does not depend on the chunk size;
    /// only the work performed does. Each loaded chunk is decoded on
    /// its own, so a chunk boundary that splits a multi-byte character
    /// fails with `Utf8Error` even where the whole stream is valid;
    /// text that is pure ASCII always succeeds.
    pub fn read_lines(&self) -> (r: Result<String, Error>)
        requires
            self.chunk_size >= 1,
        ensures
            r matches Ok(out) ==> valid_utf8(spec_trim(self.data@, self.line_limit as int))
                && out@ == decode_utf8(spec_trim(self.data@, self.line_limit as int)),
            r is Err ==> r == Err::<String, Error>(Error::Utf8Error),
            is_ascii_bytes(self.data@) ==> r is Ok,
    {
        let ghost all = self.data@;
        let ghost limit = self.line_limit as int;
        let len = self.data.len();
        let mut pos: usize = len;
        let mut lines: usize = 0;
        proof {
            assert(all.subrange(len as int, len as int) =~= Seq::<u8>::empty());
        }
        while pos > 0 && lines <= self.line_limit
            invariant
                pos <= len,
                len == all.len(),
                all == self.data@,
                self.chunk_size >= 1,
                valid_utf8(all.subrange(pos as int, len as int)),
                lines == count_nl(all.subrange(pos as int, len as int)),
            decreases pos,
        {
            let csize = if pos < self.chunk_size {
                pos
            } else {
                self.chunk_size
            };
            let newpos = pos - csize;
            let chunk = vstd::slice::slice_subrange(self.data.as_slice(), newpos, pos);
            if !utf8_valid(chunk) {
                proof {
                    if is_ascii_bytes(all) {
                        assert forall|t: int| 0 <= t < chunk@.len() implies chunk@[t] < 128 by {
                            assert(chunk@[t] == all[newpos + t]);
                        }
                        crate::text::ascii_bytes_decode(chunk@);
                        assert(false);
                    }
                }
                return Err(Error::Utf8Error);
            }
            let n = count_nl_bytes(chunk);
            proof {
                let rest = all.subrange(pos as int, len as int);
                assert(all.subrange(newpos as int, len as int) =~= chunk@ + rest);
                lemma_count_nl_concat(chunk@, rest);
                lemma_count_nl_le_len(all.subrange(newpos as int, len as int));
                valid_utf8_concat(chunk@, rest);
            }
            lines = lines + n;
            pos = newpos;
        }
        proof {
            if pos > 0 {
                lemma_trim_suffix(all, pos as int, limit);
            } else {
                assert(all.subrange(0, len as int) =~= all);
            }
        }
        let mut cur: usize = pos;
        let mut cnt: usize = lines;
        while cnt >= self.line_limit
            invariant
                cur <= len,
                len == all.len(),
                all == self.data@,
                valid_utf8(all.subrange(cur as int, len as int)),
                cnt == count_nl(all.subrange(cur as int, len as int)),
                spec_trim(all, limit) == spec_trim(all.subrange(cur as int, len as int), limit),
                limit == self.line_limit as int,
            ensures
                cur <= len,
                len == all.len(),
                valid_utf8(all.subrange(cur as int, len as int)),
                cnt == count_nl(all.subrange(cur as int, len as int)),
                spec_trim(all, limit) == spec_trim(all.subrange(cur as int, len as int), limit),
                cnt < self.line_limit || find_nl(all.subrange(cur as int, len as int)) == -1,
            decreases len - cur,
        {
            match find_nl_from(&self.data, cur) {
                Some(k) => {
                    proof {
                        let t = all.subrange(cur as int, len as int);
                        assert forall|u: int| 0 <= u < k - cur implies t[u] != 10u8 by {
                            lemma_find_nl(t);
                        }
                        assert(t[k - cur] == all[k as int]);
                        lemma_count_nl_after_first(t, k - cur);
                        lemma_valid_after_nl(t, k - cur);
                        assert(t.subrange(k - cur + 1, t.len() as int) =~= all.subrange(
                            k + 1,
                            len as int,
                        ));
                        assert(spec_trim(t, limit) == spec_trim(
                            all.subrange(k + 1, len as int),
                            limit,
                        ));
                    }
                    cnt = cnt - 1;
                    cur = k + 1;
                },
                None => {
                    break;
                },
            }
        }
        proof {
            let t = all.subrange(cur as int, len as int);
            assert(spec_trim(t, limit) == t);
            assert(spec_trim(all, limit) == t);
        }
        let tail = vstd::slice::slice_subrange(self.data.as_slice(), cur, len);
        Ok(utf8_to_string(tail))
    }
}

/// After a newline the rest of a valid UTF-8 sequence is still valid:
/// a newline byte is a whole scalar of its own.
proof fn lemma_valid_after_nl(b: Seq<u8>, i: int)
    requires
        valid_utf8(b),
        0 <= i < b.len(),
        b[i] == 10u8,
    ensures
        valid_utf8(b.subrange(i + 1, b.len() as int)),
{
    is_char_boundary_iff_not_is_continuation_byte(b, i);
    assert(!is_continuation_byte(10u8));
    assert(is_char_boundary(b, i));
    valid_utf8_split(b, i);
    let tail = b.subrange(i, b.len() as int);
    assert(valid_utf8(tail));
    assert(tail.len() > 0 && tail[0] == 10u8);
    assert(is_leading_byte_width_1(10u8));
    assert(length_of_first_scalar(tail) == 1);
    assert(valid_utf8(pop_first_scalar(tail)));
    assert(pop_first_scalar(tail) =~= b.subrange(i + 1, b.len() as int));
}

/// A data source seeded with canned responses; each load pops the
/// last one, and an exhausted source reports `InMemoryDataError`.
#[derive(Clone)]
pub struct InMemoryDataSource {
    pub data: Vec<String>,
}

impl InMemoryDataSource {
    pub fn new(data: Vec<String>) -> (r: Self)
        ensures
            r.data@ == data@,
    {
        Self { data }
    }

    /// A source with the same canned responses.
    pub fn duplicate(&self) -> (r: Self)
        ensures
            r.data@ == self.data@,
    {
        let mut out: Vec<String> = Vec::new();
        let mut i: usize = 0;
        while i < self.data.len()
            invariant
                i <= self.data@.len(),
                out@ =~= self.data@.subrange(0, i as int),
            decreases self.data@.len() - i,
        {
            out.push(self.data[i].clone());
            i = i + 1;
        }
        proof {
            assert(out@ =~= self.data@);
        }
        Self { data: out }
    }

    /// Pops the next canned response.
    pub fn load(&mut self) -> (r: Result<String, Error>)
        ensures
            old(self).data@.len() > 0 ==> r == Ok::<String, Error>(old(self).data@.last())
                && final(self).data@ == old(self).data@.drop_last(),
            old(self).data@.len() == 0 ==> r == Err::<String, Error>(Error::InMemoryDataError)
                && final(self).data@ == old(self).data@,
    {
        match self.data.pop() {
            Some(s) => Ok(s),
            None => Err(Error::InMemoryDataError),
        }
    }
}

/// A local file read through the tail reader with a cap on the number
/// of lines. The engine itself performs no file I/O: the embedding
/// application reads the bytes and runs a `TailReader` over them.
#[derive(Clone)]
pub struct FileDataSource {
    pub path: String,
    pub line_limit: usize,
}

impl FileDataSource {
    pub fn new(path: &str, line_limit: usize) -> (r: Self)
        ensures
            r.path@ == path@,
            r.line_limit == line_limit,
    {
        Self { path: String::from_str(path), line_limit }
    }
}

/// A text fetched from a URL. The engine itself performs no network
/// I/O: the embedding application issues the request.
#[derive(Clone)]
pub struct HttpDataSource {
    pub url: String,
}

impl HttpDataSource {
    pub fn new(url: &str) -> (r: Self)
        ensures
            r.url@ == url@,
    {
        Self { url: String::from_str(url) }
    }
}

/// The closed set of places a logfile's text can come from.
#[derive(Clone)]
pub enum DataSourceTypes {
    InMemory(InMemoryDataSource),
    File(FileDataSource),
    Http(HttpDataSource),
}

/// The two sources hold the same state.
pub open spec fn ds_eq(a: DataSourceTypes, b: DataSourceTypes) -> bool {
    match a {
        DataSourceTypes::InMemory(x) => match b {
            DataSourceTypes::InMemory(y) => x.data@ == y.data@,
            _ => false,
        },
        DataSourceTypes::File(x) => match b {
            DataSourceTypes::File(y) => x.path@ == y.path@ && x.line_limit == y.line_limit,
            _ => false,
        },
        DataSourceTypes::Http(x) => match b {
            DataSourceTypes::Http(y) => x.url@ == y.url@,
            _ => false,
        },
    }
}

/// One load from a data source: an in-memory source pops a canned
/// response or fails empty-handed; a file or HTTP source does not
/// change and asks for outside input with `ExternalSource`.
pub open spec fn ds_load_rel(d1: DataSourceTypes, d2: DataSourceTypes, r: Result<
    String,
    Error,
>) -> bool {
    match d1 {
        DataSourceTypes::InMemory(m) => match d2 {
            DataSourceTypes::InMemory(m2) => {
                if m.data@.len() > 0 {
                    r == Ok::<String, Error>(m.data@.last()) && m2.data@ == m.data@.drop_last()
                } else {
                    r == Err::<String, Error>(Error::InMemoryDataError) && m2.data@ == m.data@
                }
            },
            _ => false,
        },
        _ => r == Err::<String, Error>(Error::ExternalSource) && ds_eq(d2, d1),
    }
}

impl DataSourceTypes {
    /// A source with the same state.
    pub fn duplicate(&self) -> (r: Self)
        ensures
            ds_eq(r, *self),
    {
        match self {
            DataSourceTypes::InMemory(m) => DataSourceTypes::InMemory(m.duplicate()),
            DataSourceTypes::File(f) => DataSourceTypes::File(
                FileDataSource { path: f.path.clone(), line_limit: f.line_limit },
            ),
            DataSourceTypes::Http(h) => DataSourceTypes::Http(
                HttpDataSource { url: h.url.clone() },
            ),
        }
    }

    /// Produces the source's current text, as `ds_load_rel` describes.
    pub fn load(&mut self) -> (r: Result<String, Error>)
        ensures
            ds_load_rel(*old(self), *final(self), r),
    {
        match self {
            DataSourceTypes::InMemory(m) => m.load(),
            DataSourceTypes::File(_) => Err(Error::ExternalSource),
            DataSourceTypes::Http(_) => Err(Error::ExternalSource),
        }
    }
}

} // verus!
