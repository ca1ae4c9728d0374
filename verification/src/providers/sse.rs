//! Framing of a server-sent-event byte stream: bytes are decoded and buffered,
//! complete lines are split off at `\n`, and `data: ` lines are recognised.
use vstd::prelude::*;
use vstd::utf8::{decode_utf8, valid_utf8};

use crate::text::{
    chars_of, find_char, first_index, has_prefix, is_first_index, lemma_first_index_decompose,
    lemma_first_index_split, str_eq, string_from_range, trim_end_char, trimmed_end_len,
};

verus! {

/// What `String::from_utf8_lossy` makes of `bytes`.
pub uninterp spec fn utf8_lossy(bytes: Seq<u8>) -> Seq<char>;

/// Calls `String::from_utf8_lossy`: the result is named `utf8_lossy`, and, as the
/// function's documentation says, bytes that are valid UTF-8 decode exactly. How
/// invalid sequences are replaced by U+FFFD is left to the name.
#[verifier::external_body]
fn decode_lossy(bytes: &[u8]) -> (res: String)
    ensures
        res@ == utf8_lossy(bytes@),
        valid_utf8(bytes@) ==> res@ == decode_utf8(bytes@),
{
    String::from_utf8_lossy(bytes).into_owned()
}

/// The prefix that marks a data line.
pub open spec fn data_prefix() -> Seq<char> {
    "data: "@
}

/// The payload that ends the stream.
pub open spec fn done_marker() -> Seq<char> {
    "[DONE]"@
}

/// The line that `next_line` splits off a buffer holding `buf`: the text before
/// the first `\n`, without trailing `\r`s.
pub open spec fn first_line(buf: Seq<char>) -> Seq<char> {
    trim_end_char(buf.take(first_index(buf, '\n')), '\r')
}

/// What remains of a buffer holding `buf` once its first line is split off.
pub open spec fn after_first_line(buf: Seq<char>) -> Seq<char> {
    buf.skip(first_index(buf, '\n') + 1)
}

/// The payloads of the complete lines of a buffer, in order, up to the first
/// `data: [DONE]` line; whether that line was reached; and what is left in the
/// buffer afterwards (the text after the `[DONE]` line, or the incomplete tail).
pub open spec fn drain(buf: Seq<char>) -> (Seq<Seq<char>>, bool, Seq<char>)
    decreases buf.len(),
{
    if !buf.contains('\n') {
        (Seq::empty(), false, buf)
    } else {
        proof {
            lemma_first_index_decompose(buf, '\n');
        }
        let line = first_line(buf);
        let rest = after_first_line(buf);
        if !has_prefix(line, data_prefix()) {
            drain(rest)
        } else if line.skip(data_prefix().len() as int) == done_marker() {
            (Seq::empty(), true, rest)
        } else {
            let d = drain(rest);
            (seq![line.skip(data_prefix().len() as int)] + d.0, d.1, d.2)
        }
    }
}

/// One complete line, a `\n`, then more: what `drain` makes of it, by the line.
proof fn lemma_drain_line(line: Seq<char>, rest: Seq<char>)
    requires
        !line.contains('\n'),
    ensures
        ({
            let buf = line + seq!['\n'] + rest;
            let l = trim_end_char(line, '\r');
            drain(buf) == if !has_prefix(l, data_prefix()) {
                drain(rest)
            } else if l.skip(data_prefix().len() as int) == done_marker() {
                (Seq::<Seq<char>>::empty(), true, rest)
            } else {
                let d = drain(rest);
                (seq![l.skip(data_prefix().len() as int)] + d.0, d.1, d.2)
            }
        }),
{
    lemma_first_index_split(line, '\n', rest);
}

/// A line that is not a `data: ` line changes nothing of what a buffer yields.
pub proof fn law_non_data_line_ignored(line: Seq<char>, rest: Seq<char>)
    requires
        !line.contains('\n'),
        !has_prefix(trim_end_char(line, '\r'), data_prefix()),
    ensures
        drain(line + seq!['\n'] + rest) == drain(rest),
{
    lemma_drain_line(line, rest);
}

/// Text that arrives in two parts yields what it yields at once: the payloads of
/// the first part, then those of what it left over joined with the second part;
/// once `[DONE]` is reached the second part changes nothing that was yielded.
pub proof fn law_split_text(a: Seq<char>, b: Seq<char>)
    ensures
        drain(a).1 ==> drain(a + b) == (drain(a).0, true, drain(a).2 + b),
        !drain(a).1 ==> drain(a + b) == (
            drain(a).0 + drain(drain(a).2 + b).0,
            drain(drain(a).2 + b).1,
            drain(drain(a).2 + b).2,
        ),
    decreases a.len(),
{
    if !a.contains('\n') {
        assert(drain(a).0 =~= Seq::<Seq<char>>::empty());
        assert(drain(a).0 + drain(drain(a).2 + b).0 =~= drain(a + b).0);
    } else {
        lemma_first_index_decompose(a, '\n');
        let i = first_index(a, '\n');
        let line = a.take(i);
        let r = a.skip(i + 1);
        assert(a + b =~= line + seq!['\n'] + (r + b));
        assert(a =~= line + seq!['\n'] + r);
        lemma_drain_line(line, r);
        lemma_drain_line(line, r + b);
        law_split_text(r, b);
        let l = trim_end_char(line, '\r');
        if has_prefix(l, data_prefix()) && l.skip(data_prefix().len() as int) != done_marker() {
            let p = l.skip(data_prefix().len() as int);
            if !drain(r).1 {
                assert(seq![p] + drain(r).0 + drain(drain(r).2 + b).0 =~= seq![p] + (drain(r).0
                    + drain(drain(r).2 + b).0));
            }
        } else if !has_prefix(l, data_prefix()) {
        } else {
            assert((r + b) =~= r + b);
        }
    }
}

/// A line that is not a `data: ` line, inserted between two lines of a body,
/// changes nothing of the payloads or of whether `[DONE]` is reached.
pub proof fn law_inserted_line_ignored(a: Seq<char>, line: Seq<char>, b: Seq<char>)
    requires
        drain(a).2.len() == 0,
        !line.contains('\n'),
        !has_prefix(trim_end_char(line, '\r'), data_prefix()),
    ensures
        drain(a + (line + seq!['\n'] + b)).0 == drain(a + b).0,
        drain(a + (line + seq!['\n'] + b)).1 == drain(a + b).1,
        !drain(a).1 ==> drain(a + (line + seq!['\n'] + b)) == drain(a + b),
{
    let x = line + seq!['\n'] + b;
    law_split_text(a, x);
    law_split_text(a, b);
    law_non_data_line_ignored(line, b);
    assert(drain(a).2 =~= Seq::<char>::empty());
    assert(drain(a).2 + x =~= x);
    assert(drain(a).2 + b =~= b);
}

/// The text of a sequence of chunks, joined.
pub open spec fn joined(chunks: Seq<Seq<char>>) -> Seq<char>
    decreases chunks.len(),
{
    if chunks.len() == 0 {
        Seq::empty()
    } else {
        joined(chunks.drop_last()) + chunks.last()
    }
}

/// What a reader has after the chunks so far: payloads yielded, whether `[DONE]`
/// was reached, and the buffer. Each chunk is appended and drained; after
/// `[DONE]` nothing more is read.
pub open spec fn read_chunks(chunks: Seq<Seq<char>>) -> (Seq<Seq<char>>, bool, Seq<char>)
    decreases chunks.len(),
{
    if chunks.len() == 0 {
        (Seq::empty(), false, Seq::empty())
    } else {
        let s = read_chunks(chunks.drop_last());
        if s.1 {
            s
        } else {
            let d = drain(s.2 + chunks.last());
            (s.0 + d.0, d.1, d.2)
        }
    }
}

/// How a body is split into chunks does not matter: reading chunk by chunk
/// yields the payloads, and the end, of reading the joined text at once.
pub proof fn law_chunking_invisible(chunks: Seq<Seq<char>>)
    ensures
        read_chunks(chunks).0 == drain(joined(chunks)).0,
        read_chunks(chunks).1 == drain(joined(chunks)).1,
        !read_chunks(chunks).1 ==> read_chunks(chunks).2 == drain(joined(chunks)).2,
    decreases chunks.len(),
{
    if chunks.len() == 0 {
        assert(!Seq::<char>::empty().contains('\n'));
    } else {
        let c = chunks.drop_last();
        law_chunking_invisible(c);
        law_split_text(joined(c), chunks.last());
    }
}

/// `s` with every `\n` written as `\r\n`.
pub open spec fn crlf(s: Seq<char>) -> Seq<char>
    decreases s.len(),
{
    if s.len() == 0 {
        Seq::empty()
    } else {
        (if s[0] == '\n' {
            seq!['\r', '\n']
        } else {
            seq![s[0]]
        }) + crlf(s.drop_first())
    }
}

proof fn lemma_crlf_concat(a: Seq<char>, b: Seq<char>)
    ensures
        crlf(a + b) == crlf(a) + crlf(b),
    decreases a.len(),
{
    if a.len() == 0 {
        assert(a + b =~= b);
        assert(crlf(a) + crlf(b) =~= crlf(b));
    } else {
        assert((a + b).drop_first() =~= a.drop_first() + b);
        lemma_crlf_concat(a.drop_first(), b);
        let h = if a[0] == '\n' {
            seq!['\r', '\n']
        } else {
            seq![a[0]]
        };
        assert(h + (crlf(a.drop_first()) + crlf(b)) =~= (h + crlf(a.drop_first())) + crlf(b));
    }
}

proof fn lemma_crlf_no_newline(a: Seq<char>)
    requires
        !a.contains('\n'),
    ensures
        crlf(a) == a,
    decreases a.len(),
{
    if a.len() > 0 {
        assert(!a.drop_first().contains('\n')) by {
            if a.drop_first().contains('\n') {
                let k = choose|k: int| 0 <= k < a.drop_first().len() && a.drop_first()[k] == '\n';
                assert(a[k + 1] == '\n');
            }
        }
        lemma_crlf_no_newline(a.drop_first());
        assert(a[0] != '\n');
        assert(seq![a[0]] + a.drop_first() =~= a);
    }
}

/// Writing line ends as `\r\n` in place of `\n` changes nothing that a buffer
/// yields; only the text left over is written the same way.
pub proof fn law_crlf_invisible(buf: Seq<char>)
    ensures
        drain(crlf(buf)) == (drain(buf).0, drain(buf).1, crlf(drain(buf).2)),
    decreases buf.len(),
{
    if !buf.contains('\n') {
        lemma_crlf_no_newline(buf);
    } else {
        lemma_first_index_decompose(buf, '\n');
        let i = first_index(buf, '\n');
        let line = buf.take(i);
        let rest = buf.skip(i + 1);
        lemma_crlf_concat(line + seq!['\n'], rest);
        lemma_crlf_concat(line, seq!['\n']);
        lemma_crlf_no_newline(line);
        assert(crlf(seq!['\n']) =~= seq!['\r', '\n']) by {
            let one: Seq<char> = seq!['\n'];
            assert(one.drop_first() =~= Seq::<char>::empty());
            assert(crlf(one.drop_first()) =~= Seq::<char>::empty());
            assert(one[0] == '\n');
            assert(seq!['\r', '\n'] + Seq::<char>::empty() =~= seq!['\r', '\n']);
        }
        let line2 = line.push('\r');
        assert(crlf(buf) =~= line2 + seq!['\n'] + crlf(rest));
        assert(!line2.contains('\n')) by {
            if line2.contains('\n') {
                let k = choose|k: int| 0 <= k < line2.len() && line2[k] == '\n';
                if k < line.len() {
                    assert(line[k] == '\n');
                }
            }
        }
        lemma_drain_line(line, rest);
        lemma_drain_line(line2, crlf(rest));
        assert(line2.drop_last() =~= line);
        assert(trim_end_char(line2, '\r') == trim_end_char(line, '\r'));
        law_crlf_invisible(rest);
    }
}

/// Trimming a suffix leaves a prefix.
pub proof fn lemma_trim_end_char_is_prefix(s: Seq<char>, c: char)
    ensures
        trim_end_char(s, c).len() <= s.len(),
        trim_end_char(s, c) == s.take(trim_end_char(s, c).len() as int),
    decreases s.len(),
{
    if s.len() > 0 && s.last() == c {
        lemma_trim_end_char_is_prefix(s.drop_last(), c);
        let t = trim_end_char(s.drop_last(), c);
        assert(s.drop_last().take(t.len() as int) =~= s.take(t.len() as int));
    } else {
        assert(s.take(s.len() as int) =~= s);
    }
}

/// The text received so far that has not yet been split into lines.
pub struct SseBuffer {
    buf: Vec<char>,
}

impl View for SseBuffer {
    type V = Seq<char>;

    closed spec fn view(&self) -> Seq<char> {
        self.buf@
    }
}

/// A line of the event stream, classified.
pub enum SseLine {
    /// Not a `data:` line (comments, `event:` fields, blank separators).
    Ignored,
    /// `data: [DONE]`: the stream is over.
    Done,
    /// The payload of a `data:` line.
    Data(String),
}

impl SseBuffer {
    /// An empty buffer.
    pub fn new() -> (res: Self)
        ensures
            res@ == Seq::<char>::empty(),
    {
        SseBuffer { buf: Vec::new() }
    }

    /// Appends decoded text.
    pub fn push_str(&mut self, text: &str)
        ensures
            final(self)@ == old(self)@ + text@,
    {
        let cs = chars_of(text);
        let ghost start = self.buf@;
        let mut i: usize = 0;
        while i < cs.len()
            invariant
                i <= cs.len(),
                cs@ == text@,
                self.buf@ == start + cs@.take(i as int),
            decreases cs.len() - i,
        {
            self.buf.push(cs[i]);
            assert(cs@.take(i + 1) =~= cs@.take(i as int).push(cs@[i as int]));
            i += 1;
        }
        assert(cs@.take(cs@.len() as int) =~= cs@);
    }

    /// Appends a chunk of received bytes, decoded as UTF-8 with invalid sequences
    /// replaced; each chunk is decoded on its own.
    pub fn push_bytes(&mut self, bytes: &[u8])
        ensures
            final(self)@ == old(self)@ + utf8_lossy(bytes@),
            valid_utf8(bytes@) ==> final(self)@ == old(self)@ + decode_utf8(bytes@),
    {
        let text = decode_lossy(bytes);
        self.push_str(text.as_str());
    }

    /// Splits off the first complete line, if the buffer holds a `\n`. The line is
    /// returned without its `\n` and without trailing `\r`s; the buffer keeps what
    /// follows the `\n`. Without a `\n` nothing changes.
    pub fn next_line(&mut self) -> (res: Option<String>)
        ensures
            match res {
                None => !old(self)@.contains('\n') && final(self)@ == old(self)@,
                Some(line) => {
                    &&& old(self)@.contains('\n')
                    &&& line@ == first_line(old(self)@)
                    &&& final(self)@ == after_first_line(old(self)@)
                    &&& !line@.contains('\n')
                    &&& old(self)@ == old(self)@.take(first_index(old(self)@, '\n')) + seq!['\n']
                        + final(self)@
                },
            },
    {
        match find_char(&self.buf, '\n') {
            None => None,
            Some(nl) => {
                let ghost old_buf = self.buf@;
                let k = trimmed_end_len(&self.buf, nl, '\r');
                let line = string_from_range(&self.buf, 0, k);
                let mut rest: Vec<char> = Vec::new();
                let n = self.buf.len();
                let mut j = nl + 1;
                while j < n
                    invariant
                        n == self.buf@.len(),
                        nl < n,
                        nl + 1 <= j <= n,
                        rest@ == self.buf@.subrange(nl + 1, j as int),
                    decreases n - j,
                {
                    rest.push(self.buf[j]);
                    assert(self.buf@.subrange(nl + 1, j + 1) =~= self.buf@.subrange(
                        nl + 1,
                        j as int,
                    ).push(self.buf@[j as int]));
                    j += 1;
                }
                proof {
                    assert(old_buf.subrange(0, k as int) =~= old_buf.take(k as int));
                    assert(rest@ =~= old_buf.skip(nl + 1));
                    lemma_trim_end_char_is_prefix(old_buf.take(nl as int), '\r');
                    assert(line@ =~= old_buf.take(nl as int).take(k as int));
                    assert(is_first_index(old_buf, '\n', nl as int));
                    if line@.contains('\n') {
                        let p = choose|p: int| 0 <= p < line@.len() && line@[p] == '\n';
                        assert(old_buf[p] == '\n');
                    }
                    assert(old_buf =~= old_buf.take(nl as int) + seq!['\n'] + old_buf.skip(nl + 1));
                }
                self.buf = rest;
                Some(line)
            },
        }
    }

    /// Splits off every complete line up to and including the first
    /// `data: [DONE]` line, and returns the payloads of the data lines among them,
    /// in order, and whether `[DONE]` was reached. Without `[DONE]`, only the
    /// incomplete last line stays in the buffer.
    pub fn take_payloads(&mut self) -> (res: (Vec<String>, bool))
        ensures
            res.0@.map_values(|p: String| p@) == drain(old(self)@).0,
            res.1 == drain(old(self)@).1,
            final(self)@ == drain(old(self)@).2,
    {
        let ghost orig = self@;
        let mut out: Vec<String> = Vec::new();
        loop
            invariant
                orig == old(self)@,
                out@.map_values(|p: String| p@) + drain(self@).0 == drain(orig).0,
                drain(self@).1 == drain(orig).1,
                drain(self@).2 == drain(orig).2,
            decreases self@.len(),
        {
            let ghost before = self@;
            let ghost seen = out@.map_values(|p: String| p@);
            match self.next_line() {
                None => {
                    assert(out@.map_values(|p: String| p@) =~= drain(orig).0);
                    return (out, false);
                },
                Some(line) => {
                    proof {
                        lemma_first_index_decompose(before, '\n');
                    }
                    match classify_line(line.as_str()) {
                        SseLine::Ignored => {},
                        SseLine::Done => {
                            assert(out@.map_values(|p: String| p@) =~= drain(orig).0);
                            return (out, true);
                        },
                        SseLine::Data(d) => {
                            let ghost dv = d@;
                            out.push(d);
                            assert(out@.map_values(|p: String| p@) =~= seen.push(dv));
                            assert(seen.push(dv) + drain(self@).0 =~= seen + (seq![dv] + drain(
                                self@,
                            ).0));
                        },
                    }
                },
            }
        }
    }
}

/// Reads an event stream chunk by chunk: what has not yet been split into lines,
/// and whether `data: [DONE]` has been seen, after which nothing more is read.
pub struct SseReader {
    buf: SseBuffer,
    done: bool,
}

impl View for SseReader {
    type V = (Seq<char>, bool);

    closed spec fn view(&self) -> (Seq<char>, bool) {
        (self.buf@, self.done)
    }
}

impl SseReader {
    /// A reader at the start of a stream.
    pub fn new() -> (res: Self)
        ensures
            res@ == (Seq::<char>::empty(), false),
    {
        SseReader { buf: SseBuffer::new(), done: false }
    }

    /// Whether `data: [DONE]` has been seen.
    pub fn is_done(&self) -> (res: bool)
        ensures
            res == self@.1,
    {
        self.done
    }

    /// Takes in one chunk of the body and returns the payloads of the data lines
    /// it completes, in order, up to `data: [DONE]`. Once `[DONE]` has been seen,
    /// chunks are ignored. Each chunk is decoded on its own, as `push_bytes` does.
    pub fn feed(&mut self, bytes: &[u8]) -> (res: Vec<String>)
        ensures
            old(self)@.1 ==> res@.len() == 0 && final(self)@ == old(self)@,
            !old(self)@.1 ==> {
                let d = drain(old(self)@.0 + utf8_lossy(bytes@));
                &&& res@.map_values(|p: String| p@) == d.0
                &&& final(self)@ == (d.2, d.1)
            },
            !old(self)@.1 && valid_utf8(bytes@) ==> {
                let d = drain(old(self)@.0 + decode_utf8(bytes@));
                &&& res@.map_values(|p: String| p@) == d.0
                &&& final(self)@ == (d.2, d.1)
            },
    {
        if self.done {
            return Vec::new();
        }
        self.buf.push_bytes(bytes);
        let (payloads, done) = self.buf.take_payloads();
        self.done = done;
        payloads
    }
}

/// Classifies a line: `data: [DONE]` ends the stream, any other `data: ` line
/// carries the payload after the prefix, and every other line is ignored.
pub fn classify_line(line: &str) -> (res: SseLine)
    ensures
        match res {
            SseLine::Ignored => !has_prefix(line@, data_prefix()),
            SseLine::Done => has_prefix(line@, data_prefix()) && line@.skip(
                data_prefix().len() as int,
            ) == done_marker(),
            SseLine::Data(payload) => {
                &&& has_prefix(line@, data_prefix())
                &&& payload@ == line@.skip(data_prefix().len() as int)
                &&& payload@ != done_marker()
            },
        },
{
    let cs = chars_of(line);
    let prefix = chars_of("data: ");
    if prefix.len() > cs.len() {
        return SseLine::Ignored;
    }
    let mut i: usize = 0;
    while i < prefix.len()
        invariant
            cs@ == line@,
            prefix@ == data_prefix(),
            prefix.len() <= cs.len(),
            i <= prefix.len(),
            forall|j: int| 0 <= j < i ==> cs@[j] == prefix@[j],
        decreases prefix.len() - i,
    {
        if cs[i] != prefix[i] {
            proof {
                assert(cs@.take(prefix@.len() as int)[i as int] != prefix@[i as int]);
            }
            return SseLine::Ignored;
        }
        i += 1;
    }
    assert(cs@.take(prefix@.len() as int) =~= prefix@);
    let payload = string_from_range(&cs, prefix.len(), cs.len());
    assert(payload@ =~= cs@.skip(prefix@.len() as int));
    if str_eq(payload.as_str(), "[DONE]") {
        SseLine::Done
    } else {
        SseLine::Data(payload)
    }
}

} // verus!
