//! Output capture and process records.
//!
//! A Godot process prints line by line to two pipes. Its output is cut into lines of bounded length
//! ([`LineBuffer`]), error lines are recognised by how Godot words them, and a bounded tail is kept
//! ([`CapturedOutput`]) while errors that have scrolled out of it stay counted.
use std::collections::VecDeque;
use vstd::prelude::*;

use crate::text;

verus! {

pub type RunId = u64;

/// Max captured lines retained per run (oldest dropped past this).
pub const LOG_CAP: usize = 4000;

/// Max captured bytes retained per run (oldest lines dropped past this).
pub const LOG_BYTE_CAP: usize = 4 * 1024 * 1024;

/// Max bytes retained of one line.
pub const LINE_BYTE_CAP: usize = 64 * 1024;

// ---- one line -----------------------------------------------------------------------------------

#[derive(Clone, Debug)]
pub struct LogLine {
    pub text: String,
    /// True when the line matches a Godot error pattern (SCRIPT/SHADER/parse/ERROR).
    pub is_error: bool,
}

/// What a captured line says.
pub struct LogText {
    pub text: Seq<char>,
    pub is_error: bool,
}

impl View for LogLine {
    type V = LogText;

    open spec fn view(&self) -> LogText {
        LogText { text: self.text@, is_error: self.is_error }
    }
}

pub open spec fn log_texts(v: Seq<LogLine>) -> Seq<LogText> {
    v.map_values(|l: LogLine| l@)
}

fn copy_line(l: &LogLine) -> (r: LogLine)
    ensures
        r == *l,
{
    LogLine { text: l.text.clone(), is_error: l.is_error }
}

/// How many bytes a text takes.
pub open spec fn byte_len(s: Seq<char>) -> nat {
    vstd::utf8::encode_utf8(s).len()
}

fn bytes_of(s: &str) -> (r: usize)
    ensures
        r == byte_len(s@),
{
    s.as_bytes().len()
}

/// Godot prints errors with recognizable prefixes/substrings.
pub open spec fn is_error_text(line: Seq<char>) -> bool {
    ||| text::has(line, "SCRIPT ERROR"@)
    ||| text::has(line, "SHADER ERROR"@)
    ||| text::has(line, "Parse Error"@)
    ||| text::has(line, "USER ERROR"@)
    ||| text::begins(text::trimmed_start(line), "ERROR"@)
}

/// Whether the blank-trimmed line starts with `pat`.
fn opens_with(line: &str, pat: &str) -> (r: bool)
    ensures
        r == text::begins(text::trimmed_start(line@), pat@),
{
    let c = text::chars_of(line);
    let p = text::chars_of(pat);
    text::at(text::skip_white(&c), &p, 0)
}

/// Flag the lines that Godot prints for errors.
pub fn classify_error(line: &str) -> (r: bool)
    ensures
        r == is_error_text(line@),
{
    text::contains(line, "SCRIPT ERROR") || text::contains(line, "SHADER ERROR") || text::contains(
        line,
        "Parse Error",
    ) || text::contains(line, "USER ERROR") || opens_with(line, "ERROR")
}

pub open spec fn is_frame_text(line: Seq<char>) -> bool {
    text::begins(text::trimmed_start(line), "at: "@)
}

/// A GDScript stack frame: the indented `at: func (res://file.gd:12)` lines Godot prints beneath
/// an error. They arrive as separate lines, so anything reporting an error re-attaches them.
pub fn is_stack_frame(line: &str) -> (r: bool)
    ensures
        r == is_frame_text(line@),
{
    opens_with(line, "at: ")
}

// ---- cutting the output into lines --------------------------------------------------------------

/// `String::from_utf8_lossy`: the text that bytes encode, with every sequence that is not UTF-8
/// replaced.
pub uninterp spec fn utf8_lossy(bytes: Seq<u8>) -> Seq<char>;

/// `String::from_utf8_lossy` depends on the bytes alone, and decodes bytes that are valid UTF-8.
#[verifier::external_body]
fn decode_lossy(bytes: &[u8]) -> (r: String)
    ensures
        r@ == utf8_lossy(bytes@),
        vstd::utf8::valid_utf8(bytes@) ==> r@ == vstd::utf8::decode_utf8(bytes@),
{
    String::from_utf8_lossy(bytes).into_owned()
}

/// The text that bytes stand for: what they encode where they are UTF-8, and what [`utf8_lossy`]
/// names otherwise.
pub open spec fn decoded(bytes: Seq<u8>) -> Seq<char> {
    if vstd::utf8::valid_utf8(bytes) {
        vstd::utf8::decode_utf8(bytes)
    } else {
        utf8_lossy(bytes)
    }
}

/// What has been kept of a line, and whether some of it has not.
pub struct PartialLine {
    pub kept: Seq<u8>,
    pub cut: bool,
}

impl PartialLine {
    /// A line of which nothing has been read.
    pub open spec fn start() -> Self {
        PartialLine { kept: Seq::empty(), cut: false }
    }
}

/// The first `n` bytes, or all of them when there are fewer.
pub open spec fn at_most(s: Seq<u8>, n: int) -> Seq<u8> {
    if s.len() <= n {
        s
    } else {
        s.take(n)
    }
}

/// The line once more of it has been read.
pub open spec fn extended(st: PartialLine, more: Seq<u8>) -> PartialLine {
    PartialLine {
        kept: at_most(st.kept + more, LINE_BYTE_CAP as int),
        cut: st.cut || st.kept.len() + more.len() > LINE_BYTE_CAP,
    }
}

/// Where the first line feed stands, or the length when there is none.
pub open spec fn line_end(bytes: Seq<u8>) -> int
    decreases bytes.len(),
{
    if bytes.len() == 0 || bytes[0] == 10 {
        0
    } else {
        1 + line_end(bytes.skip(1))
    }
}

/// The bytes of a line without the carriage return in front of its line feed.
pub open spec fn without_return(bytes: Seq<u8>) -> Seq<u8> {
    if bytes.len() > 0 && bytes.last() == 13 {
        bytes.drop_last()
    } else {
        bytes
    }
}

/// The text of a line that has been read to its end.
pub open spec fn line_text(st: PartialLine) -> Seq<char> {
    let line = decoded(without_return(st.kept));
    if st.cut {
        line + " [line truncated]"@
    } else {
        line
    }
}

/// A line being read. Bytes past [`LINE_BYTE_CAP`] are dropped, so a line that never ends cannot
/// grow without bound.
pub struct LineBuffer {
    pub bytes: Vec<u8>,
    pub truncated: bool,
}

impl View for LineBuffer {
    type V = PartialLine;

    open spec fn view(&self) -> PartialLine {
        PartialLine { kept: self.bytes@, cut: self.truncated }
    }
}

impl LineBuffer {
    pub open spec fn wf(self) -> bool {
        self.bytes@.len() <= LINE_BYTE_CAP
    }

    pub fn new() -> (r: Self)
        ensures
            r.wf(),
            r@ == PartialLine::start(),
    {
        LineBuffer { bytes: Vec::new(), truncated: false }
    }

    /// Take the next bytes of the stream, as far as the current line goes. Gives back how many of
    /// them are used up, the line feed included, and whether the line has ended.
    pub fn feed(&mut self, chunk: &[u8]) -> (r: (usize, bool))
        requires
            old(self).wf(),
        ensures
            final(self).wf(),
            final(self)@ == extended(old(self)@, chunk@.take(line_end(chunk@))),
            r.1 == (line_end(chunk@) < chunk@.len()),
            r.0 as int == line_end(chunk@) + if r.1 {
                1int
            } else {
                0int
            },
    {
        let mut length: usize = 0;
        assert(chunk@.skip(0) == chunk@);
        while length < chunk.len() && chunk[length] != 10
            invariant
                length <= chunk.len(),
                line_end(chunk@) == length + line_end(chunk@.skip(length as int)),
            decreases chunk.len() - length,
        {
            assert(chunk@.skip(length as int).skip(1) == chunk@.skip(length + 1));
            length = length + 1;
        }
        let room: usize = LINE_BYTE_CAP - self.bytes.len();
        let keep: usize = if length <= room {
            length
        } else {
            room
        };
        let ghost was = self.bytes@;
        let mut i: usize = 0;
        while i < keep
            invariant
                i <= keep <= chunk.len(),
                self.bytes@ =~= was + chunk@.take(i as int),
                self.truncated == old(self).truncated,
            decreases keep - i,
        {
            self.bytes.push(chunk[i]);
            i = i + 1;
        }
        assert(self.bytes@ =~= at_most(was + chunk@.take(length as int), LINE_BYTE_CAP as int));
        if keep < length {
            self.truncated = true;
        }
        if length < chunk.len() {
            (length + 1, true)
        } else {
            (length, false)
        }
    }

    /// The line that has been read to its end: its text and whether some of it was dropped. The
    /// next line starts afresh.
    pub fn take_line(&mut self) -> (r: (String, bool))
        ensures
            r.0@ == line_text(old(self)@),
            r.1 == old(self)@.cut,
            final(self).wf(),
            final(self)@ == PartialLine::start(),
    {
        let n: usize = self.bytes.len();
        let end: usize = if n > 0 && self.bytes[n - 1] == 13 {
            n - 1
        } else {
            n
        };
        let kept = vstd::slice::slice_subrange(self.bytes.as_slice(), 0, end);
        assert(kept@ =~= without_return(self.bytes@));
        let mut out = decode_lossy(kept);
        let truncated = self.truncated;
        if truncated {
            out.append(" [line truncated]");
        }
        self.bytes = Vec::new();
        self.truncated = false;
        (out, truncated)
    }

    /// The line that the end of the stream closes: none where nothing stood before it.
    pub fn finish(self) -> (r: Option<(String, bool)>)
        ensures
            match r {
                Some(p) => line_closed(self@) == seq![self@] && p.0@ == line_text(self@) && p.1
                    == self@.cut,
                None => line_closed(self@).len() == 0,
            },
    {
        if self.bytes.len() == 0 && !self.truncated {
            return None;
        }
        let mut line = self;
        Some(line.take_line())
    }
}

/// The line that the end of a stream closes, if there is one.
pub open spec fn line_closed(line: PartialLine) -> Seq<PartialLine> {
    if line.kept.len() == 0 && !line.cut {
        Seq::empty()
    } else {
        seq![line]
    }
}

/// The lines that end in a chunk, the first of which has begun before it.
pub open spec fn lines_ended(line: PartialLine, chunk: Seq<u8>) -> Seq<PartialLine>
    decreases chunk.len(),
{
    let end = line_end(chunk);
    if 0 <= end < chunk.len() {
        seq![extended(line, chunk.take(end))] + lines_ended(
            PartialLine::start(),
            chunk.skip(end + 1),
        )
    } else {
        Seq::empty()
    }
}

/// The line that has not ended after a chunk.
pub open spec fn line_left(line: PartialLine, chunk: Seq<u8>) -> PartialLine
    decreases chunk.len(),
{
    let end = line_end(chunk);
    if 0 <= end < chunk.len() {
        line_left(PartialLine::start(), chunk.skip(end + 1))
    } else {
        extended(line, chunk)
    }
}

proof fn lemma_chunks_in_turn(line: PartialLine, a: Seq<u8>, b: Seq<u8>)
    requires
        line.kept.len() <= LINE_BYTE_CAP,
    ensures
        lines_ended(line, a + b) == lines_ended(line, a) + lines_ended(line_left(line, a), b),
        line_left(line, a + b) == line_left(line_left(line, a), b),
    decreases a.len(),
{
    let start = PartialLine::start();
    lemma_line_end_is_within(a);
    lemma_line_end_is_within(b);
    let end = line_end(a);
    if end < a.len() {
        lemma_line_end_of_prefix(a, b);
        assert((a + b).take(end) =~= a.take(end));
        assert((a + b).skip(end + 1) =~= a.skip(end + 1) + b);
        lemma_chunks_in_turn(start, a.skip(end + 1), b);
        let first = seq![extended(line, a.take(end))];
        let x = lines_ended(start, a.skip(end + 1));
        let y = lines_ended(line_left(start, a.skip(end + 1)), b);
        assert(first + (x + y) =~= first + x + y);
    } else {
        law_chunks_do_not_matter(line, a, b);
        let e = line_end(b);
        if e < b.len() {
            assert((a + b).skip(a.len() + e + 1) =~= b.skip(e + 1));
        } else {
            assert(b.take(e) =~= b);
            assert((a + b).take(a.len() + e) =~= a + b);
        }
        assert(Seq::<PartialLine>::empty() + lines_ended(extended(line, a), b) =~= lines_ended(
            extended(line, a),
            b,
        ));
    }
}

proof fn lemma_line_end_of_prefix(a: Seq<u8>, b: Seq<u8>)
    requires
        line_end(a) < a.len(),
    ensures
        line_end(a + b) == line_end(a),
    decreases a.len(),
{
    if a[0] != 10 {
        lemma_line_end_of_prefix(a.skip(1), b);
        assert((a + b).skip(1) =~= a.skip(1) + b);
    }
}

/// How a stream arrives does not matter: a line whose bytes come in two chunks, `a` and then `b`,
/// is the line that the two make together, and ends at the same byte.
pub proof fn law_chunks_do_not_matter(st: PartialLine, a: Seq<u8>, b: Seq<u8>)
    requires
        st.kept.len() <= LINE_BYTE_CAP,
        line_end(a) == a.len(),
    ensures
        line_end(a + b) == a.len() + line_end(b),
        extended(extended(st, a), b.take(line_end(b))) == extended(
            st,
            (a + b).take(line_end(a + b)),
        ),
{
    lemma_line_end_of_two(a, b);
    lemma_line_end_is_within(b);
    let left = extended(extended(st, a), b.take(line_end(b)));
    let right = extended(st, (a + b).take(line_end(a + b)));
    assert((a + b).take(line_end(a + b)) =~= a + b.take(line_end(b)));
    assert(left.kept =~= right.kept);
}

proof fn lemma_line_end_is_within(bytes: Seq<u8>)
    ensures
        0 <= line_end(bytes) <= bytes.len(),
    decreases bytes.len(),
{
    if bytes.len() > 0 && bytes[0] != 10 {
        lemma_line_end_is_within(bytes.skip(1));
    }
}

proof fn lemma_line_end_of_two(a: Seq<u8>, b: Seq<u8>)
    requires
        line_end(a) == a.len(),
    ensures
        line_end(a + b) == a.len() + line_end(b),
    decreases a.len(),
{
    if a.len() == 0 {
        assert(a + b =~= b);
    } else {
        lemma_line_end_of_two(a.skip(1), b);
        assert((a + b).skip(1) =~= a.skip(1) + b);
    }
}

/// A whole line is kept up to the limit, and is marked exactly when it is longer.
pub proof fn law_a_line_is_cut_exactly_past_the_limit(line: Seq<u8>)
    ensures
        ({
            let read = extended(PartialLine::start(), line);
            &&& read.kept == at_most(line, LINE_BYTE_CAP as int)
            &&& read.kept.len() <= LINE_BYTE_CAP
            &&& read.cut <==> line.len() > LINE_BYTE_CAP
        }),
{
    assert(Seq::<u8>::empty() + line =~= line);
}

/// A line of text within the limit is read back as it was printed, with or without a carriage return
/// in front of its line feed.
pub proof fn law_a_printed_line_is_read_back(line: Seq<char>)
    requires
        byte_len(line) < LINE_BYTE_CAP,
        byte_len(line) > 0 ==> vstd::utf8::encode_utf8(line).last() != 13,
    ensures
        ({
            let bytes = vstd::utf8::encode_utf8(line);
            let start = PartialLine::start();
            &&& line_text(extended(start, bytes)) == line
            &&& line_text(extended(start, bytes.push(13))) == line
        }),
{
    let bytes = vstd::utf8::encode_utf8(line);
    vstd::utf8::encode_utf8_valid_utf8(line);
    vstd::utf8::encode_utf8_decode_utf8(line);
    assert(Seq::<u8>::empty() + bytes =~= bytes);
    assert(Seq::<u8>::empty() + bytes.push(13) =~= bytes.push(13));
    assert(bytes.push(13).drop_last() =~= bytes);
}

// ---- the captured tail --------------------------------------------------------------------------

/// How many bytes the lines take together.
pub open spec fn total_bytes(lines: Seq<LogText>) -> nat
    decreases lines.len(),
{
    if lines.len() == 0 {
        0
    } else {
        byte_len(lines[0].text) + total_bytes(lines.skip(1))
    }
}

/// Too many lines, or too many bytes.
pub open spec fn is_over(lines: Seq<LogText>) -> bool {
    lines.len() > LOG_CAP || total_bytes(lines) > LOG_BYTE_CAP
}

/// What is left once the oldest lines have been dropped until the limits are kept.
pub open spec fn retained(lines: Seq<LogText>) -> Seq<LogText>
    decreases lines.len(),
{
    if lines.len() > 0 && is_over(lines) {
        retained(lines.skip(1))
    } else {
        lines
    }
}

/// How many of the lines are error lines.
pub open spec fn errors_in(lines: Seq<LogText>) -> nat
    decreases lines.len(),
{
    if lines.len() == 0 {
        0
    } else {
        errors_in(lines.drop_last()) + if lines.last().is_error {
            1nat
        } else {
            0nat
        }
    }
}

/// The state of a capture.
pub struct Capture {
    pub lines: Seq<LogText>,
    pub errors: nat,
    pub dropped: nat,
    pub truncated: nat,
    pub read_failed: bool,
}

impl Capture {
    pub open spec fn empty() -> Self {
        Capture { lines: Seq::empty(), errors: 0, dropped: 0, truncated: 0, read_failed: false }
    }

    /// One more line captured.
    pub open spec fn pushed(self, line: LogText) -> Self {
        let all = self.lines.push(line);
        Capture {
            lines: retained(all),
            errors: self.errors + if line.is_error {
                1nat
            } else {
                0nat
            },
            dropped: (self.dropped + all.len() - retained(all).len()) as nat,
            ..self
        }
    }

    /// One more line that was cut from the stream.
    pub open spec fn accepted(self, line: PartialLine) -> Self {
        Capture {
            truncated: self.truncated + if line.cut {
                1nat
            } else {
                0nat
            },
            ..self
        }.pushed(LogText { text: line_text(line), is_error: is_error_text(line_text(line)) })
    }

    /// All of the lines, one after the other.
    pub open spec fn accepted_all(self, lines: Seq<PartialLine>) -> Self
        decreases lines.len(),
    {
        if lines.len() == 0 {
            self
        } else {
            self.accepted_all(lines.drop_last()).accepted(lines.last())
        }
    }

    /// The stream could not be read to its end; the system's words for it.
    pub open spec fn broken_off(self, error: Seq<char>) -> Self {
        Capture { read_failed: true, ..self }.pushed(
            LogText { text: "output capture failed: "@ + error, is_error: true },
        )
    }

    /// Everything that was printed could be inspected.
    pub open spec fn is_complete(self) -> bool {
        !self.read_failed && self.truncated == 0
    }

    /// What the notice in front of an incomplete tail says.
    pub open spec fn notice(self) -> LogText {
        LogText {
            text: "[capture: "@ + text::decimal(self.dropped) + " earlier lines omitted, "@
                + text::decimal(self.truncated) + " oversized lines truncated, "@ + text::decimal(
                self.errors,
            ) + if self.read_failed {
                " total errors, output read failed]"@
            } else {
                " total errors]"@
            },
            is_error: !self.is_complete() || self.errors > 0,
        }
    }

    /// The last `n` lines, or all of them when there are fewer.
    pub open spec fn last_lines(self, n: nat) -> Seq<LogText> {
        if self.lines.len() <= n {
            self.lines
        } else {
            self.lines.skip(self.lines.len() - n)
        }
    }

    /// The last `n` lines, behind a notice where something is missing.
    pub open spec fn tail_texts(self, n: nat) -> Seq<LogText> {
        if self.dropped > 0 || !self.is_complete() {
            seq![self.notice()] + self.last_lines(n)
        } else {
            self.last_lines(n)
        }
    }

    /// The capture is what the lines of `history`, pushed one after the other, have made of it.
    pub open spec fn records(self, history: Seq<LogText>) -> bool {
        &&& self.lines == retained(history)
        &&& self.errors == errors_in(history)
        &&& self.dropped == history.len() - self.lines.len()
    }
}

/// Retain a bounded tail while remembering errors that have scrolled out of it.
pub struct CapturedOutput {
    pub lines: VecDeque<LogLine>,
    pub bytes: usize,
    pub errors: usize,
    pub dropped: usize,
    pub truncated: usize,
    pub read_failed: bool,
}

impl View for CapturedOutput {
    type V = Capture;

    open spec fn view(&self) -> Capture {
        Capture {
            lines: log_texts(self.lines@),
            errors: self.errors as nat,
            dropped: self.dropped as nat,
            truncated: self.truncated as nat,
            read_failed: self.read_failed,
        }
    }
}

impl CapturedOutput {
    /// The bytes are counted, and the limits are kept.
    pub open spec fn wf(self) -> bool {
        &&& self.bytes == total_bytes(self@.lines)
        &&& !is_over(self@.lines)
    }

    /// `n` more lines can be counted.
    pub open spec fn counts(self, n: nat) -> bool {
        &&& self.errors + n <= usize::MAX
        &&& self.dropped + self.lines@.len() + n <= usize::MAX
    }

    /// `n` more lines can be counted, cut or not.
    pub open spec fn has_room(self, n: nat) -> bool {
        self.counts(n) && self.truncated + n <= usize::MAX
    }

    pub fn new() -> (r: Self)
        ensures
            r.wf(),
            r@ == Capture::empty(),
    {
        let r = CapturedOutput {
            lines: VecDeque::new(),
            bytes: 0,
            errors: 0,
            dropped: 0,
            truncated: 0,
            read_failed: false,
        };
        assert(r@.lines =~= Seq::<LogText>::empty());
        r
    }

    pub fn push(&mut self, line: LogLine)
        requires
            old(self).wf(),
            old(self).counts(1),
        ensures
            final(self).wf(),
            final(self)@ == old(self)@.pushed(line@),
            final(self).dropped + final(self).lines@.len() == old(self).dropped + old(
                self,
            ).lines@.len() + 1,
    {
        let ghost all = self@.lines.push(line@);
        let size: usize = bytes_of(line.text.as_str());
        if line.is_error {
            self.errors = self.errors + 1;
        }
        proof {
            lemma_total_push(self@.lines, line@);
        }
        if size > LOG_BYTE_CAP {
            // No tail that ends with this line keeps the limit.
            let count: usize = self.lines.len();
            self.lines = VecDeque::new();
            self.bytes = 0;
            self.dropped = self.dropped + count + 1;
            proof {
                lemma_nothing_retained(old(self)@.lines, line@);
                assert(self@.lines =~= Seq::<LogText>::empty());
            }
            return;
        }
        self.bytes = self.bytes + size;
        self.lines.push_back(line);
        assert(self@.lines =~= all);
        while self.lines.len() > LOG_CAP || self.bytes > LOG_BYTE_CAP
            invariant
                all == old(self)@.lines.push(line@),
                old(self).counts(1),
                self.bytes == total_bytes(self@.lines),
                self@.lines.len() == self.lines@.len(),
                self.dropped + self.lines@.len() == old(self).dropped + all.len(),
                old(self)@.lines.len() == old(self).lines@.len(),
                retained(self@.lines) == retained(all),
                self.errors == old(self).errors + if line.is_error {
                    1int
                } else {
                    0int
                },
                self.truncated == old(self).truncated,
                self.read_failed == old(self).read_failed,
            decreases self.lines@.len(),
        {
            let ghost now = self@.lines;
            assert(now.len() > 0);
            if let Some(oldest) = self.lines.pop_front() {
                assert(self@.lines =~= now.skip(1));
                assert(oldest@ == now[0]);
                self.bytes = self.bytes - bytes_of(oldest.text.as_str());
                self.dropped = self.dropped + 1;
            }
        }
    }

    pub fn complete(&self) -> (r: bool)
        ensures
            r == self@.is_complete(),
    {
        !self.read_failed && self.truncated == 0
    }

    /// Take one line as it was cut from the stream.
    fn accept(&mut self, line: String, truncated: bool, Ghost(cut): Ghost<PartialLine>)
        requires
            old(self).wf(),
            old(self).has_room(1),
            line@ == line_text(cut),
            truncated == cut.cut,
        ensures
            final(self).wf(),
            final(self)@ == old(self)@.accepted(cut),
            forall|n: nat| old(self).has_room(n + 1) ==> final(self).has_room(n),
    {
        let is_error = classify_error(line.as_str());
        if truncated {
            self.truncated = self.truncated + 1;
        }
        self.push(LogLine { text: line, is_error });
    }

    /// Take the next bytes of a stream, of which `line` holds the line that has not ended yet.
    pub fn take_chunk(&mut self, line: &mut LineBuffer, chunk: &[u8])
        requires
            old(self).wf(),
            old(line).wf(),
            old(self).has_room(chunk@.len()),
        ensures
            final(self).wf(),
            final(line).wf(),
            final(self)@ == old(self)@.accepted_all(lines_ended(old(line)@, chunk@)),
            final(line)@ == line_left(old(line)@, chunk@),
    {
        let ghost start = line@;
        let ghost begun = self@;
        let mut at: usize = 0;
        let mut more = true;
        let ghost mut done: Seq<PartialLine> = Seq::empty();
        assert(chunk@.skip(0) =~= chunk@);
        assert(done + lines_ended(start, chunk@) =~= lines_ended(start, chunk@));
        while more
            invariant
                self.wf(),
                line.wf(),
                begun == old(self)@,
                at <= chunk@.len(),
                self.has_room((chunk@.len() - at) as nat),
                self@ == begun.accepted_all(done),
                more ==> done + lines_ended(line@, chunk@.skip(at as int)) == lines_ended(
                    start,
                    chunk@,
                ),
                more ==> line_left(line@, chunk@.skip(at as int)) == line_left(start, chunk@),
                !more ==> done == lines_ended(start, chunk@) && line@ == line_left(start, chunk@),
            decreases
                chunk@.len() - at,
                if more {
                    1int
                } else {
                    0int
                },
        {
            let rest = vstd::slice::slice_subrange(chunk, at, chunk.len());
            assert(rest@ =~= chunk@.skip(at as int));
            let ghost before = line@;
            proof {
                lemma_line_end_is_within(rest@);
            }
            let (used, ended) = line.feed(rest);
            if ended {
                let ghost cut = line@;
                let (text, truncated) = line.take_line();
                self.accept(text, truncated, Ghost(cut));
                proof {
                    let tail = lines_ended(PartialLine::start(), rest@.skip(used as int));
                    assert(lines_ended(before, rest@) == seq![cut] + tail);
                    assert(done + (seq![cut] + tail) =~= done.push(cut) + tail);
                    assert(done.push(cut).drop_last() =~= done);
                    done = done.push(cut);
                    assert(rest@.skip(used as int) =~= chunk@.skip(at + used));
                }
                at = at + used;
            } else {
                proof {
                    assert(rest@.take(rest@.len() as int) =~= rest@);
                    assert(done + Seq::<PartialLine>::empty() =~= done);
                }
                at = chunk.len();
                more = false;
            }
        }
    }

    /// Take the end of a stream, which ends the line that `line` holds, if there is one.
    pub fn take_end(&mut self, line: LineBuffer)
        requires
            old(self).wf(),
            old(self).has_room(1),
        ensures
            final(self).wf(),
            final(self)@ == old(self)@.accepted_all(line_closed(line@)),
    {
        let ghost cut = line@;
        match line.finish() {
            Some((text, truncated)) => {
                self.accept(text, truncated, Ghost(cut));
                proof {
                    reveal_with_fuel(Capture::accepted_all, 2);
                    assert(seq![cut].drop_last() =~= Seq::<PartialLine>::empty());
                }
            },
            None => {},
        }
    }

    /// Take note that the stream could not be read any further.
    pub fn fail(&mut self, error: &str)
        requires
            old(self).wf(),
            old(self).counts(1),
        ensures
            final(self).wf(),
            final(self)@ == old(self)@.broken_off(error@),
    {
        self.read_failed = true;
        let mut text = "output capture failed: ".to_string();
        text.append(error);
        self.push(LogLine { text, is_error: true });
    }

    /// The most recent `n` captured lines (all of them if `n` exceeds the buffer), behind a notice
    /// where something is missing.
    pub fn tail(&self, n: usize) -> (r: Vec<LogLine>)
        ensures
            log_texts(r@) == self@.tail_texts(n as nat),
    {
        let mut out: Vec<LogLine> = Vec::new();
        if self.dropped > 0 || !self.complete() {
            let dropped = text::count_text(self.dropped);
            let truncated = text::count_text(self.truncated);
            let errors = text::count_text(self.errors);
            let mut notice = "[capture: ".to_string();
            notice.append(dropped.as_str());
            notice.append(" earlier lines omitted, ");
            notice.append(truncated.as_str());
            notice.append(" oversized lines truncated, ");
            notice.append(errors.as_str());
            if self.read_failed {
                notice.append(" total errors, output read failed]");
            } else {
                notice.append(" total errors]");
            }
            out.push(LogLine { text: notice, is_error: !self.complete() || self.errors > 0 });
            assert(log_texts(out@) =~= seq![self@.notice()]);
        } else {
            assert(log_texts(out@) =~= Seq::<LogText>::empty());
        }
        let ghost head = log_texts(out@);
        let count: usize = self.lines.len();
        let start: usize = if count > n {
            count - n
        } else {
            0
        };
        let mut i: usize = start;
        while i < count
            invariant
                count == self.lines@.len(),
                start <= i <= count,
                log_texts(out@) =~= head + log_texts(self.lines@.subrange(start as int, i as int)),
            decreases count - i,
        {
            let ghost was = out@;
            out.push(copy_line(&self.lines[i]));
            assert(log_texts(out@) =~= log_texts(was).push(self.lines@[i as int]@));
            i = i + 1;
        }
        assert(log_texts(self.lines@.subrange(start as int, count as int)) =~= self@.last_lines(
            n as nat,
        ));
        assert(Seq::<LogText>::empty() + self@.last_lines(n as nat) =~= self@.last_lines(n as nat));
        out
    }
}

proof fn lemma_total_push(lines: Seq<LogText>, line: LogText)
    ensures
        total_bytes(lines.push(line)) == total_bytes(lines) + byte_len(line.text),
    decreases lines.len(),
{
    if lines.len() > 0 {
        lemma_total_push(lines.skip(1), line);
        assert(lines.push(line).skip(1) =~= lines.skip(1).push(line));
    } else {
        assert(lines.push(line).skip(1) =~= lines);
    }
}

/// A line that is too long by itself leaves nothing to keep.
proof fn lemma_nothing_retained(lines: Seq<LogText>, line: LogText)
    requires
        byte_len(line.text) > LOG_BYTE_CAP,
    ensures
        retained(lines.push(line)) == Seq::<LogText>::empty(),
    decreases lines.len(),
{
    lemma_total_push(lines, line);
    if lines.len() > 0 {
        lemma_nothing_retained(lines.skip(1), line);
        assert(lines.push(line).skip(1) =~= lines.skip(1).push(line));
    } else {
        reveal_with_fuel(retained, 2);
        assert(lines.push(line).skip(1) =~= Seq::<LogText>::empty());
    }
}

/// What is kept is the end of what there was.
proof fn lemma_retained_is_a_tail(lines: Seq<LogText>)
    ensures
        retained(lines).len() <= lines.len(),
        retained(lines) == lines.skip(lines.len() - retained(lines).len()),
        !is_over(retained(lines)),
    decreases lines.len(),
{
    if lines.len() > 0 && is_over(lines) {
        lemma_retained_is_a_tail(lines.skip(1));
        let n = retained(lines).len();
        assert(lines.skip(1).skip(lines.len() - 1 - n) =~= lines.skip(lines.len() - n));
    } else {
        assert(lines.skip(0) =~= lines);
    }
}

/// A tail that keeps the limits is not kept shorter than it has to be.
proof fn lemma_retained_is_the_longest(lines: Seq<LogText>, k: int)
    requires
        0 <= k <= lines.len(),
        !is_over(lines.skip(k)),
    ensures
        retained(lines).len() >= lines.len() - k,
    decreases lines.len(),
{
    if lines.len() > 0 && is_over(lines) {
        if k == 0 {
            assert(lines.skip(0) =~= lines);
        } else {
            assert(lines.skip(1).skip(k - 1) =~= lines.skip(k));
            lemma_retained_is_the_longest(lines.skip(1), k - 1);
        }
    }
}

/// Dropping lines early makes no difference to what is kept in the end.
proof fn lemma_retained_after_push(lines: Seq<LogText>, line: LogText)
    ensures
        retained(retained(lines).push(line)) == retained(lines.push(line)),
    decreases lines.len(),
{
    if lines.len() > 0 && is_over(lines) {
        lemma_retained_after_push(lines.skip(1), line);
        lemma_total_push(lines, line);
        assert(lines.push(line).skip(1) =~= lines.skip(1).push(line));
        assert(is_over(lines.push(line)));
    }
}

/// However much is printed, at most [`LOG_CAP`] lines and [`LOG_BYTE_CAP`] bytes are kept, and they
/// are the end of what was printed: the longest end that keeps both limits.
pub proof fn law_the_longest_tail_within_the_limits_is_kept(history: Seq<LogText>, k: int)
    requires
        0 <= k <= history.len(),
    ensures
        retained(history).len() <= LOG_CAP,
        total_bytes(retained(history)) <= LOG_BYTE_CAP,
        retained(history).len() <= history.len(),
        retained(history) == history.skip(history.len() - retained(history).len()),
        k < history.len() - retained(history).len() ==> is_over(history.skip(k)),
{
    lemma_retained_is_a_tail(history);
    if k < history.len() - retained(history).len() && !is_over(history.skip(k)) {
        lemma_retained_is_the_longest(history, k);
    }
}

/// A capture that starts empty records everything pushed into it: the tail of all lines is kept, the
/// rest are counted as dropped, and errors stay counted once they have scrolled out of it.
pub proof fn law_a_capture_records_its_history(
    capture: Capture,
    history: Seq<LogText>,
    line: LogText,
)
    requires
        capture.records(history),
    ensures
        Capture::empty().records(Seq::empty()),
        capture.pushed(line).records(history.push(line)),
{
    lemma_retained_after_push(history, line);
    lemma_retained_is_a_tail(history);
    lemma_retained_is_a_tail(capture.lines.push(line));
    assert(history.push(line).drop_last() =~= history);
}

/// Every error line that was ever pushed is counted, kept or not.
pub proof fn law_errors_are_cumulative(capture: Capture, history: Seq<LogText>)
    requires
        capture.records(history),
    ensures
        capture.errors == errors_in(history),
        capture.errors >= errors_in(capture.lines),
{
    lemma_retained_is_a_tail(history);
    lemma_errors_of_tail(history, history.len() - capture.lines.len());
}

proof fn lemma_errors_of_tail(lines: Seq<LogText>, k: int)
    requires
        0 <= k <= lines.len(),
    ensures
        errors_in(lines.skip(k)) <= errors_in(lines),
    decreases lines.len(),
{
    if k < lines.len() {
        lemma_errors_of_tail(lines.drop_last(), k);
        assert(lines.skip(k).drop_last() =~= lines.drop_last().skip(k));
    }
}

proof fn lemma_accepted_in_turn(capture: Capture, a: Seq<PartialLine>, b: Seq<PartialLine>)
    ensures
        capture.accepted_all(a + b) == capture.accepted_all(a).accepted_all(b),
    decreases b.len(),
{
    if b.len() == 0 {
        assert(a + b =~= a);
    } else {
        lemma_accepted_in_turn(capture, a, b.drop_last());
        assert((a + b).drop_last() =~= a + b.drop_last());
    }
}

/// How a stream arrives makes no difference to what is captured of it: two chunks, one after the
/// other, leave what the two in one leave.
pub proof fn law_capture_ignores_chunking(
    capture: Capture,
    line: PartialLine,
    a: Seq<u8>,
    b: Seq<u8>,
)
    requires
        line.kept.len() <= LINE_BYTE_CAP,
    ensures
        capture.accepted_all(lines_ended(line, a + b)) == capture.accepted_all(
            lines_ended(line, a),
        ).accepted_all(lines_ended(line_left(line, a), b)),
        line_left(line, a + b) == line_left(line_left(line, a), b),
{
    lemma_chunks_in_turn(line, a, b);
    lemma_accepted_in_turn(
        capture,
        lines_ended(line, a),
        lines_ended(line_left(line, a), b),
    );
}

// ---- one-shot results ---------------------------------------------------------------------------

/// Result of a one-shot Godot invocation (parse-check, import, export, tests).
pub struct OneshotResult {
    /// Process exit code, or `None` if it was killed (e.g. timed out).
    pub exit_code: Option<i32>,
    pub timed_out: bool,
    /// Retained stdout+stderr tail, including a capture notice if output was omitted.
    pub lines: Vec<LogLine>,
    /// All observed errors, including those no longer retained in the tail.
    pub error_count: usize,
    /// False if a read failed or an oversized line could not be fully inspected.
    pub capture_complete: bool,
}

/// The texts of the error lines, in order.
pub open spec fn error_texts(lines: Seq<LogLine>) -> Seq<Seq<char>>
    decreases lines.len(),
{
    if lines.len() == 0 {
        Seq::empty()
    } else if lines.last().is_error {
        error_texts(lines.drop_last()).push(lines.last().text@)
    } else {
        error_texts(lines.drop_last())
    }
}

/// The result is what a command that ended that way, with that output captured, amounts to.
pub open spec fn is_result_of(
    r: OneshotResult,
    exit_code: Option<i32>,
    timed_out: bool,
    captured: Capture,
) -> bool {
    &&& r.exit_code == exit_code
    &&& r.timed_out == timed_out
    &&& log_texts(r.lines@) == captured.tail_texts(LOG_CAP as nat)
    &&& r.error_count == captured.errors
    &&& r.capture_complete == captured.is_complete()
}

impl OneshotResult {
    /// The process exited 0, in time, with everything it printed inspected and no error in it.
    pub open spec fn is_ok(self) -> bool {
        &&& self.exit_code == Some(0i32)
        &&& !self.timed_out
        &&& self.capture_complete
        &&& self.error_count == 0
    }

    /// What a finished command and its captured output amount to.
    pub fn of(exit_code: Option<i32>, timed_out: bool, captured: &CapturedOutput) -> (r: Self)
        ensures
            is_result_of(r, exit_code, timed_out, captured@),
    {
        OneshotResult {
            exit_code,
            timed_out,
            lines: captured.tail(LOG_CAP),
            error_count: captured.errors,
            capture_complete: captured.complete(),
        }
    }

    /// Lines flagged as errors.
    pub fn error_lines(&self) -> (r: Vec<&str>)
        ensures
            text::str_texts(r@) == error_texts(self.lines@),
    {
        let mut out: Vec<&str> = Vec::new();
        assert(text::str_texts(out@) =~= Seq::<Seq<char>>::empty());
        for i in 0..self.lines.len()
            invariant
                text::str_texts(out@) == error_texts(self.lines@.take(i as int)),
        {
            assert(self.lines@.take(i + 1).drop_last() =~= self.lines@.take(i as int));
            if self.lines[i].is_error {
                let line = self.lines[i].text.as_str();
                assert(text::str_texts(out@.push(line)) =~= text::str_texts(out@).push(line@));
                out.push(line);
            }
        }
        assert(self.lines@.take(self.lines@.len() as int) =~= self.lines@);
        out
    }

    /// True when the process exited 0 with no error-classified output.
    pub fn ok(&self) -> (r: bool)
        ensures
            r == self.is_ok(),
    {
        let clean = match self.exit_code {
            Some(code) => code == 0,
            None => false,
        };
        clean && !self.timed_out && self.capture_complete && self.error_count == 0
    }
}

/// What can happen while a command runs to completion.
#[derive(Clone, Copy, Debug, PartialEq, Eq, Structural)]
pub enum Event {
    /// The process ended, with a code unless it was killed.
    Exited(Option<i32>),
    /// Waiting for the process failed.
    WaitFailed,
    /// One of the output streams was read to its end.
    ReaderEnded,
    /// The reading of an output stream was itself cut short.
    ReaderFailed,
    /// The time for the command is up.
    Deadline,
}

/// How a command ended.
#[derive(Clone, Copy, Debug, PartialEq, Eq, Structural)]
pub enum Ending {
    Complete,
    TimedOut,
    WaitFailed,
    ReaderFailed,
}

/// A command that is being run to completion. It is complete once the process has ended and its
/// output streams have been read to their ends: a descendant can keep inherited pipes open after the
/// process itself has ended, so the deadline covers draining them as well.
#[derive(Clone, Copy, Debug, PartialEq, Eq, Structural)]
pub struct OneshotRun {
    /// The code the process ended with, once it has.
    pub exited: Option<Option<i32>>,
    /// How many output streams are still being read.
    pub readers: usize,
    /// The reading of one of them was cut short. It counts once the process has ended.
    pub failed: bool,
    pub ending: Option<Ending>,
}

/// The command once something has happened.
pub open spec fn stepped(run: OneshotRun, event: Event) -> OneshotRun {
    if run.ending is Some {
        run
    } else {
        match event {
            Event::Exited(code) => {
                let exited = match run.exited {
                    Some(first) => first,
                    None => code,
                };
                OneshotRun {
                    exited: Some(exited),
                    ending: if run.failed {
                        Some(Ending::ReaderFailed)
                    } else if run.readers == 0 {
                        Some(Ending::Complete)
                    } else {
                        None
                    },
                    ..run
                }
            },
            Event::ReaderEnded => {
                let readers = if run.readers > 0 {
                    (run.readers - 1) as usize
                } else {
                    0usize
                };
                OneshotRun {
                    readers,
                    ending: if readers == 0 && run.exited is Some {
                        Some(Ending::Complete)
                    } else {
                        None
                    },
                    ..run
                }
            },
            Event::WaitFailed => OneshotRun { ending: Some(Ending::WaitFailed), ..run },
            Event::ReaderFailed => OneshotRun {
                failed: true,
                ending: if run.exited is Some {
                    Some(Ending::ReaderFailed)
                } else {
                    None
                },
                ..run
            },
            Event::Deadline => OneshotRun { ending: Some(Ending::TimedOut), ..run },
        }
    }
}

impl OneshotRun {
    /// A command that has just been started, with so many output streams to read.
    pub fn start(readers: usize) -> (r: Self)
        ensures
            r == (OneshotRun { exited: None, readers, failed: false, ending: None }),
    {
        OneshotRun { exited: None, readers, failed: false, ending: None }
    }

    /// The code to report: none where the process was killed or has not ended.
    pub open spec fn code(self) -> Option<i32> {
        match self.exited {
            Some(code) => code,
            None => None,
        }
    }

    /// Take note of what happened. Gives how the command ended, once it has.
    pub fn step(&mut self, event: Event) -> (r: Option<Ending>)
        ensures
            *final(self) == stepped(*old(self), event),
            r == final(self).ending,
    {
        if self.ending.is_some() {
            return self.ending;
        }
        match event {
            Event::Exited(code) => {
                if self.exited.is_none() {
                    self.exited = Some(code);
                }
                if self.failed {
                    self.ending = Some(Ending::ReaderFailed);
                } else if self.readers == 0 {
                    self.ending = Some(Ending::Complete);
                }
            },
            Event::ReaderEnded => {
                if self.readers > 0 {
                    self.readers = self.readers - 1;
                }
                if self.readers == 0 && self.exited.is_some() {
                    self.ending = Some(Ending::Complete);
                }
            },
            Event::WaitFailed => {
                self.ending = Some(Ending::WaitFailed);
            },
            Event::ReaderFailed => {
                self.failed = true;
                if self.exited.is_some() {
                    self.ending = Some(Ending::ReaderFailed);
                }
            },
            Event::Deadline => {
                self.ending = Some(Ending::TimedOut);
            },
        }
        self.ending
    }

    /// The result of a command that has ended, with what was captured of its output by then.
    pub fn result(&self, captured: &CapturedOutput) -> (r: Result<OneshotResult, String>)
        requires
            self.ending is Some,
        ensures
            match self.ending->Some_0 {
                Ending::WaitFailed => r is Err && r->Err_0@ == "failed to wait for command"@,
                Ending::ReaderFailed => r is Err && r->Err_0@ == "output capture task failed"@,
                ending => r is Ok && is_result_of(
                    r->Ok_0,
                    self.code(),
                    ending == Ending::TimedOut,
                    captured@,
                ),
            },
    {
        let code = match self.exited {
            Some(code) => code,
            None => None,
        };
        match self.ending {
            Some(Ending::WaitFailed) => Err("failed to wait for command".to_string()),
            Some(Ending::ReaderFailed) => Err("output capture task failed".to_string()),
            Some(Ending::TimedOut) => Ok(OneshotResult::of(code, true, captured)),
            _ => Ok(OneshotResult::of(code, false, captured)),
        }
    }
}

/// The command once a series of things has happened.
pub open spec fn stepped_all(run: OneshotRun, events: Seq<Event>) -> OneshotRun
    decreases events.len(),
{
    if events.len() == 0 {
        run
    } else {
        stepped(stepped_all(run, events.drop_last()), events.last())
    }
}

/// A command is complete only once the process has ended and every stream has been read to its end;
/// until then the deadline ends it as timed out, and keeps the code if the process has ended. A
/// stream that could not be read makes it fail, though not before the process has ended.
pub proof fn law_the_deadline_covers_the_output(readers: usize, events: Seq<Event>)
    ensures
        ({
            let run = stepped_all(
                OneshotRun { exited: None, readers, failed: false, ending: None },
                events,
            );
            &&& run.ending == Some(Ending::Complete) ==> run.exited is Some && run.readers == 0
                && !run.failed
            &&& run.ending == Some(Ending::ReaderFailed) ==> run.exited is Some && run.failed
            &&& run.ending is None && run.failed ==> run.exited is None
            &&& run.ending is None ==> run.exited is None || run.readers > 0
            &&& run.ending is None ==> stepped(run, Event::Deadline).ending == Some(
                Ending::TimedOut,
            ) && stepped(run, Event::Deadline).code() == run.code()
        }),
    decreases events.len(),
{
    if events.len() > 0 {
        law_the_deadline_covers_the_output(readers, events.drop_last());
    }
}

/// How a command ended does not change any more.
pub proof fn law_an_ending_is_final(run: OneshotRun, event: Event)
    requires
        run.ending is Some,
    ensures
        stepped(run, event) == run,
{
}

/// A command whose output could not be inspected in full is never a clean one.
pub proof fn law_incomplete_capture_is_never_ok(
    res: OneshotResult,
    exit_code: Option<i32>,
    timed_out: bool,
    capture: Capture,
)
    requires
        is_result_of(res, exit_code, timed_out, capture),
    ensures
        capture.read_failed || capture.truncated > 0 || capture.errors > 0 ==> !res.is_ok(),
        timed_out || exit_code != Some(0i32) ==> !res.is_ok(),
{
}

/// The texts of the last `n` lines.
pub open spec fn last_texts(lines: Seq<LogLine>, n: nat) -> Seq<Seq<char>> {
    let start = if lines.len() <= n {
        0int
    } else {
        lines.len() - n
    };
    lines.skip(start).map_values(|l: LogLine| l.text@)
}

/// The texts of the last `n` lines.
pub fn last_lines(lines: &[LogLine], n: usize) -> (r: Vec<String>)
    ensures
        text::texts(r@) == last_texts(lines@, n as nat),
{
    let count: usize = lines.len();
    let start: usize = if count > n {
        count - n
    } else {
        0
    };
    let mut out: Vec<String> = Vec::new();
    let mut i: usize = start;
    while i < count
        invariant
            count == lines@.len(),
            start <= i <= count,
            out@.len() == i - start,
            forall|j: int| 0 <= j < out@.len() ==> #[trigger] out@[j]@ == lines@[start + j].text@,
        decreases count - i,
    {
        out.push(lines[i].text.clone());
        i = i + 1;
    }
    assert(text::texts(out@) =~= last_texts(lines@, n as nat));
    out
}

/// How many of the error lines are shown.
pub const SHOWN_ERRORS: usize = 40;

/// The first `n` of the texts.
pub open spec fn beginning(v: Seq<Seq<char>>, n: nat) -> Seq<Seq<char>> {
    if v.len() <= n {
        v
    } else {
        v.take(n as int)
    }
}

/// The error lines as they are reported: how many there are, and the first of them.
pub open spec fn error_listing(errors: Seq<Seq<char>>) -> Seq<char> {
    if errors.len() == 0 {
        Seq::empty()
    } else {
        "errors ("@ + text::decimal(errors.len()) + "):\n"@ + text::indented(
            beginning(errors, SHOWN_ERRORS as nat),
        )
    }
}

pub fn list_errors(errors: &[String]) -> (r: String)
    ensures
        r@ == error_listing(text::texts(errors@)),
{
    if errors.len() == 0 {
        return String::new();
    }
    let count: usize = errors.len();
    let end: usize = if count > SHOWN_ERRORS {
        SHOWN_ERRORS
    } else {
        count
    };
    let shown = vstd::slice::slice_subrange(errors, 0, end);
    assert(text::texts(shown@) =~= beginning(text::texts(errors@), SHOWN_ERRORS as nat));
    let mut out = "errors (".to_string();
    out.append(text::count_text(count).as_str());
    out.append("):\n");
    out.append(text::indent(shown).as_str());
    out
}

/// An exit code as it is shown, `Some(0)` or `None`.
pub open spec fn exit_words(code: Option<i32>) -> Seq<char> {
    match code {
        Some(c) => "Some("@ + text::signed(c as int) + ")"@,
        None => "None"@,
    }
}

pub fn exit_text(code: Option<i32>) -> (r: String)
    ensures
        r@ == exit_words(code),
{
    match code {
        Some(c) => {
            let mut out = "Some(".to_string();
            out.append(text::signed_text(c).as_str());
            out.append(")");
            out
        },
        None => "None".to_string(),
    }
}

// ---- long-running processes ---------------------------------------------------------------------

/// What is known of one started Godot process.
pub struct GodotProc {
    /// The resolved argv (binary + args), for status display.
    pub argv: Vec<String>,
    /// Cached once the process has been observed to exit.
    pub exit_code: Option<i32>,
}

/// The code a process that ended without one is given.
pub open spec fn code_or_minus_one(code: Option<i32>) -> i32 {
    match code {
        Some(c) => c,
        None => -1i32,
    }
}

impl GodotProc {
    /// The record of a process that has just been started.
    pub fn spawn(godot_bin: &str, args: &[String]) -> (r: Self)
        ensures
            text::texts(r.argv@) == seq![godot_bin@] + text::texts(args@),
            r.exit_code is None,
    {
        let mut argv: Vec<String> = Vec::new();
        argv.push(godot_bin.to_string());
        let mut rest = text::copy_of(args);
        let ghost tail = rest@;
        argv.append(&mut rest);
        assert(text::texts(argv@) =~= seq![godot_bin@] + text::texts(tail));
        GodotProc { argv, exit_code: None }
    }

    /// The record once the process has been looked at: the first code that was observed stays.
    pub open spec fn observed(self, seen: Option<Option<i32>>) -> Option<i32> {
        match self.exit_code {
            Some(c) => Some(c),
            None => match seen {
                Some(code) => Some(code_or_minus_one(code)),
                None => None,
            },
        }
    }

    /// Take note of a poll: `None` while the process runs, else the code it ended with.
    pub fn poll_exit(&mut self, polled: Option<Option<i32>>) -> (r: Option<i32>)
        ensures
            final(self).argv == old(self).argv,
            final(self).exit_code == old(self).observed(polled),
            r == final(self).exit_code,
    {
        if self.exit_code.is_none() {
            if let Some(code) = polled {
                self.exit_code = Some(
                    match code {
                        Some(c) => c,
                        None => -1,
                    },
                );
            }
        }
        self.exit_code
    }

    /// Take note that the process was killed: `None` where it could not be waited for, else the
    /// code it ended with.
    pub fn kill(&mut self, waited: Option<Option<i32>>)
        ensures
            final(self).argv == old(self).argv,
            final(self).exit_code == old(self).observed(waited),
    {
        self.poll_exit(waited);
    }
}

// ---- what capturing is for -----------------------------------------------------------------------

/// A line is an error line exactly when it holds one of the engine's error marks anywhere, or starts
/// with `ERROR` behind nothing but blanks.
pub proof fn law_what_reads_as_an_error(line: Seq<char>, a: Seq<char>, b: Seq<char>)
    ensures
        is_error_text(a + "SCRIPT ERROR"@ + b),
        is_error_text(a + "SHADER ERROR"@ + b),
        is_error_text(a + "Parse Error"@ + b),
        is_error_text(a + "USER ERROR"@ + b),
        text::is_blank(a) ==> is_error_text(a + "ERROR"@ + b),
        is_error_text(line) ==> text::has(line, "SCRIPT ERROR"@) || text::has(line, "SHADER ERROR"@)
            || text::has(line, "Parse Error"@) || text::has(line, "USER ERROR"@) || text::begins(
            text::trimmed_start(line),
            "ERROR"@,
        ),
{
    text::law_a_text_is_found_where_it_stands(line, a, "SCRIPT ERROR"@, b);
    text::law_a_text_is_found_where_it_stands(line, a, "SHADER ERROR"@, b);
    text::law_a_text_is_found_where_it_stands(line, a, "Parse Error"@, b);
    text::law_a_text_is_found_where_it_stands(line, a, "USER ERROR"@, b);
    if text::is_blank(a) {
        lemma_behind_blanks(a, "ERROR"@, b);
    }
}

/// A stack frame is `at: ` behind nothing but blanks.
pub proof fn law_what_reads_as_a_stack_frame(line: Seq<char>, a: Seq<char>, b: Seq<char>)
    ensures
        text::is_blank(a) ==> is_frame_text(a + "at: "@ + b),
        is_frame_text(line) <==> text::begins(text::trimmed_start(line), "at: "@),
{
    if text::is_blank(a) {
        lemma_behind_blanks(a, "at: "@, b);
    }
}

proof fn lemma_behind_blanks(a: Seq<char>, word: Seq<char>, b: Seq<char>)
    requires
        text::is_blank(a),
        word == "ERROR"@ || word == "at: "@,
    ensures
        text::begins(text::trimmed_start(a + word + b), word),
{
    reveal_strlit("ERROR");
    reveal_strlit("at: ");
    text::law_what_is_blank(a);
    let first = word.take(1);
    let none = Seq::<char>::empty();
    // The word's first character ends the blanks; what follows it is kept with it.
    text::law_trimming_takes_the_outer_blanks(a, first, none);
    lemma_blanks_in_front(a, word + b);
    assert(a + word + b =~= a + (word + b));
    text::law_a_text_is_found_where_it_stands(none, none, word, b);
}

proof fn lemma_blanks_in_front(a: Seq<char>, s: Seq<char>)
    requires
        forall|i: int| 0 <= i < a.len() ==> text::is_white(#[trigger] a[i]),
        s.len() > 0,
        !text::is_white(s[0]),
    ensures
        text::trimmed_start(a + s) == s,
    decreases a.len(),
{
    if a.len() > 0 {
        assert(text::is_white(a[0]));
        assert((a + s).skip(1) =~= a.skip(1) + s);
        assert forall|i: int| 0 <= i < a.skip(1).len() implies text::is_white(
            #[trigger] a.skip(1)[i],
        ) by {
            assert(text::is_white(a[i + 1]));
        }
        lemma_blanks_in_front(a.skip(1), s);
    } else {
        assert(a + s =~= s);
    }
}

/// Output is cut at its line feeds: what stands in front of the first one is a line, what follows is
/// read the same way, and what no line feed has ended is left over.
pub proof fn law_output_is_cut_at_line_feeds(line: PartialLine, a: Seq<u8>, rest: Seq<u8>)
    requires
        forall|i: int| 0 <= i < a.len() ==> #[trigger] a[i] != 10,
    ensures
        lines_ended(line, a + seq![10u8] + rest) == seq![extended(line, a)] + lines_ended(
            PartialLine::start(),
            rest,
        ),
        line_left(line, a + seq![10u8] + rest) == line_left(PartialLine::start(), rest),
        lines_ended(line, a) == Seq::<PartialLine>::empty(),
        line_left(line, a) == extended(line, a),
{
    lemma_no_line_feed(a);
    let tail = seq![10u8] + rest;
    assert(line_end(tail) == 0);
    lemma_line_end_of_two(a, tail);
    let whole = a + seq![10u8] + rest;
    assert(whole =~= a + tail);
    assert(whole.take(a.len() as int) =~= a);
    assert(whole.skip(a.len() as int + 1) =~= rest);
}

proof fn lemma_no_line_feed(a: Seq<u8>)
    requires
        forall|i: int| 0 <= i < a.len() ==> #[trigger] a[i] != 10,
    ensures
        line_end(a) == a.len(),
    decreases a.len(),
{
    if a.len() > 0 {
        assert(a[0] != 10);
        assert forall|i: int| 0 <= i < a.skip(1).len() implies #[trigger] a.skip(1)[i] != 10 by {
            assert(a[i + 1] != 10);
        }
        lemma_no_line_feed(a.skip(1));
    }
}

/// What stands at the end of a stream without a line feed is a line too, unless it is nothing.
pub proof fn law_the_end_closes_a_line(line: PartialLine)
    ensures
        line.kept.len() > 0 ==> line_closed(line) == seq![line],
        line_closed(PartialLine::start()).len() == 0,
{
}

/// A line of text that was printed is what is captured last, marked exactly when it reads as an
/// error, which is then counted; nothing of it counts as cut.
pub proof fn law_a_printed_line_is_captured(capture: Capture, line: Seq<char>)
    requires
        byte_len(line) < LINE_BYTE_CAP,
        byte_len(line) > 0 ==> vstd::utf8::encode_utf8(line).last() != 13,
    ensures
        ({
            let now = capture.accepted(
                extended(PartialLine::start(), vstd::utf8::encode_utf8(line)),
            );
            &&& now.lines.len() > 0
            &&& now.lines.last() == (LogText { text: line, is_error: is_error_text(line) })
            &&& now.errors == capture.errors + if is_error_text(line) {
                1nat
            } else {
                0nat
            }
            &&& now.truncated == capture.truncated
            &&& now.read_failed == capture.read_failed
            &&& now.dropped + now.lines.len() == capture.dropped + capture.lines.len() + 1
        }),
{
    law_a_printed_line_is_read_back(line);
    let entry = LogText { text: line, is_error: is_error_text(line) };
    let all = capture.lines.push(entry);
    lemma_retained_is_a_tail(all);
    let alone = all.skip(capture.lines.len() as int);
    assert(alone =~= seq![entry]);
    assert(seq![entry].skip(1) =~= Seq::<LogText>::empty());
    reveal_with_fuel(total_bytes, 2);
    assert(!is_over(alone));
    lemma_retained_is_the_longest(all, capture.lines.len() as int);
}

/// A stream that breaks off is remembered as such, counted as an error and named.
pub proof fn law_a_broken_stream_is_remembered(capture: Capture, error: Seq<char>)
    ensures
        capture.broken_off(error).read_failed,
        !capture.broken_off(error).is_complete(),
        capture.broken_off(error).errors == capture.errors + 1,
        capture.broken_off(error).truncated == capture.truncated,
        capture.broken_off(error) == (Capture { read_failed: true, ..capture }).pushed(
            LogText { text: "output capture failed: "@ + error, is_error: true },
        ),
{
}

/// Counting goes line by line.
#[verifier::rlimit(50)]
pub proof fn law_counting_goes_line_by_line(a: Seq<LogText>, b: Seq<LogText>, line: LogText)
    ensures
        errors_in(a + b) == errors_in(a) + errors_in(b),
        errors_in(seq![line]) == if line.is_error {
            1nat
        } else {
            0nat
        },
        total_bytes(a + b) == total_bytes(a) + total_bytes(b),
        total_bytes(seq![line]) == byte_len(line.text),
    decreases b.len(),
{
    reveal_with_fuel(errors_in, 2);
    reveal_with_fuel(total_bytes, 2);
    assert(seq![line].drop_last() =~= Seq::<LogText>::empty());
    assert(seq![line].skip(1) =~= Seq::<LogText>::empty());
    if b.len() == 0 {
        assert(a + b =~= a);
    } else {
        law_counting_goes_line_by_line(a, b.drop_last(), line);
        assert((a + b).drop_last() =~= a + b.drop_last());
        assert(a + b =~= (a + b.drop_last()).push(b.last()));
        assert(b =~= b.drop_last().push(b.last()));
        lemma_total_push(a + b.drop_last(), b.last());
        lemma_total_push(b.drop_last(), b.last());
    }
}

/// The tail of a capture is its last lines in order, all of them where it holds no more; a notice
/// stands in front exactly when something is missing, and says how much.
#[verifier::rlimit(50)]
pub proof fn law_the_tail_of_a_capture(capture: Capture, front: Seq<LogText>, back: Seq<LogText>, n: nat)
    requires
        capture.lines == front + back,
    ensures
        ({
            let whole = capture.dropped == 0 && !capture.read_failed && capture.truncated == 0;
            let tail = capture.tail_texts(back.len());
            &&& whole ==> tail == back
            &&& !whole ==> tail.len() == back.len() + 1 && tail.skip(1) == back
            &&& !whole ==> text::has(tail[0].text, text::decimal(capture.dropped) + " earlier lines"@)
            &&& !whole ==> text::has(tail[0].text, text::decimal(capture.truncated) + " oversized lines"@)
            &&& !whole ==> text::has(tail[0].text, text::decimal(capture.errors) + " total errors"@)
            &&& !whole ==> (tail[0].is_error <==> capture.read_failed || capture.truncated > 0
                || capture.errors > 0)
            &&& whole && n >= capture.lines.len() ==> capture.tail_texts(n) == capture.lines
        }),
{
    assert(capture.lines.skip(front.len() as int) =~= back);
    assert(capture.lines.skip(0) =~= capture.lines);
    if front.len() == 0 {
        assert(front + back =~= back);
    }
    let tail = capture.tail_texts(back.len());
    assert(capture.last_lines(back.len()) =~= back);
    assert(seq![capture.notice()] + back =~= seq![capture.notice()] + capture.last_lines(back.len()));
    assert((seq![capture.notice()] + back).skip(1) =~= back);
    let d = text::decimal(capture.dropped);
    let t = text::decimal(capture.truncated);
    let e = text::decimal(capture.errors);
    let end = if capture.read_failed {
        ", output read failed]"@
    } else {
        "]"@
    };
    let closing = if capture.read_failed {
        " total errors, output read failed]"@
    } else {
        " total errors]"@
    };
    reveal_strlit(", output read failed]");
    reveal_strlit("]");
    reveal_strlit(" total errors");
    reveal_strlit(" total errors, output read failed]");
    reveal_strlit(" total errors]");
    assert(closing =~= " total errors"@ + end);
    reveal_strlit(" earlier lines");
    reveal_strlit(" omitted, ");
    reveal_strlit(" earlier lines omitted, ");
    assert(" earlier lines omitted, "@ =~= " earlier lines"@ + " omitted, "@);
    reveal_strlit(" oversized lines");
    reveal_strlit(" truncated, ");
    reveal_strlit(" oversized lines truncated, ");
    assert(" oversized lines truncated, "@ =~= " oversized lines"@ + " truncated, "@);
    let notice = capture.notice().text;
    let a = "[capture: "@;
    let rest1 = " omitted, "@ + t + " oversized lines truncated, "@ + e + closing;
    assert(notice =~= a + (d + " earlier lines"@) + rest1);
    text::lemma_has_part(notice, a, d + " earlier lines"@, rest1);
    let a2 = a + d + " earlier lines omitted, "@;
    let rest2 = " truncated, "@ + e + closing;
    assert(notice =~= a2 + (t + " oversized lines"@) + rest2);
    text::lemma_has_part(notice, a2, t + " oversized lines"@, rest2);
    let a3 = a2 + t + " oversized lines truncated, "@;
    assert(notice =~= a3 + (e + " total errors"@) + end);
    text::lemma_has_part(notice, a3, e + " total errors"@, end);
}

/// The error lines of a result are those that are marked, each with its own text and in order.
#[verifier::rlimit(50)]
pub proof fn law_error_lines_are_the_marked_ones(a: Seq<LogLine>, b: Seq<LogLine>, line: LogLine)
    ensures
        error_texts(a + b) == error_texts(a) + error_texts(b),
        error_texts(seq![line]) == if line.is_error {
            seq![line.text@]
        } else {
            Seq::empty()
        },
    decreases b.len(),
{
    reveal_with_fuel(error_texts, 2);
    assert(seq![line].drop_last() =~= Seq::<LogLine>::empty());
    assert(error_texts(seq![line]) =~= if line.is_error {
        seq![line.text@]
    } else {
        Seq::empty()
    });
    if b.len() == 0 {
        assert(a + b =~= a);
        assert(error_texts(a) + error_texts(b) =~= error_texts(a));
    } else {
        law_error_lines_are_the_marked_ones(a, b.drop_last(), line);
        assert((a + b).drop_last() =~= a + b.drop_last());
        assert(error_texts(a + b) =~= error_texts(a) + error_texts(b));
    }
}

/// Every error line is among the error texts.
pub proof fn lemma_error_line_is_listed(lines: Seq<LogLine>, i: int)
    requires
        0 <= i < lines.len(),
        lines[i].is_error,
    ensures
        error_texts(lines).contains(lines[i].text@),
{
    let front = lines.take(i);
    let back = lines.skip(i + 1);
    assert(lines =~= front + (seq![lines[i]] + back));
    law_error_lines_are_the_marked_ones(front, seq![lines[i]] + back, lines[i]);
    law_error_lines_are_the_marked_ones(seq![lines[i]], back, lines[i]);
    assert(error_texts(lines)[error_texts(front).len() as int] == lines[i].text@);
}

/// The last lines are the last ones, in order and each with its own text.
pub proof fn law_the_last_lines(front: Seq<LogLine>, back: Seq<LogLine>, n: nat, i: int)
    requires
        0 <= i < back.len(),
        n >= back.len(),
    ensures
        last_texts(front + back, back.len()).len() == back.len(),
        last_texts(front + back, back.len())[i] == back[i].text@,
        last_texts(back, n).len() == back.len(),
        last_texts(back, n)[i] == back[i].text@,
{
    assert((front + back).skip(front.len() as int) =~= back);
    assert(back.skip(0) =~= back);
    if front.len() == 0 {
        assert(front + back =~= back);
    }
}

/// A list of errors says how many there are and shows the first ones, all of them up to the limit;
/// without errors it says nothing.
pub proof fn law_errors_are_listed(errors: Seq<Seq<char>>, i: int)
    ensures
        errors.len() == 0 ==> error_listing(errors).len() == 0,
        errors.len() > 0 ==> text::begins(
            error_listing(errors),
            "errors ("@ + text::decimal(errors.len()) + "):\n"@,
        ),
        0 <= i < errors.len() && i < SHOWN_ERRORS ==> text::has(
            error_listing(errors),
            "  "@ + errors[i] + "\n"@,
        ),
        SHOWN_ERRORS == 40,
{
    let listing = error_listing(errors);
    let shown = beginning(errors, SHOWN_ERRORS as nat);
    let head = "errors ("@ + text::decimal(errors.len()) + "):\n"@;
    let empty = Seq::<char>::empty();
    text::law_a_text_is_found_where_it_stands(empty, empty, head, text::indented(shown));
    if 0 <= i < errors.len() && i < SHOWN_ERRORS {
        assert(shown[i] == errors[i]);
        text::law_every_indented_line_is_shown(shown, i);
        assert(listing =~= head + text::indented(shown) + empty);
        text::lemma_has_part(listing, head, text::indented(shown), empty);
        text::lemma_has_through(listing, text::indented(shown), "  "@ + errors[i] + "\n"@);
    }
}

/// An exit code is shown as the number it is, and a process without one as having none.
pub proof fn law_exit_codes_are_shown(c: i32)
    ensures
        exit_words(None) == "None"@,
        text::begins(exit_words(Some(c)), "Some("@ + text::signed(c as int) + ")"@),
{
    let empty = Seq::<char>::empty();
    let shown = "Some("@ + text::signed(c as int) + ")"@;
    assert(shown + empty =~= shown);
    text::law_a_text_is_found_where_it_stands(empty, empty, shown, empty);
}

/// A command is complete once it has ended and the last of its streams has been read; its code is the
/// first one it ended with.
pub proof fn law_how_a_command_completes(run: OneshotRun, code: Option<i32>, later: Option<i32>)
    requires
        run.ending is None,
    ensures
        run.exited is None ==> stepped(run, Event::Exited(code)).code() == code,
        run.exited is None ==> stepped(
            stepped(run, Event::Exited(code)),
            Event::Exited(later),
        ).code() == code,
        run.readers == 0 && !run.failed ==> stepped(run, Event::Exited(code)).ending == Some(
            Ending::Complete,
        ),
        run.readers > 0 && !run.failed ==> stepped(run, Event::Exited(code)).ending is None,
        run.readers > 0 ==> stepped(run, Event::ReaderEnded).readers == run.readers - 1,
        run.readers == 1 && run.exited is Some ==> stepped(run, Event::ReaderEnded).ending == Some(
            Ending::Complete,
        ),
        run.readers > 1 || run.exited is None ==> stepped(run, Event::ReaderEnded).ending is None,
        stepped(run, Event::WaitFailed).ending == Some(Ending::WaitFailed),
        stepped(run, Event::Deadline).ending == Some(Ending::TimedOut),
        stepped(run, Event::Deadline).code() == run.code(),
        run.exited is Some ==> stepped(run, Event::ReaderFailed).ending == Some(
            Ending::ReaderFailed,
        ),
{
}

/// The first code that is observed of a process stays; one that ended without a code counts as -1.
pub proof fn law_the_first_observed_code_stays(proc: GodotProc, c: i32, seen: Option<Option<i32>>)
    ensures
        proc.exit_code is Some ==> proc.observed(seen) == proc.exit_code,
        proc.exit_code is None ==> proc.observed(Some(Some(c))) == Some(c),
        proc.exit_code is None ==> proc.observed(Some(None)) == Some(-1i32),
        proc.exit_code is None ==> proc.observed(None) is None,
{
}

/// A clean result: exit code zero, in time, all of the output inspected, and no error in it.
pub proof fn law_what_is_a_clean_result(res: OneshotResult)
    ensures
        res.is_ok() <==> res.exit_code == Some(0i32) && !res.timed_out && res.capture_complete
            && res.error_count == 0,
{
}

/// Before anything is printed nothing has been captured, and nothing is missing.
pub proof fn law_a_capture_starts_empty(n: nat)
    ensures
        Capture::empty().lines.len() == 0,
        Capture::empty().errors == 0,
        Capture::empty().is_complete(),
        Capture::empty().tail_texts(n).len() == 0,
{
}

/// The limits in numbers: 4000 lines and four megabytes of a capture are kept, and 64 kilobytes of a
/// line.
pub proof fn law_the_limits_of_a_capture(history: Seq<LogText>, line: Seq<u8>)
    ensures
        is_over(history) <==> history.len() > 4000 || total_bytes(history) > 4194304,
        !is_over(history) ==> retained(history) == history,
        line.len() <= 65536 ==> extended(PartialLine::start(), line).kept == line && !extended(
            PartialLine::start(),
            line,
        ).cut,
        line.len() > 65536 ==> extended(PartialLine::start(), line).kept == line.take(65536)
            && extended(PartialLine::start(), line).cut,
{
    law_a_line_is_cut_exactly_past_the_limit(line);
}

/// A capture that could be inspected is one that was read to its end and in which no line was cut.
pub proof fn law_what_is_a_complete_capture(capture: Capture)
    ensures
        capture.is_complete() <==> !capture.read_failed && capture.truncated == 0,
{
}

/// What is kept is counted by its bytes, and both limits hold of it.
pub proof fn law_a_capture_knows_its_size(out: CapturedOutput)
    requires
        out.wf(),
    ensures
        out.bytes == total_bytes(out@.lines),
        out.bytes <= 4194304,
        out@.lines.len() <= 4000,
{
}

/// A line that was cut says so behind what was kept of it, and only such a line does.
pub proof fn law_a_cut_line_is_marked(kept: Seq<char>)
    ensures
        ({
            let bytes = vstd::utf8::encode_utf8(kept);
            let shown = line_text(PartialLine { kept: bytes, cut: false });
            &&& line_text(PartialLine { kept: bytes, cut: true }) == shown + " [line truncated]"@
            &&& bytes.len() == 0 || bytes.last() != 13 ==> shown == kept
        }),
{
    vstd::utf8::encode_utf8_decode_utf8(kept);
    vstd::utf8::encode_utf8_valid_utf8(kept);
}

} // verus!
