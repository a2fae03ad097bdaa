//! What a process of an extension wrote: a bounded list of lines, the oldest dropped first.

use vstd::prelude::*;
use vstd::utf8::encode_utf8;
use crate::outside::{decode_lossy, json_reading, read_json, utf8_lossy};
use crate::text::{chars_of, text_of, text_opt};

verus! {

/// How many lines of a process are kept.
pub const EXTENSION_PROCESS_LINES: usize = 256;

/// How many bytes of a process's lines are kept.
pub const EXTENSION_PROCESS_BYTES: usize = 131072;

/// One line of output. A line that is JSON carries its value in compact form; any other line stays
/// visible and carries the error.
#[derive(Debug)]
pub struct ProcessLine {
    pub stream: String,
    pub line: String,
    pub sequence: u64,
    pub value: Option<String>,
    pub error: Option<String>,
}

/// A line of output, as its texts.
pub struct LineView {
    pub stream: Seq<char>,
    pub line: Seq<char>,
    pub sequence: u64,
    pub value: Option<Seq<char>>,
    pub error: Option<Seq<char>>,
}

/// The lines that are kept, and the number that the next line gets.
pub struct OutputView {
    pub lines: Seq<LineView>,
    pub next: u64,
}

/// The output of one process.
#[derive(Debug)]
pub struct ProcessOutput {
    pub lines: Vec<ProcessLine>,
    pub bytes: usize,
    pub next_sequence: u64,
}

impl View for ProcessLine {
    type V = LineView;

    open spec fn view(&self) -> LineView {
        LineView {
            stream: self.stream@,
            line: self.line@,
            sequence: self.sequence,
            value: text_opt(self.value),
            error: text_opt(self.error),
        }
    }
}

/// The views of a list of lines.
pub open spec fn line_views(lines: Seq<ProcessLine>) -> Seq<LineView> {
    lines.map_values(|l: ProcessLine| l@)
}

impl View for ProcessOutput {
    type V = OutputView;

    open spec fn view(&self) -> OutputView {
        OutputView { lines: line_views(self.lines@), next: self.next_sequence }
    }
}

/// `s` without the carriage returns at its end.
pub open spec fn without_returns(s: Seq<char>) -> Seq<char>
    decreases s.len(),
{
    if s.len() > 0 && s.last() == '\r' {
        without_returns(s.drop_last())
    } else {
        s
    }
}

/// The bytes that lines take.
pub open spec fn weight(lines: Seq<LineView>) -> nat
    decreases lines.len(),
{
    if lines.len() == 0 {
        0
    } else {
        encode_utf8(lines[0].line).len() + weight(lines.drop_first())
    }
}

/// `lines` without the oldest, as many as it takes to stay within both limits.
pub open spec fn within_limits(lines: Seq<LineView>) -> Seq<LineView>
    decreases lines.len(),
{
    if lines.len() > 0 && (lines.len() > EXTENSION_PROCESS_LINES || weight(lines)
        > EXTENSION_PROCESS_BYTES) {
        within_limits(lines.drop_first())
    } else {
        lines
    }
}

impl OutputView {
    /// The line that some bytes of a stream make.
    pub open spec fn line_from(self, stream: Seq<char>, bytes: Seq<u8>) -> LineView {
        let line = without_returns(utf8_lossy(bytes));
        LineView {
            stream,
            line,
            sequence: self.next,
            value: match json_reading(line) {
                Ok(compact) => Some(compact),
                Err(_) => None,
            },
            error: match json_reading(line) {
                Ok(_) => None,
                Err(message) => Some(message),
            },
        }
    }

    /// The output with one more line. A line over the limit is dropped.
    pub open spec fn append(self, stream: Seq<char>, bytes: Seq<u8>) -> OutputView {
        let line = self.line_from(stream, bytes);
        if encode_utf8(line.line).len() > EXTENSION_PROCESS_BYTES {
            self
        } else {
            OutputView {
                lines: within_limits(self.lines.push(line)),
                next: if self.next == u64::MAX { 0 } else { (self.next + 1) as u64 },
            }
        }
    }

    /// The lines are numbered in ascending order, below the next number.
    pub open spec fn ordered(self) -> bool {
        &&& forall|i: int, j: int|
            0 <= i < j < self.lines.len() ==> (#[trigger] self.lines[i]).sequence < (
            #[trigger] self.lines[j]).sequence
        &&& forall|i: int|
            0 <= i < self.lines.len() ==> (#[trigger] self.lines[i]).sequence < self.next
    }

    /// The last lines, at most `limit` and at most as many as are kept.
    pub open spec fn last_lines(self, limit: nat) -> Seq<LineView> {
        let n = if limit <= EXTENSION_PROCESS_LINES { limit } else {
            EXTENSION_PROCESS_LINES as nat
        };
        if n >= self.lines.len() {
            self.lines
        } else {
            self.lines.skip(self.lines.len() - n)
        }
    }

    /// The first lines after a cursor, at most `limit` and at most as many as are kept.
    pub open spec fn lines_since(self, cursor: u64, limit: nat) -> Seq<LineView> {
        let n = if limit <= EXTENSION_PROCESS_LINES { limit } else {
            EXTENSION_PROCESS_LINES as nat
        };
        let newer = self.lines.filter(|l: LineView| l.sequence > cursor);
        if n >= newer.len() {
            newer
        } else {
            newer.take(n as int)
        }
    }
}

/// The output after the bytes that one read gave: a line for each line feed, and one for what
/// follows the last, if anything does.
pub open spec fn appended_chunk(output: OutputView, stream: Seq<char>, chunk: Seq<u8>) -> OutputView
    decreases chunk.len(),
    via append_chunk_shrinks
{
    let end = find_byte(chunk, 10);
    if chunk.len() == 0 {
        output
    } else if end >= chunk.len() {
        output.append(stream, chunk)
    } else {
        appended_chunk(output.append(stream, chunk.take(end)), stream, chunk.skip(end + 1))
    }
}

#[via_fn]
proof fn append_chunk_shrinks(output: OutputView, stream: Seq<char>, chunk: Seq<u8>) {
    find_byte_bounds(chunk, 10);
}

/// Position of the first `b` in `s`, or `s.len()` where there is none.
pub open spec fn find_byte(s: Seq<u8>, b: u8) -> int
    decreases s.len(),
{
    if s.len() == 0 {
        0
    } else if s[0] == b {
        0
    } else {
        1 + find_byte(s.drop_first(), b)
    }
}

proof fn find_byte_bounds(s: Seq<u8>, b: u8)
    ensures
        0 <= find_byte(s, b) <= s.len(),
        find_byte(s, b) < s.len() ==> s[find_byte(s, b)] == b,
        forall|j: int| 0 <= j < find_byte(s, b) ==> s[j] != b,
    decreases s.len(),
{
    if s.len() > 0 && s[0] != b {
        let rest = s.drop_first();
        find_byte_bounds(rest, b);
        assert forall|j: int| 0 <= j < find_byte(s, b) implies s[j] != b by {
            if j > 0 {
                assert(rest[j - 1] == s[j]);
            }
        }
    }
}

proof fn find_byte_is(s: Seq<u8>, b: u8, i: int)
    requires
        0 <= i <= s.len(),
        i < s.len() ==> s[i] == b,
        forall|j: int| 0 <= j < i ==> s[j] != b,
    ensures
        find_byte(s, b) == i,
{
    find_byte_bounds(s, b);
    let f = find_byte(s, b);
    if f < i {
        assert(s[f] != b);
    } else if i < f {
        assert(s[i] != b);
    }
}

proof fn weight_push(lines: Seq<LineView>, line: LineView)
    ensures
        weight(lines.push(line)) == weight(lines) + encode_utf8(line.line).len(),
    decreases lines.len(),
{
    if lines.len() > 0 {
        assert(lines.push(line).drop_first() =~= lines.drop_first().push(line));
        weight_push(lines.drop_first(), line);
    } else {
        assert(lines.push(line).drop_first() =~= lines);
    }
}

fn copy_text(value: &Option<String>) -> (out: Option<String>)
    ensures
        text_opt(out) == text_opt(*value),
{
    match value {
        Some(s) => Some(s.clone()),
        None => None,
    }
}

impl ProcessLine {
    /// A copy of this line.
    pub fn copy(&self) -> (out: Self)
        ensures
            out@ == self@,
    {
        ProcessLine {
            stream: self.stream.clone(),
            line: self.line.clone(),
            sequence: self.sequence,
            value: copy_text(&self.value),
            error: copy_text(&self.error),
        }
    }
}

fn trim_returns(s: &str) -> (out: String)
    ensures
        out@ == without_returns(s@),
{
    let chars = chars_of(s);
    let mut to: usize = chars.len();
    assert(chars@.take(to as int) =~= s@);
    while to > 0 && chars[to - 1] == '\r'
        invariant
            to <= chars@.len(),
            chars@ == s@,
            without_returns(chars@.take(to as int)) == without_returns(s@),
        decreases to,
    {
        assert(chars@.take(to as int).drop_last() =~= chars@.take(to - 1));
        to = to - 1;
    }
    assert(chars@.subrange(0, to as int) =~= chars@.take(to as int));
    text_of(&chars, 0, to)
}

impl ProcessOutput {
    /// The byte count is that of the lines, and both limits are kept.
    pub open spec fn wf(&self) -> bool {
        &&& self.bytes == weight(self@.lines)
        &&& self.bytes <= EXTENSION_PROCESS_BYTES
        &&& self.lines@.len() <= EXTENSION_PROCESS_LINES
    }

    /// A process that wrote nothing yet; its first line gets the number 1.
    pub fn new() -> (out: Self)
        ensures
            out.wf(),
            out@.lines == Seq::<LineView>::empty(),
            out@.next == 1,
    {
        let out = ProcessOutput { lines: Vec::new(), bytes: 0, next_sequence: 1 };
        assert(out@.lines =~= Seq::<LineView>::empty());
        out
    }

    /// Appends a line that a process wrote to a stream.
    pub fn append_process_line(&mut self, stream: &str, bytes: &[u8])
        requires
            old(self).wf(),
        ensures
            final(self).wf(),
            final(self)@ == old(self)@.append(stream@, bytes@),
    {
        let text = decode_lossy(bytes);
        let line = trim_returns(&text);
        let size = line.as_str().as_bytes().len();
        if size > EXTENSION_PROCESS_BYTES {
            return;
        }
        let parsed = read_json(&line);
        let (value, error) = match parsed {
            Ok(compact) => (Some(compact), None),
            Err(message) => (None, Some(message)),
        };
        let entry = ProcessLine {
            stream: stream.to_owned(),
            line,
            sequence: self.next_sequence,
            value,
            error,
        };
        let ghost before = self@;
        let ghost shown = entry@;
        assert(shown == before.line_from(stream@, bytes@));
        self.next_sequence = self.next_sequence.wrapping_add(1);
        let ghost listed = self.lines@;
        self.lines.push(entry);
        self.bytes = self.bytes + size;
        proof {
            weight_push(before.lines, shown);
            assert(line_views(self.lines@) =~= before.lines.push(shown));
        }
        while self.lines.len() > EXTENSION_PROCESS_LINES || self.bytes > EXTENSION_PROCESS_BYTES
            invariant
                self.bytes == weight(line_views(self.lines@)),
                within_limits(line_views(self.lines@)) == within_limits(before.lines.push(shown)),
                self.next_sequence == (if before.next == u64::MAX { 0 } else {
                    (before.next + 1) as u64
                }),
            decreases self.lines@.len(),
        {
            let ghost views = line_views(self.lines@);
            assert(views.len() == self.lines@.len());
            let removed = self.lines.remove(0);
            assert(line_views(self.lines@) =~= views.drop_first());
            assert(views[0] == removed@);
            let gone = removed.line.as_str().as_bytes().len();
            self.bytes = self.bytes - gone;
        }
        assert(within_limits(line_views(self.lines@)) == line_views(self.lines@));
    }

    /// Appends the bytes that one read of a stream gave.
    pub fn append_chunk(&mut self, stream: &str, chunk: &[u8])
        requires
            old(self).wf(),
        ensures
            final(self).wf(),
            final(self)@ == appended_chunk(old(self)@, stream@, chunk@),
    {
        let mut start: usize = 0;
        assert(chunk@.skip(0) =~= chunk@);
        while start < chunk.len()
            invariant
                start <= chunk@.len(),
                self.wf(),
                appended_chunk(self@, stream@, chunk@.skip(start as int)) == appended_chunk(
                    old(self)@,
                    stream@,
                    chunk@,
                ),
            decreases chunk@.len() - start,
        {
            let ghost rest = chunk@.skip(start as int);
            let mut end: usize = start;
            while end < chunk.len() && chunk[end] != 10
                invariant
                    start <= end <= chunk@.len(),
                    forall|j: int| start <= j < end ==> chunk@[j] != 10,
                decreases chunk@.len() - end,
            {
                end = end + 1;
            }
            proof {
                find_byte_is(rest, 10, end - start);
                assert(chunk@.subrange(start as int, end as int) =~= rest.take(end - start));
            }
            let line = vstd::slice::slice_subrange(chunk, start, end);
            self.append_process_line(stream, line);
            if end >= chunk.len() {
                assert(rest.take(end - start) =~= rest);
                return;
            }
            assert(rest.skip(end - start + 1) =~= chunk@.skip(end + 1));
            start = end + 1;
        }
        assert(chunk@.skip(start as int).len() == 0);
    }

    /// The last lines.
    pub fn read(&self, limit: usize) -> (out: Vec<ProcessLine>)
        ensures
            line_views(out@) == self@.last_lines(limit as nat),
    {
        let most = if limit <= EXTENSION_PROCESS_LINES {
            limit
        } else {
            EXTENSION_PROCESS_LINES
        };
        let from = if most >= self.lines.len() {
            0
        } else {
            self.lines.len() - most
        };
        let ghost views = self@.lines;
        let mut out: Vec<ProcessLine> = Vec::new();
        let mut i: usize = from;
        while i < self.lines.len()
            invariant
                from <= i <= self.lines@.len(),
                views == line_views(self.lines@),
                line_views(out@) == views.subrange(from as int, i as int),
            decreases self.lines@.len() - i,
        {
            let ghost before = out@;
            let line = self.lines[i].copy();
            out.push(line);
            assert(line_views(out@) =~= line_views(before).push(views[i as int]));
            i = i + 1;
            assert(views.subrange(from as int, i as int) =~= views.subrange(
                from as int,
                i - 1,
            ).push(views[i - 1]));
        }
        assert(views.subrange(from as int, i as int) =~= self@.last_lines(limit as nat));
        out
    }

    /// The lines after a cursor, oldest first. The number of the last line read is the next cursor.
    pub fn read_since(&self, cursor: u64, limit: usize) -> (out: Vec<ProcessLine>)
        ensures
            line_views(out@) == self@.lines_since(cursor, limit as nat),
    {
        let most = if limit <= EXTENSION_PROCESS_LINES {
            limit
        } else {
            EXTENSION_PROCESS_LINES
        };
        let ghost views = self@.lines;
        let ghost newer = |l: LineView| l.sequence > cursor;
        let mut out: Vec<ProcessLine> = Vec::new();
        let mut i: usize = 0;
        proof {
            reveal(Seq::filter);
            assert(views.take(0).filter(newer) =~= Seq::<LineView>::empty());
            assert(line_views(out@) =~= Seq::<LineView>::empty());
        }
        while i < self.lines.len() && out.len() < most
            invariant
                i <= self.lines@.len(),
                out@.len() <= most,
                views == line_views(self.lines@),
                newer == (|l: LineView| l.sequence > cursor),
                line_views(out@) == views.take(i as int).filter(newer),
            decreases self.lines@.len() - i,
        {
            let ghost before = out@;
            proof {
                reveal(Seq::filter);
                assert(views.take(i + 1).drop_last() =~= views.take(i as int));
                assert(views.take(i + 1).last() == views[i as int]);
            }
            if self.lines[i].sequence > cursor {
                let line = self.lines[i].copy();
                out.push(line);
                assert(line_views(out@) =~= line_views(before).push(views[i as int]));
            }
            i = i + 1;
        }
        proof {
            filter_prefix(views, newer, i as int);
            assert(line_views(out@).len() == out@.len());
            if i == self.lines@.len() {
                assert(views.take(i as int) =~= views);
            }
            assert(line_views(out@) =~= self@.lines_since(cursor, limit as nat));
        }
        out
    }
}

/// What passes a filter in a beginning of a list is a beginning of what passes in the whole.
proof fn filter_prefix(s: Seq<LineView>, keep: spec_fn(LineView) -> bool, n: int)
    requires
        0 <= n <= s.len(),
    ensures
        s.take(n).filter(keep).len() <= s.filter(keep).len(),
        s.take(n).filter(keep) == s.filter(keep).take(s.take(n).filter(keep).len() as int),
    decreases s.len() - n,
{
    reveal(Seq::filter);
    if n < s.len() {
        filter_prefix(s, keep, n + 1);
        assert(s.take(n + 1).drop_last() =~= s.take(n));
        let longer = s.take(n + 1).filter(keep);
        let shorter = s.take(n).filter(keep);
        assert(longer =~= shorter || longer =~= shorter.push(s[n]));
        assert(shorter =~= s.filter(keep).take(shorter.len() as int));
    } else {
        assert(s.take(n) =~= s);
        assert(s.filter(keep).take(s.filter(keep).len() as int) =~= s.filter(keep));
    }
}

/// What is left within the limits is an end of the list, and within the limits.
proof fn within_limits_is_end(lines: Seq<LineView>) -> (from: int)
    ensures
        0 <= from <= lines.len(),
        within_limits(lines) == lines.skip(from),
        within_limits(lines).len() <= EXTENSION_PROCESS_LINES,
        weight(within_limits(lines)) <= EXTENSION_PROCESS_BYTES,
    decreases lines.len(),
{
    if lines.len() > 0 && (lines.len() > EXTENSION_PROCESS_LINES || weight(lines)
        > EXTENSION_PROCESS_BYTES) {
        let k = within_limits_is_end(lines.drop_first());
        assert(lines.drop_first().skip(k) =~= lines.skip(k + 1));
        k + 1
    } else {
        assert(lines.skip(0) =~= lines);
        0
    }
}

/// Output stays within both limits, whatever a process writes.
pub proof fn output_is_bounded(output: OutputView, stream: Seq<char>, bytes: Seq<u8>)
    requires
        output.lines.len() <= EXTENSION_PROCESS_LINES,
        weight(output.lines) <= EXTENSION_PROCESS_BYTES,
    ensures
        output.append(stream, bytes).lines.len() <= EXTENSION_PROCESS_LINES,
        weight(output.append(stream, bytes).lines) <= EXTENSION_PROCESS_BYTES,
{
    let line = output.line_from(stream, bytes);
    let _ = within_limits_is_end(output.lines.push(line));
}

/// Lines are numbered in the order in which they came, as long as the numbers last.
pub proof fn output_stays_ordered(output: OutputView, stream: Seq<char>, bytes: Seq<u8>)
    requires
        output.ordered(),
        output.next < u64::MAX,
    ensures
        output.append(stream, bytes).ordered(),
{
    let line = output.line_from(stream, bytes);
    let all = output.lines.push(line);
    let from = within_limits_is_end(all);
    let after = output.append(stream, bytes);
    if encode_utf8(line.line).len() <= EXTENSION_PROCESS_BYTES {
        assert forall|i: int| 0 <= i < all.len() implies (#[trigger] all[i]).sequence
            < output.next + 1 by {
            if i < output.lines.len() {
                assert(all[i] == output.lines[i]);
            }
        }
        assert forall|i: int, j: int| 0 <= i < j < all.len() implies (#[trigger] all[i]).sequence < (
        #[trigger] all[j]).sequence by {
            assert(all[i] == output.lines[i]);
            if j < output.lines.len() {
                assert(all[j] == output.lines[j]);
            }
        }
        assert forall|i: int, j: int| 0 <= i < j < after.lines.len() implies (
        #[trigger] after.lines[i]).sequence < (#[trigger] after.lines[j]).sequence by {
            assert(after.lines[i] == all[from + i]);
            assert(after.lines[j] == all[from + j]);
        }
        assert forall|i: int| 0 <= i < after.lines.len() implies (
        #[trigger] after.lines[i]).sequence < after.next by {
            assert(after.lines[i] == all[from + i]);
        }
    }
}

/// In an ordered list the lines after a cursor are an end of the list.
proof fn newer_is_end(lines: Seq<LineView>, cursor: u64) -> (from: int)
    requires
        forall|i: int, j: int|
            0 <= i < j < lines.len() ==> (#[trigger] lines[i]).sequence < (
            #[trigger] lines[j]).sequence,
    ensures
        0 <= from <= lines.len(),
        lines.filter(|l: LineView| l.sequence > cursor) == lines.skip(from),
        forall|i: int| 0 <= i < from ==> (#[trigger] lines[i]).sequence <= cursor,
        forall|i: int| from <= i < lines.len() ==> (#[trigger] lines[i]).sequence > cursor,
    decreases lines.len(),
{
    reveal(Seq::filter);
    let newer = |l: LineView| l.sequence > cursor;
    if lines.len() == 0 {
        assert(lines.filter(newer) =~= lines.skip(0));
        0
    } else {
        let before = lines.drop_last();
        let k = newer_is_end(before, cursor);
        let last = lines.len() - 1;
        if lines[last].sequence > cursor {
            assert(lines.filter(newer) =~= before.skip(k).push(lines[last]));
            assert(lines.skip(k) =~= before.skip(k).push(lines[last]));
            assert forall|i: int| k <= i < lines.len() implies (
            #[trigger] lines[i]).sequence > cursor by {
                if i < last {
                    assert(before[i] == lines[i]);
                }
            }
            assert forall|i: int| 0 <= i < k implies (#[trigger] lines[i]).sequence <= cursor by {
                assert(before[i] == lines[i]);
            }
            k
        } else {
            if k < before.len() {
                assert(before[k].sequence > cursor);
                assert(before[k] == lines[k]);
            }
            assert(lines.filter(newer) =~= before.skip(k));
            assert(lines.skip(lines.len() as int) =~= before.skip(k));
            assert forall|i: int| 0 <= i < lines.len() implies (
            #[trigger] lines[i]).sequence <= cursor by {
                if i < last {
                    assert(lines[i].sequence < lines[last].sequence);
                }
            }
            lines.len() as int
        }
    }
}

/// A reader that goes on from the number of the last line it got misses nothing and sees nothing
/// twice: the lines after the old cursor are those that it got and then those after the new cursor.
pub proof fn reading_resumes(output: OutputView, cursor: u64, limit: nat)
    requires
        output.ordered(),
        output.lines_since(cursor, limit).len() > 0,
    ensures
        output.lines.filter(|l: LineView| l.sequence > cursor) == output.lines_since(cursor, limit)
            + output.lines.filter(
            |l: LineView| l.sequence > output.lines_since(cursor, limit).last().sequence,
        ),
{
    let got = output.lines_since(cursor, limit);
    let last = got.last().sequence;
    let a = newer_is_end(output.lines, cursor);
    let b = newer_is_end(output.lines, last);
    let newer = output.lines.filter(|l: LineView| l.sequence > cursor);
    let n = got.len() as int;
    assert(got =~= output.lines.subrange(a, a + n));
    assert(got.last() == output.lines[a + n - 1]);
    if b < a + n {
        assert(output.lines[a + n - 1].sequence <= last);
    }
    if a + n < b {
        assert(output.lines[a + n].sequence <= last);
        assert(output.lines[a + n - 1].sequence < output.lines[a + n].sequence);
    }
    assert(b == a + n);
    assert(newer =~= got + output.lines.skip(b));
}

proof fn limits_keep_the_end(lines: Seq<LineView>)
    ensures
        within_limits(lines).len() <= lines.len(),
        within_limits(lines) == lines.skip(lines.len() - within_limits(lines).len()),
        lines.len() <= 256 && weight(lines) <= 131072 ==> within_limits(lines) == lines,
        within_limits(lines).len() < lines.len() ==> {
            let longer = lines.skip(lines.len() - within_limits(lines).len() - 1);
            longer.len() > 256 || weight(longer) > 131072
        },
    decreases lines.len(),
{
    assert(lines.skip(0) =~= lines);
    if lines.len() > 0 && (lines.len() > EXTENSION_PROCESS_LINES || weight(lines)
        > EXTENSION_PROCESS_BYTES) {
        let rest = lines.drop_first();
        limits_keep_the_end(rest);
        let n = within_limits(rest).len();
        assert(lines.skip(lines.len() - n) =~= rest.skip(rest.len() - n));
        if n < rest.len() {
            assert(lines.skip(lines.len() - n - 1) =~= rest.skip(rest.len() - n - 1));
        } else {
            assert(lines.skip(lines.len() - n - 1) =~= lines);
        }
    }
}

proof fn last_weighs(lines: Seq<LineView>)
    requires
        lines.len() > 0,
    ensures
        weight(lines) >= encode_utf8(lines.last().line).len(),
        lines.len() == 1 ==> weight(lines) == encode_utf8(lines.last().line).len(),
    decreases lines.len(),
{
    if lines.len() > 1 {
        last_weighs(lines.drop_first());
    } else {
        assert(weight(lines.drop_first()) == 0);
    }
}

/// A line that a process wrote is the last that is kept: on the stream that it was written to, under
/// the next number, without the carriage returns at its end, and with the value that it is in JSON or
/// with why it is none. The lines before it stay, and of them only the oldest give way, and only to
/// keep the limits. A line that is too long by itself is left out.
pub proof fn written_line_is_kept(output: OutputView, stream: Seq<char>, bytes: Seq<u8>)
    ensures
        ({
            let line = without_returns(utf8_lossy(bytes));
            let after = output.append(stream, bytes);
            let last = after.lines.last();
            let old = after.lines.len() - 1;
            if encode_utf8(line).len() > 131072 {
                after == output
            } else {
                &&& after.lines.len() > 0
                &&& last.stream == stream
                &&& last.line == line
                &&& last.sequence == output.next
                &&& last.value is Some <==> json_reading(line) is Ok
                &&& last.error is Some <==> json_reading(line) is Err
                &&& json_reading(line) matches Ok(value) ==> last.value == Some(value)
                &&& json_reading(line) matches Err(message) ==> last.error == Some(message)
                &&& output.next < u64::MAX ==> after.next == output.next + 1
                &&& old <= output.lines.len()
                &&& after.lines.drop_last() == output.lines.skip(output.lines.len() - old)
                &&& old < output.lines.len() ==> {
                    let longer = output.lines.push(last).skip(output.lines.len() - old - 1);
                    longer.len() > 256 || weight(longer) > 131072
                }
            }
        }),
{
    let line = output.line_from(stream, bytes);
    let all = output.lines.push(line);
    if encode_utf8(line.line).len() <= EXTENSION_PROCESS_BYTES {
        limits_keep_the_end(all);
        let kept = within_limits(all);
        if kept.len() == 0 {
            let longer = all.skip(all.len() - 1);
            assert(longer.last() == line);
            last_weighs(longer);
            assert(false);
        }
        assert(kept.last() == line);
        let old = kept.len() - 1;
        assert(kept.drop_last() =~= output.lines.skip(output.lines.len() - old));
        if old < output.lines.len() {
            assert(all.skip(output.lines.len() - old - 1) == all.skip(all.len() - kept.len() - 1));
        }
    }
}

/// A line has no carriage return at its end, and nothing else was taken off it.
pub proof fn returns_are_taken_off(s: Seq<char>)
    ensures
        ({
            let line = without_returns(s);
            &&& line.len() <= s.len()
            &&& line == s.take(line.len() as int)
            &&& line.len() > 0 ==> line.last() != '\r'
            &&& forall|i: int| line.len() <= i < s.len() ==> #[trigger] s[i] == '\r'
        }),
    decreases s.len(),
{
    if s.len() > 0 && s.last() == '\r' {
        returns_are_taken_off(s.drop_last());
        let line = without_returns(s);
        assert(line =~= s.take(line.len() as int));
        assert forall|i: int| line.len() <= i < s.len() implies #[trigger] s[i] == '\r' by {
            if i < s.len() - 1 {
                assert(s[i] == s.drop_last()[i]);
            }
        }
    } else {
        assert(s =~= s.take(s.len() as int));
    }
}

proof fn byte_is_found(s: Seq<u8>, b: u8)
    ensures
        0 <= find_byte(s, b) <= s.len(),
        find_byte(s, b) < s.len() ==> s[find_byte(s, b)] == b,
        forall|i: int| 0 <= i < find_byte(s, b) ==> #[trigger] s[i] != b,
    decreases s.len(),
{
    if s.len() > 0 && s[0] != b {
        let rest = s.drop_first();
        byte_is_found(rest, b);
        assert forall|i: int| 0 <= i < find_byte(s, b) implies #[trigger] s[i] != b by {
            if i > 0 {
                assert(rest[i - 1] == s[i]);
            }
        }
    }
}

/// What a process writes is cut at its line feeds: a line, a line feed and more is that line and then
/// what the rest is; what has no line feed is one line.
pub proof fn output_is_cut_at_line_feeds(
    output: OutputView,
    stream: Seq<char>,
    line: Seq<u8>,
    rest: Seq<u8>,
)
    requires
        !line.contains(10),
    ensures
        appended_chunk(output, stream, line + seq![10u8] + rest) == appended_chunk(
            output.append(stream, line),
            stream,
            rest,
        ),
        line.len() > 0 ==> appended_chunk(output, stream, line) == output.append(stream, line),
        appended_chunk(output, stream, Seq::empty()) == output,
{
    let all = line + seq![10u8] + rest;
    let n = line.len() as int;
    byte_is_found(all, 10);
    let end = find_byte(all, 10);
    assert(all[n] == 10);
    if end < n {
        assert(line[end] == 10);
        assert(line.contains(10));
    }
    assert(end == n);
    assert(all.take(n) =~= line);
    assert(all.skip(n + 1) =~= rest);
    byte_is_found(line, 10);
    let at = find_byte(line, 10);
    if at < line.len() {
        assert(line.contains(line[at]));
    }
}

/// A reader gets the newest lines, in their order: as many as it asks for, as far as there are so many
/// and no more than the host keeps.
pub proof fn newest_lines_are_read(output: OutputView, limit: nat)
    requires
        output.lines.len() <= 256,
    ensures
        ({
            let read = output.last_lines(limit);
            &&& limit >= output.lines.len() ==> read == output.lines
            &&& limit < output.lines.len() ==> read.len() == limit
            &&& read == output.lines.skip(output.lines.len() - read.len())
        }),
{
    assert(output.lines.skip(0) =~= output.lines);
}

proof fn newer_are_newer(lines: Seq<LineView>, newer: Seq<LineView>, cursor: u64)
    requires
        newer == lines.filter(|l: LineView| l.sequence > cursor),
    ensures
        newer.len() <= lines.len(),
        forall|i: int| 0 <= i < newer.len() ==> (#[trigger] newer[i]).sequence > cursor,
        forall|i: int|
            0 <= i < lines.len() && (#[trigger] lines[i]).sequence > cursor ==> newer.contains(
                lines[i],
            ),
{
    let keep = |l: LineView| l.sequence > cursor;
    lines.lemma_filter_len(keep);
    broadcast use {Seq::lemma_filter_pred, Seq::lemma_filter_contains};

    assert forall|i: int| 0 <= i < newer.len() implies (#[trigger] newer[i]).sequence > cursor by {
        assert(keep(lines.filter(keep)[i]));
    }
    assert forall|i: int| 0 <= i < lines.len() && (#[trigger] lines[i]).sequence > cursor implies
        newer.contains(lines[i]) by {
        assert(keep(lines[i]));
    }
}

/// A reader that goes on from a number gets lines with higher numbers only, the oldest of them first,
/// and where it gets fewer than it asked for, it gets all of them.
pub proof fn later_lines_are_read(output: OutputView, cursor: u64, limit: nat)
    requires
        output.lines.len() <= 256,
    ensures
        ({
            let read = output.lines_since(cursor, limit);
            &&& read.len() <= limit
            &&& forall|i: int| 0 <= i < read.len() ==> (#[trigger] read[i]).sequence > cursor
            &&& read.len() == limit ==> read == output.lines.filter(
                |l: LineView| l.sequence > cursor,
            ).take(limit as int)
            &&& read.len() < limit ==> forall|i: int|
                0 <= i < output.lines.len() && (#[trigger] output.lines[i]).sequence > cursor
                    ==> read.contains(output.lines[i])
        }),
{
    let newer = output.lines.filter(|l: LineView| l.sequence > cursor);
    newer_are_newer(output.lines, newer, cursor);
    let read = output.lines_since(cursor, limit);
    assert(newer.take(newer.len() as int) =~= newer);
    assert forall|i: int| 0 <= i < read.len() implies (#[trigger] read[i]).sequence > cursor by {
        assert(read[i] == newer[i]);
    }
}

}
