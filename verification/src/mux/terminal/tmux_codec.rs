//! What tmux writes in control mode, and what it takes.

use vstd::prelude::*;
use vstd::utf8::encode_utf8;
use crate::bytes::{bytes_at, copy_bytes, find, find_from_bounds, find_part, push_all, stands_at};
use crate::text::{
    chars_of, hex_number, hexadecimal, hexadecimal_length, hexadecimal_reads_back, hexadecimal_text,
    join,
};

verus! {

/// Whether a character is an octal digit.
pub open spec fn is_octal(c: char) -> bool {
    '0' <= c && c <= '7'
}

/// The value of an octal digit.
pub open spec fn octal_value(c: char) -> nat {
    (c as nat - '0' as nat) as nat
}

/// The byte that three octal digits write; what does not fit in a byte is cut off.
pub open spec fn octal_escape(digits: Seq<char>) -> Option<u8> {
    if digits.len() >= 3 && is_octal(digits[0]) && is_octal(digits[1]) && is_octal(digits[2]) {
        Some(
            ((64 * octal_value(digits[0]) + 8 * octal_value(digits[1]) + octal_value(digits[2]))
                % 256) as u8,
        )
    } else {
        None
    }
}

/// The bytes that a character stands for: itself, where it is one byte wide, and else its UTF-8 form.
pub open spec fn control_char(c: char) -> Seq<u8> {
    if c as u32 <= 255 {
        seq![c as u8]
    } else {
        encode_utf8(seq![c])
    }
}

/// The bytes that a text of control mode stands for.
pub open spec fn control_bytes(text: Seq<char>) -> Seq<u8>
    decreases text.len(),
{
    if text.len() == 0 {
        Seq::empty()
    } else if text[0] == '\\' && octal_escape(text.drop_first()) is Some {
        seq![octal_escape(text.drop_first())->Some_0] + control_bytes(text.skip(4))
    } else {
        control_char(text[0]) + control_bytes(text.drop_first())
    }
}

/// The byte that three octal digits write.
pub fn parse_octal_escape(digits: [Option<char>; 3]) -> (out: Option<u8>)
    ensures
        out == (if digits@[0] is Some && digits@[1] is Some && digits@[2] is Some {
            octal_escape(
                seq![digits@[0]->Some_0, digits@[1]->Some_0, digits@[2]->Some_0],
            )
        } else {
            None
        }),
{
    match (digits[0], digits[1], digits[2]) {
        (Some(a), Some(b), Some(c)) => {
            if '0' <= a && a <= '7' && '0' <= b && b <= '7' && '0' <= c && c <= '7' {
                let high: u32 = (a as u8 - '0' as u8) as u32;
                let middle: u32 = (b as u8 - '0' as u8) as u32;
                let low: u32 = (c as u8 - '0' as u8) as u32;
                Some(((64 * high + 8 * middle + low) % 256) as u8)
            } else {
                None
            }
        },
        _ => None,
    }
}

fn append_tmux_control_char(output: &mut Vec<u8>, c: char)
    ensures
        final(output)@ == old(output)@ + control_char(c),
{
    let ghost before = output@;
    let value: u32 = c as u32;
    if value <= 255 {
        output.push(c as u8);
        assert(output@ =~= before + control_char(c));
    } else {
        let mut text = String::new();
        text.push(c);
        assert(text@ =~= seq![c]);
        push_all(output, text.as_str().as_bytes());
    }
}

/// The bytes that a text of control mode stands for.
pub fn decode_tmux_control_output(input: &str) -> (out: Vec<u8>)
    ensures
        out@ == control_bytes(input@),
{
    let chars = chars_of(input);
    let count = chars.len();
    let mut output: Vec<u8> = Vec::new();
    let mut i: usize = 0;
    assert(input@.skip(0) =~= input@);
    assert(output@ + control_bytes(input@) =~= control_bytes(input@));
    while i < count
        invariant
            i <= count,
            count == chars@.len(),
            chars@ == input@,
            output@ + control_bytes(input@.skip(i as int)) == control_bytes(input@),
        decreases count - i,
    {
        let c = chars[i];
        let ghost rest = input@.skip(i as int);
        let ghost before = output@;
        assert(rest[0] == c);
        assert(rest.drop_first() =~= input@.skip(i + 1));
        if c == '\\' && count - i > 3 {
            let escape = parse_octal_escape(
                [Some(chars[i + 1]), Some(chars[i + 2]), Some(chars[i + 3])],
            );
            proof {
                let digits = seq![chars@[i + 1], chars@[i + 2], chars@[i + 3]];
                assert(rest.drop_first()[0] == digits[0]);
                assert(rest.drop_first()[1] == digits[1]);
                assert(rest.drop_first()[2] == digits[2]);
                assert(octal_escape(rest.drop_first()) == octal_escape(digits));
            }
            match escape {
                Some(value) => {
                    output.push(value);
                    proof {
                        assert(rest.skip(4) =~= input@.skip(i + 4));
                        assert(output@ + control_bytes(rest.skip(4)) =~= before + (seq![value]
                            + control_bytes(rest.skip(4))));
                    }
                    i = i + 4;
                    continue;
                },
                None => {},
            }
        }
        append_tmux_control_char(&mut output, c);
        proof {
            assert(output@ + control_bytes(rest.drop_first()) =~= before + (control_char(c)
                + control_bytes(rest.drop_first())));
        }
        i = i + 1;
    }
    assert(input@.skip(i as int).len() == 0);
    assert(output@ + Seq::<u8>::empty() =~= output@);
    output
}

/// The hexadecimal forms of bytes, with a space before each.
pub open spec fn hex_words(bytes: Seq<u8>) -> Seq<char>
    decreases bytes.len(),
{
    if bytes.len() == 0 {
        Seq::empty()
    } else {
        hex_words(bytes.drop_last()) + " "@ + hexadecimal(bytes.last() as nat, 2)
    }
}

/// The command that sends input to a pane; `None` where there is none to send.
pub fn tmux_hex_command(target: &str, bytes: &[u8]) -> (out: Option<String>)
    ensures
        match out {
            Some(command) => bytes@.len() > 0 && command@ == "send-keys -H -t "@ + target@
                + hex_words(bytes@),
            None => bytes@.len() == 0,
        },
{
    if bytes.len() == 0 {
        return None;
    }
    let mut command = join("send-keys -H -t ", target);
    let ghost head = command@;
    let mut i: usize = 0;
    assert(head + hex_words(bytes@.take(0)) =~= head);
    while i < bytes.len()
        invariant
            i <= bytes@.len(),
            head == "send-keys -H -t "@ + target@,
            command@ == head + hex_words(bytes@.take(i as int)),
        decreases bytes@.len() - i,
    {
        let ghost before = command@;
        command.append(" ");
        let word = hexadecimal_text(bytes[i] as u64, 2);
        command.append(&word);
        proof {
            assert(bytes@.take(i + 1).drop_last() =~= bytes@.take(i as int));
            assert(command@ =~= head + hex_words(bytes@.take(i + 1)));
        }
        i = i + 1;
    }
    assert(bytes@.take(i as int) =~= bytes@);
    Some(command)
}

/// What begins a wrapped passage.
pub open spec fn opening() -> Seq<u8> {
    seq![0x1bu8, 0x50u8, 0x74u8, 0x6du8, 0x75u8, 0x78u8, 0x3bu8]
}

/// What a wrapped passage holds, and where it ends, from a position on and with what was read of it
/// before; `None` where it does not end. An escape character in it is doubled.
pub open spec fn passage(bytes: Seq<u8>, at: int, before: Seq<u8>) -> Option<(Seq<u8>, int)>
    decreases bytes.len() - at,
{
    if at < 0 || at >= bytes.len() {
        None
    } else if bytes[at] == 0x1b && at + 1 < bytes.len() && bytes[at + 1] == 0x1b {
        passage(bytes, at + 2, before.push(0x1b))
    } else if bytes[at] == 0x1b && at + 1 < bytes.len() && bytes[at + 1] == 0x5c {
        Some((before, at + 2))
    } else {
        passage(bytes, at + 1, before.push(bytes[at]))
    }
}

/// The longest beginning of the opening, of at most `n` bytes, that stands at the end of `bytes`.
pub open spec fn held(bytes: Seq<u8>, n: nat) -> nat
    decreases n,
{
    if n == 0 {
        0
    } else if n <= bytes.len() && bytes.skip(bytes.len() - n) == opening().take(n as int) {
        n
    } else {
        held(bytes, (n - 1) as nat)
    }
}

/// What bytes come to with the wrapped passages unwrapped, and what is held back of them: a passage
/// that does not end yet, or the beginning of an opening.
pub open spec fn unwrapped(bytes: Seq<u8>) -> (Seq<u8>, Seq<u8>)
    decreases bytes.len(),
    via unwrapped_shrinks
{
    match find(bytes, opening()) {
        Some(start) => match passage(bytes.skip(start + 7), 0, Seq::empty()) {
            None => (bytes.take(start), bytes.skip(start)),
            Some((payload, end)) => {
                let (out, rest) = unwrapped(bytes.skip(start + 7 + end));
                (bytes.take(start) + payload + out, rest)
            },
        },
        None => {
            let keep = bytes.len() - held(bytes, 6);
            (bytes.take(keep), bytes.skip(keep))
        },
    }
}

proof fn passage_bounds(bytes: Seq<u8>, at: int, before: Seq<u8>)
    requires
        0 <= at,
    ensures
        passage(bytes, at, before) matches Some((payload, end)) ==> at + 2 <= end <= bytes.len(),
    decreases bytes.len() - at,
{
    if at < bytes.len() {
        if bytes[at] == 0x1b && at + 1 < bytes.len() && bytes[at + 1] == 0x1b {
            passage_bounds(bytes, at + 2, before.push(0x1b));
        } else if !(bytes[at] == 0x1b && at + 1 < bytes.len() && bytes[at + 1] == 0x5c) {
            passage_bounds(bytes, at + 1, before.push(bytes[at]));
        }
    }
}

#[via_fn]
proof fn unwrapped_shrinks(bytes: Seq<u8>) {
    find_from_bounds(bytes, opening(), 0);
    match find(bytes, opening()) {
        Some(start) => {
            passage_bounds(bytes.skip(start + 7), 0, Seq::empty());
        },
        None => {},
    }
}

proof fn held_bounds(bytes: Seq<u8>, n: nat)
    ensures
        held(bytes, n) <= n,
        held(bytes, n) <= bytes.len(),
        held(bytes, n) > 0 ==> bytes.skip(bytes.len() - held(bytes, n)) == opening().take(
            held(bytes, n) as int,
        ),
        forall|m: nat| held(bytes, n) < m <= n && m <= bytes.len() ==> #[trigger] bytes.skip(
            bytes.len() - m,
        ) != opening().take(m as int),
    decreases n,
{
    if n > 0 && !(n <= bytes.len() && bytes.skip(bytes.len() - n) == opening().take(n as int)) {
        held_bounds(bytes, (n - 1) as nat);
    }
}

/// What a wrapped passage holds, and where it ends.
pub fn decode_complete_tmux_passthrough(bytes: &[u8]) -> (out: Option<(Vec<u8>, usize)>)
    ensures
        match out {
            Some((payload, end)) => passage(bytes@, 0, Seq::empty()) == Some((payload@, end as int)),
            None => passage(bytes@, 0, Seq::empty()) is None,
        },
{
    let count = bytes.len();
    let mut payload: Vec<u8> = Vec::new();
    let mut cursor: usize = 0;
    assert(payload@ =~= Seq::<u8>::empty());
    while cursor < count
        invariant
            cursor <= count,
            count == bytes@.len(),
            passage(bytes@, cursor as int, payload@) == passage(bytes@, 0, Seq::empty()),
        decreases count - cursor,
    {
        let paired = count - cursor > 1;
        if bytes[cursor] == 0x1b && paired && bytes[cursor + 1] == 0x1b {
            payload.push(0x1b);
            cursor = cursor + 2;
            continue;
        }
        if bytes[cursor] == 0x1b && paired && bytes[cursor + 1] == 0x5c {
            return Some((payload, cursor + 2));
        }
        payload.push(bytes[cursor]);
        cursor = cursor + 1;
    }
    None
}

/// How many bytes at the end may be the beginning of an opening.
fn trailing_prefix_len(bytes: &[u8], opener: &[u8]) -> (out: usize)
    requires
        opener@ == opening(),
    ensures
        out == held(bytes@, 6),
        out <= bytes@.len(),
{
    let mut n: usize = 6;
    while n > 0
        invariant
            n <= 6,
            opener@ == opening(),
            held(bytes@, n as nat) == held(bytes@, 6),
        decreases n,
    {
        if n <= bytes.len() {
            let start = vstd::slice::slice_subrange(opener, 0, n);
            assert(start@ =~= opening().take(n as int));
            if bytes_at(bytes, start, bytes.len() - n) {
                assert(bytes@.subrange(bytes@.len() - n, bytes@.len() as int) =~= bytes@.skip(
                    bytes@.len() - n,
                ));
                return n;
            }
            assert(bytes@.subrange(bytes@.len() - n, bytes@.len() as int) =~= bytes@.skip(
                bytes@.len() - n,
            ));
        }
        n = n - 1;
    }
    0
}

/// Unwraps passages that programs wrapped to get past tmux.
#[derive(Debug)]
pub struct TmuxPassthroughDecoder {
    pub pending: Vec<u8>,
}

impl Default for TmuxPassthroughDecoder {
    fn default() -> (out: Self)
        ensures
            out.pending@ == Seq::<u8>::empty(),
    {
        let pending: Vec<u8> = Vec::new();
        assert(pending@ =~= Seq::<u8>::empty());
        TmuxPassthroughDecoder { pending }
    }
}

impl TmuxPassthroughDecoder {
    /// Takes more bytes in, and gives what can be given of them.
    pub fn push(&mut self, bytes: &[u8]) -> (out: Vec<u8>)
        ensures
            out@ == unwrapped(old(self).pending@ + bytes@).0,
            final(self).pending@ == unwrapped(old(self).pending@ + bytes@).1,
    {
        push_all(&mut self.pending, bytes);
        let ghost all = self.pending@;
        let opener: Vec<u8> = vec![0x1b, 0x50, 0x74, 0x6d, 0x75, 0x78, 0x3b];
        assert(opener@ =~= opening());
        let count = self.pending.len();
        let mut out: Vec<u8> = Vec::new();
        let mut from: usize = 0;
        proof {
            assert(all.skip(0) =~= all);
            assert(out@ + unwrapped(all).0 =~= unwrapped(all).0);
        }
        loop
            invariant
                from <= count,
                count == all.len(),
                self.pending@ == all,
                all == old(self).pending@ + bytes@,
                opener@ == opening(),
                out@ + unwrapped(all.skip(from as int)).0 == unwrapped(all).0,
                unwrapped(all.skip(from as int)).1 == unwrapped(all).1,
            decreases count - from,
        {
            let ghost rest = all.skip(from as int);
            let ghost before = out@;
            let tail = vstd::slice::slice_subrange(&self.pending, from, count);
            assert(tail@ =~= rest);
            match find_part(tail, &opener) {
                None => {
                    let keep = tail.len() - trailing_prefix_len(tail, &opener);
                    let given = vstd::slice::slice_subrange(tail, 0, keep);
                    assert(given@ =~= rest.take(keep as int));
                    push_all(&mut out, given);
                    let left = copy_bytes(vstd::slice::slice_subrange(tail, keep, tail.len()));
                    assert(left@ =~= rest.skip(keep as int));
                    self.pending = left;
                    return out;
                },
                Some(start) => {
                    let given = vstd::slice::slice_subrange(tail, 0, start);
                    assert(given@ =~= rest.take(start as int));
                    push_all(&mut out, given);
                    let inner = vstd::slice::slice_subrange(tail, start + 7, tail.len());
                    assert(inner@ =~= rest.skip(start + 7));
                    match decode_complete_tmux_passthrough(inner) {
                        None => {
                            let left = copy_bytes(
                                vstd::slice::slice_subrange(tail, start, tail.len()),
                            );
                            assert(left@ =~= rest.skip(start as int));
                            self.pending = left;
                            return out;
                        },
                        Some((payload, end)) => {
                            push_all(&mut out, &payload);
                            proof {
                                passage_bounds(inner@, 0, Seq::empty());
                                let next = rest.skip(start + 7 + end);
                                assert(next =~= all.skip(from + start + 7 + end));
                                assert(out@ + unwrapped(next).0 =~= before + (rest.take(
                                    start as int,
                                ) + payload@ + unwrapped(next).0));
                            }
                            from = from + start + 7 + end;
                        },
                    }
                },
            }
        }
    }
}

proof fn passage_extends(x: Seq<u8>, y: Seq<u8>, at: int, before: Seq<u8>)
    requires
        0 <= at,
        passage(x, at, before) is Some,
    ensures
        passage(x + y, at, before) == passage(x, at, before),
    decreases x.len() - at,
{
    if at < x.len() {
        assert((x + y)[at] == x[at]);
        if at + 1 < x.len() {
            assert((x + y)[at + 1] == x[at + 1]);
        }
        if x[at] == 0x1b && at + 1 < x.len() && x[at + 1] == 0x1b {
            passage_extends(x, y, at + 2, before.push(0x1b));
        } else if !(x[at] == 0x1b && at + 1 < x.len() && x[at + 1] == 0x5c) {
            passage_extends(x, y, at + 1, before.push(x[at]));
            assert(at + 1 < x.len());
        }
    }
}

proof fn find_is(bytes: Seq<u8>, part: Seq<u8>, i: int)
    requires
        stands_at(bytes, part, i),
        forall|j: int| 0 <= j < i ==> !#[trigger] stands_at(bytes, part, j),
    ensures
        find(bytes, part) == Some(i),
{
    find_from_bounds(bytes, part, 0);
}

proof fn stands_extends(x: Seq<u8>, y: Seq<u8>, j: int)
    requires
        0 <= j,
        j + 7 <= x.len(),
    ensures
        stands_at(x + y, opening(), j) == stands_at(x, opening(), j),
{
    assert((x + y).subrange(j, j + 7) =~= x.subrange(j, j + 7));
}

proof fn stands_shifts(x: Seq<u8>, k: int, j: int)
    requires
        0 <= k <= x.len(),
        0 <= j,
    ensures
        stands_at(x.skip(k), opening(), j) == stands_at(x, opening(), j + k),
{
    if j + k + 7 <= x.len() {
        assert(x.skip(k).subrange(j, j + 7) =~= x.subrange(j + k, j + k + 7));
    }
}

/// Bytes before the first opening, and before what is held back, are given as they are.
proof fn unwrapped_from(x: Seq<u8>, k: int)
    requires
        0 <= k <= x.len(),
        forall|j: int| 0 <= j < k ==> !#[trigger] stands_at(x, opening(), j),
        find(x, opening()) is None ==> k <= x.len() - held(x, 6),
    ensures
        unwrapped(x).0 == x.take(k) + unwrapped(x.skip(k)).0,
        unwrapped(x).1 == unwrapped(x.skip(k)).1,
{
    let y = x.skip(k);
    find_from_bounds(x, opening(), 0);
    find_from_bounds(y, opening(), 0);
    match find(x, opening()) {
        Some(start) => {
            assert(start >= k);
            stands_shifts(x, k, start - k);
            assert forall|j: int| 0 <= j < start - k implies !#[trigger] stands_at(
                y,
                opening(),
                j,
            ) by {
                stands_shifts(x, k, j);
                assert(!stands_at(x, opening(), j + k));
            }
            find_is(y, opening(), start - k);
            assert(y.skip(start - k + 7) =~= x.skip(start + 7));
            assert(x.take(start) =~= x.take(k) + y.take(start - k));
            match passage(x.skip(start + 7), 0, Seq::empty()) {
                None => {
                    assert(x.skip(start) =~= y.skip(start - k));
                },
                Some((payload, end)) => {
                    passage_bounds(x.skip(start + 7), 0, Seq::empty());
                    assert(x.skip(start + 7 + end) =~= y.skip(start - k + 7 + end));
                    let out = unwrapped(x.skip(start + 7 + end)).0;
                    assert(x.take(start) + payload + out =~= x.take(k) + (y.take(start - k)
                        + payload + out));
                },
            }
        },
        None => {
            assert(find(y, opening()) is None) by {
                match find(y, opening()) {
                    Some(s) => {
                        stands_shifts(x, k, s);
                        assert(stands_at(x, opening(), s + k));
                    },
                    None => {},
                }
            }
            held_bounds(x, 6);
            held_bounds(y, 6);
            let h = held(x, 6);
            let g = held(y, 6);
            if h > 0 {
                assert(y.skip(y.len() - h) =~= x.skip(x.len() - h));
            }
            if g > 0 {
                assert(x.skip(x.len() - g) =~= y.skip(y.len() - g));
            }
            if h < g {
                assert(x.skip(x.len() - g) != opening().take(g as int));
            }
            if g < h {
                assert(y.skip(y.len() - h) != opening().take(h as int));
            }
            assert(h == g);
            let keep = x.len() - h;
            assert(x.take(keep) =~= x.take(k) + y.take(keep - k));
            assert(x.skip(keep) =~= y.skip(keep - k));
        },
    }
}

/// What the decoder gives does not depend on how the bytes were cut into pieces: taking in one piece
/// and then another gives what taking in both at once gives, and holds back the same.
pub proof fn pieces_do_not_matter(a: Seq<u8>, b: Seq<u8>)
    ensures
        unwrapped(a + b).0 == unwrapped(a).0 + unwrapped(unwrapped(a).1 + b).0,
        unwrapped(a + b).1 == unwrapped(unwrapped(a).1 + b).1,
    decreases a.len(),
{
    let x = a + b;
    find_from_bounds(a, opening(), 0);
    find_from_bounds(x, opening(), 0);
    match find(a, opening()) {
        Some(start) => {
            stands_extends(a, b, start);
            assert forall|j: int| 0 <= j < start implies !#[trigger] stands_at(x, opening(), j) by {
                stands_extends(a, b, j);
                assert(!stands_at(a, opening(), j));
            }
            find_is(x, opening(), start);
            let inner = a.skip(start + 7);
            assert(x.skip(start + 7) =~= inner + b);
            match passage(inner, 0, Seq::empty()) {
                Some((payload, end)) => {
                    passage_bounds(inner, 0, Seq::empty());
                    passage_extends(inner, b, 0, Seq::empty());
                    let tail = a.skip(start + 7 + end);
                    assert(x.skip(start + 7 + end) =~= tail + b);
                    pieces_do_not_matter(tail, b);
                    assert(x.take(start) =~= a.take(start));
                    let later = unwrapped(unwrapped(tail).1 + b).0;
                    assert(a.take(start) + payload + (unwrapped(tail).0 + later) =~= (a.take(start)
                        + payload + unwrapped(tail).0) + later);
                },
                None => {
                    assert(a.skip(start) + b =~= x.skip(start));
                    assert(x.take(start) =~= a.take(start));
                    unwrapped_from(x, start);
                },
            }
        },
        None => {
            held_bounds(a, 6);
            held_bounds(x, 6);
            let h = held(a, 6);
            let k = a.len() - h;
            assert(a.skip(k) + b =~= x.skip(k));
            assert(x.take(k) =~= a.take(k));
            assert forall|j: int| 0 <= j < k implies !#[trigger] stands_at(x, opening(), j) by {
                if j + 7 <= a.len() {
                    stands_extends(a, b, j);
                    assert(!stands_at(a, opening(), j));
                } else if stands_at(x, opening(), j) {
                    let m = (a.len() - j) as nat;
                    assert(x.subrange(j, j + 7) == opening());
                    assert(a.skip(a.len() - m) =~= opening().take(m as int)) by {
                        assert forall|i: int| 0 <= i < m implies a.skip(j)[i] == opening()[i] by {
                            assert(x.subrange(j, j + 7)[i] == x[j + i]);
                        }
                    }
                    assert(h < m <= 6 && m <= a.len());
                }
            }
            if find(x, opening()) is None && held(x, 6) > x.len() - k {
                let g = held(x, 6);
                let j = x.len() - g;
                let m = (a.len() - j) as nat;
                assert(x.skip(x.len() - g) == opening().take(g as int));
                assert(a.skip(a.len() - m) =~= opening().take(m as int)) by {
                    assert forall|i: int| 0 <= i < m implies a.skip(j)[i] == opening()[i] by {
                        assert(x.skip(j)[i] == x[j + i]);
                        assert(opening().take(g as int)[i] == opening()[i]);
                    }
                }
                assert(h < m <= 6 && m <= a.len());
            }
            unwrapped_from(x, k);
        },
    }
}

/// Bytes without an escape character pass through at once.
pub proof fn plain_bytes_pass(bytes: Seq<u8>)
    requires
        forall|i: int| 0 <= i < bytes.len() ==> #[trigger] bytes[i] != 0x1b,
    ensures
        unwrapped(bytes).0 == bytes,
        unwrapped(bytes).1 == Seq::<u8>::empty(),
{
    find_from_bounds(bytes, opening(), 0);
    match find(bytes, opening()) {
        Some(start) => {
            assert(bytes.subrange(start, start + 7)[0] == bytes[start]);
        },
        None => {
            held_bounds(bytes, 6);
            let h = held(bytes, 6);
            if h > 0 {
                assert(bytes.skip(bytes.len() - h)[0] == bytes[bytes.len() - h]);
                assert(opening().take(h as int)[0] == 0x1b);
            }
            assert(bytes.take(bytes.len() as int) =~= bytes);
            assert(bytes.skip(bytes.len() as int) =~= Seq::<u8>::empty());
        },
    }
}

/// An octal digit.
pub open spec fn octal_digit(n: nat) -> char {
    (48 + n) as u8 as char
}

/// How tmux writes a byte in control mode: what does not print, and the backslash, as three octal
/// digits after a backslash, and any other byte as the character with its number.
pub open spec fn escaped_byte(b: u8) -> Seq<char> {
    if b < 32 || b == 92 {
        seq![
            '\\',
            octal_digit((b / 64) as nat),
            octal_digit(((b / 8) % 8) as nat),
            octal_digit((b % 8) as nat),
        ]
    } else {
        seq![b as char]
    }
}

/// How tmux writes bytes in control mode.
pub open spec fn escaped(bytes: Seq<u8>) -> Seq<char>
    decreases bytes.len(),
{
    if bytes.len() == 0 {
        Seq::empty()
    } else {
        escaped_byte(bytes[0]) + escaped(bytes.drop_first())
    }
}

/// What tmux writes in control mode is read back as the bytes that it was written for.
pub proof fn control_output_round_trips(bytes: Seq<u8>)
    ensures
        control_bytes(escaped(bytes)) == bytes,
    decreases bytes.len(),
{
    if bytes.len() == 0 {
        assert(control_bytes(escaped(bytes)) =~= bytes);
    } else {
        let b = bytes[0];
        let rest = escaped(bytes.drop_first());
        let all = escaped(bytes);
        control_output_round_trips(bytes.drop_first());
        assert(bytes =~= seq![b] + bytes.drop_first());
        if b < 32 || b == 92 {
            let digits = all.drop_first();
            assert(all.skip(4) =~= rest);
            assert(digits[0] == octal_digit((b / 64) as nat));
            assert(digits[1] == octal_digit(((b / 8) % 8) as nat));
            assert(digits[2] == octal_digit((b % 8) as nat));
            assert(64 * (b / 64) + 8 * ((b / 8) % 8) + (b % 8) == b);
            assert(octal_escape(digits) == Some(b));
        } else {
            assert(all.drop_first() =~= rest);
            assert(all[0] == b as char);
            assert(control_char(b as char) =~= seq![b]);
        }
    }
}

/// Input that is sent in two goes is sent as in one: the keys of the first come before those of the
/// second.
pub proof fn words_follow_the_bytes(a: Seq<u8>, b: Seq<u8>)
    ensures
        hex_words(a + b) == hex_words(a) + hex_words(b),
    decreases b.len(),
{
    if b.len() == 0 {
        assert(a + b =~= a);
        assert(hex_words(a) + hex_words(b) =~= hex_words(a));
    } else {
        words_follow_the_bytes(a, b.drop_last());
        assert((a + b).drop_last() =~= a + b.drop_last());
        assert((a + b).last() == b.last());
        assert(hex_words(a + b) =~= hex_words(a) + hex_words(b));
    }
}

/// The words of a command are the keys in their order: each is a space and two digits, and the two
/// digits at a place, read as a number, are the byte of the input at that place.
pub proof fn words_read_back(bytes: Seq<u8>)
    ensures
        hex_words(bytes).len() == 3 * bytes.len(),
        forall|i: int|
            0 <= i < bytes.len() ==> {
                &&& hex_words(bytes)[3 * i] == ' '
                &&& hex_number(
                    #[trigger] hex_words(bytes).subrange(3 * i + 1, 3 * i + 3),
                    255,
                ) == Some(bytes[i] as nat)
            },
        forall|i: int|
            0 <= i < hex_words(bytes).len() ==> {
                let c = #[trigger] hex_words(bytes)[i];
                c == ' ' || ('0' <= c && c <= '9') || ('a' <= c && c <= 'f')
            },
    decreases bytes.len(),
{
    let words = hex_words(bytes);
    reveal_strlit(" ");
    if bytes.len() > 0 {
        let before = bytes.drop_last();
        let head = hex_words(before);
        let last = bytes.last();
        let word = hexadecimal(last as nat, 2);
        words_read_back(before);
        hexadecimal_length(last as nat, 2);
        reveal_with_fuel(vstd::arithmetic::power::pow, 3);
        hexadecimal_reads_back(last as nat, 2, 255);
        let n = 3 * before.len() as int;
        assert(words.subrange(n + 1, n + 3) =~= word);
        assert forall|i: int| 0 <= i < bytes.len() implies {
            &&& words[3 * i] == ' '
            &&& hex_number(#[trigger] words.subrange(3 * i + 1, 3 * i + 3), 255) == Some(
                bytes[i] as nat,
            )
        } by {
            if i < before.len() {
                assert(words.subrange(3 * i + 1, 3 * i + 3) =~= head.subrange(
                    3 * i + 1,
                    3 * i + 3,
                ));
                assert(words[3 * i] == head[3 * i]);
                assert(before[i] == bytes[i]);
            }
        }
        reveal_with_fuel(hexadecimal, 3);
        assert forall|i: int| 0 <= i < words.len() implies {
            let c = #[trigger] words[i];
            c == ' ' || ('0' <= c && c <= '9') || ('a' <= c && c <= 'f')
        } by {
            if i < n {
                assert(words[i] == head[i]);
            } else if i > n {
                assert(words[i] == word[i - n - 1]);
            }
        }
    }
}

/// Different inputs are sent by different commands.
pub proof fn words_tell_the_bytes(a: Seq<u8>, b: Seq<u8>)
    requires
        hex_words(a) == hex_words(b),
    ensures
        a == b,
{
    words_read_back(a);
    words_read_back(b);
    assert forall|i: int| 0 <= i < a.len() implies a[i] == b[i] by {
        let word = hex_words(a).subrange(3 * i + 1, 3 * i + 3);
        assert(hex_number(word, 255) == Some(a[i] as nat));
        assert(hex_number(hex_words(b).subrange(3 * i + 1, 3 * i + 3), 255) == Some(b[i] as nat));
    }
    assert(a =~= b);
}

/// Bytes with every escape written twice.
pub open spec fn doubled(payload: Seq<u8>) -> Seq<u8>
    decreases payload.len(),
{
    if payload.len() == 0 {
        Seq::empty()
    } else if payload[0] == 0x1b {
        seq![0x1bu8, 0x1bu8] + doubled(payload.drop_first())
    } else {
        seq![payload[0]] + doubled(payload.drop_first())
    }
}

proof fn doubled_passes(head: Seq<u8>, payload: Seq<u8>, after: Seq<u8>, before: Seq<u8>)
    ensures
        passage(
            head + doubled(payload) + seq![0x1bu8, 0x5cu8] + after,
            head.len() as int,
            before,
        ) == Some((before + payload, (head.len() + doubled(payload).len() + 2) as int)),
    decreases payload.len(),
{
    let end = seq![0x1bu8, 0x5cu8];
    let bytes = head + doubled(payload) + end + after;
    let at = head.len() as int;
    if payload.len() == 0 {
        assert(doubled(payload) =~= Seq::<u8>::empty());
        assert(bytes[at] == 0x1b);
        assert(bytes[at + 1] == 0x5c);
        assert(before + payload =~= before);
    } else {
        let rest = payload.drop_first();
        let b = payload[0];
        assert(payload =~= seq![b] + rest);
        if b == 0x1b {
            let longer = head + seq![0x1bu8, 0x1bu8];
            assert(bytes =~= longer + doubled(rest) + end + after);
            assert(bytes[at] == 0x1b);
            assert(bytes[at + 1] == 0x1b);
            doubled_passes(longer, rest, after, before.push(b));
        } else {
            let longer = head + seq![b];
            assert(bytes =~= longer + doubled(rest) + end + after);
            assert(bytes[at] == b);
            doubled_passes(longer, rest, after, before.push(b));
        }
        assert(before.push(b) + rest =~= before + payload);
    }
}

/// What is handed through `tmux` in a passage, with its escapes written twice, comes out as it was, between
/// what stands before and after it.
pub proof fn passages_are_unwrapped(plain: Seq<u8>, payload: Seq<u8>, after: Seq<u8>)
    requires
        forall|i: int| 0 <= i < plain.len() ==> #[trigger] plain[i] != 0x1b,
    ensures
        ({
            let opening = seq![0x1bu8, 0x50u8, 0x74u8, 0x6du8, 0x75u8, 0x78u8, 0x3bu8];
            let wrapped = opening + doubled(payload) + seq![0x1bu8, 0x5cu8];
            &&& unwrapped(plain + wrapped + after).0 == plain + payload + unwrapped(after).0
            &&& unwrapped(plain + wrapped + after).1 == unwrapped(after).1
        }),
{
    let end = seq![0x1bu8, 0x5cu8];
    let wrapped = opening() + doubled(payload) + end;
    let bytes = plain + wrapped + after;
    let start = plain.len() as int;
    let none = Seq::<u8>::empty();
    assert(bytes.subrange(start, start + 7) =~= opening());
    assert(stands_at(bytes, opening(), start));
    assert forall|j: int| 0 <= j < start implies !#[trigger] stands_at(bytes, opening(), j) by {
        if stands_at(bytes, opening(), j) {
            assert(bytes.subrange(j, j + 7)[0] == bytes[j]);
            assert(bytes[j] == plain[j]);
            assert(opening()[0] == 0x1b);
        }
    }
    find_is(bytes, opening(), start);
    let inner = bytes.skip(start + 7);
    assert(inner =~= none + doubled(payload) + end + after);
    doubled_passes(none, payload, after, none);
    let length = (doubled(payload).len() + 2) as int;
    assert(none + payload =~= payload);
    assert(bytes.skip(start + 7 + length) =~= after);
    assert(bytes.take(start) =~= plain);
    assert(opening() =~= seq![0x1bu8, 0x50u8, 0x74u8, 0x6du8, 0x75u8, 0x78u8, 0x3bu8]);
}

/// A passage that has not ended yet is held back, and what stands before it comes out.
pub proof fn open_passages_wait(plain: Seq<u8>, inner: Seq<u8>)
    requires
        forall|i: int| 0 <= i < plain.len() ==> #[trigger] plain[i] != 0x1b,
        forall|i: int| 0 <= i < inner.len() ==> #[trigger] inner[i] != 0x1b,
    ensures
        ({
            let opening = seq![0x1bu8, 0x50u8, 0x74u8, 0x6du8, 0x75u8, 0x78u8, 0x3bu8];
            &&& unwrapped(plain + opening + inner).0 == plain
            &&& unwrapped(plain + opening + inner).1 == opening + inner
        }),
{
    let bytes = plain + opening() + inner;
    let start = plain.len() as int;
    assert(bytes.subrange(start, start + 7) =~= opening());
    assert(stands_at(bytes, opening(), start));
    assert forall|j: int| 0 <= j < start implies !#[trigger] stands_at(bytes, opening(), j) by {
        if stands_at(bytes, opening(), j) {
            assert(bytes.subrange(j, j + 7)[0] == bytes[j]);
            assert(bytes[j] == plain[j]);
            assert(opening()[0] == 0x1b);
        }
    }
    find_is(bytes, opening(), start);
    assert(bytes.skip(start + 7) =~= inner);
    passage_needs_its_end(inner, 0, Seq::empty());
    assert(bytes.take(start) =~= plain);
    assert(bytes.skip(start) =~= opening() + inner);
    assert(opening() =~= seq![0x1bu8, 0x50u8, 0x74u8, 0x6du8, 0x75u8, 0x78u8, 0x3bu8]);
}

proof fn passage_needs_its_end(bytes: Seq<u8>, at: int, before: Seq<u8>)
    requires
        forall|i: int| 0 <= i < bytes.len() ==> #[trigger] bytes[i] != 0x1b,
    ensures
        passage(bytes, at, before) is None,
    decreases bytes.len() - at,
{
    if 0 <= at < bytes.len() {
        passage_needs_its_end(bytes, at + 1, before.push(bytes[at]));
    }
}

/// Control output is read from left to right: a backslash and three octal digits are the byte of that
/// number, and any other character is itself, as one byte where it fits and otherwise as UTF-8.
pub proof fn control_output_is_read(n: u8, c: char, rest: Seq<char>)
    ensures
        control_bytes(
            seq![
                '\\',
                octal_digit((n / 64) as nat),
                octal_digit(((n / 8) % 8) as nat),
                octal_digit((n % 8) as nat),
            ] + rest,
        ) == seq![n] + control_bytes(rest),
        c != '\\' && c as u32 <= 255 ==> control_bytes(seq![c] + rest) == seq![c as u8]
            + control_bytes(rest),
        c as u32 > 255 ==> control_bytes(seq![c] + rest) == encode_utf8(seq![c]) + control_bytes(
            rest,
        ),
        rest.len() < 3 || !('0' <= rest[0] && rest[0] <= '7') || !('0' <= rest[1] && rest[1] <= '7')
            || !('0' <= rest[2] && rest[2] <= '7') ==> control_bytes(seq!['\\'] + rest) == seq![92u8]
            + control_bytes(rest),
{
    let digits = seq![
        octal_digit((n / 64) as nat),
        octal_digit(((n / 8) % 8) as nat),
        octal_digit((n % 8) as nat),
    ];
    let all = seq![
        '\\',
        octal_digit((n / 64) as nat),
        octal_digit(((n / 8) % 8) as nat),
        octal_digit((n % 8) as nat),
    ] + rest;
    assert(all.drop_first() =~= digits + rest);
    assert(all.skip(4) =~= rest);
    assert(all.drop_first()[0] == digits[0]);
    assert(all.drop_first()[1] == digits[1]);
    assert(all.drop_first()[2] == digits[2]);
    assert(64 * (n / 64) + 8 * ((n / 8) % 8) + (n % 8) == n);
    assert(octal_escape(all.drop_first()) == Some(n));
    assert((seq![c] + rest).drop_first() =~= rest);
    assert((seq!['\\'] + rest).drop_first() =~= rest);
    assert('\\' as u32 == 92);
}

}
