//! Byte sequences.

use vstd::prelude::*;

verus! {

/// Whether `part` stands in `bytes` from `at` on.
pub open spec fn stands_at(bytes: Seq<u8>, part: Seq<u8>, at: int) -> bool {
    0 <= at && at + part.len() <= bytes.len() && bytes.subrange(at, at + part.len()) == part
}

/// Whether two byte sequences are the same.
pub fn same_bytes(a: &[u8], b: &[u8]) -> (out: bool)
    ensures
        out == (a@ == b@),
{
    if a.len() != b.len() {
        return false;
    }
    let mut i: usize = 0;
    while i < a.len()
        invariant
            i <= a@.len(),
            a@.len() == b@.len(),
            forall|j: int| 0 <= j < i ==> a@[j] == b@[j],
        decreases a@.len() - i,
    {
        if a[i] != b[i] {
            return false;
        }
        i = i + 1;
    }
    assert(a@ =~= b@);
    true
}

/// Whether `part` stands in `bytes` from `at` on.
pub fn bytes_at(bytes: &[u8], part: &[u8], at: usize) -> (out: bool)
    ensures
        out == stands_at(bytes@, part@, at as int),
{
    if part.len() > bytes.len() || at > bytes.len() - part.len() {
        return false;
    }
    let count = bytes.len();
    let mut i: usize = 0;
    while i < part.len()
        invariant
            i <= part@.len(),
            count == bytes@.len(),
            at + part@.len() <= count,
            forall|j: int| 0 <= j < i ==> bytes@[at + j] == part@[j],
        decreases part@.len() - i,
    {
        if bytes[at + i] != part[i] {
            proof {
                let window = bytes@.subrange(at as int, at + part@.len());
                assert(window[i as int] != part@[i as int]);
            }
            return false;
        }
        i = i + 1;
    }
    assert(bytes@.subrange(at as int, at + part@.len()) =~= part@);
    true
}

/// Appends bytes.
pub fn push_all(out: &mut Vec<u8>, more: &[u8])
    ensures
        final(out)@ == old(out)@ + more@,
{
    let ghost before = out@;
    let mut i: usize = 0;
    assert(before + more@.take(0) =~= before);
    while i < more.len()
        invariant
            i <= more@.len(),
            out@ == before + more@.take(i as int),
        decreases more@.len() - i,
    {
        out.push(more[i]);
        i = i + 1;
        assert(more@.take(i as int) =~= more@.take(i - 1).push(more@[i - 1]));
        assert(out@ =~= before + more@.take(i as int));
    }
    assert(more@.take(i as int) =~= more@);
}

/// A copy of bytes.
pub fn copy_bytes(bytes: &[u8]) -> (out: Vec<u8>)
    ensures
        out@ == bytes@,
{
    let mut out: Vec<u8> = Vec::new();
    push_all(&mut out, bytes);
    assert(out@ =~= bytes@);
    out
}

/// Position of the first `part` in `bytes` at or after `from`; `None` where there is none.
pub open spec fn find_from(bytes: Seq<u8>, part: Seq<u8>, from: int) -> Option<int>
    decreases bytes.len() - from,
{
    if from < 0 || from + part.len() > bytes.len() {
        None
    } else if stands_at(bytes, part, from) {
        Some(from)
    } else if from >= bytes.len() {
        None
    } else {
        find_from(bytes, part, from + 1)
    }
}

/// Position of the first `part` in `bytes`; `None` where there is none.
pub open spec fn find(bytes: Seq<u8>, part: Seq<u8>) -> Option<int> {
    find_from(bytes, part, 0)
}

pub proof fn find_from_bounds(bytes: Seq<u8>, part: Seq<u8>, from: int)
    requires
        0 <= from,
    ensures
        match find_from(bytes, part, from) {
            Some(i) => from <= i && i + part.len() <= bytes.len() && stands_at(bytes, part, i)
                && forall|j: int| from <= j < i ==> !#[trigger] stands_at(bytes, part, j),
            None => forall|j: int| from <= j ==> !#[trigger] stands_at(bytes, part, j),
        },
    decreases bytes.len() - from,
{
    if from + part.len() <= bytes.len() && !stands_at(bytes, part, from) && from < bytes.len() {
        find_from_bounds(bytes, part, from + 1);
    }
}

/// Position of the first `part` in the bytes.
pub fn find_part(bytes: &[u8], part: &[u8]) -> (out: Option<usize>)
    requires
        part@.len() > 0,
    ensures
        match out {
            Some(i) => find(bytes@, part@) == Some(i as int) && i + part@.len() <= bytes@.len()
                && stands_at(bytes@, part@, i as int),
            None => find(bytes@, part@) is None,
        },
{
    let mut i: usize = 0;
    while i < bytes.len()
        invariant
            i <= bytes@.len(),
            part@.len() > 0,
            find_from(bytes@, part@, i as int) == find(bytes@, part@),
        decreases bytes@.len() - i,
    {
        if bytes_at(bytes, part, i) {
            return Some(i);
        }
        i = i + 1;
    }
    None
}

}
