//! Ordered sets of texts.

use vstd::prelude::*;
use crate::text::{chars_of, same_text, texts};

verus! {

/// Whether `a` comes before `b`: the first character that differs decides, and a beginning comes
/// before the whole.
pub open spec fn text_lt(a: Seq<char>, b: Seq<char>) -> bool
    decreases a.len(),
{
    if b.len() == 0 {
        false
    } else if a.len() == 0 {
        true
    } else if a[0] != b[0] {
        a[0] < b[0]
    } else {
        text_lt(a.drop_first(), b.drop_first())
    }
}

/// Whether texts stand in ascending order, each once.
pub open spec fn ascending(list: Seq<Seq<char>>) -> bool {
    forall|i: int, j: int| 0 <= i < j < list.len() ==> text_lt(#[trigger] list[i], #[trigger] list[j])
}

pub proof fn text_lt_irreflexive(a: Seq<char>)
    ensures
        !text_lt(a, a),
    decreases a.len(),
{
    if a.len() > 0 {
        text_lt_irreflexive(a.drop_first());
    }
}

pub proof fn text_lt_transitive(a: Seq<char>, b: Seq<char>, c: Seq<char>)
    requires
        text_lt(a, b),
        text_lt(b, c),
    ensures
        text_lt(a, c),
    decreases a.len(),
{
    if a.len() > 0 && a[0] == b[0] && b[0] == c[0] {
        text_lt_transitive(a.drop_first(), b.drop_first(), c.drop_first());
    }
}

pub proof fn text_lt_total(a: Seq<char>, b: Seq<char>)
    ensures
        text_lt(a, b) || text_lt(b, a) || a == b,
    decreases a.len(),
{
    if a.len() > 0 && b.len() > 0 && a[0] == b[0] {
        text_lt_total(a.drop_first(), b.drop_first());
        if a.drop_first() == b.drop_first() {
            assert(a =~= seq![a[0]] + a.drop_first());
            assert(b =~= seq![b[0]] + b.drop_first());
        }
    } else if a.len() == 0 && b.len() == 0 {
        assert(a =~= b);
    }
}

/// Two ascending lists of the same texts are the same list.
pub proof fn ascending_unique(a: Seq<Seq<char>>, b: Seq<Seq<char>>)
    requires
        ascending(a),
        ascending(b),
        a.to_set() == b.to_set(),
    ensures
        a == b,
    decreases a.len() + b.len(),
{
    if a.len() == 0 || b.len() == 0 {
        if a.len() > 0 {
            assert(a.to_set().contains(a[0]));
            assert(b.contains(a[0]));
        }
        if b.len() > 0 {
            assert(b.to_set().contains(b[0]));
            assert(a.contains(b[0]));
        }
        assert(a =~= b);
    } else {
        assert(a.to_set().contains(a[0]) && b.to_set().contains(b[0]));
        let i = choose|i: int| 0 <= i < b.len() && b[i] == a[0];
        let j = choose|j: int| 0 <= j < a.len() && a[j] == b[0];
        assert(b.contains(a[0]) && a.contains(b[0]));
        if i > 0 && j > 0 {
            assert(text_lt(b[0], b[i]));
            assert(text_lt(a[0], a[j]));
            text_lt_transitive(a[0], b[0], a[0]);
            text_lt_irreflexive(a[0]);
        }
        assert(a[0] == b[0]);
        let a1 = a.drop_first();
        let b1 = b.drop_first();
        assert forall|t: Seq<char>| a1.to_set().contains(t) == b1.to_set().contains(t) by {
            if a1.contains(t) {
                let k = choose|k: int| 0 <= k < a1.len() && a1[k] == t;
                assert(a[k + 1] == t);
                assert(text_lt(a[0], a[k + 1]));
                text_lt_irreflexive(a[0]);
                assert(a.to_set().contains(t));
                assert(b.contains(t));
                let m = choose|m: int| 0 <= m < b.len() && b[m] == t;
                assert(m > 0);
                assert(b1[m - 1] == t);
            }
            if b1.contains(t) {
                let k = choose|k: int| 0 <= k < b1.len() && b1[k] == t;
                assert(b[k + 1] == t);
                assert(text_lt(b[0], b[k + 1]));
                text_lt_irreflexive(b[0]);
                assert(b.to_set().contains(t));
                assert(a.contains(t));
                let m = choose|m: int| 0 <= m < a.len() && a[m] == t;
                assert(m > 0);
                assert(a1[m - 1] == t);
            }
        }
        assert(a1.to_set() =~= b1.to_set());
        assert forall|x: int, y: int| 0 <= x < y < a1.len() implies text_lt(
            #[trigger] a1[x],
            #[trigger] a1[y],
        ) by {
            assert(text_lt(a[x + 1], a[y + 1]));
        }
        assert forall|x: int, y: int| 0 <= x < y < b1.len() implies text_lt(
            #[trigger] b1[x],
            #[trigger] b1[y],
        ) by {
            assert(text_lt(b[x + 1], b[y + 1]));
        }
        ascending_unique(a1, b1);
        assert(a =~= seq![a[0]] + a1);
        assert(b =~= seq![b[0]] + b1);
    }
}

/// Whether one text comes before another.
pub fn comes_before(a: &str, b: &str) -> (out: bool)
    ensures
        out == text_lt(a@, b@),
{
    let left = chars_of(a);
    let right = chars_of(b);
    let mut i: usize = 0;
    assert(a@.skip(0) =~= a@);
    assert(b@.skip(0) =~= b@);
    while i < left.len() && i < right.len()
        invariant
            i <= left@.len(),
            i <= right@.len(),
            left@ == a@,
            right@ == b@,
            text_lt(a@, b@) == text_lt(a@.skip(i as int), b@.skip(i as int)),
        decreases left@.len() - i,
    {
        if left[i] != right[i] {
            return left[i] < right[i];
        }
        assert(a@.skip(i as int).drop_first() =~= a@.skip(i + 1));
        assert(b@.skip(i as int).drop_first() =~= b@.skip(i + 1));
        i = i + 1;
    }
    i >= left.len() && i < right.len()
}

/// A set of texts, kept in ascending order.
#[derive(Debug)]
pub struct TextSet {
    pub items: Vec<String>,
}

impl TextSet {
    /// The texts stand in ascending order.
    pub open spec fn wf(&self) -> bool {
        ascending(texts(self.items@))
    }

    /// The texts.
    pub open spec fn set(&self) -> Set<Seq<char>> {
        texts(self.items@).to_set()
    }

    /// A set without texts.
    pub fn new() -> (out: Self)
        ensures
            out.wf(),
            out.set() == Set::<Seq<char>>::empty(),
            out.items@.len() == 0,
    {
        let out = TextSet { items: Vec::new() };
        assert(out.set() =~= Set::<Seq<char>>::empty());
        out
    }

    /// Where a text stands or would stand: how many texts of the set come before it.
    fn place(&self, text: &str) -> (out: usize)
        requires
            self.wf(),
        ensures
            out <= self.items@.len(),
            forall|i: int| 0 <= i < out ==> text_lt((#[trigger] self.items@[i])@, text@),
            forall|i: int|
                out <= i < self.items@.len() ==> !text_lt((#[trigger] self.items@[i])@, text@),
    {
        let mut i: usize = 0;
        while i < self.items.len() && comes_before(&self.items[i], text)
            invariant
                i <= self.items@.len(),
                forall|j: int| 0 <= j < i ==> text_lt((#[trigger] self.items@[j])@, text@),
            decreases self.items@.len() - i,
        {
            i = i + 1;
        }
        proof {
            assert forall|j: int| i <= j < self.items@.len() implies !text_lt(
                (#[trigger] self.items@[j])@,
                text@,
            ) by {
                if j > i && text_lt(self.items@[j]@, text@) {
                    assert(texts(self.items@)[i as int] == self.items@[i as int]@);
                    assert(texts(self.items@)[j] == self.items@[j]@);
                    text_lt_transitive(self.items@[i as int]@, self.items@[j]@, text@);
                }
            }
        }
        i
    }

    /// Whether a text is in the set.
    pub fn contains(&self, text: &str) -> (out: bool)
        requires
            self.wf(),
        ensures
            out == self.set().contains(text@),
    {
        let mut i: usize = 0;
        while i < self.items.len()
            invariant
                i <= self.items@.len(),
                forall|j: int| 0 <= j < i ==> (#[trigger] self.items@[j])@ != text@,
            decreases self.items@.len() - i,
        {
            if same_text(&self.items[i], text) {
                assert(texts(self.items@)[i as int] == text@);
                assert(texts(self.items@).contains(text@));
                return true;
            }
            i = i + 1;
        }
        proof {
            if texts(self.items@).contains(text@) {
                let j = choose|j: int|
                    0 <= j < texts(self.items@).len() && texts(self.items@)[j] == text@;
                assert(self.items@[j]@ == text@);
            }
        }
        false
    }

    /// Puts a text into the set.
    pub fn insert(&mut self, text: &str)
        requires
            old(self).wf(),
        ensures
            final(self).wf(),
            final(self).set() == old(self).set().insert(text@),
    {
        if self.contains(text) {
            assert(self.set() =~= self.set().insert(text@));
            return;
        }
        let at = self.place(text);
        let ghost before = self.items@;
        let owned = text.to_owned();
        self.items.insert(at, owned);
        proof {
            let after = self.items@;
            assert(after =~= before.insert(at as int, owned));
            assert(texts(after) =~= texts(before).insert(at as int, text@));
            assert forall|i: int, j: int| 0 <= i < j < after.len() implies text_lt(
                #[trigger] texts(after)[i],
                #[trigger] texts(after)[j],
            ) by {
                let i0 = if i < at { i } else { i - 1 };
                let j0 = if j < at { j } else { j - 1 };
                if i == at {
                    text_lt_total(text@, before[j0]@);
                    assert(texts(before)[j0] == before[j0]@);
                    assert(texts(before).contains(before[j0]@));
                    assert(!text_lt(before[j0]@, text@));
                } else if j == at {
                    assert(text_lt(before[i0]@, text@));
                } else {
                    assert(text_lt(texts(before)[i0], texts(before)[j0]));
                }
            }
            assert forall|t: Seq<char>| texts(after).to_set().contains(t) == texts(
                before,
            ).to_set().insert(text@).contains(t) by {
                if texts(after).contains(t) {
                    let i = choose|i: int| 0 <= i < after.len() && texts(after)[i] == t;
                    let i0 = if i < at { i } else { i - 1 };
                    if i != at {
                        assert(texts(before)[i0] == t);
                    }
                }
                if texts(before).contains(t) {
                    let i = choose|i: int| 0 <= i < before.len() && texts(before)[i] == t;
                    let i0 = if i < at { i } else { i + 1 };
                    assert(texts(after)[i0] == t);
                }
                assert(texts(after)[at as int] == text@);
            }
            assert(self.set() =~= old(self).set().insert(text@));
        }
    }

    /// Takes a text out of the set.
    pub fn remove(&mut self, text: &str)
        requires
            old(self).wf(),
        ensures
            final(self).wf(),
            final(self).set() == old(self).set().remove(text@),
    {
        let ghost before = self.items@;
        let mut i: usize = 0;
        while i < self.items.len()
            invariant
                i <= self.items@.len(),
                self.items@ == before,
                before == old(self).items@,
                old(self).wf(),
                forall|j: int| 0 <= j < i ==> (#[trigger] self.items@[j])@ != text@,
            decreases self.items@.len() - i,
        {
            if same_text(&self.items[i], text) {
                let _ = self.items.remove(i);
                proof {
                    let after = self.items@;
                    assert(after =~= before.remove(i as int));
                    assert(texts(after) =~= texts(before).remove(i as int));
                    assert forall|a: int, b: int| 0 <= a < b < after.len() implies text_lt(
                        #[trigger] texts(after)[a],
                        #[trigger] texts(after)[b],
                    ) by {
                        let a0 = if a < i { a } else { a + 1 };
                        let b0 = if b < i { b } else { b + 1 };
                        assert(text_lt(texts(before)[a0], texts(before)[b0]));
                    }
                    assert forall|t: Seq<char>| texts(after).to_set().contains(t) == texts(
                        before,
                    ).to_set().remove(text@).contains(t) by {
                        if texts(after).contains(t) {
                            let a = choose|a: int| 0 <= a < after.len() && texts(after)[a] == t;
                            let a0 = if a < i { a } else { a + 1 };
                            assert(texts(before)[a0] == t);
                            text_lt_irreflexive(t);
                            if a0 < i {
                                assert(text_lt(texts(before)[a0], texts(before)[i as int]));
                            } else {
                                assert(text_lt(texts(before)[i as int], texts(before)[a0]));
                            }
                        }
                        if texts(before).contains(t) && t != text@ {
                            let b = choose|b: int| 0 <= b < before.len() && texts(before)[b] == t;
                            let b0 = if b < i { b } else { b - 1 };
                            assert(texts(after)[b0] == t);
                        }
                    }
                    assert(self.set() =~= old(self).set().remove(text@));
                }
                return;
            }
            i = i + 1;
        }
        proof {
            assert(!texts(before).contains(text@)) by {
                if texts(before).contains(text@) {
                    let j = choose|j: int| 0 <= j < before.len() && texts(before)[j] == text@;
                    assert(self.items@[j]@ == text@);
                }
            }
            assert(self.set() =~= old(self).set().remove(text@));
        }
    }

    /// The texts in ascending order.
    pub fn to_vec(&self) -> (out: Vec<String>)
        ensures
            texts(out@) == texts(self.items@),
    {
        let mut out: Vec<String> = Vec::new();
        let mut i: usize = 0;
        while i < self.items.len()
            invariant
                i <= self.items@.len(),
                texts(out@) == texts(self.items@).take(i as int),
            decreases self.items@.len() - i,
        {
            let ghost before = out@;
            out.push(self.items[i].clone());
            assert(texts(out@) =~= texts(before).push(self.items@[i as int]@));
            i = i + 1;
            assert(texts(self.items@).take(i as int) =~= texts(self.items@).take(i - 1).push(
                self.items@[i - 1]@,
            ));
        }
        assert(texts(self.items@).take(i as int) =~= texts(self.items@));
        out
    }
}

/// Texts are ordered by the first character in which they differ, and a text comes before every longer one
/// that begins with it.
pub proof fn first_difference_decides(
    start: Seq<char>,
    a: char,
    b: char,
    x: Seq<char>,
    y: Seq<char>,
)
    ensures
        a < b ==> text_lt(start + seq![a] + x, start + seq![b] + y),
        a < b ==> !text_lt(start + seq![b] + y, start + seq![a] + x),
        text_lt(start, start + seq![a] + x),
    decreases start.len(),
{
    let p = start + seq![a] + x;
    let q = start + seq![b] + y;
    if start.len() > 0 {
        let rest = start.drop_first();
        assert(p.drop_first() =~= rest + seq![a] + x);
        assert(q.drop_first() =~= rest + seq![b] + y);
        assert(p[0] == start[0] && q[0] == start[0]);
        first_difference_decides(rest, a, b, x, y);
    } else {
        assert(p[0] == a && q[0] == b);
    }
}

}
