//! Texts in the order of their characters.

use crate::text::{chars_of, views};
use vstd::prelude::*;

verus! {

/// Whether `a` stands before `b`: at the first place where they differ it has the smaller
/// character, or it ends there.
pub open spec fn before(a: Seq<char>, b: Seq<char>) -> bool
    decreases a.len(),
{
    if b.len() == 0 {
        false
    } else if a.len() == 0 {
        true
    } else if a[0] != b[0] {
        a[0] < b[0]
    } else {
        before(a.skip(1), b.skip(1))
    }
}

/// No text stands before itself.
pub proof fn lemma_before_irreflexive(a: Seq<char>)
    ensures
        !before(a, a),
    decreases a.len(),
{
    if a.len() > 0 {
        lemma_before_irreflexive(a.skip(1));
    }
}

/// Of three texts, the first stands before the third where each stands before the next.
pub proof fn lemma_before_transitive(a: Seq<char>, b: Seq<char>, c: Seq<char>)
    requires
        before(a, b),
        before(b, c),
    ensures
        before(a, c),
    decreases a.len(),
{
    if a.len() > 0 && a[0] == b[0] && b[0] == c[0] {
        lemma_before_transitive(a.skip(1), b.skip(1), c.skip(1));
    }
}

/// Of two different texts, one stands before the other.
pub proof fn lemma_before_total(a: Seq<char>, b: Seq<char>)
    ensures
        before(a, b) || before(b, a) || a == b,
    decreases a.len(),
{
    if a.len() > 0 && b.len() > 0 && a[0] == b[0] {
        lemma_before_total(a.skip(1), b.skip(1));
        if a.skip(1) == b.skip(1) {
            assert(a =~= seq![a[0]] + a.skip(1));
            assert(b =~= seq![b[0]] + b.skip(1));
        }
    } else if a.len() == 0 && b.len() == 0 {
        assert(a =~= b);
    }
}

/// Texts are in the order of the characters in which they first differ, and a text stands before those
/// that go on where it ends.
pub proof fn the_first_difference_decides(front: Seq<char>, x: char, a: Seq<char>, y: char, b: Seq<char>)
    ensures
        before(front + seq![x] + a, front + seq![y] + b) <== x < y,
        before(front, front + seq![y] + b),
        !before(front + seq![x] + a, front),
    decreases front.len(),
{
    let s = front + seq![x] + a;
    let t = front + seq![y] + b;
    if front.len() > 0 {
        let fewer = front.skip(1);
        the_first_difference_decides(fewer, x, a, y, b);
        assert(s.skip(1) =~= fewer + seq![x] + a);
        assert(t.skip(1) =~= fewer + seq![y] + b);
        assert(s[0] == front[0] && t[0] == front[0]);
    } else {
        assert(s[0] == x && t[0] == y);
    }
}

/// Whether `a` stands before `b`.
pub fn is_before(a: &str, b: &str) -> (r: bool)
    ensures
        r == before(a@, b@),
{
    let x = chars_of(a);
    let y = chars_of(b);
    let mut i: usize = 0;
    assert(a@.skip(0) =~= a@);
    assert(b@.skip(0) =~= b@);
    while i < x.len() && i < y.len()
        invariant
            i <= x@.len(),
            i <= y@.len(),
            x@ == a@,
            y@ == b@,
            before(a@, b@) == before(a@.skip(i as int), b@.skip(i as int)),
        decreases x@.len() - i,
    {
        proof {
            assert(a@.skip(i as int).skip(1) =~= a@.skip(i + 1));
            assert(b@.skip(i as int).skip(1) =~= b@.skip(i + 1));
        }
        if x[i] != y[i] {
            return x[i] < y[i];
        }
        i += 1;
    }
    i < y.len()
}

/// Whether no text stands before the one ahead of it.
pub open spec fn in_order(list: Seq<Seq<char>>) -> bool {
    forall|i: int, j: int| #![trigger list[i], list[j]] 0 <= i < j < list.len() ==> !before(list[j], list[i])
}

/// Puts a text into its place in a list that is in order.
pub fn insert_in_order(list: &mut Vec<String>, item: String)
    requires
        in_order(views(old(list)@)),
    ensures
        in_order(views(final(list)@)),
        views(final(list)@).to_multiset() == views(old(list)@).to_multiset().insert(item@),
{
    let ghost texts = views(list@);
    let mut k: usize = list.len();
    while k > 0
        invariant
            k <= list@.len(),
            list@ == old(list)@,
            texts == views(list@),
            forall|j: int| k <= j < texts.len() ==> before(item@, #[trigger] texts[j]),
        ensures
            k > 0 ==> !before(item@, texts[k - 1]),
        decreases k,
    {
        assert(texts[k - 1] == list@[k - 1]@);
        if !is_before(&item, &list[k - 1]) {
            break;
        }
        k -= 1;
    }
    let ghost word = item@;
    list.insert(k, item);
    proof {
        let after = views(list@);
        assert(after =~= texts.insert(k as int, word));
        assert forall|i: int, j: int| #![trigger after[i], after[j]] 0 <= i < j < after.len() implies !before(
            after[j],
            after[i],
        ) by {
            if i < k && j == k {
                if before(word, texts[i]) {
                    let last = texts[k - 1];
                    lemma_before_total(texts[i], last);
                    if i < k - 1 {
                        assert(!before(last, texts[i]));
                    }
                    if before(texts[i], last) {
                        lemma_before_transitive(word, texts[i], last);
                    }
                }
            } else if i == k && j > k {
                assert(before(word, texts[j - 1]));
                if before(texts[j - 1], word) {
                    lemma_before_transitive(word, texts[j - 1], word);
                    lemma_before_irreflexive(word);
                }
            } else if i < k && j > k {
                assert(!before(texts[j - 1], texts[i]));
            } else if i < k && j < k {
                assert(!before(texts[j], texts[i]));
            } else {
                assert(!before(texts[j - 1], texts[i - 1]));
            }
        }
        assert(after.remove(k as int) =~= texts);
        after.to_multiset_ensures();
        assert(after.to_multiset().remove(after[k as int]) =~= texts.to_multiset());
        assert(after.contains(after[k as int]));
        assert(after.to_multiset() =~= texts.to_multiset().insert(word));
    }
}

} // verus!
