//! The order of texts: character by character, by code point. It is the order
//! of their UTF-8 bytes too.

use vstd::prelude::*;

use crate::text::{texts, to_chars};

verus! {

/// `a` stands before `b`, or is the same text.
pub open spec fn at_most(a: Seq<char>, b: Seq<char>) -> bool
    decreases a.len(),
{
    if a.len() == 0 {
        true
    } else if b.len() == 0 {
        false
    } else if a[0] == b[0] {
        at_most(a.drop_first(), b.drop_first())
    } else {
        (a[0] as int) < (b[0] as int)
    }
}

/// Whether `p` has the lower code point.
fn lower(p: char, q: char) -> (r: bool)
    ensures
        r == ((p as int) < (q as int)),
{
    (p as u32) < (q as u32)
}

/// Whether `a` stands before `b`, or is the same text.
pub fn in_order(a: &str, b: &str) -> (r: bool)
    ensures
        r == at_most(a@, b@),
{
    let x = to_chars(a);
    let y = to_chars(b);
    let mut i: usize = 0;
    assert(x@.skip(0) =~= x@);
    assert(y@.skip(0) =~= y@);
    while i < x.len() && i < y.len()
        invariant
            i <= x@.len(),
            i <= y@.len(),
            x@ == a@,
            y@ == b@,
            at_most(x@.skip(i as int), y@.skip(i as int)) == at_most(a@, b@),
        decreases x@.len() - i,
    {
        let p: char = x[i];
        let q: char = y[i];
        if p != q {
            return lower(p, q);
        }
        assert(x@.skip(i as int).drop_first() =~= x@.skip(i + 1));
        assert(y@.skip(i as int).drop_first() =~= y@.skip(i + 1));
        i = i + 1;
    }
    i == x.len()
}

pub proof fn lemma_at_most_total(a: Seq<char>, b: Seq<char>)
    ensures
        at_most(a, b) || at_most(b, a),
    decreases a.len(),
{
    if a.len() > 0 && b.len() > 0 && a[0] == b[0] {
        lemma_at_most_total(a.drop_first(), b.drop_first());
    }
}

pub proof fn lemma_at_most_transitive(a: Seq<char>, b: Seq<char>, c: Seq<char>)
    requires
        at_most(a, b),
        at_most(b, c),
    ensures
        at_most(a, c),
    decreases a.len(),
{
    if a.len() > 0 && b.len() > 0 && c.len() > 0 && a[0] == b[0] && b[0] == c[0] {
        lemma_at_most_transitive(a.drop_first(), b.drop_first(), c.drop_first());
    }
}

/// No text stands before one in front of it.
pub open spec fn is_sorted(s: Seq<Seq<char>>) -> bool {
    forall|i: int, j: int| 0 <= i < j < s.len() ==> at_most(#[trigger] s[i], #[trigger] s[j])
}

/// The place of `x` in the sorted texts `s`: behind all that stand before it
/// or are the same.
pub open spec fn place_in(s: Seq<Seq<char>>, x: Seq<char>) -> int
    decreases s.len(),
{
    if s.len() == 0 {
        0
    } else if at_most(s.last(), x) {
        s.len() as int
    } else {
        place_in(s.drop_last(), x)
    }
}

/// The texts in order.
pub open spec fn sorted(s: Seq<Seq<char>>) -> Seq<Seq<char>>
    decreases s.len(),
{
    if s.len() == 0 {
        Seq::empty()
    } else {
        let front = sorted(s.drop_last());
        front.insert(place_in(front, s.last()), s.last())
    }
}

pub proof fn lemma_place_in(s: Seq<Seq<char>>, x: Seq<char>)
    ensures
        0 <= place_in(s, x) <= s.len(),
        forall|i: int| place_in(s, x) <= i < s.len() ==> !at_most(#[trigger] s[i], x),
        place_in(s, x) > 0 ==> at_most(s[place_in(s, x) - 1], x),
    decreases s.len(),
{
    if s.len() > 0 && !at_most(s.last(), x) {
        let front = s.drop_last();
        lemma_place_in(front, x);
        assert forall|i: int| place_in(s, x) <= i < s.len() implies !at_most(
            #[trigger] s[i],
            x,
        ) by {
            if i < front.len() {
                assert(s[i] == front[i]);
            }
        }
    }
}

/// Sorting puts the texts in order and neither adds nor drops one.
pub proof fn law_sorted(s: Seq<Seq<char>>)
    ensures
        is_sorted(sorted(s)),
        sorted(s).to_multiset() == s.to_multiset(),
        sorted(s).len() == s.len(),
    decreases s.len(),
{
    if s.len() > 0 {
        let front = sorted(s.drop_last());
        let x = s.last();
        law_sorted(s.drop_last());
        lemma_place_in(front, x);
        let k = place_in(front, x);
        let t = front.insert(k, x);
        assert forall|i: int, j: int| 0 <= i < j < t.len() implies at_most(
            #[trigger] t[i],
            #[trigger] t[j],
        ) by {
            if j < k {
                assert(t[i] == front[i] && t[j] == front[j]);
            } else if j == k {
                assert(t[i] == front[i]);
                if i < k - 1 {
                    assert(at_most(front[i], front[k - 1]));
                    lemma_at_most_transitive(front[i], front[k - 1], x);
                }
            } else if i == k {
                assert(t[j] == front[j - 1]);
                assert(!at_most(front[j - 1], x));
                lemma_at_most_total(x, front[j - 1]);
            } else if i < k {
                assert(t[i] == front[i] && t[j] == front[j - 1]);
                assert(at_most(front[i], front[j - 1]));
            } else {
                assert(t[i] == front[i - 1] && t[j] == front[j - 1]);
                assert(at_most(front[i - 1], front[j - 1]));
            }
        }
        vstd::seq_lib::to_multiset_insert(front, k, x);
        assert(s =~= s.drop_last().push(x));
        vstd::seq_lib::to_multiset_build(s.drop_last(), x);
    } else {
        assert(sorted(s) =~= s);
    }
}

/// The texts in order.
pub fn sort(v: &Vec<String>) -> (r: Vec<String>)
    ensures
        texts(r@) == sorted(texts(v@)),
{
    let mut out: Vec<String> = Vec::new();
    let mut i: usize = 0;
    assert(texts(out@) =~= sorted(texts(v@).take(0)));
    while i < v.len()
        invariant
            i <= v@.len(),
            texts(out@) == sorted(texts(v@).take(i as int)),
        decreases v@.len() - i,
    {
        let ghost front = texts(out@);
        let ghost x = v@[i as int]@;
        let mut k: usize = out.len();
        proof {
            assert(front.take(k as int) =~= front);
            lemma_place_in(front, x);
        }
        while k > 0 && !in_order(out[k - 1].as_str(), v[i].as_str())
            invariant
                k <= out@.len(),
                i < v@.len(),
                front == texts(out@),
                x == v@[i as int]@,
                place_in(front.take(k as int), x) == place_in(front, x),
            decreases k,
        {
            assert(front.take(k as int).last() == out@[k - 1]@);
            assert(front.take(k as int).drop_last() =~= front.take(k - 1));
            k = k - 1;
        }
        proof {
            if k > 0 {
                assert(front.take(k as int).last() == out@[k - 1]@);
            }
            assert(k == place_in(front, x));
            assert(texts(v@).take(i + 1).drop_last() =~= texts(v@).take(i as int));
        }
        out.insert(k, v[i].clone());
        assert(texts(out@) =~= front.insert(k as int, x));
        i = i + 1;
    }
    assert(texts(v@).take(i as int) =~= texts(v@));
    out
}

// ── marked texts ────────────────────────────────────────────────────

/// The texts and marks of a list.
pub open spec fn marked(v: Seq<(String, bool)>) -> Seq<(Seq<char>, bool)> {
    Seq::new(v.len(), |i: int| (v[i].0@, v[i].1))
}

/// The texts without their marks.
pub open spec fn unmarked(s: Seq<(Seq<char>, bool)>) -> Seq<Seq<char>> {
    Seq::new(s.len(), |i: int| s[i].0)
}

/// Marked texts in the order of the texts.
pub open spec fn sorted_marked(s: Seq<(Seq<char>, bool)>) -> Seq<(Seq<char>, bool)>
    decreases s.len(),
{
    if s.len() == 0 {
        Seq::empty()
    } else {
        let front = sorted_marked(s.drop_last());
        front.insert(place_in(unmarked(front), s.last().0), s.last())
    }
}

/// Marked texts come in the order of their texts.
pub proof fn law_sorted_marked(s: Seq<(Seq<char>, bool)>)
    ensures
        unmarked(sorted_marked(s)) == sorted(unmarked(s)),
        sorted_marked(s).to_multiset() == s.to_multiset(),
    decreases s.len(),
{
    if s.len() == 0 {
        assert(unmarked(sorted_marked(s)) =~= sorted(unmarked(s)));
        assert(sorted_marked(s) =~= s);
    } else {
        let front = sorted_marked(s.drop_last());
        let x = s.last();
        law_sorted_marked(s.drop_last());
        assert(unmarked(s).drop_last() =~= unmarked(s.drop_last()));
        let k = place_in(unmarked(front), x.0);
        lemma_place_in(unmarked(front), x.0);
        assert(unmarked(front.insert(k, x)) =~= unmarked(front).insert(k, x.0));
        vstd::seq_lib::to_multiset_insert(front, k, x);
        assert(s =~= s.drop_last().push(x));
        vstd::seq_lib::to_multiset_build(s.drop_last(), x);
    }
}

/// Marked texts in the order of the texts.
pub fn sort_marked(v: &Vec<(String, bool)>) -> (r: Vec<(String, bool)>)
    ensures
        marked(r@) == sorted_marked(marked(v@)),
{
    let mut out: Vec<(String, bool)> = Vec::new();
    let mut i: usize = 0;
    assert(marked(out@) =~= sorted_marked(marked(v@).take(0)));
    while i < v.len()
        invariant
            i <= v@.len(),
            marked(out@) == sorted_marked(marked(v@).take(i as int)),
        decreases v@.len() - i,
    {
        let ghost pairs = marked(out@);
        let ghost front = unmarked(pairs);
        let ghost x = v@[i as int].0@;
        let mut k: usize = out.len();
        proof {
            assert(front.take(k as int) =~= front);
            lemma_place_in(front, x);
        }
        while k > 0 && !in_order(out[k - 1].0.as_str(), v[i].0.as_str())
            invariant
                k <= out@.len(),
                i < v@.len(),
                front == unmarked(marked(out@)),
                x == v@[i as int].0@,
                place_in(front.take(k as int), x) == place_in(front, x),
            decreases k,
        {
            assert(front.take(k as int).last() == out@[k - 1].0@);
            assert(front.take(k as int).drop_last() =~= front.take(k - 1));
            k = k - 1;
        }
        proof {
            if k > 0 {
                assert(front.take(k as int).last() == out@[k - 1].0@);
            }
            assert(k == place_in(front, x));
            assert(marked(v@).take(i + 1).drop_last() =~= marked(v@).take(i as int));
        }
        out.insert(k, (v[i].0.clone(), v[i].1));
        assert(marked(out@) =~= pairs.insert(k as int, (x, v@[i as int].1)));
        i = i + 1;
    }
    assert(marked(v@).take(i as int) =~= marked(v@));
    out
}

/// The order is that of the code points: of two texts that begin alike, the
/// one with the lower character where they first differ comes first, and the
/// one that ends first where they do not differ.
pub proof fn law_order_by_code_point(front: Seq<char>, a: Seq<char>, b: Seq<char>, x: char, y: char)
    ensures
        at_most(front, front + a),
        a.len() > 0 ==> !at_most(front + a, front),
        x < y ==> at_most(front + seq![x] + a, front + seq![y] + b),
        x < y ==> !at_most(front + seq![y] + b, front + seq![x] + a),
    decreases front.len(),
{
    let fa = front + a;
    let xa = front + seq![x] + a;
    let yb = front + seq![y] + b;
    if front.len() > 0 {
        let f = front.drop_first();
        law_order_by_code_point(f, a, b, x, y);
        assert(fa.drop_first() =~= f + a);
        assert(xa.drop_first() =~= f + seq![x] + a);
        assert(yb.drop_first() =~= f + seq![y] + b);
        assert(fa[0] == front[0] && xa[0] == front[0] && yb[0] == front[0]);
    } else {
        assert(xa[0] == x);
        assert(yb[0] == y);
    }
}

/// A text stands before another or the other before it, and both only where
/// they are the same.
pub proof fn law_order_is_strict(a: Seq<char>, b: Seq<char>)
    ensures
        at_most(a, b) || at_most(b, a),
        at_most(a, b) && at_most(b, a) <==> a == b,
    decreases a.len(),
{
    if a.len() > 0 && b.len() > 0 && a[0] == b[0] {
        law_order_is_strict(a.drop_first(), b.drop_first());
        if a.drop_first() == b.drop_first() {
            assert(a =~= seq![a[0]] + a.drop_first());
            assert(b =~= seq![b[0]] + b.drop_first());
        }
    } else if a.len() == 0 && b.len() == 0 {
        assert(a =~= b);
    } else if a.len() > 0 && b.len() > 0 && a[0] != b[0] {
        assert(a[0] as int != b[0] as int);
    }
}

} // verus!
