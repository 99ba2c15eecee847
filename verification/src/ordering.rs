//! Stable ordering of chapters by chapter number.

use vstd::prelude::*;
use vstd::multiset::Multiset;
use crate::chapter_number::{order_key, total_order_key};

verus! {

/// Anything that carries a chapter number.
pub trait ChapterNumbered: Sized {
    /// Bit pattern of the chapter number.
    spec fn number_bits_spec(&self) -> u32;

    /// Bit pattern of the chapter number.
    fn number_bits(&self) -> (b: u32)
        ensures
            b == self.number_bits_spec(),
    ;
}

/// Position of an item in the chapter order.
pub open spec fn chapter_key<T: ChapterNumbered>(x: T) -> int {
    total_order_key(x.number_bits_spec())
}

/// Insert `x` into `s` after every trailing element whose key is not greater
/// than that of `x` (the step of a stable insertion sort).
pub open spec fn insert_stable<T: ChapterNumbered>(s: Seq<T>, x: T) -> Seq<T>
    decreases s.len(),
{
    if s.len() == 0 {
        seq![x]
    } else if chapter_key(s.last()) <= chapter_key(x) {
        s.push(x)
    } else {
        insert_stable(s.drop_last(), x).push(s.last())
    }
}

/// The stable sort of `s` by chapter number: items with equal numbers keep
/// their relative order.
pub open spec fn stable_sorted<T: ChapterNumbered>(s: Seq<T>) -> Seq<T>
    decreases s.len(),
{
    if s.len() == 0 {
        s
    } else {
        insert_stable(stable_sorted(s.drop_last()), s.last())
    }
}

/// `s` is in ascending chapter order.
pub open spec fn is_chapter_sorted<T: ChapterNumbered>(s: Seq<T>) -> bool {
    forall|i: int, j: int| 0 <= i <= j < s.len() ==> chapter_key(s[i]) <= chapter_key(s[j])
}

proof fn lemma_insert_stable_split<T: ChapterNumbered>(s: Seq<T>, x: T, p: int)
    requires
        0 < p <= s.len(),
        chapter_key(s[p - 1]) > chapter_key(x),
    ensures
        insert_stable(s.take(p), x) == insert_stable(s.take(p - 1), x).push(s[p - 1]),
{
    assert(s.take(p).drop_last() =~= s.take(p - 1));
}

/// Insert `x` at its stable position in the sorted vector `v`.
fn insert_in_order<T: ChapterNumbered>(v: &mut Vec<T>, x: T)
    ensures
        final(v)@ == insert_stable(old(v)@, x),
{
    let kx = order_key(x.number_bits());
    let mut p: usize = v.len();
    proof {
        assert(v@.take(p as int) =~= v@);
        assert(v@.skip(p as int) =~= Seq::<T>::empty());
        assert(insert_stable(v@, x) =~= insert_stable(v@.take(p as int), x) + v@.skip(p as int));
    }
    while p > 0 && order_key(v[p - 1].number_bits()) > kx
        invariant
            p <= v.len(),
            kx == chapter_key(x),
            insert_stable(v@, x) == insert_stable(v@.take(p as int), x) + v@.skip(p as int),
        decreases p,
    {
        proof {
            lemma_insert_stable_split(v@, x, p as int);
            assert(v@.skip(p - 1) =~= seq![v@[p - 1]] + v@.skip(p as int));
            assert(insert_stable(v@.take(p - 1), x).push(v@[p - 1]) + v@.skip(p as int)
                =~= insert_stable(v@.take(p - 1), x) + v@.skip(p - 1));
        }
        p = p - 1;
    }
    proof {
        let s = v@;
        if p == 0 {
            assert(s.take(0) =~= Seq::<T>::empty());
        } else {
            assert(s.take(p as int).last() == s[p - 1]);
        }
        assert(insert_stable(s.take(p as int), x) =~= s.take(p as int).push(x));
        assert(insert_stable(s, x) =~= s.insert(p as int, x));
    }
    v.insert(p, x);
}

/// Sort `items` by chapter number, keeping the input order among equal
/// numbers.
pub fn sort_by_chapter_number<T: ChapterNumbered>(items: Vec<T>) -> (r: Vec<T>)
    ensures
        r@ == stable_sorted(items@),
{
    let mut input = items;
    let ghost s = input@;
    let mut out: Vec<T> = Vec::new();
    let n: usize = input.len();
    assert(s.len() == n);
    let mut i: usize = 0;
    while input.len() > 0
        invariant
            i <= s.len(),
            i + input.len() == s.len(),
            s.len() <= usize::MAX,
            input@ == s.skip(i as int),
            out@ == stable_sorted(s.take(i as int)),
        decreases input.len(),
    {
        let x = input.remove(0);
        proof {
            assert(s.take(i + 1).drop_last() =~= s.take(i as int));
            assert(s.take(i + 1).last() == x);
            assert(input@ =~= s.skip(i + 1));
        }
        insert_in_order(&mut out, x);
        i = i + 1;
    }
    proof {
        assert(s.take(i as int) =~= s);
    }
    out
}

/// Inserting into a sorted sequence keeps it sorted.
proof fn lemma_insert_stable_sorted<T: ChapterNumbered>(s: Seq<T>, x: T)
    requires
        is_chapter_sorted(s),
    ensures
        is_chapter_sorted(insert_stable(s, x)),
        insert_stable(s, x).len() == s.len() + 1,
        insert_stable(s, x).to_multiset() == s.to_multiset().insert(x),
        forall|i: int| 0 <= i < insert_stable(s, x).len() ==>
            chapter_key(#[trigger] insert_stable(s, x)[i]) <= chapter_key(x)
            || exists|j: int| 0 <= j < s.len() && insert_stable(s, x)[i] == s[j],
    decreases s.len(),
{
    broadcast use vstd::seq_lib::group_to_multiset_ensures;
    if s.len() == 0 {
        assert(seq![x].to_multiset() =~= Multiset::<T>::empty().insert(x)) by {
            assert(seq![x] =~= Seq::<T>::empty().push(x));
        }
    } else if chapter_key(s.last()) <= chapter_key(x) {
        let r = s.push(x);
        assert forall|i: int, j: int| 0 <= i <= j < r.len() implies chapter_key(r[i]) <= chapter_key(r[j]) by {
            if j == s.len() as int && i < j {
                assert(chapter_key(s[i]) <= chapter_key(s.last()));
            }
        }
        assert forall|i: int| 0 <= i < r.len() implies
            chapter_key(#[trigger] r[i]) <= chapter_key(x)
            || exists|j: int| 0 <= j < s.len() && r[i] == s[j] by {
            if i < s.len() {
                assert(r[i] == s[i]);
            }
        }
    } else {
        let t = s.drop_last();
        assert(is_chapter_sorted(t));
        lemma_insert_stable_sorted(t, x);
        let u = insert_stable(t, x);
        let r = u.push(s.last());
        assert forall|i: int| 0 <= i < u.len() implies chapter_key(#[trigger] u[i]) <= chapter_key(s.last()) by {
            if chapter_key(u[i]) <= chapter_key(x) {
            } else {
                let j = choose|j: int| 0 <= j < t.len() && u[i] == t[j];
                assert(t[j] == s[j]);
            }
        }
        assert forall|i: int, j: int| 0 <= i <= j < r.len() implies chapter_key(r[i]) <= chapter_key(r[j]) by {
            if j == u.len() as int && i < j {
                assert(r[i] == u[i]);
            }
        }
        assert forall|i: int| 0 <= i < r.len() implies
            chapter_key(#[trigger] r[i]) <= chapter_key(x)
            || exists|j: int| 0 <= j < s.len() && r[i] == s[j] by {
            if i < u.len() {
                assert(r[i] == u[i]);
                if chapter_key(u[i]) > chapter_key(x) {
                    let j = choose|j: int| 0 <= j < t.len() && u[i] == t[j];
                    assert(s[j] == t[j]);
                }
            } else {
                assert(r[i] == s[s.len() - 1]);
            }
        }
        assert(s =~= t.push(s.last()));
        assert(s.to_multiset() == t.to_multiset().insert(s.last()));
    }
}

/// The stable sort is ordered and holds exactly the items it was given.
pub proof fn lemma_stable_sorted_is_sorted_permutation<T: ChapterNumbered>(s: Seq<T>)
    ensures
        is_chapter_sorted(stable_sorted(s)),
        stable_sorted(s).len() == s.len(),
        stable_sorted(s).to_multiset() == s.to_multiset(),
    decreases s.len(),
{
    broadcast use vstd::seq_lib::group_to_multiset_ensures;
    if s.len() > 0 {
        lemma_stable_sorted_is_sorted_permutation(s.drop_last());
        lemma_insert_stable_sorted(stable_sorted(s.drop_last()), s.last());
        assert(s =~= s.drop_last().push(s.last()));
    }
}

/// The items of `s` whose chapter number has the order key `k`, in order.
pub open spec fn with_key<T: ChapterNumbered>(s: Seq<T>, k: int) -> Seq<T>
    decreases s.len(),
{
    if s.len() == 0 {
        s
    } else if chapter_key(s.last()) == k {
        with_key(s.drop_last(), k).push(s.last())
    } else {
        with_key(s.drop_last(), k)
    }
}

proof fn lemma_with_key_insert<T: ChapterNumbered>(t: Seq<T>, x: T, k: int)
    ensures
        with_key(insert_stable(t, x), k) == if chapter_key(x) == k {
            with_key(t, k).push(x)
        } else {
            with_key(t, k)
        },
    decreases t.len(),
{
    if t.len() == 0 {
        assert(seq![x].drop_last() =~= t);
    } else if chapter_key(t.last()) <= chapter_key(x) {
        assert(t.push(x).drop_last() =~= t);
    } else {
        let u = insert_stable(t.drop_last(), x);
        lemma_with_key_insert(t.drop_last(), x, k);
        assert(u.push(t.last()).drop_last() =~= u);
    }
}

/// The sort is stable: for every chapter number, the items carrying it come
/// out in the order they went in.
pub proof fn lemma_stable_sorted_keeps_equal_order<T: ChapterNumbered>(s: Seq<T>, k: int)
    ensures
        with_key(stable_sorted(s), k) == with_key(s, k),
    decreases s.len(),
{
    if s.len() > 0 {
        lemma_stable_sorted_keeps_equal_order(s.drop_last(), k);
        lemma_with_key_insert(stable_sorted(s.drop_last()), s.last(), k);
    }
}

} // verus!
