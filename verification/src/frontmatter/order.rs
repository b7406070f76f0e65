//! Byte strings in order: the order of the dictionary, byte by byte.

use vstd::prelude::*;

verus! {

/// `a` stands before `b`, read from the position `i` on, where the two are
/// the same up to `i`.
pub open spec fn before_at(a: Seq<u8>, b: Seq<u8>, i: int) -> bool
    decreases a.len() - i,
{
    if i < 0 || i >= b.len() {
        false
    } else if i >= a.len() {
        true
    } else if a[i] < b[i] {
        true
    } else if a[i] > b[i] {
        false
    } else {
        before_at(a, b, i + 1)
    }
}

/// `a` stands before `b` in the order of the dictionary.
pub open spec fn before(a: Seq<u8>, b: Seq<u8>) -> bool {
    before_at(a, b, 0)
}

/// How two byte strings stand to each other.
#[derive(Debug, Clone, Copy, PartialEq, Eq, Structural)]
pub enum Place {
    Before,
    Same,
    After,
}

/// Tells how `a` stands to `b`.
pub fn place(a: &[u8], b: &[u8]) -> (r: Place)
    ensures
        r == Place::Before <==> before(a@, b@),
        r == Place::Same <==> a@ == b@,
        r == Place::After <==> before(b@, a@),
{
    let mut i: usize = 0;
    while i < a.len() && i < b.len()
        invariant
            i <= a.len(),
            i <= b.len(),
            forall|j: int| 0 <= j < i ==> a@[j] == b@[j],
            before_at(a@, b@, i as int) == before(a@, b@),
            before_at(b@, a@, i as int) == before(b@, a@),
        decreases a.len() - i,
    {
        if a[i] < b[i] {
            assert(a@ != b@);
            return Place::Before;
        }
        if a[i] > b[i] {
            assert(a@ != b@);
            return Place::After;
        }
        i = i + 1;
    }
    if a.len() < b.len() {
        assert(a@ != b@);
        Place::Before
    } else if a.len() > b.len() {
        assert(a@ != b@);
        Place::After
    } else {
        assert(a@ =~= b@);
        Place::Same
    }
}

/// `s` with `x` put in before the first of its members from the `k`-th on
/// that does not stand before `x`; `s` itself where that member is `x`.
pub open spec fn inserted_from(s: Seq<Seq<u8>>, x: Seq<u8>, k: int) -> Seq<Seq<u8>>
    decreases s.len() - k,
{
    if k < 0 || k >= s.len() {
        s.push(x)
    } else if s[k] == x {
        s
    } else if before(x, s[k]) {
        s.insert(k, x)
    } else {
        inserted_from(s, x, k + 1)
    }
}

/// The members of `items` from the `k`-th on put into `s`, one after the
/// other.
pub open spec fn all_inserted(s: Seq<Seq<u8>>, items: Seq<Seq<u8>>, k: int) -> Seq<Seq<u8>>
    decreases items.len() - k,
{
    if k < 0 || k >= items.len() {
        s
    } else {
        all_inserted(inserted_from(s, items[k], 0), items, k + 1)
    }
}

/// The members of `items` in order, each once.
pub open spec fn sorted_once(items: Seq<Seq<u8>>) -> Seq<Seq<u8>> {
    all_inserted(Seq::empty(), items, 0)
}

/// Each member stands before the next.
pub open spec fn ascending(s: Seq<Seq<u8>>) -> bool {
    forall|i: int| 0 <= i < s.len() - 1 ==> before(#[trigger] s[i], s[i + 1])
}

pub open spec fn byte_strings(v: Seq<Vec<u8>>) -> Seq<Seq<u8>> {
    Seq::new(v.len(), |i: int| v[i]@)
}

/// Puts `x` into a sorted list, unless it is there.
pub fn insert_sorted(list: &mut Vec<Vec<u8>>, x: Vec<u8>)
    ensures
        byte_strings(final(list)@) == inserted_from(byte_strings(old(list)@), x@, 0),
{
    let ghost s = byte_strings(list@);
    let mut k: usize = 0;
    while k < list.len()
        invariant
            k <= list.len(),
            s == byte_strings(list@),
            list@ == old(list)@,
            inserted_from(s, x@, k as int) == inserted_from(s, x@, 0),
        decreases list.len() - k,
    {
        assert(s[k as int] == list@[k as int]@);
        match place(x.as_slice(), list[k].as_slice()) {
            Place::Same => {
                return ;
            },
            Place::Before => {
                list.insert(k, x);
                assert(byte_strings(list@) =~= s.insert(k as int, x@));
                return ;
            },
            Place::After => {},
        }
        k = k + 1;
    }
    list.push(x);
    assert(byte_strings(list@) =~= s.push(x@));
}

/// Of two different byte strings one stands before the other.
pub proof fn lemma_before_total(a: Seq<u8>, b: Seq<u8>, i: int)
    requires
        0 <= i <= a.len(),
        i <= b.len(),
        forall|j: int| 0 <= j < i ==> a[j] == b[j],
        a != b,
    ensures
        before_at(a, b, i) || before_at(b, a, i),
    decreases a.len() - i,
{
    if i < a.len() && i < b.len() {
        if a[i] == b[i] {
            lemma_before_total(a, b, i + 1);
        }
    } else if i == a.len() && i == b.len() {
        assert(a =~= b);
    }
}

/// Putting a member into an ascending list leaves it ascending, and adds
/// that member and no other.
pub proof fn lemma_inserted(s: Seq<Seq<u8>>, x: Seq<u8>, k: int)
    requires
        ascending(s),
        0 <= k <= s.len(),
        k > 0 ==> before(s[k - 1], x),
    ensures
        ascending(inserted_from(s, x, k)),
        forall|y: Seq<u8>| inserted_from(s, x, k).contains(y) <==> (s.contains(y) || y == x),
    decreases s.len() - k,
{
    let r = inserted_from(s, x, k);
    if k >= s.len() {
        assert(r == s.push(x));
        assert forall|i: int| 0 <= i < r.len() - 1 implies before(#[trigger] r[i], r[i + 1]) by {
            if i < s.len() - 1 {
                assert(before(s[i], s[i + 1]));
            }
        }
        assert forall|y: Seq<u8>| r.contains(y) <==> (s.contains(y) || y == x) by {
            if r.contains(y) {
                let i = choose|i: int| 0 <= i < r.len() && r[i] == y;
                if i < s.len() {
                    assert(s[i] == y);
                }
            }
            if s.contains(y) {
                let i = choose|i: int| 0 <= i < s.len() && s[i] == y;
                assert(r[i] == y);
            }
            if y == x {
                assert(r[s.len() as int] == y);
            }
        }
    } else if s[k] == x {
        assert forall|y: Seq<u8>| r.contains(y) <==> (s.contains(y) || y == x) by {
            if y == x {
                assert(s[k] == y);
            }
        }
    } else if before(x, s[k]) {
        assert(r == s.insert(k, x));
        assert forall|i: int| 0 <= i < r.len() - 1 implies before(#[trigger] r[i], r[i + 1]) by {
            if i < k - 1 {
                assert(before(s[i], s[i + 1]));
            } else if i == k - 1 {
            } else if i == k {
            } else {
                assert(before(s[i - 1], s[i]));
            }
        }
        assert forall|y: Seq<u8>| r.contains(y) <==> (s.contains(y) || y == x) by {
            if r.contains(y) {
                let i = choose|i: int| 0 <= i < r.len() && r[i] == y;
                if i < k {
                    assert(s[i] == y);
                } else if i > k {
                    assert(s[i - 1] == y);
                }
            }
            if s.contains(y) {
                let i = choose|i: int| 0 <= i < s.len() && s[i] == y;
                if i < k {
                    assert(r[i] == y);
                } else {
                    assert(r[i + 1] == y);
                }
            }
            if y == x {
                assert(r[k] == y);
            }
        }
    } else {
        lemma_before_total(x, s[k], 0);
        lemma_inserted(s, x, k + 1);
    }
}

/// A list that is put together member by member is ascending, and holds
/// just the members that went in.
pub proof fn lemma_all_inserted(s: Seq<Seq<u8>>, items: Seq<Seq<u8>>, k: int)
    requires
        ascending(s),
        0 <= k <= items.len(),
    ensures
        ascending(all_inserted(s, items, k)),
        forall|y: Seq<u8>|
            all_inserted(s, items, k).contains(y) <==> (s.contains(y) || exists|j: int|
                k <= j < items.len() && items[j] == y),
    decreases items.len() - k,
{
    if k < items.len() {
        let s1 = inserted_from(s, items[k], 0);
        lemma_inserted(s, items[k], 0);
        lemma_all_inserted(s1, items, k + 1);
        let r = all_inserted(s, items, k);
        assert forall|y: Seq<u8>|
            r.contains(y) <==> (s.contains(y) || exists|j: int|
                k <= j < items.len() && items[j] == y) by {
            if r.contains(y) {
                if s1.contains(y) {
                    if !s.contains(y) {
                        assert(items[k] == y);
                    }
                } else {
                    let j = choose|j: int| k + 1 <= j < items.len() && items[j] == y;
                    assert(k <= j < items.len() && items[j] == y);
                }
            }
            if s.contains(y) {
                assert(s1.contains(y));
            }
            if exists|j: int| k <= j < items.len() && items[j] == y {
                let j = choose|j: int| k <= j < items.len() && items[j] == y;
                if j == k {
                    assert(s1.contains(y));
                } else {
                    assert(k + 1 <= j < items.len() && items[j] == y);
                }
            }
        }
    }
}

/// The law of `sorted_once`: the result is in ascending order, without
/// repeats, and holds just the members of `items`.
pub proof fn lemma_sorted_once(items: Seq<Seq<u8>>)
    ensures
        ascending(sorted_once(items)),
        forall|y: Seq<u8>| sorted_once(items).contains(y) <==> items.contains(y),
{
    lemma_all_inserted(Seq::empty(), items, 0);
    assert forall|y: Seq<u8>| sorted_once(items).contains(y) <==> items.contains(y) by {
        if items.contains(y) {
            let j = choose|j: int| 0 <= j < items.len() && items[j] == y;
            assert(0 <= j < items.len() && items[j] == y);
        }
        if sorted_once(items).contains(y) {
            assert(!Seq::<Seq<u8>>::empty().contains(y));
            let j = choose|j: int| 0 <= j < items.len() && items[j] == y;
        }
    }
}

} // verus!
