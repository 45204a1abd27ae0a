//! Strict orders, and the one ascending arrangement of a sequence's members.
use vstd::prelude::*;

verus! {

/// `before` is a strict total order.
pub open spec fn strict_order<A>(before: spec_fn(A, A) -> bool) -> bool {
    &&& forall|a: A| !#[trigger] before(a, a)
    &&& forall|a: A, b: A, c: A| #[trigger]
        before(a, b) && #[trigger] before(b, c) ==> before(a, c)
    &&& forall|a: A, b: A| a == b || #[trigger] before(a, b) || before(b, a)
}

/// Each item comes strictly before the later ones.
pub open spec fn ascending<A>(s: Seq<A>, before: spec_fn(A, A) -> bool) -> bool {
    forall|i: int, j: int| 0 <= i < j < s.len() ==> before(#[trigger] s[i], #[trigger] s[j])
}

/// The two sequences have the same members.
pub open spec fn same_members<A>(a: Seq<A>, b: Seq<A>) -> bool {
    forall|x: A| #[trigger] a.contains(x) <==> b.contains(x)
}

/// `r` lists the members of `s` once each, in ascending order.
pub open spec fn arranges<A>(r: Seq<A>, s: Seq<A>, before: spec_fn(A, A) -> bool) -> bool {
    ascending(r, before) && same_members(r, s)
}

/// The members of `s`, once each, in ascending order.
pub open spec fn arranged<A>(s: Seq<A>, before: spec_fn(A, A) -> bool) -> Seq<A> {
    choose|r: Seq<A>| arranges(r, s, before)
}

/// Two ascending sequences with the same members are equal.
pub proof fn lemma_ascending_unique<A>(a: Seq<A>, b: Seq<A>, before: spec_fn(A, A) -> bool)
    requires
        strict_order(before),
        ascending(a, before),
        ascending(b, before),
        same_members(a, b),
    ensures
        a == b,
    decreases a.len(),
{
    if a.len() == 0 {
        if b.len() > 0 {
            assert(b.contains(b[0]));
            assert(a.contains(b[0]));
        }
        assert(a =~= b);
    } else {
        assert(a.contains(a.last()));
        assert(b.contains(a.last()));
        assert(b.contains(b.last()));
        assert(a.contains(b.last()));
        let i = choose|i: int| 0 <= i < a.len() && a[i] == b.last();
        let j = choose|j: int| 0 <= j < b.len() && b[j] == a.last();
        assert(a.last() == b.last()) by {
            if i < a.len() - 1 && j < b.len() - 1 {
                assert(before(a[i], a[a.len() - 1]));
                assert(before(b[j], b[b.len() - 1]));
                assert(before(a[i], a[i]));
            }
        }
        assert forall|x: A| #[trigger] a.drop_last().contains(x) <==> b.drop_last().contains(x) by {
            lemma_drop_last_members(a, x, before);
            lemma_drop_last_members(b, x, before);
            assert(a.contains(x) <==> b.contains(x));
        }
        assert forall|p: int, q: int| 0 <= p < q < a.drop_last().len() implies before(
            #[trigger] a.drop_last()[p],
            #[trigger] a.drop_last()[q],
        ) by {
            assert(before(a[p], a[q]));
        }
        assert forall|p: int, q: int| 0 <= p < q < b.drop_last().len() implies before(
            #[trigger] b.drop_last()[p],
            #[trigger] b.drop_last()[q],
        ) by {
            assert(before(b[p], b[q]));
        }
        lemma_ascending_unique(a.drop_last(), b.drop_last(), before);
        assert(a =~= a.drop_last().push(a.last()));
        assert(b =~= b.drop_last().push(b.last()));
    }
}

proof fn lemma_drop_last_members<A>(a: Seq<A>, x: A, before: spec_fn(A, A) -> bool)
    requires
        strict_order(before),
        ascending(a, before),
        a.len() > 0,
    ensures
        a.drop_last().contains(x) <==> (a.contains(x) && x != a.last()),
{
    if a.drop_last().contains(x) {
        let i = choose|i: int| 0 <= i < a.drop_last().len() && a.drop_last()[i] == x;
        assert(a[i] == x);
        assert(before(a[i], a[a.len() - 1]));
    }
    if a.contains(x) && x != a.last() {
        let i = choose|i: int| 0 <= i < a.len() && a[i] == x;
        assert(a.drop_last()[i] == x);
    }
}

/// The position in `s` before which `x` belongs: everything earlier is before `x`,
/// nothing later is.
pub open spec fn splits<A>(s: Seq<A>, x: A, at: int, before: spec_fn(A, A) -> bool) -> bool {
    &&& 0 <= at <= s.len()
    &&& forall|i: int| 0 <= i < at ==> before(#[trigger] s[i], x)
    &&& forall|i: int| at <= i < s.len() ==> !before(#[trigger] s[i], x)
}

/// Putting a new item in its place keeps the order and adds that one member.
pub proof fn lemma_insert_ascending<A>(s: Seq<A>, x: A, at: int, before: spec_fn(A, A) -> bool)
    requires
        strict_order(before),
        ascending(s, before),
        splits(s, x, at, before),
        at < s.len() ==> s[at] != x,
    ensures
        ascending(s.insert(at, x), before),
        forall|y: A| #[trigger] s.insert(at, x).contains(y) <==> (s.contains(y) || y == x),
        !s.contains(x),
{
    let t = s.insert(at, x);
    assert forall|y: A| #[trigger] t.contains(y) <==> (s.contains(y) || y == x) by {
        if t.contains(y) {
            let i = choose|i: int| 0 <= i < t.len() && t[i] == y;
            if i < at {
                assert(s[i] == y);
            } else if i > at {
                assert(s[i - 1] == y);
            }
        }
        if s.contains(y) {
            let i = choose|i: int| 0 <= i < s.len() && s[i] == y;
            if i < at {
                assert(t[i] == y);
            } else {
                assert(t[i + 1] == y);
            }
        }
        if y == x {
            assert(t[at] == y);
        }
    }
    assert forall|i: int| at <= i < s.len() implies before(x, #[trigger] s[i]) by {
        assert(!before(s[i], x));
        if s[i] == x {
            assert(before(s[at], s[i]));
        }
    }
    assert forall|i: int, j: int| 0 <= i < j < t.len() implies before(
        #[trigger] t[i],
        #[trigger] t[j],
    ) by {
        if i < at && j > at {
            assert(before(s[i], s[j - 1]));
        } else if i < at && j == at {
            assert(before(s[i], x));
        } else if i < at {
            assert(before(s[i], s[j]));
        } else if i == at {
            assert(before(x, s[j - 1]));
        } else {
            assert(before(s[i - 1], s[j - 1]));
        }
    }
    if s.contains(x) {
        let i = choose|i: int| 0 <= i < s.len() && s[i] == x;
        assert(before(x, x));
    }
}

proof fn lemma_splits_exists<A>(s: Seq<A>, x: A, before: spec_fn(A, A) -> bool) -> (at: int)
    requires
        strict_order(before),
        ascending(s, before),
    ensures
        splits(s, x, at, before),
    decreases s.len(),
{
    if s.len() == 0 || before(s.last(), x) {
        assert forall|i: int| 0 <= i < s.len() implies before(#[trigger] s[i], x) by {
            if i < s.len() - 1 {
                assert(before(s[i], s[s.len() - 1]));
            }
        }
        s.len() as int
    } else {
        let t = s.drop_last();
        assert forall|p: int, q: int| 0 <= p < q < t.len() implies before(
            #[trigger] t[p],
            #[trigger] t[q],
        ) by {
            assert(before(s[p], s[q]));
        }
        let at = lemma_splits_exists(t, x, before);
        assert forall|i: int| 0 <= i < at implies before(#[trigger] s[i], x) by {
            assert(t[i] == s[i]);
        }
        assert forall|i: int| at <= i < s.len() implies !before(#[trigger] s[i], x) by {
            if i < t.len() {
                assert(t[i] == s[i]);
            }
        }
        at
    }
}

/// Every sequence has exactly one ascending arrangement of its members.
pub proof fn lemma_arranged<A>(s: Seq<A>, before: spec_fn(A, A) -> bool)
    requires
        strict_order(before),
    ensures
        arranges(arranged(s, before), s, before),
        forall|r: Seq<A>| #[trigger] arranges(r, s, before) ==> r == arranged(s, before),
    decreases s.len(),
{
    let r: Seq<A> = if s.len() == 0 {
        Seq::empty()
    } else {
        let t = arranged(s.drop_last(), before);
        let x = s.last();
        lemma_arranged(s.drop_last(), before);
        assert(s =~= s.drop_last().push(x));
        let at = lemma_splits_exists(t, x, before);
        if at < t.len() && t[at] == x {
            t
        } else {
            lemma_insert_ascending(t, x, at, before);
            t.insert(at, x)
        }
    };
    assert(same_members(r, s)) by {
        if s.len() > 0 {
            let t = arranged(s.drop_last(), before);
            assert forall|y: A| #[trigger] r.contains(y) <==> s.contains(y) by {
                assert(t.contains(y) <==> s.drop_last().contains(y));
                lemma_push_members(s.drop_last(), s.last(), y);
                assert(s =~= s.drop_last().push(s.last()));
            }
        }
    }
    assert(arranges(r, s, before));
    let a = arranged(s, before);
    assert(arranges(a, s, before));
    assert forall|q: Seq<A>| #[trigger] arranges(q, s, before) implies q == a by {
        assert forall|x: A| #[trigger] q.contains(x) <==> a.contains(x) by {
            assert(q.contains(x) <==> s.contains(x));
            assert(a.contains(x) <==> s.contains(x));
        }
        lemma_ascending_unique(q, a, before);
    }
}

/// `s.push(x)` has the members of `s`, and `x`.
pub proof fn lemma_push_members<A>(s: Seq<A>, x: A, y: A)
    ensures
        s.push(x).contains(y) <==> (s.contains(y) || y == x),
{
    let t = s.push(x);
    if t.contains(y) {
        let i = choose|i: int| 0 <= i < t.len() && t[i] == y;
        if i < s.len() {
            assert(s[i] == y);
        }
    }
    if s.contains(y) {
        let i = choose|i: int| 0 <= i < s.len() && s[i] == y;
        assert(t[i] == y);
    }
    if y == x {
        assert(t[s.len() as int] == y);
    }
}

} // verus!
