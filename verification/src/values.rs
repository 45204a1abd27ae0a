//! Values that are compared and copied by what they stand for, and lists of them.
use vstd::prelude::*;

use crate::order::{
    arranged, arranges, ascending, lemma_arranged, lemma_insert_ascending, lemma_push_members,
    splits, strict_order,
};
use crate::text::{
    is_before, lemma_precedes_irreflexive, lemma_precedes_total, lemma_precedes_transitive,
    precedes,
};

verus! {

/// A value that is compared and copied by its view.
pub trait Plain: View + Sized {
    /// Whether the two values stand for the same.
    fn same(&self, other: &Self) -> (r: bool)
        ensures
            r == (self@ == other@),
    ;

    /// Another value that stands for the same.
    fn duplicate(&self) -> (r: Self)
        ensures
            r@ == self@,
    ;
}

/// A plain value with a strict total order on what it stands for.
pub trait Ranked: Plain {
    spec fn rank_before(a: Self::V, b: Self::V) -> bool;

    proof fn rank_is_strict()
        ensures
            strict_order(|a: Self::V, b: Self::V| Self::rank_before(a, b)),
    ;

    /// Whether this value comes strictly before the other.
    fn is_ranked_before(&self, other: &Self) -> (r: bool)
        ensures
            r == Self::rank_before(self@, other@),
    ;
}

impl Plain for u32 {
    fn same(&self, other: &Self) -> (r: bool) {
        *self == *other
    }

    fn duplicate(&self) -> (r: Self) {
        *self
    }
}

impl Ranked for u32 {
    open spec fn rank_before(a: u32, b: u32) -> bool {
        a < b
    }

    proof fn rank_is_strict() {
    }

    fn is_ranked_before(&self, other: &Self) -> (r: bool) {
        *self < *other
    }
}

impl Plain for Vec<u8> {
    fn same(&self, other: &Self) -> (r: bool) {
        if self.len() != other.len() {
            return false;
        }
        let mut i: usize = 0;
        while i < self.len()
            invariant
                self.len() == other.len(),
                i <= self.len(),
                forall|j: int| 0 <= j < i ==> self@[j] == other@[j],
            decreases self.len() - i,
        {
            if self[i] != other[i] {
                return false;
            }
            i += 1;
        }
        proof {
            assert(self@ =~= other@);
        }
        true
    }

    fn duplicate(&self) -> (r: Self) {
        let mut r: Vec<u8> = Vec::new();
        r.extend_from_slice(self.as_slice());
        proof {
            assert(r@ =~= self@);
        }
        r
    }
}

impl Plain for String {
    fn same(&self, other: &Self) -> (r: bool) {
        *self == *other
    }

    fn duplicate(&self) -> (r: Self) {
        self.clone()
    }
}

/// The lexicographic order of texts is strict and total.
pub proof fn lemma_text_order()
    ensures
        strict_order(|a: Seq<char>, b: Seq<char>| precedes(a, b)),
{
    let before = |a: Seq<char>, b: Seq<char>| precedes(a, b);
    assert forall|a: Seq<char>| !#[trigger] before(a, a) by {
        lemma_precedes_irreflexive(a);
    }
    assert forall|a: Seq<char>, b: Seq<char>, c: Seq<char>| #[trigger]
        before(a, b) && #[trigger] before(b, c) implies before(a, c) by {
        lemma_precedes_transitive(a, b, c);
    }
    assert forall|a: Seq<char>, b: Seq<char>| a == b || #[trigger] before(a, b) || before(b, a) by {
        lemma_precedes_total(a, b);
    }
}

impl Ranked for String {
    open spec fn rank_before(a: Seq<char>, b: Seq<char>) -> bool {
        precedes(a, b)
    }

    proof fn rank_is_strict() {
        lemma_text_order();
        let f = |a: Seq<char>, b: Seq<char>| precedes(a, b);
        let g = |a: <String as View>::V, b: <String as View>::V|
            <String as Ranked>::rank_before(a, b);
        assert(f =~= g);
    }

    fn is_ranked_before(&self, other: &Self) -> (r: bool) {
        is_before(self, other)
    }
}

/// The order of a ranked value's views.
pub open spec fn ranking<T: Ranked>() -> spec_fn(T::V, T::V) -> bool {
    |a: T::V, b: T::V| T::rank_before(a, b)
}

/// What the items of a list stand for.
pub open spec fn views<T: View>(s: Seq<T>) -> Seq<T::V> {
    s.map_values(|t: T| t@)
}

/// Numbers stand for themselves.
pub proof fn lemma_number_views(s: Seq<u32>)
    ensures
        views(s) == s,
{
    assert(views(s) =~= s);
}

/// What an optional value stands for.
pub open spec fn option_view<T: View>(o: Option<T>) -> Option<T::V> {
    match o {
        Some(t) => Some(t@),
        None => None,
    }
}

/// Whether two optional values stand for the same.
pub fn same_option<T: Plain>(a: &Option<T>, b: &Option<T>) -> (r: bool)
    ensures
        r == (option_view(*a) == option_view(*b)),
{
    match (a, b) {
        (Some(x), Some(y)) => x.same(y),
        (None, None) => true,
        _ => false,
    }
}

/// Another optional value that stands for the same.
pub fn duplicate_option<T: Plain>(a: &Option<T>) -> (r: Option<T>)
    ensures
        option_view(r) == option_view(*a),
{
    match a {
        Some(x) => Some(x.duplicate()),
        None => None,
    }
}

/// Whether two optional flags are the same.
pub fn same_flag(a: Option<bool>, b: Option<bool>) -> (r: bool)
    ensures
        r == (a == b),
{
    match (a, b) {
        (Some(x), Some(y)) => x == y,
        (None, None) => true,
        _ => false,
    }
}

/// `existing` followed by the items of `incoming` that were not there before.
pub open spec fn appended_unique<A>(existing: Seq<A>, incoming: Seq<A>) -> Seq<A>
    decreases incoming.len(),
{
    if incoming.len() == 0 {
        existing
    } else {
        let before = appended_unique(existing, incoming.drop_last());
        if before.contains(incoming.last()) {
            before
        } else {
            before.push(incoming.last())
        }
    }
}

/// The first occurrence of each item, in order.
pub open spec fn unique<A>(s: Seq<A>) -> Seq<A> {
    appended_unique(Seq::empty(), s)
}

/// Appending keeps the list as a prefix, has the members of both lists, and brings
/// in no repetition.
pub proof fn lemma_appended_unique<A>(existing: Seq<A>, incoming: Seq<A>)
    ensures
        existing.len() <= appended_unique(existing, incoming).len(),
        appended_unique(existing, incoming).take(existing.len() as int) == existing,
        forall|x: A| #[trigger]
            appended_unique(existing, incoming).contains(x) <==> (existing.contains(x)
                || incoming.contains(x)),
        existing.no_duplicates() ==> appended_unique(existing, incoming).no_duplicates(),
    decreases incoming.len(),
{
    let all = appended_unique(existing, incoming);
    if incoming.len() == 0 {
        assert(all.take(existing.len() as int) =~= existing);
    } else {
        let rest = incoming.drop_last();
        let x = incoming.last();
        let before = appended_unique(existing, rest);
        lemma_appended_unique(existing, rest);
        assert(incoming =~= rest.push(x));
        assert(all.take(existing.len() as int) =~= before.take(existing.len() as int));
        assert forall|y: A| #[trigger] all.contains(y) <==> (existing.contains(y)
            || incoming.contains(y)) by {
            lemma_push_members(rest, x, y);
            lemma_push_members(before, x, y);
            assert(before.contains(y) <==> (existing.contains(y) || rest.contains(y)));
        }
    }
}

/// A list without repetitions is its own list of first occurrences.
pub proof fn lemma_unique_of_distinct<A>(s: Seq<A>)
    requires
        s.no_duplicates(),
    ensures
        unique(s) == s,
    decreases s.len(),
{
    if s.len() == 0 {
        assert(s =~= Seq::<A>::empty());
    } else {
        lemma_unique_of_distinct(s.drop_last());
        assert(s =~= s.drop_last().push(s.last()));
        if s.drop_last().contains(s.last()) {
            let i = choose|i: int| 0 <= i < s.len() - 1 && s[i] == s.last();
            assert(s[i] != s[s.len() - 1]);
        }
    }
}

/// Whether the list holds the value.
pub fn list_contains<T: Plain>(list: &Vec<T>, value: &T) -> (r: bool)
    ensures
        r == views(list@).contains(value@),
{
    let mut i: usize = 0;
    while i < list.len()
        invariant
            i <= list.len(),
            forall|j: int| 0 <= j < i ==> views(list@)[j] != value@,
        decreases list.len() - i,
    {
        if list[i].same(value) {
            proof {
                assert(views(list@)[i as int] == value@);
            }
            return true;
        }
        i += 1;
    }
    false
}

/// A list of the same values.
pub fn duplicate_list<T: Plain>(list: &Vec<T>) -> (r: Vec<T>)
    ensures
        views(r@) == views(list@),
{
    let mut r: Vec<T> = Vec::new();
    let mut i: usize = 0;
    while i < list.len()
        invariant
            i <= list.len(),
            r.len() == i,
            forall|j: int| 0 <= j < i ==> r@[j]@ == list@[j]@,
        decreases list.len() - i,
    {
        r.push(list[i].duplicate());
        i += 1;
    }
    proof {
        assert(views(r@) =~= views(list@));
    }
    r
}

/// Whether the two lists hold the same values in the same order.
pub fn same_list<T: Plain>(a: &Vec<T>, b: &Vec<T>) -> (r: bool)
    ensures
        r == (views(a@) == views(b@)),
{
    if a.len() != b.len() {
        proof {
            assert(views(a@).len() != views(b@).len());
        }
        return false;
    }
    let mut i: usize = 0;
    while i < a.len()
        invariant
            a.len() == b.len(),
            i <= a.len(),
            forall|j: int| 0 <= j < i ==> a@[j]@ == b@[j]@,
        decreases a.len() - i,
    {
        if !a[i].same(&b[i]) {
            proof {
                assert(views(a@)[i as int] != views(b@)[i as int]);
            }
            return false;
        }
        i += 1;
    }
    proof {
        assert(views(a@) =~= views(b@));
    }
    true
}

/// Appends the values that the list does not hold yet.
pub fn append_unique<T: Plain>(existing: &mut Vec<T>, incoming: &Vec<T>)
    ensures
        views(final(existing)@) == appended_unique(views(old(existing)@), views(incoming@)),
{
    let ghost start = views(existing@);
    let ghost all = views(incoming@);
    let mut i: usize = 0;
    proof {
        assert(all.take(0) =~= Seq::empty());
    }
    while i < incoming.len()
        invariant
            i <= incoming.len(),
            all == views(incoming@),
            views(existing@) == appended_unique(start, all.take(i as int)),
        decreases incoming.len() - i,
    {
        proof {
            assert(all.take(i as int + 1).drop_last() =~= all.take(i as int));
            assert(all.take(i as int + 1).last() == incoming@[i as int]@);
        }
        if !list_contains(existing, &incoming[i]) {
            let ghost before = existing@;
            existing.push(incoming[i].duplicate());
            proof {
                assert(views(existing@) =~= views(before).push(incoming@[i as int]@));
            }
        }
        i += 1;
    }
    proof {
        assert(all.take(all.len() as int) =~= all);
    }
}

/// Keeps the first occurrence of each value.
pub fn dedup<T: Plain>(values: &mut Vec<T>)
    ensures
        views(final(values)@) == unique(views(old(values)@)),
{
    let mut kept: Vec<T> = Vec::new();
    proof {
        assert(views(kept@) =~= Seq::empty());
    }
    append_unique(&mut kept, values);
    *values = kept;
}

/// Whether every value of the second list is in the first.
pub fn contains_every<T: Plain>(list: &Vec<T>, wanted: &Vec<T>) -> (r: bool)
    ensures
        r == (forall|x: T::V| #[trigger]
            views(wanted@).contains(x) ==> views(list@).contains(x)),
{
    let mut i: usize = 0;
    while i < wanted.len()
        invariant
            i <= wanted.len(),
            forall|j: int| 0 <= j < i ==> views(list@).contains(views(wanted@)[j]),
        decreases wanted.len() - i,
    {
        if !list_contains(list, &wanted[i]) {
            proof {
                assert(views(wanted@)[i as int] == wanted@[i as int]@);
                assert(views(wanted@).contains(wanted@[i as int]@));
            }
            return false;
        }
        i += 1;
    }
    true
}

/// The values of the list once each, in ascending order.
pub fn sorted_unique<T: Ranked>(list: &Vec<T>) -> (r: Vec<T>)
    ensures
        views(r@) == arranged(views(list@), ranking::<T>()),
{
    let ghost before = ranking::<T>();
    let ghost all = views(list@);
    let mut r: Vec<T> = Vec::new();
    let mut i: usize = 0;
    proof {
        T::rank_is_strict();
        assert(all.take(0) =~= Seq::empty());
        assert(views(r@) =~= Seq::empty());
    }
    while i < list.len()
        invariant
            i <= list.len(),
            all == views(list@),
            before == ranking::<T>(),
            strict_order(before),
            arranges(views(r@), all.take(i as int), before),
        decreases list.len() - i,
    {
        let ghost s = views(r@);
        let ghost x = list@[i as int]@;
        let mut at: usize = 0;
        while at < r.len() && r[at].is_ranked_before(&list[i])
            invariant
                at <= r.len(),
                i < list.len(),
                s == views(r@),
                x == list@[i as int]@,
                before == ranking::<T>(),
                forall|j: int| 0 <= j < at ==> before(#[trigger] s[j], x),
            decreases r.len() - at,
        {
            proof {
                assert(s[at as int] == r@[at as int]@);
            }
            at += 1;
        }
        proof {
            assert forall|j: int| at <= j < s.len() implies !before(#[trigger] s[j], x) by {
                assert(s[at as int] == r@[at as int]@);
                assert(!before(s[at as int], x));
                if at < j && before(s[j], x) {
                    assert(before(s[at as int], s[j]));
                }
            }
            assert(splits(s, x, at as int, before));
            assert(all.take(i as int + 1) =~= all.take(i as int).push(x));
        }
        if at < r.len() && r[at].same(&list[i]) {
            proof {
                assert forall|y: T::V| #[trigger] s.contains(y) <==> all.take(
                    i as int + 1,
                ).contains(y) by {
                    lemma_push_members(all.take(i as int), x, y);
                    assert(s[at as int] == x);
                    assert(s.contains(y) <==> all.take(i as int).contains(y));
                }
            }
        } else {
            proof {
                if at < r.len() {
                    assert(s[at as int] == r@[at as int]@);
                }
                lemma_insert_ascending(s, x, at as int, before);
            }
            let ghost items = r@;
            r.insert(at, list[i].duplicate());
            proof {
                assert(views(r@) =~= s.insert(at as int, x));
                assert forall|y: T::V| #[trigger] views(r@).contains(y) <==> all.take(
                    i as int + 1,
                ).contains(y) by {
                    lemma_push_members(all.take(i as int), x, y);
                    assert(s.contains(y) <==> all.take(i as int).contains(y));
                }
            }
        }
        i += 1;
    }
    proof {
        assert(all.take(all.len() as int) =~= all);
        lemma_arranged(all, before);
    }
    r
}

} // verus!
