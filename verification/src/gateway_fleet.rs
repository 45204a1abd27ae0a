//! Gateway fleet membership, and which replicas serve a given sandbox.
//!
//! A supervisor holds a session to several gateway replicas at once, and callers address
//! one of those replicas directly. Which replicas serve a sandbox is decided by hashing:
//! whoever has the same membership, the same name for a member and the same subset
//! function agrees without exchanging anything. The hash never has to be right for a
//! request to be routed: a replica outside the subset says so, and the caller tries the
//! next one.
use vstd::prelude::*;
use vstd::relations::{sorted_by, total_ordering};
use vstd::seq_lib::lemma_sorted_unique;
use vstd::string::*;
use vstd::utf8::{encode_utf8, encode_utf8_decode_utf8};

use sha2::Digest;

use crate::order::arranged;
use crate::text::{
    decimal, decimal_text, is_before, lemma_precedes_total, lemma_precedes_transitive,
    parse_unsigned, parsed_unsigned, precedes, replace, replaced, same_text, strip, stripped, trim,
    trimmed,
};
use crate::values::{ranking, sorted_unique, views};

verus! {

/// The variable with the headless Service name whose address records list the fleet.
/// Unset means that there is one endpoint and no fleet.
pub const FLEET_DNS_NAME_ENV: &'static str = "OPENSHELL_FLEET_DNS_NAME";

/// The variable with the number of replicas that hold a session for each sandbox.
pub const FLEET_SUBSET_SIZE_ENV: &'static str = "OPENSHELL_FLEET_SUBSET_SIZE";

/// The variable with the seconds between two looks at the membership.
pub const FLEET_REFRESH_SECS_ENV: &'static str = "OPENSHELL_FLEET_REFRESH_SECS";

/// The variable with the seconds for which a session to a departed replica is kept.
pub const FLEET_DRAIN_SECS_ENV: &'static str = "OPENSHELL_FLEET_DRAIN_SECS";

/// Replicas per sandbox: one may be lost.
pub const DEFAULT_SUBSET_SIZE: usize = 2;

/// Seconds between two looks at the membership.
pub const DEFAULT_REFRESH: u64 = 20;

/// Seconds for which a session to a departed replica is kept.
pub const DEFAULT_DRAIN: u64 = 120;

/// How the fleet is used. None of it means that there is a single endpoint.
#[derive(Debug, PartialEq, Eq)]
pub struct FleetConfig {
    /// The headless Service name: what is asked for the membership, and what follows the
    /// address in a member's name.
    pub dns_name: String,
    /// The port that every replica listens on.
    pub port: u16,
    /// Replicas per sandbox.
    pub subset_size: usize,
    /// Seconds between two looks at the membership.
    pub refresh: u64,
    /// Seconds for which a session to a replica that left the subset is kept. New members
    /// are connected before old ones are dropped, so that in between the sessions are the
    /// union of both views of the fleet.
    pub drain: u64,
}

impl Clone for FleetConfig {
    fn clone(&self) -> (r: Self)
        ensures
            r.dns_name@ == self.dns_name@,
            r.port == self.port,
            r.subset_size == self.subset_size,
            r.refresh == self.refresh,
            r.drain == self.drain,
    {
        FleetConfig {
            dns_name: self.dns_name.clone(),
            port: self.port,
            subset_size: self.subset_size,
            refresh: self.refresh,
            drain: self.drain,
        }
    }
}

/// A DNS name without white space around it, nor dots.
pub open spec fn canonical_name(name: Seq<char>) -> Seq<char> {
    stripped(trimmed(name), '.')
}

fn canonical_dns_name(name: &str) -> (r: String)
    ensures
        r@ == canonical_name(name@),
{
    strip(&trim(name), '.')
}

/// The number in a setting, white space aside.
pub open spec fn setting(value: Option<&str>, max: int) -> Option<int> {
    match value {
        Some(text) => parsed_unsigned(trimmed(text@), max),
        None => None,
    }
}

/// The number in a setting, unless it is zero.
pub open spec fn positive_setting(value: Option<&str>) -> Option<int> {
    match setting(value, usize::MAX as int) {
        Some(n) => if n > 0 {
            Some(n)
        } else {
            None
        },
        None => None,
    }
}

/// A value, or else another.
pub open spec fn value_or(value: Option<int>, default: int) -> int {
    match value {
        Some(n) => n,
        None => default,
    }
}

impl FleetConfig {
    /// The configuration that settings give: none without a name, and the default of each
    /// tuning value that is absent or no number. A mistyped tuning value does not keep
    /// a sandbox from connecting. A drain of zero seconds is a choice; a subset or
    /// a refresh of zero is not.
    pub fn from_values(
        dns_name: Option<&str>,
        subset_size: Option<&str>,
        refresh_secs: Option<&str>,
        drain_secs: Option<&str>,
        port: u16,
    ) -> (r: Option<FleetConfig>)
        ensures
            r is Some <==> dns_name is Some && canonical_name(dns_name->0@).len() > 0,
            r is Some ==> r->0.dns_name@ == canonical_name(dns_name->0@) && r->0.port == port
                && r->0.subset_size == value_or(
                positive_setting(subset_size),
                DEFAULT_SUBSET_SIZE as int,
            ) && r->0.refresh == value_or(positive_setting(refresh_secs), DEFAULT_REFRESH as int)
                && r->0.drain == value_or(setting(drain_secs, u64::MAX as int), DEFAULT_DRAIN as int),
    {
        match dns_name {
            None => None,
            Some(name) => {
                let name = canonical_dns_name(name);
                if name.as_str().is_empty() {
                    return None;
                }
                Some(
                    FleetConfig {
                        dns_name: name,
                        port,
                        subset_size: parse_positive(subset_size).unwrap_or(DEFAULT_SUBSET_SIZE),
                        refresh: parse_secs(refresh_secs).unwrap_or(DEFAULT_REFRESH),
                        drain: parse_secs_allowing_zero(drain_secs).unwrap_or(DEFAULT_DRAIN),
                    },
                )
            },
        }
    }
}

fn parse_positive(value: Option<&str>) -> (r: Option<usize>)
    ensures
        positive_setting(value) == (match r {
            Some(n) => Some(n as int),
            None => None,
        }),
{
    match value {
        None => None,
        Some(text) => match parse_unsigned(&trim(text), usize::MAX as u64) {
            Some(n) => if n > 0 {
                Some(n as usize)
            } else {
                None
            },
            None => None,
        },
    }
}

fn parse_secs(value: Option<&str>) -> (r: Option<u64>)
    ensures
        positive_setting(value) == (match r {
            Some(n) => Some(n as int),
            None => None,
        }),
{
    match parse_positive(value) {
        Some(n) => Some(n as u64),
        None => None,
    }
}

fn parse_secs_allowing_zero(value: Option<&str>) -> (r: Option<u64>)
    ensures
        setting(value, u64::MAX as int) == (match r {
            Some(n) => Some(n as int),
            None => None,
        }),
{
    match value {
        None => None,
        Some(text) => parse_unsigned(&trim(text), u64::MAX),
    }
}

/// The address of a member: its IP address with dashes, the Service name and the port.
pub open spec fn member_name(ip: Seq<char>, dns_name: Seq<char>, port: u16) -> Seq<char> {
    replaced(ip, '.', ':', '-') + "."@ + canonical_name(dns_name) + ":"@ + decimal(port as nat)
}

/// The address of one fleet member, given its IP address in writing. It is the member's
/// identity as well as its route: everyone who derives it from an IP address derives the
/// same.
pub fn member_address(ip: &str, dns_name: &str, port: u16) -> (r: String)
    ensures
        r@ == member_name(ip@, dns_name@, port),
{
    let mut r = replace(ip, '.', ':', '-');
    r.append(".");
    r.append(&canonical_dns_name(dns_name));
    r.append(":");
    r.append(&decimal_text(port as u64));
    r
}

/// The absolute name that is asked for the membership. No search list applies to it.
pub fn membership_query(dns_name: &str) -> (r: String)
    ensures
        r@ == canonical_name(dns_name@) + "."@,
{
    let mut r = canonical_dns_name(dns_name);
    r.append(".");
    r
}

/// The names of the members at the given addresses.
pub open spec fn member_names(
    addresses: Seq<Seq<char>>,
    dns_name: Seq<char>,
    port: u16,
) -> Seq<Seq<char>> {
    addresses.map_values(|ip: Seq<char>| member_name(ip, dns_name, port))
}

/// The members at the addresses that the membership query gave, in order and once each:
/// a Service can publish an address twice. No addresses means an empty fleet, which is
/// another thing than a query that failed.
pub fn resolved_members(addresses: &Vec<String>, dns_name: &str, port: u16) -> (r: Vec<String>)
    ensures
        views(r@) == arranged(
            member_names(views(addresses@), dns_name@, port),
            ranking::<String>(),
        ),
{
    let mut members: Vec<String> = Vec::new();
    let mut i: usize = 0;
    while i < addresses.len()
        invariant
            i <= addresses.len(),
            members.len() == i,
            forall|j: int|
                0 <= j < i ==> (#[trigger] members@[j])@ == member_name(
                    addresses@[j]@,
                    dns_name@,
                    port,
                ),
        decreases addresses.len() - i,
    {
        members.push(member_address(&addresses[i], dns_name, port));
        i += 1;
    }
    proof {
        assert(views(members@) =~= member_names(views(addresses@), dns_name@, port));
    }
    sorted_unique(&members)
}

/// The SHA-256 digest of a message.
pub uninterp spec fn sha256(message: Seq<u8>) -> Seq<u8>;

/// `sha2::Sha256::digest` computes the SHA-256 digest of its argument, 32 bytes.
#[verifier::external_body]
fn sha256_digest(message: &Vec<u8>) -> (r: Vec<u8>)
    ensures
        r@ == sha256(message@),
        r@.len() == 32,
{
    sha2::Sha256::digest(message.as_slice()).to_vec()
}

/// The number that bytes write, the first byte most significant.
pub open spec fn big_endian(bytes: Seq<u8>) -> int
    decreases bytes.len(),
{
    if bytes.len() == 0 {
        0
    } else {
        big_endian(bytes.drop_last()) * 256 + bytes.last()
    }
}

/// What is hashed for a member and a sandbox: a zero byte keeps the two apart.
pub open spec fn score_message(member: Seq<char>, sandbox_id: Seq<char>) -> Seq<u8> {
    encode_utf8(member) + seq![0u8] + encode_utf8(sandbox_id)
}

/// The score of a member for a sandbox: the first eight bytes of the digest.
pub open spec fn score(member: Seq<char>, sandbox_id: Seq<char>) -> int {
    big_endian(sha256(score_message(member, sandbox_id)).take(8))
}

/// One more than the largest number of so many bytes.
spec fn bytes_limit(n: int) -> int
    decreases n,
{
    if n <= 0 {
        1
    } else {
        bytes_limit(n - 1) * 256
    }
}

/// The number that the first eight bytes of a digest write.
pub fn digest_prefix(digest: &Vec<u8>) -> (r: u64)
    requires
        digest.len() >= 8,
    ensures
        r == big_endian(digest@.take(8)),
{
    let mut value: u64 = 0;
    let mut i: usize = 0;
    proof {
        assert(digest@.take(0) =~= Seq::empty());
        assert(bytes_limit(8) == 0x1_0000_0000_0000_0000) by {
            reveal_with_fuel(bytes_limit, 9);
        }
    }
    while i < 8
        invariant
            i <= 8 <= digest.len(),
            bytes_limit(8) == 0x1_0000_0000_0000_0000,
            value == big_endian(digest@.take(i as int)),
            value * bytes_limit(8 - i) + bytes_limit(8 - i) <= bytes_limit(8),
            bytes_limit(8 - i) > 0,
        decreases 8 - i,
    {
        let b: u8 = digest[i];
        proof {
            assert(digest@.take(i as int + 1).drop_last() =~= digest@.take(i as int));
            assert(digest@.take(i as int + 1).last() == b);
            let l = bytes_limit(8 - i - 1);
            assert(bytes_limit(8 - i) == l * 256);
            assert(l > 0) by (nonlinear_arith)
                requires
                    l * 256 > 0,
            ;
            assert(value * (l * 256) + l * 256 <= 0x1_0000_0000_0000_0000);
            assert((value * 256 + b) * l + l <= value * (l * 256) + l * 256) by (nonlinear_arith)
                requires
                    l > 0,
                    b <= 255,
            ;
            assert(value * 256 + b < 0x1_0000_0000_0000_0000) by (nonlinear_arith)
                requires
                    (value * 256 + b) * l + l <= 0x1_0000_0000_0000_0000,
                    l > 0,
                    value >= 0,
                    b >= 0,
            ;
        }
        value = value * 256 + b as u64;
        i += 1;
    }
    value
}

/// The score of a member for a sandbox.
pub fn member_score(member: &str, sandbox_id: &str) -> (r: u64)
    ensures
        r == score(member@, sandbox_id@),
{
    let mut message = member.as_bytes_vec();
    message.push(0u8);
    let mut id = sandbox_id.as_bytes_vec();
    message.append(&mut id);
    proof {
        assert(message@ =~= score_message(member@, sandbox_id@));
    }
    digest_prefix(&sha256_digest(&message))
}

/// `a` is tried before `b`, or is `b`: the higher score first, and the smaller name of two
/// with the same score.
pub open spec fn preferred(sandbox_id: Seq<char>, a: Seq<char>, b: Seq<char>) -> bool {
    ||| score(a, sandbox_id) > score(b, sandbox_id)
    ||| score(a, sandbox_id) == score(b, sandbox_id) && (a == b || precedes(a, b))
}

/// The order of preference for a sandbox.
pub open spec fn preference(sandbox_id: Seq<char>) -> spec_fn(Seq<char>, Seq<char>) -> bool {
    |a: Seq<char>, b: Seq<char>| preferred(sandbox_id, a, b)
}

/// The members in the order of preference.
pub open spec fn serving_order(sandbox_id: Seq<char>, members: Seq<Seq<char>>) -> Seq<Seq<char>> {
    members.sort_by(preference(sandbox_id))
}

/// The members that serve a sandbox: the first in the order of preference, up to
/// a number.
pub open spec fn subset(
    sandbox_id: Seq<char>,
    members: Seq<Seq<char>>,
    subset_size: int,
) -> Seq<Seq<char>> {
    let order = serving_order(sandbox_id, members);
    order.take(
        if subset_size < order.len() {
            subset_size
        } else {
            order.len() as int
        },
    )
}

/// The preference for a sandbox orders all members.
proof fn lemma_preference(sandbox_id: Seq<char>)
    ensures
        total_ordering(preference(sandbox_id)),
{
    let leq = preference(sandbox_id);
    assert forall|a: Seq<char>, b: Seq<char>| #[trigger] leq(a, b) && #[trigger] leq(b, a) implies a
        == b by {
        lemma_precedes_total(a, b);
    }
    assert forall|a: Seq<char>, b: Seq<char>, c: Seq<char>| #[trigger]
        leq(a, b) && #[trigger] leq(b, c) implies leq(a, c) by {
        if precedes(a, b) && precedes(b, c) {
            lemma_precedes_transitive(a, b, c);
        }
    }
    assert forall|a: Seq<char>, b: Seq<char>| #[trigger] leq(a, b) || #[trigger] leq(b, a) by {
        lemma_precedes_total(a, b);
    }
}

/// The order of preference holds the members, each as often as they do.
pub proof fn lemma_serving_order(sandbox_id: Seq<char>, members: Seq<Seq<char>>)
    ensures
        sorted_by(serving_order(sandbox_id, members), preference(sandbox_id)),
        serving_order(sandbox_id, members).to_multiset() == members.to_multiset(),
        serving_order(sandbox_id, members).len() == members.len(),
        forall|r: Seq<Seq<char>>|
            sorted_by(r, preference(sandbox_id)) && #[trigger] r.to_multiset()
                == members.to_multiset() ==> r == serving_order(sandbox_id, members),
{
    broadcast use vstd::seq_lib::group_to_multiset_ensures;

    let leq = preference(sandbox_id);
    let order = serving_order(sandbox_id, members);
    lemma_preference(sandbox_id);
    members.lemma_sort_by_ensures(leq);
    assert(order.len() == order.to_multiset().len());
    assert forall|r: Seq<Seq<char>>|
        sorted_by(r, leq) && #[trigger] r.to_multiset() == members.to_multiset() implies r
        == order by {
        lemma_sorted_unique(r, order, leq);
    }
}

fn is_preferred(left_score: u64, left: &str, right_score: u64, right: &str) -> (r: bool)
    ensures
        r == (left_score > right_score || left_score == right_score && (left@ == right@ || precedes(
            left@,
            right@,
        ))),
{
    left_score > right_score || (left_score == right_score && (same_text(left, right) || is_before(
        left,
        right,
    )))
}

/// The replicas that serve a sandbox, in the order in which a caller should try them:
/// those with the highest scores, ties by name. Every one of them can serve.
pub fn subset_for(sandbox_id: &str, members: &[String], subset_size: usize) -> (r: Vec<String>)
    ensures
        views(r@) == subset(sandbox_id@, views(members@), subset_size as int),
{
    let ghost leq = preference(sandbox_id@);
    let ghost all = views(members@);
    let mut names: Vec<String> = Vec::new();
    let mut scores: Vec<u64> = Vec::new();
    let mut i: usize = 0;
    proof {
        lemma_preference(sandbox_id@);
        assert(all.take(0) =~= Seq::empty());
        assert(views(names@) =~= all.take(0));
    }
    while i < members.len()
        invariant
            i <= members.len(),
            all == views(members@),
            leq == preference(sandbox_id@),
            total_ordering(leq),
            names.len() == scores.len(),
            forall|j: int|
                0 <= j < names.len() ==> #[trigger] scores@[j] == score(names@[j]@, sandbox_id@),
            sorted_by(views(names@), leq),
            views(names@).to_multiset() == all.take(i as int).to_multiset(),
        decreases members.len() - i,
    {
        let ghost sorted = views(names@);
        let ghost x = members@[i as int]@;
        let new_score: u64 = member_score(&members[i], sandbox_id);
        let mut at: usize = 0;
        while at < names.len() && is_preferred(scores[at], &names[at], new_score, &members[i])
            invariant
                i < members.len(),
                at <= names.len(),
                names.len() == scores.len(),
                sorted == views(names@),
                x == members@[i as int]@,
                leq == preference(sandbox_id@),
                new_score == score(x, sandbox_id@),
                forall|j: int|
                    0 <= j < names.len() ==> #[trigger] scores@[j] == score(
                        names@[j]@,
                        sandbox_id@,
                    ),
                forall|j: int| 0 <= j < at ==> leq(#[trigger] sorted[j], x),
            decreases names.len() - at,
        {
            proof {
                assert(sorted[at as int] == names@[at as int]@);
                assert(scores@[at as int] == score(names@[at as int]@, sandbox_id@));
            }
            at += 1;
        }
        proof {
            if at < names.len() {
                assert(sorted[at as int] == names@[at as int]@);
                assert(scores@[at as int] == score(names@[at as int]@, sandbox_id@));
                assert(!leq(sorted[at as int], x));
                assert(leq(x, sorted[at as int]));
            }
            let inserted = sorted.insert(at as int, x);
            assert forall|a: int, b: int| 0 <= a < b < inserted.len() implies #[trigger] leq(
                inserted[a],
                inserted[b],
            ) by {
                if b < at {
                    assert(leq(sorted[a], sorted[b]));
                } else if b == at {
                    assert(leq(sorted[a], x));
                } else if a < at {
                    assert(leq(sorted[a], sorted[b - 1]));
                } else if a == at {
                    if at < b - 1 {
                        assert(leq(sorted[at as int], sorted[b - 1]));
                        assert(leq(x, sorted[b - 1]));
                    }
                } else {
                    assert(leq(sorted[a - 1], sorted[b - 1]));
                }
            }
            assert(all.take(i as int + 1) =~= all.take(i as int).push(x));
            vstd::seq_lib::to_multiset_insert(sorted, at as int, x);
            vstd::seq_lib::to_multiset_build(all.take(i as int), x);
            assert(inserted.to_multiset() =~= sorted.to_multiset().insert(x));
            assert(all.take(i as int).push(x).to_multiset() =~= all.take(
                i as int,
            ).to_multiset().insert(x));
        }
        let ghost scores_before = scores@;
        let ghost names_before = names@;
        names.insert(at, members[i].clone());
        scores.insert(at, new_score);
        proof {
            assert(views(names@) =~= sorted.insert(at as int, x));
            assert forall|j: int| 0 <= j < names.len() implies #[trigger] scores@[j] == score(
                names@[j]@,
                sandbox_id@,
            ) by {
                if j < at {
                    assert(scores_before[j] == score(names_before[j]@, sandbox_id@));
                } else if j > at {
                    assert(scores_before[j - 1] == score(names_before[j - 1]@, sandbox_id@));
                }
            }
        }
        i += 1;
    }
    proof {
        assert(all.take(all.len() as int) =~= all);
        lemma_serving_order(sandbox_id@, all);
        assert(views(names@) == serving_order(sandbox_id@, all));
    }
    let ghost order = views(names@);
    if subset_size < names.len() {
        names.truncate(subset_size);
    }
    proof {
        assert(views(names@) =~= subset(sandbox_id@, all, subset_size as int));
    }
    names
}

// What holds of subsets.
/// A subset has the size that was asked for, or that of the fleet where that is smaller,
/// and each of its entries is a member.
pub proof fn law_subset_is_drawn_from_the_members(
    sandbox_id: Seq<char>,
    members: Seq<Seq<char>>,
    subset_size: int,
    i: int,
)
    requires
        subset_size >= 0,
    ensures
        subset(sandbox_id, members, subset_size).len() == (if subset_size < members.len() {
            subset_size
        } else {
            members.len() as int
        }),
        0 <= i < subset(sandbox_id, members, subset_size).len() ==> members.contains(
            subset(sandbox_id, members, subset_size)[i],
        ),
{
    broadcast use vstd::seq_lib::group_to_multiset_ensures;

    lemma_serving_order(sandbox_id, members);
    let order = serving_order(sandbox_id, members);
    if 0 <= i < subset(sandbox_id, members, subset_size).len() {
        assert(order.contains(order[i]));
        assert(order.to_multiset().count(order[i]) > 0);
        assert(members.to_multiset().count(order[i]) > 0);
    }
}

/// A fleet without repetitions gives subsets without repetitions.
pub proof fn law_subset_has_no_repetition(
    sandbox_id: Seq<char>,
    members: Seq<Seq<char>>,
    subset_size: int,
)
    requires
        subset_size >= 0,
        members.no_duplicates(),
    ensures
        subset(sandbox_id, members, subset_size).no_duplicates(),
{
    broadcast use vstd::seq_lib::group_to_multiset_ensures;

    lemma_serving_order(sandbox_id, members);
    let order = serving_order(sandbox_id, members);
    members.lemma_multiset_has_no_duplicates();
    order.lemma_multiset_has_no_duplicates_conv();
}

/// The order in which the members are listed does not matter.
pub proof fn law_subset_ignores_the_order_of_members(
    sandbox_id: Seq<char>,
    a: Seq<Seq<char>>,
    b: Seq<Seq<char>>,
    subset_size: int,
)
    requires
        a.to_multiset() == b.to_multiset(),
    ensures
        subset(sandbox_id, a, subset_size) == subset(sandbox_id, b, subset_size),
{
    lemma_serving_order(sandbox_id, a);
    lemma_serving_order(sandbox_id, b);
}

/// The order of preference without a member is that of the others.
proof fn lemma_order_without(
    sandbox_id: Seq<char>,
    members: Seq<Seq<char>>,
    removed: int,
    at: int,
)
    requires
        0 <= removed < members.len(),
        0 <= at < members.len(),
        serving_order(sandbox_id, members)[at] == members[removed],
    ensures
        serving_order(sandbox_id, members.remove(removed)) == serving_order(
            sandbox_id,
            members,
        ).remove(at),
{
    broadcast use vstd::seq_lib::group_to_multiset_ensures;
    broadcast use vstd::multiset::group_multiset_axioms;

    let leq = preference(sandbox_id);
    let order = serving_order(sandbox_id, members);
    let fewer = members.remove(removed);
    lemma_serving_order(sandbox_id, members);
    lemma_serving_order(sandbox_id, fewer);
    let rest = order.remove(at);
    assert forall|a: int, b: int| 0 <= a < b < rest.len() implies #[trigger] leq(
        rest[a],
        rest[b],
    ) by {
        let a0 = if a < at { a } else { a + 1 };
        let b0 = if b < at { b } else { b + 1 };
        assert(leq(order[a0], order[b0]));
    }
    assert(rest.to_multiset() =~= fewer.to_multiset());
}

/// Losing a member moves at most one entry of a subset: the other entries stay in their
/// order, and at most one member comes in, behind them.
pub proof fn law_losing_a_member_moves_one_entry(
    sandbox_id: Seq<char>,
    members: Seq<Seq<char>>,
    removed: int,
    subset_size: int,
)
    requires
        0 <= removed < members.len(),
        subset_size >= 0,
    ensures
        ({
            let before = subset(sandbox_id, members, subset_size);
            let after = subset(sandbox_id, members.remove(removed), subset_size);
            &&& forall|x: Seq<char>| #[trigger]
                before.contains(x) ==> x == members[removed] || after.contains(x)
            &&& forall|i: int|
                0 <= i < after.len() - 1 ==> before.contains(#[trigger] after[i])
            &&& !before.contains(members[removed]) ==> after == before
            &&& before.contains(members[removed]) ==> exists|at: int|
                0 <= at < before.len() && before[at] == members[removed] && #[trigger] before.remove(
                    at,
                ) == after.take(before.len() - 1)
        }),
{
    broadcast use vstd::seq_lib::group_to_multiset_ensures;

    let order = serving_order(sandbox_id, members);
    let fewer = members.remove(removed);
    let before = subset(sandbox_id, members, subset_size);
    let after = subset(sandbox_id, fewer, subset_size);
    lemma_serving_order(sandbox_id, members);
    lemma_serving_order(sandbox_id, fewer);
    assert(members.contains(members[removed]));
    assert(order.to_multiset().count(members[removed]) > 0);
    let at = if before.contains(members[removed]) {
        before.index_of(members[removed])
    } else {
        order.index_of(members[removed])
    };
    lemma_order_without(sandbox_id, members, removed, at);
    let rest = order.remove(at);
    assert forall|x: Seq<char>| #[trigger] before.contains(x) implies x == members[removed]
        || after.contains(x) by {
        let i = choose|i: int| 0 <= i < before.len() && before[i] == x;
        if i < at {
            assert(after[i] == x);
        } else if i > at {
            assert(after[i - 1] == x);
        }
    }
    assert forall|i: int| 0 <= i < after.len() - 1 implies before.contains(#[trigger] after[i]) by {
        if i < at {
            assert(before[i] == after[i]);
        } else {
            assert(before[i + 1] == after[i]);
        }
    }
    if !before.contains(members[removed]) {
        if at < before.len() {
            assert(before[at] == members[removed]);
        }
        assert(after =~= before);
    } else {
        assert(before.remove(at) =~= after.take(before.len() - 1));
    }
}

/// A member and a sandbox cannot be told apart from another pair by where the one ends
/// and the other begins, unless a member's name holds a zero byte.
pub proof fn law_separator_is_unambiguous(
    member: Seq<char>,
    sandbox_id: Seq<char>,
    other_member: Seq<char>,
    other_id: Seq<char>,
)
    requires
        !encode_utf8(member).contains(0u8),
        !encode_utf8(other_member).contains(0u8),
        score_message(member, sandbox_id) == score_message(other_member, other_id),
    ensures
        member == other_member,
        sandbox_id == other_id,
{
    let a = encode_utf8(member);
    let b = encode_utf8(other_member);
    let m = score_message(member, sandbox_id);
    assert(m[a.len() as int] == 0u8);
    assert(m[b.len() as int] == 0u8);
    if a.len() < b.len() {
        assert(b[a.len() as int] == 0u8);
    }
    if b.len() < a.len() {
        assert(a[b.len() as int] == 0u8);
    }
    assert(a =~= m.take(a.len() as int));
    assert(b =~= m.take(b.len() as int));
    assert(encode_utf8(sandbox_id) =~= m.skip(a.len() as int + 1));
    assert(encode_utf8(other_id) =~= m.skip(b.len() as int + 1));
    encode_utf8_decode_utf8(member);
    encode_utf8_decode_utf8(other_member);
    encode_utf8_decode_utf8(sandbox_id);
    encode_utf8_decode_utf8(other_id);
}

} // verus!
