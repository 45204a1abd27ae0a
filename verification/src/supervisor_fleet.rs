//! Holding a supervisor session to several gateway replicas at once.
//!
//! A supervisor connects to the subset of replicas that hashing gives its sandbox, so that
//! any of them can serve it. Two rules make it safe to act on a membership that changes.
//! Arrivals are connected first, and a departure is kept until it has been absent for
//! a whole drain window: what is held then covers every subset computed in that window. And
//! nothing is done on ignorance: a failed or empty answer leaves the sessions alone.
use vstd::prelude::*;
use vstd::string::*;

use crate::gateway_fleet::{
    canonical_name, positive_setting, setting, subset, subset_for, value_or, FleetConfig,
    DEFAULT_DRAIN, DEFAULT_REFRESH, DEFAULT_SUBSET_SIZE,
};
use crate::string_map::StringMap;
use crate::text::{chars_of, parse_unsigned, parsed_unsigned, string_of};
use crate::values::{list_contains, option_view, views, Plain};

verus! {

/// Seconds to wait after the membership could not be had.
pub const RESOLVE_RETRY: u64 = 5;

// Endpoints.
/// The scheme separator stands at the position.
pub open spec fn separator_at(s: Seq<char>, i: int) -> bool {
    0 <= i && i + 3 <= s.len() && s[i] == ':' && s[i + 1] == '/' && s[i + 2] == '/'
}

/// The scheme separator stands at the position, and not before.
pub open spec fn first_separator(s: Seq<char>, i: int) -> bool {
    separator_at(s, i) && forall|j: int| 0 <= j < i ==> !separator_at(s, j)
}

/// The number of characters before the first slash.
pub open spec fn authority_length(s: Seq<char>) -> int
    decreases s.len(),
{
    if s.len() == 0 || s[0] == '/' {
        0
    } else {
        1 + authority_length(s.skip(1))
    }
}

/// The last colon stands at the position.
pub open spec fn last_colon(s: Seq<char>, i: int) -> bool {
    0 <= i < s.len() && s[i] == ':' && forall|j: int| i < j < s.len() ==> s[j] != ':'
}

/// What follows the scheme, up to the first slash.
pub open spec fn authority(endpoint: Seq<char>, at: int) -> Seq<char> {
    let rest = endpoint.skip(at + 3);
    rest.take(authority_length(rest))
}

/// The endpoint has the scheme, the separator, and an authority that ends in the port.
pub open spec fn has_shape(endpoint: Seq<char>, scheme: Seq<char>, port: int) -> bool {
    exists|at: int, colon: int|
        {
            &&& #[trigger] first_separator(endpoint, at)
            &&& #[trigger] last_colon(authority(endpoint, at), colon)
            &&& scheme == endpoint.take(at)
            &&& parsed_unsigned(authority(endpoint, at).skip(colon + 1), u16::MAX as int) == Some(
                port,
            )
        }
}

proof fn lemma_shape_parts(endpoint: Seq<char>, at: int, colon: int, at2: int, colon2: int)
    requires
        first_separator(endpoint, at),
        first_separator(endpoint, at2),
        last_colon(authority(endpoint, at), colon),
        last_colon(authority(endpoint, at2), colon2),
    ensures
        at == at2,
        colon == colon2,
{
    if at < at2 {
        assert(!separator_at(endpoint, at));
    }
    if at2 < at {
        assert(!separator_at(endpoint, at2));
    }
    if colon < colon2 {
        assert(authority(endpoint, at)[colon2] != ':');
    }
    if colon2 < colon {
        assert(authority(endpoint, at)[colon] != ':');
    }
}

/// The scheme and the port of an endpoint, to be used for the other replicas: they differ
/// in the host alone. Without an explicit port there is no telling.
pub fn endpoint_shape(endpoint: &str) -> (r: Option<(String, u16)>)
    ensures
        match r {
            Some((scheme, port)) => has_shape(endpoint@, scheme@, port as int),
            None => forall|scheme: Seq<char>, port: int| !has_shape(endpoint@, scheme, port),
        },
{
    let x = chars_of(endpoint);
    let n: usize = x.len();
    let mut at: usize = 0;
    while n - at >= 3 && !(x[at] == ':' && x[at + 1] == '/' && x[at + 2] == '/')
        invariant
            x@ == endpoint@,
            n == x.len(),
            at <= n,
            forall|j: int| 0 <= j < at ==> !separator_at(endpoint@, j),
        decreases n - at,
    {
        at += 1;
    }
    if n - at < 3 {
        proof {
            assert forall|scheme: Seq<char>, port: int| !has_shape(endpoint@, scheme, port) by {
                if has_shape(endpoint@, scheme, port) {
                    let (a, c) = choose|a: int, c: int|
                        #[trigger] first_separator(endpoint@, a) && #[trigger] last_colon(
                            authority(endpoint@, a),
                            c,
                        );
                    assert(separator_at(endpoint@, a));
                }
            }
        }
        return None;
    }
    let from: usize = at + 3;
    let ghost rest = endpoint@.skip(at + 3);
    let mut end: usize = from;
    proof {
        assert(rest.skip(0) =~= rest);
    }
    while end < n && x[end] != '/'
        invariant
            x@ == endpoint@,
            n == x.len(),
            from == at + 3,
            from <= end <= n,
            rest == endpoint@.skip(at + 3),
            authority_length(rest) == end - from + authority_length(rest.skip(end - from)),
        decreases n - end,
    {
        proof {
            assert(rest.skip(end - from).skip(1) =~= rest.skip(end - from + 1));
        }
        end += 1;
    }
    let ghost host = authority(endpoint@, at as int);
    proof {
        assert(first_separator(endpoint@, at as int));
        assert(host =~= x@.subrange(from as int, end as int));
    }
    let mut colon: usize = end;
    while from < colon && x[colon - 1] != ':'
        invariant
            x@ == endpoint@,
            n == x.len(),
            from <= colon <= end <= n,
            host =~= x@.subrange(from as int, end as int),
            forall|j: int| colon - from <= j < host.len() ==> host[j] != ':',
        decreases colon,
    {
        colon -= 1;
    }
    if colon == from {
        proof {
            assert forall|scheme: Seq<char>, port: int| !has_shape(endpoint@, scheme, port) by {
                if has_shape(endpoint@, scheme, port) {
                    let (a, c) = choose|a: int, c: int|
                        #[trigger] first_separator(endpoint@, a) && #[trigger] last_colon(
                            authority(endpoint@, a),
                            c,
                        );
                    if a < at {
                        assert(!separator_at(endpoint@, a));
                    }
                    if a > at {
                        assert(!separator_at(endpoint@, at as int));
                    }
                    assert(host[c] != ':');
                }
            }
        }
        return None;
    }
    let ghost c = colon - 1 - from;
    proof {
        assert(host[c] == ':');
        assert(last_colon(host, c));
        assert(host.skip(c + 1) =~= x@.subrange(colon as int, end as int));
    }
    let digits = string_of(&x, colon, end);
    match parse_unsigned(&digits, 65535) {
        Some(port) => {
            let scheme = string_of(&x, 0, at);
            proof {
                assert(scheme@ =~= endpoint@.take(at as int));
                assert(first_separator(endpoint@, at as int) && last_colon(
                    authority(endpoint@, at as int),
                    c,
                ));
            }
            Some((scheme, port as u16))
        },
        None => {
            proof {
                assert forall|scheme: Seq<char>, port: int|
                    !has_shape(endpoint@, scheme, port) by {
                    if has_shape(endpoint@, scheme, port) {
                        let (a2, c2) = choose|a2: int, c2: int|
                            {
                                &&& #[trigger] first_separator(endpoint@, a2)
                                &&& #[trigger] last_colon(authority(endpoint@, a2), c2)
                                &&& scheme == endpoint@.take(a2)
                                &&& parsed_unsigned(
                                    authority(endpoint@, a2).skip(c2 + 1),
                                    u16::MAX as int,
                                ) == Some(port)
                            };
                        lemma_shape_parts(endpoint@, at as int, c, a2, c2);
                    }
                }
            }
            None
        },
    }
}

/// An endpoint has one shape.
pub proof fn law_shape_is_unique(
    endpoint: Seq<char>,
    scheme: Seq<char>,
    port: int,
    other_scheme: Seq<char>,
    other_port: int,
)
    requires
        has_shape(endpoint, scheme, port),
        has_shape(endpoint, other_scheme, other_port),
    ensures
        scheme == other_scheme,
        port == other_port,
{
    let (a, c) = choose|a: int, c: int|
        {
            &&& #[trigger] first_separator(endpoint, a)
            &&& #[trigger] last_colon(authority(endpoint, a), c)
            &&& scheme == endpoint.take(a)
            &&& parsed_unsigned(authority(endpoint, a).skip(c + 1), u16::MAX as int) == Some(port)
        };
    let (a2, c2) = choose|a2: int, c2: int|
        {
            &&& #[trigger] first_separator(endpoint, a2)
            &&& #[trigger] last_colon(authority(endpoint, a2), c2)
            &&& other_scheme == endpoint.take(a2)
            &&& parsed_unsigned(authority(endpoint, a2).skip(c2 + 1), u16::MAX as int) == Some(
                other_port,
            )
        };
    lemma_shape_parts(endpoint, a, c, a2, c2);
}

/// The endpoint of a member.
pub open spec fn endpoint_of(scheme: Seq<char>, member: Seq<char>) -> Seq<char> {
    scheme + "://"@ + member
}

/// The endpoint of a member.
pub fn member_endpoint(scheme: &str, member: &str) -> (r: String)
    ensures
        r@ == endpoint_of(scheme@, member@),
{
    let mut r = scheme.to_owned();
    r.append("://");
    r.append(member);
    r
}

fn member_endpoints(scheme: &str, members: &Vec<String>) -> (r: Vec<String>)
    ensures
        views(r@) == views(members@).map_values(|m: Seq<char>| endpoint_of(scheme@, m)),
{
    let mut r: Vec<String> = Vec::new();
    let mut i: usize = 0;
    while i < members.len()
        invariant
            i <= members.len(),
            r.len() == i,
            forall|j: int| 0 <= j < i ==> (#[trigger] r@[j])@ == endpoint_of(scheme@, members@[j]@),
        decreases members.len() - i,
    {
        r.push(member_endpoint(scheme, &members[i]));
        i += 1;
    }
    proof {
        assert(views(r@) =~= views(members@).map_values(|m: Seq<char>| endpoint_of(scheme@, m)));
    }
    r
}

// The published subset.
/// The endpoints that sessions are held to, in the order of preference.
#[derive(Debug)]
pub struct CurrentSubset {
    pub endpoints: Vec<String>,
}

/// Nothing is published yet.
pub fn current_subset() -> (r: CurrentSubset)
    ensures
        r.endpoints@.len() == 0,
{
    CurrentSubset { endpoints: Vec::new() }
}

/// Publishes the endpoints that sessions are held to.
pub fn publish_subset(current: &mut CurrentSubset, endpoints: Vec<String>)
    ensures
        final(current).endpoints == endpoints,
{
    current.endpoints = endpoints;
}

/// The endpoint for one attempt of a request that needs a replica with a session. Attempts
/// go round the subset, so that a replica that died costs one of them. There is none while
/// the membership is unknown: the configured endpoint would be balanced to a replica without
/// a session.
pub fn endpoint_for_attempt(current: &CurrentSubset, attempt: usize) -> (r: Option<String>)
    ensures
        option_view(r) == (if current.endpoints@.len() == 0 {
            None
        } else {
            Some(current.endpoints@[attempt as int % current.endpoints@.len() as int]@)
        }),
{
    if current.endpoints.len() == 0 {
        return None;
    }
    Some(current.endpoints[attempt % current.endpoints.len()].clone())
}

// Modes.
/// How the gateway is reached.
#[derive(Debug, PartialEq, Eq)]
pub enum FleetPlan {
    /// Over the one configured endpoint.
    Single(String),
    /// Over the members of a fleet, with the scheme of the configured endpoint.
    Fleet { scheme: String, config: FleetConfig },
}

/// How the gateway is reached: over the configured endpoint alone, unless its scheme and
/// port can be used for the members of a fleet that is configured.
pub fn fleet_plan(
    configured: &str,
    dns_name: Option<&str>,
    subset_size: Option<&str>,
    refresh_secs: Option<&str>,
    drain_secs: Option<&str>,
) -> (r: FleetPlan)
    ensures
        match r {
            FleetPlan::Single(endpoint) => endpoint@ == configured@ && ((forall|
                scheme: Seq<char>,
                port: int,
            | !has_shape(configured@, scheme, port)) || dns_name is None || canonical_name(
                dns_name->0@,
            ).len() == 0),
            FleetPlan::Fleet { scheme, config } => {
                &&& dns_name is Some
                &&& config.dns_name@ == canonical_name(dns_name->0@)
                &&& config.dns_name@.len() > 0
                &&& has_shape(configured@, scheme@, config.port as int)
                &&& config.subset_size == value_or(
                    positive_setting(subset_size),
                    DEFAULT_SUBSET_SIZE as int,
                )
                &&& config.refresh == value_or(
                    positive_setting(refresh_secs),
                    DEFAULT_REFRESH as int,
                )
                &&& config.drain == value_or(
                    setting(drain_secs, u64::MAX as int),
                    DEFAULT_DRAIN as int,
                )
            },
        },
{
    match endpoint_shape(configured) {
        None => FleetPlan::Single(configured.to_owned()),
        Some((scheme, port)) => match FleetConfig::from_values(
            dns_name,
            subset_size,
            refresh_secs,
            drain_secs,
            port,
        ) {
            None => FleetPlan::Single(configured.to_owned()),
            Some(config) => FleetPlan::Fleet { scheme, config },
        },
    }
}

/// The members that a request is spread over: the subset, or all where that is empty.
pub open spec fn unary_pool(
    sandbox_id: Seq<char>,
    members: Seq<Seq<char>>,
    subset_size: int,
) -> Seq<Seq<char>> {
    let chosen = subset(sandbox_id, members, subset_size);
    if chosen.len() == 0 {
        members
    } else {
        chosen
    }
}

/// The endpoint for a request that is made before there is any session. None means that the
/// membership could not be had, and that the caller has to come back.
pub fn unary_endpoint(
    scheme: &str,
    sandbox_id: &str,
    resolved: &Result<Vec<String>, String>,
    subset_size: usize,
    attempt: usize,
) -> (r: Option<String>)
    ensures
        option_view(r) == (match *resolved {
            Ok(members) => if members@.len() == 0 {
                None
            } else {
                let pool = unary_pool(sandbox_id@, views(members@), subset_size as int);
                Some(endpoint_of(scheme@, pool[attempt as int % pool.len() as int]))
            },
            Err(e) => None,
        }),
{
    match resolved {
        Err(e) => None,
        Ok(members) => {
            if members.len() == 0 {
                return None;
            }
            let chosen = subset_for(sandbox_id, members.as_slice(), subset_size);
            proof {
                assert(views(chosen@) == subset(sandbox_id@, views(members@), subset_size as int));
            }
            if chosen.len() == 0 {
                Some(member_endpoint(scheme, &members[attempt % members.len()]))
            } else {
                Some(member_endpoint(scheme, &chosen[attempt % chosen.len()]))
            }
        },
    }
}

// Held sessions.
/// The clock of the held sessions counts nanoseconds.
pub const NANOS_PER_SEC: u128 = 1_000_000_000;

/// A session that is held to a member.
#[derive(Debug, PartialEq, Eq)]
pub struct HeldSession {
    /// When it is given up, in nanoseconds of a clock that never goes back: set once the
    /// member has left the subset.
    pub drop_at: Option<u128>,
}

impl View for HeldSession {
    type V = Option<u128>;

    open spec fn view(&self) -> Option<u128> {
        self.drop_at
    }
}

impl Plain for HeldSession {
    fn same(&self, other: &Self) -> (r: bool) {
        match (self.drop_at, other.drop_at) {
            (Some(a), Some(b)) => a == b,
            (None, None) => true,
            _ => false,
        }
    }

    fn duplicate(&self) -> (r: Self) {
        HeldSession { drop_at: self.drop_at }
    }
}

/// The held sessions by member, brought in line with a subset: its members are held without
/// an end; one that has just left it gets the deadline; one that left it before keeps its
/// own.
pub open spec fn reconciled(
    held: Map<Seq<char>, Option<u128>>,
    members: Seq<Seq<char>>,
    deadline: u128,
) -> Map<Seq<char>, Option<u128>> {
    Map::new(
        |m: Seq<char>| held.contains_key(m) || members.contains(m),
        |m: Seq<char>|
            if members.contains(m) {
                None
            } else if held[m] is None {
                Some(deadline)
            } else {
                held[m]
            },
    )
}

/// The members of a subset that no session is held to yet, in order, once each.
pub open spec fn arrivals(
    held: Map<Seq<char>, Option<u128>>,
    members: Seq<Seq<char>>,
) -> Seq<Seq<char>>
    decreases members.len(),
{
    if members.len() == 0 {
        Seq::empty()
    } else {
        let before = arrivals(held, members.drop_last());
        let m = members.last();
        if held.contains_key(m) || before.contains(m) {
            before
        } else {
            before.push(m)
        }
    }
}

/// The session is to be given up.
pub open spec fn is_drained(drop_at: Option<u128>, now: u128) -> bool {
    drop_at is Some && now >= drop_at->0
}

/// The held sessions without those whose time has come.
pub open spec fn undrained(held: Map<Seq<char>, Option<u128>>, now: u128) -> Map<
    Seq<char>,
    Option<u128>,
> {
    Map::new(
        |m: Seq<char>| held.contains_key(m) && !is_drained(held[m], now),
        |m: Seq<char>| held[m],
    )
}

pub proof fn lemma_arrivals(held: Map<Seq<char>, Option<u128>>, members: Seq<Seq<char>>)
    ensures
        forall|m: Seq<char>| #[trigger]
            arrivals(held, members).contains(m) <==> members.contains(m) && !held.contains_key(m),
    decreases members.len(),
{
    if members.len() > 0 {
        let rest = members.drop_last();
        lemma_arrivals(held, rest);
        assert(members =~= rest.push(members.last()));
        let before = arrivals(held, rest);
        assert forall|m: Seq<char>| #[trigger] arrivals(held, members).contains(m)
            <==> members.contains(m) && !held.contains_key(m) by {
            crate::order::lemma_push_members(rest, members.last(), m);
            crate::order::lemma_push_members(before, members.last(), m);
            assert(before.contains(m) <==> rest.contains(m) && !held.contains_key(m));
        }
    }
}

/// Brings the held sessions in line with a subset. Returns the members to connect to. The
/// deadline is `drain` nanoseconds from now, and is set only when a member is first found
/// absent: it measures how long the member has been absent without a break. A member that
/// returns keeps its session.
pub fn reconcile(
    members: &Vec<String>,
    drain: u128,
    now: u128,
    held: &mut StringMap<HeldSession>,
) -> (r: Vec<String>)
    requires
        now + drain <= u128::MAX,
    ensures
        final(held)@ == reconciled(old(held)@, views(members@), (now + drain) as u128),
        views(r@) == arrivals(old(held)@, views(members@)),
{
    let ghost before = held@;
    let ghost all = views(members@);
    let deadline: u128 = now + drain;
    let mut connect: Vec<String> = Vec::new();
    let mut i: usize = 0;
    proof {
        assert(all.take(0) =~= Seq::empty());
        assert(views(connect@) =~= Seq::empty());
    }
    while i < members.len()
        invariant
            before == old(held)@,
            held@ == before,
            all == views(members@),
            i <= members.len(),
            views(connect@) == arrivals(before, all.take(i as int)),
        decreases members.len() - i,
    {
        let ghost so_far = views(connect@);
        proof {
            assert(all.take(i as int + 1).drop_last() =~= all.take(i as int));
            assert(all.take(i as int + 1).last() == members@[i as int]@);
        }
        if !held.contains_key(&members[i]) && !list_contains(&connect, &members[i]) {
            connect.push(members[i].clone());
            proof {
                assert(views(connect@) =~= so_far.push(members@[i as int]@));
            }
        }
        i += 1;
    }
    proof {
        assert(all.take(all.len() as int) =~= all);
        lemma_arrivals(before, all);
    }
    let mut after: StringMap<HeldSession> = StringMap::new();
    let ghost target = reconciled(before, all, deadline);
    let n: usize = held.len();
    let ghost keys = held.keys();
    let mut j: usize = 0;
    while j < n
        invariant
            held@ == before,
            held.keys() == keys,
            all == views(members@),
            target == reconciled(before, all, deadline),
            n == keys.len(),
            j <= n,
            forall|k: Seq<char>| #[trigger]
                after@.contains_key(k) ==> before.contains_key(k) && after@[k] == target[k],
            forall|p: int| 0 <= p < j ==> after@.contains_key(#[trigger] keys[p]),
        decreases n - j,
    {
        let key = held.key_at(j);
        let old_drop: Option<u128> = held.value_at(j).drop_at;
        let drop_at: Option<u128> = if list_contains(members, key) {
            None
        } else {
            match old_drop {
                None => Some(deadline),
                Some(at) => Some(at),
            }
        };
        proof {
            assert(target[key@] == drop_at);
        }
        after.insert(key.clone(), HeldSession { drop_at });
        j += 1;
    }
    proof {
        assert forall|k: Seq<char>| #[trigger] before.contains_key(k) implies after@.contains_key(
            k,
        ) by {
            assert(keys.contains(k));
            let p = choose|p: int| 0 <= p < keys.len() && keys[p] == k;
            assert(keys[p] == k);
        }
    }
    let mut c: usize = 0;
    while c < connect.len()
        invariant
            c <= connect.len(),
            target == reconciled(before, all, deadline),
            views(connect@) == arrivals(before, all),
            forall|m: Seq<char>| #[trigger]
                arrivals(before, all).contains(m) <==> all.contains(m) && !before.contains_key(m),
            forall|k: Seq<char>| #[trigger]
                after@.contains_key(k) ==> target.contains_key(k) && after@[k] == target[k],
            forall|k: Seq<char>| #[trigger] before.contains_key(k) ==> after@.contains_key(k),
            forall|p: int| 0 <= p < c ==> after@.contains_key(#[trigger] views(connect@)[p]),
        decreases connect.len() - c,
    {
        proof {
            assert(views(connect@)[c as int] == connect@[c as int]@);
            assert(views(connect@).contains(connect@[c as int]@));
        }
        after.insert(connect[c].clone(), HeldSession { drop_at: None });
        c += 1;
    }
    proof {
        assert forall|k: Seq<char>| #[trigger] target.contains_key(k) implies after@.contains_key(
            k,
        ) by {
            if !before.contains_key(k) {
                assert(views(connect@).contains(k));
                let p = choose|p: int| 0 <= p < views(connect@).len() && views(connect@)[p] == k;
                assert(after@.contains_key(views(connect@)[p]));
            }
        }
        assert(after@ =~= target);
    }
    *held = after;
    connect
}

/// Gives up the sessions whose time has come. Returns their members.
pub fn reap_drained(now: u128, held: &mut StringMap<HeldSession>) -> (r: Vec<String>)
    ensures
        final(held)@ == undrained(old(held)@, now),
        forall|m: Seq<char>| #[trigger]
            views(r@).contains(m) <==> old(held)@.contains_key(m) && is_drained(
                old(held)@[m],
                now,
            ),
        views(r@).no_duplicates(),
{
    let ghost before = held@;
    let ghost target = undrained(before, now);
    let mut after: StringMap<HeldSession> = StringMap::new();
    let mut dropped: Vec<String> = Vec::new();
    let n: usize = held.len();
    let ghost keys = held.keys();
    let mut j: usize = 0;
    while j < n
        invariant
            held@ == before,
            held.keys() == keys,
            target == undrained(before, now),
            n == keys.len(),
            crate::order::ascending(keys, crate::string_map::key_order()),
            j <= n,
            forall|k: Seq<char>| #[trigger]
                after@.contains_key(k) ==> target.contains_key(k) && after@[k] == target[k],
            forall|p: int|
                0 <= p < j && target.contains_key(#[trigger] keys[p]) ==> after@.contains_key(
                    keys[p],
                ),
            forall|m: Seq<char>| #[trigger]
                views(dropped@).contains(m) ==> before.contains_key(m) && is_drained(
                    before[m],
                    now,
                ) && keys.take(j as int).contains(m),
            forall|p: int|
                0 <= p < j && is_drained(before[#[trigger] keys[p]], now) ==> views(
                    dropped@,
                ).contains(keys[p]),
            views(dropped@).no_duplicates(),
        decreases n - j,
    {
        let key = held.key_at(j);
        let drop_at: Option<u128> = held.value_at(j).drop_at;
        let expired = match drop_at {
            Some(at) => now >= at,
            None => false,
        };
        let ghost so_far = views(dropped@);
        proof {
            assert(keys.take(j as int + 1) =~= keys.take(j as int).push(key@));
            assert forall|m: Seq<char>| #[trigger] keys.take(j as int + 1).contains(m) <==> (
            keys.take(j as int).contains(m) || m == key@) by {
                crate::order::lemma_push_members(keys.take(j as int), key@, m);
            }
            if keys.take(j as int).contains(key@) {
                let p = choose|p: int| 0 <= p < j && keys[p] == key@;
                assert(crate::string_map::key_order()(keys[p], keys[j as int]));
                crate::text::lemma_precedes_irreflexive(key@);
            }
            assert(!so_far.contains(key@));
        }
        if expired {
            dropped.push(key.clone());
            proof {
                assert(views(dropped@) =~= so_far.push(key@));
                assert forall|m: Seq<char>| #[trigger] views(dropped@).contains(m) <==> (
                so_far.contains(m) || m == key@) by {
                    crate::order::lemma_push_members(so_far, key@, m);
                }
                assert forall|a: int, b: int|
                    0 <= a < b < views(dropped@).len() implies views(dropped@)[a] != views(
                    dropped@,
                )[b] by {
                    if b == so_far.len() {
                        assert(so_far.contains(so_far[a]));
                    } else {
                        assert(so_far[a] != so_far[b]);
                    }
                }
            }
        } else {
            after.insert(key.clone(), HeldSession { drop_at });
        }
        j += 1;
    }
    proof {
        assert forall|k: Seq<char>| #[trigger] before.contains_key(k) implies (target.contains_key(
            k,
        ) ==> after@.contains_key(k)) && (is_drained(before[k], now) ==> views(dropped@).contains(
            k,
        )) by {
            assert(keys.contains(k));
            let p = choose|p: int| 0 <= p < keys.len() && keys[p] == k;
            assert(keys[p] == k);
        }
        assert forall|k: Seq<char>| #[trigger] target.contains_key(k) implies after@.contains_key(
            k,
        ) by {
            assert(before.contains_key(k));
        }
        assert(after@ =~= target);
    }
    *held = after;
    dropped
}

// Rounds.
/// What one round of looking at the membership comes to.
#[derive(Debug, PartialEq, Eq)]
pub struct Round {
    /// The members to connect to.
    pub connect: Vec<String>,
    /// The members whose sessions to end.
    pub dropped: Vec<String>,
    /// Seconds until the next round.
    pub wait: u64,
}

/// The subset that a round acts on: none where the membership could not be had or is empty.
pub open spec fn round_subset(
    resolved: Result<Vec<String>, String>,
    sandbox_id: Seq<char>,
    subset_size: int,
) -> Option<Seq<Seq<char>>> {
    match resolved {
        Ok(members) => if members@.len() > 0 {
            Some(subset(sandbox_id, views(members@), subset_size))
        } else {
            None
        },
        Err(e) => None,
    }
}

/// The held sessions after a round.
pub open spec fn round_held(
    held: Map<Seq<char>, Option<u128>>,
    chosen: Option<Seq<Seq<char>>>,
    drain: int,
    now: u128,
    reap_at: u128,
) -> Map<Seq<char>, Option<u128>> {
    match chosen {
        Some(members) => undrained(reconciled(held, members, (now + drain) as u128), reap_at),
        None => undrained(held, reap_at),
    }
}

/// Carries out a round: acts on the membership that was resolved at `now`, and gives up what
/// is drained at `reap_at`. Without a membership the sessions stay, and so does the published
/// subset: they tell of replicas that the answer does not have.
pub fn run_round(
    resolved: &Result<Vec<String>, String>,
    fleet: &FleetConfig,
    scheme: &str,
    sandbox_id: &str,
    now: u128,
    reap_at: u128,
    held: &mut StringMap<HeldSession>,
    current: &mut CurrentSubset,
) -> (r: Round)
    requires
        round_subset(*resolved, sandbox_id@, fleet.subset_size as int) is Some ==> now + fleet.drain
            * NANOS_PER_SEC <= u128::MAX,
    ensures
        ({
            let chosen = round_subset(*resolved, sandbox_id@, fleet.subset_size as int);
            let reconciled_held = match chosen {
                Some(members) => reconciled(
                    old(held)@,
                    members,
                    (now + fleet.drain * NANOS_PER_SEC) as u128,
                ),
                None => old(held)@,
            };
            &&& final(held)@ == round_held(
                old(held)@,
                chosen,
                fleet.drain * NANOS_PER_SEC,
                now,
                reap_at,
            )
            &&& forall|m: Seq<char>| #[trigger]
                views(r.dropped@).contains(m) <==> reconciled_held.contains_key(m) && is_drained(
                    reconciled_held[m],
                    reap_at,
                )
            &&& views(r.dropped@).no_duplicates()
            &&& match chosen {
                Some(members) => {
                    &&& views(r.connect@) == arrivals(old(held)@, members)
                    &&& views(final(current).endpoints@) == members.map_values(
                        |m: Seq<char>| endpoint_of(scheme@, m),
                    )
                    &&& r.wait == fleet.refresh
                },
                None => {
                    &&& r.connect@.len() == 0
                    &&& final(current).endpoints == old(current).endpoints
                    &&& r.wait == RESOLVE_RETRY
                },
            }
        }),
{
    let mut connect: Vec<String> = Vec::new();
    let mut wait: u64 = RESOLVE_RETRY;
    match resolved {
        Ok(members) => {
            if members.len() > 0 {
                let chosen = subset_for(sandbox_id, members.as_slice(), fleet.subset_size);
                proof {
                    assert(views(chosen@) == subset(
                        sandbox_id@,
                        views(members@),
                        fleet.subset_size as int,
                    ));
                }
                connect = reconcile(&chosen, fleet.drain as u128 * NANOS_PER_SEC, now, held);
                publish_subset(current, member_endpoints(scheme, &chosen));
                wait = fleet.refresh;
            }
        },
        Err(e) => {},
    }
    let dropped = reap_drained(reap_at, held);
    Round { connect, dropped, wait }
}

/// One round as it happened: the subset it acted on, when, and when drained sessions were
/// given up.
pub struct RoundView {
    pub chosen: Option<Seq<Seq<char>>>,
    pub now: u128,
    pub reap_at: u128,
}

/// The held sessions after rounds that started with none.
pub open spec fn held_after(rounds: Seq<RoundView>, drain: int) -> Map<Seq<char>, Option<u128>>
    decreases rounds.len(),
{
    if rounds.len() == 0 {
        Map::empty()
    } else {
        let last = rounds.last();
        round_held(
            held_after(rounds.drop_last(), drain),
            last.chosen,
            drain,
            last.now,
            last.reap_at,
        )
    }
}

/// Time never goes back, in a round and from one to the next, and does not run out within
/// a drain window.
pub open spec fn in_time(rounds: Seq<RoundView>, drain: int) -> bool {
    &&& drain >= 0
    &&& forall|i: int|
        0 <= i < rounds.len() ==> (#[trigger] rounds[i]).now <= rounds[i].reap_at && rounds[i].now
            + drain <= u128::MAX
    &&& forall|i: int, j: int|
        0 <= i < j < rounds.len() ==> (#[trigger] rounds[i]).reap_at <= (#[trigger] rounds[j]).now
}

/// What is held covers every subset computed within the drain window, however often the
/// membership changed in between: a member of such a subset is held.
pub proof fn law_recent_subsets_are_held(
    rounds: Seq<RoundView>,
    drain: int,
    i: int,
    member: Seq<char>,
)
    requires
        in_time(rounds, drain),
        0 <= i < rounds.len(),
        rounds[i].chosen is Some,
        rounds[i].chosen->0.contains(member),
        rounds.last().reap_at < rounds[i].now + drain,
    ensures
        held_after(rounds, drain).contains_key(member),
        held_after(rounds, drain)[member] is Some ==> held_after(rounds, drain)[member]->0
            >= rounds[i].now + drain,
    decreases rounds.len(),
{
    let before = rounds.drop_last();
    let last = rounds.last();
    if i < before.len() {
        assert(before[i] == rounds[i]);
        assert(before.last() == rounds[rounds.len() - 2]);
        assert(rounds[rounds.len() - 2].reap_at <= rounds[rounds.len() - 1].now);
        assert(rounds[rounds.len() - 1].now <= rounds[rounds.len() - 1].reap_at);
        assert(rounds[i].reap_at <= rounds[rounds.len() - 1].now);
        assert(in_time(before, drain)) by {
            assert forall|a: int| 0 <= a < before.len() implies (#[trigger] before[a]).now
                <= before[a].reap_at && before[a].now + drain <= u128::MAX by {
                assert(before[a] == rounds[a]);
            }
            assert forall|a: int, b: int| 0 <= a < b < before.len() implies (
            #[trigger] before[a]).reap_at <= (#[trigger] before[b]).now by {
                assert(before[a] == rounds[a]);
                assert(before[b] == rounds[b]);
            }
        }
        law_recent_subsets_are_held(before, drain, i, member);
    }
}

/// Nothing is held for ever: a member that is absent from every subset for a drain window
/// is given up.
pub proof fn law_absent_members_are_given_up(
    rounds: Seq<RoundView>,
    drain: int,
    i: int,
    member: Seq<char>,
)
    requires
        in_time(rounds, drain),
        0 <= i < rounds.len(),
        rounds[i].chosen is Some,
        forall|j: int|
            i <= j < rounds.len() && (#[trigger] rounds[j]).chosen is Some
                ==> !rounds[j].chosen->0.contains(member),
    ensures
        held_after(rounds, drain).contains_key(member) ==> held_after(rounds, drain)[member] is Some
            && held_after(rounds, drain)[member]->0 <= rounds[i].now + drain,
        rounds.last().reap_at >= rounds[i].now + drain ==> !held_after(
            rounds,
            drain,
        ).contains_key(member),
    decreases rounds.len(),
{
    let before = rounds.drop_last();
    if i < before.len() {
        assert forall|j: int|
            i <= j < before.len() && (#[trigger] before[j]).chosen is Some implies
            !before[j].chosen->0.contains(member) by {
            assert(before[j] == rounds[j]);
        }
        assert(in_time(before, drain)) by {
            assert forall|a: int| 0 <= a < before.len() implies (#[trigger] before[a]).now
                <= before[a].reap_at && before[a].now + drain <= u128::MAX by {
                assert(before[a] == rounds[a]);
            }
            assert forall|a: int, b: int| 0 <= a < b < before.len() implies (
            #[trigger] before[a]).reap_at <= (#[trigger] before[b]).now by {
                assert(before[a] == rounds[a]);
                assert(before[b] == rounds[b]);
            }
        }
        law_absent_members_are_given_up(before, drain, i, member);
        assert(rounds[rounds.len() - 1] == rounds.last());
    } else {
        let last = rounds.last();
        assert(rounds[i] == last);
        lemma_deadlines_are_in_the_past(before, drain);
        assert(before.len() > 0 ==> rounds[rounds.len() - 2].reap_at <= rounds[rounds.len()
            - 1].now);
    }
}

/// Every deadline was set in some round, so it lies no more than a drain window after the
/// last.
proof fn lemma_deadlines_are_in_the_past(rounds: Seq<RoundView>, drain: int)
    requires
        forall|i: int, j: int|
            0 <= i < j < rounds.len() ==> (#[trigger] rounds[i]).now <= (#[trigger] rounds[j]).now,
        forall|i: int| 0 <= i < rounds.len() ==> (#[trigger] rounds[i]).now + drain <= u128::MAX,
        drain >= 0,
    ensures
        forall|m: Seq<char>| #[trigger]
            held_after(rounds, drain).contains_key(m) && held_after(rounds, drain)[m] is Some
                ==> held_after(rounds, drain)[m]->0 <= rounds.last().now + drain,
    decreases rounds.len(),
{
    if rounds.len() > 0 {
        let before = rounds.drop_last();
        assert forall|i: int, j: int| 0 <= i < j < before.len() implies (#[trigger] before[i]).now
            <= (#[trigger] before[j]).now by {
            assert(before[i] == rounds[i]);
            assert(before[j] == rounds[j]);
        }
        assert forall|i: int| 0 <= i < before.len() implies (#[trigger] before[i]).now + drain
            <= u128::MAX by {
            assert(before[i] == rounds[i]);
        }
        lemma_deadlines_are_in_the_past(before, drain);
        if before.len() > 0 {
            assert(rounds[rounds.len() - 2].now <= rounds[rounds.len() - 1].now);
        }
        assert(rounds[rounds.len() - 1] == rounds.last());
    }
}

/// A round without a membership gives up nothing but what was drained anyway, and connects
/// to nothing.
pub proof fn law_ignorance_changes_nothing(
    held: Map<Seq<char>, Option<u128>>,
    drain: int,
    now: u128,
    reap_at: u128,
    member: Seq<char>,
)
    ensures
        ({
            let after = round_held(held, None, drain, now, reap_at);
            &&& after.contains_key(member) <==> held.contains_key(member) && !is_drained(
                held[member],
                reap_at,
            )
            &&& after.contains_key(member) ==> after[member] == held[member]
        }),
{
}

/// A member that leaves and returns before it is given up keeps its session: it is not
/// connected to anew, and has no end.
pub proof fn law_returning_member_keeps_its_session(
    held: Map<Seq<char>, Option<u128>>,
    members: Seq<Seq<char>>,
    deadline: u128,
    member: Seq<char>,
)
    requires
        held.contains_key(member),
        members.contains(member),
    ensures
        reconciled(held, members, deadline)[member] is None,
        !arrivals(held, members).contains(member),
{
    lemma_arrivals(held, members);
}

} // verus!
