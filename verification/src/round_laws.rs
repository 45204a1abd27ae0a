//! What holds of the endpoints of a fleet, and of the sessions that are held to it.
use vstd::prelude::*;

use crate::gateway_fleet::subset;
use crate::supervisor_fleet::{
    arrivals, authority, authority_length, endpoint_of, first_separator, has_shape, is_drained,
    last_colon, reconciled, round_held, round_subset, separator_at, unary_pool, undrained,
};
use crate::text::parsed_unsigned;
use crate::values::views;

verus! {

// Endpoints.
proof fn lemma_authority(s: Seq<char>)
    ensures
        0 <= authority_length(s) <= s.len(),
        forall|i: int| 0 <= i < authority_length(s) ==> #[trigger] s[i] != '/',
        authority_length(s) < s.len() ==> s[authority_length(s)] == '/',
    decreases s.len(),
{
    if s.len() > 0 && s[0] != '/' {
        let rest = s.skip(1);
        lemma_authority(rest);
        assert forall|i: int| 0 <= i < authority_length(s) implies #[trigger] s[i] != '/' by {
            if i > 0 {
                assert(rest[i - 1] == s[i]);
            }
        }
    }
}

/// An endpoint that is written as scheme, separator, host, colon, port and path has that scheme
/// and that port. The host may have colons; the port may not, nor may it have slashes.
pub proof fn law_written_endpoints_have_their_shape(
    scheme: Seq<char>,
    host: Seq<char>,
    port_text: Seq<char>,
    path: Seq<char>,
    port: int,
)
    requires
        !scheme.contains(':'),
        !host.contains('/'),
        parsed_unsigned(port_text, u16::MAX as int) == Some(port),
        path.len() > 0 ==> path[0] == '/',
    ensures
        has_shape(scheme + "://"@ + host + ":"@ + port_text + path, scheme, port),
{
    reveal_strlit("://");
    reveal_strlit(":");
    let s = scheme + "://"@ + host + ":"@ + port_text + path;
    let at = scheme.len() as int;
    let named = host + ":"@ + port_text;
    let rest = s.skip(at + 3);
    assert(s[at] == ':' && s[at + 1] == '/' && s[at + 2] == '/');
    assert forall|j: int| 0 <= j < at implies !separator_at(s, j) by {
        assert(s[j] == scheme[j]);
        assert(scheme.contains(scheme[j]));
    }
    assert(first_separator(s, at));
    assert(rest =~= named + path);
    assert forall|i: int| 0 <= i < port_text.len() implies '0' <= #[trigger] port_text[i]
        && port_text[i] <= '9' || port_text[i] == '+' by {
        crate::text_laws::law_only_digits_write_numbers(port_text, u16::MAX as int, i);
    }
    assert forall|i: int| 0 <= i < named.len() implies #[trigger] named[i] != '/' by {
        if i < host.len() {
            assert(host.contains(host[i]));
        } else if i > host.len() {
            assert(named[i] == port_text[i - host.len() - 1]);
        }
    }
    lemma_authority(rest);
    let n = authority_length(rest);
    if n < named.len() {
        assert(rest[n] == named[n]);
    }
    if n > named.len() {
        assert(rest[named.len() as int] == path[0]);
    }
    assert(authority(s, at) =~= named);
    let colon = host.len() as int;
    assert forall|j: int| colon < j < named.len() implies named[j] != ':' by {
        assert(named[j] == port_text[j - colon - 1]);
    }
    assert(last_colon(authority(s, at), colon));
    assert(named.skip(colon + 1) =~= port_text);
    assert(s.take(at) =~= scheme);
}

/// An endpoint without a scheme has no shape, nor has one without a port.
pub proof fn law_endpoints_need_scheme_and_port(
    endpoint: Seq<char>,
    scheme: Seq<char>,
    port: int,
)
    requires
        has_shape(endpoint, scheme, port),
    ensures
        0 <= port <= u16::MAX,
        (scheme + "://"@).is_prefix_of(endpoint),
        endpoint.skip(scheme.len() as int + 3).contains(':'),
{
    reveal_strlit("://");
    let (at, colon) = choose|at: int, colon: int|
        {
            &&& #[trigger] first_separator(endpoint, at)
            &&& #[trigger] last_colon(authority(endpoint, at), colon)
            &&& scheme == endpoint.take(at)
            &&& parsed_unsigned(authority(endpoint, at).skip(colon + 1), u16::MAX as int) == Some(
                port,
            )
        };
    crate::text_laws::law_only_digits_write_numbers(
        authority(endpoint, at).skip(colon + 1),
        u16::MAX as int,
        0,
    );
    let head = scheme + "://"@;
    assert(endpoint.subrange(0, head.len() as int) =~= head);
    let rest = endpoint.skip(at + 3);
    lemma_authority(rest);
    assert(rest[colon] == authority(endpoint, at)[colon]);
}

/// The endpoint of a member is the scheme, the separator and the member: different members have
/// different endpoints.
pub proof fn law_members_have_their_endpoints(scheme: Seq<char>, a: Seq<char>, b: Seq<char>)
    ensures
        endpoint_of(scheme, a) == endpoint_of(scheme, b) ==> a == b,
        (scheme + "://"@).is_prefix_of(endpoint_of(scheme, a)),
        a.is_suffix_of(endpoint_of(scheme, a)),
{
    let head = scheme + "://"@;
    let (x, y) = (endpoint_of(scheme, a), endpoint_of(scheme, b));
    assert(x.skip(head.len() as int) =~= a);
    assert(y.skip(head.len() as int) =~= b);
    assert(x.subrange(0, head.len() as int) =~= head);
    assert(x.subrange(x.len() - a.len(), x.len() as int) =~= a);
}

/// A request before any session goes to a member, and to one of the subset where that has any.
pub proof fn law_early_requests_go_to_members(
    sandbox_id: Seq<char>,
    members: Seq<Seq<char>>,
    subset_size: int,
    i: int,
)
    requires
        members.len() > 0,
        subset_size >= 0,
        0 <= i < unary_pool(sandbox_id, members, subset_size).len(),
    ensures
        unary_pool(sandbox_id, members, subset_size).len() > 0,
        members.contains(unary_pool(sandbox_id, members, subset_size)[i]),
        subset_size > 0 ==> unary_pool(sandbox_id, members, subset_size) == subset(
            sandbox_id,
            members,
            subset_size,
        ),
        subset_size == 0 ==> unary_pool(sandbox_id, members, subset_size) == members,
{
    crate::gateway_fleet::law_subset_is_drawn_from_the_members(
        sandbox_id,
        members,
        subset_size,
        i,
    );
}

// Held sessions.
/// Bringing the sessions in line with a subset holds all that were held and all of the subset.
/// A member of the subset has no end; one that is not, and had none, ends at the deadline; one
/// that had an end keeps it.
pub proof fn law_departed_members_get_one_deadline(
    held: Map<Seq<char>, Option<u128>>,
    members: Seq<Seq<char>>,
    deadline: u128,
    member: Seq<char>,
)
    ensures
        ({
            let after = reconciled(held, members, deadline);
            &&& after.contains_key(member) <==> held.contains_key(member) || members.contains(
                member,
            )
            &&& members.contains(member) ==> after[member] is None
            &&& !members.contains(member) && held.contains_key(member) && held[member] is None
                ==> after[member] == Some(deadline)
            &&& !members.contains(member) && held.contains_key(member) && held[member] is Some
                ==> after[member] == held[member]
        }),
{
}

/// The members to connect to are those of the subset that no session is held to, each once, in
/// the order of the subset.
pub proof fn law_new_members_are_connected_to_once(
    held: Map<Seq<char>, Option<u128>>,
    members: Seq<Seq<char>>,
)
    ensures
        forall|m: Seq<char>| #[trigger]
            arrivals(held, members).contains(m) <==> members.contains(m) && !held.contains_key(m),
        arrivals(held, members).no_duplicates(),
        members.no_duplicates() && (forall|m: Seq<char>| #[trigger]
            members.contains(m) ==> !held.contains_key(m)) ==> arrivals(held, members) == members,
    decreases members.len(),
{
    if members.len() > 0 {
        let rest = members.drop_last();
        let last = members.last();
        law_new_members_are_connected_to_once(held, rest);
        crate::supervisor_fleet::lemma_arrivals(held, members);
        let before = arrivals(held, rest);
        assert(members.contains(last));
        if members.no_duplicates() {
            assert(rest.no_duplicates());
            if rest.contains(last) {
                let i = choose|i: int| 0 <= i < rest.len() && rest[i] == last;
                assert(members[i] == members[members.len() - 1]);
            }
            if forall|m: Seq<char>| #[trigger] members.contains(m) ==> !held.contains_key(m) {
                assert forall|m: Seq<char>| #[trigger] rest.contains(m) implies !held.contains_key(
                    m,
                ) by {
                    let i = choose|i: int| 0 <= i < rest.len() && rest[i] == m;
                    assert(members[i] == m);
                    assert(members.contains(m));
                }
                assert(arrivals(held, members) =~= members);
            }
        }
    } else {
        crate::supervisor_fleet::lemma_arrivals(held, members);
        assert(arrivals(held, members) =~= members);
    }
}

/// A session is given up exactly if it has an end that has come; the others stay as they are.
pub proof fn law_sessions_are_held_until_their_end(
    held: Map<Seq<char>, Option<u128>>,
    now: u128,
    member: Seq<char>,
)
    ensures
        is_drained(held[member], now) <==> held[member] is Some && held[member]->0 <= now,
        undrained(held, now).contains_key(member) <==> held.contains_key(member) && (held[member]
            is None || held[member]->0 > now),
        undrained(held, now).contains_key(member) ==> undrained(held, now)[member] == held[member],
{
}

/// A round acts on the subset of the members that were resolved, and on none where they could
/// not be or there are none. It holds the whole subset afterwards.
pub proof fn law_rounds_hold_the_subset(
    resolved: Result<Vec<String>, String>,
    sandbox_id: Seq<char>,
    subset_size: int,
    held: Map<Seq<char>, Option<u128>>,
    drain: int,
    now: u128,
    reap_at: u128,
    member: Seq<char>,
)
    ensures
        ({
            let chosen = round_subset(resolved, sandbox_id, subset_size);
            let after = round_held(held, chosen, drain, now, reap_at);
            &&& chosen is Some <==> resolved is Ok && resolved->Ok_0@.len() > 0
            &&& chosen is Some ==> chosen->0 == subset(
                sandbox_id,
                views(resolved->Ok_0@),
                subset_size,
            )
            &&& chosen is Some && chosen->0.contains(member) ==> after.contains_key(member)
                && after[member] is None
            &&& after.contains_key(member) ==> held.contains_key(member) || (chosen is Some
                && chosen->0.contains(member))
        }),
{
}

} // verus!
