//! Gateway connections whose supervisor session is established.
//!
//! A gateway is in here because it accepted a session, not because DNS named it. Work that
//! needs some gateway borrows one of these. Nothing here ranks: every established gateway
//! answers alike, so the policy is "any of them, and on failure the next one", and the
//! rotation only spreads the load.
use vstd::prelude::*;
use vstd::string::*;

use crate::string_map::StringMap;
use crate::text::precedes;
use crate::values::{option_view, views, Plain};

verus! {

/// One gateway that a session is held to.
#[derive(Debug, PartialEq, Eq)]
pub struct GatewayChannel {
    pub endpoint: String,
    /// The connection, by the number that its owner knows it by.
    pub connection: u64,
}

/// What [`GatewayChannel`] stands for.
#[verifier::ext_equal]
pub struct GatewayChannelView {
    pub endpoint: Seq<char>,
    pub connection: u64,
}

impl View for GatewayChannel {
    type V = GatewayChannelView;

    open spec fn view(&self) -> GatewayChannelView {
        GatewayChannelView { endpoint: self.endpoint@, connection: self.connection }
    }
}

impl Plain for GatewayChannel {
    fn same(&self, other: &Self) -> (r: bool) {
        self.endpoint.same(&other.endpoint) && self.connection == other.connection
    }

    fn duplicate(&self) -> (r: Self) {
        GatewayChannel { endpoint: self.endpoint.clone(), connection: self.connection }
    }
}

impl Clone for GatewayChannel {
    fn clone(&self) -> (r: Self)
        ensures
            r@ == self@,
    {
        self.duplicate()
    }
}

/// The established channels by endpoint, and where the next borrower starts.
#[derive(Debug)]
pub struct LiveChannels {
    live: StringMap<GatewayChannel>,
    next_start: usize,
}

/// Every channel is filed under its endpoint.
pub open spec fn well_filed(live: Map<Seq<char>, GatewayChannelView>) -> bool {
    forall|k: Seq<char>| #[trigger] live.contains_key(k) ==> live[k].endpoint == k
}

impl LiveChannels {
    #[verifier::type_invariant]
    spec fn filed(&self) -> bool {
        well_filed(self.live@)
    }

    /// The established channels by endpoint.
    pub closed spec fn live(&self) -> Map<Seq<char>, GatewayChannelView> {
        self.live@
    }

    /// Where the next borrower starts.
    pub closed spec fn cursor(&self) -> usize {
        self.next_start
    }

    /// No session is established.
    pub fn new() -> (r: Self)
        ensures
            r.live() == Map::<Seq<char>, GatewayChannelView>::empty(),
            r.cursor() == 0,
    {
        LiveChannels { live: StringMap::new(), next_start: 0 }
    }
}

/// Publishes a channel whose session was accepted.
pub fn register(channels: &mut LiveChannels, channel: GatewayChannel)
    ensures
        final(channels).live() == old(channels).live().insert(channel@.endpoint, channel@),
        final(channels).cursor() == old(channels).cursor(),
{
    proof {
        use_type_invariant(&*channels);
    }
    let mut live: StringMap<GatewayChannel> = StringMap::new();
    core::mem::swap(&mut live, &mut channels.live);
    live.insert(channel.endpoint.clone(), channel);
    *channels = LiveChannels { live, next_start: channels.next_start };
}

/// Withdraws a channel whose session has ended, for whatever reason. Returns it, if there
/// was one.
pub fn withdraw(channels: &mut LiveChannels, endpoint: &str) -> (r: Option<GatewayChannel>)
    ensures
        final(channels).live() == old(channels).live().remove(endpoint@),
        final(channels).cursor() == old(channels).cursor(),
        option_view(r) == (if old(channels).live().contains_key(endpoint@) {
            Some(old(channels).live()[endpoint@])
        } else {
            None
        }),
{
    proof {
        use_type_invariant(&*channels);
    }
    let mut live: StringMap<GatewayChannel> = StringMap::new();
    core::mem::swap(&mut live, &mut channels.live);
    let withdrawn = live.remove(endpoint);
    *channels = LiveChannels { live, next_start: channels.next_start };
    withdrawn
}

/// The items from a position on, followed by those before it.
pub open spec fn rotated<A>(s: Seq<A>, start: int) -> Seq<A> {
    s.skip(start) + s.take(start)
}

/// The channels in the order of their endpoints.
pub open spec fn by_endpoint(
    channels: Seq<GatewayChannelView>,
    live: Map<Seq<char>, GatewayChannelView>,
) -> bool {
    &&& forall|i: int, j: int|
        0 <= i < j < channels.len() ==> precedes(
            (#[trigger] channels[i]).endpoint,
            (#[trigger] channels[j]).endpoint,
        )
    &&& forall|i: int|
        0 <= i < channels.len() ==> live.contains_key((#[trigger] channels[i]).endpoint)
            && live[channels[i].endpoint] == channels[i]
    &&& forall|k: Seq<char>| #[trigger]
        live.contains_key(k) ==> exists|i: int|
            0 <= i < channels.len() && (#[trigger] channels[i]).endpoint == k
}

/// Every gateway with an established session. Ordered by endpoint, the list starts at
/// another one each time. It is empty before the first session and when the whole fleet is
/// out, which is the borrower's cue to come back.
pub fn established(channels: &mut LiveChannels) -> (r: Vec<GatewayChannel>)
    ensures
        final(channels).live() == old(channels).live(),
        exists|sorted: Seq<GatewayChannelView>|
            by_endpoint(sorted, old(channels).live()) && views(r@) == rotated(
                sorted,
                if sorted.len() == 0 {
                    0
                } else {
                    old(channels).cursor() as int % sorted.len() as int
                },
            ) && final(channels).cursor() == next_cursor(
                old(channels).cursor(),
                sorted.len() as int,
            ),
{
    proof {
        use_type_invariant(&*channels);
    }
    let ghost live = channels.live@;
    let n: usize = channels.live.len();
    let ghost keys = channels.live.keys();
    let mut list: Vec<GatewayChannel> = Vec::new();
    let mut i: usize = 0;
    while i < n
        invariant
            channels.live@ == live,
            channels.live.keys() == keys,
            channels.next_start == old(channels).next_start,
            n == keys.len(),
            i <= n,
            list.len() == i,
            forall|j: int| 0 <= j < i ==> (#[trigger] list@[j])@ == live[keys[j]],
        decreases n - i,
    {
        list.push(channels.live.value_at(i).duplicate());
        i += 1;
    }
    let ghost sorted = views(list@);
    proof {
        assert forall|i: int| 0 <= i < sorted.len() implies live.contains_key(
            #[trigger] sorted[i].endpoint,
        ) && live[sorted[i].endpoint] == sorted[i] && sorted[i].endpoint == keys[i] by {
            assert(live.contains_key(keys[i]));
            assert(sorted[i] == list@[i]@);
        }
        assert forall|k: Seq<char>| #[trigger] live.contains_key(k) implies exists|i: int|
            0 <= i < sorted.len() && (#[trigger] sorted[i]).endpoint == k by {
            assert(keys.contains(k));
            let i = choose|i: int| 0 <= i < keys.len() && keys[i] == k;
            assert(sorted[i].endpoint == k);
        }
        assert forall|i: int, j: int| 0 <= i < j < sorted.len() implies precedes(
            (#[trigger] sorted[i]).endpoint,
            (#[trigger] sorted[j]).endpoint,
        ) by {
            assert(crate::string_map::key_order()(keys[i], keys[j]));
        }
        assert(by_endpoint(sorted, live));
    }
    let mut next_start: usize = channels.next_start;
    rotate_for_spread(&mut next_start, &mut list);
    channels.next_start = next_start;
    proof {
        assert(views(list@) =~= rotated(
            sorted,
            if sorted.len() == 0 {
                0
            } else {
                old(channels).next_start as int % sorted.len() as int
            },
        ));
    }
    list
}

/// Where the borrower after this one starts: the count wraps around.
pub open spec fn next_cursor(cursor: usize, items: int) -> usize {
    if items == 0 {
        cursor
    } else if cursor == usize::MAX {
        0
    } else {
        (cursor + 1) as usize
    }
}

/// Moves the cursor on and lets the items start at it. The items must come in a fixed
/// order, or there is nothing to rotate.
pub fn rotate_for_spread<T>(next_start: &mut usize, items: &mut Vec<T>)
    ensures
        *final(next_start) == next_cursor(*old(next_start), old(items)@.len() as int),
        final(items)@ == (if old(items)@.len() == 0 {
            old(items)@
        } else {
            rotated(old(items)@, *old(next_start) as int % old(items)@.len() as int)
        }),
{
    if items.len() == 0 {
        return;
    }
    let start: usize = *next_start % items.len();
    *next_start = if *next_start == usize::MAX {
        0
    } else {
        *next_start + 1
    };
    let mut tail = items.split_off(start);
    tail.append(items);
    proof {
        assert(tail@ =~= rotated(old(items)@, start as int));
    }
    *items = tail;
}

/// Borrowers in a row start at members in a row: as many of them as there are members
/// start at different ones, up to where the cursor wraps around.
pub proof fn law_consecutive_borrows_spread(cursor: int, i: int, j: int, items: int)
    requires
        0 <= cursor,
        0 <= i < j < items,
    ensures
        (cursor + i) % items != (cursor + j) % items,
{
    let a = cursor + i;
    let b = cursor + j;
    vstd::arithmetic::div_mod::lemma_fundamental_div_mod(a, items);
    vstd::arithmetic::div_mod::lemma_fundamental_div_mod(b, items);
    if a % items == b % items {
        let q = b / items - a / items;
        assert(b - a == items * q) by (nonlinear_arith)
            requires
                a == items * (a / items) + a % items,
                b == items * (b / items) + b % items,
                a % items == b % items,
                q == b / items - a / items,
        ;
        assert(false) by (nonlinear_arith)
            requires
                b - a == items * q,
                0 < b - a < items,
        ;
    }
}

// Asking one gateway after another.
/// What to do next about an operation that some gateway has to answer.
#[derive(Debug, PartialEq, Eq)]
pub enum AttemptStep {
    /// Ask the candidate at this position.
    Ask(usize),
    /// Nothing was asked: no session is established, so come back.
    NoSession(String),
    /// Every candidate failed; this is the last error.
    GiveUp(String),
}

/// What happened so far to an operation that some gateway has to answer.
#[derive(Debug)]
pub struct Attempts {
    pub candidates: usize,
    pub tried: usize,
}

/// The step that follows when so many of the candidates were tried.
pub open spec fn attempt_step(
    op_name: Seq<char>,
    candidates: int,
    tried: int,
    last_error: Seq<char>,
    step: AttemptStep,
) -> bool {
    if candidates == 0 {
        step is NoSession && step->NoSession_0@ == op_name
            + ": no gateway session is established yet"@
    } else if tried < candidates {
        step == AttemptStep::Ask(tried as usize)
    } else {
        step is GiveUp && step->GiveUp_0@ == last_error
    }
}

impl Attempts {
    /// Starts with the first candidate. Having none is an error of its own: nothing was
    /// tried, so nothing was learned.
    pub fn begin(op_name: &str, candidates: usize) -> (r: (Attempts, AttemptStep))
        ensures
            r.0.candidates == candidates,
            r.0.tried == 0,
            attempt_step(op_name@, candidates as int, 0, Seq::empty(), r.1),
    {
        let attempts = Attempts { candidates, tried: 0 };
        if candidates == 0 {
            let mut message = op_name.to_owned();
            message.append(": no gateway session is established yet");
            (attempts, AttemptStep::NoSession(message))
        } else {
            (attempts, AttemptStep::Ask(0))
        }
    }

    /// A candidate did not answer. That is the ordinary way to learn that it is gone: the
    /// next one is asked, and the last error survives when there is none.
    pub fn failed(&mut self, error: String) -> (r: AttemptStep)
        ensures
            final(self).candidates == old(self).candidates,
            old(self).tried < old(self).candidates ==> final(self).tried == old(self).tried + 1
                && attempt_step(
                Seq::empty(),
                old(self).candidates as int,
                old(self).tried + 1,
                error@,
                r,
            ),
            old(self).tried >= old(self).candidates ==> final(self).tried == old(self).tried
                && r is GiveUp && r->GiveUp_0@ == error@,
    {
        if self.tried < self.candidates {
            self.tried = self.tried + 1;
        }
        if self.tried < self.candidates {
            AttemptStep::Ask(self.tried)
        } else {
            AttemptStep::GiveUp(error)
        }
    }
}

/// What asking the candidates in turn comes to: the first answer, or else the last error.
/// `answers[i]` is what the candidate at `i` answers when it is asked.
pub open spec fn first_answer<T>(answers: Seq<Result<T, Seq<char>>>, from: int) -> Result<
    T,
    Seq<char>,
>
    recommends
        0 <= from < answers.len(),
    decreases answers.len() - from,
{
    if answers[from] is Ok || from + 1 >= answers.len() {
        answers[from]
    } else {
        first_answer(answers, from + 1)
    }
}

/// One gateway that is gone costs one attempt: as soon as some candidate answers, the
/// first that does gives the answer, and only if none does the last error is told.
pub proof fn law_one_answer_is_enough<T>(answers: Seq<Result<T, Seq<char>>>, from: int)
    requires
        0 <= from < answers.len(),
    ensures
        (exists|i: int| from <= i < answers.len() && #[trigger] answers[i] is Ok)
            <==> first_answer(answers, from) is Ok,
        first_answer(answers, from) is Err ==> first_answer(answers, from) == answers.last(),
    decreases answers.len() - from,
{
    if answers[from] is Err && from + 1 < answers.len() {
        law_one_answer_is_enough(answers, from + 1);
    }
}

/// Following the steps, one asks the candidates in turn and ends with the first answer or
/// the last error. `tried` candidates have failed so far, and `step` is what follows.
pub proof fn law_steps_reach_the_first_answer<T>(
    op_name: Seq<char>,
    answers: Seq<Result<T, Seq<char>>>,
    tried: int,
    last_error: Seq<char>,
    step: AttemptStep,
)
    requires
        0 < answers.len() <= usize::MAX,
        0 <= tried <= answers.len(),
        forall|i: int| 0 <= i < tried ==> #[trigger] answers[i] is Err,
        tried > 0 ==> answers[tried - 1] == Err::<T, Seq<char>>(last_error),
        attempt_step(op_name, answers.len() as int, tried, last_error, step),
    ensures
        match step {
            AttemptStep::Ask(i) => i == tried && first_answer(answers, 0) == first_answer(
                answers,
                tried,
            ),
            AttemptStep::NoSession(message) => false,
            AttemptStep::GiveUp(error) => first_answer(answers, 0) == Err::<T, Seq<char>>(error@),
        },
{
    if tried < answers.len() {
        lemma_passes_over_errors(answers, 0, tried);
    } else {
        law_one_answer_is_enough(answers, 0);
    }
}

proof fn lemma_passes_over_errors<T>(answers: Seq<Result<T, Seq<char>>>, from: int, to: int)
    requires
        0 <= from <= to < answers.len(),
        forall|i: int| from <= i < to ==> #[trigger] answers[i] is Err,
    ensures
        first_answer(answers, from) == first_answer(answers, to),
    decreases to - from,
{
    if from < to {
        lemma_passes_over_errors(answers, from + 1, to);
    }
}

} // verus!
