//! Address queries to the configured nameservers.
//!
//! A nameserver is asked directly, so that no platform cache stands between a change of the
//! fleet and the one who looks for it. There is one question, no search list and no
//! following of aliases: the name is absolute, and its addresses are in the answer.
use vstd::prelude::*;
use vstd::string::*;

use std::str::FromStr;

use hickory_proto::op::{Message, MessageType, OpCode, Query, ResponseCode};
use hickory_proto::rr::rdata::{A, AAAA};
use hickory_proto::rr::{Name, RData, Record};

use crate::text::{
    chars_of, decimal, decimal_text, lemma_decimal_digits, lemma_decimal_injective, string_of, trimmed_start, white_space, is_white_space,
};
use crate::values::{duplicate_list, option_view, views};

verus! {

/// The resolver configuration, read anew for each query.
pub const RESOLV_CONF: &'static str = "/etc/resolv.conf";

/// Milliseconds that one exchange may take.
pub const EXCHANGE_TIMEOUT_MS: u64 = 2000;

/// A larger reply is refused.
pub const MAX_MESSAGE_BYTES: usize = 8192;

/// The port that every nameserver line means.
pub const DNS_PORT: u16 = 53;

// The resolver configuration.
/// The number of characters before the first line break.
pub open spec fn line_length(s: Seq<char>) -> int
    decreases s.len(),
{
    if s.len() == 0 || s[0] == '\n' {
        0
    } else {
        1 + line_length(s.skip(1))
    }
}

/// The number of characters before the first comment sign.
pub open spec fn comment_start(s: Seq<char>) -> int
    decreases s.len(),
{
    if s.len() == 0 || s[0] == '#' || s[0] == ';' {
        0
    } else {
        1 + comment_start(s.skip(1))
    }
}

/// The number of characters before the first white space.
pub open spec fn word_length(s: Seq<char>) -> int
    decreases s.len(),
{
    if s.len() == 0 || white_space(s[0]) {
        0
    } else {
        1 + word_length(s.skip(1))
    }
}

/// The first word of a text, empty where there is none.
pub open spec fn first_word(s: Seq<char>) -> Seq<char> {
    let t = trimmed_start(s);
    t.take(word_length(t))
}

/// What follows the first word.
pub open spec fn after_first_word(s: Seq<char>) -> Seq<char> {
    let t = trimmed_start(s);
    t.skip(word_length(t))
}

/// What a line of the configuration gives as an address: the second word, where the first is
/// `nameserver`, comments aside.
pub open spec fn line_address(line: Seq<char>) -> Option<Seq<char>> {
    let content = line.take(comment_start(line));
    let address = first_word(after_first_word(content));
    if first_word(content) == "nameserver"@ && address.len() > 0 {
        Some(address)
    } else {
        None
    }
}

/// What the lines of the configuration give as addresses, as written and in order.
pub open spec fn listed_addresses(s: Seq<char>) -> Seq<Seq<char>>
    decreases s.len(),
    via listed_addresses_shrinks
{
    let n = line_length(s);
    let rest = if n < s.len() {
        listed_addresses(s.skip(n + 1))
    } else {
        Seq::empty()
    };
    match line_address(s.take(n)) {
        Some(address) => seq![address] + rest,
        None => rest,
    }
}

#[via_fn]
proof fn listed_addresses_shrinks(s: Seq<char>) {
    lemma_line_length(s);
}

proof fn lemma_line_length(s: Seq<char>)
    ensures
        0 <= line_length(s) <= s.len(),
    decreases s.len(),
{
    if s.len() > 0 && s[0] != '\n' {
        lemma_line_length(s.skip(1));
    }
}

/// The first position from `from` on at which a word ends.
fn word_end(x: &Vec<char>, from: usize, to: usize) -> (r: usize)
    requires
        from <= to <= x.len(),
    ensures
        from <= r <= to,
        r - from == word_length(x@.subrange(from as int, to as int)),
{
    let mut i: usize = from;
    let ghost s = x@.subrange(from as int, to as int);
    proof {
        assert(s.skip(0) =~= s);
    }
    while i < to && !is_white_space(x[i])
        invariant
            from <= i <= to <= x.len(),
            s == x@.subrange(from as int, to as int),
            word_length(s) == i - from + word_length(s.skip(i - from)),
        decreases to - i,
    {
        proof {
            assert(s.skip(i - from).skip(1) =~= s.skip(i - from + 1));
        }
        i += 1;
    }
    i
}

/// The first position from `from` on at which no white space stands.
fn word_start(x: &Vec<char>, from: usize, to: usize) -> (r: usize)
    requires
        from <= to <= x.len(),
    ensures
        from <= r <= to,
        x@.subrange(r as int, to as int) == trimmed_start(x@.subrange(from as int, to as int)),
{
    let mut i: usize = from;
    while i < to && is_white_space(x[i])
        invariant
            from <= i <= to <= x.len(),
            trimmed_start(x@.subrange(i as int, to as int)) == trimmed_start(
                x@.subrange(from as int, to as int),
            ),
        decreases to - i,
    {
        proof {
            assert(x@.subrange(i as int, to as int).skip(1) =~= x@.subrange(i + 1, to as int));
        }
        i += 1;
    }
    i
}

/// What the line `x[from..to]` gives as an address.
fn address_on_line(x: &Vec<char>, from: usize, to: usize) -> (r: Option<String>)
    requires
        from <= to <= x.len(),
    ensures
        line_address(x@.subrange(from as int, to as int)) == (match r {
            Some(address) => Some(address@),
            None => None,
        }),
{
    let ghost line = x@.subrange(from as int, to as int);
    let mut end: usize = from;
    proof {
        assert(line.skip(0) =~= line);
    }
    while end < to && x[end] != '#' && x[end] != ';'
        invariant
            from <= end <= to <= x.len(),
            line == x@.subrange(from as int, to as int),
            comment_start(line) == end - from + comment_start(line.skip(end - from)),
        decreases to - end,
    {
        proof {
            assert(line.skip(end - from).skip(1) =~= line.skip(end - from + 1));
        }
        end += 1;
    }
    proof {
        assert(line.take(comment_start(line)) =~= x@.subrange(from as int, end as int));
    }
    let first: usize = word_start(x, from, end);
    let first_end: usize = word_end(x, first, end);
    let second: usize = word_start(x, first_end, end);
    let second_end: usize = word_end(x, second, end);
    let ghost content = x@.subrange(from as int, end as int);
    proof {
        let t = trimmed_start(content);
        assert(t.take(word_length(t)) =~= x@.subrange(first as int, first_end as int));
        assert(t.skip(word_length(t)) =~= x@.subrange(first_end as int, end as int));
        let u = trimmed_start(t.skip(word_length(t)));
        assert(u.take(word_length(u)) =~= x@.subrange(second as int, second_end as int));
    }
    let keyword = string_of(x, first, first_end);
    if crate::text::same_text(&keyword, "nameserver") && second < second_end {
        Some(string_of(x, second, second_end))
    } else {
        None
    }
}

/// What the `nameserver` lines of the configuration give as addresses, as written.
pub fn nameserver_fields(resolv_conf: &str) -> (r: Vec<String>)
    ensures
        views(r@) == listed_addresses(resolv_conf@),
{
    let x = chars_of(resolv_conf);
    let ghost s = resolv_conf@;
    let mut found: Vec<String> = Vec::new();
    let mut from: usize = 0;
    let mut done = false;
    proof {
        assert(s.skip(0) =~= s);
        assert(views(found@) + listed_addresses(s) =~= listed_addresses(s));
    }
    while !done
        invariant
            x@ == s,
            from <= x.len(),
            !done ==> views(found@) + listed_addresses(s.skip(from as int)) == listed_addresses(s),
            done ==> views(found@) == listed_addresses(s),
        decreases x.len() - from + (if done {
            0int
        } else {
            1int
        }),
    {
        let ghost rest = s.skip(from as int);
        let mut to: usize = from;
        proof {
            lemma_line_length(rest);
            assert(rest.skip(0) =~= rest);
        }
        while to < x.len() && x[to] != '\n'
            invariant
                from <= to <= x.len(),
                x@ == s,
                rest == s.skip(from as int),
                line_length(rest) == to - from + line_length(rest.skip(to - from)),
            decreases x.len() - to,
        {
            proof {
                assert(rest.skip(to - from).skip(1) =~= rest.skip(to - from + 1));
            }
            to += 1;
        }
        let ghost before = views(found@);
        proof {
            assert(rest.take(line_length(rest)) =~= x@.subrange(from as int, to as int));
        }
        if let Some(address) = address_on_line(&x, from, to) {
            found.push(address);
            proof {
                assert(views(found@) =~= before + seq![address@]);
            }
        }
        if to < x.len() {
            proof {
                assert(rest.skip(line_length(rest) + 1) =~= s.skip(to as int + 1));
                assert(views(found@) + listed_addresses(s.skip(to as int + 1)) =~= before
                    + listed_addresses(rest));
            }
            from = to + 1;
        } else {
            proof {
                assert(views(found@) =~= before + listed_addresses(rest));
            }
            done = true;
        }
    }
    found
}

/// An IPv4 address in writing: its four octets in decimal, without leading zeros, with dots
/// between them.
pub open spec fn dotted(a: (u8, u8, u8, u8)) -> Seq<char> {
    decimal(a.0 as nat) + "."@ + decimal(a.1 as nat) + "."@ + decimal(a.2 as nat) + "."@ + decimal(
        a.3 as nat,
    )
}

/// The octets of the IPv4 address that a text writes, if it writes one.
pub open spec fn written_ipv4(text: Seq<char>) -> Option<Seq<u8>> {
    if exists|a: (u8, u8, u8, u8)| #[trigger] dotted(a) == text {
        let a = choose|a: (u8, u8, u8, u8)| #[trigger] dotted(a) == text;
        Some(seq![a.0, a.1, a.2, a.3])
    } else {
        None
    }
}

/// `hickory_proto::rr::rdata::A::from_str` reads an IPv4 address: it takes exactly the texts
/// that write four octets in decimal, without leading zeros, with dots between them, and
/// gives those octets.
#[verifier::external_body]
fn read_ipv4(text: &str) -> (r: Option<(u8, u8, u8, u8)>)
    ensures
        match r {
            Some(octets) => text@ == dotted(octets),
            None => forall|a: (u8, u8, u8, u8)| #[trigger] dotted(a) != text@,
        },
{
    match A::from_str(text) {
        Ok(address) => Some(address.octets().into()),
        Err(_) => None,
    }
}

/// The octets of the IPv6 address that a text writes, if it writes one.
pub uninterp spec fn written_ipv6(text: Seq<char>) -> Option<Seq<u8>>;

/// `hickory_proto::rr::rdata::AAAA::from_str` reads an IPv6 address, which has sixteen
/// octets, and refuses any other text. The segments of an IPv6 address are separated by
/// colons, so no text without one is taken.
#[verifier::external_body]
fn read_ipv6(text: &str) -> (r: Option<Vec<u8>>)
    ensures
        option_view(r) == written_ipv6(text@),
        r is Some ==> r->0@.len() == 16 && text@.contains(':'),
{
    match AAAA::from_str(text) {
        Ok(address) => Some(address.octets().to_vec()),
        Err(_) => None,
    }
}

/// The octets of the address that a text writes, of either version. An IPv6 address has
/// colons.
pub open spec fn written_address(text: Seq<char>) -> Option<Seq<u8>> {
    match written_ipv4(text) {
        Some(octets) => Some(octets),
        None => if text.contains(':') {
            written_ipv6(text)
        } else {
            None
        },
    }
}

/// A text without dots, a dot and what follows can be told apart.
proof fn lemma_first_dot(a: Seq<char>, b: Seq<char>, c: Seq<char>, d: Seq<char>)
    requires
        !a.contains('.'),
        !c.contains('.'),
        a + "."@ + b == c + "."@ + d,
    ensures
        a == c,
        b == d,
{
    reveal_strlit(".");
    let s = a + "."@ + b;
    assert(s[a.len() as int] == '.');
    assert(s[c.len() as int] == '.');
    if a.len() < c.len() {
        assert(c[a.len() as int] == s[a.len() as int]);
    }
    if c.len() < a.len() {
        assert(a[c.len() as int] == s[c.len() as int]);
    }
    assert(a =~= s.take(a.len() as int));
    assert(c =~= s.take(c.len() as int));
    assert(b =~= s.skip(a.len() as int + 1));
    assert(d =~= s.skip(c.len() as int + 1));
}

/// Different addresses are written differently.
pub proof fn law_written_address_is_unambiguous(a: (u8, u8, u8, u8), b: (u8, u8, u8, u8))
    requires
        dotted(a) == dotted(b),
    ensures
        a == b,
{
    let (a0, a1, a2, a3) = (
        decimal(a.0 as nat),
        decimal(a.1 as nat),
        decimal(a.2 as nat),
        decimal(a.3 as nat),
    );
    let (b0, b1, b2, b3) = (
        decimal(b.0 as nat),
        decimal(b.1 as nat),
        decimal(b.2 as nat),
        decimal(b.3 as nat),
    );
    lemma_decimal_digits(a.0 as nat);
    lemma_decimal_digits(a.1 as nat);
    lemma_decimal_digits(a.2 as nat);
    lemma_decimal_digits(b.0 as nat);
    lemma_decimal_digits(b.1 as nat);
    lemma_decimal_digits(b.2 as nat);
    let a_rest = a1 + "."@ + (a2 + "."@ + a3);
    let b_rest = b1 + "."@ + (b2 + "."@ + b3);
    assert(dotted(a) =~= a0 + "."@ + a_rest);
    assert(dotted(b) =~= b0 + "."@ + b_rest);
    lemma_first_dot(a0, a_rest, b0, b_rest);
    lemma_first_dot(a1, a2 + "."@ + a3, b1, b2 + "."@ + b3);
    lemma_first_dot(a2, a3, b2, b3);
    lemma_decimal_injective(a.0 as nat, b.0 as nat);
    lemma_decimal_injective(a.1 as nat, b.1 as nat);
    lemma_decimal_injective(a.2 as nat, b.2 as nat);
    lemma_decimal_injective(a.3 as nat, b.3 as nat);
}

/// The address that a written address reads as is the one that was written.
pub proof fn law_written_address_reads_back(a: (u8, u8, u8, u8))
    ensures
        written_address(dotted(a)) == Some(seq![a.0, a.1, a.2, a.3]),
{
    let b = choose|b: (u8, u8, u8, u8)| #[trigger] dotted(b) == dotted(a);
    law_written_address_is_unambiguous(a, b);
}

/// Reads an IP address: four octets, or sixteen.
pub fn read_address(text: &str) -> (r: Option<Vec<u8>>)
    ensures
        option_view(r) == written_address(text@),
        r is Some ==> r->0@.len() == 4 || r->0@.len() == 16,
{
    match read_ipv4(text) {
        Some(octets) => {
            proof {
                law_written_address_reads_back(octets);
            }
            let address = vec![octets.0, octets.1, octets.2, octets.3];
            proof {
                assert(address@ =~= seq![octets.0, octets.1, octets.2, octets.3]);
            }
            Some(address)
        },
        None => read_ipv6(text),
    }
}

/// A nameserver to ask: the octets of its address, and its port.
#[derive(Debug, PartialEq, Eq)]
pub struct Nameserver {
    pub octets: Vec<u8>,
    pub port: u16,
}

/// What [`Nameserver`] stands for.
#[verifier::ext_equal]
pub struct NameserverView {
    pub octets: Seq<u8>,
    pub port: u16,
}

impl View for Nameserver {
    type V = NameserverView;

    open spec fn view(&self) -> NameserverView {
        NameserverView { octets: self.octets@, port: self.port }
    }
}

/// The nameservers at the addresses that were read, in order. What was no address is left
/// out.
pub open spec fn servers_at(addresses: Seq<Option<Seq<u8>>>) -> Seq<NameserverView>
    decreases addresses.len(),
{
    if addresses.len() == 0 {
        Seq::empty()
    } else {
        let before = servers_at(addresses.drop_last());
        match addresses.last() {
            Some(octets) => before.push(NameserverView { octets, port: DNS_PORT }),
            None => before,
        }
    }
}

/// The addresses that texts write.
pub open spec fn written_addresses(texts: Seq<Seq<char>>) -> Seq<Option<Seq<u8>>> {
    texts.map_values(|text: Seq<char>| written_address(text))
}

/// The nameservers at the addresses that were read. What was no address is left out.
pub fn servers_given(addresses: &Vec<Option<Vec<u8>>>) -> (r: Vec<Nameserver>)
    ensures
        views(r@) == servers_at(addresses@.map_values(|a: Option<Vec<u8>>| option_view(a))),
{
    let ghost read = addresses@.map_values(|a: Option<Vec<u8>>| option_view(a));
    let mut servers: Vec<Nameserver> = Vec::new();
    let mut i: usize = 0;
    proof {
        assert(views(servers@) =~= servers_at(read.take(0)));
    }
    while i < addresses.len()
        invariant
            i <= addresses.len(),
            read == addresses@.map_values(|a: Option<Vec<u8>>| option_view(a)),
            views(servers@) == servers_at(read.take(i as int)),
        decreases addresses.len() - i,
    {
        let ghost before = views(servers@);
        proof {
            assert(read.take(i as int + 1).drop_last() =~= read.take(i as int));
            assert(read.take(i as int + 1).last() == option_view(addresses@[i as int]));
        }
        if let Some(octets) = &addresses[i] {
            let server = Nameserver { octets: octets.clone(), port: DNS_PORT };
            servers.push(server);
            proof {
                assert(server.octets@ =~= octets@);
                assert(views(servers@) =~= before.push(server@));
            }
        }
        i += 1;
    }
    proof {
        assert(read.take(read.len() as int) =~= read);
    }
    servers
}

/// The nameservers to ask, in the order of the configuration. Only `nameserver` lines are
/// read, and of these only the ones that give an address: `search` and `ndots` complete
/// partial names, and the name here is absolute.
pub fn nameservers(resolv_conf: &str) -> (r: Vec<Nameserver>)
    ensures
        views(r@) == servers_at(written_addresses(listed_addresses(resolv_conf@))),
{
    let fields = nameserver_fields(resolv_conf);
    let ghost texts = views(fields@);
    let mut addresses: Vec<Option<Vec<u8>>> = Vec::new();
    let mut i: usize = 0;
    while i < fields.len()
        invariant
            i <= fields.len(),
            texts == views(fields@),
            addresses.len() == i,
            forall|k: int|
                0 <= k < i ==> option_view(#[trigger] addresses@[k]) == written_address(texts[k]),
        decreases fields.len() - i,
    {
        addresses.push(read_address(&fields[i]));
        i += 1;
    }
    proof {
        assert(addresses@.map_values(|a: Option<Vec<u8>>| option_view(a)) =~= written_addresses(
            texts,
        ));
    }
    servers_given(&addresses)
}

/// The nameservers to ask, or the refusal of a configuration that gives none.
pub open spec fn some_server(servers: Seq<NameserverView>) -> Result<
    Seq<NameserverView>,
    DnsErrorView,
> {
    if servers.len() == 0 {
        Err(
            DnsErrorView {
                kind: DnsErrorKind::NotFound,
                message: RESOLV_CONF@ + " lists no nameserver"@,
            },
        )
    } else {
        Ok(servers)
    }
}

/// Refuses to go on without a nameserver to ask.
pub fn require_server(servers: Vec<Nameserver>) -> (r: Result<Vec<Nameserver>, DnsError>)
    ensures
        some_server(views(servers@)) == (match r {
            Ok(all) => Ok(views(all@)),
            Err(error) => Err(error@),
        }),
{
    if servers.len() == 0 {
        Err(no_nameserver())
    } else {
        Ok(servers)
    }
}

/// The nameservers that a configuration names, or the refusal of one that names none.
pub fn configured_servers(resolv_conf: &str) -> (r: Result<Vec<Nameserver>, DnsError>)
    ensures
        some_server(servers_at(written_addresses(listed_addresses(resolv_conf@)))) == (match r {
            Ok(all) => Ok(views(all@)),
            Err(error) => Err(error@),
        }),
{
    require_server(nameservers(resolv_conf))
}

// Questions and messages.
/// What is asked of a nameserver: a domain name by its labels, and whether it is absolute,
/// and the type and class of the records.
#[derive(Debug, PartialEq, Eq)]
pub struct DnsQuestion {
    pub labels: Vec<Vec<u8>>,
    pub absolute: bool,
    pub query_type: u16,
    pub query_class: u16,
}

/// What [`DnsQuestion`] stands for.
#[verifier::ext_equal]
pub struct DnsQuestionView {
    pub labels: Seq<Seq<u8>>,
    pub absolute: bool,
    pub query_type: u16,
    pub query_class: u16,
}

impl View for DnsQuestion {
    type V = DnsQuestionView;

    open spec fn view(&self) -> DnsQuestionView {
        DnsQuestionView {
            labels: views(self.labels@),
            absolute: self.absolute,
            query_type: self.query_type,
            query_class: self.query_class,
        }
    }
}

/// What is read of a DNS message.
#[derive(Debug, PartialEq, Eq)]
pub struct DnsMessage {
    pub id: u16,
    /// It is a response, not a query.
    pub response: bool,
    pub op_code: u8,
    pub truncated: bool,
    pub response_code: u16,
    pub questions: Vec<DnsQuestion>,
    /// The answers: the octets of an IPv4 address record, nothing of another record.
    pub answers: Vec<Option<(u8, u8, u8, u8)>>,
}

/// What [`DnsMessage`] stands for.
#[verifier::ext_equal]
pub struct DnsMessageView {
    pub id: u16,
    pub response: bool,
    pub op_code: u8,
    pub truncated: bool,
    pub response_code: u16,
    pub questions: Seq<DnsQuestionView>,
    pub answers: Seq<Option<(u8, u8, u8, u8)>>,
}

impl View for DnsMessage {
    type V = DnsMessageView;

    open spec fn view(&self) -> DnsMessageView {
        DnsMessageView {
            id: self.id,
            response: self.response,
            op_code: self.op_code,
            truncated: self.truncated,
            response_code: self.response_code,
            questions: views(self.questions@),
            answers: self.answers@,
        }
    }
}

/// What kind of failure a query met.
#[derive(Debug, Clone, Copy, PartialEq, Eq, Structural)]
pub enum DnsErrorKind {
    InvalidInput,
    InvalidData,
    NotFound,
    Other,
}

/// Why a query failed.
#[derive(Debug, PartialEq, Eq)]
pub struct DnsError {
    pub kind: DnsErrorKind,
    pub message: String,
}

/// What [`DnsError`] stands for.
#[verifier::ext_equal]
pub struct DnsErrorView {
    pub kind: DnsErrorKind,
    pub message: Seq<char>,
}

impl View for DnsError {
    type V = DnsErrorView;

    open spec fn view(&self) -> DnsErrorView {
        DnsErrorView { kind: self.kind, message: self.message@ }
    }
}

fn dns_error(kind: DnsErrorKind, message: &str) -> (r: DnsError)
    ensures
        r@ == (DnsErrorView { kind, message: message@ }),
{
    DnsError { kind, message: message.to_owned() }
}

/// What a result stands for.
pub open spec fn result_view<T: View, E: View>(r: Result<T, E>) -> Result<T::V, E::V> {
    match r {
        Ok(t) => Ok(t@),
        Err(e) => Err(e@),
    }
}

/// The domain name that a text writes, by its labels and whether it is absolute, or why it
/// writes none.
pub uninterp spec fn written_name(text: Seq<char>) -> Result<(Seq<Seq<u8>>, bool), Seq<char>>;

/// `hickory_proto::rr::Name::from_str` reads a domain name, `Name::iter` gives its labels
/// and `Name::is_fqdn` whether it is absolute.
#[verifier::external_body]
fn parse_name(text: &str) -> (r: Result<(Vec<Vec<u8>>, bool), String>)
    ensures
        written_name(text@) == (match r {
            Ok((labels, absolute)) => Ok((views(labels@), absolute)),
            Err(error) => Err(error@),
        }),
{
    match Name::from_str(text) {
        Ok(name) => Ok((name.iter().map(|label| label.to_vec()).collect(), name.is_fqdn())),
        Err(error) => Err(error.to_string()),
    }
}

/// The message that asks a question, in wire form, or why it has none.
pub uninterp spec fn query_wire(
    id: u16,
    recursion_desired: bool,
    question: DnsQuestionView,
) -> Result<Seq<u8>, Seq<char>>;

/// `hickory_proto::op::Message::to_vec` encodes a query message with the given identifier,
/// the given wish for recursion, and one question, whose name `Name::from_labels` puts
/// together.
#[verifier::external_body]
fn encode_query(id: u16, recursion_desired: bool, question: &DnsQuestion) -> (r: Result<
    Vec<u8>,
    String,
>)
    ensures
        result_view(r) == query_wire(id, recursion_desired, question@),
{
    let labels = question.labels.iter().map(|label| label.as_slice());
    let mut name = match Name::from_labels(labels) {
        Ok(name) => name,
        Err(error) => return Err(error.to_string()),
    };
    name.set_fqdn(question.absolute);
    let mut query = Query::query(name, question.query_type.into());
    query.query_class = question.query_class.into();
    let mut message = Message::new(id, MessageType::Query, OpCode::Query);
    message.metadata.recursion_desired = recursion_desired;
    message.queries.push(query);
    message.to_vec().map_err(|error| error.to_string())
}

/// The message that bytes hold, or why they hold none.
pub uninterp spec fn decoded_message(bytes: Seq<u8>) -> Result<DnsMessageView, Seq<char>>;

/// A question as the outside decoder hands it over: labels, whether the name is absolute,
/// type and class.
type PlainQuestion = (Vec<Vec<u8>>, bool, u16, u16);

/// A message as the outside decoder hands it over: identifier, whether it is a response,
/// operation, truncation, response code, questions and answers.
type PlainMessage = (u16, bool, u8, bool, u16, Vec<PlainQuestion>, Vec<Option<(u8, u8, u8, u8)>>);

spec fn plain_question_view(q: PlainQuestion) -> DnsQuestionView {
    DnsQuestionView {
        labels: views(q.0@),
        absolute: q.1,
        query_type: q.2,
        query_class: q.3,
    }
}

spec fn plain_message_view(m: PlainMessage) -> DnsMessageView {
    DnsMessageView {
        id: m.0,
        response: m.1,
        op_code: m.2,
        truncated: m.3,
        response_code: m.4,
        questions: m.5@.map_values(|q: PlainQuestion| plain_question_view(q)),
        answers: m.6@,
    }
}

/// `hickory_proto::op::Message::from_vec` decodes a message. Of what it decodes, the header
/// fields, the questions and the IPv4 address records are kept.
#[verifier::external_body]
fn decode_plain(bytes: &Vec<u8>) -> (r: Result<PlainMessage, String>)
    ensures
        decoded_message(bytes@) == (match r {
            Ok(message) => Ok(plain_message_view(message)),
            Err(error) => Err(error@),
        }),
{
    let m = Message::from_vec(bytes).map_err(|error| error.to_string())?;
    let h = m.metadata;
    let question = |q: &Query| (
        q.name.iter().map(<[u8]>::to_vec).collect(), q.name.is_fqdn(),
        q.query_type.into(), q.query_class.into());
    let octets = |r: &Record| match r.data { RData::A(a) => Some(a.octets().into()), _ => None };
    Ok((
        h.id, h.message_type == MessageType::Response, h.op_code.into(), h.truncation,
        h.response_code.into(), m.queries.iter().map(question).collect(),
        m.answers.iter().map(octets).collect()))
}

fn decode_message(bytes: &Vec<u8>) -> (r: Result<DnsMessage, String>)
    ensures
        result_view(r) == decoded_message(bytes@),
{
    match decode_plain(bytes) {
        Err(error) => Err(error),
        Ok((id, response, op_code, truncated, response_code, plain_questions, answers)) => {
            let mut questions: Vec<DnsQuestion> = Vec::new();
            let mut i: usize = 0;
            while i < plain_questions.len()
                invariant
                    i <= plain_questions.len(),
                    questions.len() == i,
                    forall|j: int|
                        0 <= j < i ==> (#[trigger] questions@[j])@ == plain_question_view(
                            plain_questions@[j],
                        ),
                decreases plain_questions.len() - i,
            {
                let q = &plain_questions[i];
                questions.push(
                    DnsQuestion {
                        labels: duplicate_list(&q.0),
                        absolute: q.1,
                        query_type: q.2,
                        query_class: q.3,
                    },
                );
                i += 1;
            }
            proof {
                assert(views(questions@) =~= plain_questions@.map_values(
                    |q: PlainQuestion| plain_question_view(q),
                ));
            }
            Ok(DnsMessage { id, response, op_code, truncated, response_code, questions, answers })
        },
    }
}

/// What a response code means, in words.
pub uninterp spec fn response_meaning(code: u16) -> Seq<char>;

/// `hickory_proto::op::ResponseCode` writes out what a response code means.
#[verifier::external_body]
fn response_text(code: u16) -> (r: String)
    ensures
        r@ == response_meaning(code),
{
    <u16 as Into<ResponseCode>>::into(code).to_string()
}

/// `hickory_proto::op::Message::query` picks a random identifier for a message.
#[verifier::external_body]
fn random_id() -> (r: u16) {
    Message::query().metadata.id
}

// Asking.
/// A byte, an ASCII capital letter counted as its small letter.
pub open spec fn folded_byte(b: u8) -> int {
    if 0x41 <= b <= 0x5a {
        b + 0x20
    } else {
        b as int
    }
}

/// The labels are the same but for the case of ASCII letters.
pub open spec fn same_label(a: Seq<u8>, b: Seq<u8>) -> bool {
    a.len() == b.len() && forall|i: int|
        0 <= i < a.len() ==> folded_byte(#[trigger] a[i]) == folded_byte(b[i])
}

/// The questions ask the same: names are compared without regard to case.
pub open spec fn same_question(a: DnsQuestionView, b: DnsQuestionView) -> bool {
    &&& a.absolute == b.absolute
    &&& a.query_type == b.query_type
    &&& a.query_class == b.query_class
    &&& a.labels.len() == b.labels.len()
    &&& forall|i: int| 0 <= i < a.labels.len() ==> same_label(#[trigger] a.labels[i], b.labels[i])
}

/// The label with its ASCII capital letters lowered.
pub open spec fn lowered(label: Seq<u8>) -> Seq<u8> {
    label.map_values(|b: u8| folded_byte(b) as u8)
}

fn lower_label(label: &Vec<u8>) -> (r: Vec<u8>)
    ensures
        r@ == lowered(label@),
{
    let mut r: Vec<u8> = Vec::new();
    let mut i: usize = 0;
    while i < label.len()
        invariant
            i <= label.len(),
            r.len() == i,
            forall|j: int| 0 <= j < i ==> r@[j] == lowered(label@)[j],
        decreases label.len() - i,
    {
        let b: u8 = label[i];
        if 0x41 <= b && b <= 0x5a {
            r.push(b + 0x20);
        } else {
            r.push(b);
        }
        i += 1;
    }
    proof {
        assert(r@ =~= lowered(label@));
    }
    r
}

fn same_labels(a: &Vec<u8>, b: &Vec<u8>) -> (r: bool)
    ensures
        r == same_label(a@, b@),
{
    if a.len() != b.len() {
        return false;
    }
    let mut i: usize = 0;
    while i < a.len()
        invariant
            a.len() == b.len(),
            i <= a.len(),
            forall|j: int| 0 <= j < i ==> folded_byte(#[trigger] a@[j]) == folded_byte(b@[j]),
        decreases a.len() - i,
    {
        let x: u8 = if 0x41 <= a[i] && a[i] <= 0x5a {
            a[i] + 0x20
        } else {
            a[i]
        };
        let y: u8 = if 0x41 <= b[i] && b[i] <= 0x5a {
            b[i] + 0x20
        } else {
            b[i]
        };
        if x != y {
            proof {
                assert(folded_byte(a@[i as int]) != folded_byte(b@[i as int]));
            }
            return false;
        }
        i += 1;
    }
    true
}

fn is_same_question(a: &DnsQuestion, b: &DnsQuestion) -> (r: bool)
    ensures
        r == same_question(a@, b@),
{
    if a.absolute != b.absolute || a.query_type != b.query_type || a.query_class != b.query_class
        || a.labels.len() != b.labels.len() {
        return false;
    }
    let ghost x = a@.labels;
    let ghost y = b@.labels;
    let mut i: usize = 0;
    while i < a.labels.len()
        invariant
            x == a@.labels,
            y == b@.labels,
            a.labels.len() == b.labels.len(),
            i <= a.labels.len(),
            forall|j: int| 0 <= j < i ==> same_label(#[trigger] x[j], y[j]),
        decreases a.labels.len() - i,
    {
        proof {
            assert(x[i as int] == a.labels@[i as int]@);
            assert(y[i as int] == b.labels@[i as int]@);
        }
        if !same_labels(&a.labels[i], &b.labels[i]) {
            return false;
        }
        i += 1;
    }
    true
}

/// The question for the IPv4 addresses of a name.
pub open spec fn address_question(labels: Seq<Seq<u8>>, absolute: bool) -> DnsQuestionView {
    DnsQuestionView {
        labels: labels.map_values(|label: Seq<u8>| lowered(label)),
        absolute,
        query_type: 1,
        query_class: 1,
    }
}

/// The question for the IPv4 addresses of a name that was read.
pub fn address_question_of(name: (Vec<Vec<u8>>, bool)) -> (r: DnsQuestion)
    ensures
        r@ == address_question(views(name.0@), name.1),
{
    let mut labels: Vec<Vec<u8>> = Vec::new();
    let mut i: usize = 0;
    while i < name.0.len()
        invariant
            i <= name.0.len(),
            labels.len() == i,
            forall|j: int| 0 <= j < i ==> (#[trigger] labels@[j])@ == lowered(name.0@[j]@),
        decreases name.0.len() - i,
    {
        labels.push(lower_label(&name.0[i]));
        i += 1;
    }
    proof {
        assert(views(labels@) =~= views(name.0@).map_values(|label: Seq<u8>| lowered(label)));
    }
    DnsQuestion { labels, absolute: name.1, query_type: 1, query_class: 1 }
}

/// The question for the IPv4 addresses of a name in writing. A text that is no name is
/// invalid input.
pub fn resolve_question(name: &str) -> (r: Result<DnsQuestion, DnsError>)
    ensures
        result_view(r) == (match written_name(name@) {
            Ok((labels, absolute)) => Ok(address_question(labels, absolute)),
            Err(message) => Err(DnsErrorView { kind: DnsErrorKind::InvalidInput, message }),
        }),
{
    match parse_name(name) {
        Ok(read) => Ok(address_question_of(read)),
        Err(message) => Err(DnsError { kind: DnsErrorKind::InvalidInput, message }),
    }
}

/// A query that is ready to be sent.
#[derive(Debug, PartialEq, Eq)]
pub struct DnsRequest {
    pub id: u16,
    pub wire: Vec<u8>,
}

/// The query that asks a question under an identifier.
pub fn request_with_id(id: u16, question: &DnsQuestion) -> (r: Result<DnsRequest, DnsError>)
    ensures
        match query_wire(id, true, question@) {
            Ok(wire) => r is Ok && r->Ok_0.id == id && r->Ok_0.wire@ == wire,
            Err(message) => r is Err && r->Err_0@ == (DnsErrorView {
                kind: DnsErrorKind::InvalidData,
                message,
            }),
        },
{
    match encode_query(id, true, question) {
        Ok(wire) => Ok(DnsRequest { id, wire }),
        Err(message) => Err(DnsError { kind: DnsErrorKind::InvalidData, message }),
    }
}

/// The query that asks a question, under an identifier picked at random.
pub fn new_request(question: &DnsQuestion) -> (r: Result<DnsRequest, DnsError>)
    ensures
        match r {
            Ok(request) => query_wire(request.id, true, question@) == Ok::<Seq<u8>, Seq<char>>(
                request.wire@,
            ),
            Err(error) => exists|id: u16|
                #![trigger query_wire(id, true, question@)]
                query_wire(id, true, question@) is Err && error@ == (DnsErrorView {
                    kind: DnsErrorKind::InvalidData,
                    message: query_wire(id, true, question@)->Err_0,
                }),
        },
{
    let id: u16 = random_id();
    request_with_id(id, question)
}

/// The error for a reply that is too large.
pub open spec fn oversized_reply() -> DnsErrorView {
    DnsErrorView {
        kind: DnsErrorKind::Other,
        message: "DNS reply exceeded the size bound"@,
    }
}

/// The message answers the question that was asked under the identifier.
pub open spec fn answers_question(m: DnsMessageView, id: u16, question: DnsQuestionView) -> bool {
    &&& m.id == id
    &&& m.response
    &&& m.op_code == 0
    &&& m.questions.len() == 1
    &&& same_question(m.questions[0], question)
}

/// What a decoded reply comes to: anything but an answer to the question is refused, so
/// that a late or forged datagram cannot become fleet membership.
pub open spec fn checked_reply(
    decoded: Result<DnsMessageView, Seq<char>>,
    id: u16,
    question: DnsQuestionView,
) -> Result<DnsMessageView, DnsErrorView> {
    match decoded {
        Err(message) => Err(DnsErrorView { kind: DnsErrorKind::InvalidData, message }),
        Ok(m) => if answers_question(m, id, question) {
            Ok(m)
        } else {
            Err(
                DnsErrorView {
                    kind: DnsErrorKind::InvalidData,
                    message: "nameserver answered a different question"@,
                },
            )
        },
    }
}

/// Refuses what does not answer the question.
pub fn check_reply(decoded: Result<DnsMessage, String>, id: u16, question: &DnsQuestion) -> (r:
    Result<DnsMessage, DnsError>)
    ensures
        result_view(r) == checked_reply(result_view(decoded), id, question@),
{
    match decoded {
        Err(message) => Err(DnsError { kind: DnsErrorKind::InvalidData, message }),
        Ok(m) => {
            proof {
                if m.questions.len() > 0 {
                    assert(views(m.questions@)[0] == m.questions@[0]@);
                }
            }
            if m.id == id && m.response && m.op_code == 0 && m.questions.len() == 1
                && is_same_question(&m.questions[0], question) {
                Ok(m)
            } else {
                Err(
                    dns_error(
                        DnsErrorKind::InvalidData,
                        "nameserver answered a different question",
                    ),
                )
            }
        },
    }
}

/// What a reply comes to.
pub open spec fn parsed_reply(reply: Seq<u8>, id: u16, question: DnsQuestionView) -> Result<
    DnsMessageView,
    DnsErrorView,
> {
    if reply.len() > MAX_MESSAGE_BYTES {
        Err(oversized_reply())
    } else {
        checked_reply(decoded_message(reply), id, question)
    }
}

/// Reads a reply, and refuses one that is too large or does not answer the question.
pub fn parse(reply: &Vec<u8>, id: u16, question: &DnsQuestion) -> (r: Result<DnsMessage, DnsError>)
    ensures
        result_view(r) == parsed_reply(reply@, id, question@),
{
    if reply.len() > MAX_MESSAGE_BYTES {
        return Err(dns_error(DnsErrorKind::Other, "DNS reply exceeded the size bound"));
    }
    check_reply(decode_message(reply), id, question)
}

fn dotted_text(a: (u8, u8, u8, u8)) -> (r: String)
    ensures
        r@ == dotted(a),
{
    let mut s = decimal_text(a.0 as u64);
    s.append(".");
    s.append(&decimal_text(a.1 as u64));
    s.append(".");
    s.append(&decimal_text(a.2 as u64));
    s.append(".");
    s.append(&decimal_text(a.3 as u64));
    s
}

/// The addresses among the answers, in order.
pub open spec fn answered_addresses(answers: Seq<Option<(u8, u8, u8, u8)>>) -> Seq<Seq<char>>
    decreases answers.len(),
{
    if answers.len() == 0 {
        Seq::empty()
    } else {
        let before = answered_addresses(answers.drop_last());
        match answers.last() {
            Some(a) => before.push(dotted(a)),
            None => before,
        }
    }
}

/// What an accepted answer comes to: the addresses, none being an empty fleet, or the
/// refusal of the nameserver. A name that nobody publishes is a refusal, not an empty
/// fleet.
pub open spec fn settled(server: Seq<char>, m: DnsMessageView) -> Result<
    Seq<Seq<char>>,
    DnsErrorView,
> {
    if m.response_code == 0 {
        Ok(answered_addresses(m.answers))
    } else {
        Err(
            DnsErrorView {
                kind: DnsErrorKind::Other,
                message: "nameserver "@ + server + " answered "@ + response_meaning(
                    m.response_code,
                ),
            },
        )
    }
}

/// The outcome of a query: the addresses in writing, or why there are none.
pub open spec fn addresses_view(r: Result<Vec<String>, DnsError>) -> Result<
    Seq<Seq<char>>,
    DnsErrorView,
> {
    match r {
        Ok(addresses) => Ok(views(addresses@)),
        Err(e) => Err(e@),
    }
}

/// The addresses of an accepted answer.
pub fn settle(server: &str, m: &DnsMessage) -> (r: Result<Vec<String>, DnsError>)
    ensures
        addresses_view(r) == settled(server@, m@),
{
    if m.response_code != 0 {
        let mut message = "nameserver ".to_owned();
        message.append(server);
        message.append(" answered ");
        message.append(&response_text(m.response_code));
        return Err(DnsError { kind: DnsErrorKind::Other, message });
    }
    let mut addresses: Vec<String> = Vec::new();
    let mut i: usize = 0;
    proof {
        assert(m.answers@.take(0) =~= Seq::empty());
        assert(views(addresses@) =~= Seq::empty());
    }
    while i < m.answers.len()
        invariant
            i <= m.answers.len(),
            views(addresses@) == answered_addresses(m.answers@.take(i as int)),
        decreases m.answers.len() - i,
    {
        let ghost before = views(addresses@);
        proof {
            assert(m.answers@.take(i as int + 1).drop_last() =~= m.answers@.take(i as int));
            assert(m.answers@.take(i as int + 1).last() == m.answers@[i as int]);
        }
        if let Some(a) = m.answers[i] {
            addresses.push(dotted_text(a));
            proof {
                assert(views(addresses@) =~= before.push(dotted(a)));
            }
        }
        i += 1;
    }
    proof {
        assert(m.answers@.take(m.answers@.len() as int) =~= m.answers@);
    }
    Ok(addresses)
}

/// What to do once a nameserver has replied.
#[derive(Debug, PartialEq, Eq)]
pub enum ExchangeStep {
    /// The reply did not fit: ask again over TCP. Read as a whole one, it would shrink the
    /// fleet to whatever fitted.
    RetryOverTcp,
    /// The exchange is over.
    Done(Result<Vec<String>, DnsError>),
}

/// What [`ExchangeStep`] stands for: nothing where the question has to be asked again.
pub open spec fn step_view(step: ExchangeStep) -> Option<
    Result<Seq<Seq<char>>, DnsErrorView>,
> {
    match step {
        ExchangeStep::RetryOverTcp => None,
        ExchangeStep::Done(r) => Some(addresses_view(r)),
    }
}

/// What a checked reply leads to. Over TCP a reply is taken as it is.
pub open spec fn exchange_step(
    server: Seq<char>,
    checked: Result<DnsMessageView, DnsErrorView>,
    over_tcp: bool,
) -> Option<Result<Seq<Seq<char>>, DnsErrorView>> {
    match checked {
        Err(e) => Some(Err(e)),
        Ok(m) => if m.truncated && !over_tcp {
            None
        } else {
            Some(settled(server, m))
        },
    }
}

/// What a checked reply leads to.
pub fn after_check(
    server: &str,
    checked: Result<DnsMessage, DnsError>,
    over_tcp: bool,
) -> (r: ExchangeStep)
    ensures
        step_view(r) == exchange_step(server@, result_view(checked), over_tcp),
{
    match checked {
        Err(e) => ExchangeStep::Done(Err(e)),
        Ok(m) => if m.truncated && !over_tcp {
            ExchangeStep::RetryOverTcp
        } else {
            ExchangeStep::Done(settle(server, &m))
        },
    }
}

/// What the reply to one question by one nameserver leads to.
pub fn exchange(
    server: &str,
    reply: &Vec<u8>,
    id: u16,
    question: &DnsQuestion,
    over_tcp: bool,
) -> (r: ExchangeStep)
    ensures
        step_view(r) == exchange_step(server@, parsed_reply(reply@, id, question@), over_tcp),
{
    after_check(server, parse(reply, id, question), over_tcp)
}

/// The length that goes before a query over TCP.
pub fn tcp_frame_length(request: usize) -> (r: Result<u16, DnsError>)
    ensures
        r is Ok <==> request <= u16::MAX,
        r is Ok ==> r->Ok_0 == request,
        r is Err ==> r->Err_0@ == (DnsErrorView {
            kind: DnsErrorKind::Other,
            message: "DNS query too large for TCP"@,
        }),
{
    if request <= 65535 {
        Ok(request as u16)
    } else {
        Err(dns_error(DnsErrorKind::Other, "DNS query too large for TCP"))
    }
}

/// The number of bytes of a reply over TCP, unless it announces too many.
pub fn tcp_reply_length(announced: u16) -> (r: Result<usize, DnsError>)
    ensures
        r is Ok <==> announced <= MAX_MESSAGE_BYTES,
        r is Ok ==> r->Ok_0 == announced,
        r is Err ==> r->Err_0@ == oversized_reply(),
{
    if announced as usize <= MAX_MESSAGE_BYTES {
        Ok(announced as usize)
    } else {
        Err(dns_error(DnsErrorKind::Other, "DNS reply exceeded the size bound"))
    }
}

/// The error for a configuration without a nameserver.
pub fn no_nameserver() -> (r: DnsError)
    ensures
        r@.kind == DnsErrorKind::NotFound,
        r@.message == RESOLV_CONF@ + " lists no nameserver"@,
{
    let mut message = RESOLV_CONF.to_owned();
    message.append(" lists no nameserver");
    DnsError { kind: DnsErrorKind::NotFound, message }
}

/// The outcome of asking nameservers in turn: the first that answers decides, and the last
/// error is told when none does.
pub open spec fn first_reply(
    outcomes: Seq<Result<Seq<Seq<char>>, DnsErrorView>>,
) -> Result<Seq<Seq<char>>, DnsErrorView>
    decreases outcomes.len(),
{
    if outcomes.len() == 0 {
        Err(DnsErrorView { kind: DnsErrorKind::Other, message: "no nameserver answered"@ })
    } else {
        match outcomes[0] {
            Ok(addresses) => Ok(addresses),
            Err(e) => if outcomes.len() == 1 {
                Err(e)
            } else {
                first_reply(outcomes.skip(1))
            },
        }
    }
}

/// Takes in what one nameserver said: nothing more is asked after an answer, and after an
/// error the next one is, as long as `left` are left.
pub fn after_server(outcome: Result<Vec<String>, DnsError>, left: usize) -> (r: Option<
    Result<Vec<String>, DnsError>,
>)
    ensures
        r is None <==> outcome is Err && left > 0,
        r is Some ==> addresses_view(r->0) == addresses_view(outcome),
        forall|later: Seq<Result<Seq<Seq<char>>, DnsErrorView>>|
            later.len() == left ==> #[trigger] first_reply(
                seq![addresses_view(outcome)] + later,
            ) == (match r {
                Some(done) => addresses_view(done),
                None => first_reply(later),
            }),
{
    proof {
        assert forall|later: Seq<Result<Seq<Seq<char>>, DnsErrorView>>| later.len() == left implies
            (seq![addresses_view(outcome)] + later)[0] == addresses_view(outcome) && (#[trigger] (
            seq![addresses_view(outcome)] + later)).skip(1) == later by {
            assert((seq![addresses_view(outcome)] + later).skip(1) =~= later);
        }
    }
    match outcome {
        Ok(addresses) => Some(Ok(addresses)),
        Err(e) => if left > 0 {
            None
        } else {
            Some(Err(e))
        },
    }
}

// What holds of replies.
/// A reply under another identifier, a query, or a reply to another question never becomes
/// an answer.
pub proof fn law_only_answers_are_accepted(
    decoded: Result<DnsMessageView, Seq<char>>,
    id: u16,
    question: DnsQuestionView,
)
    ensures
        checked_reply(decoded, id, question) is Ok <==> decoded is Ok && answers_question(
            decoded->Ok_0,
            id,
            question,
        ),
{
}

/// A truncated reply over UDP is never read as the whole fleet.
pub proof fn law_truncated_replies_are_not_read(server: Seq<char>, m: DnsMessageView)
    ensures
        m.truncated ==> exchange_step(server, Ok(m), false) is None,
        exchange_step(server, Ok(m), true) == Some(settled(server, m)),
{
}

/// A name that answers without addresses is an empty fleet, and a refusal is not.
pub proof fn law_refusal_is_not_an_empty_fleet(server: Seq<char>, m: DnsMessageView)
    ensures
        m.response_code == 0 && m.answers.len() == 0 ==> settled(server, m) == Ok::<
            Seq<Seq<char>>,
            DnsErrorView,
        >(Seq::empty()),
        m.response_code != 0 ==> settled(server, m) is Err,
{
}

} // verus!
