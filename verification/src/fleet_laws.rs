//! What holds of the members of a fleet, and of asking for them.
use vstd::prelude::*;
use vstd::string::*;

use crate::endpoint_path::selects;
use crate::fleet_dns::{
    address_question, answered_addresses, comment_start, dotted, exchange_step, first_reply,
    line_address, line_length, listed_addresses, lowered, parsed_reply, same_label, same_question,
    servers_at, settled, some_server, word_length, written_address, written_addresses, DnsErrorKind,
    DnsErrorView, DnsMessageView, DnsQuestionView, NameserverView,
};
use crate::gateway_channels::{attempt_step, first_answer, next_cursor, rotated, AttemptStep};
use crate::gateway_fleet::{
    big_endian, canonical_name, lemma_serving_order, member_name, member_names, preference,
    positive_setting, score, serving_order, setting, subset,
};
use crate::order::{arranged, lemma_arranged};
use crate::text::{
    decimal, lemma_decimal_digits, lemma_precedes_irreflexive, precedes, replaced, trimmed,
    trimmed_start, white_space,
};
use crate::values::{ranking, Ranked};

verus! {

// Subsets.
/// A subset has the best members, the best first: its entries come by falling score, those
/// with the same score by name, and no member that is left out is better than one that is in.
pub proof fn law_subset_has_the_best_members(
    sandbox_id: Seq<char>,
    members: Seq<Seq<char>>,
    subset_size: int,
    i: int,
    j: int,
    m: int,
)
    requires
        0 <= i < j < subset(sandbox_id, members, subset_size).len(),
        0 <= subset_size,
        0 <= m < members.len(),
        !subset(sandbox_id, members, subset_size).contains(members[m]),
    ensures
        ({
            let chosen = subset(sandbox_id, members, subset_size);
            let before = |a: Seq<char>, b: Seq<char>|
                score(a, sandbox_id) > score(b, sandbox_id) || (score(a, sandbox_id) == score(
                    b,
                    sandbox_id,
                ) && (a == b || precedes(a, b)));
            before(chosen[i], chosen[j]) && before(chosen[j], members[m])
        }),
{
    broadcast use vstd::seq_lib::group_to_multiset_ensures;

    lemma_serving_order(sandbox_id, members);
    let order = serving_order(sandbox_id, members);
    let leq = preference(sandbox_id);
    assert(leq(order[i], order[j]));
    assert(members.contains(members[m]));
    assert(order.to_multiset().count(members[m]) > 0);
    assert(order.contains(members[m]));
    let k = choose|k: int| 0 <= k < order.len() && order[k] == members[m];
    let chosen = subset(sandbox_id, members, subset_size);
    if k < chosen.len() {
        assert(chosen[k] == members[m]);
    }
    assert(leq(order[j], order[k]));
}

/// The one entry of a subset of one is the best member.
pub proof fn law_first_entry_is_the_best(
    sandbox_id: Seq<char>,
    members: Seq<Seq<char>>,
    subset_size: int,
    m: int,
)
    requires
        0 < subset_size,
        0 <= m < members.len(),
    ensures
        ({
            let first = subset(sandbox_id, members, subset_size)[0];
            &&& members.contains(first)
            &&& score(first, sandbox_id) > score(members[m], sandbox_id) || (score(
                first,
                sandbox_id,
            ) == score(members[m], sandbox_id) && (first == members[m] || precedes(
                first,
                members[m],
            )))
        }),
{
    broadcast use vstd::seq_lib::group_to_multiset_ensures;

    lemma_serving_order(sandbox_id, members);
    let order = serving_order(sandbox_id, members);
    let leq = preference(sandbox_id);
    assert(members.contains(members[m]));
    assert(order.to_multiset().count(members[m]) > 0);
    let k = choose|k: int| 0 <= k < order.len() && order[k] == members[m];
    if k > 0 {
        assert(leq(order[0], order[k]));
    }
    assert(order.contains(order[0]));
    assert(members.to_multiset().count(order[0]) > 0);
}

/// A score is read with the first byte most significant: each byte more counts for 256 times
/// what came before.
pub proof fn law_bytes_count_by_their_place(bytes: Seq<u8>, b: u8)
    ensures
        big_endian(bytes.push(b)) == big_endian(bytes) * 256 + b,
        big_endian(Seq::empty()) == 0,
{
    assert(bytes.push(b).drop_last() =~= bytes);
}

/// The members of a fleet are the addresses that were given, each under its name, once and in
/// order.
pub proof fn law_members_are_the_addresses(
    addresses: Seq<Seq<char>>,
    dns_name: Seq<char>,
    port: u16,
    member: Seq<char>,
    i: int,
    j: int,
)
    ensures
        ({
            let members = arranged(member_names(addresses, dns_name, port), ranking::<String>());
            &&& members.contains(member) <==> exists|k: int|
                0 <= k < addresses.len() && member_name(#[trigger] addresses[k], dns_name, port)
                    == member
            &&& 0 <= i < j < members.len() ==> precedes(members[i], members[j]) && members[i]
                != members[j]
        }),
{
    let names = member_names(addresses, dns_name, port);
    String::rank_is_strict();
    lemma_arranged(names, ranking::<String>());
    let members = arranged(names, ranking::<String>());
    if names.contains(member) {
        let k = choose|k: int| 0 <= k < names.len() && names[k] == member;
        assert(member_name(addresses[k], dns_name, port) == member);
    }
    if exists|k: int|
        0 <= k < addresses.len() && member_name(#[trigger] addresses[k], dns_name, port)
            == member {
        let k = choose|k: int|
            0 <= k < addresses.len() && member_name(#[trigger] addresses[k], dns_name, port)
                == member;
        assert(names[k] == member);
    }
    if 0 <= i < j < members.len() {
        assert(ranking::<String>()(members[i], members[j]));
        lemma_precedes_irreflexive(members[i]);
    }
}

/// Different addresses have different names, which start with the octets and end with the
/// Service's name and the port.
pub proof fn law_members_have_names_of_their_own(
    a: (u8, u8, u8, u8),
    b: (u8, u8, u8, u8),
    dns_name: Seq<char>,
    port: u16,
)
    ensures
        member_name(dotted(a), dns_name, port) == member_name(dotted(b), dns_name, port) ==> a == b,
        ("."@ + canonical_name(dns_name) + ":"@ + decimal(port as nat)).is_suffix_of(
            member_name(dotted(a), dns_name, port),
        ),
{
    let tail = "."@ + canonical_name(dns_name) + ":"@ + decimal(port as nat);
    let (x, y) = (replaced(dotted(a), '.', ':', '-'), replaced(dotted(b), '.', ':', '-'));
    let (m, n) = (member_name(dotted(a), dns_name, port), member_name(dotted(b), dns_name, port));
    assert(m =~= x + tail);
    assert(n =~= y + tail);
    assert(m.subrange(m.len() - tail.len(), m.len() as int) =~= tail);
    if m == n {
        assert(x =~= m.take(m.len() - tail.len()));
        assert(y =~= n.take(n.len() - tail.len()));
        lemma_dotted_chars(a);
        lemma_dotted_chars(b);
        assert forall|i: int| 0 <= i < x.len() implies dotted(a)[i] == dotted(b)[i] by {
            assert(x[i] == y[i]);
        }
        assert(dotted(a) =~= dotted(b));
        crate::fleet_dns::law_written_address_is_unambiguous(a, b);
    }
}

proof fn lemma_dotted_chars(a: (u8, u8, u8, u8))
    ensures
        forall|i: int|
            0 <= i < dotted(a).len() ==> #[trigger] dotted(a)[i] == '.' || ('0' <= dotted(a)[i]
                && dotted(a)[i] <= '9'),
{
    reveal_strlit(".");
    lemma_decimal_chars(a.0 as nat);
    lemma_decimal_chars(a.1 as nat);
    lemma_decimal_chars(a.2 as nat);
    lemma_decimal_chars(a.3 as nat);
}

proof fn lemma_decimal_chars(n: nat)
    ensures
        forall|i: int|
            0 <= i < decimal(n).len() ==> '0' <= #[trigger] decimal(n)[i] && decimal(n)[i] <= '9',
{
    lemma_decimal_digits(n);
    assert forall|i: int| 0 <= i < decimal(n).len() implies '0' <= #[trigger] decimal(n)[i]
        && decimal(n)[i] <= '9' by {
        assert(decimal(n).contains(decimal(n)[i]));
    }
}

/// A setting in decimal is taken, zero only where that is a choice.
pub proof fn law_settings_are_taken(text: &str, n: nat)
    requires
        text@ == decimal(n),
        n <= usize::MAX,
    ensures
        setting(Some(text), u64::MAX as int) == Some(n as int),
        positive_setting(Some(text)) == (if n > 0 {
            Some(n as int)
        } else {
            None
        }),
        setting(None, u64::MAX as int) is None,
        positive_setting(None) is None,
{
    lemma_decimal_chars(n);
    lemma_decimal_digits(n);
    let s = decimal(n);
    assert(trimmed_start(s) == s);
    assert(trimmed(s) == s);
    crate::text_laws::law_numbers_read_back(n, u64::MAX as int);
    crate::text_laws::law_numbers_read_back(n, usize::MAX as int);
}

// Channels.
/// Rotating loses nothing and keeps the order: the item at `i` is the one that many places
/// behind the start, counted around.
pub proof fn law_rotation_goes_around<A>(s: Seq<A>, start: int, i: int)
    requires
        0 <= start < s.len(),
        0 <= i < s.len(),
    ensures
        rotated(s, start).len() == s.len(),
        rotated(s, start)[i] == s[if start + i < s.len() {
            start + i
        } else {
            start + i - s.len()
        }],
{
}

/// The next borrower starts at another one, if there is another.
pub proof fn law_next_borrower_starts_elsewhere(cursor: usize, items: int)
    requires
        items > 1,
        cursor < usize::MAX,
    ensures
        cursor as int % items != next_cursor(cursor, items) as int % items,
        next_cursor(cursor, 0) == cursor,
{
    crate::gateway_channels::law_consecutive_borrows_spread(cursor as int, 0, 1, items);
}

/// The answer is that of the first candidate that has one.
pub proof fn law_first_answer_is_the_first<T>(
    answers: Seq<Result<T, Seq<char>>>,
    from: int,
    i: int,
)
    requires
        0 <= from <= i < answers.len(),
        answers[i] is Ok,
        forall|k: int| from <= k < i ==> #[trigger] answers[k] is Err,
    ensures
        first_answer(answers, from) == answers[i],
    decreases i - from,
{
    if from < i {
        assert(answers[from] is Err);
        law_first_answer_is_the_first(answers, from + 1, i);
    }
}

/// Having no candidate is an error of its own, which names the operation; with one, the first
/// is asked first.
pub proof fn law_attempts_begin_with_the_first(
    op_name: Seq<char>,
    candidates: int,
    step: AttemptStep,
)
    requires
        0 <= candidates <= usize::MAX,
        attempt_step(op_name, candidates, 0, Seq::empty(), step),
    ensures
        candidates == 0 <==> step is NoSession,
        candidates == 0 ==> op_name.is_prefix_of(step->NoSession_0@),
        candidates > 0 ==> step == AttemptStep::Ask(0),
{
    if candidates == 0 {
        let m = step->NoSession_0@;
        assert(m.subrange(0, op_name.len() as int) =~= op_name);
    }
}

// Paths.
/// A trailing `/**` selects nothing but the named path and what lies under it, whatever the
/// glob says. Any other pattern, but for those that select everything, selects itself and what
/// the glob says.
pub proof fn law_patterns_select_nothing_else(
    prefix: Seq<char>,
    pattern: Seq<char>,
    path: Seq<char>,
    glob: Option<bool>,
)
    requires
        prefix.len() > 0,
    ensures
        selects(prefix + "/**"@, path, glob) <==> path == prefix || path == prefix + "/**"@
            || prefix.push('/').is_prefix_of(path),
        pattern.len() > 0 && pattern != "**"@ && !"/**"@.is_suffix_of(pattern) ==> (selects(
            pattern,
            path,
            glob,
        ) <==> pattern == path || glob == Some(true)),
{
    reveal_strlit("/**");
    reveal_strlit("**");
    let whole = prefix + "/**"@;
    assert(whole.subrange(whole.len() - 3, whole.len() as int) =~= "/**"@);
    assert(crate::endpoint_path::named_path(whole) =~= prefix);
    assert("/**"@.subrange(0, 3) =~= "/**"@);
    assert(whole.len() > 3);
}

// Nameservers.
proof fn lemma_line(s: Seq<char>)
    ensures
        0 <= line_length(s) <= s.len(),
        !s.take(line_length(s)).contains('\n'),
        line_length(s) < s.len() ==> s[line_length(s)] == '\n',
    decreases s.len(),
{
    if s.len() > 0 && s[0] != '\n' {
        let rest = s.skip(1);
        lemma_line(rest);
        let head = s.take(line_length(s));
        if head.contains('\n') {
            let i = choose|i: int| 0 <= i < head.len() && head[i] == '\n';
            assert(rest.take(line_length(rest))[i - 1] == '\n');
        }
    }
}

proof fn lemma_line_is(line: Seq<char>, rest: Seq<char>)
    requires
        !line.contains('\n'),
    ensures
        line_length(line) == line.len(),
        line_length(line + seq!['\n'] + rest) == line.len(),
{
    lemma_line(line);
    let s = line + seq!['\n'] + rest;
    lemma_line(s);
    if line_length(line) < line.len() {
        assert(line.contains(line[line_length(line)]));
    }
    let n = line_length(s);
    if n < line.len() {
        assert(line[n] == s[n]);
        assert(line.contains('\n'));
    }
    if n > line.len() {
        assert(s.take(n)[line.len() as int] == '\n');
    }
}

/// The lines of a configuration are read one by one: what a configuration lists is what its
/// first line gives, followed by what the rest lists.
pub proof fn law_lines_are_read_one_by_one(line: Seq<char>, rest: Seq<char>)
    requires
        !line.contains('\n'),
    ensures
        listed_addresses(line) == (match line_address(line) {
            Some(address) => seq![address],
            None => Seq::empty(),
        }),
        listed_addresses(line + seq!['\n'] + rest) == listed_addresses(line) + listed_addresses(
            rest,
        ),
{
    let s = line + seq!['\n'] + rest;
    lemma_line_is(line, rest);
    assert(line.take(line.len() as int) =~= line);
    assert(s.take(line.len() as int) =~= line);
    assert(s.skip(line.len() as int + 1) =~= rest);
    assert(listed_addresses(line) =~= (match line_address(line) {
        Some(address) => seq![address],
        None => Seq::empty(),
    }));
    assert(listed_addresses(s) =~= listed_addresses(line) + listed_addresses(rest));
}

/// The text is one word: not empty, and without white space and comment signs.
pub open spec fn one_word(s: Seq<char>) -> bool {
    &&& s.len() > 0
    &&& forall|i: int|
        0 <= i < s.len() ==> !white_space(#[trigger] s[i]) && s[i] != '#' && s[i] != ';'
}

/// The text is white space only.
pub open spec fn blank(s: Seq<char>) -> bool {
    forall|i: int| 0 <= i < s.len() ==> white_space(#[trigger] s[i])
}

proof fn lemma_comment(content: Seq<char>, rest: Seq<char>)
    requires
        forall|i: int| 0 <= i < content.len() ==> #[trigger] content[i] != '#' && content[i] != ';',
        rest.len() > 0 ==> rest[0] == '#' || rest[0] == ';',
    ensures
        comment_start(content + rest) == content.len(),
    decreases content.len(),
{
    let s = content + rest;
    if content.len() > 0 {
        assert(s[0] == content[0]);
        let fewer = content.skip(1);
        assert forall|i: int| 0 <= i < fewer.len() implies #[trigger] fewer[i] != '#' && fewer[i]
            != ';' by {
            assert(fewer[i] == content[i + 1]);
        }
        lemma_comment(fewer, rest);
        assert(s.skip(1) =~= fewer + rest);
    } else {
        assert(s =~= rest);
    }
}

proof fn lemma_word(before: Seq<char>, word: Seq<char>, rest: Seq<char>)
    requires
        blank(before),
        forall|i: int| 0 <= i < word.len() ==> !white_space(#[trigger] word[i]),
        rest.len() > 0 ==> white_space(rest[0]),
        word.len() == 0 ==> rest.len() == 0,
    ensures
        trimmed_start(before + word + rest) == word + rest,
        word_length(word + rest) == word.len(),
    decreases before.len() + word.len(),
{
    let s = before + word + rest;
    if before.len() > 0 {
        assert(s[0] == before[0]);
        let fewer = before.skip(1);
        assert(blank(fewer)) by {
            assert forall|i: int| 0 <= i < fewer.len() implies white_space(#[trigger] fewer[i]) by {
                assert(fewer[i] == before[i + 1]);
            }
        }
        lemma_word(fewer, word, rest);
        assert(s.skip(1) =~= fewer + word + rest);
    } else {
        assert(s =~= word + rest);
        if word.len() > 0 {
            assert(s[0] == word[0]);
            let fewer = word.skip(1);
            assert forall|i: int| 0 <= i < fewer.len() implies !white_space(
                #[trigger] fewer[i],
            ) by {
                assert(fewer[i] == word[i + 1]);
            }
            assert((word + rest).skip(1) =~= fewer + rest);
            lemma_word_length(fewer, rest);
            assert((word + rest)[0] == word[0]);
        } else {
            assert(word + rest =~= Seq::empty());
        }
    }
}

proof fn lemma_word_length(word: Seq<char>, rest: Seq<char>)
    requires
        forall|i: int| 0 <= i < word.len() ==> !white_space(#[trigger] word[i]),
        rest.len() > 0 ==> white_space(rest[0]),
    ensures
        word_length(word + rest) == word.len(),
    decreases word.len(),
{
    let s = word + rest;
    if word.len() > 0 {
        assert(s[0] == word[0]);
        let fewer = word.skip(1);
        assert forall|i: int| 0 <= i < fewer.len() implies !white_space(#[trigger] fewer[i]) by {
            assert(fewer[i] == word[i + 1]);
        }
        lemma_word_length(fewer, rest);
        assert(s.skip(1) =~= fewer + rest);
    } else {
        assert(s =~= rest);
    }
}

/// A line gives an address exactly as it is written: white space, the keyword, white space, the
/// address, then white space and whatever follows it, then a comment. With another word in the
/// place of the keyword it gives none, nor with nothing behind the keyword.
pub proof fn law_nameserver_lines_give_their_address(
    indent: Seq<char>,
    keyword: Seq<char>,
    gap: Seq<char>,
    address: Seq<char>,
    more: Seq<char>,
    comment: Seq<char>,
)
    requires
        blank(indent),
        one_word(keyword),
        blank(gap),
        gap.len() > 0,
        one_word(address),
        more.len() > 0 ==> white_space(more[0]),
        forall|i: int| 0 <= i < more.len() ==> #[trigger] more[i] != '#' && more[i] != ';',
        comment.len() > 0 ==> comment[0] == '#' || comment[0] == ';',
    ensures
        line_address(indent + keyword + gap + address + more + comment) == (if keyword
            == "nameserver"@ {
            Some(address)
        } else {
            None
        }),
        line_address(indent + keyword + gap + comment) is None,
        line_address(indent + comment) is None,
{
    reveal_strlit("nameserver");
    assert forall|i: int| 0 <= i < indent.len() implies #[trigger] indent[i] != '#' && indent[i]
        != ';' by {}
    assert forall|i: int| 0 <= i < gap.len() implies #[trigger] gap[i] != '#' && gap[i]
        != ';' by {}
    let content = indent + keyword + gap + address + more;
    let line = content + comment;
    assert(line =~= indent + keyword + gap + address + more + comment);
    lemma_comment(content, comment);
    assert(line.take(content.len() as int) =~= content);
    let behind = gap + address + more;
    assert(behind[0] == gap[0]);
    lemma_word(indent, keyword, behind);
    assert(content =~= indent + keyword + behind);
    assert((keyword + behind).take(keyword.len() as int) =~= keyword);
    assert((keyword + behind).skip(keyword.len() as int) =~= behind);
    lemma_word(gap, address, more);
    assert((address + more).take(address.len() as int) =~= address);

    let short = indent + keyword + gap;
    assert(short + comment =~= indent + keyword + gap + comment);
    lemma_comment(short, comment);
    assert((short + comment).take(short.len() as int) =~= short);
    lemma_word(indent, keyword, gap);
    assert((keyword + gap).skip(keyword.len() as int) =~= gap);
    lemma_word(gap, Seq::empty(), Seq::empty());
    assert(gap + Seq::<char>::empty() + Seq::<char>::empty() =~= gap);
    assert(Seq::<char>::empty() + Seq::<char>::empty() =~= Seq::empty());
    assert(Seq::<char>::empty().take(0) =~= Seq::empty());

    lemma_comment(indent, comment);
    assert((indent + comment).take(indent.len() as int) =~= indent);
    lemma_word(indent, Seq::empty(), Seq::empty());
    assert(indent + Seq::<char>::empty() + Seq::<char>::empty() =~= indent);
}

/// The nameservers are those at the addresses, in order: what two lists give is what the one
/// gives and what the other gives. An address gives one, at the port of nameservers; what is no
/// address gives none.
pub proof fn law_every_address_is_a_nameserver(
    a: Seq<Option<Seq<u8>>>,
    b: Seq<Option<Seq<u8>>>,
    octets: Seq<u8>,
)
    ensures
        servers_at(a + b) == servers_at(a) + servers_at(b),
        servers_at(seq![Some(octets)]) == seq![NameserverView { octets, port: 53 }],
        servers_at(seq![None]) == Seq::<NameserverView>::empty(),
    decreases b.len(),
{
    assert(seq![Some(octets)].drop_last() =~= Seq::<Option<Seq<u8>>>::empty());
    assert(seq![None::<Seq<u8>>].drop_last() =~= Seq::<Option<Seq<u8>>>::empty());
    assert(servers_at(Seq::empty()) =~= Seq::empty());
    assert(servers_at(seq![Some(octets)]) =~= seq![NameserverView { octets, port: 53 }]);
    if b.len() == 0 {
        assert(a + b =~= a);
        assert(servers_at(a) + servers_at(b) =~= servers_at(a));
    } else {
        law_every_address_is_a_nameserver(a, b.drop_last(), octets);
        assert((a + b).drop_last() =~= a + b.drop_last());
        assert(servers_at(a + b) =~= servers_at(a) + servers_at(b));
    }
}

/// Each text is read by itself, in its place, and a configuration is refused exactly if none of
/// its texts is an address.
pub proof fn law_configurations_need_an_address(texts: Seq<Seq<char>>)
    ensures
        written_addresses(texts).len() == texts.len(),
        forall|i: int|
            0 <= i < texts.len() ==> #[trigger] written_addresses(texts)[i] == written_address(
                texts[i],
            ),
        some_server(servers_at(written_addresses(texts))) is Err <==> forall|i: int|
            0 <= i < texts.len() ==> written_address(#[trigger] texts[i]) is None,
        some_server(servers_at(written_addresses(texts))) is Ok ==> some_server(
            servers_at(written_addresses(texts)),
        )->Ok_0 == servers_at(written_addresses(texts)),
    decreases texts.len(),
{
    if texts.len() > 0 {
        let rest = texts.drop_last();
        law_configurations_need_an_address(rest);
        assert(written_addresses(texts).drop_last() =~= written_addresses(rest));
        assert(written_addresses(texts).last() == written_address(texts[texts.len() - 1]));
        if forall|i: int| 0 <= i < rest.len() ==> written_address(#[trigger] rest[i]) is None {
            assert forall|i: int| 0 <= i < texts.len() - 1 implies written_address(
                #[trigger] texts[i],
            ) is None by {
                assert(rest[i] == texts[i]);
            }
        } else {
            let i = choose|i: int|
                0 <= i < rest.len() && !(written_address(#[trigger] rest[i]) is None);
            assert(texts[i] == rest[i]);
        }
    }
}

// Questions and answers.
/// Questions ask the same exactly if they agree but for the case of the letters in names; the
/// question that is asked is in small letters and asks the same as the name as written.
pub proof fn law_questions_ignore_case(labels: Seq<Seq<u8>>, absolute: bool, q: DnsQuestionView)
    ensures
        ({
            let asked = address_question(labels, absolute);
            &&& asked.query_type == 1
            &&& asked.query_class == 1
            &&& asked.absolute == absolute
            &&& asked.labels.len() == labels.len()
            &&& forall|i: int|
                0 <= i < labels.len() ==> same_label(#[trigger] asked.labels[i], labels[i])
            &&& forall|i: int, k: int|
                0 <= i < labels.len() && 0 <= k < asked.labels[i].len() ==> !(0x41
                    <= #[trigger] asked.labels[i][k] <= 0x5a)
            &&& same_question(asked, asked)
            &&& same_question(asked, q) <==> same_question(q, asked)
            &&& same_question(q, asked) ==> q.labels.len() == labels.len() && q.query_type == 1
                && q.query_class == 1 && q.absolute == absolute
        }),
{
    let asked = address_question(labels, absolute);
    assert forall|i: int| 0 <= i < labels.len() implies same_label(
        #[trigger] asked.labels[i],
        labels[i],
    ) by {
        assert(asked.labels[i] == lowered(labels[i]));
    }
    if same_question(asked, q) {
        assert forall|i: int| 0 <= i < q.labels.len() implies same_label(
            #[trigger] q.labels[i],
            asked.labels[i],
        ) by {
            assert(same_label(asked.labels[i], q.labels[i]));
            lemma_label_symmetric(asked.labels[i], q.labels[i]);
        }
    }
    if same_question(q, asked) {
        assert forall|i: int| 0 <= i < asked.labels.len() implies same_label(
            #[trigger] asked.labels[i],
            q.labels[i],
        ) by {
            assert(same_label(q.labels[i], asked.labels[i]));
            lemma_label_symmetric(q.labels[i], asked.labels[i]);
        }
    }
}

proof fn lemma_label_symmetric(a: Seq<u8>, b: Seq<u8>)
    requires
        same_label(a, b),
    ensures
        same_label(b, a),
{
    assert forall|i: int|
        0 <= i < b.len() implies crate::fleet_dns::folded_byte(#[trigger] b[i])
        == crate::fleet_dns::folded_byte(a[i]) by {
        assert(crate::fleet_dns::folded_byte(a[i]) == crate::fleet_dns::folded_byte(b[i]));
    }
}

/// Labels are the same exactly if they are as long and differ at no place in more than the case
/// of a letter.
pub proof fn law_labels_differ_only_in_case(a: Seq<u8>, b: Seq<u8>)
    ensures
        same_label(a, b) <==> a.len() == b.len() && forall|i: int|
            0 <= i < a.len() ==> #[trigger] a[i] == b[i] || (0x41 <= a[i] <= 0x5a && b[i] == a[i]
                + 0x20) || (0x41 <= b[i] <= 0x5a && a[i] == b[i] + 0x20),
{
    if same_label(a, b) {
        assert forall|i: int| 0 <= i < a.len() implies #[trigger] a[i] == b[i] || (0x41 <= a[i]
            <= 0x5a && b[i] == a[i] + 0x20) || (0x41 <= b[i] <= 0x5a && a[i] == b[i] + 0x20) by {
            assert(crate::fleet_dns::folded_byte(a[i]) == crate::fleet_dns::folded_byte(b[i]));
        }
    }
}

/// A reply is taken exactly if it is not too large, can be read, is a response to a standard
/// query, has the identifier, and repeats the one question; it is then taken as it is.
pub proof fn law_replies_are_taken_as_they_are(
    reply: Seq<u8>,
    id: u16,
    question: DnsQuestionView,
)
    ensures
        ({
            let read = crate::fleet_dns::decoded_message(reply);
            let taken = parsed_reply(reply, id, question);
            &&& taken is Ok <==> reply.len() <= 8192 && read is Ok && read->Ok_0.response
                && read->Ok_0.op_code == 0 && read->Ok_0.id == id && read->Ok_0.questions.len() == 1
                && same_question(read->Ok_0.questions[0], question)
            &&& taken is Ok ==> taken->Ok_0 == read->Ok_0
        }),
{
}

/// Every address in an answer is told, in order, and nothing else: what two lists of records
/// give is what the one gives and what the other gives.
pub proof fn law_every_answered_address_is_told(
    a: Seq<Option<(u8, u8, u8, u8)>>,
    b: Seq<Option<(u8, u8, u8, u8)>>,
    address: (u8, u8, u8, u8),
)
    ensures
        answered_addresses(a + b) == answered_addresses(a) + answered_addresses(b),
        answered_addresses(seq![Some(address)]) == seq![dotted(address)],
        answered_addresses(seq![None]) == Seq::<Seq<char>>::empty(),
    decreases b.len(),
{
    assert(seq![Some(address)].drop_last() =~= Seq::<Option<(u8, u8, u8, u8)>>::empty());
    assert(seq![None::<(u8, u8, u8, u8)>].drop_last() =~= Seq::<
        Option<(u8, u8, u8, u8)>,
    >::empty());
    assert(answered_addresses(Seq::empty()) =~= Seq::empty());
    assert(answered_addresses(seq![Some(address)]) =~= seq![dotted(address)]);
    if b.len() == 0 {
        assert(a + b =~= a);
        assert(answered_addresses(a) + answered_addresses(b) =~= answered_addresses(a));
    } else {
        law_every_answered_address_is_told(a, b.drop_last(), address);
        assert((a + b).drop_last() =~= a + b.drop_last());
        assert(answered_addresses(a + b) =~= answered_addresses(a) + answered_addresses(b));
    }
}

/// What an exchange comes to: a refusal is passed on, a truncated reply is asked for again
/// unless it came over TCP, and any other gives its addresses or, where the code is another
/// than zero, an error that names the nameserver.
pub proof fn law_exchanges_end_with_the_reply(
    server: Seq<char>,
    checked: Result<DnsMessageView, DnsErrorView>,
    over_tcp: bool,
)
    ensures
        exchange_step(server, checked, over_tcp) is None <==> checked is Ok
            && checked->Ok_0.truncated && !over_tcp,
        checked is Err ==> exchange_step(server, checked, over_tcp) == Some(
            Err::<Seq<Seq<char>>, DnsErrorView>(checked->Err_0),
        ),
        checked is Ok && (over_tcp || !checked->Ok_0.truncated) ==> ({
            let outcome = exchange_step(server, checked, over_tcp)->0;
            let m = checked->Ok_0;
            &&& outcome is Ok <==> m.response_code == 0
            &&& outcome is Ok ==> outcome->Ok_0 == answered_addresses(m.answers)
            &&& outcome is Err ==> outcome->Err_0.kind == DnsErrorKind::Other && ("nameserver "@
                + server).is_prefix_of(outcome->Err_0.message)
        }),
{
    if let Ok(m) = checked {
        if settled(server, m) is Err {
            let message = settled(server, m)->Err_0.message;
            let head = "nameserver "@ + server;
            assert(message.subrange(0, head.len() as int) =~= head);
        }
    }
}

/// The first nameserver that answers decides; if none does, the last error is told.
pub proof fn law_first_nameserver_to_answer_decides(
    outcomes: Seq<Result<Seq<Seq<char>>, DnsErrorView>>,
    i: int,
)
    requires
        0 <= i < outcomes.len(),
        forall|k: int| 0 <= k < i ==> #[trigger] outcomes[k] is Err,
        outcomes[i] is Ok || i == outcomes.len() - 1,
    ensures
        first_reply(outcomes) == outcomes[i],
    decreases outcomes.len(),
{
    if i > 0 {
        assert(outcomes[0] is Err);
        let rest = outcomes.skip(1);
        assert(forall|k: int| 0 <= k < rest.len() ==> #[trigger] rest[k] == outcomes[k + 1]);
        law_first_nameserver_to_answer_decides(rest, i - 1);
    }
}

} // verus!
