//! Where the user and the group of a process come from.
use vstd::prelude::*;

use crate::identity::{
    account_number, before_char, declared_parts, driver_error, has_oversized_field, image_identity,
    lines, looked_up, numeric_identity, parts, scanned, selected_id, well_formed, AccountFile,
    AccountQueryView, DriverRules, ProcessIdentityView, MAX_ACCOUNT_LINE_SIZE,
};
use crate::text::{joined, parsed_unsigned};

verus! {

// Splitting.
proof fn lemma_before_char_is_first(s: Seq<char>, c: char)
    ensures
        0 <= before_char(s, c) <= s.len(),
        !s.take(before_char(s, c)).contains(c),
        before_char(s, c) < s.len() ==> s[before_char(s, c)] == c,
    decreases s.len(),
{
    if s.len() > 0 && s[0] != c {
        let rest = s.skip(1);
        lemma_before_char_is_first(rest, c);
        let head = s.take(before_char(s, c));
        if head.contains(c) {
            let i = choose|i: int| 0 <= i < head.len() && head[i] == c;
            assert(rest.take(before_char(rest, c))[i - 1] == c);
        }
    }
}

/// The parts of a text are what stands between the occurrences of the character: joined by it
/// they give the text back, and none of them has it.
pub proof fn law_parts_give_the_text_back(s: Seq<char>, c: char)
    ensures
        parts(s, c).len() > 0,
        joined(parts(s, c), seq![c]) == s,
        forall|i: int| 0 <= i < parts(s, c).len() ==> !(#[trigger] parts(s, c)[i]).contains(c),
    decreases s.len(),
{
    lemma_before_char_is_first(s, c);
    let n = before_char(s, c);
    if n < s.len() {
        let rest = parts(s.skip(n + 1), c);
        law_parts_give_the_text_back(s.skip(n + 1), c);
        lemma_joined_front(s.take(n), rest, seq![c]);
        assert(s.take(n) + seq![c] + s.skip(n + 1) =~= s);
        assert forall|i: int| 0 <= i < parts(s, c).len() implies !(#[trigger] parts(
            s,
            c,
        )[i]).contains(c) by {
            if i > 0 {
                assert(parts(s, c)[i] == rest[i - 1]);
            }
        }
    } else {
        assert(s.take(n) =~= s);
        crate::text_laws::law_joined_parts_stand_in_order(Seq::empty(), s, seq![c]);
    }
}

proof fn lemma_joined_front(first: Seq<char>, rest: Seq<Seq<char>>, separator: Seq<char>)
    requires
        rest.len() > 0,
    ensures
        joined(seq![first] + rest, separator) == first + separator + joined(rest, separator),
    decreases rest.len(),
{
    let before = rest.drop_last();
    let all = seq![first] + rest;
    crate::text_laws::law_joined_parts_stand_in_order(before, rest.last(), separator);
    crate::text_laws::law_joined_parts_stand_in_order(
        seq![first] + before,
        rest.last(),
        separator,
    );
    assert(all =~= (seq![first] + before).push(rest.last()));
    assert(rest =~= before.push(rest.last()));
    if before.len() == 0 {
        assert(seq![first] + before =~= seq![first]);
        crate::text_laws::law_joined_parts_stand_in_order(before, first, separator);
        assert(rest =~= seq![rest.last()]);
    } else {
        lemma_joined_front(first, before, separator);
    }
    assert(joined(all, separator) =~= first + separator + joined(rest, separator));
}

/// The lines of a text are its parts between line breaks, each but the last without the
/// carriage return at its end.
pub proof fn law_lines_are_parts(s: Seq<char>)
    ensures
        lines(s).len() == parts(s, '\n').len(),
        lines(s).last() == parts(s, '\n').last(),
        forall|i: int|
            0 <= i < lines(s).len() - 1 ==> {
                let part = parts(s, '\n')[i];
                #[trigger] lines(s)[i] == if part.len() > 0 && part.last() == '\r' {
                    part.drop_last()
                } else {
                    part
                }
            },
    decreases s.len(),
{
    lemma_before_char_is_first(s, '\n');
    let n = before_char(s, '\n');
    if n < s.len() {
        let rest = s.skip(n + 1);
        law_lines_are_parts(rest);
        law_parts_give_the_text_back(rest, '\n');
        assert(lines(s).last() == lines(rest).last());
        assert(parts(s, '\n').last() == parts(rest, '\n').last());
        assert forall|i: int| 0 <= i < lines(s).len() - 1 implies ({
            let part = parts(s, '\n')[i];
            #[trigger] lines(s)[i] == if part.len() > 0 && part.last() == '\r' {
                part.drop_last()
            } else {
                part
            }
        }) by {
            if i > 0 {
                assert(lines(s)[i] == lines(rest)[i - 1]);
                assert(parts(s, '\n')[i] == parts(rest, '\n')[i - 1]);
            }
        }
    }
}

/// An image's declaration is its user, and, behind the first colon, its group.
pub proof fn law_declaration_is_user_and_group(declaration: Seq<char>)
    ensures
        ({
            let (user, group) = declared_parts(declaration);
            &&& !user.contains(':')
            &&& match group {
                Some(name) => declaration == user + seq![':'] + name,
                None => declaration == user,
            }
        }),
{
    lemma_before_char_is_first(declaration, ':');
    let n = before_char(declaration, ':');
    if n < declaration.len() {
        assert(declaration =~= declaration.take(n) + seq![':'] + declaration.skip(n + 1));
    } else {
        assert(declaration.take(n) =~= declaration);
    }
}

// Account files.
/// The line counts, and is for the account that is looked for.
pub open spec fn is_entry(line: Seq<char>, query: AccountQueryView) -> bool {
    let fields = parts(line, ':');
    &&& line.len() > 0
    &&& line[0] != '#'
    &&& match query {
        AccountQueryView::User(name) => fields[0] == name,
        AccountQueryView::Group(name) => fields[0] == name,
        AccountQueryView::Uid(uid) => fields.len() > 2 && parsed_unsigned(
            fields[2],
            u32::MAX as int,
        ) == Some(uid as int),
    }
}

/// The line is in order, and these are its numbers: of a user the third and the fourth of
/// seven fields, of a group the third of four.
pub open spec fn entry_is(line: Seq<char>, query: AccountQueryView, entry: (u32, u32)) -> bool {
    let fields = parts(line, ':');
    match query {
        AccountQueryView::Group(_) => {
            &&& fields.len() == 4
            &&& entry.0 == 0
            &&& parsed_unsigned(fields[2], u32::MAX as int) == Some(entry.1 as int)
        },
        _ => {
            &&& fields.len() == 7
            &&& parsed_unsigned(fields[2], u32::MAX as int) == Some(entry.0 as int)
            &&& parsed_unsigned(fields[3], u32::MAX as int) == Some(entry.1 as int)
        },
    }
}

proof fn lemma_scanned(
    rest: Seq<Seq<char>>,
    query: AccountQueryView,
    path: Seq<char>,
    found: Option<(u32, u32)>,
)
    requires
        scanned(rest, query, path, found) is Ok,
    ensures
        match scanned(rest, query, path, found)->Ok_0 {
            None => found is None && forall|i: int|
                0 <= i < rest.len() ==> !is_entry(#[trigger] rest[i], query),
            Some(entry) => if found is Some {
                found == Some(entry) && forall|i: int|
                    0 <= i < rest.len() ==> !is_entry(#[trigger] rest[i], query)
            } else {
                exists|i: int|
                    {
                        &&& 0 <= i < rest.len()
                        &&& is_entry(#[trigger] rest[i], query)
                        &&& entry_is(rest[i], query, entry)
                        &&& forall|j: int|
                            0 <= j < rest.len() && j != i ==> !is_entry(#[trigger] rest[j], query)
                    }
            },
        },
    decreases rest.len(),
{
    if rest.len() > 0 {
        let line = rest[0];
        let tail = rest.skip(1);
        law_parts_give_the_text_back(line, ':');
        let outcome = scanned(rest, query, path, found)->Ok_0;
        let here = is_entry(line, query);
        assert(forall|i: int| 0 < i < rest.len() ==> #[trigger] rest[i] == tail[i - 1]);
        if here {
            let entry = crate::identity::selected(parts(line, ':'), query)->0->Ok_0;
            lemma_numbers_fit(parts(line, ':'), query);
            lemma_scanned(tail, query, path, Some(entry));
            assert(outcome == Some(entry));
            assert(entry_is(rest[0], query, entry));
            assert forall|j: int| 0 <= j < rest.len() && j != 0 implies !is_entry(
                #[trigger] rest[j],
                query,
            ) by {
                assert(rest[j] == tail[j - 1]);
            }
        } else {
            lemma_scanned(tail, query, path, found);
            match outcome {
                None => {
                    assert forall|j: int| 0 <= j < rest.len() implies !is_entry(
                        #[trigger] rest[j],
                        query,
                    ) by {
                        if j > 0 {
                            assert(rest[j] == tail[j - 1]);
                        }
                    }
                },
                Some(entry) => {
                    if found is Some {
                        assert forall|j: int| 0 <= j < rest.len() implies !is_entry(
                            #[trigger] rest[j],
                            query,
                        ) by {
                            if j > 0 {
                                assert(rest[j] == tail[j - 1]);
                            }
                        }
                    } else {
                        let i = choose|i: int|
                            {
                                &&& 0 <= i < tail.len()
                                &&& is_entry(#[trigger] tail[i], query)
                                &&& entry_is(tail[i], query, entry)
                                &&& forall|j: int|
                                    0 <= j < tail.len() && j != i ==> !is_entry(
                                        #[trigger] tail[j],
                                        query,
                                    )
                            };
                        assert(rest[i + 1] == tail[i]);
                        assert forall|j: int| 0 <= j < rest.len() && j != i + 1 implies !is_entry(
                            #[trigger] rest[j],
                            query,
                        ) by {
                            if j > 0 {
                                assert(rest[j] == tail[j - 1]);
                            }
                        }
                    }
                },
            }
        }
    }
}

proof fn lemma_numbers_fit(fields: Seq<Seq<char>>, query: AccountQueryView)
    ensures
        forall|i: int|
            parsed_unsigned(#[trigger] fields[i], u32::MAX as int) is Some ==> 0
                <= parsed_unsigned(fields[i], u32::MAX as int)->0 <= u32::MAX,
{
    assert forall|i: int|
        parsed_unsigned(#[trigger] fields[i], u32::MAX as int) is Some implies 0
        <= parsed_unsigned(fields[i], u32::MAX as int)->0 <= u32::MAX by {
        crate::text_laws::law_only_digits_write_numbers(fields[i], u32::MAX as int, 0);
    }
}

/// What an account file gives is on the one line for the account: its numbers are those of
/// that line, and no other line is for the account. Nothing is found exactly if no line is.
pub proof fn law_account_is_on_one_line(file: AccountFile, query: AccountQueryView)
    requires
        looked_up(file, query) is Ok,
    ensures
        file.text is Ok,
        ({
            let all = lines(file.text->Ok_0@);
            match looked_up(file, query)->Ok_0 {
                None => forall|i: int| 0 <= i < all.len() ==> !is_entry(#[trigger] all[i], query),
                Some(entry) => exists|i: int|
                    {
                        &&& 0 <= i < all.len()
                        &&& is_entry(#[trigger] all[i], query)
                        &&& entry_is(all[i], query, entry)
                        &&& forall|j: int|
                            0 <= j < all.len() && j != i ==> !is_entry(#[trigger] all[j], query)
                    },
            }
        }),
{
    lemma_scanned(lines(file.text->Ok_0@), query, file.path@, None);
}

/// The line does not count, or is short enough and so are its fields.
pub open spec fn in_bounds(line: Seq<char>) -> bool {
    line.len() == 0 || line[0] == '#' || (vstd::utf8::encode_utf8(line).len()
        <= MAX_ACCOUNT_LINE_SIZE && !has_oversized_field(parts(line, ':')))
}

proof fn lemma_scan_succeeds(
    rest: Seq<Seq<char>>,
    query: AccountQueryView,
    path: Seq<char>,
    found: Option<(u32, u32)>,
)
    requires
        forall|i: int| 0 <= i < rest.len() ==> in_bounds(#[trigger] rest[i]),
        forall|i: int|
            0 <= i < rest.len() && is_entry(#[trigger] rest[i], query) ==> found is None && exists|
                entry: (u32, u32),
            | entry_is(rest[i], query, entry),
        forall|i: int, j: int|
            0 <= i < j < rest.len() ==> !(is_entry(#[trigger] rest[i], query) && is_entry(
                #[trigger] rest[j],
                query,
            )),
    ensures
        scanned(rest, query, path, found) is Ok,
    decreases rest.len(),
{
    if rest.len() > 0 {
        let line = rest[0];
        let tail = rest.skip(1);
        assert(forall|i: int| 0 <= i < tail.len() ==> #[trigger] tail[i] == rest[i + 1]);
        law_parts_give_the_text_back(line, ':');
        assert(in_bounds(rest[0]));
        if is_entry(line, query) {
            assert(is_entry(rest[0], query));
            let entry = choose|entry: (u32, u32)| entry_is(line, query, entry);
            let chosen = crate::identity::selected(parts(line, ':'), query);
            assert(chosen is Some && chosen->0 is Ok);
            assert forall|i: int| 0 <= i < tail.len() implies !is_entry(
                #[trigger] tail[i],
                query,
            ) by {
                assert(tail[i] == rest[i + 1]);
                assert(!(is_entry(rest[0], query) && is_entry(rest[i + 1], query)));
            }
            lemma_scan_succeeds(tail, query, path, Some(chosen->0->Ok_0));
        } else {
            assert forall|i: int, j: int| 0 <= i < j < tail.len() implies !(is_entry(
                #[trigger] tail[i],
                query,
            ) && is_entry(#[trigger] tail[j], query)) by {
                assert(tail[i] == rest[i + 1]);
                assert(tail[j] == rest[j + 1]);
            }
            lemma_scan_succeeds(tail, query, path, found);
        }
    }
}

/// An account file that can be read answers, if its lines and fields are not too long, and if
/// no more than one line is for the account and that line is in order.
pub proof fn law_orderly_account_files_answer(file: AccountFile, query: AccountQueryView)
    requires
        file.text is Ok,
        ({
            let all = lines(file.text->Ok_0@);
            &&& forall|i: int| 0 <= i < all.len() ==> in_bounds(#[trigger] all[i])
            &&& forall|i: int|
                0 <= i < all.len() && is_entry(#[trigger] all[i], query) ==> exists|
                    entry: (u32, u32),
                | entry_is(all[i], query, entry)
            &&& forall|i: int, j: int|
                0 <= i < j < all.len() ==> !(is_entry(#[trigger] all[i], query) && is_entry(
                    #[trigger] all[j],
                    query,
                ))
        }),
    ensures
        looked_up(file, query) is Ok,
{
    lemma_scan_succeeds(lines(file.text->Ok_0@), query, file.path@, None);
}

/// An account file answers only if it is within its limits: no line that counts has more than
/// 8192 bytes, and no field of one more than 1024.
pub proof fn law_oversized_account_files_are_refused(
    file: AccountFile,
    query: AccountQueryView,
    i: int,
    j: int,
)
    requires
        looked_up(file, query) is Ok,
        0 <= i < lines(file.text->Ok_0@).len(),
    ensures
        ({
            let line = lines(file.text->Ok_0@)[i];
            line.len() > 0 && line[0] != '#' ==> vstd::utf8::encode_utf8(line).len() <= 8192 && (0
                <= j < parts(line, ':').len() ==> vstd::utf8::encode_utf8(
                parts(line, ':')[j],
            ).len() <= 1024)
        }),
{
    lemma_scanned_in_bounds(lines(file.text->Ok_0@), query, file.path@, None, i);
}

proof fn lemma_scanned_in_bounds(
    rest: Seq<Seq<char>>,
    query: AccountQueryView,
    path: Seq<char>,
    found: Option<(u32, u32)>,
    i: int,
)
    requires
        scanned(rest, query, path, found) is Ok,
        0 <= i < rest.len(),
    ensures
        in_bounds(rest[i]),
    decreases rest.len(),
{
    if i > 0 {
        let tail = rest.skip(1);
        let line = rest[0];
        let next = if line.len() == 0 || line[0] == '#' {
            found
        } else {
            match crate::identity::selected(parts(line, ':'), query) {
                Some(Ok(entry)) => Some(entry),
                _ => found,
            }
        };
        assert(scanned(tail, query, path, next) is Ok);
        lemma_scanned_in_bounds(tail, query, path, next, i - 1);
        assert(tail[i - 1] == rest[i]);
    }
}

// Users and groups.
/// A text can be an account exactly if it is not empty, has at most 1024 bytes, no white space
/// at its ends, and neither a colon nor a control character anywhere.
pub proof fn law_accounts_are_plain_words(value: Seq<char>)
    ensures
        well_formed(value) <==> {
            &&& value.len() > 0
            &&& vstd::utf8::encode_utf8(value).len() <= 1024
            &&& !crate::text::white_space(value[0]) && !crate::text::white_space(value.last())
            &&& !value.contains(':')
            &&& forall|i: int|
                0 <= i < value.len() ==> {
                    let c = #[trigger] value[i] as u32;
                    c >= 0x20 && c != 0x7f && !(0x80 <= c <= 0x9f)
                }
        },
{
    crate::text::law_trimming_takes_only_white_space(value);
    if well_formed(value) {
        if value.contains(':') {
            let i = choose|i: int| 0 <= i < value.len() && value[i] == ':';
            assert(value[i] == ':');
        }
        assert forall|i: int| 0 <= i < value.len() implies ({
            let c = #[trigger] value[i] as u32;
            c >= 0x20 && c != 0x7f && !(0x80 <= c <= 0x9f)
        }) by {
            assert(!crate::identity::control(value[i]));
        }
    }
    if value.len() > 0 && !crate::text::white_space(value[0]) && !crate::text::white_space(
        value.last(),
    ) {
        assert(crate::text::trimmed_start(value) == value);
        assert(crate::text::trimmed(value) == value);
        if !value.contains(':') {
            assert forall|i: int| 0 <= i < value.len() implies #[trigger] value[i] != ':' by {
                assert(value.contains(value[i]));
            }
        }
    }
}

/// The number that a text writes, or that of the user of that name in the file.
pub open spec fn is_user(text: Seq<char>, passwd: AccountFile, uid: u32) -> bool {
    if parsed_unsigned(text, u32::MAX as int) is Some {
        parsed_unsigned(text, u32::MAX as int) == Some(uid as int)
    } else {
        match looked_up(passwd, AccountQueryView::User(text)) {
            Ok(Some(entry)) => entry.0 == uid,
            _ => false,
        }
    }
}

/// The number that a text writes, or that of the group of that name in the file.
pub open spec fn is_group(text: Seq<char>, group: AccountFile, gid: u32) -> bool {
    if parsed_unsigned(text, u32::MAX as int) is Some {
        parsed_unsigned(text, u32::MAX as int) == Some(gid as int)
    } else {
        match looked_up(group, AccountQueryView::Group(text)) {
            Ok(Some(entry)) => entry.1 == gid,
            _ => false,
        }
    }
}

/// The primary group, in the file, of the user that a text writes or names.
pub open spec fn is_primary_group(text: Seq<char>, passwd: AccountFile, gid: u32) -> bool {
    let query = if parsed_unsigned(text, u32::MAX as int) is Some {
        AccountQueryView::Uid(parsed_unsigned(text, u32::MAX as int)->0 as u32)
    } else {
        AccountQueryView::User(text)
    };
    match looked_up(passwd, query) {
        Ok(Some(entry)) => entry.1 == gid,
        _ => false,
    }
}

/// The policy sets the field, and not to nothing.
pub open spec fn is_set(value: Option<Seq<char>>) -> bool {
    value is Some && value->0.len() > 0
}

/// Where the numbers of a process come from. The user is the one that the policy sets, or else
/// the one before the first colon of the image's declaration. The group is the one that the
/// policy sets, or else the one that the declaration has behind the colon, or else, without a
/// colon, the primary group of the user that is declared. Each is the number itself, or that of
/// the account of the name.
pub proof fn law_identity_has_a_source(
    policy: ProcessIdentityView,
    declaration: Seq<char>,
    passwd: AccountFile,
    group: AccountFile,
    user_part: Seq<char>,
    group_part: Seq<char>,
)
    requires
        image_identity(policy, declaration, passwd, group) is Ok,
        !user_part.contains(':'),
        declaration == user_part || declaration == user_part + seq![':'] + group_part,
    ensures
        exists|uid: u32, gid: u32|
            {
                &&& uid != 0
                &&& gid != 0
                &&& image_identity(policy, declaration, passwd, group)->Ok_0
                    == #[trigger] numeric_identity(uid, gid)
                &&& if is_set(policy.run_as_user) {
                    is_user(policy.run_as_user->0, passwd, uid)
                } else {
                    user_part.len() > 0 && is_user(user_part, passwd, uid)
                }
                &&& if is_set(policy.run_as_group) {
                    is_group(policy.run_as_group->0, group, gid)
                } else if declaration != user_part {
                    group_part.len() > 0 && is_group(group_part, group, gid)
                } else {
                    is_primary_group(user_part, passwd, gid)
                }
            },
{
    lemma_declared_parts_are(declaration, user_part, group_part);
    let uid = crate::identity::chosen_uid(policy, declaration, passwd)->Ok_0;
    let gid = crate::identity::chosen_gid(policy, declaration, passwd, group)->Ok_0;
    let texts = seq![user_part, group_part, policy.run_as_user->0, policy.run_as_group->0];
    lemma_numbers_fit(texts, AccountQueryView::Uid(0));
    assert(texts[0] == user_part && texts[1] == group_part);
    assert(texts[2] == policy.run_as_user->0 && texts[3] == policy.run_as_group->0);
    assert(image_identity(policy, declaration, passwd, group)->Ok_0 == numeric_identity(uid, gid));
}

proof fn lemma_declared_parts_are(
    declaration: Seq<char>,
    user_part: Seq<char>,
    group_part: Seq<char>,
)
    requires
        !user_part.contains(':'),
        declaration == user_part || declaration == user_part + seq![':'] + group_part,
    ensures
        declaration == user_part ==> declared_parts(declaration) == (
            user_part,
            None::<Seq<char>>,
        ),
        declaration != user_part ==> declared_parts(declaration) == (user_part, Some(group_part)),
{
    lemma_before_char_is_first(declaration, ':');
    let n = before_char(declaration, ':');
    if declaration == user_part {
        if n < declaration.len() {
            assert(user_part.contains(declaration[n]));
        }
    } else {
        let m = user_part.len() as int;
        assert(declaration[m] == ':');
        if n < m {
            assert(user_part[n] == declaration[n]);
            assert(user_part.contains(':'));
        }
        if m < n {
            assert(declaration.take(n)[m] == ':');
        }
        assert(declaration.take(m) =~= user_part);
        assert(declaration.skip(m + 1) =~= group_part);
    }
}

/// The group that an image declares is the group of the process, unless the policy sets one,
/// whatever primary group the users have: two files of users that give the same user give the
/// same identity.
pub proof fn law_declared_group_needs_no_primary_group(
    policy: ProcessIdentityView,
    user_part: Seq<char>,
    group_part: Seq<char>,
    passwd: AccountFile,
    other_passwd: AccountFile,
    group: AccountFile,
)
    requires
        !user_part.contains(':'),
        !is_set(policy.run_as_user),
        image_identity(policy, user_part + seq![':'] + group_part, passwd, group) is Ok,
        image_identity(policy, user_part + seq![':'] + group_part, other_passwd, group) is Ok,
    ensures
        ({
            let declaration = user_part + seq![':'] + group_part;
            let one = image_identity(policy, declaration, passwd, group)->Ok_0;
            let other = image_identity(policy, declaration, other_passwd, group)->Ok_0;
            &&& one.run_as_group == other.run_as_group
            &&& parsed_unsigned(user_part, u32::MAX as int) is Some ==> one == other
        }),
{
    let declaration = user_part + seq![':'] + group_part;
    assert(declaration.len() != user_part.len());
    lemma_declared_parts_are(declaration, user_part, group_part);
    law_identity_has_a_source(policy, declaration, passwd, group, user_part, group_part);
    law_identity_has_a_source(policy, declaration, other_passwd, group, user_part, group_part);
}

/// What is well formed and known resolves: a user and a group that can be written so, are not
/// root's by name or number, and are numbers or in the account files, give the process their
/// numbers.
pub proof fn law_known_accounts_resolve(
    policy: ProcessIdentityView,
    user_part: Seq<char>,
    group_part: Seq<char>,
    passwd: AccountFile,
    group: AccountFile,
    uid: u32,
    gid: u32,
)
    requires
        !user_part.contains(':'),
        uid != 0,
        gid != 0,
        ({
            let user = if is_set(policy.run_as_user) {
                policy.run_as_user->0
            } else {
                user_part
            };
            let name = if is_set(policy.run_as_group) {
                policy.run_as_group->0
            } else {
                group_part
            };
            &&& well_formed(user) && user != "root"@ && is_user(user, passwd, uid)
            &&& well_formed(name) && name != "root"@ && is_group(name, group, gid)
        }),
        !is_set(policy.run_as_user) ==> looked_up(passwd, AccountQueryView::Uid(uid)) is Ok,
    ensures
        image_identity(policy, user_part + seq![':'] + group_part, passwd, group) == Ok::<
            ProcessIdentityView,
            Seq<char>,
        >(numeric_identity(uid, gid)),
{
    let declaration = user_part + seq![':'] + group_part;
    assert(declaration.len() != user_part.len());
    lemma_declared_parts_are(declaration, user_part, group_part);
}

/// Without a colon in the declaration, the primary group of the declared user is the group.
pub proof fn law_primary_group_is_the_default(
    policy: ProcessIdentityView,
    user_part: Seq<char>,
    passwd: AccountFile,
    group: AccountFile,
    uid: u32,
    gid: u32,
)
    requires
        !user_part.contains(':'),
        !is_set(policy.run_as_user),
        !is_set(policy.run_as_group),
        uid != 0,
        gid != 0,
        well_formed(user_part),
        user_part != "root"@,
        is_user(user_part, passwd, uid),
        is_primary_group(user_part, passwd, gid),
    ensures
        image_identity(policy, user_part, passwd, group) == Ok::<ProcessIdentityView, Seq<char>>(
            numeric_identity(uid, gid),
        ),
{
    lemma_declared_parts_are(user_part, user_part, user_part);
}

/// Numbers need no account files: a policy that sets the user and the group by numbers that are
/// not root's gives the process those numbers, whatever the image declares and whether or not
/// the files can be read.
pub proof fn law_numbers_need_no_files(
    policy: ProcessIdentityView,
    declaration: Seq<char>,
    passwd: AccountFile,
    group: AccountFile,
    uid: u32,
    gid: u32,
)
    requires
        uid != 0,
        gid != 0,
        policy == numeric_identity(uid, gid),
    ensures
        image_identity(policy, declaration, passwd, group) == Ok::<ProcessIdentityView, Seq<char>>(
            policy,
        ),
{
    lemma_number_is_well_formed(uid);
    lemma_number_is_well_formed(gid);
}

proof fn lemma_number_is_well_formed(n: u32)
    ensures
        well_formed(crate::text::decimal(n as nat)),
        crate::text::decimal(n as nat) != "root"@,
        account_number(crate::text::decimal(n as nat)) == Some(n as int),
{
    let s = crate::text::decimal(n as nat);
    reveal_strlit("root");
    crate::text::lemma_decimal_digits(n as nat);
    crate::text_laws::law_numbers_read_back(n as nat, u32::MAX as int);
    assert forall|i: int| 0 <= i < s.len() implies '0' <= #[trigger] s[i] && s[i] <= '9' by {
        assert(s.contains(s[i]));
    }
    assert("root"@[0] == 'r');
    reveal_with_fuel(crate::text::decimal, 11);
    assert(s.len() <= 10);
    assert(vstd::utf8::encode_utf8(s).len() <= 1024) by {
        lemma_ascii_length(s);
    }
    assert(crate::text::trimmed(s) == s);
}

proof fn lemma_ascii_length(s: Seq<char>)
    requires
        forall|i: int| 0 <= i < s.len() ==> '0' <= #[trigger] s[i] && s[i] <= '9',
    ensures
        vstd::utf8::encode_utf8(s).len() == s.len(),
    decreases s.len(),
{
    reveal_with_fuel(vstd::utf8::encode_utf8, 2);
    if s.len() > 0 {
        let rest = s.drop_first();
        assert forall|i: int| 0 <= i < rest.len() implies '0' <= #[trigger] rest[i] && rest[i]
            <= '9' by {
            assert(rest[i] == s[i + 1]);
        }
        lemma_ascii_length(rest);
        assert('0' <= s[0] && s[0] <= '9');
    }
}

/// The name of root is refused wherever it is asked for, whatever number an account file gives
/// it.
pub proof fn law_root_is_refused_by_name(
    policy: ProcessIdentityView,
    declaration: Seq<char>,
    passwd: AccountFile,
    group: AccountFile,
    user_part: Seq<char>,
    group_part: Seq<char>,
)
    requires
        !user_part.contains(':'),
        declaration == user_part || declaration == user_part + seq![':'] + group_part,
        policy.run_as_user == Some("root"@) || policy.run_as_group == Some("root"@) || (!is_set(
            policy.run_as_user,
        ) && user_part == "root"@) || (!is_set(policy.run_as_group) && declaration != user_part
            && group_part == "root"@),
    ensures
        image_identity(policy, declaration, passwd, group) is Err,
{
    reveal_strlit("root");
    lemma_declared_parts_are(declaration, user_part, group_part);
}

// Drivers.
/// What a driver may say: the user of the image and nothing else, or two numbers in range and
/// nothing else, or nothing.
pub proof fn law_driver_inputs_come_alone(
    oci_user: Option<Seq<char>>,
    uid: Option<Seq<char>>,
    gid: Option<Seq<char>>,
    rules: DriverRules,
)
    ensures
        driver_error(oci_user, uid, gid, rules) is None <==> {
            ||| uid is None && gid is None
            ||| {
                &&& oci_user is None
                &&& uid is Some
                &&& gid is Some
                &&& parsed_unsigned(uid->0, u32::MAX as int) is Some
                &&& parsed_unsigned(gid->0, u32::MAX as int) is Some
                &&& rules.min_id <= parsed_unsigned(uid->0, u32::MAX as int)->0 <= rules.max_id
                &&& rules.min_id <= parsed_unsigned(gid->0, u32::MAX as int)->0 <= rules.max_id
            }
        },
        uid is Some && selected_id(uid->0, rules) is Some ==> selected_id(uid->0, rules)
            == parsed_unsigned(uid->0, u32::MAX as int),
{
}

} // verus!
