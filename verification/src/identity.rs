//! The user and group that a sandboxed process runs as.
//!
//! A compute driver either selects numbers, or hands over the `USER` of an OCI image, which
//! is looked up in the account files of the image. What the policy sets comes first, field
//! by field, and nothing ever resolves to root.
use vstd::prelude::*;
use vstd::string::*;
use vstd::utf8::{decode_utf8, encode_utf8, valid_utf8};

use crate::text::{
    chars_of, decimal, decimal_text, parse_unsigned, parsed_unsigned, same_text, string_of, trim,
    trimmed, utf8_text,
};
use crate::values::{option_view, views};

verus! {

pub const PASSWD_PATH: &'static str = "/etc/passwd";

pub const GROUP_PATH: &'static str = "/etc/group";

/// Bytes of an account file.
pub const MAX_ACCOUNT_FILE_SIZE: u64 = 1048576;

/// Bytes of a line in an account file.
pub const MAX_ACCOUNT_LINE_SIZE: usize = 8192;

/// Bytes of a field in an account file.
pub const MAX_ACCOUNT_FIELD_SIZE: usize = 1024;

// Drivers.
/// What a compute driver says of the identity.
#[derive(Debug, PartialEq, Eq)]
pub enum DriverIdentity {
    /// Numbers that the platform selected.
    Resolved { uid: u32, gid: u32 },
    /// The `USER` of the image, as declared.
    OciUser { declaration: String },
    /// Nothing.
    Unspecified,
}

impl Clone for DriverIdentity {
    fn clone(&self) -> (r: Self)
        ensures
            match (*self, r) {
                (
                    DriverIdentity::Resolved { uid, gid },
                    DriverIdentity::Resolved { uid: uid2, gid: gid2 },
                ) => uid == uid2 && gid == gid2,
                (
                    DriverIdentity::OciUser { declaration },
                    DriverIdentity::OciUser { declaration: declaration2 },
                ) => declaration@ == declaration2@,
                (DriverIdentity::Unspecified, DriverIdentity::Unspecified) => true,
                _ => false,
            },
    {
        match self {
            DriverIdentity::Resolved { uid, gid } => DriverIdentity::Resolved {
                uid: *uid,
                gid: *gid,
            },
            DriverIdentity::OciUser { declaration } => DriverIdentity::OciUser {
                declaration: declaration.clone(),
            },
            DriverIdentity::Unspecified => DriverIdentity::Unspecified,
        }
    }
}

/// The numbers that a driver may select, and how its inputs are named.
#[derive(Debug, PartialEq, Eq)]
pub struct DriverRules {
    pub min_id: u32,
    pub max_id: u32,
    pub oci_user_name: String,
    pub uid_name: String,
    pub gid_name: String,
}

/// The number in a text, if it is one that a driver may select.
pub open spec fn selected_id(text: Seq<char>, rules: DriverRules) -> Option<int> {
    match parsed_unsigned(text, u32::MAX as int) {
        Some(id) => if rules.min_id <= id <= rules.max_id {
            Some(id)
        } else {
            None
        },
        None => None,
    }
}

/// What is wrong with the inputs of a driver: the image's user excludes the numbers, the
/// numbers come together, and they are in range.
pub open spec fn driver_error(
    oci_user: Option<Seq<char>>,
    uid: Option<Seq<char>>,
    gid: Option<Seq<char>>,
    rules: DriverRules,
) -> Option<Seq<char>> {
    match (oci_user, uid, gid) {
        (Some(_), None, None) => None,
        (None, None, None) => None,
        (None, Some(u), Some(g)) => if selected_id(u, rules) is Some && selected_id(
            g,
            rules,
        ) is Some {
            None
        } else {
            Some(
                "driver UID/GID must be numeric identities in range ["@ + decimal(
                    rules.min_id as nat,
                ) + ", "@ + decimal(rules.max_id as nat) + "]"@,
            )
        },
        (Some(_), _, _) => Some(
            rules.oci_user_name@ + " conflicts with non-empty "@ + rules.uid_name@ + "/"@
                + rules.gid_name@ + " driver identity"@,
        ),
        (None, _, _) => Some(
            rules.uid_name@ + " and "@ + rules.gid_name@ + " must be supplied together"@,
        ),
    }
}

fn select_id(text: &str, rules: &DriverRules) -> (r: Option<u32>)
    ensures
        selected_id(text@, *rules) == (match r {
            Some(id) => Some(id as int),
            None => None,
        }),
{
    match parse_unsigned(text, 0xffff_ffff) {
        Some(id) => if rules.min_id as u64 <= id && id <= rules.max_id as u64 {
            Some(id as u32)
        } else {
            None
        },
        None => None,
    }
}

impl DriverIdentity {
    /// The identity that a driver's inputs give.
    pub fn from_values(
        oci_user: Option<String>,
        uid: Option<String>,
        gid: Option<String>,
        rules: &DriverRules,
    ) -> (r: Result<DriverIdentity, String>)
        ensures
            match driver_error(option_view(oci_user), option_view(uid), option_view(gid), *rules) {
                Some(error) => r is Err && r->Err_0@ == error,
                None => r is Ok && match r->Ok_0 {
                    DriverIdentity::OciUser { declaration } => oci_user is Some && declaration@
                        == oci_user->0@,
                    DriverIdentity::Resolved { uid: u, gid: g } => uid is Some && gid is Some
                        && oci_user is None && selected_id(uid->0@, *rules) == Some(u as int)
                        && selected_id(gid->0@, *rules) == Some(g as int),
                    DriverIdentity::Unspecified => oci_user is None && uid is None,
                },
            },
    {
        match (oci_user, uid, gid) {
            (Some(declaration), None, None) => Ok(DriverIdentity::OciUser { declaration }),
            (None, None, None) => Ok(DriverIdentity::Unspecified),
            (None, Some(uid), Some(gid)) => match (
                select_id(&uid, rules),
                select_id(&gid, rules),
            ) {
                (Some(uid), Some(gid)) => Ok(DriverIdentity::Resolved { uid, gid }),
                _ => {
                    let mut s = String::from_str(
                        "driver UID/GID must be numeric identities in range [",
                    );
                    s.append(&decimal_text(rules.min_id as u64));
                    s.append(", ");
                    s.append(&decimal_text(rules.max_id as u64));
                    s.append("]");
                    Err(s)
                },
            },
            (Some(_), _, _) => {
                let mut s = rules.oci_user_name.clone();
                s.append(" conflicts with non-empty ");
                s.append(&rules.uid_name);
                s.append("/");
                s.append(&rules.gid_name);
                s.append(" driver identity");
                Err(s)
            },
            (None, _, _) => {
                let mut s = rules.uid_name.clone();
                s.append(" and ");
                s.append(&rules.gid_name);
                s.append(" must be supplied together");
                Err(s)
            },
        }
    }
}

// Components.
/// A control character.
pub open spec fn control(c: char) -> bool {
    c as u32 <= 0x1f || 0x7f <= c as u32 <= 0x9f
}

/// The text can be the name or number of an account: not empty, not too long, without white
/// space around it, and without control characters and colons.
pub open spec fn well_formed(value: Seq<char>) -> bool {
    &&& value.len() > 0
    &&& encode_utf8(value).len() <= MAX_ACCOUNT_FIELD_SIZE
    &&& trimmed(value) == value
    &&& forall|i: int| 0 <= i < value.len() ==> !control(#[trigger] value[i]) && value[i] != ':'
}

/// The words for a text that is no account.
pub open spec fn malformed(value: Seq<char>, kind: Seq<char>) -> Seq<char> {
    kind + " component '"@ + value + "' is malformed"@
}

fn validate_component(value: &str, kind: &str) -> (r: Result<(), String>)
    ensures
        r is Ok <==> well_formed(value@),
        r is Err ==> r->Err_0@ == malformed(value@, kind@),
{
    let chars = chars_of(value);
    let mut plain = true;
    let mut i: usize = 0;
    while i < chars.len()
        invariant
            chars@ == value@,
            i <= chars.len(),
            plain == (forall|j: int|
                0 <= j < i ==> !control(#[trigger] value@[j]) && value@[j] != ':'),
        decreases chars.len() - i,
    {
        let c = chars[i];
        let n: u32 = c as u32;
        if n <= 0x1f || (0x7f <= n && n <= 0x9f) || c == ':' {
            proof {
                assert(control(value@[i as int]) || value@[i as int] == ':');
            }
            plain = false;
        }
        i += 1;
    }
    if value.is_empty() || value.as_bytes().len() > MAX_ACCOUNT_FIELD_SIZE || !same_text(&trim(value), value)
        || !plain {
        let mut s = kind.to_owned();
        s.append(" component '");
        s.append(value);
        s.append("' is malformed");
        return Err(s);
    }
    Ok(())
}

// Account files.
/// An account file that was read, or why it was not. What is not needed is not missed.
#[derive(Debug, PartialEq, Eq)]
pub struct AccountFile {
    pub path: String,
    pub text: Result<String, String>,
}

/// Refuses what is not a regular file, and a file that is too large.
pub fn validate_account_file(is_file: bool, len: u64, path: &str) -> (r: Result<(), String>)
    ensures
        r is Ok <==> is_file && len <= MAX_ACCOUNT_FILE_SIZE,
        !is_file ==> r->Err_0@ == "account path '"@ + path@ + "' is not a regular file"@,
        is_file && len > MAX_ACCOUNT_FILE_SIZE ==> r->Err_0@ == "account file '"@ + path@
            + "' exceeds "@ + decimal(MAX_ACCOUNT_FILE_SIZE as nat) + " bytes"@,
{
    if !is_file {
        let mut s = String::from_str("account path '");
        s.append(path);
        s.append("' is not a regular file");
        return Err(s);
    }
    if len > MAX_ACCOUNT_FILE_SIZE {
        let mut s = String::from_str("account file '");
        s.append(path);
        s.append("' exceeds ");
        s.append(&decimal_text(MAX_ACCOUNT_FILE_SIZE));
        s.append(" bytes");
        return Err(s);
    }
    Ok(())
}

/// The text of an account file: not too long, and UTF-8.
pub fn read_account_file(bytes: Vec<u8>, path: &str) -> (r: Result<String, String>)
    ensures
        r is Ok <==> bytes@.len() <= MAX_ACCOUNT_FILE_SIZE && valid_utf8(bytes@),
        r is Ok ==> r->Ok_0@ == decode_utf8(bytes@),
        bytes@.len() > MAX_ACCOUNT_FILE_SIZE ==> r->Err_0@ == "account file '"@ + path@
            + "' exceeds "@ + decimal(MAX_ACCOUNT_FILE_SIZE as nat) + " bytes"@,
        bytes@.len() <= MAX_ACCOUNT_FILE_SIZE && !valid_utf8(bytes@) ==> r->Err_0@
            == "account file '"@ + path@ + "' is not valid UTF-8"@,
{
    match validate_account_file(true, bytes.len() as u64, path) {
        Err(error) => {
            return Err(error);
        },
        Ok(()) => {},
    }
    match utf8_text(bytes) {
        Some(text) => Ok(text),
        None => {
            let mut s = String::from_str("account file '");
            s.append(path);
            s.append("' is not valid UTF-8");
            Err(s)
        },
    }
}

/// The number of characters before the first of a kind.
pub open spec fn before_char(s: Seq<char>, c: char) -> int
    decreases s.len(),
{
    if s.len() == 0 || s[0] == c {
        0
    } else {
        1 + before_char(s.skip(1), c)
    }
}

proof fn lemma_before_char(s: Seq<char>, c: char)
    ensures
        0 <= before_char(s, c) <= s.len(),
    decreases s.len(),
{
    if s.len() > 0 && s[0] != c {
        lemma_before_char(s.skip(1), c);
    }
}

/// The parts of a text between the occurrences of a character.
pub open spec fn parts(s: Seq<char>, c: char) -> Seq<Seq<char>>
    decreases s.len(),
    via parts_shrink
{
    let n = before_char(s, c);
    if n < s.len() {
        seq![s.take(n)] + parts(s.skip(n + 1), c)
    } else {
        seq![s]
    }
}

#[via_fn]
proof fn parts_shrink(s: Seq<char>, c: char) {
    lemma_before_char(s, c);
}

/// A line without the carriage return before its line break.
pub open spec fn without_return(line: Seq<char>) -> Seq<char> {
    if line.len() > 0 && line.last() == '\r' {
        line.drop_last()
    } else {
        line
    }
}

/// The lines of a text: parts between line breaks, each but the last without a carriage
/// return at its end.
pub open spec fn lines(s: Seq<char>) -> Seq<Seq<char>>
    decreases s.len(),
    via lines_shrink
{
    let n = before_char(s, '\n');
    if n < s.len() {
        seq![without_return(s.take(n))] + lines(s.skip(n + 1))
    } else {
        seq![s]
    }
}

#[via_fn]
proof fn lines_shrink(s: Seq<char>) {
    lemma_before_char(s, '\n');
}

/// Which account is looked for.
pub enum AccountQuery<'a> {
    /// A user by name.
    User(&'a str),
    /// A user by number.
    Uid(u32),
    /// A group by name.
    Group(&'a str),
}

/// What [`AccountQuery`] stands for.
pub enum AccountQueryView {
    User(Seq<char>),
    Uid(u32),
    Group(Seq<char>),
}

impl<'a> View for AccountQuery<'a> {
    type V = AccountQueryView;

    open spec fn view(&self) -> AccountQueryView {
        match *self {
            AccountQuery::User(name) => AccountQueryView::User(name@),
            AccountQuery::Uid(uid) => AccountQueryView::Uid(uid),
            AccountQuery::Group(name) => AccountQueryView::Group(name@),
        }
    }
}

/// The account on a line, if it is the one that is looked for: its user number, zero for
/// a group, and its group number. A line that matches has to be in order.
pub open spec fn selected(fields: Seq<Seq<char>>, query: AccountQueryView) -> Option<
    Result<(u32, u32), Seq<char>>,
> {
    let number = |i: int| parsed_unsigned(fields[i], u32::MAX as int);
    let passwd = if fields.len() != 7 {
        Err("matching /etc/passwd entry is malformed"@)
    } else if number(2) is None {
        Err("matching /etc/passwd UID is malformed"@)
    } else if number(3) is None {
        Err("matching /etc/passwd GID is malformed"@)
    } else {
        Ok((number(2)->0 as u32, number(3)->0 as u32))
    };
    let group = if fields.len() != 4 {
        Err("matching /etc/group entry is malformed"@)
    } else if number(2) is None {
        Err("matching /etc/group GID is malformed"@)
    } else {
        Ok((0u32, number(2)->0 as u32))
    };
    match query {
        AccountQueryView::User(name) => if fields.len() > 0 && fields[0] == name {
            Some(passwd)
        } else {
            None
        },
        AccountQueryView::Uid(uid) => if fields.len() > 2 && number(2) == Some(uid as int) {
            Some(passwd)
        } else {
            None
        },
        AccountQueryView::Group(name) => if fields.len() > 0 && fields[0] == name {
            Some(group)
        } else {
            None
        },
    }
}

/// Some field is too long.
pub open spec fn has_oversized_field(fields: Seq<Seq<char>>) -> bool {
    exists|i: int|
        0 <= i < fields.len() && encode_utf8(#[trigger] fields[i]).len() > MAX_ACCOUNT_FIELD_SIZE
}

/// What a look through the remaining lines comes to, given what was found so far. Empty
/// lines and comments do not count; an account that is there twice is ambiguous.
pub open spec fn scanned(
    rest: Seq<Seq<char>>,
    query: AccountQueryView,
    path: Seq<char>,
    found: Option<(u32, u32)>,
) -> Result<Option<(u32, u32)>, Seq<char>>
    decreases rest.len(),
{
    if rest.len() == 0 {
        Ok(found)
    } else {
        let line = rest[0];
        let fields = parts(line, ':');
        if line.len() == 0 || line[0] == '#' {
            scanned(rest.skip(1), query, path, found)
        } else if encode_utf8(line).len() > MAX_ACCOUNT_LINE_SIZE {
            Err("account file '"@ + path + "' contains an oversized line"@)
        } else if has_oversized_field(fields) {
            Err("account file '"@ + path + "' contains an oversized field"@)
        } else {
            match selected(fields, query) {
                None => scanned(rest.skip(1), query, path, found),
                Some(Err(e)) => Err(e),
                Some(Ok(entry)) => if found is Some {
                    Err("account identity is ambiguous in '"@ + path + "'"@)
                } else {
                    scanned(rest.skip(1), query, path, Some(entry))
                },
            }
        }
    }
}

/// What looking for an account in a file comes to.
pub open spec fn looked_up(file: AccountFile, query: AccountQueryView) -> Result<
    Option<(u32, u32)>,
    Seq<char>,
> {
    match file.text {
        Ok(text) => scanned(lines(text@), query, file.path@, None),
        Err(e) => Err(e@),
    }
}

/// The parts of `x[from..to]` between the occurrences of a character.
fn parts_of(x: &Vec<char>, from: usize, to: usize, c: char) -> (r: Vec<String>)
    requires
        from <= to <= x.len(),
    ensures
        views(r@) == parts(x@.subrange(from as int, to as int), c),
{
    let ghost s = x@.subrange(from as int, to as int);
    let mut found: Vec<String> = Vec::new();
    let mut start: usize = from;
    let mut done = false;
    proof {
        assert(views(found@) + parts(s, c) =~= parts(s, c));
    }
    while !done
        invariant
            from <= start <= to <= x.len(),
            s == x@.subrange(from as int, to as int),
            !done ==> views(found@) + parts(x@.subrange(start as int, to as int), c) == parts(s, c),
            done ==> views(found@) == parts(s, c),
        decreases to - start + (if done {
            0int
        } else {
            1int
        }),
    {
        let ghost rest = x@.subrange(start as int, to as int);
        let mut end: usize = start;
        proof {
            lemma_before_char(rest, c);
            assert(rest.skip(0) =~= rest);
        }
        while end < to && x[end] != c
            invariant
                start <= end <= to <= x.len(),
                rest == x@.subrange(start as int, to as int),
                before_char(rest, c) == end - start + before_char(rest.skip(end - start), c),
            decreases to - end,
        {
            proof {
                assert(rest.skip(end - start).skip(1) =~= rest.skip(end - start + 1));
            }
            end += 1;
        }
        let ghost before = views(found@);
        let part = string_of(x, start, end);
        found.push(part);
        proof {
            assert(views(found@) =~= before + seq![part@]);
        }
        if end < to {
            proof {
                assert(rest.take(before_char(rest, c)) =~= part@);
                assert(rest.skip(before_char(rest, c) + 1) =~= x@.subrange(end + 1, to as int));
                assert(views(found@) + parts(x@.subrange(end + 1, to as int), c) =~= before + parts(
                    rest,
                    c,
                ));
            }
            start = end + 1;
        } else {
            proof {
                assert(rest =~= part@);
                assert(views(found@) =~= before + parts(rest, c));
            }
            done = true;
        }
    }
    found
}

fn u32_at(fields: &Vec<String>, i: usize) -> (r: Option<u32>)
    requires
        i < fields.len(),
    ensures
        parsed_unsigned(views(fields@)[i as int], u32::MAX as int) == (match r {
            Some(n) => Some(n as int),
            None => None,
        }),
{
    match parse_unsigned(&fields[i], 0xffff_ffff) {
        Some(n) => Some(n as u32),
        None => None,
    }
}

/// What a choice of a line stands for.
pub open spec fn choice_view(r: Option<Result<(u32, u32), String>>) -> Option<
    Result<(u32, u32), Seq<char>>,
> {
    match r {
        Some(Ok(entry)) => Some(Ok(entry)),
        Some(Err(e)) => Some(Err(e@)),
        None => None,
    }
}

fn parse_passwd(fields: &Vec<String>) -> (r: Result<(u32, u32), String>)
    ensures
        ({
            let f = views(fields@);
            let uid = parsed_unsigned(f[2], u32::MAX as int);
            let gid = parsed_unsigned(f[3], u32::MAX as int);
            if f.len() != 7 {
                r is Err && r->Err_0@ == "matching /etc/passwd entry is malformed"@
            } else if uid is None {
                r is Err && r->Err_0@ == "matching /etc/passwd UID is malformed"@
            } else if gid is None {
                r is Err && r->Err_0@ == "matching /etc/passwd GID is malformed"@
            } else {
                r is Ok && r->Ok_0 == (uid->0 as u32, gid->0 as u32)
            }
        }),
{
    if fields.len() != 7 {
        return Err("matching /etc/passwd entry is malformed".to_owned());
    }
    match (u32_at(fields, 2), u32_at(fields, 3)) {
        (None, _) => Err("matching /etc/passwd UID is malformed".to_owned()),
        (Some(_), None) => Err("matching /etc/passwd GID is malformed".to_owned()),
        (Some(uid), Some(gid)) => Ok((uid, gid)),
    }
}

fn parse_group(fields: &Vec<String>) -> (r: Result<(u32, u32), String>)
    ensures
        ({
            let f = views(fields@);
            let gid = parsed_unsigned(f[2], u32::MAX as int);
            if f.len() != 4 {
                r is Err && r->Err_0@ == "matching /etc/group entry is malformed"@
            } else if gid is None {
                r is Err && r->Err_0@ == "matching /etc/group GID is malformed"@
            } else {
                r is Ok && r->Ok_0 == (0u32, gid->0 as u32)
            }
        }),
{
    if fields.len() != 4 {
        return Err("matching /etc/group entry is malformed".to_owned());
    }
    match u32_at(fields, 2) {
        None => Err("matching /etc/group GID is malformed".to_owned()),
        Some(gid) => Ok((0, gid)),
    }
}

fn select_account(fields: &Vec<String>, query: &AccountQuery) -> (r: Option<
    Result<(u32, u32), String>,
>)
    ensures
        choice_view(r) == selected(views(fields@), query@),
{
    proof {
        if fields.len() > 0 {
            assert(views(fields@)[0] == fields@[0]@);
        }
    }
    match query {
        AccountQuery::User(name) => if fields.len() > 0 && same_text(&fields[0], name) {
            Some(parse_passwd(fields))
        } else {
            None
        },
        AccountQuery::Uid(uid) => if fields.len() > 2 {
            match u32_at(fields, 2) {
                Some(n) => if n == *uid {
                    Some(parse_passwd(fields))
                } else {
                    None
                },
                None => None,
            }
        } else {
            None
        },
        AccountQuery::Group(name) => if fields.len() > 0 && same_text(&fields[0], name) {
            Some(parse_group(fields))
        } else {
            None
        },
    }
}

fn is_oversized(fields: &Vec<String>) -> (r: bool)
    ensures
        r == has_oversized_field(views(fields@)),
{
    let ghost all = views(fields@);
    let mut i: usize = 0;
    while i < fields.len()
        invariant
            all == views(fields@),
            i <= fields.len(),
            forall|j: int|
                0 <= j < i ==> encode_utf8(#[trigger] all[j]).len() <= MAX_ACCOUNT_FIELD_SIZE,
        decreases fields.len() - i,
    {
        proof {
            assert(all[i as int] == fields@[i as int]@);
        }
        if fields[i].as_str().as_bytes().len() > MAX_ACCOUNT_FIELD_SIZE {
            return true;
        }
        i += 1;
    }
    false
}

/// What a look through a file stands for.
pub open spec fn found_view(r: Result<Option<(u32, u32)>, String>) -> Result<
    Option<(u32, u32)>,
    Seq<char>,
> {
    match r {
        Ok(found) => Ok(found),
        Err(e) => Err(e@),
    }
}

fn file_error(path: &str, words: &str) -> (r: String)
    ensures
        r@ == "account file '"@ + path@ + words@,
{
    let mut s = String::from_str("account file '");
    s.append(path);
    s.append(words);
    s
}

/// Looks for an account in a file: the one line that it is on.
fn find_unique(file: &AccountFile, query: &AccountQuery) -> (r: Result<Option<(u32, u32)>, String>)
    ensures
        found_view(r) == looked_up(*file, query@),
{
    let text = match &file.text {
        Err(e) => {
            return Err(e.clone());
        },
        Ok(text) => text,
    };
    let x = chars_of(text);
    let n: usize = x.len();
    let ghost path = file.path@;
    let ghost whole = scanned(lines(text@), query@, path, None);
    let mut found: Option<(u32, u32)> = None;
    let mut start: usize = 0;
    let mut done = false;
    proof {
        assert(x@.subrange(0, n as int) =~= text@);
    }
    while !done
        invariant
            n == x.len(),
            start <= n,
            path == file.path@,
            file.text is Ok,
            whole == looked_up(*file, query@),
            !done ==> whole == scanned(
                lines(x@.subrange(start as int, n as int)),
                query@,
                path,
                found,
            ),
            done ==> whole == Ok::<Option<(u32, u32)>, Seq<char>>(found),
        decreases n - start + (if done {
            0int
        } else {
            1int
        }),
    {
        let ghost rest = x@.subrange(start as int, n as int);
        let ghost found_before = found;
        let mut end: usize = start;
        proof {
            lemma_before_char(rest, '\n');
            assert(rest.skip(0) =~= rest);
        }
        while end < n && x[end] != '\n'
            invariant
                start <= end <= n,
                n == x.len(),
                rest == x@.subrange(start as int, n as int),
                before_char(rest, '\n') == end - start + before_char(rest.skip(end - start), '\n'),
            decreases n - end,
        {
            proof {
                assert(rest.skip(end - start).skip(1) =~= rest.skip(end - start + 1));
            }
            end += 1;
        }
        let ghost piece = rest.take(end - start);
        let line_end: usize = if end < n && end > start && x[end - 1] == '\r' {
            end - 1
        } else {
            end
        };
        let ghost line = x@.subrange(start as int, line_end as int);
        let ghost tail = if end < n {
            lines(x@.subrange(end + 1, n as int))
        } else {
            Seq::empty()
        };
        proof {
            assert(piece =~= x@.subrange(start as int, end as int));
            if end < n {
                assert(rest.take(before_char(rest, '\n')) =~= piece);
                assert(without_return(piece) =~= line);
                assert(rest.skip(before_char(rest, '\n') + 1) =~= x@.subrange(end + 1, n as int));
            } else {
                assert(rest =~= line);
            }
            assert(lines(rest) =~= seq![line] + tail);
            assert(lines(rest)[0] == line);
            assert(lines(rest).skip(1) =~= tail);
        }
        if line_end > start && x[start] != '#' {
            proof {
                assert(line[0] == x@[start as int]);
            }
            let text_line = string_of(&x, start, line_end);
            if text_line.as_str().as_bytes().len() > MAX_ACCOUNT_LINE_SIZE {
                return Err(file_error(&file.path, "' contains an oversized line"));
            }
            let fields = parts_of(&x, start, line_end, ':');
            if is_oversized(&fields) {
                return Err(file_error(&file.path, "' contains an oversized field"));
            }
            match select_account(&fields, query) {
                None => {},
                Some(Err(e)) => {
                    return Err(e);
                },
                Some(Ok(entry)) => {
                    if found.is_some() {
                        let mut s = String::from_str("account identity is ambiguous in '");
                        s.append(&file.path);
                        s.append("'");
                        return Err(s);
                    }
                    found = Some(entry);
                },
            }
        } else {
            proof {
                if line.len() > 0 {
                    assert(line[0] == x@[start as int]);
                }
            }
        }
        proof {
            assert(whole == scanned(tail, query@, path, found));
        }
        if end < n {
            start = end + 1;
        } else {
            done = true;
        }
    }
    Ok(found)
}

// Resolving.
/// The number that a text writes.
pub open spec fn account_number(text: Seq<char>) -> Option<int> {
    parsed_unsigned(text, u32::MAX as int)
}

fn parse_id(text: &str) -> (r: Option<u32>)
    ensures
        account_number(text@) == (match r {
            Some(n) => Some(n as int),
            None => None,
        }),
{
    match parse_unsigned(text, 0xffff_ffff) {
        Some(n) => Some(n as u32),
        None => None,
    }
}

/// The number of a user that the policy sets: a number as it is, a name as the file has it.
pub open spec fn resolved_user(value: Seq<char>, passwd: AccountFile) -> Result<u32, Seq<char>> {
    if !well_formed(value) {
        Err(malformed(value, "user"@))
    } else if value == "root"@ {
        Err("process user must not select root"@)
    } else if account_number(value) is Some {
        Ok(account_number(value)->0 as u32)
    } else {
        match looked_up(passwd, AccountQueryView::User(value)) {
            Err(e) => Err(e),
            Ok(None) => Err("process user '"@ + value + "' was not found in /etc/passwd"@),
            Ok(Some(entry)) => Ok(entry.0),
        }
    }
}

/// The number of a group: a number as it is, a name as the file has it.
pub open spec fn resolved_group(value: Seq<char>, group: AccountFile) -> Result<u32, Seq<char>> {
    if !well_formed(value) {
        Err(malformed(value, "group"@))
    } else if value == "root"@ {
        Err("process group must not select root"@)
    } else if account_number(value) is Some {
        Ok(account_number(value)->0 as u32)
    } else {
        match looked_up(group, AccountQueryView::Group(value)) {
            Err(e) => Err(e),
            Ok(None) => Err("process group '"@ + value + "' was not found in /etc/group"@),
            Ok(Some(entry)) => Ok(entry.1),
        }
    }
}

/// What a number stands for, or why there is none.
pub open spec fn id_view(r: Result<u32, String>) -> Result<u32, Seq<char>> {
    match r {
        Ok(n) => Ok(n),
        Err(e) => Err(e@),
    }
}

fn resolve_user(value: &str, passwd: &AccountFile) -> (r: Result<u32, String>)
    ensures
        id_view(r) == resolved_user(value@, *passwd),
{
    match validate_component(value, "user") {
        Err(e) => {
            return Err(e);
        },
        Ok(()) => {},
    }
    if same_text(value, "root") {
        return Err("process user must not select root".to_owned());
    }
    if let Some(uid) = parse_id(value) {
        return Ok(uid);
    }
    match find_unique(passwd, &AccountQuery::User(value)) {
        Err(e) => Err(e),
        Ok(None) => {
            let mut s = String::from_str("process user '");
            s.append(value);
            s.append("' was not found in /etc/passwd");
            Err(s)
        },
        Ok(Some(entry)) => Ok(entry.0),
    }
}

fn resolve_group(value: &str, group: &AccountFile) -> (r: Result<u32, String>)
    ensures
        id_view(r) == resolved_group(value@, *group),
{
    match validate_component(value, "group") {
        Err(e) => {
            return Err(e);
        },
        Ok(()) => {},
    }
    if same_text(value, "root") {
        return Err("process group must not select root".to_owned());
    }
    if let Some(gid) = parse_id(value) {
        return Ok(gid);
    }
    match find_unique(group, &AccountQuery::Group(value)) {
        Err(e) => Err(e),
        Ok(None) => {
            let mut s = String::from_str("process group '");
            s.append(value);
            s.append("' was not found in /etc/group");
            Err(s)
        },
        Ok(Some(entry)) => Ok(entry.1),
    }
}

/// The user part of an image's declaration, and the group part after the first colon, if
/// there is one.
pub open spec fn declared_parts(declaration: Seq<char>) -> (Seq<char>, Option<Seq<char>>) {
    let n = before_char(declaration, ':');
    if n < declaration.len() {
        (declaration.take(n), Some(declaration.skip(n + 1)))
    } else {
        (declaration, None)
    }
}

/// Splits an image's declaration into its user and its group.
pub fn split_oci_declaration(declaration: &str) -> (r: (String, Option<String>))
    ensures
        (r.0@, option_view(r.1)) == declared_parts(declaration@),
{
    let x = chars_of(declaration);
    let ghost s = declaration@;
    let mut i: usize = 0;
    proof {
        assert(s.skip(0) =~= s);
    }
    while i < x.len() && x[i] != ':'
        invariant
            x@ == s,
            i <= x.len(),
            before_char(s, ':') == i + before_char(s.skip(i as int), ':'),
        decreases x.len() - i,
    {
        proof {
            assert(s.skip(i as int).skip(1) =~= s.skip(i as int + 1));
        }
        i += 1;
    }
    let user = string_of(&x, 0, i);
    if i < x.len() {
        let group = string_of(&x, i + 1, x.len());
        proof {
            assert(user@ =~= s.take(i as int));
            assert(group@ =~= s.skip(i as int + 1));
        }
        (user, Some(group))
    } else {
        proof {
            assert(user@ =~= s);
        }
        (user, None)
    }
}

/// The numbers of the user that an image declares: its own, and that of its primary group
/// where the file has it. A number needs no entry in the file.
pub open spec fn resolved_image_user(
    user: Seq<char>,
    passwd: AccountFile,
    declaration: Seq<char>,
) -> Result<(u32, Option<u32>), Seq<char>> {
    if user.len() == 0 {
        Err("OCI USER is required because run_as_user is omitted"@)
    } else if !well_formed(user) {
        Err(malformed(user, "OCI user"@))
    } else if user == "root"@ {
        Err("OCI USER '"@ + declaration + "' selects root"@)
    } else if account_number(user) is Some {
        let uid = account_number(user)->0 as u32;
        if uid == 0 {
            Err("OCI USER '"@ + declaration + "' selects UID 0"@)
        } else {
            match looked_up(passwd, AccountQueryView::Uid(uid)) {
                Err(e) => Err(e),
                Ok(Some(entry)) => Ok((uid, Some(entry.1))),
                Ok(None) => Ok((uid, None)),
            }
        }
    } else {
        match looked_up(passwd, AccountQueryView::User(user)) {
            Err(e) => Err(e),
            Ok(None) => Err("OCI USER name '"@ + user + "' was not found in /etc/passwd"@),
            Ok(Some(entry)) => Ok((entry.0, Some(entry.1))),
        }
    }
}

fn resolve_required_oci_user(user: &str, passwd: &AccountFile, declaration: &str) -> (r: Result<
    (u32, Option<u32>),
    String,
>)
    ensures
        resolved_image_user(user@, *passwd, declaration@) == (match r {
            Ok(ids) => Ok(ids),
            Err(e) => Err(e@),
        }),
{
    if user.is_empty() {
        return Err("OCI USER is required because run_as_user is omitted".to_owned());
    }
    match validate_component(user, "OCI user") {
        Err(e) => {
            return Err(e);
        },
        Ok(()) => {},
    }
    if same_text(user, "root") {
        let mut s = String::from_str("OCI USER '");
        s.append(declaration);
        s.append("' selects root");
        return Err(s);
    }
    if let Some(uid) = parse_id(user) {
        if uid == 0 {
            let mut s = String::from_str("OCI USER '");
            s.append(declaration);
            s.append("' selects UID 0");
            return Err(s);
        }
        return match find_unique(passwd, &AccountQuery::Uid(uid)) {
            Err(e) => Err(e),
            Ok(Some(entry)) => Ok((uid, Some(entry.1))),
            Ok(None) => Ok((uid, None)),
        };
    }
    match find_unique(passwd, &AccountQuery::User(user)) {
        Err(e) => Err(e),
        Ok(None) => {
            let mut s = String::from_str("OCI USER name '");
            s.append(user);
            s.append("' was not found in /etc/passwd");
            Err(s)
        },
        Ok(Some(entry)) => Ok((entry.0, Some(entry.1))),
    }
}

/// The user and group that a process runs as, as the policy sets them.
#[derive(Debug, PartialEq, Eq)]
pub struct ProcessIdentity {
    pub run_as_user: Option<String>,
    pub run_as_group: Option<String>,
}

/// What [`ProcessIdentity`] stands for.
#[verifier::ext_equal]
pub struct ProcessIdentityView {
    pub run_as_user: Option<Seq<char>>,
    pub run_as_group: Option<Seq<char>>,
}

impl View for ProcessIdentity {
    type V = ProcessIdentityView;

    open spec fn view(&self) -> ProcessIdentityView {
        ProcessIdentityView {
            run_as_user: option_view(self.run_as_user),
            run_as_group: option_view(self.run_as_group),
        }
    }
}

/// The identity of two numbers.
pub open spec fn numeric_identity(uid: u32, gid: u32) -> ProcessIdentityView {
    ProcessIdentityView {
        run_as_user: Some(decimal(uid as nat)),
        run_as_group: Some(decimal(gid as nat)),
    }
}

/// What the policy sets, unless it is empty.
pub open spec fn set_value(value: Option<Seq<char>>) -> Option<Seq<char>> {
    match value {
        Some(text) => if text.len() > 0 {
            Some(text)
        } else {
            None
        },
        None => None,
    }
}

/// The number of the user: from the policy where it sets one, else from the image.
pub open spec fn chosen_uid(
    policy: ProcessIdentityView,
    declaration: Seq<char>,
    passwd: AccountFile,
) -> Result<u32, Seq<char>> {
    match set_value(policy.run_as_user) {
        Some(user) => resolved_user(user, passwd),
        None => match resolved_image_user(declared_parts(declaration).0, passwd, declaration) {
            Ok(ids) => Ok(ids.0),
            Err(e) => Err(e),
        },
    }
}

/// The number of the group: from the policy where it sets one, else the group that the image
/// declares, else the primary group of the user that it declares.
pub open spec fn chosen_gid(
    policy: ProcessIdentityView,
    declaration: Seq<char>,
    passwd: AccountFile,
    group: AccountFile,
) -> Result<u32, Seq<char>> {
    match set_value(policy.run_as_group) {
        Some(name) => resolved_group(name, group),
        None => match declared_parts(declaration).1 {
            Some(name) => if name.len() > 0 {
                resolved_group(name, group)
            } else {
                Err("OCI USER '"@ + declaration + "' has an empty group component"@)
            },
            None => match resolved_image_user(
                declared_parts(declaration).0,
                passwd,
                declaration,
            ) {
                Err(e) => Err(e),
                Ok((_, Some(gid))) => Ok(gid),
                Ok((_, None)) => Err(
                    "OCI USER '"@ + declaration
                        + "' uses a numeric UID without an explicit group, but /etc/passwd has no matching primary GID"@,
                ),
            },
        },
    }
}

/// The identity of two numbers, unless one of them is root's.
pub open spec fn installed(uid: u32, gid: u32, source: Seq<char>) -> Result<
    ProcessIdentityView,
    Seq<char>,
> {
    if uid == 0 || gid == 0 {
        Err(
            "process identity from '"@ + source + "' resolves to prohibited UID/GID "@ + decimal(
                uid as nat,
            ) + ":"@ + decimal(gid as nat),
        )
    } else {
        Ok(numeric_identity(uid, gid))
    }
}

/// The identity that an image's declaration gives a process under a policy.
pub open spec fn image_identity(
    policy: ProcessIdentityView,
    declaration: Seq<char>,
    passwd: AccountFile,
    group: AccountFile,
) -> Result<ProcessIdentityView, Seq<char>> {
    let explicit = set_value(policy.run_as_user) is Some && set_value(policy.run_as_group) is Some;
    match chosen_uid(policy, declaration, passwd) {
        Err(e) => Err(e),
        Ok(uid) => match chosen_gid(policy, declaration, passwd, group) {
            Err(e) => Err(e),
            Ok(gid) => installed(
                uid,
                gid,
                if explicit {
                    "explicit policy"@
                } else {
                    declaration
                },
            ),
        },
    }
}

fn install_numeric_identity(policy: &mut ProcessIdentity, uid: u32, gid: u32, source: &str) -> (r:
    Result<(), String>)
    ensures
        match installed(uid, gid, source@) {
            Ok(identity) => r is Ok && final(policy)@ == identity,
            Err(e) => r is Err && r->Err_0@ == e && final(policy)@ == old(policy)@,
        },
{
    if uid == 0 || gid == 0 {
        let mut s = String::from_str("process identity from '");
        s.append(source);
        s.append("' resolves to prohibited UID/GID ");
        s.append(&decimal_text(uid as u64));
        s.append(":");
        s.append(&decimal_text(gid as u64));
        return Err(s);
    }
    policy.run_as_user = Some(decimal_text(uid as u64));
    policy.run_as_group = Some(decimal_text(gid as u64));
    Ok(())
}

fn set_text(value: &Option<String>) -> (r: Option<String>)
    ensures
        option_view(r) == set_value(option_view(*value)),
{
    match value {
        Some(text) => if text.as_str().is_empty() {
            None
        } else {
            Some(text.clone())
        },
        None => None,
    }
}

/// Resolves the identity of a process under an image's declaration. A process whose identity
/// cannot be resolved keeps what the policy says.
pub fn resolve_oci_process_identity_at(
    policy: &mut ProcessIdentity,
    declaration: &str,
    passwd: &AccountFile,
    group: &AccountFile,
) -> (r: Result<(), String>)
    ensures
        match image_identity(old(policy)@, declaration@, *passwd, *group) {
            Ok(identity) => r is Ok && final(policy)@ == identity,
            Err(e) => r is Err && r->Err_0@ == e && final(policy)@ == old(policy)@,
        },
{
    let explicit_user = set_text(&policy.run_as_user);
    let explicit_group = set_text(&policy.run_as_group);
    let (oci_user, oci_group) = split_oci_declaration(declaration);
    let uid = match &explicit_user {
        Some(user) => match resolve_user(user, passwd) {
            Err(e) => {
                return Err(e);
            },
            Ok(uid) => uid,
        },
        None => match resolve_required_oci_user(&oci_user, passwd, declaration) {
            Err(e) => {
                return Err(e);
            },
            Ok(ids) => ids.0,
        },
    };
    let gid = match &explicit_group {
        Some(name) => match resolve_group(name, group) {
            Err(e) => {
                return Err(e);
            },
            Ok(gid) => gid,
        },
        None => match &oci_group {
            Some(name) => {
                if name.as_str().is_empty() {
                    let mut s = String::from_str("OCI USER '");
                    s.append(declaration);
                    s.append("' has an empty group component");
                    return Err(s);
                }
                match resolve_group(name, group) {
                    Err(e) => {
                        return Err(e);
                    },
                    Ok(gid) => gid,
                }
            },
            None => match resolve_required_oci_user(&oci_user, passwd, declaration) {
                Err(e) => {
                    return Err(e);
                },
                Ok((_, Some(gid))) => gid,
                Ok((_, None)) => {
                    let mut s = String::from_str("OCI USER '");
                    s.append(declaration);
                    s.append(
                        "' uses a numeric UID without an explicit group, but /etc/passwd has no matching primary GID",
                    );
                    return Err(s);
                },
            },
        },
    };
    if explicit_user.is_some() && explicit_group.is_some() {
        install_numeric_identity(policy, uid, gid, "explicit policy")
    } else {
        install_numeric_identity(policy, uid, gid, declaration)
    }
}

/// Applies what a driver says of the identity.
pub fn resolve_process_identity(
    policy: &mut ProcessIdentity,
    driver_identity: &DriverIdentity,
    passwd: &AccountFile,
    group: &AccountFile,
) -> (r: Result<(), String>)
    ensures
        match *driver_identity {
            DriverIdentity::Resolved { uid, gid } => r is Ok && final(policy)@ == numeric_identity(
                uid,
                gid,
            ),
            DriverIdentity::OciUser { declaration } => match image_identity(
                old(policy)@,
                declaration@,
                *passwd,
                *group,
            ) {
                Ok(identity) => r is Ok && final(policy)@ == identity,
                Err(e) => r is Err && r->Err_0@ == e && final(policy)@ == old(policy)@,
            },
            DriverIdentity::Unspecified => r is Ok && final(policy)@ == old(policy)@,
        },
{
    match driver_identity {
        DriverIdentity::Resolved { uid, gid } => {
            policy.run_as_user = Some(decimal_text(*uid as u64));
            policy.run_as_group = Some(decimal_text(*gid as u64));
            Ok(())
        },
        DriverIdentity::OciUser { declaration } => resolve_oci_process_identity_at(
            policy,
            declaration,
            passwd,
            group,
        ),
        DriverIdentity::Unspecified => Ok(()),
    }
}

// What holds of identities.
/// An image never gives a process the user or the group of root.
pub proof fn law_image_never_selects_root(
    policy: ProcessIdentityView,
    declaration: Seq<char>,
    passwd: AccountFile,
    group: AccountFile,
)
    requires
        image_identity(policy, declaration, passwd, group) is Ok,
    ensures
        exists|uid: u32, gid: u32|
            #![trigger numeric_identity(uid, gid)]
            uid != 0 && gid != 0 && image_identity(policy, declaration, passwd, group)->Ok_0
                == numeric_identity(uid, gid),
{
    let uid = chosen_uid(policy, declaration, passwd)->Ok_0;
    let gid = chosen_gid(policy, declaration, passwd, group)->Ok_0;
    assert(image_identity(policy, declaration, passwd, group)->Ok_0 == numeric_identity(uid, gid));
}

/// What the policy sets decides by itself: with both fields set, the image's declaration
/// has no say.
pub proof fn law_explicit_policy_comes_first(
    policy: ProcessIdentityView,
    declaration: Seq<char>,
    other_declaration: Seq<char>,
    passwd: AccountFile,
    group: AccountFile,
)
    requires
        set_value(policy.run_as_user) is Some,
        set_value(policy.run_as_group) is Some,
    ensures
        image_identity(policy, declaration, passwd, group) == image_identity(
            policy,
            other_declaration,
            passwd,
            group,
        ),
{
}

/// An account that stands on two lines is never chosen between: once one was found, any
/// other line for it is an error, whatever it says.
pub proof fn law_second_entry_is_an_error(
    rest: Seq<Seq<char>>,
    query: AccountQueryView,
    path: Seq<char>,
    found: (u32, u32),
)
    ensures
        match scanned(rest, query, path, Some(found)) {
            Ok(outcome) => outcome == Some(found),
            Err(e) => true,
        },
    decreases rest.len(),
{
    if rest.len() > 0 {
        law_second_entry_is_an_error(rest.skip(1), query, path, found);
    }
}

} // verus!
