//! Redacting common secrets in request bodies.
use vstd::prelude::*;
use vstd::string::*;
use vstd::utf8::{decode_utf8, decode_utf8_encode_utf8, encode_utf8, valid_utf8};

use crate::string_map::StringMap;
use crate::text::{chars_of, decimal, decimal_text, string_of, utf8_text};
use crate::values::views;

verus! {

/// The name of this binding.
pub const BINDING_ID: &'static str = "openshell/secrets";

/// Bytes of the largest body that is looked at.
pub const MAX_BODY_BYTES: u64 = 262144;

/// What is done about secrets.
#[derive(Debug, Default, Clone, Copy, PartialEq, Eq, Structural)]
pub enum SecretsMode {
    /// They are redacted.
    #[default]
    Redact,
}

/// How secrets are dealt with.
#[derive(Debug, Default, Clone, Copy, PartialEq, Eq, Structural)]
pub struct SecretsConfig {
    /// What is done about them; redaction, where nothing is said.
    pub secrets: SecretsMode,
}

/// What a middleware acts on.
#[derive(Debug, Clone, Copy, PartialEq, Eq, Structural)]
pub enum MiddlewareOperation {
    HttpRequest,
}

/// When a middleware acts.
#[derive(Debug, Clone, Copy, PartialEq, Eq, Structural)]
pub enum MiddlewarePhase {
    /// Before credentials are put into the request.
    PreCredentials,
}

/// What a middleware binds to.
#[derive(Debug, PartialEq, Eq)]
pub struct MiddlewareBinding {
    pub id: String,
    pub operation: MiddlewareOperation,
    pub phase: MiddlewarePhase,
    pub max_body_bytes: u64,
}

/// What this middleware binds to.
pub fn describe() -> (r: MiddlewareBinding)
    ensures
        r.id@ == BINDING_ID@,
        r.operation == MiddlewareOperation::HttpRequest,
        r.phase == MiddlewarePhase::PreCredentials,
        r.max_body_bytes == MAX_BODY_BYTES,
{
    MiddlewareBinding {
        id: BINDING_ID.to_owned(),
        operation: MiddlewareOperation::HttpRequest,
        phase: MiddlewarePhase::PreCredentials,
        max_body_bytes: MAX_BODY_BYTES,
    }
}

/// The words for a configuration that cannot be read.
pub open spec fn config_refusal(error: Seq<char>) -> Seq<char> {
    "invalid "@ + BINDING_ID@ + " config: "@ + error + "; phase 1 supports only secrets: redact"@
}

/// Refuses a configuration that could not be read.
pub fn validate_config(config: &Result<SecretsConfig, String>) -> (r: Result<(), String>)
    ensures
        r is Ok <==> config is Ok,
        r is Err ==> r->Err_0@ == config_refusal(config->Err_0@),
{
    match config {
        Ok(_) => Ok(()),
        Err(error) => {
            let mut s = String::from_str("invalid ");
            s.append(BINDING_ID);
            s.append(" config: ");
            s.append(error);
            s.append("; phase 1 supports only secrets: redact");
            Err(s)
        },
    }
}

// Patterns.
/// What kind of secret a pattern finds.
#[derive(Debug, Clone, Copy, PartialEq, Eq, Structural)]
pub enum SecretKind {
    /// A value after a word such as "password".
    Keyword,
    /// An OpenAI key.
    OpenAi,
}

/// A value after a word such as "password", in quotes.
pub const KEYWORD_PATTERN: &'static str =
    "(?i)(api[_-]?key|access[_-]?token|secret|password)([\"']?\\s*[:=]\\s*[\"'])[^\"',\\s}]+([\"']?)";

/// An OpenAI key.
pub const OPENAI_PATTERN: &'static str = "(sk-[A-Za-z0-9_-]{16,})";

/// The pattern of a kind of secret.
pub open spec fn pattern_of(kind: SecretKind) -> Seq<char> {
    match kind {
        SecretKind::Keyword => KEYWORD_PATTERN@,
        SecretKind::OpenAi => OPENAI_PATTERN@,
    }
}

fn pattern_text(kind: SecretKind) -> (r: &'static str)
    ensures
        r@ == pattern_of(kind),
{
    match kind {
        SecretKind::Keyword => KEYWORD_PATTERN,
        SecretKind::OpenAi => OPENAI_PATTERN,
    }
}

/// How a kind of secret is named.
pub open spec fn kind_name(kind: SecretKind) -> Seq<char> {
    match kind {
        SecretKind::Keyword => "keyword"@,
        SecretKind::OpenAi => "openai"@,
    }
}

fn kind_text(kind: SecretKind) -> (r: &'static str)
    ensures
        r@ == kind_name(kind),
{
    match kind {
        SecretKind::Keyword => "keyword",
        SecretKind::OpenAi => "openai",
    }
}

/// A secret in a text: from which character to which, and the text of each group of the
/// pattern.
#[derive(Debug, PartialEq, Eq)]
pub struct SecretMatch {
    pub start: usize,
    pub end: usize,
    pub groups: Vec<String>,
}

/// What [`SecretMatch`] stands for.
#[verifier::ext_equal]
pub struct SecretMatchView {
    pub start: int,
    pub end: int,
    pub groups: Seq<Seq<char>>,
}

impl View for SecretMatch {
    type V = SecretMatchView;

    open spec fn view(&self) -> SecretMatchView {
        SecretMatchView {
            start: self.start as int,
            end: self.end as int,
            groups: views(self.groups@),
        }
    }
}

/// The matches lie in the text, one after the other.
pub open spec fn in_sequence(matches: Seq<SecretMatchView>, len: int) -> bool {
    &&& forall|i: int|
        0 <= i < matches.len() ==> 0 <= (#[trigger] matches[i]).start <= matches[i].end <= len
    &&& forall|i: int, j: int|
        0 <= i < j < matches.len() ==> (#[trigger] matches[i]).end <= (#[trigger] matches[j]).start
}

/// The matches of a pattern in a text, from left to right.
pub uninterp spec fn pattern_matches(pattern: Seq<char>, text: Seq<char>) -> Seq<SecretMatchView>;

/// `regex::Regex::captures_iter` finds the matches of a pattern, from left to right and
/// without overlap, with the text of each group (empty where the group took no part).
/// `regex::Regex::new` compiles both patterns of this module; on a malformed one this would
/// panic. Positions are counted in characters.
#[verifier::external_body]
fn find_secrets(pattern: &str, text: &str) -> (r: Vec<SecretMatch>)
    requires
        pattern@ == KEYWORD_PATTERN@ || pattern@ == OPENAI_PATTERN@,
    ensures
        views(r@) == pattern_matches(pattern@, text@),
        in_sequence(views(r@), text@.len() as int),
{
    let position = |at: usize| text[..at].chars().count();
    let group = |g: Option<regex::Match>| g.map_or(String::new(), |m| m.as_str().to_owned());
    let compiled = regex::Regex::new(pattern).expect("valid built-in secret pattern");
    let plain = |c: regex::Captures| SecretMatch {
        start: position(c.get_match().start()),
        end: position(c.get_match().end()),
        groups: c.iter().skip(1).map(group).collect(),
    };
    compiled.captures_iter(text).map(plain).collect()
}

/// What stands in the place of a secret: a key keeps its word and its quotes.
pub open spec fn replacement(groups: Seq<Seq<char>>) -> Seq<char> {
    if groups.len() >= 3 {
        groups[0] + groups[1] + "[REDACTED]"@ + groups[2]
    } else {
        "[REDACTED]"@
    }
}

/// The text from a position on, with each of the matches replaced.
pub open spec fn redacted(text: Seq<char>, matches: Seq<SecretMatchView>, from: int) -> Seq<char>
    decreases matches.len(),
{
    if matches.len() == 0 {
        text.skip(from)
    } else {
        text.subrange(from, matches[0].start) + replacement(matches[0].groups) + redacted(
            text,
            matches.skip(1),
            matches[0].end,
        )
    }
}

fn replacement_text(groups: &Vec<String>) -> (r: String)
    ensures
        r@ == replacement(views(groups@)),
{
    if groups.len() >= 3 {
        let mut s = groups[0].clone();
        s.append(&groups[1]);
        s.append("[REDACTED]");
        s.append(&groups[2]);
        s
    } else {
        "[REDACTED]".to_owned()
    }
}

/// Replaces the matches in a text.
pub fn replace_matches(text: &str, matches: &Vec<SecretMatch>) -> (r: String)
    requires
        in_sequence(views(matches@), text@.len() as int),
    ensures
        r@ == redacted(text@, views(matches@), 0),
{
    let x = chars_of(text);
    let ghost all = views(matches@);
    let mut out = String::new();
    let mut from: usize = 0;
    let mut i: usize = 0;
    proof {
        assert(all.skip(0) =~= all);
        assert(out@ + redacted(text@, all, 0) =~= redacted(text@, all, 0));
    }
    while i < matches.len()
        invariant
            x@ == text@,
            all == views(matches@),
            in_sequence(all, text@.len() as int),
            i <= matches.len(),
            from <= x.len(),
            forall|j: int| i <= j < all.len() ==> from <= (#[trigger] all[j]).start,
            out@ + redacted(text@, all.skip(i as int), from as int) == redacted(text@, all, 0),
        decreases matches.len() - i,
    {
        let ghost before = out@;
        let ghost rest = all.skip(i as int);
        proof {
            assert(all[i as int] == matches@[i as int]@);
            assert(rest[0] == all[i as int]);
            assert(rest.skip(1) =~= all.skip(i as int + 1));
        }
        let m = &matches[i];
        out.append(&string_of(&x, from, m.start));
        out.append(&replacement_text(&m.groups));
        proof {
            assert(out@ + redacted(text@, all.skip(i as int + 1), m.end as int) =~= before
                + redacted(text@, rest, from as int));
        }
        from = m.end;
        i += 1;
    }
    out.append(&string_of(&x, from, x.len()));
    proof {
        assert(text@.subrange(from as int, x.len() as int) =~= text@.skip(from as int));
        assert(all.skip(all.len() as int) =~= Seq::empty());
    }
    out
}

/// A count that stops at the largest number.
pub open spec fn bounded(n: int) -> int {
    if n > u32::MAX {
        u32::MAX as int
    } else {
        n
    }
}

fn bounded_count(n: usize) -> (r: u32)
    ensures
        r == bounded(n as int),
{
    if n as u64 > 0xffff_ffff {
        u32::MAX
    } else {
        n as u32
    }
}

/// The text with the secrets of a kind replaced.
pub open spec fn without_kind(text: Seq<char>, kind: SecretKind) -> Seq<char> {
    redacted(text, pattern_matches(pattern_of(kind), text), 0)
}

/// The kinds of secrets that were found, with their numbers, given how many of each.
pub open spec fn found_kinds(keywords: int, keys: int) -> Seq<(SecretKind, u32)> {
    (if keywords > 0 {
        seq![(SecretKind::Keyword, bounded(keywords) as u32)]
    } else {
        Seq::empty()
    }) + (if keys > 0 {
        seq![(SecretKind::OpenAi, bounded(keys) as u32)]
    } else {
        Seq::empty()
    })
}

/// The kinds of secrets that were found, with their numbers.
pub fn list_kinds(keywords: usize, keys: usize) -> (r: Vec<(SecretKind, u32)>)
    ensures
        r@ == found_kinds(keywords as int, keys as int),
{
    let mut found: Vec<(SecretKind, u32)> = Vec::new();
    if keywords > 0 {
        found.push((SecretKind::Keyword, bounded_count(keywords)));
    }
    if keys > 0 {
        found.push((SecretKind::OpenAi, bounded_count(keys)));
    }
    proof {
        assert(found@ =~= found_kinds(keywords as int, keys as int));
    }
    found
}

/// Redacts the secrets of each kind, first those after a word, then keys in what is left.
pub fn redact_common_secrets(input: &str) -> (r: (String, Vec<(SecretKind, u32)>))
    ensures
        r.0@ == without_kind(without_kind(input@, SecretKind::Keyword), SecretKind::OpenAi),
        r.1@ == found_kinds(
            pattern_matches(KEYWORD_PATTERN@, input@).len() as int,
            pattern_matches(
                OPENAI_PATTERN@,
                without_kind(input@, SecretKind::Keyword),
            ).len() as int,
        ),
{
    let keywords = find_secrets(pattern_text(SecretKind::Keyword), input);
    let output = replace_matches(input, &keywords);
    let keys = find_secrets(pattern_text(SecretKind::OpenAi), &output);
    let found = list_kinds(keywords.len(), keys.len());
    proof {
        assert(views(keywords@).len() == keywords.len());
        assert(views(keys@).len() == keys.len());
    }
    (replace_matches(&output, &keys), found)
}

// Requests.
/// What is decided about a request.
#[derive(Debug, Clone, Copy, PartialEq, Eq, Structural)]
pub enum Decision {
    Allow,
    Deny,
}

/// Something that was found in a request.
#[derive(Debug, PartialEq, Eq)]
pub struct Finding {
    pub finding_type: String,
    pub label: String,
    pub count: u32,
    pub confidence: String,
    pub severity: String,
}

/// What [`Finding`] stands for.
#[verifier::ext_equal]
pub struct FindingView {
    pub finding_type: Seq<char>,
    pub label: Seq<char>,
    pub count: u32,
    pub confidence: Seq<char>,
    pub severity: Seq<char>,
}

impl View for Finding {
    type V = FindingView;

    open spec fn view(&self) -> FindingView {
        FindingView {
            finding_type: self.finding_type@,
            label: self.label@,
            count: self.count,
            confidence: self.confidence@,
            severity: self.severity@,
        }
    }
}

/// What becomes of a request.
#[derive(Debug, PartialEq)]
pub struct HttpRequestResult {
    pub decision: Decision,
    pub reason: String,
    pub body: Vec<u8>,
    /// The body is another than it was.
    pub has_body: bool,
    pub add_headers: StringMap<String>,
    pub findings: Vec<Finding>,
    pub metadata: StringMap<String>,
}

/// What [`HttpRequestResult`] stands for.
#[verifier::ext_equal]
pub struct HttpRequestResultView {
    pub decision: Decision,
    pub reason: Seq<char>,
    pub body: Seq<u8>,
    pub has_body: bool,
    pub add_headers: Map<Seq<char>, Seq<char>>,
    pub findings: Seq<FindingView>,
    pub metadata: Map<Seq<char>, Seq<char>>,
}

impl View for HttpRequestResult {
    type V = HttpRequestResultView;

    open spec fn view(&self) -> HttpRequestResultView {
        HttpRequestResultView {
            decision: self.decision,
            reason: self.reason@,
            body: self.body@,
            has_body: self.has_body,
            add_headers: self.add_headers@,
            findings: views(self.findings@),
            metadata: self.metadata@,
        }
    }
}

/// The finding for secrets of a kind.
pub open spec fn finding_of(found: (SecretKind, u32)) -> FindingView {
    FindingView {
        finding_type: "secret."@ + kind_name(found.0),
        label: kind_name(found.0) + " secret pattern"@,
        count: found.1,
        confidence: "medium"@,
        severity: "medium"@,
    }
}

/// The number of secrets of all kinds, as far as a number goes.
pub open spec fn total_found(found: Seq<(SecretKind, u32)>) -> int
    decreases found.len(),
{
    if found.len() == 0 {
        0
    } else {
        bounded(total_found(found.drop_last()) + found.last().1)
    }
}

/// What becomes of a request whose body was redacted: it goes on, with the new body where
/// anything was found.
pub open spec fn redacted_request(body: Seq<char>, found: Seq<(SecretKind, u32)>) ->
    HttpRequestResultView {
    HttpRequestResultView {
        decision: Decision::Allow,
        reason: Seq::empty(),
        body: encode_utf8(body),
        has_body: found.len() > 0,
        add_headers: Map::empty(),
        findings: found.map_values(|f: (SecretKind, u32)| finding_of(f)),
        metadata: if found.len() > 0 {
            Map::<Seq<char>, Seq<char>>::empty().insert(
                "secrets_redacted"@,
                decimal(total_found(found) as nat),
            )
        } else {
            Map::empty()
        },
    }
}

/// Tells what becomes of a request whose body was redacted.
pub fn request_result(body: &str, found: &Vec<(SecretKind, u32)>) -> (r: HttpRequestResult)
    ensures
        r@ == redacted_request(body@, found@),
{
    let mut findings: Vec<Finding> = Vec::new();
    let mut total: u32 = 0;
    let mut i: usize = 0;
    proof {
        assert(found@.take(0) =~= Seq::empty());
    }
    while i < found.len()
        invariant
            i <= found.len(),
            total == total_found(found@.take(i as int)),
            findings.len() == i,
            forall|j: int| 0 <= j < i ==> (#[trigger] findings@[j])@ == finding_of(found@[j]),
        decreases found.len() - i,
    {
        proof {
            assert(found@.take(i as int + 1).drop_last() =~= found@.take(i as int));
            assert(found@.take(i as int + 1).last() == found@[i as int]);
        }
        let (kind, count) = found[i];
        let mut finding_type = String::from_str("secret.");
        finding_type.append(kind_text(kind));
        let mut label = kind_text(kind).to_owned();
        label.append(" secret pattern");
        findings.push(
            Finding {
                finding_type,
                label,
                count,
                confidence: "medium".to_owned(),
                severity: "medium".to_owned(),
            },
        );
        total = if total > u32::MAX - count {
            u32::MAX
        } else {
            total + count
        };
        i += 1;
    }
    proof {
        assert(found@.take(found@.len() as int) =~= found@);
        assert(views(findings@) =~= found@.map_values(|f: (SecretKind, u32)| finding_of(f)));
    }
    let mut metadata: StringMap<String> = StringMap::new();
    if found.len() > 0 {
        metadata.insert("secrets_redacted".to_owned(), decimal_text(total as u64));
    }
    HttpRequestResult {
        decision: Decision::Allow,
        reason: String::new(),
        body: body.as_bytes_vec(),
        has_body: found.len() > 0,
        add_headers: StringMap::new(),
        findings,
        metadata,
    }
}

/// What becomes of a request: refused where the configuration cannot be read or the body is
/// no text, else with its secrets redacted.
pub open spec fn evaluated(config: Result<SecretsConfig, String>, body: Seq<u8>) -> Result<
    HttpRequestResultView,
    Seq<char>,
> {
    let text = decode_utf8(body);
    let first = without_kind(text, SecretKind::Keyword);
    if config is Err {
        Err(config_refusal(config->Err_0@))
    } else if !valid_utf8(body) {
        Err(BINDING_ID@ + " requires UTF-8 request bodies"@)
    } else {
        Ok(
            redacted_request(
                without_kind(first, SecretKind::OpenAi),
                found_kinds(
                    pattern_matches(KEYWORD_PATTERN@, text).len() as int,
                    pattern_matches(OPENAI_PATTERN@, first).len() as int,
                ),
            ),
        )
    }
}

/// Tells what becomes of a request.
pub fn evaluate_http_request(config: &Result<SecretsConfig, String>, body: Vec<u8>) -> (r: Result<
    HttpRequestResult,
    String,
>)
    ensures
        evaluated(*config, body@) == (match r {
            Ok(result) => Ok(result@),
            Err(e) => Err(e@),
        }),
{
    match validate_config(config) {
        Err(e) => {
            return Err(e);
        },
        Ok(()) => {},
    }
    match utf8_text(body) {
        None => {
            let mut s = BINDING_ID.to_owned();
            s.append(" requires UTF-8 request bodies");
            Err(s)
        },
        Some(text) => {
            let (redacted_text, found) = redact_common_secrets(&text);
            Ok(request_result(&redacted_text, &found))
        },
    }
}

/// A body without secrets goes on as it is, and nothing is told of it.
pub proof fn law_body_without_secrets_stays(config: SecretsConfig, body: Seq<u8>)
    requires
        valid_utf8(body),
        pattern_matches(KEYWORD_PATTERN@, decode_utf8(body)).len() == 0,
        pattern_matches(OPENAI_PATTERN@, decode_utf8(body)).len() == 0,
    ensures
        ({
            let result = evaluated(Ok(config), body);
            &&& result is Ok
            &&& result->Ok_0.body == body
            &&& !result->Ok_0.has_body
            &&& result->Ok_0.findings.len() == 0
            &&& result->Ok_0.metadata == Map::<Seq<char>, Seq<char>>::empty()
        }),
{
    let text = decode_utf8(body);
    assert(without_kind(text, SecretKind::Keyword) =~= text);
    assert(without_kind(text, SecretKind::OpenAi) =~= text);
    decode_utf8_encode_utf8(body);
}

/// The number that findings count, as far as a number goes.
pub open spec fn total_count(findings: Seq<FindingView>) -> int
    decreases findings.len(),
{
    if findings.len() == 0 {
        0
    } else {
        bounded(total_count(findings.drop_last()) + findings.last().count)
    }
}

proof fn lemma_total_count(found: Seq<(SecretKind, u32)>)
    ensures
        total_count(found.map_values(|f: (SecretKind, u32)| finding_of(f))) == total_found(found),
    decreases found.len(),
{
    let findings = found.map_values(|f: (SecretKind, u32)| finding_of(f));
    if found.len() > 0 {
        lemma_total_count(found.drop_last());
        assert(findings.drop_last() =~= found.drop_last().map_values(
            |f: (SecretKind, u32)| finding_of(f),
        ));
    }
}

/// A request is refused exactly if its configuration cannot be read or its body is no text.
/// It goes on otherwise, with no header added. A new body comes with findings, and no finding
/// without a new body; the metadata then tell how many secrets were redacted, and nothing
/// else.
pub proof fn law_redaction_is_reported(config: Result<SecretsConfig, String>, body: Seq<u8>)
    ensures
        evaluated(config, body) is Err <==> config is Err || !valid_utf8(body),
        evaluated(config, body) is Ok ==> ({
            let result = evaluated(config, body)->Ok_0;
            &&& result.decision == Decision::Allow
            &&& result.add_headers == Map::<Seq<char>, Seq<char>>::empty()
            &&& result.has_body <==> result.findings.len() > 0
            &&& !result.has_body ==> result.body == body && result.metadata == Map::<
                Seq<char>,
                Seq<char>,
            >::empty()
            &&& result.has_body ==> result.metadata == Map::<Seq<char>, Seq<char>>::empty().insert(
                "secrets_redacted"@,
                decimal(total_count(result.findings) as nat),
            )
        }),
{
    if config is Ok && valid_utf8(body) {
        let text = decode_utf8(body);
        let first = without_kind(text, SecretKind::Keyword);
        let keywords = pattern_matches(KEYWORD_PATTERN@, text);
        let keys = pattern_matches(OPENAI_PATTERN@, first);
        let found = found_kinds(keywords.len() as int, keys.len() as int);
        lemma_total_count(found);
        if found.len() == 0 {
            assert(keywords.len() == 0);
            assert(first =~= text);
            law_body_without_secrets_stays(config->Ok_0, body);
        }
    }
}

/// Each match reads as what stands in the place of a secret.
pub open spec fn already_redacted(text: Seq<char>, matches: Seq<SecretMatchView>) -> bool {
    forall|i: int|
        0 <= i < matches.len() ==> text.subrange(
            (#[trigger] matches[i]).start,
            matches[i].end,
        ) == replacement(matches[i].groups)
}

/// Where all that a pattern still matches is redacted already, redaction changes nothing.
pub proof fn law_redacted_text_stays(text: Seq<char>, matches: Seq<SecretMatchView>, from: int)
    requires
        in_sequence(matches, text.len() as int),
        already_redacted(text, matches),
        0 <= from <= text.len(),
        matches.len() > 0 ==> from <= matches[0].start,
    ensures
        redacted(text, matches, from) == text.skip(from),
    decreases matches.len(),
{
    if matches.len() > 0 {
        let rest = matches.skip(1);
        let end = matches[0].end;
        assert forall|i: int| 0 <= i < rest.len() implies 0 <= (#[trigger] rest[i]).start
            <= rest[i].end <= text.len() && text.subrange(rest[i].start, rest[i].end)
            == replacement(rest[i].groups) by {
            assert(rest[i] == matches[i + 1]);
        }
        assert forall|i: int, j: int| 0 <= i < j < rest.len() implies (#[trigger] rest[i]).end <= (
        #[trigger] rest[j]).start by {
            assert(rest[i] == matches[i + 1]);
            assert(rest[j] == matches[j + 1]);
        }
        if rest.len() > 0 {
            assert(matches[0].end <= matches[1].start);
            assert(rest[0] == matches[1]);
        }
        law_redacted_text_stays(text, rest, end);
        assert(text.subrange(from, matches[0].start) + text.subrange(matches[0].start, end)
            + text.skip(end) =~= text.skip(from));
    }
}

/// Redaction touches nothing but the matches: the text before the first and the text after
/// the last stay as they are.
pub proof fn law_only_matches_are_touched(text: Seq<char>, matches: Seq<SecretMatchView>, from: int)
    requires
        in_sequence(matches, text.len() as int),
        matches.len() > 0,
        0 <= from <= matches[0].start,
    ensures
        text.subrange(from, matches[0].start).is_prefix_of(redacted(text, matches, from)),
        text.skip(matches.last().end).is_suffix_of(redacted(text, matches, from)),
    decreases matches.len(),
{
    let whole = redacted(text, matches, from);
    let head = text.subrange(from, matches[0].start);
    let rest = matches.skip(1);
    let tail = redacted(text, rest, matches[0].end);
    assert(whole.subrange(0, head.len() as int) =~= head);
    assert(whole.subrange(whole.len() - tail.len(), whole.len() as int) =~= tail);
    if rest.len() > 0 {
        assert forall|i: int| 0 <= i < rest.len() implies 0 <= (#[trigger] rest[i]).start
            <= rest[i].end <= text.len() by {
            assert(rest[i] == matches[i + 1]);
        }
        assert forall|i: int, j: int| 0 <= i < j < rest.len() implies (#[trigger] rest[i]).end <= (
        #[trigger] rest[j]).start by {
            assert(rest[i] == matches[i + 1]);
            assert(rest[j] == matches[j + 1]);
        }
        assert(matches[0].end <= matches[1].start);
        law_only_matches_are_touched(text, rest, matches[0].end);
        let end = text.skip(matches.last().end);
        assert(end == text.skip(rest.last().end));
        assert(whole.subrange(whole.len() - end.len(), whole.len() as int) =~= tail.subrange(
            tail.len() - end.len(),
            tail.len() as int,
        ));
    }
}

/// Every match is replaced. At each match the redacted text is what comes before it, redacted,
/// then what stands in the place of the match, then what comes behind it, redacted.
pub proof fn law_every_match_is_replaced(
    text: Seq<char>,
    matches: Seq<SecretMatchView>,
    from: int,
    i: int,
)
    requires
        in_sequence(matches, text.len() as int),
        0 <= i < matches.len(),
        0 <= from <= matches[0].start,
    ensures
        redacted(text, matches, from) == redacted(
            text.take(matches[i].start),
            matches.take(i),
            from,
        ) + replacement(matches[i].groups) + redacted(text, matches.skip(i + 1), matches[i].end),
    decreases i,
{
    let m = matches[i];
    let before = text.take(m.start);
    if i == 0 {
        assert(matches.take(0) =~= Seq::empty());
        assert(matches.skip(1) =~= matches.skip(i + 1));
        assert(before.skip(from) =~= text.subrange(from, m.start));
    } else {
        let rest = matches.skip(1);
        assert forall|k: int| 0 <= k < rest.len() implies 0 <= (#[trigger] rest[k]).start
            <= rest[k].end <= text.len() by {
            assert(rest[k] == matches[k + 1]);
        }
        assert forall|k: int, l: int| 0 <= k < l < rest.len() implies (#[trigger] rest[k]).end <= (
        #[trigger] rest[l]).start by {
            assert(rest[k] == matches[k + 1]);
            assert(rest[l] == matches[l + 1]);
        }
        assert(matches[0].end <= matches[1].start);
        assert(rest[0] == matches[1]);
        law_every_match_is_replaced(text, rest, matches[0].end, i - 1);
        assert(rest[i - 1] == m);
        assert(rest.skip(i) =~= matches.skip(i + 1));
        assert(matches.take(i).skip(1) =~= rest.take(i - 1));
        assert(matches.take(i)[0] == matches[0]);
        assert(matches[0].end <= m.start);
        assert(before.subrange(from, matches[0].start) =~= text.subrange(from, matches[0].start));
        assert(redacted(text, matches, from) =~= redacted(before, matches.take(i), from)
            + replacement(m.groups) + redacted(text, matches.skip(i + 1), m.end));
    }
}

/// Where nothing is matched, nothing is changed.
pub proof fn law_nothing_is_replaced_without_a_match(text: Seq<char>, from: int)
    requires
        0 <= from <= text.len(),
    ensures
        redacted(text, Seq::empty(), from) == text.skip(from),
        redacted(text, Seq::empty(), 0) == text,
{
    assert(text.skip(0) =~= text);
}

/// The redacted text has, for each match, its length without what is matched and with what
/// stands in its place.
pub proof fn law_redaction_changes_only_matched_lengths(
    text: Seq<char>,
    matches: Seq<SecretMatchView>,
    from: int,
)
    requires
        in_sequence(matches, text.len() as int),
        0 <= from <= text.len(),
        matches.len() > 0 ==> from <= matches[0].start,
    ensures
        redacted(text, matches, from).len() == text.len() - from + length_gained(matches),
    decreases matches.len(),
{
    if matches.len() > 0 {
        let rest = matches.skip(1);
        assert forall|k: int| 0 <= k < rest.len() implies 0 <= (#[trigger] rest[k]).start
            <= rest[k].end <= text.len() by {
            assert(rest[k] == matches[k + 1]);
        }
        assert forall|k: int, l: int| 0 <= k < l < rest.len() implies (#[trigger] rest[k]).end <= (
        #[trigger] rest[l]).start by {
            assert(rest[k] == matches[k + 1]);
            assert(rest[l] == matches[l + 1]);
        }
        if rest.len() > 0 {
            assert(matches[0].end <= matches[1].start);
            assert(rest[0] == matches[1]);
        }
        law_redaction_changes_only_matched_lengths(text, rest, matches[0].end);
    }
}

/// How much longer the replacements are than what they stand in the place of.
pub open spec fn length_gained(matches: Seq<SecretMatchView>) -> int
    decreases matches.len(),
{
    if matches.len() == 0 {
        0
    } else {
        replacement(matches[0].groups).len() - (matches[0].end - matches[0].start) + length_gained(
            matches.skip(1),
        )
    }
}

/// What stands in the place of a secret shows nothing of it: a match with a word and quotes
/// keeps these, and any other keeps nothing.
pub proof fn law_replacement_hides_the_secret(groups: Seq<Seq<char>>, other: Seq<Seq<char>>)
    ensures
        groups.len() < 3 ==> replacement(groups) == "[REDACTED]"@,
        groups.len() >= 3 ==> {
            &&& (groups[0] + groups[1]).is_prefix_of(replacement(groups))
            &&& groups[2].is_suffix_of(replacement(groups))
            &&& replacement(groups) == groups[0] + groups[1] + "[REDACTED]"@ + groups[2]
        },
        groups.len() >= 3 && other.len() >= 3 && groups.take(3) == other.take(3) ==> replacement(
            groups,
        ) == replacement(other),
{
    if groups.len() >= 3 {
        let r = replacement(groups);
        let head = groups[0] + groups[1];
        assert(r.subrange(0, head.len() as int) =~= head);
        assert(r.subrange(r.len() - groups[2].len(), r.len() as int) =~= groups[2]);
        if other.len() >= 3 && groups.take(3) == other.take(3) {
            assert(groups[0] == groups.take(3)[0] && other[0] == other.take(3)[0]);
            assert(groups[1] == groups.take(3)[1] && other[1] == other.take(3)[1]);
            assert(groups[2] == groups.take(3)[2] && other[2] == other.take(3)[2]);
        }
    }
}

/// Both kinds of secrets go: the body that goes on is the text with every value behind a word
/// replaced and then, in what that gives, every key. What is found is told by kind, with its
/// number, and nothing is told of a kind that is not there.
pub proof fn law_both_kinds_are_redacted(config: SecretsConfig, body: Seq<u8>)
    requires
        valid_utf8(body),
    ensures
        ({
            let text = decode_utf8(body);
            let words = pattern_matches(KEYWORD_PATTERN@, text);
            let between = redacted(text, words, 0);
            let keys = pattern_matches(OPENAI_PATTERN@, between);
            let result = evaluated(Ok(config), body)->Ok_0;
            let told = |kind: Seq<char>, n: nat|
                exists|i: int|
                    0 <= i < result.findings.len() && (#[trigger] result.findings[i]).finding_type
                        == "secret."@ + kind && result.findings[i].count == if n <= u32::MAX {
                        n as int
                    } else {
                        u32::MAX as int
                    };
            &&& evaluated(Ok(config), body) is Ok
            &&& result.body == encode_utf8(redacted(between, keys, 0))
            &&& words.len() > 0 ==> told("keyword"@, words.len())
            &&& keys.len() > 0 ==> told("openai"@, keys.len())
            &&& result.findings.len() == (if words.len() > 0 {
                1int
            } else {
                0
            }) + (if keys.len() > 0 {
                1int
            } else {
                0
            })
        }),
{
    let text = decode_utf8(body);
    let words = pattern_matches(KEYWORD_PATTERN@, text);
    let between = redacted(text, words, 0);
    let keys = pattern_matches(OPENAI_PATTERN@, between);
    let result = evaluated(Ok(config), body)->Ok_0;
    let found = found_kinds(words.len() as int, keys.len() as int);
    assert(result.findings == found.map_values(|f: (SecretKind, u32)| finding_of(f)));
    if words.len() > 0 {
        assert(found[0].0 == SecretKind::Keyword);
        assert(result.findings[0].finding_type == "secret."@ + "keyword"@);
    }
    if keys.len() > 0 {
        let at = found.len() - 1;
        assert(found[at].0 == SecretKind::OpenAi);
        assert(result.findings[at].finding_type == "secret."@ + "openai"@);
    }
}

/// A request is never refused for what is in its text.
pub proof fn law_text_is_never_refused(config: SecretsConfig, body: Seq<u8>)
    requires
        valid_utf8(body),
    ensures
        evaluated(Ok(config), body) is Ok,
        evaluated(Ok(config), body)->Ok_0.decision == Decision::Allow,
{
}

} // verus!
