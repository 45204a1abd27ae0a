//! Which request paths a provider endpoint's path pattern selects.
use vstd::prelude::*;

use crate::text::{chars_of, same_text};

verus! {

/// What a glob pattern says of a path: nothing where the pattern is malformed.
pub uninterp spec fn glob_match(pattern: Seq<char>, path: Seq<char>) -> Option<bool>;

/// `glob::Pattern::new` compiles a pattern or refuses it as malformed, and
/// `glob::Pattern::matches` tells whether a compiled pattern matches a path, with the
/// crate's default options. Both go by the path separators of the platform that the
/// library is built for, and by nothing else but their arguments.
#[verifier::external_body]
fn glob_matches(pattern: &str, path: &str) -> (r: Option<bool>)
    ensures
        r == glob_match(pattern@, path@),
{
    match glob::Pattern::new(pattern) {
        Ok(compiled) => Some(compiled.matches(path)),
        Err(_) => None,
    }
}

/// The pattern is a path followed by `/**`.
pub open spec fn names_descendants(pattern: Seq<char>) -> bool {
    "/**"@.is_suffix_of(pattern)
}

/// The path that a pattern ending in `/**` names.
pub open spec fn named_path(pattern: Seq<char>) -> Seq<char> {
    pattern.take(pattern.len() - 3)
}

/// Whether a pattern selects a path, given what it says as a glob. The empty pattern, `**`
/// and `/**` select every path; a pattern selects itself; a trailing `/**` selects the named
/// path and its descendants; any other pattern is a glob, and a malformed one selects
/// nothing.
pub open spec fn selects(pattern: Seq<char>, path: Seq<char>, glob: Option<bool>) -> bool {
    if pattern.len() == 0 || pattern == "**"@ || pattern == "/**"@ || pattern == path {
        true
    } else if names_descendants(pattern) {
        path == named_path(pattern) || (named_path(pattern).push('/')).is_prefix_of(path)
    } else {
        glob == Some(true)
    }
}

/// Whether a pattern selects a path, where the glob has been asked already.
pub fn matches_given(pattern: &str, path: &str, glob: Option<bool>) -> (r: bool)
    ensures
        r == selects(pattern@, path@, glob),
{
    if pattern.is_empty() || same_text(pattern, "**") || same_text(pattern, "/**") || same_text(
        pattern,
        path,
    ) {
        return true;
    }
    proof {
        reveal_strlit("/**");
    }
    let chars = chars_of(pattern);
    let wanted = chars_of(path);
    let n: usize = chars.len();
    if n >= 3 && chars[n - 3] == '/' && chars[n - 2] == '*' && chars[n - 1] == '*' {
        let ghost prefix = named_path(pattern@);
        proof {
            assert(pattern@.subrange(n - 3, n as int) =~= "/**"@);
            assert(names_descendants(pattern@));
        }
        if wanted.len() < n - 3 {
            proof {
                assert(!prefix.push('/').is_prefix_of(path@));
            }
            return false;
        }
        let mut i: usize = 0;
        while i < n - 3
            invariant
                n == chars.len(),
                n >= 3,
                pattern@ != "**"@,
                pattern@ != "/**"@,
                pattern@ != path@,
                names_descendants(pattern@),
                chars@ == pattern@,
                wanted@ == path@,
                prefix == named_path(pattern@),
                i <= n - 3 <= wanted.len(),
                forall|j: int| 0 <= j < i ==> prefix[j] == path@[j],
            decreases n - 3 - i,
        {
            if chars[i] != wanted[i] {
                proof {
                    assert(prefix[i as int] != path@[i as int]);
                    assert(path@ != prefix);
                    assert(prefix.push('/')[i as int] != path@[i as int]);
                    if prefix.push('/').is_prefix_of(path@) {
                        assert(path@.subrange(0, prefix.len() as int + 1)[i as int] == path@[i as int]);
                    }
                }
                return false;
            }
            i += 1;
        }
        let r = wanted.len() == n - 3 || wanted[n - 3] == '/';
        proof {
            if wanted.len() == n - 3 {
                assert(path@ =~= prefix);
            } else {
                let slashed = prefix.push('/');
                if wanted[n - 3] == '/' {
                    assert(path@.subrange(0, slashed.len() as int) =~= slashed);
                } else if slashed.is_prefix_of(path@) {
                    assert(path@.subrange(0, slashed.len() as int)[n - 3] == '/');
                }
            }
        }
        return r;
    }
    proof {
        if names_descendants(pattern@) {
            let tail = pattern@.subrange(n - 3, n as int);
            assert(tail[0] == '/' && tail[1] == '*' && tail[2] == '*');
        }
    }
    match glob {
        Some(selected) => selected,
        None => false,
    }
}

/// Whether a provider endpoint's path pattern selects a path.
pub fn matches(pattern: &str, path: &str) -> (r: bool)
    ensures
        r == selects(pattern@, path@, glob_match(pattern@, path@)),
{
    matches_given(pattern, path, None) || matches_given(pattern, path, glob_matches(pattern, path))
}

/// A pattern for everything selects everything, and every pattern selects itself.
pub proof fn law_patterns_select_themselves(pattern: Seq<char>, path: Seq<char>, glob: Option<bool>)
    ensures
        selects(Seq::empty(), path, glob),
        selects("**"@, path, glob),
        selects("/**"@, path, glob),
        selects(pattern, pattern, glob),
{
}

/// A trailing `/**` selects the named path, and what lies under it.
pub proof fn law_descendants_are_selected(
    prefix: Seq<char>,
    below: Seq<char>,
    glob: Option<bool>,
)
    ensures
        selects(prefix + "/**"@, prefix, glob),
        selects(prefix + "/**"@, prefix.push('/') + below, glob),
{
    reveal_strlit("/**");
    let pattern = prefix + "/**"@;
    assert(pattern.subrange(pattern.len() - 3, pattern.len() as int) =~= "/**"@);
    assert(named_path(pattern) =~= prefix);
    let path = prefix.push('/') + below;
    assert(path.subrange(0, prefix.len() as int + 1) =~= prefix.push('/'));
}

} // verus!
