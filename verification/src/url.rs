//! Reading the owner and the name of a repository from its GitHub URL.
//!
//! The URL is trimmed, a final `.git` is cut off, and what is left is matched
//! against `RE_GITHUB_PATTERN` by the `regex` crate. What a pattern matches
//! is not restated here: the groups of a match have a name, `regex_groups`,
//! and so has the set of characters that trimming removes,
//! `is_white_space`.

use crate::text::{chars_of, string_of};
use regex::Regex;
use vstd::prelude::*;

verus! {

/// The forms of a GitHub URL: over HTTP or HTTPS, as an SCP-like SSH
/// address, or as an `ssh://` URL; then the owner, a slash and the name of
/// the repository. Letter case is ignored.
pub const RE_GITHUB_PATTERN: &'static str =
    r"(?xi)^(?:https?://github\.com/|git@github\.com:|ssh://git@github\.com/)([^/]+)/([^/]+?)(?:\.git)?(?:/|$)";

/// What is answered for a text that is no GitHub URL.
pub const INVALID_URL: &'static str = "Invalid GitHub URL";

/// Whether `c` has the Unicode property `White_Space`.
pub uninterp spec fn is_white_space(c: char) -> bool;

/// `char::is_whitespace`: whether the character has the Unicode property
/// `White_Space`.
pub assume_specification[ char::is_whitespace ](c: char) -> (b: bool)
    ensures
        b == is_white_space(c),
;

/// The first and the second capture group of the leftmost match of
/// `pattern` in `text`, as the `regex` crate finds it. There are none where
/// the pattern does not compile, where it does not match, or where one of
/// the two groups took no part in the match.
pub uninterp spec fn regex_groups(pattern: Seq<char>, text: Seq<char>) -> Option<
    (Seq<char>, Seq<char>),
>;

/// `Regex::new`, `Regex::captures` and `Captures::get` for the groups 1 and
/// 2: compiles `pattern`, searches `text` for its leftmost match and hands
/// out the text of the first two groups.
#[verifier::external_body]
fn first_two_groups(pattern: &str, text: &str) -> (r: Option<(String, String)>)
    ensures
        match r {
            Some((first, second)) => regex_groups(pattern@, text@) == Some((first@, second@)),
            None => regex_groups(pattern@, text@) is None,
        },
{
    let captures = Regex::new(pattern).ok()?.captures(text)?;
    Some((captures.get(1)?.as_str().to_owned(), captures.get(2)?.as_str().to_owned()))
}

/// `text` without the white space it starts with.
pub open spec fn trim_start(text: Seq<char>) -> Seq<char>
    decreases text.len(),
{
    if text.len() > 0 && is_white_space(text[0]) {
        trim_start(text.drop_first())
    } else {
        text
    }
}

/// `text` without the white space it ends with.
pub open spec fn trim_end(text: Seq<char>) -> Seq<char>
    decreases text.len(),
{
    if text.len() > 0 && is_white_space(text.last()) {
        trim_end(text.drop_last())
    } else {
        text
    }
}

/// `text` without the white space around it.
pub open spec fn trim(text: Seq<char>) -> Seq<char> {
    trim_end(trim_start(text))
}

/// Whether `text` ends with `.git`.
pub open spec fn has_git_suffix(text: Seq<char>) -> bool {
    text.len() >= 4 && text.skip(text.len() - 4) == seq!['.', 'g', 'i', 't']
}

/// `text` without one final `.git`.
pub open spec fn strip_git_suffix(text: Seq<char>) -> Seq<char> {
    if has_git_suffix(text) {
        text.take(text.len() - 4)
    } else {
        text
    }
}

/// The text that is matched against the pattern: the URL trimmed, without
/// one final `.git`.
pub open spec fn candidate(url: Seq<char>) -> Seq<char> {
    strip_git_suffix(trim(url))
}

/// The owner and the repository that a match of the pattern gives, or the
/// refusal where there is none.
pub open spec fn url_parts(groups: Option<(Seq<char>, Seq<char>)>) -> Result<
    (Seq<char>, Seq<char>),
    Seq<char>,
> {
    match groups {
        Some((owner, repo)) => Ok((owner, repo)),
        None => Err(INVALID_URL@),
    }
}

/// The owner and the repository of a GitHub URL.
pub open spec fn spec_parse_github_url(url: Seq<char>) -> Result<(Seq<char>, Seq<char>), Seq<char>> {
    url_parts(regex_groups(RE_GITHUB_PATTERN@, candidate(url)))
}

/// Trims the characters `text`.
pub fn trimmed(text: &Vec<char>) -> (r: Vec<char>)
    ensures
        r@ == trim(text@),
{
    let n = text.len();
    let mut start: usize = 0;
    assert(text@.skip(0) == text@);
    while start < n && text[start].is_whitespace()
        invariant
            n == text.len(),
            start <= n,
            trim_start(text@) == trim_start(text@.skip(start as int)),
        decreases n - start,
    {
        proof {
            let rest = text@.skip(start as int);
            assert(rest[0] == text@[start as int]);
            assert(rest.drop_first() == text@.skip(start + 1));
        }
        start += 1;
    }
    let ghost head = text@.skip(start as int);
    assert(trim_start(text@) == head) by {
        if start < n {
            assert(head[0] == text@[start as int]);
        }
    }
    let mut end: usize = n;
    assert(text@.subrange(start as int, n as int) == head);
    while end > start && text[end - 1].is_whitespace()
        invariant
            n == text.len(),
            start <= end <= n,
            trim_end(head) == trim_end(text@.subrange(start as int, end as int)),
        decreases end - start,
    {
        proof {
            let rest = text@.subrange(start as int, end as int);
            assert(rest.last() == text@[end - 1]);
            assert(rest.drop_last() == text@.subrange(start as int, end - 1));
        }
        end -= 1;
    }
    let ghost core = text@.subrange(start as int, end as int);
    assert(trim_end(core) == core) by {
        if end > start {
            assert(core.last() == text@[end - 1]);
        }
    }
    let mut r: Vec<char> = Vec::new();
    let mut i: usize = start;
    while i < end
        invariant
            start <= i <= end <= text.len(),
            r@ == text@.subrange(start as int, i as int),
        decreases end - i,
    {
        r.push(text[i]);
        i += 1;
    }
    r
}

/// Cuts one final `.git` off the characters `text`.
pub fn without_git_suffix(text: Vec<char>) -> (r: Vec<char>)
    ensures
        r@ == strip_git_suffix(text@),
{
    let n = text.len();
    if n >= 4 && text[n - 4] == '.' && text[n - 3] == 'g' && text[n - 2] == 'i' && text[n - 1] == 't' {
        assert(text@.skip(n - 4) =~= seq!['.', 'g', 'i', 't']);
        let mut r = text;
        r.truncate(n - 4);
        r
    } else {
        proof {
            if has_git_suffix(text@) {
                let tail = text@.skip(n - 4);
                assert(tail[0] == '.' && tail[1] == 'g' && tail[2] == 'i' && tail[3] == 't');
            }
        }
        text
    }
}

/// The owner and the repository that the groups of a match give, or the
/// refusal where there is no match.
pub fn parts_from_groups(groups: Option<(String, String)>) -> (r: Result<
    (String, String),
    &'static str,
>)
    ensures
        match r {
            Ok((owner, repo)) => groups matches Some((first, second)) && owner@ == first@ && repo@
                == second@,
            Err(refusal) => groups is None && refusal@ == INVALID_URL@,
        },
{
    match groups {
        Some((owner, repo)) => Ok((owner, repo)),
        None => Err(INVALID_URL),
    }
}

/// Reads the owner and the name of the repository from a GitHub URL. White
/// space around the URL and one final `.git` are ignored.
pub fn parse_github_url(url: &str) -> (r: Result<(String, String), &'static str>)
    ensures
        match r {
            Ok((owner, repo)) => spec_parse_github_url(url@) == Ok::<
                (Seq<char>, Seq<char>),
                Seq<char>,
            >((owner@, repo@)),
            Err(refusal) => spec_parse_github_url(url@) == Err::<(Seq<char>, Seq<char>), Seq<char>>(
                refusal@,
            ),
        },
{
    let chars = chars_of(url);
    let stripped = without_git_suffix(trimmed(&chars));
    let text = string_of(&stripped);
    parts_from_groups(first_two_groups(RE_GITHUB_PATTERN, text.as_str()))
}

} // verus!
