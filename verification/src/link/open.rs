//! What opening a link means: an address, or the files that it may name.

use super::{Link, LinkType};
use crate::text::{append_chars, append_text, chars_of, joined, owned, string_of, strip_prefix, texts};
use vstd::prelude::*;

verus! {

/// What is to be opened.
#[derive(Clone, Debug, PartialEq, Eq)]
pub enum LinkTarget {
    /// An address for the browser.
    Url(String),
    /// A file; see [`file_candidates`].
    File(String),
}

/// What is opened, in words.
pub enum Opened {
    Address(Seq<char>),
    File(Seq<char>),
}

/// What a link of some kind and text opens.
pub open spec fn opened_by(kind: LinkType, text: Seq<char>) -> Opened {
    match kind {
        LinkType::Url => Opened::Address(text),
        LinkType::IpAddress => Opened::Address("http://"@ + text),
        LinkType::FilePath => Opened::File(text),
    }
}

/// What opening a link opens: a numeric address is a web server's.
pub fn link_target(link: &Link) -> (target: LinkTarget)
    ensures
        opened_by(link.link_type, link.text@) == (match target {
            LinkTarget::Url(url) => Opened::Address(url@),
            LinkTarget::File(path) => Opened::File(path@),
        }),
        match link.link_type {
            LinkType::Url => target matches LinkTarget::Url(url) && url@ == link.text@,
            LinkType::IpAddress => target matches LinkTarget::Url(url) && url@ == "http://"@
                + link.text@,
            LinkType::FilePath => target matches LinkTarget::File(path) && path@ == link.text@,
        },
{
    let text = owned(link.text.as_str());
    match link.link_type {
        LinkType::Url => LinkTarget::Url(text),
        LinkType::IpAddress => {
            let chars = chars_of(link.text.as_str());
            LinkTarget::Url(joined("http://", chars.as_slice()))
        },
        LinkType::FilePath => LinkTarget::File(text),
    }
}

/// The last colon before a position.
pub open spec fn last_colon(s: Seq<char>, before: int) -> Option<int>
    decreases before,
{
    if before <= 0 {
        None
    } else if s[before - 1] == ':' {
        Some(before - 1)
    } else {
        last_colon(s, before - 1)
    }
}

/// Whether a text is a row of digits.
pub open spec fn all_digits(s: Seq<char>) -> bool {
    s.len() > 0 && forall|i: int| 0 <= i < s.len() ==> '0' <= #[trigger] s[i] <= '9'
}

/// A path without the line, or the line and column, that a compiler puts behind it.
/// Nothing where there is none.
pub open spec fn without_location(path: Seq<char>) -> Option<Seq<char>> {
    match last_colon(path, path.len() as int) {
        None => None,
        Some(c) => if !all_digits(path.subrange(c + 1, path.len() as int)) {
            None
        } else {
            let head = path.subrange(0, c);
            match last_colon(head, head.len() as int) {
                Some(b) => if all_digits(head.subrange(b + 1, head.len() as int)) {
                    Some(head.subrange(0, b))
                } else {
                    Some(head)
                },
                None => Some(head),
            }
        },
    }
}

/// A path below a directory.
pub open spec fn path_below(base: Seq<char>, path: Seq<char>) -> Seq<char> {
    if base.len() == 0 || base.last() == '/' {
        base + path
    } else {
        base + "/"@ + path
    }
}

/// A path with a leading `~/` expanded and, where it is relative, put below the
/// working directory.
pub open spec fn resolved(path: Seq<char>, home: Option<Seq<char>>, cwd: Option<Seq<char>>) -> Seq<
    char,
> {
    let expanded = if "~/"@.is_prefix_of(path) && home is Some {
        let rest = path.subrange(2, path.len() as int);
        if "/"@.is_prefix_of(rest) {
            rest
        } else {
            path_below(home->0, rest)
        }
    } else {
        path
    };
    if "/"@.is_prefix_of(expanded) || cwd is None {
        expanded
    } else {
        path_below(cwd->0, expanded)
    }
}

/// The files that a link may name, in the order in which they are tried: the path as
/// it is shown, then the path without a source location.
pub open spec fn candidates(
    path: Seq<char>,
    home: Option<Seq<char>>,
    cwd: Option<Seq<char>>,
) -> Seq<Seq<char>> {
    match without_location(path) {
        Some(source) => seq![resolved(path, home, cwd), resolved(source, home, cwd)],
        None => seq![resolved(path, home, cwd)],
    }
}

fn find_last_colon(s: &[char]) -> (at: Option<usize>)
    ensures
        at is Some <==> last_colon(s@, s@.len() as int) is Some,
        at matches Some(c) ==> last_colon(s@, s@.len() as int) == Some(c as int) && c < s@.len(),
{
    let mut i: usize = s.len();
    while i > 0
        invariant
            i <= s@.len(),
            last_colon(s@, i as int) == last_colon(s@, s@.len() as int),
        decreases i,
    {
        if s[i - 1] == ':' {
            return Some(i - 1);
        }
        i = i - 1;
    }
    None
}

fn is_all_digits(s: &[char]) -> (v: bool)
    ensures
        v == all_digits(s@),
{
    let mut i: usize = 0;
    while i < s.len()
        invariant
            i <= s@.len(),
            forall|k: int| 0 <= k < i ==> '0' <= #[trigger] s@[k] <= '9',
        decreases s@.len() - i,
    {
        if s[i] < '0' || s[i] > '9' {
            return false;
        }
        i = i + 1;
    }
    s.len() > 0
}

/// A path without the line, or the line and column, that a compiler puts behind it.
pub fn strip_source_location(path: &str) -> (source: Option<String>)
    ensures
        source is Some <==> without_location(path@) is Some,
        source matches Some(s) ==> without_location(path@) == Some(s@),
{
    let chars = chars_of(path);
    let chars: &[char] = chars.as_slice();
    let c: usize = match find_last_colon(chars) {
        Some(c) => c,
        None => return None,
    };
    if !is_all_digits(vstd::slice::slice_subrange(chars, c + 1, chars.len())) {
        return None;
    }
    let head = vstd::slice::slice_subrange(chars, 0, c);
    if let Some(b) = find_last_colon(head) {
        if is_all_digits(vstd::slice::slice_subrange(head, b + 1, head.len())) {
            return Some(string_of(vstd::slice::slice_subrange(head, 0, b)));
        }
    }
    Some(string_of(head))
}

pub(crate) fn join_path(base: &str, path: &[char]) -> (joined_path: String)
    ensures
        joined_path@ == path_below(base@, path@),
{
    let chars = chars_of(base);
    let mut joined_path = owned(base);
    if chars.len() > 0 && chars[chars.len() - 1] != '/' {
        append_text(&mut joined_path, "/");
    }
    append_chars(&mut joined_path, path);
    joined_path
}

/// What an optional text holds.
pub open spec fn opt_text(s: Option<&str>) -> Option<Seq<char>> {
    match s {
        Some(s) => Some(s@),
        None => None,
    }
}

fn resolve(path: &str, home: Option<&str>, cwd: Option<&str>) -> (file: String)
    ensures
        file@ == resolved(path@, opt_text(home), opt_text(cwd)),
{
    let chars = chars_of(path);
    proof {
        reveal_strlit("~/");
    }
    let expanded = match (strip_prefix(chars.as_slice(), "~/"), home) {
        (Some(rest), Some(home)) => {
            if strip_prefix(rest, "/").is_some() {
                string_of(rest)
            } else {
                join_path(home, rest)
            }
        },
        _ => owned(path),
    };
    let expanded_chars = chars_of(expanded.as_str());
    if strip_prefix(expanded_chars.as_slice(), "/").is_some() {
        return expanded;
    }
    match cwd {
        Some(dir) => join_path(dir, expanded_chars.as_slice()),
        None => expanded,
    }
}

/// The files that a link may name, in the order in which they are to be tried.
pub fn file_candidates(path: &str, home: Option<&str>, cwd: Option<&str>) -> (files: Vec<String>)
    ensures
        texts(files@) == candidates(path@, opt_text(home), opt_text(cwd)),
{
    let mut files: Vec<String> = Vec::new();
    files.push(resolve(path, home, cwd));
    if let Some(source) = strip_source_location(path) {
        files.push(resolve(source.as_str(), home, cwd));
    }
    proof {
        assert(texts(files@) =~= candidates(path@, opt_text(home), opt_text(cwd)));
    }
    files
}

} // verus!
