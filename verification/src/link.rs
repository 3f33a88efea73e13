//! Links in the terminal's text: finding them, and what to open.

use crate::outside::{find_matches, match_texts, regex_matches};
use crate::text::{
    append_text, chars_of, count_char, find, find_char, find_part, find_text, holds_text, is_text,
    occurrences, owned, starts_with, string_of, trim, trim_end, trim_start, trimmed, trimmed_start,
};
use laws::{
    addresses_are_not_taken_apart, all_show, lie_in, links_show_what_they_cover, none_within,
};
use vstd::prelude::*;

pub mod finding;
pub mod laws;
pub mod open;
pub mod rows;

verus! {

/// An OSC 8 hyperlink.
#[derive(Clone, Debug)]
pub struct Hyperlink {
    pub url: String,
    pub text: String,
    pub id: Option<String>,
}

/// The text of an optional string, or nothing.
pub open spec fn text_or_empty(s: Option<String>) -> Seq<char> {
    match s {
        Some(s) => s@,
        None => Seq::empty(),
    }
}

/// A hyperlink as an escape sequence.
pub open spec fn hyperlink_sequence(id: Seq<char>, url: Seq<char>, text: Seq<char>) -> Seq<char> {
    "\x1b]8;"@ + id + ";"@ + url + "\x1b\\"@ + text + "\x1b]8;;\x1b\\"@
}

/// The address and the text that a hyperlink's escape sequence holds: what stands
/// between the first `;` and the first terminator, and what stands between the first
/// two terminators.
pub open spec fn hyperlink_parts(s: Seq<char>) -> Option<(Seq<char>, Seq<char>)> {
    match (find_part(s, "\x1b]8;"@, 0), find_part(s, "\x1b\\"@, 0)) {
        (Some(_), Some(end)) => {
            let head = s.subrange(0, end);
            let tail = s.subrange(end + 2, s.len() as int);
            let text = match find_part(tail, "\x1b\\"@, 0) {
                Some(stop) => tail.subrange(0, stop),
                None => tail,
            };
            let semicolon = find(head, ';', 0);
            if semicolon < head.len() {
                Some((head.subrange(semicolon + 1, head.len() as int), text))
            } else {
                None
            }
        },
        _ => None,
    }
}

impl Hyperlink {
    pub fn to_ansi_string(&self) -> (s: String)
        ensures
            s@ == hyperlink_sequence(text_or_empty(self.id), self.url@, self.text@),
    {
        let mut s = owned("\x1b]8;");
        proof {
            assert(s@ + Seq::<char>::empty() =~= s@);
        }
        if let Some(id) = &self.id {
            append_text(&mut s, id.as_str());
        }
        append_text(&mut s, ";");
        append_text(&mut s, self.url.as_str());
        append_text(&mut s, "\x1b\\");
        append_text(&mut s, self.text.as_str());
        append_text(&mut s, "\x1b]8;;\x1b\\");
        s
    }

    pub fn from_ansi_string(s: &str) -> (link: Option<Self>)
        ensures
            link is Some <==> hyperlink_parts(s@) is Some,
            link matches Some(h) ==> hyperlink_parts(s@) == Some((h.url@, h.text@)) && h.id is None,
    {
        let chars = chars_of(s);
        let chars: &[char] = chars.as_slice();
        let terminator = chars_of("\x1b\\");
        proof {
            reveal_strlit("\x1b\\");
        }
        if !holds_text(chars, "\x1b]8;") {
            return None;
        }
        match find_text(chars, terminator.as_slice(), 0) {
            None => None,
            Some(end) => {
                let len: usize = chars.len();
                let head = vstd::slice::slice_subrange(chars, 0, end);
                let tail = vstd::slice::slice_subrange(chars, end + 2, len);
                let text = match find_text(tail, terminator.as_slice(), 0) {
                    Some(stop) => vstd::slice::slice_subrange(tail, 0, stop),
                    None => tail,
                };
                let semicolon: usize = find_char(head, ';', 0);
                if semicolon < head.len() {
                    let url = vstd::slice::slice_subrange(head, semicolon + 1, head.len());
                    Some(Hyperlink { url: string_of(url), text: string_of(text), id: None })
                } else {
                    None
                }
            },
        }
    }
}

#[derive(Clone, Debug, Copy, PartialEq, Eq, Structural)]
pub enum LinkType {
    /// http, https or ftp.
    Url,
    FilePath,
    IpAddress,
}

/// A link on the screen.
#[derive(Clone, Debug, PartialEq, Eq)]
pub struct Link {
    pub line: usize,
    pub col_start: usize,
    /// One behind the last column.
    pub col_end: usize,
    pub link_type: LinkType,
    pub text: String,
}

/// What a [`Link`] says.
pub struct LinkModel {
    pub line: int,
    pub col_start: int,
    pub col_end: int,
    pub link_type: LinkType,
    pub text: Seq<char>,
}

impl View for Link {
    type V = LinkModel;

    open spec fn view(&self) -> LinkModel {
        LinkModel {
            line: self.line as int,
            col_start: self.col_start as int,
            col_end: self.col_end as int,
            link_type: self.link_type,
            text: self.text@,
        }
    }
}

pub open spec fn links_view(links: Seq<Link>) -> Seq<LinkModel> {
    Seq::new(links.len(), |i: int| links[i]@)
}

/// What to look for.
#[derive(Clone, Debug)]
pub struct LinkDetectionConfig {
    pub detect_urls: bool,
    pub detect_file_paths: bool,
    pub detect_ip_addresses: bool,
}

impl Default for LinkDetectionConfig {
    fn default() -> (config: Self)
        ensures
            config.detect_urls,
            config.detect_file_paths,
            config.detect_ip_addresses,
    {
        LinkDetectionConfig {
            detect_urls: true,
            detect_file_paths: true,
            detect_ip_addresses: true,
        }
    }
}

/// Addresses. Parentheses may stand in them.
pub open spec fn url_pattern() -> Seq<char> {
    "(?:https?|ftp)://[^\\s<>\\[\\]{}|\\\\^`]*[^\\s<>\\[\\]{}|\\\\^`.,;:!?\\-]"@
}

/// Four numbers up to 255.
pub open spec fn ip_pattern() -> Seq<char> {
    "\\b(?:(?:25[0-5]|2[0-4][0-9]|[01]?[0-9][0-9]?)\\.){3}(?:25[0-5]|2[0-4][0-9]|[01]?[0-9][0-9]?)\\b"@
}

/// Absolute paths, paths that start with `./`, `../` or `~/`, and the relative paths
/// that compilers print.
pub open spec fn path_pattern() -> Seq<char> {
    "(?:^|\\s)(?:(?:/|\\./|\\.\\./|~/)[^\\s<>\\[\\]{}|\\\\^`()]*|[^/:\\s<>\\[\\]{}|\\\\^`()]+(?:/[^/\\s<>\\[\\]{}|\\\\^`()]+)+)"@
}

/// The matches of a pattern: what stands before each, and what it is.
pub open spec fn found_in(pattern: Seq<char>, line: Seq<char>) -> Seq<(Seq<char>, Seq<char>)> {
    match regex_matches(pattern, false, false, line) {
        Ok(matches) => matches,
        Err(_) => Seq::empty(),
    }
}

/// An address without the closing parentheses at its end that were not opened in it.
pub open spec fn balanced(url: Seq<char>) -> Seq<char>
    decreases url.len(),
{
    if url.len() > 0 && url.last() == ')' && occurrences(url, ')') > occurrences(url, '(') {
        balanced(url.drop_last())
    } else {
        url
    }
}

/// Whether columns are part of a link.
pub open spec fn covered(links: Seq<LinkModel>, from: int, to: int) -> bool {
    exists|i: int|
        0 <= i < links.len() && (#[trigger] links[i]).col_start <= from && to <= links[i].col_end
}

/// The link that an address makes.
pub open spec fn url_link(found: (Seq<char>, Seq<char>), line: int) -> LinkModel {
    let url = balanced(found.1);
    LinkModel {
        line,
        col_start: found.0.len() as int,
        col_end: (found.0.len() + url.len()) as int,
        link_type: LinkType::Url,
        text: url,
    }
}

pub open spec fn url_links(found: Seq<(Seq<char>, Seq<char>)>, line: int) -> Seq<LinkModel> {
    Seq::new(found.len(), |i: int| url_link(found[i], line))
}

/// Links, and those of the numeric addresses that are not part of one.
pub open spec fn with_ips(
    links: Seq<LinkModel>,
    found: Seq<(Seq<char>, Seq<char>)>,
    line: int,
) -> Seq<LinkModel>
    decreases found.len(),
{
    if found.len() == 0 {
        links
    } else {
        let before = with_ips(links, found.drop_last(), line);
        let start = found.last().0.len() as int;
        let end = start + found.last().1.len();
        if covered(before, start, end) {
            before
        } else {
            before.push(
                LinkModel {
                    line,
                    col_start: start,
                    col_end: end,
                    link_type: LinkType::IpAddress,
                    text: found.last().1,
                },
            )
        }
    }
}

/// Punctuation that ends a sentence rather than a path.
pub open spec fn ends_sentence(c: char) -> bool {
    c == ',' || c == ';' || c == '!' || c == '?'
}

pub open spec fn without_punctuation(s: Seq<char>) -> Seq<char>
    decreases s.len(),
{
    if s.len() > 0 && ends_sentence(s.last()) {
        without_punctuation(s.drop_last())
    } else {
        s
    }
}

/// Whether a text is taken for a path.
pub open spec fn valid_path(text: Seq<char>) -> bool {
    let s = trimmed(text);
    &&& s.len() > 0
    &&& s != "/"@ && s != "//"@ && s != "./"@ && s != "../"@ && s != "~/"@
    &&& !"//"@.is_prefix_of(s)
    &&& find_part(s, "://"@, 0) is None
    &&& !(forall|i: int| 0 <= i < s.len() ==> (#[trigger] s[i] == '/' || s[i] == '.'))
    &&& find(s, '/', 0) < s.len()
}

/// Links, and those of the paths that are not part of one.
pub open spec fn with_paths(
    links: Seq<LinkModel>,
    found: Seq<(Seq<char>, Seq<char>)>,
    line: int,
) -> Seq<LinkModel>
    decreases found.len(),
{
    if found.len() == 0 {
        links
    } else {
        let before = with_paths(links, found.drop_last(), line);
        let raw = found.last().1;
        let path = without_punctuation(trimmed(raw));
        let start = found.last().0.len() + (raw.len() - trimmed_start(raw).len());
        let end = start + path.len();
        if path.len() == 0 || covered(before, start, end) || !valid_path(path) {
            before
        } else {
            before.push(
                LinkModel {
                    line,
                    col_start: start,
                    col_end: end,
                    link_type: LinkType::FilePath,
                    text: path,
                },
            )
        }
    }
}

/// What each of the three patterns finds in a text.
pub struct Findings {
    pub urls: Seq<(Seq<char>, Seq<char>)>,
    pub ips: Seq<(Seq<char>, Seq<char>)>,
    pub paths: Seq<(Seq<char>, Seq<char>)>,
}

impl LinkDetectionConfig {
    /// What is found in a text, of what is looked for.
    pub open spec fn findings(&self, line: Seq<char>) -> Findings {
        Findings {
            urls: if self.detect_urls {
                found_in(url_pattern(), line)
            } else {
                Seq::empty()
            },
            ips: if self.detect_ip_addresses {
                found_in(ip_pattern(), line)
            } else {
                Seq::empty()
            },
            paths: if self.detect_file_paths {
                found_in(path_pattern(), line)
            } else {
                Seq::empty()
            },
        }
    }

    /// The links of a line.
    pub open spec fn links_in(&self, line: Seq<char>, index: int) -> Seq<LinkModel> {
        links_of(self.findings(line), index)
    }
}

/// The links that findings make: addresses first, then numeric addresses, then paths.
pub open spec fn links_of(found: Findings, line: int) -> Seq<LinkModel> {
    with_paths(with_ips(url_links(found.urls, line), found.ips, line), found.paths, line)
}

/// Finds links.
pub struct LinkDetector {
    pub config: LinkDetectionConfig,
}

/// The matches of a pattern.
fn find_pattern(pattern: &str, line: &str) -> (found: Vec<(String, String)>)
    ensures
        match_texts(found@) == found_in(pattern@, line@),
        forall|i: int|
            0 <= i < found@.len() ==> (#[trigger] found@[i].0@ + found@[i].1@).is_prefix_of(line@),
{
    match find_matches(pattern, false, false, line) {
        Ok(found) => found,
        Err(_) => {
            let none: Vec<(String, String)> = Vec::new();
            proof {
                assert(match_texts(none@) =~= Seq::empty());
            }
            none
        },
    }
}

proof fn lemma_lie_in(found: Seq<(String, String)>, line: Seq<char>)
    requires
        forall|i: int|
            0 <= i < found.len() ==> (#[trigger] found[i].0@ + found[i].1@).is_prefix_of(line),
    ensures
        lie_in(match_texts(found), line),
{
    let all = match_texts(found);
    assert forall|i: int| 0 <= i < all.len() implies (#[trigger] (all[i].0
        + all[i].1)).is_prefix_of(line) by {
        assert((found[i].0@ + found[i].1@).is_prefix_of(line));
    }
}

fn balance<'a>(url: &'a [char]) -> (rest: &'a [char])
    ensures
        rest@ == balanced(url@),
        rest@.len() <= url@.len(),
{
    let mut rest: &'a [char] = url;
    while rest.len() > 0 && rest[rest.len() - 1] == ')' && count_char(rest, ')') > count_char(
        rest,
        '(',
    )
        invariant
            rest@.len() <= url@.len(),
            balanced(rest@) == balanced(url@),
        decreases rest@.len(),
    {
        let end: usize = rest.len() - 1;
        let shorter = vstd::slice::slice_subrange(rest, 0, end);
        proof {
            assert(shorter@ =~= rest@.drop_last());
        }
        rest = shorter;
    }
    rest
}

fn drop_punctuation<'a>(s: &'a [char]) -> (rest: &'a [char])
    ensures
        rest@ == without_punctuation(s@),
        rest@.len() <= s@.len(),
{
    let mut end: usize = s.len();
    proof {
        assert(s@.subrange(0, end as int) =~= s@);
    }
    while end > 0 && (s[end - 1] == ',' || s[end - 1] == ';' || s[end - 1] == '!' || s[end - 1]
        == '?')
        invariant
            end <= s@.len(),
            without_punctuation(s@.subrange(0, end as int)) == without_punctuation(s@),
        decreases end,
    {
        proof {
            assert(s@.subrange(0, end as int).drop_last() =~= s@.subrange(0, end - 1));
        }
        end = end - 1;
    }
    vstd::slice::slice_subrange(s, 0, end)
}

fn is_covered(links: &Vec<Link>, from: usize, to: usize) -> (v: bool)
    ensures
        v == covered(links_view(links@), from as int, to as int),
{
    let mut i: usize = 0;
    while i < links.len()
        invariant
            i <= links@.len(),
            forall|k: int|
                0 <= k < i ==> !((#[trigger] links_view(links@)[k]).col_start <= from && to
                    <= links_view(links@)[k].col_end),
        decreases links@.len() - i,
    {
        if links[i].col_start <= from && to <= links[i].col_end {
            proof {
                assert(links_view(links@)[i as int].col_start <= from);
            }
            return true;
        }
        i = i + 1;
    }
    false
}

fn is_slashes_and_dots(s: &[char]) -> (v: bool)
    ensures
        v == (forall|i: int| 0 <= i < s@.len() ==> (#[trigger] s@[i] == '/' || s@[i] == '.')),
{
    let mut i: usize = 0;
    while i < s.len()
        invariant
            i <= s@.len(),
            forall|k: int| 0 <= k < i ==> (#[trigger] s@[k] == '/' || s@[k] == '.'),
        decreases s@.len() - i,
    {
        if s[i] != '/' && s[i] != '.' {
            return false;
        }
        i = i + 1;
    }
    true
}

/// Adds a link.
fn add_link(links: &mut Vec<Link>, link: Link)
    ensures
        links_view(final(links)@) == links_view(old(links)@).push(link@),
{
    links.push(link);
    proof {
        assert(links_view(links@) =~= links_view(old(links)@).push(link@));
    }
}

impl LinkDetector {
    pub fn new(config: LinkDetectionConfig) -> (detector: Self)
        ensures
            detector.config == config,
    {
        LinkDetector { config }
    }

    /// Whether a text is taken for a path.
    fn is_valid_file_path(text: &[char]) -> (v: bool)
        ensures
            v == valid_path(text@),
    {
        let s = trim(text);
        if s.len() == 0 || is_text(s, "/") || is_text(s, "//") || is_text(s, "./") || is_text(
            s,
            "../",
        ) || is_text(s, "~/") {
            return false;
        }
        if starts_with(s, "//") || holds_text(s, "://") || is_slashes_and_dots(s) {
            return false;
        }
        find_char(s, '/', 0) < s.len()
    }

    fn add_urls(links: &mut Vec<Link>, found: &Vec<(String, String)>, line: &str, index: usize)
        requires
            old(links)@.len() == 0,
            forall|i: int|
                0 <= i < found@.len() ==> (#[trigger] found@[i].0@ + found@[i].1@).is_prefix_of(
                    line@,
                ),
            line@.len() <= usize::MAX,
        ensures
            links_view(final(links)@) == url_links(match_texts(found@), index as int),
    {
        let mut i: usize = 0;
        proof {
            assert(links_view(links@) =~= url_links(match_texts(found@).subrange(0, 0), index as int));
        }
        while i < found.len()
            invariant
                i <= found@.len(),
                line@.len() <= usize::MAX,
                forall|k: int|
                    0 <= k < found@.len() ==> (#[trigger] found@[k].0@
                        + found@[k].1@).is_prefix_of(line@),
                links_view(links@) == url_links(
                    match_texts(found@).subrange(0, i as int),
                    index as int,
                ),
            decreases found@.len() - i,
        {
            let before = chars_of(found[i].0.as_str());
            let text = chars_of(found[i].1.as_str());
            let url = balance(text.as_slice());
            proof {
                assert((found@[i as int].0@ + found@[i as int].1@).len() <= line@.len());
            }
            let link = Link {
                line: index,
                col_start: before.len(),
                col_end: before.len() + url.len(),
                link_type: LinkType::Url,
                text: string_of(url),
            };
            proof {
                let texts = match_texts(found@);
                assert(texts[i as int] == (before@, text@));
                assert(url_links(texts.subrange(0, i as int), index as int).push(link@)
                    =~= url_links(texts.subrange(0, i + 1), index as int));
            }
            add_link(links, link);
            i = i + 1;
        }
        proof {
            assert(match_texts(found@).subrange(0, i as int) =~= match_texts(found@));
        }
    }

    fn add_ips(links: &mut Vec<Link>, found: &Vec<(String, String)>, line: &str, index: usize)
        requires
            forall|i: int|
                0 <= i < found@.len() ==> (#[trigger] found@[i].0@ + found@[i].1@).is_prefix_of(
                    line@,
                ),
            line@.len() <= usize::MAX,
        ensures
            links_view(final(links)@) == with_ips(
                links_view(old(links)@),
                match_texts(found@),
                index as int,
            ),
    {
        let mut i: usize = 0;
        let ghost texts = match_texts(found@);
        while i < found.len()
            invariant
                i <= found@.len(),
                line@.len() <= usize::MAX,
                texts == match_texts(found@),
                forall|k: int|
                    0 <= k < found@.len() ==> (#[trigger] found@[k].0@
                        + found@[k].1@).is_prefix_of(line@),
                links_view(links@) == with_ips(
                    links_view(old(links)@),
                    texts.subrange(0, i as int),
                    index as int,
                ),
            decreases found@.len() - i,
        {
            let before = chars_of(found[i].0.as_str());
            let text = chars_of(found[i].1.as_str());
            proof {
                assert((found@[i as int].0@ + found@[i as int].1@).len() <= line@.len());
                assert(texts.subrange(0, i + 1).drop_last() =~= texts.subrange(0, i as int));
                assert(texts.subrange(0, i + 1).last() == (before@, text@));
            }
            let col_start: usize = before.len();
            let col_end: usize = before.len() + text.len();
            if !is_covered(links, col_start, col_end) {
                add_link(
                    links,
                    Link {
                        line: index,
                        col_start,
                        col_end,
                        link_type: LinkType::IpAddress,
                        text: string_of(text.as_slice()),
                    },
                );
            }
            i = i + 1;
        }
        proof {
            assert(texts.subrange(0, i as int) =~= texts);
        }
    }

    fn add_paths(links: &mut Vec<Link>, found: &Vec<(String, String)>, line: &str, index: usize)
        requires
            forall|i: int|
                0 <= i < found@.len() ==> (#[trigger] found@[i].0@ + found@[i].1@).is_prefix_of(
                    line@,
                ),
            line@.len() <= usize::MAX,
        ensures
            links_view(final(links)@) == with_paths(
                links_view(old(links)@),
                match_texts(found@),
                index as int,
            ),
    {
        let mut i: usize = 0;
        let ghost texts = match_texts(found@);
        while i < found.len()
            invariant
                i <= found@.len(),
                line@.len() <= usize::MAX,
                texts == match_texts(found@),
                forall|k: int|
                    0 <= k < found@.len() ==> (#[trigger] found@[k].0@
                        + found@[k].1@).is_prefix_of(line@),
                links_view(links@) == with_paths(
                    links_view(old(links)@),
                    texts.subrange(0, i as int),
                    index as int,
                ),
            decreases found@.len() - i,
        {
            let before = chars_of(found[i].0.as_str());
            let text = chars_of(found[i].1.as_str());
            proof {
                assert((found@[i as int].0@ + found@[i as int].1@).len() <= line@.len());
                assert(texts.subrange(0, i + 1).drop_last() =~= texts.subrange(0, i as int));
                assert(texts.subrange(0, i + 1).last() == (before@, text@));
            }
            let raw = text.as_slice();
            let started = trim_start(raw);
            let path = drop_punctuation(trim_end(started));
            let lead: usize = raw.len() - started.len();
            let col_start: usize = before.len() + lead;
            let col_end: usize = col_start + path.len();
            if path.len() > 0 && !is_covered(links, col_start, col_end)
                && Self::is_valid_file_path(path) {
                add_link(
                    links,
                    Link {
                        line: index,
                        col_start,
                        col_end,
                        link_type: LinkType::FilePath,
                        text: string_of(path),
                    },
                );
            }
            i = i + 1;
        }
        proof {
            assert(texts.subrange(0, i as int) =~= texts);
        }
    }

    /// The links that findings make.
    pub fn links_from(
        urls: &Vec<(String, String)>,
        ips: &Vec<(String, String)>,
        paths: &Vec<(String, String)>,
        line: &str,
        line_idx: usize,
    ) -> (links: Vec<Link>)
        requires
            forall|i: int|
                0 <= i < urls@.len() ==> (#[trigger] urls@[i].0@ + urls@[i].1@).is_prefix_of(line@),
            forall|i: int|
                0 <= i < ips@.len() ==> (#[trigger] ips@[i].0@ + ips@[i].1@).is_prefix_of(line@),
            forall|i: int|
                0 <= i < paths@.len() ==> (#[trigger] paths@[i].0@ + paths@[i].1@).is_prefix_of(
                    line@,
                ),
        ensures
            links_view(links@) == links_of(
                (Findings {
                    urls: match_texts(urls@),
                    ips: match_texts(ips@),
                    paths: match_texts(paths@),
                }),
                line_idx as int,
            ),
    {
        let chars = chars_of(line);
        let len: usize = chars.len();
        let mut links: Vec<Link> = Vec::new();
        Self::add_urls(&mut links, urls, line, line_idx);
        Self::add_ips(&mut links, ips, line, line_idx);
        Self::add_paths(&mut links, paths, line, line_idx);
        links
    }

    /// The links of a line.
    pub fn detect_links_in_line(&self, line: &str, line_idx: usize) -> (links: Vec<Link>)
        ensures
            links_view(links@) == self.config.links_in(line@, line_idx as int),
            all_show(links_view(links@), line@, line_idx as int),
            none_within(
                links_view(links@),
                self.config.findings(line@).urls.len() as int,
            ),
    {
        let mut urls: Vec<(String, String)> = Vec::new();
        let mut ips: Vec<(String, String)> = Vec::new();
        let mut paths: Vec<(String, String)> = Vec::new();
        proof {
            assert(match_texts(urls@) =~= Seq::empty());
            assert(match_texts(ips@) =~= Seq::empty());
            assert(match_texts(paths@) =~= Seq::empty());
        }
        if self.config.detect_urls {
            urls = find_pattern(
                "(?:https?|ftp)://[^\\s<>\\[\\]{}|\\\\^`]*[^\\s<>\\[\\]{}|\\\\^`.,;:!?\\-]",
                line,
            );
        }
        if self.config.detect_ip_addresses {
            ips = find_pattern(
                "\\b(?:(?:25[0-5]|2[0-4][0-9]|[01]?[0-9][0-9]?)\\.){3}(?:25[0-5]|2[0-4][0-9]|[01]?[0-9][0-9]?)\\b",
                line,
            );
        }
        if self.config.detect_file_paths {
            paths = find_pattern(
                "(?:^|\\s)(?:(?:/|\\./|\\.\\./|~/)[^\\s<>\\[\\]{}|\\\\^`()]*|[^/:\\s<>\\[\\]{}|\\\\^`()]+(?:/[^/\\s<>\\[\\]{}|\\\\^`()]+)+)",
                line,
            );
        }
        proof {
            let found = self.config.findings(line@);
            lemma_lie_in(urls@, line@);
            lemma_lie_in(ips@, line@);
            lemma_lie_in(paths@, line@);
            links_show_what_they_cover(found, line@, line_idx as int);
            addresses_are_not_taken_apart(found, line_idx as int);
        }
        Self::links_from(&urls, &ips, &paths, line, line_idx)
    }
}

} // verus!
