//! Which texts become links, and what opening them opens.

use super::open::{
    all_digits, candidates, last_colon, opened_by, path_below, resolved, without_location, Opened,
};
use super::{
    balanced, covered, ends_sentence, links_of, url_link, url_links, valid_path, with_ips, with_paths,
    without_punctuation, Findings, LinkModel, LinkType,
};
use crate::text::laws::is_free_of;
use crate::text::{
    find, find_is_first, find_part, find_part_is_first, occurrences, occurs_at, trimmed,
    trimmed_start,
};
use vstd::prelude::*;

verus! {

/// How often a character stands in a text.
pub open spec fn number_of(s: Seq<char>, c: char) -> nat {
    s.filter(|x: char| x == c).len()
}

proof fn lemma_number_of(s: Seq<char>, c: char)
    ensures
        occurrences(s, c) == number_of(s, c),
    decreases s.len(),
{
    reveal(Seq::filter);
    if s.len() > 0 {
        lemma_number_of(s.drop_last(), c);
    }
}

/// Closing parentheses and nothing else.
pub open spec fn is_closing(s: Seq<char>) -> bool {
    forall|i: int| 0 <= i < s.len() ==> #[trigger] s[i] == ')'
}

proof fn lemma_cut(url: Seq<char>)
    ensures
        ({
            let kept = balanced(url);
            let cut = url.subrange(kept.len() as int, url.len() as int);
            &&& kept.len() <= url.len()
            &&& url == kept + cut
            &&& is_closing(cut)
            &&& number_of(url, ')') <= number_of(url, '(') ==> cut.len() == 0
            &&& number_of(url, ')') >= number_of(url, '(') ==> cut.len() <= number_of(url, ')')
                - number_of(url, '(')
            &&& kept.len() > 0 && kept.last() == ')' ==> number_of(kept, ')') <= number_of(kept, '(')
        }),
    decreases url.len(),
{
    reveal(Seq::filter);
    let kept = balanced(url);
    lemma_number_of(url, ')');
    lemma_number_of(url, '(');
    if url.len() > 0 && url.last() == ')' && occurrences(url, ')') > occurrences(url, '(') {
        let rest = url.drop_last();
        lemma_cut(rest);
        assert(url.last() == ')');
        assert(number_of(url, ')') == number_of(rest, ')') + 1);
        assert(number_of(url, '(') == number_of(rest, '('));
        let cut = url.subrange(kept.len() as int, url.len() as int);
        let before = rest.subrange(kept.len() as int, rest.len() as int);
        assert(cut =~= before.push(')'));
        assert(kept + cut =~= (kept + before).push(')'));
        assert(url =~= rest.push(')'));
    } else {
        let cut = url.subrange(kept.len() as int, url.len() as int);
        assert(url =~= kept + cut);
    }
}

proof fn lemma_ips_keep(
    links: Seq<LinkModel>,
    found: Seq<(Seq<char>, Seq<char>)>,
    line: int,
    k: int,
)
    requires
        0 <= k < links.len(),
    ensures
        with_ips(links, found, line).len() >= links.len(),
        with_ips(links, found, line)[k] == links[k],
    decreases found.len(),
{
    if found.len() > 0 {
        lemma_ips_keep(links, found.drop_last(), line, k);
    }
}

proof fn lemma_paths_keep(
    links: Seq<LinkModel>,
    found: Seq<(Seq<char>, Seq<char>)>,
    line: int,
    k: int,
)
    requires
        0 <= k < links.len(),
    ensures
        with_paths(links, found, line).len() >= links.len(),
        with_paths(links, found, line)[k] == links[k],
    decreases found.len(),
{
    if found.len() > 0 {
        lemma_paths_keep(links, found.drop_last(), line, k);
    }
}

/// An address that is found is a link that starts where it does. One with no more closing
/// than opening parentheses is kept whole. Of another, only closing parentheses at its end
/// are cut off, no more than there are in excess, and as many as end it.
pub proof fn an_address_is_kept_but_for_unopened_parentheses(found: Findings, line: int, k: int)
    requires
        0 <= k < found.urls.len(),
    ensures
        k < links_of(found, line).len(),
        ({
            let link = links_of(found, line)[k];
            let (before, url) = found.urls[k];
            let cut = url.subrange(link.text.len() as int, url.len() as int);
            let excess = number_of(url, ')') - number_of(url, '(');
            &&& link.link_type == LinkType::Url
            &&& link.line == line
            &&& link.col_start == before.len()
            &&& link.col_end == before.len() + link.text.len()
            &&& url == link.text + cut
            &&& excess <= 0 ==> link.text == url
            &&& is_closing(cut)
            &&& excess > 0 ==> cut.len() <= excess
            &&& link.text.len() > 0 && link.text.last() == ')' ==> number_of(link.text, ')')
                <= number_of(link.text, '(')
        }),
{
    let urls = url_links(found.urls, line);
    let ips = with_ips(urls, found.ips, line);
    assert(urls[k] == url_link(found.urls[k], line));
    lemma_ips_keep(urls, found.ips, line, k);
    lemma_paths_keep(ips, found.paths, line, k);
    let url = found.urls[k].1;
    lemma_cut(url);
    if number_of(url, ')') <= number_of(url, '(') {
        assert(url.subrange(0, url.len() as int) =~= url);
        assert(balanced(url) =~= url);
    }
}

proof fn lemma_covered_stays(links: Seq<LinkModel>, more: Seq<LinkModel>, from: int, to: int)
    requires
        covered(links, from, to),
        links.len() <= more.len(),
        forall|k: int| 0 <= k < links.len() ==> more[k] == #[trigger] links[k],
    ensures
        covered(more, from, to),
{
    let i = choose|i: int|
        0 <= i < links.len() && (#[trigger] links[i]).col_start <= from && to <= links[i].col_end;
    assert(more[i].col_start <= from && to <= more[i].col_end);
}

proof fn lemma_ips_cover(
    links: Seq<LinkModel>,
    found: Seq<(Seq<char>, Seq<char>)>,
    line: int,
    k: int,
)
    requires
        0 <= k < found.len(),
    ensures
        covered(
            with_ips(links, found, line),
            found[k].0.len() as int,
            (found[k].0.len() + found[k].1.len()) as int,
        ),
    decreases found.len(),
{
    let from = found[k].0.len() as int;
    let to = (found[k].0.len() + found[k].1.len()) as int;
    let before = with_ips(links, found.drop_last(), line);
    let all = with_ips(links, found, line);
    if k < found.len() - 1 {
        lemma_ips_cover(links, found.drop_last(), line, k);
        assert(found.drop_last()[k] == found[k]);
        lemma_covered_stays(before, all, from, to);
    } else if !covered(before, from, to) {
        assert(all[all.len() - 1].col_start <= from);
        assert(covered(all, from, to));
    }
}

proof fn lemma_paths_cover(
    links: Seq<LinkModel>,
    found: Seq<(Seq<char>, Seq<char>)>,
    line: int,
    k: int,
)
    requires
        0 <= k < found.len(),
    ensures
        ({
            let raw = found[k].1;
            let path = without_punctuation(trimmed(raw));
            let start = found[k].0.len() + (raw.len() - trimmed_start(raw).len());
            path.len() > 0 && valid_path(path) ==> covered(
                with_paths(links, found, line),
                start,
                start + path.len(),
            )
        }),
    decreases found.len(),
{
    let raw = found[k].1;
    let path = without_punctuation(trimmed(raw));
    let start = found[k].0.len() + (raw.len() - trimmed_start(raw).len());
    let end = start + path.len();
    let before = with_paths(links, found.drop_last(), line);
    let all = with_paths(links, found, line);
    if path.len() > 0 && valid_path(path) {
        if k < found.len() - 1 {
            lemma_paths_cover(links, found.drop_last(), line, k);
            assert(found.drop_last()[k] == found[k]);
            lemma_covered_stays(before, all, start, end);
        } else if !covered(before, start, end) {
            assert(all[all.len() - 1].col_start <= start);
            assert(covered(all, start, end));
        }
    }
}

/// Every numeric address that is found is a link or a part of one, and so is every path that
/// is taken for one.
pub proof fn what_is_found_is_a_link(found: Findings, line: int, k: int)
    ensures
        0 <= k < found.ips.len() ==> covered(
            links_of(found, line),
            found.ips[k].0.len() as int,
            (found.ips[k].0.len() + found.ips[k].1.len()) as int,
        ),
        0 <= k < found.paths.len() ==> ({
            let raw = found.paths[k].1;
            let path = without_punctuation(trimmed(raw));
            let start = found.paths[k].0.len() + (raw.len() - trimmed_start(raw).len());
            path.len() > 0 && valid_path(path) ==> covered(
                links_of(found, line),
                start,
                start + path.len(),
            )
        }),
{
    let urls = url_links(found.urls, line);
    let ips = with_ips(urls, found.ips, line);
    let all = links_of(found, line);
    if 0 <= k < found.ips.len() {
        lemma_ips_cover(urls, found.ips, line, k);
        assert forall|j: int| 0 <= j < ips.len() implies all[j] == #[trigger] ips[j] by {
            lemma_paths_keep(ips, found.paths, line, j);
        }
        if ips.len() > 0 {
            lemma_paths_keep(ips, found.paths, line, 0);
        }
        lemma_covered_stays(
            ips,
            all,
            found.ips[k].0.len() as int,
            (found.ips[k].0.len() + found.ips[k].1.len()) as int,
        );
    }
    if 0 <= k < found.paths.len() {
        lemma_paths_cover(ips, found.paths, line, k);
    }
}

proof fn lemma_ips_from(links: Seq<LinkModel>, found: Seq<(Seq<char>, Seq<char>)>, line: int, j: int)
    requires
        links.len() <= j < with_ips(links, found, line).len(),
    ensures
        ({
            let link = with_ips(links, found, line)[j];
            &&& link.link_type == LinkType::IpAddress
            &&& exists|k: int|
                0 <= k < found.len() && (#[trigger] found[k]).1 == link.text && found[k].0.len()
                    == link.col_start
        }),
    decreases found.len(),
{
    if found.len() > 0 {
        let before = with_ips(links, found.drop_last(), line);
        if j < before.len() {
            lemma_ips_from(links, found.drop_last(), line, j);
            let k = choose|k: int|
                0 <= k < found.drop_last().len() && (#[trigger] found.drop_last()[k]).1
                    == before[j].text && found.drop_last()[k].0.len() == before[j].col_start;
            assert(found[k] == found.drop_last()[k]);
        } else {
            assert(found[found.len() - 1].1 == with_ips(links, found, line)[j].text);
        }
    }
}

proof fn lemma_paths_from(
    links: Seq<LinkModel>,
    found: Seq<(Seq<char>, Seq<char>)>,
    line: int,
    j: int,
)
    requires
        links.len() <= j < with_paths(links, found, line).len(),
    ensures
        ({
            let link = with_paths(links, found, line)[j];
            &&& link.link_type == LinkType::FilePath
            &&& valid_path(link.text)
            &&& link.text.len() > 0
            &&& link.text.last() != ',' && link.text.last() != ';' && link.text.last() != '!'
                && link.text.last() != '?'
        }),
    decreases found.len(),
{
    if found.len() > 0 {
        let before = with_paths(links, found.drop_last(), line);
        if j < before.len() {
            lemma_paths_from(links, found.drop_last(), line, j);
        } else {
            lemma_punctuation(trimmed(found.last().1));
        }
    }
}

proof fn lemma_punctuation(s: Seq<char>)
    ensures
        ({
            let kept = without_punctuation(s);
            let cut = s.subrange(kept.len() as int, s.len() as int);
            &&& kept.len() <= s.len()
            &&& s == kept + cut
            &&& forall|i: int|
                0 <= i < cut.len() ==> (#[trigger] cut[i] == ',' || cut[i] == ';' || cut[i] == '!'
                    || cut[i] == '?')
            &&& kept.len() > 0 ==> kept.last() != ',' && kept.last() != ';' && kept.last() != '!'
                && kept.last() != '?'
        }),
    decreases s.len(),
{
    let kept = without_punctuation(s);
    let cut = s.subrange(kept.len() as int, s.len() as int);
    if s.len() > 0 && ends_sentence(s.last()) {
        let rest = s.drop_last();
        lemma_punctuation(rest);
        let before = rest.subrange(kept.len() as int, rest.len() as int);
        assert(cut =~= before.push(s.last()));
        assert(kept + cut =~= (kept + before).push(s.last()));
        assert(s =~= rest.push(s.last()));
    } else {
        assert(s =~= kept + cut);
    }
}

/// Behind the addresses come numeric addresses that were found, each with its text and at
/// its place, and then paths: none of those ends in punctuation of a sentence.
pub proof fn links_are_what_was_found(found: Findings, line: int, j: int)
    requires
        found.urls.len() <= j < links_of(found, line).len(),
    ensures
        ({
            let link = links_of(found, line)[j];
            ||| link.link_type == LinkType::IpAddress && exists|k: int|
                0 <= k < found.ips.len() && (#[trigger] found.ips[k]).1 == link.text
                    && found.ips[k].0.len() == link.col_start
            ||| link.link_type == LinkType::FilePath && link.text.len() > 0 && link.text.last()
                != ',' && link.text.last() != ';' && link.text.last() != '!' && link.text.last()
                != '?' && valid_path(link.text)
        }),
{
    let urls = url_links(found.urls, line);
    let ips = with_ips(urls, found.ips, line);
    if j < ips.len() {
        lemma_paths_keep(ips, found.paths, line, j);
        lemma_ips_from(urls, found.ips, line, j);
    } else {
        lemma_paths_from(ips, found.paths, line, j);
    }
}

/// Punctuation behind a path is cut off, all of it and nothing else.
pub proof fn only_punctuation_is_cut_off(s: Seq<char>)
    ensures
        ({
            let kept = without_punctuation(s);
            let cut = s.subrange(kept.len() as int, s.len() as int);
            &&& kept.len() <= s.len()
            &&& s == kept + cut
            &&& forall|i: int|
                0 <= i < cut.len() ==> (#[trigger] cut[i] == ',' || cut[i] == ';' || cut[i] == '!'
                    || cut[i] == '?')
            &&& kept.len() > 0 ==> kept.last() != ',' && kept.last() != ';' && kept.last() != '!'
                && kept.last() != '?'
        }),
{
    lemma_punctuation(s);
}

proof fn lemma_last_colon(s: Seq<char>, head: Seq<char>, tail: Seq<char>, before: int)
    requires
        s == head.push(':') + tail,
        is_free_of(tail, ':'),
        head.len() + 1 <= before <= s.len(),
    ensures
        last_colon(s, before) == Some(head.len() as int),
    decreases before,
{
    if before > head.len() + 1 {
        assert(s[before - 1] == tail[before - 2 - head.len()]);
        lemma_last_colon(s, head, tail, before - 1);
    } else {
        assert(s[head.len() as int] == ':');
    }
}

proof fn lemma_no_colon(s: Seq<char>, before: int)
    requires
        is_free_of(s, ':'),
        before <= s.len(),
    ensures
        last_colon(s, before) is None,
    decreases before,
{
    if before > 0 {
        lemma_no_colon(s, before - 1);
    }
}

proof fn lemma_digits_free(s: Seq<char>)
    requires
        all_digits(s),
    ensures
        is_free_of(s, ':'),
{
    assert forall|i: int| 0 <= i < s.len() implies #[trigger] s[i] != ':' by {
        assert('0' <= s[i] <= '9');
    }
}

/// The line, or the line and the column, that a compiler puts behind a path are taken off
/// it; a path without a colon has none.
pub proof fn a_location_is_taken_off(path: Seq<char>, line: Seq<char>, column: Seq<char>)
    requires
        is_free_of(path, ':'),
        all_digits(line),
        all_digits(column),
    ensures
        without_location(path.push(':') + line) == Some(path),
        without_location((path.push(':') + line).push(':') + column) == Some(path),
        without_location(path) is None,
{
    lemma_digits_free(line);
    lemma_digits_free(column);
    let one = path.push(':') + line;
    let two = one.push(':') + column;
    lemma_no_colon(path, path.len() as int);
    lemma_last_colon(one, path, line, one.len() as int);
    assert(one.subrange(path.len() as int + 1, one.len() as int) =~= line);
    assert(one.subrange(0, path.len() as int) =~= path);
    lemma_last_colon(two, one, column, two.len() as int);
    assert(two.subrange(one.len() as int + 1, two.len() as int) =~= column);
    assert(two.subrange(0, one.len() as int) =~= one);
}

/// A path that starts at the root is opened as it is; one that starts with `~/` below the
/// home directory; any other below the working directory. Each comes before the path
/// without its location.
#[verifier::spinoff_prover]
pub proof fn paths_are_opened_where_they_lead(
    path: Seq<char>,
    home: Seq<char>,
    cwd: Seq<char>,
)
    requires
        path.len() > 0,
        home.len() > 0,
        home[0] == '/',
        home.last() != '/',
        cwd.len() > 0,
        cwd.last() != '/',
    ensures
        ({
            let all = candidates(path, Some(home), Some(cwd));
            &&& 1 <= all.len() <= 2
            &&& path[0] == '/' ==> all[0] == path
            &&& path[0] == '~' && path.len() > 2 && path[1] == '/' && path[2] != '/' ==> all[0]
                == home + path.subrange(1, path.len() as int)
            &&& path[0] != '/' && path[0] != '~' ==> all[0] == cwd.push('/') + path
            &&& all.len() == 2 ==> without_location(path) is Some && all[1] == resolved(
                without_location(path)->0,
                Some(home),
                Some(cwd),
            )
            &&& all.len() == 1 ==> without_location(path) is None
        }),
        candidates(path, Some(home), None)[0] == (if path[0] != '/' && path[0] != '~' {
            path
        } else {
            resolved(path, Some(home), None)
        }),
{
    if path[0] == '/' {
        lemma_from_root(path, Some(home), Some(cwd));
    } else if path[0] == '~' {
        if path.len() > 2 && path[1] == '/' && path[2] != '/' {
            lemma_from_home(path, home, cwd);
        }
    } else {
        lemma_relative(path, Some(home), Some(cwd));
        lemma_relative(path, Some(home), None);
        assert(path_below(cwd, path) =~= cwd.push('/') + path) by {
            reveal_strlit("/");
        }
    }
}

proof fn lemma_from_root(path: Seq<char>, home: Option<Seq<char>>, cwd: Option<Seq<char>>)
    requires
        path.len() > 0,
        path[0] == '/',
    ensures
        resolved(path, home, cwd) == path,
{
    reveal_strlit("~/");
    reveal_strlit("/");
    assert("/"@ =~= path.subrange(0, 1));
    if "~/"@.is_prefix_of(path) {
        assert(path.subrange(0, 2)[0] == path[0]);
    }
}

proof fn lemma_from_home(path: Seq<char>, home: Seq<char>, cwd: Seq<char>)
    requires
        path.len() > 2,
        path[0] == '~' && path[1] == '/' && path[2] != '/',
        home.len() > 0,
        home[0] == '/',
        home.last() != '/',
    ensures
        resolved(path, Some(home), Some(cwd)) == home + path.subrange(1, path.len() as int),
{
    reveal_strlit("~/");
    reveal_strlit("/");
    assert("~/"@ =~= path.subrange(0, 2));
    let rest = path.subrange(2, path.len() as int);
    assert(!"/"@.is_prefix_of(rest)) by {
        if "/"@.is_prefix_of(rest) {
            assert(rest.subrange(0, 1)[0] == path[2]);
        }
    }
    let expanded = path_below(home, rest);
    assert(expanded =~= home + path.subrange(1, path.len() as int));
    assert("/"@ =~= expanded.subrange(0, 1));
}

proof fn lemma_relative(path: Seq<char>, home: Option<Seq<char>>, cwd: Option<Seq<char>>)
    requires
        path.len() > 0,
        path[0] != '/' && path[0] != '~',
    ensures
        resolved(path, home, cwd) == (match cwd {
            Some(cwd) => path_below(cwd, path),
            None => path,
        }),
{
    reveal_strlit("~/");
    reveal_strlit("/");
    if "~/"@.is_prefix_of(path) {
        assert(path.subrange(0, 2)[0] == path[0]);
    }
    if "/"@.is_prefix_of(path) {
        assert(path.subrange(0, 1)[0] == path[0]);
    }
}

/// What is taken for a path: a text with a slash, which does not start with two and is no
/// address, and holds more than slashes and dots.
#[verifier::spinoff_prover]
#[verifier::rlimit(40)]
pub proof fn what_is_taken_for_a_path(text: Seq<char>)
    requires
        trimmed(text) == text,
        text.len() > 2,
    ensures
        valid_path(text) <==> {
            &&& exists|i: int| 0 <= i < text.len() && #[trigger] text[i] == '/'
            &&& !(text[0] == '/' && text[1] == '/')
            &&& !exists|i: int|
                0 <= i && i + 2 < text.len() && #[trigger] text[i] == ':' && text[i + 1] == '/'
                    && text[i + 2] == '/'
            &&& exists|i: int| 0 <= i < text.len() && #[trigger] text[i] != '/' && text[i] != '.'
        },
{
    reveal_strlit("/");
    reveal_strlit("//");
    reveal_strlit("./");
    reveal_strlit("../");
    reveal_strlit("~/");
    reveal_strlit("://");
    find_is_first(text, '/', 0);
    find_part_is_first(text, "://"@, 0);
    let has_slash = exists|i: int| 0 <= i < text.len() && #[trigger] text[i] == '/';
    let address = exists|i: int|
        0 <= i && i + 2 < text.len() && #[trigger] text[i] == ':' && text[i + 1] == '/' && text[i
            + 2] == '/';
    assert(has_slash <==> find(text, '/', 0) < text.len()) by {
        if has_slash {
            let i = choose|i: int| 0 <= i < text.len() && #[trigger] text[i] == '/';
            if find(text, '/', 0) >= text.len() {
                assert(text[i] != '/');
            }
        }
    }
    assert(address <==> find_part(text, "://"@, 0) is Some) by {
        if address {
            let i = choose|i: int|
                0 <= i && i + 2 < text.len() && #[trigger] text[i] == ':' && text[i + 1] == '/'
                    && text[i + 2] == '/';
            assert(text.subrange(i, i + 3) =~= "://"@);
            assert(occurs_at(text, "://"@, i));
        }
        if find_part(text, "://"@, 0) is Some {
            let i = find_part(text, "://"@, 0)->0;
            let part = text.subrange(i, i + 3);
            assert(part == "://"@);
            assert(part[0] == text[i] && part[1] == text[i + 1] && part[2] == text[i + 2]);
        }
    }
    assert("//"@.is_prefix_of(text) <==> text[0] == '/' && text[1] == '/') by {
        let head = text.subrange(0, 2);
        assert(head[0] == text[0] && head[1] == text[1]);
        if text[0] == '/' && text[1] == '/' {
            assert(head =~= "//"@);
        }
    }
    if text == "../"@ {
        assert(text[0] == '.' && text[1] == '.' && text[2] == '/');
        assert forall|i: int| 0 <= i < text.len() implies (#[trigger] text[i] == '/' || text[i]
            == '.') by {}
    }
}

/// Opening a link opens its address; a numeric address is that of a web server, and a path is
/// a file.
pub proof fn links_open_what_they_name(text: Seq<char>)
    ensures
        opened_by(LinkType::Url, text) == Opened::Address(text),
        opened_by(LinkType::IpAddress, text) == Opened::Address(
            seq!['h', 't', 't', 'p', ':', '/', '/'] + text,
        ),
        opened_by(LinkType::FilePath, text) == Opened::File(text),
{
    reveal_strlit("http://");
    assert("http://"@ =~= seq!['h', 't', 't', 'p', ':', '/', '/']);
}

} // verus!
