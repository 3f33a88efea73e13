//! What holds of every line: links show what they cover, and none lies in another.

use super::{
    balanced, covered, links_of, url_link, url_links, with_ips, with_paths, without_punctuation,
    Findings, LinkModel,
};
use crate::text::{trimmed, trimmed_end, trimmed_start};
use vstd::prelude::*;

verus! {

/// Matches that lie in a line.
pub open spec fn lie_in(found: Seq<(Seq<char>, Seq<char>)>, text: Seq<char>) -> bool {
    forall|i: int|
        0 <= i < found.len() ==> (#[trigger] found[i].0 + found[i].1).is_prefix_of(text)
}

/// A link that shows the columns that it covers.
pub open spec fn shows(link: LinkModel, text: Seq<char>, line: int) -> bool {
    &&& link.line == line
    &&& 0 <= link.col_start <= link.col_end <= text.len()
    &&& link.text == text.subrange(link.col_start, link.col_end)
}

pub open spec fn all_show(links: Seq<LinkModel>, text: Seq<char>, line: int) -> bool {
    forall|i: int| 0 <= i < links.len() ==> shows(#[trigger] links[i], text, line)
}

proof fn lemma_balanced(url: Seq<char>)
    ensures
        balanced(url).is_prefix_of(url),
    decreases url.len(),
{
    if url.len() > 0 {
        lemma_balanced(url.drop_last());
        let b = balanced(url.drop_last());
        if balanced(url) == b {
            assert(b =~= url.subrange(0, b.len() as int));
        }
    }
}

proof fn lemma_without_punctuation(s: Seq<char>)
    ensures
        without_punctuation(s).is_prefix_of(s),
    decreases s.len(),
{
    if s.len() > 0 {
        lemma_without_punctuation(s.drop_last());
        let w = without_punctuation(s.drop_last());
        if without_punctuation(s) == w {
            assert(w =~= s.subrange(0, w.len() as int));
        }
    }
}

proof fn lemma_trimmed_start(s: Seq<char>)
    ensures
        trimmed_start(s).len() <= s.len(),
        trimmed_start(s) == s.subrange(s.len() - trimmed_start(s).len(), s.len() as int),
    decreases s.len(),
{
    if s.len() > 0 && trimmed_start(s) != s {
        lemma_trimmed_start(s.drop_first());
        let t = trimmed_start(s.drop_first());
        assert(t =~= s.subrange(s.len() - t.len(), s.len() as int));
    } else {
        assert(s =~= s.subrange(0, s.len() as int));
    }
}

proof fn lemma_trimmed_end(s: Seq<char>)
    ensures
        trimmed_end(s).is_prefix_of(s),
    decreases s.len(),
{
    if s.len() > 0 {
        lemma_trimmed_end(s.drop_last());
        let t = trimmed_end(s.drop_last());
        if trimmed_end(s) == t {
            assert(t =~= s.subrange(0, t.len() as int));
        }
    }
}

proof fn lemma_part(text: Seq<char>, before: Seq<char>, part: Seq<char>, from: int, len: int)
    requires
        (before + part).is_prefix_of(text),
        0 <= from,
        0 <= len,
        from + len <= part.len(),
    ensures
        before.len() + from + len <= text.len(),
        part.subrange(from, from + len) == text.subrange(
            before.len() + from,
            before.len() + from + len,
        ),
{
    let whole = before + part;
    let want = text.subrange(before.len() + from, before.len() + from + len);
    let got = part.subrange(from, from + len);
    assert forall|i: int| 0 <= i < len implies #[trigger] got[i] == want[i] by {
        let k = before.len() + from + i;
        assert(whole[k] == part[from + i]);
        assert(text.subrange(0, whole.len() as int)[k] == text[k]);
    }
    assert(got =~= want);
}

proof fn lemma_urls_show(found: Seq<(Seq<char>, Seq<char>)>, text: Seq<char>, line: int)
    requires
        lie_in(found, text),
    ensures
        all_show(url_links(found, line), text, line),
{
    let links = url_links(found, line);
    assert forall|i: int| 0 <= i < links.len() implies shows(#[trigger] links[i], text, line) by {
        let (before, url) = found[i];
        assert((found[i].0 + found[i].1).is_prefix_of(text));
        lemma_balanced(url);
        let b = balanced(url);
        lemma_part(text, before, url, 0, b.len() as int);
        assert(url.subrange(0, b.len() as int) =~= b);
        assert(links[i] == url_link(found[i], line));
    }
}

proof fn lemma_ips_show(
    links: Seq<LinkModel>,
    found: Seq<(Seq<char>, Seq<char>)>,
    text: Seq<char>,
    line: int,
)
    requires
        lie_in(found, text),
        all_show(links, text, line),
    ensures
        all_show(with_ips(links, found, line), text, line),
    decreases found.len(),
{
    if found.len() > 0 {
        assert forall|i: int| 0 <= i < found.drop_last().len() implies (#[trigger] (
        found.drop_last()[i].0 + found.drop_last()[i].1)).is_prefix_of(text) by {
            assert((found[i].0 + found[i].1).is_prefix_of(text));
        }
        lemma_ips_show(links, found.drop_last(), text, line);
        let (before, ip) = found.last();
        let last = found.len() - 1;
        assert((found[last].0 + found[last].1).is_prefix_of(text));
        lemma_part(text, before, ip, 0, ip.len() as int);
        assert(ip.subrange(0, ip.len() as int) =~= ip);
    }
}

proof fn lemma_paths_show(
    links: Seq<LinkModel>,
    found: Seq<(Seq<char>, Seq<char>)>,
    text: Seq<char>,
    line: int,
)
    requires
        lie_in(found, text),
        all_show(links, text, line),
    ensures
        all_show(with_paths(links, found, line), text, line),
    decreases found.len(),
{
    if found.len() > 0 {
        assert forall|i: int| 0 <= i < found.drop_last().len() implies (#[trigger] (
        found.drop_last()[i].0 + found.drop_last()[i].1)).is_prefix_of(text) by {
            assert((found[i].0 + found[i].1).is_prefix_of(text));
        }
        lemma_paths_show(links, found.drop_last(), text, line);
        let (before, raw) = found.last();
        let last = found.len() - 1;
        assert((found[last].0 + found[last].1).is_prefix_of(text));
        let started = trimmed_start(raw);
        let path = without_punctuation(trimmed(raw));
        let skip = raw.len() - started.len();
        lemma_trimmed_start(raw);
        lemma_trimmed_end(started);
        lemma_without_punctuation(trimmed(raw));
        lemma_part(text, before, raw, skip, path.len() as int);
        assert(raw.subrange(skip, skip + path.len()) =~= path) by {
            let got = raw.subrange(skip, skip + path.len());
            assert forall|i: int| 0 <= i < path.len() implies #[trigger] got[i] == path[i] by {
                assert(started[i] == raw[skip + i]);
            }
        }
    }
}

/// A link of a line shows what stands in the columns that it covers.
pub proof fn links_show_what_they_cover(found: Findings, text: Seq<char>, line: int)
    requires
        lie_in(found.urls, text),
        lie_in(found.ips, text),
        lie_in(found.paths, text),
    ensures
        all_show(links_of(found, line), text, line),
{
    lemma_urls_show(found.urls, text, line);
    let urls = url_links(found.urls, line);
    lemma_ips_show(urls, found.ips, text, line);
    lemma_paths_show(with_ips(urls, found.ips, line), found.paths, text, line);
}

/// From place `n` on, no link is part of one before it.
pub open spec fn none_within(links: Seq<LinkModel>, n: int) -> bool {
    forall|i: int, j: int|
        0 <= i < j < links.len() && n <= j ==> !((#[trigger] links[i]).col_start <= (
        #[trigger] links[j]).col_start && links[j].col_end <= links[i].col_end)
}

proof fn lemma_pushed(links: Seq<LinkModel>, link: LinkModel, n: int)
    requires
        none_within(links, n),
        !covered(links, link.col_start, link.col_end),
    ensures
        none_within(links.push(link), n),
{
    let all = links.push(link);
    assert forall|i: int, j: int| 0 <= i < j < all.len() && n <= j implies !((
    #[trigger] all[i]).col_start <= (#[trigger] all[j]).col_start && all[j].col_end
        <= all[i].col_end) by {
        assert(all[i] == links[i]);
    }
}

proof fn lemma_ips_apart(
    links: Seq<LinkModel>,
    found: Seq<(Seq<char>, Seq<char>)>,
    line: int,
    n: int,
)
    requires
        none_within(links, n),
    ensures
        none_within(with_ips(links, found, line), n),
    decreases found.len(),
{
    if found.len() > 0 {
        lemma_ips_apart(links, found.drop_last(), line, n);
        let before = with_ips(links, found.drop_last(), line);
        let all = with_ips(links, found, line);
        if all != before {
            lemma_pushed(before, all.last(), n);
            assert(all =~= before.push(all.last()));
        }
    }
}

proof fn lemma_paths_apart(
    links: Seq<LinkModel>,
    found: Seq<(Seq<char>, Seq<char>)>,
    line: int,
    n: int,
)
    requires
        none_within(links, n),
    ensures
        none_within(with_paths(links, found, line), n),
    decreases found.len(),
{
    if found.len() > 0 {
        lemma_paths_apart(links, found.drop_last(), line, n);
        let before = with_paths(links, found.drop_last(), line);
        let all = with_paths(links, found, line);
        if all != before {
            lemma_pushed(before, all.last(), n);
            assert(all =~= before.push(all.last()));
        }
    }
}

/// A numeric address or a path is no part of a link before it: what is part of an address
/// is not taken for a link of its own.
pub proof fn addresses_are_not_taken_apart(found: Findings, line: int)
    ensures
        none_within(links_of(found, line), found.urls.len() as int),
{
    let n = found.urls.len() as int;
    let urls = url_links(found.urls, line);
    lemma_ips_apart(urls, found.ips, line, n);
    lemma_paths_apart(with_ips(urls, found.ips, line), found.paths, line, n);
}

} // verus!
