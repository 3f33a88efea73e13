//! Search and replace in a text.

use crate::outside::{
    escape_pattern, find_matches, match_texts, regex_escaped, regex_matches, regex_replaced,
    replace_matches,
};
use crate::text::{
    append_chars, append_decimal, append_text, chars_of, decimal_text, find_part,
    find_part_is_first, find_text, joined, owned, split_lines, text_lines, texts,
};
use vstd::prelude::*;

verus! {

/// How to search.
#[derive(Clone, Debug)]
pub struct SearchConfig {
    pub use_regex: bool,
    pub case_sensitive: bool,
    pub whole_word: bool,
    pub multi_line: bool,
}

impl Default for SearchConfig {
    fn default() -> (config: Self)
        ensures
            !config.use_regex,
            !config.case_sensitive,
            !config.whole_word,
            !config.multi_line,
    {
        SearchConfig {
            use_regex: false,
            case_sensitive: false,
            whole_word: false,
            multi_line: false,
        }
    }
}

/// How to replace.
#[derive(Clone, Debug)]
pub struct ReplaceOptions {
    pub replace_all: bool,
    pub preserve_case: bool,
}

impl Default for ReplaceOptions {
    fn default() -> (options: Self)
        ensures
            !options.replace_all,
            options.preserve_case,
    {
        ReplaceOptions { replace_all: false, preserve_case: true }
    }
}

/// A text with occurrences of a pattern replaced, from left to right, and their
/// number: all, or only the first. What was put in is not searched again.
pub open spec fn replaced(
    text: Seq<char>,
    pattern: Seq<char>,
    replacement: Seq<char>,
    all: bool,
) -> (Seq<char>, nat)
    decreases text.len(),
{
    match find_part(text, pattern, 0) {
        None => (text, 0),
        Some(at) => {
            let end = at + pattern.len();
            if pattern.len() == 0 || at < 0 || end > text.len() {
                (text, 0)
            } else {
                let rest = text.subrange(end, text.len() as int);
                let (tail, n) = if all {
                    replaced(rest, pattern, replacement, all)
                } else {
                    (rest, 0)
                };
                (text.subrange(0, at) + replacement + tail, n + 1)
            }
        },
    }
}

/// A text from position `from` on, with the given matches replaced.
pub open spec fn spliced(
    text: Seq<char>,
    matches: Seq<(Seq<char>, Seq<char>)>,
    from: int,
    replacement: Seq<char>,
) -> Seq<char>
    decreases matches.len(),
{
    if matches.len() == 0 {
        text.subrange(from, text.len() as int)
    } else {
        let start = matches[0].0.len() as int;
        text.subrange(from, start) + replacement + spliced(
            text,
            matches.drop_first(),
            start + matches[0].1.len(),
            replacement,
        )
    }
}

/// The matches to be replaced: all, or only the first.
pub open spec fn chosen<T>(matches: Seq<T>, all: bool) -> Seq<T> {
    if all || matches.len() == 0 {
        matches
    } else {
        matches.subrange(0, 1)
    }
}

/// A text searched for a pattern as it stands.
pub open spec fn literally_replaced(
    text: Seq<char>,
    pattern: Seq<char>,
    replacement: Seq<char>,
    case_sensitive: bool,
    all: bool,
) -> Result<(Seq<char>, nat), Seq<char>> {
    if pattern.len() == 0 {
        Ok((text, 0))
    } else if case_sensitive {
        Ok(replaced(text, pattern, replacement, all))
    } else {
        match regex_matches(regex_escaped(pattern), true, false, text) {
            Ok(matches) => Ok(
                (
                    spliced(text, chosen(matches, all), 0, replacement),
                    chosen(matches, all).len(),
                ),
            ),
            Err(e) => Err("Invalid search pattern: "@ + e),
        }
    }
}

/// A text searched for a regular expression.
pub open spec fn regularly_replaced(
    text: Seq<char>,
    pattern: Seq<char>,
    replacement: Seq<char>,
    case_sensitive: bool,
    multi_line: bool,
    all: bool,
) -> Result<(Seq<char>, nat), Seq<char>> {
    let limit: usize = if all {
        0
    } else {
        1
    };
    match (
        regex_replaced(pattern, !case_sensitive, multi_line, text, limit, replacement),
        regex_matches(pattern, !case_sensitive, multi_line, text),
    ) {
        (Ok(result), Ok(matches)) => Ok((result, chosen(matches, all).len())),
        (Err(e), _) => Err("Invalid regex: "@ + e),
        (Ok(_), Err(e)) => Err("Invalid regex: "@ + e),
    }
}

/// A number with blanks before it, three characters wide or wider.
pub open spec fn padded_number(n: nat) -> Seq<char> {
    if n < 10 {
        "  "@ + decimal_text(n)
    } else if n < 100 {
        " "@ + decimal_text(n)
    } else {
        decimal_text(n)
    }
}

/// Line `i` as it is shown around a match in line `idx`.
pub open spec fn context_line(lines: Seq<Seq<char>>, i: int, idx: int) -> Seq<char> {
    (if i == idx {
        "→ "@
    } else {
        "  "@
    }) + padded_number((i + 1) as nat) + ": "@ + lines[i]
}

/// The lines `from .. to` as they are shown around a match in line `idx`.
pub open spec fn context_block(lines: Seq<Seq<char>>, from: int, to: int, idx: int) -> Seq<Seq<char>>
    decreases to - from,
{
    if from >= to {
        Seq::empty()
    } else {
        context_block(lines, from, to - 1, idx).push(context_line(lines, to - 1, idx))
    }
}

/// What is shown for the matches in the first `n` lines: each with the lines around
/// it and an empty line behind.
pub open spec fn match_contexts(
    lines: Seq<Seq<char>>,
    pattern: Seq<char>,
    around: int,
    n: int,
) -> Seq<Seq<char>>
    decreases n,
{
    if n <= 0 {
        Seq::empty()
    } else {
        let before = match_contexts(lines, pattern, around, n - 1);
        if find_part(lines[n - 1], pattern, 0) is Some {
            let from = if n - 1 > around {
                n - 1 - around
            } else {
                0
            };
            let to = if n + around < lines.len() {
                n + around
            } else {
                lines.len() as int
            };
            (before + context_block(lines, from, to, n - 1)).push(Seq::empty())
        } else {
            before
        }
    }
}

/// What a replacement, or an error, stands for.
pub open spec fn replacement_view(result: Result<(String, usize), String>) -> Result<
    (Seq<char>, nat),
    Seq<char>,
> {
    match result {
        Ok((text, n)) => Ok((text@, n as nat)),
        Err(e) => Err(e@),
    }
}

/// A text in which a pattern does not occur is left as it is.
pub proof fn replacing_what_is_not_there_changes_nothing(
    text: Seq<char>,
    pattern: Seq<char>,
    replacement: Seq<char>,
    all: bool,
)
    requires
        find_part(text, pattern, 0) is None,
    ensures
        replaced(text, pattern, replacement, all) == (text, 0nat),
{
}

/// Replacing a pattern by itself keeps the text.
pub proof fn replacing_by_itself_keeps_the_text(text: Seq<char>, pattern: Seq<char>, all: bool)
    ensures
        replaced(text, pattern, pattern, all).0 == text,
    decreases text.len(),
{
    find_part_is_first(text, pattern, 0);
    match find_part(text, pattern, 0) {
        None => {},
        Some(at) => {
            let end = at + pattern.len();
            if pattern.len() > 0 {
                let rest = text.subrange(end, text.len() as int);
                if all {
                    replacing_by_itself_keeps_the_text(rest, pattern, all);
                }
                assert(text.subrange(0, at) + pattern + rest =~= text);
            }
        },
    }
}

/// Every replacement changes the length by the difference of the two.
pub proof fn replacement_changes_the_length_by_its_own(
    text: Seq<char>,
    pattern: Seq<char>,
    replacement: Seq<char>,
    all: bool,
)
    ensures
        replaced(text, pattern, replacement, all).0.len() == text.len() + replaced(
            text,
            pattern,
            replacement,
            all,
        ).1 * (replacement.len() - pattern.len()),
        !all ==> replaced(text, pattern, replacement, all).1 <= 1,
    decreases text.len(),
{
    let d = replacement.len() - pattern.len();
    assert(0 * d == 0) by (nonlinear_arith);
    find_part_is_first(text, pattern, 0);
    match find_part(text, pattern, 0) {
        None => {},
        Some(at) => {
            let end = at + pattern.len();
            if pattern.len() > 0 {
                let rest = text.subrange(end, text.len() as int);
                let (tail, n) = if all {
                    replaced(rest, pattern, replacement, all)
                } else {
                    (rest, 0)
                };
                if all {
                    replacement_changes_the_length_by_its_own(rest, pattern, replacement, all);
                }
                assert((n + 1) * d == n * d + d) by (nonlinear_arith);
            }
        },
    }
}

/// Search and replace.
pub struct SearchAndReplaceEngine;

/// Adds a text from position `from` on, with the given matches replaced.
fn splice(text: &[char], matches: &Vec<(String, String)>, n: usize, replacement: &[char]) -> (result:
    String)
    requires
        n <= matches@.len(),
        forall|i: int|
            0 <= i < matches@.len() ==> (#[trigger] matches@[i].0@ + matches@[i].1@).is_prefix_of(
                text@,
            ),
        forall|i: int, j: int|
            0 <= i < j < matches@.len() ==> #[trigger] matches@[i].0@.len() + matches@[i].1@.len()
                <= #[trigger] matches@[j].0@.len(),
    ensures
        result@ == spliced(text@, match_texts(matches@).subrange(0, n as int), 0, replacement@),
{
    let ghost all = match_texts(matches@).subrange(0, n as int);
    let len: usize = text.len();
    let mut result = String::new();
    let mut from: usize = 0;
    let mut i: usize = 0;
    proof {
        assert(all.subrange(0, n as int) =~= all);
        assert(result@ + spliced(text@, all, 0, replacement@) =~= spliced(
            text@,
            all,
            0,
            replacement@,
        ));
    }
    while i < n
        invariant
            i <= n <= matches@.len(),
            all == match_texts(matches@).subrange(0, n as int),
            forall|k: int|
                0 <= k < matches@.len() ==> (#[trigger] matches@[k].0@
                    + matches@[k].1@).is_prefix_of(text@),
            forall|k: int, j: int|
                0 <= k < j < matches@.len() ==> #[trigger] matches@[k].0@.len()
                    + matches@[k].1@.len() <= #[trigger] matches@[j].0@.len(),
            from <= text@.len() == len,
            i < matches@.len() ==> from <= matches@[i as int].0@.len(),
            result@ + spliced(
                text@,
                all.subrange(i as int, n as int),
                from as int,
                replacement@,
            ) == spliced(text@, all, 0, replacement@),
        decreases n - i,
    {
        let before = chars_of(matches[i].0.as_str());
        let found = chars_of(matches[i].1.as_str());
        let ghost done = result@;
        let start: usize = before.len();
        proof {
            assert((matches@[i as int].0@ + matches@[i as int].1@).len() <= text@.len());
            let rest = all.subrange(i as int, n as int);
            assert(rest[0] == (before@, found@));
            assert(rest.drop_first() =~= all.subrange(i + 1, n as int));
            let piece = text@.subrange(from as int, start as int);
            let tail = spliced(
                text@,
                all.subrange(i + 1, n as int),
                start + found@.len(),
                replacement@,
            );
            assert(done + (piece + replacement@ + tail) =~= ((done + piece) + replacement@) + tail);
            if i + 1 < matches@.len() {
                assert(matches@[i as int].0@.len() + matches@[i as int].1@.len()
                    <= matches@[i + 1].0@.len());
            }
        }
        append_chars(&mut result, vstd::slice::slice_subrange(text, from, start));
        append_chars(&mut result, replacement);
        from = start + found.len();
        i = i + 1;
    }
    proof {
        assert(all.subrange(n as int, n as int).len() == 0);
    }
    append_chars(&mut result, vstd::slice::slice_subrange(text, from, len));
    result
}

/// Replaces occurrences of a pattern as it stands, in the same case.
fn replace_exact(text: &[char], pattern: &[char], replacement: &[char], all: bool) -> (result: (
    String,
    usize,
))
    requires
        pattern@.len() > 0,
    ensures
        (result.0@, result.1 as nat) == replaced(text@, pattern@, replacement@, all),
{
    let mut result = String::new();
    let mut count: usize = 0;
    let mut from: usize = 0;
    let ghost whole = replaced(text@, pattern@, replacement@, all);
    let mut more = true;
    proof {
        assert(text@.subrange(0, text@.len() as int) =~= text@);
        assert(result@ + whole.0 =~= whole.0);
    }
    while more
        invariant
            pattern@.len() > 0,
            from <= text@.len(),
            count <= from,
            whole == replaced(text@, pattern@, replacement@, all),
            more ==> ({
                let rest = replaced(
                    text@.subrange(from as int, text@.len() as int),
                    pattern@,
                    replacement@,
                    all,
                );
                &&& result@ + rest.0 == whole.0
                &&& count + rest.1 == whole.1
            }),
            !more ==> result@ + text@.subrange(from as int, text@.len() as int) == whole.0 && count
                == whole.1,
        decreases text@.len() - from + (if more {
            1int
        } else {
            0
        }),
    {
        let rest = vstd::slice::slice_subrange(text, from, text.len());
        match find_text(rest, pattern, 0) {
            Some(at) => {
                let ghost done = result@;
                let end: usize = at + pattern.len();
                proof {
                    let piece = rest@.subrange(0, at as int);
                    let tail = rest@.subrange(end as int, rest@.len() as int);
                    assert(tail =~= text@.subrange(from + end, text@.len() as int));
                    let t = if all {
                        replaced(tail, pattern@, replacement@, all).0
                    } else {
                        tail
                    };
                    assert(done + (piece + replacement@ + t) =~= ((done + piece) + replacement@)
                        + t);
                }
                append_chars(&mut result, vstd::slice::slice_subrange(rest, 0, at));
                append_chars(&mut result, replacement);
                count = count + 1;
                from = from + end;
                if !all {
                    more = false;
                }
            },
            None => {
                more = false;
            },
        }
    }
    append_chars(&mut result, vstd::slice::slice_subrange(text, from, text.len()));
    (result, count)
}

fn show_line(line: &str, i: usize, idx: usize, Ghost(lines): Ghost<Seq<Seq<char>>>) -> (shown: String)
    requires
        i < lines.len() <= usize::MAX,
        line@ == lines[i as int],
    ensures
        shown@ == context_line(lines, i as int, idx as int),
{
    let mut shown = owned(
        if i == idx {
            "→ "
        } else {
            "  "
        },
    );
    let ghost head = shown@;
    let n: usize = i + 1;
    proof {
        assert(head + ("  "@ + decimal_text(n as nat)) =~= (head + "  "@) + decimal_text(n as nat));
        assert(head + (" "@ + decimal_text(n as nat)) =~= (head + " "@) + decimal_text(n as nat));
    }
    if n < 10 {
        append_text(&mut shown, "  ");
    } else if n < 100 {
        append_text(&mut shown, " ");
    }
    append_decimal(&mut shown, n as u64);
    append_text(&mut shown, ": ");
    append_text(&mut shown, line);
    shown
}

/// Adds the lines `from .. to` as they are shown around a match in line `idx`.
fn show_block(shown: &mut Vec<String>, lines: &Vec<String>, from: usize, to: usize, idx: usize)
    requires
        from <= to <= lines@.len(),
    ensures
        texts(final(shown)@) == texts(old(shown)@) + context_block(
            texts(lines@),
            from as int,
            to as int,
            idx as int,
        ),
{
    let ghost all = texts(lines@);
    let ghost before = texts(shown@);
    let mut i: usize = from;
    proof {
        assert(before + context_block(all, from as int, from as int, idx as int) =~= before);
    }
    while i < to
        invariant
            from <= i <= to <= lines@.len(),
            all == texts(lines@),
            texts(shown@) == before + context_block(
                all,
                from as int,
                i as int,
                idx as int,
            ),
        decreases to - i,
    {
        let ghost now = texts(shown@);
        let count: usize = lines.len();
        let line = show_line(lines[i].as_str(), i, idx, Ghost(all));
        shown.push(line);
        i = i + 1;
        proof {
            assert(texts(shown@) =~= now.push(line@));
            assert(now.push(line@) =~= before + context_block(
                all,
                from as int,
                i as int,
                idx as int,
            ));
        }
    }
}

impl SearchAndReplaceEngine {
    /// Replaces what a pattern finds in a text: the result, and how often.
    pub fn search_and_replace(
        text: &str,
        search_pattern: &str,
        replacement: &str,
        config: &SearchConfig,
        options: &ReplaceOptions,
    ) -> (result: Result<(String, usize), String>)
        ensures
            replacement_view(result) == (if config.use_regex {
                regularly_replaced(
                    text@,
                    search_pattern@,
                    replacement@,
                    config.case_sensitive,
                    config.multi_line,
                    options.replace_all,
                )
            } else {
                literally_replaced(
                    text@,
                    search_pattern@,
                    replacement@,
                    config.case_sensitive,
                    options.replace_all,
                )
            }),
    {
        if config.use_regex {
            Self::regex_replace(text, search_pattern, replacement, config, options)
        } else {
            Self::literal_replace(text, search_pattern, replacement, config, options)
        }
    }

    fn literal_replace(
        text: &str,
        pattern: &str,
        replacement: &str,
        config: &SearchConfig,
        options: &ReplaceOptions,
    ) -> (result: Result<(String, usize), String>)
        ensures
            replacement_view(result) == literally_replaced(
                text@,
                pattern@,
                replacement@,
                config.case_sensitive,
                options.replace_all,
            ),
    {
        let text_chars = chars_of(text);
        let pattern_chars = chars_of(pattern);
        let replacement_chars = chars_of(replacement);
        if pattern_chars.len() == 0 {
            return Ok((owned(text), 0));
        }
        if config.case_sensitive {
            return Ok(
                replace_exact(
                    text_chars.as_slice(),
                    pattern_chars.as_slice(),
                    replacement_chars.as_slice(),
                    options.replace_all,
                ),
            );
        }
        let escaped = escape_pattern(pattern);
        match find_matches(escaped.as_str(), true, false, text) {
            Ok(matches) => Ok(
                Self::replace_found(
                    text_chars.as_slice(),
                    &matches,
                    replacement_chars.as_slice(),
                    options.replace_all,
                ),
            ),
            Err(e) => {
                let error = chars_of(e.as_str());
                Err(joined("Invalid search pattern: ", error.as_slice()))
            },
        }
    }

    /// Replaces the given matches: all, or only the first.
    fn replace_found(
        text: &[char],
        matches: &Vec<(String, String)>,
        replacement: &[char],
        all: bool,
    ) -> (result: (String, usize))
        requires
            forall|i: int|
                0 <= i < matches@.len() ==> (#[trigger] matches@[i].0@
                    + matches@[i].1@).is_prefix_of(text@),
            forall|i: int, j: int|
                0 <= i < j < matches@.len() ==> #[trigger] matches@[i].0@.len()
                    + matches@[i].1@.len() <= #[trigger] matches@[j].0@.len(),
        ensures
            result.0@ == spliced(text@, chosen(match_texts(matches@), all), 0, replacement@),
            result.1 == chosen(match_texts(matches@), all).len(),
    {
        let n: usize = if all || matches.len() == 0 {
            matches.len()
        } else {
            1
        };
        proof {
            let texts = match_texts(matches@);
            assert(texts.subrange(0, texts.len() as int) =~= texts);
        }
        (splice(text, matches, n, replacement), n)
    }

    fn regex_replace(
        text: &str,
        pattern: &str,
        replacement: &str,
        config: &SearchConfig,
        options: &ReplaceOptions,
    ) -> (result: Result<(String, usize), String>)
        ensures
            replacement_view(result) == regularly_replaced(
                text@,
                pattern@,
                replacement@,
                config.case_sensitive,
                config.multi_line,
                options.replace_all,
            ),
    {
        let insensitive = !config.case_sensitive;
        let limit: usize = if options.replace_all {
            0
        } else {
            1
        };
        let replaced_text = match replace_matches(
            pattern,
            insensitive,
            config.multi_line,
            text,
            limit,
            replacement,
        ) {
            Ok(t) => t,
            Err(e) => {
                let error = chars_of(e.as_str());
                return Err(joined("Invalid regex: ", error.as_slice()));
            },
        };
        match find_matches(pattern, insensitive, config.multi_line, text) {
            Ok(matches) => {
                let n: usize = if options.replace_all || matches.len() == 0 {
                    matches.len()
                } else {
                    1
                };
                Ok((replaced_text, n))
            },
            Err(e) => {
                let error = chars_of(e.as_str());
                Err(joined("Invalid regex: ", error.as_slice()))
            },
        }
    }

    /// The lines in which a pattern occurs, each with the lines around it.
    pub fn get_match_context(text: &str, pattern: &str, context_lines: usize) -> (shown: Vec<
        String,
    >)
        ensures
            texts(shown@) == match_contexts(
                text_lines(text@),
                pattern@,
                context_lines as int,
                text_lines(text@).len() as int,
            ),
    {
        let chars = chars_of(text);
        let pattern_chars = chars_of(pattern);
        let lines = split_lines(chars.as_slice());
        let ghost all = text_lines(text@);
        let count: usize = lines.len();
        let mut shown: Vec<String> = Vec::new();
        let mut idx: usize = 0;
        proof {
            assert(texts(shown@) =~= match_contexts(
                all,
                pattern@,
                context_lines as int,
                0,
            ));
        }
        while idx < count
            invariant
                count == lines@.len(),
                idx <= count,
                all == texts(lines@),
                pattern_chars@ == pattern@,
                texts(shown@) == match_contexts(
                    all,
                    pattern@,
                    context_lines as int,
                    idx as int,
                ),
            decreases count - idx,
        {
            let line = chars_of(lines[idx].as_str());
            proof {
                assert(line@ == all[idx as int]);
            }
            if find_text(line.as_slice(), pattern_chars.as_slice(), 0).is_some() {
                let from: usize = idx.saturating_sub(context_lines);
                let to: usize = if context_lines < count - idx - 1 {
                    idx + context_lines + 1
                } else {
                    count
                };
                show_block(&mut shown, &lines, from, to, idx);
                let ghost now = texts(shown@);
                shown.push(String::new());
                proof {
                    assert(texts(shown@) =~= now.push(Seq::empty()));
                }
            }
            idx = idx + 1;
        }
        shown
    }
}

/// The first occurrence of a pattern gives way to the replacement and what stands around it
/// stays. Where all are replaced, so do those behind it, and each is counted.
pub proof fn an_occurrence_gives_way_to_the_replacement(
    text: Seq<char>,
    pattern: Seq<char>,
    replacement: Seq<char>,
    at: int,
)
    requires
        pattern.len() > 0,
        find_part(text, pattern, 0) == Some(at),
    ensures
        0 <= at,
        at + pattern.len() <= text.len(),
        text.subrange(at, at + pattern.len()) == pattern,
        ({
            let before = text.subrange(0, at);
            let behind = text.subrange(at + pattern.len(), text.len() as int);
            let rest = replaced(behind, pattern, replacement, true);
            &&& replaced(text, pattern, replacement, false) == (before + replacement + behind, 1nat)
            &&& replaced(text, pattern, replacement, true) == (
                before + replacement + rest.0,
                rest.1 + 1,
            )
        }),
{
    find_part_is_first(text, pattern, 0);
    let before = text.subrange(0, at);
    let behind = text.subrange(at + pattern.len(), text.len() as int);
    let rest = replaced(behind, pattern, replacement, true);
    assert(replaced(text, pattern, replacement, false).0 =~= before + replacement + behind);
    assert(replaced(text, pattern, replacement, true).0 =~= before + replacement + rest.0);
}

/// Without regard to case the matches give way to the replacement, the first alone or all of
/// them, and the text before, between and behind them stays.
pub proof fn matches_give_way_to_the_replacement(
    text: Seq<char>,
    first: (Seq<char>, Seq<char>),
    more: Seq<(Seq<char>, Seq<char>)>,
    replacement: Seq<char>,
)
    requires
        first.0.len() + first.1.len() <= text.len(),
    ensures
        ({
            let end = first.0.len() + first.1.len();
            let all = seq![first] + more;
            &&& spliced(text, chosen(all, false), 0, replacement) == text.subrange(
                0,
                first.0.len() as int,
            ) + replacement + text.subrange(end as int, text.len() as int)
            &&& spliced(text, all, 0, replacement) == text.subrange(0, first.0.len() as int)
                + replacement + spliced(text, more, end as int, replacement)
            &&& chosen(all, true) == all
            &&& chosen(all, false).len() == 1
        }),
{
    let all = seq![first] + more;
    assert(all.drop_first() =~= more);
    assert(all.subrange(0, 1) =~= seq![first]);
    assert(seq![first].drop_first() =~= Seq::empty());
    reveal_with_fuel(spliced, 2);
}

} // verus!
