//! The search through everything that a terminal holds: its query, what was asked for
//! before, and the matches.

use crate::cell::TerminalCell;
use crate::chrome::SearchKey;
use crate::outside::{escape_pattern, find_matches, match_texts, regex_escaped, regex_matches};
use crate::status::{match_text, number_pair};
use crate::tab_switcher::{shortened, visible, visible_text, without_last};
use crate::text::{append_text, decimal_text, owned, same_text, texts};
use vstd::prelude::*;

verus! {

/// How many queries are remembered.
pub const HISTORY_CAP: usize = 50;

/// A match: its line, counted from the oldest, its first column, and the column behind
/// its last.
#[derive(Debug, Clone, Copy, PartialEq, Eq, Structural)]
pub struct SearchMatch {
    pub line: usize,
    pub col_start: usize,
    pub col_end: usize,
}

/// The columns of a line in which a character starts.
pub open spec fn text_columns(cells: Seq<TerminalCell>) -> Seq<usize>
    decreases cells.len(),
{
    if cells.len() == 0 {
        Seq::empty()
    } else if cells.last().flags@.wide_continuation {
        text_columns(cells.drop_last())
    } else {
        text_columns(cells.drop_last()).push((cells.len() - 1) as usize)
    }
}

/// The characters of a line.
pub open spec fn line_text(cells: Seq<TerminalCell>) -> Seq<char>
    decreases cells.len(),
{
    if cells.len() == 0 {
        Seq::empty()
    } else if cells.last().flags@.wide_continuation {
        line_text(cells.drop_last())
    } else {
        line_text(cells.drop_last()).push(cells.last().character)
    }
}

/// A match of a line by its columns: `found` is the text before the match, and the match.
pub open spec fn match_in(
    line: int,
    cells: Seq<TerminalCell>,
    found: (Seq<char>, Seq<char>),
) -> SearchMatch {
    let columns = text_columns(cells);
    let first = found.0.len() as int;
    let behind = first + found.1.len();
    SearchMatch {
        line: line as usize,
        col_start: columns[first],
        col_end: if behind < columns.len() {
            columns[behind]
        } else {
            cells.len() as usize
        },
    }
}

/// The matches of a line that are not empty.
pub open spec fn matches_in(
    line: int,
    cells: Seq<TerminalCell>,
    found: Seq<(Seq<char>, Seq<char>)>,
) -> Seq<SearchMatch>
    decreases found.len(),
{
    if found.len() == 0 {
        Seq::empty()
    } else if found.last().1.len() == 0 {
        matches_in(line, cells, found.drop_last())
    } else {
        matches_in(line, cells, found.drop_last()).push(match_in(line, cells, found.last()))
    }
}

/// The matches of a regular expression in some lines, or the error in the expression.
pub open spec fn matches_of(
    pattern: Seq<char>,
    case_sensitive: bool,
    lines: Seq<Seq<TerminalCell>>,
) -> Result<Seq<SearchMatch>, Seq<char>>
    decreases lines.len(),
{
    if lines.len() == 0 {
        Ok(Seq::empty())
    } else {
        match matches_of(pattern, case_sensitive, lines.drop_last()) {
            Err(error) => Err(error),
            Ok(above) => match regex_matches(
                pattern,
                !case_sensitive,
                false,
                line_text(lines.last()),
            ) {
                Err(error) => Err(error),
                Ok(found) => Ok(above + matches_in(lines.len() - 1, lines.last(), found)),
            },
        }
    }
}

/// What a query finds: nothing where it is empty. A query that is no regular expression
/// is looked for as it stands.
pub open spec fn search_of(
    query: Seq<char>,
    use_regex: bool,
    case_sensitive: bool,
    lines: Seq<Seq<TerminalCell>>,
) -> Result<Seq<SearchMatch>, Seq<char>> {
    if query.len() == 0 {
        Ok(Seq::empty())
    } else if use_regex {
        matches_of(query, case_sensitive, lines)
    } else {
        matches_of(regex_escaped(query), case_sensitive, lines)
    }
}

/// The cells of some lines.
pub open spec fn rows_of(lines: Seq<Vec<TerminalCell>>) -> Seq<Seq<TerminalCell>> {
    Seq::new(lines.len(), |i: int| lines[i]@)
}

proof fn lemma_columns(cells: Seq<TerminalCell>)
    requires
        cells.len() <= usize::MAX,
    ensures
        text_columns(cells).len() == line_text(cells).len(),
        text_columns(cells).len() <= cells.len(),
        forall|i: int|
            0 <= i < text_columns(cells).len() ==> #[trigger] text_columns(cells)[i] < cells.len(),
        forall|i: int, j: int|
            0 <= i < j < text_columns(cells).len() ==> #[trigger] text_columns(cells)[i]
                < #[trigger] text_columns(cells)[j],
    decreases cells.len(),
{
    if cells.len() > 0 {
        lemma_columns(cells.drop_last());
    }
}

/// The characters of a line, and the columns in which they start.
fn text_of(cells: &Vec<TerminalCell>) -> (read: (String, Vec<usize>))
    ensures
        read.0@ == line_text(cells@),
        read.1@ == text_columns(cells@),
{
    let mut text = String::new();
    let mut columns: Vec<usize> = Vec::new();
    let mut i: usize = 0;
    proof {
        assert(cells@.subrange(0, 0) =~= Seq::empty());
        assert(text@ =~= line_text(cells@.subrange(0, 0)));
        assert(columns@ =~= text_columns(cells@.subrange(0, 0)));
    }
    while i < cells.len()
        invariant
            i <= cells@.len(),
            text@ == line_text(cells@.subrange(0, i as int)),
            columns@ == text_columns(cells@.subrange(0, i as int)),
        decreases cells@.len() - i,
    {
        proof {
            assert(cells@.subrange(0, i + 1).drop_last() =~= cells@.subrange(0, i as int));
            assert(cells@.subrange(0, i + 1).last() == cells@[i as int]);
        }
        if !cells[i].flags.wide_continuation() {
            text.push(cells[i].character);
            columns.push(i);
        }
        i = i + 1;
    }
    proof {
        assert(cells@.subrange(0, i as int) =~= cells@);
    }
    (text, columns)
}

/// Whether a match covers columns of one of some lines.
pub open spec fn covers(m: SearchMatch, lines: Seq<Seq<TerminalCell>>) -> bool {
    m.line < lines.len() && m.col_start < m.col_end <= lines[m.line as int].len()
}

/// Appends the matches of a line.
fn append_matches(
    matches: &mut Vec<SearchMatch>,
    line: usize,
    cells: &Vec<TerminalCell>,
    columns: &Vec<usize>,
    found: &Vec<(String, String)>,
)
    requires
        columns@ == text_columns(cells@),
        forall|i: int|
            0 <= i < found@.len() ==> (#[trigger] found@[i].0@ + found@[i].1@).is_prefix_of(
                line_text(cells@),
            ),
    ensures
        final(matches)@ == old(matches)@ + matches_in(line as int, cells@, match_texts(found@)),
        forall|i: int|
            old(matches)@.len() <= i < final(matches)@.len() ==> (#[trigger] final(matches)@[i]).line
                == line && final(matches)@[i].col_start < final(matches)@[i].col_end <= cells@.len(),
{
    let ghost all = match_texts(found@);
    let width: usize = columns.len();
    let end: usize = cells.len();
    let mut i: usize = 0;
    proof {
        lemma_columns(cells@);
        assert(all.subrange(0, 0) =~= Seq::empty());
        assert(matches@ + matches_in(line as int, cells@, all.subrange(0, 0)) =~= matches@);
    }
    while i < found.len()
        invariant
            i <= found@.len(),
            all == match_texts(found@),
            columns@ == text_columns(cells@),
            columns@.len() == line_text(cells@).len(),
            width == columns@.len(),
            end == cells@.len(),
            forall|i: int|
                0 <= i < found@.len() ==> (#[trigger] found@[i].0@ + found@[i].1@).is_prefix_of(
                    line_text(cells@),
                ),
            forall|i: int| 0 <= i < columns@.len() ==> #[trigger] columns@[i] < cells@.len(),
            forall|i: int, j: int|
                0 <= i < j < columns@.len() ==> #[trigger] columns@[i] < #[trigger] columns@[j],
            matches@ == old(matches)@ + matches_in(line as int, cells@, all.subrange(0, i as int)),
            old(matches)@.len() <= matches@.len(),
            forall|i: int|
                old(matches)@.len() <= i < matches@.len() ==> (#[trigger] matches@[i]).line == line
                    && matches@[i].col_start < matches@[i].col_end <= cells@.len(),
        decreases found@.len() - i,
    {
        let before: usize = found[i].0.as_str().unicode_len();
        let length: usize = found[i].1.as_str().unicode_len();
        proof {
            assert((found@[i as int].0@ + found@[i as int].1@).is_prefix_of(line_text(cells@)));
            assert(before + length <= width);
            assert(all.subrange(0, i + 1).drop_last() =~= all.subrange(0, i as int));
            assert(all.subrange(0, i + 1).last() == (found@[i as int].0@, found@[i as int].1@));
        }
        if length > 0 {
            let behind: usize = before + length;
            let col_end: usize = if behind < width {
                columns[behind]
            } else {
                end
            };
            matches.push(SearchMatch { line, col_start: columns[before], col_end });
            proof {
                assert(matches@ =~= old(matches)@ + matches_in(
                    line as int,
                    cells@,
                    all.subrange(0, i + 1),
                ));
            }
        }
        i = i + 1;
    }
    proof {
        assert(all.subrange(0, i as int) =~= all);
    }
}

pub open spec fn found_view(found: Result<Vec<SearchMatch>, String>) -> Result<
    Seq<SearchMatch>,
    Seq<char>,
> {
    match found {
        Ok(matches) => Ok(matches@),
        Err(error) => Err(error@),
    }
}

/// Looks for a query in some lines.
pub fn search_lines(
    lines: &Vec<Vec<TerminalCell>>,
    query: &str,
    use_regex: bool,
    case_sensitive: bool,
) -> (found: Result<Vec<SearchMatch>, String>)
    ensures
        found_view(found) == search_of(query@, use_regex, case_sensitive, rows_of(lines@)),
        found matches Ok(matches) ==> forall|i: int|
            0 <= i < matches@.len() ==> covers(#[trigger] matches@[i], rows_of(lines@)),
{
    let mut matches: Vec<SearchMatch> = Vec::new();
    if query.unicode_len() == 0 {
        return Ok(matches);
    }
    let pattern = if use_regex {
        owned(query)
    } else {
        escape_pattern(query)
    };
    let ghost rows = rows_of(lines@);
    let mut i: usize = 0;
    proof {
        assert(rows.subrange(0, 0) =~= Seq::empty());
        assert(matches@ =~= Seq::empty());
    }
    while i < lines.len()
        invariant
            i <= lines@.len(),
            rows == rows_of(lines@),
            query@.len() > 0,
            pattern@ == (if use_regex {
                query@
            } else {
                regex_escaped(query@)
            }),
            matches_of(pattern@, case_sensitive, rows.subrange(0, i as int))
                == Ok::<Seq<SearchMatch>, Seq<char>>(matches@),
            forall|k: int| 0 <= k < matches@.len() ==> covers(#[trigger] matches@[k], rows),
        decreases lines@.len() - i,
    {
        let (text, columns) = text_of(&lines[i]);
        proof {
            assert(rows.subrange(0, i + 1).drop_last() =~= rows.subrange(0, i as int));
            assert(rows.subrange(0, i + 1).last() == lines@[i as int]@);
        }
        match find_matches(pattern.as_str(), !case_sensitive, false, text.as_str()) {
            Ok(found) => append_matches(&mut matches, i, &lines[i], &columns, &found),
            Err(error) => {
                proof {
                    lemma_error_stays(pattern@, case_sensitive, rows, i + 1);
                }
                return Err(error);
            },
        }
        i = i + 1;
    }
    proof {
        assert(rows.subrange(0, i as int) =~= rows);
    }
    Ok(matches)
}

/// Once a line has shown an error, the lines below do not change it.
proof fn lemma_error_stays(
    pattern: Seq<char>,
    case_sensitive: bool,
    rows: Seq<Seq<TerminalCell>>,
    n: int,
)
    requires
        0 <= n <= rows.len(),
        matches_of(pattern, case_sensitive, rows.subrange(0, n)) is Err,
    ensures
        matches_of(pattern, case_sensitive, rows) == matches_of(
            pattern,
            case_sensitive,
            rows.subrange(0, n),
        ),
    decreases rows.len() - n,
{
    if n < rows.len() {
        assert(rows.subrange(0, n + 1).drop_last() =~= rows.subrange(0, n));
        lemma_error_stays(pattern, case_sensitive, rows, n + 1);
    } else {
        assert(rows.subrange(0, n) =~= rows);
    }
}

/// What a search holds.
#[verifier::ext_equal]
pub struct SearchModel {
    pub query: Seq<char>,
    pub use_regex: bool,
    pub case_sensitive: bool,
    pub matches: Seq<SearchMatch>,
    pub current_match_index: int,
    pub error_message: Option<Seq<char>>,
    /// The queries that were asked for, the latest last.
    pub history: Seq<Seq<char>>,
    /// The query of the history that stands in the field.
    pub history_nav_index: Option<int>,
}

/// What is to be done when a key has changed the search.
#[derive(Debug, Clone, Copy, PartialEq, Eq, Structural)]
pub struct SearchFollowUp {
    /// The matches are to be found anew.
    pub find: bool,
    /// The current match is to be scrolled to.
    pub reveal: bool,
}

pub open spec fn follow_up(key: SearchKey) -> SearchFollowUp {
    match key {
        SearchKey::Close | SearchKey::Swallow => SearchFollowUp { find: false, reveal: false },
        SearchKey::Next | SearchKey::Previous => SearchFollowUp { find: false, reveal: true },
        SearchKey::Shorten => SearchFollowUp { find: true, reveal: false },
        _ => SearchFollowUp { find: true, reveal: true },
    }
}

/// Whether a line is among `rows` lines from `start` on.
pub open spec fn in_sight(line: usize, start: usize, rows: usize) -> bool {
    start <= line < (if start + rows < usize::MAX {
        start + rows
    } else {
        usize::MAX as int
    })
}

/// The matches in sight, by the line of the view that they are on.
pub open spec fn in_view(matches: Seq<SearchMatch>, start: usize, rows: usize) -> Seq<SearchMatch>
    decreases matches.len(),
{
    if matches.len() == 0 {
        matches
    } else {
        let above = in_view(matches.drop_last(), start, rows);
        let m = matches.last();
        if in_sight(m.line, start, rows) {
            above.push(SearchMatch { line: (m.line - start) as usize, ..m })
        } else {
            above
        }
    }
}

impl SearchModel {
    pub open spec fn empty() -> Self {
        SearchModel {
            query: Seq::empty(),
            use_regex: false,
            case_sensitive: false,
            matches: Seq::empty(),
            current_match_index: 0,
            error_message: None,
            history: Seq::empty(),
            history_nav_index: None,
        }
    }

    /// The current match is one of the matches, and the history is bounded.
    pub open spec fn wf(self) -> bool {
        &&& self.current_match_index == 0 || 0 <= self.current_match_index < self.matches.len()
        &&& self.history.len() <= HISTORY_CAP
        &&& self.history_nav_index matches Some(i) ==> 0 <= i < self.history.len()
    }

    pub open spec fn current(self) -> Option<SearchMatch> {
        if self.current_match_index < self.matches.len() {
            Some(self.matches[self.current_match_index])
        } else {
            None
        }
    }

    /// The query joins the history, unless it is empty or was the last one asked for.
    /// The oldest goes where there are too many.
    pub open spec fn remembered(self) -> Self {
        if self.query.len() == 0 || (self.history.len() > 0 && self.history.last() == self.query) {
            self
        } else if self.history.len() < HISTORY_CAP {
            SearchModel { history: self.history.push(self.query), ..self }
        } else {
            SearchModel { history: self.history.push(self.query).drop_first(), ..self }
        }
    }

    /// The next match is the current one, or the one before; the first follows the last.
    pub open spec fn stepped(self, forward: bool) -> Self {
        let n = self.matches.len() as int;
        let i = self.current_match_index;
        SearchModel {
            current_match_index: if n == 0 {
                i
            } else if forward {
                if i + 1 < n {
                    i + 1
                } else {
                    0
                }
            } else if i > 0 {
                i - 1
            } else {
                n - 1
            },
            ..self.remembered()
        }
    }

    /// The query of the history that comes before or behind the one in the field. Behind
    /// the latest the field is empty.
    pub open spec fn recalled(self, earlier: bool) -> Self {
        let n = self.history.len() as int;
        let place = match self.history_nav_index {
            None => if earlier && n > 0 {
                Some(n - 1)
            } else {
                None
            },
            Some(i) => if earlier {
                Some(if i > 0 {
                    i - 1
                } else {
                    0
                })
            } else if i + 1 < n {
                Some(i + 1)
            } else {
                None
            },
        };
        SearchModel {
            query: match place {
                Some(i) => self.history[i],
                None => Seq::empty(),
            },
            history_nav_index: place,
            current_match_index: 0,
            ..self
        }
    }

    /// Another query stands in the field.
    pub open spec fn asking(self, query: Seq<char>) -> Self {
        SearchModel { query, history_nav_index: None, current_match_index: 0, ..self }
    }

    pub open spec fn closed(self) -> Self {
        SearchModel {
            matches: Seq::empty(),
            current_match_index: 0,
            history_nav_index: None,
            ..self.remembered()
        }
    }

    /// What a key makes of the search; `text` is what the key types.
    pub open spec fn keyed(self, key: SearchKey, text: Seq<char>) -> Self {
        match key {
            SearchKey::Close => self.closed(),
            SearchKey::Next => self.stepped(true),
            SearchKey::Previous => self.stepped(false),
            SearchKey::Shorten => SearchModel {
                query: shortened(self.query),
                history_nav_index: None,
                ..self
            },
            SearchKey::HistoryPrevious => self.recalled(true),
            SearchKey::HistoryNext => self.recalled(false),
            SearchKey::ToggleRegex => SearchModel { use_regex: !self.use_regex, ..self },
            SearchKey::ToggleCase => SearchModel { case_sensitive: !self.case_sensitive, ..self },
            SearchKey::Type => self.asking(self.query + visible(text)),
            SearchKey::Swallow => self,
        }
    }

    /// What was found is kept. The current match stays where it is among the matches, if
    /// there still is one.
    pub open spec fn having_found(self, found: Result<Seq<SearchMatch>, Seq<char>>) -> Self {
        let matches = match found {
            Ok(matches) => matches,
            Err(_) => Seq::empty(),
        };
        SearchModel {
            matches,
            error_message: match found {
                Ok(_) => None,
                Err(error) => Some(error),
            },
            current_match_index: if self.current_match_index < matches.len() {
                self.current_match_index
            } else {
                0
            },
            ..self
        }
    }

    /// What the search bar says of the matches.
    pub open spec fn status(self) -> Seq<char> {
        if self.error_message is Some {
            self.error_message->0
        } else if self.matches.len() > 0 {
            number_pair((self.current_match_index + 1) as nat, "/"@, self.matches.len())
        } else if self.query.len() > 0 {
            "No matches"@
        } else {
            Seq::empty()
        }
    }
}

/// The state of the search bar.
#[derive(Debug)]
pub struct SearchState {
    pub query: String,
    pub use_regex: bool,
    pub case_sensitive: bool,
    pub matches: Vec<SearchMatch>,
    pub current_match_index: usize,
    pub error_message: Option<String>,
    pub history: Vec<String>,
    pub history_nav_index: Option<usize>,
}

impl View for SearchState {
    type V = SearchModel;

    open spec fn view(&self) -> SearchModel {
        SearchModel {
            query: self.query@,
            use_regex: self.use_regex,
            case_sensitive: self.case_sensitive,
            matches: self.matches@,
            current_match_index: self.current_match_index as int,
            error_message: match self.error_message {
                Some(error) => Some(error@),
                None => None,
            },
            history: texts(self.history@),
            history_nav_index: match self.history_nav_index {
                Some(i) => Some(i as int),
                None => None,
            },
        }
    }
}

impl SearchState {
    pub open spec fn wf(&self) -> bool {
        self@.wf()
    }

    pub fn new() -> (search: Self)
        ensures
            search.wf(),
            search@ == SearchModel::empty(),
    {
        let search = SearchState {
            query: String::new(),
            use_regex: false,
            case_sensitive: false,
            matches: Vec::new(),
            current_match_index: 0,
            error_message: None,
            history: Vec::new(),
            history_nav_index: None,
        };
        proof {
            assert(search@ =~= SearchModel::empty());
        }
        search
    }

    /// The match that the search stands on.
    pub fn current_match(&self) -> (found: Option<SearchMatch>)
        ensures
            found == self@.current(),
    {
        if self.current_match_index < self.matches.len() {
            Some(self.matches[self.current_match_index])
        } else {
            None
        }
    }

    fn remember(&mut self)
        requires
            old(self).wf(),
        ensures
            final(self)@ == old(self)@.remembered(),
    {
        let n: usize = self.history.len();
        if self.query.as_str().unicode_len() == 0 || (n > 0 && same_text(
            self.history[n - 1].as_str(),
            self.query.as_str(),
        )) {
            return ;
        }
        let query = owned(self.query.as_str());
        self.history.push(query);
        proof {
            assert(texts(self.history@) =~= old(self)@.history.push(self.query@));
        }
        if n >= HISTORY_CAP {
            self.history.remove(0);
            proof {
                assert(texts(self.history@) =~= old(self)@.history.push(self.query@).drop_first());
            }
        }
    }

    fn step(&mut self, forward: bool)
        requires
            old(self).wf(),
        ensures
            final(self)@ == old(self)@.stepped(forward),
    {
        let n: usize = self.matches.len();
        let i: usize = self.current_match_index;
        self.remember();
        if n > 0 {
            self.current_match_index = if forward {
                if i + 1 < n {
                    i + 1
                } else {
                    0
                }
            } else if i > 0 {
                i - 1
            } else {
                n - 1
            };
        }
        proof {
            assert(self@ =~= old(self)@.stepped(forward));
        }
    }

    /// The next match; the first follows the last.
    pub fn next_match(&mut self)
        requires
            old(self).wf(),
        ensures
            final(self).wf(),
            final(self)@ == old(self)@.stepped(true),
    {
        self.step(true);
    }

    /// The match before; the last comes before the first.
    pub fn prev_match(&mut self)
        requires
            old(self).wf(),
        ensures
            final(self).wf(),
            final(self)@ == old(self)@.stepped(false),
    {
        self.step(false);
    }

    fn recall(&mut self, earlier: bool)
        requires
            old(self).wf(),
        ensures
            final(self).wf(),
            final(self)@ == old(self)@.recalled(earlier),
    {
        let n: usize = self.history.len();
        self.history_nav_index = match self.history_nav_index {
            None => if earlier && n > 0 {
                Some(n - 1)
            } else {
                None
            },
            Some(i) => if earlier {
                Some(if i > 0 {
                    i - 1
                } else {
                    0
                })
            } else if i + 1 < n {
                Some(i + 1)
            } else {
                None
            },
        };
        self.query = match self.history_nav_index {
            Some(i) => owned(self.history[i].as_str()),
            None => String::new(),
        };
        self.current_match_index = 0;
        proof {
            assert(self@ =~= old(self)@.recalled(earlier));
        }
    }

    /// The query asked for before the one in the field.
    pub fn history_prev(&mut self)
        requires
            old(self).wf(),
        ensures
            final(self).wf(),
            final(self)@ == old(self)@.recalled(true),
    {
        self.recall(true);
    }

    /// The query asked for after the one in the field.
    pub fn history_next(&mut self)
        requires
            old(self).wf(),
        ensures
            final(self).wf(),
            final(self)@ == old(self)@.recalled(false),
    {
        self.recall(false);
    }

    /// Ends the search. Its query is remembered.
    pub fn close(&mut self)
        requires
            old(self).wf(),
        ensures
            final(self).wf(),
            final(self)@ == old(self)@.closed(),
    {
        self.remember();
        self.matches = Vec::new();
        self.current_match_index = 0;
        self.history_nav_index = None;
        proof {
            assert(self@ =~= old(self)@.closed());
        }
    }

    /// Puts another query into the field.
    pub fn set_query(&mut self, query: String)
        requires
            old(self).wf(),
        ensures
            final(self).wf(),
            final(self)@ == old(self)@.asking(query@),
    {
        self.query = query;
        self.history_nav_index = None;
        self.current_match_index = 0;
        proof {
            assert(self@ =~= old(self)@.asking(query@));
        }
    }

    /// A key changes the search; `text` is what the key types.
    pub fn press(&mut self, key: SearchKey, text: &str) -> (then: SearchFollowUp)
        requires
            old(self).wf(),
        ensures
            final(self).wf(),
            final(self)@ == old(self)@.keyed(key, text@),
            then == follow_up(key),
    {
        match key {
            SearchKey::Close => {
                self.close();
                SearchFollowUp { find: false, reveal: false }
            },
            SearchKey::Next => {
                self.next_match();
                SearchFollowUp { find: false, reveal: true }
            },
            SearchKey::Previous => {
                self.prev_match();
                SearchFollowUp { find: false, reveal: true }
            },
            SearchKey::Shorten => {
                self.query = without_last(self.query.as_str());
                self.history_nav_index = None;
                proof {
                    assert(self@ =~= old(self)@.keyed(key, text@));
                }
                SearchFollowUp { find: true, reveal: false }
            },
            SearchKey::HistoryPrevious => {
                self.history_prev();
                SearchFollowUp { find: true, reveal: true }
            },
            SearchKey::HistoryNext => {
                self.history_next();
                SearchFollowUp { find: true, reveal: true }
            },
            SearchKey::ToggleRegex => {
                self.use_regex = !self.use_regex;
                proof {
                    assert(self@ =~= old(self)@.keyed(key, text@));
                }
                SearchFollowUp { find: true, reveal: true }
            },
            SearchKey::ToggleCase => {
                self.case_sensitive = !self.case_sensitive;
                proof {
                    assert(self@ =~= old(self)@.keyed(key, text@));
                }
                SearchFollowUp { find: true, reveal: true }
            },
            SearchKey::Type => {
                let typed = visible_text(text);
                let mut query = owned(self.query.as_str());
                append_text(&mut query, typed.as_str());
                self.set_query(query);
                SearchFollowUp { find: true, reveal: true }
            },
            SearchKey::Swallow => SearchFollowUp { find: false, reveal: false },
        }
    }

    /// Keeps what was found.
    pub fn take_found(&mut self, found: Result<Vec<SearchMatch>, String>)
        requires
            old(self).wf(),
        ensures
            final(self).wf(),
            final(self)@ == old(self)@.having_found(found_view(found)),
    {
        match found {
            Ok(matches) => {
                self.matches = matches;
                self.error_message = None;
            },
            Err(error) => {
                self.matches = Vec::new();
                self.error_message = Some(error);
            },
        }
        if self.current_match_index >= self.matches.len() {
            self.current_match_index = 0;
        }
        proof {
            assert(self@ =~= old(self)@.having_found(found_view(found)));
        }
    }

    /// Finds the matches of the query in some lines.
    pub fn find(&mut self, lines: &Vec<Vec<TerminalCell>>)
        requires
            old(self).wf(),
        ensures
            final(self).wf(),
            final(self)@ == old(self)@.having_found(
                search_of(
                    old(self)@.query,
                    old(self)@.use_regex,
                    old(self)@.case_sensitive,
                    rows_of(lines@),
                ),
            ),
    {
        let found = search_lines(
            lines,
            self.query.as_str(),
            self.use_regex,
            self.case_sensitive,
        );
        self.take_found(found);
    }

    /// The matches among `rows` lines from `start` on, by the line of the view.
    pub fn visible_matches(&self, start: usize, rows: usize) -> (shown: Vec<SearchMatch>)
        ensures
            shown@ == in_view(self@.matches, start, rows),
    {
        let end: usize = start.saturating_add(rows);
        let mut shown: Vec<SearchMatch> = Vec::new();
        let mut i: usize = 0;
        proof {
            assert(self.matches@.subrange(0, 0) =~= Seq::empty());
            assert(shown@ =~= in_view(self.matches@.subrange(0, 0), start, rows));
        }
        while i < self.matches.len()
            invariant
                i <= self.matches@.len(),
                end == (if start + rows < usize::MAX {
                    start + rows
                } else {
                    usize::MAX as int
                }),
                shown@ == in_view(self.matches@.subrange(0, i as int), start, rows),
            decreases self.matches@.len() - i,
        {
            proof {
                let some = self.matches@.subrange(0, i + 1);
                assert(some.drop_last() =~= self.matches@.subrange(0, i as int));
                assert(some.last() == self.matches@[i as int]);
            }
            let m = self.matches[i];
            if m.line >= start && m.line < end {
                shown.push(
                    SearchMatch { line: m.line - start, col_start: m.col_start, col_end: m.col_end },
                );
            }
            i = i + 1;
        }
        proof {
            assert(self.matches@.subrange(0, i as int) =~= self.matches@);
        }
        shown
    }

    /// Where among `rows` lines from `start` on the current match starts.
    pub fn visible_current(&self, start: usize, rows: usize) -> (place: Option<(usize, usize)>)
        ensures
            place == (match self@.current() {
                Some(m) => if in_sight(m.line, start, rows) {
                    Some(((m.line - start) as usize, m.col_start))
                } else {
                    None
                },
                None => None,
            }),
    {
        let end: usize = start.saturating_add(rows);
        match self.current_match() {
            Some(m) => if m.line >= start && m.line < end {
                Some((m.line - start, m.col_start))
            } else {
                None
            },
            None => None,
        }
    }

    /// What the search bar says of the matches.
    pub fn status_text(&self) -> (text: String)
        requires
            self.wf(),
        ensures
            text@ == self@.status(),
    {
        match &self.error_message {
            Some(error) => owned(error.as_str()),
            None => if self.matches.len() > 0 {
                match_text(self.current_match_index, self.matches.len())
            } else if self.query.as_str().unicode_len() > 0 {
                owned("No matches")
            } else {
                String::new()
            },
        }
    }
}

/// A step forward and a step back, in either order, end on the match that they started
/// from.
pub proof fn steps_undo_each_other(search: SearchModel, forward: bool)
    requires
        search.wf(),
    ensures
        search.stepped(forward).stepped(!forward).current() == search.current(),
{
}

/// The query that a search was closed with is the first that the history brings back.
pub proof fn a_query_is_remembered(search: SearchModel)
    requires
        search.wf(),
        search.query.len() > 0,
    ensures
        search.closed().wf(),
        search.closed().history.last() == search.query,
        search.closed().asking(Seq::empty()).recalled(true).query == search.query,
{
}

/// Where a character of the text starts, or the line ends.
spec fn column_of(cells: Seq<TerminalCell>, k: int) -> int {
    if k < text_columns(cells).len() {
        text_columns(cells)[k] as int
    } else {
        cells.len() as int
    }
}

proof fn lemma_text_before(cells: Seq<TerminalCell>, k: int)
    requires
        cells.len() <= usize::MAX,
        0 <= k <= line_text(cells).len(),
    ensures
        0 <= column_of(cells, k) <= cells.len(),
        line_text(cells.subrange(0, column_of(cells, k))) == line_text(cells).subrange(0, k),
    decreases cells.len(),
{
    lemma_columns(cells);
    let c = column_of(cells, k);
    if k == text_columns(cells).len() {
        assert(cells.subrange(0, c) =~= cells);
        assert(line_text(cells).subrange(0, k) =~= line_text(cells));
    } else {
        let init = cells.drop_last();
        lemma_columns(init);
        if k < text_columns(init).len() {
            lemma_text_before(init, k);
            assert(cells.subrange(0, c) =~= init.subrange(0, c));
            assert(line_text(cells).subrange(0, k) =~= line_text(init).subrange(0, k));
        } else {
            assert(cells.subrange(0, c) =~= init);
            assert(line_text(cells).subrange(0, k) =~= line_text(init));
        }
    }
}

proof fn lemma_text_adds(a: Seq<TerminalCell>, b: Seq<TerminalCell>)
    ensures
        line_text(a + b) == line_text(a) + line_text(b),
    decreases b.len(),
{
    if b.len() == 0 {
        assert(a + b =~= a);
        assert(line_text(a) + line_text(b) =~= line_text(a));
    } else {
        lemma_text_adds(a, b.drop_last());
        assert((a + b).drop_last() =~= a + b.drop_last());
        assert(line_text(a + b) =~= line_text(a) + line_text(b));
    }
}

/// The columns of a match hold what was found, and no character less or more: whether or not
/// wide characters stand before it or in it.
pub proof fn a_match_covers_what_was_found(
    line: usize,
    cells: Seq<TerminalCell>,
    found: (Seq<char>, Seq<char>),
)
    requires
        cells.len() <= usize::MAX,
        (found.0 + found.1).is_prefix_of(line_text(cells)),
        found.1.len() > 0,
    ensures
        ({
            let m = match_in(line as int, cells, found);
            &&& m.line == line
            &&& m.col_start < m.col_end <= cells.len()
            &&& line_text(cells.subrange(0, m.col_start as int)) == found.0
            &&& line_text(cells.subrange(m.col_start as int, m.col_end as int)) == found.1
        }),
{
    let m = match_in(line as int, cells, found);
    let first = found.0.len() as int;
    let behind = first + found.1.len();
    lemma_columns(cells);
    lemma_text_before(cells, first);
    lemma_text_before(cells, behind);
    let a = m.col_start as int;
    let b = m.col_end as int;
    assert(a == column_of(cells, first) && b == column_of(cells, behind));
    let text = line_text(cells);
    let both = found.0 + found.1;
    assert(both == text.subrange(0, behind));
    assert(text.subrange(0, first) =~= both.subrange(0, first));
    assert(both.subrange(0, first) =~= found.0);
    assert(cells.subrange(0, a) + cells.subrange(a, b) =~= cells.subrange(0, b));
    lemma_text_adds(cells.subrange(0, a), cells.subrange(a, b));
    assert(found.0 + line_text(cells.subrange(a, b)) == found.0 + found.1);
    assert(line_text(cells.subrange(a, b)) =~= both.subrange(first, behind));
    assert(both.subrange(first, behind) =~= found.1);
}

/// Every match that is not empty is told, with its line and in order, and no other.
pub proof fn matches_are_told_in_order(
    line: int,
    cells: Seq<TerminalCell>,
    found: Seq<(Seq<char>, Seq<char>)>,
    k: int,
)
    requires
        forall|i: int| 0 <= i < found.len() ==> (#[trigger] found[i]).1.len() > 0,
        0 <= k < found.len(),
    ensures
        matches_in(line, cells, found).len() == found.len(),
        matches_in(line, cells, found)[k] == match_in(line, cells, found[k]),
    decreases found.len(),
{
    let init = found.drop_last();
    assert forall|i: int| 0 <= i < init.len() implies (#[trigger] init[i]).1.len() > 0 by {
        assert(init[i] == found[i]);
    }
    assert(found[found.len() - 1].1.len() > 0);
    if init.len() > 0 {
        let j = if k < init.len() {
            k
        } else {
            0
        };
        matches_are_told_in_order(line, cells, init, j);
        assert(init[j] == found[j]);
    } else {
        assert(matches_in(line, cells, init).len() == 0);
    }
}

/// A step forward goes to the next match below, and behind the last to the first; a step back
/// goes to the one before, and before the first to the last. No match is lost.
pub proof fn steps_go_through_the_matches(search: SearchModel)
    requires
        search.wf(),
        search.matches.len() > 0,
    ensures
        ({
            let n = search.matches.len() as int;
            let i = search.current_match_index;
            let next = search.stepped(true);
            let before = search.stepped(false);
            &&& next.matches == search.matches && before.matches == search.matches
            &&& next.current_match_index == (if i == n - 1 {
                0
            } else {
                i + 1
            })
            &&& before.current_match_index == (if i == 0 {
                n - 1
            } else {
                i - 1
            })
            &&& next.current() == Some(search.matches[next.current_match_index])
            &&& next.query == search.query
        }),
{
}

/// Going back through the history brings the latest query first and then the ones before
/// it; going forward comes back by the same queries.
pub proof fn the_history_is_gone_through_in_order(search: SearchModel, i: int)
    requires
        search.wf(),
        0 < i < search.history.len(),
    ensures
        search.history_nav_index is None ==> search.recalled(true).query == search.history.last(),
        search.history_nav_index == Some(i) ==> {
            &&& search.recalled(true).query == search.history[i - 1]
            &&& search.recalled(true).history_nav_index == Some(i - 1)
            &&& search.recalled(true).recalled(false).query == search.history[i]
        },
        search.recalled(true).history == search.history,
{
}

proof fn lemma_in_view(matches: Seq<SearchMatch>, start: usize, rows: usize)
    requires
        start + rows < usize::MAX,
    ensures
        forall|m: SearchMatch| #[trigger]
            in_view(matches, start, rows).contains(m) <==> 0 <= m.line < rows && matches.contains(
                SearchMatch { line: (m.line + start) as usize, ..m },
            ),
    decreases matches.len(),
{
    if matches.len() > 0 {
        let init = matches.drop_last();
        let last = matches.last();
        lemma_in_view(init, start, rows);
        let above = in_view(init, start, rows);
        let all = in_view(matches, start, rows);
        assert(matches =~= init.push(last));
        assert forall|m: SearchMatch| #[trigger]
            all.contains(m) <==> 0 <= m.line < rows && matches.contains(
            SearchMatch { line: (m.line + start) as usize, ..m },
        ) by {
            let moved = SearchMatch { line: (m.line + start) as usize, ..m };
            let shown = SearchMatch { line: (last.line - start) as usize, ..last };
            assert(matches.contains(moved) <==> init.contains(moved) || moved == last) by {
                if init.contains(moved) {
                    let k = choose|k: int| 0 <= k < init.len() && init[k] == moved;
                    assert(matches[k] == moved);
                }
                if matches.contains(moved) && moved != last {
                    let k = choose|k: int| 0 <= k < matches.len() && matches[k] == moved;
                    assert(init[k] == moved);
                }
                if moved == last {
                    assert(matches[matches.len() - 1] == moved);
                }
            }
            if in_sight(last.line, start, rows) {
                assert(all.contains(m) <==> above.contains(m) || m == shown) by {
                    if above.contains(m) {
                        let k = choose|k: int| 0 <= k < above.len() && above[k] == m;
                        assert(all[k] == m);
                    }
                    if all.contains(m) && m != shown {
                        let k = choose|k: int| 0 <= k < all.len() && all[k] == m;
                        assert(above[k] == m);
                    }
                    if m == shown {
                        assert(all[all.len() - 1] == m);
                    }
                }
                if 0 <= m.line < rows {
                    assert(m == shown <==> moved == last);
                }
            } else if 0 <= m.line < rows {
                assert(moved != last);
            }
        }
    }
}

/// The matches in sight are those on the lines of the view, each counted from the view's
/// first line.
pub proof fn matches_in_sight_are_shown(matches: Seq<SearchMatch>, start: usize, rows: usize)
    requires
        start + rows < usize::MAX,
    ensures
        forall|m: SearchMatch| #[trigger]
            in_view(matches, start, rows).contains(m) <==> 0 <= m.line < rows && matches.contains(
                SearchMatch { line: (m.line + start) as usize, ..m },
            ),
{
    lemma_in_view(matches, start, rows);
}

/// What the keys of a search do to it: what is typed comes behind the query, Shorten takes its
/// last character, the two toggles change how it looks and nothing else, and closing it
/// leaves no match.
pub proof fn keys_change_the_search(search: SearchModel, text: Seq<char>)
    requires
        search.wf(),
        visible(text) == text,
    ensures
        search.keyed(SearchKey::Type, text).query == search.query + text,
        search.query.len() > 0 ==> search.keyed(SearchKey::Shorten, text).query
            == search.query.drop_last(),
        search.keyed(SearchKey::ToggleRegex, text) == (SearchModel {
            use_regex: !search.use_regex,
            ..search
        }),
        search.keyed(SearchKey::ToggleCase, text) == (SearchModel {
            case_sensitive: !search.case_sensitive,
            ..search
        }),
        search.keyed(SearchKey::Close, text).matches.len() == 0,
        search.keyed(SearchKey::Next, text) == search.stepped(true),
        search.keyed(SearchKey::Previous, text) == search.stepped(false),
        search.keyed(SearchKey::HistoryPrevious, text) == search.recalled(true),
        search.keyed(SearchKey::HistoryNext, text) == search.recalled(false),
        search.keyed(SearchKey::Swallow, text) == search,
{
}

/// What is found replaces what was found before. The search says which match is the current
/// one, counted from one, and how many there are; or that there is none; or what is wrong
/// with the query.
pub proof fn what_was_found_is_told(
    search: SearchModel,
    matches: Seq<SearchMatch>,
    error: Seq<char>,
)
    requires
        search.wf(),
        search.query.len() > 0,
    ensures
        ({
            let found = search.having_found(Ok(matches));
            &&& found.matches == matches
            &&& found.error_message is None
            &&& search.current_match_index < matches.len() ==> found.current_match_index
                == search.current_match_index
            &&& matches.len() > 0 ==> found.status() == decimal_text(
                (found.current_match_index + 1) as nat,
            ) + seq!['/'] + decimal_text(matches.len())
            &&& matches.len() == 0 ==> found.status() == "No matches"@
        }),
        search.having_found(Err(error)).status() == error,
        search.having_found(Err(error)).matches.len() == 0,
{
    reveal_strlit("/");
    assert("/"@ =~= seq!['/']);
}

} // verus!
