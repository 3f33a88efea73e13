//! Links on a screen of lines, of which one may go on in the next.

use super::{links_view, Link, LinkDetectionConfig, LinkDetector, LinkModel};
use crate::cell::TerminalCell;
use crate::grid::TerminalGrid;
use crate::terminal::state::lines_view;
use crate::text::{owned, string_of};
use vstd::prelude::*;

verus! {

/// The text of a line.
pub open spec fn row_text(line: Seq<TerminalCell>) -> Seq<char> {
    Seq::new(line.len(), |c: int| line[c].character)
}

/// The last line of the text that goes over line `i`.
pub open spec fn group_end(wrapped: Seq<bool>, i: int) -> int
    decreases wrapped.len() - i,
{
    if i + 1 < wrapped.len() && wrapped[i] {
        group_end(wrapped, i + 1)
    } else {
        i
    }
}

/// The text of the lines `from .. to`.
pub open spec fn group_text(lines: Seq<Seq<TerminalCell>>, from: int, to: int) -> Seq<char>
    decreases to - from,
{
    if from >= to {
        Seq::empty()
    } else {
        group_text(lines, from, to - 1) + row_text(lines[to - 1])
    }
}

/// The part of a link that lies on line `row`, which starts at position `offset` of
/// the text.
pub open spec fn piece_on(link: LinkModel, row: int, offset: int, len: int) -> Option<LinkModel> {
    if link.col_start < offset + len && link.col_end > offset {
        Some(
            LinkModel {
                line: row,
                col_start: if link.col_start > offset {
                    link.col_start - offset
                } else {
                    0
                },
                col_end: if link.col_end < offset + len {
                    link.col_end - offset
                } else {
                    len
                },
                ..link
            },
        )
    } else {
        None
    }
}

/// The parts of a link on the lines `from .. to` of a text.
pub open spec fn pieces(link: LinkModel, lines: Seq<Seq<TerminalCell>>, from: int, to: int) -> Seq<
    LinkModel,
>
    decreases to - from,
{
    if from >= to {
        Seq::empty()
    } else {
        let before = pieces(link, lines, from, to - 1);
        match piece_on(
            link,
            to - 1,
            group_text(lines, from, to - 1).len() as int,
            lines[to - 1].len() as int,
        ) {
            Some(piece) => before.push(piece),
            None => before,
        }
    }
}

/// The parts of some links on the lines `from .. to` of a text.
pub open spec fn all_pieces(
    links: Seq<LinkModel>,
    lines: Seq<Seq<TerminalCell>>,
    from: int,
    to: int,
) -> Seq<LinkModel>
    decreases links.len(),
{
    if links.len() == 0 {
        Seq::empty()
    } else {
        all_pieces(links.drop_last(), lines, from, to) + pieces(links.last(), lines, from, to)
    }
}

impl LinkDetectionConfig {
    /// The links of the first `n` lines, each line by itself.
    pub open spec fn links_in_lines(&self, lines: Seq<Seq<TerminalCell>>, n: int) -> Seq<LinkModel>
        decreases n,
    {
        if n <= 0 {
            Seq::empty()
        } else {
            self.links_in_lines(lines, n - 1) + self.links_in(row_text(lines[n - 1]), n - 1)
        }
    }

    /// The links from line `i` on, where `wrapped` says which lines go on in the next.
    pub open spec fn links_in_text(
        &self,
        lines: Seq<Seq<TerminalCell>>,
        wrapped: Seq<bool>,
        i: int,
    ) -> Seq<LinkModel>
        decreases lines.len() - i,
    {
        let end = group_end(wrapped, i);
        if i >= lines.len() || end < i || end >= lines.len() {
            Seq::empty()
        } else {
            all_pieces(
                self.links_in(group_text(lines, i, end + 1), 0),
                lines,
                i,
                end + 1,
            ) + self.links_in_text(lines, wrapped, end + 1)
        }
    }
}

/// The end of a text lies on the screen.
proof fn lemma_group_end(wrapped: Seq<bool>, i: int)
    requires
        0 <= i < wrapped.len(),
    ensures
        i <= group_end(wrapped, i) < wrapped.len(),
    decreases wrapped.len() - i,
{
    if i + 1 < wrapped.len() && wrapped[i] {
        lemma_group_end(wrapped, i + 1);
    }
}

/// A part of a text is no longer than the whole.
proof fn lemma_group_length(lines: Seq<Seq<TerminalCell>>, from: int, middle: int, to: int)
    requires
        from <= middle <= to,
    ensures
        group_text(lines, from, middle).len() <= group_text(lines, from, to).len(),
    decreases to - middle,
{
    if middle < to {
        lemma_group_length(lines, from, middle, to - 1);
    }
}

/// Adds the text of a line.
fn append_row(text: &mut Vec<char>, line: &[TerminalCell])
    ensures
        final(text)@ == old(text)@ + row_text(line@),
{
    let mut c: usize = 0;
    while c < line.len()
        invariant
            c <= line@.len(),
            text@ == old(text)@ + row_text(line@.subrange(0, c as int)),
        decreases line@.len() - c,
    {
        proof {
            assert((old(text)@ + row_text(line@.subrange(0, c as int))).push(
                line@[c as int].character,
            ) =~= old(text)@ + row_text(line@.subrange(0, c + 1)));
        }
        text.push(line[c].character);
        c = c + 1;
    }
    proof {
        assert(line@.subrange(0, c as int) =~= line@);
    }
}

/// Adds links behind others.
fn append_links(all: &mut Vec<Link>, links: Vec<Link>)
    ensures
        links_view(final(all)@) == links_view(old(all)@) + links_view(links@),
{
    let mut rest = links;
    let ghost before = all@;
    all.append(&mut rest);
    proof {
        assert(links_view(all@) =~= links_view(before) + links_view(links@));
    }
}

/// The part of a link on one line.
fn piece_of(link: &Link, row: usize, offset: usize, len: usize) -> (piece: Option<Link>)
    requires
        offset + len <= usize::MAX,
    ensures
        piece is Some <==> piece_on(link@, row as int, offset as int, len as int) is Some,
        piece matches Some(p) ==> piece_on(link@, row as int, offset as int, len as int) == Some(
            p@,
        ),
{
    if link.col_start < offset + len && link.col_end > offset {
        let col_start: usize = link.col_start.saturating_sub(offset);
        let col_end: usize = if link.col_end < offset + len {
            link.col_end - offset
        } else {
            len
        };
        Some(
            Link {
                line: row,
                col_start,
                col_end,
                link_type: link.link_type,
                text: owned(link.text.as_str()),
            },
        )
    } else {
        None
    }
}

impl LinkDetector {
    /// The links of a grid, each line by itself.
    pub fn detect_all_links(&self, grid: &TerminalGrid) -> (links: Vec<Link>)
        requires
            grid.wf(),
        ensures
            links_view(links@) == self.config.links_in_lines(
                grid@.lines,
                grid@.lines.len() as int,
            ),
    {
        let mut all: Vec<Link> = Vec::new();
        let mut r: usize = 0;
        let rows: usize = grid.rows();
        proof {
            assert(links_view(all@) =~= Seq::empty());
        }
        while r < rows
            invariant
                grid.wf(),
                r <= rows == grid@.lines.len(),
                links_view(all@) == self.config.links_in_lines(grid@.lines, r as int),
            decreases rows - r,
        {
            let mut text: Vec<char> = Vec::new();
            append_row(&mut text, grid.row(r));
            proof {
                assert(text@ =~= row_text(grid@.lines[r as int]));
            }
            let line = string_of(text.as_slice());
            append_links(&mut all, self.detect_links_in_line(line.as_str(), r));
            r = r + 1;
        }
        all
    }

    /// The links of some lines, each by itself.
    pub fn detect_links_in_visible_cells(&self, visible_cells: &[Vec<TerminalCell>]) -> (links: Vec<
        Link,
    >)
        ensures
            links_view(links@) == self.config.links_in_lines(
                lines_view(visible_cells@),
                visible_cells@.len() as int,
            ),
    {
        let ghost lines = lines_view(visible_cells@);
        let mut all: Vec<Link> = Vec::new();
        let mut r: usize = 0;
        proof {
            assert(links_view(all@) =~= Seq::empty());
        }
        while r < visible_cells.len()
            invariant
                r <= visible_cells@.len(),
                lines == lines_view(visible_cells@),
                links_view(all@) == self.config.links_in_lines(lines, r as int),
            decreases visible_cells@.len() - r,
        {
            let mut text: Vec<char> = Vec::new();
            append_row(&mut text, visible_cells[r].as_slice());
            proof {
                assert(text@ =~= row_text(lines[r as int]));
            }
            let line = string_of(text.as_slice());
            append_links(&mut all, self.detect_links_in_line(line.as_str(), r));
            r = r + 1;
        }
        all
    }

    /// Adds the parts of a link on the lines `from .. to` of a text.
    fn add_pieces(
        all: &mut Vec<Link>,
        link: &Link,
        visible_cells: &[Vec<TerminalCell>],
        from: usize,
        to: usize,
    )
        requires
            from <= to <= visible_cells@.len(),
            group_text(lines_view(visible_cells@), from as int, to as int).len() <= usize::MAX,
        ensures
            links_view(final(all)@) == links_view(old(all)@) + pieces(
                link@,
                lines_view(visible_cells@),
                from as int,
                to as int,
            ),
    {
        let ghost lines = lines_view(visible_cells@);
        let ghost before = links_view(all@);
        let mut offset: usize = 0;
        let mut row: usize = from;
        proof {
            assert(before + pieces(link@, lines, from as int, from as int) =~= before);
        }
        while row < to
            invariant
                from <= row <= to <= visible_cells@.len(),
                lines == lines_view(visible_cells@),
                group_text(lines, from as int, to as int).len() <= usize::MAX,
                offset == group_text(lines, from as int, row as int).len(),
                links_view(all@) == before + pieces(link@, lines, from as int, row as int),
            decreases to - row,
        {
            let len: usize = visible_cells[row].len();
            proof {
                assert(lines[row as int] == visible_cells@[row as int]@);
                lemma_group_length(lines, from as int, row + 1, to as int);
                assert(group_text(lines, from as int, row + 1).len() == offset + len);
            }
            if let Some(piece) = piece_of(link, row, offset, len) {
                let ghost now = all@;
                all.push(piece);
                proof {
                    assert(links_view(all@) =~= links_view(now).push(piece@));
                    assert((before + pieces(link@, lines, from as int, row as int)).push(piece@)
                        =~= before + pieces(link@, lines, from as int, row + 1));
                }
            }
            offset = offset + len;
            row = row + 1;
        }
    }

    /// Adds the links of the lines `from .. to`, which make up one text.
    fn add_group(
        &self,
        all: &mut Vec<Link>,
        visible_cells: &[Vec<TerminalCell>],
        from: usize,
        to: usize,
    )
        requires
            from <= to <= visible_cells@.len(),
        ensures
            links_view(final(all)@) == links_view(old(all)@) + all_pieces(
                self.config.links_in(
                    group_text(lines_view(visible_cells@), from as int, to as int),
                    0,
                ),
                lines_view(visible_cells@),
                from as int,
                to as int,
            ),
    {
        let ghost lines = lines_view(visible_cells@);
        let ghost before = links_view(all@);
        let mut text: Vec<char> = Vec::new();
        let mut row: usize = from;
        proof {
            assert(text@ =~= group_text(lines, from as int, from as int));
        }
        while row < to
            invariant
                from <= row <= to <= visible_cells@.len(),
                lines == lines_view(visible_cells@),
                text@ == group_text(lines, from as int, row as int),
            decreases to - row,
        {
            proof {
                assert(lines[row as int] == visible_cells@[row as int]@);
            }
            append_row(&mut text, visible_cells[row].as_slice());
            row = row + 1;
        }
        let len: usize = text.len();
        let line = string_of(text.as_slice());
        let links = self.detect_links_in_line(line.as_str(), 0);
        let ghost models = links_view(links@);
        let mut i: usize = 0;
        proof {
            assert(models.subrange(0, 0) =~= Seq::empty());
            assert(before + all_pieces(models.subrange(0, 0), lines, from as int, to as int)
                =~= before);
        }
        while i < links.len()
            invariant
                i <= links@.len(),
                from <= to <= visible_cells@.len(),
                lines == lines_view(visible_cells@),
                models == links_view(links@),
                len == group_text(lines, from as int, to as int).len(),
                links_view(all@) == before + all_pieces(
                    models.subrange(0, i as int),
                    lines,
                    from as int,
                    to as int,
                ),
            decreases links@.len() - i,
        {
            Self::add_pieces(all, &links[i], visible_cells, from, to);
            proof {
                let next = models.subrange(0, i + 1);
                assert(next.drop_last() =~= models.subrange(0, i as int));
                assert(next.last() == links@[i as int]@);
                assert(links_view(all@) =~= before + all_pieces(
                    next,
                    lines,
                    from as int,
                    to as int,
                ));
            }
            i = i + 1;
        }
        proof {
            assert(models.subrange(0, i as int) =~= models);
        }
    }

    /// The links of some lines. `row_wrapped` says which lines go on in the next, so
    /// that a link over several lines is found, and has a part on each of them. Where
    /// it does not fit the lines, each line stands by itself.
    pub fn detect_links_in_visible_cells_with_wrapping(
        &self,
        visible_cells: &[Vec<TerminalCell>],
        row_wrapped: &[bool],
    ) -> (links: Vec<Link>)
        ensures
            links_view(links@) == (if row_wrapped@.len() == 0 || row_wrapped@.len()
                != visible_cells@.len() {
                self.config.links_in_lines(
                    lines_view(visible_cells@),
                    visible_cells@.len() as int,
                )
            } else {
                self.config.links_in_text(lines_view(visible_cells@), row_wrapped@, 0)
            }),
    {
        if row_wrapped.len() == 0 || row_wrapped.len() != visible_cells.len() {
            return self.detect_links_in_visible_cells(visible_cells);
        }
        let ghost lines = lines_view(visible_cells@);
        let ghost whole = self.config.links_in_text(lines, row_wrapped@, 0);
        let n: usize = visible_cells.len();
        let mut all: Vec<Link> = Vec::new();
        let mut from: usize = 0;
        proof {
            assert(links_view(all@) =~= Seq::empty());
            assert(Seq::<LinkModel>::empty() + whole =~= whole);
        }
        while from < n
            invariant
                from <= n == visible_cells@.len() == row_wrapped@.len() == lines.len(),
                lines == lines_view(visible_cells@),
                links_view(all@) + self.config.links_in_text(lines, row_wrapped@, from as int)
                    == whole,
            decreases n - from,
        {
            let mut end: usize = from;
            while end + 1 < n && row_wrapped[end]
                invariant
                    from <= end < n == row_wrapped@.len(),
                    group_end(row_wrapped@, end as int) == group_end(row_wrapped@, from as int),
                decreases n - end,
            {
                end = end + 1;
            }
            let ghost before = links_view(all@);
            self.add_group(&mut all, visible_cells, from, end + 1);
            proof {
                lemma_group_end(row_wrapped@, from as int);
                let group = all_pieces(
                    self.config.links_in(group_text(lines, from as int, end + 1), 0),
                    lines,
                    from as int,
                    end + 1,
                );
                let rest = self.config.links_in_text(lines, row_wrapped@, end + 1);
                assert(before + (group + rest) =~= (before + group) + rest);
            }
            from = end + 1;
        }
        proof {
            assert(links_view(all@) + Seq::<LinkModel>::empty() =~= links_view(all@));
        }
        all
    }
}

/// The part of a link on a line covers exactly the columns whose characters belong to the
/// link, and says the whole link's address.
pub proof fn a_part_covers_what_lies_on_its_line(
    link: LinkModel,
    row: int,
    offset: int,
    len: int,
    c: int,
)
    requires
        link.col_start < link.col_end,
        0 <= c < len,
    ensures
        ({
            let part = piece_on(link, row, offset, len);
            &&& link.col_start <= offset + c < link.col_end <==> part is Some && part->0.col_start
                <= c < part->0.col_end
            &&& part matches Some(p) ==> {
                &&& p.line == row
                &&& p.text == link.text
                &&& p.link_type == link.link_type
                &&& 0 <= p.col_start < p.col_end <= len
            }
        }),
{
}

/// Every line that a link goes over has its part of it.
pub proof fn every_line_has_its_part(
    link: LinkModel,
    lines: Seq<Seq<TerminalCell>>,
    from: int,
    to: int,
    row: int,
)
    requires
        from <= row < to,
    ensures
        ({
            let part = piece_on(
                link,
                row,
                group_text(lines, from, row).len() as int,
                lines[row].len() as int,
            );
            part is Some ==> pieces(link, lines, from, to).contains(part->0)
        }),
    decreases to - from,
{
    let part = piece_on(
        link,
        row,
        group_text(lines, from, row).len() as int,
        lines[row].len() as int,
    );
    let before = pieces(link, lines, from, to - 1);
    let all = pieces(link, lines, from, to);
    if part is Some {
        if row == to - 1 {
            assert(all[all.len() - 1] == part->0);
        } else {
            every_line_has_its_part(link, lines, from, to - 1, row);
            let k = choose|k: int| 0 <= k < before.len() && before[k] == part->0;
            assert(all[k] == part->0);
        }
    }
}

} // verus!
