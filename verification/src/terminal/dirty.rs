//! Which lines have changed since they were last drawn.

use vstd::prelude::*;

verus! {

/// The lines `first ..= last`.
pub open spec fn line_range(first: int, last: int) -> Set<int> {
    Set::new(|r: int| first <= r <= last)
}

/// Changed lines, as ranges with both ends included, and the columns looked at.
#[derive(Clone, Debug)]
pub struct DirtyRegion {
    pub rows: Vec<(usize, usize)>,
    pub col_start: usize,
    pub col_end: usize,
}

/// The lines that some ranges cover.
pub open spec fn covered(ranges: Seq<(usize, usize)>) -> Set<int> {
    Set::new(
        |r: int|
            exists|i: int| 0 <= i < ranges.len() && (#[trigger] ranges[i]).0 <= r <= ranges[i].1,
    )
}

/// Ranges with one more line marked: a line right below the last range extends that range.
pub open spec fn with_line(ranges: Seq<(usize, usize)>, row: usize) -> Seq<(usize, usize)> {
    if ranges.len() > 0 && ranges.last().1 == row - 1 {
        ranges.update(ranges.len() - 1, (ranges.last().0, row))
    } else {
        ranges.push((row, row))
    }
}

/// Ranges with the lines `start ..= end` marked, one after the other.
pub open spec fn with_lines(ranges: Seq<(usize, usize)>, start: usize, end: usize) -> Seq<
    (usize, usize),
>
    decreases end - start + 1,
{
    if start > end {
        ranges
    } else if start == end {
        with_line(ranges, end)
    } else {
        with_line(with_lines(ranges, start, (end - 1) as usize), end)
    }
}

impl View for DirtyRegion {
    type V = Set<int>;

    open spec fn view(&self) -> Set<int> {
        covered(self.rows@)
    }
}

impl DirtyRegion {
    /// No range is reversed.
    pub open spec fn wf(&self) -> bool {
        forall|i: int| 0 <= i < self.rows@.len() ==> (#[trigger] self.rows@[i]).0 <= self.rows@[i].1
    }

    /// Nothing is marked; all `cols` columns are looked at.
    pub fn new(cols: usize) -> (region: Self)
        ensures
            region.wf(),
            region.rows@ == Seq::<(usize, usize)>::empty(),
            region@ == Set::<int>::empty(),
            region.col_start == 0,
            region.col_end == cols,
    {
        let region = DirtyRegion { rows: Vec::new(), col_start: 0, col_end: cols };
        proof {
            assert(region@ =~= Set::<int>::empty());
        }
        region
    }

    /// Marks one line. A line right below the last range extends that range.
    pub fn mark_row(&mut self, row: usize)
        requires
            old(self).wf(),
        ensures
            final(self).wf(),
            final(self).rows@ == with_line(old(self).rows@, row),
            final(self)@ == old(self)@.insert(row as int),
            final(self).col_start == old(self).col_start,
            final(self).col_end == old(self).col_end,
    {
        let n: usize = self.rows.len();
        let ghost before = self.rows@;
        if n > 0 && row > 0 && self.rows[n - 1].1 == row - 1 {
            let first: usize = self.rows[n - 1].0;
            self.rows.set(n - 1, (first, row));
            proof {
                let after = self.rows@;
                assert(after == before.update(n - 1, (first, row)));
                assert forall|r: int| covered(after).contains(r) == covered(before).insert(
                    row as int,
                ).contains(r) by {
                    if covered(after).contains(r) {
                        let i = choose|i: int|
                            0 <= i < after.len() && (#[trigger] after[i]).0 <= r <= after[i].1;
                        if i < n - 1 {
                            assert(before[i].0 <= r <= before[i].1);
                        } else if r != row {
                            assert(before[n - 1].0 <= r <= before[n - 1].1);
                        }
                    }
                    if covered(before).contains(r) {
                        let i = choose|i: int|
                            0 <= i < before.len() && (#[trigger] before[i]).0 <= r <= before[i].1;
                        assert(after[i].0 <= r <= after[i].1);
                    }
                    if r == row {
                        assert(after[n - 1].0 <= r <= after[n - 1].1);
                    }
                }
                assert(covered(after) =~= covered(before).insert(row as int));
            }
            return;
        }
        self.rows.push((row, row));
        proof {
            let after = self.rows@;
            assert forall|r: int| covered(after).contains(r) == covered(before).insert(
                row as int,
            ).contains(r) by {
                if covered(after).contains(r) {
                    let i = choose|i: int|
                        0 <= i < after.len() && (#[trigger] after[i]).0 <= r <= after[i].1;
                    if i < n {
                        assert(before[i].0 <= r <= before[i].1);
                    }
                }
                if covered(before).contains(r) {
                    let i = choose|i: int|
                        0 <= i < before.len() && (#[trigger] before[i]).0 <= r <= before[i].1;
                    assert(after[i].0 <= r <= after[i].1);
                }
                if r == row {
                    assert(after[n as int].0 <= r <= after[n as int].1);
                }
            }
            assert(covered(after) =~= covered(before).insert(row as int));
        }
    }

    /// Marks the lines `start ..= end`.
    pub fn mark_rows(&mut self, start: usize, end: usize)
        requires
            old(self).wf(),
        ensures
            final(self).wf(),
            final(self).rows@ == with_lines(old(self).rows@, start, end),
            final(self)@ == old(self)@.union(line_range(start as int, end as int)),
            final(self).col_start == old(self).col_start,
            final(self).col_end == old(self).col_end,
    {
        if start > end {
            proof {
                assert(self@ =~= self@.union(line_range(start as int, end as int)));
            }
            return;
        }
        let mut row: usize = start;
        self.mark_row(row);
        proof {
            assert(self@ =~= old(self)@.union(line_range(start as int, start as int)));
        }
        while row < end
            invariant
                start <= row <= end,
                self.wf(),
                self.rows@ == with_lines(old(self).rows@, start, row),
                self@ == old(self)@.union(line_range(start as int, row as int)),
                self.col_start == old(self).col_start,
                self.col_end == old(self).col_end,
            decreases end - row,
        {
            row = row + 1;
            self.mark_row(row);
            proof {
                assert(self@ =~= old(self)@.union(line_range(start as int, row as int)));
            }
        }
    }

    /// Marks all of `rows` lines and nothing else. Line zero counts even where
    /// there are no lines.
    pub fn mark_all(&mut self, rows: usize)
        ensures
            final(self).wf(),
            final(self).rows@ == seq![(0usize, (if rows == 0 {
                0
            } else {
                rows - 1
            }) as usize)],
            final(self)@ == line_range(
                0,
                if rows == 0 {
                    0
                } else {
                    rows - 1
                },
            ),
            final(self).col_start == old(self).col_start,
            final(self).col_end == old(self).col_end,
    {
        self.rows.clear();
        let last: usize = rows.saturating_sub(1);
        self.rows.push((0, last));
        proof {
            assert(self.rows@[0] == (0usize, last));
            assert(self@ =~= line_range(0, last as int));
        }
    }

    /// Forgets all marks.
    pub fn clear(&mut self)
        ensures
            final(self).wf(),
            final(self).rows@ == Seq::<(usize, usize)>::empty(),
            final(self)@ == Set::<int>::empty(),
            final(self).col_start == old(self).col_start,
            final(self).col_end == old(self).col_end,
    {
        self.rows.clear();
        proof {
            assert(self@ =~= Set::<int>::empty());
        }
    }
}

} // verus!
