//! Selections of rows, and the rows of a range that a selection selects.

use roaring::RoaringTreemap;
use std::ops::Range;
use vstd::prelude::*;

use crate::scan::treemap::treemap_rows;

verus! {

/// Whether numbers stand in ascending order.
pub open spec fn ascending(rows: Seq<u64>) -> bool {
    forall|i: int, j: int| 0 <= i <= j < rows.len() ==> rows[i] <= rows[j]
}

/// The number of leading numbers that are below `bound`, or at most `bound` where `or_equal`, in
/// an ascending list.
pub(crate) fn partition_point(rows: &Vec<u64>, bound: u64, or_equal: bool) -> (r: usize)
    requires
        ascending(rows@),
    ensures
        r <= rows@.len(),
        forall|i: int|
            0 <= i < r ==> (#[trigger] rows@[i]) < bound || (or_equal && rows@[i] == bound),
        forall|i: int|
            r <= i < rows@.len() ==> bound < (#[trigger] rows@[i]) || (!or_equal && rows@[i]
                == bound),
{
    let mut low: usize = 0;
    let mut high: usize = rows.len();
    while low < high
        invariant
            low <= high <= rows@.len(),
            ascending(rows@),
            forall|i: int|
                0 <= i < low ==> (#[trigger] rows@[i]) < bound || (or_equal && rows@[i] == bound),
            forall|i: int|
                high <= i < rows@.len() ==> bound < (#[trigger] rows@[i]) || (!or_equal && rows@[i]
                    == bound),
        decreases high - low,
    {
        let middle: usize = low + (high - low) / 2;
        let row = rows[middle];
        if row < bound || (or_equal && row == bound) {
            low = middle + 1;
        } else {
            high = middle;
        }
    }
    low
}

/// Which rows of a source to read.
#[derive(Debug)]
pub enum Selection {
    /// Every row.
    All,
    /// The rows of an ascending list.
    IncludeByIndex(Vec<u64>),
    /// The rows that are not in an ascending list.
    ExcludeByIndex(Vec<u64>),
    /// The rows of a set.
    IncludeRoaring(RoaringTreemap),
    /// The rows that are not in a set.
    ExcludeRoaring(RoaringTreemap),
}

impl Selection {
    /// Whether `row` is selected.
    pub open spec fn selects(self, row: u64) -> bool {
        match self {
            Selection::All => true,
            Selection::IncludeByIndex(rows) => rows@.contains(row),
            Selection::ExcludeByIndex(rows) => !rows@.contains(row),
            Selection::IncludeRoaring(rows) => treemap_rows(rows).contains(row),
            Selection::ExcludeRoaring(rows) => !treemap_rows(rows).contains(row),
        }
    }

    /// Whether lists of rows are ascending.
    pub open spec fn wf(self) -> bool {
        match self {
            Selection::IncludeByIndex(rows) => ascending(rows@),
            Selection::ExcludeByIndex(rows) => ascending(rows@),
            _ => true,
        }
    }

    /// Whether two selections select the same rows.
    pub open spec fn same(self, other: Selection) -> bool {
        forall|row: u64| self.selects(row) == other.selects(row)
    }

    /// Whether `row` is selected.
    pub fn contains(&self, row: u64) -> (r: bool)
        requires
            self.wf(),
        ensures
            r == self.selects(row),
    {
        match self {
            Selection::All => true,
            Selection::IncludeByIndex(rows) => holds_row(rows, row),
            Selection::ExcludeByIndex(rows) => !holds_row(rows, row),
            Selection::IncludeRoaring(rows) => rows.contains(row),
            Selection::ExcludeRoaring(rows) => !rows.contains(row),
        }
    }

    /// Which rows of `range` are selected.
    pub fn row_mask(&self, range: &Range<u64>) -> (r: RowMask)
        requires
            self.wf(),
            range.start <= range.end,
            range.end - range.start <= usize::MAX,
        ensures
            r.range() == *range,
            r.covers(*self),
    {
        let len: usize = (range.end - range.start) as usize;
        let mut mask: Vec<bool> = Vec::new();
        let mut i: usize = 0;
        while i < len
            invariant
                i <= len,
                mask@.len() == i,
                self.wf(),
                range.start + len == range.end,
                forall|j: int|
                    0 <= j < i ==> (#[trigger] mask@[j]) == self.selects((range.start + j) as u64),
            decreases len - i,
        {
            mask.push(self.contains(range.start + i as u64));
            i += 1;
        }
        RowMask { row_offset: range.start, mask }
    }
}

/// Whether `row` is in an ascending list.
fn holds_row(rows: &Vec<u64>, row: u64) -> (r: bool)
    requires
        ascending(rows@),
    ensures
        r == rows@.contains(row),
{
    let at = partition_point(rows, row, false);
    let r = at < rows.len() && rows[at] == row;
    proof {
        if rows@.contains(row) {
            let i = choose|i: int| 0 <= i < rows@.len() && rows@[i] == row;
            assert(at <= i);
            assert(rows@[at as int] <= rows@[i]);
        }
    }
    r
}

impl Clone for Selection {
    fn clone(&self) -> (r: Selection)
        ensures
            r.same(*self),
            self.wf() ==> r.wf(),
    {
        match self {
            Selection::All => Selection::All,
            Selection::IncludeByIndex(rows) => Selection::IncludeByIndex(clone_rows(rows)),
            Selection::ExcludeByIndex(rows) => Selection::ExcludeByIndex(clone_rows(rows)),
            Selection::IncludeRoaring(rows) => Selection::IncludeRoaring(rows.clone()),
            Selection::ExcludeRoaring(rows) => Selection::ExcludeRoaring(rows.clone()),
        }
    }
}

/// A copy of a list of rows.
fn clone_rows(rows: &Vec<u64>) -> (r: Vec<u64>)
    ensures
        r@ == rows@,
{
    let mut copy: Vec<u64> = Vec::new();
    let mut i: usize = 0;
    while i < rows.len()
        invariant
            i <= rows@.len(),
            copy@ == rows@.take(i as int),
        decreases rows@.len() - i,
    {
        copy.push(rows[i]);
        assert(copy@ =~= rows@.take(i + 1));
        i += 1;
    }
    assert(copy@ =~= rows@);
    copy
}

/// Which rows of a range are selected.
#[derive(Debug)]
pub struct RowMask {
    row_offset: u64,
    mask: Vec<bool>,
}

impl RowMask {
    #[verifier::type_invariant]
    spec fn inv(self) -> bool {
        self.row_offset + self.mask@.len() <= u64::MAX
    }

    /// The range.
    pub closed spec fn range(self) -> Range<u64> {
        Range { start: self.row_offset, end: (self.row_offset + self.mask@.len()) as u64 }
    }

    /// Whether the rows of the range at each place from its start are selected.
    pub closed spec fn bits(self) -> Seq<bool> {
        self.mask@
    }

    /// Whether this is the part of a selection that lies in the range.
    pub open spec fn covers(self, selection: Selection) -> bool {
        &&& self.bits().len() == self.range().end - self.range().start
        &&& forall|i: int|
            0 <= i < self.bits().len() ==> (#[trigger] self.bits()[i]) == selection.selects(
                (self.range().start + i) as u64,
            )
    }

    /// The range.
    pub fn row_range(&self) -> (r: Range<u64>)
        ensures
            r == self.range(),
    {
        proof {
            use_type_invariant(self);
        }
        self.row_offset..self.row_offset + self.mask.len() as u64
    }

    /// Whether each row of the range is selected.
    pub fn mask(&self) -> (r: &Vec<bool>)
        ensures
            r@ == self.bits(),
    {
        &self.mask
    }

    /// Whether no row of the range is selected.
    pub fn all_false(&self) -> (r: bool)
        ensures
            r == forall|i: int| 0 <= i < self.bits().len() ==> !self.bits()[i],
    {
        let mut i: usize = 0;
        while i < self.mask.len()
            invariant
                i <= self.mask@.len(),
                forall|j: int| 0 <= j < i ==> !self.mask@[j],
            decreases self.mask@.len() - i,
        {
            if self.mask[i] {
                assert(self.bits()[i as int]);
                return false;
            }
            i += 1;
        }
        true
    }
}

} // verus!
