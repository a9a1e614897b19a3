//! Scans that can be run over different row ranges of one source.

use roaring::RoaringTreemap;
use std::ops::Range;
use vstd::prelude::*;

use crate::dtype::{DType, TypeModel};
use crate::error::Error;
use crate::expr::bound_expression::{BoundExpression, BoundModel};
use crate::scan::selection::{ascending, partition_point, RowMask, Selection};
use crate::scan::treemap::treemap_rows;

verus! {

/// The rows from `start` up to and without `end`.
pub open spec fn span(start: u64, end: u64) -> Range<u64> {
    Range { start, end }
}

/// Whether `row` is in a range.
pub open spec fn in_range(range: Range<u64>, row: u64) -> bool {
    range.start <= row < range.end
}

/// Where the splits of a source are.
#[derive(Debug)]
pub enum Splits {
    /// The boundaries between splits, in ascending order.
    Natural(Vec<u64>),
    /// The splits themselves.
    Ranges(Vec<Range<u64>>),
}

/// The rows that are in both ranges, where no range stands for all rows.
pub open spec fn intersection(left: Option<Range<u64>>, right: Option<Range<u64>>) -> Option<
    Range<u64>,
> {
    match (left, right) {
        (None, _) => right,
        (_, None) => left,
        (Some(l), Some(r)) => Some(
            span(
                if l.start >= r.start {
                    l.start
                } else {
                    r.start
                },
                if l.end <= r.end {
                    l.end
                } else {
                    r.end
                },
            ),
        ),
    }
}

/// The ranges between neighbours in a list of boundaries.
pub open spec fn windows(boundaries: Seq<u64>) -> Seq<Range<u64>> {
    Seq::new(
        if boundaries.len() == 0 {
            0
        } else {
            (boundaries.len() - 1) as nat
        },
        |i: int| span(boundaries[i], boundaries[i + 1]),
    )
}

/// The boundaries of the part of a source that lies in `range`: the ends of the range and what
/// lies strictly between them.
pub open spec fn boundaries_in(boundaries: Seq<u64>, range: Range<u64>) -> Seq<u64> {
    seq![range.start] + boundaries.filter(|x: u64| range.start < x < range.end) + seq![range.end]
}

/// The parts of ranges that lie in `range`, without those that are empty.
pub open spec fn clip(ranges: Seq<Range<u64>>, range: Range<u64>) -> Seq<Range<u64>>
    decreases ranges.len(),
{
    if ranges.len() == 0 {
        Seq::empty()
    } else {
        let clipped = clip(ranges.drop_last(), range);
        match intersection(Some(ranges.last()), Some(range)) {
            Some(part) => if part.start < part.end {
                clipped.push(part)
            } else {
                clipped
            },
            None => clipped,
        }
    }
}

impl Splits {
    /// The ranges to read of the requested rows, where nothing requested stands for all rows.
    pub open spec fn ranges(self, requested: Option<Range<u64>>) -> Seq<Range<u64>> {
        match requested {
            Some(range) => if range.start >= range.end {
                Seq::empty()
            } else {
                match self {
                    Splits::Natural(boundaries) => windows(boundaries_in(boundaries@, range)),
                    Splits::Ranges(ranges) => clip(ranges@, range),
                }
            },
            None => match self {
                Splits::Natural(boundaries) => windows(boundaries@),
                Splits::Ranges(ranges) => ranges@,
            },
        }
    }

    /// Whether boundaries are in ascending order.
    pub open spec fn wf(self) -> bool {
        match self {
            Splits::Natural(boundaries) => ascending(boundaries@),
            Splits::Ranges(_) => true,
        }
    }
}

/// The least and the greatest number in a set that has one.
pub open spec fn extremes(rows: Set<u64>) -> (u64, u64) {
    choose|least: u64, greatest: u64| #[trigger] are_extremes(rows, least, greatest)
}

/// Whether these are the least and the greatest number in a set.
pub open spec fn are_extremes(rows: Set<u64>, least: u64, greatest: u64) -> bool {
    &&& rows.contains(least) && rows.contains(greatest)
    &&& forall|row: u64| rows.contains(row) ==> least <= row <= greatest
}

impl Selection {
    /// The range from the first to the last row of a list or set of rows to read, if it has any.
    pub open spec fn extent(self) -> Option<Range<u64>> {
        match self {
            Selection::IncludeByIndex(rows) => if rows@.len() > 0 {
                Some(span(rows@[0], (rows@.last() + 1) as u64))
            } else {
                None
            },
            Selection::IncludeRoaring(rows) => if exists|row: u64|
                treemap_rows(rows).contains(row) {
                let (least, greatest) = extremes(treemap_rows(rows));
                Some(span(least, (greatest + 1) as u64))
            } else {
                None
            },
            _ => None,
        }
    }

    /// Whether there is a row behind the last row of a list or set of rows to read.
    pub open spec fn bounded(self) -> bool {
        match self {
            Selection::IncludeByIndex(rows) => rows@.len() > 0 ==> rows@.last() < u64::MAX,
            Selection::IncludeRoaring(rows) => !treemap_rows(rows).contains(u64::MAX),
            _ => true,
        }
    }
}

/// The rows that are in both ranges, where no range stands for all rows.
pub fn intersect_ranges(left: Option<&Range<u64>>, right: Option<Range<u64>>) -> (r: Option<
    Range<u64>,
>)
    ensures
        r == intersection(
            match left {
                Some(range) => Some(*range),
                None => None,
            },
            right,
        ),
{
    match (left, right) {
        (None, None) => None,
        (None, Some(r)) => Some(r),
        (Some(l), None) => Some(l.start..l.end),
        (Some(l), Some(r)) => {
            let start: u64 = if l.start >= r.start {
                l.start
            } else {
                r.start
            };
            let end: u64 = if l.end <= r.end {
                l.end
            } else {
                r.end
            };
            Some(start..end)
        },
    }
}

/// The range from the least to the greatest row of a set, if it has any.
fn treemap_extent(rows: &RoaringTreemap) -> (r: Option<Range<u64>>)
    requires
        !treemap_rows(*rows).contains(u64::MAX),
    ensures
        r == Selection::IncludeRoaring(*rows).extent(),
{
    if rows.is_empty() {
        return None;
    }
    match (rows.min(), rows.max()) {
        (Some(least), Some(greatest)) => {
            proof {
                let set = treemap_rows(*rows);
                assert(are_extremes(set, least, greatest));
                let found = extremes(set);
                assert(are_extremes(set, found.0, found.1));
            }
            Some(least..greatest + 1)
        },
        _ => None,
    }
}

impl Selection {
    /// The range from the first to the last row of a list or set of rows to read, if it has any.
    fn row_extent(&self) -> (r: Option<Range<u64>>)
        requires
            self.bounded(),
        ensures
            r == self.extent(),
    {
        match self {
            Selection::IncludeByIndex(rows) => if rows.len() > 0 {
                Some(rows[0]..rows[rows.len() - 1] + 1)
            } else {
                None
            },
            Selection::IncludeRoaring(rows) => treemap_extent(rows),
            _ => None,
        }
    }
}

/// A predicate that holds of one run of a sequence filters out that run.
proof fn lemma_filter_run(s: Seq<u64>, p: spec_fn(u64) -> bool, low: int, high: int)
    requires
        0 <= low <= high <= s.len(),
        forall|i: int| 0 <= i < s.len() ==> (p(#[trigger] s[i]) <==> low <= i < high),
    ensures
        s.filter(p) == s.subrange(low, high),
    decreases s.len(),
{
    reveal(Seq::filter);
    if s.len() > 0 {
        let rest = s.drop_last();
        if high == s.len() && low < high {
            lemma_filter_run(rest, p, low, high - 1);
            assert(p(s[s.len() - 1]));
            assert(s.subrange(low, high) =~= rest.subrange(low, high - 1).push(s.last()));
        } else {
            let top = if high == s.len() {
                high - 1
            } else {
                high
            };
            let bottom = if low == s.len() {
                low - 1
            } else {
                low
            };
            assert(!p(s[s.len() - 1]));
            lemma_filter_run(rest, p, bottom, top);
            assert(s.subrange(low, high) =~= rest.subrange(bottom, top));
        }
    } else {
        assert(s.subrange(low, high) =~= s);
    }
}

/// The ranges between neighbours in a list of boundaries.
fn ranges_between(boundaries: &Vec<u64>) -> (r: Vec<Range<u64>>)
    ensures
        r@ == windows(boundaries@),
{
    let mut ranges: Vec<Range<u64>> = Vec::new();
    let mut i: usize = 1;
    while i < boundaries.len()
        invariant
            1 <= i,
            i <= boundaries@.len() || (i == 1 && boundaries@.len() == 0),
            ranges@.len() == i - 1,
            forall|j: int|
                0 <= j < i - 1 ==> (#[trigger] ranges@[j]) == span(
                    boundaries@[j],
                    boundaries@[j + 1],
                ),
        decreases boundaries@.len() - i,
    {
        ranges.push(boundaries[i - 1]..boundaries[i]);
        i += 1;
    }
    assert(ranges@ =~= windows(boundaries@));
    ranges
}

/// The boundaries of the part of a source that lies in `range`.
fn inner_boundaries(boundaries: &Vec<u64>, range: &Range<u64>) -> (r: Vec<u64>)
    requires
        ascending(boundaries@),
        range.start < range.end,
    ensures
        r@ == boundaries_in(boundaries@, *range),
{
    let low = partition_point(boundaries, range.start, true);
    let high = partition_point(boundaries, range.end, false);
    proof {
        if high < low {
            let row = boundaries@[high as int];
            assert(false);
        }
        lemma_filter_run(
            boundaries@,
            |x: u64| range.start < x < range.end,
            low as int,
            high as int,
        );
    }
    let mut inner: Vec<u64> = Vec::new();
    inner.push(range.start);
    let mut i: usize = low;
    while i < high
        invariant
            low <= i <= high <= boundaries@.len(),
            inner@ == seq![range.start] + boundaries@.subrange(low as int, i as int),
        decreases high - i,
    {
        inner.push(boundaries[i]);
        i += 1;
        assert(inner@ =~= seq![range.start] + boundaries@.subrange(low as int, i as int));
    }
    inner.push(range.end);
    assert(inner@ =~= boundaries_in(boundaries@, *range));
    inner
}

/// The parts of ranges that lie in `range`, without those that are empty.
fn clip_ranges(ranges: &Vec<Range<u64>>, range: &Range<u64>) -> (r: Vec<Range<u64>>)
    ensures
        r@ == clip(ranges@, *range),
{
    let mut clipped: Vec<Range<u64>> = Vec::new();
    let mut i: usize = 0;
    while i < ranges.len()
        invariant
            i <= ranges@.len(),
            clipped@ == clip(ranges@.take(i as int), *range),
        decreases ranges@.len() - i,
    {
        assert(ranges@.take(i + 1).drop_last() =~= ranges@.take(i as int));
        match intersect_ranges(Some(&ranges[i]), Some(range.start..range.end)) {
            Some(part) => {
                if part.start < part.end {
                    clipped.push(part);
                }
            },
            None => {},
        }
        i += 1;
    }
    assert(ranges@.take(ranges@.len() as int) =~= ranges@);
    clipped
}

/// A copy of a list of ranges.
fn clone_ranges(ranges: &Vec<Range<u64>>) -> (r: Vec<Range<u64>>)
    ensures
        r@ == ranges@,
{
    let mut copy: Vec<Range<u64>> = Vec::new();
    let mut i: usize = 0;
    while i < ranges.len()
        invariant
            i <= ranges@.len(),
            copy@ == ranges@.take(i as int),
        decreases ranges@.len() - i,
    {
        copy.push(ranges[i].start..ranges[i].end);
        assert(copy@ =~= ranges@.take(i + 1));
        i += 1;
    }
    assert(copy@ =~= ranges@);
    copy
}

impl Splits {
    /// The ranges to read of the requested rows, where nothing requested stands for all rows.
    fn task_ranges(&self, requested: Option<Range<u64>>) -> (r: Vec<Range<u64>>)
        requires
            self.wf(),
        ensures
            r@ == self.ranges(requested),
    {
        if let Some(range) = &requested {
            if range.start >= range.end {
                return Vec::new();
            }
        }
        match self {
            Splits::Natural(boundaries) => match &requested {
                None => ranges_between(boundaries),
                Some(range) => ranges_between(&inner_boundaries(boundaries, range)),
            },
            Splits::Ranges(ranges) => match &requested {
                None => clone_ranges(ranges),
                Some(range) => clip_ranges(ranges, range),
            },
        }
    }
}

/// One scan task and the rows of the source that it covers. What executes it is up to the caller.
#[derive(Debug)]
pub struct ScanTask<F> {
    row_range: Range<u64>,
    future: F,
}

impl<F> ScanTask<F> {
    /// The rows of the source that are covered.
    pub closed spec fn rows(self) -> Range<u64> {
        self.row_range
    }

    /// What executes the work.
    pub closed spec fn execution(self) -> F {
        self.future
    }

    /// The rows of the source that are covered.
    pub fn row_range(&self) -> (r: &Range<u64>)
        ensures
            *r == self.rows(),
    {
        &self.row_range
    }

    /// What executes the work.
    pub fn into_future(self) -> (r: F)
        ensures
            r == self.execution(),
    {
        self.future
    }
}

/// What every task of a scan needs to know: which rows to keep, and what to compute of them.
#[derive(Debug)]
pub struct TaskContext {
    filter: Option<BoundExpression>,
    projection: BoundExpression,
}

/// The model of an expression that may be missing.
pub open spec fn optional(expr: Option<BoundExpression>) -> Option<BoundModel> {
    match expr {
        Some(expr) => Some(expr@),
        None => None,
    }
}

impl TaskContext {
    /// The models of the filter and of the projection.
    pub closed spec fn view(&self) -> (Option<BoundModel>, BoundModel) {
        (optional(self.filter), self.projection@)
    }

    /// Which rows to keep.
    pub fn filter(&self) -> (r: Option<&BoundExpression>)
        ensures
            match r {
                Some(filter) => self@.0 == Some(filter@),
                None => self@.0 is None,
            },
    {
        match &self.filter {
            Some(filter) => Some(filter),
            None => None,
        }
    }

    /// What to compute of the rows.
    pub fn projection(&self) -> (r: &BoundExpression)
        ensures
            r@ == self@.1,
    {
        &self.projection
    }
}

/// Whether some row of a range is selected.
pub open spec fn has_selected(selection: Selection, range: Range<u64>) -> bool {
    exists|row: u64| in_range(range, row) && selection.selects(row)
}

/// What is left of a list of ranges without those at its front of which no row is selected.
pub open spec fn skip_unselected(selection: Selection, ranges: Seq<Range<u64>>) -> Seq<Range<u64>>
    decreases ranges.len(),
{
    if ranges.len() == 0 || has_selected(selection, ranges[0]) {
        ranges
    } else {
        skip_unselected(selection, ranges.skip(1))
    }
}

/// Whether every range has as many rows as fit a machine word.
pub open spec fn countable(ranges: Seq<Range<u64>>) -> bool {
    forall|i: int|
        0 <= i < ranges.len() ==> {
            &&& (#[trigger] ranges[i]).start <= ranges[i].end
            &&& ranges[i].end - ranges[i].start <= usize::MAX
        }
}

/// The tasks of a scan, one at a time.
///
/// [`ScanTasks::next_split`] says which rows to read next. The caller starts to read them, and
/// tells [`ScanTasks::complete`] what came of it.
#[derive(Debug)]
pub struct ScanTasks {
    ranges: Vec<Range<u64>>,
    next: usize,
    selection: Selection,
    limit: Option<u64>,
    ctx: TaskContext,
    finished: bool,
}

/// The mathematical model of [`ScanTasks`]: the ranges that are left, how many rows may still be
/// read, and whether the scan has ended.
#[verifier::ext_equal]
pub struct TasksModel {
    pub ranges: Seq<Range<u64>>,
    pub limit: Option<u64>,
    pub finished: bool,
}

impl TasksModel {
    /// The range to read next, if there is one, and the state behind it.
    pub open spec fn next(self, selection: Selection) -> (Option<Range<u64>>, TasksModel) {
        let left = skip_unselected(selection, self.ranges);
        if self.finished {
            (None, self)
        } else if left.len() == 0 {
            (None, TasksModel { ranges: left, finished: true, ..self })
        } else {
            (Some(left[0]), TasksModel { ranges: left.skip(1), ..self })
        }
    }

    /// The state once a split is being read, where `limit` says how many rows may still be read.
    pub open spec fn read(self, limit: Option<u64>) -> TasksModel {
        TasksModel { limit, finished: self.finished || limit == Some(0u64), ..self }
    }

    /// The state once a split could not be read.
    pub open spec fn failed(self) -> TasksModel {
        TasksModel { finished: true, ..self }
    }
}

impl ScanTasks {
    #[verifier::type_invariant]
    spec fn inv(self) -> bool {
        &&& self.next <= self.ranges@.len()
        &&& self.selection.wf()
        &&& countable(self.ranges@)
    }

    /// The state of these tasks.
    pub closed spec fn view(&self) -> TasksModel {
        TasksModel {
            ranges: self.ranges@.skip(self.next as int),
            limit: self.limit,
            finished: self.finished,
        }
    }

    /// The rows to read.
    pub closed spec fn selection(&self) -> Selection {
        self.selection
    }

    /// What the tasks need to know.
    pub closed spec fn context(&self) -> (Option<BoundModel>, BoundModel) {
        self.ctx@
    }

    /// What every task needs to know.
    pub fn ctx(&self) -> (r: &TaskContext)
        ensures
            r@ == self.context(),
    {
        &self.ctx
    }

    /// How many rows may still be read, if that is limited.
    pub fn limit(&self) -> (r: Option<u64>)
        ensures
            r == self@.limit,
    {
        self.limit
    }

    /// The next range of which some row is selected, with its selected rows. Once there is none,
    /// the scan has ended.
    pub fn next_split(&mut self) -> (r: Option<RowMask>)
        ensures
            final(self).selection() == old(self).selection(),
            final(self).context() == old(self).context(),
            old(self)@.next(old(self).selection()) == (
                match r {
                    Some(mask) => Some(mask.range()),
                    None => None,
                },
                final(self)@,
            ),
            ({
                let left = skip_unselected(old(self).selection(), old(self)@.ranges);
                match r {
                    Some(mask) => {
                        &&& !old(self)@.finished
                        &&& left.len() > 0
                        &&& mask.range() == left[0]
                        &&& mask.covers(old(self).selection())
                        &&& final(self)@ == (TasksModel { ranges: left.skip(1), ..old(self)@ })
                    },
                    None => if old(self)@.finished {
                        final(self)@ == old(self)@
                    } else {
                        left.len() == 0 && final(self)@ == (TasksModel {
                            ranges: left,
                            finished: true,
                            ..old(self)@
                        })
                    },
                }
            }),
    {
        if self.finished {
            return None;
        }
        proof {
            use_type_invariant(&*self);
        }
        let ghost selection = self.selection;
        let ghost all = self.ranges@;
        let mut next: usize = self.next;
        while next < self.ranges.len()
            invariant
                self.next <= next <= self.ranges@.len(),
                *self == *old(self),
                self.selection == selection,
                self.ranges@ == all,
                self.selection.wf(),
                countable(self.ranges@),
                !self.finished,
                skip_unselected(selection, all.skip(next as int)) == skip_unselected(
                    selection,
                    all.skip(self.next as int),
                ),
            decreases self.ranges@.len() - next,
        {
            let mask = self.selection.row_mask(&self.ranges[next]);
            assert(all.skip(next as int)[0] == all[next as int]);
            assert(all.skip(next as int).skip(1) =~= all.skip(next + 1));
            if !mask.all_false() {
                proof {
                    let i = choose|i: int| 0 <= i < mask.bits().len() && mask.bits()[i];
                    let row = (mask.range().start + i) as u64;
                    assert(in_range(all[next as int], row) && selection.selects(row));
                }
                self.next = next + 1;
                return Some(mask);
            }
            proof {
                if has_selected(selection, all[next as int]) {
                    let row = choose|row: u64|
                        in_range(all[next as int], row) && selection.selects(row);
                    assert(mask.bits()[row - mask.range().start]);
                }
            }
            next += 1;
        }
        assert(all.skip(next as int) =~= Seq::empty());
        self.next = next;
        self.finished = true;
        None
    }

    /// Records what came of starting to read a split: what executes the task and how many rows
    /// may still be read, or an error. An error ends the scan, and so does a limit of no rows.
    pub fn complete<F, E>(
        &mut self,
        row_mask: &RowMask,
        outcome: Result<(F, Option<u64>), E>,
    ) -> (r: Result<ScanTask<F>, E>)
        ensures
            final(self).selection() == old(self).selection(),
            final(self).context() == old(self).context(),
            final(self)@ == (match outcome {
                Ok((_, limit)) => old(self)@.read(limit),
                Err(_) => old(self)@.failed(),
            }),
            match outcome {
                Ok((future, limit)) => {
                    &&& r matches Ok(task)
                    &&& task.rows() == row_mask.range()
                    &&& task.execution() == future
                    &&& final(self)@ == (TasksModel {
                        limit,
                        finished: old(self)@.finished || limit == Some(0u64),
                        ..old(self)@
                    })
                },
                Err(error) => {
                    &&& r == Err::<ScanTask<F>, E>(error)
                    &&& final(self)@ == (TasksModel { finished: true, ..old(self)@ })
                },
            },
    {
        proof {
            use_type_invariant(&*self);
        }
        match outcome {
            Ok((future, limit)) => {
                self.limit = limit;
                if let Some(left) = limit {
                    if left == 0 {
                        self.finished = true;
                    }
                }
                Ok(ScanTask { row_range: row_mask.row_range(), future })
            },
            Err(error) => {
                self.finished = true;
                Err(error)
            },
        }
    }
}

/// A projected part of the rows of a source, by row range, selection and filter, that can be
/// scanned any number of times.
#[derive(Debug)]
pub struct RepeatedScan {
    projection: BoundExpression,
    filter: Option<BoundExpression>,
    ordered: bool,
    row_range: Option<Range<u64>>,
    selection: Selection,
    splits: Splits,
    concurrency: usize,
    limit: Option<u64>,
    dtype: DType,
}

/// The mathematical model of a [`RepeatedScan`].
pub struct ScanModel {
    pub projection: BoundModel,
    pub filter: Option<BoundModel>,
    pub ordered: bool,
    pub row_range: Option<Range<u64>>,
    pub selection: Selection,
    pub splits: Splits,
    pub concurrency: usize,
    pub limit: Option<u64>,
    pub dtype: TypeModel,
}

impl ScanModel {
    /// The rows that are requested, before the selection is looked up row by row.
    pub open spec fn requested(self, row_range: Option<Range<u64>>) -> Option<Range<u64>> {
        intersection(intersection(self.row_range, row_range), self.selection.extent())
    }

    /// The ranges to read.
    pub open spec fn ranges(self, row_range: Option<Range<u64>>) -> Seq<Range<u64>> {
        self.splits.ranges(self.requested(row_range))
    }

    /// Whether the ranges to read can be computed.
    pub open spec fn plannable(self) -> bool {
        self.selection.bounded() && self.splits.wf()
    }
}

impl RepeatedScan {
    /// The model of this scan.
    pub closed spec fn view(&self) -> ScanModel {
        ScanModel {
            projection: self.projection@,
            filter: optional(self.filter),
            ordered: self.ordered,
            row_range: self.row_range,
            selection: self.selection,
            splits: self.splits,
            concurrency: self.concurrency,
            limit: self.limit,
            dtype: self.dtype@,
        }
    }

    /// A scan of a source.
    pub fn new(
        projection: BoundExpression,
        filter: Option<BoundExpression>,
        ordered: bool,
        row_range: Option<Range<u64>>,
        selection: Selection,
        splits: Splits,
        concurrency: usize,
        limit: Option<u64>,
        dtype: DType,
    ) -> (r: RepeatedScan)
        ensures
            r@ == (ScanModel {
                projection: projection@,
                filter: optional(filter),
                ordered,
                row_range,
                selection,
                splits,
                concurrency,
                limit,
                dtype: dtype@,
            }),
    {
        RepeatedScan {
            projection,
            filter,
            ordered,
            row_range,
            selection,
            splits,
            concurrency,
            limit,
            dtype,
        }
    }

    /// The type of the projected arrays.
    pub fn dtype(&self) -> (r: &DType)
        ensures
            r@ == self@.dtype,
    {
        &self.dtype
    }

    /// Whether the results must come in the order of the rows.
    pub fn ordered(&self) -> (r: bool)
        ensures
            r == self@.ordered,
    {
        self.ordered
    }

    /// How many splits to work on at a time: a number for each worker, where an unknown number of
    /// workers counts as one.
    pub fn total_concurrency(&self, workers: Option<usize>) -> (r: usize)
        requires
            self@.concurrency * (match workers {
                Some(n) => n as int,
                None => 1,
            }) <= usize::MAX,
        ensures
            r == self@.concurrency * (match workers {
                Some(n) => n as int,
                None => 1,
            }),
    {
        match workers {
            Some(n) => self.concurrency * n,
            None => self.concurrency,
        }
    }

    /// The ranges to read of `row_range`.
    pub fn task_ranges(&self, row_range: Option<Range<u64>>) -> (r: Vec<Range<u64>>)
        requires
            self@.plannable(),
        ensures
            r@ == self@.ranges(row_range),
    {
        let extent = self.selection.row_extent();
        let own = match &self.row_range {
            Some(range) => Some(range),
            None => None,
        };
        let requested = intersect_ranges(own, row_range);
        let whole = match &requested {
            Some(range) => Some(range),
            None => None,
        };
        self.splits.task_ranges(intersect_ranges(whole, extent))
    }

    /// The tasks that read `row_range`.
    pub fn tasks(&self, row_range: Option<Range<u64>>) -> (r: Result<ScanTasks, Error>)
        requires
            self@.plannable(),
            self@.selection.wf(),
            countable(self@.ranges(row_range)),
        ensures
            r matches Ok(tasks) && tasks@ == (TasksModel {
                ranges: self@.ranges(row_range),
                limit: self@.limit,
                finished: false,
            }) && tasks.selection().same(self@.selection) && tasks.context() == (
                self@.filter,
                self@.projection,
            ),
    {
        let ranges = self.task_ranges(row_range);
        let filter = match &self.filter {
            Some(filter) => Some(filter.clone()),
            None => None,
        };
        let ctx = TaskContext { filter, projection: self.projection.clone() };
        assert(ranges@.skip(0) =~= ranges@);
        Ok(
            ScanTasks {
                ranges,
                next: 0,
                selection: self.selection.clone(),
                limit: self.limit,
                ctx,
                finished: false,
            },
        )
    }
}

} // verus!
