//! What holds of the tasks of a scan as a whole.

use std::ops::Range;
use vstd::prelude::*;

use crate::scan::repeated_scan::{
    are_extremes, boundaries_in, clip, extremes, has_selected, in_range, intersection,
    skip_unselected, windows, ScanModel, Splits, TasksModel,
};
use crate::scan::selection::{ascending, RowMask, Selection};
use crate::scan::treemap::treemap_rows;

verus! {

/// Whether some range has `row`.
pub open spec fn covered(ranges: Seq<Range<u64>>, row: u64) -> bool {
    exists|i: int| 0 <= i < ranges.len() && in_range(#[trigger] ranges[i], row)
}

/// Whether no row is in two ranges.
pub open spec fn disjoint(ranges: Seq<Range<u64>>) -> bool {
    forall|i: int, j: int, row: u64|
        #![trigger in_range(ranges[i], row), in_range(ranges[j], row)]
        0 <= i < j < ranges.len() ==> !(in_range(ranges[i], row) && in_range(ranges[j], row))
}

/// Whether a range has `row`, where no range stands for all rows.
pub open spec fn admits(range: Option<Range<u64>>, row: u64) -> bool {
    match range {
        Some(range) => in_range(range, row),
        None => true,
    }
}

/// A row is in the intersection of two ranges exactly if it is in both.
pub proof fn law_intersection(left: Option<Range<u64>>, right: Option<Range<u64>>, row: u64)
    ensures
        admits(intersection(left, right), row) <==> admits(left, row) && admits(right, row),
{
}

/// Filtering keeps the order, and keeps exactly what the predicate holds of.
proof fn lemma_filter(s: Seq<u64>, p: spec_fn(u64) -> bool)
    requires
        ascending(s),
    ensures
        ascending(s.filter(p)),
        forall|i: int| 0 <= i < s.filter(p).len() ==> p(#[trigger] s.filter(p)[i]),
        forall|i: int| 0 <= i < s.filter(p).len() ==> s.contains(#[trigger] s.filter(p)[i]),
        forall|i: int|
            0 <= i < s.len() && p(#[trigger] s[i]) ==> s.filter(p).contains(s[i]),
    decreases s.len(),
{
    reveal(Seq::filter);
    if s.len() > 0 {
        let rest = s.drop_last();
        let kept = s.filter(p);
        lemma_filter(rest, p);
        assert forall|i: int| 0 <= i < rest.filter(p).len() implies s.contains(
            #[trigger] rest.filter(p)[i],
        ) by {
            let j = choose|j: int| 0 <= j < rest.len() && rest[j] == rest.filter(p)[i];
            assert(s[j] == rest.filter(p)[i]);
        }
        assert forall|i: int| 0 <= i < kept.len() implies s.contains(#[trigger] kept[i]) && p(
            kept[i],
        ) by {
            if i < rest.filter(p).len() {
                assert(kept[i] == rest.filter(p)[i]);
            } else {
                assert(kept[i] == s[s.len() - 1]);
            }
        }
        assert forall|i: int, j: int| 0 <= i <= j < kept.len() implies kept[i] <= kept[j] by {
            if j < rest.filter(p).len() {
                assert(kept[i] == rest.filter(p)[i] && kept[j] == rest.filter(p)[j]);
            } else {
                let k = choose|k: int| 0 <= k < s.len() && s[k] == kept[i];
                assert(s[k] <= s[s.len() - 1]);
            }
        }
        assert forall|i: int| 0 <= i < s.len() && p(#[trigger] s[i]) implies kept.contains(
            s[i],
        ) by {
            if i < rest.len() {
                assert(rest[i] == s[i]);
                let j = choose|j: int|
                    0 <= j < rest.filter(p).len() && rest.filter(p)[j] == rest[i];
                assert(kept[j] == s[i]);
            } else {
                assert(kept[kept.len() - 1] == s[i]);
            }
        }
    }
}

/// Between ascending boundaries, every row has its one window.
proof fn lemma_windows(boundaries: Seq<u64>, row: u64)
    requires
        ascending(boundaries),
        boundaries.len() > 0,
    ensures
        covered(windows(boundaries), row) <==> boundaries[0] <= row < boundaries.last(),
        disjoint(windows(boundaries)),
{
    let ranges = windows(boundaries);
    if covered(ranges, row) {
        let i = choose|i: int| 0 <= i < ranges.len() && in_range(#[trigger] ranges[i], row);
        assert(boundaries[0] <= boundaries[i]);
        assert(boundaries[i + 1] <= boundaries[boundaries.len() - 1]);
    }
    if boundaries[0] <= row < boundaries.last() {
        let i = window_of(boundaries, row, boundaries.len() - 1);
        assert(in_range(ranges[i], row));
    }
    assert forall|i: int, j: int, r: u64|
        #![trigger in_range(ranges[i], r), in_range(ranges[j], r)]
        0 <= i < j < ranges.len() implies !(in_range(ranges[i], r) && in_range(ranges[j], r)) by {
        assert(boundaries[i + 1] <= boundaries[j]);
    }
}

/// The window that has `row`, among those up to boundary `n`.
proof fn window_of(boundaries: Seq<u64>, row: u64, n: int) -> (i: int)
    requires
        0 <= n < boundaries.len(),
        boundaries[0] <= row < boundaries[n],
    ensures
        0 <= i < n,
        boundaries[i] <= row < boundaries[i + 1],
    decreases n,
{
    if boundaries[n - 1] <= row {
        n - 1
    } else {
        window_of(boundaries, row, n - 1)
    }
}

/// The boundaries of a part of a source are ascending, and run from its start to its end.
proof fn lemma_boundaries_in(boundaries: Seq<u64>, range: Range<u64>)
    requires
        ascending(boundaries),
        range.start < range.end,
    ensures
        ({
            let inner = boundaries_in(boundaries, range);
            &&& inner.len() >= 2
            &&& ascending(inner)
            &&& inner[0] == range.start
            &&& inner.last() == range.end
        }),
{
    let p = |x: u64| range.start < x < range.end;
    let kept = boundaries.filter(p);
    let inner = boundaries_in(boundaries, range);
    lemma_filter(boundaries, p);
    assert forall|i: int, j: int| 0 <= i <= j < inner.len() implies inner[i] <= inner[j] by {
        if 0 < i < inner.len() - 1 {
            assert(inner[i] == kept[i - 1]);
            assert(p(kept[i - 1]));
        }
        if 0 < j < inner.len() - 1 {
            assert(inner[j] == kept[j - 1]);
            assert(p(kept[j - 1]));
        }
    }
}

/// With natural splits, the ranges to read tile the requested rows: every requested row is in
/// exactly one of them, and no other row is in any.
pub proof fn law_natural_ranges_tile(boundaries: Vec<u64>, range: Range<u64>, row: u64)
    requires
        ascending(boundaries@),
    ensures
        ({
            let ranges = Splits::Natural(boundaries).ranges(Some(range));
            &&& covered(ranges, row) <==> in_range(range, row)
            &&& disjoint(ranges)
        }),
{
    if range.start < range.end {
        lemma_boundaries_in(boundaries@, range);
        lemma_windows(boundaries_in(boundaries@, range), row);
    }
}

/// With natural splits and nothing requested in particular, the ranges to read tile the source:
/// every row from the first boundary to the last is in exactly one of them.
pub proof fn law_natural_ranges_tile_source(boundaries: Vec<u64>, row: u64)
    requires
        ascending(boundaries@),
    ensures
        ({
            let ranges = Splits::Natural(boundaries).ranges(None);
            &&& covered(ranges, row) <==> boundaries@.len() > 0 && boundaries@[0] <= row
                < boundaries@.last()
            &&& disjoint(ranges)
        }),
{
    if boundaries@.len() > 0 {
        lemma_windows(boundaries@, row);
    }
}

/// No range to read crosses a boundary between natural splits.
pub proof fn law_natural_ranges_respect_splits(
    boundaries: Vec<u64>,
    requested: Option<Range<u64>>,
    i: int,
    k: int,
)
    requires
        ascending(boundaries@),
        0 <= i < Splits::Natural(boundaries).ranges(requested).len(),
        0 <= k < boundaries@.len(),
    ensures
        ({
            let range = Splits::Natural(boundaries).ranges(requested)[i];
            boundaries@[k] <= range.start || range.end <= boundaries@[k]
        }),
{
    let boundary = boundaries@[k];
    match requested {
        Some(range) => {
            let p = |x: u64| range.start < x < range.end;
            let inner = boundaries_in(boundaries@, range);
            lemma_boundaries_in(boundaries@, range);
            lemma_filter(boundaries@, p);
            if p(boundary) {
                let j = choose|j: int|
                    0 <= j < boundaries@.filter(p).len() && boundaries@.filter(p)[j] == boundary;
                assert(inner[j + 1] == boundary);
                if j + 1 <= i {
                    assert(inner[j + 1] <= inner[i]);
                } else {
                    assert(inner[i + 1] <= inner[j + 1]);
                }
            } else {
                assert(inner[0] <= inner[i]);
                assert(inner[i + 1] <= inner[inner.len() - 1]);
            }
        },
        None => {
            if k <= i {
                assert(boundaries@[k] <= boundaries@[i]);
            } else {
                assert(boundaries@[i + 1] <= boundaries@[k]);
            }
        },
    }
}

proof fn lemma_clip(ranges: Seq<Range<u64>>, range: Range<u64>)
    ensures
        forall|row: u64| #[trigger]
            covered(clip(ranges, range), row) <==> covered(ranges, row) && in_range(range, row),
        disjoint(ranges) ==> disjoint(clip(ranges, range)),
        forall|i: int|
            0 <= i < clip(ranges, range).len() ==> (#[trigger] clip(ranges, range)[i]).start
                < clip(ranges, range)[i].end,
    decreases ranges.len(),
{
    let clipped = clip(ranges, range);
    if ranges.len() == 0 {
        assert forall|row: u64| #[trigger] covered(clipped, row) <==> covered(ranges, row)
            && in_range(range, row) by {}
    } else {
        let rest = ranges.drop_last();
        let before = clip(rest, range);
        let last = ranges.last();
        let part = intersection(Some(last), Some(range))->0;
        lemma_clip(rest, range);
        assert forall|row: u64| #[trigger] covered(clipped, row) <==> covered(ranges, row)
            && in_range(range, row) by {
            law_intersection(Some(last), Some(range), row);
            if covered(clipped, row) {
                let i = choose|i: int|
                    0 <= i < clipped.len() && in_range(#[trigger] clipped[i], row);
                if i < before.len() {
                    assert(in_range(before[i], row));
                    assert(covered(before, row));
                    let j = choose|j: int| 0 <= j < rest.len() && in_range(#[trigger] rest[j], row);
                    assert(in_range(ranges[j], row));
                } else {
                    assert(in_range(ranges[ranges.len() - 1], row));
                }
            }
            if covered(ranges, row) && in_range(range, row) {
                let j = choose|j: int| 0 <= j < ranges.len() && in_range(#[trigger] ranges[j], row);
                if j < rest.len() {
                    assert(in_range(rest[j], row));
                    assert(covered(rest, row));
                    assert(covered(before, row));
                    let i = choose|i: int|
                        0 <= i < before.len() && in_range(#[trigger] before[i], row);
                    assert(in_range(clipped[i], row));
                } else {
                    assert(in_range(part, row));
                    assert(in_range(clipped[clipped.len() - 1], row));
                }
            }
        }
        if disjoint(ranges) {
            assert forall|i: int, j: int, row: u64|
                #![trigger in_range(rest[i], row), in_range(rest[j], row)]
                0 <= i < j < rest.len() implies !(in_range(rest[i], row) && in_range(
                rest[j],
                row,
            )) by {
                assert(rest[i] == ranges[i] && rest[j] == ranges[j]);
                assert(!(in_range(ranges[i], row) && in_range(ranges[j], row)));
            }
            assert forall|i: int, j: int, row: u64|
                #![trigger in_range(clipped[i], row), in_range(clipped[j], row)]
                0 <= i < j < clipped.len() implies !(in_range(clipped[i], row) && in_range(
                clipped[j],
                row,
            )) by {
                assert(i < before.len());
                assert(clipped[i] == before[i]);
                if j < before.len() {
                    assert(clipped[j] == before[j]);
                    assert(!(in_range(before[i], row) && in_range(before[j], row)));
                } else if in_range(clipped[i], row) && in_range(clipped[j], row) {
                    law_intersection(Some(last), Some(range), row);
                    assert(covered(before, row));
                    assert(covered(rest, row));
                    let k = choose|k: int| 0 <= k < rest.len() && in_range(#[trigger] rest[k], row);
                    assert(in_range(ranges[k], row) && in_range(
                        ranges[ranges.len() - 1],
                        row,
                    ));
                }
            }
        }
    }
}

/// With splits given as ranges, the rows to read are those of the splits that are requested.
/// No range to read is empty, and where no row is in two splits, none is in two ranges to read.
pub proof fn law_given_ranges_are_clipped(
    ranges: Vec<Range<u64>>,
    range: Range<u64>,
    row: u64,
    i: int,
)
    ensures
        ({
            let clipped = Splits::Ranges(ranges).ranges(Some(range));
            &&& covered(clipped, row) <==> covered(ranges@, row) && in_range(range, row)
            &&& disjoint(ranges@) ==> disjoint(clipped)
            &&& 0 <= i < clipped.len() ==> clipped[i].start < clipped[i].end
        }),
{
    lemma_clip(ranges@, range);
    assert(covered(clip(ranges@, range), row) <==> covered(ranges@, row) && in_range(range, row));
}

/// Every selected row is in the extent of the selection, so that restricting a scan to the extent
/// loses no selected row.
pub proof fn law_extent_has_every_selected_row(selection: Selection, row: u64)
    requires
        selection.wf(),
        selection.bounded(),
        selection.selects(row),
    ensures
        admits(selection.extent(), row),
{
    match selection {
        Selection::IncludeByIndex(rows) => {
            let i = choose|i: int| 0 <= i < rows@.len() && rows@[i] == row;
            assert(rows@[0] <= rows@[i]);
            assert(rows@[i] <= rows@[rows@.len() - 1]);
        },
        Selection::IncludeRoaring(rows) => {
            let set = treemap_rows(rows);
            let least = lemma_least(set, row);
            let greatest = lemma_greatest(set, row);
            assert(are_extremes(set, least, greatest));
            let found = extremes(set);
            assert(are_extremes(set, found.0, found.1));
        },
        _ => {},
    }
}

/// A set of machine integers that is not empty has a least one.
proof fn lemma_least(rows: Set<u64>, row: u64) -> (least: u64)
    requires
        rows.contains(row),
    ensures
        rows.contains(least),
        forall|other: u64| rows.contains(other) ==> least <= other,
    decreases row,
{
    if exists|other: u64| rows.contains(other) && other < row {
        let other = choose|other: u64| rows.contains(other) && other < row;
        lemma_least(rows, other)
    } else {
        row
    }
}

/// A set of machine integers that is not empty has a greatest one.
proof fn lemma_greatest(rows: Set<u64>, row: u64) -> (greatest: u64)
    requires
        rows.contains(row),
    ensures
        rows.contains(greatest),
        forall|other: u64| rows.contains(other) ==> other <= greatest,
    decreases u64::MAX - row,
{
    if exists|other: u64| rows.contains(other) && other > row {
        let other = choose|other: u64| rows.contains(other) && other > row;
        lemma_greatest(rows, other)
    } else {
        row
    }
}

/// Whether a row is between two rows to read, where the rows to read are given and there are any.
pub open spec fn between_selected(selection: Selection, row: u64) -> bool {
    includes_some(selection) ==> exists|first: u64, last: u64|
        selection.selects(first) && selection.selects(last) && first <= row <= last
}

/// Whether a selection gives the rows to read, and gives any.
pub open spec fn includes_some(selection: Selection) -> bool {
    &&& selection is IncludeByIndex || selection is IncludeRoaring
    &&& exists|row: u64| selection.selects(row)
}

/// A row is in the extent of a selection exactly if it is between two rows to read, and there is an
/// extent exactly if rows to read are given.
pub proof fn law_extent_is_tight(selection: Selection, row: u64)
    requires
        selection.wf(),
        selection.bounded(),
    ensures
        selection.extent() is Some <==> includes_some(selection),
        admits(selection.extent(), row) <==> between_selected(selection, row),
{
    match selection {
        Selection::IncludeByIndex(rows) => {
            if rows@.len() > 0 {
                let (first, last) = (rows@[0], rows@[rows@.len() - 1]);
                assert(rows@.contains(first) && rows@.contains(last));
                assert(selection.selects(first) && selection.selects(last));
                if between_selected(selection, row) {
                    let (a, b) = choose|a: u64, b: u64|
                        selection.selects(a) && selection.selects(b) && a <= row <= b;
                    law_extent_has_every_selected_row(selection, a);
                    law_extent_has_every_selected_row(selection, b);
                }
            } else {
                assert forall|row: u64| !selection.selects(row) by {}
            }
        },
        Selection::IncludeRoaring(rows) => {
            let set = treemap_rows(rows);
            if includes_some(selection) {
                let some = choose|some: u64| selection.selects(some);
                let least = lemma_least(set, some);
                let greatest = lemma_greatest(set, some);
                assert(are_extremes(set, least, greatest));
                let found = extremes(set);
                assert(are_extremes(set, found.0, found.1));
                assert(selection.selects(found.0) && selection.selects(found.1));
                if between_selected(selection, row) {
                    let (a, b) = choose|a: u64, b: u64|
                        selection.selects(a) && selection.selects(b) && a <= row <= b;
                    assert(set.contains(a) && set.contains(b));
                }
            } else {
                assert forall|row: u64| !set.contains(row) by {
                    assert(!selection.selects(row));
                }
            }
        },
        _ => {},
    }
}

/// Whether the rows of a scan are restricted by the scan, by the caller or by the selection.
pub open spec fn restricted(scan: ScanModel, row_range: Option<Range<u64>>) -> bool {
    scan.row_range is Some || row_range is Some || scan.selection.extent() is Some
}

/// The rows that a restricted scan plans to read, with natural splits, are those that the scan and
/// the caller both ask for and that lie between two rows to read. Each is in one range.
pub proof fn law_planned_rows(scan: ScanModel, row_range: Option<Range<u64>>, row: u64)
    requires
        scan.plannable(),
        scan.selection.wf(),
        scan.splits is Natural,
        restricted(scan, row_range),
    ensures
        covered(scan.ranges(row_range), row) <==> admits(scan.row_range, row) && admits(
            row_range,
            row,
        ) && between_selected(scan.selection, row),
        disjoint(scan.ranges(row_range)),
{
    law_intersection(scan.row_range, row_range, row);
    law_intersection(
        intersection(scan.row_range, row_range),
        scan.selection.extent(),
        row,
    );
    law_extent_is_tight(scan.selection, row);
    law_natural_ranges_tile(scan.splits->Natural_0, scan.requested(row_range)->0, row);
}

/// The rows that a restricted scan plans to read, with splits given as ranges, are those of the
/// splits that the scan and the caller both ask for and that lie between two rows to read.
pub proof fn law_planned_rows_of_given_splits(
    scan: ScanModel,
    row_range: Option<Range<u64>>,
    row: u64,
)
    requires
        scan.plannable(),
        scan.selection.wf(),
        scan.splits is Ranges,
    ensures
        covered(scan.ranges(row_range), row) <==> covered(scan.splits->Ranges_0@, row) && admits(
            scan.row_range,
            row,
        ) && admits(row_range, row) && between_selected(scan.selection, row),
        !restricted(scan, row_range) ==> scan.ranges(row_range) == scan.splits->Ranges_0@,
{
    law_intersection(scan.row_range, row_range, row);
    law_intersection(
        intersection(scan.row_range, row_range),
        scan.selection.extent(),
        row,
    );
    law_extent_is_tight(scan.selection, row);
    if let Some(range) = scan.requested(row_range) {
        law_given_ranges_are_clipped(scan.splits->Ranges_0, range, row, 0);
    }
}

/// Every selected row that both the scan and the caller ask for is read by exactly one task, with
/// natural splits and a restriction of the rows from the scan, the caller or the selection.
pub proof fn law_selected_rows_are_read_once(
    scan: ScanModel,
    row_range: Option<Range<u64>>,
    row: u64,
)
    requires
        scan.plannable(),
        scan.selection.wf(),
        scan.splits is Natural,
        scan.row_range is Some || row_range is Some || scan.selection.extent() is Some,
        scan.selection.selects(row),
    ensures
        covered(scan.ranges(row_range), row) <==> admits(scan.row_range, row) && admits(
            row_range,
            row,
        ),
        disjoint(scan.ranges(row_range)),
{
    law_planned_rows(scan, row_range, row);
}

/// With natural splits and no restriction at all, the rows to read are those from the first boundary
/// to the last, each in one range.
pub proof fn law_unrestricted_scan_reads_the_source(scan: ScanModel, row: u64)
    requires
        scan.plannable(),
        scan.splits is Natural,
        scan.row_range is None,
        scan.selection.extent() is None,
    ensures
        ({
            let boundaries = scan.splits->Natural_0@;
            &&& covered(scan.ranges(None), row) <==> boundaries.len() > 0 && boundaries[0] <= row
                < boundaries.last()
            &&& disjoint(scan.ranges(None))
        }),
{
    law_natural_ranges_tile_source(scan.splits->Natural_0, row);
}

/// No range to read has a row outside the rows that the scan was made for, or outside those that the
/// caller gave, whatever the splits and the selection.
pub proof fn law_no_row_outside_is_read(
    scan: ScanModel,
    row_range: Option<Range<u64>>,
    i: int,
    row: u64,
)
    requires
        scan.plannable(),
        scan.selection.wf(),
        0 <= i < scan.ranges(row_range).len(),
        in_range(scan.ranges(row_range)[i], row),
    ensures
        scan.row_range matches Some(range) ==> range.start <= row < range.end,
        row_range matches Some(range) ==> range.start <= row < range.end,
        between_selected(scan.selection, row),
{
    assert(covered(scan.ranges(row_range), row));
    if scan.splits is Ranges {
        law_planned_rows_of_given_splits(scan, row_range, row);
    } else if restricted(scan, row_range) {
        law_planned_rows(scan, row_range, row);
    } else {
        law_extent_is_tight(scan.selection, row);
    }
}

/// The ranges of a scan can be planned exactly if no row to read is the last that a number can name,
/// and natural boundaries are ascending.
pub proof fn law_plannable(scan: ScanModel)
    requires
        scan.selection.wf(),
    ensures
        scan.plannable() <==> {
            &&& includes_some(scan.selection) ==> !scan.selection.selects(u64::MAX)
            &&& scan.splits matches Splits::Natural(boundaries) ==> ascending(boundaries@)
        },
{
    if let Selection::IncludeByIndex(rows) = scan.selection {
        if rows@.len() > 0 {
            let last = rows@[rows@.len() - 1];
            assert(rows@.contains(last));
            assert(scan.selection.selects(last));
            if rows@.contains(u64::MAX) {
                let i = choose|i: int| 0 <= i < rows@.len() && rows@[i] == u64::MAX;
                assert(rows@[i] <= last);
            }
        }
    }
    if let Selection::IncludeRoaring(rows) = scan.selection {
        if treemap_rows(rows).contains(u64::MAX) {
            assert(scan.selection.selects(u64::MAX));
        }
    }
}

proof fn lemma_filter_distinct(s: Seq<u64>, p: spec_fn(u64) -> bool)
    requires
        ascending(s),
        s.no_duplicates(),
    ensures
        s.filter(p).no_duplicates(),
    decreases s.len(),
{
    reveal(Seq::filter);
    if s.len() > 0 {
        let rest = s.drop_last();
        let kept = rest.filter(p);
        lemma_filter_distinct(rest, p);
        lemma_filter(rest, p);
        assert forall|i: int| 0 <= i < kept.len() implies #[trigger] kept[i] != s.last() by {
            let j = choose|j: int| 0 <= j < rest.len() && rest[j] == kept[i];
            assert(s[j] == kept[i]);
        }
    }
}

/// With natural splits the ranges to read follow each other without a gap, and are cut only at
/// boundaries. Where no boundary is given twice, none of them is empty.
pub proof fn law_natural_cuts(boundaries: Vec<u64>, requested: Option<Range<u64>>, i: int)
    requires
        ascending(boundaries@),
        0 <= i < Splits::Natural(boundaries).ranges(requested).len(),
    ensures
        ({
            let ranges = Splits::Natural(boundaries).ranges(requested);
            &&& i > 0 ==> ranges[i - 1].end == ranges[i].start && boundaries@.contains(
                ranges[i].start,
            )
            &&& boundaries@.no_duplicates() ==> ranges[i].start < ranges[i].end
        }),
{
    match requested {
        Some(range) => {
            let p = |x: u64| range.start < x < range.end;
            let kept = boundaries@.filter(p);
            let inner = boundaries_in(boundaries@, range);
            lemma_boundaries_in(boundaries@, range);
            lemma_filter(boundaries@, p);
            if i > 0 {
                assert(inner[i] == kept[i - 1]);
            }
            if boundaries@.no_duplicates() {
                lemma_filter_distinct(boundaries@, p);
                if 0 < i && i < kept.len() {
                    assert(inner[i] == kept[i - 1] && inner[i + 1] == kept[i]);
                    assert(kept[i - 1] <= kept[i]);
                } else if i == 0 && kept.len() > 0 {
                    assert(p(kept[0]));
                    assert(inner[1] == kept[0]);
                } else if 0 < i && i == kept.len() {
                    assert(p(kept[i - 1]));
                    assert(inner[i + 1] == range.end);
                }
            }
        },
        None => {},
    }
}

/// Splits that are given as ranges are planned one by one: those of two lists behind each other are
/// those of the first list and then those of the second.
pub proof fn law_given_splits_one_by_one(
    first: Vec<Range<u64>>,
    second: Vec<Range<u64>>,
    all: Vec<Range<u64>>,
    requested: Option<Range<u64>>,
)
    requires
        all@ == first@ + second@,
    ensures
        Splits::Ranges(all).ranges(requested) == Splits::Ranges(first).ranges(requested)
            + Splits::Ranges(second).ranges(requested),
{
    match requested {
        Some(range) => {
            if range.start < range.end {
                lemma_clip_adds(first@, second@, range);
            } else {
                assert(Seq::<Range<u64>>::empty() + Seq::<Range<u64>>::empty() =~= Seq::empty());
            }
        },
        None => {},
    }
}

proof fn lemma_clip_adds(first: Seq<Range<u64>>, second: Seq<Range<u64>>, range: Range<u64>)
    ensures
        clip(first + second, range) == clip(first, range) + clip(second, range),
    decreases second.len(),
{
    if second.len() == 0 {
        assert(first + second =~= first);
        assert(clip(first, range) + clip(second, range) =~= clip(first, range));
    } else {
        let rest = second.drop_last();
        assert((first + second).drop_last() =~= first + rest);
        assert((first + second).last() == second.last());
        lemma_clip_adds(first, rest, range);
        assert(clip(first + second, range) =~= clip(first, range) + clip(second, range));
    }
}

/// One split that is given as a range is planned as the part of it that is requested, if that has a
/// row, and is left out otherwise.
pub proof fn law_given_split(split: Vec<Range<u64>>, range: Range<u64>, row: u64)
    requires
        split@.len() == 1,
        in_range(split@[0], row),
        in_range(range, row),
    ensures
        ({
            let planned = Splits::Ranges(split).ranges(Some(range));
            &&& planned.len() == 1
            &&& planned[0].start == split@[0].start || planned[0].start == range.start
            &&& planned[0].end == split@[0].end || planned[0].end == range.end
            &&& split@[0].start <= planned[0].start && range.start <= planned[0].start
            &&& planned[0].end <= split@[0].end && planned[0].end <= range.end
        }),
{
    reveal_with_fuel(clip, 2);
    assert(split@.drop_last() =~= Seq::empty());
}

/// What is left of the ranges of a scan once those without a selected row are skipped: a rest of
/// them that starts with a range that has a selected row, where those skipped have none.
pub proof fn law_skipped_ranges_have_no_selected_row(
    selection: Selection,
    ranges: Seq<Range<u64>>,
)
    ensures
        ({
            let left = skip_unselected(selection, ranges);
            let skipped = ranges.len() - left.len();
            &&& 0 <= skipped && left == ranges.skip(skipped)
            &&& left.len() > 0 ==> exists|row: u64|
                left[0].start <= row < left[0].end && selection.selects(row)
            &&& forall|i: int, row: u64|
                0 <= i < skipped && (#[trigger] ranges[i]).start <= row < ranges[i].end
                    ==> !#[trigger] selection.selects(row)
        }),
    decreases ranges.len(),
{
    let left = skip_unselected(selection, ranges);
    if ranges.len() == 0 {
        assert(ranges.skip(0) =~= ranges);
    } else if has_selected(selection, ranges[0]) {
        assert(ranges.skip(0) =~= ranges);
    } else {
        let rest = ranges.skip(1);
        law_skipped_ranges_have_no_selected_row(selection, rest);
        let skipped = ranges.len() - left.len();
        assert(rest.skip(skipped - 1) =~= ranges.skip(skipped));
        assert forall|i: int, row: u64|
            0 <= i < skipped && (#[trigger] ranges[i]).start <= row < ranges[i].end
                implies !#[trigger] selection.selects(row) by {
            if i > 0 {
                assert(rest[i - 1] == ranges[i]);
            } else {
                assert(in_range(ranges[0], row));
            }
        }
    }
}

/// Asking for the next split gives one exactly if the scan has not ended and a range is left that has
/// a selected row. It is then the first such range, those behind it are left, and the scan goes on;
/// otherwise the scan has ended. Asking never changes how many rows may be read.
pub proof fn law_next_split(tasks: TasksModel, selection: Selection)
    ensures
        ({
            let (range, after) = tasks.next(selection);
            &&& after.limit == tasks.limit
            &&& range is None ==> after.finished
            &&& tasks.finished ==> range is None && after == tasks
            &&& range is Some <==> !tasks.finished && exists|i: int, row: u64|
                0 <= i < tasks.ranges.len() && in_range(#[trigger] tasks.ranges[i], row)
                    && #[trigger] selection.selects(row)
            &&& range matches Some(found) ==> {
                let at = tasks.ranges.len() - after.ranges.len() - 1;
                &&& !after.finished
                &&& 0 <= at && found == tasks.ranges[at] && after.ranges == tasks.ranges.skip(
                    at + 1,
                )
                &&& forall|i: int, row: u64|
                    0 <= i < at && in_range(#[trigger] tasks.ranges[i], row)
                        ==> !#[trigger] selection.selects(row)
            }
        }),
{
    let (range, after) = tasks.next(selection);
    let left = skip_unselected(selection, tasks.ranges);
    let skipped = tasks.ranges.len() - left.len();
    law_skipped_ranges_have_no_selected_row(selection, tasks.ranges);
    if !tasks.finished {
        if left.len() > 0 {
            let row = choose|row: u64|
                left[0].start <= row < left[0].end && selection.selects(row);
            assert(in_range(tasks.ranges[skipped], row));
            assert(left.skip(1) =~= tasks.ranges.skip(skipped + 1));
        } else {
            assert forall|i: int, row: u64|
                0 <= i < tasks.ranges.len() && in_range(#[trigger] tasks.ranges[i], row)
                    implies !#[trigger] selection.selects(row) by {}
        }
    }
}

/// What came of a split ends the scan exactly if it had ended, if it failed, or if no row may be read
/// any more. The ranges that are left stay, and only a split that is read sets how many rows may be.
pub proof fn law_outcomes(tasks: TasksModel, limit: Option<u64>)
    ensures
        tasks.read(limit).ranges == tasks.ranges,
        tasks.read(limit).limit == limit,
        tasks.read(limit).finished <==> tasks.finished || (limit matches Some(rows) && rows == 0),
        tasks.failed().ranges == tasks.ranges,
        tasks.failed().limit == tasks.limit,
        tasks.failed().finished,
{
}

/// A list or set of rows to read selects its rows and no others, and one of rows to leave out the
/// others and none of its rows.
pub proof fn law_selected_rows(rows: Vec<u64>, set: roaring::RoaringTreemap, row: u64)
    ensures
        Selection::All.selects(row),
        Selection::IncludeByIndex(rows).selects(row) <==> exists|i: int|
            0 <= i < rows@.len() && rows@[i] == row,
        Selection::ExcludeByIndex(rows).selects(row) == !Selection::IncludeByIndex(rows).selects(
            row,
        ),
        Selection::IncludeRoaring(set).selects(row) <==> treemap_rows(set).contains(row),
        Selection::ExcludeRoaring(set).selects(row) == !Selection::IncludeRoaring(set).selects(
            row,
        ),
{
}

/// Two selections are the same exactly if no row tells them apart.
pub proof fn law_same_selections(left: Selection, right: Selection, row: u64)
    ensures
        left.same(left),
        left.same(right) ==> right.same(left) && left.selects(row) == right.selects(row),
        (forall|other: u64| #[trigger] left.selects(other) == right.selects(other)) ==> left.same(
            right,
        ),
{
}

/// A mask that covers a selection has a bit for each row of its range, set exactly if the row is
/// selected.
pub proof fn law_masks(mask: RowMask, selection: Selection, row: u64)
    requires
        mask.covers(selection),
        mask.range().start <= row < mask.range().end,
    ensures
        mask.bits().len() == mask.range().end - mask.range().start,
        mask.bits()[row - mask.range().start] == selection.selects(row),
{
}

/// With splits given as ranges, the selected rows that are read are those of the splits that both
/// the scan and the caller ask for, and each is read once where no row is in two splits.
pub proof fn law_selected_rows_of_given_splits(
    scan: ScanModel,
    row_range: Option<Range<u64>>,
    row: u64,
)
    requires
        scan.plannable(),
        scan.selection.wf(),
        scan.splits is Ranges,
        scan.selection.selects(row),
    ensures
        covered(scan.ranges(row_range), row) <==> covered(scan.splits->Ranges_0@, row) && admits(
            scan.row_range,
            row,
        ) && admits(row_range, row),
        disjoint(scan.splits->Ranges_0@) ==> disjoint(scan.ranges(row_range)),
{
    law_intersection(scan.row_range, row_range, row);
    law_intersection(
        intersection(scan.row_range, row_range),
        scan.selection.extent(),
        row,
    );
    law_extent_has_every_selected_row(scan.selection, row);
    if let Some(range) = scan.requested(row_range) {
        law_given_ranges_are_clipped(scan.splits->Ranges_0, range, row, 0);
    }
}

/// The ranges of which some row is selected.
pub open spec fn selected_ranges(selection: Selection, ranges: Seq<Range<u64>>) -> Seq<
    Range<u64>,
> {
    ranges.filter(|range: Range<u64>| has_selected(selection, range))
}

/// Asking for one split after the other gives the ranges of which some row is selected, in their
/// order: there is a next one exactly if one is left, it is the first that is left, and behind it
/// the others are left.
pub proof fn law_splits_are_the_selected_ranges(selection: Selection, ranges: Seq<Range<u64>>)
    ensures
        ({
            let left = skip_unselected(selection, ranges);
            if left.len() == 0 {
                selected_ranges(selection, ranges) == Seq::<Range<u64>>::empty()
            } else {
                selected_ranges(selection, ranges) == seq![left[0]] + selected_ranges(
                    selection,
                    left.skip(1),
                )
            }
        }),
    decreases ranges.len(),
{
    let p = |range: Range<u64>| has_selected(selection, range);
    if ranges.len() == 0 {
        reveal(Seq::filter);
    } else {
        let first = seq![ranges[0]];
        let rest = ranges.skip(1);
        assert(ranges =~= first + rest);
        Seq::filter_distributes_over_add(first, rest, p);
        assert(first.filter(p) =~= (if p(ranges[0]) {
            first
        } else {
            Seq::empty()
        })) by {
            reveal_with_fuel(Seq::filter, 2);
            assert(first.drop_last() =~= Seq::empty());
            assert(first.last() == ranges[0]);
        }
        if !p(ranges[0]) {
            law_splits_are_the_selected_ranges(selection, rest);
            assert(Seq::<Range<u64>>::empty() + rest.filter(p) =~= rest.filter(p));
        }
    }
}

} // verus!
