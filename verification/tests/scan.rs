use std::ops::Range;

use roaring::RoaringTreemap;
use vortex::dtype::{DType, Nullability, PType};
use vortex::error::Error;
use vortex::expr::expression::root;
use vortex::scan::repeated_scan::{intersect_ranges, RepeatedScan, ScanTasks, Splits};
use vortex::scan::selection::Selection;

fn dtype() -> DType {
    DType::Primitive(PType::I32, Nullability::NonNullable)
}

fn scan(
    row_range: Option<Range<u64>>,
    selection: Selection,
    splits: Splits,
    limit: Option<u64>,
) -> RepeatedScan {
    let projection = root().bind(&dtype()).unwrap();
    RepeatedScan::new(projection, None, true, row_range, selection, splits, 2, limit, dtype())
}

fn natural(boundaries: &[u64]) -> Splits {
    Splits::Natural(boundaries.to_vec())
}

fn treemap(rows: &[u64]) -> RoaringTreemap {
    let mut map = RoaringTreemap::new();
    for row in rows {
        map.insert(*row);
    }
    map
}

fn ranges(scan: &RepeatedScan, row_range: Option<Range<u64>>) -> Vec<Range<u64>> {
    scan.task_ranges(row_range)
}

/// The ranges of all tasks, each of which succeeds and reads `cost` rows of the limit.
fn run(tasks: &mut ScanTasks, cost: u64) -> Vec<Range<u64>> {
    let mut covered = Vec::new();
    while let Some(mask) = tasks.next_split() {
        let limit = tasks.limit().map(|limit| limit.saturating_sub(cost));
        let task = tasks.complete::<(), Error>(&mask, Ok(((), limit))).unwrap();
        covered.push(task.row_range().clone());
    }
    covered
}

#[test]
fn ranges_intersect() {
    assert_eq!(intersect_ranges(None, None), None);
    assert_eq!(intersect_ranges(None, Some(1..5)), Some(1..5));
    assert_eq!(intersect_ranges(Some(&(1..5)), None), Some(1..5));
    assert_eq!(intersect_ranges(Some(&(1..5)), Some(3..9)), Some(3..5));
    assert_eq!(intersect_ranges(Some(&(1..3)), Some(5..9)), Some(5..3));
}

#[test]
fn natural_splits_tile_the_source() {
    let scan = scan(None, Selection::All, natural(&[0, 10, 20, 30]), None);
    assert_eq!(ranges(&scan, None), vec![0..10, 10..20, 20..30]);
}

#[test]
fn natural_splits_are_cut_at_the_requested_rows() {
    let scan = scan(Some(5..100), Selection::All, natural(&[0, 10, 20, 30]), None);
    assert_eq!(ranges(&scan, Some(0..25)), vec![5..10, 10..20, 20..25]);
    assert_eq!(ranges(&scan, Some(10..20)), vec![10..20]);
    assert_eq!(ranges(&scan, Some(12..13)), vec![12..13]);
    assert_eq!(ranges(&scan, Some(25..40)), vec![25..30, 30..40]);
    assert_eq!(ranges(&scan, Some(7..7)), Vec::<Range<u64>>::new());
    assert_eq!(ranges(&scan, Some(0..3)), Vec::<Range<u64>>::new());
}

#[test]
fn given_splits_are_clipped() {
    let splits = Splits::Ranges(vec![0..10, 20..30, 40..50]);
    let scan = scan(None, Selection::All, splits, None);
    assert_eq!(ranges(&scan, None), vec![0..10, 20..30, 40..50]);
    assert_eq!(ranges(&scan, Some(5..45)), vec![5..10, 20..30, 40..45]);
    assert_eq!(ranges(&scan, Some(10..20)), Vec::<Range<u64>>::new());
}

#[test]
fn a_selection_restricts_the_ranges_to_its_extent() {
    let by_index = Selection::IncludeByIndex(vec![12, 14, 25]);
    let scanned = scan(None, by_index, natural(&[0, 10, 20, 30]), None);
    assert_eq!(ranges(&scanned, None), vec![12..20, 20..26]);

    let by_set = Selection::IncludeRoaring(treemap(&[12, 14, 25]));
    let scanned = scan(None, by_set, natural(&[0, 10, 20, 30]), None);
    assert_eq!(ranges(&scanned, None), vec![12..20, 20..26]);

    let nothing = Selection::IncludeByIndex(vec![]);
    let scanned = scan(None, nothing, natural(&[0, 10]), None);
    assert_eq!(ranges(&scanned, None), vec![0..10]);

    let empty_set = Selection::IncludeRoaring(treemap(&[]));
    let scanned = scan(None, empty_set, natural(&[0, 10]), None);
    assert_eq!(ranges(&scanned, None), vec![0..10]);

    let all_but = Selection::ExcludeRoaring(treemap(&[3]));
    let scanned = scan(None, all_but, natural(&[0, 10]), None);
    assert_eq!(ranges(&scanned, None), vec![0..10]);
}

#[test]
fn row_masks_hold_the_selected_rows() {
    let mask = Selection::IncludeByIndex(vec![1, 3, 3, 9]).row_mask(&(2..5));
    assert_eq!(mask.row_range(), 2..5);
    assert_eq!(mask.mask(), &vec![false, true, false]);
    assert!(!mask.all_false());
    assert_eq!(
        Selection::ExcludeByIndex(vec![3]).row_mask(&(2..5)).mask(),
        &vec![true, false, true]
    );
    assert_eq!(
        Selection::IncludeRoaring(treemap(&[4])).row_mask(&(2..5)).mask(),
        &vec![false, false, true]
    );
    assert_eq!(
        Selection::ExcludeRoaring(treemap(&[2, 3, 4])).row_mask(&(2..5)).all_false(),
        true
    );
    assert!(Selection::All.row_mask(&(4..4)).all_false());
}

#[test]
fn splits_without_selected_rows_are_skipped() -> Result<(), Error> {
    let selection = Selection::IncludeByIndex(vec![5, 25]);
    let scan = scan(None, selection, natural(&[0, 10, 20, 30]), None);
    let mut tasks = scan.tasks(None)?;
    assert_eq!(run(&mut tasks, 1), vec![5..10, 20..26]);
    assert!(tasks.next_split().is_none());
    Ok(())
}

#[test]
fn every_selected_row_is_read_once() -> Result<(), Error> {
    let selected = [3u64, 4, 11, 12, 29];
    let selection = Selection::IncludeRoaring(treemap(&selected));
    let scan = scan(Some(4..40), selection, natural(&[0, 10, 20, 30]), None);
    let mut tasks = scan.tasks(Some(0..20))?;
    let mut read = Vec::new();
    while let Some(mask) = tasks.next_split() {
        let start = mask.row_range().start;
        for (i, selected) in mask.mask().iter().enumerate() {
            if *selected {
                read.push(start + i as u64);
            }
        }
        tasks.complete::<(), Error>(&mask, Ok(((), None)))?;
    }
    assert_eq!(read, vec![4, 11, 12]);
    Ok(())
}

#[test]
fn a_used_up_limit_ends_the_scan() -> Result<(), Error> {
    let scan = scan(None, Selection::All, natural(&[0, 10, 20, 30]), Some(2));
    let mut tasks = scan.tasks(None)?;
    assert_eq!(run(&mut tasks, 1), vec![0..10, 10..20]);
    Ok(())
}

#[test]
fn an_error_ends_the_scan() -> Result<(), Error> {
    let scan = scan(None, Selection::All, natural(&[0, 10, 20]), None);
    let mut tasks = scan.tasks(None)?;
    let mask = tasks.next_split().unwrap();
    assert_eq!(tasks.complete::<(), &str>(&mask, Err("gone")).err(), Some("gone"));
    assert!(tasks.next_split().is_none());
    Ok(())
}

#[test]
fn a_task_hands_back_its_future() -> Result<(), Error> {
    let scan = scan(None, Selection::All, natural(&[0, 10]), None);
    let mut tasks = scan.tasks(None)?;
    assert!(tasks.ctx().filter().is_none());
    assert!(tasks.ctx().projection().is_root());
    let mask = tasks.next_split().unwrap();
    let task = tasks.complete::<&str, Error>(&mask, Ok(("work", None)))?;
    assert_eq!(task.row_range(), &(0..10));
    assert_eq!(task.into_future(), "work");
    Ok(())
}

#[test]
fn a_scan_knows_its_settings() {
    let scan = scan(None, Selection::All, natural(&[]), None);
    assert_eq!(scan.dtype(), &dtype());
    assert!(scan.ordered());
    assert_eq!(scan.total_concurrency(Some(8)), 16);
    assert_eq!(scan.total_concurrency(None), 2);
    assert_eq!(ranges(&scan, None), Vec::<Range<u64>>::new());
}

#[test]
fn selections_are_copied_whole() {
    let copy = Selection::IncludeRoaring(treemap(&[7])).clone();
    assert!(copy.contains(7));
    assert!(!copy.contains(8));
    assert!(!Selection::ExcludeByIndex(vec![7]).clone().contains(7));
    assert!(Selection::All.clone().contains(u64::MAX));
}
