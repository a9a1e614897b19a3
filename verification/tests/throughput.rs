use vortex::display::profile::{DecompressionProfile, NodeTiming};
use vortex::display::throughput::{Closing, Elapsed, Figures, Rate, ThroughputExtractor};
use vortex::text::number_text;

fn node(subtree: u64, children: u64) -> NodeTiming {
    NodeTiming { subtree, children, input_bytes: 10, output_bytes: 20, rows: 5 }
}

fn figures() -> Figures {
    Figures {
        elapsed: "1.81ms".to_string(),
        percent: "50.00".to_string(),
        input: "1.00 MB/s".to_string(),
        output: "2.00 MB/s".to_string(),
        rows: "3.00 krow/s".to_string(),
        closing: "7ns".to_string(),
    }
}

#[test]
fn measured_nodes_are_found() {
    let profile = DecompressionProfile::new(100, vec![(1, node(100, 90)), (2, node(40, 0))]);
    let extractor = ThroughputExtractor::new(profile);
    assert_eq!(extractor.profile().root_time(), 100);
    let timing = extractor.timing(2).unwrap();
    assert_eq!((timing.node, timing.root), (node(40, 0), 100));
    assert!(extractor.timing(3).is_none());
}

#[test]
fn a_line_ends_with_the_time_of_the_node_itself() {
    let extractor =
        ThroughputExtractor::new(DecompressionProfile::new(100, vec![(1, node(100, 90))]));
    let timing = extractor.timing(1).unwrap();
    assert_eq!(timing.closing(), Closing::Itself(10));
    assert_eq!(
        timing.line("  ", &figures()),
        "  throughput: 1.81ms (50.00%) | in 1.00 MB/s | out 2.00 MB/s | 3.00 krow/s | self 7ns\n"
    );
}

#[test]
fn a_line_ends_with_what_fusion_saves() {
    let extractor =
        ThroughputExtractor::new(DecompressionProfile::new(100, vec![(1, node(60, 90))]));
    let timing = extractor.timing(1).unwrap();
    assert_eq!(timing.closing(), Closing::Fused(30));
    assert_eq!(timing.node.self_time(), 0);
    assert_eq!(
        timing.line("", &figures()),
        "throughput: 1.81ms (50.00%) | in 1.00 MB/s | out 2.00 MB/s | 3.00 krow/s \
         | fuses children (saves 7ns)\n"
    );
}

#[test]
fn durations_have_the_largest_unit_that_fits() {
    assert_eq!(Elapsed(1_000_000_000).unit(), (1_000_000_000, "s"));
    assert_eq!(Elapsed(999_999_999).unit(), (1_000_000, "ms"));
    assert_eq!(Elapsed(999_999).unit(), (1_000, "\u{b5}s"));
    assert_eq!(Elapsed(999).unit(), (1, "ns"));
    assert_eq!(Elapsed(999).whole_nanos(), Some("999ns".to_string()));
    assert_eq!(Elapsed(1_000).whole_nanos(), None);
}

#[test]
fn rates_have_the_largest_unit_that_keeps_them_above_one() {
    assert_eq!(Rate(0).unit(4), (1, 0));
    assert_eq!(Rate(999).unit(4), (1, 0));
    assert_eq!(Rate(1_000).unit(4), (1_000, 1));
    assert_eq!(Rate(1_900_000_000).unit(4), (1_000_000_000, 3));
    assert_eq!(Rate(u64::MAX).unit(4), (1_000_000_000, 3));
    assert_eq!(Rate(5_000).unit(1), (1, 0));
    assert_eq!(Rate(u64::MAX).unit(9), (1_000_000_000_000_000_000, 6));
}

#[test]
fn numbers_read_as_decimals() {
    assert_eq!(number_text(0), "0");
    assert_eq!(number_text(1_234_567_890), "1234567890");
    assert_eq!(number_text(i128::MIN), i128::MIN.to_string());
    assert_eq!(number_text(i128::MAX), i128::MAX.to_string());
}
