use dusage::mount::{MountStats, UsageLevel};
use dusage::report::create_bar;

#[test]
fn usage_of_seventy_percent() {
    let m = MountStats::new(1000, 300).unwrap();
    assert_eq!(m.total, 1000);
    assert_eq!(m.used, 700);
    assert_eq!(m.free, 300);
    assert_eq!(m.usage_hundredths(), 7000);
    assert_eq!(m.usage_text(), "70.00%");
}

#[test]
fn usage_of_empty_filesystem() {
    let m = MountStats::new(0, 0).unwrap();
    assert_eq!(m.used, 0);
    assert_eq!(m.usage_hundredths(), 0);
    assert_eq!(m.usage_text(), "0.00%");
}

#[test]
fn usage_rounds_to_hundredths() {
    let m = MountStats::new(3, 1).unwrap();
    assert_eq!(m.usage_text(), "66.67%");
    let full = MountStats::new(5, 0).unwrap();
    assert_eq!(full.usage_text(), "100.00%");
}

#[test]
fn more_free_than_total_is_refused() {
    assert!(MountStats::new(10, 11).is_none());
}

#[test]
fn from_blocks_multiplies_by_block_size() {
    let m = MountStats::from_blocks(1000, 250, 4096).unwrap();
    assert_eq!(m.total, 4_096_000);
    assert_eq!(m.free, 1_024_000);
    assert_eq!(m.used, 3_072_000);
}

#[test]
fn from_blocks_refuses_overflow_and_bad_counts() {
    assert!(MountStats::from_blocks(u64::MAX, 0, 2).is_none());
    assert!(MountStats::from_blocks(1, 2, 512).is_none());
}

#[test]
fn bar_rounds_to_whole_cells() {
    assert_eq!(create_bar(1, 2, 10), "\u{2588}\u{2588}\u{2588}\u{2588}\u{2588}     ");
    assert_eq!(create_bar(7, 10, 4), "\u{2588}\u{2588}\u{2588} ");
    assert_eq!(create_bar(1, 8, 4), "\u{2588}   ");
    assert_eq!(create_bar(0, 5, 3), "   ");
}

#[test]
fn bar_edges() {
    assert_eq!(create_bar(0, 0, 3), "   ");
    assert_eq!(create_bar(9, 3, 3), "\u{2588}\u{2588}\u{2588}");
    assert_eq!(create_bar(5, 5, 0), "");
}

#[test]
fn usage_levels_by_share() {
    assert_eq!(MountStats::new(1000, 300).unwrap().usage_level(), UsageLevel::High);
    assert_eq!(MountStats::new(1000, 400).unwrap().usage_level(), UsageLevel::Low);
    assert_eq!(MountStats::new(1000, 399).unwrap().usage_level(), UsageLevel::High);
    assert_eq!(MountStats::new(1000, 150).unwrap().usage_level(), UsageLevel::High);
    assert_eq!(MountStats::new(1000, 149).unwrap().usage_level(), UsageLevel::Critical);
    assert_eq!(MountStats::new(0, 0).unwrap().usage_level(), UsageLevel::Low);
}
