use generator::spoiler::is_overlapping;
use generator::spoiler::spoiler_cluster_run;

#[test]
fn overlap_of_ranges() {
    assert!(is_overlapping(&(2..5), &(4..6)));
    assert!(is_overlapping(&(2..5), &(0..3)));
    assert!(!is_overlapping(&(2..5), &(5..7)));
    assert!(!is_overlapping(&(2..5), &(0..2)));
}

#[test]
fn first_run_of_clusters() {
    let clusters = vec![0..1, 1..2, 2..3, 3..4, 4..5];
    assert_eq!(spoiler_cluster_run(&(1..3), &clusters), Some((1, 2)));
    assert_eq!(spoiler_cluster_run(&(0..5), &clusters), Some((0, 4)));
    assert_eq!(spoiler_cluster_run(&(7..9), &clusters), None);
}

#[test]
fn run_stops_at_the_first_gap() {
    // In visual order (right-to-left text) the covered clusters need not be
    // adjacent: only the first unbroken stretch counts.
    let clusters = vec![4..5, 0..1, 3..4, 1..2];
    assert_eq!(spoiler_cluster_run(&(0..2), &clusters), Some((1, 1)));
    assert_eq!(spoiler_cluster_run(&(3..5), &clusters), Some((0, 0)));
}
