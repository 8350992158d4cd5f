use tams::timerange::TimeRange;
use tams::timestamp::{Timestamp, NANOS_PER_SEC};


// -- Parsing --

#[test]
fn parse_eternity() {
    let tr: TimeRange = "_".parse().unwrap();
    assert!(tr.is_eternity());
}

#[test]
fn parse_never() {
    let tr: TimeRange = "()".parse().unwrap();
    assert!(tr.is_never());
}

#[test]
fn parse_inclusive_exclusive() {
    let tr: TimeRange = "[0:0_10:0)".parse().unwrap();
    match &tr {
        TimeRange::Range {
            start: Some(s),
            end: Some(e),
        } => {
            assert_eq!(s.timestamp, Timestamp::new(0));
            assert!(s.inclusive);
            assert_eq!(e.timestamp, Timestamp::new(10 * NANOS_PER_SEC));
            assert!(!e.inclusive);
        }
        _ => panic!("expected Range, got {:?}", tr),
    }
}

#[test]
fn parse_exclusive_start_unbounded_end() {
    let tr: TimeRange = "(5:0_".parse().unwrap();
    match &tr {
        TimeRange::Range {
            start: Some(s),
            end: None,
        } => {
            assert_eq!(s.timestamp, Timestamp::new(5 * NANOS_PER_SEC));
            assert!(!s.inclusive);
        }
        _ => panic!("expected Range with unbounded end, got {:?}", tr),
    }
}

#[test]
fn parse_unbounded_start_inclusive_end() {
    let tr: TimeRange = "_20:0]".parse().unwrap();
    match &tr {
        TimeRange::Range {
            start: None,
            end: Some(e),
        } => {
            assert_eq!(e.timestamp, Timestamp::new(20 * NANOS_PER_SEC));
            assert!(e.inclusive);
        }
        _ => panic!("expected Range with unbounded start, got {:?}", tr),
    }
}

#[test]
fn parse_instantaneous() {
    let tr: TimeRange = "[10:0]".parse().unwrap();
    match &tr {
        TimeRange::Range {
            start: Some(s),
            end: Some(e),
        } => {
            assert_eq!(s.timestamp, e.timestamp);
            assert!(s.inclusive);
            assert!(e.inclusive);
        }
        _ => panic!("expected instantaneous Range, got {:?}", tr),
    }
}

#[test]
fn parse_instantaneous_with_separator() {
    let tr: TimeRange = "[10:0_10:0]".parse().unwrap();
    match &tr {
        TimeRange::Range {
            start: Some(s),
            end: Some(e),
        } => {
            assert_eq!(s.timestamp, e.timestamp);
            assert!(s.inclusive);
            assert!(e.inclusive);
        }
        _ => panic!("expected instantaneous Range, got {:?}", tr),
    }
}

// -- Degenerate cases --

#[test]
fn parse_exclusive_instant_is_never() {
    let tr: TimeRange = "(10:0)".parse().unwrap();
    assert!(tr.is_never());
}

#[test]
fn parse_end_before_start_is_never() {
    let tr: TimeRange = "[10:0_5:0]".parse().unwrap();
    assert!(tr.is_never());
}

#[test]
fn parse_equal_exclusive_end_is_never() {
    let tr: TimeRange = "[10:0_10:0)".parse().unwrap();
    assert!(tr.is_never());
}

// -- Parse errors --

#[test]
fn parse_error_empty() {
    assert!("".parse::<TimeRange>().is_err());
}

#[test]
fn parse_error_bad_timestamp() {
    assert!("[abc_10:0)".parse::<TimeRange>().is_err());
}

#[test]
fn parse_bracket_only_as_never() {
    // All bracket-only combinations are valid per spec regex and parse as Never
    for s in ["[]", "[)", "(]", "()", "[", "]", "(", ")"] {
        assert_eq!(
            s.parse::<TimeRange>().unwrap(),
            TimeRange::Never,
            "{s} should parse as Never"
        );
    }
}

// -- Display --

#[test]
fn display_eternity() {
    assert_eq!(TimeRange::eternity().to_string(), "_");
}

#[test]
fn display_never() {
    assert_eq!(TimeRange::never().to_string(), "()");
}

#[test]
fn display_range() {
    let tr: TimeRange = "[0:0_10:0)".parse().unwrap();
    assert_eq!(tr.to_string(), "[0:0_10:0)");
}

#[test]
fn display_instantaneous() {
    let tr: TimeRange = "[10:0]".parse().unwrap();
    assert_eq!(tr.to_string(), "[10:0]");
}

#[test]
fn display_unbounded_start() {
    let tr: TimeRange = "_20:0]".parse().unwrap();
    assert_eq!(tr.to_string(), "_20:0]");
}

#[test]
fn display_unbounded_end() {
    let tr: TimeRange = "(5:0_".parse().unwrap();
    assert_eq!(tr.to_string(), "(5:0_");
}

// -- Round-trip --

#[test]
fn timerange_round_trip_parse_display() {
    let cases = [
        "_",
        "()",
        "[0:0_10:0)",
        "(5:0_",
        "_20:0]",
        "[10:0]",
        "[100:0_200:0]",
        "(0:0_1:0)",
    ];
    for case in cases {
        let tr: TimeRange = case.parse().unwrap();
        assert_eq!(tr.to_string(), case, "round-trip failed for '{}'", case);
    }
}

// -- Overlap --


fn range(s: &str) -> TimeRange {
    s.parse().unwrap()
}

#[test]
fn overlap_eternity_overlaps_everything() {
    assert!(range("_").overlaps(&range("[0:0_10:0)")));
    assert!(range("_").overlaps(&range("_")));
    assert!(range("[0:0_10:0)").overlaps(&range("_")));
}

#[test]
fn overlap_never_overlaps_nothing() {
    assert!(!range("()").overlaps(&range("[0:0_10:0)")));
    assert!(!range("()").overlaps(&range("_")));
    assert!(!range("()").overlaps(&range("()")));
}

#[test]
fn overlap_adjacent_no_overlap() {
    // [0:0_10:0) and [10:0_20:0) are adjacent, not overlapping
    assert!(!range("[0:0_10:0)").overlaps(&range("[10:0_20:0)")));
}

#[test]
fn overlap_adjacent_inclusive_does_overlap() {
    // [0:0_10:0] and [10:0_20:0) overlap at 10:0
    assert!(range("[0:0_10:0]").overlaps(&range("[10:0_20:0)")));
}

#[test]
fn overlap_partial() {
    assert!(range("[0:0_15:0)").overlaps(&range("[10:0_20:0)")));
}

#[test]
fn overlap_contained() {
    assert!(range("[0:0_20:0)").overlaps(&range("[5:0_15:0)")));
}

#[test]
fn overlap_instantaneous_in_range() {
    assert!(range("[5:0]").overlaps(&range("[0:0_10:0)")));
}

#[test]
fn overlap_instantaneous_at_exclusive_boundary() {
    // [10:0] does NOT overlap [0:0_10:0) because 10:0 is excluded
    assert!(!range("[10:0]").overlaps(&range("[0:0_10:0)")));
}

// -- Contains --

#[test]
fn contains_point_in_range() {
    let tr = range("[0:0_10:0)");
    assert!(tr.contains(&Timestamp::new(5 * NANOS_PER_SEC)));
}

#[test]
fn contains_start_inclusive() {
    let tr = range("[0:0_10:0)");
    assert!(tr.contains(&Timestamp::new(0)));
}

#[test]
fn contains_end_exclusive() {
    let tr = range("[0:0_10:0)");
    assert!(!tr.contains(&Timestamp::new(10 * NANOS_PER_SEC)));
}

#[test]
fn contains_eternity_contains_all() {
    let tr = range("_");
    assert!(tr.contains(&Timestamp::new(0)));
    assert!(tr.contains(&Timestamp::new(-1_000_000_000)));
    assert!(tr.contains(&Timestamp::new(999_999_999_999)));
}

#[test]
fn contains_never_contains_nothing() {
    let tr = range("()");
    assert!(!tr.contains(&Timestamp::new(0)));
}

// -- Union --

#[test]
fn union_with_never() {
    let tr = range("[0:0_10:0)");
    assert_eq!(tr.union(&TimeRange::never()), tr);
    assert_eq!(TimeRange::never().union(&tr), tr);
}

#[test]
fn union_extends_range() {
    let a = range("[0:0_10:0)");
    let b = range("[5:0_20:0)");
    let u = a.union(&b);
    // Should be [0:0_20:0)
    assert_eq!(u.to_string(), "[0:0_20:0)");
}

#[test]
fn union_with_eternity() {
    let a = range("[0:0_10:0)");
    let u = a.union(&TimeRange::eternity());
    assert!(u.is_eternity());
}

// -- Intersect --

#[test]
fn intersect_overlapping() {
    let a = range("[0:0_20:0)");
    let b = range("[5:0_15:0)");
    let i = a.intersect(&b);
    assert_eq!(i.to_string(), "[5:0_15:0)");
}

#[test]
fn intersect_contained() {
    let a = range("[0:0_20:0)");
    let b = range("[0:0_10:0)");
    let i = a.intersect(&b);
    assert_eq!(i.to_string(), "[0:0_10:0)");
}

#[test]
fn intersect_no_overlap() {
    let a = range("[0:0_10:0)");
    let b = range("[20:0_30:0)");
    assert!(a.intersect(&b).is_never());
}

#[test]
fn intersect_with_eternity() {
    let a = range("[5:0_15:0)");
    let i = a.intersect(&TimeRange::eternity());
    assert_eq!(i.to_string(), "[5:0_15:0)");
}

#[test]
fn intersect_with_never() {
    let a = range("[0:0_10:0)");
    assert!(a.intersect(&TimeRange::never()).is_never());
}

// -- Covers --

#[test]
fn covers_fully_contained() {
    assert!(range("[0:0_20:0)").covers(&range("[5:0_15:0)")));
}

#[test]
fn covers_exact_match() {
    assert!(range("[0:0_10:0)").covers(&range("[0:0_10:0)")));
}

#[test]
fn covers_partial_overlap_not_covered() {
    assert!(!range("[5:0_25:0)").covers(&range("[0:0_10:0)")));
}

#[test]
fn covers_no_overlap_not_covered() {
    assert!(!range("[0:0_10:0)").covers(&range("[20:0_30:0)")));
}

#[test]
fn covers_eternity_covers_everything() {
    assert!(range("_").covers(&range("[0:0_10:0)")));
}

#[test]
fn covers_never_is_covered_by_any_range() {
    // Never is trivially covered (empty set is subset of everything)
    assert!(range("[0:0_10:0)").covers(&TimeRange::never()));
}

#[test]
fn covers_boundary_exclusive_end() {
    // [0:0_20:0) does NOT cover [10:0_20:0] because 20:0 inclusive isn't in [0:0_20:0)
    assert!(!range("[0:0_20:0)").covers(&range("[10:0_20:0]")));
}

// -- Serde --

// -- Error descriptions --

#[test]
fn error_message_names_the_side() {
    let e = TimeRange::parse("[abc_10:0)").unwrap_err();
    assert_eq!(e.message(), "start: invalid timestamp: missing colon in 'abc'");
    assert_eq!(e.to_string(), "invalid timerange: start: invalid timestamp: missing colon in 'abc'");
    let e = TimeRange::parse("[0:0_1:01)").unwrap_err();
    assert_eq!(e.message(), "end: invalid timestamp: leading zeros in nanoseconds: '01'");
}

#[test]
fn error_message_instant_and_empty() {
    assert_eq!(TimeRange::parse("").unwrap_err().message(), "empty string");
    assert_eq!(TimeRange::parse("[x]").unwrap_err().message(), "invalid timestamp: missing colon in 'x'");
}
