use tams::tags::{TagFilters, TagValue, Tags};


// -- TagValue --

#[test]
fn single_matches_exact() {
    let v = TagValue::Single("news".into());
    assert!(v.matches_any(&["news"]));
}

#[test]
fn single_no_match() {
    let v = TagValue::Single("news".into());
    assert!(!v.matches_any(&["sport"]));
}

#[test]
fn single_matches_one_of_many() {
    let v = TagValue::Single("news".into());
    assert!(v.matches_any(&["sport", "news"]));
}

#[test]
fn multiple_matches_one_element() {
    let v = TagValue::Multiple(vec!["news".into(), "live".into()]);
    assert!(v.matches_any(&["live"]));
}

#[test]
fn multiple_no_match() {
    let v = TagValue::Multiple(vec!["news".into(), "live".into()]);
    assert!(!v.matches_any(&["sport"]));
}

#[test]
fn multiple_matches_or_across_filter_and_value() {
    let v = TagValue::Multiple(vec!["news".into(), "live".into()]);
    assert!(v.matches_any(&["sport", "news"]));
}


#[test]
fn parse_tag_value_filter() {
    let f = TagFilters::from_query("tag.genre=news,sport");
    assert_eq!(f.value_filters.len(), 1);
    assert_eq!(f.value_filters[0].0, "genre");
    assert_eq!(f.value_filters[0].1, vec!["news", "sport"]);
}

#[test]
fn parse_tag_exists_true() {
    let f = TagFilters::from_query("tag_exists.genre=true");
    assert_eq!(f.exists_filters.len(), 1);
    assert_eq!(f.exists_filters[0], ("genre".into(), true));
}

#[test]
fn parse_tag_exists_false() {
    let f = TagFilters::from_query("tag_exists.genre=false");
    assert_eq!(f.exists_filters[0], ("genre".into(), false));
}

#[test]
fn parse_ignores_non_tag_params() {
    let f = TagFilters::from_query("label=foo&tag.genre=news&limit=10");
    assert_eq!(f.value_filters.len(), 1);
    assert!(f.exists_filters.is_empty());
}

#[test]
fn matches_value_filter_pass() {
    let mut tags = Tags::new();
    tags.insert("genre".into(), TagValue::Single("news".into()));
    let f = TagFilters {
        value_filters: vec![("genre".into(), vec!["news".into(), "sport".into()])],
        exists_filters: vec![],
    };
    assert!(f.matches(&tags));
}

#[test]
fn matches_value_filter_fail() {
    let mut tags = Tags::new();
    tags.insert("genre".into(), TagValue::Single("drama".into()));
    let f = TagFilters {
        value_filters: vec![("genre".into(), vec!["news".into(), "sport".into()])],
        exists_filters: vec![],
    };
    assert!(!f.matches(&tags));
}

#[test]
fn matches_exists_true_pass() {
    let mut tags = Tags::new();
    tags.insert("genre".into(), TagValue::Single("news".into()));
    let f = TagFilters {
        value_filters: vec![],
        exists_filters: vec![("genre".into(), true)],
    };
    assert!(f.matches(&tags));
}

#[test]
fn matches_exists_true_fail() {
    let tags = Tags::new();
    let f = TagFilters {
        value_filters: vec![],
        exists_filters: vec![("genre".into(), true)],
    };
    assert!(!f.matches(&tags));
}

#[test]
fn matches_exists_false_pass() {
    let tags = Tags::new();
    let f = TagFilters {
        value_filters: vec![],
        exists_filters: vec![("genre".into(), false)],
    };
    assert!(f.matches(&tags));
}

#[test]
fn matches_exists_false_fail() {
    let mut tags = Tags::new();
    tags.insert("genre".into(), TagValue::Single("news".into()));
    let f = TagFilters {
        value_filters: vec![],
        exists_filters: vec![("genre".into(), false)],
    };
    assert!(!f.matches(&tags));
}

#[test]
fn matches_empty_filters_pass_anything() {
    let tags = Tags::new();
    let f = TagFilters::default();
    assert!(f.matches(&tags));
}
