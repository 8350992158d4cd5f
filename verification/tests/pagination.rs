use tams::api::next_page_link;
use tams::pagination::{paginate, pagination_from_query, PaginationParams};

#[test]
fn offset_round_trip() {
    let encoded = PaginationParams::encode_offset(42);
    let params = PaginationParams { page: Some(encoded), limit: 10 };
    assert_eq!(params.offset(), 42);
}

#[test]
fn offset_none_is_zero() {
    let params = PaginationParams { page: None, limit: 10 };
    assert_eq!(params.offset(), 0);
}

#[test]
fn offset_invalid_is_zero() {
    let params = PaginationParams { page: Some("garbage".into()), limit: 10 };
    assert_eq!(params.offset(), 0);
}

#[test]
fn offset_round_trip_large_value() {
    let encoded = PaginationParams::encode_offset(999);
    let params = PaginationParams { page: Some(encoded), limit: 10 };
    assert_eq!(params.offset(), 999);
}

#[test]
fn encoded_offset_is_url_safe_base64_of_digits() {
    assert_eq!(PaginationParams::encode_offset(42), "NDI");
    assert_eq!(PaginationParams::encode_offset(0), "MA");
}

#[test]
fn limit_defaults_and_caps() {
    assert_eq!(pagination_from_query(None, None).limit, 100);
    assert_eq!(pagination_from_query(None, Some(5000)).limit, 1000);
    assert_eq!(pagination_from_query(None, Some(7)).limit, 7);
}

#[test]
fn paginate_middle_page() {
    let items: Vec<u32> = (0..25).collect();
    let params = PaginationParams { page: Some(PaginationParams::encode_offset(10)), limit: 10 };
    let r = paginate(&items, &params);
    assert_eq!((r.start, r.end), (10, 20));
    assert_eq!(r.limit, 10);
    let next = r.next_key.unwrap();
    let p2 = PaginationParams { page: Some(next), limit: 10 };
    assert_eq!(p2.offset(), 20);
}

#[test]
fn paginate_last_page_has_no_next_key() {
    let items: Vec<u32> = (0..25).collect();
    let params = PaginationParams { page: Some(PaginationParams::encode_offset(20)), limit: 10 };
    let r = paginate(&items, &params);
    assert_eq!((r.start, r.end), (20, 25));
    assert!(r.next_key.is_none());
}

#[test]
fn paginate_past_end_is_empty() {
    let items: Vec<u32> = (0..5).collect();
    let params = PaginationParams { page: Some(PaginationParams::encode_offset(50)), limit: 10 };
    let r = paginate(&items, &params);
    assert_eq!(r.start, r.end);
    assert!(r.next_key.is_none());
}

#[test]
fn next_link_keeps_other_pairs() {
    let link = next_page_link("http", "localhost:5800", "/flows", Some("format=x&page=abc&limit=2&"), "NDI", 2);
    assert_eq!(link, "<http://localhost:5800/flows?format=x&page=NDI&limit=2>; rel=\"next\"");
    let bare = next_page_link("https", "h", "/s", None, "MQ", 10);
    assert_eq!(bare, "<https://h/s?page=MQ&limit=10>; rel=\"next\"");
}

#[test]
fn next_key_is_the_encoded_offset() {
    let items: Vec<u32> = (0..25).collect();
    let params = PaginationParams { page: Some(PaginationParams::encode_offset(5)), limit: 7 };
    let r = paginate(&items, &params);
    assert_eq!(r.next_key, Some(PaginationParams::encode_offset(12)));
    assert_eq!(r.next_key.as_deref(), Some("MTI"));
}
