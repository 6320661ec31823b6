use pokedesc::cache::{get_cached_response_for_id, set_cached_response_for_id, CacheError};

#[test]
fn set_then_get_round_trip() {
    let payload = "{\"name\":\"bulbasaur\"}";
    let text = set_cached_response_for_id(None, 1, payload).unwrap();
    let got = get_cached_response_for_id(Some(text.as_str()), 1).unwrap();
    assert_eq!(got.as_deref(), Some(payload));
}

#[test]
fn round_trip_keeps_awkward_payloads() {
    let payload = "line one\nline \"two\" with {braces} and \\slashes";
    let text = set_cached_response_for_id(None, 42, payload).unwrap();
    let got = get_cached_response_for_id(Some(text.as_str()), 42).unwrap();
    assert_eq!(got.as_deref(), Some(payload));
}

#[test]
fn second_write_wins() {
    let text_a = set_cached_response_for_id(None, 9, "first").unwrap();
    let text_b = set_cached_response_for_id(Some(text_a.as_str()), 9, "second").unwrap();
    let got = get_cached_response_for_id(Some(text_b.as_str()), 9).unwrap();
    assert_eq!(got.as_deref(), Some("second"));
}

#[test]
fn miss_on_absent_file() {
    let got = get_cached_response_for_id(None, 151).unwrap();
    assert_eq!(got, None);
}

#[test]
fn miss_on_empty_mapping() {
    let got = get_cached_response_for_id(Some("{}"), 151).unwrap();
    assert_eq!(got, None);
}

#[test]
fn miss_on_id_never_written() {
    let text = set_cached_response_for_id(None, 1, "something").unwrap();
    let got = get_cached_response_for_id(Some(text.as_str()), 2).unwrap();
    assert_eq!(got, None);
}

#[test]
fn distinct_ids_keep_distinct_payloads() {
    let text_a = set_cached_response_for_id(None, 1, "one").unwrap();
    let text_b = set_cached_response_for_id(Some(text_a.as_str()), 12, "twelve").unwrap();
    let one = get_cached_response_for_id(Some(text_b.as_str()), 1).unwrap();
    let twelve = get_cached_response_for_id(Some(text_b.as_str()), 12).unwrap();
    assert_eq!(one.as_deref(), Some("one"));
    assert_eq!(twelve.as_deref(), Some("twelve"));
}

#[test]
fn corrupt_file_fails_get() {
    let got = get_cached_response_for_id(Some("not json at all"), 1);
    assert_eq!(got, Err(CacheError::Corrupt));
}

#[test]
fn corrupt_file_fails_set() {
    let got = set_cached_response_for_id(Some("[1, 2, 3]"), 1, "payload");
    assert_eq!(got, Err(CacheError::Corrupt));
}
