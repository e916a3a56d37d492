use workhorse::api::ApiResponse;
use workhorse::dict::StrDict;
use workhorse::text::{contains_str, path_join, split_path, to_decimal};

#[test]
fn dictionary_insert_get_remove_round_trip() {
    let mut d = StrDict::new();
    assert!(d.get(&"k".to_string()).is_none());

    d.insert("k".to_string(), "v1".to_string());
    assert_eq!(d.get(&"k".to_string()).unwrap(), "v1");

    // Inserting again replaces the value; keys stay unique.
    d.insert("k".to_string(), "v2".to_string());
    assert_eq!(d.get(&"k".to_string()).unwrap(), "v2");
    assert_eq!(d.items().len(), 1);

    d.insert("other".to_string(), "x".to_string());
    d.remove(&"k".to_string());
    assert!(d.get(&"k".to_string()).is_none());
    assert_eq!(d.get(&"other".to_string()).unwrap(), "x");

    // Removing an absent key is a no-op.
    d.remove(&"k".to_string());
    assert_eq!(d.items().len(), 1);
}

#[test]
fn decimal_rendering_matches_the_number() {
    assert_eq!(to_decimal(0), "0");
    assert_eq!(to_decimal(7), "7");
    assert_eq!(to_decimal(42), "42");
    assert_eq!(to_decimal(1000), "1000");
    assert_eq!(to_decimal(u64::MAX), "18446744073709551615");
}

#[test]
fn substring_search_finds_exactly_substrings() {
    assert!(contains_str("sudo rm -rf /", "rm -rf"));
    assert!(contains_str("abc", ""));
    assert!(contains_str("abc", "abc"));
    assert!(!contains_str("abc", "abcd"));
    assert!(!contains_str("rm - rf", "rm -rf"));
}

#[test]
fn paths_split_and_join_consistently() {
    assert_eq!(path_join("/a/b", "c"), "/a/b/c");

    let (parent, name) = split_path("/a/b/c").unwrap();
    assert_eq!(parent, "/a/b");
    assert_eq!(name, "c");

    assert!(split_path("").is_none());
    assert!(split_path("noslash").is_none());
    assert!(split_path("/trailing/").is_none());

    let (parent, name) = split_path("/x").unwrap();
    assert_eq!(parent, "");
    assert_eq!(name, "x");
}

#[test]
fn api_responses_carry_either_payload_or_message() {
    let ok: ApiResponse<u64> = ApiResponse::success(7);
    assert!(ok.success);
    assert_eq!(ok.data, Some(7));
    assert!(ok.error.is_none());

    let err: ApiResponse<u64> = ApiResponse::error("went wrong".to_string());
    assert!(!err.success);
    assert!(err.data.is_none());
    assert_eq!(err.error, Some("went wrong".to_string()));
}
