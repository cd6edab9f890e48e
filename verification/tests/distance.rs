use rzc::distance::{char_distance, edition_dist};

#[test]
fn test_edit_dist() {
    assert_eq!(edition_dist("eeba", "abac"), 3);
    assert_eq!(edition_dist("love", "lolpe"), 2);
    assert_eq!(edition_dist("我我他你", "你他你们"), 3);
}

#[test]
fn distance_to_empty_is_length() {
    assert_eq!(edition_dist("", ""), 0);
    assert_eq!(edition_dist("", "abc"), 3);
    assert_eq!(edition_dist("abcd", ""), 4);
}

#[test]
fn distance_to_self_is_zero() {
    assert_eq!(edition_dist("kitten", "kitten"), 0);
    assert_eq!(edition_dist("你他你们", "你他你们"), 0);
}

#[test]
fn distance_is_symmetric() {
    assert_eq!(edition_dist("kitten", "sitting"), 3);
    assert_eq!(edition_dist("sitting", "kitten"), 3);
    assert_eq!(edition_dist("flaw", "lawn"), 2);
    assert_eq!(edition_dist("lawn", "flaw"), 2);
}

#[test]
fn distance_counts_code_points_not_bytes() {
    assert_eq!(edition_dist("é", "e"), 1);
    assert_eq!(edition_dist("日本語", "日本"), 1);
}

#[test]
fn distance_never_exceeds_longer_length() {
    assert_eq!(edition_dist("abc", "xyz"), 3);
    assert_eq!(edition_dist("ab", "wxyz"), 4);
}

#[test]
fn distance_on_character_vectors() {
    let a: Vec<char> = "saturday".chars().collect();
    let b: Vec<char> = "sunday".chars().collect();
    assert_eq!(char_distance(&a, &b), 3);
}
