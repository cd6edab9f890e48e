use rzc::matcher::{
    anywhere_pattern, anywhere_re, consecutive_pattern, consecutive_re, match_dist, match_dist_at,
    Pattern,
};
use rzc::paths::basename;
use rzc::similarity::{default_threshold, Ratio};

fn needles(list: &[&str]) -> Vec<String> {
    list.iter().map(|s| s.to_string()).collect()
}

#[test]
fn test_anywhere() {
    let re = anywhere_re(&["foo".to_string(), "bar".to_string()], true);
    assert_eq!(re.is_match("/foo/go/bar"), Some(true));
    assert_eq!(re.is_match("/hello/footer/bar/"), Some(true));
    assert_eq!(re.is_match("/hello/footer/barrier"), Some(true));
    assert_eq!(re.is_match("/hello/for_to/bar"), Some(false));
    assert_eq!(re.is_match("/hello/for/badder"), Some(false));
}

#[test]
fn test_consecutive() {
    let re = consecutive_re(&["foo".to_string(), "bar".to_string()], true);
    assert_eq!(re.is_match("foo/bar"), Some(true));
    assert_eq!(re.is_match("/hello/foo/bar"), Some(true));
    assert_eq!(re.is_match("/hello/foo/bar/"), Some(false));
    assert_eq!(re.is_match("/hello/foo/hello/bar"), Some(false));
}

#[test]
fn anywhere_pattern_text() {
    assert_eq!(anywhere_pattern(&needles(&["foo", "bar"])), ".*foo.*bar.*");
    assert_eq!(anywhere_pattern(&needles(&["foo"])), ".*foo.*");
    assert_eq!(anywhere_pattern(&needles(&[])), ".*");
}

#[test]
fn consecutive_pattern_text() {
    assert_eq!(
        consecutive_pattern(&needles(&["foo", "bar"]), '/'),
        "foo[^/]*/[^/]*bar[^/]*$"
    );
    assert_eq!(consecutive_pattern(&needles(&["foo"]), '/'), "foo[^/]*$");
    assert_eq!(consecutive_pattern(&needles(&[]), '/'), "[^/]*$");
    assert_eq!(
        consecutive_pattern(&needles(&["a", "b", "c"]), ':'),
        "a[^:]*:[^:]*b[^:]*:[^:]*c[^:]*$"
    );
}

#[test]
fn needles_are_literal_text() {
    assert_eq!(anywhere_pattern(&needles(&["a.b"])), ".*a\\.b.*");
    assert_eq!(
        anywhere_pattern(&needles(&["\\.+*?()|[]{}^$#&-~"])),
        ".*\\\\\\.\\+\\*\\?\\(\\)\\|\\[\\]\\{\\}\\^\\$\\#\\&\\-\\~.*"
    );
    assert_eq!(consecutive_pattern(&needles(&["c++"]), '/'), "c\\+\\+[^/]*$");
    let re = anywhere_re(&needles(&["a.b"]), true);
    assert_eq!(re.is_match("/x/a.b/y"), Some(true));
    assert_eq!(re.is_match("/x/aXb/y"), Some(false));
    let plus = consecutive_re(&needles(&["c++"]), true);
    assert_eq!(plus.is_match("/src/c++"), Some(true));
    assert_eq!(plus.is_match("/src/ccc"), Some(false));
}

#[test]
fn case_is_ignored_only_on_request() {
    let loose = anywhere_re(&needles(&["foo"]), true);
    assert!(loose.ignore_case);
    assert_eq!(loose.is_match("/A/FOO"), Some(true));
    let strict = anywhere_re(&needles(&["foo"]), false);
    assert!(!strict.ignore_case);
    assert_eq!(strict.is_match("/A/FOO"), Some(false));
    assert_eq!(strict.is_match("/a/foo"), Some(true));
}

#[test]
fn consecutive_allows_partial_segments() {
    let re = consecutive_re(&needles(&["oo", "ba"]), true);
    assert_eq!(re.is_match("/x/foo/bar"), Some(true));
    assert_eq!(re.is_match("/x/foo/bar/baz"), Some(false));
    let single = consecutive_re(&needles(&["bar"]), true);
    assert_eq!(single.is_match("/x/foo/rebar_1"), Some(true));
    assert_eq!(single.is_match("/x/bar/foo"), Some(false));
}

#[test]
fn a_pattern_that_is_no_regex_gives_none() {
    let broken = Pattern { source: "foo(bar".to_string(), ignore_case: true };
    assert_eq!(broken.as_str(), "foo(bar");
    assert_eq!(broken.is_match("foo(bar"), None);
    let backslash = consecutive_pattern(&needles(&["a"]), '\\');
    let re = Pattern { source: backslash, ignore_case: true };
    assert_eq!(re.is_match("a"), None);
}

#[test]
fn last_segment_of_a_path() {
    let text = |v: Vec<char>| v.into_iter().collect::<String>();
    assert_eq!(text(basename("/a/b/cde", '/')), "cde");
    assert_eq!(text(basename("cde", '/')), "cde");
    assert_eq!(text(basename("/a/b/", '/')), "");
    assert_eq!(text(basename("", '/')), "");
    assert_eq!(text(basename("/", '/')), "");
    assert_eq!(text(basename("a:b:c", ':')), "c");
    assert_eq!(text(basename("/你/他们", '/')), "他们");
}

#[test]
fn fuzzy_match_on_last_segment() {
    let t = default_threshold();
    assert!(match_dist_at("kitten", "/pets/kitten", true, t, '/'));
    assert!(match_dist_at("kiten", "/pets/kitten", true, t, '/'));
    assert!(match_dist_at("KITTEN", "/pets/kitten", true, t, '/'));
    assert!(!match_dist_at("KITTEN", "/pets/kitten", false, t, '/'));
    assert!(!match_dist_at("kitten", "/kitten/dogs", true, t, '/'));
    assert!(!match_dist_at("kitten", "/pets/sitting", true, t, '/'));
    assert!(match_dist_at("kitten", "/pets/sitting", true, Ratio { num: 4, den: 7 }, '/'));
    assert!(match_dist_at("kitten", "/pets/sitting", true, Ratio { num: 1, den: 2 }, '/'));
    assert!(match_dist_at("", "/pets/", true, Ratio { num: 1, den: 1 }, '/'));
    assert!(match_dist_at("x", "/pets/kitten", true, Ratio { num: 0, den: 1 }, '/'));
}

#[test]
fn fuzzy_match_with_the_platform_separator() {
    let t = default_threshold();
    assert!(match_dist("kitten", "/pets/kitten", true, t));
    assert!(match_dist("kiten", "kitten", true, t));
    assert!(!match_dist("kitten", "/pets/puppy", true, t));
}

#[test]
fn one_pattern_on_many_texts() {
    let re = anywhere_re(&needles(&["foo"]), true);
    let texts = vec!["/a/foo".to_string(), "/b/bar".to_string(), "FOO".to_string()];
    assert_eq!(re.matches(&texts), Some(vec![true, false, true]));
    assert_eq!(re.matches(&vec![]), Some(vec![]));
    let broken = Pattern { source: "(".to_string(), ignore_case: false };
    assert_eq!(broken.matches(&texts), None);
    assert_eq!(broken.matches(&vec![]), None);
}

#[test]
fn the_platform_separator_is_the_slash_here() {
    let re = consecutive_re(&needles(&["foo", "bar"]), true);
    assert_eq!(re.as_str(), consecutive_pattern(&needles(&["foo", "bar"]), std::path::MAIN_SEPARATOR));
    assert!(match_dist("foo", "/foo", true, default_threshold()));
    assert_eq!(
        match_dist("foo", "/a/fob", true, default_threshold()),
        match_dist_at("foo", "/a/fob", true, default_threshold(), std::path::MAIN_SEPARATOR)
    );
}
