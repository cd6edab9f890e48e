use rzc::data::Data;
use rzc::resolve::{choose_place, first_set, resolve, resolve_among};
use rzc::similarity::{default_threshold, Ratio};

fn needles(list: &[&str]) -> Vec<String> {
    list.iter().map(|s| s.to_string()).collect()
}

fn index(pairs: &[(&str, u64)]) -> Data {
    let mut data = Data::new();
    for (path, weight) in pairs {
        data.insert(path.to_string(), *weight);
    }
    data
}

fn among(data: &Data, eligible: &[bool], query: &[&str]) -> Option<String> {
    resolve_among(
        &data.sorted(),
        &eligible.to_vec(),
        &needles(query),
        '/',
        true,
        default_threshold(),
    )
}

#[test]
fn first_set_finds_the_least_place() {
    assert_eq!(first_set(&vec![]), None);
    assert_eq!(first_set(&vec![false, false]), None);
    assert_eq!(first_set(&vec![true]), Some(0));
    assert_eq!(first_set(&vec![false, true, true]), Some(1));
    assert_eq!(first_set(&vec![false, false, true]), Some(2));
}

#[test]
fn strategy_priority_overrides_weight() {
    let data = index(&[("/a/foo/bar", 5), ("/a/foobar/x", 100)]);
    assert_eq!(among(&data, &[true, true], &["foo", "bar"]), Some("/a/foo/bar".to_string()));
}

#[test]
fn heaviest_hit_of_a_strategy_wins() {
    let data = index(&[("/x/foo/bar", 5), ("/y/foo/bar", 7), ("/z/foo/bar", 6)]);
    assert_eq!(among(&data, &[true, true, true], &["foo", "bar"]), Some("/y/foo/bar".to_string()));
    assert_eq!(among(&data, &[false, true, true], &["foo", "bar"]), Some("/z/foo/bar".to_string()));
    assert_eq!(among(&data, &[false, false, true], &["foo", "bar"]), Some("/x/foo/bar".to_string()));
}

#[test]
fn equal_weights_resolve_to_the_earlier_entry() {
    let data = index(&[("/x/foo", 5), ("/y/foo", 5)]);
    assert_eq!(among(&data, &[true, true], &["foo"]), Some("/x/foo".to_string()));
}

#[test]
fn fuzzy_match_comes_before_anywhere_match() {
    let data = index(&[("/kitten/deep/down", 100), ("/pets/kiten", 5)]);
    assert_eq!(among(&data, &[true, true], &["kitten"]), Some("/pets/kiten".to_string()));
}

#[test]
fn anywhere_match_is_the_last_resort() {
    let data = index(&[("/kitten/deep/down", 100), ("/pets/puppy", 5)]);
    assert_eq!(among(&data, &[true, true], &["kitten"]), Some("/kitten/deep/down".to_string()));
    assert_eq!(among(&data, &[true, true], &["pets", "upp"]), Some("/pets/puppy".to_string()));
    assert_eq!(among(&data, &[true, true], &["down", "kitten"]), None);
}

#[test]
fn fuzzy_match_looks_at_the_last_needle_only() {
    let data = index(&[("/a/kitten", 5)]);
    assert_eq!(among(&data, &[true], &["nothing", "kiten"]), Some("/a/kitten".to_string()));
}

#[test]
fn threshold_decides_the_fuzzy_match() {
    let data = index(&[("/pets/sitting", 5)]);
    let snapshot = data.sorted();
    let query = needles(&["kitten"]);
    let strict = resolve_among(&snapshot, &vec![true], &query, '/', true, Ratio { num: 3, den: 5 });
    assert_eq!(strict, None);
    let loose = resolve_among(&snapshot, &vec![true], &query, '/', true, Ratio { num: 1, den: 2 });
    assert_eq!(loose, Some("/pets/sitting".to_string()));
}

#[test]
fn case_matters_only_on_request() {
    let data = index(&[("/A/FOO", 5)]);
    let snapshot = data.sorted();
    let query = needles(&["foo"]);
    let t = default_threshold();
    assert_eq!(
        resolve_among(&snapshot, &vec![true], &query, '/', true, t),
        Some("/A/FOO".to_string())
    );
    assert_eq!(resolve_among(&snapshot, &vec![true], &query, '/', false, t), None);
}

#[test]
fn entries_that_are_not_eligible_are_never_resolved_to() {
    let data = index(&[("/a/foo/bar", 5), ("/b/foo/bar", 4)]);
    assert_eq!(among(&data, &[false, true], &["foo", "bar"]), Some("/b/foo/bar".to_string()));
    assert_eq!(among(&data, &[false, false], &["foo", "bar"]), None);
    assert_eq!(among(&data, &[], &["foo", "bar"]), None);
    assert_eq!(among(&data, &[true], &["foo", "bar"]), Some("/a/foo/bar".to_string()));
}

#[test]
fn a_query_without_needles_resolves_to_nothing() {
    let data = index(&[("/a/foo/bar", 5)]);
    assert_eq!(among(&data, &[true], &[]), None);
    assert_eq!(resolve(&data, &[], "/elsewhere", true, default_threshold()), None);
}

#[test]
fn nothing_matches() {
    let data = index(&[("/a/foo/bar", 5)]);
    assert_eq!(among(&data, &[true], &["zzzzzzzz"]), None);
    assert_eq!(among(&Data::new(), &[], &["foo"]), None);
}

#[test]
fn needles_with_meta_characters_match_literally() {
    let data = index(&[("/src/cxx", 9), ("/src/c++", 5)]);
    assert_eq!(among(&data, &[true, true], &["c++"]), Some("/src/c++".to_string()));
}

#[test]
fn another_separator() {
    let data = index(&[("a:foo:bar", 5), ("a:foobar:x", 100)]);
    let r = resolve_among(
        &data.sorted(),
        &vec![true, true],
        &needles(&["foo", "bar"]),
        ':',
        true,
        default_threshold(),
    );
    assert_eq!(r, Some("a:foo:bar".to_string()));
}

#[test]
fn resolve_skips_paths_that_are_not_on_disk() {
    let data = index(&[("/no/such/place/tmp", 100), ("/tmp", 5)]);
    let t = default_threshold();
    assert_eq!(resolve(&data, &needles(&["tmp"]), "/", true, t), Some("/tmp".to_string()));
    let none = index(&[("/no/such/place/tmp", 100)]);
    assert_eq!(resolve(&none, &needles(&["tmp"]), "/", true, t), None);
}

#[test]
fn resolve_never_stays_in_the_current_directory() {
    let data = index(&[("/tmp", 100)]);
    let t = default_threshold();
    assert_eq!(resolve(&data, &needles(&["tmp"]), "/tmp", true, t), None);
    assert_eq!(resolve(&data, &needles(&["tmp"]), "/tmp/", true, t), None);
    assert_eq!(resolve(&data, &needles(&["tmp"]), "/", true, t), Some("/tmp".to_string()));
    let two = index(&[("/tmp", 100), ("/tmp/", 5)]);
    assert_eq!(resolve(&two, &needles(&["tmp"]), "/tmp", true, t), None);
}

#[test]
fn earlier_strategy_settles_the_place() {
    let none = vec![false, false, false];
    assert_eq!(choose_place(&vec![false, false, true], &vec![true, false, false], &vec![false, true, false]), Some(2));
    assert_eq!(choose_place(&none, &vec![false, true, true], &vec![true, false, false]), Some(1));
    assert_eq!(choose_place(&none, &none, &vec![true, false, false]), Some(0));
    assert_eq!(choose_place(&none, &none, &none), None);
    assert_eq!(choose_place(&vec![], &vec![], &vec![]), None);
    assert_eq!(choose_place(&vec![], &vec![false, true], &vec![true]), Some(1));
}
