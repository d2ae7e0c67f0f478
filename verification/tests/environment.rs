use aa::dict::Dict;
use aa::environment::{apply_one, ApplyEnvironment, Environment};
use aa::text::{chars_of, matches_at, replace_chars, string_of, uppercase_chars};

fn environment(entries: &[(&str, &str)]) -> Environment {
    let mut map = Environment::new();
    for (key, value) in entries {
        map.insert(key.to_string(), value.to_string());
    }
    map
}

fn replaced(s: &str, from: &str, to: &str) -> String {
    string_of(&replace_chars(&chars_of(s), &chars_of(from), &chars_of(to)))
}

#[test]
fn precedence_works_as_expected() {
    let envs = vec![
        environment(&[("foo", "bar")]),
        environment(&[("foo", "baz"), ("bar", "buzz")]),
    ];
    assert_eq!(
        envs.apply_environment("{foo} {bar}"),
        "bar buzz".to_string()
    );
}

#[test]
fn unresolved_key_is_left_literal() {
    let none: Vec<Environment> = Vec::new();
    assert_eq!(none.apply_environment("{missing}"), "{missing}");
    let envs = vec![environment(&[("foo", "bar")]), environment(&[])];
    assert_eq!(envs.apply_environment("{missing}"), "{missing}");
    assert_eq!(envs.apply_environment("a {missing} {foo}"), "a {missing} bar");
}

#[test]
fn later_environment_fills_what_earlier_left() {
    let envs = vec![
        environment(&[("a", "1")]),
        environment(&[("b", "2"), ("a", "3")]),
    ];
    assert_eq!(envs.apply_environment("{a}{b}{a}"), "121");
}

#[test]
fn every_occurrence_is_replaced() {
    let envs = vec![environment(&[("x", "yy")])];
    assert_eq!(envs.apply_environment("{x}-{x}-{x}"), "yy-yy-yy");
    assert_eq!(envs.apply_environment("pre{x}post"), "preyypost");
}

#[test]
fn value_is_not_searched_again_within_its_environment() {
    let envs = vec![environment(&[("a", "{b}"), ("b", "x")])];
    assert_eq!(envs.apply_environment("{a}"), "{b}");
    assert_eq!(envs.apply_environment("{a}{b}"), "{b}x");
    let envs = vec![environment(&[("b", "x"), ("a", "{b}")])];
    assert_eq!(envs.apply_environment("{a}"), "{b}");
    assert_eq!(envs.apply_environment("{a}{b}"), "{b}x");
    let envs = vec![environment(&[("a", "{a}{a}")])];
    assert_eq!(envs.apply_environment("{a}"), "{a}{a}");
}

#[test]
fn order_of_keys_does_not_matter() {
    let one = vec![environment(&[("a", "1"), ("b", "{a}"), ("c", "{b}{c}")])];
    let other = vec![environment(&[("c", "{b}{c}"), ("a", "1"), ("b", "{a}")])];
    for text in ["{a}{b}{c}", "{c}{b}{a}", "x{a}y{b}z{c}", "{{a}}", "{a", "a}", "{b}{b}"] {
        assert_eq!(one.apply_environment(text), other.apply_environment(text));
    }
    assert_eq!(one.apply_environment("{a}{b}{c}"), "1{a}{b}{c}");
    assert_eq!(one.apply_environment("{{a}}"), "{1}");
}

#[test]
fn later_environment_searches_what_an_earlier_one_put_in() {
    let envs = vec![
        environment(&[("a", "{b}")]),
        environment(&[("b", "x")]),
    ];
    assert_eq!(envs.apply_environment("{a}"), "x");
}

#[test]
fn tokens_are_taken_from_the_left() {
    let envs = vec![environment(&[("a}", "1"), ("a", "2")])];
    assert_eq!(envs.apply_environment("{a}}"), "1");
    let envs = vec![environment(&[("a", "2"), ("a}", "1")])];
    assert_eq!(envs.apply_environment("{a}}"), "2}");
}

#[test]
fn earlier_environment_does_not_see_later_values() {
    let envs = vec![
        environment(&[("inner", "value")]),
        environment(&[("outer", "{inner}")]),
    ];
    assert_eq!(envs.apply_environment("{outer}"), "{inner}");
}

#[test]
fn first_definition_decides_for_single_token() {
    let envs = vec![
        environment(&[("other", "x")]),
        environment(&[("key", "first")]),
        environment(&[("key", "second")]),
    ];
    assert_eq!(envs.apply_environment("{key}"), "first");
}

#[test]
fn apply_one_walks_one_environment() {
    let env = environment(&[("foo", "bar"), ("n", "1")]);
    let out = apply_one(&env, chars_of("{foo}/{n}/{foo}"));
    assert_eq!(string_of(&out), "bar/1/bar");
}

#[test]
fn replace_takes_occurrences_from_the_left() {
    assert_eq!(replaced("aaa", "aa", "b"), "ba");
    assert_eq!(replaced("abcabc", "bc", ""), "aa");
    assert_eq!(replaced("abc", "abcd", "x"), "abc");
    assert_eq!(replaced("", "a", "x"), "");
    assert_eq!(replaced("aXbXc", "X", "XX"), "aXXbXXc");
    assert_eq!(replaced("héllo wörld", "ö", "oe"), "héllo woerld");
}

#[test]
fn replace_with_empty_pattern_changes_nothing() {
    assert_eq!(replaced("abc", "", "x"), "abc");
}

#[test]
fn matches_at_checks_bounds() {
    let s = chars_of("hello");
    assert!(matches_at(&s, 0, &chars_of("he")));
    assert!(matches_at(&s, 3, &chars_of("lo")));
    assert!(!matches_at(&s, 4, &chars_of("lo")));
    assert!(matches_at(&s, 5, &chars_of("")));
    assert!(!matches_at(&s, 6, &chars_of("")));
    assert!(!matches_at(&s, 1, &chars_of("he")));
}

#[test]
fn characters_round_trip() {
    let s = "a{b}ç→z";
    assert_eq!(chars_of(s), s.chars().collect::<Vec<char>>());
    assert_eq!(string_of(&chars_of(s)), s);
}

#[test]
fn uppercase_touches_ascii_letters_only() {
    assert_eq!(string_of(&uppercase_chars(&chars_of("get"))), "GET");
    assert_eq!(string_of(&uppercase_chars(&chars_of("PaTcH-1é"))), "PATCH-1é");
    assert_eq!(
        string_of(&uppercase_chars(&chars_of("az`{"))),
        "az`{".to_ascii_uppercase()
    );
}

#[test]
fn dict_keeps_order_and_replaces_in_place() {
    let mut d: Dict<String> = Dict::new();
    assert_eq!(d.len(), 0);
    d.insert("a".to_string(), "1".to_string());
    d.insert("b".to_string(), "2".to_string());
    d.insert("a".to_string(), "3".to_string());
    assert_eq!(d.len(), 2);
    assert_eq!(d.key_at(0), "a");
    assert_eq!(d.value_at(0), "3");
    assert_eq!(d.key_at(1), "b");
    assert_eq!(d.get("a"), Some(&"3".to_string()));
    assert_eq!(d.get("c"), None);
    assert_eq!(d.find("b"), Some(1));
    assert_eq!(d.find("zz"), None);
    assert!(d.contains_key("b"));
    assert!(!d.contains_key("B"));
}

#[test]
fn dict_extend_overwrites_and_appends() {
    let mut d = environment(&[("a", "1"), ("b", "2")]);
    let more = environment(&[("c", "3"), ("a", "4")]);
    d.extend(more);
    assert_eq!(d.len(), 3);
    assert_eq!(d.key_at(0), "a");
    assert_eq!(d.value_at(0), "4");
    assert_eq!(d.key_at(2), "c");
    let copy = d.clone();
    assert_eq!(copy.len(), 3);
    assert_eq!(copy.get("b"), Some(&"2".to_string()));
}
