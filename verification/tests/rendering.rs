use translator::decimal::{decimal_of, decimal_of_negated, magnitude};
use translator::render::render;
use translator::text::{from_chars, matches_at, replace, to_chars};
use translator::{apply_formatting, apply_numbers, use_original_text, TextMap};

fn named(pairs: &[(&str, &str)]) -> TextMap {
    let mut map = TextMap::new();
    for (key, value) in pairs {
        map.insert(key.to_string(), value.to_string());
    }
    map
}

fn replaced(text: &str, pattern: &str, with: &str) -> String {
    from_chars(&replace(&to_chars(text), &to_chars(pattern), &to_chars(with)))
}

#[test]
fn characters_round_trip() {
    for text in ["", "a", "Hello", "нет результатов", "日本語 %n", "a\u{1F600}b"] {
        let chars = to_chars(text);
        assert_eq!(chars, text.chars().collect::<Vec<char>>());
        assert_eq!(from_chars(&chars), text);
    }
}

#[test]
fn replace_agrees_with_the_standard_library() {
    let texts = [
        "", "a", "aa", "aaa", "aaaa", "abab", "ababa", "%n", "-%n", "%%nn", "x%ny%n", "--%n%n-",
        "%{a}%{b}", "нет %n результатов", "%", "n%", "%n%", "a%{name", "%{}",
    ];
    let patterns = ["", "a", "aa", "aba", "%n", "-%n", "%{a}", "%{}", "н", "%", "zzzzzzzzzzzz"];
    let replacements = ["", "b", "aa", "%n", "12", "-3", "%{a}", "результат"];
    for text in texts {
        for pattern in patterns {
            for with in replacements {
                assert_eq!(
                    replaced(text, pattern, with),
                    text.replace(pattern, with),
                    "{:?} {:?} {:?}",
                    text,
                    pattern,
                    with
                );
            }
        }
    }
}

#[test]
fn replace_takes_occurrences_from_the_left_without_overlap() {
    assert_eq!(replaced("aaa", "aa", "b"), "ba");
    assert_eq!(replaced("aaaa", "aa", "b"), "bb");
    assert_eq!(replaced("ababa", "aba", "x"), "xba");
}

#[test]
fn replace_does_not_search_what_it_put_in() {
    assert_eq!(replaced("ab", "a", "aa"), "aab");
    assert_eq!(replaced("%n", "%n", "%n%n"), "%n%n");
}

#[test]
fn replace_finds_the_empty_pattern_between_characters() {
    assert_eq!(replaced("abc", "", "x"), "xaxbxcx");
    assert_eq!(replaced("", "", "x"), "x");
    assert_eq!(replaced("abc", "", ""), "abc");
}

#[test]
fn matches_at_tells_where_a_pattern_stands() {
    let text = to_chars("x%ny");
    let token = to_chars("%n");
    assert!(!matches_at(&text, &token, 0));
    assert!(matches_at(&text, &token, 1));
    assert!(!matches_at(&text, &token, 2));
    assert!(!matches_at(&text, &token, 3));
    assert!(!matches_at(&text, &token, 4));
    assert!(!matches_at(&text, &token, 100));
    assert!(matches_at(&text, &to_chars(""), 4));
    assert!(!matches_at(&text, &to_chars(""), 5));
}

#[test]
fn decimal_notation_of_numbers() {
    for n in [
        0i64, 1, 9, 10, 11, 99, 100, 101, 12345, -1, -9, -10, -12345, i64::MAX, i64::MIN,
        i64::MIN + 1,
    ] {
        assert_eq!(from_chars(&decimal_of(n)), n.to_string());
        assert_eq!(from_chars(&decimal_of_negated(n)), (-(n as i128)).to_string());
    }
}

#[test]
fn magnitude_is_the_distance_from_zero() {
    assert_eq!(magnitude(0), 0);
    assert_eq!(magnitude(7), 7);
    assert_eq!(magnitude(-7), 7);
    assert_eq!(magnitude(i64::MAX), 9223372036854775807);
    assert_eq!(magnitude(i64::MIN), 9223372036854775808);
}

#[test]
fn apply_numbers_replaces_every_token() {
    assert_eq!(apply_numbers("%n comments", 2), "2 comments");
    assert_eq!(apply_numbers("%n of %n", 7), "7 of 7");
    assert_eq!(apply_numbers("%n%n", 7), "77");
    assert_eq!(apply_numbers("no token", 7), "no token");
    assert_eq!(apply_numbers("", 7), "");
    assert_eq!(apply_numbers("%n", 0), "0");
    assert_eq!(apply_numbers("%n", -3), "-3");
}

#[test]
fn apply_numbers_negates_after_a_minus_sign() {
    assert_eq!(apply_numbers("Due -%n days ago", -10), "Due 10 days ago");
    assert_eq!(apply_numbers("-%n", 5), "-5");
    assert_eq!(apply_numbers("-%n", -5), "5");
    assert_eq!(apply_numbers("-%n", 0), "0");
    assert_eq!(apply_numbers("%n and -%n", 3), "3 and -3");
    assert_eq!(apply_numbers("%n and -%n", -3), "-3 and 3");
    assert_eq!(apply_numbers("--%n", 4), "--4");
    assert_eq!(apply_numbers("--%n", -4), "-4");
}

#[test]
fn apply_numbers_at_the_ends_of_the_range() {
    assert_eq!(apply_numbers("%n", i64::MAX), "9223372036854775807");
    assert_eq!(apply_numbers("-%n", i64::MAX), "-9223372036854775807");
    assert_eq!(apply_numbers("%n", i64::MIN), "-9223372036854775808");
    assert_eq!(apply_numbers("-%n", i64::MIN), "9223372036854775808");
}

#[test]
fn apply_numbers_leaves_broken_tokens() {
    assert_eq!(apply_numbers("%%nn", 5), "%5n");
    assert_eq!(apply_numbers("% n", 5), "% n");
    assert_eq!(apply_numbers("%N", 5), "%N");
    assert_eq!(apply_numbers("-%", 5), "-%");
}

#[test]
fn apply_numbers_twice_is_apply_numbers_once() {
    for template in ["%n comments", "Due -%n days ago", "%%nn", "-%n%n", "none", "нет %n"] {
        for n in [0i64, 1, -1, 42, -42, i64::MIN, i64::MAX] {
            let once = apply_numbers(template, n);
            assert!(!once.contains("%n"));
            for m in [0i64, 7, -7] {
                assert_eq!(apply_numbers(&once, m), once);
            }
        }
    }
}

#[test]
fn apply_formatting_without_a_formatting_changes_nothing() {
    assert_eq!(apply_formatting("Welcome %{name}", None), "Welcome %{name}");
    assert_eq!(apply_formatting("Welcome %{name}", Some(&TextMap::new())), "Welcome %{name}");
}

#[test]
fn apply_formatting_replaces_every_named_token() {
    let formatting = named(&[("name", "John"), ("album", "Buck's Night")]);
    assert_eq!(
        apply_formatting("%{name} and %{name} like %{album}", Some(&formatting)),
        "John and John like Buck's Night"
    );
    assert_eq!(apply_formatting("%{other} stays", Some(&formatting)), "%{other} stays");
    assert_eq!(apply_formatting("%{name", Some(&formatting)), "%{name");
    assert_eq!(apply_formatting("{name} %name", Some(&formatting)), "{name} %name");
}

#[test]
fn apply_formatting_goes_by_the_order_of_the_names() {
    let first = named(&[("a", "%{b}"), ("b", "x")]);
    assert_eq!(apply_formatting("%{a}", Some(&first)), "x");

    let second = named(&[("b", "x"), ("a", "%{b}")]);
    assert_eq!(apply_formatting("%{a}", Some(&second)), "%{b}");
}

#[test]
fn apply_formatting_with_an_empty_name() {
    let formatting = named(&[("", "nothing")]);
    assert_eq!(apply_formatting("%{} and %{x}", Some(&formatting)), "nothing and %{x}");
}

#[test]
fn use_original_text_puts_the_number_in_as_into_a_template() {
    assert_eq!(use_original_text("%n results", Some(3), None), "3 results");
    assert_eq!(use_original_text("%n results", None, None), "%n results");
    assert_eq!(use_original_text("-%n results", None, None), "-%n results");
    assert_eq!(use_original_text("-%n", Some(5), None), "-5");
    assert_eq!(use_original_text("-%n", Some(-5), None), "5");
    assert_eq!(use_original_text("%n and -%n", Some(-5), None), "-5 and 5");
    assert_eq!(use_original_text("%n", Some(i64::MIN), None), "-9223372036854775808");
    assert_eq!(use_original_text("-%n", Some(i64::MIN), None), "9223372036854775808");
    for text in ["%n", "-%n", "--%n%n", "none", "Due -%n days ago"] {
        for n in [0i64, 1, -1, 42, -42, i64::MIN, i64::MAX] {
            assert_eq!(use_original_text(text, Some(n), None), apply_numbers(text, n));
        }
    }
}

#[test]
fn use_original_text_puts_names_in_after_the_number() {
    let formatting = named(&[("name", "%n")]);
    assert_eq!(use_original_text("%{name} has %n", Some(2), Some(&formatting)), "%n has 2");
    assert_eq!(
        use_original_text("Welcome %{name}", None, Some(&named(&[("name", "John")]))),
        "Welcome John"
    );
}

#[test]
fn render_puts_in_zero_where_there_is_no_number() {
    assert_eq!(render("%n results", None, None), "0 results");
    assert_eq!(render("-%n results", None, None), "0 results");
    assert_eq!(render("%n results", Some(12), None), "12 results");
    assert_eq!(
        render("%{who}: -%n", Some(-4), Some(&named(&[("who", "she")]))),
        "she: 4"
    );
}

#[test]
fn render_puts_names_in_after_the_number() {
    let formatting = named(&[("name", "%n")]);
    assert_eq!(render("%{name} has %n", Some(2), Some(&formatting)), "%n has 2");
}
