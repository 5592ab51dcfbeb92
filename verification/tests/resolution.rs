use translator::translator::in_range;
use translator::{
    get_context_data, ContextOptions, DataOptions, NumOrFormatting, Table, TextMap, Translator,
    Value,
};

type Hook = fn(&str, Option<i64>, Option<&TextMap>, Option<&TextMap>) -> String;

fn bindings(pairs: &[(&str, &str)]) -> TextMap {
    let mut map = TextMap::new();
    for (key, value) in pairs {
        map.insert(key.to_string(), value.to_string());
    }
    map
}

fn entries(list: Vec<(&str, Value)>) -> Table {
    let mut table = Table::new();
    for (key, value) in list {
        table.insert(key.to_string(), value);
    }
    table
}

fn literal(text: &str) -> Value {
    Value::Single(text.to_string())
}

fn plural(list: &[(Option<i64>, Option<i64>, &str)]) -> Value {
    Value::List(list.iter().map(|(low, high, text)| (*low, *high, text.to_string())).collect())
}

fn scoped(matches: &[(&str, &str)], list: Vec<(&str, Value)>) -> ContextOptions {
    ContextOptions { matches: bindings(matches), values: entries(list) }
}

fn with_defaults(list: Vec<(&str, Value)>) -> Translator<Hook> {
    Translator::create(&DataOptions { values: Some(entries(list)), contexts: None })
}

fn gendered() -> Translator<Hook> {
    Translator::create(&DataOptions {
        values: Some(entries(vec![("greeting", literal("Dear guest"))])),
        contexts: Some(vec![
            scoped(&[("gender", "male")], vec![("greeting", literal("Dear sir"))]),
            scoped(&[("gender", "female")], vec![("greeting", literal("Dear madam"))]),
        ]),
    })
}

fn gendered_counts() -> Translator<Hook> {
    Translator::create(&DataOptions {
        values: Some(entries(vec![
            (
                "%{name} has %n",
                plural(&[(None, None, "%{name} has none"), (Some(0), None, "%{name} has %n")]),
            ),
            ("hello", literal("hello %{name}")),
        ])),
        contexts: Some(vec![scoped(
            &[("gender", "female")],
            vec![
                ("%{name} has %n", plural(&[(Some(0), None, "%{name} has %n (f)")])),
                ("hello", literal("hello %{name} (f)")),
            ],
        )]),
    })
}

fn number(n: i64) -> NumOrFormatting {
    NumOrFormatting::Number(n)
}

fn formatting(pairs: &[(&str, &str)]) -> NumOrFormatting {
    NumOrFormatting::Formatting(bindings(pairs))
}

fn echo(
    text: &str,
    num: Option<i64>,
    formatting: Option<&TextMap>,
    dictionary: Option<&TextMap>,
) -> String {
    format!(
        "{}|{:?}|{}|{}",
        text,
        num,
        formatting.map_or("none".to_string(), |f| f.len().to_string()),
        dictionary.map_or("none".to_string(), |d| d.len().to_string())
    )
}

fn fixed(_: &str, _: Option<i64>, _: Option<&TextMap>, _: Option<&TextMap>) -> String {
    "%{who} owes -%n, that is %n".to_string()
}

fn first(_: &str, _: Option<i64>, _: Option<&TextMap>, _: Option<&TextMap>) -> String {
    "first".to_string()
}

fn second(_: &str, _: Option<i64>, _: Option<&TextMap>, _: Option<&TextMap>) -> String {
    "second".to_string()
}

fn by_category(
    _: &str,
    num: Option<i64>,
    _: Option<&TextMap>,
    dictionary: Option<&TextMap>,
) -> String {
    let category = if num == Some(1) { "one" } else { "other" };
    dictionary.and_then(|d| d.get(category)).cloned().unwrap_or_default()
}

#[test]
fn an_empty_store_gives_the_key_back() {
    let nothing: Translator<Hook> = Translator::from_parts(None, TextMap::new());
    assert_eq!(nothing.translate("Hello", None, None, None), "Hello");
    assert_eq!(nothing.translate("", None, None, None), "");
    assert_eq!(nothing.translate("%n and %{name}", None, None, None), "%n and %{name}");

    let no_tables: Translator<Hook> =
        Translator::create(&DataOptions { values: None, contexts: None });
    assert_eq!(no_tables.translate("Hello", None, None, None), "Hello");

    let empty_tables: Translator<Hook> = Translator::create(&DataOptions {
        values: Some(Table::new()),
        contexts: Some(vec![scoped(&[], vec![])]),
    });
    assert_eq!(empty_tables.translate("Hello", None, None, None), "Hello");
}

#[test]
fn a_missing_key_is_rendered_itself() {
    let translator = with_defaults(vec![("Hello", literal("Bonjour"))]);
    assert_eq!(translator.translate("Bye", None, None, None), "Bye");
    assert_eq!(translator.translate("%n left", Some(&number(3)), None, None), "3 left");
    assert_eq!(translator.translate("-%n left", Some(&number(3)), None, None), "-3 left");
    assert_eq!(translator.translate("-%n left", Some(&number(-3)), None, None), "3 left");
    assert_eq!(translator.translate("-%n left", None, None, None), "-%n left");
    assert_eq!(
        translator.translate(
            "%{who} has %n",
            Some(&number(3)),
            Some(&formatting(&[("who", "Ann")])),
            None
        ),
        "Ann has 3"
    );
}

#[test]
fn a_literal_is_formatted_and_ignores_the_number() {
    let translator = with_defaults(vec![("count", literal("%{who}: %n"))]);
    assert_eq!(translator.translate("count", None, None, None), "%{who}: %n");
    assert_eq!(translator.translate("count", Some(&number(5)), None, None), "%{who}: %n");
    assert_eq!(
        translator.translate("count", Some(&number(5)), Some(&formatting(&[("who", "Ann")])), None),
        "Ann: %n"
    );
}

#[test]
fn the_first_satisfied_range_wins() {
    let translator = with_defaults(vec![(
        "items",
        plural(&[
            (Some(0), Some(10), "few: %n"),
            (Some(5), Some(15), "some: %n"),
            (Some(5), None, "many: %n"),
            (None, Some(100), "at most a hundred: %n"),
        ]),
    )]);
    assert_eq!(translator.translate("items", Some(&number(0)), None, None), "few: 0");
    assert_eq!(translator.translate("items", Some(&number(5)), None, None), "few: 5");
    assert_eq!(translator.translate("items", Some(&number(10)), None, None), "few: 10");
    assert_eq!(translator.translate("items", Some(&number(11)), None, None), "some: 11");
    assert_eq!(translator.translate("items", Some(&number(15)), None, None), "some: 15");
    assert_eq!(translator.translate("items", Some(&number(16)), None, None), "many: 16");
    assert_eq!(
        translator.translate("items", Some(&number(-1)), None, None),
        "at most a hundred: -1"
    );
}

#[test]
fn range_bounds_are_inclusive() {
    assert!(in_range(Some(2), Some(4), Some(2)));
    assert!(in_range(Some(2), Some(4), Some(4)));
    assert!(!in_range(Some(2), Some(4), Some(1)));
    assert!(!in_range(Some(2), Some(4), Some(5)));
    assert!(in_range(Some(2), None, Some(2)));
    assert!(in_range(Some(2), None, Some(i64::MAX)));
    assert!(!in_range(Some(2), None, Some(1)));
    assert!(in_range(None, Some(4), Some(4)));
    assert!(in_range(None, Some(4), Some(i64::MIN)));
    assert!(!in_range(None, Some(4), Some(5)));
    assert!(!in_range(Some(4), Some(2), Some(3)));
}

#[test]
fn a_range_without_bounds_is_for_no_number_only() {
    assert!(in_range(None, None, None));
    assert!(!in_range(None, None, Some(0)));
    assert!(!in_range(None, None, Some(7)));
    assert!(!in_range(Some(0), Some(0), None));
    assert!(!in_range(Some(0), None, None));
    assert!(!in_range(None, Some(0), None));

    let translator = with_defaults(vec![(
        "items",
        plural(&[(Some(0), Some(0), "zero"), (None, None, "unknown: %n"), (Some(1), None, "%n")]),
    )]);
    assert_eq!(translator.translate("items", None, None, None), "unknown: 0");
    assert_eq!(translator.translate("items", Some(&number(0)), None, None), "zero");
    assert_eq!(translator.translate("items", Some(&number(3)), None, None), "3");
}

#[test]
fn ranges_that_are_not_satisfied_fall_back_to_the_key() {
    let translator =
        with_defaults(vec![("%n items", plural(&[(Some(1), Some(1), "one item")]))]);
    assert_eq!(translator.translate("%n items", Some(&number(1)), None, None), "one item");
    assert_eq!(translator.translate("%n items", Some(&number(2)), None, None), "2 items");
    assert_eq!(translator.translate("%n items", None, None, None), "%n items");

    let empty = with_defaults(vec![("%n items", plural(&[]))]);
    assert_eq!(empty.translate("%n items", Some(&number(2)), None, None), "2 items");
}

#[test]
fn a_dictionary_without_an_extension_is_rendered_as_the_key() {
    let translator = with_defaults(vec![(
        "%n results",
        Value::Dictionary(bindings(&[("one", "%n result"), ("other", "%n results found")])),
    )]);
    assert_eq!(translator.translate("%n results", Some(&number(1)), None, None), "1 results");
    assert_eq!(translator.translate("%n results", None, None, None), "%n results");
    assert_eq!(
        translator.translate("-%n results", Some(&number(-1)), None, None),
        "1 results"
    );

    let negated = with_defaults(vec![("-%n and %n", Value::Dictionary(TextMap::new()))]);
    assert_eq!(negated.translate("-%n and %n", Some(&number(-5)), None, None), "5 and -5");
    assert_eq!(negated.translate("-%n and %n", Some(&number(5)), None, None), "-5 and 5");
    assert_eq!(negated.translate("-%n and %n", None, None, None), "-%n and %n");
}

#[test]
fn the_extension_chooses_the_template() {
    let mut translator = with_defaults(vec![(
        "%n results",
        Value::Dictionary(bindings(&[("one", "%n result"), ("other", "%n results found")])),
    )]);
    assert!(!translator.has_extension());
    translator.extend(by_category);
    assert!(translator.has_extension());
    assert_eq!(translator.translate("%n results", Some(&number(1)), None, None), "1 result");
    assert_eq!(
        translator.translate("%n results", Some(&number(7)), None, None),
        "7 results found"
    );
    assert_eq!(translator.translate("%n results", None, None, None), "0 results found");
}

#[test]
fn the_extension_gets_the_arguments_of_the_call() {
    let mut translator = with_defaults(vec![
        ("phrase", Value::Dictionary(bindings(&[("a", "1"), ("b", "2"), ("c", "3")]))),
        ("plain", literal("plain text")),
    ]);
    translator.extend(echo);
    assert_eq!(
        translator.translate("phrase", Some(&number(4)), None, None),
        "phrase|Some(4)|none|3"
    );
    assert_eq!(
        translator.translate("phrase", Some(&formatting(&[("x", "y")])), None, None),
        "phrase|None|1|3"
    );
    assert_eq!(translator.translate("plain", Some(&number(4)), None, None), "plain text");
    assert_eq!(translator.translate("absent", Some(&number(4)), None, None), "absent");
}

#[test]
fn the_answer_of_the_extension_is_rendered() {
    let mut translator = with_defaults(vec![("debt", Value::Dictionary(TextMap::new()))]);
    translator.extend(fixed);
    assert_eq!(
        translator.translate("debt", Some(&number(-5)), Some(&formatting(&[("who", "Bob")])), None),
        "Bob owes 5, that is -5"
    );
    assert_eq!(translator.translate("debt", None, None, None), "%{who} owes 0, that is 0");
}

#[test]
fn a_later_extension_replaces_the_earlier_one() {
    let mut translator = with_defaults(vec![("key", Value::Dictionary(TextMap::new()))]);
    translator.extend(first);
    assert_eq!(translator.translate("key", None, None, None), "first");
    translator.extend(second);
    assert_eq!(translator.translate("key", None, None, None), "second");
}

#[test]
fn the_context_selects_the_table() {
    let translator = gendered();
    let male = bindings(&[("gender", "male")]);
    let female = bindings(&[("gender", "female")]);
    assert_eq!(translator.translate_text("greeting", None, None, &male), "Dear sir");
    assert_eq!(translator.translate_text("greeting", None, None, &female), "Dear madam");
}

#[test]
fn a_context_that_lacks_the_attribute_matches_no_table() {
    let translator = gendered();
    assert_eq!(translator.translate_text("greeting", None, None, &TextMap::new()), "Dear guest");
    assert_eq!(
        translator.translate_text("greeting", None, None, &bindings(&[("age", "adult")])),
        "Dear guest"
    );
    assert_eq!(
        translator.translate_text("greeting", None, None, &bindings(&[("gender", "other")])),
        "Dear guest"
    );
    assert_eq!(translator.translate("greeting", None, None, None), "Dear guest");
    assert_eq!(translator.translate("farewell", None, None, None), "farewell");
}

#[test]
fn every_attribute_of_a_context_table_must_match() {
    let translator: Translator<Hook> = Translator::create(&DataOptions {
        values: None,
        contexts: Some(vec![scoped(
            &[("gender", "female"), ("age", "adult")],
            vec![("greeting", literal("Dear madam"))],
        )]),
    });
    let both = bindings(&[("age", "adult"), ("gender", "female"), ("city", "Paris")]);
    let one = bindings(&[("gender", "female")]);
    let wrong = bindings(&[("gender", "female"), ("age", "child")]);
    assert_eq!(translator.translate_text("greeting", None, None, &both), "Dear madam");
    assert_eq!(translator.translate_text("greeting", None, None, &one), "greeting");
    assert_eq!(translator.translate_text("greeting", None, None, &wrong), "greeting");
}

#[test]
fn the_first_satisfied_context_table_wins() {
    let data = DataOptions {
        values: None,
        contexts: Some(vec![
            scoped(&[("gender", "female")], vec![("a", literal("first"))]),
            scoped(&[], vec![("a", literal("second")), ("b", literal("second b"))]),
            scoped(&[("gender", "female")], vec![("a", literal("third"))]),
        ]),
    };
    let female = bindings(&[("gender", "female")]);
    let male = bindings(&[("gender", "male")]);

    assert_eq!(
        get_context_data(&data, &female).map(|c| c.values.len()),
        Some(1)
    );
    assert_eq!(get_context_data(&data, &male).map(|c| c.values.len()), Some(2));

    let translator: Translator<Hook> = Translator::create(&data);
    assert_eq!(translator.translate_text("a", None, None, &female), "first");
    assert_eq!(translator.translate_text("a", None, None, &male), "second");
    assert_eq!(translator.translate_text("b", None, None, &male), "second b");
    assert_eq!(translator.translate_text("b", None, None, &female), "b");
}

#[test]
fn get_context_data_without_a_match() {
    let none = DataOptions { values: None, contexts: None };
    assert!(get_context_data(&none, &TextMap::new()).is_none());

    let empty = DataOptions { values: None, contexts: Some(vec![]) };
    assert!(get_context_data(&empty, &TextMap::new()).is_none());

    let one = DataOptions {
        values: None,
        contexts: Some(vec![scoped(&[("gender", "male")], vec![])]),
    };
    assert!(get_context_data(&one, &TextMap::new()).is_none());
    assert!(get_context_data(&one, &bindings(&[("gender", "female")])).is_none());
    assert!(get_context_data(&one, &bindings(&[("gender", "male")])).is_some());
}

#[test]
fn the_context_table_falls_back_to_the_default_table() {
    let translator: Translator<Hook> = Translator::create(&DataOptions {
        values: Some(entries(vec![
            ("only default", literal("from default")),
            ("%n items", plural(&[(Some(0), None, "%n default items")])),
        ])),
        contexts: Some(vec![scoped(
            &[("gender", "male")],
            vec![("%n items", plural(&[(Some(1), Some(1), "his item")]))],
        )]),
    });
    let male = bindings(&[("gender", "male")]);
    assert_eq!(translator.translate_text("only default", None, None, &male), "from default");
    assert_eq!(translator.translate_text("%n items", Some(1), None, &male), "his item");
    assert_eq!(translator.translate_text("%n items", Some(2), None, &male), "2 default items");
    assert_eq!(translator.translate_text("%n items", Some(-2), None, &male), "-2 items");
    assert_eq!(translator.translate_text("nowhere", None, None, &male), "nowhere");
}

#[test]
fn the_default_context_is_used_where_the_call_gives_none() {
    let mut translator = gendered();
    assert_eq!(translator.translate("greeting", None, None, None), "Dear guest");

    translator.set_context("gender", "female");
    assert_eq!(translator.translate("greeting", None, None, None), "Dear madam");
    assert_eq!(translator.get_context().get("gender"), Some(&"female".to_string()));

    translator.set_context("gender", "male");
    assert_eq!(translator.translate("greeting", None, None, None), "Dear sir");
    assert_eq!(translator.get_context().len(), 1);

    let female = bindings(&[("gender", "female")]);
    assert_eq!(
        translator.translate("greeting", Some(&number(1)), None, Some(&female)),
        "Dear madam"
    );

    translator.clear_context("gender");
    assert_eq!(translator.translate("greeting", None, None, None), "Dear guest");
    translator.clear_context("gender");
    assert_eq!(translator.get_context().len(), 0);
}

#[test]
fn reset_context_empties_the_default_context() {
    let mut translator = gendered();
    translator.set_context("gender", "female");
    translator.set_context("age", "adult");
    translator.reset_context();
    assert_eq!(translator.get_context().len(), 0);
    assert_eq!(translator.translate("greeting", None, None, None), "Dear guest");
    assert!(translator.get_data().is_some());
}

#[test]
fn reset_data_forgets_the_tables() {
    let mut translator = gendered();
    translator.set_context("gender", "female");
    translator.reset_data();
    assert!(translator.get_data().is_none());
    assert_eq!(translator.translate("greeting", None, None, None), "greeting");
    assert_eq!(translator.get_context().len(), 1);
}

#[test]
fn reset_forgets_tables_and_context() {
    let mut translator = gendered();
    translator.set_context("gender", "female");
    translator.extend(echo);
    translator.reset();
    assert!(translator.get_data().is_none());
    assert_eq!(translator.get_context().len(), 0);
    assert!(translator.has_extension());
    assert_eq!(translator.translate("greeting", None, None, None), "greeting");
}

#[test]
fn add_overwrites_entries_and_appends_contexts() {
    let mut translator = gendered();
    translator.add(&DataOptions {
        values: Some(entries(vec![
            ("greeting", literal("Hello")),
            ("farewell", literal("Goodbye")),
        ])),
        contexts: Some(vec![
            scoped(&[("gender", "male")], vec![("greeting", literal("Hey man"))]),
            scoped(&[("age", "child")], vec![("greeting", literal("Hi kid"))]),
        ]),
    });
    let data = translator.get_data().unwrap();
    assert_eq!(data.values.as_ref().unwrap().len(), 2);
    assert_eq!(data.contexts.as_ref().unwrap().len(), 4);

    assert_eq!(translator.translate("greeting", None, None, None), "Hello");
    assert_eq!(translator.translate("farewell", None, None, None), "Goodbye");
    assert_eq!(
        translator.translate_text("greeting", None, None, &bindings(&[("gender", "male")])),
        "Dear sir"
    );
    assert_eq!(
        translator.translate_text("greeting", None, None, &bindings(&[("age", "child")])),
        "Hi kid"
    );
}

#[test]
fn add_fills_in_what_was_missing() {
    let mut translator: Translator<Hook> = Translator::from_parts(None, TextMap::new());
    translator.add(&DataOptions { values: None, contexts: None });
    assert!(translator.get_data().unwrap().values.is_none());
    assert!(translator.get_data().unwrap().contexts.is_none());

    translator.add(&DataOptions {
        values: Some(entries(vec![("a", literal("A"))])),
        contexts: None,
    });
    assert_eq!(translator.translate("a", None, None, None), "A");
    assert!(translator.get_data().unwrap().contexts.is_none());

    translator.add(&DataOptions {
        values: None,
        contexts: Some(vec![scoped(&[], vec![("a", literal("scoped A"))])]),
    });
    assert_eq!(translator.translate("a", None, None, None), "scoped A");
    assert_eq!(translator.get_data().unwrap().values.as_ref().unwrap().len(), 1);

    translator.add(&DataOptions { values: None, contexts: None });
    assert_eq!(translator.translate("a", None, None, None), "scoped A");
}

#[test]
fn add_leaves_what_the_added_data_does_not_name() {
    let mut translator: Translator<Hook> = Translator::create(&DataOptions {
        values: Some(entries(vec![
            (
                "%n results",
                Value::Dictionary(bindings(&[("one", "%n result"), ("other", "%n results found")])),
            ),
            ("phrase", Value::Dictionary(bindings(&[("a", "1"), ("b", "2")]))),
        ])),
        contexts: Some(vec![scoped(
            &[("gender", "female")],
            vec![("phrase", Value::Dictionary(bindings(&[("a", "1")])))],
        )]),
    });
    translator.extend(by_category);
    let female = bindings(&[("gender", "female")]);
    let before = translator.translate("%n results", Some(&number(1)), None, None);
    assert_eq!(before, "1 result");

    translator.add(&DataOptions { values: None, contexts: None });
    assert_eq!(translator.translate("%n results", Some(&number(1)), None, None), before);

    translator.add(&DataOptions { values: Some(Table::new()), contexts: Some(vec![]) });
    assert_eq!(translator.translate("%n results", Some(&number(1)), None, None), before);

    translator.add(&DataOptions {
        values: Some(entries(vec![("other phrase", literal("other"))])),
        contexts: Some(vec![scoped(&[("gender", "male")], vec![("%n results", literal("his"))])]),
    });
    assert_eq!(translator.translate("%n results", Some(&number(1)), None, None), before);
    assert_eq!(
        translator.translate("%n results", Some(&number(7)), None, Some(&female)),
        "7 results found"
    );

    translator.extend(echo);
    assert_eq!(translator.translate("phrase", None, None, None), "phrase|None|none|2");
    assert_eq!(
        translator.translate("phrase", Some(&number(1)), None, Some(&female)),
        "phrase|Some(1)|none|1"
    );
    let data = translator.get_data().unwrap();
    assert_eq!(data.values.as_ref().unwrap().len(), 3);
    assert_eq!(data.contexts.as_ref().unwrap().len(), 2);
    let first = &data.contexts.as_ref().unwrap()[0];
    assert_eq!(first.matches.get("gender"), Some(&"female".to_string()));
}

#[test]
fn add_copies_its_argument() {
    let mut data = DataOptions { values: Some(entries(vec![("a", literal("A"))])), contexts: None };
    let translator: Translator<Hook> = Translator::create(&data);
    data.values = Some(entries(vec![("a", literal("changed"))]));
    assert_eq!(translator.translate("a", None, None, None), "A");
}

#[test]
fn find_translation_looks_in_one_table() {
    let translator: Translator<Hook> = Translator::from_parts(None, TextMap::new());
    let table = entries(vec![
        ("literal", literal("%{who}'s %n")),
        ("ranges", plural(&[(Some(1), Some(1), "one"), (Some(2), None, "%n")])),
        ("dictionary", Value::Dictionary(TextMap::new())),
    ]);
    let who = bindings(&[("who", "Ann")]);
    assert_eq!(translator.find_translation("literal", Some(1), None, None), None);
    assert_eq!(translator.find_translation("absent", Some(1), None, Some(&table)), None);
    assert_eq!(
        translator.find_translation("literal", Some(1), Some(&who), Some(&table)),
        Some("Ann's %n".to_string())
    );
    assert_eq!(
        translator.find_translation("ranges", Some(1), None, Some(&table)),
        Some("one".to_string())
    );
    assert_eq!(
        translator.find_translation("ranges", Some(9), None, Some(&table)),
        Some("9".to_string())
    );
    assert_eq!(translator.find_translation("ranges", Some(0), None, Some(&table)), None);
    assert_eq!(translator.find_translation("ranges", None, None, Some(&table)), None);
    assert_eq!(
        translator.find_translation("dictionary", Some(3), None, Some(&table)),
        Some("dictionary".to_string())
    );
}

#[test]
fn translate_with_a_number_a_formatting_and_a_context() {
    let translator = gendered_counts();
    let female = bindings(&[("gender", "female")]);
    assert_eq!(
        translator.translate(
            "%{name} has %n",
            Some(&number(2)),
            Some(&formatting(&[("name", "Ann")])),
            Some(&female)
        ),
        "Ann has 2 (f)"
    );
    assert_eq!(
        translator.translate("%{name} has %n", Some(&number(2)), None, Some(&female)),
        "%{name} has 2 (f)"
    );
    assert_eq!(
        translator.translate(
            "%{name} has %n",
            Some(&number(2)),
            Some(&formatting(&[("name", "Ann")])),
            None
        ),
        "Ann has 2"
    );
    assert_eq!(
        translator.translate("%{name} has %n", Some(&number(2)), Some(&number(3)), Some(&female)),
        "%{name} has 2 (f)"
    );
}

#[test]
fn translate_with_a_formatting_and_a_context() {
    let translator = gendered_counts();
    let female = formatting(&[("gender", "female")]);
    let other = bindings(&[("gender", "male")]);
    assert_eq!(
        translator.translate(
            "%{name} has %n",
            Some(&formatting(&[("name", "Ann")])),
            Some(&female),
            None
        ),
        "Ann has none"
    );
    assert_eq!(
        translator.translate("hello", Some(&formatting(&[("name", "Ann")])), Some(&female), None),
        "hello Ann (f)"
    );
    assert_eq!(
        translator.translate(
            "hello",
            Some(&formatting(&[("name", "Ann")])),
            Some(&female),
            Some(&other)
        ),
        "hello Ann (f)"
    );
    assert_eq!(
        translator.translate(
            "hello",
            Some(&formatting(&[("name", "Ann")])),
            Some(&number(1)),
            Some(&other)
        ),
        "hello Ann"
    );
}

#[test]
fn translate_with_nothing_in_the_first_place() {
    let translator = gendered_counts();
    let female = bindings(&[("gender", "female")]);
    let names = bindings(&[("name", "Ann")]);
    assert_eq!(
        translator.translate("%{name} has %n", None, Some(&number(2)), Some(&names)),
        "Ann has 2"
    );
    assert_eq!(
        translator.translate("%{name} has %n", None, Some(&number(2)), None),
        "%{name} has 2"
    );
    assert_eq!(
        translator.translate(
            "hello",
            None,
            Some(&formatting(&[("name", "Ann")])),
            Some(&female)
        ),
        "hello Ann (f)"
    );
    assert_eq!(
        translator.translate("hello", None, Some(&formatting(&[("name", "Ann")])), None),
        "hello Ann"
    );
    assert_eq!(translator.translate("hello", None, None, Some(&female)), "hello %{name}");
}

#[test]
fn clone_keeps_data_context_and_extension() {
    let mut translator = with_defaults(vec![
        ("greeting", literal("Hello")),
        ("key", Value::Dictionary(TextMap::new())),
    ]);
    translator.set_context("gender", "female");
    translator.extend(echo);
    let copy = translator.clone();
    translator.reset();
    assert_eq!(copy.translate("greeting", None, None, None), "Hello");
    assert_eq!(copy.get_context().get("gender"), Some(&"female".to_string()));
    assert_eq!(copy.translate("key", None, None, None), "key|None|none|0");
}

#[test]
fn translation_of_text_that_is_not_ascii() {
    let translator = with_defaults(vec![(
        "%n résultats",
        plural(&[(Some(1), Some(1), "%n résultat pour %{qui}"), (Some(2), None, "%n résultats")]),
    )]);
    assert_eq!(
        translator.translate(
            "%n résultats",
            Some(&number(1)),
            Some(&formatting(&[("qui", "Zoë")])),
            None
        ),
        "1 résultat pour Zoë"
    );
}
