use assert2::options::AssertOptions;
use assert2::options::ExpansionFormat;
use assert2::options::FormattedValue;
use assert2::report::Expansion;
use assert2::report::FailedCheck;
use assert2::report::Predicate;

fn plain(expand: ExpansionFormat) -> AssertOptions {
    AssertOptions { expand, color: false }
}

fn binary_check(
    left_text: &str,
    operator: &str,
    right_text: &str,
    left_value: &str,
    right_value: &str,
) -> FailedCheck {
    FailedCheck {
        macro_name: "check".to_owned(),
        file: "src/lib.rs".to_owned(),
        line: 10,
        column: 5,
        custom_msg: None,
        predicates: vec![(
            String::new(),
            Predicate::Binary {
                left: left_text.to_owned(),
                operator: operator.to_owned(),
                right: right_text.to_owned(),
            },
        )],
        failed: 0,
        expansion: Expansion::Binary {
            left: FormattedValue {
                compact: left_value.to_owned(),
                pretty: left_value.to_owned(),
            },
            operator: operator.to_owned(),
            right: FormattedValue {
                compact: right_value.to_owned(),
                pretty: right_value.to_owned(),
            },
        },
        fragments: vec![],
    }
}

#[test]
fn compact_binary_report() {
    let check = binary_check("6 + 1", "<=", "2 * 3", "7", "6");
    let out = check.render(80, plain(ExpansionFormat::Auto));
    assert_eq!(
        out,
        "Assertion failed at src/lib.rs:10:5\n  check!( 6 + 1 <= 2 * 3 )\nwith expansion:\n  7 <= 6\n\n",
    );
}

#[test]
fn identical_debug_output_warns_for_equality() {
    let check = binary_check("a", "==", "b", "7", "7");
    let out = check.render(200, plain(ExpansionFormat::Auto));
    assert_eq!(
        out,
        "Assertion failed at src/lib.rs:10:5\n  check!( a == b )\nwith expansion:\n  7 == 7\nNote: Left and right compared as unequal, but the Debug output of left and right is identical!\n\n",
    );
}

#[test]
fn identical_debug_output_notes_for_other_operators() {
    let check = binary_check("a", "<", "b", "7", "7");
    let out = check.render(200, plain(ExpansionFormat::Auto));
    assert_eq!(
        out,
        "Assertion failed at src/lib.rs:10:5\n  check!( a < b )\nwith expansion:\n  7 < 7\nNote: Debug output of left and right is identical.\n\n",
    );
}

#[test]
fn structural_diff_report() {
    let left = "Pet {\n    name: \"Scrappy\",\n    age: 7,\n}";
    let right = "Pet {\n    name: \"Coco\",\n    age: 7,\n}";
    let check = FailedCheck {
        macro_name: "check".to_owned(),
        file: "src/lib.rs".to_owned(),
        line: 1,
        column: 1,
        custom_msg: None,
        predicates: vec![(
            String::new(),
            Predicate::Binary {
                left: "scrappy".to_owned(),
                operator: "==".to_owned(),
                right: "coco".to_owned(),
            },
        )],
        failed: 0,
        expansion: Expansion::Binary {
            left: FormattedValue { compact: left.replace('\n', " "), pretty: left.to_owned() },
            operator: "==".to_owned(),
            right: FormattedValue { compact: right.replace('\n', " "), pretty: right.to_owned() },
        },
        fragments: vec![],
    };
    let out = check.render(80, plain(ExpansionFormat::Pretty));
    assert_eq!(
        out,
        "Assertion failed at src/lib.rs:1:1\n  check!( scrappy == coco )\nwith diff:\n  Pet {\n<     name: \"Scrappy\",\n>     name: \"Coco\",\n      age: 7,\n  }\n\n",
    );
}

#[test]
fn bool_expansion_renders_false() {
    let check = FailedCheck {
        macro_name: "assert".to_owned(),
        file: "tests/a.rs".to_owned(),
        line: 3,
        column: 9,
        custom_msg: None,
        predicates: vec![(
            String::new(),
            Predicate::Bool { expression: "it_works()".to_owned() },
        )],
        failed: 0,
        expansion: Expansion::Bool,
        fragments: vec![],
    };
    let out = check.render(80, plain(ExpansionFormat::Auto));
    assert_eq!(
        out,
        "Assertion failed at tests/a.rs:3:9\n  assert!( it_works() )\nwith expansion:\n  false\n\n",
    );
}

#[test]
fn let_expansion_renders_the_value_indented() {
    let check = FailedCheck {
        macro_name: "let_assert".to_owned(),
        file: "tests/a.rs".to_owned(),
        line: 12,
        column: 2,
        custom_msg: None,
        predicates: vec![(
            String::new(),
            Predicate::Let { pattern: "Ok(x)".to_owned(), expression: "parse()".to_owned() },
        )],
        failed: 0,
        expansion: Expansion::Let {
            expression: FormattedValue {
                compact: "Err(BadInput)".to_owned(),
                pretty: "Err(\n    BadInput,\n)".to_owned(),
            },
        },
        fragments: vec![],
    };
    let out = check.render(80, plain(ExpansionFormat::Auto));
    assert_eq!(
        out,
        "Assertion failed at tests/a.rs:12:2\n  let_assert!( let Ok(x) = parse() )\nwith expansion:\n  Err(BadInput)\n\n",
    );
    let out = check.render(80, plain(ExpansionFormat::Pretty));
    assert_eq!(
        out,
        "Assertion failed at tests/a.rs:12:2\n  let_assert!( let Ok(x) = parse() )\nwith expansion:\n  Err(\n      BadInput,\n  )\n\n",
    );
}

#[test]
fn failed_predicate_in_chain_gets_undercurl_and_ellipsis() {
    let check = FailedCheck {
        macro_name: "check".to_owned(),
        file: "f.rs".to_owned(),
        line: 1,
        column: 1,
        custom_msg: None,
        predicates: vec![
            (
                String::new(),
                Predicate::Binary {
                    left: "x".to_owned(),
                    operator: ">".to_owned(),
                    right: "1".to_owned(),
                },
            ),
            (
                " && ".to_owned(),
                Predicate::Bool { expression: "y".to_owned() },
            ),
        ],
        failed: 0,
        expansion: Expansion::Binary {
            left: FormattedValue { compact: "0".to_owned(), pretty: "0".to_owned() },
            operator: ">".to_owned(),
            right: FormattedValue { compact: "1".to_owned(), pretty: "1".to_owned() },
        },
        fragments: vec![],
    };
    let out = check.render(80, plain(ExpansionFormat::Auto));
    assert_eq!(
        out,
        "Assertion failed at f.rs:1:1\n  check!( x > 1 && ... )\n          ^^^^^\nwith expansion:\n  0 > 1\n\n",
    );
}

#[test]
fn fragments_and_custom_message_are_rendered() {
    let check = FailedCheck {
        macro_name: "check".to_owned(),
        file: "f.rs".to_owned(),
        line: 2,
        column: 4,
        custom_msg: Some("it broke".to_owned()),
        predicates: vec![(
            String::new(),
            Predicate::Bool { expression: "ok".to_owned() },
        )],
        failed: 0,
        expansion: Expansion::Bool,
        fragments: vec![("e".to_owned(), "1 + 1".to_owned())],
    };
    let out = check.render(80, plain(ExpansionFormat::Auto));
    assert_eq!(
        out,
        "Assertion failed at f.rs:2:4\n  check!( ok )\nwith:\n  e = 1 + 1\nwith expansion:\n  false\nwith message:\n  it broke\n\n",
    );
}

#[test]
fn colored_compact_binary_report() {
    let check = binary_check("a", "==", "b", "1", "2");
    let out = check.render(80, AssertOptions { expand: ExpansionFormat::Auto, color: true });
    assert_eq!(
        out,
        "\u{1b}[1;91mAssertion failed\u{1b}[0m at \u{1b}[1msrc/lib.rs\u{1b}[0m:10:5\n  \u{1b}[35mcheck\u{1b}[0m\u{1b}[35m!( \u{1b}[0m\u{1b}[36ma\u{1b}[0m \u{1b}[1;34m==\u{1b}[0m \u{1b}[33mb\u{1b}[0m\u{1b}[35m )\u{1b}[0m\nwith expansion:\n  \u{1b}[36m1\u{1b}[0m \u{1b}[1;34m==\u{1b}[0m \u{1b}[33m2\u{1b}[0m\n\n",
    );
}
