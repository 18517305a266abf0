use assert2::options::AssertOptions;
use assert2::options::ExpansionFormat;
use assert2::options::FormattedValue;

#[test]
fn compact_good_for_short_single_line_values() {
    let values = vec!["short".to_owned(), "also short".to_owned()];
    assert!(ExpansionFormat::is_compact_good(&values));
}

#[test]
fn compact_bad_for_over_forty_characters() {
    let values = vec!["x".repeat(41)];
    assert!(!ExpansionFormat::is_compact_good(&values));
    let values = vec!["x".repeat(40)];
    assert!(ExpansionFormat::is_compact_good(&values));
}

#[test]
fn compact_bad_for_embedded_newline() {
    let values = vec!["a\nb".to_owned()];
    assert!(!ExpansionFormat::is_compact_good(&values));
}

#[test]
fn expand_all_chooses_compact_when_good() {
    let values = vec![FormattedValue { compact: "1".to_owned(), pretty: "1p".to_owned() }];
    let chosen = ExpansionFormat::Auto.expand_all(&values);
    assert_eq!(chosen, vec!["1".to_owned()]);
}

#[test]
fn expand_all_chooses_pretty_when_compact_is_bad() {
    let values = vec![FormattedValue { compact: "x".repeat(41), pretty: "xp".to_owned() }];
    let chosen = ExpansionFormat::Auto.expand_all(&values);
    assert_eq!(chosen, vec!["xp".to_owned()]);
}

#[test]
fn expand_all_honours_forced_formats() {
    let values = vec![FormattedValue { compact: "x".repeat(41), pretty: "xp".to_owned() }];
    let chosen = ExpansionFormat::Compact.expand_all(&values);
    assert_eq!(chosen, vec!["x".repeat(41)]);
    let values = vec![FormattedValue { compact: "c".to_owned(), pretty: "p".to_owned() }];
    let chosen = ExpansionFormat::Pretty.expand_all(&values);
    assert_eq!(chosen, vec!["p".to_owned()]);
}

#[test]
fn force_flags_match_the_variants() {
    assert!(ExpansionFormat::Pretty.force_pretty());
    assert!(!ExpansionFormat::Auto.force_pretty());
    assert!(ExpansionFormat::Compact.force_compact());
    assert!(!ExpansionFormat::Auto.force_compact());
}

#[test]
fn option_tokens_set_format_and_color() {
    let opts = AssertOptions::from_env_values(
        Some("pretty".to_owned()),
        None,
        None,
        None,
        false,
    );
    assert_eq!(opts.expand, ExpansionFormat::Pretty);
    assert!(!opts.color);

    let opts = AssertOptions::from_env_values(
        Some(" COMPACT , color ".to_owned()),
        None,
        None,
        None,
        false,
    );
    assert_eq!(opts.expand, ExpansionFormat::Compact);
    assert!(opts.color);
}

#[test]
fn unknown_tokens_are_ignored() {
    let opts = AssertOptions::from_env_values(
        Some("sparkly,,bogus".to_owned()),
        None,
        None,
        None,
        true,
    );
    assert_eq!(opts.expand, ExpansionFormat::Auto);
    assert!(opts.color);
}

#[test]
fn no_color_token_overrides_terminal() {
    let opts = AssertOptions::from_env_values(
        Some("no-color".to_owned()),
        None,
        None,
        None,
        true,
    );
    assert!(!opts.color);
}

#[test]
fn color_environment_precedence() {
    // NO_COLOR truthy disables, even on a terminal.
    let opts = AssertOptions::from_env_values(None, Some("1".to_owned()), None, None, true);
    assert!(!opts.color);
    // CLICOLOR falsy disables.
    let opts = AssertOptions::from_env_values(None, None, Some("0".to_owned()), None, true);
    assert!(!opts.color);
    // CLICOLOR_FORCE truthy enables even without a terminal.
    let opts = AssertOptions::from_env_values(None, None, None, Some("1".to_owned()), false);
    assert!(opts.color);
    // Otherwise colour follows the terminal.
    let opts = AssertOptions::from_env_values(None, None, None, None, true);
    assert!(opts.color);
    let opts = AssertOptions::from_env_values(None, None, None, None, false);
    assert!(!opts.color);
    // NO_COLOR beats CLICOLOR_FORCE, and values are case-insensitive.
    let opts = AssertOptions::from_env_values(
        None,
        Some("TRUE".to_owned()),
        None,
        Some("1".to_owned()),
        true,
    );
    assert!(!opts.color);
}
