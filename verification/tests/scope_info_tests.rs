use assert2::check_scope::CheckStatus;
use assert2::check_scope::check_failed;
use assert2::check_scope::close_check_scope;
use assert2::check_scope::register_check_scope;
use assert2::info::InfoStack;
use assert2::info::Message;
use assert2::info::indent;
use assert2::info::info_count;
use assert2::info::pop_info;
use assert2::info::push_capture;
use assert2::info::push_message;
use assert2::maybe_debug::DebugTag;
use assert2::maybe_debug::MaybeNotDebugTag;
use assert2::report::BinaryOp;
use assert2::report::BooleanExpr;
use assert2::report::CheckExpression;
use assert2::report::MatchExpr;

#[test]
fn failure_outside_a_scope_is_not_deferred() {
    let mut status = CheckStatus::new();
    assert!(!check_failed(&mut status));
    assert!(!status.panic);
}

#[test]
fn failure_inside_a_scope_is_deferred_until_it_closes() {
    let mut status = CheckStatus::new();
    register_check_scope(&mut status);
    assert!(check_failed(&mut status));
    assert!(status.panic);
    // Closing the scope reports the deferred panic and consumes the flag.
    assert!(close_check_scope(&mut status));
    assert!(!status.panic);
    assert_eq!(status.scopes_registered, 0);
}

#[test]
fn nested_scopes_balance() {
    let mut status = CheckStatus::new();
    register_check_scope(&mut status);
    register_check_scope(&mut status);
    assert_eq!(status.scopes_registered, 2);
    assert!(!close_check_scope(&mut status));
    assert!(!close_check_scope(&mut status));
    assert_eq!(status.scopes_registered, 0);
}

#[test]
fn info_stack_pushes_and_pops() {
    let mut info = InfoStack::new();
    assert_eq!(info_count(&info), 0);
    push_message(&mut info, "context".to_owned());
    push_capture(&mut info, "x".to_owned(), "41".to_owned());
    assert_eq!(info_count(&info), 2);
    let rendered = info.rendered(false);
    assert_eq!(rendered, vec!["context".to_owned(), "x = 41".to_owned()]);
    pop_info(&mut info);
    assert_eq!(info_count(&info), 1);
    pop_info(&mut info);
    pop_info(&mut info);
    assert_eq!(info_count(&info), 0);
}

#[test]
fn capture_renders_with_a_styled_equals_sign() {
    let message = Message::Capture { expression: "x".to_owned(), value: "1".to_owned() };
    assert_eq!(message.render(false), "x = 1");
    assert_eq!(message.render(true), "x \u{1b}[1;34m=\u{1b}[0m 1");
}

#[test]
fn indent_adds_a_margin_after_newlines() {
    assert_eq!(indent("a\nb"), "a\n  b");
    assert_eq!(indent("no newline"), "no newline");
    assert_eq!(indent("a\nb\nc"), "a\n  b\n  c");
}

#[test]
fn debug_tags_hand_the_value_through() {
    let value: i32 = 5;
    let through = DebugTag.wrap(&value);
    assert_eq!(*through, 5);
    let opaque = MaybeNotDebugTag.wrap(&value);
    assert_eq!(*opaque.0, 5);
}

#[test]
fn plain_text_expressions_render() {
    let op = BinaryOp {
        left: "7".to_owned(),
        right: "6".to_owned(),
        operator: "<=".to_owned(),
        left_expr: "6 + 1".to_owned(),
        right_expr: "2 * 3".to_owned(),
    };
    let mut buffer = String::new();
    op.write_expression(&mut buffer);
    assert_eq!(buffer, "6 + 1 <= 2 * 3");
    let mut buffer = String::new();
    op.write_expansion(&mut buffer);
    assert_eq!(buffer, "7 <= 6");

    let b = BooleanExpr { expression: "ready()".to_owned() };
    let mut buffer = String::new();
    b.write_expression(&mut buffer);
    assert_eq!(buffer, "ready()");
    let mut buffer = String::new();
    b.write_expansion(&mut buffer);
    assert_eq!(buffer, "false");

    let m = MatchExpr {
        print_let: true,
        value: "Err(Bad)".to_owned(),
        pattern: "Ok(_)".to_owned(),
        expression: "parse()".to_owned(),
    };
    let mut buffer = String::new();
    m.write_expression(&mut buffer);
    assert_eq!(buffer, "let Ok(_) = parse()");
    let mut buffer = String::new();
    m.write_expansion(&mut buffer);
    assert_eq!(buffer, "Err(Bad)");
}
