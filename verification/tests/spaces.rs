use bumpalo::collections::String;
use bumpalo::Bump;
use gen_hash::spaces::{
    add_spaces, fmt_comments_only, fmt_condition_spaces, fmt_spaces, is_comment, newline,
    CommentOrNewline, INDENT,
};

use CommentOrNewline::{LineComment, Newline};

#[test]
fn indent_is_four() {
    assert_eq!(INDENT, 4);
}

#[test]
fn newline_breaks_and_indents() {
    let bump = Bump::new();
    let mut buf = String::new_in(&bump);
    buf.push_str("x");
    newline(&mut buf, 3);
    assert_eq!(buf.as_str(), "x\n   ");
}

#[test]
fn newline_without_indent() {
    let bump = Bump::new();
    let mut buf = String::new_in(&bump);
    newline(&mut buf, 0);
    assert_eq!(buf.as_str(), "\n");
}

#[test]
fn add_spaces_appends_that_many() {
    let bump = Bump::new();
    let mut buf = String::new_in(&bump);
    buf.push('a');
    add_spaces(&mut buf, INDENT);
    buf.push('b');
    assert_eq!(buf.as_str(), "a    b");
    add_spaces(&mut buf, 0);
    assert_eq!(buf.as_str(), "a    b");
}

#[test]
fn fmt_spaces_of_nothing_writes_nothing() {
    let bump = Bump::new();
    let mut buf = String::new_in(&bump);
    buf.push_str("keep");
    fmt_spaces(&mut buf, &[], 4);
    assert_eq!(buf.as_str(), "keep");
}

#[test]
fn fmt_spaces_single_newline_is_indented() {
    let bump = Bump::new();
    let mut buf = String::new_in(&bump);
    fmt_spaces(&mut buf, &[Newline], 2);
    assert_eq!(buf.as_str(), "\n  ");
}

#[test]
fn fmt_spaces_two_newlines_indent_only_the_last() {
    let bump = Bump::new();
    let mut buf = String::new_in(&bump);
    fmt_spaces(&mut buf, &[Newline, Newline], 2);
    assert_eq!(buf.as_str(), "\n\n  ");
}

#[test]
fn fmt_spaces_keeps_at_most_two_newlines() {
    let bump = Bump::new();
    let mut buf = String::new_in(&bump);
    fmt_spaces(&mut buf, &[Newline, Newline, Newline, Newline], 2);
    // the second newline is followed by a newline, so it is not indented,
    // and the third and fourth are dropped
    assert_eq!(buf.as_str(), "\n\n");
}

#[test]
fn fmt_spaces_comment_ends_its_line() {
    let bump = Bump::new();
    let mut buf = String::new_in(&bump);
    fmt_spaces(&mut buf, &[LineComment(" hello")], 4);
    assert_eq!(buf.as_str(), "# hello\n    ");
}

#[test]
fn fmt_spaces_drops_newlines_after_a_comment() {
    let bump = Bump::new();
    let mut buf = String::new_in(&bump);
    fmt_spaces(&mut buf, &[Newline, LineComment("a"), Newline, LineComment("b"), Newline], 1);
    assert_eq!(buf.as_str(), "\n #a\n #b\n ");
}

#[test]
fn fmt_spaces_newline_before_comment_is_indented() {
    let bump = Bump::new();
    let mut buf = String::new_in(&bump);
    fmt_spaces(&mut buf, &[Newline, Newline, LineComment("c")], 2);
    assert_eq!(buf.as_str(), "\n\n  #c\n  ");
}

#[test]
fn fmt_condition_spaces_ignores_newlines() {
    let bump = Bump::new();
    let mut buf = String::new_in(&bump);
    fmt_condition_spaces(&mut buf, &[Newline, Newline], 4);
    assert_eq!(buf.as_str(), "");
}

#[test]
fn fmt_condition_spaces_does_not_end_with_a_newline() {
    let bump = Bump::new();
    let mut buf = String::new_in(&bump);
    fmt_condition_spaces(&mut buf, &[LineComment(" one")], 4);
    assert_eq!(buf.as_str(), "# one");
}

#[test]
fn fmt_condition_spaces_breaks_before_a_following_comment() {
    let bump = Bump::new();
    let mut buf = String::new_in(&bump);
    fmt_condition_spaces(&mut buf, &[LineComment("a"), LineComment("b"), Newline, LineComment("c")], 2);
    // no break before "c": the item before it is a newline, and the newline's
    // own turn finds a comment next
    assert_eq!(buf.as_str(), "#a\n  #b\n  #c");
}

#[test]
fn fmt_comments_only_keeps_only_comments() {
    let bump = Bump::new();
    let mut buf = String::new_in(&bump);
    fmt_comments_only(&mut buf, &[Newline, LineComment(" a"), Newline, Newline, LineComment(" b")], 2);
    assert_eq!(buf.as_str(), "# a\n  # b\n  ");
}

#[test]
fn fmt_comments_only_of_newlines_writes_nothing() {
    let bump = Bump::new();
    let mut buf = String::new_in(&bump);
    fmt_comments_only(&mut buf, &[Newline, Newline], 2);
    assert_eq!(buf.as_str(), "");
}

#[test]
fn comments_keep_non_ascii_text() {
    let bump = Bump::new();
    let mut buf = String::new_in(&bump);
    fmt_comments_only(&mut buf, &[LineComment(" héllo ✓")], 0);
    assert_eq!(buf.as_str(), "# héllo ✓\n");
}

#[test]
fn is_comment_tells_the_variants_apart() {
    assert!(!is_comment(&Newline));
    assert!(is_comment(&LineComment("x")));
    assert!(is_comment(&LineComment("")));
}
