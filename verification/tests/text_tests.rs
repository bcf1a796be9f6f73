use mood::text::{answer_from_line, same_text, trim_line};

#[test]
fn prompt_lines_are_trimmed() {
    assert_eq!(trim_line("  192.168.1.2 \n"), "192.168.1.2");
    assert_eq!(trim_line("\t\n"), "");
}

#[test]
fn blank_answers_mean_keep() {
    assert_eq!(answer_from_line("   \n"), None);
    assert_eq!(answer_from_line(""), None);
}

#[test]
fn given_answers_are_trimmed() {
    assert_eq!(answer_from_line("  new value\r\n"), Some("new value".to_string()));
}

#[test]
fn text_comparison() {
    assert!(same_text("APP_ID", "APP_ID"));
    assert!(!same_text("APP_ID", "APP_I"));
    assert!(!same_text("APP_ID", "APP_IX"));
    assert!(same_text("", ""));
}

#[test]
fn unicode_white_space_is_trimmed_too() {
    assert_eq!(answer_from_line("\u{a0}x y\u{3000}\u{2009}"), Some("x y".to_string()));
    assert_eq!(answer_from_line("\u{85}\u{1680}"), None);
    // A zero-width space is not white space.
    assert_eq!(answer_from_line("\u{200b}"), Some("\u{200b}".to_string()));
}
