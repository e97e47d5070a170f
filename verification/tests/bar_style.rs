use ani_dl::style::{progress_style, style_from_template, StyleError, MAX_TEMPLATE_DIGITS};

#[test]
fn the_bar_style_is_well_formed() {
    assert!(progress_style().is_ok());
}

#[test]
fn plain_templates_are_accepted() {
    assert!(style_from_template("{msg}").is_ok());
    assert!(style_from_template("").is_ok());
    assert!(style_from_template("{bar:40.green/white} {percent:>3}%").is_ok());
    assert!(style_from_template("{bar:9999}").is_ok());
}

#[test]
fn an_unexpected_character_is_malformed() {
    assert_eq!(style_from_template("{:").err(), Some(StyleError::Malformed));
    assert_eq!(style_from_template("{bar:x}").err(), Some(StyleError::Malformed));
}

#[test]
fn too_many_digits_are_refused_unread() {
    assert_eq!(MAX_TEMPLATE_DIGITS, 4);
    assert_eq!(style_from_template("{bar:99999}").err(), Some(StyleError::WidthTooLong));
    assert_eq!(style_from_template("12345").err(), Some(StyleError::WidthTooLong));
    assert_eq!(style_from_template("{:12345").err(), Some(StyleError::WidthTooLong));
    assert_eq!(style_from_template("{a:12}{b:34}{c:5}").err(), Some(StyleError::WidthTooLong));
}
