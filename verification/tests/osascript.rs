use am_osx_status::osascript::balanced::{
    get_imbalanced_stack, internal_get_imbalanced_stack, is_balanced, InvalidCharacterPlacementError, Region,
};
use am_osx_status::osascript::Language;

#[test]
fn balanced_basic() {
    assert_eq!(internal_get_imbalanced_stack("abc", true), Ok(vec![]));
    assert_eq!(internal_get_imbalanced_stack("abc(", true), Ok(vec![Region::Parenthesis]));
    assert_eq!(internal_get_imbalanced_stack("abc'asdf(", true), Ok(vec![Region::SingleQuote]));
    assert_eq!(internal_get_imbalanced_stack("abc'asdf'(", true), Ok(vec![Region::Parenthesis]));
    assert_eq!(internal_get_imbalanced_stack("abc'asdf\\'(", true), Ok(vec![Region::SingleQuote]));
    assert_eq!(
        internal_get_imbalanced_stack("{'\"hello\"' + (", true),
        Ok(vec![Region::CurlyBracket, Region::Parenthesis])
    );
    assert_eq!(
        internal_get_imbalanced_stack("`${'\"\\", true),
        Ok(vec![Region::TemplateString, Region::CurlyBracket, Region::SingleQuote, Region::Escaping])
    );
    assert_eq!(internal_get_imbalanced_stack("`${'\"\\", false), Err(InvalidCharacterPlacementError));
    assert_eq!(internal_get_imbalanced_stack(")", true), Err(InvalidCharacterPlacementError));
}

#[test]
fn balanced_by_language() {
    assert_eq!(is_balanced("tell application \"Music\" to play", Language::AppleScript), Ok(true));
    assert_eq!(is_balanced("(1 + [2", Language::AppleScript), Ok(false));
    assert_eq!(is_balanced("`x`", Language::AppleScript), Err(InvalidCharacterPlacementError));
    assert_eq!(is_balanced("`x`", Language::JavaScript), Ok(true));
    assert_eq!(get_imbalanced_stack("[é\\", Language::JavaScript), Ok(vec![Region::SquareBracket, Region::Escaping]));
    assert_eq!(is_balanced("\\", Language::AppleScript), Ok(false));
    assert_eq!(is_balanced("\\)", Language::AppleScript), Ok(true));
}

#[test]
fn region_tables() {
    assert_eq!(Region::get_from_opener('['), Some(Region::SquareBracket));
    assert_eq!(Region::get_from_closer('['), None);
    assert_eq!(Region::get_from_closer('`'), Some(Region::TemplateString));
    assert!(Region::DoubleQuote.is_quote());
    assert!(!Region::Parenthesis.can_escape_within());
    assert_eq!(Language::JavaScript.to_str(), "JavaScript");
    assert_eq!(Language::default(), Language::AppleScript);
}
