//! Script languages run by `osascript`, and bracket and quote balancing of script text.
pub mod balanced;

use vstd::prelude::*;

verus! {

/// A language that `osascript` can run. Defaults to AppleScript.
#[derive(Debug, Clone, Copy, PartialEq, Eq, Structural)]
pub enum Language {
    JavaScript,
    /// AppleScript, a natural-language scripting language for macOS.
    AppleScript,
}

impl Language {
    /// The name `osascript` knows the language by.
    pub fn to_str(&self) -> (r: &'static str)
        ensures
            r@ == (match self {
                Language::JavaScript => "JavaScript"@,
                Language::AppleScript => "AppleScript"@,
            }),
    {
        match self {
            Self::JavaScript => "JavaScript",
            Self::AppleScript => "AppleScript",
        }
    }
}

impl Default for Language {
    /// The default language, AppleScript.
    fn default() -> (r: Self)
        ensures
            r == Language::AppleScript,
    {
        Self::AppleScript
    }
}

} // verus!
