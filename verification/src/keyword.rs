use vstd::prelude::*;

verus! {

/// Gives the text a keyword is written with.
pub trait KeywordInfo {
    fn get_keyword(&self) -> &'static str;
}

/// The keywords of the statement language.
#[derive(Debug, PartialEq, Eq, Structural, Hash, Clone, Copy)]
pub enum Keyword {
    Variable,
    Function,
    IfScope,
    RepeatScope,
    ScopeBreak,
    ScopeEnd,
    ScopeReturn,
}

/// The text each keyword is written with.
pub open spec fn keyword_spelling(k: Keyword) -> Seq<char> {
    match k {
        Keyword::Variable => "offering"@,
        Keyword::Function => "ritual"@,
        Keyword::IfScope => "if"@,
        Keyword::RepeatScope => "repeat"@,
        Keyword::ScopeBreak => "break"@,
        Keyword::ScopeEnd => "end"@,
        Keyword::ScopeReturn => "return"@,
    }
}

impl KeywordInfo for Keyword {
    fn get_keyword(&self) -> (s: &'static str)
        ensures
            s@ == keyword_spelling(*self),
    {
        match self {
            Keyword::Variable => "offering",
            Keyword::Function => "ritual",
            Keyword::IfScope => "if",
            Keyword::RepeatScope => "repeat",
            Keyword::ScopeBreak => "break",
            Keyword::ScopeEnd => "end",
            Keyword::ScopeReturn => "return",
        }
    }
}

} // verus!
