//! The exclusion filter: an optional regular expression that drops names
//! while a tree is walked and lines while a manifest is fetched.
use regex::Regex;
use vstd::prelude::*;

verus! {

#[verifier::external_type_specification]
#[verifier::external_body]
pub struct ExRegex(regex::Regex);

#[verifier::external_type_specification]
#[verifier::external_body]
pub struct ExRegexError(regex::Error);

/// Whether `regex::Regex::new` accepts `pattern`.
pub uninterp spec fn regex_compiles(pattern: Seq<char>) -> bool;

/// Whether the regular expression `pattern` matches somewhere in `text`.
pub uninterp spec fn regex_finds(pattern: Seq<char>, text: Seq<char>) -> bool;

/// Relies on `regex::Regex::new`: it compiles `pattern`, and whether it
/// succeeds depends on the pattern alone.
#[verifier::external_body]
fn compile(pattern: &str) -> (r: Result<Regex, regex::Error>)
    ensures
        r is Ok <==> regex_compiles(pattern@),
{
    Regex::new(pattern)
}

/// Relies on `regex::Regex::is_match`: whether the compiled expression
/// matches anywhere in `text`. The compiled field of an `Exclusion` is only
/// ever made by `Exclusion::new` from its pattern field.
#[verifier::external_body]
fn regex_is_match(ex: &Exclusion, text: &str) -> (r: bool)
    ensures
        r == regex_finds(ex.pattern@, text@),
{
    ex.compiled.is_match(text)
}

/// A pattern that `Exclusion::new` refused.
#[derive(Debug, Clone, PartialEq, Eq)]
pub struct InvalidPattern {
    pub pattern: String,
}

/// A compiled exclusion pattern.
pub struct Exclusion {
    pattern: String,
    compiled: Regex,
}

impl View for Exclusion {
    type V = Seq<char>;

    /// The pattern's text.
    closed spec fn view(&self) -> Seq<char> {
        self.pattern@
    }
}

impl Exclusion {
    #[verifier::type_invariant]
    spec fn inv(&self) -> bool {
        regex_compiles(self.pattern@)
    }

    /// Compiles `pattern`; fails exactly where the regex crate refuses it.
    pub fn new(pattern: &str) -> (r: Result<Exclusion, InvalidPattern>)
        ensures
            r is Ok <==> regex_compiles(pattern@),
            r matches Ok(e) ==> e@ == pattern@,
            r matches Err(e) ==> e.pattern@ == pattern@,
    {
        match compile(pattern) {
            Ok(compiled) => Ok(Exclusion { pattern: pattern.to_owned(), compiled }),
            Err(_) => Err(InvalidPattern { pattern: pattern.to_owned() }),
        }
    }

    /// Whether the pattern matches somewhere in `text`.
    pub fn is_match(&self, text: &str) -> (r: bool)
        ensures
            r == regex_finds(self@, text@),
    {
        regex_is_match(self, text)
    }
}

/// Whether the optional pattern `ex` drops `text`.
pub open spec fn excluded_by(ex: &Option<Exclusion>, text: Seq<char>) -> bool {
    match ex {
        Some(e) => regex_finds(e@, text),
        None => false,
    }
}

/// Whether a walked entry called `name` is kept, it and what lies beneath it.
pub fn keep_name(excluded: &Option<Exclusion>, name: &str) -> (r: bool)
    ensures
        r == !excluded_by(excluded, name@),
{
    match excluded {
        Some(e) => !e.is_match(name),
        None => true,
    }
}

} // verus!
