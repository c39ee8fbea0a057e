//! Letter cases in which the database names of variants are written.
use vstd::prelude::*;
use convert_case::{Case, Casing};
use crate::errors::AttrError;
use crate::text::same_text;

verus! {

/// The casings accepted by the `case` attribute.
#[derive(Clone, Copy, Debug, PartialEq, Eq, Hash)]
pub enum CaseStyle {
    Snake,
    UpperSnake,
    Camel,
    Pascal,
    Lower,
    Upper,
    Kebab,
}

/// The text that `convert_case` produces for `text` in the given casing.
pub uninterp spec fn case_converted(text: Seq<char>, style: CaseStyle) -> Seq<char>;

/// Calls `Casing::to_case` of `convert_case` on `text` with the casing that
/// corresponds to `style`.  The contract only says that the result is the
/// conversion named `case_converted` of the text and the style: how words are
/// split and joined is left to the crate.
#[verifier::external_body]
pub(crate) fn convert_case(text: &str, style: CaseStyle) -> (res: String)
    ensures
        res@ == case_converted(text@, style),
{
    let case = match style {
        CaseStyle::Snake => Case::Snake,
        CaseStyle::UpperSnake => Case::UpperSnake,
        CaseStyle::Camel => Case::Camel,
        CaseStyle::Pascal => Case::Pascal,
        CaseStyle::Lower => Case::Lower,
        CaseStyle::Upper => Case::Upper,
        CaseStyle::Kebab => Case::Kebab,
    };
    text.to_case(case)
}

/// The casing that a `case` value names.
pub open spec fn case_named(name: Seq<char>) -> Option<CaseStyle> {
    if name == "snake_case"@ {
        Some(CaseStyle::Snake)
    } else if name == "UPPER_SNAKE"@ {
        Some(CaseStyle::UpperSnake)
    } else if name == "camelCase"@ {
        Some(CaseStyle::Camel)
    } else if name == "PascalCase"@ {
        Some(CaseStyle::Pascal)
    } else if name == "lowercase"@ {
        Some(CaseStyle::Lower)
    } else if name == "UPPERCASE"@ {
        Some(CaseStyle::Upper)
    } else if name == "kebab-case"@ {
        Some(CaseStyle::Kebab)
    } else {
        None
    }
}

impl CaseStyle {
    /// Reads the value of a `case` attribute.
    pub fn from_name(name: &str) -> (res: Result<CaseStyle, AttrError>)
        ensures
            res matches Ok(c) ==> case_named(name@) == Some(c),
            res is Err ==> case_named(name@) is None && res->Err_0 == AttrError::InvalidCase,
    {
        if same_text(name, "snake_case") {
            Ok(CaseStyle::Snake)
        } else if same_text(name, "UPPER_SNAKE") {
            Ok(CaseStyle::UpperSnake)
        } else if same_text(name, "camelCase") {
            Ok(CaseStyle::Camel)
        } else if same_text(name, "PascalCase") {
            Ok(CaseStyle::Pascal)
        } else if same_text(name, "lowercase") {
            Ok(CaseStyle::Lower)
        } else if same_text(name, "UPPERCASE") {
            Ok(CaseStyle::Upper)
        } else if same_text(name, "kebab-case") {
            Ok(CaseStyle::Kebab)
        } else {
            Err(AttrError::InvalidCase)
        }
    }
}

} // verus!
