//! The ways in which the attributes of an enum can be refused.
use vstd::prelude::*;
use crate::text::{join_strings, joined};

verus! {

/// Why the attributes of an enum or of its variants were refused.
#[derive(Clone, Debug, PartialEq, Eq)]
pub enum AttrError {
    /// A key that the attribute does not know.
    UnknownAttribute(String),
    /// A known key whose value has the wrong form.
    InvalidValue(String),
    /// A `case` value that is not one of the accepted casings.
    InvalidCase,
    /// An id type that is not one of the integer types of `diesel::sql_types`.
    UnknownSqlType,
    /// `skip_test` together with a test runner.
    SkipTestWithRunner,
    /// Neither `skip_test` nor a test runner, and no default runner.
    MissingRunner,
    /// More than one default runner enabled; the names of the enabled ones.
    MultipleDefaultRunners(Vec<String>),
    /// A skipped id, or the last id of an inclusive range, that has no successor in `i32`.
    InvalidSkipIds,
    /// An automatically numbered variant that received the largest `i32`,
    /// after which the numbering cannot go on.
    IdOverflow,
}

/// The content of an [`AttrError`], with texts as character sequences.
pub ghost enum AttrFault {
    UnknownAttribute(Seq<char>),
    InvalidValue(Seq<char>),
    InvalidCase,
    UnknownSqlType,
    SkipTestWithRunner,
    MissingRunner,
    MultipleDefaultRunners(Seq<Seq<char>>),
    InvalidSkipIds,
    IdOverflow,
}

impl View for AttrError {
    type V = AttrFault;

    open spec fn view(&self) -> AttrFault {
        match self {
            AttrError::UnknownAttribute(k) => AttrFault::UnknownAttribute(k@),
            AttrError::InvalidValue(k) => AttrFault::InvalidValue(k@),
            AttrError::InvalidCase => AttrFault::InvalidCase,
            AttrError::UnknownSqlType => AttrFault::UnknownSqlType,
            AttrError::SkipTestWithRunner => AttrFault::SkipTestWithRunner,
            AttrError::MissingRunner => AttrFault::MissingRunner,
            AttrError::MultipleDefaultRunners(names) => AttrFault::MultipleDefaultRunners(
                names@.map_values(|s: String| s@),
            ),
            AttrError::InvalidSkipIds => AttrFault::InvalidSkipIds,
            AttrError::IdOverflow => AttrFault::IdOverflow,
        }
    }
}

/// The message reported for each refusal.
pub open spec fn fault_message(f: AttrFault) -> Seq<char> {
    match f {
        AttrFault::UnknownAttribute(_) => "Unknown attribute"@,
        AttrFault::InvalidValue(_) => "Invalid value for this attribute"@,
        AttrFault::InvalidCase => "Invalid value for `case`. Allowed values are: [ snake_case, UPPER_SNAKE, camelCase, PascalCase, lowercase, UPPERCASE, kebab-case ]"@,
        AttrFault::UnknownSqlType => "Unknown sql type. Must be one of `TinyInt`, `SmallInt`, `Integer` or `BigInt` from `diesel::sql_types`"@,
        AttrFault::SkipTestWithRunner => "Cannot use `skip_test` if a runner is specified"@,
        AttrFault::MissingRunner => "Missing test runner. If you want to use one of the default runners, enable it as a feature. If you want to skip the automatically generated test, use the `skip_test` attribute"@,
        AttrFault::MultipleDefaultRunners(names) => "Found more than one feature for the default runner: "@
            + joined(names, ", "@) + ". Please choose only one"@,
        AttrFault::InvalidSkipIds => "The ids in `skip_ids` must be smaller than the largest i32"@,
        AttrFault::IdOverflow => "The automatically assigned ids exceed the largest i32"@,
    }
}

impl AttrError {
    /// The message that a compiler error for this refusal carries.
    pub fn message(&self) -> (res: String)
        ensures
            res@ == fault_message(self@),
    {
        match self {
            AttrError::UnknownAttribute(_) => String::from_str("Unknown attribute"),
            AttrError::InvalidValue(_) => String::from_str("Invalid value for this attribute"),
            AttrError::InvalidCase => String::from_str(
                "Invalid value for `case`. Allowed values are: [ snake_case, UPPER_SNAKE, camelCase, PascalCase, lowercase, UPPERCASE, kebab-case ]",
            ),
            AttrError::UnknownSqlType => String::from_str(
                "Unknown sql type. Must be one of `TinyInt`, `SmallInt`, `Integer` or `BigInt` from `diesel::sql_types`",
            ),
            AttrError::SkipTestWithRunner => String::from_str(
                "Cannot use `skip_test` if a runner is specified",
            ),
            AttrError::MissingRunner => String::from_str(
                "Missing test runner. If you want to use one of the default runners, enable it as a feature. If you want to skip the automatically generated test, use the `skip_test` attribute",
            ),
            AttrError::MultipleDefaultRunners(names) => {
                let mut s = String::from_str("Found more than one feature for the default runner: ");
                let list = join_strings(names, ", ");
                s.append(list.as_str());
                s.append(". Please choose only one");
                s
            },
            AttrError::InvalidSkipIds => String::from_str(
                "The ids in `skip_ids` must be smaller than the largest i32",
            ),
            AttrError::IdOverflow => String::from_str(
                "The automatically assigned ids exceed the largest i32",
            ),
        }
    }
}

} // verus!
