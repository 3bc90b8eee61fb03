//! Value classifier: given a literal's datatype tag, decides a presentation
//! category and produces the display string. Untyped values are resource
//! references (links) and are shown verbatim; date-typed values show the
//! formatted form when the caller's date formatter produced one; everything
//! else degrades to the verbatim value. The native value is never touched.
//!
//! Date formatting itself (ISO-8601 parse, conversion to local time) is the
//! work of an outside collaborator; the caller hands its best-effort result in
//! as `formatted`, `None` when the value did not parse.

use vstd::prelude::*;

use crate::strutil::contains_char;
use crate::vocab::date_type_id;
use crate::vocab::date_type_str;
use crate::strutil::str_eq;

verus! {

/// How a value is later rendered: as a navigable link, as a bordered
/// multi-line area, or as inline text.
#[derive(Clone, Copy, PartialEq, Eq, Structural, Debug)]
pub enum Category {
    Link,
    MultilineLiteral,
    Literal,
}

/// What classification decided: the presentation category and the display
/// form.
pub struct Classified {
    pub category: Category,
    pub display: String,
}

/// The presentation category of a value: untyped values are resource
/// references, values with a line break are multi-line text, the rest are
/// plain literals.
pub open spec fn spec_category(value: Seq<char>, datatype: Seq<char>) -> Category {
    if datatype.len() == 0 {
        Category::Link
    } else if value.contains('\n') {
        Category::MultilineLiteral
    } else {
        Category::Literal
    }
}

/// The display form of a typed value: the formatter's result for a date-typed
/// value when it produced one, otherwise the value verbatim.
pub open spec fn spec_friendly_value(
    value: Seq<char>,
    datatype: Seq<char>,
    formatted: Option<Seq<char>>,
) -> Seq<char> {
    if datatype == date_type_id() && formatted is Some {
        formatted->0
    } else {
        value
    }
}

/// The display form of any value: links are shown verbatim, never reformatted;
/// typed values go through `spec_friendly_value`.
pub open spec fn spec_display(
    value: Seq<char>,
    datatype: Seq<char>,
    formatted: Option<Seq<char>>,
) -> Seq<char> {
    if datatype.len() == 0 {
        value
    } else {
        spec_friendly_value(value, datatype, formatted)
    }
}

/// Formats a typed value for display. `formatted` is the outside date
/// formatter's best-effort result for `value` (`None` when `value` is not a
/// well-formed date): it is shown exactly when the datatype is the date type,
/// and the raw value is kept otherwise — formatting never fails, it degrades.
pub fn friendly_value(value: &str, datatype: &str, formatted: &Option<String>) -> (r: String)
    ensures
        r@ == spec_friendly_value(value@, datatype@, formatted.deep_view()),
{
    if str_eq(datatype, date_type_str()) {
        match formatted {
            Some(f) => f.clone(),
            None => value.to_owned(),
        }
    } else {
        value.to_owned()
    }
}

/// Classifies a value: decides its presentation category and its display
/// form. Total and never failing: unrecognized datatypes and unparseable
/// dates silently degrade to the verbatim value.
pub fn classify(value: &str, datatype: &str, formatted: &Option<String>) -> (r: Classified)
    ensures
        r.category == spec_category(value@, datatype@),
        r.display@ == spec_display(value@, datatype@, formatted.deep_view()),
{
    let category = if datatype.unicode_len() == 0 {
        Category::Link
    } else if contains_char(value, '\n') {
        Category::MultilineLiteral
    } else {
        Category::Literal
    };
    let display = if datatype.unicode_len() == 0 {
        value.to_owned()
    } else {
        friendly_value(value, datatype, formatted)
    };
    Classified { category, display }
}

/// Classification is idempotent: reclassifying the display form with the same
/// datatype gives the same category and the same display form, so a caller
/// that rebuilds rows from already-built rows cannot double-format. Stated
/// for the inputs whose display form this library computes itself, that is
/// whenever no outside date formatting took part.
pub proof fn lemma_classify_idempotent(
    value: Seq<char>,
    datatype: Seq<char>,
    formatted: Option<Seq<char>>,
)
    requires
        datatype != date_type_id() || formatted is None,
    ensures
        spec_display(spec_display(value, datatype, formatted), datatype, formatted) == spec_display(
            value,
            datatype,
            formatted,
        ),
        spec_category(spec_display(value, datatype, formatted), datatype) == spec_category(
            value,
            datatype,
        ),
{
}

} // verus!
