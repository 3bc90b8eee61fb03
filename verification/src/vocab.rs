//! The distinguished vocabulary identifiers the pipeline compares against:
//! the date/time datatype, the type predicate, and the file-object type.
//! Behaviour depends on exact string equality with what the query service
//! emits, so the literal values are kept verbatim as configuration.

use vstd::prelude::*;

verus! {

/// The datatype identifier whose values are date/time literals.
pub open spec fn date_type_id() -> Seq<char> {
    "http://www.w3.org/2001/XMLSchema#dateType"@
}

/// The predicate identifier that states a resource's type.
pub open spec fn type_predicate_id() -> Seq<char> {
    "http://www.w3.org/1999/02/22-rdf-syntax-ns#type"@
}

/// The type identifier of file-like resources.
pub open spec fn file_object_id() -> Seq<char> {
    "http://tracker.api.gnome.org/ontology/v3/nfo#FileDataObject"@
}

/// The date/time datatype identifier, for executable comparisons.
pub fn date_type_str() -> (r: &'static str)
    ensures
        r@ == date_type_id(),
{
    "http://www.w3.org/2001/XMLSchema#dateType"
}

/// The type predicate identifier, for executable comparisons.
pub fn type_predicate_str() -> (r: &'static str)
    ensures
        r@ == type_predicate_id(),
{
    "http://www.w3.org/1999/02/22-rdf-syntax-ns#type"
}

/// The file-object type identifier, for executable comparisons.
pub fn file_object_str() -> (r: &'static str)
    ensures
        r@ == file_object_id(),
{
    "http://tracker.api.gnome.org/ontology/v3/nfo#FileDataObject"
}

} // verus!
