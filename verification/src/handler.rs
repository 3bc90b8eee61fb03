//! URI capability checker: decides whether an identifier is syntactically a
//! URI, which question to put to the handler registry for it, and the verdict
//! once the registry has answered. The registry itself (which application is
//! registered for a content type or a scheme) and the content-type resolvers
//! are outside collaborators; the caller gathers their answers and hands them
//! in as plain values.

use vstd::prelude::*;

use crate::strutil::str_eq;
use crate::strutil::push_char;

verus! {

/// The scheme that url::Url::parse extracts from a string, lower-cased, or
/// nothing when the string is not a syntactically valid absolute URI. A
/// function of the string alone.
pub uninterp spec fn uri_scheme(s: Seq<char>) -> Option<Seq<char>>;

/// Relies on url::Url::parse and url::Url::scheme: parsing either fails or
/// yields a URL whose scheme is a lower-cased, non-empty ASCII string; both
/// depend on the input string alone.
#[verifier::external_body]
fn parse_uri_scheme(s: &str) -> (r: Option<String>)
    ensures
        (r is Some) == (uri_scheme(s@) is Some),
        r is Some ==> uri_scheme(s@) == Some(r->0@),
{
    url::Url::parse(s).ok().map(|u| u.scheme().to_string())
}

/// Whether the string is a syntactically valid URI. This gates only the
/// link/navigation affordance; whether a handler exists is a separate,
/// independent question.
pub fn looks_like_uri(s: &str) -> (r: bool)
    ensures
        r == (uri_scheme(s@) is Some),
{
    parse_uri_scheme(s).is_some()
}

/// Which question the capability check must put to the outside collaborators
/// for a given identifier.
pub enum HandlerCheck {
    /// Not a syntactically valid URI: no capability check is applicable and
    /// the check succeeds trivially.
    NotApplicable,
    /// A `file` URI: resolve the file's content type, then ask the registry
    /// whether an application is registered for that type.
    ContentType,
    /// Any other scheme: ask the registry whether an application is
    /// registered for the scheme.
    Scheme(String),
}

/// What the outside collaborators answered to the question `HandlerCheck`
/// posed.
pub enum RegistryAnswer {
    /// Nothing was asked, or the question could not be put (for a `file` URI
    /// whose path could not be recovered): the check imposes nothing.
    Nothing,
    /// The resolved content type, and whether the registry knows a default
    /// application for it.
    ForType { content_type: String, has_app: bool },
    /// Whether the registry knows a default application for the scheme.
    ForScheme { has_app: bool },
}

/// Decides which capability question an identifier calls for: none for a
/// string that is not a URI, a content-type lookup for a `file` URI, a scheme
/// lookup for everything else.
pub fn handler_requirement(uri: &str) -> (r: HandlerCheck)
    ensures
        (r is NotApplicable) == (uri_scheme(uri@) is None),
        (r is ContentType) == (uri_scheme(uri@) == Some("file"@)),
        r matches HandlerCheck::Scheme(s) ==> uri_scheme(uri@) == Some(s@) && s@ != "file"@,
        (uri_scheme(uri@) is Some && uri_scheme(uri@) != Some("file"@)) ==> r is Scheme,
{
    match parse_uri_scheme(uri) {
        None => HandlerCheck::NotApplicable,
        Some(scheme) => {
            if str_eq(scheme.as_str(), "file") {
                HandlerCheck::ContentType
            } else {
                HandlerCheck::Scheme(scheme)
            }
        },
    }
}

/// The content type to check for a file: the one the index recorded for it
/// when there is one, else the local best guess.
pub fn resolve_content_type(indexed: Option<String>, guessed: String) -> (r: String)
    ensures
        indexed matches Some(ct) ==> r == ct,
        indexed is None ==> r == guessed,
{
    match indexed {
        Some(ct) => ct,
        None => guessed,
    }
}

/// The content type the index reported, normalized: an empty string counts as
/// not recorded.
pub fn normalize_content_type(ct: String) -> (r: Option<String>)
    ensures
        ct@.len() == 0 ==> r is None,
        ct@.len() > 0 ==> r == Some(ct),
{
    if ct.as_str().unicode_len() == 0 {
        None
    } else {
        Some(ct)
    }
}

/// The message reported when no application is available for a content type.
pub open spec fn no_app_for_type_message(content_type: Seq<char>) -> Seq<char> {
    "No application available for type \""@ + content_type + "\"."@
}

/// The message reported when no application is available for a scheme.
pub open spec fn no_app_for_scheme_message(scheme: Seq<char>) -> Seq<char> {
    "No application available for scheme \""@ + scheme + "\"."@
}

/// A short quoted insertion between a prefix and a suffix.
fn quote_into(prefix: &str, middle: &str, suffix: &str) -> (r: String)
    ensures
        r@ == prefix@ + middle@ + suffix@,
{
    let mut out = prefix.to_owned();
    let ghost with_middle = prefix@ + middle@;
    let mut i: usize = 0;
    let mid_len = middle.unicode_len();
    while i < mid_len
        invariant
            i <= mid_len,
            mid_len == middle@.len(),
            out@ == prefix@ + middle@.take(i as int),
        decreases mid_len - i,
    {
        push_char(&mut out, middle.get_char(i));
        proof {
            assert(prefix@ + middle@.take(i + 1 as int) =~= (prefix@ + middle@.take(
                i as int,
            )).push(middle@[i as int]));
        }
        i = i + 1;
    }
    proof {
        assert(prefix@ + middle@.take(mid_len as int) =~= with_middle);
    }
    let suf_len = suffix.unicode_len();
    let mut j: usize = 0;
    while j < suf_len
        invariant
            j <= suf_len,
            suf_len == suffix@.len(),
            out@ == with_middle + suffix@.take(j as int),
        decreases suf_len - j,
    {
        push_char(&mut out, suffix.get_char(j));
        proof {
            assert(with_middle + suffix@.take(j + 1 as int) =~= (with_middle + suffix@.take(
                j as int,
            )).push(suffix@[j as int]));
        }
        j = j + 1;
    }
    proof {
        assert(with_middle + suffix@.take(suf_len as int) =~= prefix@ + middle@ + suffix@);
    }
    out
}

/// The verdict of the capability check, given the question it posed and the
/// collaborators' answer. A string that is not a URI passes trivially; a
/// question that could not be asked imposes nothing; otherwise the registry's
/// answer decides, and a negative answer carries the exact message naming the
/// missing handler.
pub fn handler_verdict(check: &HandlerCheck, answer: &RegistryAnswer) -> (r: Result<
    (),
    String,
>)
    ensures
        check is NotApplicable ==> r is Ok,
        answer is Nothing ==> r is Ok,
        answer matches RegistryAnswer::ForType { content_type, has_app } ==> (check
            is ContentType ==> ((*has_app ==> r is Ok) && (!*has_app ==> (r matches Err(m)
            && m@ == no_app_for_type_message(content_type@))))),
        check matches HandlerCheck::Scheme(s) ==> (answer matches RegistryAnswer::ForScheme {
            has_app,
        } ==> ((*has_app ==> r is Ok) && (!*has_app ==> (r matches Err(m) && m@
            == no_app_for_scheme_message(s@))))),
        (check is ContentType && answer is ForScheme) ==> r is Ok,
        (check is Scheme && answer is ForType) ==> r is Ok,
{
    match check {
        HandlerCheck::NotApplicable => Ok(()),
        HandlerCheck::ContentType => {
            match answer {
                RegistryAnswer::ForType { content_type, has_app } => {
                    if *has_app {
                        Ok(())
                    } else {
                        Err(
                            quote_into(
                                "No application available for type \"",
                                content_type.as_str(),
                                "\".",
                            ),
                        )
                    }
                },
                _ => Ok(()),
            }
        },
        HandlerCheck::Scheme(s) => {
            match answer {
                RegistryAnswer::ForScheme { has_app } => {
                    if *has_app {
                        Ok(())
                    } else {
                        Err(
                            quote_into(
                                "No application available for scheme \"",
                                s.as_str(),
                                "\".",
                            ),
                        )
                    }
                },
                _ => Ok(()),
            }
        },
    }
}

} // verus!
