use fileinfo::handler::handler_requirement;
use fileinfo::handler::handler_verdict;
use fileinfo::handler::looks_like_uri;
use fileinfo::handler::normalize_content_type;
use fileinfo::handler::resolve_content_type;
use fileinfo::handler::HandlerCheck;
use fileinfo::handler::RegistryAnswer;

#[test]
fn looks_like_uri_valid() {
    assert!(looks_like_uri("https://example.com"));
}

#[test]
fn looks_like_uri_invalid() {
    assert!(!looks_like_uri("not a uri"));
}

#[test]
fn looks_like_uri_date() {
    assert!(!looks_like_uri("2024-06-04T12:34:56Z"));
}

#[test]
fn looks_like_uri_file_scheme() {
    assert!(looks_like_uri("file:///tmp/test"));
}

#[test]
fn uri_has_handler_unknown_scheme() {
    let uri = "nosuchscheme://foo";
    let check = handler_requirement(uri);
    assert!(matches!(check, HandlerCheck::Scheme(ref s) if s == "nosuchscheme"));
    // No application is registered for such a scheme, so the registry says no
    // and the check fails with the message naming the scheme.
    let verdict = handler_verdict(&check, &RegistryAnswer::ForScheme { has_app: false });
    assert_eq!(
        verdict,
        Err(String::from(
            "No application available for scheme \"nosuchscheme\"."
        ))
    );
}

#[test]
fn invalid_uri_passes_trivially() {
    let check = handler_requirement("not a uri");
    assert!(matches!(check, HandlerCheck::NotApplicable));
    // Whatever the collaborators would have answered, the verdict is success.
    assert_eq!(
        handler_verdict(&check, &RegistryAnswer::ForScheme { has_app: false }),
        Ok(())
    );
    assert_eq!(handler_verdict(&check, &RegistryAnswer::Nothing), Ok(()));
}

#[test]
fn file_uri_asks_for_content_type() {
    let check = handler_requirement("file:///tmp/test");
    assert!(matches!(check, HandlerCheck::ContentType));
}

#[test]
fn missing_type_handler_names_the_type() {
    let check = handler_requirement("file:///tmp/report.pdf");
    let answer = RegistryAnswer::ForType {
        content_type: String::from("application/pdf"),
        has_app: false,
    };
    assert_eq!(
        handler_verdict(&check, &answer),
        Err(String::from(
            "No application available for type \"application/pdf\"."
        ))
    );
}

#[test]
fn present_handler_passes() {
    let check = handler_requirement("https://example.com");
    let verdict = handler_verdict(&check, &RegistryAnswer::ForScheme { has_app: true });
    assert_eq!(verdict, Ok(()));
}

#[test]
fn unanswerable_question_imposes_nothing() {
    let check = handler_requirement("file:///tmp/test");
    assert_eq!(handler_verdict(&check, &RegistryAnswer::Nothing), Ok(()));
}

#[test]
fn indexed_content_type_preferred_over_guess() {
    assert_eq!(
        resolve_content_type(Some(String::from("text/plain")), String::from("image/png")),
        "text/plain"
    );
    assert_eq!(
        resolve_content_type(None, String::from("image/png")),
        "image/png"
    );
}

#[test]
fn empty_indexed_content_type_counts_as_missing() {
    assert_eq!(normalize_content_type(String::new()), None);
    assert_eq!(
        normalize_content_type(String::from("text/html")),
        Some(String::from("text/html"))
    );
}
