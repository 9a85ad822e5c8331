use http_server::status_code_registry::{get_reason_phrase, get_status_code, ReasonPhrase};

#[test]
fn test_get_reason_phrase_some() {
    let status_code = 200;
    let reason_phrase = get_reason_phrase(status_code).unwrap();
    assert_eq!(reason_phrase, ReasonPhrase::OK);
}

#[test]
#[should_panic]
fn test_get_reason_phrase_none() {
    let status_code = 600;
    get_reason_phrase(status_code).unwrap();
}

#[test]
fn test_get_status_code() {
    let reason_phrase = ReasonPhrase::OK;
    let status_code = get_status_code(reason_phrase);
    assert_eq!(status_code, 200);
}

#[test]
fn test_as_str() {
    let reason_phrase = ReasonPhrase::NotFound;
    assert_eq!(reason_phrase.as_str(), "Not Found");
}

#[test]
fn test_registry_both_ways() {
    let mut known = 0;
    for status_code in 0..=u16::MAX {
        if let Some(reason_phrase) = get_reason_phrase(status_code) {
            known += 1;
            assert_eq!(get_status_code(reason_phrase), status_code);
            assert_eq!(reason_phrase.to_string(), reason_phrase.as_str());
        }
    }
    assert_eq!(known, 60);
    assert_eq!(get_status_code(ReasonPhrase::IMUsed), 226);
    assert_eq!(get_status_code(ReasonPhrase::NetworkAuthenticationRequired), 511);
    assert_eq!(get_reason_phrase(451), Some(ReasonPhrase::UnavailableForLegalReasons));
    assert_eq!(get_reason_phrase(306), None);
    assert_eq!(ReasonPhrase::IMUsed.as_str(), "IM Used");
}
