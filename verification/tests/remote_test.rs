use savebutton_sync::collection::Collection;
use savebutton_sync::error::{KayaError, TransportFailure};
use savebutton_sync::remote::{
    api_root, check_status, classify_status, download_url, is_upload_accepted, listing_url,
    upload_url, words_index_url, StatusClass,
};

#[test]
fn encoding_escapes_all_but_unreserved() {
    let encoded = |text: &str| api_root("", text).split_off("/api/v1/".len());
    assert_eq!(encoded("a@b.c"), "a%40b.c");
    assert_eq!(encoded("AZaz09-._~"), "AZaz09-._~");
    assert_eq!(encoded("a b/c?d"), "a%20b%2Fc%3Fd");
    assert_eq!(encoded("é"), "%C3%A9");
    assert_eq!(encoded("100%"), "100%25");
    assert_eq!(encoded(""), "");
    assert_eq!(encoded("\u{0}\u{7f}"), "%00%7F");
}

#[test]
fn urls_of_the_remote_store() {
    let anga = Collection::Anga;
    let meta = Collection::Meta;
    let words = Collection::Words("my doc".to_string());
    assert_eq!(api_root("https://h.example/", "a@b.c"), "https://h.example/api/v1/a%40b.c");
    assert_eq!(
        listing_url("https://h.example", "a@b.c", &anga),
        "https://h.example/api/v1/a%40b.c/anga"
    );
    assert_eq!(
        listing_url("https://h.example//", "a@b.c", &meta),
        "https://h.example/api/v1/a%40b.c/meta"
    );
    assert_eq!(
        words_index_url("https://h.example/", "a@b.c"),
        "https://h.example/api/v1/a%40b.c/words"
    );
    assert_eq!(
        listing_url("https://h.example/", "a@b.c", &words),
        "https://h.example/api/v1/a%40b.c/words/my%20doc"
    );
}

#[test]
fn download_urls_keep_listed_names_and_upload_urls_encode_them() {
    let anga = Collection::Anga;
    let words = Collection::Words("d".to_string());
    assert_eq!(
        download_url("http://s", "e", &anga, "a%20b c.pdf"),
        "http://s/api/v1/e/anga/a%20b c.pdf"
    );
    assert_eq!(
        upload_url("http://s", "e", &anga, "a%20b c.pdf"),
        "http://s/api/v1/e/anga/a%2520b%20c.pdf"
    );
    assert_eq!(
        download_url("http://s", "e", &words, "a b.txt"),
        "http://s/api/v1/e/words/d/a%20b.txt"
    );
    assert_eq!(
        upload_url("http://s", "e", &Collection::Meta, "x.toml"),
        "http://s/api/v1/e/meta/x.toml"
    );
}

#[test]
fn status_classes() {
    assert_eq!(classify_status(200), StatusClass::Success);
    assert_eq!(classify_status(204), StatusClass::Success);
    assert_eq!(classify_status(299), StatusClass::Success);
    assert_eq!(classify_status(199), StatusClass::Failure);
    assert_eq!(classify_status(300), StatusClass::Failure);
    assert_eq!(classify_status(401), StatusClass::Unauthorized);
    assert_eq!(classify_status(409), StatusClass::Conflict);
    assert_eq!(classify_status(404), StatusClass::Failure);
    assert_eq!(classify_status(500), StatusClass::Failure);
    assert_eq!(classify_status(0), StatusClass::Failure);
}

#[test]
fn conflict_is_as_good_as_success_for_a_push() {
    assert!(is_upload_accepted(200));
    assert!(is_upload_accepted(201));
    assert!(is_upload_accepted(409));
    assert_eq!(is_upload_accepted(409), is_upload_accepted(200));
    assert!(!is_upload_accepted(401));
    assert!(!is_upload_accepted(500));
    assert!(!is_upload_accepted(408));
}

#[test]
fn status_check_reports_refusals() {
    assert!(check_status(200).is_ok());
    assert!(matches!(
        check_status(401),
        Err(KayaError::Transport(TransportFailure::Unauthorized))
    ));
    assert!(matches!(
        check_status(503),
        Err(KayaError::Transport(TransportFailure::Status(503)))
    ));
    assert!(matches!(
        check_status(409),
        Err(KayaError::Transport(TransportFailure::Status(409)))
    ));
}
