use savebutton_sync::collection::Collection;
use savebutton_sync::http::{
    cors_headers, join_lines, list_files, list_words_dirs, listing_body, reply_directly,
    reply_to, respond_error, Served, respond_no_content, respond_ok,
    respond_refused, route_request, visible_names, Method, Refusal, Route,
};

fn strings(names: &[&str]) -> Vec<String> {
    names.iter().map(|n| n.to_string()).collect()
}

#[test]
fn preflight_is_answered_on_any_path() {
    assert!(matches!(route_request(Method::Options, "/anything"), Route::Preflight));
    assert!(matches!(route_request(Method::Options, "/anga/x"), Route::Preflight));
    assert!(matches!(route_request(Method::Options, ""), Route::Preflight));
}

#[test]
fn fixed_routes() {
    assert!(matches!(route_request(Method::Get, "/health"), Route::Health));
    assert!(matches!(
        route_request(Method::Get, "/anga"),
        Route::ListFiles(Collection::Anga)
    ));
    assert!(matches!(
        route_request(Method::Get, "/meta"),
        Route::ListFiles(Collection::Meta)
    ));
    assert!(matches!(route_request(Method::Get, "/words"), Route::ListWordDirs));
    assert!(matches!(route_request(Method::Post, "/config"), Route::Config));
}

#[test]
fn unknown_requests_are_not_found() {
    assert!(matches!(route_request(Method::Post, "/health"), Route::NotFound));
    assert!(matches!(route_request(Method::Get, "/config"), Route::NotFound));
    assert!(matches!(route_request(Method::Get, "/anga/x"), Route::NotFound));
    assert!(matches!(route_request(Method::Get, "/"), Route::NotFound));
    assert!(matches!(route_request(Method::Other, "/health"), Route::NotFound));
    assert!(matches!(route_request(Method::Post, "/anga"), Route::NotFound));
    assert!(matches!(route_request(Method::Get, "/words/a/b"), Route::NotFound));
    assert!(matches!(route_request(Method::Post, "/words/a"), Route::NotFound));
    assert!(matches!(route_request(Method::Post, "/words/a/b/c"), Route::NotFound));
}

#[test]
fn files_are_written_under_their_decoded_names() {
    match route_request(Method::Post, "/anga/my%20file.pdf") {
        Route::WriteFile { collection: Collection::Anga, filename } => {
            assert_eq!(filename, "my file.pdf")
        }
        other => panic!("{:?}", other),
    }
    match route_request(Method::Post, "/meta/a.toml") {
        Route::WriteFile { collection: Collection::Meta, filename } => {
            assert_eq!(filename, "a.toml")
        }
        other => panic!("{:?}", other),
    }
    match route_request(Method::Post, "/words/my%20doc/part%2B1.txt") {
        Route::WriteFile { collection: Collection::Words(anga), filename } => {
            assert_eq!(anga, "my doc");
            assert_eq!(filename, "part+1.txt");
        }
        other => panic!("{:?}", other),
    }
    match route_request(Method::Get, "/words/my%20doc") {
        Route::ListFiles(Collection::Words(anga)) => assert_eq!(anga, "my doc"),
        other => panic!("{:?}", other),
    }
}

#[test]
fn odd_escapes_are_kept() {
    match route_request(Method::Post, "/anga/100%") {
        Route::WriteFile { filename, .. } => assert_eq!(filename, "100%"),
        other => panic!("{:?}", other),
    }
    match route_request(Method::Post, "/anga/a%zzb%4") {
        Route::WriteFile { filename, .. } => assert_eq!(filename, "a%zzb%4"),
        other => panic!("{:?}", other),
    }
    match route_request(Method::Post, "/anga/a%4Gb%41") {
        Route::WriteFile { filename, .. } => assert_eq!(filename, "a%4GbA"),
        other => panic!("{:?}", other),
    }
    match route_request(Method::Post, "/anga/%e2%98%83") {
        Route::WriteFile { filename, .. } => assert_eq!(filename, "☃"),
        other => panic!("{:?}", other),
    }
}

#[test]
fn bad_names_are_refused() {
    let invalid_filename = Route::Refused(Refusal::InvalidFilename);
    for url in ["/anga/", "/anga/a/b", "/anga/..", "/anga/a..b", "/anga/%2e%2e", "/anga/a%2Fb",
        "/anga/%ff", "/meta/", "/meta/../x"]
    {
        let route = route_request(Method::Post, url);
        assert!(
            matches!(route, Route::Refused(Refusal::InvalidFilename)),
            "{} gave {:?}, not {:?}",
            url,
            route,
            invalid_filename
        );
    }
    for url in ["/words/", "/words/..", "/words/%2e%2e", "/words/a%2Fb"] {
        assert!(matches!(
            route_request(Method::Get, url),
            Route::Refused(Refusal::InvalidAngaName)
        ));
    }
    for url in ["/words//x", "/words/a/", "/words/../x", "/words/a/..", "/words/a%2Fb/x",
        "/words/a/b%2Fc", "/words/a/x..y"]
    {
        assert!(
            matches!(route_request(Method::Post, url), Route::Refused(Refusal::InvalidPath)),
            "{}",
            url
        );
    }
}

#[test]
fn replies_carry_status_body_and_cors_headers() {
    let cors = vec![
        ("Access-Control-Allow-Origin".to_string(), "*".to_string()),
        ("Access-Control-Allow-Methods".to_string(), "GET, POST, OPTIONS".to_string()),
        ("Access-Control-Allow-Headers".to_string(), "Content-Type".to_string()),
    ];
    assert_eq!(cors_headers(), cors);
    let ok = respond_ok("ok");
    assert_eq!((ok.status, ok.body.as_str()), (200, "ok"));
    assert_eq!(ok.headers, cors);
    let error = respond_error(500, "boom");
    assert_eq!((error.status, error.body.as_str()), (500, "boom"));
    assert_eq!(error.headers, cors);
    let none = respond_no_content();
    assert_eq!((none.status, none.body.as_str()), (204, ""));
    assert_eq!(none.headers, cors);
    let refused = respond_refused(Refusal::InvalidFilename);
    assert_eq!((refused.status, refused.body.as_str()), (400, "Invalid filename"));
    assert_eq!(respond_refused(Refusal::InvalidAngaName).body, "Invalid anga name");
    assert_eq!(respond_refused(Refusal::InvalidPath).body, "Invalid path");
    assert_eq!(refused.headers, cors);
}

#[test]
fn routes_that_need_no_input_or_output_are_answered_directly() {
    let preflight = reply_directly(&Route::Preflight).unwrap();
    assert_eq!((preflight.status, preflight.body.as_str()), (204, ""));
    let health = reply_directly(&Route::Health).unwrap();
    assert_eq!((health.status, health.body.as_str()), (200, "ok"));
    let refused = reply_directly(&Route::Refused(Refusal::InvalidPath)).unwrap();
    assert_eq!((refused.status, refused.body.as_str()), (400, "Invalid path"));
    let missing = reply_directly(&Route::NotFound).unwrap();
    assert_eq!((missing.status, missing.body.as_str()), (404, "Not found"));
    assert_eq!(missing.headers, cors_headers());
    assert_eq!(preflight.headers, cors_headers());
    assert!(reply_directly(&Route::Config).is_none());
    assert!(reply_directly(&Route::ListWordDirs).is_none());
    assert!(reply_directly(&Route::ListFiles(Collection::Anga)).is_none());
    assert!(reply_directly(&Route::WriteFile {
        collection: Collection::Meta,
        filename: "a.toml".to_string()
    })
    .is_none());
}

#[test]
fn served_requests_are_answered_by_what_came_of_them() {
    let listing = reply_to(&Served::Listing("a\nb".to_string()));
    assert_eq!((listing.status, listing.body.as_str()), (200, "a\nb"));
    let written = reply_to(&Served::FileWritten);
    assert_eq!((written.status, written.body.as_str()), (200, "ok"));
    let stored = reply_to(&Served::ConfigStored);
    assert_eq!((stored.status, stored.body.as_str()), (200, "{\"ok\":true}"));
    let failed = reply_to(&Served::Failed("IO error: disk full".to_string()));
    assert_eq!((failed.status, failed.body.as_str()), (500, "IO error: disk full"));
    assert_eq!(failed.headers, cors_headers());
    assert_eq!(stored.headers, cors_headers());
}

#[test]
fn listings_are_sorted_and_hide_dotfiles() {
    let names = strings(&["b.txt", ".hidden", "a.txt", "B.txt", "é.txt", "a.txt"]);
    assert_eq!(
        visible_names(names.clone(), false),
        strings(&["b.txt", "a.txt", "B.txt", "é.txt", "a.txt"])
    );
    assert_eq!(visible_names(names.clone(), true), names);
    assert_eq!(listing_body(names.clone(), false), "B.txt\na.txt\na.txt\nb.txt\né.txt");
    assert_eq!(
        listing_body(names, true),
        ".hidden\nB.txt\na.txt\na.txt\nb.txt\né.txt"
    );
    assert_eq!(listing_body(Vec::new(), false), "");
    assert_eq!(listing_body(strings(&["only"]), false), "only");
    assert_eq!(listing_body(strings(&[".x"]), false), "");
}

#[test]
fn collections_are_listed_by_their_rules() {
    let names = strings(&["b", ".a", "a"]);
    assert_eq!(list_files(&Collection::Anga, names.clone()), "a\nb");
    assert_eq!(list_files(&Collection::Meta, names.clone()), "a\nb");
    assert_eq!(list_files(&Collection::Words("w".to_string()), names.clone()), ".a\na\nb");
    assert_eq!(list_words_dirs(names), "a\nb");
}

#[test]
fn lines_are_joined_with_line_feeds() {
    assert_eq!(join_lines(&strings(&[])), "");
    assert_eq!(join_lines(&strings(&["a"])), "a");
    assert_eq!(join_lines(&strings(&["a", "", "b"])), "a\n\nb");
}
