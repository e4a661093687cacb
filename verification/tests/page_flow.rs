use tinydocs::engines::fits_html_parser;
use tinydocs::engines::UrlParts;
use tinydocs::pages::{
    august_preview, doit, doit_checked, extract_all, extract_crate_name, extract_implementations, extract_main,
    extract_root_url, extract_second_word, extract_struct_enum_header,
    extract_trait_header, extract_trait_implementators, fetch_outcome,
    implementations_between, implementations_in_order, page_text, root_url_of, triage,
    triage_is_defined, FetchError, UrlError,
};

#[test]
fn second_word_or_error() {
    assert_eq!(extract_second_word("Struct smallbox::SmallBox<T>").ok(), Some("smallbox::SmallBox<T>"));
    assert_eq!(extract_second_word("  a\t b c").ok(), Some("b"));
    let err = extract_second_word("Struct").err().unwrap();
    assert_eq!(err.message(), "No second word found");
    assert!(extract_second_word("   ").is_err());
}

#[test]
fn main_content_is_found() {
    let page = "<html><body><nav>x</nav><section id=\"main-content\"><p>Hi</p></section>\
                <section id=\"main-content\"><p>Again</p></section></body></html>";
    assert_eq!(extract_all(page), Some("<p>Hi</p>".to_string()));
    assert_eq!(extract_all("<html><body><p>none</p></body></html>"), None);
}

#[test]
fn header_and_implementations_are_cut() {
    let text = "Struct S\nfields\nImplementations\nimpl S\n\nTrait Implementations\nClone";
    assert_eq!(extract_struct_enum_header(text), "Struct S\nfields");
    assert!(implementations_in_order(text));
    assert_eq!(extract_implementations(text), "impl S");
    assert_eq!(extract_implementations("Enum E\nImplementations\nimpl E\n"), "impl E");
    assert_eq!(extract_implementations("Enum E\n no sections"), "");
    assert_eq!(extract_struct_enum_header("Enum E"), "Enum E");
}

#[test]
fn reversed_sections_are_refused() {
    let text = "Trait Implementations\nx\nImplementations\ny";
    assert!(!implementations_in_order(text));
    let first = Some(("Trait Implementations\nx\n".to_string(), "Implementations".to_string(), "\ny".to_string()));
    let second = Some((String::new(), "Trait Implementations".to_string(), "\nx\nImplementations\ny".to_string()));
    assert_eq!(implementations_between(text, &first, &second), None);
    assert_eq!(implementations_between(text, &first, &None), Some("y".to_string()));
}

#[test]
fn triage_by_first_word() {
    let html = "<html><body><div id=\"trait-implementations-list\"><section class=\"impl\">\
                <h3>impl Clone for S</h3></section></div></body></html>";
    let content = "Struct S\n\n\nImplementations\nimpl S\n\n\n\nTrait Implementations\n".to_string();
    assert!(triage_is_defined(&content, html));
    assert_eq!(
        triage(content, html),
        "Struct S\n__________\n\nIMPLEMENTATIONS:\nimpl S\n__________\n\nTRAITS:\nimpl Clone"
    );
    assert_eq!(triage("Module m\r\nitems\n".to_string(), ""), "Module m\nitems");
    assert_eq!(triage("Function f\nbody".to_string(), ""), "");
    assert!(!triage_is_defined("  \n ", ""));
    assert!(triage_is_defined("Module m", ""));
    assert!(!triage_is_defined("Enum E\nTrait Implementations\nImplementations", ""));
}

#[test]
fn page_is_turned_into_text() {
    let page = "<html><body><section id=\"main-content\"><h1>Crate <a href=\"x\">demo</a></h1>\
                <p>A tiny crate.</p></section></body></html>";
    let out = doit(page, "https://docs.rs/demo/latest/demo/");
    assert!(out.starts_with("Crate demo"), "{:?}", out);
    assert!(out.contains("A tiny crate."), "{:?}", out);
    assert!(!out.contains("<"), "{:?}", out);
    assert_eq!(doit("<html><body><p>x</p></body></html>", "u"), "NONE");
    assert_eq!(doit_checked("<html><body><p>x</p></body></html>", "u"), Some("NONE".to_string()));
    let other = "<html><body><section id=\"main-content\"><p>Function f</p></section></body></html>";
    assert_eq!(doit(other, "u"), "");
    let empty = "<html><body><section id=\"main-content\"></section></body></html>";
    assert_eq!(doit_checked(empty, "u"), None);
    let text = page_text("<p>## Title</p><p>body §</p>");
    assert!(!text.contains('§'), "{:?}", text);
    assert!(text.contains("body"), "{:?}", text);
}

#[test]
fn root_url_and_crate_name() {
    let url = "https://docs.rs/smallbox/latest/smallbox/all.html";
    assert_eq!(extract_root_url(url).ok(), Some("https://docs.rs/smallbox/latest/smallbox/".to_string()));
    assert_eq!(extract_crate_name(url).ok(), Some("smallbox".to_string()));
    match extract_root_url("not a url") {
        Err(UrlError::Parse(m)) => assert_eq!(m, "URL parse error: relative URL without a base"),
        _ => panic!("expected a parse error"),
    }
    match extract_crate_name("not a url") {
        Err(UrlError::Parse(m)) => assert_eq!(m, "relative URL without a base"),
        _ => panic!("expected a parse error"),
    }
    assert!(matches!(extract_root_url("mailto:x@example.com"), Err(UrlError::InvalidPathSegments)));
    assert!(matches!(extract_crate_name("mailto:x@example.com"), Err(UrlError::InvalidPathSegments)));
    assert!(matches!(extract_root_url("file:///a/b"), Err(UrlError::InvalidHost)));
    assert_eq!(extract_crate_name("file:///a/b").ok(), Some("a".to_string()));
    assert_eq!(UrlError::InvalidHost.message(), "Invalid host");
    assert_eq!(UrlError::NoPathSegments.message(), "URL has no path segments");
}

#[test]
fn root_url_from_parts() {
    let parts = UrlParts {
        scheme: "https".to_string(),
        host: Some("docs.rs".to_string()),
        segments: Some(vec!["a".to_string(), "b".to_string(), "c.html".to_string()]),
        serialization: "https://docs.rs/a/b/c.html".to_string(),
    };
    assert_eq!(root_url_of(&parts).ok(), Some("https://docs.rs/a/b/".to_string()));
    let single = UrlParts { segments: Some(vec![String::new()]), ..parts };
    assert_eq!(root_url_of(&single).ok(), Some("https://docs.rs//".to_string()));
    let none = UrlParts { segments: Some(Vec::new()), ..single };
    assert!(matches!(root_url_of(&none), Err(UrlError::NoPathSegments)));
}

#[test]
fn fetch_outcomes() {
    assert_eq!(fetch_outcome(true, "body".to_string()).ok(), Some("body".to_string()));
    let err = fetch_outcome(false, "body".to_string()).err().unwrap();
    assert_eq!(err.message(), "Failed to fetch page");
    assert_eq!(FetchError::new("boom").details, "boom");
}

#[test]
fn august_sections() {
    assert_eq!(extract_main("Struct X\nIMPLEMENTATIONS\nimpl"), "Struct X\n");
    assert_eq!(extract_main("Struct X"), "Struct X");
    assert_eq!(extract_trait_header("Trait T\n\nImplementations\nimpl T for u8"), "Trait T");
    assert_eq!(extract_trait_implementators("Trait T\n\nLocal Implementors\n impl T for u8 \n"), "impl T for u8");
    assert_eq!(extract_trait_header("Trait T"), "Trait T");
    assert_eq!(extract_trait_implementators("Trait T"), "");
}

#[test]
fn summaries_are_trimmed() {
    let page = "<html><body><section id=\"main-content\"><h1>Module <a href=\"x\">m</a></h1>\
                <p>  Items here.  </p><p>   </p></section></body></html>";
    let out = doit(page, "u");
    assert_eq!(out, out.trim());
    assert!(out.starts_with("Module m"), "{:?}", out);
}

#[test]
fn august_preview_of_a_page() {
    let page = "<html><body><section id=\"main-content\"><h1>Struct <a href=\"x\">V</a></h1>\
                <p>A vector.</p><h2>Implementations</h2><p>impl V</p></section>\
                <div id=\"trait-implementations-list\"><section class=\"impl\">\
                <h3>impl Debug for V</h3></section></div></body></html>";
    let (traits, main) = august_preview(page).unwrap();
    assert_eq!(traits, vec!["impl Debug".to_string()]);
    let main = main.unwrap();
    assert!(main.contains("A vector."), "{:?}", main);
    let (none_traits, none_main) = august_preview("<html><body><p>x</p></body></html>").unwrap();
    assert!(none_traits.is_empty());
    assert_eq!(none_main, None);
}

#[test]
fn parser_size_limit() {
    assert!(fits_html_parser("<html></html>"));
    assert!(fits_html_parser(""));
}
