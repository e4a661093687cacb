use tinydocs::rich::{
    clear_source_ampers, description_of, extract_main_content, extract_main_content_checked,
    ImplInstance, Parser,
};

fn enum_page() -> &'static str {
    "<html><body><h1><a class=\"enum\">Color</a></h1>\
     <div class=\"docblock\"><p>An enum.</p><p> Second. </p></div>\
     <section class=\"variant\">§ Red</section><div class=\"docblock\"><p>Warm.</p></div>\
     <section class=\"variant\">Blue</section>\
     <div id=\"implementations-list\"><p>impl Color</p></div>\
     <div id=\"trait-implementations-list\"><section class=\"impl\"><h3>impl Copy for Color</h3></section></div>\
     </body></html>"
}

#[test]
fn enum_info_is_read() {
    let mut p = Parser::new(enum_page());
    p.parse_enum_info();
    assert_eq!(p.enum_name(), Some("Color".to_string()));
    assert_eq!(p.enum_description(), Some("An enum.\nSecond.".to_string()));
    assert!(p.enum_variants().is_empty());
}

#[test]
fn variants_pair_with_docblocks() {
    let mut p = Parser::new(enum_page());
    p.parse_enum_variants();
    let v = p.enum_variants();
    assert_eq!(v.len(), 2);
    assert_eq!(v[0].0.trim(), "Red");
    assert_eq!(v[0].1, "An enum.\nSecond.");
    assert_eq!(v[1].0.trim(), "Blue");
    assert_eq!(v[1].1, "Warm.");
}

#[test]
fn impl_listings_and_traits() {
    let mut p = Parser::new(enum_page());
    let listing = p.parse_impl_instances();
    assert_eq!(listing.len(), 1);
    assert!(listing[0].contains("impl Color"), "{:?}", listing);
    p.parse_traits();
    assert_eq!(p.traits, vec!["impl Copy".to_string()]);
    assert!(p.impl_instances().is_empty());
    let inst = ImplInstance { name: "impl Color".to_string(), impl_methods: vec![("fn a()".to_string(), "A.".to_string())] };
    assert_eq!(inst.impl_methods.len(), 1);
}

#[test]
fn description_text() {
    assert_eq!(description_of("<p> a </p>\n<p>b</p>"), "a\n\nb");
    assert_eq!(description_of(""), "");
}

#[test]
fn main_content_rendered() {
    let out = extract_main_content("<html><body><main><h3 class=\"code-header\">fn a()</h3></main></body></html>").unwrap();
    assert!(out.to_lowercase().contains("fn a()"), "{:?}", out);
    assert_eq!(extract_main_content("<html><body><p>x</p></body></html>"), None);
}

#[test]
fn rich_cleaning_shortens_blank_runs() {
    assert_eq!(
        clear_source_ampers("source§Struct X\nFIELDS\n\n\nend Read more".to_string()),
        "Struct X\n\nFIELDS\n\nend"
    );
}

#[test]
fn checked_parsing_on_small_pages() {
    let mut p = Parser::new(enum_page());
    assert!(p.variant_names_fit_in());
    assert!(p.try_parse_enum_variants());
    assert_eq!(p.enum_variants().len(), 2);
    assert!(p.listings_fit_in());
    let listing = p.parse_impl_instances_checked().unwrap();
    assert_eq!(listing.len(), 1);
    assert_eq!(extract_main_content_checked("<html><body><p>x</p></body></html>"), Some(None));
    assert!(extract_main_content_checked("<html><body><main><p>hi</p></main></body></html>").unwrap().is_some());
}
