use tinydocs::scrape::{
    clear_source_ampers, code_blocks_in, convert_code_to_block, fix_struct_newlines,
    fix_trait_newlines, fix_type_newlines, preprocess_where_keywords, process_titles,
    remove_links_from_html, set_struct_sections_apart, set_trait_sections_apart,
    shorten_feed_run, space_where_clauses, trait_name, Parser, TinyModule,
    TinyStructEnumModule,
};
use tinydocs::text::{from_chars, to_chars};

#[test]
fn tiny_module_text_ends_each_line() {
    let m = TinyModule { content: "Crate smallbox\r\n\nSmall box".to_string() };
    assert_eq!(m.debug_text(), "Crate smallbox\n\nSmall box\n");
    let empty = TinyModule { content: String::new() };
    assert_eq!(empty.debug_text(), "");
}

#[test]
fn struct_enum_text_lists_traits_five_to_a_line() {
    let traits: Vec<String> = ["A", "B", "C", "D", "E", "F", "G"].iter().map(|s| s.to_string()).collect();
    let m = TinyStructEnumModule {
        header: "Struct x::Y\nfields".to_string(),
        implementations: "impl Y\nfn new()".to_string(),
        traits,
    };
    assert_eq!(
        m.debug_text(),
        "Struct x::Y\nfields\n__________\n\nIMPLEMENTATIONS:\nimpl Y\nfn new()\n__________\n\nTRAITS:\nA, B, C, D, E\nF, G\n"
    );
    let bare = TinyStructEnumModule {
        header: "Enum e::E".to_string(),
        implementations: String::new(),
        traits: Vec::new(),
    };
    assert_eq!(bare.debug_text(), "Enum e::E\n");
}

#[test]
fn titles_become_rules() {
    assert_eq!(
        process_titles("Intro\n## Fields\nx: u8"),
        "Intro\n__________\n\nFields\n\nx: u8\n"
    );
    assert_eq!(process_titles("### Deep\n##NoSpace"), "### Deep\n##NoSpace\n");
}

#[test]
fn links_are_unwrapped() {
    assert_eq!(
        remove_links_from_html("<p>See <a href=\"x.html\">X</A> and <A class='y'>Y</a>.</p>"),
        "<p>See X and Y.</p>"
    );
    assert_eq!(remove_links_from_html("<abbr>no</abbr>"), "no</abbr>");
}

#[test]
fn cleaned_text_loses_page_furniture() {
    let text = "source§\n  § Struct Foo\nRead more\n## Methods\nconst: unstable · fn a()\n[Copy item path]\n[−][src]\nsource\nsource · [−]x\nsource · yExpand description  \n";
    let cleaned = clear_source_ampers(text.to_string());
    assert_eq!(
        cleaned,
        "Struct Foo\n__________________________________________\n\n\n\nMethods\n fn a()\n\n\nx\n y"
    );
    assert!(!cleaned.contains('§'));
}

#[test]
fn feed_runs_shorten() {
    assert_eq!(shorten_feed_run("\n\n\n", 2), "\n");
    assert_eq!(shorten_feed_run("\n\n\n\n", 2), "\n\n");
    assert_eq!(shorten_feed_run("\n\n", 1), "\n");
    assert_eq!(shorten_feed_run("ab", 1), "ab");
    assert_eq!(shorten_feed_run("\n", 2), "\n");
}

#[test]
fn blank_lines_collapse() {
    assert_eq!(fix_type_newlines("a\n\n\nb\n\n\n\nc\n\nd".to_string()), "a\nb\n\nc\n\nd");
    assert_eq!(fix_type_newlines("a\n\n\n\n\n\n\nb".to_string()), "a\n\n\nb");
}

#[test]
fn struct_sections_set_apart() {
    assert_eq!(
        set_struct_sections_apart("Struct S\nFIELDS\nx  "),
        "Struct S\n\n\nFIELDS\nx"
    );
    assert_eq!(
        fix_struct_newlines("Struct S\n\n\nIMPLEMENTORS\n".to_string()),
        "Struct S\n\n\n\nLOCAL IMPLEMENTORS"
    );
    assert_eq!(
        fix_struct_newlines("Struct S\n\n\nIMPLEMENTATIONS\n".to_string()),
        "Struct S\n\n\nIMPLEMENTATIONS"
    );
}

#[test]
fn trait_sections_set_apart() {
    assert_eq!(
        set_trait_sections_apart("Trait T\nREQUIRED METHODS\nfn a()\n"),
        "Trait T\n\n\nREQUIRED METHODS\n\n\n\nfn a()"
    );
    assert_eq!(
        fix_trait_newlines("Trait T\n\n\n\nIMPLEMENTATIONS ON FOREIGN TYPES".to_string()),
        "Trait T\n\n\n\nIMPLEMENTATIONS"
    );
}

#[test]
fn code_headers_become_docblocks() {
    let header = "<h3 class=\"code-header\">impl Foo</h3>".to_string();
    let html = format!("<div>{}</div>", header);
    assert_eq!(
        code_blocks_in(&html, &vec![header]),
        "<div><div class=\"docblock\">impl Foo</div></div>"
    );
    let page = "<html><body><section><h4 class=\"code-header\">fn a()</h4></section></body></html>";
    let out = convert_code_to_block(page);
    assert!(out.contains("<div class=\"docblock\">fn a()</div>"), "{}", out);
    assert!(!out.contains("code-header"), "{}", out);
}

#[test]
fn where_clauses_get_a_space() {
    let clause = "<span class=\"where fmt-newline\">where T: Clone</span>".to_string();
    assert_eq!(
        space_where_clauses(&format!("fn f()<br>{}", clause), &vec![clause.clone()]),
        format!("fn f()<br> {}", clause)
    );
    let page = "<html><body><pre>impl<span class=\"where fmt-newline\">where T: Copy</span></pre></body></html>";
    let out = preprocess_where_keywords(page);
    assert!(out.contains("impl <span class=\"where fmt-newline\">where T: Copy</span>"), "{}", out);
    assert!(out.starts_with("<head></head><body>"), "{}", out);
}

#[test]
fn trait_names_from_headings() {
    let name = |s: &str| trait_name(&to_chars(s)).map(|n| from_chars(&n));
    assert_eq!(name("impl  Clone\n for Foo"), Some("impl Clone".to_string()));
    assert_eq!(name("impl<T> From<T> for Foo"), Some("impl<T> From<T>".to_string()));
    assert_eq!(name("   for Foo"), None);
    assert_eq!(name("impl Information"), Some("impl In".to_string()));
}

#[test]
fn parser_reads_trait_sections_in_order() {
    let html = "<html><body>\
        <div id=\"blanket-implementations-list\"><section class=\"impl\"><h3>impl&lt;T&gt; Any for T</h3></section></div>\
        <div id=\"trait-implementations-list\"><section class=\"impl\"><h3>impl Clone for Foo</h3></section>\
        <section class=\"impl\"><h3>impl Debug for Foo</h3></section></div>\
        <div id=\"synthetic-implementations-list\"><section class=\"impl\"><h3>impl Send for Foo</h3></section></div>\
        </body></html>";
    let mut parser = Parser::new(html);
    parser.parse_traits();
    assert_eq!(
        parser.into_traits(),
        vec!["impl Clone", "impl Debug", "impl Send", "impl<T> Any"]
    );
}

#[test]
fn struct_newlines_without_section_names() {
    let content = "Struct S\n\n\nbody text\n\n\n\nmore  \n";
    assert_eq!(
        fix_struct_newlines(content.to_string()),
        fix_type_newlines(content.to_string()).trim_end()
    );
    assert_eq!(fix_type_newlines(content.to_string()), "Struct S\nbody text\n\nmore  \n");
}

#[test]
fn stated_pattern_cases() {
    assert_eq!(remove_links_from_html("<A href=x>t</A> <a no close"), "t <a no close");
    assert_eq!(process_titles("## T\nx\n##y"), "__________\n\nT\n\nx\n##y\n");
}
