use tinydocs::crawl::{
    crawl_plan, embedding_jobs, first_visit, in_scope_target, join_links, key_le_exec, should_continue,
    off_page_links, sort_pages, tiny_docs_output, total_token_count, visit_targets,
};
use tinydocs::text::to_chars;

#[test]
fn links_to_visit() {
    let body = "<html><body>\
        <a href=\"struct.A.html\">A</a>\
        <a href=\"struct.A.html#method.new\">A::new</a>\
        <a href=\"fn.f.html\">f</a>\
        <a href=\"index.html\">index</a>\
        <a href=\"https://other.org/x\">x</a>\
        <a href=\"../../other/\">up</a>\
        <a>no href</a>\
        <a href=\"enum.B.html\">B</a>\
        </body></html>";
    let plan = crawl_plan("https://docs.rs/demo/latest/demo/all.html", body).ok().unwrap();
    assert_eq!(plan.base_url, "https://docs.rs/demo/latest/demo/");
    assert_eq!(plan.crate_name, "demo");
    assert_eq!(
        plan.targets,
        vec![
            "https://docs.rs/demo/latest/demo/struct.A.html".to_string(),
            "https://docs.rs/demo/latest/demo/enum.B.html".to_string(),
        ]
    );
    assert!(crawl_plan("nowhere", body).is_err());
}

#[test]
fn joined_links_drop_fragments() {
    let base = "https://docs.rs/demo/latest/demo/";
    let joined = join_links(base, &vec![Some("trait.T.html#impl".to_string()), None]);
    assert_eq!(joined, vec![Some("https://docs.rs/demo/latest/demo/trait.T.html".to_string()), None]);
}

#[test]
fn targets_are_unique_and_in_scope() {
    let base = "https://d/x/";
    let links = vec![
        Some("https://d/x/a.html".to_string()),
        None,
        Some("https://d/y/b.html".to_string()),
        Some("https://d/x/static.S.html".to_string()),
        Some("https://d/x/a.html".to_string()),
        Some("https://d/x/b.html".to_string()),
    ];
    assert_eq!(
        visit_targets(base, &links),
        vec!["https://d/x/a.html".to_string(), "https://d/x/b.html".to_string()]
    );
    assert_eq!(in_scope_target(base, &Some("https://d/x/all.html".to_string())), None);
    assert_eq!(in_scope_target(base, &Some("https://d/x/index.html".to_string())), None);
}

#[test]
fn pages_sorted_by_url() {
    let pages: Vec<(String, String)> = vec![("b", "2"), ("a", "1"), ("c", "3"), ("a", "0"), ("ab", "4")]
        .into_iter()
        .map(|(k, v)| (k.to_string(), v.to_string()))
        .collect();
    let sorted = sort_pages(&pages);
    let keys: Vec<&str> = sorted.iter().map(|p| p.1.as_str()).collect();
    assert_eq!(keys, vec!["1", "0", "4", "2", "3"]);
    let out = tiny_docs_output("demo", &pages);
    assert_eq!(out.file_name, "demo.tinydocs");
    assert_eq!(out.docs, vec!["1", "0", "4", "2", "3"]);
    let sep = "\n\n\n\n\n==============\n";
    assert_eq!(out.contents, format!("1{sep}0{sep}4{sep}2{sep}3"));
    let empty = tiny_docs_output("e", &Vec::new());
    assert_eq!(empty.contents, "");
}

#[test]
fn key_order_matches_string_order() {
    for (a, b) in [("a", "b"), ("ab", "a"), ("", "x"), ("é", "z"), ("same", "same"), ("Z", "a")] {
        assert_eq!(key_le_exec(&to_chars(a), &to_chars(b)), a <= b, "{} {}", a, b);
    }
}

#[test]
fn embedding_jobs_skip_one_word_pages() {
    let docs: Vec<String> = vec!["Struct a::B text", "single", "Module m"].into_iter().map(String::from).collect();
    let jobs = embedding_jobs(&docs);
    assert_eq!(jobs.len(), 2);
    assert_eq!((jobs[0].position, jobs[0].index.as_str()), (0, "a::B"));
    assert_eq!((jobs[1].position, jobs[1].index.as_str()), (2, "m"));
    assert!(jobs[0].token_count.unwrap() > 0);
}

#[test]
fn token_count_of_all_pages() {
    let docs: Vec<String> = vec!["hello".to_string(), "world".to_string()];
    assert_eq!(total_token_count(&docs), Some(2));
}

#[test]
fn answers_that_stop() {
    assert!(!should_continue(" n\n"));
    assert!(!should_continue("N"));
    assert!(should_continue("y\n"));
    assert!(should_continue("no"));
    assert!(should_continue(""));
}

#[test]
fn links_that_leave_the_page() {
    let url = "https://docs.rs/iced/latest/iced/all.html";
    let body = "<html><body>\
        <a href=\"#section\">here</a>\
        <a href=\"all.html?x=1\">same page</a>\
        <a href=\"struct.Button.html#method.new\">Button</a>\
        <a>no href</a>\
        <a href=\"struct.Button.html\">Button again</a>\
        </body></html>";
    assert_eq!(
        off_page_links(url, body).ok(),
        Some(vec![
            "https://docs.rs/iced/latest/iced/struct.Button.html#method.new".to_string(),
            "https://docs.rs/iced/latest/iced/struct.Button.html".to_string(),
        ])
    );
    assert_eq!(off_page_links("not a url", body).err(), Some("relative URL without a base".to_string()));
    assert_eq!(off_page_links("not a url", "<a>plain</a>").ok(), Some(Vec::new()));
}

#[test]
fn pages_are_visited_once() {
    let mut visited: Vec<String> = Vec::new();
    assert!(first_visit(&mut visited, "https://d/a"));
    assert!(first_visit(&mut visited, "https://d/b"));
    assert!(!first_visit(&mut visited, "https://d/a"));
    assert_eq!(visited, vec!["https://d/a".to_string(), "https://d/b".to_string()]);
}
