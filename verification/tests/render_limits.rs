use tinydocs::markup::{august_can_render, count_tags, html2text_can_render};
use tinydocs::rich;
use tinydocs::scrape::Parser;
use tinydocs::text::to_chars;

#[test]
fn tags_are_counted_in_any_case() {
    let v = to_chars("<ul><UL><Ul class=x></ul><li><link>");
    assert_eq!(count_tags(&v, &to_chars("ul")), 3);
    assert_eq!(count_tags(&v, &to_chars("li")), 2);
    assert_eq!(count_tags(&v, &to_chars("table")), 0);
}

#[test]
fn html2text_limits() {
    assert!(html2text_can_render("<p>plain</p><ul><li>a</li></ul>", 80));
    assert!(!html2text_can_render("<table><tr><td>x</td></tr></table>", 80));
    let deep = "<blockquote>".repeat(40);
    assert!(!html2text_can_render(&deep, 80));
    assert!(html2text_can_render(&"<blockquote>".repeat(39), 80));
    assert!(!html2text_can_render("<ol start=\"9223372036854775807\"><li>a<li>b</ol>", 80));
    assert!(!html2text_can_render("<ol><li>&#49;</ol>", 80));
    assert!(html2text_can_render("<ol><li>1234</ol>", 80));
}

#[test]
fn august_limits() {
    assert!(august_can_render("<p>x</p>", 80));
    assert!(august_can_render("<ul><li>a</li><li>b</li></ul>", 80));
    assert!(!august_can_render("<table></table>", 80));
    assert!(!august_can_render(&"<li>x".repeat(21), 80));
    assert!(august_can_render(&"<li>x".repeat(20), 80));
}

#[test]
fn traits_field_is_reachable() {
    let html = "<div id=\"trait-implementations-list\"><section class=\"impl\"><h3>impl Clone for S</h3></section></div>";
    let mut p = Parser::new(html);
    p.parse_traits();
    assert_eq!(p.traits_found(), &vec!["impl Clone".to_string()]);
    let mut r = rich::Parser::new(html);
    r.parse_traits();
    assert_eq!(r.traits_found(), &vec!["impl Clone".to_string()]);
}
