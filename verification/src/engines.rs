//! The calls into the HTML, regex, URL and tokenizer crates.
//!
//! Each function here is trusted: Verus believes its `ensures` and does not
//! read its body.  Where the crate's behaviour takes pages to state, the
//! result is given a name (an uninterpreted spec function of the call's
//! arguments), and the rest of the library is verified against that name.
use vstd::prelude::*;
use crate::text::{replace_seq, starts_with, string_views};
use crate::scrape::{line_feeds, shorten_run_spec};
use crate::markup::{august_fits, html2text_fits};

verus! {

/// The view of an optional string.
pub open spec fn opt_view(o: Option<String>) -> Option<Seq<char>> {
    match o {
        Some(s) => Some(s@),
        None => None,
    }
}

/// The view of an optional list of strings.
pub open spec fn opt_strings_view(o: Option<Vec<String>>) -> Option<Seq<Seq<char>>> {
    match o {
        Some(v) => Some(string_views(v@)),
        None => None,
    }
}

/// The view of a list of optional strings.
pub open spec fn opt_string_views(v: Seq<Option<String>>) -> Seq<Option<Seq<char>>> {
    v.map_values(|x: Option<String>| opt_view(x))
}

// ---------------------------------------------------------------------------
// regex
// ---------------------------------------------------------------------------

/// A character that the regex syntax treats specially
/// (`regex_syntax::is_meta_character`).
pub open spec fn is_regex_meta(c: char) -> bool {
    c == '\\' || c == '.' || c == '+' || c == '*' || c == '?' || c == '(' || c == ')' || c == '|'
        || c == '[' || c == ']' || c == '{' || c == '}' || c == '^' || c == '$' || c == '#' || c
        == '&' || c == '-' || c == '~'
}

/// A short pattern made only of characters that match themselves.
pub open spec fn is_plain_literal(p: Seq<char>) -> bool {
    &&& 0 < p.len() <= 64
    &&& forall|i: int| 0 <= i < p.len() ==> !is_regex_meta(#[trigger] p[i])
}

/// What `Regex::new(pattern)` followed by `replace_all(text, rep)` gives;
/// `None` where `Regex::new` rejects the pattern.
pub uninterp spec fn regex_replace_all_result(
    pattern: Seq<char>,
    text: Seq<char>,
    rep: Seq<char>,
) -> Option<Seq<char>>;

/// `t` after its first `>`; empty where it has none.
pub open spec fn after_first_gt(t: Seq<char>) -> Seq<char>
    decreases t.len(),
{
    if t.len() == 0 {
        t
    } else if t[0] == '>' {
        t.drop_first()
    } else {
        after_first_gt(t.drop_first())
    }
}

/// Dropping up to the first `>` never lengthens a text.
pub proof fn lemma_after_first_gt_shorter(t: Seq<char>)
    ensures
        after_first_gt(t).len() <= t.len(),
    decreases t.len(),
{
    if t.len() > 0 && t[0] != '>' {
        lemma_after_first_gt_shorter(t.drop_first());
    }
}

/// `t` starts an opening `a` tag that `(?i)<a[^>]*>` matches: `<a` or `<A`
/// with a `>` somewhere after it.
pub open spec fn opens_anchor(t: Seq<char>) -> bool {
    t.len() >= 2 && t[0] == '<' && (t[1] == 'a' || t[1] == 'A') && t.skip(2).contains('>')
}

/// `t` without what `(?i)<a[^>]*>` matches: from the left, each `<a` or
/// `<A` that a `>` follows is removed up to and with the first such `>`
/// (`[^>]*` cannot pass a `>`).
pub open spec fn strip_open_anchors(t: Seq<char>) -> Seq<char>
    decreases t.len(),
{
    if t.len() == 0 {
        t
    } else if opens_anchor(t) {
        proof {
            lemma_after_first_gt_shorter(t.skip(2));
        }
        strip_open_anchors(after_first_gt(t.skip(2)))
    } else {
        seq![t[0]] + strip_open_anchors(t.drop_first())
    }
}

/// `t` starts `</a>` or `</A>`.
pub open spec fn closes_anchor(t: Seq<char>) -> bool {
    t.len() >= 4 && t[0] == '<' && t[1] == '/' && (t[2] == 'a' || t[2] == 'A') && t[3] == '>'
}

/// `t` without what `(?i)</a>` matches: each `</a>` or `</A>`, from the
/// left.
pub open spec fn strip_close_anchors(t: Seq<char>) -> Seq<char>
    decreases t.len(),
{
    if t.len() == 0 {
        t
    } else if closes_anchor(t) {
        strip_close_anchors(t.skip(4))
    } else {
        seq![t[0]] + strip_close_anchors(t.drop_first())
    }
}

/// `regex::Regex::new` and `Regex::replace_all`.  The result is named.  For
/// a short pattern of characters that match themselves, and a replacement
/// without `$` (so no group is expanded), the regex documentation gives the
/// result: every non-overlapping match, leftmost first, is replaced, which
/// is what `str::replace` does.  The same holds of the two tag patterns of
/// the library, with an empty replacement: under `(?i)` the letter `a`
/// matches `a` and `A` only (regex-syntax's simple case folding table).
#[verifier::external_body]
pub(crate) fn regex_replace_all(pattern: &str, text: &str, rep: &str) -> (res: Option<String>)
    ensures
        opt_view(res) == regex_replace_all_result(pattern@, text@, rep@),
        is_plain_literal(pattern@) && !rep@.contains('$') ==> opt_view(res) == Some(
            replace_seq(text@, pattern@, rep@),
        ),
        pattern@ == "(?i)<a[^>]*>"@ && rep@ == ""@ ==> opt_view(res) == Some(
            strip_open_anchors(text@),
        ),
        pattern@ == "(?i)</a>"@ && rep@ == ""@ ==> opt_view(res) == Some(
            strip_close_anchors(text@),
        ),
{
    match regex::Regex::new(pattern) {
        Ok(re) => Some(re.replace_all(text, rep).into_owned()),
        Err(_) => None,
    }
}

/// What `Regex::new(pattern)` followed by `replace_all(text, f)` gives, where
/// `f` maps each match to `shorten_feed_run(match, cut)`; `None` where
/// `Regex::new` rejects the pattern.
pub uninterp spec fn regex_shorten_runs_result(pattern: Seq<char>, text: Seq<char>, cut: usize) -> Option<
    Seq<char>,
>;

/// The number of line feeds that `t` starts with.
pub open spec fn leading_feeds(t: Seq<char>) -> nat
    decreases t.len(),
{
    if t.len() > 0 && t[0] == '\n' {
        1 + leading_feeds(t.drop_first())
    } else {
        0
    }
}

/// A text has at least as many characters as the line feeds it starts with.
pub proof fn lemma_leading_feeds_bound(t: Seq<char>)
    ensures
        leading_feeds(t) <= t.len(),
    decreases t.len(),
{
    if t.len() > 0 && t[0] == '\n' {
        lemma_leading_feeds_bound(t.drop_first());
    }
}

/// What a maximal run of `n` line feeds becomes under `\n{a,b}` (with
/// `0 < a < b`), each match handed to `shorten_feed_run` with `cut`: greedy
/// matches of `b` feeds while at least `b` are left, then one match of the
/// rest if at least `a` are left; what is not matched stays.
pub open spec fn shortened_run(n: nat, a: nat, b: nat, cut: nat) -> Seq<char>
    decreases n,
{
    if b > 0 && n >= b {
        shorten_run_spec(line_feeds(b), cut) + shortened_run((n - b) as nat, a, b, cut)
    } else if n >= a {
        shorten_run_spec(line_feeds(n), cut)
    } else {
        line_feeds(n)
    }
}

/// `t` with each maximal run of line feeds as `shortened_run` makes it: the
/// matches of `\n{a,b}`, leftmost first and never overlapping, lie within
/// the runs, since only line feeds match.
pub open spec fn shorten_feed_runs(t: Seq<char>, a: nat, b: nat, cut: nat) -> Seq<char>
    decreases t.len(),
{
    if t.len() == 0 {
        t
    } else if t[0] != '\n' {
        seq![t[0]] + shorten_feed_runs(t.drop_first(), a, b, cut)
    } else {
        proof {
            lemma_leading_feeds_bound(t);
        }
        shortened_run(leading_feeds(t), a, b, cut) + shorten_feed_runs(
            t.skip(leading_feeds(t) as int),
            a,
            b,
            cut,
        )
    }
}

/// `regex::Regex::new` and `Regex::replace_all` with a replacer closure that
/// hands each whole match to `shorten_feed_run`.  The result is named.  For
/// the library's two run patterns, `\n{3,4}` and `\n{2,3}`, the regex
/// documentation (leftmost-first, greedy, non-overlapping matches) gives
/// the result over the closure's contract.
#[verifier::external_body]
pub(crate) fn regex_shorten_runs(pattern: &str, text: &str, cut: usize) -> (res: Option<String>)
    ensures
        opt_view(res) == regex_shorten_runs_result(pattern@, text@, cut),
        pattern@ == "\n{3,4}"@ ==> opt_view(res) == Some(
            shorten_feed_runs(text@, 3, 4, cut as nat),
        ),
        pattern@ == "\n{2,3}"@ ==> opt_view(res) == Some(
            shorten_feed_runs(text@, 2, 3, cut as nat),
        ),
{
    match regex::Regex::new(pattern) {
        Ok(re) => Some(
            re.replace_all(
                text,
                |caps: &regex::Captures| crate::scrape::shorten_feed_run(&caps[0], cut),
            ).into_owned(),
        ),
        Err(_) => None,
    }
}

/// What `Regex::new(pattern)` followed by `replace(text, rep)` (first match
/// only) gives; `None` where `Regex::new` rejects the pattern.
pub uninterp spec fn regex_replace_first_result(
    pattern: Seq<char>,
    text: Seq<char>,
    rep: Seq<char>,
) -> Option<Seq<char>>;

/// A text that the pattern `^## (.*)$` matches: without the multi-line
/// flag `^` and `$` hold only at the ends of the text, and `.` matches any
/// character but a line feed, so the text is `## ` and then no line feed.
pub open spec fn is_title_line(t: Seq<char>) -> bool {
    starts_with(t, "## "@) && !t.contains('\n')
}

/// `regex::Regex::new` and `Regex::replace`.  The result is named.  For the
/// title pattern `^## (.*)$` and the replacement `$1` (the first group, here
/// all of the text after `## `), the regex documentation gives the result.
#[verifier::external_body]
pub(crate) fn regex_replace_first(pattern: &str, text: &str, rep: &str) -> (res: Option<String>)
    ensures
        opt_view(res) == regex_replace_first_result(pattern@, text@, rep@),
        pattern@ == "^## (.*)$"@ && rep@ == "$1"@ ==> opt_view(res) == Some(
            if is_title_line(text@) {
                text@.skip(3)
            } else {
                text@
            },
        ),
{
    match regex::Regex::new(pattern) {
        Ok(re) => Some(re.replace(text, rep).into_owned()),
        Err(_) => None,
    }
}

/// What `Regex::new(pattern)` followed by `is_match(text)` gives; `None`
/// where `Regex::new` rejects the pattern.
pub uninterp spec fn regex_is_match_result(pattern: Seq<char>, text: Seq<char>) -> Option<bool>;

/// `regex::Regex::new` and `Regex::is_match`.  The result is named.  For
/// the title pattern `^## (.*)$`, the regex documentation gives the result.
#[verifier::external_body]
pub(crate) fn regex_is_match(pattern: &str, text: &str) -> (res: Option<bool>)
    ensures
        res == regex_is_match_result(pattern@, text@),
        pattern@ == "^## (.*)$"@ ==> res == Some(is_title_line(text@)),
{
    match regex::Regex::new(pattern) {
        Ok(re) => Some(re.is_match(text)),
        Err(_) => None,
    }
}

/// The view of three strings (such as the text before a match, the match
/// and the text after it).
pub open spec fn triple_view(o: Option<(String, String, String)>) -> Option<
    (Seq<char>, Seq<char>, Seq<char>),
> {
    match o {
        Some((a, m, b)) => Some((a@, m@, b@)),
        None => None,
    }
}

/// What `Regex::new(pattern)` followed by `find(text)` gives, as the text
/// before the leftmost match, the match and the text after it; `None` where
/// nothing matches or `Regex::new` rejects the pattern.
pub uninterp spec fn regex_find_result(pattern: Seq<char>, text: Seq<char>) -> Option<
    (Seq<char>, Seq<char>, Seq<char>),
>;

/// The first of `words` that `text` holds at position `p`, if any.
pub open spec fn word_at(text: Seq<char>, words: Seq<Seq<char>>, p: int) -> Option<Seq<char>>
    decreases words.len(),
{
    if words.len() == 0 {
        None
    } else if p + words[0].len() <= text.len() && text.subrange(p, p + words[0].len()) == words[0] {
        Some(words[0])
    } else {
        word_at(text, words.drop_first(), p)
    }
}

/// The first line start of `text`, at `p` or later, where one of `words`
/// begins: the text before it, the word, and the text after it.
pub open spec fn line_start_find_from(text: Seq<char>, words: Seq<Seq<char>>, p: int) -> Option<
    (Seq<char>, Seq<char>, Seq<char>),
>
    decreases text.len() - p,
{
    if p < 0 || p > text.len() {
        None
    } else if (p == 0 || text[p - 1] == '\n') && word_at(text, words, p) is Some {
        let w = word_at(text, words, p)->0;
        Some((text.take(p), w, text.skip(p + w.len())))
    } else if p == text.len() {
        None
    } else {
        line_start_find_from(text, words, p + 1)
    }
}

/// What a multi-line pattern `(?m)^w1|^w2|...` of plain words finds: `^`
/// holds at the start of the text and after each line feed, the leftmost
/// match wins, and at one position the first alternative that matches.
pub open spec fn line_start_find(text: Seq<char>, words: Seq<Seq<char>>) -> Option<
    (Seq<char>, Seq<char>, Seq<char>),
> {
    line_start_find_from(text, words, 0)
}

/// The headings that end the header of a struct or enum page.
pub open spec fn struct_section_heads() -> Seq<Seq<char>> {
    seq![
        "Implementations"@,
        "Trait Implementations"@,
        "Auto Trait Implementations"@,
        "Blanket Implementations"@,
    ]
}

/// The heading of a page's own implementations.
pub open spec fn own_impl_heads() -> Seq<Seq<char>> {
    seq!["Implementations"@]
}

/// The headings of the implementations that follow a page's own.
pub open spec fn other_impl_heads() -> Seq<Seq<char>> {
    seq!["Trait Implementations"@, "Auto Trait Implementations"@, "Blanket Implementations"@]
}

/// The upper-case headings of the implementation sections.
pub open spec fn upper_section_heads() -> Seq<Seq<char>> {
    seq![
        "IMPLEMENTATIONS"@,
        "TRAIT IMPLEMENTATION"@,
        "AUTO TRAIT IMPLEMENTATIONS"@,
        "BLANKET IMPLEMENTATIONS"@,
    ]
}

/// The headings that end the header of a trait page.
pub open spec fn trait_page_heads() -> Seq<Seq<char>> {
    seq!["Implementations"@, "Local Implementors"@]
}

/// `regex::Regex::new` and `Regex::find`.  The result is named.  A match is
/// a part of the text (`Match::start()..Match::end()`), so the three parts
/// put together give the text back.  For the library's heading patterns,
/// each a multi-line alternation of plain words at line starts, the regex
/// documentation gives the match (`line_start_find`).
#[verifier::external_body]
pub(crate) fn regex_find(pattern: &str, text: &str) -> (res: Option<(String, String, String)>)
    ensures
        triple_view(res) == regex_find_result(pattern@, text@),
        res matches Some((a, m, b)) ==> a@ + m@ + b@ == text@,
        pattern@
            == "(?m)^Implementations|^Trait Implementations|^Auto Trait Implementations|^Blanket Implementations"@
            ==> triple_view(res) == line_start_find(text@, struct_section_heads()),
        pattern@ == "(?m)^Implementations"@ ==> triple_view(res) == line_start_find(
            text@,
            own_impl_heads(),
        ),
        pattern@
            == "(?m)^Trait Implementations|^Auto Trait Implementations|^Blanket Implementations"@
            ==> triple_view(res) == line_start_find(text@, other_impl_heads()),
        pattern@
            == "(?m)^IMPLEMENTATIONS|^TRAIT IMPLEMENTATION|^AUTO TRAIT IMPLEMENTATIONS|^BLANKET IMPLEMENTATIONS"@
            ==> triple_view(res) == line_start_find(text@, upper_section_heads()),
        pattern@ == "(?m)^Implementations|^Local Implementors"@ ==> triple_view(res)
            == line_start_find(text@, trait_page_heads()),
{
    match regex::Regex::new(pattern) {
        Ok(re) => re.find(text).map(
            |m|
                (
                    text[..m.start()].to_string(),
                    m.as_str().to_string(),
                    text[m.end()..].to_string(),
                ),
        ),
        Err(_) => None,
    }
}

// ---------------------------------------------------------------------------
// scraper
// ---------------------------------------------------------------------------

/// The number of bytes of the UTF-8 encoding of `s`.
pub open spec fn utf8_len(s: Seq<char>) -> nat {
    vstd::utf8::encode_utf8(s).len()
}

/// `s` is small enough for the HTML parsers (html5ever under scraper and
/// html2text, and august): at most a third of `u32::MAX` bytes.  The
/// parsers hold the input and each text they build in tendril buffers,
/// which assert that a buffer holds at most `u32::MAX` bytes
/// (tendril's `from_byte_slice_without_validating` and
/// `push_bytes_without_validating`).  A text built from the input is at
/// most three times its size: the largest growth is a NUL byte read as
/// U+FFFD (three bytes); character references never grow by more.
pub open spec fn fits_parser(s: Seq<char>) -> bool {
    utf8_len(s) <= 0x5555_5555
}

/// Whether `s` is small enough for the HTML parsers.
pub fn fits_html_parser(s: &str) -> (res: bool)
    ensures
        res == fits_parser(s@),
{
    s.as_bytes().len() <= 0x5555_5555
}

/// The `inner_html` of each element of the parsed `html` that `selector`
/// selects, in document order; `None` where the selector does not parse.
pub uninterp spec fn selected_inner_html(html: Seq<char>, selector: Seq<char>) -> Option<
    Seq<Seq<char>>,
>;

/// `scraper::Html::parse_document`, `Selector::parse`, `Html::select` and
/// `ElementRef::inner_html`.  The result is named.
/// `fits_parser` keeps the input within the parser's buffers.  scraper is
/// built with its `deterministic` feature, so an element's attributes keep
/// their source order and the serialized HTML depends on the input alone.
#[verifier::external_body]
pub(crate) fn select_inner_html(html: &str, selector: &str) -> (res: Option<Vec<String>>)
    requires
        fits_parser(html@),
    ensures
        opt_strings_view(res) == selected_inner_html(html@, selector@),
{
    let document = scraper::Html::parse_document(html);
    match scraper::Selector::parse(selector) {
        Ok(sel) => Some(document.select(&sel).map(|e| e.inner_html()).collect()),
        Err(_) => None,
    }
}

/// The `html` (outer HTML) of each element of the parsed `html` that
/// `selector` selects, in document order; `None` where the selector does not
/// parse.
pub uninterp spec fn selected_outer_html(html: Seq<char>, selector: Seq<char>) -> Option<
    Seq<Seq<char>>,
>;

/// `scraper::Html::parse_document`, `Selector::parse`, `Html::select` and
/// `ElementRef::html`.  The result is named.
/// `fits_parser` keeps the input within the parser's buffers.  scraper is
/// built with its `deterministic` feature, so an element's attributes keep
/// their source order and the serialized HTML depends on the input alone.
#[verifier::external_body]
pub(crate) fn select_outer_html(html: &str, selector: &str) -> (res: Option<Vec<String>>)
    requires
        fits_parser(html@),
    ensures
        opt_strings_view(res) == selected_outer_html(html@, selector@),
{
    let document = scraper::Html::parse_document(html);
    match scraper::Selector::parse(selector) {
        Ok(sel) => Some(document.select(&sel).map(|e| e.html()).collect()),
        Err(_) => None,
    }
}

/// The value of attribute `attr` (if present) of each element of the parsed
/// `html` that `selector` selects, in document order; `None` where the
/// selector does not parse.
pub uninterp spec fn selected_attr(html: Seq<char>, selector: Seq<char>, attr: Seq<char>) -> Option<
    Seq<Option<Seq<char>>>,
>;

/// `scraper::Html::parse_document`, `Selector::parse`, `Html::select` and
/// `Element::attr`.  The result is named.
/// `fits_parser` keeps the input within the parser's buffers.
#[verifier::external_body]
pub(crate) fn select_attr(html: &str, selector: &str, attr: &str) -> (res: Option<
    Vec<Option<String>>,
>)
    requires
        fits_parser(html@),
    ensures
        res matches Some(v) ==> Some(opt_string_views(v@)) == selected_attr(html@, selector@, attr@),
        res is None ==> selected_attr(html@, selector@, attr@) is None,
{
    let document = scraper::Html::parse_document(html);
    match scraper::Selector::parse(selector) {
        Ok(sel) => Some(
            document.select(&sel).map(|e| e.value().attr(attr).map(|a| a.to_string())).collect(),
        ),
        Err(_) => None,
    }
}

/// The `inner_html` of the root element of the parsed `html`.
pub uninterp spec fn root_inner_html(html: Seq<char>) -> Seq<char>;

/// `scraper::Html::parse_document`, `Html::root_element` and
/// `ElementRef::inner_html`.  The result is named.
/// `fits_parser` keeps the input within the parser's buffers.  scraper is
/// built with its `deterministic` feature, so an element's attributes keep
/// their source order and the serialized HTML depends on the input alone.
#[verifier::external_body]
pub(crate) fn document_inner_html(html: &str) -> (res: String)
    requires
        fits_parser(html@),
    ensures
        res@ == root_inner_html(html@),
{
    scraper::Html::parse_document(html).root_element().inner_html()
}

// ---------------------------------------------------------------------------
// html_escape, html2text, august
// ---------------------------------------------------------------------------

/// `text` with its HTML character references decoded.
pub uninterp spec fn decoded_entities(text: Seq<char>) -> Seq<char>;

/// `html_escape::decode_html_entities`.  The result is named.
#[verifier::external_body]
pub(crate) fn decode_entities(text: &str) -> (res: String)
    ensures
        res@ == decoded_entities(text@),
{
    html_escape::decode_html_entities(text).into_owned()
}

/// The plain text that html2text renders from `html` at `width` columns.
pub uninterp spec fn html2text_rendering(html: Seq<char>, width: usize) -> Seq<char>;

/// `html2text::from_read` on the bytes of `html`.  The result is named.
/// `html2text_fits` keeps the input within the parser's buffers, keeps
/// every width the renderer narrows to (by a prefix for each nested list,
/// quote, definition or heading) at two columns or more, so that no width
/// subtraction underflows and a wide character always fits a fresh line,
/// leaves out tables, whose columns can narrow the width further, and keeps
/// an ordered list's `start` number far from the ends of `i64`, so that the
/// item numbering cannot overflow.
#[verifier::external_body]
pub(crate) fn render_html2text(html: &str, width: usize) -> (res: String)
    requires
        html2text_fits(html@, width as nat),
    ensures
        res@ == html2text_rendering(html@, width),
{
    html2text::from_read(html.as_bytes(), width)
}

/// The plain text that august renders from `html` at `width` columns.
pub uninterp spec fn august_rendering(html: Seq<char>, width: usize) -> Seq<char>;

/// `august::convert`.  The result is named.  `august_fits` keeps the
/// input within the parser's buffers (august builds one tendril of the
/// whole input and unwraps it), keeps the prefixes of nested list items
/// and quotes within the width, so that the width left to a nested block
/// never underflows, and leaves out tables, whose column arithmetic and
/// `colspan` slicing it does not bound.
#[verifier::external_body]
pub(crate) fn render_august(html: &str, width: usize) -> (res: String)
    requires
        august_fits(html@, width as nat),
    ensures
        res@ == august_rendering(html@, width),
{
    august::convert(html, width)
}

// ---------------------------------------------------------------------------
// url
// ---------------------------------------------------------------------------

/// The parts of a parsed URL that the crawler reads.
pub struct UrlParts {
    /// `Url::scheme`.
    pub scheme: String,
    /// `Url::host_str`.
    pub host: Option<String>,
    /// `Url::path_segments`, collected.
    pub segments: Option<Vec<String>>,
    /// `Url::as_str`.
    pub serialization: String,
}

/// The plain values of the parts of a parsed URL.
pub open spec fn url_parts_view(u: UrlParts) -> (
    Seq<char>,
    Option<Seq<char>>,
    Option<Seq<Seq<char>>>,
    Seq<char>,
) {
    (u.scheme@, opt_view(u.host), opt_strings_view(u.segments), u.serialization@)
}

/// The plain values of a URL parse result.
pub open spec fn url_result_view(r: Result<UrlParts, String>) -> Result<
    (Seq<char>, Option<Seq<char>>, Option<Seq<Seq<char>>>, Seq<char>),
    Seq<char>,
> {
    match r {
        Ok(u) => Ok(url_parts_view(u)),
        Err(e) => Err(e@),
    }
}

/// What `Url::parse(text)` gives, read as scheme, host, path segments and
/// serialization, or the error's message.
pub uninterp spec fn parsed_url(text: Seq<char>) -> Result<
    (Seq<char>, Option<Seq<char>>, Option<Seq<Seq<char>>>, Seq<char>),
    Seq<char>,
>;

/// `url::Url::parse`, then `scheme`, `host_str`, `path_segments` and
/// `as_str` of the result, or the `Display` text of the error.  The result
/// is named.  `path_segments` splits the path after its leading `/` at each
/// `/`, so when it is present it holds at least one segment.
#[verifier::external_body]
pub(crate) fn parse_url(text: &str) -> (res: Result<UrlParts, String>)
    ensures
        url_result_view(res) == parsed_url(text@),
        res matches Ok(u) ==> (u.segments matches Some(v) ==> v.len() >= 1),
{
    match url::Url::parse(text) {
        Ok(u) => Ok(
            UrlParts {
                scheme: u.scheme().to_string(),
                host: u.host_str().map(|h| h.to_string()),
                segments: u.path_segments().map(|it| it.map(|p| p.to_string()).collect()),
                serialization: u.as_str().to_string(),
            },
        ),
        Err(e) => Err(e.to_string()),
    }
}

/// What `Url::parse(base)` followed by `join(href)` and
/// `set_fragment(None)` gives, as a string; `None` where either step fails.
pub uninterp spec fn joined_url(base: Seq<char>, href: Seq<char>) -> Option<Seq<char>>;

/// `url::Url::parse`, `Url::join` and `Url::set_fragment(None)`.  The result
/// is named.
#[verifier::external_body]
pub(crate) fn join_url(base: &str, href: &str) -> (res: Option<String>)
    ensures
        opt_view(res) == joined_url(base@, href@),
{
    match url::Url::parse(base) {
        Ok(b) => match b.join(href) {
            Ok(mut u) => {
                u.set_fragment(None);
                Some(u.into())
            },
            Err(_) => None,
        },
        Err(_) => None,
    }
}

/// What `Url::parse(base)` followed by `join(href)` gives, read as the
/// joined URL's serialization and path, with the base's path; `None` where
/// either step fails.
pub uninterp spec fn linked_url(base: Seq<char>, href: Seq<char>) -> Option<
    (Seq<char>, Seq<char>, Seq<char>),
>;

/// `url::Url::parse` and `Url::join`, then `as_str` and `path` of the joined
/// URL and `path` of the base.  The result is named.
#[verifier::external_body]
pub(crate) fn link_target(base: &str, href: &str) -> (res: Option<(String, String, String)>)
    ensures
        triple_view(res) == linked_url(base@, href@),
{
    match url::Url::parse(base) {
        Ok(b) => match b.join(href) {
            Ok(u) => Some((u.as_str().to_string(), u.path().to_string(), b.path().to_string())),
            Err(_) => None,
        },
        Err(_) => None,
    }
}

// ---------------------------------------------------------------------------
// tiktoken-rs
// ---------------------------------------------------------------------------

/// The number of cl100k_base tokens of `text`, special tokens allowed;
/// `None` where the encoding cannot be loaded.
pub uninterp spec fn cl100k_token_count(text: Seq<char>) -> Option<usize>;

/// `tiktoken_rs::cl100k_base` and `CoreBPE::encode_with_special_tokens`,
/// counted.  The result is named.  The encoder unwraps each match of the
/// cl100k pattern (`vendor_tiktoken.rs`, `_encode_native`); fancy-regex
/// fails a match only past 1,000,000 backtracks in one run of its VM
/// (`vm.rs`, `run`).  That cannot happen here: the pattern (in
/// `openai_public.rs`) is an alternation whose branches, but for
/// `\s+(?!\S)`, are delegated whole to the regex crate (`compile.rs`,
/// `visit`), and every character starts a match of some branch (a letter,
/// a number, whitespace, or anything else), so each run succeeds at its
/// start position after failing at most the six earlier branches and
/// stepping back at most twice inside `\s+(?!\S)`.  The special tokens'
/// pattern has no lookaround, so fancy-regex hands it to the regex crate,
/// which cannot fail.
#[verifier::external_body]
pub(crate) fn count_tokens(text: &str) -> (res: Option<usize>)
    ensures
        res == cl100k_token_count(text@),
{
    match tiktoken_rs::cl100k_base() {
        Ok(bpe) => Some(bpe.encode_with_special_tokens(text).len()),
        Err(_) => None,
    }
}

} // verus!
