//! From a fetched documentation page to its compact text, and the URLs
//! the crawler starts from.
use vstd::prelude::*;
use vstd::string::StrSliceExecFns;
use crate::text::{
    append_lit, from_chars, is_trimmed, is_whitespace, join_chars, join_seq,
    lemma_trim_is_trimmed, push_all, slice_chars, string_views, to_chars, trim, trim_chars,
    trim_seq, trim_start_char_chars, trim_start_char_seq, views, words_acc, words_chars,
    words_seq,
};
use crate::markup::{august_can_render, august_fits, html2text_can_render, html2text_fits};
use crate::engines::{
    august_rendering, fits_html_parser, fits_parser, html2text_rendering, opt_view, parse_url, parsed_url, regex_find,
    line_start_find, other_impl_heads, own_impl_heads, struct_section_heads, trait_page_heads,
    upper_section_heads, render_august, render_html2text, select_inner_html, selected_inner_html,
    url_parts_view, UrlParts,
};
use crate::scrape::{
    clear_source_ampers, clear_source_ampers_spec, convert_code_to_block,
    convert_code_to_block_spec, fix_struct_newlines, fix_struct_newlines_spec,
    preprocess_where_keywords, preprocess_where_keywords_spec, process_titles,
    process_titles_spec, remove_links_from_html, remove_links_spec, struct_enum_text,
    tiny_module_text, trait_names, Parser, TinyModule, TinyStructEnumModule,
};

verus! {

// ---------------------------------------------------------------------------
// Words
// ---------------------------------------------------------------------------

/// The pieces of `v` between the bounds of each span.
pub open spec fn span_views(v: Seq<char>, spans: Seq<(usize, usize)>) -> Seq<Seq<char>> {
    spans.map_values(|p: (usize, usize)| v.subrange(p.0 as int, p.1 as int))
}

/// Each span lies within `v` and is not empty.
pub open spec fn spans_within(v: Seq<char>, spans: Seq<(usize, usize)>) -> bool {
    forall|k: int|
        0 <= k < spans.len() ==> #[trigger] spans[k].0 < spans[k].1 && spans[k].1 <= v.len()
}

/// The start and end of each whitespace-separated word of `v`.
pub fn word_spans(v: &Vec<char>) -> (res: Vec<(usize, usize)>)
    ensures
        spans_within(v@, res@),
        span_views(v@, res@) == words_seq(v@),
{
    let mut out: Vec<(usize, usize)> = Vec::new();
    let mut start: usize = 0;
    let mut i: usize = 0;
    assert(v@.skip(0) =~= v@);
    assert(v@.subrange(0, 0) =~= seq![]);
    assert(span_views(v@, out@) =~= seq![]);
    while i < v.len()
        invariant
            start <= i <= v.len(),
            spans_within(v@, out@),
            words_seq(v@) == span_views(v@, out@) + words_acc(
                v@.skip(i as int),
                v@.subrange(start as int, i as int),
            ),
        decreases v.len() - i,
    {
        let ghost old_views = span_views(v@, out@);
        assert(v@.skip(i as int).drop_first() =~= v@.skip(i + 1));
        if is_whitespace(v[i]) {
            if start < i {
                out.push((start, i));
                assert(span_views(v@, out@) =~= old_views.push(
                    v@.subrange(start as int, i as int),
                ));
                assert(span_views(v@, out@) + words_acc(v@.skip(i + 1), seq![]) =~= old_views
                    + (seq![v@.subrange(start as int, i as int)] + words_acc(
                    v@.skip(i + 1),
                    seq![],
                )));
            }
            assert(v@.subrange(i + 1, i + 1) =~= seq![]);
            start = i + 1;
        } else {
            assert(v@.subrange(start as int, i + 1) =~= v@.subrange(start as int, i as int).push(
                v@[i as int],
            ));
        }
        i = i + 1;
    }
    if start < i {
        let ghost old_views = span_views(v@, out@);
        out.push((start, i));
        assert(span_views(v@, out@) =~= old_views.push(v@.subrange(start as int, i as int)));
    } else {
        assert(span_views(v@, out@) + seq![] =~= span_views(v@, out@));
    }
    out
}

/// The error of `extract_second_word`.
pub enum SecondWordError {
    /// The text has fewer than two words.
    NotFound,
}

impl SecondWordError {
    /// The error's text.
    pub fn message(&self) -> (res: String)
        ensures
            res@ == "No second word found"@,
    {
        "No second word found".to_owned()
    }
}

/// The second whitespace-separated word of `s`.
pub fn extract_second_word(s: &str) -> (res: Result<&str, SecondWordError>)
    ensures
        res is Ok <==> words_seq(s@).len() >= 2,
        res matches Ok(w) ==> w@ == words_seq(s@)[1],
{
    let v = to_chars(s);
    let spans = word_spans(&v);
    if spans.len() >= 2 {
        let (from, to) = spans[1];
        assert(spans@[1].0 < spans@[1].1 && spans@[1].1 <= v@.len());
        assert(span_views(v@, spans@)[1] == v@.subrange(from as int, to as int));
        Ok(s.substring_char(from, to))
    } else {
        Err(SecondWordError::NotFound)
    }
}

/// Whether two character vectors are equal.
pub fn chars_eq(a: &Vec<char>, b: &Vec<char>) -> (res: bool)
    ensures
        res == (a@ == b@),
{
    if a.len() != b.len() {
        return false;
    }
    let mut i: usize = 0;
    while i < a.len()
        invariant
            a.len() == b.len(),
            i <= a.len(),
            forall|j: int| 0 <= j < i ==> a@[j] == b@[j],
        decreases a.len() - i,
    {
        if a[i] != b[i] {
            return false;
        }
        i = i + 1;
    }
    assert(a@ =~= b@);
    true
}

// ---------------------------------------------------------------------------
// Sections of the rendered text
// ---------------------------------------------------------------------------

/// The main content of a page: the inner HTML of its first
/// `section#main-content`.
pub open spec fn extract_all_spec(html: Seq<char>) -> Option<Seq<char>> {
    match selected_inner_html(html, "section[id=\"main-content\"]"@) {
        Some(v) => if v.len() > 0 {
            Some(v[0])
        } else {
            None
        },
        None => None,
    }
}

/// The inner HTML of the page's main content section, if it has one.
pub fn extract_all(html: &str) -> (res: Option<String>)
    requires
        fits_parser(html@),
    ensures
        opt_view(res) == extract_all_spec(html@),
{
    match select_inner_html(html, "section[id=\"main-content\"]") {
        Some(v) => {
            if v.len() > 0 {
                Some(v[0].clone())
            } else {
                None
            }
        },
        None => None,
    }
}

/// The header of a struct or enum page: the text before the first line
/// that starts an implementations section, trimmed; the whole text if there
/// is none.
pub open spec fn struct_enum_header_spec(s: Seq<char>) -> Seq<char> {
    match line_start_find(s, struct_section_heads()) {
        Some((before, m, after)) => trim_seq(before),
        None => s,
    }
}

/// `s` has, at `p`, the start of a line that opens an implementations
/// section of a struct or enum page: `Implementations`,
/// `Trait Implementations`, `Auto Trait Implementations` or
/// `Blanket Implementations`.
pub open spec fn impl_heading_at(s: Seq<char>, p: int) -> bool {
    &&& (p == 0 || (0 < p <= s.len() && s[p - 1] == '\n'))
    &&& (crate::text::occurs_at(s, "Implementations"@, p) || crate::text::occurs_at(
        s,
        "Trait Implementations"@,
        p,
    ) || crate::text::occurs_at(s, "Auto Trait Implementations"@, p)
        || crate::text::occurs_at(s, "Blanket Implementations"@, p))
}

/// A line start of `text` at `r` where one of `words` begins.
pub open spec fn line_start_hit(text: Seq<char>, words: Seq<Seq<char>>, r: int) -> bool {
    (r == 0 || text[r - 1] == '\n') && crate::engines::word_at(text, words, r) is Some
}

/// The search for a line start finds the first hit at or after `p`.
pub proof fn lemma_line_start_find_hit(text: Seq<char>, words: Seq<Seq<char>>, p: int, q: int)
    requires
        0 <= p <= q <= text.len(),
        line_start_hit(text, words, q),
        forall|r: int| p <= r < q ==> !line_start_hit(text, words, r),
    ensures
        crate::engines::line_start_find_from(text, words, p) matches Some((a, w, b)) && a
            == text.take(q),
    decreases q - p,
{
    if p < q {
        assert(!line_start_hit(text, words, p));
        lemma_line_start_find_hit(text, words, p + 1, q);
    }
}

/// The search for a line start finds nothing where no line start at or
/// after `p` holds one of the words.
pub proof fn lemma_line_start_find_none(text: Seq<char>, words: Seq<Seq<char>>, p: int)
    requires
        0 <= p <= text.len(),
        forall|r: int| p <= r <= text.len() ==> !line_start_hit(text, words, r),
    ensures
        crate::engines::line_start_find_from(text, words, p) is None,
    decreases text.len() - p,
{
    assert(!line_start_hit(text, words, p));
    if p < text.len() {
        lemma_line_start_find_none(text, words, p + 1);
    }
}

proof fn lemma_struct_heads_at(s: Seq<char>, r: int)
    requires
        0 <= r <= s.len(),
    ensures
        line_start_hit(s, struct_section_heads(), r) == impl_heading_at(s, r),
{
    reveal_with_fuel(crate::engines::word_at, 5);
    let h = struct_section_heads();
    assert(h.drop_first() =~= seq![
        "Trait Implementations"@,
        "Auto Trait Implementations"@,
        "Blanket Implementations"@,
    ]);
    assert(h.drop_first().drop_first() =~= seq![
        "Auto Trait Implementations"@,
        "Blanket Implementations"@,
    ]);
    assert(h.drop_first().drop_first().drop_first() =~= seq!["Blanket Implementations"@]);
    assert(h.drop_first().drop_first().drop_first().drop_first() =~= Seq::<Seq<char>>::empty());
}

/// The header of a struct or enum page is the text before the first line
/// that opens an implementations section (own, trait, auto trait or
/// blanket), trimmed.
pub proof fn lemma_struct_header_cut(s: Seq<char>, q: int)
    requires
        impl_heading_at(s, q),
        forall|p: int| 0 <= p < q ==> !impl_heading_at(s, p),
    ensures
        struct_enum_header_spec(s) == trim_seq(s.take(q)),
{
    assert(q <= s.len());
    lemma_struct_heads_at(s, q);
    assert forall|r: int| 0 <= r < q implies !line_start_hit(s, struct_section_heads(), r) by {
        lemma_struct_heads_at(s, r);
    }
    lemma_line_start_find_hit(s, struct_section_heads(), 0, q);
}

/// A struct or enum page without a line that opens an implementations
/// section is all header.
pub proof fn lemma_struct_header_whole(s: Seq<char>)
    requires
        forall|p: int| !impl_heading_at(s, p),
    ensures
        struct_enum_header_spec(s) == s,
{
    assert forall|r: int| 0 <= r <= s.len() implies !line_start_hit(s, struct_section_heads(), r) by {
        lemma_struct_heads_at(s, r);
    }
    lemma_line_start_find_none(s, struct_section_heads(), 0);
}

/// The header of a struct or enum page.
pub fn extract_struct_enum_header(s: &str) -> (res: String)
    ensures
        res@ == struct_enum_header_spec(s@),
{
    match regex_find(
        "(?m)^Implementations|^Trait Implementations|^Auto Trait Implementations|^Blanket Implementations",
        s,
    ) {
        Some((before, m, after)) => trim(before.as_str()),
        None => s.to_owned(),
    }
}

/// The own implementations cut from `s`, given the first `Implementations`
/// match and the first match of a later section (each as the text before it,
/// the match and the text after it): the text from the end of the first to
/// the start of the second (or to the end), trimmed; empty without a first
/// match.  `None` where the second starts before the first ends.
pub open spec fn cut_implementations(
    s: Seq<char>,
    first: Option<(Seq<char>, Seq<char>, Seq<char>)>,
    second: Option<(Seq<char>, Seq<char>, Seq<char>)>,
) -> Option<Seq<char>> {
    match first {
        None => Some(seq![]),
        Some((b1, m1, a1)) => match second {
            Some((b2, m2, a2)) => if b1.len() + m1.len() <= b2.len() {
                Some(trim_seq(s.subrange(b1.len() + m1.len() as int, b2.len() as int)))
            } else {
                None
            },
            None => Some(trim_seq(a1)),
        },
    }
}

/// The own implementations of a struct or enum page: the text from the end
/// of the first line start `Implementations` to the first line start of a
/// trait, auto trait or blanket implementations section (or to the end),
/// trimmed; empty where there is no `Implementations` line.  `None` where
/// the second section starts before the first one ends (the slice would be
/// reversed).
pub open spec fn implementations_spec(s: Seq<char>) -> Option<Seq<char>> {
    cut_implementations(
        s,
        line_start_find(s, own_impl_heads()),
        line_start_find(s, other_impl_heads()),
    )
}

/// The parts of `s` around a match: what is before it, the match, what is
/// after it, together giving `s` back.
pub open spec fn splits(s: Seq<char>, m: Option<(String, String, String)>) -> bool {
    m matches Some((a, x, b)) ==> a@ + x@ + b@ == s
}

/// The own implementations cut from `s` around the given matches.
pub fn implementations_between(
    s: &str,
    first: &Option<(String, String, String)>,
    second: &Option<(String, String, String)>,
) -> (res: Option<String>)
    requires
        splits(s@, *first),
        splits(s@, *second),
    ensures
        opt_view(res) == cut_implementations(
            s@,
            crate::engines::triple_view(*first),
            crate::engines::triple_view(*second),
        ),
{
    match first {
        None => Some(String::new()),
        Some((b1, m1, a1)) => match second {
            Some((b2, m2, a2)) => {
                let v = to_chars(s);
                assert(v@.len() == v.len());
                assert(v@.len() == b1@.len() + m1@.len() + a1@.len());
                assert(v@.len() == b2@.len() + m2@.len() + a2@.len());
                let start = to_chars(b1.as_str()).len() + to_chars(m1.as_str()).len();
                let end = to_chars(b2.as_str()).len();
                if start <= end {
                    Some(from_chars(&trim_chars(&slice_chars(&v, start, end))))
                } else {
                    None
                }
            },
            None => Some(trim(a1.as_str())),
        },
    }
}

fn find_both(s: &str) -> (res: (Option<(String, String, String)>, Option<(String, String, String)>))
    ensures
        crate::engines::triple_view(res.0) == line_start_find(s@, own_impl_heads()),
        crate::engines::triple_view(res.1) == line_start_find(s@, other_impl_heads()),
        res.0 matches Some((a, m, b)) ==> a@ + m@ + b@ == s@,
        res.1 matches Some((a, m, b)) ==> a@ + m@ + b@ == s@,
{
    let f1 = regex_find("(?m)^Implementations", s);
    let f2 = regex_find(
        "(?m)^Trait Implementations|^Auto Trait Implementations|^Blanket Implementations",
        s,
    );
    (f1, f2)
}

/// Whether `extract_implementations` can cut the text (its sections are
/// not reversed).
pub fn implementations_in_order(s: &str) -> (res: bool)
    ensures
        res == (implementations_spec(s@) is Some),
{
    let (f1, f2) = find_both(s);
    implementations_between(s, &f1, &f2).is_some()
}

/// The own implementations section of a struct or enum page.
pub fn extract_implementations(s: &str) -> (res: String)
    requires
        implementations_spec(s@) is Some,
    ensures
        Some(res@) == implementations_spec(s@),
{
    let (f1, f2) = find_both(s);
    match implementations_between(s, &f1, &f2) {
        Some(r) => r,
        None => {
            proof {
                assert(false);
            }
            String::new()
        },
    }
}

// ---------------------------------------------------------------------------
// Fetching
// ---------------------------------------------------------------------------

/// A page could not be fetched.
pub struct FetchError {
    pub details: String,
}

impl FetchError {
    /// An error with the given text.
    pub fn new(details: &str) -> (res: FetchError)
        ensures
            res.details@ == details@,
    {
        FetchError { details: details.to_owned() }
    }

    /// The error's text.
    pub fn message(&self) -> (res: String)
        ensures
            res@ == self.details@,
    {
        self.details.clone()
    }
}

/// The outcome of a fetch: the body where the response status is a
/// success, a `Failed to fetch page` error otherwise.
pub fn fetch_outcome(success: bool, body: String) -> (res: Result<String, FetchError>)
    ensures
        success ==> (res matches Ok(b) && b == body),
        !success ==> (res matches Err(e) && e.details@ == "Failed to fetch page"@),
{
    if success {
        Ok(body)
    } else {
        Err(FetchError::new("Failed to fetch page"))
    }
}

// ---------------------------------------------------------------------------
// Triage of a page's text
// ---------------------------------------------------------------------------

/// The kinds of page that become a `TinyModule`.
pub open spec fn is_module_kind(w: Seq<char>) -> bool {
    w == "Crate"@ || w == "Module"@ || w == "Trait"@ || w == "Type"@ || w == "Macro"@
}

/// The kinds of page that become a `TinyStructEnumModule`.
pub open spec fn is_struct_kind(w: Seq<char>) -> bool {
    w == "Struct"@ || w == "Enum"@
}

/// The inputs on which `triage` is defined: the text has a first word, and
/// for a struct or enum page, its implementations section can be cut and
/// its preprocessed HTML fits the parser.
pub open spec fn triage_defined(content: Seq<char>, preprocessed: Seq<char>) -> bool {
    &&& words_seq(content).len() > 0
    &&& is_struct_kind(words_seq(content)[0]) ==> implementations_spec(
        fix_struct_newlines_spec(content),
    ) is Some && fits_parser(preprocessed)
}

/// The compact text of a page from its rendered text `content` and its
/// preprocessed HTML `preprocessed`: by the first word of the text, a
/// struct or enum page becomes the text of a `TinyStructEnumModule`, a
/// crate, module, trait, type alias or macro page the text of a
/// `TinyModule`, both trimmed; any other page becomes empty.
pub open spec fn triage_spec(content: Seq<char>, preprocessed: Seq<char>) -> Seq<char> {
    let first = words_seq(content)[0];
    if is_struct_kind(first) {
        let fixed = fix_struct_newlines_spec(content);
        trim_seq(
            struct_enum_text(
                struct_enum_header_spec(fixed),
                implementations_spec(fixed)->0,
                trait_names(preprocessed),
            ),
        )
    } else if is_module_kind(first) {
        trim_seq(tiny_module_text(content))
    } else {
        seq![]
    }
}

fn word_is(w: &Vec<char>, lit: &str) -> (res: bool)
    ensures
        res == (w@ == lit@),
{
    chars_eq(w, &to_chars(lit))
}

/// The compact text of a documentation page.
pub fn triage(content: String, preprocessed: &str) -> (res: String)
    requires
        triage_defined(content@, preprocessed@),
    ensures
        res@ == triage_spec(content@, preprocessed@),
{
    let words = words_chars(&to_chars(content.as_str()));
    let first = &words[0];
    if word_is(first, "Struct") || word_is(first, "Enum") {
        let mut parser = Parser::new(preprocessed);
        parser.parse_traits();
        let fixed = fix_struct_newlines(content);
        let module = TinyStructEnumModule {
            header: extract_struct_enum_header(fixed.as_str()),
            implementations: extract_implementations(fixed.as_str()),
            traits: parser.into_traits(),
        };
        trim(module.debug_text().as_str())
    } else if word_is(first, "Crate") || word_is(first, "Module") || word_is(first, "Trait")
        || word_is(first, "Type") || word_is(first, "Macro") {
        let module = TinyModule { content };
        trim(module.debug_text().as_str())
    } else {
        String::new()
    }
}

/// Whether `triage` is defined on `content`.
pub fn triage_is_defined(content: &str, preprocessed: &str) -> (res: bool)
    ensures
        res == triage_defined(content@, preprocessed@),
{
    let words = words_chars(&to_chars(content));
    if words.len() == 0 {
        return false;
    }
    let first = &words[0];
    if word_is(first, "Struct") || word_is(first, "Enum") {
        let fixed = fix_struct_newlines(content.to_owned());
        implementations_in_order(fixed.as_str()) && fits_html_parser(preprocessed)
    } else {
        true
    }
}

/// The rendered text of a main content section with its titles marked and
/// its page furniture removed, without leading `#` marks, trimmed.
pub open spec fn page_text_spec(main: Seq<char>) -> Seq<char> {
    let t = process_titles_spec(html2text_rendering(main, 80));
    let content = clear_source_ampers_spec(t);
    if content.len() > 0 && content[0] == '#' {
        trim_seq(trim_start_char_seq(content, '#'))
    } else {
        trim_seq(content)
    }
}

/// The rendered text of a main content section, cleaned.
pub fn page_text(main: &str) -> (res: String)
    requires
        html2text_fits(main@, 80),
    ensures
        res@ == page_text_spec(main@),
{
    let t = render_html2text(main, 80);
    let t = process_titles(t.as_str());
    let content = to_chars(clear_source_ampers(t).as_str());
    if content.len() > 0 && content[0] == '#' {
        from_chars(&trim_chars(&trim_start_char_chars(&content, '#')))
    } else {
        from_chars(&trim_chars(&content))
    }
}

/// The HTML of a page without links, with spaced `where` clauses.
pub open spec fn preprocessed_spec(html: Seq<char>) -> Seq<char> {
    preprocess_where_keywords_spec(remove_links_spec(html))
}

/// The inputs on which `doit` is defined: each HTML text that the steps
/// hand to a parser fits it (html2text renders the main content section
/// without trouble), and where the page has a main content section,
/// `triage` is defined on its cleaned text.
pub open spec fn doit_defined(html: Seq<char>) -> bool {
    let html2 = remove_links_spec(html);
    let pre = preprocessed_spec(html);
    let html4 = convert_code_to_block_spec(pre);
    &&& fits_parser(html2)
    &&& fits_parser(pre)
    &&& fits_parser(html4)
    &&& match extract_all_spec(html4) {
        None => true,
        Some(main) => html2text_fits(main, 80) && triage_defined(page_text_spec(main), pre),
    }
}

/// The compact text of a fetched page: `NONE` where it has no main content
/// section; otherwise the `triage` of its cleaned text.
pub open spec fn doit_spec(html: Seq<char>) -> Seq<char> {
    let pre = preprocessed_spec(html);
    match extract_all_spec(convert_code_to_block_spec(pre)) {
        None => "NONE"@,
        Some(main) => triage_spec(page_text_spec(main), pre),
    }
}

/// The compact text of `html1`, where `doit` is defined on it.
fn summarize(html1: &str) -> (res: Option<String>)
    ensures
        res is Some <==> doit_defined(html1@),
        res matches Some(t) ==> t@ == doit_spec(html1@),
{
    let html2 = remove_links_from_html(html1);
    if !fits_html_parser(html2.as_str()) {
        return None;
    }
    let html3 = preprocess_where_keywords(html2.as_str());
    if !fits_html_parser(html3.as_str()) {
        return None;
    }
    let html4 = convert_code_to_block(html3.as_str());
    if !fits_html_parser(html4.as_str()) {
        return None;
    }
    match extract_all(html4.as_str()) {
        Some(main_content) => {
            if !html2text_can_render(main_content.as_str(), 80) {
                return None;
            }
            let trimmed = page_text(main_content.as_str());
            if triage_is_defined(trimmed.as_str(), html3.as_str()) {
                Some(triage(trimmed, html3.as_str()))
            } else {
                None
            }
        },
        None => Some("NONE".to_owned()),
    }
}

/// The compact text of the documentation page `html1`, fetched from `url`.
pub fn doit(html1: &str, url: &str) -> (res: String)
    requires
        doit_defined(html1@),
    ensures
        res@ == doit_spec(html1@),
{
    match summarize(html1) {
        Some(t) => t,
        None => {
            proof {
                assert(false);
            }
            String::new()
        },
    }
}

/// Whether `doit` is defined on the page `html1`.
pub fn doit_is_defined(html1: &str) -> (res: bool)
    ensures
        res == doit_defined(html1@),
{
    summarize(html1).is_some()
}

/// The compact text of the documentation page `html1`, or `None` where
/// `doit` is not defined on it.
pub fn doit_checked(html1: &str, url: &str) -> (res: Option<String>)
    ensures
        res is Some <==> doit_defined(html1@),
        res matches Some(t) ==> t@ == doit_spec(html1@),
{
    if doit_is_defined(html1) {
        Some(doit(html1, url))
    } else {
        None
    }
}

/// Every summary of a page neither starts nor ends with whitespace.
pub proof fn lemma_summary_trimmed(html: Seq<char>)
    requires
        doit_defined(html),
    ensures
        is_trimmed(doit_spec(html)),
{
    reveal_strlit("NONE");
    let pre = preprocessed_spec(html);
    match extract_all_spec(convert_code_to_block_spec(pre)) {
        None => {
            assert("NONE"@[0] == 'N');
            assert("NONE"@.last() == 'E');
        },
        Some(main) => {
            let text = page_text_spec(main);
            if triage_defined(text, pre) {
                let first = words_seq(text)[0];
                if is_struct_kind(first) {
                    let fixed = fix_struct_newlines_spec(text);
                    lemma_trim_is_trimmed(
                        struct_enum_text(
                            struct_enum_header_spec(fixed),
                            implementations_spec(fixed)->0,
                            trait_names(pre),
                        ),
                    );
                } else if is_module_kind(first) {
                    lemma_trim_is_trimmed(tiny_module_text(text));
                }
            }
        },
    }
}

/// A crate, module, trait, type alias or macro page becomes its text, each
/// line followed by a line feed, trimmed: whatever the preprocessed HTML.
pub proof fn lemma_triage_module_page(content: Seq<char>, preprocessed: Seq<char>)
    requires
        words_seq(content).len() > 0,
        words_seq(content)[0] == "Crate"@ || words_seq(content)[0] == "Module"@
            || words_seq(content)[0] == "Trait"@ || words_seq(content)[0] == "Type"@
            || words_seq(content)[0] == "Macro"@,
    ensures
        triage_spec(content, preprocessed) == trim_seq(
            crate::text::terminated_lines(crate::text::lines_seq(content)),
        ),
{
    reveal_strlit("Crate");
    reveal_strlit("Module");
    reveal_strlit("Trait");
    reveal_strlit("Type");
    reveal_strlit("Macro");
    reveal_strlit("Struct");
    reveal_strlit("Enum");
    let w = words_seq(content)[0];
    assert(w != "Struct"@ && w != "Enum"@) by {
        if w == "Struct"@ || w == "Enum"@ {
            assert(w[0] == 'S' || w[0] == 'E');
        }
    }
}

/// A page whose first word names no struct, enum, crate, module, trait,
/// type alias or macro becomes empty.
pub proof fn lemma_triage_other_page(content: Seq<char>, preprocessed: Seq<char>)
    requires
        words_seq(content).len() > 0,
        words_seq(content)[0] != "Struct"@,
        words_seq(content)[0] != "Enum"@,
        words_seq(content)[0] != "Crate"@,
        words_seq(content)[0] != "Module"@,
        words_seq(content)[0] != "Trait"@,
        words_seq(content)[0] != "Type"@,
        words_seq(content)[0] != "Macro"@,
    ensures
        triage_spec(content, preprocessed) == Seq::<char>::empty(),
{
}

// ---------------------------------------------------------------------------
// URLs
// ---------------------------------------------------------------------------

/// Why a URL did not give what the crawler needs.
pub enum UrlError {
    /// The URL did not parse; the text says why.
    Parse(String),
    /// The URL cannot be a base, so it has no path segments.
    InvalidPathSegments,
    /// The URL has no path segments.
    NoPathSegments,
    /// The URL has no host.
    InvalidHost,
}

/// The plain value of a `UrlError`.
pub enum UrlFailure {
    Parse(Seq<char>),
    InvalidPathSegments,
    NoPathSegments,
    InvalidHost,
}

impl View for UrlError {
    type V = UrlFailure;

    open spec fn view(&self) -> UrlFailure {
        match self {
            UrlError::Parse(m) => UrlFailure::Parse(m@),
            UrlError::InvalidPathSegments => UrlFailure::InvalidPathSegments,
            UrlError::NoPathSegments => UrlFailure::NoPathSegments,
            UrlError::InvalidHost => UrlFailure::InvalidHost,
        }
    }
}

impl UrlError {
    /// The error's text.
    pub fn message(&self) -> (res: String)
        ensures
            self matches UrlError::Parse(m) ==> res@ == m@,
            self is InvalidPathSegments ==> res@ == "Invalid path segments"@,
            self is NoPathSegments ==> res@ == "URL has no path segments"@,
            self is InvalidHost ==> res@ == "Invalid host"@,
    {
        match self {
            UrlError::Parse(m) => m.clone(),
            UrlError::InvalidPathSegments => "Invalid path segments".to_owned(),
            UrlError::NoPathSegments => "URL has no path segments".to_owned(),
            UrlError::InvalidHost => "Invalid host".to_owned(),
        }
    }
}

/// The plain value of a result that is a string or a `UrlError`.
pub open spec fn url_outcome(r: Result<String, UrlError>) -> Result<Seq<char>, UrlFailure> {
    match r {
        Ok(s) => Ok(s@),
        Err(e) => Err(e@),
    }
}

/// The root of a parsed documentation URL (scheme, host, path segments,
/// serialization): scheme, host, and all path segments but the last,
/// ending in `/`.
pub open spec fn root_from_parts(
    parts: (Seq<char>, Option<Seq<char>>, Option<Seq<Seq<char>>>, Seq<char>),
) -> Result<Seq<char>, UrlFailure> {
    let (scheme, host, segments, serialization) = parts;
    match segments {
        None => Err(UrlFailure::InvalidPathSegments),
        Some(segs) => if segs.len() == 0 {
            Err(UrlFailure::NoPathSegments)
        } else {
            match host {
                None => Err(UrlFailure::InvalidHost),
                Some(h) => Ok(
                    scheme + "://"@ + h + "/"@ + join_seq(segs.take(segs.len() - 1), "/"@) + "/"@,
                ),
            }
        },
    }
}

/// The root of a documentation URL, or why there is none.
pub open spec fn root_url_spec(url: Seq<char>) -> Result<Seq<char>, UrlFailure> {
    match parsed_url(url) {
        Err(e) => Err(UrlFailure::Parse("URL parse error: "@ + e)),
        Ok(parts) => root_from_parts(parts),
    }
}

/// The root of a parsed documentation URL.
pub fn root_url_of(u: &UrlParts) -> (res: Result<String, UrlError>)
    ensures
        url_outcome(res) == root_from_parts(url_parts_view(*u)),
{
    match &u.segments {
        None => Err(UrlError::InvalidPathSegments),
        Some(segs) => {
            if segs.len() == 0 {
                Err(UrlError::NoPathSegments)
            } else {
                match &u.host {
                    None => Err(UrlError::InvalidHost),
                    Some(h) => {
                        let parts = crate::text::strings_to_chars(segs);
                        let root = join_chars(&parts, 0, parts.len() - 1, &to_chars("/"));
                        assert(views(parts@).subrange(0, parts.len() - 1) =~= string_views(
                            segs@,
                        ).take(segs.len() - 1));
                        let mut out = to_chars(u.scheme.as_str());
                        append_lit(&mut out, "://");
                        append_lit(&mut out, h.as_str());
                        append_lit(&mut out, "/");
                        push_all(&mut out, &root);
                        append_lit(&mut out, "/");
                        Ok(from_chars(&out))
                    },
                }
            }
        },
    }
}

/// The root of the documentation URL `url_str`.
pub fn extract_root_url(url_str: &str) -> (res: Result<String, UrlError>)
    ensures
        url_outcome(res) == root_url_spec(url_str@),
{
    match parse_url(url_str) {
        Err(e) => {
            let mut m = to_chars("URL parse error: ");
            push_all(&mut m, &to_chars(e.as_str()));
            Err(UrlError::Parse(from_chars(&m)))
        },
        Ok(u) => root_url_of(&u),
    }
}

/// The crate name of a parsed documentation URL: its first path segment.
pub open spec fn crate_name_from_parts(
    parts: (Seq<char>, Option<Seq<char>>, Option<Seq<Seq<char>>>, Seq<char>),
) -> Result<Seq<char>, UrlFailure> {
    match parts.2 {
        None => Err(UrlFailure::InvalidPathSegments),
        Some(segs) => if segs.len() == 0 {
            Err(UrlFailure::NoPathSegments)
        } else {
            Ok(segs[0])
        },
    }
}

/// The crate name of a documentation URL, or why there is none.
pub open spec fn crate_name_spec(url: Seq<char>) -> Result<Seq<char>, UrlFailure> {
    match parsed_url(url) {
        Err(e) => Err(UrlFailure::Parse(e)),
        Ok(parts) => crate_name_from_parts(parts),
    }
}

/// The crate name of a parsed documentation URL.
pub fn crate_name_of(u: &UrlParts) -> (res: Result<String, UrlError>)
    ensures
        url_outcome(res) == crate_name_from_parts(url_parts_view(*u)),
{
    match &u.segments {
        None => Err(UrlError::InvalidPathSegments),
        Some(segs) => {
            if segs.len() == 0 {
                Err(UrlError::NoPathSegments)
            } else {
                Ok(segs[0].clone())
            }
        },
    }
}

/// The crate name of the documentation URL `url_str`.
pub fn extract_crate_name(url_str: &str) -> (res: Result<String, UrlError>)
    ensures
        url_outcome(res) == crate_name_spec(url_str@),
{
    match parse_url(url_str) {
        Err(e) => Err(UrlError::Parse(e)),
        Ok(u) => crate_name_of(&u),
    }
}

// ---------------------------------------------------------------------------
// Sections of text rendered by august
// ---------------------------------------------------------------------------

/// The text before the first line that starts an upper-case
/// implementations heading; the whole text if there is none.
pub open spec fn main_part_spec(s: Seq<char>) -> Seq<char> {
    match line_start_find(s, upper_section_heads()) {
        Some((before, m, after)) => before,
        None => s,
    }
}

/// The part of an upper-case page text before its implementations.
pub fn extract_main(s: &str) -> (res: String)
    ensures
        res@ == main_part_spec(s@),
{
    match regex_find(
        "(?m)^IMPLEMENTATIONS|^TRAIT IMPLEMENTATION|^AUTO TRAIT IMPLEMENTATIONS|^BLANKET IMPLEMENTATIONS",
        s,
    ) {
        Some((before, m, after)) => before,
        None => s.to_owned(),
    }
}

/// The HTML texts that `august_preview` hands to a parser or a renderer
/// all fit it.
pub open spec fn august_preview_fits(html: Seq<char>) -> bool {
    let pre = preprocessed_spec(html);
    let html4 = convert_code_to_block_spec(pre);
    &&& fits_parser(remove_links_spec(html))
    &&& fits_parser(pre)
    &&& fits_parser(html4)
    &&& extract_all_spec(html4) matches Some(main) ==> august_fits(main, 80)
}

/// A page read through august: the trait names of its preprocessed HTML,
/// and, where it has a main content section, that section rendered by
/// august, cleaned, up to its implementations.
pub open spec fn august_preview_spec(html: Seq<char>) -> (Seq<Seq<char>>, Option<Seq<char>>) {
    let pre = preprocessed_spec(html);
    (
        trait_names(pre),
        match extract_all_spec(convert_code_to_block_spec(pre)) {
            Some(main) => Some(main_part_spec(clear_source_ampers_spec(august_rendering(main, 80)))),
            None => None,
        },
    )
}

/// The trait names of a page and the main part of its text rendered by
/// august; `None` where a text handed to a parser or a renderer does not
/// fit it.
pub fn august_preview(html1: &str) -> (res: Option<(Vec<String>, Option<String>)>)
    ensures
        res is Some <==> august_preview_fits(html1@),
        res matches Some(r) ==> string_views(r.0@) == august_preview_spec(html1@).0 && opt_view(
            r.1,
        ) == august_preview_spec(html1@).1,
{
    let html2 = remove_links_from_html(html1);
    if !fits_html_parser(html2.as_str()) {
        return None;
    }
    let html3 = preprocess_where_keywords(html2.as_str());
    if !fits_html_parser(html3.as_str()) {
        return None;
    }
    let mut parser = Parser::new(html3.as_str());
    parser.parse_traits();
    let html4 = convert_code_to_block(html3.as_str());
    if !fits_html_parser(html4.as_str()) {
        return None;
    }
    let main = match extract_all(html4.as_str()) {
        Some(main_content) => {
            if !august_can_render(main_content.as_str(), 80) {
                return None;
            }
            let t = render_august(main_content.as_str(), 80);
            let t2 = clear_source_ampers(t);
            Some(extract_main(t2.as_str()))
        },
        None => None,
    };
    Some((parser.into_traits(), main))
}

/// The header of a trait page: the text before the first line that starts
/// `Implementations` or `Local Implementors`, trimmed; the whole text if
/// there is none.
pub open spec fn trait_header_spec(s: Seq<char>) -> Seq<char> {
    match line_start_find(s, trait_page_heads()) {
        Some((before, m, after)) => trim_seq(before),
        None => s,
    }
}

/// The header of a trait page.
pub fn extract_trait_header(s: &str) -> (res: String)
    ensures
        res@ == trait_header_spec(s@),
{
    match regex_find("(?m)^Implementations|^Local Implementors", s) {
        Some((before, m, after)) => trim(before.as_str()),
        None => s.to_owned(),
    }
}

/// The implementors of a trait page: the text after the first line start
/// `Implementations` or `Local Implementors`, trimmed; empty if there is
/// none.
pub open spec fn trait_implementors_spec(s: Seq<char>) -> Seq<char> {
    match line_start_find(s, trait_page_heads()) {
        Some((before, m, after)) => trim_seq(after),
        None => seq![],
    }
}

/// The implementors section of a trait page.
pub fn extract_trait_implementators(s: &str) -> (res: String)
    ensures
        res@ == trait_implementors_spec(s@),
{
    match regex_find("(?m)^Implementations|^Local Implementors", s) {
        Some((before, m, after)) => trim(after.as_str()),
        None => String::new(),
    }
}

} // verus!
