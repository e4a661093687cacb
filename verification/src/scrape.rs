//! Cleaning of rustdoc HTML and of the text rendered from it, and the
//! compact text forms of a documentation page.
use vstd::prelude::*;
use crate::text::{
    absent, contains_seq, lemma_absent_iff, lemma_absent_prefix, lemma_absent_suffix,
    lemma_replace_absent, lemma_trim_end_prefix_of, lemma_trim_end_twice, lemma_trim_start_suffix_of,
    lemma_trim_start_twice, occurs_at, is_ws, starts_with, words_acc, append_lit, find_chars, find_seq, lemma_find_seq,
    replace_chars, slice_chars, words_chars, words_seq, concat_seq, from_chars, join_chars,
    join_seq, lines_chars, lines_seq, push_all, replace_lit, replace_seq, string_views,
    strings_to_chars, terminated_lines, terminated_lines_chars, to_chars, trim_end_chars,
    trim_end_seq, trim_start_chars, trim_start_seq, views,
};
use crate::engines::{
    is_plain_literal, regex_shorten_runs, regex_is_match, is_title_line, regex_replace_all,
    regex_replace_first, select_inner_html, select_outer_html, selected_inner_html,
    selected_outer_html, document_inner_html, root_inner_html, decode_entities,
    decoded_entities, fits_parser, leading_feeds, lemma_leading_feeds_bound, shortened_run,
    shorten_feed_runs, strip_close_anchors, strip_open_anchors,
};

verus! {

// ---------------------------------------------------------------------------
// Compact page forms
// ---------------------------------------------------------------------------

/// A page of a crate, a module, a trait, a type alias or a macro, as text.
pub struct TinyModule {
    pub content: String,
}

/// A page of a struct or an enum: its header, its own implementations and
/// the names of the traits it implements.
pub struct TinyStructEnumModule {
    pub header: String,
    pub implementations: String,
    pub traits: Vec<String>,
}

/// The rule that opens a section of the compact text.
pub open spec fn section_rule() -> Seq<char> {
    "__________\n\n"@
}

/// The text of a `TinyModule`: each line of its content, followed by a
/// line feed.
pub open spec fn tiny_module_text(content: Seq<char>) -> Seq<char> {
    terminated_lines(lines_seq(content))
}

/// `traits` cut into rows of `n` names (the last row may be shorter), each
/// row joined by `sep`.
pub open spec fn chunk_rows(traits: Seq<Seq<char>>, n: nat, sep: Seq<char>) -> Seq<Seq<char>>
    decreases traits.len(),
{
    if traits.len() == 0 || n == 0 {
        seq![]
    } else if traits.len() <= n {
        seq![join_seq(traits, sep)]
    } else {
        seq![join_seq(traits.take(n as int), sep)] + chunk_rows(traits.skip(n as int), n, sep)
    }
}

/// The text of a `TinyStructEnumModule`: the lines of the header; then, if
/// there are implementations, a rule, `IMPLEMENTATIONS:` and their lines;
/// then, if there are traits, a rule, `TRAITS:` and the trait names, five to
/// a line, separated by `, `.
pub open spec fn struct_enum_text(
    header: Seq<char>,
    implementations: Seq<char>,
    traits: Seq<Seq<char>>,
) -> Seq<char> {
    terminated_lines(lines_seq(header)) + (if implementations.len() == 0 {
        seq![]
    } else {
        section_rule() + "IMPLEMENTATIONS:\n"@ + terminated_lines(lines_seq(implementations))
    }) + (if traits.len() == 0 {
        seq![]
    } else {
        section_rule() + "TRAITS:\n"@ + terminated_lines(chunk_rows(traits, 5, ", "@))
    })
}

impl TinyModule {
    /// The text form of the page (what its `Debug` form prints).
    pub fn debug_text(&self) -> (res: String)
        ensures
            res@ == tiny_module_text(self.content@),
    {
        let lines = lines_chars(&to_chars(self.content.as_str()));
        from_chars(&terminated_lines_chars(&lines))
    }
}

/// Rows of at most `n` names from `traits`, each joined by `sep`.
fn chunk_rows_chars(traits: &Vec<Vec<char>>, n: usize, sep: &Vec<char>) -> (res: Vec<Vec<char>>)
    requires
        n > 0,
    ensures
        views(res@) == chunk_rows(views(traits@), n as nat, sep@),
{
    let mut rows: Vec<Vec<char>> = Vec::new();
    let mut i: usize = 0;
    let ghost t = views(traits@);
    assert(t.skip(0) =~= t);
    assert(views(rows@) =~= seq![]);
    while i < traits.len()
        invariant
            n > 0,
            t == views(traits@),
            i <= traits.len(),
            chunk_rows(t, n as nat, sep@) == views(rows@) + chunk_rows(t.skip(i as int), n as nat, sep@),
        decreases traits.len() - i,
    {
        let ghost old_rows = views(rows@);
        let end: usize = if traits.len() - i <= n {
            traits.len()
        } else {
            i + n
        };
        let row = join_chars(traits, i, end, sep);
        rows.push(row);
        assert(views(rows@) =~= old_rows.push(row@));
        let ghost rest = t.skip(i as int);
        if end == traits.len() {
            assert(rest =~= t.subrange(i as int, end as int));
            assert(t.skip(end as int) =~= seq![]);
            assert(chunk_rows(t.skip(end as int), n as nat, sep@) =~= seq![]);
            assert(views(rows@) + seq![] =~= old_rows + seq![row@]);
        } else {
            assert(rest.take(n as int) =~= t.subrange(i as int, end as int));
            assert(rest.skip(n as int) =~= t.skip(end as int));
            assert(views(rows@) + chunk_rows(t.skip(end as int), n as nat, sep@) =~= old_rows + (
            seq![row@] + chunk_rows(t.skip(end as int), n as nat, sep@)));
        }
        i = end;
    }
    assert(chunk_rows(t.skip(i as int), n as nat, sep@) =~= seq![]);
    assert(views(rows@) + seq![] =~= views(rows@));
    rows
}

impl TinyStructEnumModule {
    /// The text form of the page (what its `Debug` form prints).
    pub fn debug_text(&self) -> (res: String)
        ensures
            res@ == struct_enum_text(self.header@, self.implementations@, string_views(self.traits@)),
    {
        let mut out = terminated_lines_chars(&lines_chars(&to_chars(self.header.as_str())));
        let ghost part1 = out@;
        let impls = to_chars(self.implementations.as_str());
        if impls.len() > 0 {
            append_lit(&mut out, "__________\n\n");
            append_lit(&mut out, "IMPLEMENTATIONS:\n");
            let body = terminated_lines_chars(&lines_chars(&impls));
            push_all(&mut out, &body);
        }
        let ghost part2 = out@;
        let traits = strings_to_chars(&self.traits);
        if traits.len() > 0 {
            append_lit(&mut out, "__________\n\n");
            append_lit(&mut out, "TRAITS:\n");
            let rows = chunk_rows_chars(&traits, 5, &to_chars(", "));
            let body = terminated_lines_chars(&rows);
            push_all(&mut out, &body);
        }
        assert(out@ =~= struct_enum_text(
            self.header@,
            self.implementations@,
            string_views(self.traits@),
        ));
        from_chars(&out)
    }
}

// ---------------------------------------------------------------------------
// Titles
// ---------------------------------------------------------------------------

/// A line of rendered text with its `## ` title mark turned into a rule:
/// a title line (`## ` and no line feed) becomes the rule, the title after
/// `## ` and a blank line; any other line is kept with a line feed.
pub open spec fn title_line(l: Seq<char>) -> Seq<char> {
    if is_title_line(l) {
        section_rule() + l.skip(3) + "\n\n"@
    } else {
        l + "\n"@
    }
}

/// The lines of `input`, each as `title_line` makes it, concatenated.
pub open spec fn process_titles_spec(input: Seq<char>) -> Seq<char> {
    concat_seq(lines_seq(input).map_values(|l: Seq<char>| title_line(l)))
}

/// Turns each line that starts with `## ` into a section rule followed by
/// the title.
pub fn process_titles(input: &str) -> (res: String)
    ensures
        res@ == process_titles_spec(input@),
{
    let lines = lines_chars(&to_chars(input));
    let ghost mapped = lines_seq(input@).map_values(|l: Seq<char>| title_line(l));
    let mut out: Vec<char> = Vec::new();
    let mut i: usize = 0;
    assert(mapped.take(0) =~= seq![]);
    while i < lines.len()
        invariant
            i <= lines.len(),
            views(lines@) == lines_seq(input@),
            mapped == lines_seq(input@).map_values(|l: Seq<char>| title_line(l)),
            out@ == concat_seq(mapped.take(i as int)),
        decreases lines.len() - i,
    {
        let ghost old_out = out@;
        let line = from_chars(&lines[i]);
        assert(line@ == lines_seq(input@)[i as int]);
        let matched = regex_is_match("^## (.*)$", line.as_str());
        match matched {
            Some(true) => {
                let modified = match regex_replace_first("^## (.*)$", line.as_str(), "$1") {
                    Some(m) => m,
                    None => line.clone(),
                };
                append_lit(&mut out, "__________\n\n");
                append_lit(&mut out, modified.as_str());
                append_lit(&mut out, "\n\n");
            },
            _ => {
                append_lit(&mut out, line.as_str());
                append_lit(&mut out, "\n");
            },
        }
        assert(mapped.take(i + 1).drop_last() =~= mapped.take(i as int));
        assert(out@ =~= old_out + mapped[i as int]);
        i = i + 1;
    }
    assert(mapped.take(lines.len() as int) =~= mapped);
    from_chars(&out)
}

// ---------------------------------------------------------------------------
// HTML clean-up
// ---------------------------------------------------------------------------

/// `html` without its `<a ...>` and `</a>` tags (case-insensitive).
pub open spec fn remove_links_spec(html: Seq<char>) -> Seq<char> {
    strip_close_anchors(strip_open_anchors(html))
}

/// Removes the opening and closing `<a>` tags from the HTML, keeping the
/// text inside them.
pub fn remove_links_from_html(html: &str) -> (res: String)
    ensures
        res@ == remove_links_spec(html@),
{
    let once = match regex_replace_all("(?i)<a[^>]*>", html, "") {
        Some(t) => t,
        None => html.to_owned(),
    };
    match regex_replace_all("(?i)</a>", once.as_str(), "") {
        Some(t) => t,
        None => once,
    }
}

// ---------------------------------------------------------------------------
// Text clean-up
// ---------------------------------------------------------------------------

/// `s` with every occurrence of `p` replaced by `r`, then without leading
/// whitespace.
pub open spec fn replace_trim_start(s: Seq<char>, p: Seq<char>, r: Seq<char>) -> Seq<char> {
    trim_start_seq(replace_seq(s, p, r))
}

/// `s` with every occurrence of `p` replaced by `r`, then without trailing
/// whitespace.
pub open spec fn replace_trim_end(s: Seq<char>, p: Seq<char>, r: Seq<char>) -> Seq<char> {
    trim_end_seq(replace_seq(s, p, r))
}

/// The text with rustdoc's `source` and `§` marks, `Read more`,
/// `Expand description` and similar page furniture removed, and `## `
/// headings after a line feed turned into long rules.
pub open spec fn clear_source_ampers_spec(content: Seq<char>) -> Seq<char> {
    let c1 = replace_trim_start(content, "source§"@, ""@);
    let c2 = trim_start_seq(replace_trim_start(c1, "§"@, ""@));
    let c3 = replace_trim_start(c2, "Read more"@, ""@);
    let c4 = replace_trim_start(c3, "\n## "@, "__________________________________________\n\n\n\n"@);
    let c5 = replace_trim_start(c4, "const: unstable ·"@, ""@);
    let c6 = replace_trim_start(c5, "[Copy item path]"@, ""@);
    let c7 = replace_trim_start(c6, "[−][src]"@, ""@);
    let c8 = replace_trim_start(c7, "source\n"@, ""@);
    let c9 = replace_trim_start(c8, "source · [−]"@, ""@);
    let c10 = replace_trim_end(c9, "source ·"@, ""@);
    replace_trim_end(c10, "Expand description"@, ""@)
}

/// Every occurrence of the short literal `pattern` removed from `v`, through
/// the regex crate.
pub(crate) fn regex_remove_literal(v: &Vec<char>, pattern: &str) -> (res: Vec<char>)
    requires
        is_plain_literal(pattern@),
    ensures
        res@ == replace_seq(v@, pattern@, ""@),
{
    let text = from_chars(v);
    proof {
        reveal_strlit("");
    }
    match regex_replace_all(pattern, text.as_str(), "") {
        Some(t) => to_chars(t.as_str()),
        None => {
            proof {
                assert(false);
            }
            replace_lit(v, pattern, "")
        },
    }
}

/// Removes rustdoc's page furniture (`source` links, `§` anchors,
/// `Read more`, `Expand description` and the like) from rendered text.
pub fn clear_source_ampers(content: String) -> (res: String)
    ensures
        res@ == clear_source_ampers_spec(content@),
{
    proof {
        reveal_strlit("source§");
        reveal_strlit("§");
        assert(is_plain_literal("source§"@));
        assert(is_plain_literal("§"@));
    }
    let v = to_chars(content.as_str());
    let v = trim_start_chars(&regex_remove_literal(&v, "source§"));
    let v = trim_start_chars(&trim_start_chars(&regex_remove_literal(&v, "§")));
    let v = trim_start_chars(&replace_lit(&v, "Read more", ""));
    let v = trim_start_chars(
        &replace_lit(&v, "\n## ", "__________________________________________\n\n\n\n"),
    );
    let v = trim_start_chars(&replace_lit(&v, "const: unstable ·", ""));
    let v = trim_start_chars(&replace_lit(&v, "[Copy item path]", ""));
    let v = trim_start_chars(&replace_lit(&v, "[−][src]", ""));
    let v = trim_start_chars(&replace_lit(&v, "source\n", ""));
    let v = trim_start_chars(&replace_lit(&v, "source · [−]", ""));
    let v = trim_end_chars(&replace_lit(&v, "source ·", ""));
    let v = trim_end_chars(&replace_lit(&v, "Expand description", ""));
    from_chars(&v)
}

/// `n` line feeds.
pub open spec fn line_feeds(n: nat) -> Seq<char> {
    Seq::new(n, |i: int| '\n')
}

/// A run of line feeds made `cut` shorter (a run of three or four feeds,
/// `cut` two, becomes one or two); any other text is kept.
pub open spec fn shorten_run_spec(run: Seq<char>, cut: nat) -> Seq<char> {
    if run.len() > cut && run == line_feeds(run.len()) {
        line_feeds((run.len() - cut) as nat)
    } else {
        run
    }
}

/// The replacement for a run of line feeds: the run made `cut` feeds
/// shorter.
pub fn shorten_feed_run(run: &str, cut: usize) -> (res: String)
    ensures
        res@ == shorten_run_spec(run@, cut as nat),
{
    let v = to_chars(run);
    let mut all_feeds = true;
    let mut i: usize = 0;
    while i < v.len()
        invariant
            i <= v.len(),
            all_feeds == forall|j: int| 0 <= j < i ==> v@[j] == '\n',
        decreases v.len() - i,
    {
        if v[i] != '\n' {
            all_feeds = false;
        }
        i = i + 1;
    }
    if all_feeds && v.len() > cut {
        assert(v@ =~= line_feeds(v@.len()));
        let mut out: Vec<char> = Vec::new();
        let mut k: usize = 0;
        while k < v.len() - cut
            invariant
                k <= v.len() - cut,
                out@ == line_feeds(k as nat),
            decreases v.len() - cut - k,
        {
            out.push('\n');
            assert(out@ =~= line_feeds((k + 1) as nat));
            k = k + 1;
        }
        from_chars(&out)
    } else {
        assert(!(v@.len() > cut && v@ == line_feeds(v@.len()))) by {
            if !all_feeds && v@ == line_feeds(v@.len()) {
                let j = choose|j: int| 0 <= j < v.len() && v@[j] != '\n';
                assert(v@[j] == line_feeds(v@.len())[j]);
            }
        }
        run.to_owned()
    }
}

/// `content` with runs of three line feeds made one and runs of four made
/// two (through the regex `\n{3,4}`).
pub open spec fn collapse_runs_spec(content: Seq<char>) -> Seq<char> {
    shorten_feed_runs(content, 3, 4, 2)
}

fn collapse_runs(content: &str) -> (res: Vec<char>)
    ensures
        res@ == collapse_runs_spec(content@),
{
    match regex_shorten_runs("\n{3,4}", content, 2) {
        Some(t) => to_chars(t.as_str()),
        None => to_chars(content),
    }
}

/// The sections of a trait page's text set apart.
pub open spec fn trait_sections_apart(c1: Seq<char>) -> Seq<char> {
    let c2 = replace_trim_end(c1, "REQUIRED METHODS"@, "\n\nREQUIRED METHODS"@);
    let c3 = replace_trim_end(c2, "PROVIDED METHODS"@, "\n\nPROVIDED METHODS"@);
    let c4 = replace_trim_end(c3, "\nfn"@, "\n\n\n\nfn"@);
    let c5 = replace_trim_end(c4, "IMPLEMENTORS"@, "\n\n\nLOCAL IMPLEMENTORS"@);
    replace_trim_end(c5, "IMPLEMENTATIONS ON FOREIGN TYPES"@, "\n\nIMPLEMENTATIONS"@)
}

/// The text of a trait page with its blank lines collapsed and its section
/// names set apart.
pub open spec fn fix_trait_newlines_spec(content: Seq<char>) -> Seq<char> {
    trait_sections_apart(collapse_runs_spec(content))
}

/// Sets the sections of a trait page's text apart: line breaks before the
/// method sections and before each `fn`, `IMPLEMENTORS` read as local
/// implementors, trailing whitespace dropped.
pub fn set_trait_sections_apart(text: &str) -> (res: String)
    ensures
        res@ == trait_sections_apart(text@),
{
    let v = to_chars(text);
    let v = trim_end_chars(&replace_lit(&v, "REQUIRED METHODS", "\n\nREQUIRED METHODS"));
    let v = trim_end_chars(&replace_lit(&v, "PROVIDED METHODS", "\n\nPROVIDED METHODS"));
    let v = trim_end_chars(&replace_lit(&v, "\nfn", "\n\n\n\nfn"));
    let v = trim_end_chars(&replace_lit(&v, "IMPLEMENTORS", "\n\n\nLOCAL IMPLEMENTORS"));
    let v = trim_end_chars(
        &replace_lit(&v, "IMPLEMENTATIONS ON FOREIGN TYPES", "\n\nIMPLEMENTATIONS"),
    );
    from_chars(&v)
}

/// Collapses the blank lines of a trait page and sets its sections apart.
pub fn fix_trait_newlines(content: String) -> (res: String)
    ensures
        res@ == fix_trait_newlines_spec(content@),
{
    let v = collapse_runs(content.as_str());
    set_trait_sections_apart(from_chars(&v).as_str())
}

/// Collapses the blank lines of a type alias page.
pub fn fix_type_newlines(content: String) -> (res: String)
    ensures
        res@ == collapse_runs_spec(content@),
{
    from_chars(&collapse_runs(content.as_str()))
}

/// The sections of a struct or enum page's text set apart.
pub open spec fn struct_sections_apart(c1: Seq<char>) -> Seq<char> {
    let c2 = replace_trim_end(c1, "FIELDS"@, "\n\nFIELDS"@);
    let c3 = replace_trim_end(c2, "REQUIRED METHODS"@, "\n\nREQUIRED METHODS"@);
    let c4 = replace_trim_end(c3, "PROVIDED METHODS"@, "\n\nPROVIDED METHODS"@);
    let c5 = replace_trim_end(c4, "ON FOREIGN TYPES"@, "\n\nON FOREIGN TYPES"@);
    let c6 = replace_trim_end(c5, "IMPLEMENTORS"@, "\n\n\nLOCAL IMPLEMENTORS"@);
    replace_trim_end(c6, "IMPLEMENTATIONS"@, "\n\nIMPLEMENTATIONS"@)
}

/// The text of a struct or enum page with its blank lines collapsed and its
/// section names set apart.
pub open spec fn fix_struct_newlines_spec(content: Seq<char>) -> Seq<char> {
    struct_sections_apart(collapse_runs_spec(content))
}

/// Sets the sections of a struct or enum page's text apart: line breaks
/// before its section names, trailing whitespace dropped.
pub fn set_struct_sections_apart(text: &str) -> (res: String)
    ensures
        res@ == struct_sections_apart(text@),
{
    let v = to_chars(text);
    let v = trim_end_chars(&replace_lit(&v, "FIELDS", "\n\nFIELDS"));
    let v = trim_end_chars(&replace_lit(&v, "REQUIRED METHODS", "\n\nREQUIRED METHODS"));
    let v = trim_end_chars(&replace_lit(&v, "PROVIDED METHODS", "\n\nPROVIDED METHODS"));
    let v = trim_end_chars(&replace_lit(&v, "ON FOREIGN TYPES", "\n\nON FOREIGN TYPES"));
    let v = trim_end_chars(&replace_lit(&v, "IMPLEMENTORS", "\n\n\nLOCAL IMPLEMENTORS"));
    let v = trim_end_chars(&replace_lit(&v, "IMPLEMENTATIONS", "\n\nIMPLEMENTATIONS"));
    from_chars(&v)
}

/// Collapses the blank lines of a struct or enum page and sets its sections
/// apart.
pub fn fix_struct_newlines(content: String) -> (res: String)
    ensures
        res@ == fix_struct_newlines_spec(content@),
{
    let v = collapse_runs(content.as_str());
    set_struct_sections_apart(from_chars(&v).as_str())
}

// ---------------------------------------------------------------------------
// HTML rewrites driven by selected elements
// ---------------------------------------------------------------------------

/// `text` after replacing `olds[0]` by `news[0]` everywhere, then `olds[1]`
/// by `news[1]`, and so on.
pub open spec fn replace_each(text: Seq<char>, olds: Seq<Seq<char>>, news: Seq<Seq<char>>) -> Seq<
    char,
>
    decreases olds.len(),
{
    if olds.len() == 0 || news.len() == 0 {
        text
    } else {
        replace_seq(replace_each(text, olds.drop_last(), news.drop_last()), olds.last(), news.last())
    }
}

fn replace_each_chars(text: Vec<char>, olds: &Vec<Vec<char>>, news: &Vec<Vec<char>>) -> (res: Vec<
    char,
>)
    requires
        olds.len() == news.len(),
    ensures
        res@ == replace_each(text@, views(olds@), views(news@)),
{
    let mut out = text;
    let mut i: usize = 0;
    assert(views(olds@).take(0) =~= seq![]);
    while i < olds.len()
        invariant
            olds.len() == news.len(),
            i <= olds.len(),
            out@ == replace_each(text@, views(olds@).take(i as int), views(news@).take(i as int)),
        decreases olds.len() - i,
    {
        out = replace_chars(&out, &olds[i], &news[i]);
        assert(views(olds@).take(i + 1).drop_last() =~= views(olds@).take(i as int));
        assert(views(news@).take(i + 1).drop_last() =~= views(news@).take(i as int));
        i = i + 1;
    }
    assert(views(olds@).take(olds.len() as int) =~= views(olds@));
    assert(views(news@).take(news.len() as int) =~= views(news@));
    out
}

/// A `code-header` heading element rewritten as a `docblock` division.
pub open spec fn docblock_element(old: Seq<char>) -> Seq<char> {
    let a = replace_seq(old, "<h3 class=\"code-header\">"@, "<div class=\"docblock\">"@);
    let b = replace_seq(a, "</h3>"@, "</div>"@);
    let c = replace_seq(b, "<h4 class=\"code-header\">"@, "<div class=\"docblock\">"@);
    replace_seq(c, "</h4>"@, "</div>"@)
}

/// The HTML with each element of class `code-header` (as the parsed
/// document prints it) replaced by its `docblock_element` form.
pub open spec fn convert_code_to_block_spec(html: Seq<char>) -> Seq<char> {
    match selected_outer_html(html, ".code-header"@) {
        Some(els) => replace_each(html, els, els.map_values(|e: Seq<char>| docblock_element(e))),
        None => html,
    }
}

/// Outer HTML of the elements that `selector` selects; none where the
/// selector does not parse.
fn selected_outer_list(html: &str, selector: &str) -> (res: Vec<String>)
    requires
        fits_parser(html@),
    ensures
        string_views(res@) == match selected_outer_html(html@, selector@) {
            Some(els) => els,
            None => seq![],
        },
{
    match select_outer_html(html, selector) {
        Some(v) => v,
        None => {
            let v: Vec<String> = Vec::new();
            assert(string_views(v@) =~= seq![]);
            v
        },
    }
}

/// `html` with each of the `code-header` elements `headers` replaced by
/// its `docblock_element` form, one after the other.
pub fn code_blocks_in(html: &str, headers: &Vec<String>) -> (res: String)
    ensures
        res@ == replace_each(
            html@,
            string_views(headers@),
            string_views(headers@).map_values(|e: Seq<char>| docblock_element(e)),
        ),
{
    let olds = strings_to_chars(headers);
    let mut news: Vec<Vec<char>> = Vec::new();
    let mut i: usize = 0;
    while i < olds.len()
        invariant
            i <= olds.len(),
            views(news@) == views(olds@).take(i as int).map_values(
                |e: Seq<char>| docblock_element(e),
            ),
        decreases olds.len() - i,
    {
        let ghost old_news = views(news@);
        let a = replace_lit(&olds[i], "<h3 class=\"code-header\">", "<div class=\"docblock\">");
        let b = replace_lit(&a, "</h3>", "</div>");
        let c = replace_lit(&b, "<h4 class=\"code-header\">", "<div class=\"docblock\">");
        let d = replace_lit(&c, "</h4>", "</div>");
        news.push(d);
        assert(views(news@) =~= old_news.push(d@));
        assert(views(olds@).take(i + 1).map_values(|e: Seq<char>| docblock_element(e))
            =~= views(olds@).take(i as int).map_values(|e: Seq<char>| docblock_element(e)).push(
            docblock_element(views(olds@)[i as int]),
        ));
        i = i + 1;
    }
    assert(views(olds@).take(olds.len() as int) =~= views(olds@));
    from_chars(&replace_each_chars(to_chars(html), &olds, &news))
}

/// Rewrites the `code-header` headings of rustdoc HTML as `docblock`
/// divisions, so that text rendering keeps them as blocks.
pub fn convert_code_to_block(html: &str) -> (res: String)
    requires
        fits_parser(html@),
    ensures
        res@ == convert_code_to_block_spec(html@),
{
    let headers = selected_outer_list(html, ".code-header");
    code_blocks_in(html, &headers)
}

/// The document's HTML (the root element's inner HTML) with a space put
/// before each `span.where.fmt-newline` element.
pub open spec fn preprocess_where_keywords_spec(html: Seq<char>) -> Seq<char> {
    let root = root_inner_html(html);
    match selected_outer_html(html, "span.where.fmt-newline"@) {
        Some(els) => replace_each(root, els, els.map_values(|e: Seq<char>| " "@ + e)),
        None => root,
    }
}

/// `document` with a space put before each of the `clauses`, one after the
/// other.
pub fn space_where_clauses(document: &str, clauses: &Vec<String>) -> (res: String)
    ensures
        res@ == replace_each(
            document@,
            string_views(clauses@),
            string_views(clauses@).map_values(|e: Seq<char>| " "@ + e),
        ),
{
    let olds = strings_to_chars(clauses);
    let mut news: Vec<Vec<char>> = Vec::new();
    let mut i: usize = 0;
    while i < olds.len()
        invariant
            i <= olds.len(),
            views(news@) == views(olds@).take(i as int).map_values(|e: Seq<char>| " "@ + e),
        decreases olds.len() - i,
    {
        let ghost old_news = views(news@);
        let mut n = to_chars(" ");
        push_all(&mut n, &olds[i]);
        news.push(n);
        assert(views(news@) =~= old_news.push(n@));
        assert(views(olds@).take(i + 1).map_values(|e: Seq<char>| " "@ + e) =~= views(
            olds@,
        ).take(i as int).map_values(|e: Seq<char>| " "@ + e).push(" "@ + views(olds@)[i as int]));
        i = i + 1;
    }
    assert(views(olds@).take(olds.len() as int) =~= views(olds@));
    from_chars(&replace_each_chars(to_chars(document), &olds, &news))
}

/// Puts a space before each `where` clause that rustdoc sets on a new
/// line, so that the rendered text keeps the words apart.
pub fn preprocess_where_keywords(html: &str) -> (res: String)
    requires
        fits_parser(html@),
    ensures
        res@ == preprocess_where_keywords_spec(html@),
{
    let clauses = selected_outer_list(html, "span.where.fmt-newline");
    let root = document_inner_html(html);
    space_where_clauses(root.as_str(), &clauses)
}

// ---------------------------------------------------------------------------
// Trait names
// ---------------------------------------------------------------------------

/// The trait name in an implementation heading: the part before the first
/// `for`, with its words separated by single spaces; none if that part has
/// no words.
pub open spec fn trait_name_of(signature: Seq<char>) -> Option<Seq<char>> {
    let head = match find_seq(signature, "for"@) {
        Some(i) => signature.take(i),
        None => signature,
    };
    let name = join_seq(words_seq(head), " "@);
    if name.len() == 0 {
        None
    } else {
        Some(name)
    }
}

/// The trait names of the headings, each decoded from HTML entities first,
/// in order; headings without a name are skipped.
pub open spec fn names_of(headings: Seq<Seq<char>>) -> Seq<Seq<char>>
    decreases headings.len(),
{
    if headings.len() == 0 {
        seq![]
    } else {
        let prev = names_of(headings.drop_last());
        match trait_name_of(decoded_entities(headings.last())) {
            Some(n) => prev.push(n),
            None => prev,
        }
    }
}

/// The trait names of the headings that `selector` selects in `html`.
pub open spec fn names_for(html: Seq<char>, selector: Seq<char>) -> Seq<Seq<char>> {
    match selected_inner_html(html, selector) {
        Some(headings) => names_of(headings),
        None => seq![],
    }
}

/// The trait names of a struct or enum page: those of its trait
/// implementations, then of its auto trait implementations, then of its
/// blanket implementations.
pub open spec fn trait_names(html: Seq<char>) -> Seq<Seq<char>> {
    names_for(html, "div#trait-implementations-list section.impl h3"@) + names_for(
        html,
        "div#synthetic-implementations-list section.impl h3"@,
    ) + names_for(html, "div#blanket-implementations-list section.impl h3"@)
}

/// The trait name in an implementation heading.
pub fn trait_name(signature: &Vec<char>) -> (res: Option<Vec<char>>)
    ensures
        match res {
            Some(n) => trait_name_of(signature@) == Some(n@),
            None => trait_name_of(signature@) is None,
        },
{
    let head = match find_chars(signature, &to_chars("for")) {
        Some(i) => {
            proof {
                lemma_find_seq(signature@, "for"@);
            }
            slice_chars(signature, 0, i)
        },
        None => slice_chars(signature, 0, signature.len()),
    };
    assert(head@ =~= match find_seq(signature@, "for"@) {
        Some(i) => signature@.take(i),
        None => signature@,
    });
    let words = words_chars(&head);
    let name = join_chars(&words, 0, words.len(), &to_chars(" "));
    assert(views(words@).subrange(0, words.len() as int) =~= views(words@));
    if name.len() == 0 {
        None
    } else {
        Some(name)
    }
}

/// Parses the trait implementations listed on a struct or enum page.
pub struct Parser {
    state: String,
    pub traits: Vec<TraitName>,
}

/// The name of a trait, as a page lists it.
pub type TraitName = String;

impl Parser {
    /// The HTML of the page this parser reads.
    pub closed spec fn source(&self) -> Seq<char> {
        self.state@
    }

    /// The trait names found so far.
    pub closed spec fn trait_list(&self) -> Seq<Seq<char>> {
        string_views(self.traits@)
    }

    /// The public field `traits`, whose names are `trait_list`.
    pub fn traits_found(&self) -> (res: &Vec<TraitName>)
        ensures
            string_views(res@) == self.trait_list(),
    {
        &self.traits
    }

    /// A parser of the page `html`, with no trait names yet.
    pub fn new(html: &str) -> (res: Self)
        ensures
            res.source() == html@,
            res.trait_list() == Seq::<Seq<char>>::empty(),
    {
        let res = Parser { state: html.to_owned(), traits: Vec::new() };
        assert(string_views(res.traits@) =~= Seq::<Seq<char>>::empty());
        res
    }

    /// The trait names found so far.
    pub fn into_traits(self) -> (res: Vec<TraitName>)
        ensures
            string_views(res@) == self.trait_list(),
    {
        self.traits
    }

    fn collect_names(&mut self, selector: &str)
        requires
            fits_parser(old(self).source()),
        ensures
            final(self).source() == old(self).source(),
            final(self).trait_list() == old(self).trait_list() + names_for(
                old(self).source(),
                selector@,
            ),
    {
        let headings = match select_inner_html(self.state.as_str(), selector) {
            Some(v) => v,
            None => Vec::new(),
        };
        let ghost hs = string_views(headings@);
        let ghost start = string_views(self.traits@);
        assert(hs.take(0) =~= seq![]);
        assert(start + names_of(hs.take(0)) =~= start);
        let mut i: usize = 0;
        while i < headings.len()
            invariant
                i <= headings.len(),
                hs == string_views(headings@),
                self.state@ == old(self).state@,
                string_views(self.traits@) == start + names_of(hs.take(i as int)),
            decreases headings.len() - i,
        {
            let ghost before = string_views(self.traits@);
            let decoded = decode_entities(headings[i].as_str());
            assert(hs.take(i + 1).drop_last() =~= hs.take(i as int));
            assert(hs.take(i + 1).last() == headings@[i as int]@);
            match trait_name(&to_chars(decoded.as_str())) {
                Some(n) => {
                    self.traits.push(from_chars(&n));
                    assert(string_views(self.traits@) =~= before.push(n@));
                },
                None => {},
            }
            i = i + 1;
        }
        assert(hs.take(headings.len() as int) =~= hs);
        proof {
            match selected_inner_html(old(self).state@, selector@) {
                Some(h) => {},
                None => {
                    assert(hs =~= seq![]);
                },
            }
        }
    }

    /// Appends the trait names of the page's trait, auto trait and blanket
    /// implementations, in that order.
    pub fn parse_traits(&mut self)
        requires
            fits_parser(old(self).source()),
        ensures
            final(self).source() == old(self).source(),
            final(self).trait_list() == old(self).trait_list() + trait_names(old(self).source()),
    {
        self.collect_names("div#trait-implementations-list section.impl h3");
        self.collect_names("div#synthetic-implementations-list section.impl h3");
        self.collect_names("div#blanket-implementations-list section.impl h3");
        assert(string_views(self.traits@) =~= string_views(old(self).traits@) + trait_names(
            old(self).source(),
        ));
    }
}

// ---------------------------------------------------------------------------
// Laws
// ---------------------------------------------------------------------------

proof fn lemma_concat_lacks(a: Seq<char>, b: Seq<char>, c: char)
    requires
        !a.contains(c),
        !b.contains(c),
    ensures
        !(a + b).contains(c),
{
    assert forall|i: int| 0 <= i < (a + b).len() implies (a + b)[i] != c by {
        if i < a.len() {
            assert((a + b)[i] == a[i]);
        } else {
            assert((a + b)[i] == b[i - a.len()]);
        }
    }
}

proof fn lemma_replace_keeps_absent(s: Seq<char>, p: Seq<char>, r: Seq<char>, c: char)
    requires
        !s.contains(c),
        !r.contains(c),
    ensures
        !replace_seq(s, p, r).contains(c),
    decreases s.len(),
{
    if s.len() > 0 {
        assert(!seq![s[0]].contains(c)) by {
            assert(s[0] != c);
        }
        assert(!s.drop_first().contains(c)) by {
            assert forall|i: int| 0 <= i < s.drop_first().len() implies s.drop_first()[i] != c by {
                assert(s.drop_first()[i] == s[i + 1]);
            }
        }
        if p.len() == 0 {
            lemma_replace_keeps_absent(s.drop_first(), p, r, c);
            lemma_concat_lacks(r, seq![s[0]], c);
            lemma_concat_lacks(r + seq![s[0]], replace_seq(s.drop_first(), p, r), c);
        } else if starts_with(s, p) {
            assert(!s.skip(p.len() as int).contains(c)) by {
                assert forall|i: int| 0 <= i < s.skip(p.len() as int).len() implies s.skip(
                    p.len() as int,
                )[i] != c by {
                    assert(s.skip(p.len() as int)[i] == s[i + p.len()]);
                }
            }
            lemma_replace_keeps_absent(s.skip(p.len() as int), p, r, c);
            lemma_concat_lacks(r, replace_seq(s.skip(p.len() as int), p, r), c);
        } else {
            lemma_replace_keeps_absent(s.drop_first(), p, r, c);
            lemma_concat_lacks(seq![s[0]], replace_seq(s.drop_first(), p, r), c);
        }
    } else if p.len() == 0 {
    }
}

proof fn lemma_remove_char(s: Seq<char>, c: char)
    ensures
        !replace_seq(s, seq![c], seq![]).contains(c),
    decreases s.len(),
{
    if s.len() > 0 {
        let p = seq![c];
        assert(s.subrange(0, 1) =~= seq![s[0]]);
        if starts_with(s, p) {
            lemma_remove_char(s.skip(1), c);
            assert(seq![] + replace_seq(s.skip(1), p, seq![]) =~= replace_seq(s.skip(1), p, seq![]));
        } else {
            assert(s[0] != c);
            lemma_remove_char(s.drop_first(), c);
            assert(!seq![s[0]].contains(c));
            lemma_concat_lacks(seq![s[0]], replace_seq(s.drop_first(), p, seq![]), c);
        }
    }
}

proof fn lemma_trim_keeps_absent(s: Seq<char>, c: char)
    requires
        !s.contains(c),
    ensures
        !trim_start_seq(s).contains(c),
        !trim_end_seq(s).contains(c),
    decreases s.len(),
{
    if s.len() > 0 {
        assert forall|i: int| 0 <= i < s.drop_first().len() implies s.drop_first()[i] != c by {
            assert(s.drop_first()[i] == s[i + 1]);
        }
        assert forall|i: int| 0 <= i < s.drop_last().len() implies s.drop_last()[i] != c by {
            assert(s.drop_last()[i] == s[i]);
        }
        lemma_trim_keeps_absent(s.drop_first(), c);
        lemma_trim_keeps_absent(s.drop_last(), c);
    }
}

proof fn lemma_replace_trim_keeps_absent(s: Seq<char>, p: Seq<char>, r: Seq<char>, c: char)
    requires
        !s.contains(c),
        !r.contains(c),
    ensures
        !replace_trim_start(s, p, r).contains(c),
        !replace_trim_end(s, p, r).contains(c),
{
    lemma_replace_keeps_absent(s, p, r, c);
    lemma_trim_keeps_absent(replace_seq(s, p, r), c);
}

/// Cleaned text holds no `§` anchor mark: every one is removed, and no later
/// step brings one back.
pub proof fn lemma_cleared_text_has_no_anchor(content: Seq<char>)
    ensures
        !clear_source_ampers_spec(content).contains('§'),
{
    reveal_strlit("§");
    reveal_strlit("");
    reveal_strlit("__________________________________________\n\n\n\n");
    let c = '§';
    let c1 = replace_trim_start(content, "source§"@, ""@);
    assert("§"@ =~= seq![c]);
    assert(""@ =~= Seq::<char>::empty());
    lemma_remove_char(c1, c);
    let r = replace_seq(c1, "§"@, ""@);
    lemma_trim_keeps_absent(r, c);
    lemma_trim_keeps_absent(trim_start_seq(r), c);
    let c2 = trim_start_seq(replace_trim_start(c1, "§"@, ""@));
    assert(!""@.contains(c));
    assert(!"__________________________________________\n\n\n\n"@.contains(c));
    let c3 = replace_trim_start(c2, "Read more"@, ""@);
    lemma_replace_trim_keeps_absent(c2, "Read more"@, ""@, c);
    let c4 = replace_trim_start(c3, "\n## "@, "__________________________________________\n\n\n\n"@);
    lemma_replace_trim_keeps_absent(
        c3,
        "\n## "@,
        "__________________________________________\n\n\n\n"@,
        c,
    );
    let c5 = replace_trim_start(c4, "const: unstable ·"@, ""@);
    lemma_replace_trim_keeps_absent(c4, "const: unstable ·"@, ""@, c);
    let c6 = replace_trim_start(c5, "[Copy item path]"@, ""@);
    lemma_replace_trim_keeps_absent(c5, "[Copy item path]"@, ""@, c);
    let c7 = replace_trim_start(c6, "[−][src]"@, ""@);
    lemma_replace_trim_keeps_absent(c6, "[−][src]"@, ""@, c);
    let c8 = replace_trim_start(c7, "source\n"@, ""@);
    lemma_replace_trim_keeps_absent(c7, "source\n"@, ""@, c);
    let c9 = replace_trim_start(c8, "source · [−]"@, ""@);
    lemma_replace_trim_keeps_absent(c8, "source · [−]"@, ""@, c);
    let c10 = replace_trim_end(c9, "source ·"@, ""@);
    lemma_replace_trim_keeps_absent(c9, "source ·"@, ""@, c);
    lemma_replace_trim_keeps_absent(c10, "Expand description"@, ""@, c);
}

/// `p` holds no line feed.
pub open spec fn feed_free(p: Seq<char>) -> bool {
    forall|i: int| 0 <= i < p.len() ==> p[i] != '\n'
}

proof fn lemma_shortened_run_feeds(n: nat)
    requires
        n >= 1,
    ensures
        shortened_run(n, 3, 4, 2).len() > 0,
        forall|i: int|
            0 <= i < shortened_run(n, 3, 4, 2).len() ==> #[trigger] shortened_run(n, 3, 4, 2)[i]
                == '\n',
    decreases n,
{
    if n >= 4 {
        let head = shorten_run_spec(line_feeds(4), 2);
        assert(line_feeds(4) == line_feeds(line_feeds(4).len()));
        assert(head == line_feeds(2));
        let rest = shortened_run((n - 4) as nat, 3, 4, 2);
        if n - 4 >= 1 {
            lemma_shortened_run_feeds((n - 4) as nat);
        } else {
            assert(rest =~= line_feeds(0));
        }
        assert forall|i: int| 0 <= i < (head + rest).len() implies #[trigger] (head + rest)[i]
            == '\n' by {
            if i >= head.len() {
                assert((head + rest)[i] == rest[i - head.len()]);
            }
        }
    } else if n >= 3 {
        assert(line_feeds(3) == line_feeds(line_feeds(3).len()));
    }
}

proof fn lemma_occurs_in_tail(a: Seq<char>, b: Seq<char>, p: Seq<char>, j: int)
    requires
        occurs_at(a + b, p, j),
        j >= a.len(),
    ensures
        occurs_at(b, p, j - a.len()),
{
    assert((a + b).subrange(j, j + p.len()) =~= b.subrange(j - a.len(), j - a.len() + p.len()));
}

proof fn lemma_collapse_start(t: Seq<char>, q: Seq<char>)
    requires
        feed_free(q),
        starts_with(shorten_feed_runs(t, 3, 4, 2), q),
    ensures
        starts_with(t, q),
    decreases t.len(),
{
    let out = shorten_feed_runs(t, 3, 4, 2);
    if q.len() == 0 {
        assert(t.subrange(0, 0) =~= q);
    } else if t.len() == 0 {
    } else if t[0] == '\n' {
        lemma_leading_feeds_bound(t);
        let r = shortened_run(leading_feeds(t), 3, 4, 2);
        lemma_shortened_run_feeds(leading_feeds(t));
        let x = shorten_feed_runs(t.skip(leading_feeds(t) as int), 3, 4, 2);
        assert(out == r + x);
        assert(out.subrange(0, q.len() as int)[0] == q[0]);
        assert(out[0] == r[0]);
        assert(false);
    } else {
        let x = shorten_feed_runs(t.drop_first(), 3, 4, 2);
        assert(out == seq![t[0]] + x);
        assert(out.subrange(0, q.len() as int)[0] == q[0]);
        assert(x.subrange(0, q.len() - 1) =~= q.drop_first()) by {
            assert forall|i: int| 0 <= i < q.len() - 1 implies x.subrange(0, q.len() - 1)[i]
                == q.drop_first()[i] by {
                assert(out.subrange(0, q.len() as int)[i + 1] == q[i + 1]);
                assert(out[i + 1] == x[i]);
            }
        }
        lemma_collapse_start(t.drop_first(), q.drop_first());
        assert(t.subrange(0, q.len() as int) =~= q) by {
            assert forall|i: int| 0 <= i < q.len() implies t.subrange(0, q.len() as int)[i]
                == q[i] by {
                if i > 0 {
                    assert(t.drop_first().subrange(0, q.len() - 1)[i - 1] == q.drop_first()[i - 1]);
                } else {
                    assert(out[0] == t[0]);
                }
            }
        }
    }
}

/// Collapsing runs of blank lines brings no text without line feeds into
/// being: what did not occur before does not occur after.
pub proof fn lemma_collapse_keeps_absent(s: Seq<char>, p: Seq<char>)
    requires
        p.len() > 0,
        feed_free(p),
        absent(s, p),
    ensures
        absent(collapse_runs_spec(s), p),
    decreases s.len(),
{
    let out = shorten_feed_runs(s, 3, 4, 2);
    assert forall|j: int| !#[trigger] occurs_at(out, p, j) by {
        if occurs_at(out, p, j) {
            if s.len() == 0 {
            } else if s[0] == '\n' {
                lemma_leading_feeds_bound(s);
                let n = leading_feeds(s);
                let r = shortened_run(n, 3, 4, 2);
                lemma_shortened_run_feeds(n);
                let x = shorten_feed_runs(s.skip(n as int), 3, 4, 2);
                assert(out == r + x);
                lemma_absent_suffix(s, p, n as int);
                lemma_collapse_keeps_absent(s.skip(n as int), p);
                if j < r.len() {
                    assert(out.subrange(j, j + p.len())[0] == p[0]);
                    assert(out[j] == r[j]);
                } else {
                    lemma_occurs_in_tail(r, x, p, j);
                }
            } else {
                let x = shorten_feed_runs(s.drop_first(), 3, 4, 2);
                assert(out == seq![s[0]] + x);
                lemma_absent_suffix(s, p, 1);
                assert(s.skip(1) =~= s.drop_first());
                lemma_collapse_keeps_absent(s.drop_first(), p);
                if j >= 1 {
                    lemma_occurs_in_tail(seq![s[0]], x, p, j);
                } else {
                    let q = p.drop_first();
                    assert(x.subrange(0, q.len() as int) =~= q) by {
                        assert forall|i: int| 0 <= i < q.len() implies x.subrange(
                            0,
                            q.len() as int,
                        )[i] == q[i] by {
                            assert(out.subrange(0, p.len() as int)[i + 1] == p[i + 1]);
                            assert(out[i + 1] == x[i]);
                        }
                    }
                    lemma_collapse_start(s.drop_first(), q);
                    assert(s.subrange(0, p.len() as int) =~= p) by {
                        assert forall|i: int| 0 <= i < p.len() implies s.subrange(
                            0,
                            p.len() as int,
                        )[i] == p[i] by {
                            if i > 0 {
                                assert(s.drop_first().subrange(0, q.len() as int)[i - 1] == q[i
                                    - 1]);
                            } else {
                                assert(out.subrange(0, p.len() as int)[0] == p[0]);
                            }
                        }
                    }
                    assert(occurs_at(s, p, 0));
                }
            }
        }
    }
}

proof fn lemma_section_step(c1: Seq<char>, w: Seq<char>, r: Seq<char>)
    requires
        w.len() > 0,
        absent(c1, w),
    ensures
        replace_trim_end(c1, w, r) == trim_end_seq(c1),
        replace_trim_end(trim_end_seq(c1), w, r) == trim_end_seq(c1),
{
    lemma_replace_absent(c1, w, r);
    lemma_trim_end_prefix_of(c1);
    lemma_absent_prefix(c1, w, trim_end_seq(c1).len() as int);
    lemma_replace_absent(trim_end_seq(c1), w, r);
    lemma_trim_end_twice(c1);
}

proof fn lemma_section_name_kept_out(content: Seq<char>, w: Seq<char>)
    requires
        w.len() > 0,
        feed_free(w),
        !contains_seq(content, w),
    ensures
        absent(collapse_runs_spec(content), w),
{
    lemma_absent_iff(content, w);
    lemma_collapse_keeps_absent(content, w);
}

/// On a struct or enum page whose text names none of its sections
/// (`FIELDS`, `REQUIRED METHODS`, `PROVIDED METHODS`, `ON FOREIGN TYPES`,
/// `IMPLEMENTORS`, `IMPLEMENTATIONS`), `fix_struct_newlines` does what
/// `fix_type_newlines` does, with trailing whitespace trimmed.
pub proof fn lemma_struct_newlines_without_sections(content: Seq<char>)
    requires
        !contains_seq(content, "FIELDS"@),
        !contains_seq(content, "REQUIRED METHODS"@),
        !contains_seq(content, "PROVIDED METHODS"@),
        !contains_seq(content, "ON FOREIGN TYPES"@),
        !contains_seq(content, "IMPLEMENTORS"@),
        !contains_seq(content, "IMPLEMENTATIONS"@),
    ensures
        fix_struct_newlines_spec(content) == trim_end_seq(collapse_runs_spec(content)),
{
    reveal_strlit("FIELDS");
    reveal_strlit("REQUIRED METHODS");
    reveal_strlit("PROVIDED METHODS");
    reveal_strlit("ON FOREIGN TYPES");
    reveal_strlit("IMPLEMENTORS");
    reveal_strlit("IMPLEMENTATIONS");
    let c1 = collapse_runs_spec(content);
    lemma_section_name_kept_out(content, "FIELDS"@);
    lemma_section_name_kept_out(content, "REQUIRED METHODS"@);
    lemma_section_name_kept_out(content, "PROVIDED METHODS"@);
    lemma_section_name_kept_out(content, "ON FOREIGN TYPES"@);
    lemma_section_name_kept_out(content, "IMPLEMENTORS"@);
    lemma_section_name_kept_out(content, "IMPLEMENTATIONS"@);
    lemma_section_step(c1, "FIELDS"@, "\n\nFIELDS"@);
    lemma_section_step(c1, "REQUIRED METHODS"@, "\n\nREQUIRED METHODS"@);
    lemma_section_step(c1, "PROVIDED METHODS"@, "\n\nPROVIDED METHODS"@);
    lemma_section_step(c1, "ON FOREIGN TYPES"@, "\n\nON FOREIGN TYPES"@);
    lemma_section_step(c1, "IMPLEMENTORS"@, "\n\n\nLOCAL IMPLEMENTORS"@);
    lemma_section_step(c1, "IMPLEMENTATIONS"@, "\n\nIMPLEMENTATIONS"@);
}

/// Where a struct or enum page has trait names, its text ends with a rule,
/// `TRAITS:` and the names five to a line, whatever its header and its own
/// implementations: the text is what it would be without traits, followed by
/// that section.
pub proof fn lemma_traits_section_follows(
    header: Seq<char>,
    implementations: Seq<char>,
    traits: Seq<Seq<char>>,
)
    requires
        traits.len() > 0,
    ensures
        struct_enum_text(header, implementations, traits) == struct_enum_text(
            header,
            implementations,
            seq![],
        ) + "__________\n\n"@ + "TRAITS:\n"@ + terminated_lines(chunk_rows(traits, 5, ", "@)),
        chunk_rows(traits, 5, ", "@).len() > 0,
        chunk_rows(traits, 5, ", "@)[0] == join_seq(
            if traits.len() <= 5 {
                traits
            } else {
                traits.take(5)
            },
            ", "@,
        ),
{
    let a = terminated_lines(lines_seq(header));
    let b = if implementations.len() == 0 {
        seq![]
    } else {
        section_rule() + "IMPLEMENTATIONS:\n"@ + terminated_lines(lines_seq(implementations))
    };
    assert(struct_enum_text(header, implementations, seq![]) =~= a + b);
    assert(struct_enum_text(header, implementations, traits) =~= a + b + ("__________\n\n"@
        + "TRAITS:\n"@ + terminated_lines(chunk_rows(traits, 5, ", "@))));
    assert(a + b + ("__________\n\n"@ + "TRAITS:\n"@ + terminated_lines(
        chunk_rows(traits, 5, ", "@),
    )) =~= a + b + "__________\n\n"@ + "TRAITS:\n"@ + terminated_lines(
        chunk_rows(traits, 5, ", "@),
    ));
}

/// The text from its first non-whitespace character on, with every
/// occurrence of `Read more` removed (as `str::replace` removes them).
pub open spec fn without_read_more(content: Seq<char>) -> Seq<char> {
    replace_seq(trim_start_seq(content), "Read more"@, ""@)
}

proof fn lemma_start_step(v: Seq<char>, u: Seq<char>, m: Seq<char>, r: Seq<char>)
    requires
        m.len() > 0,
        !contains_seq(u, m),
        v == trim_start_seq(u),
    ensures
        replace_trim_start(v, m, r) == v,
{
    lemma_absent_iff(u, m);
    lemma_trim_start_suffix_of(u);
    lemma_absent_suffix(u, m, u.len() - v.len());
    lemma_replace_absent(v, m, r);
    lemma_trim_start_twice(u);
}

/// Cleaning removes every `Read more`: on a text without `§` marks, and
/// where removing every `Read more` leaves none of the other marks that
/// cleaning removes or rewrites, the result is that removal, trimmed.
pub proof fn lemma_read_more_removed(content: Seq<char>)
    requires
        !contains_seq(content, "source§"@),
        !contains_seq(content, "§"@),
        !contains_seq(without_read_more(content), "\n## "@),
        !contains_seq(without_read_more(content), "const: unstable ·"@),
        !contains_seq(without_read_more(content), "[Copy item path]"@),
        !contains_seq(without_read_more(content), "[−][src]"@),
        !contains_seq(without_read_more(content), "source\n"@),
        !contains_seq(without_read_more(content), "source · [−]"@),
        !contains_seq(without_read_more(content), "source ·"@),
        !contains_seq(without_read_more(content), "Expand description"@),
    ensures
        clear_source_ampers_spec(content) == crate::text::trim_seq(without_read_more(content)),
{
    reveal_strlit("source§");
    reveal_strlit("§");
    reveal_strlit("\n## ");
    reveal_strlit("const: unstable ·");
    reveal_strlit("[Copy item path]");
    reveal_strlit("[−][src]");
    reveal_strlit("source\n");
    reveal_strlit("source · [−]");
    reveal_strlit("source ·");
    reveal_strlit("Expand description");
    let t = trim_start_seq(content);
    lemma_absent_iff(content, "source§"@);
    lemma_replace_absent(content, "source§"@, ""@);
    assert(replace_trim_start(content, "source§"@, ""@) == t);
    lemma_absent_iff(content, "§"@);
    lemma_trim_start_suffix_of(content);
    lemma_absent_suffix(content, "§"@, content.len() - t.len());
    lemma_replace_absent(t, "§"@, ""@);
    lemma_trim_start_twice(content);
    assert(trim_start_seq(replace_trim_start(t, "§"@, ""@)) == t);
    let u = without_read_more(content);
    let v = trim_start_seq(u);
    assert(replace_trim_start(t, "Read more"@, ""@) == v);
    lemma_start_step(v, u, "\n## "@, "__________________________________________\n\n\n\n"@);
    lemma_start_step(v, u, "const: unstable ·"@, ""@);
    lemma_start_step(v, u, "[Copy item path]"@, ""@);
    lemma_start_step(v, u, "[−][src]"@, ""@);
    lemma_start_step(v, u, "source\n"@, ""@);
    lemma_start_step(v, u, "source · [−]"@, ""@);
    lemma_absent_iff(u, "source ·"@);
    lemma_trim_start_suffix_of(u);
    lemma_absent_suffix(u, "source ·"@, u.len() - v.len());
    lemma_replace_absent(v, "source ·"@, ""@);
    let w = trim_end_seq(v);
    lemma_absent_iff(u, "Expand description"@);
    lemma_absent_suffix(u, "Expand description"@, u.len() - v.len());
    lemma_trim_end_prefix_of(v);
    lemma_absent_prefix(v, "Expand description"@, w.len() as int);
    lemma_replace_absent(w, "Expand description"@, ""@);
    lemma_trim_end_twice(v);
}

/// The text of a struct or enum page starts with each line of its header
/// followed by a line feed; an implementations section follows exactly when
/// it has implementations; without traits nothing else follows.
pub proof fn lemma_struct_enum_text_parts(header: Seq<char>, implementations: Seq<char>)
    ensures
        implementations.len() == 0 ==> struct_enum_text(header, implementations, seq![])
            == terminated_lines(lines_seq(header)),
        implementations.len() > 0 ==> struct_enum_text(header, implementations, seq![])
            == terminated_lines(lines_seq(header)) + "__________\n\n"@ + "IMPLEMENTATIONS:\n"@
            + terminated_lines(lines_seq(implementations)),
{
    let a = terminated_lines(lines_seq(header));
    if implementations.len() == 0 {
        assert(struct_enum_text(header, implementations, seq![]) =~= a);
    } else {
        assert(struct_enum_text(header, implementations, seq![]) =~= a + "__________\n\n"@
            + "IMPLEMENTATIONS:\n"@ + terminated_lines(lines_seq(implementations)));
    }
}

/// The trait rows hold the names five to a row, in order: there are as many
/// rows as it takes, and row `k` joins names `5k` to `5k + 4` (fewer in the
/// last row) with `sep`.
pub proof fn lemma_chunk_rows_by_five(traits: Seq<Seq<char>>, sep: Seq<char>)
    ensures
        chunk_rows(traits, 5, sep).len() == (traits.len() + 4) / 5,
        forall|k: int|
            0 <= k < chunk_rows(traits, 5, sep).len() ==> #[trigger] chunk_rows(traits, 5, sep)[k]
                == join_seq(
                traits.subrange(
                    5 * k,
                    if 5 * k + 5 <= traits.len() {
                        5 * k + 5
                    } else {
                        traits.len() as int
                    },
                ),
                sep,
            ),
    decreases traits.len(),
{
    let rows = chunk_rows(traits, 5, sep);
    if traits.len() == 0 {
    } else if traits.len() <= 5 {
        assert(traits.subrange(0, traits.len() as int) =~= traits);
    } else {
        let rest = traits.skip(5);
        lemma_chunk_rows_by_five(rest, sep);
        let tail = chunk_rows(rest, 5, sep);
        assert(rows == seq![join_seq(traits.take(5), sep)] + tail);
        assert forall|k: int| 0 <= k < rows.len() implies #[trigger] rows[k] == join_seq(
            traits.subrange(
                5 * k,
                if 5 * k + 5 <= traits.len() {
                    5 * k + 5
                } else {
                    traits.len() as int
                },
            ),
            sep,
        ) by {
            if k == 0 {
                assert(traits.subrange(0, 5) =~= traits.take(5));
            } else {
                assert(rows[k] == tail[k - 1]);
                let e = if 5 * (k - 1) + 5 <= rest.len() {
                    5 * (k - 1) + 5
                } else {
                    rest.len() as int
                };
                assert(rest.subrange(5 * (k - 1), e) =~= traits.subrange(5 * k, e + 5));
            }
        }
    }
}

/// Each word is non-empty and holds no whitespace.
pub open spec fn clean_words(ws: Seq<Seq<char>>) -> bool {
    forall|k: int|
        0 <= k < ws.len() ==> #[trigger] ws[k].len() > 0 && forall|j: int|
            0 <= j < ws[k].len() ==> !is_ws(#[trigger] ws[k][j])
}

proof fn lemma_words_acc_clean(s: Seq<char>, cur: Seq<char>)
    requires
        forall|j: int| 0 <= j < cur.len() ==> !is_ws(#[trigger] cur[j]),
    ensures
        clean_words(words_acc(s, cur)),
    decreases s.len(),
{
    if s.len() == 0 {
    } else if is_ws(s[0]) {
        lemma_words_acc_clean(s.drop_first(), seq![]);
        if cur.len() > 0 {
            let rest = words_acc(s.drop_first(), seq![]);
            assert forall|k: int| 0 <= k < (seq![cur] + rest).len() implies #[trigger] (seq![cur]
                + rest)[k].len() > 0 && forall|j: int|
                0 <= j < (seq![cur] + rest)[k].len() ==> !is_ws(#[trigger] (seq![cur] + rest)[k][j]) by {
                if k > 0 {
                    assert((seq![cur] + rest)[k] == rest[k - 1]);
                }
            }
        }
    } else {
        assert forall|j: int| 0 <= j < cur.push(s[0]).len() implies !is_ws(
            #[trigger] cur.push(s[0])[j],
        ) by {
            if j < cur.len() {
                assert(cur.push(s[0])[j] == cur[j]);
            }
        }
        lemma_words_acc_clean(s.drop_first(), cur.push(s[0]));
    }
}

proof fn lemma_join_ends(parts: Seq<Seq<char>>, sep: Seq<char>)
    requires
        parts.len() > 0,
        forall|k: int| 0 <= k < parts.len() ==> #[trigger] parts[k].len() > 0,
    ensures
        join_seq(parts, sep).len() > 0,
        join_seq(parts, sep)[0] == parts[0][0],
        join_seq(parts, sep).last() == parts.last().last(),
    decreases parts.len(),
{
    if parts.len() > 1 {
        let prev = parts.drop_last();
        assert(prev[0] == parts[0]);
        assert forall|k: int| 0 <= k < prev.len() implies #[trigger] prev[k].len() > 0 by {
            assert(prev[k] == parts[k]);
        }
        lemma_join_ends(prev, sep);
        let j = join_seq(prev, sep) + sep + parts.last();
        assert(j[0] == join_seq(prev, sep)[0]);
        assert(parts.last().len() > 0) by {
            assert(parts[parts.len() - 1].len() > 0);
        }
        assert(j.last() == parts.last().last());
    }
}

/// A trait name is not empty and neither starts nor ends with whitespace.
pub open spec fn is_clean_name(n: Seq<char>) -> bool {
    n.len() > 0 && !is_ws(n[0]) && !is_ws(n.last())
}

proof fn lemma_trait_name_clean(signature: Seq<char>)
    ensures
        trait_name_of(signature) matches Some(n) ==> is_clean_name(n),
{
    let head = match find_seq(signature, "for"@) {
        Some(i) => signature.take(i),
        None => signature,
    };
    let ws = words_seq(head);
    lemma_words_acc_clean(head, seq![]);
    if ws.len() > 0 {
        lemma_join_ends(ws, " "@);
        assert(ws[0].len() > 0);
        assert(!is_ws(ws[0][0]));
        assert(ws.last() == ws[ws.len() - 1]);
        assert(ws.last().len() > 0);
        assert(!is_ws(ws.last()[ws.last().len() - 1]));
    }
}

proof fn lemma_names_of_clean(headings: Seq<Seq<char>>)
    ensures
        forall|k: int| 0 <= k < names_of(headings).len() ==> is_clean_name(#[trigger] names_of(headings)[k]),
    decreases headings.len(),
{
    if headings.len() > 0 {
        let prev = names_of(headings.drop_last());
        lemma_names_of_clean(headings.drop_last());
        lemma_trait_name_clean(decoded_entities(headings.last()));
        match trait_name_of(decoded_entities(headings.last())) {
            Some(n) => {
                assert forall|k: int| 0 <= k < prev.push(n).len() implies is_clean_name(
                    #[trigger] prev.push(n)[k],
                ) by {
                    if k < prev.len() {
                        assert(prev.push(n)[k] == prev[k]);
                    }
                }
            },
            None => {},
        }
    }
}

/// Every trait name read from a page is non-empty and neither starts nor
/// ends with whitespace.
pub proof fn lemma_trait_names_clean(html: Seq<char>)
    ensures
        forall|k: int| 0 <= k < trait_names(html).len() ==> is_clean_name(#[trigger] trait_names(html)[k]),
{
    let s1 = "div#trait-implementations-list section.impl h3"@;
    let s2 = "div#synthetic-implementations-list section.impl h3"@;
    let s3 = "div#blanket-implementations-list section.impl h3"@;
    let a = names_for(html, s1);
    let b = names_for(html, s2);
    let c = names_for(html, s3);
    match selected_inner_html(html, s1) {
        Some(h) => lemma_names_of_clean(h),
        None => {},
    }
    match selected_inner_html(html, s2) {
        Some(h) => lemma_names_of_clean(h),
        None => {},
    }
    match selected_inner_html(html, s3) {
        Some(h) => lemma_names_of_clean(h),
        None => {},
    }
    assert forall|k: int| 0 <= k < (a + b + c).len() implies is_clean_name(#[trigger] (a + b + c)[k]) by {
        if k < a.len() {
            assert((a + b + c)[k] == a[k]);
        } else if k < a.len() + b.len() {
            assert((a + b + c)[k] == b[k - a.len()]);
        } else {
            assert((a + b + c)[k] == c[k - a.len() - b.len()]);
        }
    }
}

} // verus!
