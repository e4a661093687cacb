//! A richer reading of an enum page (its name, description, variants and
//! implementation listings), with text rendered through august.
use vstd::prelude::*;
use crate::text::{
    from_chars, join_chars, join_seq, replace_lit, replace_seq, split_chars, split_seq,
    string_views, to_chars, trim_chars, trim_each, trim_each_chars, trim_end_chars, trim_seq,
    trim_start_chars, views,
};
use crate::markup::{august_can_render, august_fits};
use crate::engines::{
    august_rendering, shorten_feed_runs, fits_parser, is_plain_literal,
    opt_view, regex_shorten_runs, render_august, select_inner_html, selected_inner_html,
};
use crate::scrape::{
    regex_remove_literal, replace_trim_end, replace_trim_start, trait_names, TraitName,
};

verus! {

/// The name of an item.
pub type Name = String;

/// The description of an item.
pub type Description = String;

/// The signature of a method.
pub type Signature = String;

/// An implementation block: its name and its methods (signature,
/// description).
pub struct ImplInstance {
    pub name: Name,
    pub impl_methods: Vec<(Signature, Description)>,
}

/// The inner HTML of the elements that `selector` selects, or none where
/// the selector does not parse.
pub open spec fn inner_or_none(html: Seq<char>, selector: Seq<char>) -> Seq<Seq<char>> {
    match selected_inner_html(html, selector) {
        Some(v) => v,
        None => seq![],
    }
}

/// The first element's inner HTML that `selector` selects.
pub open spec fn first_inner(html: Seq<char>, selector: Seq<char>) -> Option<Seq<char>> {
    let v = inner_or_none(html, selector);
    if v.len() > 0 {
        Some(v[0])
    } else {
        None
    }
}

fn inner_html_list(html: &str, selector: &str) -> (res: Vec<String>)
    requires
        fits_parser(html@),
    ensures
        string_views(res@) == inner_or_none(html@, selector@),
{
    match select_inner_html(html, selector) {
        Some(v) => v,
        None => {
            let v: Vec<String> = Vec::new();
            assert(string_views(v@) =~= seq![]);
            v
        },
    }
}

/// The text of a description block: paragraph tags dropped, each paragraph
/// end made a line break, every line trimmed, the whole trimmed.
pub open spec fn description_text(html: Seq<char>) -> Seq<char> {
    let lines = split_seq(replace_seq(replace_seq(html, "<p>"@, ""@), "</p>"@, "\n"@), '\n');
    trim_seq(join_seq(trim_each(lines), "\n"@))
}

/// The text of a description block.
pub fn description_of(html: &str) -> (res: String)
    ensures
        res@ == description_text(html@),
{
    let v = replace_lit(&replace_lit(&to_chars(html), "<p>", ""), "</p>", "\n");
    let lines = trim_each_chars(&split_chars(&v, '\n'));
    let joined = join_chars(&lines, 0, lines.len(), &to_chars("\n"));
    assert(views(lines@).subrange(0, lines.len() as int) =~= views(lines@));
    from_chars(&trim_chars(&joined))
}

/// A variant heading without `§` marks, trimmed.
pub open spec fn stripped_name(html: Seq<char>) -> Seq<char> {
    trim_seq(replace_seq(html, "§"@, ""@))
}

/// The name of a variant heading: without `§` marks, trimmed, rendered.
pub open spec fn variant_name(html: Seq<char>) -> Seq<char> {
    august_rendering(stripped_name(html), 80)
}

/// The number of variants of an enum page: as many as both the
/// `section.variant` and the `div.docblock` lists have.
pub open spec fn variant_count(html: Seq<char>) -> int {
    let names = inner_or_none(html, "section.variant"@);
    let descs = inner_or_none(html, "div.docblock"@);
    if names.len() <= descs.len() {
        names.len() as int
    } else {
        descs.len() as int
    }
}

/// august can render each variant name.
pub open spec fn variant_names_fit(html: Seq<char>) -> bool {
    forall|k: int|
        0 <= k < variant_count(html) ==> august_fits(
            stripped_name(#[trigger] inner_or_none(html, "section.variant"@)[k]),
            80,
        )
}

/// august can render each implementation block.
pub open spec fn listings_fit(html: Seq<char>) -> bool {
    forall|k: int|
        0 <= k < inner_or_none(html, "div#implementations-list"@).len() ==> august_fits(
            #[trigger] inner_or_none(html, "div#implementations-list"@)[k],
            80,
        )
}

/// The variants of an enum page: the `k`-th `section.variant` paired with the
/// `k`-th `div.docblock`, as long as both lists last.
pub open spec fn variants_of(html: Seq<char>) -> Seq<(Seq<char>, Seq<char>)> {
    let names = inner_or_none(html, "section.variant"@);
    let descs = inner_or_none(html, "div.docblock"@);
    let n = if names.len() <= descs.len() {
        names.len()
    } else {
        descs.len()
    };
    Seq::new(n, |k: int| (variant_name(names[k]), description_text(descs[k])))
}

/// The plain values of a list of pairs of strings.
pub open spec fn pair_views(v: Seq<(String, String)>) -> Seq<(Seq<char>, Seq<char>)> {
    v.map_values(|p: (String, String)| (p.0@, p.1@))
}

/// The listings of a page's implementation blocks, rendered.
pub open spec fn impl_listing(html: Seq<char>) -> Seq<Seq<char>> {
    inner_or_none(html, "div#implementations-list"@).map_values(
        |h: Seq<char>| august_rendering(h, 80),
    )
}

/// Parses an enum page: its name, description, variants and the trait
/// names of its implementations.
pub struct Parser {
    state: String,
    enum_name: Option<Name>,
    enum_description: Option<Description>,
    enum_variants: Vec<(Name, Description)>,
    impl_instances: Vec<ImplInstance>,
    pub traits: Vec<TraitName>,
}

impl Parser {
    /// The HTML of the page this parser reads.
    pub closed spec fn source(&self) -> Seq<char> {
        self.state@
    }

    /// The enum name found.
    pub closed spec fn name_view(&self) -> Option<Seq<char>> {
        opt_view(self.enum_name)
    }

    /// The enum description found.
    pub closed spec fn description_view(&self) -> Option<Seq<char>> {
        opt_view(self.enum_description)
    }

    /// The variants found (name, description).
    pub closed spec fn variants_view(&self) -> Seq<(Seq<char>, Seq<char>)> {
        pair_views(self.enum_variants@)
    }

    /// The implementation blocks recorded.
    pub closed spec fn impl_list(&self) -> Seq<ImplInstance> {
        self.impl_instances@
    }

    /// The trait names found so far.
    pub closed spec fn trait_list(&self) -> Seq<Seq<char>> {
        string_views(self.traits@)
    }

    /// The public field `traits`, whose names are `trait_list`.
    pub fn traits_found(&self) -> (res: &Vec<TraitName>)
        ensures
            string_views(res@) == self.trait_list(),
    {
        &self.traits
    }

    /// A parser of the page `html`, with nothing found yet.
    pub fn new(html: &str) -> (res: Self)
        ensures
            res.source() == html@,
            res.name_view() is None,
            res.description_view() is None,
            res.variants_view() == Seq::<(Seq<char>, Seq<char>)>::empty(),
            res.impl_list() == Seq::<ImplInstance>::empty(),
            res.trait_list() == Seq::<Seq<char>>::empty(),
    {
        let res = Parser {
            state: html.to_owned(),
            enum_name: None,
            enum_description: None,
            enum_variants: Vec::new(),
            impl_instances: Vec::new(),
            traits: Vec::new(),
        };
        assert(pair_views(res.enum_variants@) =~= Seq::<(Seq<char>, Seq<char>)>::empty());
        assert(string_views(res.traits@) =~= Seq::<Seq<char>>::empty());
        res
    }

    /// Reads the enum name (the first `a.enum`) and, where the page has a
    /// `div.docblock`, the description (the first of them).
    pub fn parse_enum_info(&mut self)
        requires
            fits_parser(old(self).source()),
        ensures
            final(self).source() == old(self).source(),
            final(self).name_view() == first_inner(old(self).source(), "a.enum"@),
            final(self).description_view() == match first_inner(
                old(self).source(),
                "div.docblock"@,
            ) {
                Some(d) => Some(description_text(d)),
                None => old(self).description_view(),
            },
            final(self).variants_view() == old(self).variants_view(),
            final(self).impl_list() == old(self).impl_list(),
            final(self).trait_list() == old(self).trait_list(),
    {
        let names = inner_html_list(self.state.as_str(), "a.enum");
        self.enum_name = if names.len() > 0 {
            Some(names[0].clone())
        } else {
            None
        };
        let descs = inner_html_list(self.state.as_str(), "div.docblock");
        if descs.len() > 0 {
            self.enum_description = Some(description_of(descs[0].as_str()));
        }
    }

    /// Appends the variants of the page: each `section.variant` heading with
    /// the `div.docblock` at the same position, as long as both last.
    pub fn parse_enum_variants(&mut self)
        requires
            fits_parser(old(self).source()),
            variant_names_fit(old(self).source()),
        ensures
            final(self).source() == old(self).source(),
            final(self).name_view() == old(self).name_view(),
            final(self).description_view() == old(self).description_view(),
            final(self).variants_view() == old(self).variants_view() + variants_of(
                old(self).source(),
            ),
            final(self).impl_list() == old(self).impl_list(),
            final(self).trait_list() == old(self).trait_list(),
    {
        let names = inner_html_list(self.state.as_str(), "section.variant");
        let descs = inner_html_list(self.state.as_str(), "div.docblock");
        let ghost start = pair_views(self.enum_variants@);
        let ghost all = variants_of(self.state@);
        let mut k: usize = 0;
        assert(start + all.take(0) =~= start);
        while k < names.len() && k < descs.len()
            invariant
                string_views(names@) == inner_or_none(self.state@, "section.variant"@),
                variant_names_fit(self.state@),
                string_views(descs@) == inner_or_none(self.state@, "div.docblock"@),
                all == variants_of(self.state@),
                self.state@ == old(self).state@,
                k <= names.len(),
                k <= descs.len(),
                pair_views(self.enum_variants@) == start + all.take(k as int),
                opt_view(self.enum_name) == opt_view(old(self).enum_name),
                opt_view(self.enum_description) == opt_view(old(self).enum_description),
                self.impl_instances@ == old(self).impl_instances@,
                string_views(self.traits@) == string_views(old(self).traits@),
            decreases names.len() - k,
        {
            let ghost before = pair_views(self.enum_variants@);
            let stripped = trim_chars(&replace_lit(&to_chars(names[k].as_str()), "§", ""));
            assert(string_views(names@)[k as int] == names@[k as int]@);
            assert(august_fits(stripped_name(inner_or_none(self.state@, "section.variant"@)[k as int]), 80));
            let name = render_august(from_chars(&stripped).as_str(), 80);
            let desc = description_of(descs[k].as_str());
            self.enum_variants.push((name, desc));
            assert(pair_views(self.enum_variants@) =~= before.push((name@, desc@)));
            assert(string_views(names@)[k as int] == names@[k as int]@);
            assert(string_views(descs@)[k as int] == descs@[k as int]@);
            assert(all.take(k + 1) =~= all.take(k as int).push(all[k as int]));
            k = k + 1;
        }
        assert(all.take(k as int) =~= all);
    }

    /// Whether august can render every variant name of the page.
    pub fn variant_names_fit_in(&self) -> (res: bool)
        requires
            fits_parser(self.source()),
        ensures
            res == variant_names_fit(self.source()),
    {
        let names = inner_html_list(self.state.as_str(), "section.variant");
        let descs = inner_html_list(self.state.as_str(), "div.docblock");
        let n = if names.len() <= descs.len() {
            names.len()
        } else {
            descs.len()
        };
        let ghost hs = inner_or_none(self.state@, "section.variant"@);
        let mut k: usize = 0;
        while k < n
            invariant
                k <= n,
                n == variant_count(self.state@),
                n <= names.len(),
                string_views(names@) == hs,
                hs == inner_or_none(self.state@, "section.variant"@),
                forall|j: int| 0 <= j < k ==> august_fits(stripped_name(#[trigger] hs[j]), 80),
            decreases n - k,
        {
            let stripped = trim_chars(&replace_lit(&to_chars(names[k].as_str()), "§", ""));
            assert(string_views(names@)[k as int] == names@[k as int]@);
            if !august_can_render(from_chars(&stripped).as_str(), 80) {
                assert(!august_fits(stripped_name(hs[k as int]), 80));
                return false;
            }
            k = k + 1;
        }
        true
    }

    /// Appends the variants of the page where august can render every
    /// variant name (true), and otherwise leaves the parser as it is (false).
    pub fn try_parse_enum_variants(&mut self) -> (res: bool)
        requires
            fits_parser(old(self).source()),
        ensures
            res == variant_names_fit(old(self).source()),
            res ==> final(self).source() == old(self).source() && final(self).name_view() == old(
                self,
            ).name_view() && final(self).description_view() == old(self).description_view()
                && final(self).variants_view() == old(self).variants_view() + variants_of(
                old(self).source(),
            ) && final(self).impl_list() == old(self).impl_list() && final(self).trait_list()
                == old(self).trait_list(),
            !res ==> *final(self) == *old(self),
    {
        if self.variant_names_fit_in() {
            self.parse_enum_variants();
            true
        } else {
            false
        }
    }

    /// The listings of the page's implementation blocks, rendered as text.
    pub fn parse_impl_instances(&self) -> (res: Vec<String>)
        requires
            fits_parser(self.source()),
            listings_fit(self.source()),
        ensures
            string_views(res@) == impl_listing(self.source()),
    {
        let blocks = inner_html_list(self.state.as_str(), "div#implementations-list");
        let mut out: Vec<String> = Vec::new();
        let mut i: usize = 0;
        while i < blocks.len()
            invariant
                i <= blocks.len(),
                string_views(blocks@) == inner_or_none(self.state@, "div#implementations-list"@),
                listings_fit(self.state@),
                string_views(out@) == impl_listing(self.state@).take(i as int),
            decreases blocks.len() - i,
        {
            let ghost before = string_views(out@);
            assert(string_views(blocks@)[i as int] == blocks@[i as int]@);
            let t = render_august(blocks[i].as_str(), 80);
            out.push(t);
            assert(string_views(out@) =~= before.push(t@));
            assert(string_views(blocks@)[i as int] == blocks@[i as int]@);
            assert(impl_listing(self.state@).take(i + 1) =~= impl_listing(self.state@).take(
                i as int,
            ).push(t@));
            i = i + 1;
        }
        assert(impl_listing(self.state@).take(blocks.len() as int) =~= impl_listing(self.state@));
        out
    }

    /// Whether august can render every implementation block of the page.
    pub fn listings_fit_in(&self) -> (res: bool)
        requires
            fits_parser(self.source()),
        ensures
            res == listings_fit(self.source()),
    {
        let blocks = inner_html_list(self.state.as_str(), "div#implementations-list");
        let ghost bs = inner_or_none(self.state@, "div#implementations-list"@);
        let mut i: usize = 0;
        while i < blocks.len()
            invariant
                i <= blocks.len(),
                string_views(blocks@) == bs,
                bs == inner_or_none(self.state@, "div#implementations-list"@),
                forall|j: int| 0 <= j < i ==> august_fits(#[trigger] bs[j], 80),
            decreases blocks.len() - i,
        {
            assert(string_views(blocks@)[i as int] == blocks@[i as int]@);
            if !august_can_render(blocks[i].as_str(), 80) {
                return false;
            }
            i = i + 1;
        }
        true
    }

    /// The rendered listings of the page's implementation blocks, or `None`
    /// where august cannot render one of them.
    pub fn parse_impl_instances_checked(&self) -> (res: Option<Vec<String>>)
        requires
            fits_parser(self.source()),
        ensures
            res is Some <==> listings_fit(self.source()),
            res matches Some(v) ==> string_views(v@) == impl_listing(self.source()),
    {
        if self.listings_fit_in() {
            Some(self.parse_impl_instances())
        } else {
            None
        }
    }

    /// Appends the trait names of the page's trait, auto trait and blanket
    /// implementations, in that order.
    pub fn parse_traits(&mut self)
        requires
            fits_parser(old(self).source()),
        ensures
            final(self).source() == old(self).source(),
            final(self).name_view() == old(self).name_view(),
            final(self).description_view() == old(self).description_view(),
            final(self).variants_view() == old(self).variants_view(),
            final(self).impl_list() == old(self).impl_list(),
            final(self).trait_list() == old(self).trait_list() + trait_names(old(self).source()),
    {
        let mut reader = crate::scrape::Parser::new(self.state.as_str());
        reader.parse_traits();
        let names = reader.into_traits();
        let ghost start = string_views(self.traits@);
        let mut i: usize = 0;
        while i < names.len()
            invariant
                i <= names.len(),
                string_views(names@) == trait_names(self.state@),
                self.state@ == old(self).state@,
                string_views(self.traits@) == start + string_views(names@).take(i as int),
                start == string_views(old(self).traits@),
                opt_view(self.enum_name) == opt_view(old(self).enum_name),
                opt_view(self.enum_description) == opt_view(old(self).enum_description),
                pair_views(self.enum_variants@) == pair_views(old(self).enum_variants@),
                self.impl_instances@ == old(self).impl_instances@,
            decreases names.len() - i,
        {
            let ghost before = string_views(self.traits@);
            self.traits.push(names[i].clone());
            assert(string_views(self.traits@) =~= before.push(names@[i as int]@));
            assert(string_views(names@).take(i + 1) =~= string_views(names@).take(i as int).push(
                names@[i as int]@,
            ));
            i = i + 1;
        }
        assert(string_views(names@).take(names.len() as int) =~= string_views(names@));
    }

    /// The enum name found.
    pub fn enum_name(&self) -> (res: Option<Name>)
        ensures
            opt_view(res) == self.name_view(),
    {
        self.enum_name.clone()
    }

    /// The enum description found.
    pub fn enum_description(&self) -> (res: Option<Description>)
        ensures
            opt_view(res) == self.description_view(),
    {
        self.enum_description.clone()
    }

    /// The variants found (name, description).
    pub fn enum_variants(&self) -> (res: Vec<(Name, Description)>)
        ensures
            pair_views(res@) == self.variants_view(),
    {
        let mut out: Vec<(Name, Description)> = Vec::new();
        let mut i: usize = 0;
        while i < self.enum_variants.len()
            invariant
                i <= self.enum_variants.len(),
                pair_views(out@) == pair_views(self.enum_variants@).take(i as int),
            decreases self.enum_variants.len() - i,
        {
            let ghost before = pair_views(out@);
            let p = (self.enum_variants[i].0.clone(), self.enum_variants[i].1.clone());
            out.push(p);
            assert(pair_views(out@) =~= before.push((p.0@, p.1@)));
            assert(pair_views(self.enum_variants@).take(i + 1) =~= pair_views(
                self.enum_variants@,
            ).take(i as int).push((p.0@, p.1@)));
            i = i + 1;
        }
        assert(pair_views(self.enum_variants@).take(self.enum_variants.len() as int) =~= pair_views(
            self.enum_variants@,
        ));
        out
    }

    /// The implementation blocks recorded.
    pub fn impl_instances(&self) -> (res: &Vec<ImplInstance>)
        ensures
            res@ == self.impl_list(),
    {
        &self.impl_instances
    }
}

/// The rendered text of a page's `main` element, with `code-header` classes
/// read as `docblock`.
pub open spec fn main_content_spec(html: Seq<char>) -> Option<Seq<char>> {
    match first_inner(html, "main"@) {
        Some(inner) => Some(august_rendering(replace_seq(inner, "code-header"@, "docblock"@), 80)),
        None => None,
    }
}

/// august can render the `main` element's inner HTML, as it reads it.
pub open spec fn main_inner_fits(html: Seq<char>) -> bool {
    first_inner(html, "main"@) matches Some(inner) ==> august_fits(
        replace_seq(inner, "code-header"@, "docblock"@),
        80,
    )
}

/// The rendered text of the page's `main` element, if it has one.
pub fn extract_main_content(html: &str) -> (res: Option<String>)
    requires
        fits_parser(html@),
        main_inner_fits(html@),
    ensures
        opt_view(res) == main_content_spec(html@),
{
    let mains = inner_html_list(html, "main");
    if mains.len() > 0 {
        let inner = replace_lit(&to_chars(mains[0].as_str()), "code-header", "docblock");
        Some(render_august(from_chars(&inner).as_str(), 80))
    } else {
        None
    }
}

/// The rendered text of the page's `main` element, if it has one (inner
/// `Some`); `None` where august cannot render that element.
pub fn extract_main_content_checked(html: &str) -> (res: Option<Option<String>>)
    requires
        fits_parser(html@),
    ensures
        res is Some <==> main_inner_fits(html@),
        res matches Some(r) ==> opt_view(r) == main_content_spec(html@),
{
    let mains = inner_html_list(html, "main");
    if mains.len() > 0 {
        let inner = replace_lit(&to_chars(mains[0].as_str()), "code-header", "docblock");
        if !august_can_render(from_chars(&inner).as_str(), 80) {
            return None;
        }
    }
    Some(extract_main_content(html))
}

/// Rendered text without rustdoc's page furniture, with `FIELDS` set
/// apart and runs of two or three line feeds made one shorter.
pub open spec fn clear_source_ampers_spec(content: Seq<char>) -> Seq<char> {
    let c1 = replace_trim_start(content, "source§"@, ""@);
    let c2 = trim_start_seq_twice(replace_seq(c1, "§"@, ""@));
    let c3 = replace_trim_start(c2, "Read more"@, ""@);
    let c4 = replace_trim_start(c3, "const: unstable ·"@, ""@);
    let c5 = replace_trim_start(c4, "source\n"@, ""@);
    let c6 = replace_trim_end(c5, "source ·"@, ""@);
    let c7 = replace_trim_end(c6, "Expand description"@, ""@);
    let c8 = replace_trim_end(c7, "FIELDS"@, "\n\nFIELDS"@);
    shorten_feed_runs(c8, 2, 3, 1)
}

/// `s` without leading whitespace, trimmed a second time.
pub open spec fn trim_start_seq_twice(s: Seq<char>) -> Seq<char> {
    crate::text::trim_start_seq(crate::text::trim_start_seq(s))
}

/// Removes rustdoc's page furniture from text rendered by august, sets
/// `FIELDS` apart and shortens runs of blank lines.
pub fn clear_source_ampers(content: String) -> (res: String)
    ensures
        res@ == clear_source_ampers_spec(content@),
{
    proof {
        reveal_strlit("source§");
        reveal_strlit("§");
        assert(is_plain_literal("source§"@));
        assert(is_plain_literal("§"@));
    }
    let v = to_chars(content.as_str());
    let v = trim_start_chars(&regex_remove_literal(&v, "source§"));
    let v = trim_start_chars(&trim_start_chars(&regex_remove_literal(&v, "§")));
    let v = trim_start_chars(&replace_lit(&v, "Read more", ""));
    let v = trim_start_chars(&replace_lit(&v, "const: unstable ·", ""));
    let v = trim_start_chars(&replace_lit(&v, "source\n", ""));
    let v = trim_end_chars(&replace_lit(&v, "source ·", ""));
    let v = trim_end_chars(&replace_lit(&v, "Expand description", ""));
    let v = trim_end_chars(&replace_lit(&v, "FIELDS", "\n\nFIELDS"));
    let text = from_chars(&v);
    match regex_shorten_runs("\n{2,3}", text.as_str(), 1) {
        Some(t) => t,
        None => text,
    }
}

} // verus!
