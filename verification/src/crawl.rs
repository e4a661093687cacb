//! The decisions of the crawler (which pages to visit, in which order the
//! results are written) and of the embedding step (which pages to embed,
//! under which index).
use vstd::prelude::*;
use crate::text::{
    append_lit, contains_chars, contains_seq, from_chars, join_chars, join_seq, starts_with,
    starts_with_chars, string_views, strings_to_chars, to_chars, trim_chars, trim_seq, views,
    words_seq,
};
use crate::engines::{
    cl100k_token_count, count_tokens, fits_parser, join_url, joined_url, link_target, linked_url,
    opt_string_views, parse_url, parsed_url, select_attr, selected_attr,
};
use crate::pages::{
    crate_name_spec, extract_crate_name, extract_root_url, root_url_spec, UrlError, UrlFailure,
};

verus! {

broadcast use vstd::seq_lib::group_to_multiset_ensures;

// ---------------------------------------------------------------------------
// Which pages to visit
// ---------------------------------------------------------------------------

/// Pages the crawler does not visit: functions, statics, the list of all
/// items and index pages.
pub open spec fn excluded_page(u: Seq<char>) -> bool {
    contains_seq(u, "/fn."@) || contains_seq(u, "/static."@) || contains_seq(u, "/all."@)
        || contains_seq(u, "/index."@)
}

/// A resolved link the crawler follows: one that lies under `base` and is
/// not excluded.
pub open spec fn in_scope(base: Seq<char>, joined: Option<Seq<char>>) -> Option<Seq<char>> {
    match joined {
        Some(u) => if starts_with(u, base) && !excluded_page(u) {
            Some(u)
        } else {
            None
        },
        None => None,
    }
}

/// The links resolved against `base`, without their fragments; absent
/// links and links that do not resolve give nothing.
pub open spec fn joined_links(base: Seq<char>, hrefs: Seq<Option<Seq<char>>>) -> Seq<
    Option<Seq<char>>,
> {
    hrefs.map_values(
        |h: Option<Seq<char>>|
            match h {
                Some(x) => joined_url(base, x),
                None => None,
            },
    )
}

/// The pages that the resolved links lead to, in the order of the links,
/// each page once (at its first link), out-of-scope links skipped.
pub open spec fn visit_order(base: Seq<char>, links: Seq<Option<Seq<char>>>) -> Seq<Seq<char>>
    decreases links.len(),
{
    if links.len() == 0 {
        seq![]
    } else {
        let prev = visit_order(base, links.drop_last());
        match in_scope(base, links.last()) {
            Some(u) => if prev.contains(u) {
                prev
            } else {
                prev.push(u)
            },
            None => prev,
        }
    }
}

/// The `href` attributes of the links of a page (absent ones included).
pub open spec fn hrefs_of(body: Seq<char>) -> Seq<Option<Seq<char>>> {
    match selected_attr(body, "a"@, "href"@) {
        Some(v) => v,
        None => seq![],
    }
}

/// What the crawler does with the first page: the base URL it resolves
/// links against, the crate name, and the pages to visit.
pub struct CrawlPlan {
    pub base_url: String,
    pub crate_name: String,
    pub targets: Vec<String>,
}

/// The plain values of a crawl plan.
pub open spec fn plan_view(p: CrawlPlan) -> (Seq<char>, Seq<char>, Seq<Seq<char>>) {
    (p.base_url@, p.crate_name@, string_views(p.targets@))
}

/// The plan for the page at `url` with HTML `body`: errors of the root URL
/// come first, then those of the crate name, then those of parsing the root.
pub open spec fn crawl_plan_spec(url: Seq<char>, body: Seq<char>) -> Result<
    (Seq<char>, Seq<char>, Seq<Seq<char>>),
    UrlFailure,
> {
    match root_url_spec(url) {
        Err(e) => Err(e),
        Ok(root) => match crate_name_spec(url) {
            Err(e) => Err(e),
            Ok(name) => match parsed_url(root) {
                Err(e) => Err(UrlFailure::Parse(e)),
                Ok((scheme, host, segments, base)) => Ok(
                    (base, name, visit_order(base, joined_links(base, hrefs_of(body)))),
                ),
            },
        },
    }
}

/// The plain value of a crawl plan result.
pub open spec fn plan_outcome(r: Result<CrawlPlan, UrlError>) -> Result<
    (Seq<char>, Seq<char>, Seq<Seq<char>>),
    UrlFailure,
> {
    match r {
        Ok(p) => Ok(plan_view(p)),
        Err(e) => Err(e@),
    }
}

/// A resolved link, if the crawler follows it.
pub fn in_scope_target(base: &str, joined: &Option<String>) -> (res: Option<String>)
    ensures
        crate::engines::opt_view(res) == in_scope(base@, crate::engines::opt_view(*joined)),
{
    match joined {
        Some(u) => {
            let uc = to_chars(u.as_str());
            if starts_with_chars(&uc, &to_chars(base)) && !contains_chars(&uc, &to_chars("/fn."))
                && !contains_chars(&uc, &to_chars("/static.")) && !contains_chars(
                &uc,
                &to_chars("/all."),
            ) && !contains_chars(&uc, &to_chars("/index.")) {
                Some(u.clone())
            } else {
                None
            }
        },
        None => None,
    }
}

/// The links resolved against `base`, without their fragments.
pub fn join_links(base: &str, hrefs: &Vec<Option<String>>) -> (res: Vec<Option<String>>)
    ensures
        opt_string_views(res@) == joined_links(base@, opt_string_views(hrefs@)),
{
    let mut out: Vec<Option<String>> = Vec::new();
    let mut i: usize = 0;
    while i < hrefs.len()
        invariant
            i <= hrefs.len(),
            opt_string_views(out@) == joined_links(base@, opt_string_views(hrefs@)).take(i as int),
        decreases hrefs.len() - i,
    {
        let ghost before = opt_string_views(out@);
        let j = match &hrefs[i] {
            Some(h) => join_url(base, h.as_str()),
            None => None,
        };
        out.push(j);
        assert(opt_string_views(out@) =~= before.push(crate::engines::opt_view(j)));
        assert(joined_links(base@, opt_string_views(hrefs@)).take(i + 1) =~= joined_links(
            base@,
            opt_string_views(hrefs@),
        ).take(i as int).push(crate::engines::opt_view(j)));
        i = i + 1;
    }
    assert(joined_links(base@, opt_string_views(hrefs@)).take(hrefs.len() as int) =~= joined_links(
        base@,
        opt_string_views(hrefs@),
    ));
    out
}

fn contains_string(v: &Vec<String>, s: &String) -> (res: bool)
    ensures
        res == string_views(v@).contains(s@),
{
    let mut i: usize = 0;
    while i < v.len()
        invariant
            i <= v.len(),
            forall|j: int| 0 <= j < i ==> v@[j]@ != s@,
        decreases v.len() - i,
    {
        if v[i] == *s {
            assert(string_views(v@)[i as int] == s@);
            return true;
        }
        i = i + 1;
    }
    proof {
        if string_views(v@).contains(s@) {
            let k = choose|k: int| 0 <= k < v@.len() && string_views(v@)[k] == s@;
            assert(v@[k]@ == s@);
        }
    }
    false
}

/// The pages to visit from the resolved links `links`.
pub fn visit_targets(base: &str, links: &Vec<Option<String>>) -> (res: Vec<String>)
    ensures
        string_views(res@) == visit_order(base@, opt_string_views(links@)),
{
    let mut out: Vec<String> = Vec::new();
    let mut i: usize = 0;
    let ghost hs = opt_string_views(links@);
    assert(hs.take(0) =~= seq![]);
    assert(string_views(out@) =~= seq![]);
    while i < links.len()
        invariant
            i <= links.len(),
            hs == opt_string_views(links@),
            string_views(out@) == visit_order(base@, hs.take(i as int)),
        decreases links.len() - i,
    {
        let ghost before = string_views(out@);
        assert(hs.take(i + 1).drop_last() =~= hs.take(i as int));
        assert(hs.take(i + 1).last() == crate::engines::opt_view(links@[i as int]));
        match in_scope_target(base, &links[i]) {
            Some(u) => {
                let seen = contains_string(&out, &u);
                if !seen {
                    out.push(u);
                    assert(string_views(out@) =~= before.push(u@));
                }
            },
            None => {},
        }
        i = i + 1;
    }
    assert(hs.take(links.len() as int) =~= hs);
    out
}

/// The plan for crawling from the page at `url_str` whose HTML is `body`.
pub fn crawl_plan(url_str: &str, body: &str) -> (res: Result<CrawlPlan, UrlError>)
    requires
        fits_parser(body@),
    ensures
        plan_outcome(res) == crawl_plan_spec(url_str@, body@),
{
    let root = match extract_root_url(url_str) {
        Ok(r) => r,
        Err(e) => {
            return Err(e);
        },
    };
    let name = match extract_crate_name(url_str) {
        Ok(n) => n,
        Err(e) => {
            return Err(e);
        },
    };
    let base = match parse_url(root.as_str()) {
        Ok(u) => u.serialization,
        Err(e) => {
            return Err(UrlError::Parse(e));
        },
    };
    let hrefs = match select_attr(body, "a", "href") {
        Some(v) => v,
        None => Vec::new(),
    };
    proof {
        if selected_attr(body@, "a"@, "href"@) is None {
            assert(opt_string_views(hrefs@) =~= seq![]);
        }
    }
    let links = join_links(base.as_str(), &hrefs);
    let targets = visit_targets(base.as_str(), &links);
    Ok(CrawlPlan { base_url: base, crate_name: name, targets })
}

// ---------------------------------------------------------------------------
// Links that lead off a page
// ---------------------------------------------------------------------------

/// The targets of the links that lead off the page at `url`: each link
/// joined to `url` whose path differs from the page's own path, in link
/// order; links without an `href`, or that do not join, give nothing.
pub open spec fn off_page_targets(url: Seq<char>, hrefs: Seq<Option<Seq<char>>>) -> Seq<Seq<char>>
    decreases hrefs.len(),
{
    if hrefs.len() == 0 {
        seq![]
    } else {
        let prev = off_page_targets(url, hrefs.drop_last());
        match hrefs.last() {
            Some(h) => match linked_url(url, h) {
                Some((joined, path, base_path)) => if path != base_path {
                    prev.push(joined)
                } else {
                    prev
                },
                None => prev,
            },
            None => prev,
        }
    }
}

/// Some link of the list has an `href`.
pub open spec fn has_href(hrefs: Seq<Option<Seq<char>>>) -> bool {
    exists|i: int| 0 <= i < hrefs.len() && #[trigger] hrefs[i] is Some
}

/// The links that lead off the page at `url` with HTML `body`.  The page's
/// URL is parsed at the first link that has an `href`, so a URL that does
/// not parse is an error only on a page with such a link.
pub open spec fn off_page_spec(url: Seq<char>, body: Seq<char>) -> Result<Seq<Seq<char>>, Seq<char>> {
    let hs = hrefs_of(body);
    match parsed_url(url) {
        Err(e) => if has_href(hs) {
            Err(e)
        } else {
            Ok(seq![])
        },
        Ok(parts) => Ok(off_page_targets(url, hs)),
    }
}

/// The links of the page at `url` (whose HTML is `body`) that lead to
/// another page, or the error of parsing `url`.
pub fn off_page_links(url: &str, body: &str) -> (res: Result<Vec<String>, String>)
    requires
        fits_parser(body@),
    ensures
        match res {
            Ok(v) => off_page_spec(url@, body@) == Ok::<Seq<Seq<char>>, Seq<char>>(string_views(v@)),
            Err(e) => off_page_spec(url@, body@) == Err::<Seq<Seq<char>>, Seq<char>>(e@),
        },
{
    let hrefs = match select_attr(body, "a", "href") {
        Some(v) => v,
        None => Vec::new(),
    };
    let ghost hs = opt_string_views(hrefs@);
    proof {
        if selected_attr(body@, "a"@, "href"@) is None {
            assert(hs =~= seq![]);
        }
    }
    let mut out: Vec<String> = Vec::new();
    let mut i: usize = 0;
    assert(hs.take(0) =~= seq![]);
    assert(string_views(out@) =~= seq![]);
    while i < hrefs.len()
        invariant
            i <= hrefs.len(),
            hs == opt_string_views(hrefs@),
            hs == hrefs_of(body@),
            parsed_url(url@) is Err ==> forall|j: int| 0 <= j < i ==> #[trigger] hs[j] is None,
            parsed_url(url@) is Err ==> out@.len() == 0,
            string_views(out@) == off_page_targets(url@, hs.take(i as int)),
        decreases hrefs.len() - i,
    {
        let ghost before = string_views(out@);
        assert(hs.take(i + 1).drop_last() =~= hs.take(i as int));
        assert(hs.take(i + 1).last() == hs[i as int]);
        match &hrefs[i] {
            Some(h) => {
                match parse_url(url) {
                    Err(e) => {
                        assert(hs[i as int] is Some);
                        return Err(e);
                    },
                    Ok(_) => {},
                }
                match link_target(url, h.as_str()) {
                    Some((joined, path, base_path)) => {
                        if path != base_path {
                            out.push(joined);
                            assert(string_views(out@) =~= before.push(joined@));
                        }
                    },
                    None => {},
                }
            },
            None => {},
        }
        i = i + 1;
    }
    assert(hs.take(hrefs.len() as int) =~= hs);
    proof {
        if parsed_url(url@) is Err {
            assert(!has_href(hs));
            assert(string_views(out@) =~= seq![]);
        }
    }
    Ok(out)
}

/// Records `url` as visited; true where it was not visited before.
pub fn first_visit(visited: &mut Vec<String>, url: &str) -> (res: bool)
    ensures
        res == !string_views(old(visited)@).contains(url@),
        string_views(final(visited)@) == if res {
            string_views(old(visited)@).push(url@)
        } else {
            string_views(old(visited)@)
        },
{
    let u = url.to_owned();
    if contains_string(visited, &u) {
        false
    } else {
        let ghost before = string_views(visited@);
        visited.push(u);
        assert(string_views(visited@) =~= before.push(url@));
        true
    }
}

/// The pages in the visit order have no duplicates.
pub proof fn lemma_visit_order_distinct(base: Seq<char>, links: Seq<Option<Seq<char>>>)
    ensures
        visit_order(base, links).no_duplicates(),
    decreases links.len(),
{
    if links.len() > 0 {
        lemma_visit_order_distinct(base, links.drop_last());
    }
}

/// A page is in the visit order exactly when some link leads to it.
pub proof fn lemma_visit_order_complete(base: Seq<char>, links: Seq<Option<Seq<char>>>, u: Seq<char>)
    ensures
        visit_order(base, links).contains(u) <==> exists|i: int|
            0 <= i < links.len() && in_scope(base, #[trigger] links[i]) == Some(u),
    decreases links.len(),
{
    if links.len() > 0 {
        let prev = links.drop_last();
        let last = links.len() - 1;
        let before = visit_order(base, prev);
        let after = visit_order(base, links);
        lemma_visit_order_complete(base, prev, u);
        if after.contains(u) {
            if before.contains(u) {
                let i = choose|i: int|
                    0 <= i < prev.len() && in_scope(base, #[trigger] prev[i]) == Some(u);
                assert(links[i] == prev[i]);
            } else {
                let k = choose|k: int| 0 <= k < after.len() && after[k] == u;
                assert(in_scope(base, links[last]) == Some(u));
            }
        }
        if exists|i: int| 0 <= i < links.len() && in_scope(base, #[trigger] links[i]) == Some(u) {
            let i = choose|i: int|
                0 <= i < links.len() && in_scope(base, #[trigger] links[i]) == Some(u);
            if i < last {
                assert(prev[i] == links[i]);
                assert(before.contains(u));
                let k = choose|k: int| 0 <= k < before.len() && before[k] == u;
                assert(after[k] == u);
            } else if before.contains(u) {
                let k = choose|k: int| 0 <= k < before.len() && before[k] == u;
                assert(after[k] == u);
            } else {
                assert(after == before.push(u));
                assert(after[before.len() as int] == u);
            }
        }
    }
}


/// A resolved link is followed exactly when it lies under the base URL and
/// is not a function, static, all-items or index page.
pub proof fn lemma_in_scope_exact(base: Seq<char>, u: Seq<char>)
    ensures
        in_scope(base, Some(u)) is Some <==> starts_with(u, base) && !contains_seq(u, "/fn."@)
            && !contains_seq(u, "/static."@) && !contains_seq(u, "/all."@) && !contains_seq(
            u,
            "/index."@,
        ),
        in_scope(base, Some(u)) is Some ==> in_scope(base, Some(u)) == Some(u),
        in_scope(base, None) is None,
{
}

/// A page is among the pages to visit exactly when some link resolves to
/// it, it lies under the base URL, and it is not a function, static,
/// all-items or index page.
pub proof fn lemma_visit_order_exact(base: Seq<char>, links: Seq<Option<Seq<char>>>, u: Seq<char>)
    ensures
        visit_order(base, links).contains(u) <==> (exists|i: int|
            0 <= i < links.len() && #[trigger] links[i] == Some(u)) && starts_with(u, base)
            && !contains_seq(u, "/fn."@) && !contains_seq(u, "/static."@) && !contains_seq(
            u,
            "/all."@,
        ) && !contains_seq(u, "/index."@),
{
    lemma_visit_order_complete(base, links, u);
    if visit_order(base, links).contains(u) {
        let i = choose|i: int| 0 <= i < links.len() && in_scope(base, #[trigger] links[i]) == Some(u);
        assert(links[i] == Some(u));
    }
    if (exists|i: int| 0 <= i < links.len() && #[trigger] links[i] == Some(u)) && starts_with(u, base)
        && !excluded_page(u) {
        let i = choose|i: int| 0 <= i < links.len() && #[trigger] links[i] == Some(u);
        assert(in_scope(base, links[i]) == Some(u));
    }
}

/// Every page the crawler visits lies under the base URL and is not a
/// function, static, all-items or index page.
pub proof fn lemma_visit_order_in_scope(base: Seq<char>, links: Seq<Option<Seq<char>>>)
    ensures
        forall|k: int|
            0 <= k < visit_order(base, links).len() ==> starts_with(
                #[trigger] visit_order(base, links)[k],
                base,
            ) && !excluded_page(visit_order(base, links)[k]),
    decreases links.len(),
{
    if links.len() > 0 {
        let prev = visit_order(base, links.drop_last());
        lemma_visit_order_in_scope(base, links.drop_last());
        match in_scope(base, links.last()) {
            Some(u) => {
                assert forall|k: int| 0 <= k < prev.push(u).len() implies starts_with(
                    #[trigger] prev.push(u)[k],
                    base,
                ) && !excluded_page(prev.push(u)[k]) by {
                    if k < prev.len() {
                        assert(prev.push(u)[k] == prev[k]);
                    }
                }
            },
            None => {},
        }
    }
}

// ---------------------------------------------------------------------------
// The order of the results
// ---------------------------------------------------------------------------

/// `a` comes before `b` or equals it, comparing character by character
/// (a prefix comes first).
pub open spec fn key_le(a: Seq<char>, b: Seq<char>) -> bool
    decreases a.len(),
{
    if a.len() == 0 {
        true
    } else if b.len() == 0 {
        false
    } else if (a[0] as u32) != (b[0] as u32) {
        (a[0] as u32) < (b[0] as u32)
    } else {
        key_le(a.drop_first(), b.drop_first())
    }
}

/// Any two keys are ordered one way or the other.
pub proof fn lemma_key_le_total(a: Seq<char>, b: Seq<char>)
    ensures
        key_le(a, b) || key_le(b, a),
    decreases a.len(),
{
    if a.len() > 0 && b.len() > 0 && (a[0] as u32) == (b[0] as u32) {
        lemma_key_le_total(a.drop_first(), b.drop_first());
    }
}

/// The order of keys is transitive.
pub proof fn lemma_key_le_trans(a: Seq<char>, b: Seq<char>, c: Seq<char>)
    requires
        key_le(a, b),
        key_le(b, c),
    ensures
        key_le(a, c),
    decreases a.len(),
{
    if a.len() > 0 && b.len() > 0 && c.len() > 0 && (a[0] as u32) == (b[0] as u32) && (b[0]
        as u32) == (c[0] as u32) {
        lemma_key_le_trans(a.drop_first(), b.drop_first(), c.drop_first());
    }
}

/// Whether `a` comes before `b` or equals it.
pub fn key_le_exec(a: &Vec<char>, b: &Vec<char>) -> (res: bool)
    ensures
        res == key_le(a@, b@),
{
    let mut i: usize = 0;
    assert(a@.skip(0) =~= a@);
    assert(b@.skip(0) =~= b@);
    while i < a.len() && i < b.len()
        invariant
            i <= a.len(),
            i <= b.len(),
            key_le(a@, b@) == key_le(a@.skip(i as int), b@.skip(i as int)),
        decreases a.len() - i,
    {
        assert(a@.skip(i as int).drop_first() =~= a@.skip(i + 1));
        assert(b@.skip(i as int).drop_first() =~= b@.skip(i + 1));
        let x = a[i] as u32;
        let y = b[i] as u32;
        if x != y {
            return x < y;
        }
        i = i + 1;
    }
    i == a.len()
}

/// Where a page with key `key` goes in `s`: after every page whose key
/// comes before it or equals it, counted from the front.
pub open spec fn insert_pos(s: Seq<(String, String)>, key: Seq<char>) -> int
    decreases s.len(),
{
    if s.len() == 0 {
        0
    } else if key_le(s[0].0@, key) {
        1 + insert_pos(s.drop_first(), key)
    } else {
        0
    }
}

/// The pages (URL, text) sorted by URL: each page in turn is inserted after
/// the pages whose URL comes before it or equals it.
pub open spec fn sorted_pages(s: Seq<(String, String)>) -> Seq<(String, String)>
    decreases s.len(),
{
    if s.len() == 0 {
        s
    } else {
        let t = sorted_pages(s.drop_last());
        t.insert(insert_pos(t, s.last().0@), s.last())
    }
}

/// The insert position lies in the sequence, every page before it comes
/// before the key, and the page at it does not.
pub proof fn lemma_insert_pos(s: Seq<(String, String)>, key: Seq<char>)
    ensures
        0 <= insert_pos(s, key) <= s.len(),
        forall|m: int| 0 <= m < insert_pos(s, key) ==> key_le(#[trigger] s[m].0@, key),
        insert_pos(s, key) < s.len() ==> !key_le(s[insert_pos(s, key)].0@, key),
    decreases s.len(),
{
    if s.len() > 0 && key_le(s[0].0@, key) {
        lemma_insert_pos(s.drop_first(), key);
        assert forall|m: int| 0 <= m < insert_pos(s, key) implies key_le(#[trigger] s[m].0@, key) by {
            if m > 0 {
                assert(s[m] == s.drop_first()[m - 1]);
            }
        }
    }
}

/// Sorting keeps the pages: the result holds each page as often as the
/// input.
pub proof fn lemma_sorted_pages_permutation(s: Seq<(String, String)>)
    ensures
        sorted_pages(s).to_multiset() == s.to_multiset(),
    decreases s.len(),
{
    broadcast use vstd::seq_lib::to_multiset_insert, vstd::seq_lib::to_multiset_build;

    if s.len() > 0 {
        let t = sorted_pages(s.drop_last());
        lemma_sorted_pages_permutation(s.drop_last());
        lemma_insert_pos(t, s.last().0@);
        assert(s == s.drop_last().push(s.last()));
    }
}

/// The sorted pages are in the order of their URLs.
pub proof fn lemma_sorted_pages_ordered(s: Seq<(String, String)>)
    ensures
        forall|i: int, j: int|
            0 <= i < j < sorted_pages(s).len() ==> key_le(
                #[trigger] sorted_pages(s)[i].0@,
                #[trigger] sorted_pages(s)[j].0@,
            ),
        sorted_pages(s).len() == s.len(),
    decreases s.len(),
{
    if s.len() > 0 {
        let t = sorted_pages(s.drop_last());
        let k = s.last().0@;
        let p = insert_pos(t, k);
        let r = sorted_pages(s);
        lemma_sorted_pages_ordered(s.drop_last());
        lemma_insert_pos(t, k);
        assert(r == t.insert(p, s.last()));
        assert forall|i: int, j: int| 0 <= i < j < r.len() implies key_le(
            #[trigger] r[i].0@,
            #[trigger] r[j].0@,
        ) by {
            if j < p {
                assert(r[i] == t[i] && r[j] == t[j]);
            } else if j == p {
                assert(r[i] == t[i]);
            } else if i < p {
                assert(r[i] == t[i] && r[j] == t[j - 1]);
                assert(key_le(t[i].0@, k));
                lemma_key_le_total(t[p].0@, k);
                if p < j - 1 {
                    assert(key_le(t[p].0@, t[j - 1].0@));
                    lemma_key_le_trans(k, t[p].0@, t[j - 1].0@);
                }
                lemma_key_le_trans(t[i].0@, k, t[j - 1].0@);
            } else if i == p {
                assert(r[j] == t[j - 1]);
                lemma_key_le_total(t[p].0@, k);
                if p < j - 1 {
                    assert(key_le(t[p].0@, t[j - 1].0@));
                    lemma_key_le_trans(k, t[p].0@, t[j - 1].0@);
                }
            } else {
                assert(r[i] == t[i - 1] && r[j] == t[j - 1]);
            }
        }
    }
}

/// The pages sorted by URL.
pub fn sort_pages(pages: &Vec<(String, String)>) -> (res: Vec<(String, String)>)
    ensures
        res@ == sorted_pages(pages@),
{
    let mut out: Vec<(String, String)> = Vec::new();
    let mut i: usize = 0;
    assert(pages@.take(0) =~= seq![]);
    while i < pages.len()
        invariant
            i <= pages.len(),
            out@ == sorted_pages(pages@.take(i as int)),
        decreases pages.len() - i,
    {
        let key = to_chars(pages[i].0.as_str());
        let mut j: usize = 0;
        proof {
            assert(out@.skip(0) =~= out@);
        }
        while j < out.len() && key_le_exec(&to_chars(out[j].0.as_str()), &key)
            invariant
                j <= out.len(),
                insert_pos(out@, key@) == j + insert_pos(out@.skip(j as int), key@),
            decreases out.len() - j,
        {
            assert(out@.skip(j as int).drop_first() =~= out@.skip(j + 1));
            j = j + 1;
        }
        assert(pages@.take(i + 1).drop_last() =~= pages@.take(i as int));
        assert(pages@.take(i + 1).last() == pages@[i as int]);
        let page = (pages[i].0.clone(), pages[i].1.clone());
        out.insert(j, page);
        i = i + 1;
    }
    assert(pages@.take(pages.len() as int) =~= pages@);
    out
}

/// The texts of the pages, in order.
pub open spec fn page_texts(s: Seq<(String, String)>) -> Seq<Seq<char>> {
    s.map_values(|p: (String, String)| p.1@)
}

/// The separator between two pages in the written file.
pub open spec fn page_separator() -> Seq<char> {
    "\n\n\n\n\n==============\n"@
}

/// What the crawler writes: the file name, the file's contents and the
/// texts of the pages in URL order.
pub struct TinyDocsOutput {
    pub file_name: String,
    pub contents: String,
    pub docs: Vec<String>,
}

/// The output for the crate `crate_name` and its pages (URL, text): the file
/// `<crate>.tinydocs` holds the texts in URL order, separated by a rule.
pub fn tiny_docs_output(crate_name: &str, pages: &Vec<(String, String)>) -> (res: TinyDocsOutput)
    ensures
        res.file_name@ == crate_name@ + ".tinydocs"@,
        string_views(res.docs@) == page_texts(sorted_pages(pages@)),
        res.contents@ == join_seq(page_texts(sorted_pages(pages@)), page_separator()),
{
    let sorted = sort_pages(pages);
    let mut docs: Vec<String> = Vec::new();
    let mut i: usize = 0;
    while i < sorted.len()
        invariant
            i <= sorted.len(),
            string_views(docs@) == page_texts(sorted@).take(i as int),
        decreases sorted.len() - i,
    {
        let ghost before = string_views(docs@);
        docs.push(sorted[i].1.clone());
        assert(string_views(docs@) =~= before.push(sorted@[i as int].1@));
        assert(page_texts(sorted@).take(i + 1) =~= page_texts(sorted@).take(i as int).push(
            sorted@[i as int].1@,
        ));
        i = i + 1;
    }
    assert(page_texts(sorted@).take(sorted.len() as int) =~= page_texts(sorted@));
    let parts = strings_to_chars(&docs);
    let contents = join_chars(&parts, 0, parts.len(), &to_chars("\n\n\n\n\n==============\n"));
    assert(views(parts@).subrange(0, parts.len() as int) =~= views(parts@));
    let mut name = to_chars(crate_name);
    append_lit(&mut name, ".tinydocs");
    TinyDocsOutput { file_name: from_chars(&name), contents: from_chars(&contents), docs }
}

// ---------------------------------------------------------------------------
// Embedding
// ---------------------------------------------------------------------------

/// A page to embed: its position among the pages, its index (the second
/// word of its text) and its token count.
pub struct EmbeddingJob {
    pub position: usize,
    pub index: String,
    pub token_count: Option<usize>,
}

/// The plain values of an embedding job.
pub open spec fn job_view(j: EmbeddingJob) -> (int, Seq<char>, Option<usize>) {
    (j.position as int, j.index@, j.token_count)
}

/// The jobs for the first `n` texts: one for each text with at least two
/// words, in order; the others are skipped.
pub open spec fn jobs_upto(docs: Seq<Seq<char>>, n: int) -> Seq<(int, Seq<char>, Option<usize>)>
    decreases n,
{
    if n <= 0 {
        seq![]
    } else {
        let prev = jobs_upto(docs, n - 1);
        let d = docs[n - 1];
        if words_seq(d).len() >= 2 {
            prev.push((n - 1, words_seq(d)[1], cl100k_token_count(d)))
        } else {
            prev
        }
    }
}

/// The pages to embed, with their indexes and token counts.
pub fn embedding_jobs(docs: &Vec<String>) -> (res: Vec<EmbeddingJob>)
    ensures
        res@.map_values(|j: EmbeddingJob| job_view(j)) == jobs_upto(
            string_views(docs@),
            docs.len() as int,
        ),
{
    let mut out: Vec<EmbeddingJob> = Vec::new();
    let mut i: usize = 0;
    assert(out@.map_values(|j: EmbeddingJob| job_view(j)) =~= seq![]);
    while i < docs.len()
        invariant
            i <= docs.len(),
            out@.map_values(|j: EmbeddingJob| job_view(j)) == jobs_upto(
                string_views(docs@),
                i as int,
            ),
        decreases docs.len() - i,
    {
        let ghost before = out@.map_values(|j: EmbeddingJob| job_view(j));
        assert(string_views(docs@)[i as int] == docs@[i as int]@);
        match crate::pages::extract_second_word(docs[i].as_str()) {
            Ok(w) => {
                let job = EmbeddingJob {
                    position: i,
                    index: w.to_owned(),
                    token_count: count_tokens(docs[i].as_str()),
                };
                out.push(job);
                assert(out@.map_values(|j: EmbeddingJob| job_view(j)) =~= before.push(
                    job_view(job),
                ));
            },
            Err(_) => {},
        }
        i = i + 1;
    }
    out
}

/// The number of tokens of all texts joined by spaces.
pub fn total_token_count(docs: &Vec<String>) -> (res: Option<usize>)
    ensures
        res == cl100k_token_count(join_seq(string_views(docs@), " "@)),
{
    let parts = strings_to_chars(docs);
    let joined = join_chars(&parts, 0, parts.len(), &to_chars(" "));
    assert(views(parts@).subrange(0, parts.len() as int) =~= views(parts@));
    count_tokens(from_chars(&joined).as_str())
}

/// Whether to go on after the question: every answer but `n` or `N`
/// (around which whitespace is ignored).
pub fn should_continue(answer: &str) -> (res: bool)
    ensures
        res == !(trim_seq(answer@) == "n"@ || trim_seq(answer@) == "N"@),
{
    let t = trim_chars(&to_chars(answer));
    proof {
        reveal_strlit("n");
        reveal_strlit("N");
    }
    if t.len() == 1 && (t[0] == 'n' || t[0] == 'N') {
        assert(t@ =~= "n"@ || t@ =~= "N"@);
        false
    } else {
        assert(t@ != "n"@ && t@ != "N"@) by {
            if t@.len() == 1 {
                assert(t@[0] != "n"@[0]);
                assert(t@[0] != "N"@[0]);
            }
        }
        true
    }
}

} // verus!
