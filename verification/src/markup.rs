//! Counts over HTML text that bound what the text renderers must handle:
//! how many tags of a kind a text opens, and whether it holds a long number.
use vstd::prelude::*;
use crate::text::{contains_chars, contains_seq, to_chars};
use crate::engines::{fits_html_parser, fits_parser};

verus! {

/// `c` is `n`, or the upper-case ASCII letter of the lower-case `n`.
pub open spec fn matches_ci(c: char, n: char) -> bool {
    c == n || ('A' <= c <= 'Z' && (c as u32) + 32 == (n as u32))
}

/// `text` opens a tag named `name` at `i`: `<` and then `name` in any ASCII
/// case (a longer name that starts with `name` counts too).
pub open spec fn tag_at(text: Seq<char>, name: Seq<char>, i: int) -> bool {
    &&& 0 <= i
    &&& i + 1 + name.len() <= text.len()
    &&& text[i] == '<'
    &&& forall|k: int| 0 <= k < name.len() ==> matches_ci(#[trigger] text[i + 1 + k], name[k])
}

/// The number of tags named `name` that open before position `n`.
pub open spec fn tags_upto(text: Seq<char>, name: Seq<char>, n: int) -> nat
    decreases n,
{
    if n <= 0 {
        0
    } else {
        tags_upto(text, name, n - 1) + if tag_at(text, name, n - 1) {
            1nat
        } else {
            0nat
        }
    }
}

/// The number of tags named `name` that `text` opens.
pub open spec fn tag_count(text: Seq<char>, name: Seq<char>) -> nat {
    tags_upto(text, name, text.len() as int)
}

/// An ASCII digit.
pub open spec fn is_digit(c: char) -> bool {
    '0' <= c <= '9'
}

/// `text` holds `n` ASCII digits in a row from `i`.
pub open spec fn digit_run_at(text: Seq<char>, i: int, n: int) -> bool {
    &&& 0 <= i
    &&& i + n <= text.len()
    &&& forall|k: int| 0 <= k < n ==> is_digit(#[trigger] text[i + k])
}

/// `text` holds nineteen ASCII digits in a row: the shortest number that
/// can come near the ends of `i64`.
pub open spec fn has_long_number(text: Seq<char>) -> bool {
    exists|i: int| digit_run_at(text, i, 19)
}

/// The number of decimal digits of `n`.
pub open spec fn decimal_len(n: nat) -> nat
    decreases n,
{
    if n < 10 {
        1
    } else {
        1 + decimal_len(n / 10)
    }
}

fn char_matches_ci(c: char, n: char) -> (res: bool)
    ensures
        res == matches_ci(c, n),
{
    c == n || ('A' <= c && c <= 'Z' && (c as u32) + 32 == (n as u32))
}

fn tag_at_exec(v: &Vec<char>, name: &Vec<char>, i: usize) -> (res: bool)
    requires
        i < v.len(),
    ensures
        res == tag_at(v@, name@, i as int),
{
    if v[i] != '<' || name.len() > v.len() - i - 1 {
        return false;
    }
    let mut k: usize = 0;
    while k < name.len()
        invariant
            k <= name.len(),
            i + 1 + name.len() <= v.len(),
            forall|j: int| 0 <= j < k ==> matches_ci(#[trigger] v@[i + 1 + j], name@[j]),
        decreases name.len() - k,
    {
        if !char_matches_ci(v[i + 1 + k], name[k]) {
            return false;
        }
        k = k + 1;
    }
    true
}

/// The number of tags named `name` that `v` opens.
pub fn count_tags(v: &Vec<char>, name: &Vec<char>) -> (res: usize)
    ensures
        res == tag_count(v@, name@),
{
    let mut count: usize = 0;
    let mut i: usize = 0;
    while i < v.len()
        invariant
            i <= v.len(),
            count <= i,
            count == tags_upto(v@, name@, i as int),
        decreases v.len() - i,
    {
        if tag_at_exec(v, name, i) {
            count = count + 1;
        }
        i = i + 1;
    }
    count
}

/// Whether `v` holds nineteen ASCII digits in a row.
pub fn has_long_number_exec(v: &Vec<char>) -> (res: bool)
    ensures
        res == has_long_number(v@),
{
    let mut run: usize = 0;
    let mut i: usize = 0;
    while i < v.len()
        invariant
            i <= v.len(),
            run <= i,
            run < 19,
            forall|k: int| 0 <= k < run ==> is_digit(#[trigger] v@[i - 1 - k]),
            run < i ==> !is_digit(v@[i - 1 - run]),
            forall|j: int| j + 19 <= i ==> !digit_run_at(v@, j, 19),
        decreases v.len() - i,
    {
        if '0' <= v[i] && v[i] <= '9' {
            if run == 18 {
                assert(digit_run_at(v@, i - 18, 19)) by {
                    assert forall|k: int| 0 <= k < 19 implies is_digit(
                        #[trigger] v@[(i - 18) + k],
                    ) by {
                        if k < 18 {
                            assert(v@[i - 1 - (17 - k)] == v@[(i - 18) + k]);
                        }
                    }
                }
                return true;
            }
            assert forall|j: int| j + 19 <= i + 1 implies !digit_run_at(v@, j, 19) by {
                if j + 19 == i + 1 && digit_run_at(v@, j, 19) {
                    assert(is_digit(v@[j + (18 - run - 1) as int]));
                }
            }
            assert forall|k: int| 0 <= k < run + 1 implies is_digit(#[trigger] v@[i - k]) by {
                if k > 0 {
                    assert(v@[i - k] == v@[i - 1 - (k - 1)]);
                }
            }
            run = run + 1;
        } else {
            assert forall|j: int| j + 19 <= i + 1 implies !digit_run_at(v@, j, 19) by {
                if j + 19 == i + 1 && digit_run_at(v@, j, 19) {
                    assert(is_digit(v@[j + 18]));
                }
            }
            run = 0;
        }
        i = i + 1;
    }
    false
}

/// Ten to the power `k`.
pub open spec fn pow10(k: nat) -> nat
    decreases k,
{
    if k == 0 {
        1
    } else {
        10 * pow10((k - 1) as nat)
    }
}

/// The number of decimal digits of `n`.
pub fn decimal_len_exec(n: usize) -> (res: usize)
    ensures
        res == decimal_len(n as nat),
{
    let mut m: usize = n;
    let mut d: usize = 1;
    assert(pow10(20) == 100_000_000_000_000_000_000nat) by {
        reveal_with_fuel(pow10, 21);
    }
    while m >= 10
        invariant
            d + decimal_len(m as nat) == decimal_len(n as nat) + 1,
            1 <= d <= 20,
            m < pow10((21 - d) as nat),
        decreases m,
    {
        let ghost j = (21 - d) as nat;
        if d >= 20 {
            assert(pow10(1) == 10) by {
                reveal_with_fuel(pow10, 2);
            }
            assert(false);
        }
        assert(pow10(j) == 10 * pow10((j - 1) as nat));
        assert(m / 10 < pow10((j - 1) as nat)) by (nonlinear_arith)
            requires
                m < 10 * pow10((j - 1) as nat),
        ;
        m = m / 10;
        d = d + 1;
    }
    d
}

/// The tags that make html2text narrow its width: two columns for each
/// unordered list, quote and definition, at most twenty-two for each
/// ordered list (its widest number, sign and `. `), at most five for each
/// heading it renders (`h1` to `h4`), and two columns left over.
pub open spec fn html2text_width_needed(t: Seq<char>) -> nat {
    2 * (tag_count(t, "ul"@) + tag_count(t, "blockquote"@) + tag_count(t, "dd"@)) + 22
        * tag_count(t, "ol"@) + 5 * (tag_count(t, "h1"@) + tag_count(t, "h2"@) + tag_count(
        t,
        "h3"@,
    ) + tag_count(t, "h4"@)) + 2
}

/// html2text renders `t` at `width` columns: the text fits the parser, has
/// no table, and all the prefixes its tags could nest fit the width with two
/// columns to spare (so no width subtraction underflows and every line has
/// room for a wide character); where it has an ordered list, no `start`
/// number can near the ends of `i64` (no run of nineteen digits, and no
/// numeric character reference that could make one).
pub open spec fn html2text_fits(t: Seq<char>, width: nat) -> bool {
    &&& fits_parser(t)
    &&& tag_count(t, "table"@) == 0
    &&& html2text_width_needed(t) <= width
    &&& tag_count(t, "ol"@) > 0 ==> !has_long_number(t) && !contains_seq(t, "&#"@)
}

/// august renders `t` at `width` columns: the text fits the parser, has no
/// table, and the prefixes of all its list items and quotes together (each
/// at most `. ` and the digits of the number of items, or two columns) fit
/// the width.
pub open spec fn august_fits(t: Seq<char>, width: nat) -> bool {
    &&& fits_parser(t)
    &&& tag_count(t, "table"@) == 0
    &&& (tag_count(t, "li"@) + tag_count(t, "blockquote"@)) * (2 + decimal_len(
        tag_count(t, "li"@),
    )) <= width
}

/// Whether html2text renders `html` at `width` columns.
pub fn html2text_can_render(html: &str, width: usize) -> (res: bool)
    ensures
        res == html2text_fits(html@, width as nat),
{
    if !fits_html_parser(html) {
        return false;
    }
    let v = to_chars(html);
    if count_tags(&v, &to_chars("table")) != 0 {
        return false;
    }
    let ul = count_tags(&v, &to_chars("ul")) as u128;
    let bq = count_tags(&v, &to_chars("blockquote")) as u128;
    let dd = count_tags(&v, &to_chars("dd")) as u128;
    let ol_n = count_tags(&v, &to_chars("ol"));
    let ol = ol_n as u128;
    let h1 = count_tags(&v, &to_chars("h1")) as u128;
    let h2 = count_tags(&v, &to_chars("h2")) as u128;
    let h3 = count_tags(&v, &to_chars("h3")) as u128;
    let h4 = count_tags(&v, &to_chars("h4")) as u128;
    let needed: u128 = 2 * (ul + bq + dd) + 22 * ol + 5 * (h1 + h2 + h3 + h4) + 2;
    if needed > width as u128 {
        return false;
    }
    if ol_n > 0 {
        if has_long_number_exec(&v) || contains_chars(&v, &to_chars("&#")) {
            return false;
        }
    }
    true
}

/// Whether august renders `html` at `width` columns.
pub fn august_can_render(html: &str, width: usize) -> (res: bool)
    ensures
        res == august_fits(html@, width as nat),
{
    if !fits_html_parser(html) {
        return false;
    }
    let v = to_chars(html);
    if count_tags(&v, &to_chars("table")) != 0 {
        return false;
    }
    let li = count_tags(&v, &to_chars("li"));
    let bq = count_tags(&v, &to_chars("blockquote"));
    let d = decimal_len_exec(li);
    let items: u128 = li as u128 + bq as u128;
    if items == 0 {
        assert(0 * (2 + decimal_len(li as nat)) == 0);
        return true;
    }
    if items > width as u128 || d as u128 + 2 > width as u128 {
        assert(items * (2 + d) > width) by (nonlinear_arith)
            requires
                items >= 1,
                items > width || d + 2 > width,
        ;
        return false;
    }
    assert(items * (d as u128 + 2) < 0x1_0000_0000_0000_0000_0000_0000_0000_0000) by (nonlinear_arith)
        requires
            items <= width,
            d + 2 <= width,
            width < 0x1_0000_0000_0000_0000,
    ;
    items * (d as u128 + 2) <= width as u128
}

} // verus!
