//! Character-level string operations with their mathematical meaning.
//!
//! Every operation works on the `char` sequence that Verus uses as the view
//! of `str` and `String`, and is specified by a recursive spec function.
use vstd::prelude::*;

verus! {

/// `String::push` appends one character at the end of the string
/// (the std documentation: "Appends the given char to the end of this String").
pub assume_specification[ String::push ](s: &mut String, ch: char)
    ensures
        final(s)@ == old(s)@.push(ch),
;

// ---------------------------------------------------------------------------
// Whitespace
// ---------------------------------------------------------------------------

/// The Unicode `White_Space` property, which `char::is_whitespace` tests.
pub open spec fn is_ws(c: char) -> bool {
    let v = c as u32;
    ||| 0x09 <= v <= 0x0d
    ||| v == 0x20
    ||| v == 0x85
    ||| v == 0xa0
    ||| v == 0x1680
    ||| 0x2000 <= v <= 0x200a
    ||| v == 0x2028
    ||| v == 0x2029
    ||| v == 0x202f
    ||| v == 0x205f
    ||| v == 0x3000
}

/// Whether `c` is a Unicode whitespace character.
pub fn is_whitespace(c: char) -> (res: bool)
    ensures
        res == is_ws(c),
{
    let v = c as u32;
    (0x09 <= v && v <= 0x0d) || v == 0x20 || v == 0x85 || v == 0xa0 || v == 0x1680 || (0x2000
        <= v && v <= 0x200a) || v == 0x2028 || v == 0x2029 || v == 0x202f || v == 0x205f || v
        == 0x3000
}

// ---------------------------------------------------------------------------
// Conversions between strings and character vectors
// ---------------------------------------------------------------------------

/// The characters of `s`, in order.
pub fn to_chars(s: &str) -> (res: Vec<char>)
    ensures
        res@ == s@,
{
    let mut out: Vec<char> = Vec::new();
    for c in it: s.chars()
        invariant
            out@ == it.seq().take(it.index()),
    {
        out.push(c);
    }
    out
}

/// The string made of the characters of `v`, in order.
pub fn from_chars(v: &Vec<char>) -> (res: String)
    ensures
        res@ == v@,
{
    let mut out = String::new();
    let mut i: usize = 0;
    while i < v.len()
        invariant
            i <= v.len(),
            out@ == v@.take(i as int),
        decreases v.len() - i,
    {
        out.push(v[i]);
        proof {
            assert(v@.take(i + 1) == v@.take(i as int).push(v@[i as int]));
        }
        i = i + 1;
    }
    proof {
        assert(v@.take(v.len() as int) == v@);
    }
    out
}

/// Appends the characters of `extra` to `out`.
pub fn push_all(out: &mut Vec<char>, extra: &Vec<char>)
    ensures
        final(out)@ == old(out)@ + extra@,
{
    let mut i: usize = 0;
    while i < extra.len()
        invariant
            i <= extra.len(),
            out@ == old(out)@ + extra@.take(i as int),
        decreases extra.len() - i,
    {
        out.push(extra[i]);
        proof {
            assert(extra@.take(i + 1) == extra@.take(i as int).push(extra@[i as int]));
        }
        i = i + 1;
    }
    proof {
        assert(extra@.take(extra.len() as int) == extra@);
    }
}

/// The characters `v[from..to]`.
pub fn slice_chars(v: &Vec<char>, from: usize, to: usize) -> (res: Vec<char>)
    requires
        from <= to <= v.len(),
    ensures
        res@ == v@.subrange(from as int, to as int),
{
    let mut out: Vec<char> = Vec::new();
    let mut i: usize = from;
    while i < to
        invariant
            from <= i <= to <= v.len(),
            out@ == v@.subrange(from as int, i as int),
        decreases to - i,
    {
        out.push(v[i]);
        proof {
            assert(v@.subrange(from as int, i + 1) == v@.subrange(from as int, i as int).push(
                v@[i as int],
            ));
        }
        i = i + 1;
    }
    out
}

// ---------------------------------------------------------------------------
// Prefixes and occurrences
// ---------------------------------------------------------------------------

/// `p` occurs in `s` at position `i`.
pub open spec fn occurs_at(s: Seq<char>, p: Seq<char>, i: int) -> bool {
    0 <= i && i + p.len() <= s.len() && s.subrange(i, i + p.len()) == p
}

/// `s` starts with `p`.
pub open spec fn starts_with(s: Seq<char>, p: Seq<char>) -> bool {
    occurs_at(s, p, 0)
}

/// The position of the first occurrence of `p` in `s`, if any.
pub open spec fn find_seq(s: Seq<char>, p: Seq<char>) -> Option<int>
    decreases s.len(),
{
    if s.len() < p.len() {
        None
    } else if starts_with(s, p) {
        Some(0)
    } else if s.len() == 0 {
        None
    } else {
        match find_seq(s.drop_first(), p) {
            Some(i) => Some(i + 1),
            None => None,
        }
    }
}

/// `p` occurs somewhere in `s`.
pub open spec fn contains_seq(s: Seq<char>, p: Seq<char>) -> bool {
    find_seq(s, p) is Some
}

proof fn lemma_skip_drop_first(s: Seq<char>, i: int)
    requires
        0 <= i < s.len(),
    ensures
        s.skip(i).drop_first() == s.skip(i + 1),
{
    assert(s.skip(i).drop_first() =~= s.skip(i + 1));
}

proof fn lemma_occurs_skip(s: Seq<char>, p: Seq<char>, i: int)
    requires
        0 <= i <= s.len(),
    ensures
        starts_with(s.skip(i), p) == occurs_at(s, p, i),
{
    if i + p.len() <= s.len() {
        assert(s.skip(i).subrange(0, p.len() as int) =~= s.subrange(i, i + p.len()));
    }
}

/// A found position is an occurrence, and no occurrence comes before it;
/// when nothing is found, there is no occurrence at all.
pub proof fn lemma_find_seq(s: Seq<char>, p: Seq<char>)
    ensures
        find_seq(s, p) matches Some(i) ==> occurs_at(s, p, i) && forall|j: int|
            0 <= j < i ==> !occurs_at(s, p, j),
        find_seq(s, p) is None ==> forall|j: int| !occurs_at(s, p, j),
    decreases s.len(),
{
    if s.len() < p.len() {
    } else if starts_with(s, p) {
    } else if s.len() == 0 {
    } else {
        lemma_find_seq(s.drop_first(), p);
        assert forall|j: int| 0 <= j && occurs_at(s, p, j + 1) implies occurs_at(
            s.drop_first(),
            p,
            j,
        ) by {
            assert(s.drop_first().subrange(j, j + p.len()) =~= s.subrange(j + 1, j + 1 + p.len()));
        }
        assert forall|j: int| 0 <= j && occurs_at(s.drop_first(), p, j) implies occurs_at(
            s,
            p,
            j + 1,
        ) by {
            assert(s.drop_first().subrange(j, j + p.len()) =~= s.subrange(j + 1, j + 1 + p.len()));
        }
        match find_seq(s.drop_first(), p) {
            Some(i) => {
                assert forall|j: int| 0 <= j < i + 1 implies !occurs_at(s, p, j) by {
                    if j > 0 {
                        assert(!occurs_at(s.drop_first(), p, j - 1));
                    }
                }
            },
            None => {
                assert forall|j: int| !occurs_at(s, p, j) by {
                    if j > 0 {
                        assert(!occurs_at(s.drop_first(), p, j - 1));
                    }
                }
            },
        }
    }
}

/// Whether `p` occurs in `v` at position `i`.
pub fn occurs_at_exec(v: &Vec<char>, p: &Vec<char>, i: usize) -> (res: bool)
    ensures
        res == occurs_at(v@, p@, i as int),
{
    if i > v.len() || p.len() > v.len() - i {
        return false;
    }
    let mut k: usize = 0;
    while k < p.len()
        invariant
            i + p.len() <= v.len(),
            k <= p.len(),
            forall|j: int| 0 <= j < k ==> v@[i + j] == p@[j],
        decreases p.len() - k,
    {
        if v[i + k] != p[k] {
            proof {
                assert(v@.subrange(i as int, i + p.len())[k as int] != p@[k as int]);
            }
            return false;
        }
        k = k + 1;
    }
    proof {
        assert(v@.subrange(i as int, i + p.len()) =~= p@);
    }
    true
}

/// The position of the first occurrence of `p` in `v`.
pub fn find_chars(v: &Vec<char>, p: &Vec<char>) -> (res: Option<usize>)
    ensures
        match res {
            Some(i) => find_seq(v@, p@) == Some(i as int),
            None => find_seq(v@, p@) is None,
        },
{
    proof {
        lemma_find_seq(v@, p@);
    }
    let mut i: usize = 0;
    while i < v.len()
        invariant
            i <= v.len(),
            forall|j: int| 0 <= j < i ==> !occurs_at(v@, p@, j),
        decreases v.len() - i,
    {
        if occurs_at_exec(v, p, i) {
            proof {
                lemma_find_seq(v@, p@);
            }
            return Some(i);
        }
        i = i + 1;
    }
    if occurs_at_exec(v, p, i) {
        proof {
            lemma_find_seq(v@, p@);
        }
        return Some(i);
    }
    proof {
        lemma_find_seq(v@, p@);
        match find_seq(v@, p@) {
            Some(k) => {
                assert(occurs_at(v@, p@, k));
            },
            None => {},
        }
    }
    None
}

/// Whether `p` occurs in `v`.
pub fn contains_chars(v: &Vec<char>, p: &Vec<char>) -> (res: bool)
    ensures
        res == contains_seq(v@, p@),
{
    find_chars(v, p).is_some()
}

/// Whether `v` starts with `p`.
pub fn starts_with_chars(v: &Vec<char>, p: &Vec<char>) -> (res: bool)
    ensures
        res == starts_with(v@, p@),
{
    occurs_at_exec(v, p, 0)
}

// ---------------------------------------------------------------------------
// Trimming
// ---------------------------------------------------------------------------

/// `s` without its leading whitespace (`str::trim_start`).
pub open spec fn trim_start_seq(s: Seq<char>) -> Seq<char>
    decreases s.len(),
{
    if s.len() > 0 && is_ws(s[0]) {
        trim_start_seq(s.drop_first())
    } else {
        s
    }
}

/// `s` without its trailing whitespace (`str::trim_end`).
pub open spec fn trim_end_seq(s: Seq<char>) -> Seq<char>
    decreases s.len(),
{
    if s.len() > 0 && is_ws(s.last()) {
        trim_end_seq(s.drop_last())
    } else {
        s
    }
}

/// `s` without leading and trailing whitespace (`str::trim`).
pub open spec fn trim_seq(s: Seq<char>) -> Seq<char> {
    trim_end_seq(trim_start_seq(s))
}

/// `s` without the leading characters equal to `c` (`str::trim_start_matches`
/// with a `char` pattern).
pub open spec fn trim_start_char_seq(s: Seq<char>, c: char) -> Seq<char>
    decreases s.len(),
{
    if s.len() > 0 && s[0] == c {
        trim_start_char_seq(s.drop_first(), c)
    } else {
        s
    }
}

/// The leading characters that `trim_start_seq` drops form a prefix, and
/// the characters that remain follow it.
proof fn lemma_trim_start_suffix(s: Seq<char>, i: int)
    requires
        0 <= i <= s.len(),
        forall|j: int| 0 <= j < i ==> is_ws(s[j]),
    ensures
        trim_start_seq(s) == trim_start_seq(s.skip(i)),
    decreases i,
{
    if i > 0 {
        assert(s.skip(0) =~= s);
        lemma_trim_start_suffix(s.drop_first(), i - 1);
        assert(s.drop_first().skip(i - 1) =~= s.skip(i));
    } else {
        assert(s.skip(0) =~= s);
    }
}

proof fn lemma_trim_end_prefix(s: Seq<char>, i: int)
    requires
        0 <= i <= s.len(),
        forall|j: int| i <= j < s.len() ==> is_ws(s[j]),
    ensures
        trim_end_seq(s) == trim_end_seq(s.take(i)),
    decreases s.len() - i,
{
    if i < s.len() {
        lemma_trim_end_prefix(s.drop_last(), i);
        assert(s.drop_last().take(i) =~= s.take(i));
    } else {
        assert(s.take(i) =~= s);
    }
}

proof fn lemma_trim_start_char_suffix(s: Seq<char>, c: char, i: int)
    requires
        0 <= i <= s.len(),
        forall|j: int| 0 <= j < i ==> s[j] == c,
    ensures
        trim_start_char_seq(s, c) == trim_start_char_seq(s.skip(i), c),
    decreases i,
{
    if i > 0 {
        assert(s.skip(0) =~= s);
        lemma_trim_start_char_suffix(s.drop_first(), c, i - 1);
        assert(s.drop_first().skip(i - 1) =~= s.skip(i));
    } else {
        assert(s.skip(0) =~= s);
    }
}

/// `s` neither starts nor ends with whitespace.
pub open spec fn is_trimmed(s: Seq<char>) -> bool {
    s.len() > 0 ==> !is_ws(s[0]) && !is_ws(s.last())
}

proof fn lemma_trim_start_no_lead(s: Seq<char>)
    ensures
        trim_start_seq(s).len() > 0 ==> !is_ws(trim_start_seq(s)[0]),
    decreases s.len(),
{
    if s.len() > 0 && is_ws(s[0]) {
        lemma_trim_start_no_lead(s.drop_first());
    }
}

/// `str::trim_end` gives a prefix, which does not end with whitespace.
pub proof fn lemma_trim_end_prefix_of(s: Seq<char>)
    ensures
        trim_end_seq(s).len() <= s.len(),
        trim_end_seq(s) == s.take(trim_end_seq(s).len() as int),
        trim_end_seq(s).len() > 0 ==> !is_ws(trim_end_seq(s).last()),
    decreases s.len(),
{
    if s.len() > 0 && is_ws(s.last()) {
        lemma_trim_end_prefix_of(s.drop_last());
        assert(s.drop_last().take(trim_end_seq(s).len() as int) =~= s.take(
            trim_end_seq(s).len() as int,
        ));
    } else {
        assert(s.take(s.len() as int) =~= s);
    }
}

/// `str::trim_start` gives a suffix.
pub proof fn lemma_trim_start_suffix_of(s: Seq<char>)
    ensures
        trim_start_seq(s).len() <= s.len(),
        trim_start_seq(s) == s.skip(s.len() - trim_start_seq(s).len()),
    decreases s.len(),
{
    if s.len() > 0 && is_ws(s[0]) {
        lemma_trim_start_suffix_of(s.drop_first());
        let k = s.drop_first().len() - trim_start_seq(s.drop_first()).len();
        assert(s.drop_first().skip(k) =~= s.skip(k + 1));
    } else {
        assert(s.skip(0) =~= s);
    }
}

/// Trimming the start a second time changes nothing.
pub proof fn lemma_trim_start_twice(s: Seq<char>)
    ensures
        trim_start_seq(trim_start_seq(s)) == trim_start_seq(s),
{
    lemma_trim_start_no_lead(s);
}

/// Trimming the end a second time changes nothing.
pub proof fn lemma_trim_end_twice(s: Seq<char>)
    ensures
        trim_end_seq(trim_end_seq(s)) == trim_end_seq(s),
{
    lemma_trim_end_prefix_of(s);
}

/// What `str::trim` gives neither starts nor ends with whitespace.
pub proof fn lemma_trim_is_trimmed(s: Seq<char>)
    ensures
        is_trimmed(trim_seq(s)),
{
    let t = trim_start_seq(s);
    lemma_trim_start_no_lead(s);
    lemma_trim_end_prefix_of(t);
    if trim_seq(s).len() > 0 {
        assert(trim_seq(s)[0] == t[0]);
    }
}

/// `v` without its leading whitespace.
pub fn trim_start_chars(v: &Vec<char>) -> (res: Vec<char>)
    ensures
        res@ == trim_start_seq(v@),
{
    let mut i: usize = 0;
    while i < v.len() && is_whitespace(v[i])
        invariant
            i <= v.len(),
            forall|j: int| 0 <= j < i ==> is_ws(v@[j]),
        decreases v.len() - i,
    {
        i = i + 1;
    }
    proof {
        lemma_trim_start_suffix(v@, i as int);
        assert(v@.skip(i as int) =~= v@.subrange(i as int, v.len() as int));
    }
    slice_chars(v, i, v.len())
}

/// `v` without its trailing whitespace.
pub fn trim_end_chars(v: &Vec<char>) -> (res: Vec<char>)
    ensures
        res@ == trim_end_seq(v@),
{
    let mut i: usize = v.len();
    while i > 0 && is_whitespace(v[i - 1])
        invariant
            i <= v.len(),
            forall|j: int| i <= j < v.len() ==> is_ws(v@[j]),
        decreases i,
    {
        i = i - 1;
    }
    proof {
        lemma_trim_end_prefix(v@, i as int);
        assert(v@.take(i as int) =~= v@.subrange(0, i as int));
        assert(!(v@.take(i as int).len() > 0 && is_ws(v@.take(i as int).last())));
    }
    slice_chars(v, 0, i)
}

/// `v` without leading and trailing whitespace.
pub fn trim_chars(v: &Vec<char>) -> (res: Vec<char>)
    ensures
        res@ == trim_seq(v@),
{
    let t = trim_start_chars(v);
    trim_end_chars(&t)
}

/// `v` without the leading characters equal to `c`.
pub fn trim_start_char_chars(v: &Vec<char>, c: char) -> (res: Vec<char>)
    ensures
        res@ == trim_start_char_seq(v@, c),
{
    let mut i: usize = 0;
    while i < v.len() && v[i] == c
        invariant
            i <= v.len(),
            forall|j: int| 0 <= j < i ==> v@[j] == c,
        decreases v.len() - i,
    {
        i = i + 1;
    }
    proof {
        lemma_trim_start_char_suffix(v@, c, i as int);
        assert(v@.skip(i as int) =~= v@.subrange(i as int, v.len() as int));
    }
    slice_chars(v, i, v.len())
}

/// `str::trim_start`.
pub fn trim_start(s: &str) -> (res: String)
    ensures
        res@ == trim_start_seq(s@),
{
    from_chars(&trim_start_chars(&to_chars(s)))
}

/// `str::trim_end`.
pub fn trim_end(s: &str) -> (res: String)
    ensures
        res@ == trim_end_seq(s@),
{
    from_chars(&trim_end_chars(&to_chars(s)))
}

/// `str::trim`.
pub fn trim(s: &str) -> (res: String)
    ensures
        res@ == trim_seq(s@),
{
    from_chars(&trim_chars(&to_chars(s)))
}

// ---------------------------------------------------------------------------
// Replacing
// ---------------------------------------------------------------------------

/// `str::replace`: every non-overlapping occurrence of `p`, found from left
/// to right, is replaced by `r`.  An empty `p` matches before every
/// character and at the end.
pub open spec fn replace_seq(s: Seq<char>, p: Seq<char>, r: Seq<char>) -> Seq<char>
    decreases s.len(),
{
    if p.len() == 0 {
        if s.len() == 0 {
            r
        } else {
            r + seq![s[0]] + replace_seq(s.drop_first(), p, r)
        }
    } else if s.len() == 0 {
        s
    } else if starts_with(s, p) {
        r + replace_seq(s.skip(p.len() as int), p, r)
    } else {
        seq![s[0]] + replace_seq(s.drop_first(), p, r)
    }
}

/// `p` occurs nowhere in `s`.
pub open spec fn absent(s: Seq<char>, p: Seq<char>) -> bool {
    forall|j: int| !#[trigger] occurs_at(s, p, j)
}

/// Not containing `p` is `p` occurring nowhere.
pub proof fn lemma_absent_iff(s: Seq<char>, p: Seq<char>)
    ensures
        !contains_seq(s, p) <==> absent(s, p),
{
    lemma_find_seq(s, p);
}

/// Replacing a text that does not occur changes nothing.
pub proof fn lemma_replace_absent(s: Seq<char>, p: Seq<char>, r: Seq<char>)
    requires
        p.len() > 0,
        absent(s, p),
    ensures
        replace_seq(s, p, r) == s,
    decreases s.len(),
{
    if s.len() > 0 {
        assert(!occurs_at(s, p, 0));
        assert forall|j: int| !#[trigger] occurs_at(s.drop_first(), p, j) by {
            if occurs_at(s.drop_first(), p, j) {
                assert(s.drop_first().subrange(j, j + p.len()) =~= s.subrange(
                    j + 1,
                    j + 1 + p.len(),
                ));
                assert(occurs_at(s, p, j + 1));
            }
        }
        lemma_replace_absent(s.drop_first(), p, r);
        assert(seq![s[0]] + s.drop_first() =~= s);
    }
}

/// What does not occur in a text does not occur in its prefixes.
pub proof fn lemma_absent_prefix(s: Seq<char>, p: Seq<char>, k: int)
    requires
        0 <= k <= s.len(),
        absent(s, p),
    ensures
        absent(s.take(k), p),
{
    assert forall|j: int| !#[trigger] occurs_at(s.take(k), p, j) by {
        if occurs_at(s.take(k), p, j) {
            assert(s.take(k).subrange(j, j + p.len()) =~= s.subrange(j, j + p.len()));
            assert(occurs_at(s, p, j));
        }
    }
}

/// What does not occur in a text does not occur in its suffixes.
pub proof fn lemma_absent_suffix(s: Seq<char>, p: Seq<char>, k: int)
    requires
        0 <= k <= s.len(),
        absent(s, p),
    ensures
        absent(s.skip(k), p),
{
    assert forall|j: int| !#[trigger] occurs_at(s.skip(k), p, j) by {
        if occurs_at(s.skip(k), p, j) {
            assert(s.skip(k).subrange(j, j + p.len()) =~= s.subrange(j + k, j + k + p.len()));
            assert(occurs_at(s, p, j + k));
        }
    }
}

/// Every occurrence of `p` in `v` replaced by `r`.
pub fn replace_chars(v: &Vec<char>, p: &Vec<char>, r: &Vec<char>) -> (res: Vec<char>)
    ensures
        res@ == replace_seq(v@, p@, r@),
{
    let mut out: Vec<char> = Vec::new();
    let mut i: usize = 0;
    assert(v@.skip(0) =~= v@);
    if p.len() == 0 {
        while i < v.len()
            invariant
                p@.len() == 0,
                i <= v.len(),
                replace_seq(v@, p@, r@) == out@ + replace_seq(v@.skip(i as int), p@, r@),
            decreases v.len() - i,
        {
            let ghost old_out = out@;
            proof {
                lemma_skip_drop_first(v@, i as int);
            }
            push_all(&mut out, r);
            out.push(v[i]);
            assert(out@ =~= old_out + r@ + seq![v@[i as int]]);
            assert(old_out + (r@ + seq![v@[i as int]] + replace_seq(v@.skip(i + 1), p@, r@))
                =~= out@ + replace_seq(v@.skip(i + 1), p@, r@));
            i = i + 1;
        }
        push_all(&mut out, r);
        return out;
    }
    while i < v.len()
        invariant
            p@.len() > 0,
            i <= v.len(),
            replace_seq(v@, p@, r@) == out@ + replace_seq(v@.skip(i as int), p@, r@),
        decreases v.len() - i,
    {
        let ghost old_out = out@;
        if occurs_at_exec(v, p, i) {
            proof {
                lemma_occurs_skip(v@, p@, i as int);
                assert(v@.skip(i as int).skip(p@.len() as int) =~= v@.skip(i + p@.len()));
            }
            push_all(&mut out, r);
            i = i + p.len();
            assert(old_out + (r@ + replace_seq(v@.skip(i as int), p@, r@)) =~= out@
                + replace_seq(v@.skip(i as int), p@, r@));
        } else {
            proof {
                lemma_occurs_skip(v@, p@, i as int);
                lemma_skip_drop_first(v@, i as int);
            }
            out.push(v[i]);
            assert(old_out + (seq![v@[i as int]] + replace_seq(v@.skip(i + 1), p@, r@))
                =~= out@ + replace_seq(v@.skip(i + 1), p@, r@));
            i = i + 1;
        }
    }
    assert(out@ + replace_seq(v@.skip(i as int), p@, r@) =~= out@);
    out
}

/// `str::replace`.
pub fn replace(s: &str, p: &str, r: &str) -> (res: String)
    ensures
        res@ == replace_seq(s@, p@, r@),
{
    from_chars(&replace_chars(&to_chars(s), &to_chars(p), &to_chars(r)))
}

// ---------------------------------------------------------------------------
// Lines and words
// ---------------------------------------------------------------------------

/// The views of a sequence of character vectors.
pub open spec fn views(v: Seq<Vec<char>>) -> Seq<Seq<char>> {
    v.map_values(|x: Vec<char>| x@)
}

/// The views of a sequence of strings.
pub open spec fn string_views(v: Seq<String>) -> Seq<Seq<char>> {
    v.map_values(|x: String| x@)
}

/// A line without a carriage return that ended it.
pub open spec fn strip_cr(l: Seq<char>) -> Seq<char> {
    if l.len() > 0 && l.last() == '\r' {
        l.drop_last()
    } else {
        l
    }
}

/// The lines of `s`, where `cur` holds the characters of the line that has
/// been started but not yet ended.
pub open spec fn lines_acc(s: Seq<char>, cur: Seq<char>) -> Seq<Seq<char>>
    decreases s.len(),
{
    if s.len() == 0 {
        if cur.len() == 0 {
            seq![]
        } else {
            seq![cur]
        }
    } else if s[0] == '\n' {
        seq![strip_cr(cur)] + lines_acc(s.drop_first(), seq![])
    } else {
        lines_acc(s.drop_first(), cur.push(s[0]))
    }
}

/// `str::lines`: the pieces between line feeds, each without a carriage
/// return just before its line feed; a final line feed ends the last line
/// and starts no new one.
pub open spec fn lines_seq(s: Seq<char>) -> Seq<Seq<char>> {
    lines_acc(s, seq![])
}

/// The lines of `v`.
pub fn lines_chars(v: &Vec<char>) -> (res: Vec<Vec<char>>)
    ensures
        views(res@) == lines_seq(v@),
{
    let mut out: Vec<Vec<char>> = Vec::new();
    let mut cur: Vec<char> = Vec::new();
    let mut i: usize = 0;
    assert(v@.skip(0) =~= v@);
    assert(views(out@) =~= seq![]);
    while i < v.len()
        invariant
            i <= v.len(),
            lines_seq(v@) == views(out@) + lines_acc(v@.skip(i as int), cur@),
        decreases v.len() - i,
    {
        let ghost old_out = views(out@);
        proof {
            lemma_skip_drop_first(v@, i as int);
        }
        if v[i] == '\n' {
            let mut line = cur;
            if line.len() > 0 && line[line.len() - 1] == '\r' {
                line.pop();
            }
            assert(line@ =~= strip_cr(cur@));
            out.push(line);
            cur = Vec::new();
            assert(views(out@) =~= old_out.push(line@));
            assert(views(out@) + lines_acc(v@.skip(i + 1), cur@) =~= old_out + (seq![line@]
                + lines_acc(v@.skip(i + 1), seq![])));
        } else {
            cur.push(v[i]);
        }
        i = i + 1;
    }
    if cur.len() > 0 {
        let ghost old_out = views(out@);
        out.push(cur);
        assert(views(out@) =~= old_out.push(cur@));
    } else {
        assert(views(out@) + seq![] =~= views(out@));
    }
    out
}

/// The whitespace-separated words of `s`, where `cur` holds the characters
/// of the word that has been started but not yet ended.
pub open spec fn words_acc(s: Seq<char>, cur: Seq<char>) -> Seq<Seq<char>>
    decreases s.len(),
{
    if s.len() == 0 {
        if cur.len() == 0 {
            seq![]
        } else {
            seq![cur]
        }
    } else if is_ws(s[0]) {
        if cur.len() == 0 {
            words_acc(s.drop_first(), seq![])
        } else {
            seq![cur] + words_acc(s.drop_first(), seq![])
        }
    } else {
        words_acc(s.drop_first(), cur.push(s[0]))
    }
}

/// `str::split_whitespace`: the maximal runs of non-whitespace characters.
pub open spec fn words_seq(s: Seq<char>) -> Seq<Seq<char>> {
    words_acc(s, seq![])
}

/// The words of `v`.
pub fn words_chars(v: &Vec<char>) -> (res: Vec<Vec<char>>)
    ensures
        views(res@) == words_seq(v@),
{
    let mut out: Vec<Vec<char>> = Vec::new();
    let mut cur: Vec<char> = Vec::new();
    let mut i: usize = 0;
    assert(v@.skip(0) =~= v@);
    assert(views(out@) =~= seq![]);
    while i < v.len()
        invariant
            i <= v.len(),
            words_seq(v@) == views(out@) + words_acc(v@.skip(i as int), cur@),
        decreases v.len() - i,
    {
        let ghost old_out = views(out@);
        proof {
            lemma_skip_drop_first(v@, i as int);
        }
        if is_whitespace(v[i]) {
            if cur.len() > 0 {
                let word = cur;
                out.push(word);
                cur = Vec::new();
                assert(views(out@) =~= old_out.push(word@));
                assert(views(out@) + words_acc(v@.skip(i + 1), cur@) =~= old_out + (seq![word@]
                    + words_acc(v@.skip(i + 1), seq![])));
            } else {
                assert(cur@ =~= seq![]);
            }
        } else {
            cur.push(v[i]);
        }
        i = i + 1;
    }
    if cur.len() > 0 {
        let ghost old_out = views(out@);
        out.push(cur);
        assert(views(out@) =~= old_out.push(cur@));
    } else {
        assert(views(out@) + seq![] =~= views(out@));
    }
    out
}

// ---------------------------------------------------------------------------
// Joining
// ---------------------------------------------------------------------------

/// The pieces concatenated with `sep` between each two of them (`join`).
pub open spec fn join_seq(parts: Seq<Seq<char>>, sep: Seq<char>) -> Seq<char>
    decreases parts.len(),
{
    if parts.len() == 0 {
        seq![]
    } else if parts.len() == 1 {
        parts[0]
    } else {
        join_seq(parts.drop_last(), sep) + sep + parts.last()
    }
}

/// The pieces, each followed by a line feed.
pub open spec fn terminated_lines(parts: Seq<Seq<char>>) -> Seq<char>
    decreases parts.len(),
{
    if parts.len() == 0 {
        seq![]
    } else {
        terminated_lines(parts.drop_last()) + parts.last() + seq!['\n']
    }
}

/// The pieces of `parts[from..to]` joined by `sep`.
pub fn join_chars(parts: &Vec<Vec<char>>, from: usize, to: usize, sep: &Vec<char>) -> (res: Vec<
    char,
>)
    requires
        from <= to <= parts.len(),
    ensures
        res@ == join_seq(views(parts@).subrange(from as int, to as int), sep@),
{
    let mut out: Vec<char> = Vec::new();
    let mut i: usize = from;
    while i < to
        invariant
            from <= i <= to <= parts.len(),
            out@ == join_seq(views(parts@).subrange(from as int, i as int), sep@),
        decreases to - i,
    {
        let ghost old_out = out@;
        let ghost next = views(parts@).subrange(from as int, i + 1);
        assert(next.drop_last() =~= views(parts@).subrange(from as int, i as int));
        if i > from {
            push_all(&mut out, sep);
        }
        push_all(&mut out, &parts[i]);
        if i == from {
            assert(out@ =~= next[0]);
        } else {
            assert(out@ =~= old_out + sep@ + next.last());
        }
        i = i + 1;
    }
    out
}

/// The pieces, each followed by a line feed.
pub fn terminated_lines_chars(parts: &Vec<Vec<char>>) -> (res: Vec<char>)
    ensures
        res@ == terminated_lines(views(parts@)),
{
    let mut out: Vec<char> = Vec::new();
    let mut i: usize = 0;
    assert(views(parts@).take(0) =~= seq![]);
    while i < parts.len()
        invariant
            i <= parts.len(),
            out@ == terminated_lines(views(parts@).take(i as int)),
        decreases parts.len() - i,
    {
        let ghost old_out = out@;
        assert(views(parts@).take(i + 1).drop_last() =~= views(parts@).take(i as int));
        push_all(&mut out, &parts[i]);
        out.push('\n');
        assert(out@ =~= old_out + views(parts@).take(i + 1).last() + seq!['\n']);
        i = i + 1;
    }
    assert(views(parts@).take(parts.len() as int) =~= views(parts@));
    out
}

// ---------------------------------------------------------------------------
// Conveniences over string literals
// ---------------------------------------------------------------------------

/// Every occurrence of `p` in `v` replaced by `r`.
pub fn replace_lit(v: &Vec<char>, p: &str, r: &str) -> (res: Vec<char>)
    ensures
        res@ == replace_seq(v@, p@, r@),
{
    replace_chars(v, &to_chars(p), &to_chars(r))
}

/// `v` followed by the characters of `s`.
pub fn append_lit(v: &mut Vec<char>, s: &str)
    ensures
        final(v)@ == old(v)@ + s@,
{
    push_all(v, &to_chars(s));
}

/// The character vectors of a list of strings.
pub fn strings_to_chars(v: &Vec<String>) -> (res: Vec<Vec<char>>)
    ensures
        views(res@) == string_views(v@),
{
    let mut out: Vec<Vec<char>> = Vec::new();
    let mut i: usize = 0;
    while i < v.len()
        invariant
            i <= v.len(),
            views(out@) == string_views(v@).take(i as int),
        decreases v.len() - i,
    {
        let ghost old_out = views(out@);
        out.push(to_chars(v[i].as_str()));
        assert(views(out@) =~= old_out.push(v@[i as int]@));
        assert(string_views(v@).take(i + 1) =~= string_views(v@).take(i as int).push(
            v@[i as int]@,
        ));
        i = i + 1;
    }
    assert(string_views(v@).take(v.len() as int) =~= string_views(v@));
    out
}

/// The strings made of a list of character vectors.
pub fn chars_to_strings(v: &Vec<Vec<char>>) -> (res: Vec<String>)
    ensures
        string_views(res@) == views(v@),
{
    let mut out: Vec<String> = Vec::new();
    let mut i: usize = 0;
    while i < v.len()
        invariant
            i <= v.len(),
            string_views(out@) == views(v@).take(i as int),
        decreases v.len() - i,
    {
        let ghost old_out = string_views(out@);
        out.push(from_chars(&v[i]));
        assert(string_views(out@) =~= old_out.push(v@[i as int]@));
        assert(views(v@).take(i + 1) =~= views(v@).take(i as int).push(v@[i as int]@));
        i = i + 1;
    }
    assert(views(v@).take(v.len() as int) =~= views(v@));
    out
}

/// The pieces concatenated.
pub open spec fn concat_seq(parts: Seq<Seq<char>>) -> Seq<char>
    decreases parts.len(),
{
    if parts.len() == 0 {
        seq![]
    } else {
        concat_seq(parts.drop_last()) + parts.last()
    }
}

/// The pieces of `s` between occurrences of `c` (`str::split` with a
/// `char`), where `cur` holds the piece that has been started.
pub open spec fn split_acc(s: Seq<char>, c: char, cur: Seq<char>) -> Seq<Seq<char>>
    decreases s.len(),
{
    if s.len() == 0 {
        seq![cur]
    } else if s[0] == c {
        seq![cur] + split_acc(s.drop_first(), c, seq![])
    } else {
        split_acc(s.drop_first(), c, cur.push(s[0]))
    }
}

/// `str::split` with a `char`: the pieces between occurrences of `c`,
/// empty ones included.
pub open spec fn split_seq(s: Seq<char>, c: char) -> Seq<Seq<char>> {
    split_acc(s, c, seq![])
}

/// The pieces of `v` between occurrences of `c`.
pub fn split_chars(v: &Vec<char>, c: char) -> (res: Vec<Vec<char>>)
    ensures
        views(res@) == split_seq(v@, c),
{
    let mut out: Vec<Vec<char>> = Vec::new();
    let mut cur: Vec<char> = Vec::new();
    let mut i: usize = 0;
    assert(v@.skip(0) =~= v@);
    assert(views(out@) =~= seq![]);
    while i < v.len()
        invariant
            i <= v.len(),
            split_seq(v@, c) == views(out@) + split_acc(v@.skip(i as int), c, cur@),
        decreases v.len() - i,
    {
        let ghost old_out = views(out@);
        proof {
            lemma_skip_drop_first(v@, i as int);
        }
        if v[i] == c {
            let piece = cur;
            out.push(piece);
            cur = Vec::new();
            assert(views(out@) =~= old_out.push(piece@));
            assert(views(out@) + split_acc(v@.skip(i + 1), c, cur@) =~= old_out + (seq![piece@]
                + split_acc(v@.skip(i + 1), c, seq![])));
        } else {
            cur.push(v[i]);
        }
        i = i + 1;
    }
    let ghost old_out = views(out@);
    out.push(cur);
    assert(views(out@) =~= old_out.push(cur@));
    out
}

/// Each piece trimmed.
pub open spec fn trim_each(parts: Seq<Seq<char>>) -> Seq<Seq<char>> {
    parts.map_values(|p: Seq<char>| trim_seq(p))
}

/// Each piece of `parts` trimmed.
pub fn trim_each_chars(parts: &Vec<Vec<char>>) -> (res: Vec<Vec<char>>)
    ensures
        views(res@) == trim_each(views(parts@)),
{
    let mut out: Vec<Vec<char>> = Vec::new();
    let mut i: usize = 0;
    while i < parts.len()
        invariant
            i <= parts.len(),
            views(out@) == trim_each(views(parts@)).take(i as int),
        decreases parts.len() - i,
    {
        let ghost before = views(out@);
        let t = trim_chars(&parts[i]);
        out.push(t);
        assert(views(out@) =~= before.push(t@));
        assert(trim_each(views(parts@)).take(i + 1) =~= trim_each(views(parts@)).take(i as int).push(
            trim_seq(parts@[i as int]@),
        ));
        i = i + 1;
    }
    assert(trim_each(views(parts@)).take(parts.len() as int) =~= trim_each(views(parts@)));
    out
}

} // verus!
