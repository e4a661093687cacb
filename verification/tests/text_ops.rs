use tinydocs::text::{
    from_chars, is_whitespace, lines_chars, replace, split_chars, to_chars, trim, trim_end,
    trim_start, words_chars,
};

fn strings(v: Vec<Vec<char>>) -> Vec<String> {
    v.iter().map(|c| from_chars(c)).collect()
}

#[test]
fn trims_like_std() {
    assert_eq!(trim("  a b \n"), "a b");
    assert_eq!(trim_start("\t\u{3000}x "), "x ");
    assert_eq!(trim_end(" x\u{a0}\r\n"), " x");
    assert_eq!(trim("   "), "");
}

#[test]
fn whitespace_matches_std() {
    for c in ['a', ' ', '\t', '\n', '\u{85}', '\u{a0}', '\u{2009}', '\u{200b}', '\u{3000}', '§'] {
        assert_eq!(is_whitespace(c), c.is_whitespace(), "{:?}", c);
    }
}

#[test]
fn replace_like_std() {
    assert_eq!(replace("aaaa", "aa", "b"), "bb");
    assert_eq!(replace("abcabc", "bc", ""), "aa");
    assert_eq!(replace("ab", "", "x"), "xaxbx");
    assert_eq!(replace("", "", "x"), "x");
    assert_eq!(replace("source§ x", "source§", ""), " x");
    for (s, p, r) in [("a§b§", "§", "-"), ("xyz", "q", "r"), ("aaa", "aa", "a")] {
        assert_eq!(replace(s, p, r), s.replace(p, r));
    }
}

#[test]
fn lines_like_std() {
    for s in ["", "a", "a\n", "\n", "a\r\nb", "a\n\nb\n", "x\r", "x\r\n\r\n"] {
        let ours = strings(lines_chars(&to_chars(s)));
        let std: Vec<String> = s.lines().map(|l| l.to_string()).collect();
        assert_eq!(ours, std, "{:?}", s);
    }
}

#[test]
fn words_like_std() {
    for s in ["", "  ", "Struct  smallbox::SmallBox", "a\tb\nc ", "\u{3000}x"] {
        let ours = strings(words_chars(&to_chars(s)));
        let std: Vec<String> = s.split_whitespace().map(|l| l.to_string()).collect();
        assert_eq!(ours, std, "{:?}", s);
    }
}

#[test]
fn split_like_std() {
    for s in ["", "a", "a\n", "\n\n", "x\ny"] {
        let ours = strings(split_chars(&to_chars(s), '\n'));
        let std: Vec<String> = s.split('\n').map(|l| l.to_string()).collect();
        assert_eq!(ours, std, "{:?}", s);
    }
}

