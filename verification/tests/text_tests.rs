use binx::text::{contains, lex_less, split_str, starts_with, str_eq, strip_prefix, trim_str, chars_of, concat2};

const WORDS: &[&str] = &[
    "", " ", "a", "ab", "abc", "b", "ba", " a b ", "\t\n x \r\n", "\u{3000}x\u{2009}", "\u{85}y\u{a0}",
    "binx v0.1.0\n", "é", "ée", "z", "Z", "a:b::c:", ":", "::", "/usr/bin:/home/u/.binx",
];

#[test]
fn trim_matches_std() {
    for w in WORDS {
        assert_eq!(trim_str(w), w.trim(), "{:?}", w);
    }
}

#[test]
fn starts_with_and_strip_prefix_match_std() {
    for a in WORDS {
        for b in WORDS {
            assert_eq!(starts_with(a, b), a.starts_with(b), "{:?} {:?}", a, b);
            assert_eq!(strip_prefix(a, b), a.strip_prefix(b).map(|s| s.to_string()));
        }
    }
}

#[test]
fn contains_matches_std() {
    for a in WORDS {
        for b in WORDS {
            assert_eq!(contains(a, b), a.contains(b), "{:?} {:?}", a, b);
        }
    }
}

#[test]
fn split_matches_std() {
    for a in WORDS {
        let expected: Vec<String> = a.split(':').map(|s| s.to_string()).collect();
        assert_eq!(split_str(a, ':'), expected, "{:?}", a);
    }
}

#[test]
fn order_matches_std() {
    for a in WORDS {
        for b in WORDS {
            assert_eq!(lex_less(a, b), a < b, "{:?} {:?}", a, b);
            assert_eq!(str_eq(a, b), a == b);
        }
    }
}

#[test]
fn chars_and_concat() {
    assert_eq!(chars_of("aé"), vec!['a', 'é']);
    assert_eq!(concat2("binx_", "app"), "binx_app");
}
