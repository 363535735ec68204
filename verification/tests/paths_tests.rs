use binx::paths::{extension, file_name, file_stem, join, parent, path_components, same_path};
use std::path::{Path, PathBuf};

const SAMPLES: &[&str] = &[
    "", "/", "//", ".", "..", "./", "./a", ".//a", "a", "a/", "a//", "a/b", "a//b", "a/./b",
    "a/b/.", "a/b/..", "/a", "/a/b", "/a/b/", "//a", "/./a", "/..", "../a", "a/..", ".a",
    ".bashrc", "a.b", "a.b.c", "a.", "..x", "x..", "/opt/app/bin/app", "/opt/app/bin/app.sh",
    "dir/file.tar.gz", "/home/u/.binx/binx", "./.", "a/.b", "ä/ö.ü", "/usr//bin///ls/",
];

fn std_str(p: Option<&str>) -> Option<String> {
    p.map(|s| s.to_string())
}

#[test]
fn file_name_matches_std() {
    for s in SAMPLES {
        assert_eq!(file_name(s), std_str(Path::new(s).file_name().and_then(|x| x.to_str())), "file_name({:?})", s);
    }
}

#[test]
fn file_stem_matches_std() {
    for s in SAMPLES {
        assert_eq!(file_stem(s), std_str(Path::new(s).file_stem().and_then(|x| x.to_str())), "file_stem({:?})", s);
    }
}

#[test]
fn extension_matches_std() {
    for s in SAMPLES {
        assert_eq!(extension(s), std_str(Path::new(s).extension().and_then(|x| x.to_str())), "extension({:?})", s);
    }
}

#[test]
fn parent_matches_std() {
    for s in SAMPLES {
        let expected = Path::new(s).parent().map(|p| p.to_str().unwrap().to_string());
        assert_eq!(parent(s), expected, "parent({:?})", s);
    }
}

#[test]
fn join_matches_std() {
    for a in SAMPLES {
        for b in SAMPLES {
            let expected = Path::new(a).join(b).to_str().unwrap().to_string();
            assert_eq!(join(a, b), expected, "join({:?}, {:?})", a, b);
        }
    }
}

#[test]
fn same_path_matches_std() {
    for a in SAMPLES {
        for b in SAMPLES {
            let expected = PathBuf::from(a) == PathBuf::from(b);
            assert_eq!(same_path(a, b), expected, "same_path({:?}, {:?})", a, b);
        }
    }
}

#[test]
fn components_are_normalised() {
    assert_eq!(path_components("/a//b/./c/"), vec!["/", "a", "b", "c"]);
    assert_eq!(path_components("./a"), vec![".", "a"]);
    assert_eq!(path_components("a/.."), vec!["a", ".."]);
    assert_eq!(path_components(""), Vec::<String>::new());
}

#[test]
fn documented_equal_paths() {
    assert!(same_path("a/b", "a//b"));
    assert!(same_path("a/b", "a/./b"));
    assert!(same_path("a/b", "a/b/"));
    assert!(same_path("a/b", "a/b/."));
    assert!(!same_path("./a/b", "a/b"));
    assert!(same_path("/a/b", "/a/b/"));
}

#[test]
fn trailing_separator_law() {
    for s in SAMPLES {
        if !s.is_empty() {
            assert!(same_path(s, &format!("{}/", s)), "{:?}", s);
        }
    }
}

#[test]
fn join_absolute_replaces() {
    assert_eq!(join("/home/u", "/etc/passwd"), "/etc/passwd");
    assert_eq!(join("/home/u/", "x"), "/home/u/x");
    assert_eq!(join("", "x"), "x");
    assert_eq!(join("/home/u", ".binx"), "/home/u/.binx");
}

#[test]
fn stem_dot_extension_law() {
    for s in SAMPLES {
        if let Some(e) = extension(s) {
            assert_eq!(file_name(s).unwrap(), format!("{}.{}", file_stem(s).unwrap(), e));
        }
    }
}

fn all_strings(max_len: usize) -> Vec<String> {
    let alphabet = ['a', '.', '/'];
    let mut out = vec![String::new()];
    let mut layer = vec![String::new()];
    for _ in 0..max_len {
        let mut next = Vec::new();
        for s in &layer {
            for c in alphabet {
                next.push(format!("{}{}", s, c));
            }
        }
        out.extend(next.iter().cloned());
        layer = next;
    }
    out
}

#[test]
fn exhaustive_short_paths_match_std() {
    for s in all_strings(6) {
        let p = Path::new(&s);
        assert_eq!(file_name(&s), std_str(p.file_name().and_then(|x| x.to_str())), "file_name({:?})", s);
        assert_eq!(file_stem(&s), std_str(p.file_stem().and_then(|x| x.to_str())), "file_stem({:?})", s);
        assert_eq!(extension(&s), std_str(p.extension().and_then(|x| x.to_str())), "extension({:?})", s);
        assert_eq!(parent(&s), p.parent().map(|x| x.to_str().unwrap().to_string()), "parent({:?})", s);
    }
}

#[test]
fn exhaustive_short_pairs_match_std() {
    let all = all_strings(4);
    for a in &all {
        for b in &all {
            assert_eq!(same_path(a, b), PathBuf::from(a) == PathBuf::from(b), "same_path({:?}, {:?})", a, b);
            assert_eq!(join(a, b), Path::new(a).join(b).to_str().unwrap(), "join({:?}, {:?})", a, b);
        }
    }
}
