use binx::version::{is_older, numbers_less, parse_component, parse_version};

#[test]
fn components() {
    assert_eq!(parse_component("0"), Some(0));
    assert_eq!(parse_component("010"), Some(10));
    assert_eq!(parse_component("18446744073709551615"), Some(u64::MAX));
    assert_eq!(parse_component("18446744073709551616"), None);
    assert_eq!(parse_component(""), None);
    assert_eq!(parse_component("1a"), None);
}

#[test]
fn versions() {
    assert_eq!(parse_version("1.2.10"), Some(vec![1, 2, 10]));
    assert_eq!(parse_version("1..2"), None);
    assert_eq!(parse_version("v1"), None);
    assert!(numbers_less(&vec![0, 9], &vec![0, 10]));
    assert!(!numbers_less(&vec![1, 0], &vec![1]));
    assert!(numbers_less(&vec![1], &vec![1, 0, 1]));
}

#[test]
fn version_order_law() {
    for a in ["0.1.0", "0.2.0", "1.0", "1.0.0", "10", "x"] {
        assert!(!is_older(a, a));
        for b in ["0.1.0", "0.2.0", "1.0", "1.0.0", "10"] {
            if parse_version(a).is_some() {
                assert!(!(is_older(a, b) && is_older(b, a)), "{} {}", a, b);
            }
        }
    }
}
