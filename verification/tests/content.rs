use leptos_lucide_rs::catalogue::Catalogue;
use leptos_lucide_rs::content::{extract_inner, fallback, resolve};

const FALLBACK_PLACEHOLDER: &str =
    "<path d=\"M12 2L2 7l10 5 10-5-10-5zM2 17l10 5 10-5M2 12l10 5 10-5\"></path>";

#[test]
fn extract_inner_of_wrapped_fragment() {
    assert_eq!(extract_inner("<svg>X</svg>"), Some("X".to_string()));
    assert_eq!(
        extract_inner("<svg xmlns=\"http://www.w3.org/2000/svg\" width=\"24\">\n  <path d=\"M1 2\" />\n</svg>\n"),
        Some("\n  <path d=\"M1 2\" />\n".to_string())
    );
    assert_eq!(extract_inner("<svg></svg>"), Some(String::new()));
}

#[test]
fn extract_inner_uses_first_gt_and_last_closing_tag() {
    assert_eq!(extract_inner("<svg>a</svg>b</svg>"), Some("a</svg>b".to_string()));
    assert_eq!(extract_inner("<svg><g>a</g></svg>"), Some("<g>a</g>".to_string()));
}

#[test]
fn extract_inner_handles_non_ascii() {
    assert_eq!(extract_inner("<svg>\u{e9}\u{4e2d}\u{1F600}</svg>"), Some("\u{e9}\u{4e2d}\u{1F600}".to_string()));
    assert_eq!(extract_inner("\u{1F600}>\u{e9}</svg>"), Some("\u{e9}".to_string()));
}

#[test]
fn extract_inner_fails_on_malformed_documents() {
    assert_eq!(extract_inner(""), None);
    assert_eq!(extract_inner("<svg>no closing tag"), None);
    assert_eq!(extract_inner("no gt </svg"), None);
    assert_eq!(extract_inner("</svg"), None);
    // the only closing tag starts before the first `>`
    assert_eq!(extract_inner("</svg>"), None);
    assert_eq!(extract_inner("</svg><svg>"), None);
    assert_eq!(extract_inner("<svg>x</SVG>"), None);
}

#[test]
fn fallback_set_holds_five_names() {
    for n in ["home", "user", "heart", "search", "star"] {
        assert!(fallback(n).is_some());
    }
    assert_eq!(fallback("Home"), None);
    assert_eq!(fallback(""), None);
    assert_eq!(
        fallback("user"),
        Some("<path d=\"M19 21v-2a4 4 0 0 0-4-4H9a4 4 0 0 0-4 4v2\"/><circle cx=\"12\" cy=\"7\" r=\"4\"/>".to_string())
    );
}

#[test]
fn resolve_prefers_the_catalogue() {
    let mut c = Catalogue::new();
    c.insert("home".to_string(), "<svg>mine</svg>".to_string());
    assert_eq!(resolve("home", Some(&c)), "mine");
    assert_ne!(resolve("home", None), "mine");
    assert_eq!(resolve("home", None), fallback("home").unwrap());
}

#[test]
fn resolve_falls_through_on_extraction_failure() {
    let mut c = Catalogue::new();
    c.insert("home".to_string(), "<svg>never closed".to_string());
    c.insert("other".to_string(), "<svg>never closed".to_string());
    assert_eq!(resolve("home", Some(&c)), fallback("home").unwrap());
    assert_eq!(resolve("other", Some(&c)), FALLBACK_PLACEHOLDER);
}

#[test]
fn resolve_unknown_name_gives_placeholder() {
    assert_eq!(resolve("unknown", None), FALLBACK_PLACEHOLDER);
    assert_eq!(resolve("", None), FALLBACK_PLACEHOLDER);
    assert_eq!(resolve("unknown", Some(&Catalogue::new())), FALLBACK_PLACEHOLDER);
}

#[test]
fn catalogue_insert_replaces_and_sorts() {
    let mut c = Catalogue::new();
    assert_eq!(c.len(), 0);
    c.insert("b".to_string(), "1".to_string());
    c.insert("a".to_string(), "2".to_string());
    c.insert("c".to_string(), "3".to_string());
    c.insert("b".to_string(), "4".to_string());
    c.insert("ab".to_string(), "5".to_string());
    assert_eq!(c.len(), 4);
    let names: Vec<&str> = (0..c.len()).map(|i| c.record(i).raw_name.as_str()).collect();
    assert_eq!(names, vec!["a", "ab", "b", "c"]);
    assert_eq!(c.get("b"), Some(&"4".to_string()));
    assert_eq!(c.get("a"), Some(&"2".to_string()));
    assert_eq!(c.get("d"), None);
    assert_eq!(c.get(""), None);
    assert!(c.contains("ab"));
    assert!(!c.contains("abc"));
}

#[test]
fn catalogue_order_is_by_code_point() {
    let mut c = Catalogue::new();
    for n in ["z", "\u{e9}", "Z", "a-b", "a b", "a", ""] {
        c.insert(n.to_string(), String::new());
    }
    let names: Vec<&str> = (0..c.len()).map(|i| c.record(i).raw_name.as_str()).collect();
    let mut expected = vec!["z", "\u{e9}", "Z", "a-b", "a b", "a", ""];
    expected.sort();
    assert_eq!(names, expected);
}
