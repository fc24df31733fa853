use leptos_lucide_rs::catalogue::Catalogue;
use leptos_lucide_rs::content::placeholder_content;
use leptos_lucide_rs::registry::{dispatch, load_icon, Registry};

const PLACEHOLDER: &str =
    "<path d=\"M12 2L2 7l10 5 10-5-10-5zM2 17l10 5 10-5M2 12l10 5 10-5\"></path>";

fn catalogue(pairs: &[(&str, &str)]) -> Catalogue {
    let mut c = Catalogue::new();
    for (n, v) in pairs {
        c.insert(n.to_string(), v.to_string());
    }
    c
}

fn triples(r: &Registry) -> Vec<(String, String, String)> {
    (0..r.count())
        .map(|i| {
            let e = r.entry(i);
            (e.raw_name.clone(), e.identifier.clone(), e.content.clone())
        })
        .collect()
}

#[test]
fn placeholder_is_the_layers_fragment() {
    assert_eq!(placeholder_content(), PLACEHOLDER);
}

#[test]
fn single_entry_catalogue() {
    let c = catalogue(&[("home", "<svg><path d=\"M0 0\"/></svg>")]);
    let r = Registry::build(&c);
    assert_eq!(r.count(), 1);
    assert_eq!(
        triples(&r),
        vec![("home".to_string(), "Home".to_string(), "<path d=\"M0 0\"/>".to_string())]
    );
    let hit = dispatch("home", &r, None);
    assert!(hit.matched);
    assert_eq!(hit.name, "home");
    assert_eq!(hit.content, "<path d=\"M0 0\"/>");
    let miss = dispatch("missing", &r, None);
    assert!(!miss.matched);
    assert_eq!(miss.name, "missing");
    assert_eq!(miss.content, PLACEHOLDER);
}

#[test]
fn empty_catalogue_gives_empty_registry() {
    let r = Registry::build(&Catalogue::new());
    assert_eq!(r.count(), 0);
    assert_eq!(dispatch("anything", &r, None).content, PLACEHOLDER);
}

#[test]
fn colliding_names_get_a_counter() {
    let c = catalogue(&[("foo-bar", "<svg>2</svg>"), ("foo bar", "<svg>1</svg>")]);
    let r = Registry::build(&c);
    assert_eq!(
        triples(&r),
        vec![
            ("foo bar".to_string(), "FooBar".to_string(), "1".to_string()),
            ("foo-bar".to_string(), "FooBar2".to_string(), "2".to_string()),
        ]
    );
}

#[test]
fn three_way_collision_counts_on() {
    let c = catalogue(&[("foo_bar", "<svg>c</svg>"), ("foo-bar", "<svg>b</svg>"), ("foo bar", "<svg>a</svg>")]);
    let r = Registry::build(&c);
    let ids: Vec<String> = triples(&r).into_iter().map(|t| t.1).collect();
    assert_eq!(ids, vec!["FooBar", "FooBar2", "FooBar3"]);
}

#[test]
fn build_is_deterministic_and_ignores_insertion_order() {
    let a = catalogue(&[
        ("star", "<svg>s</svg>"),
        ("arrow-left", "<svg>a</svg>"),
        ("home", "<svg>h</svg>"),
        ("arrow left", "<svg>b</svg>"),
    ]);
    let b = catalogue(&[
        ("arrow left", "<svg>b</svg>"),
        ("home", "<svg>h</svg>"),
        ("arrow-left", "<svg>a</svg>"),
        ("star", "<svg>s</svg>"),
    ]);
    let first = triples(&Registry::build(&a));
    assert_eq!(first, triples(&Registry::build(&a)));
    assert_eq!(first, triples(&Registry::build(&b)));
    let names: Vec<&str> = first.iter().map(|t| t.0.as_str()).collect();
    assert_eq!(names, vec!["arrow left", "arrow-left", "home", "star"]);
    let ids: Vec<&str> = first.iter().map(|t| t.1.as_str()).collect();
    assert_eq!(ids, vec!["ArrowLeft", "ArrowLeft2", "Home", "Star"]);
}

#[test]
fn identifiers_and_names_are_unique() {
    let names = [
        "a-b", "a b", "a_b", "aB", "a-b-2", "a-b2", "volume-2", "volume 2", "self", "Self", "box",
        "", "-", "2d-rotate", "x", "X",
    ];
    let mut c = Catalogue::new();
    for n in names {
        c.insert(n.to_string(), "<svg>x</svg>".to_string());
    }
    let r = Registry::build(&c);
    assert_eq!(r.count(), names.len());
    let t = triples(&r);
    for i in 0..t.len() {
        for j in (i + 1)..t.len() {
            assert_ne!(t[i].0, t[j].0);
            assert_ne!(t[i].1, t[j].1);
        }
    }
    for (_, id, _) in &t {
        let first = id.chars().next().unwrap();
        assert!(first.is_ascii_alphabetic() || first == '_');
        assert!(id.chars().all(|ch| ch.is_ascii_alphanumeric() || ch == '_'));
        assert!(!["Self", "Box", "self", "type", "Vec", "Option"].contains(&id.as_str()));
    }
}

#[test]
fn malformed_document_falls_back_during_build() {
    let c = catalogue(&[("home", "<svg><path/>"), ("zap", "no markup")]);
    let r = Registry::build(&c);
    let t = triples(&r);
    assert_eq!(t[0].0, "home");
    assert!(t[0].2.starts_with("<path d=\"M15 21v-8"));
    assert_eq!(t[1].0, "zap");
    assert_eq!(t[1].2, PLACEHOLDER);
}

#[test]
fn dispatch_is_total() {
    let r = Registry::build(&catalogue(&[("home", "<svg>h</svg>")]));
    for name in ["", " ", "Home", "HOME", "home ", "missing", "\u{1F600}", "</svg>"] {
        let d = dispatch(name, &r, None);
        assert!(!d.matched);
        assert_eq!(d.name, name);
        assert_eq!(d.content, PLACEHOLDER);
    }
}

#[test]
fn dispatch_matches_exactly() {
    let r = Registry::build(&catalogue(&[("arrow-left", "<svg>a</svg>")]));
    assert!(dispatch("arrow-left", &r, None).matched);
    assert!(!dispatch("arrow left", &r, None).matched);
    assert!(!dispatch("ArrowLeft", &r, None).matched);
}

#[test]
fn miss_is_resolved_against_live_catalogue() {
    let r = Registry::build(&catalogue(&[("home", "<svg>h</svg>")]));
    let live = catalogue(&[("fresh", "<svg class=\"x\"><circle/></svg>"), ("home", "<svg>other</svg>")]);
    let d = dispatch("fresh", &r, Some(&live));
    assert!(!d.matched);
    assert_eq!(d.content, "<circle/>");
    assert_eq!(dispatch("home", &r, Some(&live)).content, "h");
    assert_eq!(dispatch("absent", &r, Some(&live)).content, PLACEHOLDER);
}

#[test]
fn miss_without_catalogue_uses_fallback_set() {
    let r = Registry::build(&Catalogue::new());
    let d = dispatch("search", &r, None);
    assert!(!d.matched);
    assert_eq!(d.content, "<circle cx=\"11\" cy=\"11\" r=\"8\"/><path d=\"m21 21-4.3-4.3\"/>");
}

#[test]
fn load_icon_gives_dispatched_content() {
    let r = Registry::build(&catalogue(&[("home", "<svg>h</svg>")]));
    assert_eq!(load_icon("home", &r, None), "h");
    assert_eq!(load_icon("nope", &r, None), PLACEHOLDER);
    assert_eq!(load_icon("user", &r, None), dispatch("user", &r, None).content);
}
