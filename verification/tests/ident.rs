use leptos_lucide_rs::ident::{
    ident_char, ident_start, make_candidate, make_unique, reserved, synthesize, synthesize_from,
    IdentSet,
};
use leptos_lucide_rs::text::{decimal_string, digit, str_eq, str_lt};

#[test]
fn kebab_names_become_pascal_case() {
    let mut used = IdentSet::new();
    assert_eq!(synthesize("arrow-left", &mut used), "ArrowLeft");
    assert_eq!(synthesize("home", &mut used), "Home");
    assert_eq!(synthesize("more_horizontal", &mut used), "MoreHorizontal");
    assert_eq!(synthesize("git branch", &mut used), "GitBranch");
    assert!(used.contains("ArrowLeft"));
    assert!(used.contains("GitBranch"));
    assert!(!used.contains("arrow-left"));
}

#[test]
fn leading_digit_gets_the_marker_in_front() {
    let mut used = IdentSet::new();
    let id = synthesize("2d-rotate", &mut used);
    assert!(id.starts_with("Icon2"));
    assert_eq!(id, "Icon2DRotate");
    assert_eq!(synthesize_from("2dRotate".to_string(), &mut IdentSet::new()), "Icon2dRotate");
}

#[test]
fn reserved_names_get_the_marker_behind() {
    let mut used = IdentSet::new();
    assert_eq!(synthesize("self", &mut used), "SelfIcon");
    assert_eq!(synthesize("box", &mut used), "BoxIcon");
    assert_eq!(synthesize("option", &mut used), "OptionIcon");
    assert_eq!(synthesize("type", &mut used), "Type");
    assert_eq!(make_candidate("type".to_string()), "typeIcon");
    assert_eq!(make_candidate("String".to_string()), "StringIcon");
}

#[test]
fn trailing_digit_gets_the_marker_behind() {
    let mut used = IdentSet::new();
    assert_eq!(synthesize("volume-2", &mut used), "Volume2Icon");
    assert_eq!(make_candidate("Name7".to_string()), "Name7Icon");
}

#[test]
fn other_characters_become_underscores() {
    assert_eq!(make_candidate("A.b".to_string()), "A_b");
    assert_eq!(make_candidate("\u{c9}t\u{e9}".to_string()), "Icon_t_");
    assert_eq!(make_candidate("_x".to_string()), "_x");
    assert_eq!(make_candidate("_".to_string()), "_Icon");
    assert_eq!(make_candidate("-".to_string()), "Icon_");
    assert_eq!(make_candidate("".to_string()), "Icon");
    assert_eq!(make_candidate("a+1".to_string()), "a_1Icon");
}

#[test]
fn taken_names_get_the_least_free_counter() {
    let mut used = IdentSet::new();
    assert_eq!(make_unique("Name".to_string(), &mut used), "Name");
    assert_eq!(make_unique("Name".to_string(), &mut used), "Name2");
    assert_eq!(make_unique("Name".to_string(), &mut used), "Name3");
    used.insert("Other2".to_string());
    used.insert("Other".to_string());
    used.insert("Other4".to_string());
    assert_eq!(make_unique("Other".to_string(), &mut used), "Other3");
    assert_eq!(make_unique("Other".to_string(), &mut used), "Other5");
    assert!(used.contains("Other5"));
}

#[test]
fn counter_runs_past_nine() {
    let mut used = IdentSet::new();
    let mut last = String::new();
    for _ in 0..12 {
        last = make_unique("N".to_string(), &mut used);
    }
    assert_eq!(last, "N12");
}

#[test]
fn reserved_words() {
    for w in [
        "as", "fn", "Self", "self", "type", "while", "Box", "Vec", "Option", "String", "yield",
        "extern", "union", "Ok", "Err", "None", "Some", "Result",
    ] {
        assert!(reserved(w));
    }
    for w in ["", "Home", "selfie", "Type", "Icon", "AS"] {
        assert!(!reserved(w));
    }
}

#[test]
fn character_classes() {
    assert!(ident_start('a') && ident_start('Z') && ident_start('_'));
    assert!(!ident_start('0') && !ident_start('-') && !ident_start('\u{e9}'));
    assert!(ident_char('0') && ident_char('9') && ident_char('q') && ident_char('_'));
    assert!(!ident_char(' ') && !ident_char('-') && !ident_char('\u{e9}'));
    assert!(digit('5') && !digit('a') && !digit('/') && !digit(':'));
}

#[test]
fn decimal_numerals() {
    assert_eq!(decimal_string(0), "0");
    assert_eq!(decimal_string(2), "2");
    assert_eq!(decimal_string(10), "10");
    assert_eq!(decimal_string(12345), "12345");
    assert_eq!(decimal_string(u128::MAX), u128::MAX.to_string());
}

#[test]
fn string_order_and_equality() {
    assert!(str_eq("abc", "abc"));
    assert!(!str_eq("abc", "abd"));
    assert!(str_lt("", "a"));
    assert!(!str_lt("a", ""));
    assert!(!str_lt("a", "a"));
    assert!(str_lt("a", "ab"));
    assert!(str_lt("a b", "a-b"));
    assert!(str_lt("Z", "a"));
    assert!(str_lt("z", "\u{e9}"));
    assert!(!str_lt("b", "ab"));
}
