use leptos_lucide_rs::config::{
    icon_wrapper, wrapper_class, wrapper_style, wrapper_tag, IconConfig, WrapperTag,
};

#[test]
fn new_config_sets_nothing() {
    let c = IconConfig::new();
    assert!(c.class.is_none() && c.style.is_none() && c.size.is_none());
    assert!(c.stroke_width.is_none() && c.stroke.is_none() && c.fill.is_none());
    let d = IconConfig::default();
    assert!(d.class.is_none() && d.fill.is_none());
}

#[test]
fn builder_sets_each_field() {
    let c = IconConfig::new()
        .class("text-blue-500")
        .style(&String::from("opacity: 0.5"))
        .size("32px")
        .stroke_width("1.5")
        .stroke("red")
        .fill("none");
    assert_eq!(c.class.as_deref(), Some("text-blue-500"));
    assert_eq!(c.style.as_deref(), Some("opacity: 0.5"));
    assert_eq!(c.size.as_deref(), Some("32px"));
    assert_eq!(c.stroke_width.as_deref(), Some("1.5"));
    assert_eq!(c.stroke.as_deref(), Some("red"));
    assert_eq!(c.fill.as_deref(), Some("none"));
    let e = c.clone().class("other");
    assert_eq!(e.class.as_deref(), Some("other"));
    assert_eq!(e.size.as_deref(), Some("32px"));
}

#[test]
fn wrapper_class_text() {
    assert_eq!(wrapper_class(&IconConfig::new()), "lucide-wrapper");
    assert_eq!(wrapper_class(&IconConfig::new().class("w-6 h-6")), "lucide-wrapper w-6 h-6");
    assert_eq!(wrapper_class(&IconConfig::new().class("")), "lucide-wrapper ");
}

#[test]
fn wrapper_style_text() {
    assert_eq!(wrapper_style(&IconConfig::new()), "");
    assert_eq!(wrapper_style(&IconConfig::new().size("32px")), "width: 32px; height: 32px;");
    assert_eq!(wrapper_style(&IconConfig::new().style("color: red")), "color: red");
    assert_eq!(
        wrapper_style(&IconConfig::new().size("2em").style("color: red")),
        "width: 2em; height: 2em; color: red"
    );
    assert_eq!(wrapper_style(&IconConfig::new().stroke("red").fill("blue")), "");
}

#[test]
fn wrapper_tags() {
    assert_eq!(wrapper_tag(None), WrapperTag::Div);
    assert_eq!(wrapper_tag(Some("div")), WrapperTag::Div);
    assert_eq!(wrapper_tag(Some("span")), WrapperTag::Span);
    assert_eq!(wrapper_tag(Some("button")), WrapperTag::Button);
    assert_eq!(wrapper_tag(Some("Span")), WrapperTag::Div);
    assert_eq!(wrapper_tag(Some("section")), WrapperTag::Div);
}

#[test]
fn icon_wrapper_leaves_empty_style_out() {
    let w = icon_wrapper(Some(IconConfig::new().class("c")), Some("span".to_string()));
    assert_eq!(w.tag, WrapperTag::Span);
    assert_eq!(w.class, "lucide-wrapper c");
    assert_eq!(w.style, None);
    let w = icon_wrapper(Some(IconConfig::new().size("1px")), None);
    assert_eq!(w.tag, WrapperTag::Div);
    assert_eq!(w.style.as_deref(), Some("width: 1px; height: 1px;"));
    let w = icon_wrapper(Some(IconConfig::new().style("")), Some("button".to_string()));
    assert_eq!(w.tag, WrapperTag::Button);
    assert_eq!(w.style, None);
}

#[test]
fn icon_wrapper_defaults() {
    let w = icon_wrapper(None, None);
    assert_eq!(w.tag, WrapperTag::Div);
    assert_eq!(w.class, "lucide-wrapper");
    assert_eq!(w.style, None);
    let w = icon_wrapper(None, Some("article".to_string()));
    assert_eq!(w.tag, WrapperTag::Div);
}
