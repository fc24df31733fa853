//! Appearance of a rendered icon: the configuration a caller builds, and the
//! wrapper element that is computed from it.

use vstd::prelude::*;
use crate::text::str_eq;

verus! {

/// Icon configuration for customizing appearance.
#[derive(Clone, Debug)]
pub struct IconConfig {
    /// CSS class to apply to the icon
    pub class: Option<String>,
    /// Inline style string
    pub style: Option<String>,
    /// Icon size (width and height)
    pub size: Option<String>,
    /// Custom stroke width
    pub stroke_width: Option<String>,
    /// Custom stroke color
    pub stroke: Option<String>,
    /// Fill color
    pub fill: Option<String>,
}

impl Default for IconConfig {
    fn default() -> (r: IconConfig)
        ensures
            r == IconConfig::unset(),
    {
        IconConfig::new()
    }
}

impl IconConfig {
    /// The configuration that sets nothing.
    pub open spec fn unset() -> IconConfig {
        IconConfig {
            class: None,
            style: None,
            size: None,
            stroke_width: None,
            stroke: None,
            fill: None,
        }
    }

    /// Create a new icon configuration
    pub fn new() -> (r: IconConfig)
        ensures
            r == IconConfig::unset(),
    {
        IconConfig {
            class: None,
            style: None,
            size: None,
            stroke_width: None,
            stroke: None,
            fill: None,
        }
    }

    /// Set the CSS class
    pub fn class(self, class: &str) -> (r: IconConfig)
        ensures
            r.class matches Some(v) && v@ == class@,
            r == (IconConfig { class: r.class, ..self }),
    {
        let mut r = self;
        r.class = Some(class.to_owned());
        r
    }

    /// Set the inline style
    pub fn style(self, style: &str) -> (r: IconConfig)
        ensures
            r.style matches Some(v) && v@ == style@,
            r == (IconConfig { style: r.style, ..self }),
    {
        let mut r = self;
        r.style = Some(style.to_owned());
        r
    }

    /// Set the icon size
    pub fn size(self, size: &str) -> (r: IconConfig)
        ensures
            r.size matches Some(v) && v@ == size@,
            r == (IconConfig { size: r.size, ..self }),
    {
        let mut r = self;
        r.size = Some(size.to_owned());
        r
    }

    /// Set the stroke width
    pub fn stroke_width(self, width: &str) -> (r: IconConfig)
        ensures
            r.stroke_width matches Some(v) && v@ == width@,
            r == (IconConfig { stroke_width: r.stroke_width, ..self }),
    {
        let mut r = self;
        r.stroke_width = Some(width.to_owned());
        r
    }

    /// Set the stroke color
    pub fn stroke(self, stroke: &str) -> (r: IconConfig)
        ensures
            r.stroke matches Some(v) && v@ == stroke@,
            r == (IconConfig { stroke: r.stroke, ..self }),
    {
        let mut r = self;
        r.stroke = Some(stroke.to_owned());
        r
    }

    /// Set the fill color
    pub fn fill(self, fill: &str) -> (r: IconConfig)
        ensures
            r.fill matches Some(v) && v@ == fill@,
            r == (IconConfig { fill: r.fill, ..self }),
    {
        let mut r = self;
        r.fill = Some(fill.to_owned());
        r
    }
}

/// The element that wraps a rendered icon.
#[derive(Clone, Copy, Debug, PartialEq, Eq, Structural)]
pub enum WrapperTag {
    Div,
    Span,
    Button,
}

/// The tag that a wrapper name stands for: `span` and `button` for their
/// names, `div` for every other name.
pub open spec fn tag_of(wrapper: Seq<char>) -> WrapperTag {
    if wrapper == "span"@ {
        WrapperTag::Span
    } else if wrapper == "button"@ {
        WrapperTag::Button
    } else {
        WrapperTag::Div
    }
}

/// The class attribute of the wrapper: the fixed class, then the configured
/// class behind a space.
pub open spec fn class_text(class: Option<String>) -> Seq<char> {
    match class {
        Some(c) => "lucide-wrapper"@ + " "@ + c@,
        None => "lucide-wrapper"@,
    }
}

/// The style that a size stands for: width and height alike.
pub open spec fn size_text(size: Option<String>) -> Seq<char> {
    match size {
        Some(s) => "width: "@ + s@ + "; height: "@ + s@ + ";"@,
        None => Seq::empty(),
    }
}

/// The style attribute of the wrapper: the size, then the configured style,
/// with a space between the two where both are there.
pub open spec fn style_text(size: Option<String>, style: Option<String>) -> Seq<char> {
    match style {
        Some(t) => if size_text(size).len() > 0 {
            size_text(size) + " "@ + t@
        } else {
            t@
        },
        None => size_text(size),
    }
}

/// The configuration in force: the one given, or the one that sets nothing.
pub open spec fn effective(config: Option<IconConfig>) -> IconConfig {
    match config {
        Some(c) => c,
        None => IconConfig::unset(),
    }
}

/// What the renderer needs to wrap an icon.
pub struct Wrapper {
    pub tag: WrapperTag,
    pub class: String,
    /// Absent where the style text is empty.
    pub style: Option<String>,
}

/// The tag for an optional wrapper name; `div` where none is given.
pub fn wrapper_tag(wrapper: Option<&str>) -> (t: WrapperTag)
    ensures
        t == match wrapper {
            Some(w) => tag_of(w@),
            None => WrapperTag::Div,
        },
{
    match wrapper {
        Some(w) => {
            if str_eq(w, "span") {
                WrapperTag::Span
            } else if str_eq(w, "button") {
                WrapperTag::Button
            } else {
                WrapperTag::Div
            }
        },
        None => WrapperTag::Div,
    }
}

/// The class attribute of the wrapper.
pub fn wrapper_class(config: &IconConfig) -> (r: String)
    ensures
        r@ == class_text(config.class),
{
    let mut r = "lucide-wrapper".to_owned();
    if let Some(class) = &config.class {
        r.append(" ");
        r.append(class.as_str());
    }
    r
}

/// The style attribute of the wrapper.
pub fn wrapper_style(config: &IconConfig) -> (r: String)
    ensures
        r@ == style_text(config.size, config.style),
{
    let mut r = String::new();
    if let Some(size) = &config.size {
        r.append("width: ");
        r.append(size.as_str());
        r.append("; height: ");
        r.append(size.as_str());
        r.append(";");
        assert(r@ =~= size_text(config.size));
    }
    if let Some(style) = &config.style {
        if !r.as_str().is_empty() {
            r.append(" ");
        }
        r.append(style.as_str());
        assert(r@ =~= style_text(config.size, config.style));
    }
    r
}

/// The wrapper for an icon: the tag named by `wrapper`, `div` where none is
/// named; the class and the style of `config`, or of the configuration that
/// sets nothing where none is given. The style is left out where it is empty.
pub fn icon_wrapper(config: Option<IconConfig>, wrapper: Option<String>) -> (w: Wrapper)
    ensures
        w.tag == match wrapper {
            Some(n) => tag_of(n@),
            None => WrapperTag::Div,
        },
        w.class@ == class_text(effective(config).class),
        match w.style {
            Some(s) => s@ == style_text(effective(config).size, effective(config).style) && s@.len()
                > 0,
            None => style_text(effective(config).size, effective(config).style).len() == 0,
        },
{
    let config = match config {
        Some(c) => c,
        None => IconConfig::new(),
    };
    let tag = match &wrapper {
        Some(n) => wrapper_tag(Some(n.as_str())),
        None => wrapper_tag(None),
    };
    let class = wrapper_class(&config);
    let style = wrapper_style(&config);
    if style.as_str().is_empty() {
        Wrapper { tag, class, style: None }
    } else {
        Wrapper { tag, class, style: Some(style) }
    }
}

} // verus!
