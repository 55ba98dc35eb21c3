//! Value types of the compat API: node and listener handles, node kinds,
//! style keys, event types, the event context and the error type.

use vstd::prelude::*;

verus! {

/// Opaque node handle of the compat API; invalid once the node is removed.
#[derive(Debug, Clone, Copy, PartialEq, Eq, Structural, Hash)]
pub struct NodeId(pub u64);

/// Opaque listener handle returned by `event_on`.
#[derive(Debug, Clone, Copy, PartialEq, Eq, Structural, Hash)]
pub struct ListenerId(pub u64);

/// Node type, mirroring the legacy `"container"` / `"text"` / `"image"`.
#[derive(Debug, Clone, Copy, PartialEq, Eq, Structural)]
pub enum NodeKind {
    /// Generic layout container.
    Container,
    /// Text-rendering leaf node.
    Text,
    /// Image-rendering leaf node.
    Image,
}

/// Style property key.
#[derive(Debug, Clone, Copy, PartialEq, Eq, Structural)]
pub enum StyleProp {
    /// `background` / `background-color`.
    Background,
    /// `border-width`.
    BorderWidth,
    /// `border-color`.
    BorderColor,
    /// `opacity` in `[0.0, 1.0]`.
    Opacity,
    /// `x` / `left` position.
    X,
    /// `y` / `top` position.
    Y,
    /// Element width.
    Width,
    /// Element height.
    Height,
    /// `margin-left`.
    MarginLeft,
    /// `margin-top`.
    MarginTop,
    /// `margin-right`.
    MarginRight,
    /// `margin-bottom`.
    MarginBottom,
    /// `padding-left`.
    PaddingLeft,
    /// `padding-top`.
    PaddingTop,
    /// `padding-right`.
    PaddingRight,
    /// `padding-bottom`.
    PaddingBottom,
}

/// The property a CSS-like key names, if any.
pub open spec fn style_prop_of(key: Seq<char>) -> Option<StyleProp> {
    if key == "background"@ || key == "background-color"@ {
        Some(StyleProp::Background)
    } else if key == "border-width"@ {
        Some(StyleProp::BorderWidth)
    } else if key == "border-color"@ {
        Some(StyleProp::BorderColor)
    } else if key == "opacity"@ {
        Some(StyleProp::Opacity)
    } else if key == "x"@ || key == "left"@ {
        Some(StyleProp::X)
    } else if key == "y"@ || key == "top"@ {
        Some(StyleProp::Y)
    } else if key == "width"@ {
        Some(StyleProp::Width)
    } else if key == "height"@ {
        Some(StyleProp::Height)
    } else if key == "margin-left"@ {
        Some(StyleProp::MarginLeft)
    } else if key == "margin-top"@ {
        Some(StyleProp::MarginTop)
    } else if key == "margin-right"@ {
        Some(StyleProp::MarginRight)
    } else if key == "margin-bottom"@ {
        Some(StyleProp::MarginBottom)
    } else if key == "padding-left"@ {
        Some(StyleProp::PaddingLeft)
    } else if key == "padding-top"@ {
        Some(StyleProp::PaddingTop)
    } else if key == "padding-right"@ {
        Some(StyleProp::PaddingRight)
    } else if key == "padding-bottom"@ {
        Some(StyleProp::PaddingBottom)
    } else {
        None
    }
}

/// Each style key names the property of the same name: `background` and
/// `background-color` the background, `left` and `top` (or `x` and `y`) the
/// position, and every other key the one property it spells.
pub proof fn lemma_style_key_table()
    ensures
        style_prop_of("background"@) == Some(StyleProp::Background),
        style_prop_of("background-color"@) == Some(StyleProp::Background),
        style_prop_of("border-width"@) == Some(StyleProp::BorderWidth),
        style_prop_of("border-color"@) == Some(StyleProp::BorderColor),
        style_prop_of("opacity"@) == Some(StyleProp::Opacity),
        style_prop_of("x"@) == Some(StyleProp::X),
        style_prop_of("left"@) == Some(StyleProp::X),
        style_prop_of("y"@) == Some(StyleProp::Y),
        style_prop_of("top"@) == Some(StyleProp::Y),
        style_prop_of("width"@) == Some(StyleProp::Width),
        style_prop_of("height"@) == Some(StyleProp::Height),
        style_prop_of("margin-left"@) == Some(StyleProp::MarginLeft),
        style_prop_of("margin-top"@) == Some(StyleProp::MarginTop),
        style_prop_of("margin-right"@) == Some(StyleProp::MarginRight),
        style_prop_of("margin-bottom"@) == Some(StyleProp::MarginBottom),
        style_prop_of("padding-left"@) == Some(StyleProp::PaddingLeft),
        style_prop_of("padding-top"@) == Some(StyleProp::PaddingTop),
        style_prop_of("padding-right"@) == Some(StyleProp::PaddingRight),
        style_prop_of("padding-bottom"@) == Some(StyleProp::PaddingBottom),
{
    assert(style_prop_of("background"@) == Some(StyleProp::Background)) by {
        reveal_strlit("background");
    }
    assert(style_prop_of("background-color"@) == Some(StyleProp::Background)) by {
        reveal_strlit("background-color");
        reveal_strlit("background");
        assert("background-color"@.len() != "background"@.len());
    }
    assert(style_prop_of("border-width"@) == Some(StyleProp::BorderWidth)) by {
        reveal_strlit("border-width");
        reveal_strlit("background");
        assert("border-width"@.len() != "background"@.len());
        reveal_strlit("background-color");
        assert("border-width"@.len() != "background-color"@.len());
    }
    assert(style_prop_of("border-color"@) == Some(StyleProp::BorderColor)) by {
        reveal_strlit("border-color");
        reveal_strlit("background");
        assert("border-color"@.len() != "background"@.len());
        reveal_strlit("background-color");
        assert("border-color"@.len() != "background-color"@.len());
        reveal_strlit("border-width");
        assert("border-color"@[7] != "border-width"@[7]);
    }
    assert(style_prop_of("opacity"@) == Some(StyleProp::Opacity)) by {
        reveal_strlit("opacity");
        reveal_strlit("background");
        assert("opacity"@.len() != "background"@.len());
        reveal_strlit("background-color");
        assert("opacity"@.len() != "background-color"@.len());
        reveal_strlit("border-width");
        assert("opacity"@.len() != "border-width"@.len());
        reveal_strlit("border-color");
        assert("opacity"@.len() != "border-color"@.len());
    }
    assert(style_prop_of("x"@) == Some(StyleProp::X)) by {
        reveal_strlit("x");
        reveal_strlit("background");
        assert("x"@.len() != "background"@.len());
        reveal_strlit("background-color");
        assert("x"@.len() != "background-color"@.len());
        reveal_strlit("border-width");
        assert("x"@.len() != "border-width"@.len());
        reveal_strlit("border-color");
        assert("x"@.len() != "border-color"@.len());
        reveal_strlit("opacity");
        assert("x"@.len() != "opacity"@.len());
    }
    assert(style_prop_of("left"@) == Some(StyleProp::X)) by {
        reveal_strlit("left");
        reveal_strlit("background");
        assert("left"@.len() != "background"@.len());
        reveal_strlit("background-color");
        assert("left"@.len() != "background-color"@.len());
        reveal_strlit("border-width");
        assert("left"@.len() != "border-width"@.len());
        reveal_strlit("border-color");
        assert("left"@.len() != "border-color"@.len());
        reveal_strlit("opacity");
        assert("left"@.len() != "opacity"@.len());
        reveal_strlit("x");
        assert("left"@.len() != "x"@.len());
    }
    assert(style_prop_of("y"@) == Some(StyleProp::Y)) by {
        reveal_strlit("y");
        reveal_strlit("background");
        assert("y"@.len() != "background"@.len());
        reveal_strlit("background-color");
        assert("y"@.len() != "background-color"@.len());
        reveal_strlit("border-width");
        assert("y"@.len() != "border-width"@.len());
        reveal_strlit("border-color");
        assert("y"@.len() != "border-color"@.len());
        reveal_strlit("opacity");
        assert("y"@.len() != "opacity"@.len());
        reveal_strlit("x");
        assert("y"@[0] != "x"@[0]);
        reveal_strlit("left");
        assert("y"@.len() != "left"@.len());
    }
    assert(style_prop_of("top"@) == Some(StyleProp::Y)) by {
        reveal_strlit("top");
        reveal_strlit("background");
        assert("top"@.len() != "background"@.len());
        reveal_strlit("background-color");
        assert("top"@.len() != "background-color"@.len());
        reveal_strlit("border-width");
        assert("top"@.len() != "border-width"@.len());
        reveal_strlit("border-color");
        assert("top"@.len() != "border-color"@.len());
        reveal_strlit("opacity");
        assert("top"@.len() != "opacity"@.len());
        reveal_strlit("x");
        assert("top"@.len() != "x"@.len());
        reveal_strlit("left");
        assert("top"@.len() != "left"@.len());
        reveal_strlit("y");
        assert("top"@.len() != "y"@.len());
    }
    assert(style_prop_of("width"@) == Some(StyleProp::Width)) by {
        reveal_strlit("width");
        reveal_strlit("background");
        assert("width"@.len() != "background"@.len());
        reveal_strlit("background-color");
        assert("width"@.len() != "background-color"@.len());
        reveal_strlit("border-width");
        assert("width"@.len() != "border-width"@.len());
        reveal_strlit("border-color");
        assert("width"@.len() != "border-color"@.len());
        reveal_strlit("opacity");
        assert("width"@.len() != "opacity"@.len());
        reveal_strlit("x");
        assert("width"@.len() != "x"@.len());
        reveal_strlit("left");
        assert("width"@.len() != "left"@.len());
        reveal_strlit("y");
        assert("width"@.len() != "y"@.len());
        reveal_strlit("top");
        assert("width"@.len() != "top"@.len());
    }
    assert(style_prop_of("height"@) == Some(StyleProp::Height)) by {
        reveal_strlit("height");
        reveal_strlit("background");
        assert("height"@.len() != "background"@.len());
        reveal_strlit("background-color");
        assert("height"@.len() != "background-color"@.len());
        reveal_strlit("border-width");
        assert("height"@.len() != "border-width"@.len());
        reveal_strlit("border-color");
        assert("height"@.len() != "border-color"@.len());
        reveal_strlit("opacity");
        assert("height"@.len() != "opacity"@.len());
        reveal_strlit("x");
        assert("height"@.len() != "x"@.len());
        reveal_strlit("left");
        assert("height"@.len() != "left"@.len());
        reveal_strlit("y");
        assert("height"@.len() != "y"@.len());
        reveal_strlit("top");
        assert("height"@.len() != "top"@.len());
        reveal_strlit("width");
        assert("height"@.len() != "width"@.len());
    }
    assert(style_prop_of("margin-left"@) == Some(StyleProp::MarginLeft)) by {
        reveal_strlit("margin-left");
        reveal_strlit("background");
        assert("margin-left"@.len() != "background"@.len());
        reveal_strlit("background-color");
        assert("margin-left"@.len() != "background-color"@.len());
        reveal_strlit("border-width");
        assert("margin-left"@.len() != "border-width"@.len());
        reveal_strlit("border-color");
        assert("margin-left"@.len() != "border-color"@.len());
        reveal_strlit("opacity");
        assert("margin-left"@.len() != "opacity"@.len());
        reveal_strlit("x");
        assert("margin-left"@.len() != "x"@.len());
        reveal_strlit("left");
        assert("margin-left"@.len() != "left"@.len());
        reveal_strlit("y");
        assert("margin-left"@.len() != "y"@.len());
        reveal_strlit("top");
        assert("margin-left"@.len() != "top"@.len());
        reveal_strlit("width");
        assert("margin-left"@.len() != "width"@.len());
        reveal_strlit("height");
        assert("margin-left"@.len() != "height"@.len());
    }
    assert(style_prop_of("margin-top"@) == Some(StyleProp::MarginTop)) by {
        reveal_strlit("margin-top");
        reveal_strlit("background");
        assert("margin-top"@[0] != "background"@[0]);
        reveal_strlit("background-color");
        assert("margin-top"@.len() != "background-color"@.len());
        reveal_strlit("border-width");
        assert("margin-top"@.len() != "border-width"@.len());
        reveal_strlit("border-color");
        assert("margin-top"@.len() != "border-color"@.len());
        reveal_strlit("opacity");
        assert("margin-top"@.len() != "opacity"@.len());
        reveal_strlit("x");
        assert("margin-top"@.len() != "x"@.len());
        reveal_strlit("left");
        assert("margin-top"@.len() != "left"@.len());
        reveal_strlit("y");
        assert("margin-top"@.len() != "y"@.len());
        reveal_strlit("top");
        assert("margin-top"@.len() != "top"@.len());
        reveal_strlit("width");
        assert("margin-top"@.len() != "width"@.len());
        reveal_strlit("height");
        assert("margin-top"@.len() != "height"@.len());
        reveal_strlit("margin-left");
        assert("margin-top"@.len() != "margin-left"@.len());
    }
    assert(style_prop_of("margin-right"@) == Some(StyleProp::MarginRight)) by {
        reveal_strlit("margin-right");
        reveal_strlit("background");
        assert("margin-right"@.len() != "background"@.len());
        reveal_strlit("background-color");
        assert("margin-right"@.len() != "background-color"@.len());
        reveal_strlit("border-width");
        assert("margin-right"@[0] != "border-width"@[0]);
        reveal_strlit("border-color");
        assert("margin-right"@[0] != "border-color"@[0]);
        reveal_strlit("opacity");
        assert("margin-right"@.len() != "opacity"@.len());
        reveal_strlit("x");
        assert("margin-right"@.len() != "x"@.len());
        reveal_strlit("left");
        assert("margin-right"@.len() != "left"@.len());
        reveal_strlit("y");
        assert("margin-right"@.len() != "y"@.len());
        reveal_strlit("top");
        assert("margin-right"@.len() != "top"@.len());
        reveal_strlit("width");
        assert("margin-right"@.len() != "width"@.len());
        reveal_strlit("height");
        assert("margin-right"@.len() != "height"@.len());
        reveal_strlit("margin-left");
        assert("margin-right"@.len() != "margin-left"@.len());
        reveal_strlit("margin-top");
        assert("margin-right"@.len() != "margin-top"@.len());
    }
    assert(style_prop_of("margin-bottom"@) == Some(StyleProp::MarginBottom)) by {
        reveal_strlit("margin-bottom");
        reveal_strlit("background");
        assert("margin-bottom"@.len() != "background"@.len());
        reveal_strlit("background-color");
        assert("margin-bottom"@.len() != "background-color"@.len());
        reveal_strlit("border-width");
        assert("margin-bottom"@.len() != "border-width"@.len());
        reveal_strlit("border-color");
        assert("margin-bottom"@.len() != "border-color"@.len());
        reveal_strlit("opacity");
        assert("margin-bottom"@.len() != "opacity"@.len());
        reveal_strlit("x");
        assert("margin-bottom"@.len() != "x"@.len());
        reveal_strlit("left");
        assert("margin-bottom"@.len() != "left"@.len());
        reveal_strlit("y");
        assert("margin-bottom"@.len() != "y"@.len());
        reveal_strlit("top");
        assert("margin-bottom"@.len() != "top"@.len());
        reveal_strlit("width");
        assert("margin-bottom"@.len() != "width"@.len());
        reveal_strlit("height");
        assert("margin-bottom"@.len() != "height"@.len());
        reveal_strlit("margin-left");
        assert("margin-bottom"@.len() != "margin-left"@.len());
        reveal_strlit("margin-top");
        assert("margin-bottom"@.len() != "margin-top"@.len());
        reveal_strlit("margin-right");
        assert("margin-bottom"@.len() != "margin-right"@.len());
    }
    assert(style_prop_of("padding-left"@) == Some(StyleProp::PaddingLeft)) by {
        reveal_strlit("padding-left");
        reveal_strlit("background");
        assert("padding-left"@.len() != "background"@.len());
        reveal_strlit("background-color");
        assert("padding-left"@.len() != "background-color"@.len());
        reveal_strlit("border-width");
        assert("padding-left"@[0] != "border-width"@[0]);
        reveal_strlit("border-color");
        assert("padding-left"@[0] != "border-color"@[0]);
        reveal_strlit("opacity");
        assert("padding-left"@.len() != "opacity"@.len());
        reveal_strlit("x");
        assert("padding-left"@.len() != "x"@.len());
        reveal_strlit("left");
        assert("padding-left"@.len() != "left"@.len());
        reveal_strlit("y");
        assert("padding-left"@.len() != "y"@.len());
        reveal_strlit("top");
        assert("padding-left"@.len() != "top"@.len());
        reveal_strlit("width");
        assert("padding-left"@.len() != "width"@.len());
        reveal_strlit("height");
        assert("padding-left"@.len() != "height"@.len());
        reveal_strlit("margin-left");
        assert("padding-left"@.len() != "margin-left"@.len());
        reveal_strlit("margin-top");
        assert("padding-left"@.len() != "margin-top"@.len());
        reveal_strlit("margin-right");
        assert("padding-left"@[0] != "margin-right"@[0]);
        reveal_strlit("margin-bottom");
        assert("padding-left"@.len() != "margin-bottom"@.len());
    }
    assert(style_prop_of("padding-top"@) == Some(StyleProp::PaddingTop)) by {
        reveal_strlit("padding-top");
        reveal_strlit("background");
        assert("padding-top"@.len() != "background"@.len());
        reveal_strlit("background-color");
        assert("padding-top"@.len() != "background-color"@.len());
        reveal_strlit("border-width");
        assert("padding-top"@.len() != "border-width"@.len());
        reveal_strlit("border-color");
        assert("padding-top"@.len() != "border-color"@.len());
        reveal_strlit("opacity");
        assert("padding-top"@.len() != "opacity"@.len());
        reveal_strlit("x");
        assert("padding-top"@.len() != "x"@.len());
        reveal_strlit("left");
        assert("padding-top"@.len() != "left"@.len());
        reveal_strlit("y");
        assert("padding-top"@.len() != "y"@.len());
        reveal_strlit("top");
        assert("padding-top"@.len() != "top"@.len());
        reveal_strlit("width");
        assert("padding-top"@.len() != "width"@.len());
        reveal_strlit("height");
        assert("padding-top"@.len() != "height"@.len());
        reveal_strlit("margin-left");
        assert("padding-top"@[0] != "margin-left"@[0]);
        reveal_strlit("margin-top");
        assert("padding-top"@.len() != "margin-top"@.len());
        reveal_strlit("margin-right");
        assert("padding-top"@.len() != "margin-right"@.len());
        reveal_strlit("margin-bottom");
        assert("padding-top"@.len() != "margin-bottom"@.len());
        reveal_strlit("padding-left");
        assert("padding-top"@.len() != "padding-left"@.len());
    }
    assert(style_prop_of("padding-right"@) == Some(StyleProp::PaddingRight)) by {
        reveal_strlit("padding-right");
        reveal_strlit("background");
        assert("padding-right"@.len() != "background"@.len());
        reveal_strlit("background-color");
        assert("padding-right"@.len() != "background-color"@.len());
        reveal_strlit("border-width");
        assert("padding-right"@.len() != "border-width"@.len());
        reveal_strlit("border-color");
        assert("padding-right"@.len() != "border-color"@.len());
        reveal_strlit("opacity");
        assert("padding-right"@.len() != "opacity"@.len());
        reveal_strlit("x");
        assert("padding-right"@.len() != "x"@.len());
        reveal_strlit("left");
        assert("padding-right"@.len() != "left"@.len());
        reveal_strlit("y");
        assert("padding-right"@.len() != "y"@.len());
        reveal_strlit("top");
        assert("padding-right"@.len() != "top"@.len());
        reveal_strlit("width");
        assert("padding-right"@.len() != "width"@.len());
        reveal_strlit("height");
        assert("padding-right"@.len() != "height"@.len());
        reveal_strlit("margin-left");
        assert("padding-right"@.len() != "margin-left"@.len());
        reveal_strlit("margin-top");
        assert("padding-right"@.len() != "margin-top"@.len());
        reveal_strlit("margin-right");
        assert("padding-right"@.len() != "margin-right"@.len());
        reveal_strlit("margin-bottom");
        assert("padding-right"@[0] != "margin-bottom"@[0]);
        reveal_strlit("padding-left");
        assert("padding-right"@.len() != "padding-left"@.len());
        reveal_strlit("padding-top");
        assert("padding-right"@.len() != "padding-top"@.len());
    }
    assert(style_prop_of("padding-bottom"@) == Some(StyleProp::PaddingBottom)) by {
        reveal_strlit("padding-bottom");
        reveal_strlit("background");
        assert("padding-bottom"@.len() != "background"@.len());
        reveal_strlit("background-color");
        assert("padding-bottom"@.len() != "background-color"@.len());
        reveal_strlit("border-width");
        assert("padding-bottom"@.len() != "border-width"@.len());
        reveal_strlit("border-color");
        assert("padding-bottom"@.len() != "border-color"@.len());
        reveal_strlit("opacity");
        assert("padding-bottom"@.len() != "opacity"@.len());
        reveal_strlit("x");
        assert("padding-bottom"@.len() != "x"@.len());
        reveal_strlit("left");
        assert("padding-bottom"@.len() != "left"@.len());
        reveal_strlit("y");
        assert("padding-bottom"@.len() != "y"@.len());
        reveal_strlit("top");
        assert("padding-bottom"@.len() != "top"@.len());
        reveal_strlit("width");
        assert("padding-bottom"@.len() != "width"@.len());
        reveal_strlit("height");
        assert("padding-bottom"@.len() != "height"@.len());
        reveal_strlit("margin-left");
        assert("padding-bottom"@.len() != "margin-left"@.len());
        reveal_strlit("margin-top");
        assert("padding-bottom"@.len() != "margin-top"@.len());
        reveal_strlit("margin-right");
        assert("padding-bottom"@.len() != "margin-right"@.len());
        reveal_strlit("margin-bottom");
        assert("padding-bottom"@.len() != "margin-bottom"@.len());
        reveal_strlit("padding-left");
        assert("padding-bottom"@.len() != "padding-left"@.len());
        reveal_strlit("padding-top");
        assert("padding-bottom"@.len() != "padding-top"@.len());
        reveal_strlit("padding-right");
        assert("padding-bottom"@.len() != "padding-right"@.len());
    }
}

/// Different keys name different properties, but for the documented
/// aliases: `background` / `background-color`, `x` / `left`, `y` / `top`.
pub proof fn lemma_style_keys_distinct(k1: Seq<char>, k2: Seq<char>)
    requires
        style_prop_of(k1) is Some,
        style_prop_of(k1) == style_prop_of(k2),
    ensures
        k1 == k2 || ((k1 == "background"@ || k1 == "background-color"@) && (k2 == "background"@
            || k2 == "background-color"@)) || ((k1 == "x"@ || k1 == "left"@) && (k2 == "x"@
            || k2 == "left"@)) || ((k1 == "y"@ || k1 == "top"@) && (k2 == "y"@ || k2 == "top"@)),
{
}

/// Whether the strings `a` and `b` hold the same characters.
pub fn str_eq(a: &str, b: &str) -> (r: bool)
    ensures
        r == (a@ == b@),
{
    a.to_owned() == b.to_owned()
}

impl StyleProp {
    /// Parses a CSS-like key string into a `StyleProp`.
    pub fn from_key(s: &str) -> (p: Option<Self>)
        ensures
            p == style_prop_of(s@),
    {
        if str_eq(s, "background") || str_eq(s, "background-color") {
            Some(StyleProp::Background)
        } else if str_eq(s, "border-width") {
            Some(StyleProp::BorderWidth)
        } else if str_eq(s, "border-color") {
            Some(StyleProp::BorderColor)
        } else if str_eq(s, "opacity") {
            Some(StyleProp::Opacity)
        } else if str_eq(s, "x") || str_eq(s, "left") {
            Some(StyleProp::X)
        } else if str_eq(s, "y") || str_eq(s, "top") {
            Some(StyleProp::Y)
        } else if str_eq(s, "width") {
            Some(StyleProp::Width)
        } else if str_eq(s, "height") {
            Some(StyleProp::Height)
        } else if str_eq(s, "margin-left") {
            Some(StyleProp::MarginLeft)
        } else if str_eq(s, "margin-top") {
            Some(StyleProp::MarginTop)
        } else if str_eq(s, "margin-right") {
            Some(StyleProp::MarginRight)
        } else if str_eq(s, "margin-bottom") {
            Some(StyleProp::MarginBottom)
        } else if str_eq(s, "padding-left") {
            Some(StyleProp::PaddingLeft)
        } else if str_eq(s, "padding-top") {
            Some(StyleProp::PaddingTop)
        } else if str_eq(s, "padding-right") {
            Some(StyleProp::PaddingRight)
        } else if str_eq(s, "padding-bottom") {
            Some(StyleProp::PaddingBottom)
        } else {
            None
        }
    }

    /// Whether the property holds a colour (the others hold numbers).
    pub open spec fn spec_is_color(self) -> bool {
        self == StyleProp::Background || self == StyleProp::BorderColor
    }

    /// Whether the property holds a colour (the others hold numbers).
    #[verifier::when_used_as_spec(spec_is_color)]
    pub fn is_color(self) -> (b: bool)
        ensures
            b == self.spec_is_color(),
    {
        match self {
            StyleProp::Background | StyleProp::BorderColor => true,
            _ => false,
        }
    }

    /// The slot of the property in a node's table of values.
    pub open spec fn spec_slot(self) -> int {
        match self {
            StyleProp::Background => 0,
            StyleProp::BorderWidth => 1,
            StyleProp::BorderColor => 2,
            StyleProp::Opacity => 3,
            StyleProp::X => 4,
            StyleProp::Y => 5,
            StyleProp::Width => 6,
            StyleProp::Height => 7,
            StyleProp::MarginLeft => 8,
            StyleProp::MarginTop => 9,
            StyleProp::MarginRight => 10,
            StyleProp::MarginBottom => 11,
            StyleProp::PaddingLeft => 12,
            StyleProp::PaddingTop => 13,
            StyleProp::PaddingRight => 14,
            StyleProp::PaddingBottom => 15,
        }
    }

    /// The slot of the property in a node's table of values.
    pub fn slot(self) -> (i: usize)
        ensures
            i == self.spec_slot(),
            i < 16,
    {
        match self {
            StyleProp::Background => 0,
            StyleProp::BorderWidth => 1,
            StyleProp::BorderColor => 2,
            StyleProp::Opacity => 3,
            StyleProp::X => 4,
            StyleProp::Y => 5,
            StyleProp::Width => 6,
            StyleProp::Height => 7,
            StyleProp::MarginLeft => 8,
            StyleProp::MarginTop => 9,
            StyleProp::MarginRight => 10,
            StyleProp::MarginBottom => 11,
            StyleProp::PaddingLeft => 12,
            StyleProp::PaddingTop => 13,
            StyleProp::PaddingRight => 14,
            StyleProp::PaddingBottom => 15,
        }
    }
}

/// Event type for `event_on`.
#[derive(Debug, Clone, Copy, PartialEq, Eq, Structural)]
pub enum EventType {
    /// Mouse / touch primary-button click.
    Click,
    /// Pointer moved over the node.
    PointerMove,
    /// Pointer button pressed.
    PointerDown,
    /// Pointer button released.
    PointerUp,
    /// Scroll-wheel or touch-scroll gesture.
    Scroll,
    /// Key pressed while the node has focus.
    KeyDown,
    /// Key released while the node has focus.
    KeyUp,
    /// Node received input focus.
    Focus,
    /// Node lost input focus.
    FocusLost,
}

/// The legacy name of each event type.
pub open spec fn event_name(e: EventType) -> Seq<char> {
    match e {
        EventType::Click => "click"@,
        EventType::PointerMove => "pointermove"@,
        EventType::PointerDown => "pointerdown"@,
        EventType::PointerUp => "pointerup"@,
        EventType::Scroll => "scroll"@,
        EventType::KeyDown => "keydown"@,
        EventType::KeyUp => "keyup"@,
        EventType::Focus => "focus"@,
        EventType::FocusLost => "focuslost"@,
    }
}

impl EventType {
    /// Returns the canonical string name used in the legacy WebUI API.
    pub fn as_str(self) -> (s: &'static str)
        ensures
            s@ == event_name(self),
    {
        match self {
            EventType::Click => "click",
            EventType::PointerMove => "pointermove",
            EventType::PointerDown => "pointerdown",
            EventType::PointerUp => "pointerup",
            EventType::Scroll => "scroll",
            EventType::KeyDown => "keydown",
            EventType::KeyUp => "keyup",
            EventType::Focus => "focus",
            EventType::FocusLost => "focuslost",
        }
    }
}

/// Payload passed to event handlers: whether propagation was stopped and
/// whether the default action was prevented.
pub struct EventContext {
    propagation_stopped: bool,
    default_prevented: bool,
}

impl EventContext {
    /// Whether propagation was stopped.
    pub closed spec fn spec_stopped(&self) -> bool {
        self.propagation_stopped
    }

    /// Whether the default action was prevented.
    pub closed spec fn spec_prevented(&self) -> bool {
        self.default_prevented
    }

    /// Creates a fresh context with no flags set.
    pub fn new() -> (c: Self)
        ensures
            !c.spec_stopped(),
            !c.spec_prevented(),
    {
        EventContext { propagation_stopped: false, default_prevented: false }
    }

    /// Prevents the event from bubbling to ancestor nodes.
    pub fn stop_propagation(&mut self)
        ensures
            final(self).spec_stopped(),
            final(self).spec_prevented() == old(self).spec_prevented(),
    {
        self.propagation_stopped = true;
    }

    /// Suppresses the default platform action for this event.
    pub fn prevent_default(&mut self)
        ensures
            final(self).spec_prevented(),
            final(self).spec_stopped() == old(self).spec_stopped(),
    {
        self.default_prevented = true;
    }

    /// Returns `true` if `stop_propagation` was called.
    pub fn is_propagation_stopped(&self) -> (b: bool)
        ensures
            b == self.spec_stopped(),
    {
        self.propagation_stopped
    }

    /// Returns `true` if `prevent_default` was called.
    pub fn is_default_prevented(&self) -> (b: bool)
        ensures
            b == self.spec_prevented(),
    {
        self.default_prevented
    }
}

impl Default for EventContext {
    fn default() -> (c: Self)
        ensures
            !c.spec_stopped(),
            !c.spec_prevented(),
    {
        EventContext::new()
    }
}

/// Errors returned by compat API calls.
#[derive(Debug)]
pub enum CompatError {
    /// The supplied `NodeId` does not exist in the current tree.
    InvalidNode,
    /// The supplied `ListenerId` does not match any registered listener.
    InvalidListener,
    /// A style value string could not be parsed (e.g. malformed hex colour).
    StyleParseError(String),
    /// An unexpected internal failure.
    InternalError(String),
}

impl CompatError {
    /// The error's message, as the legacy API printed it.
    pub fn message(&self) -> (m: String)
        ensures
            m@ == match self {
                CompatError::InvalidNode => "invalid node id"@,
                CompatError::InvalidListener => "invalid listener id"@,
                CompatError::StyleParseError(s) => "style parse error: "@ + s@,
                CompatError::InternalError(s) => "internal error: "@ + s@,
            },
    {
        match self {
            CompatError::InvalidNode => "invalid node id".to_owned(),
            CompatError::InvalidListener => "invalid listener id".to_owned(),
            CompatError::StyleParseError(s) => {
                let mut m = "style parse error: ".to_owned();
                m.append(s.as_str());
                m
            },
            CompatError::InternalError(s) => {
                let mut m = "internal error: ".to_owned();
                m.append(s.as_str());
                m
            },
        }
    }
}

/// Convenience alias for `Result<T, CompatError>`.
pub type CompatResult<T> = Result<T, CompatError>;

} // verus!
