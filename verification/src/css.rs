//! Inline style text: `name:value;` declarations separated by spaces, and
//! the style of an animated element assembled from its property values.
use vstd::prelude::*;
use crate::json_format::{push_char, push_text};

verus! {

/// The style text after appending the declaration `name:value;`, separated
/// from earlier declarations by a space.
pub open spec fn with_prop(style: Seq<char>, name: Seq<char>, value: Seq<char>) -> Seq<char> {
    (if style.len() == 0 { style } else { style.push(' ') }) + name + seq![':'] + value + seq![';']
}

/// Append the declaration `name:value;` to an inline style.
pub fn push_prop(style: &mut String, name: &str, value: &str)
    ensures
        final(style)@ == with_prop(old(style)@, name@, value@),
{
    if !style.as_str().is_empty() {
        push_char(style, ' ');
    }
    push_text(style, name);
    push_char(style, ':');
    push_text(style, value);
    push_char(style, ';');
}

/// An animated element's style with every number already written as text
/// (lengths in pixels and angles in degrees, without their unit); `None`
/// leaves a property out.
pub struct StyleText {
    /// Opacity.
    pub opacity: Option<String>,
    /// A raw transform appended after the others.
    pub transform: Option<String>,
    /// Uniform scale.
    pub scale: Option<String>,
    /// Horizontal translation, in pixels.
    pub translate_x: Option<String>,
    /// Vertical translation, in pixels.
    pub translate_y: Option<String>,
    /// Rotation, in degrees.
    pub rotate: Option<String>,
    /// Horizontal skew, in degrees.
    pub skew_x: Option<String>,
    /// Vertical skew, in degrees.
    pub skew_y: Option<String>,
    /// Blur radius, in pixels.
    pub blur: Option<String>,
    /// Background color as a CSS color.
    pub background_color: Option<String>,
    /// Border radius, in pixels.
    pub border_radius: Option<String>,
    /// Width, in pixels.
    pub width: Option<String>,
    /// Height, in pixels.
    pub height: Option<String>,
    /// Clip path.
    pub clip_path: Option<String>,
    /// Further declarations, as (name, value).
    pub custom: Vec<(String, String)>,
}

/// An optional text as characters.
pub open spec fn text(o: Option<String>) -> Option<Seq<char>> {
    match o {
        Some(s) => Some(s@),
        None => None,
    }
}

/// `parts` joined with single spaces.
pub open spec fn join_spaces(parts: Seq<Seq<char>>) -> Seq<char>
    decreases parts.len(),
{
    if parts.len() == 0 {
        Seq::empty()
    } else if parts.len() == 1 {
        parts[0]
    } else {
        join_spaces(parts.drop_last()) + seq![' '] + parts.last()
    }
}

/// `parts` followed by `wrap(prefix, v, suffix)` when `value` is present.
pub open spec fn push_part(parts: Seq<Seq<char>>, prefix: Seq<char>, value: Option<Seq<char>>, suffix: Seq<char>) -> Seq<Seq<char>> {
    match value {
        Some(v) => parts.push(prefix + v + suffix),
        None => parts,
    }
}

/// The transform functions of a style, in order: translation (both axes,
/// the vertical one zero when absent, or the vertical one alone), scale,
/// rotation, skews, then the raw transform.
pub open spec fn transform_parts(s: StyleText) -> Seq<Seq<char>> {
    let translate = match (text(s.translate_x), text(s.translate_y)) {
        (Some(x), Some(y)) => seq!["translate("@ + x + "px,"@ + y + "px)"@],
        (Some(x), None) => seq!["translate("@ + x + "px,0px)"@],
        (None, Some(y)) => seq!["translateY("@ + y + "px)"@],
        (None, None) => Seq::empty(),
    };
    let p1 = push_part(translate, "scale("@, text(s.scale), ")"@);
    let p2 = push_part(p1, "rotate("@, text(s.rotate), "deg)"@);
    let p3 = push_part(p2, "skewX("@, text(s.skew_x), "deg)"@);
    let p4 = push_part(p3, "skewY("@, text(s.skew_y), "deg)"@);
    match text(s.transform) {
        Some(raw) => p4.push(raw),
        None => p4,
    }
}

/// A declaration appended when its value is present.
pub open spec fn with_opt_prop(style: Seq<char>, name: Seq<char>, value: Option<Seq<char>>) -> Seq<char> {
    match value {
        Some(v) => with_prop(style, name, v),
        None => style,
    }
}

/// A value with a suffix, when present.
pub open spec fn suffixed(value: Option<Seq<char>>, suffix: Seq<char>) -> Option<Seq<char>> {
    match value {
        Some(v) => Some(v + suffix),
        None => None,
    }
}

/// The custom declarations appended in order.
pub open spec fn with_custom(style: Seq<char>, custom: Seq<(String, String)>) -> Seq<char>
    decreases custom.len(),
{
    if custom.len() == 0 {
        style
    } else {
        with_prop(with_custom(style, custom.drop_last()), custom.last().0@, custom.last().1@)
    }
}

/// The inline style of `s`.
pub open spec fn css_text(s: StyleText) -> Seq<char> {
    let transform = join_spaces(transform_parts(s));
    let c1 = with_opt_prop(Seq::empty(), "opacity"@, text(s.opacity));
    let c2 = if transform.len() == 0 { c1 } else { with_prop(c1, "transform"@, transform) };
    let c3 = with_opt_prop(
        c2,
        "filter"@,
        match text(s.blur) {
            Some(b) => Some("blur("@ + b + "px)"@),
            None => None,
        },
    );
    let c4 = with_opt_prop(c3, "background-color"@, text(s.background_color));
    let c5 = with_opt_prop(c4, "border-radius"@, suffixed(text(s.border_radius), "px"@));
    let c6 = with_opt_prop(c5, "width"@, suffixed(text(s.width), "px"@));
    let c7 = with_opt_prop(c6, "height"@, suffixed(text(s.height), "px"@));
    let c8 = with_opt_prop(c7, "clip-path"@, text(s.clip_path));
    with_custom(c8, s.custom@)
}

/// `first`, then `second` and `third` appended.
fn concat3(first: &str, second: &str, third: &str) -> (out: String)
    ensures
        out@ == first@ + second@ + third@,
{
    let mut out = String::new();
    push_text(&mut out, first);
    push_text(&mut out, second);
    push_text(&mut out, third);
    out
}

/// A length in pixels.
fn with_px(number: &String) -> (out: String)
    ensures
        out@ == number@ + "px"@,
{
    let mut out = number.clone();
    push_text(&mut out, "px");
    out
}

/// Append a declaration whose value is present.
fn push_opt_prop(style: &mut String, name: &str, value: &Option<String>)
    ensures
        final(style)@ == with_opt_prop(old(style)@, name@, text(*value)),
{
    if let Some(v) = value {
        push_prop(style, name, v.as_str());
    }
}

/// Append `prefix`, the value and `suffix` as a part, when the value is present.
fn push_opt_part(parts: &mut Vec<String>, prefix: &str, value: &Option<String>, suffix: &str)
    ensures
        final(parts)@.map_values(|p: String| p@) == push_part(
            old(parts)@.map_values(|p: String| p@),
            prefix@,
            text(*value),
            suffix@,
        ),
{
    if let Some(v) = value {
        let part = concat3(prefix, v.as_str(), suffix);
        parts.push(part);
        assert(parts@.map_values(|p: String| p@) =~= old(parts)@.map_values(|p: String| p@).push(
            part@,
        ));
    }
}

impl StyleText {
    /// The CSS `transform` value: translation, scale, rotation, skews and the
    /// raw transform, separated by spaces.
    pub fn transform_string(&self) -> (out: String)
        ensures
            out@ == join_spaces(transform_parts(*self)),
    {
        let mut parts: Vec<String> = Vec::new();
        match (&self.translate_x, &self.translate_y) {
            (Some(x), Some(y)) => {
                let mut part = concat3("translate(", x.as_str(), "px,");
                push_text(&mut part, y.as_str());
                push_text(&mut part, "px)");
                parts.push(part);
            },
            (Some(x), None) => {
                parts.push(concat3("translate(", x.as_str(), "px,0px)"));
            },
            (None, Some(y)) => {
                parts.push(concat3("translateY(", y.as_str(), "px)"));
            },
            (None, None) => {},
        }
        proof {
            let expected = match (text(self.translate_x), text(self.translate_y)) {
                (Some(x), Some(y)) => seq!["translate("@ + x + "px,"@ + y + "px)"@],
                (Some(x), None) => seq!["translate("@ + x + "px,0px)"@],
                (None, Some(y)) => seq!["translateY("@ + y + "px)"@],
                (None, None) => Seq::empty(),
            };
            assert(parts@.map_values(|p: String| p@) =~= expected);
        }
        push_opt_part(&mut parts, "scale(", &self.scale, ")");
        push_opt_part(&mut parts, "rotate(", &self.rotate, "deg)");
        push_opt_part(&mut parts, "skewX(", &self.skew_x, "deg)");
        push_opt_part(&mut parts, "skewY(", &self.skew_y, "deg)");
        if let Some(raw) = &self.transform {
            let ghost before = parts@.map_values(|p: String| p@);
            parts.push(raw.clone());
            assert(parts@.map_values(|p: String| p@) =~= before.push(raw@));
        }
        let ghost texts = parts@.map_values(|p: String| p@);
        assert(texts == transform_parts(*self));
        let mut out = String::new();
        let mut i: usize = 0;
        while i < parts.len()
            invariant
                i <= parts@.len(),
                texts == parts@.map_values(|p: String| p@),
                out@ == join_spaces(texts.take(i as int)),
            decreases parts@.len() - i,
        {
            if i > 0 {
                push_char(&mut out, ' ');
            }
            push_text(&mut out, parts[i].as_str());
            assert(texts.take(i + 1).drop_last() =~= texts.take(i as int));
            i += 1;
        }
        assert(texts.take(i as int) =~= texts);
        out
    }

    /// The inline style: opacity, transform, filter, background color,
    /// border radius, size, clip path, then the custom declarations.
    pub fn to_css(&self) -> (out: String)
        ensures
            out@ == css_text(*self),
    {
        let mut style = String::new();
        push_opt_prop(&mut style, "opacity", &self.opacity);
        let transform = self.transform_string();
        if !transform.as_str().is_empty() {
            push_prop(&mut style, "transform", transform.as_str());
        }
        if let Some(b) = &self.blur {
            let value = concat3("blur(", b.as_str(), "px)");
            push_prop(&mut style, "filter", value.as_str());
        }
        push_opt_prop(&mut style, "background-color", &self.background_color);
        if let Some(r) = &self.border_radius {
            let value = with_px(r);
            push_prop(&mut style, "border-radius", value.as_str());
        }
        if let Some(w) = &self.width {
            let value = with_px(w);
            push_prop(&mut style, "width", value.as_str());
        }
        if let Some(h) = &self.height {
            let value = with_px(h);
            push_prop(&mut style, "height", value.as_str());
        }
        push_opt_prop(&mut style, "clip-path", &self.clip_path);
        let ghost head = style@;
        let mut i: usize = 0;
        while i < self.custom.len()
            invariant
                i <= self.custom@.len(),
                style@ == with_custom(head, self.custom@.take(i as int)),
            decreases self.custom@.len() - i,
        {
            let (name, value) = &self.custom[i];
            push_prop(&mut style, name.as_str(), value.as_str());
            assert(self.custom@.take(i + 1).drop_last() =~= self.custom@.take(i as int));
            i += 1;
        }
        assert(self.custom@.take(i as int) =~= self.custom@);
        style
    }
}

} // verus!
verus! {

/// Custom declarations are written one after the other: appending one
/// writes exactly that declaration after the rest, and writing two lists
/// in turn is writing them joined.
pub proof fn law_custom_declarations_compose(
    style: Seq<char>,
    first: Seq<(String, String)>,
    second: Seq<(String, String)>,
)
    ensures
        with_custom(style, first + second) == with_custom(with_custom(style, first), second),
        with_custom(style, Seq::<(String, String)>::empty()) == style,
        forall|name: String, value: String|
            with_custom(style, seq![(name, value)]) == #[trigger] with_prop(style, name@, value@),
    decreases second.len(),
{
    assert forall|name: String, value: String|
        with_custom(style, seq![(name, value)]) == #[trigger] with_prop(style, name@, value@) by {
        let c = seq![(name, value)];
        assert(c.drop_last() =~= Seq::<(String, String)>::empty());
        assert(with_custom(style, c.drop_last()) == style);
        assert(c.last() == (name, value));
    }
    if second.len() == 0 {
        assert(first + second =~= first);
    } else {
        law_custom_declarations_compose(style, first, second.drop_last());
        assert((first + second).drop_last() =~= first + second.drop_last());
        assert((first + second).last() == second.last());
    }
}

} // verus!
