use animato::color::{InLab, InLinear, InOklch};
use animato::css::push_prop;
use animato::gesture::{DragAxis, SwipeDirection};
use animato::script_api::require_index;

#[test]
fn style_declarations_are_space_separated() {
    let mut style = String::new();
    push_prop(&mut style, "opacity", "0.5");
    assert_eq!(style, "opacity:0.5;");
    push_prop(&mut style, "transform", "translate(1px, 2px)");
    assert_eq!(style, "opacity:0.5; transform:translate(1px, 2px);");
}

#[test]
fn index_inside_collection_is_returned() {
    assert_eq!(require_index(0, 1, "track"), Ok(0));
    assert_eq!(require_index(4, 5, "track"), Ok(4));
}

#[test]
fn index_past_end_is_reported() {
    assert_eq!(
        require_index(5, 5, "track"),
        Err("track index 5 is out of bounds for length 5".to_owned())
    );
    assert_eq!(
        require_index(0, 0, "spring"),
        Err("spring index 0 is out of bounds for length 0".to_owned())
    );
}

#[test]
fn color_wrappers_keep_their_color() {
    let lab = InLab::new([1u8, 2, 3]);
    assert_eq!(*lab.as_inner(), [1, 2, 3]);
    assert_eq!(lab.into_inner(), [1, 2, 3]);
    let oklch = InOklch::new("teal");
    assert_eq!(*oklch.as_inner(), "teal");
    assert_eq!(oklch.into_inner(), "teal");
    let linear = InLinear::new(7i32);
    assert_eq!(*linear.as_inner(), 7);
    assert_eq!(linear.into_inner(), 7);
}

#[test]
fn drag_axes_and_swipe_directions_compare_by_variant() {
    assert_eq!(DragAxis::Both, DragAxis::Both);
    assert_ne!(DragAxis::X, DragAxis::Y);
    assert_ne!(SwipeDirection::Up, SwipeDirection::Down);
    assert_eq!(SwipeDirection::Left, SwipeDirection::Left);
}

fn texts(s: &str) -> Option<String> {
    Some(s.to_owned())
}

fn empty_style() -> animato::css::StyleText {
    animato::css::StyleText {
        opacity: None,
        transform: None,
        scale: None,
        translate_x: None,
        translate_y: None,
        rotate: None,
        skew_x: None,
        skew_y: None,
        blur: None,
        background_color: None,
        border_radius: None,
        width: None,
        height: None,
        clip_path: None,
        custom: Vec::new(),
    }
}

#[test]
fn style_text_serializes_transform_and_properties() {
    let mut style = empty_style();
    style.opacity = texts("0.5");
    style.translate_x = texts("10");
    style.translate_y = texts("20");
    style.scale = texts("1.25");
    style.blur = texts("4");
    style.background_color = texts("rgba(255,0,128,0.75)");
    assert_eq!(
        style.to_css(),
        "opacity:0.5; transform:translate(10px,20px) scale(1.25); filter:blur(4px); background-color:rgba(255,0,128,0.75);"
    );
}

#[test]
fn style_text_serializes_every_field_in_order() {
    let mut style = empty_style();
    style.opacity = texts("1");
    style.translate_x = texts("0");
    style.translate_y = texts("12.25");
    style.scale = texts("0");
    style.rotate = texts("45.5");
    style.skew_x = texts("10");
    style.skew_y = texts("-5");
    style.transform = texts("translateZ(0)");
    style.blur = texts("0");
    style.background_color = texts("rgba(255,0,64,1)");
    style.border_radius = texts("6");
    style.width = texts("120");
    style.height = texts("80.5");
    style.clip_path = texts("inset(10%)");
    style.custom = vec![("pointer-events".to_owned(), "none".to_owned())];
    assert_eq!(
        style.transform_string(),
        "translate(0px,12.25px) scale(0) rotate(45.5deg) skewX(10deg) skewY(-5deg) translateZ(0)"
    );
    assert_eq!(
        style.to_css(),
        "opacity:1; transform:translate(0px,12.25px) scale(0) rotate(45.5deg) skewX(10deg) skewY(-5deg) translateZ(0); filter:blur(0px); background-color:rgba(255,0,64,1); border-radius:6px; width:120px; height:80.5px; clip-path:inset(10%); pointer-events:none;"
    );
}

#[test]
fn style_text_translation_defaults() {
    let mut style = empty_style();
    style.translate_x = texts("3");
    assert_eq!(style.transform_string(), "translate(3px,0px)");
    let mut style = empty_style();
    style.translate_y = texts("4");
    assert_eq!(style.transform_string(), "translateY(4px)");
    assert_eq!(style.to_css(), "transform:translateY(4px);");
}

#[test]
fn empty_style_text_has_no_declarations() {
    let style = empty_style();
    assert_eq!(style.transform_string(), "");
    assert_eq!(style.to_css(), "");
    let mut raw_empty = empty_style();
    raw_empty.transform = texts("");
    assert_eq!(raw_empty.to_css(), "");
}

#[test]
fn serializes_transform_and_properties() {
    let mut style = empty_style();
    style.opacity = texts("0.5");
    style.translate_x = texts("10");
    style.translate_y = texts("20");
    style.scale = texts("1.25");
    style.blur = texts("4");
    style.background_color = texts("rgba(255,0,128,0.75)");
    let css = style.to_css();
    assert!(css.contains("opacity:0.5;"));
    assert!(css.contains("transform:translate(10px,20px) scale(1.25);"));
    assert!(css.contains("filter:blur(4px);"));
    assert!(css.contains("background-color:rgba(255,0,128,0.75);"));
}
