use animato::easing_parse::{argument_texts, check_arity, parse_easing_text, EasingParseError, EasingSpec};
use animato::easing::{classic_easing_id, easing_name, EasingKind};

#[test]
fn supported_easing_ids_cover_all_shader_variants() {
    let supported = [
        EasingKind::Linear,
        EasingKind::EaseInQuad,
        EasingKind::EaseOutQuad,
        EasingKind::EaseInOutQuad,
        EasingKind::EaseInCubic,
        EasingKind::EaseOutCubic,
        EasingKind::EaseInOutCubic,
        EasingKind::EaseInQuart,
        EasingKind::EaseOutQuart,
        EasingKind::EaseInOutQuart,
        EasingKind::EaseInQuint,
        EasingKind::EaseOutQuint,
        EasingKind::EaseInOutQuint,
        EasingKind::EaseInSine,
        EasingKind::EaseOutSine,
        EasingKind::EaseInOutSine,
        EasingKind::EaseInExpo,
        EasingKind::EaseOutExpo,
        EasingKind::EaseInOutExpo,
        EasingKind::EaseInCirc,
        EasingKind::EaseOutCirc,
        EasingKind::EaseInOutCirc,
        EasingKind::EaseInBack,
        EasingKind::EaseOutBack,
        EasingKind::EaseInOutBack,
        EasingKind::EaseInElastic,
        EasingKind::EaseOutElastic,
        EasingKind::EaseInOutElastic,
        EasingKind::EaseInBounce,
        EasingKind::EaseOutBounce,
        EasingKind::EaseInOutBounce,
    ];

    for (index, easing) in supported.iter().enumerate() {
        assert_eq!(classic_easing_id(*easing), Some(index as u32));
    }
    assert_eq!(classic_easing_id(EasingKind::Steps), None);
}

#[test]
fn parameterized_easings_have_no_shader_id() {
    for kind in [
        EasingKind::CubicBezier,
        EasingKind::Steps,
        EasingKind::RoughEase,
        EasingKind::SlowMo,
        EasingKind::Wiggle,
        EasingKind::CustomBounce,
        EasingKind::ExpoScale,
        EasingKind::Custom,
    ] {
        assert_eq!(classic_easing_id(kind), None);
    }
}

#[test]
fn easing_names_are_canonical() {
    assert_eq!(easing_name(EasingKind::Linear), "linear");
    assert_eq!(easing_name(EasingKind::EaseInOutQuad), "easeInOutQuad");
    assert_eq!(easing_name(EasingKind::EaseOutBounce), "easeOutBounce");
    assert_eq!(easing_name(EasingKind::CubicBezier), "cubicBezier");
    assert_eq!(easing_name(EasingKind::Steps), "steps");
    assert_eq!(easing_name(EasingKind::RoughEase), "roughEase");
    assert_eq!(easing_name(EasingKind::SlowMo), "slowMo");
    assert_eq!(easing_name(EasingKind::Wiggle), "wiggle");
    assert_eq!(easing_name(EasingKind::CustomBounce), "customBounce");
    assert_eq!(easing_name(EasingKind::ExpoScale), "expoScale");
    assert_eq!(easing_name(EasingKind::Custom), "custom");
}


fn call(kind: EasingKind, args: &str) -> EasingSpec {
    EasingSpec::Call { kind, args: args.to_owned() }
}

#[test]
fn parses_named_easing() {
    assert_eq!(parse_easing_text("ease-out-cubic").unwrap(), EasingSpec::Named(EasingKind::EaseOutCubic));
    assert_eq!(parse_easing_text("easeInOutBack").unwrap(), EasingSpec::Named(EasingKind::EaseInOutBack));
}

#[test]
fn parses_parameterized_easing() {
    assert_eq!(parse_easing_text("steps(5)").unwrap(), call(EasingKind::Steps, "5"));
    assert_eq!(argument_texts("5"), vec!["5".to_owned()]);
    assert_eq!(check_arity(EasingKind::Steps, 1), Ok(()));

    let parsed = parse_easing_text("cubicBezier(0.4, 0, 0.2, 1)").unwrap();
    assert_eq!(parsed, call(EasingKind::CubicBezier, "0.4, 0, 0.2, 1"));
    assert_eq!(argument_texts("0.4, 0, 0.2, 1"), vec!["0.4", " 0", " 0.2", " 1"]);
    assert_eq!(check_arity(EasingKind::CubicBezier, 4), Ok(()));

    assert_eq!(parse_easing_text("roughEase(0.4, 8)").unwrap(), call(EasingKind::RoughEase, "0.4, 8"));
    assert_eq!(check_arity(EasingKind::RoughEase, 2), Ok(()));
}

#[test]
fn rejects_bad_easing() {
    assert_eq!(parse_easing_text("nope"), Err(EasingParseError::Unknown));
    assert_eq!(parse_easing_text("steps(1, 2)").unwrap(), call(EasingKind::Steps, "1, 2"));
    assert_eq!(argument_texts("1, 2").len(), 2);
    assert_eq!(
        check_arity(EasingKind::Steps, 2),
        Err(EasingParseError::WrongArity { kind: EasingKind::Steps, expected: 1, got: 2 })
    );
}

#[test]
fn canonical_names_read_back() {
    for index in 0..31u32 {
        let kind = [
            EasingKind::Linear, EasingKind::EaseInQuad, EasingKind::EaseOutQuad, EasingKind::EaseInOutQuad,
            EasingKind::EaseInCubic, EasingKind::EaseOutCubic, EasingKind::EaseInOutCubic, EasingKind::EaseInQuart,
            EasingKind::EaseOutQuart, EasingKind::EaseInOutQuart, EasingKind::EaseInQuint, EasingKind::EaseOutQuint,
            EasingKind::EaseInOutQuint, EasingKind::EaseInSine, EasingKind::EaseOutSine, EasingKind::EaseInOutSine,
            EasingKind::EaseInExpo, EasingKind::EaseOutExpo, EasingKind::EaseInOutExpo, EasingKind::EaseInCirc,
            EasingKind::EaseOutCirc, EasingKind::EaseInOutCirc, EasingKind::EaseInBack, EasingKind::EaseOutBack,
            EasingKind::EaseInOutBack, EasingKind::EaseInElastic, EasingKind::EaseOutElastic,
            EasingKind::EaseInOutElastic, EasingKind::EaseInBounce, EasingKind::EaseOutBounce,
            EasingKind::EaseInOutBounce,
        ][index as usize];
        assert_eq!(classic_easing_id(kind), Some(index));
        assert_eq!(parse_easing_text(easing_name(kind)), Ok(EasingSpec::Named(kind)));
    }
}

#[test]
fn names_ignore_case_separators_and_surrounding_space() {
    assert_eq!(parse_easing_text("  EASE_IN out-quad \n"), Ok(EasingSpec::Named(EasingKind::EaseInOutQuad)));
    assert_eq!(parse_easing_text("Linear"), Ok(EasingSpec::Named(EasingKind::Linear)));
    assert_eq!(parse_easing_text(""), Err(EasingParseError::Unknown));
    assert_eq!(parse_easing_text("steps"), Err(EasingParseError::Unknown));
}

#[test]
fn call_forms_and_argument_edges() {
    assert_eq!(parse_easing_text("cubic-bezier(1,2,3,4)"), Ok(call(EasingKind::CubicBezier, "1,2,3,4")));
    assert_eq!(parse_easing_text(" slowMo(0.5, 0.7) "), Ok(call(EasingKind::SlowMo, "0.5, 0.7")));
    assert_eq!(parse_easing_text("wiggle(5)"), Ok(call(EasingKind::Wiggle, "5")));
    assert_eq!(parse_easing_text("customBounce(0.7)"), Ok(call(EasingKind::CustomBounce, "0.7")));
    assert_eq!(parse_easing_text("expoScale(0.5,2)"), Ok(call(EasingKind::ExpoScale, "0.5,2")));
    assert_eq!(parse_easing_text("steps)5("), Err(EasingParseError::Unknown));
    assert_eq!(parse_easing_text("steps()"), Ok(call(EasingKind::Steps, "")));
    assert!(argument_texts("  ").is_empty());
    assert_eq!(argument_texts("1,,2"), vec!["1", "", "2"]);
    assert_eq!(
        EasingParseError::WrongArity { kind: EasingKind::CubicBezier, expected: 4, got: 1 }.message("x"),
        "cubicBezier() expects four numeric arguments"
    );
    assert_eq!(EasingParseError::Unknown.message("nope"), "unknown easing `nope`");
}

#[test]
fn padded_canonical_names_read_back() {
    assert_eq!(parse_easing_text("  linear "), Ok(EasingSpec::Named(EasingKind::Linear)));
    assert_eq!(parse_easing_text("\u{3000}easeOutBounce\u{a0}"), Ok(EasingSpec::Named(EasingKind::EaseOutBounce)));
}
