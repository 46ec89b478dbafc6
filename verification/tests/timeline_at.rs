use animato::timeline_at::{parse_at_text, parse_trimmed_at, AtSpec};

fn text(s: &str) -> String {
    s.to_owned()
}

#[test]
fn keywords_ignore_ascii_case_and_space() {
    assert_eq!(parse_at_text(" start "), AtSpec::Start);
    assert_eq!(parse_at_text("START"), AtSpec::Start);
    assert_eq!(parse_at_text("End"), AtSpec::End);
}

#[test]
fn labels_offsets_and_absolute_times() {
    assert_eq!(parse_at_text("label:intro"), AtSpec::Label(text("intro")));
    assert_eq!(parse_at_text("+0.5"), AtSpec::Offset(text("0.5")));
    assert_eq!(parse_at_text("-0.25"), AtSpec::Offset(text("-0.25")));
    assert_eq!(parse_at_text("@2"), AtSpec::Absolute(text("2")));
    assert_eq!(parse_at_text("1.5"), AtSpec::Bare(text("1.5")));
    assert_eq!(parse_at_text("intro"), AtSpec::Bare(text("intro")));
    assert_eq!(parse_trimmed_at(""), AtSpec::Bare(text("")));
    assert_eq!(parse_trimmed_at("Label:x"), AtSpec::Bare(text("Label:x")));
}
