use animato::svg::{SvgCommand, SvgPath, SvgPathError, SvgPathParser, SvgValue};

/// A path command with its coordinates evaluated.
#[derive(Clone, Debug, PartialEq)]
enum PathCommand {
    MoveTo([f32; 2]),
    LineTo([f32; 2]),
    QuadTo { control: [f32; 2], end: [f32; 2] },
    CubicTo { control1: [f32; 2], control2: [f32; 2], end: [f32; 2] },
    ArcTo { radii: [f32; 2], x_axis_rotation: f32, large_arc: bool, sweep: bool, end: [f32; 2] },
    ClosePath,
}

fn evaluate(d: &str, path: &SvgPath) -> Vec<PathCommand> {
    let mut values: Vec<f32> = Vec::new();
    for value in &path.values {
        let v = match *value {
            SvgValue::Origin => 0.0,
            SvgValue::Literal { start, end } => d[start..end].parse::<f32>().unwrap(),
            SvgValue::Offset { base, start, end } => values[base] + d[start..end].parse::<f32>().unwrap(),
        };
        values.push(v);
    }
    let p = |(x, y): (usize, usize)| [values[x], values[y]];
    path.commands
        .iter()
        .map(|c| match *c {
            SvgCommand::MoveTo(pt) => PathCommand::MoveTo(p(pt)),
            SvgCommand::LineTo(pt) => PathCommand::LineTo(p(pt)),
            SvgCommand::QuadTo { control, end } => PathCommand::QuadTo { control: p(control), end: p(end) },
            SvgCommand::CubicTo { control1, control2, end } => {
                PathCommand::CubicTo { control1: p(control1), control2: p(control2), end: p(end) }
            }
            SvgCommand::ArcTo { radii, x_axis_rotation, large_arc, sweep, end } => PathCommand::ArcTo {
                radii: p(radii),
                x_axis_rotation: values[x_axis_rotation],
                large_arc,
                sweep,
                end: p(end),
            },
            SvgCommand::ClosePath => PathCommand::ClosePath,
        })
        .collect()
}

fn try_parse(d: &str) -> Result<Vec<PathCommand>, SvgPathError> {
    SvgPathParser::try_parse(d).map(|path| evaluate(d, &path))
}

#[test]
fn parses_basic_absolute_commands() {
    let commands = try_parse("M 0 0 L 10 0 H 20 V 30 Z").unwrap();
    assert_eq!(
        commands,
        vec![
            PathCommand::MoveTo([0.0, 0.0]),
            PathCommand::LineTo([10.0, 0.0]),
            PathCommand::LineTo([20.0, 0.0]),
            PathCommand::LineTo([20.0, 30.0]),
            PathCommand::ClosePath,
        ]
    );
}

#[test]
fn parses_relative_commands() {
    let commands = try_parse("m10 10 l5 0 h5 v-5 q5 0 5 5").unwrap();
    assert_eq!(commands[0], PathCommand::MoveTo([10.0, 10.0]));
    assert_eq!(commands[1], PathCommand::LineTo([15.0, 10.0]));
    assert_eq!(commands[2], PathCommand::LineTo([20.0, 10.0]));
    assert_eq!(commands[3], PathCommand::LineTo([20.0, 5.0]));
    assert_eq!(commands[4], PathCommand::QuadTo { control: [25.0, 5.0], end: [25.0, 10.0] });
}

#[test]
fn parses_repeated_moveto_as_line_to() {
    let commands = try_parse("M0 0 10 10 20 0").unwrap();
    assert_eq!(commands.len(), 3);
    assert_eq!(commands[1], PathCommand::LineTo([10.0, 10.0]));
    assert_eq!(commands[2], PathCommand::LineTo([20.0, 0.0]));
}

#[test]
fn parses_cubic_and_arc() {
    let commands = try_parse("M0 0 C10 0 10 20 20 20 A5 5 0 01 30 20").unwrap();
    assert_eq!(commands.len(), 3);
    assert_eq!(
        commands[2],
        PathCommand::ArcTo {
            radii: [5.0, 5.0],
            x_axis_rotation: 0.0,
            large_arc: false,
            sweep: true,
            end: [30.0, 20.0],
        }
    );
}

#[test]
fn parses_adjacent_negative_numbers() {
    let commands = try_parse("M10-20L30-40").unwrap();
    assert_eq!(commands[0], PathCommand::MoveTo([10.0, -20.0]));
    assert_eq!(commands[1], PathCommand::LineTo([30.0, -40.0]));
}

#[test]
fn unsupported_command_is_error() {
    let err = SvgPathParser::try_parse("M0 0 S 1 2 3 4").unwrap_err();
    assert!(matches!(err, SvgPathError::UnsupportedCommand { .. }));
    assert!(SvgPathParser::parse("M0 0 S 1 2 3 4").commands.is_empty());
}

#[test]
fn unsupported_command_reports_letter_and_offset() {
    assert_eq!(
        SvgPathParser::try_parse("M0 0 S 1 2 3 4"),
        Err(SvgPathError::UnsupportedCommand { command: 'S', at: 5 })
    );
}

#[test]
fn empty_and_blank_paths_have_no_commands() {
    assert_eq!(try_parse("").unwrap(), vec![]);
    assert_eq!(try_parse(" ,\t\n").unwrap(), vec![]);
    let path = SvgPathParser::parse("");
    assert_eq!(path.values, vec![SvgValue::Origin]);
    assert!(path.commands.is_empty());
}

#[test]
fn drawing_before_moveto_is_error() {
    assert_eq!(try_parse("L 1 2"), Err(SvgPathError::MissingMoveTo { at: 1 }));
    assert_eq!(try_parse("  5 5"), Err(SvgPathError::MissingMoveTo { at: 2 }));
}

#[test]
fn missing_arguments_are_errors() {
    assert_eq!(try_parse("M"), Err(SvgPathError::ExpectedNumber { at: 1 }));
    assert_eq!(try_parse("M 1"), Err(SvgPathError::UnexpectedEnd { at: 3 }));
    assert_eq!(try_parse("M 1 2 L"), Err(SvgPathError::ExpectedNumber { at: 7 }));
    assert_eq!(try_parse("M 1 2 L 3 ."), Err(SvgPathError::ExpectedNumber { at: 10 }));
}

#[test]
fn exponent_without_digits_is_invalid_number() {
    assert_eq!(try_parse("M 1e 2"), Err(SvgPathError::InvalidNumber { at: 3 }));
    assert_eq!(try_parse("M 1 2e+"), Err(SvgPathError::InvalidNumber { at: 5 }));
}

#[test]
fn arc_flags_must_be_zero_or_one() {
    assert_eq!(try_parse("M0 0 A5 5 0 2 1 3 3"), Err(SvgPathError::ExpectedFlag { at: 12 }));
    assert_eq!(try_parse("M0 0 A5 5 0 1"), Err(SvgPathError::UnexpectedEnd { at: 13 }));
}

#[test]
fn numbers_take_signs_fractions_and_exponents() {
    let commands = try_parse("M.5-.5 l1.5e1,+2E-1").unwrap();
    assert_eq!(commands[0], PathCommand::MoveTo([0.5, -0.5]));
    assert_eq!(commands[1], PathCommand::LineTo([15.5, -0.3]));
}

#[test]
fn close_path_returns_to_subpath_start() {
    let commands = try_parse("M1 1 l2 0 z l0 3").unwrap();
    assert_eq!(commands[2], PathCommand::ClosePath);
    assert_eq!(commands[3], PathCommand::LineTo([1.0, 4.0]));
}

#[test]
fn relative_moveto_without_current_point_is_absolute() {
    let commands = try_parse("m3 4 5 6").unwrap();
    assert_eq!(commands, vec![PathCommand::MoveTo([3.0, 4.0]), PathCommand::LineTo([8.0, 10.0])]);
}

#[test]
fn coordinates_refer_to_number_spans() {
    let path = SvgPathParser::try_parse("M1 2 h3").unwrap();
    assert_eq!(
        path.values,
        vec![
            SvgValue::Origin,
            SvgValue::Literal { start: 1, end: 2 },
            SvgValue::Literal { start: 3, end: 4 },
            SvgValue::Offset { base: 1, start: 6, end: 7 },
        ]
    );
    assert_eq!(path.commands, vec![SvgCommand::MoveTo((1, 2)), SvgCommand::LineTo((3, 2))]);
}

#[test]
fn error_messages_match_display_text() {
    assert_eq!(SvgPathError::UnexpectedEnd { at: 3 }.message(), "unexpected end of SVG path at 3");
    assert_eq!(SvgPathError::ExpectedNumber { at: 10 }.message(), "expected SVG path number at 10");
    assert_eq!(SvgPathError::InvalidNumber { at: 0 }.message(), "invalid SVG path number at 0");
    assert_eq!(SvgPathError::ExpectedFlag { at: 12 }.message(), "expected SVG arc flag at 12");
    assert_eq!(
        SvgPathError::UnsupportedCommand { command: 'S', at: 5 }.message(),
        "unsupported SVG path command 'S' at 5"
    );
    assert_eq!(
        SvgPathError::MissingMoveTo { at: 1 }.message(),
        "SVG path must start with moveto before drawing at 1"
    );
}
