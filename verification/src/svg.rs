//! SVG path `d` attribute parsing.
//!
//! The parser decides everything about a path but the arithmetic on its
//! numbers: which commands it holds, where each number's text lies in the
//! input, and how each coordinate is formed from them — a number on its own,
//! or a number added to an earlier coordinate (relative commands). Turning the
//! number texts into values and adding them is left to the caller.
use vstd::prelude::*;
use crate::json_format::{decimal, push_char, push_text, push_u64};

verus! {

/// Error returned by [`SvgPathParser::try_parse`].
#[derive(Clone, Copy, Debug, PartialEq, Eq)]
pub enum SvgPathError {
    /// The input ended while a command still required more values.
    UnexpectedEnd {
        /// Byte offset where parsing stopped.
        at: usize,
    },
    /// A numeric value was expected.
    ExpectedNumber {
        /// Byte offset where the number was expected.
        at: usize,
    },
    /// A numeric value was present but malformed (an exponent without digits).
    InvalidNumber {
        /// Byte offset where the malformed part started.
        at: usize,
    },
    /// An SVG arc flag was expected.
    ExpectedFlag {
        /// Byte offset where the flag was expected.
        at: usize,
    },
    /// The input used a command that is not supported.
    UnsupportedCommand {
        /// Unsupported command character.
        command: char,
        /// Byte offset of the command.
        at: usize,
    },
    /// The path data started drawing before an initial moveto command.
    MissingMoveTo {
        /// Byte offset where drawing data appeared.
        at: usize,
    },
}

impl SvgPathError {
    /// The error's message, as its display text.
    pub fn message(&self) -> (text: String)
        ensures
            text@ == error_text(*self),
    {
        let (mut out, at) = match *self {
            SvgPathError::UnexpectedEnd { at } => ("unexpected end of SVG path at ".to_owned(), at),
            SvgPathError::ExpectedNumber { at } => ("expected SVG path number at ".to_owned(), at),
            SvgPathError::InvalidNumber { at } => ("invalid SVG path number at ".to_owned(), at),
            SvgPathError::ExpectedFlag { at } => ("expected SVG arc flag at ".to_owned(), at),
            SvgPathError::UnsupportedCommand { command, at } => {
                let mut text = "unsupported SVG path command '".to_owned();
                push_char(&mut text, command);
                push_text(&mut text, "' at ");
                (text, at)
            },
            SvgPathError::MissingMoveTo { at } => (
                "SVG path must start with moveto before drawing at ".to_owned(),
                at,
            ),
        };
        push_u64(&mut out, at as u64);
        out
    }
}

/// The display text of an error.
pub open spec fn error_text(e: SvgPathError) -> Seq<char> {
    match e {
        SvgPathError::UnexpectedEnd { at } => "unexpected end of SVG path at "@ + decimal(at as nat),
        SvgPathError::ExpectedNumber { at } => "expected SVG path number at "@ + decimal(at as nat),
        SvgPathError::InvalidNumber { at } => "invalid SVG path number at "@ + decimal(at as nat),
        SvgPathError::ExpectedFlag { at } => "expected SVG arc flag at "@ + decimal(at as nat),
        SvgPathError::UnsupportedCommand { command, at } => "unsupported SVG path command '"@
            + seq![command] + "' at "@ + decimal(at as nat),
        SvgPathError::MissingMoveTo { at } => "SVG path must start with moveto before drawing at "@
            + decimal(at as nat),
    }
}

/// How one coordinate of a parsed path is formed.
#[derive(Clone, Copy, Debug, PartialEq, Eq)]
pub enum SvgValue {
    /// Zero: the origin, current before any moveto.
    Origin,
    /// The number written at bytes `start..end` of the input.
    Literal {
        /// First byte of the number's text.
        start: usize,
        /// One past its last byte.
        end: usize,
    },
    /// The coordinate at index `base` plus the number written at `start..end`.
    Offset {
        /// Index of an earlier coordinate.
        base: usize,
        /// First byte of the number's text.
        start: usize,
        /// One past its last byte.
        end: usize,
    },
}

/// A parsed drawing command; points are pairs of coordinate indices.
#[derive(Clone, Copy, Debug, PartialEq, Eq)]
pub enum SvgCommand {
    /// Start a subpath at the point.
    MoveTo((usize, usize)),
    /// Straight line to the point.
    LineTo((usize, usize)),
    /// Quadratic Bezier curve.
    QuadTo {
        /// Control point.
        control: (usize, usize),
        /// End point.
        end: (usize, usize),
    },
    /// Cubic Bezier curve.
    CubicTo {
        /// First control point.
        control1: (usize, usize),
        /// Second control point.
        control2: (usize, usize),
        /// End point.
        end: (usize, usize),
    },
    /// Elliptical arc.
    ArcTo {
        /// The two radii.
        radii: (usize, usize),
        /// Rotation of the ellipse's x axis.
        x_axis_rotation: usize,
        /// Large-arc flag.
        large_arc: bool,
        /// Sweep flag.
        sweep: bool,
        /// End point.
        end: (usize, usize),
    },
    /// Close the current subpath.
    ClosePath,
}

/// A parsed path: the coordinates (each referring only to earlier ones) and
/// the commands that use them.
#[derive(Clone, Debug, PartialEq)]
pub struct SvgPath {
    /// Coordinates, in the order they were read.
    pub values: Vec<SvgValue>,
    /// Commands, in order.
    pub commands: Vec<SvgCommand>,
}

/// The parser's state: position, current point, start of the subpath,
/// whether a current point exists, the command being repeated, and what has
/// been read so far.
#[verifier::ext_equal]
pub struct SvgModel {
    pub pos: int,
    pub current: (int, int),
    pub subpath_start: (int, int),
    pub has_current: bool,
    pub last_command: Option<u8>,
    pub values: Seq<SvgValue>,
    pub commands: Seq<SvgCommand>,
}

/// Comma or ASCII whitespace.
pub open spec fn separator_byte(c: u8) -> bool {
    c == 0x2c || c == 0x20 || c == 0x09 || c == 0x0a || c == 0x0c || c == 0x0d
}

/// ASCII digit.
pub open spec fn is_digit(c: u8) -> bool {
    0x30 <= c <= 0x39
}

/// A byte a number may start with: digit, sign or point.
pub open spec fn number_start_byte(c: u8) -> bool {
    is_digit(c) || c == 0x2b || c == 0x2d || c == 0x2e
}

/// Plus or minus sign.
pub open spec fn is_sign(c: u8) -> bool {
    c == 0x2b || c == 0x2d
}

/// ASCII letter.
pub open spec fn is_letter(c: u8) -> bool {
    (0x41 <= c <= 0x5a) || (0x61 <= c <= 0x7a)
}

/// Lower-case ASCII letter.
pub open spec fn is_lower(c: u8) -> bool {
    0x61 <= c <= 0x7a
}

/// Upper-case form of an ASCII letter.
pub open spec fn upper(c: u8) -> u8 {
    if is_lower(c) { (c - 32) as u8 } else { c }
}

/// First position at or after `pos` that is not a separator.
pub open spec fn skip_separators(b: Seq<u8>, pos: int) -> int
    decreases b.len() - pos,
{
    if 0 <= pos < b.len() && separator_byte(b[pos]) {
        skip_separators(b, pos + 1)
    } else {
        pos
    }
}

/// First position at or after `pos` that is not a digit.
pub open spec fn digits_end(b: Seq<u8>, pos: int) -> int
    decreases b.len() - pos,
{
    if 0 <= pos < b.len() && is_digit(b[pos]) {
        digits_end(b, pos + 1)
    } else {
        pos
    }
}

/// Whether a number comes next, after separators.
pub open spec fn has_number(b: Seq<u8>, pos: int) -> bool {
    let p = skip_separators(b, pos);
    0 <= p < b.len() && number_start_byte(b[p])
}

/// The text span of the number after separators: optional sign, digits,
/// optional point and digits (at least one digit in all), optional exponent
/// with optional sign and at least one digit.
pub open spec fn scan_number(b: Seq<u8>, pos: int) -> Result<(int, int), SvgPathError> {
    let start = skip_separators(b, pos);
    if start >= b.len() {
        Err(SvgPathError::UnexpectedEnd { at: start as usize })
    } else {
        let p1 = if is_sign(b[start]) { start + 1 } else { start };
        let p2 = digits_end(b, p1);
        let dot = p2 < b.len() && b[p2] == 0x2e;
        let p3 = if dot { digits_end(b, p2 + 1) } else { p2 };
        if !(p2 > p1 || (dot && p3 > p2 + 1)) {
            Err(SvgPathError::ExpectedNumber { at: start as usize })
        } else if p3 < b.len() && (b[p3] == 0x65 || b[p3] == 0x45) {
            let q1 = if p3 + 1 < b.len() && is_sign(b[p3 + 1]) { p3 + 2 } else { p3 + 1 };
            let q2 = digits_end(b, q1);
            if q2 == q1 {
                Err(SvgPathError::InvalidNumber { at: p3 as usize })
            } else {
                Ok((start, q2))
            }
        } else {
            Ok((start, p3))
        }
    }
}

/// An arc flag after separators.
pub open spec fn scan_flag(b: Seq<u8>, pos: int) -> Result<(bool, int), SvgPathError> {
    let at = skip_separators(b, pos);
    if 0 <= at < b.len() {
        if b[at] == 0x30 {
            Ok((false, at + 1))
        } else if b[at] == 0x31 {
            Ok((true, at + 1))
        } else {
            Err(SvgPathError::ExpectedFlag { at: at as usize })
        }
    } else {
        Err(SvgPathError::UnexpectedEnd { at: at as usize })
    }
}

/// A point as two coordinate indices.
pub open spec fn point(p: (int, int)) -> (usize, usize) {
    (p.0 as usize, p.1 as usize)
}

/// Read one number and record it as a coordinate: on its own, or added to
/// the coordinate `base`.
pub open spec fn read_value(b: Seq<u8>, m: SvgModel, base: Option<int>) -> Result<(SvgModel, int), SvgPathError> {
    match scan_number(b, m.pos) {
        Err(e) => Err(e),
        Ok((s, e)) => {
            let v = match base {
                None => SvgValue::Literal { start: s as usize, end: e as usize },
                Some(i) => SvgValue::Offset { base: i as usize, start: s as usize, end: e as usize },
            };
            Ok((SvgModel { pos: e, values: m.values.push(v), ..m }, m.values.len() as int))
        },
    }
}

/// Read a point; relative to the current point when `relative` and there is one.
pub open spec fn read_point(b: Seq<u8>, m: SvgModel, relative: bool) -> Result<(SvgModel, (int, int)), SvgPathError> {
    let rel = relative && m.has_current;
    match read_value(b, m, if rel { Some(m.current.0) } else { None }) {
        Err(e) => Err(e),
        Ok((m1, x)) => match read_value(b, m1, if rel { Some(m.current.1) } else { None }) {
            Err(e) => Err(e),
            Ok((m2, y)) => Ok((m2, (x, y))),
        },
    }
}

/// Record a drawing command ending at `end`, which becomes the current point.
pub open spec fn draw(m: SvgModel, c: SvgCommand, end: (int, int)) -> SvgModel {
    SvgModel { commands: m.commands.push(c), current: end, ..m }
}

pub proof fn lemma_skip_separators(b: Seq<u8>, pos: int)
    ensures
        skip_separators(b, pos) >= pos,
        pos <= b.len() ==> skip_separators(b, pos) <= b.len(),
        0 <= skip_separators(b, pos) < b.len() ==> !separator_byte(b[skip_separators(b, pos)]),
        forall|j: int| pos <= j < skip_separators(b, pos) ==> 0 <= j < b.len() && separator_byte(#[trigger] b[j]),
    decreases b.len() - pos,
{
    if 0 <= pos < b.len() && separator_byte(b[pos]) {
        lemma_skip_separators(b, pos + 1);
    }
}

pub proof fn lemma_digits_end(b: Seq<u8>, pos: int)
    ensures
        digits_end(b, pos) >= pos,
        pos <= b.len() ==> digits_end(b, pos) <= b.len(),
        0 <= digits_end(b, pos) < b.len() ==> !is_digit(b[digits_end(b, pos)]),
        forall|j: int| pos <= j < digits_end(b, pos) ==> 0 <= j < b.len() && is_digit(#[trigger] b[j]),
    decreases b.len() - pos,
{
    if 0 <= pos < b.len() && is_digit(b[pos]) {
        lemma_digits_end(b, pos + 1);
    }
}

pub proof fn lemma_scan_number(b: Seq<u8>, pos: int)
    ensures
        scan_number(b, pos) matches Ok((s, e)) ==> pos <= s < e && (pos <= b.len() ==> e <= b.len()),
{
    lemma_skip_separators(b, pos);
    let start = skip_separators(b, pos);
    if start < b.len() {
        let p1 = if is_sign(b[start]) { start + 1 } else { start };
        lemma_digits_end(b, p1);
        let p2 = digits_end(b, p1);
        lemma_digits_end(b, p2 + 1);
        let p3 = if p2 < b.len() && b[p2] == 0x2e { digits_end(b, p2 + 1) } else { p2 };
        lemma_digits_end(b, p3 + 1);
        lemma_digits_end(b, p3 + 2);
    }
}

pub proof fn lemma_read_point(b: Seq<u8>, m: SvgModel, relative: bool)
    ensures
        read_point(b, m, relative) matches Ok((m2, _)) ==> m2.pos > m.pos && (m.pos <= b.len()
            ==> m2.pos <= b.len()),
{
    lemma_scan_number(b, m.pos);
    match scan_number(b, m.pos) {
        Ok((s, e)) => lemma_scan_number(b, e),
        Err(_) => {},
    }
}

pub proof fn lemma_read_value(b: Seq<u8>, m: SvgModel, base: Option<int>)
    ensures
        read_value(b, m, base) matches Ok((m2, _)) ==> m2.pos > m.pos && (m.pos <= b.len()
            ==> m2.pos <= b.len()),
{
    lemma_scan_number(b, m.pos);
}

pub proof fn lemma_scan_flag(b: Seq<u8>, pos: int)
    ensures
        scan_flag(b, pos) matches Ok((_, p)) ==> p > pos && p <= b.len(),
{
    lemma_skip_separators(b, pos);
}

/// Moveto: points until no number follows; the first starts a subpath, the
/// rest are lines.
pub open spec fn move_points(b: Seq<u8>, m: SvgModel, relative: bool, first: bool) -> Result<SvgModel, SvgPathError>
    decreases b.len() - m.pos,
{
    if !has_number(b, m.pos) {
        Ok(m)
    } else {
        match read_point(b, m, relative) {
            Err(e) => Err(e),
            Ok((m1, pt)) => {
                let m2 = SvgModel {
                    commands: m1.commands.push(
                        if first { SvgCommand::MoveTo(point(pt)) } else { SvgCommand::LineTo(point(pt)) },
                    ),
                    subpath_start: if first { pt } else { m1.subpath_start },
                    current: pt,
                    has_current: true,
                    ..m1
                };
                proof {
                    lemma_read_point(b, m, relative);
                    lemma_skip_separators(b, m.pos);
                }
                move_points(b, m2, relative, false)
            },
        }
    }
}

/// Lineto: points until no number follows.
pub open spec fn line_points(b: Seq<u8>, m: SvgModel, relative: bool) -> Result<SvgModel, SvgPathError>
    decreases b.len() - m.pos,
{
    if !has_number(b, m.pos) {
        Ok(m)
    } else {
        match read_point(b, m, relative) {
            Err(e) => Err(e),
            Ok((m1, pt)) => {
                proof {
                    lemma_read_point(b, m, relative);
                    lemma_skip_separators(b, m.pos);
                }
                line_points(b, draw(m1, SvgCommand::LineTo(point(pt)), pt), relative)
            },
        }
    }
}

/// Horizontal lineto: x coordinates until no number follows; y stays.
pub open spec fn horizontal_points(b: Seq<u8>, m: SvgModel, relative: bool) -> Result<SvgModel, SvgPathError>
    decreases b.len() - m.pos,
{
    if !has_number(b, m.pos) {
        Ok(m)
    } else {
        match read_value(b, m, if relative { Some(m.current.0) } else { None }) {
            Err(e) => Err(e),
            Ok((m1, x)) => {
                proof {
                    lemma_read_value(b, m, if relative { Some(m.current.0) } else { None });
                    lemma_skip_separators(b, m.pos);
                }
                let pt = (x, m.current.1);
                horizontal_points(b, draw(m1, SvgCommand::LineTo(point(pt)), pt), relative)
            },
        }
    }
}

/// Vertical lineto: y coordinates until no number follows; x stays.
pub open spec fn vertical_points(b: Seq<u8>, m: SvgModel, relative: bool) -> Result<SvgModel, SvgPathError>
    decreases b.len() - m.pos,
{
    if !has_number(b, m.pos) {
        Ok(m)
    } else {
        match read_value(b, m, if relative { Some(m.current.1) } else { None }) {
            Err(e) => Err(e),
            Ok((m1, y)) => {
                proof {
                    lemma_read_value(b, m, if relative { Some(m.current.1) } else { None });
                    lemma_skip_separators(b, m.pos);
                }
                let pt = (m.current.0, y);
                vertical_points(b, draw(m1, SvgCommand::LineTo(point(pt)), pt), relative)
            },
        }
    }
}

/// Cubic curveto: control, control, end triples until no number follows.
pub open spec fn cubic_points(b: Seq<u8>, m: SvgModel, relative: bool) -> Result<SvgModel, SvgPathError>
    decreases b.len() - m.pos,
{
    if !has_number(b, m.pos) {
        Ok(m)
    } else {
        match read_point(b, m, relative) {
            Err(e) => Err(e),
            Ok((m1, c1)) => match read_point(b, m1, relative) {
                Err(e) => Err(e),
                Ok((m2, c2)) => match read_point(b, m2, relative) {
                    Err(e) => Err(e),
                    Ok((m3, end)) => {
                        proof {
                            lemma_read_point(b, m, relative);
                            lemma_read_point(b, m1, relative);
                            lemma_read_point(b, m2, relative);
                            lemma_skip_separators(b, m.pos);
                        }
                        cubic_points(
                            b,
                            draw(
                                m3,
                                SvgCommand::CubicTo {
                                    control1: point(c1),
                                    control2: point(c2),
                                    end: point(end),
                                },
                                end,
                            ),
                            relative,
                        )
                    },
                },
            },
        }
    }
}

/// Quadratic curveto: control, end pairs until no number follows.
pub open spec fn quad_points(b: Seq<u8>, m: SvgModel, relative: bool) -> Result<SvgModel, SvgPathError>
    decreases b.len() - m.pos,
{
    if !has_number(b, m.pos) {
        Ok(m)
    } else {
        match read_point(b, m, relative) {
            Err(e) => Err(e),
            Ok((m1, c)) => match read_point(b, m1, relative) {
                Err(e) => Err(e),
                Ok((m2, end)) => {
                    proof {
                        lemma_read_point(b, m, relative);
                        lemma_read_point(b, m1, relative);
                        lemma_skip_separators(b, m.pos);
                    }
                    quad_points(
                        b,
                        draw(m2, SvgCommand::QuadTo { control: point(c), end: point(end) }, end),
                        relative,
                    )
                },
            },
        }
    }
}

/// Elliptical arc: radii, rotation, two flags and an end point, until no
/// number follows. Radii and rotation are never relative.
pub open spec fn arc_points(b: Seq<u8>, m: SvgModel, relative: bool) -> Result<SvgModel, SvgPathError>
    decreases b.len() - m.pos,
{
    if !has_number(b, m.pos) {
        Ok(m)
    } else {
        match read_value(b, m, None) {
            Err(e) => Err(e),
            Ok((m1, rx)) => match read_value(b, m1, None) {
                Err(e) => Err(e),
                Ok((m2, ry)) => match read_value(b, m2, None) {
                    Err(e) => Err(e),
                    Ok((m3, rot)) => match scan_flag(b, m3.pos) {
                        Err(e) => Err(e),
                        Ok((large_arc, p4)) => match scan_flag(b, p4) {
                            Err(e) => Err(e),
                            Ok((sweep, p5)) => match read_point(b, SvgModel { pos: p5, ..m3 }, relative) {
                                Err(e) => Err(e),
                                Ok((m6, end)) => {
                                    proof {
                                        lemma_read_value(b, m, None);
                                        lemma_read_value(b, m1, None);
                                        lemma_read_value(b, m2, None);
                                        lemma_scan_flag(b, m3.pos);
                                        lemma_scan_flag(b, p4);
                                        lemma_read_point(b, SvgModel { pos: p5, ..m3 }, relative);
                                        lemma_skip_separators(b, m.pos);
                                    }
                                    arc_points(
                                        b,
                                        draw(
                                            m6,
                                            SvgCommand::ArcTo {
                                                radii: point((rx, ry)),
                                                x_axis_rotation: rot as usize,
                                                large_arc,
                                                sweep,
                                                end: point(end),
                                            },
                                            end,
                                        ),
                                        relative,
                                    )
                                },
                            },
                        },
                    },
                },
            },
        }
    }
}

/// One command: its letter (either case; lower case is relative) and its
/// arguments.
pub open spec fn run_command(b: Seq<u8>, m: SvgModel, command: u8) -> Result<SvgModel, SvgPathError> {
    let relative = is_lower(command);
    let c = upper(command);
    let needs_number_err = SvgPathError::ExpectedNumber { at: m.pos as usize };
    let missing = SvgPathError::MissingMoveTo { at: m.pos as usize };
    if c == 0x4d {
        if !has_number(b, m.pos) { Err(needs_number_err) } else { move_points(b, m, relative, true) }
    } else if c == 0x5a {
        Ok(SvgModel {
            commands: m.commands.push(SvgCommand::ClosePath),
            current: m.subpath_start,
            has_current: true,
            last_command: None,
            ..m
        })
    } else if c == 0x4c || c == 0x48 || c == 0x56 || c == 0x43 || c == 0x51 || c == 0x41 {
        if !m.has_current {
            Err(missing)
        } else if !has_number(b, m.pos) {
            Err(needs_number_err)
        } else if c == 0x4c {
            line_points(b, m, relative)
        } else if c == 0x48 {
            horizontal_points(b, m, relative)
        } else if c == 0x56 {
            vertical_points(b, m, relative)
        } else if c == 0x43 {
            cubic_points(b, m, relative)
        } else if c == 0x51 {
            quad_points(b, m, relative)
        } else {
            arc_points(b, m, relative)
        }
    } else {
        Err(
            SvgPathError::UnsupportedCommand {
                command: command as char,
                at: if m.pos >= 1 { (m.pos - 1) as usize } else { 0usize },
            },
        )
    }
}

pub proof fn lemma_move_progress(b: Seq<u8>, m: SvgModel, relative: bool, first: bool)
    ensures
        move_points(b, m, relative, first) matches Ok(m2) ==> m2.pos >= m.pos && (m.pos <= b.len()
            ==> m2.pos <= b.len()) && (has_number(b, m.pos) ==> m2.pos > m.pos),
    decreases b.len() - m.pos,
{
    if has_number(b, m.pos) {
        lemma_skip_separators(b, m.pos);
        lemma_read_point(b, m, relative);
        if let Ok((m1, pt)) = read_point(b, m, relative) {
            let m2 = SvgModel {
                commands: m1.commands.push(
                    if first { SvgCommand::MoveTo(point(pt)) } else { SvgCommand::LineTo(point(pt)) },
                ),
                subpath_start: if first { pt } else { m1.subpath_start },
                current: pt,
                has_current: true,
                ..m1
            };
            lemma_move_progress(b, m2, relative, false);
        }
    }
}

pub proof fn lemma_line_progress(b: Seq<u8>, m: SvgModel, relative: bool)
    ensures
        line_points(b, m, relative) matches Ok(m2) ==> m2.pos >= m.pos && (m.pos <= b.len()
            ==> m2.pos <= b.len()) && (has_number(b, m.pos) ==> m2.pos > m.pos),
    decreases b.len() - m.pos,
{
    if has_number(b, m.pos) {
        lemma_skip_separators(b, m.pos);
        lemma_read_point(b, m, relative);
        if let Ok((m1, pt)) = read_point(b, m, relative) {
            lemma_line_progress(b, draw(m1, SvgCommand::LineTo(point(pt)), pt), relative);
        }
    }
}

pub proof fn lemma_horizontal_progress(b: Seq<u8>, m: SvgModel, relative: bool)
    ensures
        horizontal_points(b, m, relative) matches Ok(m2) ==> m2.pos >= m.pos && (m.pos <= b.len()
            ==> m2.pos <= b.len()) && (has_number(b, m.pos) ==> m2.pos > m.pos),
    decreases b.len() - m.pos,
{
    if has_number(b, m.pos) {
        lemma_skip_separators(b, m.pos);
        let bx = if relative { Some(m.current.0) } else { None };
        lemma_read_value(b, m, bx);
        if let Ok((m1, x)) = read_value(b, m, bx) {
            let pt = (x, m.current.1);
            lemma_horizontal_progress(b, draw(m1, SvgCommand::LineTo(point(pt)), pt), relative);
        }
    }
}

pub proof fn lemma_vertical_progress(b: Seq<u8>, m: SvgModel, relative: bool)
    ensures
        vertical_points(b, m, relative) matches Ok(m2) ==> m2.pos >= m.pos && (m.pos <= b.len()
            ==> m2.pos <= b.len()) && (has_number(b, m.pos) ==> m2.pos > m.pos),
    decreases b.len() - m.pos,
{
    if has_number(b, m.pos) {
        lemma_skip_separators(b, m.pos);
        let by = if relative { Some(m.current.1) } else { None };
        lemma_read_value(b, m, by);
        if let Ok((m1, y)) = read_value(b, m, by) {
            let pt = (m.current.0, y);
            lemma_vertical_progress(b, draw(m1, SvgCommand::LineTo(point(pt)), pt), relative);
        }
    }
}

pub proof fn lemma_cubic_progress(b: Seq<u8>, m: SvgModel, relative: bool)
    ensures
        cubic_points(b, m, relative) matches Ok(m2) ==> m2.pos >= m.pos && (m.pos <= b.len()
            ==> m2.pos <= b.len()) && (has_number(b, m.pos) ==> m2.pos > m.pos),
    decreases b.len() - m.pos,
{
    if has_number(b, m.pos) {
        lemma_skip_separators(b, m.pos);
        lemma_read_point(b, m, relative);
        if let Ok((m1, c1)) = read_point(b, m, relative) {
            lemma_read_point(b, m1, relative);
            if let Ok((m2, c2)) = read_point(b, m1, relative) {
                lemma_read_point(b, m2, relative);
                if let Ok((m3, end)) = read_point(b, m2, relative) {
                    lemma_cubic_progress(
                        b,
                        draw(m3, SvgCommand::CubicTo { control1: point(c1), control2: point(c2), end: point(end) }, end),
                        relative,
                    );
                }
            }
        }
    }
}

pub proof fn lemma_quad_progress(b: Seq<u8>, m: SvgModel, relative: bool)
    ensures
        quad_points(b, m, relative) matches Ok(m2) ==> m2.pos >= m.pos && (m.pos <= b.len()
            ==> m2.pos <= b.len()) && (has_number(b, m.pos) ==> m2.pos > m.pos),
    decreases b.len() - m.pos,
{
    if has_number(b, m.pos) {
        lemma_skip_separators(b, m.pos);
        lemma_read_point(b, m, relative);
        if let Ok((m1, c)) = read_point(b, m, relative) {
            lemma_read_point(b, m1, relative);
            if let Ok((m2, end)) = read_point(b, m1, relative) {
                lemma_quad_progress(b, draw(m2, SvgCommand::QuadTo { control: point(c), end: point(end) }, end), relative);
            }
        }
    }
}

pub proof fn lemma_arc_progress(b: Seq<u8>, m: SvgModel, relative: bool)
    ensures
        arc_points(b, m, relative) matches Ok(m2) ==> m2.pos >= m.pos && (m.pos <= b.len()
            ==> m2.pos <= b.len()) && (has_number(b, m.pos) ==> m2.pos > m.pos),
    decreases b.len() - m.pos,
{
    if has_number(b, m.pos) {
        lemma_skip_separators(b, m.pos);
        lemma_read_value(b, m, None);
        if let Ok((m1, rx)) = read_value(b, m, None) {
            lemma_read_value(b, m1, None);
            if let Ok((m2, ry)) = read_value(b, m1, None) {
                lemma_read_value(b, m2, None);
                if let Ok((m3, rot)) = read_value(b, m2, None) {
                    lemma_scan_flag(b, m3.pos);
                    if let Ok((large_arc, p4)) = scan_flag(b, m3.pos) {
                        lemma_scan_flag(b, p4);
                        if let Ok((sweep, p5)) = scan_flag(b, p4) {
                            let m5 = SvgModel { pos: p5, ..m3 };
                            lemma_read_point(b, m5, relative);
                            if let Ok((m6, end)) = read_point(b, m5, relative) {
                                lemma_arc_progress(
                                    b,
                                    draw(
                                        m6,
                                        SvgCommand::ArcTo {
                                            radii: point((rx, ry)),
                                            x_axis_rotation: rot as usize,
                                            large_arc,
                                            sweep,
                                            end: point(end),
                                        },
                                        end,
                                    ),
                                    relative,
                                );
                            }
                        }
                    }
                }
            }
        }
    }
}

/// A command moves the position forward, and strictly forward unless it is
/// a closepath.
pub proof fn lemma_run_command(b: Seq<u8>, m: SvgModel, command: u8)
    ensures
        run_command(b, m, command) matches Ok(m2) ==> m2.pos >= m.pos && (m.pos <= b.len()
            ==> m2.pos <= b.len()) && (upper(command) != 0x5a ==> m2.pos > m.pos),
{
    let r = is_lower(command);
    lemma_move_progress(b, m, r, true);
    lemma_line_progress(b, m, r);
    lemma_horizontal_progress(b, m, r);
    lemma_vertical_progress(b, m, r);
    lemma_cubic_progress(b, m, r);
    lemma_quad_progress(b, m, r);
    lemma_arc_progress(b, m, r);
}

/// The rest of the path from the model's position: after separators, a
/// command letter starts a command; anything else repeats the last command
/// (an error when there is none).
pub open spec fn parse_from(b: Seq<u8>, m: SvgModel) -> Result<SvgModel, SvgPathError>
    decreases b.len() - m.pos,
{
    let p = skip_separators(b, m.pos);
    if p < 0 || p >= b.len() {
        Ok(SvgModel { pos: p, ..m })
    } else if is_letter(b[p]) {
        match run_command(b, SvgModel { pos: p + 1, last_command: Some(b[p]), ..m }, b[p]) {
            Err(e) => Err(e),
            Ok(m2) => {
                proof {
                    lemma_skip_separators(b, m.pos);
                    lemma_run_command(b, SvgModel { pos: p + 1, last_command: Some(b[p]), ..m }, b[p]);
                }
                parse_from(b, m2)
            },
        }
    } else {
        match m.last_command {
            None => Err(SvgPathError::MissingMoveTo { at: p as usize }),
            Some(c) => match run_command(b, SvgModel { pos: p, ..m }, c) {
                Err(e) => Err(e),
                Ok(m2) => {
                    proof {
                        lemma_skip_separators(b, m.pos);
                        lemma_run_command(b, SvgModel { pos: p, ..m }, c);
                    }
                    // always so: a repeated command is never a closepath (which
                    // clears the last command), so it has read a number
                    if m2.pos > m.pos {
                        parse_from(b, m2)
                    } else {
                        Ok(m2)
                    }
                },
            },
        }
    }
}

/// The parser's state before reading anything: the origin is coordinate 0.
pub open spec fn initial_model() -> SvgModel {
    SvgModel {
        pos: 0,
        current: (0, 0),
        subpath_start: (0, 0),
        has_current: false,
        last_command: None,
        values: seq![SvgValue::Origin],
        commands: Seq::empty(),
    }
}

/// What parsing the bytes `b` of a `d` attribute gives.
pub open spec fn svg_parse(b: Seq<u8>) -> Result<(Seq<SvgValue>, Seq<SvgCommand>), SvgPathError> {
    match parse_from(b, initial_model()) {
        Ok(m) => Ok((m.values, m.commands)),
        Err(e) => Err(e),
    }
}


/// A coordinate at index `i` formed from a number inside the first `n` bytes
/// of the input and, for an offset, from a coordinate before it.
pub open spec fn value_ok(v: SvgValue, i: int, n: int) -> bool {
    match v {
        SvgValue::Origin => true,
        SvgValue::Literal { start, end } => start < end <= n,
        SvgValue::Offset { base, start, end } => base < i && start < end <= n,
    }
}

/// Both indices of a point name one of `count` coordinates.
pub open spec fn point_ok(p: (usize, usize), count: int) -> bool {
    p.0 < count && p.1 < count
}

/// Every coordinate index of a command names one of `count` coordinates.
pub open spec fn command_ok(c: SvgCommand, count: int) -> bool {
    match c {
        SvgCommand::MoveTo(p) => point_ok(p, count),
        SvgCommand::LineTo(p) => point_ok(p, count),
        SvgCommand::QuadTo { control, end } => point_ok(control, count) && point_ok(end, count),
        SvgCommand::CubicTo { control1, control2, end } => point_ok(control1, count) && point_ok(
            control2,
            count,
        ) && point_ok(end, count),
        SvgCommand::ArcTo { radii, x_axis_rotation, end, .. } => point_ok(radii, count)
            && x_axis_rotation < count && point_ok(end, count),
        SvgCommand::ClosePath => true,
    }
}

/// A parsed path over an input of `n` bytes: each coordinate refers only to
/// earlier coordinates and to number text inside the input, and each command
/// only to existing coordinates.
pub open spec fn path_ok(values: Seq<SvgValue>, commands: Seq<SvgCommand>, n: int) -> bool {
    &&& forall|i: int| 0 <= i < values.len() ==> value_ok(#[trigger] values[i], i, n)
    &&& forall|j: int| 0 <= j < commands.len() ==> command_ok(#[trigger] commands[j], values.len() as int)
}

/// A parser state over `b` that can only lead to well-formed paths: its
/// current point and subpath start name existing coordinates, and no more
/// coordinates were read than bytes.
pub open spec fn model_ok(b: Seq<u8>, m: SvgModel) -> bool {
    &&& path_ok(m.values, m.commands, b.len() as int)
    &&& b.len() <= isize::MAX
    &&& 0 <= m.pos <= b.len()
    &&& 1 <= m.values.len() <= m.pos + 1
    &&& 0 <= m.current.0 < m.values.len()
    &&& 0 <= m.current.1 < m.values.len()
    &&& 0 <= m.subpath_start.0 < m.values.len()
    &&& 0 <= m.subpath_start.1 < m.values.len()
}

proof fn lemma_read_value_ok(b: Seq<u8>, m: SvgModel, base: Option<int>)
    requires
        model_ok(b, m),
        base matches Some(i) ==> 0 <= i < m.values.len(),
    ensures
        read_value(b, m, base) matches Ok((m2, i)) ==> model_ok(b, m2) && i == m.values.len()
            && m2.values.len() == m.values.len() + 1 && m2.commands == m.commands && m2.current
            == m.current && m2.subpath_start == m.subpath_start && m2.has_current == m.has_current,
{
    lemma_scan_number(b, m.pos);
    if let Ok((m2, i)) = read_value(b, m, base) {
        assert forall|k: int| 0 <= k < m2.values.len() implies value_ok(
            #[trigger] m2.values[k],
            k,
            b.len() as int,
        ) by {
            if k < m.values.len() {
                assert(m2.values[k] == m.values[k]);
            }
        }
    }
}

proof fn lemma_read_point_ok(b: Seq<u8>, m: SvgModel, relative: bool)
    requires
        model_ok(b, m),
    ensures
        read_point(b, m, relative) matches Ok((m2, pt)) ==> model_ok(b, m2) && 0 <= pt.0
            < m2.values.len() && 0 <= pt.1 < m2.values.len() && m2.values.len() > m.values.len()
            && m2.commands == m.commands && m2.current == m.current && m2.subpath_start
            == m.subpath_start && m2.has_current == m.has_current,
{
    let rel = relative && m.has_current;
    lemma_read_value_ok(b, m, if rel { Some(m.current.0) } else { None });
    if let Ok((m1, x)) = read_value(b, m, if rel { Some(m.current.0) } else { None }) {
        lemma_read_value_ok(b, m1, if rel { Some(m.current.1) } else { None });
    }
}

/// Drawing a command whose indices name existing coordinates, ending at an
/// existing coordinate, keeps the state sound.
proof fn lemma_draw_ok(b: Seq<u8>, m: SvgModel, c: SvgCommand, end: (int, int))
    requires
        model_ok(b, m),
        command_ok(c, m.values.len() as int),
        0 <= end.0 < m.values.len(),
        0 <= end.1 < m.values.len(),
    ensures
        model_ok(b, draw(m, c, end)),
{
    let m2 = draw(m, c, end);
    assert forall|j: int| 0 <= j < m2.commands.len() implies command_ok(
        #[trigger] m2.commands[j],
        m2.values.len() as int,
    ) by {
        if j < m.commands.len() {
            assert(m2.commands[j] == m.commands[j]);
        }
    }
}

proof fn lemma_move_ok(b: Seq<u8>, m: SvgModel, relative: bool, first: bool)
    requires
        model_ok(b, m),
    ensures
        move_points(b, m, relative, first) matches Ok(m2) ==> model_ok(b, m2),
    decreases b.len() - m.pos,
{
    if has_number(b, m.pos) {
        lemma_skip_separators(b, m.pos);
        lemma_read_point(b, m, relative);
        lemma_read_point_ok(b, m, relative);
        if let Ok((m1, pt)) = read_point(b, m, relative) {
            let c = if first { SvgCommand::MoveTo(point(pt)) } else { SvgCommand::LineTo(point(pt)) };
            let m2 = SvgModel {
                commands: m1.commands.push(c),
                subpath_start: if first { pt } else { m1.subpath_start },
                current: pt,
                has_current: true,
                ..m1
            };
            lemma_draw_ok(b, m1, c, pt);
            assert(model_ok(b, m2));
            lemma_move_ok(b, m2, relative, false);
        }
    }
}

proof fn lemma_line_ok(b: Seq<u8>, m: SvgModel, relative: bool)
    requires
        model_ok(b, m),
    ensures
        line_points(b, m, relative) matches Ok(m2) ==> model_ok(b, m2),
    decreases b.len() - m.pos,
{
    if has_number(b, m.pos) {
        lemma_skip_separators(b, m.pos);
        lemma_read_point(b, m, relative);
        lemma_read_point_ok(b, m, relative);
        if let Ok((m1, pt)) = read_point(b, m, relative) {
            lemma_draw_ok(b, m1, SvgCommand::LineTo(point(pt)), pt);
            lemma_line_ok(b, draw(m1, SvgCommand::LineTo(point(pt)), pt), relative);
        }
    }
}

proof fn lemma_horizontal_ok(b: Seq<u8>, m: SvgModel, relative: bool)
    requires
        model_ok(b, m),
    ensures
        horizontal_points(b, m, relative) matches Ok(m2) ==> model_ok(b, m2),
    decreases b.len() - m.pos,
{
    if has_number(b, m.pos) {
        lemma_skip_separators(b, m.pos);
        let bx = if relative { Some(m.current.0) } else { None };
        lemma_read_value(b, m, bx);
        lemma_read_value_ok(b, m, bx);
        if let Ok((m1, x)) = read_value(b, m, bx) {
            let pt = (x, m.current.1);
            lemma_draw_ok(b, m1, SvgCommand::LineTo(point(pt)), pt);
            lemma_horizontal_ok(b, draw(m1, SvgCommand::LineTo(point(pt)), pt), relative);
        }
    }
}

proof fn lemma_vertical_ok(b: Seq<u8>, m: SvgModel, relative: bool)
    requires
        model_ok(b, m),
    ensures
        vertical_points(b, m, relative) matches Ok(m2) ==> model_ok(b, m2),
    decreases b.len() - m.pos,
{
    if has_number(b, m.pos) {
        lemma_skip_separators(b, m.pos);
        let by = if relative { Some(m.current.1) } else { None };
        lemma_read_value(b, m, by);
        lemma_read_value_ok(b, m, by);
        if let Ok((m1, y)) = read_value(b, m, by) {
            let pt = (m.current.0, y);
            lemma_draw_ok(b, m1, SvgCommand::LineTo(point(pt)), pt);
            lemma_vertical_ok(b, draw(m1, SvgCommand::LineTo(point(pt)), pt), relative);
        }
    }
}

proof fn lemma_cubic_ok(b: Seq<u8>, m: SvgModel, relative: bool)
    requires
        model_ok(b, m),
    ensures
        cubic_points(b, m, relative) matches Ok(m2) ==> model_ok(b, m2),
    decreases b.len() - m.pos,
{
    if has_number(b, m.pos) {
        lemma_skip_separators(b, m.pos);
        lemma_read_point(b, m, relative);
        lemma_read_point_ok(b, m, relative);
        if let Ok((m1, c1)) = read_point(b, m, relative) {
            lemma_read_point(b, m1, relative);
            lemma_read_point_ok(b, m1, relative);
            if let Ok((m2, c2)) = read_point(b, m1, relative) {
                lemma_read_point(b, m2, relative);
                lemma_read_point_ok(b, m2, relative);
                if let Ok((m3, end)) = read_point(b, m2, relative) {
                    let c = SvgCommand::CubicTo { control1: point(c1), control2: point(c2), end: point(end) };
                    lemma_draw_ok(b, m3, c, end);
                    lemma_cubic_ok(b, draw(m3, c, end), relative);
                }
            }
        }
    }
}

proof fn lemma_quad_ok(b: Seq<u8>, m: SvgModel, relative: bool)
    requires
        model_ok(b, m),
    ensures
        quad_points(b, m, relative) matches Ok(m2) ==> model_ok(b, m2),
    decreases b.len() - m.pos,
{
    if has_number(b, m.pos) {
        lemma_skip_separators(b, m.pos);
        lemma_read_point(b, m, relative);
        lemma_read_point_ok(b, m, relative);
        if let Ok((m1, c)) = read_point(b, m, relative) {
            lemma_read_point(b, m1, relative);
            lemma_read_point_ok(b, m1, relative);
            if let Ok((m2, end)) = read_point(b, m1, relative) {
                let q = SvgCommand::QuadTo { control: point(c), end: point(end) };
                lemma_draw_ok(b, m2, q, end);
                lemma_quad_ok(b, draw(m2, q, end), relative);
            }
        }
    }
}

proof fn lemma_arc_ok(b: Seq<u8>, m: SvgModel, relative: bool)
    requires
        model_ok(b, m),
    ensures
        arc_points(b, m, relative) matches Ok(m2) ==> model_ok(b, m2),
    decreases b.len() - m.pos,
{
    if has_number(b, m.pos) {
        lemma_skip_separators(b, m.pos);
        lemma_read_value(b, m, None);
        lemma_read_value_ok(b, m, None);
        if let Ok((m1, rx)) = read_value(b, m, None) {
            lemma_read_value(b, m1, None);
            lemma_read_value_ok(b, m1, None);
            if let Ok((m2, ry)) = read_value(b, m1, None) {
                lemma_read_value(b, m2, None);
                lemma_read_value_ok(b, m2, None);
                if let Ok((m3, rot)) = read_value(b, m2, None) {
                    lemma_scan_flag(b, m3.pos);
                    if let Ok((large_arc, p4)) = scan_flag(b, m3.pos) {
                        lemma_scan_flag(b, p4);
                        if let Ok((sweep, p5)) = scan_flag(b, p4) {
                            let m5 = SvgModel { pos: p5, ..m3 };
                            assert(model_ok(b, m5));
                            lemma_read_point(b, m5, relative);
                            lemma_read_point_ok(b, m5, relative);
                            if let Ok((m6, end)) = read_point(b, m5, relative) {
                                let c = SvgCommand::ArcTo {
                                    radii: point((rx, ry)),
                                    x_axis_rotation: rot as usize,
                                    large_arc,
                                    sweep,
                                    end: point(end),
                                };
                                lemma_draw_ok(b, m6, c, end);
                                lemma_arc_ok(b, draw(m6, c, end), relative);
                            }
                        }
                    }
                }
            }
        }
    }
}

proof fn lemma_run_command_ok(b: Seq<u8>, m: SvgModel, command: u8)
    requires
        model_ok(b, m),
    ensures
        run_command(b, m, command) matches Ok(m2) ==> model_ok(b, m2),
{
    let r = is_lower(command);
    lemma_move_ok(b, m, r, true);
    lemma_line_ok(b, m, r);
    lemma_horizontal_ok(b, m, r);
    lemma_vertical_ok(b, m, r);
    lemma_cubic_ok(b, m, r);
    lemma_quad_ok(b, m, r);
    lemma_arc_ok(b, m, r);
    if upper(command) == 0x5a {
        let m2 = SvgModel {
            commands: m.commands.push(SvgCommand::ClosePath),
            current: m.subpath_start,
            has_current: true,
            last_command: None,
            ..m
        };
        assert forall|j: int| 0 <= j < m2.commands.len() implies command_ok(
            #[trigger] m2.commands[j],
            m2.values.len() as int,
        ) by {
            if j < m.commands.len() {
                assert(m2.commands[j] == m.commands[j]);
            }
        }
    }
}

proof fn lemma_parse_from_ok(b: Seq<u8>, m: SvgModel)
    requires
        model_ok(b, m),
    ensures
        parse_from(b, m) matches Ok(m2) ==> path_ok(m2.values, m2.commands, b.len() as int),
    decreases b.len() - m.pos,
{
    lemma_skip_separators(b, m.pos);
    let p = skip_separators(b, m.pos);
    if 0 <= p < b.len() {
        if is_letter(b[p]) {
            let m1 = SvgModel { pos: p + 1, last_command: Some(b[p]), ..m };
            lemma_run_command(b, m1, b[p]);
            lemma_run_command_ok(b, m1, b[p]);
            if let Ok(m2) = run_command(b, m1, b[p]) {
                lemma_parse_from_ok(b, m2);
            }
        } else if let Some(c) = m.last_command {
            let m1 = SvgModel { pos: p, ..m };
            lemma_run_command(b, m1, c);
            lemma_run_command_ok(b, m1, c);
            if let Ok(m2) = run_command(b, m1, c) {
                if m2.pos > m.pos {
                    lemma_parse_from_ok(b, m2);
                }
            }
        }
    }
}

/// Every path parsed from an input (of a length memory can hold) is well
/// formed: each coordinate refers only to earlier coordinates and to number
/// text inside the input, and each command only to existing coordinates.
pub proof fn law_parsed_paths_are_well_formed(b: Seq<u8>)
    requires
        b.len() <= isize::MAX,
    ensures
        svg_parse(b) matches Ok((values, commands)) ==> path_ok(values, commands, b.len() as int),
{
    lemma_parse_from_ok(b, initial_model());
}

/// Whether a byte separates numbers: a comma or ASCII whitespace (space,
/// tab, line feed, form feed, carriage return).
pub fn is_separator(byte: u8) -> (r: bool)
    ensures
        r == separator_byte(byte),
{
    byte == 0x2c || byte == 0x20 || byte == 0x09 || byte == 0x0a || byte == 0x0c || byte == 0x0d
}

/// Whether a number may start with this byte: an ASCII digit, `+`, `-` or
/// `.`.
pub fn is_number_start(byte: u8) -> (r: bool)
    ensures
        r == number_start_byte(byte),
{
    (0x30 <= byte && byte <= 0x39) || byte == 0x2b || byte == 0x2d || byte == 0x2e
}

/// The first position at or after `pos` that holds no separator.
fn separators_end(b: &[u8], pos: usize) -> (r: usize)
    requires
        pos <= b@.len(),
    ensures
        r == skip_separators(b@, pos as int),
        r <= b@.len(),
{
    let mut p = pos;
    while p < b.len() && is_separator(b[p])
        invariant
            pos <= p <= b@.len(),
            skip_separators(b@, p as int) == skip_separators(b@, pos as int),
        decreases b@.len() - p,
    {
        p += 1;
    }
    p
}

/// The first position at or after `pos` that holds no digit.
fn digits_end_from(b: &[u8], pos: usize) -> (r: usize)
    requires
        pos <= b@.len(),
    ensures
        r == digits_end(b@, pos as int),
        r <= b@.len(),
{
    let mut p = pos;
    while p < b.len() && 0x30 <= b[p] && b[p] <= 0x39
        invariant
            pos <= p <= b@.len(),
            digits_end(b@, p as int) == digits_end(b@, pos as int),
        decreases b@.len() - p,
    {
        p += 1;
    }
    p
}

/// A coordinate pair of indices as integers.
pub open spec fn pair(p: (usize, usize)) -> (int, int) {
    (p.0 as int, p.1 as int)
}

/// An optional coordinate index as an integer.
pub open spec fn base_index(base: Option<usize>) -> Option<int> {
    match base {
        Some(i) => Some(i as int),
        None => None,
    }
}

/// Whether a step of the parser did what the model says: on success the
/// parser's state is the model's, on failure the error is the model's.
pub open spec fn settles(r: Result<SvgModel, SvgPathError>, res: Result<(), SvgPathError>, after: SvgModel) -> bool {
    match r {
        Ok(m) => res is Ok && after == m,
        Err(e) => res == Err::<(), SvgPathError>(e),
    }
}

/// The parser's working state over the bytes of a `d` attribute.
struct Parser<'a> {
    input: &'a [u8],
    pos: usize,
    current: (usize, usize),
    subpath_start: (usize, usize),
    has_current: bool,
    last_command: Option<u8>,
    values: Vec<SvgValue>,
    commands: Vec<SvgCommand>,
}

impl<'a> Parser<'a> {
    spec fn model(&self) -> SvgModel {
        SvgModel {
            pos: self.pos as int,
            current: pair(self.current),
            subpath_start: pair(self.subpath_start),
            has_current: self.has_current,
            last_command: self.last_command,
            values: self.values@,
            commands: self.commands@,
        }
    }

    fn new(input: &'a [u8]) -> (p: Self)
        ensures
            p.input@ == input@,
            p.model() == initial_model(),
    {
        let mut values = Vec::new();
        values.push(SvgValue::Origin);
        Parser {
            input,
            pos: 0,
            current: (0, 0),
            subpath_start: (0, 0),
            has_current: false,
            last_command: None,
            values,
            commands: Vec::new(),
        }
    }

    fn has_number(&self) -> (r: bool)
        requires
            self.pos <= self.input@.len(),
        ensures
            r == has_number(self.input@, self.pos as int),
    {
        let p = separators_end(self.input, self.pos);
        p < self.input.len() && is_number_start(self.input[p])
    }

    /// Read the text span of the next number.
    fn parse_number(&mut self) -> (res: Result<(usize, usize), SvgPathError>)
        requires
            old(self).pos <= old(self).input@.len(),
        ensures
            final(self).input@ == old(self).input@,
            final(self).pos <= final(self).input@.len(),
            match scan_number(old(self).input@, old(self).pos as int) {
                Ok((s, e)) => res == Ok::<(usize, usize), SvgPathError>((s as usize, e as usize))
                    && final(self).model() == (SvgModel { pos: e, ..old(self).model() }),
                Err(err) => res == Err::<(usize, usize), SvgPathError>(err),
            },
    {
        let bytes = self.input;
        let start = separators_end(bytes, self.pos);
        self.pos = start;
        if start >= bytes.len() {
            return Err(SvgPathError::UnexpectedEnd { at: start });
        }
        let p1 = if bytes[start] == 0x2b || bytes[start] == 0x2d { start + 1 } else { start };
        let p2 = digits_end_from(bytes, p1);
        let dot = p2 < bytes.len() && bytes[p2] == 0x2e;
        let p3 = if dot { digits_end_from(bytes, p2 + 1) } else { p2 };
        if !(p2 > p1 || (dot && p3 > p2 + 1)) {
            return Err(SvgPathError::ExpectedNumber { at: start });
        }
        if p3 < bytes.len() && (bytes[p3] == 0x65 || bytes[p3] == 0x45) {
            let q1 = if p3 + 1 < bytes.len() && (bytes[p3 + 1] == 0x2b || bytes[p3 + 1] == 0x2d) {
                p3 + 2
            } else {
                p3 + 1
            };
            let q2 = digits_end_from(bytes, q1);
            if q2 == q1 {
                return Err(SvgPathError::InvalidNumber { at: p3 });
            }
            self.pos = q2;
            Ok((start, q2))
        } else {
            self.pos = p3;
            Ok((start, p3))
        }
    }

    /// Read the next number as a new coordinate, on its own or added to the
    /// coordinate `base`; returns its index.
    fn parse_value(&mut self, base: Option<usize>) -> (res: Result<usize, SvgPathError>)
        requires
            old(self).pos <= old(self).input@.len(),
        ensures
            final(self).input@ == old(self).input@,
            final(self).pos <= final(self).input@.len(),
            match read_value(old(self).input@, old(self).model(), base_index(base)) {
                Ok((m, i)) => res matches Ok(j) && j == i && final(self).model() == m,
                Err(err) => res == Err::<usize, SvgPathError>(err),
            },
    {
        let (start, end) = self.parse_number()?;
        let index = self.values.len();
        let v = match base {
            None => SvgValue::Literal { start, end },
            Some(i) => SvgValue::Offset { base: i, start, end },
        };
        self.values.push(v);
        Ok(index)
    }

    /// Read an arc flag.
    fn parse_flag(&mut self) -> (res: Result<bool, SvgPathError>)
        requires
            old(self).pos <= old(self).input@.len(),
        ensures
            final(self).input@ == old(self).input@,
            final(self).pos <= final(self).input@.len(),
            match scan_flag(old(self).input@, old(self).pos as int) {
                Ok((f, p)) => res == Ok::<bool, SvgPathError>(f) && final(self).model() == (
                SvgModel { pos: p, ..old(self).model() }),
                Err(err) => res == Err::<bool, SvgPathError>(err),
            },
    {
        let at = separators_end(self.input, self.pos);
        self.pos = at;
        if at < self.input.len() {
            if self.input[at] == 0x30 {
                self.pos = at + 1;
                Ok(false)
            } else if self.input[at] == 0x31 {
                self.pos = at + 1;
                Ok(true)
            } else {
                Err(SvgPathError::ExpectedFlag { at })
            }
        } else {
            Err(SvgPathError::UnexpectedEnd { at })
        }
    }

    /// Read a point: two coordinates, each relative to the current point's
    /// when `relative` and there is a current point.
    fn parse_point(&mut self, relative: bool) -> (res: Result<(usize, usize), SvgPathError>)
        requires
            old(self).pos <= old(self).input@.len(),
        ensures
            final(self).input@ == old(self).input@,
            final(self).pos <= final(self).input@.len(),
            match read_point(old(self).input@, old(self).model(), relative) {
                Ok((m, pt)) => res matches Ok(p) && pair(p) == pt && final(self).model() == m,
                Err(err) => res == Err::<(usize, usize), SvgPathError>(err),
            },
    {
        let rel = relative && self.has_current;
        let cur = self.current;
        let x = self.parse_value(if rel { Some(cur.0) } else { None })?;
        let y = self.parse_value(if rel { Some(cur.1) } else { None })?;
        Ok((x, y))
    }
    /// Moveto arguments: the first point starts a subpath, later ones draw
    /// lines.
    fn parse_move(&mut self, relative: bool) -> (res: Result<(), SvgPathError>)
        requires
            old(self).pos <= old(self).input@.len(),
        ensures
            final(self).input@ == old(self).input@,
            final(self).pos <= final(self).input@.len(),
            settles(move_points(old(self).input@, old(self).model(), relative, true), res, final(self).model()),
    {
        let ghost b = self.input@;
        let ghost m0 = self.model();
        let mut first = true;
        while self.has_number()
            invariant
                self.input@ == b,
                b == old(self).input@,
                m0 == old(self).model(),
                self.pos <= b.len(),
                move_points(b, self.model(), relative, first) == move_points(b, m0, relative, true),
            decreases b.len() - self.pos,
        {
            let ghost before = self.model();
            proof {
                lemma_read_point(b, before, relative);
            }
            let pt = self.parse_point(relative)?;
            if first {
                self.commands.push(SvgCommand::MoveTo(pt));
                self.subpath_start = pt;
                first = false;
            } else {
                self.commands.push(SvgCommand::LineTo(pt));
            }
            self.current = pt;
            self.has_current = true;
        }
        Ok(())
    }

    /// Lineto arguments.
    fn parse_line(&mut self, relative: bool) -> (res: Result<(), SvgPathError>)
        requires
            old(self).pos <= old(self).input@.len(),
        ensures
            final(self).input@ == old(self).input@,
            final(self).pos <= final(self).input@.len(),
            settles(line_points(old(self).input@, old(self).model(), relative), res, final(self).model()),
    {
        let ghost b = self.input@;
        let ghost m0 = self.model();
        while self.has_number()
            invariant
                self.input@ == b,
                b == old(self).input@,
                m0 == old(self).model(),
                self.pos <= b.len(),
                line_points(b, self.model(), relative) == line_points(b, m0, relative),
            decreases b.len() - self.pos,
        {
            proof {
                lemma_read_point(b, self.model(), relative);
            }
            let pt = self.parse_point(relative)?;
            self.commands.push(SvgCommand::LineTo(pt));
            self.current = pt;
        }
        Ok(())
    }

    /// Horizontal lineto arguments.
    fn parse_horizontal(&mut self, relative: bool) -> (res: Result<(), SvgPathError>)
        requires
            old(self).pos <= old(self).input@.len(),
        ensures
            final(self).input@ == old(self).input@,
            final(self).pos <= final(self).input@.len(),
            settles(horizontal_points(old(self).input@, old(self).model(), relative), res, final(self).model()),
    {
        let ghost b = self.input@;
        let ghost m0 = self.model();
        while self.has_number()
            invariant
                self.input@ == b,
                b == old(self).input@,
                m0 == old(self).model(),
                self.pos <= b.len(),
                horizontal_points(b, self.model(), relative) == horizontal_points(b, m0, relative),
            decreases b.len() - self.pos,
        {
            let cur = self.current;
            let base = if relative { Some(cur.0) } else { None };
            proof {
                lemma_read_value(b, self.model(), base_index(base));
            }
            let x = self.parse_value(base)?;
            let pt = (x, cur.1);
            self.commands.push(SvgCommand::LineTo(pt));
            self.current = pt;
        }
        Ok(())
    }

    /// Vertical lineto arguments.
    fn parse_vertical(&mut self, relative: bool) -> (res: Result<(), SvgPathError>)
        requires
            old(self).pos <= old(self).input@.len(),
        ensures
            final(self).input@ == old(self).input@,
            final(self).pos <= final(self).input@.len(),
            settles(vertical_points(old(self).input@, old(self).model(), relative), res, final(self).model()),
    {
        let ghost b = self.input@;
        let ghost m0 = self.model();
        while self.has_number()
            invariant
                self.input@ == b,
                b == old(self).input@,
                m0 == old(self).model(),
                self.pos <= b.len(),
                vertical_points(b, self.model(), relative) == vertical_points(b, m0, relative),
            decreases b.len() - self.pos,
        {
            let cur = self.current;
            let base = if relative { Some(cur.1) } else { None };
            proof {
                lemma_read_value(b, self.model(), base_index(base));
            }
            let y = self.parse_value(base)?;
            let pt = (cur.0, y);
            self.commands.push(SvgCommand::LineTo(pt));
            self.current = pt;
        }
        Ok(())
    }
    /// Cubic curveto arguments.
    fn parse_cubic(&mut self, relative: bool) -> (res: Result<(), SvgPathError>)
        requires
            old(self).pos <= old(self).input@.len(),
        ensures
            final(self).input@ == old(self).input@,
            final(self).pos <= final(self).input@.len(),
            settles(cubic_points(old(self).input@, old(self).model(), relative), res, final(self).model()),
    {
        let ghost b = self.input@;
        let ghost m0 = self.model();
        while self.has_number()
            invariant
                self.input@ == b,
                b == old(self).input@,
                m0 == old(self).model(),
                self.pos <= b.len(),
                cubic_points(b, self.model(), relative) == cubic_points(b, m0, relative),
            decreases b.len() - self.pos,
        {
            let ghost before = self.model();
            proof {
                lemma_read_point(b, before, relative);
            }
            let control1 = self.parse_point(relative)?;
            proof {
                lemma_read_point(b, self.model(), relative);
            }
            let control2 = self.parse_point(relative)?;
            proof {
                lemma_read_point(b, self.model(), relative);
            }
            let end = self.parse_point(relative)?;
            self.commands.push(SvgCommand::CubicTo { control1, control2, end });
            self.current = end;
        }
        Ok(())
    }

    /// Quadratic curveto arguments.
    fn parse_quad(&mut self, relative: bool) -> (res: Result<(), SvgPathError>)
        requires
            old(self).pos <= old(self).input@.len(),
        ensures
            final(self).input@ == old(self).input@,
            final(self).pos <= final(self).input@.len(),
            settles(quad_points(old(self).input@, old(self).model(), relative), res, final(self).model()),
    {
        let ghost b = self.input@;
        let ghost m0 = self.model();
        while self.has_number()
            invariant
                self.input@ == b,
                b == old(self).input@,
                m0 == old(self).model(),
                self.pos <= b.len(),
                quad_points(b, self.model(), relative) == quad_points(b, m0, relative),
            decreases b.len() - self.pos,
        {
            let ghost before = self.model();
            proof {
                lemma_read_point(b, before, relative);
            }
            let control = self.parse_point(relative)?;
            proof {
                lemma_read_point(b, self.model(), relative);
            }
            let end = self.parse_point(relative)?;
            self.commands.push(SvgCommand::QuadTo { control, end });
            self.current = end;
        }
        Ok(())
    }

    /// Elliptical arc arguments.
    fn parse_arc(&mut self, relative: bool) -> (res: Result<(), SvgPathError>)
        requires
            old(self).pos <= old(self).input@.len(),
        ensures
            final(self).input@ == old(self).input@,
            final(self).pos <= final(self).input@.len(),
            settles(arc_points(old(self).input@, old(self).model(), relative), res, final(self).model()),
    {
        let ghost b = self.input@;
        let ghost m0 = self.model();
        while self.has_number()
            invariant
                self.input@ == b,
                b == old(self).input@,
                m0 == old(self).model(),
                self.pos <= b.len(),
                arc_points(b, self.model(), relative) == arc_points(b, m0, relative),
            decreases b.len() - self.pos,
        {
            let ghost before = self.model();
            proof {
                lemma_read_value(b, before, None);
            }
            let rx = self.parse_value(None)?;
            proof {
                lemma_read_value(b, self.model(), None);
            }
            let ry = self.parse_value(None)?;
            proof {
                lemma_read_value(b, self.model(), None);
            }
            let x_axis_rotation = self.parse_value(None)?;
            proof {
                lemma_scan_flag(b, self.pos as int);
            }
            let large_arc = self.parse_flag()?;
            proof {
                lemma_scan_flag(b, self.pos as int);
            }
            let sweep = self.parse_flag()?;
            proof {
                lemma_read_point(b, self.model(), relative);
            }
            let end = self.parse_point(relative)?;
            self.commands.push(
                SvgCommand::ArcTo { radii: (rx, ry), x_axis_rotation, large_arc, sweep, end },
            );
            self.current = end;
        }
        Ok(())
    }
    /// One command with its arguments. `command` is the letter, either case;
    /// the parser's position is just past it (or at the first argument of an
    /// implicitly repeated command).
    fn parse_command(&mut self, command: u8) -> (res: Result<(), SvgPathError>)
        requires
            old(self).pos <= old(self).input@.len(),
        ensures
            final(self).input@ == old(self).input@,
            final(self).pos <= final(self).input@.len(),
            settles(run_command(old(self).input@, old(self).model(), command), res, final(self).model()),
    {
        let relative = 0x61 <= command && command <= 0x7a;
        let c = if relative { command - 32 } else { command };
        if c == 0x4d {
            if !self.has_number() {
                return Err(SvgPathError::ExpectedNumber { at: self.pos });
            }
            self.parse_move(relative)
        } else if c == 0x5a {
            self.commands.push(SvgCommand::ClosePath);
            self.current = self.subpath_start;
            self.has_current = true;
            self.last_command = None;
            Ok(())
        } else if c == 0x4c || c == 0x48 || c == 0x56 || c == 0x43 || c == 0x51 || c == 0x41 {
            if !self.has_current {
                return Err(SvgPathError::MissingMoveTo { at: self.pos });
            }
            if !self.has_number() {
                return Err(SvgPathError::ExpectedNumber { at: self.pos });
            }
            if c == 0x4c {
                self.parse_line(relative)
            } else if c == 0x48 {
                self.parse_horizontal(relative)
            } else if c == 0x56 {
                self.parse_vertical(relative)
            } else if c == 0x43 {
                self.parse_cubic(relative)
            } else if c == 0x51 {
                self.parse_quad(relative)
            } else {
                self.parse_arc(relative)
            }
        } else {
            Err(
                SvgPathError::UnsupportedCommand {
                    command: command as char,
                    at: if self.pos >= 1 { self.pos - 1 } else { 0 },
                },
            )
        }
    }

    /// Commands until the input ends.
    fn parse(self) -> (res: Result<SvgPath, SvgPathError>)
        requires
            self.pos <= self.input@.len(),
        ensures
            match parse_from(self.input@, self.model()) {
                Ok(m) => res matches Ok(path) && path.values@ == m.values && path.commands@ == m.commands,
                Err(e) => res == Err::<SvgPath, SvgPathError>(e),
            },
    {
        let ghost b = self.input@;
        let ghost m0 = self.model();
        let mut parser = self;
        loop
            invariant
                parser.input@ == b,
                b == self.input@,
                m0 == self.model(),
                parser.pos <= b.len(),
                parse_from(b, parser.model()) == parse_from(b, m0),
            decreases b.len() - parser.pos,
        {
            let top_pos = parser.pos;
            let p = separators_end(parser.input, parser.pos);
            proof {
                lemma_skip_separators(b, top_pos as int);
            }
            if p >= parser.input.len() {
                return Ok(SvgPath { values: parser.values, commands: parser.commands });
            }
            let byte = parser.input[p];
            if (0x41 <= byte && byte <= 0x5a) || (0x61 <= byte && byte <= 0x7a) {
                parser.pos = p + 1;
                parser.last_command = Some(byte);
                proof {
                    lemma_run_command(b, parser.model(), byte);
                }
                if let Err(e) = parser.parse_command(byte) {
                    return Err(e);
                }
            } else {
                match parser.last_command {
                    None => {
                        return Err(SvgPathError::MissingMoveTo { at: p });
                    },
                    Some(c) => {
                        parser.pos = p;
                        proof {
                            lemma_run_command(b, parser.model(), c);
                        }
                        if let Err(e) = parser.parse_command(c) {
                            return Err(e);
                        }
                        if parser.pos <= top_pos {
                            return Ok(SvgPath { values: parser.values, commands: parser.commands });
                        }
                    },
                }
            }
        }
    }
}

/// Parser for SVG path `d` attributes.
#[derive(Clone, Copy, Debug, Default)]
pub struct SvgPathParser;

impl SvgPathParser {
    /// Parse an SVG `d` attribute.
    ///
    /// This permissive convenience method returns an empty path on invalid
    /// input. Use [`try_parse`](Self::try_parse) when callers need details.
    pub fn parse(d: &str) -> (path: SvgPath)
        ensures
            match svg_parse(vstd::utf8::encode_utf8(d@)) {
                Ok((values, commands)) => path.values@ == values && path.commands@ == commands,
                Err(_) => path.values@.len() == 0 && path.commands@.len() == 0,
            },
    {
        match Self::try_parse(d) {
            Ok(path) => path,
            Err(_) => SvgPath { values: Vec::new(), commands: Vec::new() },
        }
    }

    /// Parse an SVG `d` attribute with error reporting.
    pub fn try_parse(d: &str) -> (res: Result<SvgPath, SvgPathError>)
        ensures
            match svg_parse(vstd::utf8::encode_utf8(d@)) {
                Ok((values, commands)) => res matches Ok(path) && path.values@ == values
                    && path.commands@ == commands,
                Err(e) => res == Err::<SvgPath, SvgPathError>(e),
            },
            vstd::utf8::encode_utf8(d@).len() <= isize::MAX ==> (res matches Ok(path) ==> path_ok(
                path.values@,
                path.commands@,
                vstd::utf8::encode_utf8(d@).len() as int,
            )),
    {
        proof {
            if vstd::utf8::encode_utf8(d@).len() <= isize::MAX {
                law_parsed_paths_are_well_formed(vstd::utf8::encode_utf8(d@));
            }
        }
        Parser::new(d.as_bytes()).parse()
    }
}

} // verus!
verus! {

/// Arguments read later never change the commands and coordinates already
/// recorded.
proof fn lemma_arc_prefix(b: Seq<u8>, m: SvgModel, relative: bool)
    ensures
        arc_points(b, m, relative) matches Ok(m2) ==> m2.commands.len() >= m.commands.len()
            && m2.values.len() >= m.values.len() && (forall|k: int|
            0 <= k < m.commands.len() ==> #[trigger] m2.commands[k] == m.commands[k]) && (forall|k: int|
            0 <= k < m.values.len() ==> #[trigger] m2.values[k] == m.values[k]),
    decreases b.len() - m.pos,
{
    if has_number(b, m.pos) {
        lemma_skip_separators(b, m.pos);
        lemma_read_value(b, m, None);
        if let Ok((m1, rx)) = read_value(b, m, None) {
            lemma_read_value(b, m1, None);
            if let Ok((m2, ry)) = read_value(b, m1, None) {
                lemma_read_value(b, m2, None);
                if let Ok((m3, rot)) = read_value(b, m2, None) {
                    lemma_scan_flag(b, m3.pos);
                    if let Ok((large_arc, p4)) = scan_flag(b, m3.pos) {
                        lemma_scan_flag(b, p4);
                        if let Ok((sweep, p5)) = scan_flag(b, p4) {
                            let m5 = SvgModel { pos: p5, ..m3 };
                            lemma_read_point(b, m5, relative);
                            if let Ok((m6, end)) = read_point(b, m5, relative) {
                                let c = SvgCommand::ArcTo {
                                    radii: point((rx, ry)),
                                    x_axis_rotation: rot as usize,
                                    large_arc,
                                    sweep,
                                    end: point(end),
                                };
                                let d = draw(m6, c, end);
                                lemma_arc_prefix(b, d, relative);
                                assert forall|k: int| 0 <= k < m.values.len() implies d.values[k]
                                    == m.values[k] by {
                                    assert(m1.values[k] == m.values[k]);
                                    assert(m2.values[k] == m1.values[k]);
                                    assert(m3.values[k] == m2.values[k]);
                                }
                                assert forall|k: int| 0 <= k < m.commands.len() implies d.commands[k]
                                    == m.commands[k] by {}
                            }
                        }
                    }
                }
            }
        }
    }
}

/// An arc's end point is read as its command says: for a lower-case
/// (relative) arc each end coordinate is a number added to the matching
/// coordinate of the current point, and for an upper-case arc each is a
/// number on its own.
pub proof fn law_arc_end_follows_relative_flag(b: Seq<u8>, m: SvgModel, relative: bool)
    requires
        model_ok(b, m),
        m.has_current,
        has_number(b, m.pos),
    ensures
        arc_points(b, m, relative) matches Ok(m2) ==> m2.commands.len() > m.commands.len() && (
        m2.commands[m.commands.len() as int] matches SvgCommand::ArcTo { end, .. } && (relative ==> (
        m2.values[end.0 as int] matches SvgValue::Offset { base, .. } && base == m.current.0) && (
        m2.values[end.1 as int] matches SvgValue::Offset { base, .. } && base == m.current.1)) && (
        !relative ==> m2.values[end.0 as int] is Literal && m2.values[end.1 as int] is Literal)),
{
    lemma_skip_separators(b, m.pos);
    lemma_read_value_ok(b, m, None);
    if let Ok((m1, rx)) = read_value(b, m, None) {
        lemma_read_value_ok(b, m1, None);
        if let Ok((m2, ry)) = read_value(b, m1, None) {
            lemma_read_value_ok(b, m2, None);
            if let Ok((m3, rot)) = read_value(b, m2, None) {
                lemma_scan_flag(b, m3.pos);
                if let Ok((large_arc, p4)) = scan_flag(b, m3.pos) {
                    lemma_scan_flag(b, p4);
                    if let Ok((sweep, p5)) = scan_flag(b, p4) {
                        let m5 = SvgModel { pos: p5, ..m3 };
                        assert(model_ok(b, m5));
                        lemma_read_point_ok(b, m5, relative);
                        if let Ok((m6, end)) = read_point(b, m5, relative) {
                            let c = SvgCommand::ArcTo {
                                radii: point((rx, ry)),
                                x_axis_rotation: rot as usize,
                                large_arc,
                                sweep,
                                end: point(end),
                            };
                            let d = draw(m6, c, end);
                            lemma_arc_prefix(b, d, relative);
                            let n5 = m5.values.len() as int;
                            assert(end == (n5, n5 + 1));
                            assert(d.commands[m.commands.len() as int] == c);
                            assert(point(end).0 as int == n5);
                            assert(point(end).1 as int == n5 + 1);
                        }
                    }
                }
            }
        }
    }
}

} // verus!
