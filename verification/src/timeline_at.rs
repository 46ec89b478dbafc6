//! Reading a timeline position written as text: `start`, `end` (any ASCII
//! case), `label:name`, an offset `+1.5` or `-0.5`, an absolute time `@2`,
//! or a bare text that is an absolute time when it reads as a number and a
//! label otherwise. Number texts are handed back as written.
use vstd::prelude::*;
use crate::easing_parse::{
    chars_of, lower_ascii, same_text, starts_with_text, text_between, trim_text, trimmed,
};

verus! {

/// A timeline position read from text.
#[derive(Clone, Debug, PartialEq, Eq)]
pub enum AtSpec {
    /// The timeline's start.
    Start,
    /// The timeline's end.
    End,
    /// At a label.
    Label(String),
    /// An offset from the end, as number text (with its sign when negative).
    Offset(String),
    /// An absolute time, as number text.
    Absolute(String),
    /// A text that is an absolute time if it reads as a number, else a label.
    Bare(String),
}

/// The content of an [`AtSpec`].
pub enum AtSpecModel {
    /// The timeline's start.
    Start,
    /// The timeline's end.
    End,
    /// At a label.
    Label(Seq<char>),
    /// Offset number text.
    Offset(Seq<char>),
    /// Absolute time number text.
    Absolute(Seq<char>),
    /// Number or label text.
    Bare(Seq<char>),
}

impl View for AtSpec {
    type V = AtSpecModel;

    open spec fn view(&self) -> AtSpecModel {
        match self {
            AtSpec::Start => AtSpecModel::Start,
            AtSpec::End => AtSpecModel::End,
            AtSpec::Label(s) => AtSpecModel::Label(s@),
            AtSpec::Offset(s) => AtSpecModel::Offset(s@),
            AtSpec::Absolute(s) => AtSpecModel::Absolute(s@),
            AtSpec::Bare(s) => AtSpecModel::Bare(s@),
        }
    }
}

/// A text with its ASCII letters in lower case.
pub open spec fn ascii_lower(s: Seq<char>) -> Seq<char> {
    s.map_values(|c: char| lower_ascii(c))
}

/// What an already trimmed position text denotes.
pub open spec fn at_from_trimmed(t: Seq<char>) -> AtSpecModel {
    if ascii_lower(t) == "start"@ {
        AtSpecModel::Start
    } else if ascii_lower(t) == "end"@ {
        AtSpecModel::End
    } else if t.len() >= 6 && t.subrange(0, 6) == "label:"@ {
        AtSpecModel::Label(t.subrange(6, t.len() as int))
    } else if t.len() >= 1 && t[0] == '+' {
        AtSpecModel::Offset(t.subrange(1, t.len() as int))
    } else if t.len() >= 1 && t[0] == '-' {
        AtSpecModel::Offset(t)
    } else if t.len() >= 1 && t[0] == '@' {
        AtSpecModel::Absolute(t.subrange(1, t.len() as int))
    } else {
        AtSpecModel::Bare(t)
    }
}

/// A text with its ASCII letters in lower case.
fn lowered(s: &Vec<char>) -> (v: Vec<char>)
    ensures
        v@ == ascii_lower(s@),
{
    let mut v: Vec<char> = Vec::new();
    let mut i: usize = 0;
    while i < s.len()
        invariant
            i <= s@.len(),
            v@ == ascii_lower(s@.take(i as int)),
        decreases s@.len() - i,
    {
        let c = s[i];
        let lower = if 'A' <= c && c <= 'Z' {
            crate::easing_parse::char_after(c, 32)
        } else {
            c
        };
        v.push(lower);
        assert(ascii_lower(s@.take(i + 1)) =~= ascii_lower(s@.take(i as int)).push(lower_ascii(c)));
        i += 1;
    }
    assert(s@.take(i as int) =~= s@);
    v
}

/// Read a position from text that has already been trimmed.
pub fn parse_trimmed_at(text: &str) -> (res: AtSpec)
    ensures
        res@ == at_from_trimmed(text@),
{
    let t = chars_of(text);
    let low = lowered(&t);
    if same_text(&low, "start") {
        return AtSpec::Start;
    }
    if same_text(&low, "end") {
        return AtSpec::End;
    }
    let n = t.len();
    if starts_with_text(&t, "label:") {
        proof {
            reveal_strlit("label:");
        }
        return AtSpec::Label(text_between(&t, 6, n));
    }
    if n >= 1 && t[0] == '+' {
        return AtSpec::Offset(text_between(&t, 1, n));
    }
    if n >= 1 && t[0] == '-' {
        let all = text_between(&t, 0, n);
        assert(t@.subrange(0, n as int) =~= t@);
        return AtSpec::Offset(all);
    }
    if n >= 1 && t[0] == '@' {
        return AtSpec::Absolute(text_between(&t, 1, n));
    }
    let all = text_between(&t, 0, n);
    assert(t@.subrange(0, n as int) =~= t@);
    AtSpec::Bare(all)
}

/// Read a timeline position: trim it, then read it as [`parse_trimmed_at`]
/// does.
pub fn parse_at_text(input: &str) -> (res: AtSpec)
    ensures
        res@ == at_from_trimmed(trimmed(input@)),
{
    parse_trimmed_at(trim_text(input))
}

} // verus!
