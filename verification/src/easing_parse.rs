//! Reading easings written as text: a classic curve by name in any case,
//! with `-`, `_` and ASCII whitespace ignored (`ease-out-cubic`,
//! `easeOutCubic`), or a parameterised curve written as a call
//! (`steps(5)`, `cubicBezier(0.4, 0, 0.2, 1)`). The argument text is handed
//! back as written; turning it into numbers is left to the caller, which
//! then checks the count with [`check_arity`].
use vstd::prelude::*;
use crate::easing::{is_classic, kind_name, EasingKind};
use crate::json_format::{decimal, push_char, push_text, push_u64};

verus! {

/// An easing read from text.
#[derive(Clone, Debug, PartialEq, Eq)]
pub enum EasingSpec {
    /// A classic curve by name.
    Named(EasingKind),
    /// A parameterised curve with the text between its parentheses.
    Call {
        /// The curve.
        kind: EasingKind,
        /// The argument text, as written.
        args: String,
    },
}

/// The content of an [`EasingSpec`].
pub enum EasingSpecModel {
    /// A classic curve by name.
    Named(EasingKind),
    /// A curve and its argument text.
    Call(EasingKind, Seq<char>),
}

impl View for EasingSpec {
    type V = EasingSpecModel;

    open spec fn view(&self) -> EasingSpecModel {
        match self {
            EasingSpec::Named(k) => EasingSpecModel::Named(*k),
            EasingSpec::Call { kind, args } => EasingSpecModel::Call(*kind, args@),
        }
    }
}

/// Why an easing text was refused.
#[derive(Clone, Copy, Debug, PartialEq, Eq)]
pub enum EasingParseError {
    /// Neither a known name nor a known call.
    Unknown,
    /// A call with the wrong number of arguments.
    WrongArity {
        /// The curve called.
        kind: EasingKind,
        /// How many arguments it takes.
        expected: usize,
        /// How many were given.
        got: usize,
    },
}

/// A character with Unicode's `White_Space` property: tab, line feed,
/// vertical tab, form feed, carriage return, space, next line, no-break
/// space, ogham space mark, the spaces U+2000 to U+200A, line separator,
/// paragraph separator, narrow no-break space, medium mathematical space and
/// ideographic space.
pub open spec fn white_space(c: char) -> bool {
    let u = c as u32;
    ||| 0x09 <= u <= 0x0d
    ||| u == 0x20
    ||| u == 0x85
    ||| u == 0xa0
    ||| u == 0x1680
    ||| 0x2000 <= u <= 0x200a
    ||| u == 0x2028
    ||| u == 0x2029
    ||| u == 0x202f
    ||| u == 0x205f
    ||| u == 0x3000
}

/// Index of the first character at or after `i` that is not whitespace.
pub open spec fn white_prefix_end(s: Seq<char>, i: int) -> int
    decreases s.len() - i,
{
    if 0 <= i < s.len() && white_space(s[i]) {
        white_prefix_end(s, i + 1)
    } else {
        i
    }
}

/// One past the last character before `j` that is not whitespace.
pub open spec fn white_suffix_start(s: Seq<char>, j: int) -> int
    decreases j,
{
    if 0 < j <= s.len() && white_space(s[j - 1]) {
        white_suffix_start(s, j - 1)
    } else {
        j
    }
}

/// The text without leading and trailing whitespace (what `str::trim`
/// gives).
pub open spec fn trimmed(s: Seq<char>) -> Seq<char> {
    let start = white_prefix_end(s, 0);
    let end = white_suffix_start(s, s.len() as int);
    if start < end {
        s.subrange(start, end)
    } else {
        Seq::empty()
    }
}

/// `str::trim`: the text without its leading and trailing characters that
/// have Unicode's `White_Space` property.
#[verifier::external_body]
pub(crate) fn trim_text(s: &str) -> (r: &str)
    ensures
        r@ == trimmed(s@),
{
    s.trim()
}

/// An ASCII upper-case letter in lower case; other characters unchanged.
pub open spec fn lower_ascii(c: char) -> char {
    if 'A' <= c && c <= 'Z' {
        ((c as u32) + 32) as char
    } else {
        c
    }
}

/// Characters a name is compared without: `-`, `_` and ASCII whitespace.
pub open spec fn ignored_in_name(c: char) -> bool {
    c == '-' || c == '_' || c == ' ' || c == '\t' || c == '\n' || c == '\x0c' || c == '\r'
}

/// A name as compared: ignored characters dropped, ASCII letters in lower
/// case.
pub open spec fn normalize_name(s: Seq<char>) -> Seq<char>
    decreases s.len(),
{
    if s.len() == 0 {
        Seq::empty()
    } else {
        let rest = normalize_name(s.drop_last());
        if ignored_in_name(s.last()) {
            rest
        } else {
            rest.push(lower_ascii(s.last()))
        }
    }
}

/// Index of the first `c` in `s`.
pub open spec fn first_index_of(s: Seq<char>, c: char) -> Option<int>
    decreases s.len(),
{
    if s.len() == 0 {
        None
    } else if s[0] == c {
        Some(0)
    } else {
        match first_index_of(s.drop_first(), c) {
            Some(i) => Some(i + 1),
            None => None,
        }
    }
}

/// Index of the last `c` in `s`.
pub open spec fn last_index_of(s: Seq<char>, c: char) -> Option<int>
    decreases s.len(),
{
    if s.len() == 0 {
        None
    } else if s.last() == c {
        Some(s.len() - 1)
    } else {
        last_index_of(s.drop_last(), c)
    }
}

/// The argument text of a call to the function whose compared name is
/// `fname`: the text must, as compared, start with `fname`; the arguments
/// are what lies between the first `(` and the last `)`, when that `)` comes
/// after that `(`.
pub open spec fn call_args(t: Seq<char>, fname: Seq<char>) -> Option<Seq<char>> {
    let n = normalize_name(t);
    if n.len() >= fname.len() && n.subrange(0, fname.len() as int) == fname {
        match (first_index_of(t, '('), last_index_of(t, ')')) {
            (Some(open), Some(close)) => if close > open {
                Some(t.subrange(open + 1, close))
            } else {
                None
            },
            _ => None,
        }
    } else {
        None
    }
}

/// The classic curve with this compared name.
pub open spec fn classic_by_name(n: Seq<char>) -> Option<EasingKind> {

    if n == "linear"@ {
        Some(EasingKind::Linear)
    } else if n == "easeinquad"@ {
        Some(EasingKind::EaseInQuad)
    } else if n == "easeoutquad"@ {
        Some(EasingKind::EaseOutQuad)
    } else if n == "easeinoutquad"@ {
        Some(EasingKind::EaseInOutQuad)
    } else if n == "easeincubic"@ {
        Some(EasingKind::EaseInCubic)
    } else if n == "easeoutcubic"@ {
        Some(EasingKind::EaseOutCubic)
    } else if n == "easeinoutcubic"@ {
        Some(EasingKind::EaseInOutCubic)
    } else if n == "easeinquart"@ {
        Some(EasingKind::EaseInQuart)
    } else if n == "easeoutquart"@ {
        Some(EasingKind::EaseOutQuart)
    } else if n == "easeinoutquart"@ {
        Some(EasingKind::EaseInOutQuart)
    } else if n == "easeinquint"@ {
        Some(EasingKind::EaseInQuint)
    } else if n == "easeoutquint"@ {
        Some(EasingKind::EaseOutQuint)
    } else if n == "easeinoutquint"@ {
        Some(EasingKind::EaseInOutQuint)
    } else if n == "easeinsine"@ {
        Some(EasingKind::EaseInSine)
    } else if n == "easeoutsine"@ {
        Some(EasingKind::EaseOutSine)
    } else if n == "easeinoutsine"@ {
        Some(EasingKind::EaseInOutSine)
    } else if n == "easeinexpo"@ {
        Some(EasingKind::EaseInExpo)
    } else if n == "easeoutexpo"@ {
        Some(EasingKind::EaseOutExpo)
    } else if n == "easeinoutexpo"@ {
        Some(EasingKind::EaseInOutExpo)
    } else if n == "easeincirc"@ {
        Some(EasingKind::EaseInCirc)
    } else if n == "easeoutcirc"@ {
        Some(EasingKind::EaseOutCirc)
    } else if n == "easeinoutcirc"@ {
        Some(EasingKind::EaseInOutCirc)
    } else if n == "easeinback"@ {
        Some(EasingKind::EaseInBack)
    } else if n == "easeoutback"@ {
        Some(EasingKind::EaseOutBack)
    } else if n == "easeinoutback"@ {
        Some(EasingKind::EaseInOutBack)
    } else if n == "easeinelastic"@ {
        Some(EasingKind::EaseInElastic)
    } else if n == "easeoutelastic"@ {
        Some(EasingKind::EaseOutElastic)
    } else if n == "easeinoutelastic"@ {
        Some(EasingKind::EaseInOutElastic)
    } else if n == "easeinbounce"@ {
        Some(EasingKind::EaseInBounce)
    } else if n == "easeoutbounce"@ {
        Some(EasingKind::EaseOutBounce)
    } else if n == "easeinoutbounce"@ {
        Some(EasingKind::EaseInOutBounce)
    } else {
        None
    }
}

/// What an already trimmed easing text denotes: the first call form that
/// matches (`steps`, `cubicBezier`, also written `cubic-bezier`,
/// `roughEase`, `slowMo`, `wiggle`, `customBounce`, `expoScale`), else the
/// classic curve with the text's compared name.
pub open spec fn easing_from_trimmed(t: Seq<char>) -> Result<EasingSpecModel, EasingParseError> {

    if call_args(t, "steps"@) is Some {
        Ok(EasingSpecModel::Call(EasingKind::Steps, call_args(t, "steps"@)->0))
    } else if call_args(t, "cubicbezier"@) is Some {
        Ok(EasingSpecModel::Call(EasingKind::CubicBezier, call_args(t, "cubicbezier"@)->0))
    } else if call_args(t, "roughease"@) is Some {
        Ok(EasingSpecModel::Call(EasingKind::RoughEase, call_args(t, "roughease"@)->0))
    } else if call_args(t, "slowmo"@) is Some {
        Ok(EasingSpecModel::Call(EasingKind::SlowMo, call_args(t, "slowmo"@)->0))
    } else if call_args(t, "wiggle"@) is Some {
        Ok(EasingSpecModel::Call(EasingKind::Wiggle, call_args(t, "wiggle"@)->0))
    } else if call_args(t, "custombounce"@) is Some {
        Ok(EasingSpecModel::Call(EasingKind::CustomBounce, call_args(t, "custombounce"@)->0))
    } else if call_args(t, "exposcale"@) is Some {
        Ok(EasingSpecModel::Call(EasingKind::ExpoScale, call_args(t, "exposcale"@)->0))
    } else {
        match classic_by_name(normalize_name(t)) {
            Some(k) => Ok(EasingSpecModel::Named(k)),
            None => Err(EasingParseError::Unknown),
        }
    }
}

/// What an easing text denotes, after trimming.
pub open spec fn easing_spec(name: Seq<char>) -> Result<EasingSpecModel, EasingParseError> {
    easing_from_trimmed(trimmed(name))
}

/// How many arguments a call of the curve takes.
pub open spec fn expected_arguments(kind: EasingKind) -> nat {
    match kind {

        EasingKind::Steps => 1,
        EasingKind::CubicBezier => 4,
        EasingKind::RoughEase => 2,
        EasingKind::SlowMo => 2,
        EasingKind::Wiggle => 1,
        EasingKind::CustomBounce => 1,
        EasingKind::ExpoScale => 2,
        _ => 0,
    }
}

/// Pieces of `s` between commas, in order (one piece when there is no
/// comma).
pub open spec fn split_commas(s: Seq<char>) -> Seq<Seq<char>>
    decreases s.len(),
{
    if s.len() == 0 {
        seq![Seq::empty()]
    } else {
        let parts = split_commas(s.drop_last());
        if s.last() == ',' {
            parts.push(Seq::empty())
        } else {
            parts.update(parts.len() - 1, parts.last().push(s.last()))
        }
    }
}

proof fn lemma_split_commas_nonempty(s: Seq<char>)
    ensures
        split_commas(s).len() >= 1,
    decreases s.len(),
{
    if s.len() > 0 {
        lemma_split_commas_nonempty(s.drop_last());
    }
}

/// The characters of a text.
pub(crate) fn chars_of(s: &str) -> (v: Vec<char>)
    ensures
        v@ == s@,
{
    let mut v: Vec<char> = Vec::new();
    for c in it: s.chars()
        invariant
            it.seq() == s@,
            v@ == s@.take(it.index()),
    {
        v.push(c);
        assert(s@.take(it.index() + 1) =~= s@.take(it.index() as int).push(c));
    }
    assert(s@.take(s@.len() as int) =~= s@);
    v
}

/// The compared form of a name.
fn normalized(s: &Vec<char>) -> (v: Vec<char>)
    ensures
        v@ == normalize_name(s@),
{
    let mut v: Vec<char> = Vec::new();
    let mut i: usize = 0;
    while i < s.len()
        invariant
            i <= s@.len(),
            v@ == normalize_name(s@.take(i as int)),
        decreases s@.len() - i,
    {
        let c = s[i];
        assert(s@.take(i + 1).drop_last() =~= s@.take(i as int));
        if !(c == '-' || c == '_' || c == ' ' || c == '\t' || c == '\n' || c == '\x0c' || c == '\r') {
            let lower = if 'A' <= c && c <= 'Z' {
                char_after(c, 32)
            } else {
                c
            };
            v.push(lower);
        }
        i += 1;
    }
    assert(s@.take(i as int) =~= s@);
    v
}

/// The character `n` code points after an ASCII upper-case letter.
pub(crate) fn char_after(c: char, n: u32) -> (r: char)
    requires
        'A' <= c <= 'Z',
        n == 32,
    ensures
        r == ((c as u32) + n) as char,
{
    let code = ((c as u32) + n) as u8;
    code as char
}

/// Whether `s` begins with the characters of `prefix`.
pub(crate) fn starts_with_text(s: &Vec<char>, prefix: &str) -> (b: bool)
    ensures
        b == (s@.len() >= prefix@.len() && s@.subrange(0, prefix@.len() as int) == prefix@),
{
    let p = chars_of(prefix);
    if s.len() < p.len() {
        return false;
    }
    let mut i: usize = 0;
    while i < p.len()
        invariant
            p@ == prefix@,
            s@.len() >= p@.len(),
            i <= p@.len(),
            forall|j: int| 0 <= j < i ==> s@[j] == p@[j],
        decreases p@.len() - i,
    {
        if s[i] != p[i] {
            assert(s@.subrange(0, p@.len() as int)[i as int] != p@[i as int]);
            return false;
        }
        i += 1;
    }
    assert(s@.subrange(0, p@.len() as int) =~= p@);
    true
}

/// Whether `s` is the text `t`.
pub(crate) fn same_text(s: &Vec<char>, t: &str) -> (b: bool)
    ensures
        b == (s@ == t@),
{
    let p = chars_of(t);
    if s.len() != p.len() {
        return false;
    }
    let r = starts_with_text(s, t);
    assert(s@.subrange(0, s@.len() as int) =~= s@);
    r
}

/// Index of the first `c`.
fn first_index(s: &Vec<char>, c: char) -> (r: Option<usize>)
    ensures
        r matches Some(i) ==> first_index_of(s@, c) == Some(i as int),
        r is None ==> first_index_of(s@, c) is None,
{
    let mut i: usize = 0;
    while i < s.len()
        invariant
            i <= s@.len(),
            forall|j: int| 0 <= j < i ==> s@[j] != c,
        decreases s@.len() - i,
    {
        if s[i] == c {
            proof {
                lemma_first_index_of(s@, c, i as int);
            }
            return Some(i);
        }
        i += 1;
    }
    proof {
        lemma_first_index_of(s@, c, s@.len() as int);
    }
    None
}

proof fn lemma_first_index_of(s: Seq<char>, c: char, i: int)
    requires
        0 <= i <= s.len(),
        forall|j: int| 0 <= j < i ==> s[j] != c,
        i < s.len() ==> s[i] == c,
    ensures
        first_index_of(s, c) == if i < s.len() { Some(i) } else { None::<int> },
    decreases s.len(),
{
    if s.len() > 0 && i > 0 {
        let rest = s.drop_first();
        assert forall|j: int| 0 <= j < i - 1 implies rest[j] != c by {
            assert(rest[j] == s[j + 1]);
        }
        lemma_first_index_of(rest, c, i - 1);
    }
}

/// Index of the last `c`.
fn last_index(s: &Vec<char>, c: char) -> (r: Option<usize>)
    ensures
        r matches Some(i) ==> last_index_of(s@, c) == Some(i as int),
        r is None ==> last_index_of(s@, c) is None,
{
    let mut i: usize = s.len();
    assert(s@.take(i as int) =~= s@);
    while i > 0
        invariant
            i <= s@.len(),
            last_index_of(s@, c) == last_index_of(s@.take(i as int), c),
        decreases i,
    {
        assert(s@.take(i as int).drop_last() =~= s@.take(i - 1));
        if s[i - 1] == c {
            return Some(i - 1);
        }
        i -= 1;
    }
    None
}

/// The characters `from..to` of `s` as a string.
pub(crate) fn text_between(s: &Vec<char>, from: usize, to: usize) -> (r: String)
    requires
        from <= to <= s@.len(),
    ensures
        r@ == s@.subrange(from as int, to as int),
{
    let mut r = String::new();
    let mut i = from;
    while i < to
        invariant
            from <= i <= to,
            to <= s@.len(),
            r@ == s@.subrange(from as int, i as int),
        decreases to - i,
    {
        push_char(&mut r, s[i]);
        assert(s@.subrange(from as int, i + 1) =~= s@.subrange(from as int, i as int).push(s@[i as int]));
        i += 1;
    }
    r
}

/// The argument text of a call to the function whose compared name is
/// `fname`, given the text `t` and its compared form `n`.
fn call_arguments(t: &Vec<char>, n: &Vec<char>, fname: &str) -> (r: Option<String>)
    requires
        n@ == normalize_name(t@),
    ensures
        match call_args(t@, fname@) {
            Some(a) => r matches Some(s) && s@ == a,
            None => r is None,
        },
{
    if !starts_with_text(n, fname) {
        return None;
    }
    let open = match first_index(t, '(') {
        Some(i) => i,
        None => return None,
    };
    let close = match last_index(t, ')') {
        Some(i) => i,
        None => return None,
    };
    proof {
        lemma_last_index_of_range(t@, ')');
        lemma_first_index_of_range(t@, '(');
        assert(first_index_of(t@, '(') == Some(open as int));
        assert(last_index_of(t@, ')') == Some(close as int));
        assert(normalize_name(t@).len() >= fname@.len());
        assert(normalize_name(t@).subrange(0, fname@.len() as int) == fname@);
    }
    if close <= open {
        return None;
    }
    Some(text_between(t, open + 1, close))
}

proof fn lemma_first_index_of_range(s: Seq<char>, c: char)
    ensures
        first_index_of(s, c) matches Some(i) ==> 0 <= i < s.len(),
    decreases s.len(),
{
    if s.len() > 0 && s[0] != c {
        lemma_first_index_of_range(s.drop_first(), c);
    }
}

proof fn lemma_last_index_of_range(s: Seq<char>, c: char)
    ensures
        last_index_of(s, c) matches Some(i) ==> 0 <= i < s.len(),
    decreases s.len(),
{
    if s.len() > 0 && s.last() != c {
        lemma_last_index_of_range(s.drop_last(), c);
    }
}

/// The classic curve whose compared name is `n`.
fn classic_named(n: &Vec<char>) -> (r: Option<EasingKind>)
    ensures
        r == classic_by_name(n@),
{

    if same_text(n, "linear") {
        Some(EasingKind::Linear)
    } else if same_text(n, "easeinquad") {
        Some(EasingKind::EaseInQuad)
    } else if same_text(n, "easeoutquad") {
        Some(EasingKind::EaseOutQuad)
    } else if same_text(n, "easeinoutquad") {
        Some(EasingKind::EaseInOutQuad)
    } else if same_text(n, "easeincubic") {
        Some(EasingKind::EaseInCubic)
    } else if same_text(n, "easeoutcubic") {
        Some(EasingKind::EaseOutCubic)
    } else if same_text(n, "easeinoutcubic") {
        Some(EasingKind::EaseInOutCubic)
    } else if same_text(n, "easeinquart") {
        Some(EasingKind::EaseInQuart)
    } else if same_text(n, "easeoutquart") {
        Some(EasingKind::EaseOutQuart)
    } else if same_text(n, "easeinoutquart") {
        Some(EasingKind::EaseInOutQuart)
    } else if same_text(n, "easeinquint") {
        Some(EasingKind::EaseInQuint)
    } else if same_text(n, "easeoutquint") {
        Some(EasingKind::EaseOutQuint)
    } else if same_text(n, "easeinoutquint") {
        Some(EasingKind::EaseInOutQuint)
    } else if same_text(n, "easeinsine") {
        Some(EasingKind::EaseInSine)
    } else if same_text(n, "easeoutsine") {
        Some(EasingKind::EaseOutSine)
    } else if same_text(n, "easeinoutsine") {
        Some(EasingKind::EaseInOutSine)
    } else if same_text(n, "easeinexpo") {
        Some(EasingKind::EaseInExpo)
    } else if same_text(n, "easeoutexpo") {
        Some(EasingKind::EaseOutExpo)
    } else if same_text(n, "easeinoutexpo") {
        Some(EasingKind::EaseInOutExpo)
    } else if same_text(n, "easeincirc") {
        Some(EasingKind::EaseInCirc)
    } else if same_text(n, "easeoutcirc") {
        Some(EasingKind::EaseOutCirc)
    } else if same_text(n, "easeinoutcirc") {
        Some(EasingKind::EaseInOutCirc)
    } else if same_text(n, "easeinback") {
        Some(EasingKind::EaseInBack)
    } else if same_text(n, "easeoutback") {
        Some(EasingKind::EaseOutBack)
    } else if same_text(n, "easeinoutback") {
        Some(EasingKind::EaseInOutBack)
    } else if same_text(n, "easeinelastic") {
        Some(EasingKind::EaseInElastic)
    } else if same_text(n, "easeoutelastic") {
        Some(EasingKind::EaseOutElastic)
    } else if same_text(n, "easeinoutelastic") {
        Some(EasingKind::EaseInOutElastic)
    } else if same_text(n, "easeinbounce") {
        Some(EasingKind::EaseInBounce)
    } else if same_text(n, "easeoutbounce") {
        Some(EasingKind::EaseOutBounce)
    } else if same_text(n, "easeinoutbounce") {
        Some(EasingKind::EaseInOutBounce)
    } else {
        None
    }
}

/// Read an easing from text that has already been trimmed.
pub fn parse_trimmed_easing(text: &str) -> (res: Result<EasingSpec, EasingParseError>)
    ensures
        match easing_from_trimmed(text@) {
            Ok(m) => res matches Ok(s) && s@ == m,
            Err(e) => res == Err::<EasingSpec, EasingParseError>(e),
        },
{
    let t = chars_of(text);
    let n = normalized(&t);

    if let Some(args) = call_arguments(&t, &n, "steps") {
        return Ok(EasingSpec::Call { kind: EasingKind::Steps, args });
    }
    if let Some(args) = call_arguments(&t, &n, "cubicbezier") {
        return Ok(EasingSpec::Call { kind: EasingKind::CubicBezier, args });
    }
    if let Some(args) = call_arguments(&t, &n, "roughease") {
        return Ok(EasingSpec::Call { kind: EasingKind::RoughEase, args });
    }
    if let Some(args) = call_arguments(&t, &n, "slowmo") {
        return Ok(EasingSpec::Call { kind: EasingKind::SlowMo, args });
    }
    if let Some(args) = call_arguments(&t, &n, "wiggle") {
        return Ok(EasingSpec::Call { kind: EasingKind::Wiggle, args });
    }
    if let Some(args) = call_arguments(&t, &n, "custombounce") {
        return Ok(EasingSpec::Call { kind: EasingKind::CustomBounce, args });
    }
    if let Some(args) = call_arguments(&t, &n, "exposcale") {
        return Ok(EasingSpec::Call { kind: EasingKind::ExpoScale, args });
    }
    match classic_named(&n) {
        Some(k) => Ok(EasingSpec::Named(k)),
        None => Err(EasingParseError::Unknown),
    }
}

/// Read an easing name: trim it, then read it as
/// [`parse_trimmed_easing`] does.
pub fn parse_easing_text(name: &str) -> (res: Result<EasingSpec, EasingParseError>)
    ensures
        match easing_spec(name@) {
            Ok(m) => res matches Ok(s) && s@ == m,
            Err(e) => res == Err::<EasingSpec, EasingParseError>(e),
        },
{
    parse_trimmed_easing(trim_text(name))
}

/// The pieces of a call's argument text: none when the text is blank after
/// trimming, else the text split at every comma (pieces untrimmed).
pub fn argument_texts(args: &str) -> (parts: Vec<String>)
    ensures
        parts@.map_values(|p: String| p@) == if trimmed(args@).len() == 0 {
            Seq::<Seq<char>>::empty()
        } else {
            split_commas(args@)
        },
{
    let mut parts: Vec<String> = Vec::new();
    if trim_text(args).is_empty() {
        assert(parts@.map_values(|p: String| p@) =~= Seq::<Seq<char>>::empty());
        return parts;
    }
    let s = chars_of(args);
    let mut current = String::new();
    let mut i: usize = 0;
    while i < s.len()
        invariant
            i <= s@.len(),
            s@ == args@,
            parts@.map_values(|p: String| p@).push(current@) == split_commas(s@.take(i as int)),
        decreases s@.len() - i,
    {
        let c = s[i];
        let ghost before = parts@.map_values(|p: String| p@);
        let ghost prefix = s@.take(i as int);
        proof {
            lemma_split_commas_nonempty(prefix);
        }
        assert(s@.take(i + 1).drop_last() =~= prefix);
        if c == ',' {
            let done = current;
            parts.push(done);
            current = String::new();
            assert(parts@.map_values(|p: String| p@) =~= before.push(done@));
            assert(parts@.map_values(|p: String| p@).push(current@) =~= split_commas(prefix).push(
                Seq::empty(),
            ));
        } else {
            let ghost old_current = current@;
            push_char(&mut current, c);
            assert(before.push(current@) =~= before.push(old_current).update(
                before.len() as int,
                old_current.push(c),
            ));
        }
        i += 1;
    }
    assert(s@.take(i as int) =~= s@);
    parts.push(current);
    parts
}

/// Check the number of arguments of a call.
pub fn check_arity(kind: EasingKind, got: usize) -> (res: Result<(), EasingParseError>)
    ensures
        got == expected_arguments(kind) ==> res is Ok,
        got != expected_arguments(kind) ==> res == Err::<(), EasingParseError>(
            EasingParseError::WrongArity { kind, expected: expected_arguments(kind) as usize, got },
        ),
{
    let expected: usize = match kind {

        EasingKind::Steps => 1,
        EasingKind::CubicBezier => 4,
        EasingKind::RoughEase => 2,
        EasingKind::SlowMo => 2,
        EasingKind::Wiggle => 1,
        EasingKind::CustomBounce => 1,
        EasingKind::ExpoScale => 2,
        _ => 0,
    };
    if got == expected {
        Ok(())
    } else {
        Err(EasingParseError::WrongArity { kind, expected, got })
    }
}

/// What a wrong argument count is reported as, per curve.
pub open spec fn arity_text(kind: EasingKind) -> Seq<char> {
    match kind {

        EasingKind::Steps => "steps() expects one numeric argument"@,
        EasingKind::CubicBezier => "cubicBezier() expects four numeric arguments"@,
        EasingKind::RoughEase => "roughEase() expects strength and points"@,
        EasingKind::SlowMo => "slowMo() expects linearRatio and power"@,
        EasingKind::Wiggle => "wiggle() expects one numeric argument"@,
        EasingKind::CustomBounce => "customBounce() expects one numeric argument"@,
        EasingKind::ExpoScale => "expoScale() expects start and end"@,
        _ => "unexpected arguments"@,
    }
}

impl EasingParseError {
    /// The error's message for the easing text `name`.
    pub fn message(&self, name: &str) -> (text: String)
        ensures
            text@ == match *self {
                EasingParseError::Unknown => "unknown easing `"@ + name@ + "`"@,
                EasingParseError::WrongArity { kind, .. } => arity_text(kind),
            },
    {
        match *self {
            EasingParseError::Unknown => {
                let mut out = "unknown easing `".to_owned();
                push_text(&mut out, name);
                push_text(&mut out, "`");
                out
            },
            EasingParseError::WrongArity { kind, .. } => match kind {

                EasingKind::Steps => "steps() expects one numeric argument".to_owned(),
                EasingKind::CubicBezier => "cubicBezier() expects four numeric arguments".to_owned(),
                EasingKind::RoughEase => "roughEase() expects strength and points".to_owned(),
                EasingKind::SlowMo => "slowMo() expects linearRatio and power".to_owned(),
                EasingKind::Wiggle => "wiggle() expects one numeric argument".to_owned(),
                EasingKind::CustomBounce => "customBounce() expects one numeric argument".to_owned(),
                EasingKind::ExpoScale => "expoScale() expects start and end".to_owned(),
                _ => "unexpected arguments".to_owned(),
            },
        }
    }
}

} // verus!

verus! {

proof fn lemma_reads_linear()
    ensures
        easing_from_trimmed(kind_name(EasingKind::Linear)) == Ok::<EasingSpecModel, EasingParseError>(
            EasingSpecModel::Named(EasingKind::Linear),
        ),
        kind_name(EasingKind::Linear).len() > 0,
        !white_space(kind_name(EasingKind::Linear)[0]),
        !white_space(kind_name(EasingKind::Linear).last()),
{
    reveal_strlit("linear");
    reveal_strlit("linear");
    reveal_strlit("easeinquad");
    reveal_strlit("easeoutquad");
    reveal_strlit("easeinoutquad");
    reveal_strlit("easeincubic");
    reveal_strlit("easeoutcubic");
    reveal_strlit("easeinoutcubic");
    reveal_strlit("easeinquart");
    reveal_strlit("easeoutquart");
    reveal_strlit("easeinoutquart");
    reveal_strlit("easeinquint");
    reveal_strlit("easeoutquint");
    reveal_strlit("easeinoutquint");
    reveal_strlit("easeinsine");
    reveal_strlit("easeoutsine");
    reveal_strlit("easeinoutsine");
    reveal_strlit("easeinexpo");
    reveal_strlit("easeoutexpo");
    reveal_strlit("easeinoutexpo");
    reveal_strlit("easeincirc");
    reveal_strlit("easeoutcirc");
    reveal_strlit("easeinoutcirc");
    reveal_strlit("easeinback");
    reveal_strlit("easeoutback");
    reveal_strlit("easeinoutback");
    reveal_strlit("easeinelastic");
    reveal_strlit("easeoutelastic");
    reveal_strlit("easeinoutelastic");
    reveal_strlit("easeinbounce");
    reveal_strlit("easeoutbounce");
    reveal_strlit("easeinoutbounce");
    reveal_with_fuel(normalize_name, 17);
    reveal_with_fuel(first_index_of, 17);
    assert(normalize_name("linear"@) =~= "linear"@);
    assert(first_index_of("linear"@, '(') is None);
}

proof fn lemma_reads_ease_in_quad()
    ensures
        easing_from_trimmed(kind_name(EasingKind::EaseInQuad)) == Ok::<EasingSpecModel, EasingParseError>(
            EasingSpecModel::Named(EasingKind::EaseInQuad),
        ),
        kind_name(EasingKind::EaseInQuad).len() > 0,
        !white_space(kind_name(EasingKind::EaseInQuad)[0]),
        !white_space(kind_name(EasingKind::EaseInQuad).last()),
{
    reveal_strlit("easeInQuad");
    reveal_strlit("linear");
    reveal_strlit("easeinquad");
    reveal_strlit("easeoutquad");
    reveal_strlit("easeinoutquad");
    reveal_strlit("easeincubic");
    reveal_strlit("easeoutcubic");
    reveal_strlit("easeinoutcubic");
    reveal_strlit("easeinquart");
    reveal_strlit("easeoutquart");
    reveal_strlit("easeinoutquart");
    reveal_strlit("easeinquint");
    reveal_strlit("easeoutquint");
    reveal_strlit("easeinoutquint");
    reveal_strlit("easeinsine");
    reveal_strlit("easeoutsine");
    reveal_strlit("easeinoutsine");
    reveal_strlit("easeinexpo");
    reveal_strlit("easeoutexpo");
    reveal_strlit("easeinoutexpo");
    reveal_strlit("easeincirc");
    reveal_strlit("easeoutcirc");
    reveal_strlit("easeinoutcirc");
    reveal_strlit("easeinback");
    reveal_strlit("easeoutback");
    reveal_strlit("easeinoutback");
    reveal_strlit("easeinelastic");
    reveal_strlit("easeoutelastic");
    reveal_strlit("easeinoutelastic");
    reveal_strlit("easeinbounce");
    reveal_strlit("easeoutbounce");
    reveal_strlit("easeinoutbounce");
    reveal_with_fuel(normalize_name, 17);
    reveal_with_fuel(first_index_of, 17);
    assert(normalize_name("easeInQuad"@) =~= "easeinquad"@);
    assert(first_index_of("easeInQuad"@, '(') is None);
}

proof fn lemma_reads_ease_out_quad()
    ensures
        easing_from_trimmed(kind_name(EasingKind::EaseOutQuad)) == Ok::<EasingSpecModel, EasingParseError>(
            EasingSpecModel::Named(EasingKind::EaseOutQuad),
        ),
        kind_name(EasingKind::EaseOutQuad).len() > 0,
        !white_space(kind_name(EasingKind::EaseOutQuad)[0]),
        !white_space(kind_name(EasingKind::EaseOutQuad).last()),
{
    reveal_strlit("easeOutQuad");
    reveal_strlit("linear");
    reveal_strlit("easeinquad");
    reveal_strlit("easeoutquad");
    reveal_strlit("easeinoutquad");
    reveal_strlit("easeincubic");
    reveal_strlit("easeoutcubic");
    reveal_strlit("easeinoutcubic");
    reveal_strlit("easeinquart");
    reveal_strlit("easeoutquart");
    reveal_strlit("easeinoutquart");
    reveal_strlit("easeinquint");
    reveal_strlit("easeoutquint");
    reveal_strlit("easeinoutquint");
    reveal_strlit("easeinsine");
    reveal_strlit("easeoutsine");
    reveal_strlit("easeinoutsine");
    reveal_strlit("easeinexpo");
    reveal_strlit("easeoutexpo");
    reveal_strlit("easeinoutexpo");
    reveal_strlit("easeincirc");
    reveal_strlit("easeoutcirc");
    reveal_strlit("easeinoutcirc");
    reveal_strlit("easeinback");
    reveal_strlit("easeoutback");
    reveal_strlit("easeinoutback");
    reveal_strlit("easeinelastic");
    reveal_strlit("easeoutelastic");
    reveal_strlit("easeinoutelastic");
    reveal_strlit("easeinbounce");
    reveal_strlit("easeoutbounce");
    reveal_strlit("easeinoutbounce");
    reveal_with_fuel(normalize_name, 17);
    reveal_with_fuel(first_index_of, 17);
    assert(normalize_name("easeOutQuad"@) =~= "easeoutquad"@);
    assert(first_index_of("easeOutQuad"@, '(') is None);
}

proof fn lemma_reads_ease_in_out_quad()
    ensures
        easing_from_trimmed(kind_name(EasingKind::EaseInOutQuad)) == Ok::<EasingSpecModel, EasingParseError>(
            EasingSpecModel::Named(EasingKind::EaseInOutQuad),
        ),
        kind_name(EasingKind::EaseInOutQuad).len() > 0,
        !white_space(kind_name(EasingKind::EaseInOutQuad)[0]),
        !white_space(kind_name(EasingKind::EaseInOutQuad).last()),
{
    reveal_strlit("easeInOutQuad");
    reveal_strlit("linear");
    reveal_strlit("easeinquad");
    reveal_strlit("easeoutquad");
    reveal_strlit("easeinoutquad");
    reveal_strlit("easeincubic");
    reveal_strlit("easeoutcubic");
    reveal_strlit("easeinoutcubic");
    reveal_strlit("easeinquart");
    reveal_strlit("easeoutquart");
    reveal_strlit("easeinoutquart");
    reveal_strlit("easeinquint");
    reveal_strlit("easeoutquint");
    reveal_strlit("easeinoutquint");
    reveal_strlit("easeinsine");
    reveal_strlit("easeoutsine");
    reveal_strlit("easeinoutsine");
    reveal_strlit("easeinexpo");
    reveal_strlit("easeoutexpo");
    reveal_strlit("easeinoutexpo");
    reveal_strlit("easeincirc");
    reveal_strlit("easeoutcirc");
    reveal_strlit("easeinoutcirc");
    reveal_strlit("easeinback");
    reveal_strlit("easeoutback");
    reveal_strlit("easeinoutback");
    reveal_strlit("easeinelastic");
    reveal_strlit("easeoutelastic");
    reveal_strlit("easeinoutelastic");
    reveal_strlit("easeinbounce");
    reveal_strlit("easeoutbounce");
    reveal_strlit("easeinoutbounce");
    reveal_with_fuel(normalize_name, 17);
    reveal_with_fuel(first_index_of, 17);
    assert(normalize_name("easeInOutQuad"@) =~= "easeinoutquad"@);
    assert(first_index_of("easeInOutQuad"@, '(') is None);
}

proof fn lemma_reads_ease_in_cubic()
    ensures
        easing_from_trimmed(kind_name(EasingKind::EaseInCubic)) == Ok::<EasingSpecModel, EasingParseError>(
            EasingSpecModel::Named(EasingKind::EaseInCubic),
        ),
        kind_name(EasingKind::EaseInCubic).len() > 0,
        !white_space(kind_name(EasingKind::EaseInCubic)[0]),
        !white_space(kind_name(EasingKind::EaseInCubic).last()),
{
    reveal_strlit("easeInCubic");
    reveal_strlit("linear");
    reveal_strlit("easeinquad");
    reveal_strlit("easeoutquad");
    reveal_strlit("easeinoutquad");
    reveal_strlit("easeincubic");
    reveal_strlit("easeoutcubic");
    reveal_strlit("easeinoutcubic");
    reveal_strlit("easeinquart");
    reveal_strlit("easeoutquart");
    reveal_strlit("easeinoutquart");
    reveal_strlit("easeinquint");
    reveal_strlit("easeoutquint");
    reveal_strlit("easeinoutquint");
    reveal_strlit("easeinsine");
    reveal_strlit("easeoutsine");
    reveal_strlit("easeinoutsine");
    reveal_strlit("easeinexpo");
    reveal_strlit("easeoutexpo");
    reveal_strlit("easeinoutexpo");
    reveal_strlit("easeincirc");
    reveal_strlit("easeoutcirc");
    reveal_strlit("easeinoutcirc");
    reveal_strlit("easeinback");
    reveal_strlit("easeoutback");
    reveal_strlit("easeinoutback");
    reveal_strlit("easeinelastic");
    reveal_strlit("easeoutelastic");
    reveal_strlit("easeinoutelastic");
    reveal_strlit("easeinbounce");
    reveal_strlit("easeoutbounce");
    reveal_strlit("easeinoutbounce");
    reveal_with_fuel(normalize_name, 17);
    reveal_with_fuel(first_index_of, 17);
    assert(normalize_name("easeInCubic"@) =~= "easeincubic"@);
    assert(first_index_of("easeInCubic"@, '(') is None);
    assert("easeincubic"@[4] != "easeoutquad"@[4]);
}

proof fn lemma_reads_ease_out_cubic()
    ensures
        easing_from_trimmed(kind_name(EasingKind::EaseOutCubic)) == Ok::<EasingSpecModel, EasingParseError>(
            EasingSpecModel::Named(EasingKind::EaseOutCubic),
        ),
        kind_name(EasingKind::EaseOutCubic).len() > 0,
        !white_space(kind_name(EasingKind::EaseOutCubic)[0]),
        !white_space(kind_name(EasingKind::EaseOutCubic).last()),
{
    reveal_strlit("easeOutCubic");
    reveal_strlit("linear");
    reveal_strlit("easeinquad");
    reveal_strlit("easeoutquad");
    reveal_strlit("easeinoutquad");
    reveal_strlit("easeincubic");
    reveal_strlit("easeoutcubic");
    reveal_strlit("easeinoutcubic");
    reveal_strlit("easeinquart");
    reveal_strlit("easeoutquart");
    reveal_strlit("easeinoutquart");
    reveal_strlit("easeinquint");
    reveal_strlit("easeoutquint");
    reveal_strlit("easeinoutquint");
    reveal_strlit("easeinsine");
    reveal_strlit("easeoutsine");
    reveal_strlit("easeinoutsine");
    reveal_strlit("easeinexpo");
    reveal_strlit("easeoutexpo");
    reveal_strlit("easeinoutexpo");
    reveal_strlit("easeincirc");
    reveal_strlit("easeoutcirc");
    reveal_strlit("easeinoutcirc");
    reveal_strlit("easeinback");
    reveal_strlit("easeoutback");
    reveal_strlit("easeinoutback");
    reveal_strlit("easeinelastic");
    reveal_strlit("easeoutelastic");
    reveal_strlit("easeinoutelastic");
    reveal_strlit("easeinbounce");
    reveal_strlit("easeoutbounce");
    reveal_strlit("easeinoutbounce");
    reveal_with_fuel(normalize_name, 17);
    reveal_with_fuel(first_index_of, 17);
    assert(normalize_name("easeOutCubic"@) =~= "easeoutcubic"@);
    assert(first_index_of("easeOutCubic"@, '(') is None);
}

proof fn lemma_reads_ease_in_out_cubic()
    ensures
        easing_from_trimmed(kind_name(EasingKind::EaseInOutCubic)) == Ok::<EasingSpecModel, EasingParseError>(
            EasingSpecModel::Named(EasingKind::EaseInOutCubic),
        ),
        kind_name(EasingKind::EaseInOutCubic).len() > 0,
        !white_space(kind_name(EasingKind::EaseInOutCubic)[0]),
        !white_space(kind_name(EasingKind::EaseInOutCubic).last()),
{
    reveal_strlit("easeInOutCubic");
    reveal_strlit("linear");
    reveal_strlit("easeinquad");
    reveal_strlit("easeoutquad");
    reveal_strlit("easeinoutquad");
    reveal_strlit("easeincubic");
    reveal_strlit("easeoutcubic");
    reveal_strlit("easeinoutcubic");
    reveal_strlit("easeinquart");
    reveal_strlit("easeoutquart");
    reveal_strlit("easeinoutquart");
    reveal_strlit("easeinquint");
    reveal_strlit("easeoutquint");
    reveal_strlit("easeinoutquint");
    reveal_strlit("easeinsine");
    reveal_strlit("easeoutsine");
    reveal_strlit("easeinoutsine");
    reveal_strlit("easeinexpo");
    reveal_strlit("easeoutexpo");
    reveal_strlit("easeinoutexpo");
    reveal_strlit("easeincirc");
    reveal_strlit("easeoutcirc");
    reveal_strlit("easeinoutcirc");
    reveal_strlit("easeinback");
    reveal_strlit("easeoutback");
    reveal_strlit("easeinoutback");
    reveal_strlit("easeinelastic");
    reveal_strlit("easeoutelastic");
    reveal_strlit("easeinoutelastic");
    reveal_strlit("easeinbounce");
    reveal_strlit("easeoutbounce");
    reveal_strlit("easeinoutbounce");
    reveal_with_fuel(normalize_name, 17);
    reveal_with_fuel(first_index_of, 17);
    assert(normalize_name("easeInOutCubic"@) =~= "easeinoutcubic"@);
    assert(first_index_of("easeInOutCubic"@, '(') is None);
}

proof fn lemma_reads_ease_in_quart()
    ensures
        easing_from_trimmed(kind_name(EasingKind::EaseInQuart)) == Ok::<EasingSpecModel, EasingParseError>(
            EasingSpecModel::Named(EasingKind::EaseInQuart),
        ),
        kind_name(EasingKind::EaseInQuart).len() > 0,
        !white_space(kind_name(EasingKind::EaseInQuart)[0]),
        !white_space(kind_name(EasingKind::EaseInQuart).last()),
{
    reveal_strlit("easeInQuart");
    reveal_strlit("linear");
    reveal_strlit("easeinquad");
    reveal_strlit("easeoutquad");
    reveal_strlit("easeinoutquad");
    reveal_strlit("easeincubic");
    reveal_strlit("easeoutcubic");
    reveal_strlit("easeinoutcubic");
    reveal_strlit("easeinquart");
    reveal_strlit("easeoutquart");
    reveal_strlit("easeinoutquart");
    reveal_strlit("easeinquint");
    reveal_strlit("easeoutquint");
    reveal_strlit("easeinoutquint");
    reveal_strlit("easeinsine");
    reveal_strlit("easeoutsine");
    reveal_strlit("easeinoutsine");
    reveal_strlit("easeinexpo");
    reveal_strlit("easeoutexpo");
    reveal_strlit("easeinoutexpo");
    reveal_strlit("easeincirc");
    reveal_strlit("easeoutcirc");
    reveal_strlit("easeinoutcirc");
    reveal_strlit("easeinback");
    reveal_strlit("easeoutback");
    reveal_strlit("easeinoutback");
    reveal_strlit("easeinelastic");
    reveal_strlit("easeoutelastic");
    reveal_strlit("easeinoutelastic");
    reveal_strlit("easeinbounce");
    reveal_strlit("easeoutbounce");
    reveal_strlit("easeinoutbounce");
    reveal_with_fuel(normalize_name, 17);
    reveal_with_fuel(first_index_of, 17);
    assert(normalize_name("easeInQuart"@) =~= "easeinquart"@);
    assert(first_index_of("easeInQuart"@, '(') is None);
    assert("easeinquart"@[4] != "easeoutquad"@[4]);
    assert("easeinquart"@[6] != "easeincubic"@[6]);
}

proof fn lemma_reads_ease_out_quart()
    ensures
        easing_from_trimmed(kind_name(EasingKind::EaseOutQuart)) == Ok::<EasingSpecModel, EasingParseError>(
            EasingSpecModel::Named(EasingKind::EaseOutQuart),
        ),
        kind_name(EasingKind::EaseOutQuart).len() > 0,
        !white_space(kind_name(EasingKind::EaseOutQuart)[0]),
        !white_space(kind_name(EasingKind::EaseOutQuart).last()),
{
    reveal_strlit("easeOutQuart");
    reveal_strlit("linear");
    reveal_strlit("easeinquad");
    reveal_strlit("easeoutquad");
    reveal_strlit("easeinoutquad");
    reveal_strlit("easeincubic");
    reveal_strlit("easeoutcubic");
    reveal_strlit("easeinoutcubic");
    reveal_strlit("easeinquart");
    reveal_strlit("easeoutquart");
    reveal_strlit("easeinoutquart");
    reveal_strlit("easeinquint");
    reveal_strlit("easeoutquint");
    reveal_strlit("easeinoutquint");
    reveal_strlit("easeinsine");
    reveal_strlit("easeoutsine");
    reveal_strlit("easeinoutsine");
    reveal_strlit("easeinexpo");
    reveal_strlit("easeoutexpo");
    reveal_strlit("easeinoutexpo");
    reveal_strlit("easeincirc");
    reveal_strlit("easeoutcirc");
    reveal_strlit("easeinoutcirc");
    reveal_strlit("easeinback");
    reveal_strlit("easeoutback");
    reveal_strlit("easeinoutback");
    reveal_strlit("easeinelastic");
    reveal_strlit("easeoutelastic");
    reveal_strlit("easeinoutelastic");
    reveal_strlit("easeinbounce");
    reveal_strlit("easeoutbounce");
    reveal_strlit("easeinoutbounce");
    reveal_with_fuel(normalize_name, 17);
    reveal_with_fuel(first_index_of, 17);
    assert(normalize_name("easeOutQuart"@) =~= "easeoutquart"@);
    assert(first_index_of("easeOutQuart"@, '(') is None);
    assert("easeoutquart"@[7] != "easeoutcubic"@[7]);
}

proof fn lemma_reads_ease_in_out_quart()
    ensures
        easing_from_trimmed(kind_name(EasingKind::EaseInOutQuart)) == Ok::<EasingSpecModel, EasingParseError>(
            EasingSpecModel::Named(EasingKind::EaseInOutQuart),
        ),
        kind_name(EasingKind::EaseInOutQuart).len() > 0,
        !white_space(kind_name(EasingKind::EaseInOutQuart)[0]),
        !white_space(kind_name(EasingKind::EaseInOutQuart).last()),
{
    reveal_strlit("easeInOutQuart");
    reveal_strlit("linear");
    reveal_strlit("easeinquad");
    reveal_strlit("easeoutquad");
    reveal_strlit("easeinoutquad");
    reveal_strlit("easeincubic");
    reveal_strlit("easeoutcubic");
    reveal_strlit("easeinoutcubic");
    reveal_strlit("easeinquart");
    reveal_strlit("easeoutquart");
    reveal_strlit("easeinoutquart");
    reveal_strlit("easeinquint");
    reveal_strlit("easeoutquint");
    reveal_strlit("easeinoutquint");
    reveal_strlit("easeinsine");
    reveal_strlit("easeoutsine");
    reveal_strlit("easeinoutsine");
    reveal_strlit("easeinexpo");
    reveal_strlit("easeoutexpo");
    reveal_strlit("easeinoutexpo");
    reveal_strlit("easeincirc");
    reveal_strlit("easeoutcirc");
    reveal_strlit("easeinoutcirc");
    reveal_strlit("easeinback");
    reveal_strlit("easeoutback");
    reveal_strlit("easeinoutback");
    reveal_strlit("easeinelastic");
    reveal_strlit("easeoutelastic");
    reveal_strlit("easeinoutelastic");
    reveal_strlit("easeinbounce");
    reveal_strlit("easeoutbounce");
    reveal_strlit("easeinoutbounce");
    reveal_with_fuel(normalize_name, 17);
    reveal_with_fuel(first_index_of, 17);
    assert(normalize_name("easeInOutQuart"@) =~= "easeinoutquart"@);
    assert(first_index_of("easeInOutQuart"@, '(') is None);
    assert("easeinoutquart"@[9] != "easeinoutcubic"@[9]);
}

proof fn lemma_reads_ease_in_quint()
    ensures
        easing_from_trimmed(kind_name(EasingKind::EaseInQuint)) == Ok::<EasingSpecModel, EasingParseError>(
            EasingSpecModel::Named(EasingKind::EaseInQuint),
        ),
        kind_name(EasingKind::EaseInQuint).len() > 0,
        !white_space(kind_name(EasingKind::EaseInQuint)[0]),
        !white_space(kind_name(EasingKind::EaseInQuint).last()),
{
    reveal_strlit("easeInQuint");
    reveal_strlit("linear");
    reveal_strlit("easeinquad");
    reveal_strlit("easeoutquad");
    reveal_strlit("easeinoutquad");
    reveal_strlit("easeincubic");
    reveal_strlit("easeoutcubic");
    reveal_strlit("easeinoutcubic");
    reveal_strlit("easeinquart");
    reveal_strlit("easeoutquart");
    reveal_strlit("easeinoutquart");
    reveal_strlit("easeinquint");
    reveal_strlit("easeoutquint");
    reveal_strlit("easeinoutquint");
    reveal_strlit("easeinsine");
    reveal_strlit("easeoutsine");
    reveal_strlit("easeinoutsine");
    reveal_strlit("easeinexpo");
    reveal_strlit("easeoutexpo");
    reveal_strlit("easeinoutexpo");
    reveal_strlit("easeincirc");
    reveal_strlit("easeoutcirc");
    reveal_strlit("easeinoutcirc");
    reveal_strlit("easeinback");
    reveal_strlit("easeoutback");
    reveal_strlit("easeinoutback");
    reveal_strlit("easeinelastic");
    reveal_strlit("easeoutelastic");
    reveal_strlit("easeinoutelastic");
    reveal_strlit("easeinbounce");
    reveal_strlit("easeoutbounce");
    reveal_strlit("easeinoutbounce");
    reveal_with_fuel(normalize_name, 17);
    reveal_with_fuel(first_index_of, 17);
    assert(normalize_name("easeInQuint"@) =~= "easeinquint"@);
    assert(first_index_of("easeInQuint"@, '(') is None);
    assert("easeinquint"@[4] != "easeoutquad"@[4]);
    assert("easeinquint"@[6] != "easeincubic"@[6]);
    assert("easeinquint"@[8] != "easeinquart"@[8]);
}

proof fn lemma_reads_ease_out_quint()
    ensures
        easing_from_trimmed(kind_name(EasingKind::EaseOutQuint)) == Ok::<EasingSpecModel, EasingParseError>(
            EasingSpecModel::Named(EasingKind::EaseOutQuint),
        ),
        kind_name(EasingKind::EaseOutQuint).len() > 0,
        !white_space(kind_name(EasingKind::EaseOutQuint)[0]),
        !white_space(kind_name(EasingKind::EaseOutQuint).last()),
{
    reveal_strlit("easeOutQuint");
    reveal_strlit("linear");
    reveal_strlit("easeinquad");
    reveal_strlit("easeoutquad");
    reveal_strlit("easeinoutquad");
    reveal_strlit("easeincubic");
    reveal_strlit("easeoutcubic");
    reveal_strlit("easeinoutcubic");
    reveal_strlit("easeinquart");
    reveal_strlit("easeoutquart");
    reveal_strlit("easeinoutquart");
    reveal_strlit("easeinquint");
    reveal_strlit("easeoutquint");
    reveal_strlit("easeinoutquint");
    reveal_strlit("easeinsine");
    reveal_strlit("easeoutsine");
    reveal_strlit("easeinoutsine");
    reveal_strlit("easeinexpo");
    reveal_strlit("easeoutexpo");
    reveal_strlit("easeinoutexpo");
    reveal_strlit("easeincirc");
    reveal_strlit("easeoutcirc");
    reveal_strlit("easeinoutcirc");
    reveal_strlit("easeinback");
    reveal_strlit("easeoutback");
    reveal_strlit("easeinoutback");
    reveal_strlit("easeinelastic");
    reveal_strlit("easeoutelastic");
    reveal_strlit("easeinoutelastic");
    reveal_strlit("easeinbounce");
    reveal_strlit("easeoutbounce");
    reveal_strlit("easeinoutbounce");
    reveal_with_fuel(normalize_name, 17);
    reveal_with_fuel(first_index_of, 17);
    assert(normalize_name("easeOutQuint"@) =~= "easeoutquint"@);
    assert(first_index_of("easeOutQuint"@, '(') is None);
    assert("easeoutquint"@[7] != "easeoutcubic"@[7]);
    assert("easeoutquint"@[9] != "easeoutquart"@[9]);
}

proof fn lemma_reads_ease_in_out_quint()
    ensures
        easing_from_trimmed(kind_name(EasingKind::EaseInOutQuint)) == Ok::<EasingSpecModel, EasingParseError>(
            EasingSpecModel::Named(EasingKind::EaseInOutQuint),
        ),
        kind_name(EasingKind::EaseInOutQuint).len() > 0,
        !white_space(kind_name(EasingKind::EaseInOutQuint)[0]),
        !white_space(kind_name(EasingKind::EaseInOutQuint).last()),
{
    reveal_strlit("easeInOutQuint");
    reveal_strlit("linear");
    reveal_strlit("easeinquad");
    reveal_strlit("easeoutquad");
    reveal_strlit("easeinoutquad");
    reveal_strlit("easeincubic");
    reveal_strlit("easeoutcubic");
    reveal_strlit("easeinoutcubic");
    reveal_strlit("easeinquart");
    reveal_strlit("easeoutquart");
    reveal_strlit("easeinoutquart");
    reveal_strlit("easeinquint");
    reveal_strlit("easeoutquint");
    reveal_strlit("easeinoutquint");
    reveal_strlit("easeinsine");
    reveal_strlit("easeoutsine");
    reveal_strlit("easeinoutsine");
    reveal_strlit("easeinexpo");
    reveal_strlit("easeoutexpo");
    reveal_strlit("easeinoutexpo");
    reveal_strlit("easeincirc");
    reveal_strlit("easeoutcirc");
    reveal_strlit("easeinoutcirc");
    reveal_strlit("easeinback");
    reveal_strlit("easeoutback");
    reveal_strlit("easeinoutback");
    reveal_strlit("easeinelastic");
    reveal_strlit("easeoutelastic");
    reveal_strlit("easeinoutelastic");
    reveal_strlit("easeinbounce");
    reveal_strlit("easeoutbounce");
    reveal_strlit("easeinoutbounce");
    reveal_with_fuel(normalize_name, 17);
    reveal_with_fuel(first_index_of, 17);
    assert(normalize_name("easeInOutQuint"@) =~= "easeinoutquint"@);
    assert(first_index_of("easeInOutQuint"@, '(') is None);
    assert("easeinoutquint"@[9] != "easeinoutcubic"@[9]);
    assert("easeinoutquint"@[11] != "easeinoutquart"@[11]);
}

proof fn lemma_reads_ease_in_sine()
    ensures
        easing_from_trimmed(kind_name(EasingKind::EaseInSine)) == Ok::<EasingSpecModel, EasingParseError>(
            EasingSpecModel::Named(EasingKind::EaseInSine),
        ),
        kind_name(EasingKind::EaseInSine).len() > 0,
        !white_space(kind_name(EasingKind::EaseInSine)[0]),
        !white_space(kind_name(EasingKind::EaseInSine).last()),
{
    reveal_strlit("easeInSine");
    reveal_strlit("linear");
    reveal_strlit("easeinquad");
    reveal_strlit("easeoutquad");
    reveal_strlit("easeinoutquad");
    reveal_strlit("easeincubic");
    reveal_strlit("easeoutcubic");
    reveal_strlit("easeinoutcubic");
    reveal_strlit("easeinquart");
    reveal_strlit("easeoutquart");
    reveal_strlit("easeinoutquart");
    reveal_strlit("easeinquint");
    reveal_strlit("easeoutquint");
    reveal_strlit("easeinoutquint");
    reveal_strlit("easeinsine");
    reveal_strlit("easeoutsine");
    reveal_strlit("easeinoutsine");
    reveal_strlit("easeinexpo");
    reveal_strlit("easeoutexpo");
    reveal_strlit("easeinoutexpo");
    reveal_strlit("easeincirc");
    reveal_strlit("easeoutcirc");
    reveal_strlit("easeinoutcirc");
    reveal_strlit("easeinback");
    reveal_strlit("easeoutback");
    reveal_strlit("easeinoutback");
    reveal_strlit("easeinelastic");
    reveal_strlit("easeoutelastic");
    reveal_strlit("easeinoutelastic");
    reveal_strlit("easeinbounce");
    reveal_strlit("easeoutbounce");
    reveal_strlit("easeinoutbounce");
    reveal_with_fuel(normalize_name, 17);
    reveal_with_fuel(first_index_of, 17);
    assert(normalize_name("easeInSine"@) =~= "easeinsine"@);
    assert(first_index_of("easeInSine"@, '(') is None);
    assert("easeinsine"@[6] != "easeinquad"@[6]);
}

proof fn lemma_reads_ease_out_sine()
    ensures
        easing_from_trimmed(kind_name(EasingKind::EaseOutSine)) == Ok::<EasingSpecModel, EasingParseError>(
            EasingSpecModel::Named(EasingKind::EaseOutSine),
        ),
        kind_name(EasingKind::EaseOutSine).len() > 0,
        !white_space(kind_name(EasingKind::EaseOutSine)[0]),
        !white_space(kind_name(EasingKind::EaseOutSine).last()),
{
    reveal_strlit("easeOutSine");
    reveal_strlit("linear");
    reveal_strlit("easeinquad");
    reveal_strlit("easeoutquad");
    reveal_strlit("easeinoutquad");
    reveal_strlit("easeincubic");
    reveal_strlit("easeoutcubic");
    reveal_strlit("easeinoutcubic");
    reveal_strlit("easeinquart");
    reveal_strlit("easeoutquart");
    reveal_strlit("easeinoutquart");
    reveal_strlit("easeinquint");
    reveal_strlit("easeoutquint");
    reveal_strlit("easeinoutquint");
    reveal_strlit("easeinsine");
    reveal_strlit("easeoutsine");
    reveal_strlit("easeinoutsine");
    reveal_strlit("easeinexpo");
    reveal_strlit("easeoutexpo");
    reveal_strlit("easeinoutexpo");
    reveal_strlit("easeincirc");
    reveal_strlit("easeoutcirc");
    reveal_strlit("easeinoutcirc");
    reveal_strlit("easeinback");
    reveal_strlit("easeoutback");
    reveal_strlit("easeinoutback");
    reveal_strlit("easeinelastic");
    reveal_strlit("easeoutelastic");
    reveal_strlit("easeinoutelastic");
    reveal_strlit("easeinbounce");
    reveal_strlit("easeoutbounce");
    reveal_strlit("easeinoutbounce");
    reveal_with_fuel(normalize_name, 17);
    reveal_with_fuel(first_index_of, 17);
    assert(normalize_name("easeOutSine"@) =~= "easeoutsine"@);
    assert(first_index_of("easeOutSine"@, '(') is None);
    assert("easeoutsine"@[7] != "easeoutquad"@[7]);
    assert("easeoutsine"@[4] != "easeincubic"@[4]);
    assert("easeoutsine"@[4] != "easeinquart"@[4]);
    assert("easeoutsine"@[4] != "easeinquint"@[4]);
}

proof fn lemma_reads_ease_in_out_sine()
    ensures
        easing_from_trimmed(kind_name(EasingKind::EaseInOutSine)) == Ok::<EasingSpecModel, EasingParseError>(
            EasingSpecModel::Named(EasingKind::EaseInOutSine),
        ),
        kind_name(EasingKind::EaseInOutSine).len() > 0,
        !white_space(kind_name(EasingKind::EaseInOutSine)[0]),
        !white_space(kind_name(EasingKind::EaseInOutSine).last()),
{
    reveal_strlit("easeInOutSine");
    reveal_strlit("linear");
    reveal_strlit("easeinquad");
    reveal_strlit("easeoutquad");
    reveal_strlit("easeinoutquad");
    reveal_strlit("easeincubic");
    reveal_strlit("easeoutcubic");
    reveal_strlit("easeinoutcubic");
    reveal_strlit("easeinquart");
    reveal_strlit("easeoutquart");
    reveal_strlit("easeinoutquart");
    reveal_strlit("easeinquint");
    reveal_strlit("easeoutquint");
    reveal_strlit("easeinoutquint");
    reveal_strlit("easeinsine");
    reveal_strlit("easeoutsine");
    reveal_strlit("easeinoutsine");
    reveal_strlit("easeinexpo");
    reveal_strlit("easeoutexpo");
    reveal_strlit("easeinoutexpo");
    reveal_strlit("easeincirc");
    reveal_strlit("easeoutcirc");
    reveal_strlit("easeinoutcirc");
    reveal_strlit("easeinback");
    reveal_strlit("easeoutback");
    reveal_strlit("easeinoutback");
    reveal_strlit("easeinelastic");
    reveal_strlit("easeoutelastic");
    reveal_strlit("easeinoutelastic");
    reveal_strlit("easeinbounce");
    reveal_strlit("easeoutbounce");
    reveal_strlit("easeinoutbounce");
    reveal_with_fuel(normalize_name, 17);
    reveal_with_fuel(first_index_of, 17);
    assert(normalize_name("easeInOutSine"@) =~= "easeinoutsine"@);
    assert(first_index_of("easeInOutSine"@, '(') is None);
    assert("easeinoutsine"@[9] != "easeinoutquad"@[9]);
}

proof fn lemma_reads_ease_in_expo()
    ensures
        easing_from_trimmed(kind_name(EasingKind::EaseInExpo)) == Ok::<EasingSpecModel, EasingParseError>(
            EasingSpecModel::Named(EasingKind::EaseInExpo),
        ),
        kind_name(EasingKind::EaseInExpo).len() > 0,
        !white_space(kind_name(EasingKind::EaseInExpo)[0]),
        !white_space(kind_name(EasingKind::EaseInExpo).last()),
{
    reveal_strlit("easeInExpo");
    reveal_strlit("linear");
    reveal_strlit("easeinquad");
    reveal_strlit("easeoutquad");
    reveal_strlit("easeinoutquad");
    reveal_strlit("easeincubic");
    reveal_strlit("easeoutcubic");
    reveal_strlit("easeinoutcubic");
    reveal_strlit("easeinquart");
    reveal_strlit("easeoutquart");
    reveal_strlit("easeinoutquart");
    reveal_strlit("easeinquint");
    reveal_strlit("easeoutquint");
    reveal_strlit("easeinoutquint");
    reveal_strlit("easeinsine");
    reveal_strlit("easeoutsine");
    reveal_strlit("easeinoutsine");
    reveal_strlit("easeinexpo");
    reveal_strlit("easeoutexpo");
    reveal_strlit("easeinoutexpo");
    reveal_strlit("easeincirc");
    reveal_strlit("easeoutcirc");
    reveal_strlit("easeinoutcirc");
    reveal_strlit("easeinback");
    reveal_strlit("easeoutback");
    reveal_strlit("easeinoutback");
    reveal_strlit("easeinelastic");
    reveal_strlit("easeoutelastic");
    reveal_strlit("easeinoutelastic");
    reveal_strlit("easeinbounce");
    reveal_strlit("easeoutbounce");
    reveal_strlit("easeinoutbounce");
    reveal_with_fuel(normalize_name, 17);
    reveal_with_fuel(first_index_of, 17);
    assert(normalize_name("easeInExpo"@) =~= "easeinexpo"@);
    assert(first_index_of("easeInExpo"@, '(') is None);
    assert("easeinexpo"@[6] != "easeinquad"@[6]);
    assert("easeinexpo"@[6] != "easeinsine"@[6]);
}

proof fn lemma_reads_ease_out_expo()
    ensures
        easing_from_trimmed(kind_name(EasingKind::EaseOutExpo)) == Ok::<EasingSpecModel, EasingParseError>(
            EasingSpecModel::Named(EasingKind::EaseOutExpo),
        ),
        kind_name(EasingKind::EaseOutExpo).len() > 0,
        !white_space(kind_name(EasingKind::EaseOutExpo)[0]),
        !white_space(kind_name(EasingKind::EaseOutExpo).last()),
{
    reveal_strlit("easeOutExpo");
    reveal_strlit("linear");
    reveal_strlit("easeinquad");
    reveal_strlit("easeoutquad");
    reveal_strlit("easeinoutquad");
    reveal_strlit("easeincubic");
    reveal_strlit("easeoutcubic");
    reveal_strlit("easeinoutcubic");
    reveal_strlit("easeinquart");
    reveal_strlit("easeoutquart");
    reveal_strlit("easeinoutquart");
    reveal_strlit("easeinquint");
    reveal_strlit("easeoutquint");
    reveal_strlit("easeinoutquint");
    reveal_strlit("easeinsine");
    reveal_strlit("easeoutsine");
    reveal_strlit("easeinoutsine");
    reveal_strlit("easeinexpo");
    reveal_strlit("easeoutexpo");
    reveal_strlit("easeinoutexpo");
    reveal_strlit("easeincirc");
    reveal_strlit("easeoutcirc");
    reveal_strlit("easeinoutcirc");
    reveal_strlit("easeinback");
    reveal_strlit("easeoutback");
    reveal_strlit("easeinoutback");
    reveal_strlit("easeinelastic");
    reveal_strlit("easeoutelastic");
    reveal_strlit("easeinoutelastic");
    reveal_strlit("easeinbounce");
    reveal_strlit("easeoutbounce");
    reveal_strlit("easeinoutbounce");
    reveal_with_fuel(normalize_name, 17);
    reveal_with_fuel(first_index_of, 17);
    assert(normalize_name("easeOutExpo"@) =~= "easeoutexpo"@);
    assert(first_index_of("easeOutExpo"@, '(') is None);
    assert("easeoutexpo"@[7] != "easeoutquad"@[7]);
    assert("easeoutexpo"@[4] != "easeincubic"@[4]);
    assert("easeoutexpo"@[4] != "easeinquart"@[4]);
    assert("easeoutexpo"@[4] != "easeinquint"@[4]);
    assert("easeoutexpo"@[7] != "easeoutsine"@[7]);
}

proof fn lemma_reads_ease_in_out_expo()
    ensures
        easing_from_trimmed(kind_name(EasingKind::EaseInOutExpo)) == Ok::<EasingSpecModel, EasingParseError>(
            EasingSpecModel::Named(EasingKind::EaseInOutExpo),
        ),
        kind_name(EasingKind::EaseInOutExpo).len() > 0,
        !white_space(kind_name(EasingKind::EaseInOutExpo)[0]),
        !white_space(kind_name(EasingKind::EaseInOutExpo).last()),
{
    reveal_strlit("easeInOutExpo");
    reveal_strlit("linear");
    reveal_strlit("easeinquad");
    reveal_strlit("easeoutquad");
    reveal_strlit("easeinoutquad");
    reveal_strlit("easeincubic");
    reveal_strlit("easeoutcubic");
    reveal_strlit("easeinoutcubic");
    reveal_strlit("easeinquart");
    reveal_strlit("easeoutquart");
    reveal_strlit("easeinoutquart");
    reveal_strlit("easeinquint");
    reveal_strlit("easeoutquint");
    reveal_strlit("easeinoutquint");
    reveal_strlit("easeinsine");
    reveal_strlit("easeoutsine");
    reveal_strlit("easeinoutsine");
    reveal_strlit("easeinexpo");
    reveal_strlit("easeoutexpo");
    reveal_strlit("easeinoutexpo");
    reveal_strlit("easeincirc");
    reveal_strlit("easeoutcirc");
    reveal_strlit("easeinoutcirc");
    reveal_strlit("easeinback");
    reveal_strlit("easeoutback");
    reveal_strlit("easeinoutback");
    reveal_strlit("easeinelastic");
    reveal_strlit("easeoutelastic");
    reveal_strlit("easeinoutelastic");
    reveal_strlit("easeinbounce");
    reveal_strlit("easeoutbounce");
    reveal_strlit("easeinoutbounce");
    reveal_with_fuel(normalize_name, 17);
    reveal_with_fuel(first_index_of, 17);
    assert(normalize_name("easeInOutExpo"@) =~= "easeinoutexpo"@);
    assert(first_index_of("easeInOutExpo"@, '(') is None);
    assert("easeinoutexpo"@[9] != "easeinoutquad"@[9]);
    assert("easeinoutexpo"@[9] != "easeinoutsine"@[9]);
}

proof fn lemma_reads_ease_in_circ()
    ensures
        easing_from_trimmed(kind_name(EasingKind::EaseInCirc)) == Ok::<EasingSpecModel, EasingParseError>(
            EasingSpecModel::Named(EasingKind::EaseInCirc),
        ),
        kind_name(EasingKind::EaseInCirc).len() > 0,
        !white_space(kind_name(EasingKind::EaseInCirc)[0]),
        !white_space(kind_name(EasingKind::EaseInCirc).last()),
{
    reveal_strlit("easeInCirc");
    reveal_strlit("linear");
    reveal_strlit("easeinquad");
    reveal_strlit("easeoutquad");
    reveal_strlit("easeinoutquad");
    reveal_strlit("easeincubic");
    reveal_strlit("easeoutcubic");
    reveal_strlit("easeinoutcubic");
    reveal_strlit("easeinquart");
    reveal_strlit("easeoutquart");
    reveal_strlit("easeinoutquart");
    reveal_strlit("easeinquint");
    reveal_strlit("easeoutquint");
    reveal_strlit("easeinoutquint");
    reveal_strlit("easeinsine");
    reveal_strlit("easeoutsine");
    reveal_strlit("easeinoutsine");
    reveal_strlit("easeinexpo");
    reveal_strlit("easeoutexpo");
    reveal_strlit("easeinoutexpo");
    reveal_strlit("easeincirc");
    reveal_strlit("easeoutcirc");
    reveal_strlit("easeinoutcirc");
    reveal_strlit("easeinback");
    reveal_strlit("easeoutback");
    reveal_strlit("easeinoutback");
    reveal_strlit("easeinelastic");
    reveal_strlit("easeoutelastic");
    reveal_strlit("easeinoutelastic");
    reveal_strlit("easeinbounce");
    reveal_strlit("easeoutbounce");
    reveal_strlit("easeinoutbounce");
    reveal_with_fuel(normalize_name, 17);
    reveal_with_fuel(first_index_of, 17);
    assert(normalize_name("easeInCirc"@) =~= "easeincirc"@);
    assert(first_index_of("easeInCirc"@, '(') is None);
    assert("easeincirc"@[6] != "easeinquad"@[6]);
    assert("easeincirc"@[6] != "easeinsine"@[6]);
    assert("easeincirc"@[6] != "easeinexpo"@[6]);
}

proof fn lemma_reads_ease_out_circ()
    ensures
        easing_from_trimmed(kind_name(EasingKind::EaseOutCirc)) == Ok::<EasingSpecModel, EasingParseError>(
            EasingSpecModel::Named(EasingKind::EaseOutCirc),
        ),
        kind_name(EasingKind::EaseOutCirc).len() > 0,
        !white_space(kind_name(EasingKind::EaseOutCirc)[0]),
        !white_space(kind_name(EasingKind::EaseOutCirc).last()),
{
    reveal_strlit("easeOutCirc");
    reveal_strlit("linear");
    reveal_strlit("easeinquad");
    reveal_strlit("easeoutquad");
    reveal_strlit("easeinoutquad");
    reveal_strlit("easeincubic");
    reveal_strlit("easeoutcubic");
    reveal_strlit("easeinoutcubic");
    reveal_strlit("easeinquart");
    reveal_strlit("easeoutquart");
    reveal_strlit("easeinoutquart");
    reveal_strlit("easeinquint");
    reveal_strlit("easeoutquint");
    reveal_strlit("easeinoutquint");
    reveal_strlit("easeinsine");
    reveal_strlit("easeoutsine");
    reveal_strlit("easeinoutsine");
    reveal_strlit("easeinexpo");
    reveal_strlit("easeoutexpo");
    reveal_strlit("easeinoutexpo");
    reveal_strlit("easeincirc");
    reveal_strlit("easeoutcirc");
    reveal_strlit("easeinoutcirc");
    reveal_strlit("easeinback");
    reveal_strlit("easeoutback");
    reveal_strlit("easeinoutback");
    reveal_strlit("easeinelastic");
    reveal_strlit("easeoutelastic");
    reveal_strlit("easeinoutelastic");
    reveal_strlit("easeinbounce");
    reveal_strlit("easeoutbounce");
    reveal_strlit("easeinoutbounce");
    reveal_with_fuel(normalize_name, 17);
    reveal_with_fuel(first_index_of, 17);
    assert(normalize_name("easeOutCirc"@) =~= "easeoutcirc"@);
    assert(first_index_of("easeOutCirc"@, '(') is None);
    assert("easeoutcirc"@[7] != "easeoutquad"@[7]);
    assert("easeoutcirc"@[4] != "easeincubic"@[4]);
    assert("easeoutcirc"@[4] != "easeinquart"@[4]);
    assert("easeoutcirc"@[4] != "easeinquint"@[4]);
    assert("easeoutcirc"@[7] != "easeoutsine"@[7]);
    assert("easeoutcirc"@[7] != "easeoutexpo"@[7]);
}

proof fn lemma_reads_ease_in_out_circ()
    ensures
        easing_from_trimmed(kind_name(EasingKind::EaseInOutCirc)) == Ok::<EasingSpecModel, EasingParseError>(
            EasingSpecModel::Named(EasingKind::EaseInOutCirc),
        ),
        kind_name(EasingKind::EaseInOutCirc).len() > 0,
        !white_space(kind_name(EasingKind::EaseInOutCirc)[0]),
        !white_space(kind_name(EasingKind::EaseInOutCirc).last()),
{
    reveal_strlit("easeInOutCirc");
    reveal_strlit("linear");
    reveal_strlit("easeinquad");
    reveal_strlit("easeoutquad");
    reveal_strlit("easeinoutquad");
    reveal_strlit("easeincubic");
    reveal_strlit("easeoutcubic");
    reveal_strlit("easeinoutcubic");
    reveal_strlit("easeinquart");
    reveal_strlit("easeoutquart");
    reveal_strlit("easeinoutquart");
    reveal_strlit("easeinquint");
    reveal_strlit("easeoutquint");
    reveal_strlit("easeinoutquint");
    reveal_strlit("easeinsine");
    reveal_strlit("easeoutsine");
    reveal_strlit("easeinoutsine");
    reveal_strlit("easeinexpo");
    reveal_strlit("easeoutexpo");
    reveal_strlit("easeinoutexpo");
    reveal_strlit("easeincirc");
    reveal_strlit("easeoutcirc");
    reveal_strlit("easeinoutcirc");
    reveal_strlit("easeinback");
    reveal_strlit("easeoutback");
    reveal_strlit("easeinoutback");
    reveal_strlit("easeinelastic");
    reveal_strlit("easeoutelastic");
    reveal_strlit("easeinoutelastic");
    reveal_strlit("easeinbounce");
    reveal_strlit("easeoutbounce");
    reveal_strlit("easeinoutbounce");
    reveal_with_fuel(normalize_name, 17);
    reveal_with_fuel(first_index_of, 17);
    assert(normalize_name("easeInOutCirc"@) =~= "easeinoutcirc"@);
    assert(first_index_of("easeInOutCirc"@, '(') is None);
    assert("easeinoutcirc"@[9] != "easeinoutquad"@[9]);
    assert("easeinoutcirc"@[9] != "easeinoutsine"@[9]);
    assert("easeinoutcirc"@[9] != "easeinoutexpo"@[9]);
}

proof fn lemma_reads_ease_in_back()
    ensures
        easing_from_trimmed(kind_name(EasingKind::EaseInBack)) == Ok::<EasingSpecModel, EasingParseError>(
            EasingSpecModel::Named(EasingKind::EaseInBack),
        ),
        kind_name(EasingKind::EaseInBack).len() > 0,
        !white_space(kind_name(EasingKind::EaseInBack)[0]),
        !white_space(kind_name(EasingKind::EaseInBack).last()),
{
    reveal_strlit("easeInBack");
    reveal_strlit("linear");
    reveal_strlit("easeinquad");
    reveal_strlit("easeoutquad");
    reveal_strlit("easeinoutquad");
    reveal_strlit("easeincubic");
    reveal_strlit("easeoutcubic");
    reveal_strlit("easeinoutcubic");
    reveal_strlit("easeinquart");
    reveal_strlit("easeoutquart");
    reveal_strlit("easeinoutquart");
    reveal_strlit("easeinquint");
    reveal_strlit("easeoutquint");
    reveal_strlit("easeinoutquint");
    reveal_strlit("easeinsine");
    reveal_strlit("easeoutsine");
    reveal_strlit("easeinoutsine");
    reveal_strlit("easeinexpo");
    reveal_strlit("easeoutexpo");
    reveal_strlit("easeinoutexpo");
    reveal_strlit("easeincirc");
    reveal_strlit("easeoutcirc");
    reveal_strlit("easeinoutcirc");
    reveal_strlit("easeinback");
    reveal_strlit("easeoutback");
    reveal_strlit("easeinoutback");
    reveal_strlit("easeinelastic");
    reveal_strlit("easeoutelastic");
    reveal_strlit("easeinoutelastic");
    reveal_strlit("easeinbounce");
    reveal_strlit("easeoutbounce");
    reveal_strlit("easeinoutbounce");
    reveal_with_fuel(normalize_name, 17);
    reveal_with_fuel(first_index_of, 17);
    assert(normalize_name("easeInBack"@) =~= "easeinback"@);
    assert(first_index_of("easeInBack"@, '(') is None);
    assert("easeinback"@[6] != "easeinquad"@[6]);
    assert("easeinback"@[6] != "easeinsine"@[6]);
    assert("easeinback"@[6] != "easeinexpo"@[6]);
    assert("easeinback"@[6] != "easeincirc"@[6]);
}

proof fn lemma_reads_ease_out_back()
    ensures
        easing_from_trimmed(kind_name(EasingKind::EaseOutBack)) == Ok::<EasingSpecModel, EasingParseError>(
            EasingSpecModel::Named(EasingKind::EaseOutBack),
        ),
        kind_name(EasingKind::EaseOutBack).len() > 0,
        !white_space(kind_name(EasingKind::EaseOutBack)[0]),
        !white_space(kind_name(EasingKind::EaseOutBack).last()),
{
    reveal_strlit("easeOutBack");
    reveal_strlit("linear");
    reveal_strlit("easeinquad");
    reveal_strlit("easeoutquad");
    reveal_strlit("easeinoutquad");
    reveal_strlit("easeincubic");
    reveal_strlit("easeoutcubic");
    reveal_strlit("easeinoutcubic");
    reveal_strlit("easeinquart");
    reveal_strlit("easeoutquart");
    reveal_strlit("easeinoutquart");
    reveal_strlit("easeinquint");
    reveal_strlit("easeoutquint");
    reveal_strlit("easeinoutquint");
    reveal_strlit("easeinsine");
    reveal_strlit("easeoutsine");
    reveal_strlit("easeinoutsine");
    reveal_strlit("easeinexpo");
    reveal_strlit("easeoutexpo");
    reveal_strlit("easeinoutexpo");
    reveal_strlit("easeincirc");
    reveal_strlit("easeoutcirc");
    reveal_strlit("easeinoutcirc");
    reveal_strlit("easeinback");
    reveal_strlit("easeoutback");
    reveal_strlit("easeinoutback");
    reveal_strlit("easeinelastic");
    reveal_strlit("easeoutelastic");
    reveal_strlit("easeinoutelastic");
    reveal_strlit("easeinbounce");
    reveal_strlit("easeoutbounce");
    reveal_strlit("easeinoutbounce");
    reveal_with_fuel(normalize_name, 17);
    reveal_with_fuel(first_index_of, 17);
    assert(normalize_name("easeOutBack"@) =~= "easeoutback"@);
    assert(first_index_of("easeOutBack"@, '(') is None);
    assert("easeoutback"@[7] != "easeoutquad"@[7]);
    assert("easeoutback"@[4] != "easeincubic"@[4]);
    assert("easeoutback"@[4] != "easeinquart"@[4]);
    assert("easeoutback"@[4] != "easeinquint"@[4]);
    assert("easeoutback"@[7] != "easeoutsine"@[7]);
    assert("easeoutback"@[7] != "easeoutexpo"@[7]);
    assert("easeoutback"@[7] != "easeoutcirc"@[7]);
}

proof fn lemma_reads_ease_in_out_back()
    ensures
        easing_from_trimmed(kind_name(EasingKind::EaseInOutBack)) == Ok::<EasingSpecModel, EasingParseError>(
            EasingSpecModel::Named(EasingKind::EaseInOutBack),
        ),
        kind_name(EasingKind::EaseInOutBack).len() > 0,
        !white_space(kind_name(EasingKind::EaseInOutBack)[0]),
        !white_space(kind_name(EasingKind::EaseInOutBack).last()),
{
    reveal_strlit("easeInOutBack");
    reveal_strlit("linear");
    reveal_strlit("easeinquad");
    reveal_strlit("easeoutquad");
    reveal_strlit("easeinoutquad");
    reveal_strlit("easeincubic");
    reveal_strlit("easeoutcubic");
    reveal_strlit("easeinoutcubic");
    reveal_strlit("easeinquart");
    reveal_strlit("easeoutquart");
    reveal_strlit("easeinoutquart");
    reveal_strlit("easeinquint");
    reveal_strlit("easeoutquint");
    reveal_strlit("easeinoutquint");
    reveal_strlit("easeinsine");
    reveal_strlit("easeoutsine");
    reveal_strlit("easeinoutsine");
    reveal_strlit("easeinexpo");
    reveal_strlit("easeoutexpo");
    reveal_strlit("easeinoutexpo");
    reveal_strlit("easeincirc");
    reveal_strlit("easeoutcirc");
    reveal_strlit("easeinoutcirc");
    reveal_strlit("easeinback");
    reveal_strlit("easeoutback");
    reveal_strlit("easeinoutback");
    reveal_strlit("easeinelastic");
    reveal_strlit("easeoutelastic");
    reveal_strlit("easeinoutelastic");
    reveal_strlit("easeinbounce");
    reveal_strlit("easeoutbounce");
    reveal_strlit("easeinoutbounce");
    reveal_with_fuel(normalize_name, 17);
    reveal_with_fuel(first_index_of, 17);
    assert(normalize_name("easeInOutBack"@) =~= "easeinoutback"@);
    assert(first_index_of("easeInOutBack"@, '(') is None);
    assert("easeinoutback"@[9] != "easeinoutquad"@[9]);
    assert("easeinoutback"@[9] != "easeinoutsine"@[9]);
    assert("easeinoutback"@[9] != "easeinoutexpo"@[9]);
    assert("easeinoutback"@[9] != "easeinoutcirc"@[9]);
}

proof fn lemma_reads_ease_in_elastic()
    ensures
        easing_from_trimmed(kind_name(EasingKind::EaseInElastic)) == Ok::<EasingSpecModel, EasingParseError>(
            EasingSpecModel::Named(EasingKind::EaseInElastic),
        ),
        kind_name(EasingKind::EaseInElastic).len() > 0,
        !white_space(kind_name(EasingKind::EaseInElastic)[0]),
        !white_space(kind_name(EasingKind::EaseInElastic).last()),
{
    reveal_strlit("easeInElastic");
    reveal_strlit("linear");
    reveal_strlit("easeinquad");
    reveal_strlit("easeoutquad");
    reveal_strlit("easeinoutquad");
    reveal_strlit("easeincubic");
    reveal_strlit("easeoutcubic");
    reveal_strlit("easeinoutcubic");
    reveal_strlit("easeinquart");
    reveal_strlit("easeoutquart");
    reveal_strlit("easeinoutquart");
    reveal_strlit("easeinquint");
    reveal_strlit("easeoutquint");
    reveal_strlit("easeinoutquint");
    reveal_strlit("easeinsine");
    reveal_strlit("easeoutsine");
    reveal_strlit("easeinoutsine");
    reveal_strlit("easeinexpo");
    reveal_strlit("easeoutexpo");
    reveal_strlit("easeinoutexpo");
    reveal_strlit("easeincirc");
    reveal_strlit("easeoutcirc");
    reveal_strlit("easeinoutcirc");
    reveal_strlit("easeinback");
    reveal_strlit("easeoutback");
    reveal_strlit("easeinoutback");
    reveal_strlit("easeinelastic");
    reveal_strlit("easeoutelastic");
    reveal_strlit("easeinoutelastic");
    reveal_strlit("easeinbounce");
    reveal_strlit("easeoutbounce");
    reveal_strlit("easeinoutbounce");
    reveal_with_fuel(normalize_name, 17);
    reveal_with_fuel(first_index_of, 17);
    assert(normalize_name("easeInElastic"@) =~= "easeinelastic"@);
    assert(first_index_of("easeInElastic"@, '(') is None);
    assert("easeinelastic"@[6] != "easeinoutquad"@[6]);
    assert("easeinelastic"@[6] != "easeinoutsine"@[6]);
    assert("easeinelastic"@[6] != "easeinoutexpo"@[6]);
    assert("easeinelastic"@[6] != "easeinoutcirc"@[6]);
    assert("easeinelastic"@[6] != "easeinoutback"@[6]);
}

proof fn lemma_reads_ease_out_elastic()
    ensures
        easing_from_trimmed(kind_name(EasingKind::EaseOutElastic)) == Ok::<EasingSpecModel, EasingParseError>(
            EasingSpecModel::Named(EasingKind::EaseOutElastic),
        ),
        kind_name(EasingKind::EaseOutElastic).len() > 0,
        !white_space(kind_name(EasingKind::EaseOutElastic)[0]),
        !white_space(kind_name(EasingKind::EaseOutElastic).last()),
{
    reveal_strlit("easeOutElastic");
    reveal_strlit("linear");
    reveal_strlit("easeinquad");
    reveal_strlit("easeoutquad");
    reveal_strlit("easeinoutquad");
    reveal_strlit("easeincubic");
    reveal_strlit("easeoutcubic");
    reveal_strlit("easeinoutcubic");
    reveal_strlit("easeinquart");
    reveal_strlit("easeoutquart");
    reveal_strlit("easeinoutquart");
    reveal_strlit("easeinquint");
    reveal_strlit("easeoutquint");
    reveal_strlit("easeinoutquint");
    reveal_strlit("easeinsine");
    reveal_strlit("easeoutsine");
    reveal_strlit("easeinoutsine");
    reveal_strlit("easeinexpo");
    reveal_strlit("easeoutexpo");
    reveal_strlit("easeinoutexpo");
    reveal_strlit("easeincirc");
    reveal_strlit("easeoutcirc");
    reveal_strlit("easeinoutcirc");
    reveal_strlit("easeinback");
    reveal_strlit("easeoutback");
    reveal_strlit("easeinoutback");
    reveal_strlit("easeinelastic");
    reveal_strlit("easeoutelastic");
    reveal_strlit("easeinoutelastic");
    reveal_strlit("easeinbounce");
    reveal_strlit("easeoutbounce");
    reveal_strlit("easeinoutbounce");
    reveal_with_fuel(normalize_name, 17);
    reveal_with_fuel(first_index_of, 17);
    assert(normalize_name("easeOutElastic"@) =~= "easeoutelastic"@);
    assert(first_index_of("easeOutElastic"@, '(') is None);
    assert("easeoutelastic"@[4] != "easeinoutcubic"@[4]);
    assert("easeoutelastic"@[4] != "easeinoutquart"@[4]);
    assert("easeoutelastic"@[4] != "easeinoutquint"@[4]);
}

proof fn lemma_reads_ease_in_out_elastic()
    ensures
        easing_from_trimmed(kind_name(EasingKind::EaseInOutElastic)) == Ok::<EasingSpecModel, EasingParseError>(
            EasingSpecModel::Named(EasingKind::EaseInOutElastic),
        ),
        kind_name(EasingKind::EaseInOutElastic).len() > 0,
        !white_space(kind_name(EasingKind::EaseInOutElastic)[0]),
        !white_space(kind_name(EasingKind::EaseInOutElastic).last()),
{
    reveal_strlit("easeInOutElastic");
    reveal_strlit("linear");
    reveal_strlit("easeinquad");
    reveal_strlit("easeoutquad");
    reveal_strlit("easeinoutquad");
    reveal_strlit("easeincubic");
    reveal_strlit("easeoutcubic");
    reveal_strlit("easeinoutcubic");
    reveal_strlit("easeinquart");
    reveal_strlit("easeoutquart");
    reveal_strlit("easeinoutquart");
    reveal_strlit("easeinquint");
    reveal_strlit("easeoutquint");
    reveal_strlit("easeinoutquint");
    reveal_strlit("easeinsine");
    reveal_strlit("easeoutsine");
    reveal_strlit("easeinoutsine");
    reveal_strlit("easeinexpo");
    reveal_strlit("easeoutexpo");
    reveal_strlit("easeinoutexpo");
    reveal_strlit("easeincirc");
    reveal_strlit("easeoutcirc");
    reveal_strlit("easeinoutcirc");
    reveal_strlit("easeinback");
    reveal_strlit("easeoutback");
    reveal_strlit("easeinoutback");
    reveal_strlit("easeinelastic");
    reveal_strlit("easeoutelastic");
    reveal_strlit("easeinoutelastic");
    reveal_strlit("easeinbounce");
    reveal_strlit("easeoutbounce");
    reveal_strlit("easeinoutbounce");
    reveal_with_fuel(normalize_name, 17);
    reveal_with_fuel(first_index_of, 17);
    assert(normalize_name("easeInOutElastic"@) =~= "easeinoutelastic"@);
    assert(first_index_of("easeInOutElastic"@, '(') is None);
}

proof fn lemma_reads_ease_in_bounce()
    ensures
        easing_from_trimmed(kind_name(EasingKind::EaseInBounce)) == Ok::<EasingSpecModel, EasingParseError>(
            EasingSpecModel::Named(EasingKind::EaseInBounce),
        ),
        kind_name(EasingKind::EaseInBounce).len() > 0,
        !white_space(kind_name(EasingKind::EaseInBounce)[0]),
        !white_space(kind_name(EasingKind::EaseInBounce).last()),
{
    reveal_strlit("easeInBounce");
    reveal_strlit("linear");
    reveal_strlit("easeinquad");
    reveal_strlit("easeoutquad");
    reveal_strlit("easeinoutquad");
    reveal_strlit("easeincubic");
    reveal_strlit("easeoutcubic");
    reveal_strlit("easeinoutcubic");
    reveal_strlit("easeinquart");
    reveal_strlit("easeoutquart");
    reveal_strlit("easeinoutquart");
    reveal_strlit("easeinquint");
    reveal_strlit("easeoutquint");
    reveal_strlit("easeinoutquint");
    reveal_strlit("easeinsine");
    reveal_strlit("easeoutsine");
    reveal_strlit("easeinoutsine");
    reveal_strlit("easeinexpo");
    reveal_strlit("easeoutexpo");
    reveal_strlit("easeinoutexpo");
    reveal_strlit("easeincirc");
    reveal_strlit("easeoutcirc");
    reveal_strlit("easeinoutcirc");
    reveal_strlit("easeinback");
    reveal_strlit("easeoutback");
    reveal_strlit("easeinoutback");
    reveal_strlit("easeinelastic");
    reveal_strlit("easeoutelastic");
    reveal_strlit("easeinoutelastic");
    reveal_strlit("easeinbounce");
    reveal_strlit("easeoutbounce");
    reveal_strlit("easeinoutbounce");
    reveal_with_fuel(normalize_name, 17);
    reveal_with_fuel(first_index_of, 17);
    assert(normalize_name("easeInBounce"@) =~= "easeinbounce"@);
    assert(first_index_of("easeInBounce"@, '(') is None);
    assert("easeinbounce"@[4] != "easeoutcubic"@[4]);
    assert("easeinbounce"@[4] != "easeoutquart"@[4]);
    assert("easeinbounce"@[4] != "easeoutquint"@[4]);
}

proof fn lemma_reads_ease_out_bounce()
    ensures
        easing_from_trimmed(kind_name(EasingKind::EaseOutBounce)) == Ok::<EasingSpecModel, EasingParseError>(
            EasingSpecModel::Named(EasingKind::EaseOutBounce),
        ),
        kind_name(EasingKind::EaseOutBounce).len() > 0,
        !white_space(kind_name(EasingKind::EaseOutBounce)[0]),
        !white_space(kind_name(EasingKind::EaseOutBounce).last()),
{
    reveal_strlit("easeOutBounce");
    reveal_strlit("linear");
    reveal_strlit("easeinquad");
    reveal_strlit("easeoutquad");
    reveal_strlit("easeinoutquad");
    reveal_strlit("easeincubic");
    reveal_strlit("easeoutcubic");
    reveal_strlit("easeinoutcubic");
    reveal_strlit("easeinquart");
    reveal_strlit("easeoutquart");
    reveal_strlit("easeinoutquart");
    reveal_strlit("easeinquint");
    reveal_strlit("easeoutquint");
    reveal_strlit("easeinoutquint");
    reveal_strlit("easeinsine");
    reveal_strlit("easeoutsine");
    reveal_strlit("easeinoutsine");
    reveal_strlit("easeinexpo");
    reveal_strlit("easeoutexpo");
    reveal_strlit("easeinoutexpo");
    reveal_strlit("easeincirc");
    reveal_strlit("easeoutcirc");
    reveal_strlit("easeinoutcirc");
    reveal_strlit("easeinback");
    reveal_strlit("easeoutback");
    reveal_strlit("easeinoutback");
    reveal_strlit("easeinelastic");
    reveal_strlit("easeoutelastic");
    reveal_strlit("easeinoutelastic");
    reveal_strlit("easeinbounce");
    reveal_strlit("easeoutbounce");
    reveal_strlit("easeinoutbounce");
    reveal_with_fuel(normalize_name, 17);
    reveal_with_fuel(first_index_of, 17);
    assert(normalize_name("easeOutBounce"@) =~= "easeoutbounce"@);
    assert(first_index_of("easeOutBounce"@, '(') is None);
    assert("easeoutbounce"@[4] != "easeinoutquad"@[4]);
    assert("easeoutbounce"@[4] != "easeinoutsine"@[4]);
    assert("easeoutbounce"@[4] != "easeinoutexpo"@[4]);
    assert("easeoutbounce"@[4] != "easeinoutcirc"@[4]);
    assert("easeoutbounce"@[4] != "easeinoutback"@[4]);
    assert("easeoutbounce"@[4] != "easeinelastic"@[4]);
}

proof fn lemma_reads_ease_in_out_bounce()
    ensures
        easing_from_trimmed(kind_name(EasingKind::EaseInOutBounce)) == Ok::<EasingSpecModel, EasingParseError>(
            EasingSpecModel::Named(EasingKind::EaseInOutBounce),
        ),
        kind_name(EasingKind::EaseInOutBounce).len() > 0,
        !white_space(kind_name(EasingKind::EaseInOutBounce)[0]),
        !white_space(kind_name(EasingKind::EaseInOutBounce).last()),
{
    reveal_strlit("easeInOutBounce");
    reveal_strlit("linear");
    reveal_strlit("easeinquad");
    reveal_strlit("easeoutquad");
    reveal_strlit("easeinoutquad");
    reveal_strlit("easeincubic");
    reveal_strlit("easeoutcubic");
    reveal_strlit("easeinoutcubic");
    reveal_strlit("easeinquart");
    reveal_strlit("easeoutquart");
    reveal_strlit("easeinoutquart");
    reveal_strlit("easeinquint");
    reveal_strlit("easeoutquint");
    reveal_strlit("easeinoutquint");
    reveal_strlit("easeinsine");
    reveal_strlit("easeoutsine");
    reveal_strlit("easeinoutsine");
    reveal_strlit("easeinexpo");
    reveal_strlit("easeoutexpo");
    reveal_strlit("easeinoutexpo");
    reveal_strlit("easeincirc");
    reveal_strlit("easeoutcirc");
    reveal_strlit("easeinoutcirc");
    reveal_strlit("easeinback");
    reveal_strlit("easeoutback");
    reveal_strlit("easeinoutback");
    reveal_strlit("easeinelastic");
    reveal_strlit("easeoutelastic");
    reveal_strlit("easeinoutelastic");
    reveal_strlit("easeinbounce");
    reveal_strlit("easeoutbounce");
    reveal_strlit("easeinoutbounce");
    reveal_with_fuel(normalize_name, 17);
    reveal_with_fuel(first_index_of, 17);
    assert(normalize_name("easeInOutBounce"@) =~= "easeinoutbounce"@);
    assert(first_index_of("easeInOutBounce"@, '(') is None);
}

/// Every classic curve's canonical name reads as that curve; its first and
/// last characters are not whitespace.
pub proof fn law_canonical_names_read_back(kind: EasingKind)
    requires
        is_classic(kind),
    ensures
        easing_from_trimmed(kind_name(kind)) == Ok::<EasingSpecModel, EasingParseError>(
            EasingSpecModel::Named(kind),
        ),
        kind_name(kind).len() > 0,
        !white_space(kind_name(kind)[0]),
        !white_space(kind_name(kind).last()),
{
    match kind {
        EasingKind::Linear => lemma_reads_linear(),
        EasingKind::EaseInQuad => lemma_reads_ease_in_quad(),
        EasingKind::EaseOutQuad => lemma_reads_ease_out_quad(),
        EasingKind::EaseInOutQuad => lemma_reads_ease_in_out_quad(),
        EasingKind::EaseInCubic => lemma_reads_ease_in_cubic(),
        EasingKind::EaseOutCubic => lemma_reads_ease_out_cubic(),
        EasingKind::EaseInOutCubic => lemma_reads_ease_in_out_cubic(),
        EasingKind::EaseInQuart => lemma_reads_ease_in_quart(),
        EasingKind::EaseOutQuart => lemma_reads_ease_out_quart(),
        EasingKind::EaseInOutQuart => lemma_reads_ease_in_out_quart(),
        EasingKind::EaseInQuint => lemma_reads_ease_in_quint(),
        EasingKind::EaseOutQuint => lemma_reads_ease_out_quint(),
        EasingKind::EaseInOutQuint => lemma_reads_ease_in_out_quint(),
        EasingKind::EaseInSine => lemma_reads_ease_in_sine(),
        EasingKind::EaseOutSine => lemma_reads_ease_out_sine(),
        EasingKind::EaseInOutSine => lemma_reads_ease_in_out_sine(),
        EasingKind::EaseInExpo => lemma_reads_ease_in_expo(),
        EasingKind::EaseOutExpo => lemma_reads_ease_out_expo(),
        EasingKind::EaseInOutExpo => lemma_reads_ease_in_out_expo(),
        EasingKind::EaseInCirc => lemma_reads_ease_in_circ(),
        EasingKind::EaseOutCirc => lemma_reads_ease_out_circ(),
        EasingKind::EaseInOutCirc => lemma_reads_ease_in_out_circ(),
        EasingKind::EaseInBack => lemma_reads_ease_in_back(),
        EasingKind::EaseOutBack => lemma_reads_ease_out_back(),
        EasingKind::EaseInOutBack => lemma_reads_ease_in_out_back(),
        EasingKind::EaseInElastic => lemma_reads_ease_in_elastic(),
        EasingKind::EaseOutElastic => lemma_reads_ease_out_elastic(),
        EasingKind::EaseInOutElastic => lemma_reads_ease_in_out_elastic(),
        EasingKind::EaseInBounce => lemma_reads_ease_in_bounce(),
        EasingKind::EaseOutBounce => lemma_reads_ease_out_bounce(),
        EasingKind::EaseInOutBounce => lemma_reads_ease_in_out_bounce(),
        _ => {},
    }
}


proof fn lemma_trimmed_padded(before: Seq<char>, t: Seq<char>, after: Seq<char>)
    requires
        t.len() > 0,
        !white_space(t[0]),
        !white_space(t.last()),
        forall|i: int| 0 <= i < before.len() ==> white_space(#[trigger] before[i]),
        forall|i: int| 0 <= i < after.len() ==> white_space(#[trigger] after[i]),
    ensures
        trimmed(before + t + after) == t,
{
    let s = before + t + after;
    let a = before.len() as int;
    let b = a + t.len();
    assert forall|i: int| 0 <= i <= a implies #[trigger] white_prefix_end(s, i) == a by {
        lemma_prefix_end(s, i, a);
    }
    assert forall|j: int| b <= j <= s.len() implies #[trigger] white_suffix_start(s, j) == b by {
        lemma_suffix_start(s, j, b);
    }
    assert(white_prefix_end(s, 0) == a);
    assert(white_suffix_start(s, s.len() as int) == b);
    assert(s.subrange(a, b) =~= t);
}

proof fn lemma_prefix_end(s: Seq<char>, i: int, a: int)
    requires
        0 <= i <= a < s.len(),
        forall|k: int| i <= k < a ==> white_space(#[trigger] s[k]),
        !white_space(s[a]),
    ensures
        white_prefix_end(s, i) == a,
    decreases a - i,
{
    if i < a {
        lemma_prefix_end(s, i + 1, a);
    }
}

proof fn lemma_suffix_start(s: Seq<char>, j: int, b: int)
    requires
        0 < b <= j <= s.len(),
        forall|k: int| b <= k < j ==> white_space(#[trigger] s[k]),
        !white_space(s[b - 1]),
    ensures
        white_suffix_start(s, j) == b,
    decreases j - b,
{
    if j > b {
        lemma_suffix_start(s, j - 1, b);
    }
}

/// A classic curve's canonical name with whitespace around it reads as that
/// curve.
pub proof fn law_padded_canonical_names_read_back(kind: EasingKind, before: Seq<char>, after: Seq<char>)
    requires
        is_classic(kind),
        forall|i: int| 0 <= i < before.len() ==> white_space(#[trigger] before[i]),
        forall|i: int| 0 <= i < after.len() ==> white_space(#[trigger] after[i]),
    ensures
        easing_spec(before + kind_name(kind) + after) == Ok::<EasingSpecModel, EasingParseError>(
            EasingSpecModel::Named(kind),
        ),
{
    law_canonical_names_read_back(kind);
    lemma_trimmed_padded(before, kind_name(kind), after);
}

} // verus!
verus! {

/// The parameter list each parameterised curve is documented with (in the
/// list of easing names offered to pickers: `steps(n)`,
/// `cubicBezier(x1,y1,x2,y2)`, `roughEase(strength,points)`,
/// `slowMo(linearRatio,power)`, `wiggle(wiggles)`, `customBounce(strength)`,
/// `expoScale(start,end)`).
pub open spec fn documented_parameters(kind: EasingKind) -> Seq<char> {
    match kind {
        EasingKind::Steps => "n"@,
        EasingKind::CubicBezier => "x1,y1,x2,y2"@,
        EasingKind::RoughEase => "strength,points"@,
        EasingKind::SlowMo => "linearRatio,power"@,
        EasingKind::Wiggle => "wiggles"@,
        EasingKind::CustomBounce => "strength"@,
        EasingKind::ExpoScale => "start,end"@,
        _ => Seq::empty(),
    }
}

/// A parameterised curve takes as many arguments as its documented
/// parameter list names, so a call written with one argument per documented
/// parameter passes [`check_arity`].
pub proof fn law_arity_matches_documented_parameters(kind: EasingKind)
    requires
        !is_classic(kind),
        kind != EasingKind::Custom,
    ensures
        split_commas(documented_parameters(kind)).len() == expected_arguments(kind),
{
    reveal_with_fuel(split_commas, 18);
    match kind {
        EasingKind::Steps => {
            reveal_strlit("n");
        },
        EasingKind::CubicBezier => {
            reveal_strlit("x1,y1,x2,y2");
        },
        EasingKind::RoughEase => {
            reveal_strlit("strength,points");
        },
        EasingKind::SlowMo => {
            reveal_strlit("linearRatio,power");
        },
        EasingKind::Wiggle => {
            reveal_strlit("wiggles");
        },
        EasingKind::CustomBounce => {
            reveal_strlit("strength");
        },
        EasingKind::ExpoScale => {
            reveal_strlit("start,end");
        },
        _ => {},
    }
}

} // verus!
