//! The recorder's deterministic JSON format:
//! `{"tracks":[{"label":"…","frames":[[t,v],…]},…]}` with every number
//! written in fixed point with six decimals.
use vstd::prelude::*;
use crate::recorder::RecorderError;

verus! {

broadcast use vstd::string::group_string_axioms;

/// A number in fixed point with six decimals: its sign and its magnitude
/// times one million, rounded. This is what the JSON export writes for each
/// time and value.
#[derive(Clone, Copy, Debug, PartialEq, Eq)]
pub struct Fixed6 {
    /// Whether a minus sign is written.
    pub negative: bool,
    /// Magnitude in millionths.
    pub scaled: u64,
}

/// One track as the JSON export writes it: its label and, per frame, the
/// fixed-point time and value.
#[derive(Clone, Debug, PartialEq)]
pub struct JsonTrack {
    /// Track label.
    pub label: String,
    /// Frames as (time, value).
    pub frames: Vec<(Fixed6, Fixed6)>,
}

/// One track as read back from JSON: its label and, per frame, the text of
/// the time and of the value.
#[derive(Clone, Debug, PartialEq)]
pub struct JsonTrackText {
    /// Track label, unescaped.
    pub label: String,
    /// Frames as (time text, value text).
    pub frames: Vec<(String, String)>,
}

/// Content of an exported track.
pub type JsonTrackModel = (Seq<char>, Seq<(Fixed6, Fixed6)>);

/// Content of an imported track.
pub type JsonTextModel = (Seq<char>, Seq<(Seq<char>, Seq<char>)>);

impl View for JsonTrack {
    type V = JsonTrackModel;

    open spec fn view(&self) -> JsonTrackModel {
        (self.label@, self.frames@)
    }
}

impl View for JsonTrackText {
    type V = JsonTextModel;

    open spec fn view(&self) -> JsonTextModel {
        (self.label@, self.frames@.map_values(|f: (String, String)| (f.0@, f.1@)))
    }
}

/// `String::push`: appends one character.
#[verifier::external_body]
pub(crate) fn push_char(out: &mut String, c: char)
    ensures
        final(out)@ == old(out)@.push(c),
{
    out.push(c);
}

/// The decimal digit character for `d < 10`.
pub open spec fn digit_char(d: nat) -> char {
    (('0' as u32) + d) as char
}

/// Decimal digits of `n`, most significant first, without leading zeros.
pub open spec fn decimal(n: nat) -> Seq<char>
    decreases n,
{
    if n < 10 {
        seq![digit_char(n)]
    } else {
        decimal(n / 10).push(digit_char(n % 10))
    }
}

/// Six decimal digits of `n < 1_000_000`, zero-padded.
pub open spec fn six_digits(n: nat) -> Seq<char> {
    seq![
        digit_char((n / 100000) % 10),
        digit_char((n / 10000) % 10),
        digit_char((n / 1000) % 10),
        digit_char((n / 100) % 10),
        digit_char((n / 10) % 10),
        digit_char(n % 10),
    ]
}

/// Text of a fixed-point number: optional minus, integer part, point, six decimals.
pub open spec fn fixed_text(f: Fixed6) -> Seq<char> {
    (if f.negative { seq!['-'] } else { Seq::empty() }) + decimal((f.scaled / 1_000_000) as nat) + seq!['.']
        + six_digits((f.scaled % 1_000_000) as nat)
}

/// The escaped form of one label character.
pub open spec fn escape_char(c: char) -> Seq<char> {
    if c == '"' {
        seq!['\\', '"']
    } else if c == '\\' {
        seq!['\\', '\\']
    } else if c == '\n' {
        seq!['\\', 'n']
    } else if c == '\r' {
        seq!['\\', 'r']
    } else if c == '\t' {
        seq!['\\', 't']
    } else {
        seq![c]
    }
}

/// The escaped form of a label.
pub open spec fn escaped(s: Seq<char>) -> Seq<char>
    decreases s.len(),
{
    if s.len() == 0 {
        Seq::empty()
    } else {
        escape_char(s[0]) + escaped(s.drop_first())
    }
}

/// `[time,value]`.
pub open spec fn frame_text(f: (Fixed6, Fixed6)) -> Seq<char> {
    seq!['['] + fixed_text(f.0) + seq![','] + fixed_text(f.1) + seq![']']
}

/// Parts separated by commas.
pub open spec fn comma_join(parts: Seq<Seq<char>>) -> Seq<char>
    decreases parts.len(),
{
    if parts.len() == 0 {
        Seq::empty()
    } else if parts.len() == 1 {
        parts[0]
    } else {
        parts[0] + seq![','] + comma_join(parts.drop_first())
    }
}

/// Frames separated by commas.
pub open spec fn frames_text(fs: Seq<(Fixed6, Fixed6)>) -> Seq<char> {
    comma_join(fs.map_values(|f: (Fixed6, Fixed6)| frame_text(f)))
}

/// `{"label":"`
pub open spec fn label_open() -> Seq<char> {
    seq!['{', '"', 'l', 'a', 'b', 'e', 'l', '"', ':', '"']
}

/// `","frames":[`
pub open spec fn frames_open() -> Seq<char> {
    seq!['"', ',', '"', 'f', 'r', 'a', 'm', 'e', 's', '"', ':', '[']
}

/// `]}`
pub open spec fn close_brackets() -> Seq<char> {
    seq![']', '}']
}

/// `{"tracks":[`
pub open spec fn document_open() -> Seq<char> {
    seq!['{', '"', 't', 'r', 'a', 'c', 'k', 's', '"', ':', '[']
}

/// One track's text.
pub open spec fn track_text(t: JsonTrackModel) -> Seq<char> {
    label_open() + escaped(t.0) + frames_open() + frames_text(t.1) + close_brackets()
}

/// Tracks separated by commas.
pub open spec fn tracks_text(ts: Seq<JsonTrackModel>) -> Seq<char> {
    comma_join(ts.map_values(|t: JsonTrackModel| track_text(t)))
}

/// The complete JSON export.
pub open spec fn json_text(ts: Seq<JsonTrackModel>) -> Seq<char> {
    document_open() + tracks_text(ts) + close_brackets()
}

proof fn lemma_comma_join_push(parts: Seq<Seq<char>>, p: Seq<char>)
    ensures
        comma_join(parts.push(p)) == if parts.len() == 0 {
            p
        } else {
            comma_join(parts) + seq![','] + p
        },
    decreases parts.len(),
{
    if parts.len() >= 1 {
        let rest = parts.drop_first();
        assert(parts.push(p).drop_first() =~= rest.push(p));
        lemma_comma_join_push(rest, p);
        if parts.len() == 1 {
            assert(rest =~= Seq::<Seq<char>>::empty());
        } else {
            assert(comma_join(parts.push(p)) =~= comma_join(parts) + seq![','] + p);
        }
    }
}

proof fn lemma_escaped_append(a: Seq<char>, b: Seq<char>)
    ensures
        escaped(a + b) == escaped(a) + escaped(b),
    decreases a.len(),
{
    if a.len() == 0 {
        assert(a + b =~= b);
    } else {
        assert((a + b).drop_first() =~= a.drop_first() + b);
        lemma_escaped_append(a.drop_first(), b);
        assert(escaped(a + b) =~= escaped(a) + escaped(b));
    }
}

proof fn lemma_escaped_single(c: char)
    ensures
        escaped(seq![c]) == escape_char(c),
{
    assert(seq![c].drop_first() =~= Seq::<char>::empty());
    assert(escaped(Seq::<char>::empty()) =~= Seq::<char>::empty());
    assert(seq![c][0] == c);
    assert(escaped(seq![c]) =~= escape_char(c) + escaped(Seq::<char>::empty()));
}

/// Append a label with each `"` written as `\\"`, each backslash as two,
/// newline as `\\n`, carriage return as `\\r` and tab as `\\t`; every other
/// character is copied, in order.
pub fn push_escaped(out: &mut String, value: &str)
    ensures
        final(out)@ == old(out)@ + escaped(value@),
{
    let ghost head = out@;
    let ghost mut done: Seq<char> = Seq::empty();
    for ch in it: value.chars()
        invariant
            it.seq() == value@,
            done == value@.take(it.index()),
            out@ == head + escaped(done),
    {
        proof {
            lemma_escaped_append(done, seq![ch]);
            lemma_escaped_single(ch);
        }
        if ch == '"' {
            push_char(out, '\\');
            push_char(out, '"');
        } else if ch == '\\' {
            push_char(out, '\\');
            push_char(out, '\\');
        } else if ch == '\n' {
            push_char(out, '\\');
            push_char(out, 'n');
        } else if ch == '\r' {
            push_char(out, '\\');
            push_char(out, 'r');
        } else if ch == '\t' {
            push_char(out, '\\');
            push_char(out, 't');
        } else {
            push_char(out, ch);
        }
        proof {
            assert(value@.take(it.index() + 1) =~= done + seq![ch]);
            done = done + seq![ch];
        }
    }
    assert(done =~= value@);
}

/// Append the characters of `text`.
pub(crate) fn push_text(out: &mut String, text: &str)
    ensures
        final(out)@ == old(out)@ + text@,
{
    let ghost head = out@;
    for ch in it: text.chars()
        invariant
            it.seq() == text@,
            out@ == head + text@.take(it.index()),
    {
        push_char(out, ch);
        assert(text@.take(it.index() + 1) =~= text@.take(it.index() as int).push(ch));
    }
    assert(text@.take(text@.len() as int) =~= text@);
}

/// Append the decimal digits of `value`.
pub(crate) fn push_u64(out: &mut String, value: u64)
    ensures
        final(out)@ == old(out)@ + decimal(value as nat),
    decreases value,
{
    if value >= 10 {
        push_u64(out, value / 10);
    }
    push_char(out, char_of_digit((value % 10) as u8));
}

fn char_of_digit(d: u8) -> (c: char)
    requires
        d < 10,
    ensures
        c == digit_char(d as nat),
{
    if d == 0 { '0' } else if d == 1 { '1' } else if d == 2 { '2' } else if d == 3 { '3' }
    else if d == 4 { '4' } else if d == 5 { '5' } else if d == 6 { '6' } else if d == 7 { '7' }
    else if d == 8 { '8' } else { '9' }
}

/// Append a fixed-point number.
fn push_fixed(out: &mut String, f: Fixed6)
    ensures
        final(out)@ == old(out)@ + fixed_text(f),
{
    let ghost start = out@;
    if f.negative {
        push_char(out, '-');
    }
    push_u64(out, f.scaled / 1_000_000);
    push_char(out, '.');
    let frac = f.scaled % 1_000_000;
    let mut place: u64 = 100_000;
    let ghost head = out@;
    let ghost mut k: int = 0;
    while place > 0
        invariant
            0 <= k <= 6,
            place == if k == 0 { 100000u64 } else if k == 1 { 10000 } else if k == 2 { 1000 }
                else if k == 3 { 100 } else if k == 4 { 10 } else if k == 5 { 1 } else { 0 },
            frac < 1_000_000,
            out@ == head + six_digits(frac as nat).take(k),
        decreases 6 - k,
    {
        push_char(out, char_of_digit(((frac / place) % 10) as u8));
        proof {
            assert(six_digits(frac as nat).take(k + 1) =~= six_digits(frac as nat).take(k).push(
                six_digits(frac as nat)[k],
            ));
            k = k + 1;
        }
        place = place / 10;
    }
    assert(six_digits(frac as nat).take(6) =~= six_digits(frac as nat));
    assert(out@ =~= start + fixed_text(f));
}

/// Append every character of `chars`.
fn push_all(out: &mut String, chars: &[char])
    ensures
        final(out)@ == old(out)@ + chars@,
{
    let ghost head = out@;
    let mut i: usize = 0;
    while i < chars.len()
        invariant
            i <= chars@.len(),
            out@ == head + chars@.take(i as int),
        decreases chars@.len() - i,
    {
        push_char(out, chars[i]);
        assert(chars@.take(i + 1) =~= chars@.take(i as int).push(chars@[i as int]));
        i += 1;
    }
    assert(chars@.take(i as int) =~= chars@);
}

fn push_track(out: &mut String, track: &JsonTrack)
    ensures
        final(out)@ == old(out)@ + track_text(track@),
{
    let ghost start = out@;
    let open: [char; 10] = ['{', '"', 'l', 'a', 'b', 'e', 'l', '"', ':', '"'];
    assert(open@ =~= label_open());
    push_all(out, open.as_slice());
    push_escaped(out, track.label.as_str());
    let frames: [char; 12] = ['"', ',', '"', 'f', 'r', 'a', 'm', 'e', 's', '"', ':', '['];
    assert(frames@ =~= frames_open());
    push_all(out, frames.as_slice());
    let ghost head = out@;
    let ghost parts = track.frames@.map_values(|f: (Fixed6, Fixed6)| frame_text(f));
    let mut i: usize = 0;
    while i < track.frames.len()
        invariant
            i <= track.frames@.len(),
            parts == track.frames@.map_values(|f: (Fixed6, Fixed6)| frame_text(f)),
            out@ == head + comma_join(parts.take(i as int)),
        decreases track.frames@.len() - i,
    {
        proof {
            lemma_comma_join_push(parts.take(i as int), parts[i as int]);
            assert(parts.take(i + 1) =~= parts.take(i as int).push(parts[i as int]));
        }
        if i > 0 {
            push_char(out, ',');
        }
        let (t, v) = track.frames[i];
        push_char(out, '[');
        push_fixed(out, t);
        push_char(out, ',');
        push_fixed(out, v);
        push_char(out, ']');
        proof {
            assert(parts[i as int] == frame_text((t, v)));
            if i > 0 {
                assert(out@ =~= head + (comma_join(parts.take(i as int)) + seq![','] + parts[i as int]));
            } else {
                assert(out@ =~= head + parts[i as int]);
            }
        }
        i += 1;
    }
    assert(parts.take(i as int) =~= parts);
    let close: [char; 2] = [']', '}'];
    assert(close@ =~= close_brackets());
    push_all(out, close.as_slice());
    assert(out@ =~= start + track_text(track@));
}

/// The JSON text of `tracks`.
pub fn write_json(tracks: &Vec<JsonTrack>) -> (out: String)
    ensures
        out@ == json_text(tracks@.map_values(|t: JsonTrack| t@)),
{
    let mut out = String::new();
    let open: [char; 11] = ['{', '"', 't', 'r', 'a', 'c', 'k', 's', '"', ':', '['];
    assert(open@ =~= document_open());
    push_all(&mut out, open.as_slice());
    let ghost head = out@;
    let ghost models = tracks@.map_values(|t: JsonTrack| t@);
    let ghost parts = models.map_values(|t: JsonTrackModel| track_text(t));
    let mut i: usize = 0;
    while i < tracks.len()
        invariant
            i <= tracks@.len(),
            models == tracks@.map_values(|t: JsonTrack| t@),
            parts == models.map_values(|t: JsonTrackModel| track_text(t)),
            out@ == head + comma_join(parts.take(i as int)),
        decreases tracks@.len() - i,
    {
        proof {
            lemma_comma_join_push(parts.take(i as int), parts[i as int]);
            assert(parts.take(i + 1) =~= parts.take(i as int).push(parts[i as int]));
        }
        if i > 0 {
            push_char(&mut out, ',');
        }
        push_track(&mut out, &tracks[i]);
        proof {
            if i > 0 {
                assert(out@ =~= head + (comma_join(parts.take(i as int)) + seq![','] + parts[i as int]));
            } else {
                assert(out@ =~= head + parts[i as int]);
            }
        }
        i += 1;
    }
    assert(parts.take(i as int) =~= parts);
    let close: [char; 2] = [']', '}'];
    assert(close@ =~= close_brackets());
    push_all(&mut out, close.as_slice());
    assert(out@ =~= json_text(models));
    out
}

// ---------------------------------------------------------------------------
// Reading JSON back: a cursor over the text's characters.
// ---------------------------------------------------------------------------

/// ASCII whitespace: space, tab, line feed, form feed, carriage return.
pub open spec fn is_json_ws(c: char) -> bool {
    c == ' ' || c == '\t' || c == '\n' || c == '\x0C' || c == '\r'
}

/// Characters a number may contain: digits, signs, point, exponent marks.
pub open spec fn is_number_char(c: char) -> bool {
    ('0' <= c && c <= '9') || c == '-' || c == '+' || c == '.' || c == 'e' || c == 'E'
}

/// The first position at or after `pos` that is not whitespace.
pub open spec fn skip_ws(s: Seq<char>, pos: int) -> int
    decreases s.len() - pos,
{
    if 0 <= pos < s.len() && is_json_ws(s[pos]) {
        skip_ws(s, pos + 1)
    } else {
        pos
    }
}

/// After skipping whitespace, whether `c` is next, and the position after it
/// (or after the whitespace when it is not).
pub open spec fn consume(s: Seq<char>, pos: int, c: char) -> (bool, int) {
    let p = skip_ws(s, pos);
    if 0 <= p < s.len() && s[p] == c {
        (true, p + 1)
    } else {
        (false, p)
    }
}

/// The first position at or after `pos` where `needle` occurs.
pub open spec fn find_from(s: Seq<char>, pos: int, needle: Seq<char>) -> Option<int>
    decreases s.len() + 1 - pos,
{
    if pos < 0 || pos + needle.len() > s.len() {
        None
    } else if s.subrange(pos, pos + needle.len()) == needle {
        Some(pos)
    } else {
        find_from(s, pos + 1, needle)
    }
}

/// The position just after the first occurrence of `needle` at or after `pos`.
pub open spec fn seek(s: Seq<char>, pos: int, needle: Seq<char>) -> Option<int> {
    match find_from(s, pos, needle) {
        Some(i) => Some(i + needle.len()),
        None => None,
    }
}

/// The end of the run of number characters starting at `pos`.
pub open spec fn number_end(s: Seq<char>, pos: int) -> int
    decreases s.len() - pos,
{
    if 0 <= pos < s.len() && is_number_char(s[pos]) {
        number_end(s, pos + 1)
    } else {
        pos
    }
}

/// After whitespace, the text of a number and the position after it.
pub open spec fn number_at(s: Seq<char>, pos: int) -> (Seq<char>, int) {
    let p = skip_ws(s, pos);
    (s.subrange(p, number_end(s, p)), number_end(s, p))
}

/// The character an escape sequence `\\e` stands for.
pub open spec fn unescape(e: char) -> Option<char> {
    if e == '"' {
        Some('"')
    } else if e == '\\' {
        Some('\\')
    } else if e == 'n' {
        Some('\n')
    } else if e == 'r' {
        Some('\r')
    } else if e == 't' {
        Some('\t')
    } else {
        None
    }
}

/// The rest of a string literal from `pos` (after its opening quote): its
/// unescaped content and the position after the closing quote.
pub open spec fn string_body(s: Seq<char>, pos: int) -> Option<(Seq<char>, int)>
    decreases s.len() - pos,
{
    if pos < 0 || pos >= s.len() {
        None
    } else if s[pos] == '"' {
        Some((Seq::empty(), pos + 1))
    } else if s[pos] == '\\' {
        if pos + 1 >= s.len() {
            None
        } else {
            match unescape(s[pos + 1]) {
                None => None,
                Some(c) => match string_body(s, pos + 2) {
                    None => None,
                    Some((rest, p)) => Some((seq![c] + rest, p)),
                },
            }
        }
    } else {
        match string_body(s, pos + 1) {
            None => None,
            Some((rest, p)) => Some((seq![s[pos]] + rest, p)),
        }
    }
}

/// A string literal after optional whitespace.
pub open spec fn string_at(s: Seq<char>, pos: int) -> Option<(Seq<char>, int)> {
    let (open, p) = consume(s, pos, '"');
    if open {
        string_body(s, p)
    } else {
        None
    }
}

pub proof fn lemma_skip_ws(s: Seq<char>, pos: int)
    ensures
        skip_ws(s, pos) >= pos,
        pos <= s.len() ==> skip_ws(s, pos) <= s.len(),
        forall|j: int| pos <= j < skip_ws(s, pos) ==> 0 <= j < s.len() && is_json_ws(#[trigger] s[j]),
        0 <= skip_ws(s, pos) < s.len() ==> !is_json_ws(s[skip_ws(s, pos)]),
    decreases s.len() - pos,
{
    if 0 <= pos < s.len() && is_json_ws(s[pos]) {
        lemma_skip_ws(s, pos + 1);
    }
}

pub proof fn lemma_consume(s: Seq<char>, pos: int, c: char)
    ensures
        consume(s, pos, c).1 >= pos,
        pos <= s.len() ==> consume(s, pos, c).1 <= s.len(),
        consume(s, pos, c).0 ==> consume(s, pos, c).1 >= 1 && consume(s, pos, c).1 <= s.len()
            && consume(s, pos, c).1 > pos,
{
    lemma_skip_ws(s, pos);
}

pub proof fn lemma_number_end(s: Seq<char>, pos: int)
    ensures
        number_end(s, pos) >= pos,
        pos <= s.len() ==> number_end(s, pos) <= s.len(),
        forall|j: int| pos <= j < number_end(s, pos) ==> 0 <= j < s.len() && is_number_char(#[trigger] s[j]),
        0 <= number_end(s, pos) < s.len() ==> !is_number_char(s[number_end(s, pos)]),
    decreases s.len() - pos,
{
    if 0 <= pos < s.len() && is_number_char(s[pos]) {
        lemma_number_end(s, pos + 1);
    }
}

pub proof fn lemma_number_at(s: Seq<char>, pos: int)
    ensures
        number_at(s, pos).1 >= pos,
        pos <= s.len() ==> number_at(s, pos).1 <= s.len(),
{
    lemma_skip_ws(s, pos);
    lemma_number_end(s, skip_ws(s, pos));
}

pub proof fn lemma_find_from(s: Seq<char>, pos: int, needle: Seq<char>)
    ensures
        find_from(s, pos, needle) matches Some(i) ==> 0 <= pos <= i && i + needle.len() <= s.len()
            && s.subrange(i, i + needle.len()) == needle,
    decreases s.len() + 1 - pos,
{
    if !(pos < 0 || pos + needle.len() > s.len()) && s.subrange(pos, pos + needle.len()) != needle {
        lemma_find_from(s, pos + 1, needle);
    }
}

pub proof fn lemma_seek(s: Seq<char>, pos: int, needle: Seq<char>)
    ensures
        seek(s, pos, needle) matches Some(p) ==> p >= pos && p <= s.len(),
{
    lemma_find_from(s, pos, needle);
}

pub proof fn lemma_string_body(s: Seq<char>, pos: int)
    ensures
        string_body(s, pos) matches Some((_, p)) ==> pos < p <= s.len(),
    decreases s.len() - pos,
{
    if 0 <= pos < s.len() && s[pos] != '"' {
        if s[pos] == '\\' {
            if pos + 1 < s.len() {
                lemma_string_body(s, pos + 2);
            }
        } else {
            lemma_string_body(s, pos + 1);
        }
    }
}

pub proof fn lemma_string_at(s: Seq<char>, pos: int)
    ensures
        string_at(s, pos) matches Some((_, p)) ==> pos < p <= s.len(),
{
    lemma_consume(s, pos, '"');
    lemma_string_body(s, consume(s, pos, '"').1);
}

/// The frames of a track from `pos` (after the frames' opening bracket) and
/// the position after the closing bracket.
pub open spec fn frames_from(s: Seq<char>, pos: int) -> Option<(Seq<(Seq<char>, Seq<char>)>, int)>
    decreases s.len() - pos,
{
    let (closed, p1) = consume(s, pos, ']');
    if closed {
        Some((Seq::empty(), p1))
    } else {
        let (open, p2) = consume(s, p1, '[');
        if !open {
            None
        } else {
            let (t, p3) = number_at(s, p2);
            let (comma, p4) = consume(s, p3, ',');
            if !comma {
                None
            } else {
                let (v, p5) = number_at(s, p4);
                let (close, p6) = consume(s, p5, ']');
                if !close {
                    None
                } else {
                    let p7 = consume(s, p6, ',').1;
                    proof {
                        lemma_consume(s, pos, ']');
                        lemma_consume(s, p1, '[');
                        lemma_number_at(s, p2);
                        lemma_consume(s, p3, ',');
                        lemma_number_at(s, p4);
                        lemma_consume(s, p5, ']');
                        lemma_consume(s, p6, ',');
                    }
                    match frames_from(s, p7) {
                        None => None,
                        Some((rest, end)) => Some((seq![(t, v)] + rest, end)),
                    }
                }
            }
        }
    }
}

/// The `"label"` key.
pub open spec fn label_key() -> Seq<char> {
    seq!['"', 'l', 'a', 'b', 'e', 'l', '"']
}

/// The `"frames"` key.
pub open spec fn frames_key() -> Seq<char> {
    seq!['"', 'f', 'r', 'a', 'm', 'e', 's', '"']
}

/// The `"tracks"` key.
pub open spec fn tracks_key() -> Seq<char> {
    seq!['"', 't', 'r', 'a', 'c', 'k', 's', '"']
}

/// The tracks from `pos` (after the tracks' opening bracket) and the
/// position after the closing bracket.
pub open spec fn tracks_from(s: Seq<char>, pos: int) -> Option<(Seq<JsonTextModel>, int)>
    decreases s.len() - pos,
{
    let (closed, p1) = consume(s, pos, ']');
    if closed {
        Some((Seq::empty(), p1))
    } else {
        let (open, p2) = consume(s, p1, '{');
        if !open {
            None
        } else {
            match seek(s, p2, label_key()) {
                None => None,
                Some(p3) => match seek(s, p3, seq![':']) {
                    None => None,
                    Some(p4) => match string_at(s, p4) {
                        None => None,
                        Some((label, p5)) => match seek(s, p5, frames_key()) {
                            None => None,
                            Some(p6) => match seek(s, p6, seq!['[']) {
                                None => None,
                                Some(p7) => match frames_from(s, p7) {
                                    None => None,
                                    Some((frames, p8)) => {
                                        let (close, p9) = consume(s, p8, '}');
                                        if !close {
                                            None
                                        } else {
                                            let p10 = consume(s, p9, ',').1;
                                            proof {
                                                lemma_consume(s, pos, ']');
                                                lemma_consume(s, p1, '{');
                                                lemma_seek(s, p2, label_key());
                                                lemma_seek(s, p3, seq![':']);
                                                lemma_string_at(s, p4);
                                                lemma_seek(s, p5, frames_key());
                                                lemma_seek(s, p6, seq!['[']);
                                                lemma_frames_from(s, p7);
                                                lemma_consume(s, p8, '}');
                                                lemma_consume(s, p9, ',');
                                            }
                                            match tracks_from(s, p10) {
                                                None => None,
                                                Some((rest, end)) => Some(
                                                    (seq![(label, frames)] + rest, end),
                                                ),
                                            }
                                        }
                                    },
                                },
                            },
                        },
                    },
                },
            }
        }
    }
}

pub proof fn lemma_frames_from(s: Seq<char>, pos: int)
    ensures
        frames_from(s, pos) matches Some((_, p)) ==> pos <= p <= s.len() || (pos > s.len() && p == pos),
    decreases s.len() - pos,
{
    lemma_consume(s, pos, ']');
    let (closed, p1) = consume(s, pos, ']');
    if !closed {
        lemma_consume(s, p1, '[');
        let (open, p2) = consume(s, p1, '[');
        if open {
            lemma_number_at(s, p2);
            let p3 = number_at(s, p2).1;
            lemma_consume(s, p3, ',');
            let p4 = consume(s, p3, ',').1;
            lemma_number_at(s, p4);
            let p5 = number_at(s, p4).1;
            lemma_consume(s, p5, ']');
            let p6 = consume(s, p5, ']').1;
            lemma_consume(s, p6, ',');
            let p7 = consume(s, p6, ',').1;
            if consume(s, p3, ',').0 && consume(s, p5, ']').0 {
                lemma_frames_from(s, p7);
            }
        }
    } else {
        lemma_skip_ws(s, pos);
    }
}

/// What importing the JSON text `s` reads: the tracks' labels and number
/// texts, or `None` when the text does not have the export's shape.
pub open spec fn parse_json(s: Seq<char>) -> Option<Seq<JsonTextModel>> {
    match seek(s, 0, tracks_key()) {
        None => None,
        Some(p1) => match seek(s, p1, seq!['[']) {
            None => None,
            Some(p2) => match tracks_from(s, p2) {
                None => None,
                Some((ts, _)) => Some(ts),
            },
        },
    }
}

pub proof fn lemma_skip_ws_idem(s: Seq<char>, pos: int)
    ensures
        skip_ws(s, skip_ws(s, pos)) == skip_ws(s, pos),
        forall|c: char| #[trigger] consume(s, skip_ws(s, pos), c) == consume(s, pos, c),
{
    lemma_skip_ws(s, pos);
    let q = skip_ws(s, pos);
    assert(skip_ws(s, q) == q);
}

/// A position in a text's characters, read forward.
pub(crate) struct JsonCursor {
    pub(crate) input: Vec<char>,
    pub(crate) pos: usize,
}

/// The frames of one track as text models.
pub open spec fn frame_texts_model(v: Seq<(String, String)>) -> Seq<(Seq<char>, Seq<char>)> {
    v.map_values(|f: (String, String)| (f.0@, f.1@))
}

fn is_ws_char(c: char) -> (b: bool)
    ensures
        b == is_json_ws(c),
{
    c == ' ' || c == '\t' || c == '\n' || c == '\x0C' || c == '\r'
}

fn is_number_char_exec(c: char) -> (b: bool)
    ensures
        b == is_number_char(c),
{
    ('0' <= c && c <= '9') || c == '-' || c == '+' || c == '.' || c == 'e' || c == 'E'
}

impl JsonCursor {
    pub(crate) fn new(input: &str) -> (c: Self)
        ensures
            c.input@ == input@,
            c.pos == 0,
    {
        let mut chars: Vec<char> = Vec::new();
        for ch in it: input.chars()
            invariant
                it.seq() == input@,
                chars@ == input@.take(it.index()),
        {
            assert(input@.take(it.index() + 1) =~= chars@.push(ch));
            chars.push(ch);
        }
        assert(chars@ =~= input@);
        JsonCursor { input: chars, pos: 0 }
    }

    /// Whether `needle` occurs at `i`.
    fn matches_at(&self, i: usize, needle: &[char]) -> (b: bool)
        requires
            i + needle@.len() <= self.input@.len(),
        ensures
            b == (self.input@.subrange(i as int, i + needle@.len()) == needle@),
    {
        let n = needle.len();
        let len = self.input.len();
        let mut k: usize = 0;
        while k < n
            invariant
                len == self.input@.len(),
                i + n <= self.input@.len(),
                n == needle@.len(),
                k <= n,
                forall|j: int| 0 <= j < k ==> self.input@[i + j] == needle@[j],
            decreases n - k,
        {
            if self.input[i + k] != needle[k] {
                assert(self.input@.subrange(i as int, i + n)[k as int] != needle@[k as int]);
                return false;
            }
            k += 1;
        }
        assert(self.input@.subrange(i as int, i + n) =~= needle@);
        true
    }

    /// Move past the first occurrence of `needle`.
    pub(crate) fn seek(&mut self, needle: &[char]) -> (res: Result<(), RecorderError>)
        requires
            old(self).pos <= old(self).input@.len(),
            needle@.len() > 0,
        ensures
            final(self).input@ == old(self).input@,
            final(self).pos <= final(self).input@.len(),
            final(self).pos >= old(self).pos,
            match seek(old(self).input@, old(self).pos as int, needle@) {
                Some(p) => res is Ok && final(self).pos == p,
                None => res == Err::<(), RecorderError>(RecorderError::InvalidJson),
            },
    {
        let ghost s = self.input@;
        let n = needle.len();
        let mut i = self.pos;
        while i <= self.input.len() && n <= self.input.len() - i
            invariant
                self.input@ == s,
                old(self).input@ == s,
                self.pos == old(self).pos,
                old(self).pos <= i <= s.len(),
                n == needle@.len(),
                n > 0,
                find_from(s, old(self).pos as int, needle@) == find_from(s, i as int, needle@),
            decreases s.len() + 1 - i,
        {
            if self.matches_at(i, needle) {
                self.pos = i + n;
                return Ok(());
            }
            i += 1;
        }
        Err(RecorderError::InvalidJson)
    }

    pub(crate) fn skip_ws(&mut self)
        requires
            old(self).pos <= old(self).input@.len(),
        ensures
            final(self).input@ == old(self).input@,
            final(self).pos == skip_ws(old(self).input@, old(self).pos as int),
            final(self).pos <= final(self).input@.len(),
            final(self).pos >= old(self).pos,
    {
        while self.pos < self.input.len() && is_ws_char(self.input[self.pos])
            invariant
                self.input@ == old(self).input@,
                self.pos <= self.input@.len(),
                self.pos >= old(self).pos,
                skip_ws(self.input@, old(self).pos as int) == skip_ws(self.input@, self.pos as int),
            decreases self.input@.len() - self.pos,
        {
            self.pos += 1;
        }
    }

    pub(crate) fn consume(&mut self, ch: char) -> (b: bool)
        requires
            old(self).pos <= old(self).input@.len(),
        ensures
            final(self).input@ == old(self).input@,
            (b, final(self).pos as int) == consume(old(self).input@, old(self).pos as int, ch),
            final(self).pos <= final(self).input@.len(),
            final(self).pos >= old(self).pos,
            b ==> final(self).pos > old(self).pos,
    {
        proof {
            lemma_consume(self.input@, self.pos as int, ch);
        }
        self.skip_ws();
        if self.pos < self.input.len() && self.input[self.pos] == ch {
            self.pos += 1;
            true
        } else {
            false
        }
    }

    pub(crate) fn expect(&mut self, ch: char) -> (res: Result<(), RecorderError>)
        requires
            old(self).pos <= old(self).input@.len(),
        ensures
            final(self).input@ == old(self).input@,
            final(self).pos <= final(self).input@.len(),
            final(self).pos == consume(old(self).input@, old(self).pos as int, ch).1,
            final(self).pos >= old(self).pos,
            res is Ok ==> final(self).pos > old(self).pos,
            consume(old(self).input@, old(self).pos as int, ch).0 ==> res is Ok,
            !consume(old(self).input@, old(self).pos as int, ch).0 ==> res == Err::<(), RecorderError>(
                RecorderError::InvalidJson,
            ),
    {
        if self.consume(ch) {
            Ok(())
        } else {
            Err(RecorderError::InvalidJson)
        }
    }

    /// Read a string literal, unescaping it.
    pub(crate) fn string(&mut self) -> (res: Result<String, RecorderError>)
        requires
            old(self).pos <= old(self).input@.len(),
        ensures
            final(self).input@ == old(self).input@,
            final(self).pos <= final(self).input@.len(),
            final(self).pos >= old(self).pos,
            match string_at(old(self).input@, old(self).pos as int) {
                Some((text, p)) => (res matches Ok(t) && t@ == text && final(self).pos == p),
                None => res == Err::<String, RecorderError>(RecorderError::InvalidJson),
            },
    {
        let ghost s = self.input@;
        proof {
            lemma_skip_ws_idem(s, self.pos as int);
        }
        self.skip_ws();
        self.expect('"')?;
        let ghost start = self.pos as int;
        let mut out = String::new();
        while self.pos < self.input.len()
            invariant
                self.input@ == s,
                old(self).input@ == s,
                self.pos <= s.len(),
                self.pos >= old(self).pos,
                string_at(s, old(self).pos as int) == match string_body(s, self.pos as int) {
                    Some((rest, p)) => Some((out@ + rest, p)),
                    None => None,
                },
            decreases s.len() - self.pos,
        {
            let ch = self.input[self.pos];
            self.pos += 1;
            if ch == '"' {
                assert(out@ + Seq::<char>::empty() =~= out@);
                return Ok(out);
            } else if ch == '\\' {
                if self.pos >= self.input.len() {
                    return Err(RecorderError::InvalidJson);
                }
                let escaped = self.input[self.pos];
                self.pos += 1;
                let c = if escaped == '"' {
                    '"'
                } else if escaped == '\\' {
                    '\\'
                } else if escaped == 'n' {
                    '\n'
                } else if escaped == 'r' {
                    '\r'
                } else if escaped == 't' {
                    '\t'
                } else {
                    return Err(RecorderError::InvalidJson);
                };
                proof {
                    let old_out = out@;
                    match string_body(s, self.pos as int) {
                        Some((rest, p)) => {
                            assert(old_out + (seq![c] + rest) =~= old_out.push(c) + rest);
                        },
                        None => {},
                    }
                }
                push_char(&mut out, c);
            } else {
                proof {
                    let old_out = out@;
                    match string_body(s, self.pos as int) {
                        Some((rest, p)) => {
                            assert(old_out + (seq![ch] + rest) =~= old_out.push(ch) + rest);
                        },
                        None => {},
                    }
                }
                push_char(&mut out, ch);
            }
        }
        Err(RecorderError::InvalidJson)
    }

    /// Read the text of a number: the run of number characters after whitespace.
    pub(crate) fn number(&mut self) -> (text: String)
        requires
            old(self).pos <= old(self).input@.len(),
        ensures
            final(self).input@ == old(self).input@,
            final(self).pos <= final(self).input@.len(),
            final(self).pos >= old(self).pos,
            (text@, final(self).pos as int) == number_at(old(self).input@, old(self).pos as int),
    {
        let ghost s = self.input@;
        self.skip_ws();
        let start = self.pos;
        let mut text = String::new();
        while self.pos < self.input.len() && is_number_char_exec(self.input[self.pos])
            invariant
                self.input@ == s,
                start <= self.pos <= s.len(),
                text@ == s.subrange(start as int, self.pos as int),
                number_end(s, start as int) == number_end(s, self.pos as int),
            decreases s.len() - self.pos,
        {
            push_char(&mut text, self.input[self.pos]);
            self.pos += 1;
            assert(text@ =~= s.subrange(start as int, self.pos as int));
        }
        text
    }
}

/// Read the frames of one track, from after the frames' opening bracket.
fn read_frames(cur: &mut JsonCursor) -> (res: Result<Vec<(String, String)>, RecorderError>)
    requires
        old(cur).pos <= old(cur).input@.len(),
    ensures
        final(cur).input@ == old(cur).input@,
        final(cur).pos <= final(cur).input@.len(),
        final(cur).pos >= old(cur).pos,
        match frames_from(old(cur).input@, old(cur).pos as int) {
            Some((fs, p)) => (res matches Ok(v) && frame_texts_model(v@) == fs && final(cur).pos == p),
            None => res == Err::<Vec<(String, String)>, RecorderError>(RecorderError::InvalidJson),
        },
{
    let ghost s = cur.input@;
    let mut frames: Vec<(String, String)> = Vec::new();
    loop
        invariant
            cur.input@ == s,
            old(cur).input@ == s,
            cur.pos <= s.len(),
            cur.pos >= old(cur).pos,
            frames_from(s, old(cur).pos as int) == match frames_from(s, cur.pos as int) {
                Some((rest, p)) => Some((frame_texts_model(frames@) + rest, p)),
                None => None,
            },
        decreases s.len() - cur.pos,
    {
        let ghost at = cur.pos as int;
        proof {
            lemma_skip_ws_idem(s, at);
        }
        cur.skip_ws();
        if cur.consume(']') {
            assert(frame_texts_model(frames@) + Seq::empty() =~= frame_texts_model(frames@));
            return Ok(frames);
        }
        cur.expect('[')?;
        let time = cur.number();
        cur.expect(',')?;
        let value = cur.number();
        cur.expect(']')?;
        let ghost p6 = cur.pos as int;
        proof {
            lemma_skip_ws_idem(s, p6);
            lemma_consume(s, at, ']');
            lemma_consume(s, consume(s, at, ']').1, '[');
        }
        let ghost pair = (time@, value@);
        proof {
            let prev = frame_texts_model(frames@);
            assert(frame_texts_model(frames@.push((time, value))) =~= prev.push(pair));
            match frames_from(s, consume(s, p6, ',').1) {
                Some((rest, p)) => {
                    assert(prev + (seq![pair] + rest) =~= prev.push(pair) + rest);
                },
                None => {},
            }
        }
        frames.push((time, value));
        cur.skip_ws();
        cur.consume(',');
    }
}

/// Read the tracks, from after the tracks' opening bracket.
fn read_tracks(cur: &mut JsonCursor) -> (res: Result<Vec<JsonTrackText>, RecorderError>)
    requires
        old(cur).pos <= old(cur).input@.len(),
    ensures
        match tracks_from(old(cur).input@, old(cur).pos as int) {
            Some((ts, _)) => (res matches Ok(v) && v@.map_values(|t: JsonTrackText| t@) == ts),
            None => res == Err::<Vec<JsonTrackText>, RecorderError>(RecorderError::InvalidJson),
        },
{
    let ghost s = cur.input@;
    let mut tracks: Vec<JsonTrackText> = Vec::new();
    loop
        invariant
            cur.input@ == s,
            old(cur).input@ == s,
            cur.pos <= s.len(),
            tracks_from(s, old(cur).pos as int) == match tracks_from(s, cur.pos as int) {
                Some((rest, p)) => Some((tracks@.map_values(|t: JsonTrackText| t@) + rest, p)),
                None => None,
            },
        decreases s.len() - cur.pos,
    {
        let ghost at = cur.pos as int;
        proof {
            lemma_skip_ws_idem(s, at);
        }
        cur.skip_ws();
        if cur.consume(']') {
            assert(tracks@.map_values(|t: JsonTrackText| t@) + Seq::empty() =~= tracks@.map_values(
                |t: JsonTrackText| t@,
            ));
            return Ok(tracks);
        }
        cur.expect('{')?;
        let label_needle: [char; 7] = ['"', 'l', 'a', 'b', 'e', 'l', '"'];
        assert(label_needle@ =~= label_key());
        cur.seek(label_needle.as_slice())?;
        let colon: [char; 1] = [':'];
        assert(colon@ =~= seq![':']);
        cur.seek(colon.as_slice())?;
        let label = cur.string()?;
        let frames_needle: [char; 8] = ['"', 'f', 'r', 'a', 'm', 'e', 's', '"'];
        assert(frames_needle@ =~= frames_key());
        cur.seek(frames_needle.as_slice())?;
        let bracket: [char; 1] = ['['];
        assert(bracket@ =~= seq!['[']);
        cur.seek(bracket.as_slice())?;
        let frames = read_frames(cur)?;
        let ghost p8 = cur.pos as int;
        proof {
            lemma_skip_ws_idem(s, p8);
        }
        cur.skip_ws();
        cur.expect('}')?;
        let ghost p9 = cur.pos as int;
        proof {
            lemma_skip_ws_idem(s, p9);
            lemma_consume(s, at, ']');
            lemma_consume(s, consume(s, at, ']').1, '{');
        }
        let track = JsonTrackText { label, frames };
        proof {
            let prev = tracks@.map_values(|t: JsonTrackText| t@);
            assert(tracks@.push(track).map_values(|t: JsonTrackText| t@) =~= prev.push(track@));
            match tracks_from(s, consume(s, p9, ',').1) {
                Some((rest, p)) => {
                    assert(prev + (seq![track@] + rest) =~= prev.push(track@) + rest);
                },
                None => {},
            }
        }
        tracks.push(track);
        cur.skip_ws();
        cur.consume(',');
    }
}

/// Read the labels and number texts of a JSON export.
pub fn parse_json_tracks(json: &str) -> (res: Result<Vec<JsonTrackText>, RecorderError>)
    ensures
        match parse_json(json@) {
            Some(ts) => (res matches Ok(v) && v@.map_values(|t: JsonTrackText| t@) == ts),
            None => res == Err::<Vec<JsonTrackText>, RecorderError>(RecorderError::InvalidJson),
        },
{
    let mut cur = JsonCursor::new(json);
    let key: [char; 8] = ['"', 't', 'r', 'a', 'c', 'k', 's', '"'];
    assert(key@ =~= tracks_key());
    cur.seek(key.as_slice())?;
    let bracket: [char; 1] = ['['];
    assert(bracket@ =~= seq!['[']);
    cur.seek(bracket.as_slice())?;
    read_tracks(&mut cur)
}

// ---------------------------------------------------------------------------
// Reading back an export.
// ---------------------------------------------------------------------------

/// The texts a frame is read back as.
pub open spec fn frame_text_model(f: (Fixed6, Fixed6)) -> (Seq<char>, Seq<char>) {
    (fixed_text(f.0), fixed_text(f.1))
}

/// What reading an export of `ts` gives: each label, and each number as the
/// text it was written as.
pub open spec fn exported_texts(ts: Seq<JsonTrackModel>) -> Seq<JsonTextModel> {
    ts.map_values(|t: JsonTrackModel| (t.0, t.1.map_values(|f: (Fixed6, Fixed6)| frame_text_model(f))))
}

proof fn lemma_suffix(s: Seq<char>, p: int, k: int)
    requires
        0 <= p,
        0 <= k,
        p + k <= s.len(),
    ensures
        s.subrange(p + k, s.len() as int) == s.subrange(p, s.len() as int).subrange(
            k,
            s.len() - p,
        ),
{
    assert(s.subrange(p + k, s.len() as int) =~= s.subrange(p, s.len() as int).subrange(k, s.len() - p));
}

proof fn lemma_at(s: Seq<char>, p: int, k: int)
    requires
        0 <= p,
        0 <= k,
        p + k < s.len(),
    ensures
        s[p + k] == s.subrange(p, s.len() as int)[k],
{
}

proof fn lemma_decimal_digits(n: nat)
    ensures
        decimal(n).len() >= 1,
        forall|i: int| 0 <= i < decimal(n).len() ==> '0' <= #[trigger] decimal(n)[i] <= '9',
    decreases n,
{
    if n >= 10 {
        lemma_decimal_digits(n / 10);
    }
}

proof fn lemma_fixed_chars(f: Fixed6)
    ensures
        fixed_text(f).len() >= 3,
        forall|i: int| 0 <= i < fixed_text(f).len() ==> is_number_char(#[trigger] fixed_text(f)[i]),
{
    lemma_decimal_digits((f.scaled / 1_000_000) as nat);
    let sign: Seq<char> = if f.negative { seq!['-'] } else { Seq::empty() };
    let d = decimal((f.scaled / 1_000_000) as nat);
    let six = six_digits((f.scaled % 1_000_000) as nat);
    assert(fixed_text(f) == sign + d + seq!['.'] + six);
    assert forall|i: int| 0 <= i < fixed_text(f).len() implies is_number_char(#[trigger] fixed_text(f)[i]) by {
        if i < sign.len() {
        } else if i < sign.len() + d.len() {
            assert(fixed_text(f)[i] == d[i - sign.len()]);
        } else if i == sign.len() + d.len() {
        } else {
            let j = i - sign.len() - d.len() - 1;
            assert(fixed_text(f)[i] == six[j]);
        }
    }
}

proof fn lemma_number_run(s: Seq<char>, q: int, m: int)
    requires
        0 <= q,
        0 <= m,
        q + m <= s.len(),
        forall|i: int| q <= i < q + m ==> is_number_char(#[trigger] s[i]),
        q + m < s.len() ==> !is_number_char(s[q + m]),
    ensures
        number_end(s, q) == q + m,
    decreases m,
{
    if m > 0 {
        lemma_number_run(s, q + 1, m - 1);
    }
}

proof fn lemma_number_at_fixed(s: Seq<char>, q: int, f: Fixed6, tail: Seq<char>)
    requires
        0 <= q <= s.len(),
        s.subrange(q, s.len() as int) == fixed_text(f) + tail,
        tail.len() > 0,
        !is_number_char(tail[0]),
    ensures
        number_at(s, q) == (fixed_text(f), q + fixed_text(f).len()),
{
    let t = fixed_text(f);
    lemma_fixed_chars(f);
    let suf = s.subrange(q, s.len() as int);
    assert(suf.len() == s.len() - q);
    assert(suf.len() == t.len() + tail.len());
    lemma_at(s, q, 0);
    assert(suf[0] == t[0]);
    assert(!is_json_ws(s[q]));
    assert(skip_ws(s, q) == q);
    assert forall|i: int| q <= i < q + t.len() implies is_number_char(#[trigger] s[i]) by {
        lemma_at(s, q, i - q);
        assert(suf[i - q] == t[i - q]);
    }
    lemma_at(s, q, t.len() as int);
    assert(suf[t.len() as int] == tail[0]);
    lemma_number_run(s, q, t.len() as int);
    assert(s.subrange(q, q + t.len()) =~= t);
}

proof fn lemma_consume_here(s: Seq<char>, q: int, c: char)
    requires
        0 <= q < s.len(),
        !is_json_ws(s[q]),
    ensures
        consume(s, q, c) == if s[q] == c {
            (true, q + 1)
        } else {
            (false, q)
        },
{
    assert(skip_ws(s, q) == q);
}

proof fn lemma_string_body_escaped(s: Seq<char>, q: int, l: Seq<char>, tail: Seq<char>)
    requires
        0 <= q <= s.len(),
        s.subrange(q, s.len() as int) == escaped(l) + seq!['"'] + tail,
    ensures
        string_body(s, q) == Some((l, q + escaped(l).len() + 1)),
    decreases l.len(),
{
    let suf = s.subrange(q, s.len() as int);
    assert(suf.len() == s.len() - q);
    assert(suf.len() == escaped(l).len() + 1 + tail.len());
    if l.len() == 0 {
        assert(escaped(l) =~= Seq::<char>::empty());
        lemma_at(s, q, 0);
        assert(l =~= Seq::<char>::empty());
    } else {
        let c = l[0];
        let e = escape_char(c);
        let rest = l.drop_first();
        assert(escaped(l) == e + escaped(rest));
        lemma_at(s, q, 0);
        assert(suf[0] == e[0]);
        let k = e.len() as int;
        assert(k >= 1);
        lemma_suffix(s, q, k);
        assert(s.subrange(q + k, s.len() as int) =~= escaped(rest) + seq!['"'] + tail);
        lemma_string_body_escaped(s, q + k, rest, tail);
        if k == 2 {
            lemma_at(s, q, 1);
            assert(suf[1] == e[1]);
        }
        assert(seq![c] + rest =~= l);
    }
}

proof fn lemma_frame_steps(s: Seq<char>, p: int, f: (Fixed6, Fixed6), after: Seq<char>)
    requires
        0 <= p <= s.len(),
        s.subrange(p, s.len() as int) == frame_text(f) + after,
        after.len() > 0,
        after[0] == ',' || after[0] == ']',
    ensures
        ({
            let t0 = fixed_text(f.0);
            let t1 = fixed_text(f.1);
            let q1 = p + 1;
            let q2 = q1 + t0.len();
            let q3 = q2 + 1;
            let q4 = q3 + t1.len();
            let q5 = p + frame_text(f).len();
            &&& consume(s, p, ']') == (false, p)
            &&& consume(s, p, '[') == (true, q1)
            &&& number_at(s, q1) == (t0, q2)
            &&& consume(s, q2, ',') == (true, q3)
            &&& number_at(s, q3) == (t1, q4)
            &&& consume(s, q4, ']') == (true, q5)
            &&& q5 < s.len()
            &&& s[q5] == after[0]
            &&& s.subrange(q5, s.len() as int) == after
        }),
{
    let suf = s.subrange(p, s.len() as int);
    let ft = frame_text(f);
    let t0 = fixed_text(f.0);
    let t1 = fixed_text(f.1);
    assert(suf.len() == s.len() - p);
    assert(ft =~= seq!['['] + t0 + seq![','] + t1 + seq![']']);
    assert(suf.len() == ft.len() + after.len());
    lemma_fixed_chars(f.0);
    lemma_fixed_chars(f.1);
    lemma_at(s, p, 0);
    assert(s[p] == '[');
    lemma_consume_here(s, p, ']');
    lemma_consume_here(s, p, '[');
    let q1 = p + 1;
    lemma_suffix(s, p, 1);
    assert(s.subrange(q1, s.len() as int) =~= t0 + (seq![','] + t1 + seq![']'] + after));
    lemma_number_at_fixed(s, q1, f.0, seq![','] + t1 + seq![']'] + after);
    let q2 = q1 + t0.len();
    lemma_at(s, p, 1 + t0.len() as int);
    assert(s[q2] == ',');
    lemma_consume_here(s, q2, ',');
    let q3 = q2 + 1;
    lemma_suffix(s, p, 2 + t0.len() as int);
    assert(s.subrange(q3, s.len() as int) =~= t1 + (seq![']'] + after));
    lemma_number_at_fixed(s, q3, f.1, seq![']'] + after);
    let q4 = q3 + t1.len();
    lemma_at(s, p, 2 + t0.len() as int + t1.len() as int);
    assert(s[q4] == ']');
    lemma_consume_here(s, q4, ']');
    let q5 = q4 + 1;
    lemma_at(s, p, ft.len() as int);
    lemma_suffix(s, p, ft.len() as int);
    assert(s.subrange(q5, s.len() as int) =~= after);
}

proof fn lemma_frames_from_text(s: Seq<char>, p: int, fs: Seq<(Fixed6, Fixed6)>, tail: Seq<char>)
    requires
        0 <= p <= s.len(),
        s.subrange(p, s.len() as int) == frames_text(fs) + seq![']'] + tail,
    ensures
        frames_from(s, p) == Some(
            (
                fs.map_values(|f: (Fixed6, Fixed6)| frame_text_model(f)),
                p + frames_text(fs).len() + 1,
            ),
        ),
    decreases fs.len(),
{
    let suf = s.subrange(p, s.len() as int);
    assert(suf.len() == s.len() - p);
    let parts = fs.map_values(|f: (Fixed6, Fixed6)| frame_text(f));
    if fs.len() == 0 {
        assert(frames_text(fs) =~= Seq::<char>::empty());
        lemma_at(s, p, 0);
        lemma_consume_here(s, p, ']');
        assert(fs.map_values(|f: (Fixed6, Fixed6)| frame_text_model(f)) =~= Seq::<(Seq<char>, Seq<char>)>::empty());
    } else {
        let f = fs[0];
        let rest = fs.drop_first();
        let ft = frame_text(f);
        let rest_text = frames_text(rest);
        assert(parts.drop_first() =~= rest.map_values(|f: (Fixed6, Fixed6)| frame_text(f)));
        let q5 = p + ft.len();
        if fs.len() > 1 {
            assert(frames_text(fs) == ft + seq![','] + rest_text);
            let after = seq![','] + rest_text + seq![']'] + tail;
            assert(suf =~= ft + after);
            lemma_frame_steps(s, p, f, after);
            lemma_consume_here(s, q5, ',');
            lemma_suffix(s, q5, 1);
            assert(s.subrange(q5 + 1, s.len() as int) =~= rest_text + seq![']'] + tail);
            lemma_frames_from_text(s, q5 + 1, rest, tail);
        } else {
            assert(rest =~= Seq::<(Fixed6, Fixed6)>::empty());
            assert(rest_text =~= Seq::<char>::empty());
            assert(frames_text(fs) == ft);
            let after = seq![']'] + tail;
            assert(suf =~= ft + after);
            lemma_frame_steps(s, p, f, after);
            lemma_consume_here(s, q5, ',');
            assert(s.subrange(q5, s.len() as int) =~= rest_text + seq![']'] + tail);
            lemma_frames_from_text(s, q5, rest, tail);
        }
        assert(seq![frame_text_model(f)] + rest.map_values(|f: (Fixed6, Fixed6)| frame_text_model(f))
            =~= fs.map_values(|f: (Fixed6, Fixed6)| frame_text_model(f)));
    }
}

proof fn lemma_find_here(s: Seq<char>, q: int, needle: Seq<char>)
    requires
        0 <= q,
        q + needle.len() <= s.len(),
        s.subrange(q, q + needle.len()) == needle,
    ensures
        find_from(s, q, needle) == Some(q),
{
}

proof fn lemma_find_next(s: Seq<char>, q: int, needle: Seq<char>)
    requires
        0 <= q,
        needle.len() > 0,
        q + 1 + needle.len() <= s.len(),
        s[q] != needle[0],
        s.subrange(q + 1, q + 1 + needle.len()) == needle,
    ensures
        find_from(s, q, needle) == Some(q + 1),
{
    assert(s.subrange(q, q + needle.len())[0] != needle[0]);
    lemma_find_here(s, q + 1, needle);
}

proof fn lemma_window(s: Seq<char>, p: int, text: Seq<char>, k: int, w: Seq<char>)
    requires
        0 <= p <= s.len(),
        0 <= k,
        s.subrange(p, s.len() as int) == text,
        k + w.len() <= text.len(),
        text.subrange(k, k + w.len()) == w,
    ensures
        p + k + w.len() <= s.len(),
        s.subrange(p + k, p + k + w.len()) == w,
{
    assert(s.subrange(p, s.len() as int).len() == s.len() - p);
    assert(s.subrange(p + k, p + k + w.len()) =~= text.subrange(k, k + w.len()));
}

/// `{"label":"` then anything.
proof fn lemma_label_header(s: Seq<char>, p: int, rest: Seq<char>)
    requires
        0 <= p <= s.len(),
        s.subrange(p, s.len() as int) == label_open() + rest,
    ensures
        consume(s, p, ']') == (false, p),
        consume(s, p, '{') == (true, p + 1),
        seek(s, p + 1, label_key()) == Some(p + 8),
        seek(s, p + 8, seq![':']) == Some(p + 9),
        consume(s, p + 9, '"') == (true, p + 10),
        s.subrange(p + 10, s.len() as int) == rest,
{
    let text = label_open() + rest;
    assert(s.subrange(p, s.len() as int).len() == s.len() - p);
    lemma_at(s, p, 0);
    assert(text[0] == '{');
    lemma_consume_here(s, p, ']');
    lemma_consume_here(s, p, '{');
    assert(text.subrange(1, 8) =~= label_key());
    lemma_window(s, p, text, 1, label_key());
    lemma_find_here(s, p + 1, label_key());
    assert(text.subrange(8, 9) =~= seq![':']);
    lemma_window(s, p, text, 8, seq![':']);
    lemma_find_here(s, p + 8, seq![':']);
    lemma_at(s, p, 9);
    assert(text[9] == '"');
    lemma_consume_here(s, p + 9, '"');
    lemma_suffix(s, p, 10);
    assert(text.subrange(10, text.len() as int) =~= rest);
}

/// `,"frames":[` then anything.
proof fn lemma_frames_header(s: Seq<char>, r: int, rest: Seq<char>)
    requires
        0 <= r <= s.len(),
        s.subrange(r, s.len() as int) == frames_open().drop_first() + rest,
    ensures
        seek(s, r, frames_key()) == Some(r + 9),
        seek(s, r + 9, seq!['[']) == Some(r + 11),
        s.subrange(r + 11, s.len() as int) == rest,
{
    let text = frames_open().drop_first() + rest;
    assert(s.subrange(r, s.len() as int).len() == s.len() - r);
    lemma_at(s, r, 0);
    assert(text[0] == ',');
    assert(text.subrange(1, 9) =~= frames_key());
    lemma_window(s, r, text, 1, frames_key());
    lemma_find_next(s, r, frames_key());
    lemma_at(s, r, 9);
    assert(text[9] == ':');
    assert(text.subrange(10, 11) =~= seq!['[']);
    lemma_window(s, r, text, 10, seq!['[']);
    lemma_find_next(s, r + 9, seq!['[']);
    lemma_suffix(s, r, 11);
    assert(text.subrange(11, text.len() as int) =~= rest);
}

proof fn lemma_track_steps(s: Seq<char>, p: int, t: JsonTrackModel, after: Seq<char>)
    requires
        0 <= p <= s.len(),
        s.subrange(p, s.len() as int) == track_text(t) + after,
    ensures
        ({
            let e = escaped(t.0).len() as int;
            let f = frames_text(t.1).len() as int;
            let p5 = p + 11 + e;
            let p7 = p5 + 11;
            let p8 = p7 + f + 1;
            &&& consume(s, p, ']') == (false, p)
            &&& consume(s, p, '{') == (true, p + 1)
            &&& seek(s, p + 1, label_key()) == Some(p + 8)
            &&& seek(s, p + 8, seq![':']) == Some(p + 9)
            &&& string_at(s, p + 9) == Some((t.0, p5))
            &&& seek(s, p5, frames_key()) == Some(p5 + 9)
            &&& seek(s, p5 + 9, seq!['[']) == Some(p7)
            &&& frames_from(s, p7) == Some(
                (t.1.map_values(|f: (Fixed6, Fixed6)| frame_text_model(f)), p8),
            )
            &&& consume(s, p8, '}') == (true, p + track_text(t).len())
            &&& s.subrange(p + track_text(t).len(), s.len() as int) == after
        }),
{
    let esc = escaped(t.0);
    let ft = frames_text(t.1);
    let e = esc.len() as int;
    let f = ft.len() as int;
    let tt = track_text(t);
    let r3 = ft + seq![']'] + (seq!['}'] + after);
    let r2 = frames_open().drop_first() + r3;
    let r1 = esc + seq!['"'] + r2;
    assert(frames_open() =~= seq!['"'] + frames_open().drop_first());
    assert(tt + after =~= label_open() + r1);
    lemma_label_header(s, p, r1);
    lemma_string_body_escaped(s, p + 10, t.0, r2);
    let p5 = p + 11 + e;
    lemma_suffix(s, p + 10, e + 1);
    assert(r1.subrange(e + 1, r1.len() as int) =~= r2);
    lemma_frames_header(s, p5, r3);
    let p7 = p5 + 11;
    lemma_frames_from_text(s, p7, t.1, seq!['}'] + after);
    let p8 = p7 + f + 1;
    lemma_suffix(s, p7, f + 1);
    assert(r3.subrange(f + 1, r3.len() as int) =~= seq!['}'] + after);
    lemma_at(s, p8, 0);
    lemma_consume_here(s, p8, '}');
    lemma_suffix(s, p8, 1);
    assert((seq!['}'] + after).subrange(1, after.len() as int + 1) =~= after);
}

#[verifier::spinoff_prover]
#[verifier::rlimit(40)]
proof fn lemma_tracks_from_text(s: Seq<char>, p: int, ts: Seq<JsonTrackModel>, tail: Seq<char>)
    requires
        0 <= p <= s.len(),
        s.subrange(p, s.len() as int) == tracks_text(ts) + seq![']'] + tail,
    ensures
        tracks_from(s, p) == Some((exported_texts(ts), p + tracks_text(ts).len() + 1)),
    decreases ts.len(),
{
    let suf = s.subrange(p, s.len() as int);
    assert(suf.len() == s.len() - p);
    let parts = ts.map_values(|t: JsonTrackModel| track_text(t));
    if ts.len() == 0 {
        assert(tracks_text(ts) =~= Seq::<char>::empty());
        lemma_at(s, p, 0);
        lemma_consume_here(s, p, ']');
        assert(exported_texts(ts) =~= Seq::<JsonTextModel>::empty());
    } else {
        let t = ts[0];
        let rest = ts.drop_first();
        let tt = track_text(t);
        let rest_text = tracks_text(rest);
        assert(parts.drop_first() =~= rest.map_values(|t: JsonTrackModel| track_text(t)));
        let q = p + tt.len();
        if ts.len() > 1 {
            assert(tracks_text(ts) == tt + seq![','] + rest_text);
            let after = seq![','] + rest_text + seq![']'] + tail;
            assert(suf =~= tt + after);
            lemma_track_steps(s, p, t, after);
            lemma_at(s, q, 0);
            lemma_consume_here(s, q, ',');
            lemma_suffix(s, q, 1);
            assert(s.subrange(q + 1, s.len() as int) =~= rest_text + seq![']'] + tail);
            lemma_tracks_from_text(s, q + 1, rest, tail);
        } else {
            assert(rest =~= Seq::<JsonTrackModel>::empty());
            assert(rest_text =~= Seq::<char>::empty());
            assert(tracks_text(ts) == tt);
            let after = seq![']'] + tail;
            assert(suf =~= tt + after);
            lemma_track_steps(s, p, t, after);
            lemma_at(s, q, 0);
            lemma_consume_here(s, q, ',');
            assert(s.subrange(q, s.len() as int) =~= rest_text + seq![']'] + tail);
            lemma_tracks_from_text(s, q, rest, tail);
        }
        assert(seq![exported_texts(ts)[0]] + exported_texts(rest) =~= exported_texts(ts));
    }
}

proof fn lemma_document_header(s: Seq<char>, rest: Seq<char>)
    requires
        s == document_open() + rest,
    ensures
        seek(s, 0, tracks_key()) == Some(9int),
        seek(s, 9, seq!['[']) == Some(11int),
        s.subrange(11, s.len() as int) == rest,
{
    assert(s.subrange(0, s.len() as int) =~= s);
    assert(s[0] == '{');
    assert(s.subrange(1, 9) =~= tracks_key());
    lemma_find_next(s, 0, tracks_key());
    assert(s[9] == ':');
    assert(s.subrange(10, 11) =~= seq!['[']);
    lemma_find_next(s, 9, seq!['[']);
    assert(s.subrange(11, s.len() as int) =~= rest);
}

/// Reading back a JSON export gives every label unchanged and every number
/// as the text it was written as.
pub proof fn law_json_round_trip(ts: Seq<JsonTrackModel>)
    ensures
        parse_json(json_text(ts)) == Some(exported_texts(ts)),
{
    let s = json_text(ts);
    let rest = tracks_text(ts) + seq![']'] + seq!['}'];
    assert(s =~= document_open() + rest);
    lemma_document_header(s, rest);
    lemma_tracks_from_text(s, 11, ts, seq!['}']);
}

} // verus!
