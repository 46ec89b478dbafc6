//! Frame-value recording: the recorder's tracks, sample insertion, and the
//! binary and JSON interchange formats.
//!
//! A sample's time (an IEEE single) and value (an IEEE double) are held as
//! their bit patterns, so that every byte the formats read or write is
//! exactly determined here.
use vstd::prelude::*;
use crate::binary_format::{
    binary_image, decode_binary, tracks_at, tracks_bytes, u32_at, magic, read_track, write_track,
    BinaryReader,
};

verus! {

/// A recorded scalar sample: the bit patterns of its time (seconds, single
/// precision) and of its value (double precision).
#[derive(Clone, Copy, Debug, PartialEq, Eq)]
pub struct RecordedSample {
    /// Bit pattern of the absolute time in seconds.
    pub time_bits: u32,
    /// Bit pattern of the recorded value.
    pub value_bits: u64,
}

/// Samples for one recorded animation label.
#[derive(Clone, Debug, PartialEq)]
pub struct RecordedTrack {
    /// Track label.
    pub label: String,
    /// Samples, ordered by time when recorded through [`AnimationRecorder::record`].
    pub samples: Vec<RecordedSample>,
}

/// Error returned when recorder import fails.
#[derive(Clone, Copy, Debug, PartialEq, Eq)]
pub enum RecorderError {
    /// JSON input does not match the recorder export shape.
    InvalidJson,
    /// Binary input has invalid magic or is truncated.
    InvalidBinary,
    /// A binary label was not valid UTF-8.
    InvalidUtf8,
}

impl RecorderError {
    /// The error's message, as its display text.
    pub fn message(&self) -> (text: String)
        ensures
            text@ == match *self {
                RecorderError::InvalidJson => "invalid recorder JSON"@,
                RecorderError::InvalidBinary => "invalid recorder binary"@,
                RecorderError::InvalidUtf8 => "invalid recorder UTF-8"@,
            },
    {
        match self {
            RecorderError::InvalidJson => "invalid recorder JSON".to_owned(),
            RecorderError::InvalidBinary => "invalid recorder binary".to_owned(),
            RecorderError::InvalidUtf8 => "invalid recorder UTF-8".to_owned(),
        }
    }
}

/// The mathematical content of a track: its label and its samples.
pub type TrackModel = (Seq<char>, Seq<RecordedSample>);

impl View for RecordedTrack {
    type V = TrackModel;

    open spec fn view(&self) -> TrackModel {
        (self.label@, self.samples@)
    }
}

/// The tracks' contents, in order.
pub open spec fn tracks_model(tracks: Seq<RecordedTrack>) -> Seq<TrackModel> {
    tracks.map_values(|t: RecordedTrack| t@)
}

/// Captures scalar animation values for later replay or export.
#[derive(Clone, Debug, PartialEq)]
pub struct AnimationRecorder {
    active: bool,
    tracks: Vec<RecordedTrack>,
}

impl View for AnimationRecorder {
    type V = (bool, Seq<TrackModel>);

    closed spec fn view(&self) -> (bool, Seq<TrackModel>) {
        (self.active, tracks_model(self.tracks@))
    }
}

/// Position of a time in IEEE 754 totalOrder (the order of `f32::total_cmp`):
/// non-negative bit patterns keep their value, negative ones map below zero,
/// larger magnitudes further down.
pub open spec fn time_key(bits: u32) -> int {
    if bits < 0x8000_0000 {
        bits as int
    } else {
        -((bits - 0x8000_0000) as int) - 1
    }
}

/// A single-precision bit pattern denotes a finite number (its exponent field
/// is not all ones).
pub open spec fn finite_single(bits: u32) -> bool {
    (bits / 0x80_0000) % 0x100 != 0xff
}

/// A double-precision bit pattern denotes a finite number.
pub open spec fn finite_double(bits: u64) -> bool {
    (bits / 0x10_0000_0000_0000) % 0x800 != 0x7ff
}

/// Times below zero (sign bit set) are recorded as positive zero.
pub open spec fn clamp_time(bits: u32) -> u32 {
    if bits >= 0x8000_0000 { 0 } else { bits }
}

/// Samples strictly increasing in time.
pub open spec fn strictly_sorted(samples: Seq<RecordedSample>) -> bool {
    forall|i: int, j: int|
        0 <= i < j < samples.len() ==> time_key(#[trigger] samples[i].time_bits) < time_key(
            #[trigger] samples[j].time_bits,
        )
}

/// Number of samples strictly earlier than `key`.
pub open spec fn count_before(samples: Seq<RecordedSample>, key: int) -> nat
    decreases samples.len(),
{
    if samples.len() == 0 {
        0
    } else {
        count_before(samples.drop_last(), key) + if time_key(samples.last().time_bits) < key {
            1nat
        } else {
            0nat
        }
    }
}

/// A time-sorted track after recording `s`: a sample at the same time is
/// replaced, otherwise `s` is inserted in time order.
pub open spec fn insert_sample(samples: Seq<RecordedSample>, s: RecordedSample) -> Seq<RecordedSample> {
    let p = count_before(samples, time_key(s.time_bits)) as int;
    if p < samples.len() && time_key(samples[p].time_bits) == time_key(s.time_bits) {
        samples.update(p, s)
    } else {
        samples.insert(p, s)
    }
}

/// Index of the first track with the given label, if any.
pub open spec fn label_index(tracks: Seq<TrackModel>, label: Seq<char>) -> Option<int>
    decreases tracks.len(),
{
    if tracks.len() == 0 {
        None
    } else if tracks[0].0 == label {
        Some(0)
    } else {
        match label_index(tracks.drop_first(), label) {
            Some(i) => Some(i + 1),
            None => None,
        }
    }
}

/// What a sample's insertion does to one track, for every order the track
/// may be in: replacement of a sample at the same time or insertion somewhere.
pub open spec fn placed_somewhere(
    old_samples: Seq<RecordedSample>,
    new_samples: Seq<RecordedSample>,
    s: RecordedSample,
) -> bool {
    ||| exists|i: int|
        0 <= i < old_samples.len() && time_key(old_samples[i].time_bits) == time_key(s.time_bits)
            && new_samples == old_samples.update(i, s)
    ||| exists|i: int| 0 <= i <= old_samples.len() && new_samples == old_samples.insert(i, s)
}

/// The sample that `record` stores, when it stores one.
pub open spec fn stored_sample(time_bits: u32, value_bits: u64) -> RecordedSample {
    RecordedSample { time_bits: clamp_time(time_bits), value_bits }
}

/// Whether `record` stores anything.
pub open spec fn accepts(active: bool, time_bits: u32, value_bits: u64) -> bool {
    active && finite_single(time_bits) && finite_double(value_bits)
}

/// Times never decrease along the track.
pub open spec fn time_ordered(samples: Seq<RecordedSample>) -> bool {
    forall|i: int, j: int|
        0 <= i < j < samples.len() ==> time_key(#[trigger] samples[i].time_bits) <= time_key(
            #[trigger] samples[j].time_bits,
        )
}

/// Number of samples at or before `key`.
pub open spec fn count_not_after(samples: Seq<RecordedSample>, key: int) -> nat
    decreases samples.len(),
{
    if samples.len() == 0 {
        0
    } else {
        count_not_after(samples.drop_last(), key) + if time_key(samples.last().time_bits) <= key {
            1nat
        } else {
            0nat
        }
    }
}

/// `samples` stably sorted by time: each sample in turn goes after every
/// earlier one whose time is not later, so samples at equal times keep their
/// order.
pub open spec fn time_sorted(samples: Seq<RecordedSample>) -> Seq<RecordedSample>
    decreases samples.len(),
{
    if samples.len() == 0 {
        Seq::empty()
    } else {
        let sorted = time_sorted(samples.drop_last());
        sorted.insert(
            count_not_after(sorted, time_key(samples.last().time_bits)) as int,
            samples.last(),
        )
    }
}

proof fn lemma_count_not_after_ordered(samples: Seq<RecordedSample>, key: int, p: int)
    requires
        0 <= p <= samples.len(),
        forall|j: int| 0 <= j < p ==> time_key(#[trigger] samples[j].time_bits) <= key,
        forall|j: int| p <= j < samples.len() ==> time_key(#[trigger] samples[j].time_bits) > key,
    ensures
        count_not_after(samples, key) == p,
    decreases samples.len(),
{
    if samples.len() > 0 {
        let init = samples.drop_last();
        if p == samples.len() {
            assert forall|j: int| 0 <= j < p - 1 implies time_key(#[trigger] init[j].time_bits) <= key by {
                assert(init[j] == samples[j]);
            }
            lemma_count_not_after_ordered(init, key, p - 1);
        } else {
            assert forall|j: int| 0 <= j < p implies time_key(#[trigger] init[j].time_bits) <= key by {
                assert(init[j] == samples[j]);
            }
            assert forall|j: int| p <= j < init.len() implies time_key(#[trigger] init[j].time_bits) > key by {
                assert(init[j] == samples[j]);
            }
            lemma_count_not_after_ordered(init, key, p);
        }
    }
}

proof fn lemma_insert_ordered(sorted: Seq<RecordedSample>, s: RecordedSample, p: int)
    requires
        time_ordered(sorted),
        0 <= p <= sorted.len(),
        forall|j: int| 0 <= j < p ==> time_key(#[trigger] sorted[j].time_bits) <= time_key(s.time_bits),
        forall|j: int| p <= j < sorted.len() ==> time_key(#[trigger] sorted[j].time_bits) > time_key(
            s.time_bits,
        ),
    ensures
        time_ordered(sorted.insert(p, s)),
{
    let r = sorted.insert(p, s);
    assert forall|i: int, j: int| 0 <= i < j < r.len() implies time_key(#[trigger] r[i].time_bits)
        <= time_key(#[trigger] r[j].time_bits) by {
        if i < p {
            assert(r[i] == sorted[i]);
            if j > p {
                assert(r[j] == sorted[j - 1]);
            }
        } else if i == p {
            assert(r[j] == sorted[j - 1]);
        } else {
            assert(r[i] == sorted[i - 1]);
            assert(r[j] == sorted[j - 1]);
        }
    }
}

/// Where a sample goes in a time-ordered run: after every sample not later than it.
fn insertion_point(sorted: &Vec<RecordedSample>, key: i64) -> (p: usize)
    requires
        time_ordered(sorted@),
    ensures
        p == count_not_after(sorted@, key as int),
        p <= sorted@.len(),
        forall|j: int| 0 <= j < p ==> time_key(#[trigger] sorted@[j].time_bits) <= key,
        forall|j: int| p <= j < sorted@.len() ==> time_key(#[trigger] sorted@[j].time_bits) > key,
{
    let mut j = sorted.len();
    while j > 0 && key_of(sorted[j - 1].time_bits) > key
        invariant
            j <= sorted@.len(),
            time_ordered(sorted@),
            forall|i: int| j <= i < sorted@.len() ==> time_key(#[trigger] sorted@[i].time_bits) > key,
        decreases j,
    {
        j -= 1;
    }
    proof {
        if j > 0 {
            assert forall|i: int| 0 <= i < j implies time_key(#[trigger] sorted@[i].time_bits) <= key by {
                assert(time_key(sorted@[i].time_bits) <= time_key(sorted@[j - 1].time_bits));
            }
        }
        lemma_count_not_after_ordered(sorted@, key as int, j as int);
    }
    j
}

/// Stably sort samples by time.
fn sort_by_time(samples: &Vec<RecordedSample>) -> (out: Vec<RecordedSample>)
    ensures
        out@ == time_sorted(samples@),
        time_ordered(out@),
{
    let mut out: Vec<RecordedSample> = Vec::new();
    let mut i: usize = 0;
    while i < samples.len()
        invariant
            i <= samples@.len(),
            out@ == time_sorted(samples@.take(i as int)),
            time_ordered(out@),
        decreases samples@.len() - i,
    {
        let s = samples[i];
        let p = insertion_point(&out, key_of(s.time_bits));
        proof {
            lemma_insert_ordered(out@, s, p as int);
            let taken = samples@.take(i + 1);
            assert(taken.drop_last() =~= samples@.take(i as int));
            assert(taken.last() == s);
        }
        out.insert(p, s);
        i += 1;
    }
    assert(samples@.take(i as int) =~= samples@);
    out
}

proof fn lemma_count_before_split(samples: Seq<RecordedSample>, key: int)
    requires
        strictly_sorted(samples),
    ensures
        count_before(samples, key) <= samples.len(),
        forall|j: int|
            0 <= j < count_before(samples, key) ==> time_key(#[trigger] samples[j].time_bits) < key,
        forall|j: int|
            count_before(samples, key) <= j < samples.len() ==> time_key(
                #[trigger] samples[j].time_bits,
            ) >= key,
    decreases samples.len(),
{
    if samples.len() > 0 {
        let init = samples.drop_last();
        assert forall|i: int, j: int|
            0 <= i < j < init.len() implies time_key(#[trigger] init[i].time_bits) < time_key(
            #[trigger] init[j].time_bits,
        ) by {
            assert(init[i] == samples[i] && init[j] == samples[j]);
        }
        lemma_count_before_split(init, key);
        let n = samples.len() - 1;
        if time_key(samples.last().time_bits) < key {
            assert forall|j: int| 0 <= j < n implies time_key(#[trigger] init[j].time_bits) < key by {
                assert(time_key(samples[j].time_bits) < time_key(samples[n].time_bits));
            }
            if count_before(init, key) < n {
                let c = count_before(init, key) as int;
                assert(time_key(init[c].time_bits) < key);
            }
        }
        assert forall|j: int|
            0 <= j < count_before(samples, key) implies time_key(#[trigger] samples[j].time_bits) < key by {
            if j < n {
                assert(init[j] == samples[j]);
            }
        }
        assert forall|j: int|
            count_before(samples, key) <= j < samples.len() implies time_key(
            #[trigger] samples[j].time_bits,
        ) >= key by {
            if j < n {
                assert(init[j] == samples[j]);
            }
        }
    }
}

/// Recording into a track whose times strictly increase keeps them strictly
/// increasing; the recorded sample is then in the track, and every sample at
/// another time stays.
pub proof fn law_record_keeps_track_sorted(samples: Seq<RecordedSample>, s: RecordedSample)
    requires
        strictly_sorted(samples),
    ensures
        strictly_sorted(insert_sample(samples, s)),
        insert_sample(samples, s).contains(s),
        forall|x: RecordedSample|
            samples.contains(x) && time_key(x.time_bits) != time_key(s.time_bits) ==> insert_sample(
                samples,
                s,
            ).contains(x),
        insert_sample(samples, s).len() == samples.len() + if exists|i: int|
            0 <= i < samples.len() && time_key(samples[i].time_bits) == time_key(s.time_bits) {
            0int
        } else {
            1int
        },
{
    let k = time_key(s.time_bits);
    lemma_count_before_split(samples, k);
    let p = count_before(samples, k) as int;
    let r = insert_sample(samples, s);
    if p < samples.len() && time_key(samples[p].time_bits) == k {
        assert(r == samples.update(p, s));
        assert forall|i: int, j: int| 0 <= i < j < r.len() implies time_key(#[trigger] r[i].time_bits)
            < time_key(#[trigger] r[j].time_bits) by {
            assert(time_key(samples[i].time_bits) < time_key(samples[j].time_bits));
        }
        assert(r[p] == s);
        assert forall|x: RecordedSample|
            samples.contains(x) && time_key(x.time_bits) != k implies r.contains(x) by {
            let i = choose|i: int| 0 <= i < samples.len() && samples[i] == x;
            assert(r[i] == x);
        }
    } else {
        assert(r == samples.insert(p, s));
        assert forall|i: int, j: int| 0 <= i < j < r.len() implies time_key(#[trigger] r[i].time_bits)
            < time_key(#[trigger] r[j].time_bits) by {
            if i < p {
                assert(r[i] == samples[i]);
                if j > p {
                    assert(r[j] == samples[j - 1]);
                }
            } else if i == p {
                assert(r[j] == samples[j - 1]);
            } else {
                assert(r[i] == samples[i - 1]);
                assert(r[j] == samples[j - 1]);
            }
        }
        assert(r[p] == s);
        assert forall|x: RecordedSample|
            samples.contains(x) && time_key(x.time_bits) != k implies r.contains(x) by {
            let i = choose|i: int| 0 <= i < samples.len() && samples[i] == x;
            if i < p {
                assert(r[i] == x);
            } else {
                assert(r[i + 1] == x);
            }
        }
        assert forall|i: int| 0 <= i < samples.len() implies time_key(samples[i].time_bits) != k by {
            if i < p {
            } else if i > p {
                assert(time_key(samples[i].time_bits) > time_key(samples[p].time_bits));
            }
        }
    }
}

/// Stable sorting by time gives a time-ordered track holding the same samples.
pub proof fn law_time_sorted(samples: Seq<RecordedSample>)
    ensures
        time_ordered(time_sorted(samples)),
        time_sorted(samples).to_multiset() == samples.to_multiset(),
    decreases samples.len(),
{
    if samples.len() > 0 {
        let init = samples.drop_last();
        law_time_sorted(init);
        let sorted = time_sorted(init);
        let k = time_key(samples.last().time_bits);
        lemma_count_not_after_split(sorted, k);
        let p = count_not_after(sorted, k) as int;
        lemma_insert_ordered(sorted, samples.last(), p);
        vstd::seq_lib::lemma_multiset_commutative(init, seq![samples.last()]);
        assert(init + seq![samples.last()] =~= samples);
        assert(sorted.insert(p, samples.last()) =~= sorted.subrange(0, p) + seq![samples.last()]
            + sorted.subrange(p, sorted.len() as int));
        vstd::seq_lib::lemma_multiset_commutative(sorted.subrange(0, p), seq![samples.last()]);
        vstd::seq_lib::lemma_multiset_commutative(
            sorted.subrange(0, p) + seq![samples.last()],
            sorted.subrange(p, sorted.len() as int),
        );
        vstd::seq_lib::lemma_multiset_commutative(sorted.subrange(0, p), sorted.subrange(p, sorted.len() as int));
        assert(sorted.subrange(0, p) + sorted.subrange(p, sorted.len() as int) =~= sorted);
    } else {
        assert(time_sorted(samples) =~= samples);
    }
}

proof fn lemma_count_not_after_split(samples: Seq<RecordedSample>, key: int)
    requires
        time_ordered(samples),
    ensures
        count_not_after(samples, key) <= samples.len(),
        forall|j: int|
            0 <= j < count_not_after(samples, key) ==> time_key(#[trigger] samples[j].time_bits) <= key,
        forall|j: int|
            count_not_after(samples, key) <= j < samples.len() ==> time_key(
                #[trigger] samples[j].time_bits,
            ) > key,
    decreases samples.len(),
{
    if samples.len() > 0 {
        let init = samples.drop_last();
        assert forall|i: int, j: int|
            0 <= i < j < init.len() implies time_key(#[trigger] init[i].time_bits) <= time_key(
            #[trigger] init[j].time_bits,
        ) by {
            assert(init[i] == samples[i] && init[j] == samples[j]);
        }
        lemma_count_not_after_split(init, key);
        let n = samples.len() - 1;
        if time_key(samples.last().time_bits) <= key {
            assert forall|j: int| 0 <= j < n implies time_key(#[trigger] init[j].time_bits) <= key by {
                assert(time_key(samples[j].time_bits) <= time_key(samples[n].time_bits));
            }
            if count_not_after(init, key) < n {
                let c = count_not_after(init, key) as int;
                assert(time_key(init[c].time_bits) <= key);
            }
        }
        assert forall|j: int|
            0 <= j < count_not_after(samples, key) implies time_key(#[trigger] samples[j].time_bits) <= key by {
            if j < n {
                assert(init[j] == samples[j]);
            }
        }
        assert forall|j: int|
            count_not_after(samples, key) <= j < samples.len() implies time_key(
            #[trigger] samples[j].time_bits,
        ) > key by {
            if j < n {
                assert(init[j] == samples[j]);
            }
        }
    }
}

fn key_of(bits: u32) -> (k: i64)
    ensures
        k == time_key(bits),
{
    if bits < 0x8000_0000 {
        bits as i64
    } else {
        -((bits - 0x8000_0000) as i64) - 1
    }
}

/// Index of the sample at time `key`, or where such a sample would go.
fn search_time(samples: &Vec<RecordedSample>, key: i64) -> (res: Result<usize, usize>)
    ensures
        match res {
            Ok(i) => i < samples@.len() && time_key(samples@[i as int].time_bits) == key,
            Err(i) => i <= samples@.len(),
        },
        strictly_sorted(samples@) ==> match res {
            Ok(i) => i == count_before(samples@, key as int),
            Err(i) => i == count_before(samples@, key as int) && (i == samples@.len() || time_key(
                samples@[i as int].time_bits,
            ) != key),
        },
{
    let mut lo: usize = 0;
    let mut hi: usize = samples.len();
    while lo < hi
        invariant
            lo <= hi <= samples@.len(),
            strictly_sorted(samples@) ==> forall|j: int|
                0 <= j < lo ==> time_key(#[trigger] samples@[j].time_bits) < key,
            strictly_sorted(samples@) ==> forall|j: int|
                hi <= j < samples@.len() ==> time_key(#[trigger] samples@[j].time_bits) > key,
        decreases hi - lo,
    {
        let mid = lo + (hi - lo) / 2;
        let k = key_of(samples[mid].time_bits);
        if k < key {
            lo = mid + 1;
        } else if k > key {
            hi = mid;
        } else {
            proof {
                if strictly_sorted(samples@) {
                    lemma_count_before_sorted(samples@, key as int, mid as int);
                }
            }
            return Ok(mid);
        }
    }
    proof {
        if strictly_sorted(samples@) {
            lemma_count_before_sorted(samples@, key as int, lo as int);
        }
    }
    Err(lo)
}

/// In a sorted track, the samples before index `p` are exactly those earlier than `key`.
proof fn lemma_count_before_sorted(samples: Seq<RecordedSample>, key: int, p: int)
    requires
        strictly_sorted(samples),
        0 <= p <= samples.len(),
        forall|j: int| 0 <= j < p ==> time_key(#[trigger] samples[j].time_bits) < key,
        forall|j: int| p <= j < samples.len() ==> time_key(#[trigger] samples[j].time_bits) >= key,
    ensures
        count_before(samples, key) == p,
    decreases samples.len(),
{
    if samples.len() > 0 {
        let init = samples.drop_last();
        if p == samples.len() {
            assert forall|i: int, j: int|
                0 <= i < j < init.len() implies time_key(#[trigger] init[i].time_bits) < time_key(
                #[trigger] init[j].time_bits,
            ) by {
                assert(init[i] == samples[i] && init[j] == samples[j]);
            }
            assert forall|j: int| 0 <= j < p - 1 implies time_key(#[trigger] init[j].time_bits) < key by {
                assert(init[j] == samples[j]);
            }
            lemma_count_before_sorted(init, key, p - 1);
        } else {
            assert forall|i: int, j: int|
                0 <= i < j < init.len() implies time_key(#[trigger] init[i].time_bits) < time_key(
                #[trigger] init[j].time_bits,
            ) by {
                assert(init[i] == samples[i] && init[j] == samples[j]);
            }
            assert forall|j: int| 0 <= j < p implies time_key(#[trigger] init[j].time_bits) < key by {
                assert(init[j] == samples[j]);
            }
            assert forall|j: int| p <= j < init.len() implies time_key(#[trigger] init[j].time_bits) >= key by {
                assert(init[j] == samples[j]);
            }
            lemma_count_before_sorted(init, key, p);
        }
    }
}

impl AnimationRecorder {
    /// Create an inactive empty recorder.
    pub fn new() -> (r: Self)
        ensures
            r@ == (false, Seq::<TrackModel>::empty()),
    {
        let r = AnimationRecorder { active: false, tracks: Vec::new() };
        proof {
            assert(tracks_model(r.tracks@) =~= Seq::<TrackModel>::empty());
        }
        r
    }

    /// Start accepting samples.
    pub fn start(&mut self)
        ensures
            final(self)@ == (true, old(self)@.1),
    {
        self.active = true;
    }

    /// Stop accepting samples.
    pub fn stop(&mut self)
        ensures
            final(self)@ == (false, old(self)@.1),
    {
        self.active = false;
    }

    /// Return whether recording is active.
    pub fn is_recording(&self) -> (b: bool)
        ensures
            b == self@.0,
    {
        self.active
    }

    /// Remove all recorded tracks.
    pub fn clear(&mut self)
        ensures
            final(self)@ == (old(self)@.0, Seq::<TrackModel>::empty()),
    {
        self.tracks.clear();
        proof {
            assert(tracks_model(self.tracks@) =~= Seq::<TrackModel>::empty());
        }
    }

    /// Recorded tracks.
    pub fn tracks(&self) -> (t: &Vec<RecordedTrack>)
        ensures
            tracks_model(t@) == self@.1,
    {
        &self.tracks
    }

    /// Record one sample if the recorder is active and both time and value are
    /// finite. A negative time is recorded as zero. The sample goes to the first
    /// track with the label (a new track is appended when there is none),
    /// replacing a sample at the same time or else inserted in time order.
    pub fn record(&mut self, label: &str, time_bits: u32, value_bits: u64)
        ensures
            !accepts(old(self)@.0, time_bits, value_bits) ==> final(self)@ == old(self)@,
            accepts(old(self)@.0, time_bits, value_bits) ==> {
                let s = stored_sample(time_bits, value_bits);
                &&& final(self)@.0 == old(self)@.0
                &&& match label_index(old(self)@.1, label@) {
                    None => final(self)@.1 == old(self)@.1.push((label@, seq![s])),
                    Some(i) => {
                        &&& final(self)@.1 == old(self)@.1.update(i, (label@, final(self)@.1[i].1))
                        &&& placed_somewhere(old(self)@.1[i].1, final(self)@.1[i].1, s)
                        &&& strictly_sorted(old(self)@.1[i].1) ==> final(self)@.1[i].1
                            == insert_sample(old(self)@.1[i].1, s)
                    },
                }
            },
    {
        if !self.active || (time_bits / 0x80_0000) % 0x100 == 0xff
            || (value_bits / 0x10_0000_0000_0000) % 0x800 == 0x7ff {
            return ;
        }
        let sample = RecordedSample {
            time_bits: if time_bits >= 0x8000_0000 { 0 } else { time_bits },
            value_bits,
        };
        let ghost old_model = self@.1;
        let found = self.find_track(label);
        let idx = match found {
            Some(i) => i,
            None => {
                self.tracks.push(RecordedTrack { label: label.to_owned(), samples: Vec::new() });
                self.tracks.len() - 1
            },
        };
        assert(idx < self.tracks@.len());
        let ghost before = self.tracks@[idx as int].samples@;
        let key = key_of(sample.time_bits);
        let ghost mut pos: int = 0;
        let ghost mut replaced = false;
        match search_time(&self.tracks[idx].samples, key) {
            Ok(p) => {
                proof {
                    pos = p as int;
                    replaced = true;
                }
                self.tracks[idx].samples.set(p, sample);
            },
            Err(p) => {
                proof {
                    pos = p as int;
                }
                self.tracks[idx].samples.insert(p, sample);
            },
        }
        proof {
            let after = self.tracks@[idx as int].samples@;
            if replaced {
                assert(after == before.update(pos, sample));
            } else {
                assert(after == before.insert(pos, sample));
            }
            assert(placed_somewhere(before, after, sample));
            let ts = if found is Some { old_model } else { old_model.push((label@, seq![])) };
            assert(tracks_model(self.tracks@) =~= ts.update(idx as int, (label@, after)));
            if found is None {
                assert(after =~= seq![sample]);
                assert(tracks_model(self.tracks@) =~= old_model.push((label@, seq![sample])));
            } else {
                assert(old_model[idx as int].1 == before);
                assert(tracks_model(self.tracks@)[idx as int] == (label@, after));
                assert(self@.1 == old_model.update(idx as int, (label@, self@.1[idx as int].1)));
                if strictly_sorted(before) {
                    assert(after == insert_sample(before, sample));
                }
            }
        }
    }

    /// Export recorded data in the compact binary format.
    pub fn export_binary(&self) -> (out: Vec<u8>)
        ensures
            out@ == binary_image(self@.1),
    {
        let mut out: Vec<u8> = vec![0x41u8, 0x4e, 0x49, 0x4d, 0x52, 0x45, 0x43, 0x31];
        let mut count = vstd::bytes::u32_to_le_bytes(self.tracks.len() as u32);
        out.append(&mut count);
        let ghost head = out@;
        let ghost model = self@.1;
        let mut i: usize = 0;
        while i < self.tracks.len()
            invariant
                i <= self.tracks@.len(),
                model == tracks_model(self.tracks@),
                out@ == head + tracks_bytes(model.take(i as int)),
            decreases self.tracks@.len() - i,
        {
            write_track(&self.tracks[i], &mut out);
            proof {
                assert(model.take(i + 1).drop_last() =~= model.take(i as int));
                assert(model.take(i + 1).last() == self.tracks@[i as int]@);
            }
            i += 1;
        }
        assert(model.take(i as int) =~= model);
        assert(head =~= magic() + vstd::bytes::spec_u32_to_le_bytes(model.len() as u32));
        out
    }

    /// Import data in the binary format. Bytes after the last track are
    /// ignored; the imported recorder is inactive.
    pub fn import_binary(bytes: &[u8]) -> (res: Result<Self, RecorderError>)
        ensures
            match decode_binary(bytes@) {
                Ok(ts) => (res matches Ok(r) && r@ == (false, ts)),
                Err(e) => res == Err::<Self, RecorderError>(e),
            },
    {
        let mut reader = BinaryReader::new(bytes);
        let magic_bytes: [u8; 8] = [0x41u8, 0x4e, 0x49, 0x4d, 0x52, 0x45, 0x43, 0x31];
        reader.expect_magic(magic_bytes.as_slice())?;
        assert(magic_bytes@ =~= magic());
        let track_count = reader.u32()? as usize;
        let ghost b = bytes@;
        assert(decode_binary(b) == tracks_at(b, 12, track_count as nat));
        let mut tracks: Vec<RecordedTrack> = Vec::new();
        let mut k: usize = 0;
        while k < track_count
            invariant
                reader.bytes@ == b,
                reader.pos <= b.len(),
                k <= track_count,
                track_count == u32_at(b, 8),
                b == bytes@,
                decode_binary(b) == tracks_at(b, 12, track_count as nat),
                b.len() >= 12,
                b.subrange(0, 8) == magic(),
                tracks_at(b, 12, track_count as nat) == match tracks_at(b, reader.pos as int, (track_count - k) as nat) {
                    Ok(rest) => Ok(tracks_model(tracks@) + rest),
                    Err(e) => Err(e),
                },
            decreases track_count - k,
        {
            let ghost at = reader.pos as int;
            let ghost m = (track_count - k) as nat;
            let track = match read_track(&mut reader) {
                Ok(t) => t,
                Err(e) => {
                    assert(tracks_at(b, at, m) == Err::<Seq<TrackModel>, RecorderError>(e));
                    return Err(e);
                },
            };
            proof {
                let prev = tracks_model(tracks@);
                assert(tracks_model(tracks@.push(track)) =~= prev.push(track@));
                match tracks_at(b, reader.pos as int, (m - 1) as nat) {
                    Ok(rest) => {
                        assert(tracks_at(b, at, m) == Ok::<Seq<TrackModel>, RecorderError>(seq![track@] + rest));
                        assert(prev + (seq![track@] + rest) =~= prev.push(track@) + rest);
                    },
                    Err(e) => {
                        assert(tracks_at(b, at, m) == Err::<Seq<TrackModel>, RecorderError>(e));
                    },
                }
            }
            tracks.push(track);
            k += 1;
        }
        Ok(AnimationRecorder { active: false, tracks })
    }

    /// An inactive recorder holding `tracks`, each track's samples stably
    /// sorted by time (how imported JSON frames are arranged).
    pub fn from_unsorted_tracks(tracks: Vec<RecordedTrack>) -> (r: Self)
        ensures
            r@.0 == false,
            r@.1.len() == tracks@.len(),
            forall|i: int|
                0 <= i < tracks@.len() ==> #[trigger] r@.1[i] == (
                    tracks@[i].label@,
                    time_sorted(tracks@[i].samples@),
                ),
    {
        let mut sorted_tracks: Vec<RecordedTrack> = Vec::new();
        let mut i: usize = 0;
        while i < tracks.len()
            invariant
                i <= tracks@.len(),
                sorted_tracks@.len() == i,
                forall|j: int|
                    0 <= j < i ==> #[trigger] sorted_tracks@[j]@ == (
                        tracks@[j].label@,
                        time_sorted(tracks@[j].samples@),
                    ),
            decreases tracks@.len() - i,
        {
            let samples = sort_by_time(&tracks[i].samples);
            let label = tracks[i].label.clone();
            sorted_tracks.push(RecordedTrack { label, samples });
            i += 1;
        }
        AnimationRecorder { active: false, tracks: sorted_tracks }
    }

    /// Index of the first track labelled `label`, if any.
    pub fn find_track(&self, label: &str) -> (res: Option<usize>)
        ensures
            res is None <==> label_index(self@.1, label@) is None,
            res matches Some(i) ==> label_index(self@.1, label@) == Some(i as int) && i
                < self@.1.len() && self@.1[i as int].0 == label@,
    {
        let wanted: String = label.to_owned();
        let mut i: usize = 0;
        while i < self.tracks.len()
            invariant
                i <= self.tracks@.len(),
                wanted@ == label@,
                forall|j: int| 0 <= j < i ==> self.tracks@[j].label@ != label@,
            decreases self.tracks@.len() - i,
        {
            if self.tracks[i].label == wanted {
                proof {
                    lemma_label_index_first(self@.1, label@, i as int);
                }
                return Some(i);
            }
            i += 1;
        }
        proof {
            lemma_label_index_none(self@.1, label@);
        }
        None
    }
}

proof fn lemma_label_index_first(tracks: Seq<TrackModel>, label: Seq<char>, i: int)
    requires
        0 <= i < tracks.len(),
        tracks[i].0 == label,
        forall|j: int| 0 <= j < i ==> tracks[j].0 != label,
    ensures
        label_index(tracks, label) == Some(i),
    decreases i,
{
    if i > 0 {
        let rest = tracks.drop_first();
        assert forall|j: int| 0 <= j < i - 1 implies rest[j].0 != label by {
            assert(rest[j] == tracks[j + 1]);
        }
        lemma_label_index_first(rest, label, i - 1);
    }
}

proof fn lemma_label_index_none(tracks: Seq<TrackModel>, label: Seq<char>)
    requires
        forall|j: int| 0 <= j < tracks.len() ==> tracks[j].0 != label,
    ensures
        label_index(tracks, label) is None,
    decreases tracks.len(),
{
    if tracks.len() > 0 {
        let rest = tracks.drop_first();
        assert forall|j: int| 0 <= j < rest.len() implies rest[j].0 != label by {
            assert(rest[j] == tracks[j + 1]);
        }
        lemma_label_index_none(rest, label);
    }
}

/// No two tracks share a label.
pub open spec fn labels_distinct(tracks: Seq<TrackModel>) -> bool {
    forall|i: int, j: int|
        0 <= i < j < tracks.len() ==> #[trigger] tracks[i].0 != #[trigger] tracks[j].0
}

proof fn lemma_label_index_found(tracks: Seq<TrackModel>, label: Seq<char>)
    ensures
        label_index(tracks, label) matches Some(i) ==> 0 <= i < tracks.len() && tracks[i].0 == label,
        label_index(tracks, label) is None ==> forall|j: int|
            0 <= j < tracks.len() ==> #[trigger] tracks[j].0 != label,
    decreases tracks.len(),
{
    if tracks.len() > 0 {
        let rest = tracks.drop_first();
        lemma_label_index_found(rest, label);
        if tracks[0].0 != label {
            assert forall|j: int| 0 < j < tracks.len() implies tracks[j] == rest[j - 1] by {}
        }
    }
}

/// Recording keeps labels distinct: a sample for a label already present goes
/// to that label's track, and a new label gets a new track.
pub proof fn law_record_keeps_labels_distinct(
    tracks: Seq<TrackModel>,
    label: Seq<char>,
    samples: Seq<RecordedSample>,
)
    requires
        labels_distinct(tracks),
    ensures
        labels_distinct(
            match label_index(tracks, label) {
                None => tracks.push((label, samples)),
                Some(i) => tracks.update(i, (label, samples)),
            },
        ),
{
    lemma_label_index_found(tracks, label);
    let r = match label_index(tracks, label) {
        None => tracks.push((label, samples)),
        Some(i) => tracks.update(i, (label, samples)),
    };
    assert forall|i: int, j: int| 0 <= i < j < r.len() implies #[trigger] r[i].0 != #[trigger] r[j].0 by {
        match label_index(tracks, label) {
            None => {
                if j == tracks.len() {
                    assert(r[i] == tracks[i]);
                } else {
                    assert(r[i] == tracks[i] && r[j] == tracks[j]);
                }
            },
            Some(k) => {
                assert(tracks[i].0 != tracks[j].0);
            },
        }
    }
}

} // verus!
