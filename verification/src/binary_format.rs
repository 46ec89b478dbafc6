//! The recorder's compact binary format: the magic `ANIMREC1`, a
//! little-endian `u32` track count, then per track the label's byte length,
//! the label's UTF-8 bytes, the sample count, and each sample's time bits
//! (`u32`) and value bits (`u64`), all little-endian.
use vstd::prelude::*;
use vstd::bytes::{
    spec_u32_from_le_bytes, spec_u32_to_le_bytes, spec_u64_from_le_bytes, spec_u64_to_le_bytes,
    u32_from_le_bytes, u32_to_le_bytes, u64_from_le_bytes, u64_to_le_bytes,
    lemma_auto_spec_u32_to_from_le_bytes, lemma_auto_spec_u64_to_from_le_bytes,
};
use vstd::utf8::{valid_utf8, decode_utf8, encode_utf8};
use vstd::string::StrSliceExecFns;
use crate::recorder::{RecordedSample, RecordedTrack, RecorderError, TrackModel};

verus! {

broadcast use vstd::utf8::encode_utf8_valid_utf8, vstd::utf8::encode_utf8_decode_utf8;

/// The eight bytes `ANIMREC1` that open every export.
pub open spec fn magic() -> Seq<u8> {
    seq![0x41u8, 0x4e, 0x49, 0x4d, 0x52, 0x45, 0x43, 0x31]
}

/// Bytes of one sample: time bits then value bits, little-endian.
pub open spec fn sample_bytes(s: RecordedSample) -> Seq<u8> {
    spec_u32_to_le_bytes(s.time_bits) + spec_u64_to_le_bytes(s.value_bits)
}

/// Bytes of a run of samples, in order.
pub open spec fn samples_bytes(samples: Seq<RecordedSample>) -> Seq<u8>
    decreases samples.len(),
{
    if samples.len() == 0 {
        Seq::empty()
    } else {
        samples_bytes(samples.drop_last()) + sample_bytes(samples.last())
    }
}

/// Bytes of one track: label length, label, sample count, samples.
pub open spec fn track_bytes(t: TrackModel) -> Seq<u8> {
    spec_u32_to_le_bytes(encode_utf8(t.0).len() as u32) + encode_utf8(t.0) + spec_u32_to_le_bytes(
        t.1.len() as u32,
    ) + samples_bytes(t.1)
}

/// Bytes of a run of tracks, in order.
pub open spec fn tracks_bytes(tracks: Seq<TrackModel>) -> Seq<u8>
    decreases tracks.len(),
{
    if tracks.len() == 0 {
        Seq::empty()
    } else {
        tracks_bytes(tracks.drop_last()) + track_bytes(tracks.last())
    }
}

/// The complete binary export of a recorder holding `tracks`.
pub open spec fn binary_image(tracks: Seq<TrackModel>) -> Seq<u8> {
    magic() + spec_u32_to_le_bytes(tracks.len() as u32) + tracks_bytes(tracks)
}

/// Counts and lengths that the format's `u32` fields can hold.
pub open spec fn fits_binary(tracks: Seq<TrackModel>) -> bool {
    &&& tracks.len() <= u32::MAX
    &&& forall|i: int|
        0 <= i < tracks.len() ==> encode_utf8(#[trigger] tracks[i].0).len() <= u32::MAX
            && tracks[i].1.len() <= u32::MAX
}

/// The little-endian `u32` at `pos`.
pub open spec fn u32_at(b: Seq<u8>, pos: int) -> u32 {
    spec_u32_from_le_bytes(b.subrange(pos, pos + 4))
}

/// The little-endian `u64` at `pos`.
pub open spec fn u64_at(b: Seq<u8>, pos: int) -> u64 {
    spec_u64_from_le_bytes(b.subrange(pos, pos + 8))
}

/// `n` samples stored from `pos` on.
pub open spec fn samples_at(b: Seq<u8>, pos: int, n: nat) -> Seq<RecordedSample> {
    Seq::new(
        n,
        |i: int| RecordedSample { time_bits: u32_at(b, pos + 12 * i), value_bits: u64_at(b, pos + 12 * i + 4) },
    )
}

/// The track stored at `pos` and the position after it; a short read is
/// `InvalidBinary`, a label that is not UTF-8 is `InvalidUtf8`.
pub open spec fn track_at(b: Seq<u8>, pos: int) -> Result<(TrackModel, int), RecorderError> {
    if pos + 4 > b.len() {
        Err(RecorderError::InvalidBinary)
    } else {
        let label_start = pos + 4;
        let label_end = label_start + u32_at(b, pos);
        if label_end > b.len() {
            Err(RecorderError::InvalidBinary)
        } else if !valid_utf8(b.subrange(label_start, label_end)) {
            Err(RecorderError::InvalidUtf8)
        } else if label_end + 4 > b.len() {
            Err(RecorderError::InvalidBinary)
        } else {
            let n = u32_at(b, label_end) as nat;
            let first = label_end + 4;
            if first + 12 * n > b.len() {
                Err(RecorderError::InvalidBinary)
            } else {
                Ok(
                    (
                        (decode_utf8(b.subrange(label_start, label_end)), samples_at(b, first, n)),
                        first + 12 * n,
                    ),
                )
            }
        }
    }
}

/// `count` tracks stored one after another from `pos` on.
pub open spec fn tracks_at(b: Seq<u8>, pos: int, count: nat) -> Result<Seq<TrackModel>, RecorderError>
    decreases count,
{
    if count == 0 {
        Ok(Seq::empty())
    } else {
        match track_at(b, pos) {
            Err(e) => Err(e),
            Ok((t, next)) => match tracks_at(b, next, (count - 1) as nat) {
                Err(e) => Err(e),
                Ok(rest) => Ok(seq![t] + rest),
            },
        }
    }
}

/// What importing `b` gives: the tracks, or the first error met. Bytes after
/// the last track are ignored.
pub open spec fn decode_binary(b: Seq<u8>) -> Result<Seq<TrackModel>, RecorderError> {
    if b.len() < 8 || b.subrange(0, 8) != magic() || b.len() < 12 {
        Err(RecorderError::InvalidBinary)
    } else {
        tracks_at(b, 12, u32_at(b, 8) as nat)
    }
}

proof fn lemma_sample_bytes(s: RecordedSample)
    ensures
        sample_bytes(s).len() == 12,
        spec_u32_from_le_bytes(sample_bytes(s).subrange(0, 4)) == s.time_bits,
        spec_u64_from_le_bytes(sample_bytes(s).subrange(4, 12)) == s.value_bits,
{
    lemma_auto_spec_u32_to_from_le_bytes();
    lemma_auto_spec_u64_to_from_le_bytes();
    let a = spec_u32_to_le_bytes(s.time_bits);
    let b = spec_u64_to_le_bytes(s.value_bits);
    assert((a + b).subrange(0, 4) =~= a);
    assert((a + b).subrange(4, 12) =~= b);
}

proof fn lemma_samples_bytes(ss: Seq<RecordedSample>)
    ensures
        samples_bytes(ss).len() == 12 * ss.len(),
        forall|i: int|
            0 <= i < ss.len() ==> samples_bytes(ss).subrange(12 * i, 12 * i + 12) == sample_bytes(
                #[trigger] ss[i],
            ),
    decreases ss.len(),
{
    if ss.len() > 0 {
        let init = ss.drop_last();
        lemma_samples_bytes(init);
        lemma_sample_bytes(ss.last());
        let a = samples_bytes(init);
        let b = sample_bytes(ss.last());
        assert forall|i: int| 0 <= i < ss.len() implies samples_bytes(ss).subrange(12 * i, 12 * i + 12)
            == sample_bytes(#[trigger] ss[i]) by {
            if i < ss.len() - 1 {
                assert(init[i] == ss[i]);
                assert((a + b).subrange(12 * i, 12 * i + 12) =~= a.subrange(12 * i, 12 * i + 12));
            } else {
                assert((a + b).subrange(12 * i, 12 * i + 12) =~= b);
            }
        }
    }
}

proof fn lemma_samples_at(b: Seq<u8>, pos: int, ss: Seq<RecordedSample>)
    requires
        0 <= pos,
        pos + 12 * ss.len() <= b.len(),
        b.subrange(pos, pos + 12 * ss.len()) == samples_bytes(ss),
    ensures
        samples_at(b, pos, ss.len()) == ss,
{
    lemma_samples_bytes(ss);
    assert forall|i: int| 0 <= i < ss.len() implies #[trigger] samples_at(b, pos, ss.len())[i] == ss[i] by {
        lemma_sample_bytes(ss[i]);
        let whole = samples_bytes(ss);
        let piece = whole.subrange(12 * i, 12 * i + 12);
        assert(piece == sample_bytes(ss[i]));
        assert(b.subrange(pos + 12 * i, pos + 12 * i + 4) =~= piece.subrange(0, 4));
        assert(b.subrange(pos + 12 * i + 4, pos + 12 * i + 4 + 8) =~= piece.subrange(4, 12));
    }
    assert(samples_at(b, pos, ss.len()) =~= ss);
}

proof fn lemma_track_at(b: Seq<u8>, pos: int, t: TrackModel)
    requires
        0 <= pos,
        pos + track_bytes(t).len() <= b.len(),
        b.subrange(pos, pos + track_bytes(t).len()) == track_bytes(t),
        encode_utf8(t.0).len() <= u32::MAX,
        t.1.len() <= u32::MAX,
    ensures
        track_at(b, pos) == Ok::<(TrackModel, int), RecorderError>((t, pos + track_bytes(t).len())),
{
    lemma_auto_spec_u32_to_from_le_bytes();
    lemma_samples_bytes(t.1);
    let label = encode_utf8(t.0);
    let ll = label.len() as int;
    let lb = spec_u32_to_le_bytes(label.len() as u32);
    let cb = spec_u32_to_le_bytes(t.1.len() as u32);
    let sb = samples_bytes(t.1);
    let whole = track_bytes(t);
    assert(whole == lb + label + cb + sb);
    let label_start = pos + 4;
    let label_end = label_start + label.len();
    assert(b.subrange(pos, pos + 4) =~= whole.subrange(0, 4));
    assert(whole.subrange(0, 4) =~= lb);
    assert(u32_at(b, pos) == label.len());
    assert(b.subrange(label_start, label_end) =~= whole.subrange(4, 4 + ll));
    assert(whole.subrange(4, 4 + ll) =~= label);
    assert(b.subrange(label_end, label_end + 4) =~= whole.subrange(4 + ll, 8 + ll));
    assert(whole.subrange(4 + ll, 8 + ll) =~= cb);
    assert(u32_at(b, label_end) == t.1.len());
    let first = label_end + 4;
    assert(b.subrange(first, first + 12 * t.1.len()) =~= whole.subrange(8 + ll, whole.len() as int));
    assert(whole.subrange(8 + ll, whole.len() as int) =~= sb);
    lemma_samples_at(b, first, t.1);
}

proof fn lemma_tracks_bytes_front(ts: Seq<TrackModel>)
    requires
        ts.len() > 0,
    ensures
        tracks_bytes(ts) == track_bytes(ts[0]) + tracks_bytes(ts.drop_first()),
    decreases ts.len(),
{
    if ts.len() > 1 {
        let init = ts.drop_last();
        lemma_tracks_bytes_front(init);
        assert(init.drop_first() =~= ts.drop_first().drop_last());
        assert(ts.drop_first().last() == ts.last());
        assert(tracks_bytes(ts) =~= track_bytes(ts[0]) + tracks_bytes(ts.drop_first()));
    } else {
        assert(ts.drop_last() =~= Seq::<TrackModel>::empty());
        assert(ts.drop_first() =~= Seq::<TrackModel>::empty());
        assert(tracks_bytes(ts) =~= track_bytes(ts[0]) + tracks_bytes(ts.drop_first()));
    }
}

proof fn lemma_tracks_at(b: Seq<u8>, pos: int, ts: Seq<TrackModel>)
    requires
        0 <= pos,
        pos + tracks_bytes(ts).len() <= b.len(),
        b.subrange(pos, pos + tracks_bytes(ts).len()) == tracks_bytes(ts),
        fits_binary(ts),
    ensures
        tracks_at(b, pos, ts.len()) == Ok::<Seq<TrackModel>, RecorderError>(ts),
    decreases ts.len(),
{
    if ts.len() > 0 {
        lemma_tracks_bytes_front(ts);
        let first = track_bytes(ts[0]);
        let rest = ts.drop_first();
        let whole = tracks_bytes(ts);
        assert(b.subrange(pos, pos + first.len()) =~= whole.subrange(0, first.len() as int));
        assert(whole.subrange(0, first.len() as int) =~= first);
        lemma_track_at(b, pos, ts[0]);
        let next = pos + first.len();
        assert(b.subrange(next, next + tracks_bytes(rest).len()) =~= whole.subrange(
            first.len() as int,
            whole.len() as int,
        ));
        assert(whole.subrange(first.len() as int, whole.len() as int) =~= tracks_bytes(rest));
        assert forall|i: int| 0 <= i < rest.len() implies encode_utf8(#[trigger] rest[i].0).len() <= u32::MAX
            && rest[i].1.len() <= u32::MAX by {
            assert(rest[i] == ts[i + 1]);
        }
        lemma_tracks_at(b, next, rest);
        assert((ts.len() - 1) as nat == rest.len());
        assert(tracks_at(b, pos, ts.len()) == Ok::<Seq<TrackModel>, RecorderError>(seq![ts[0]] + rest));
        assert(seq![ts[0]] + rest =~= ts);
    } else {
        assert(ts =~= Seq::<TrackModel>::empty());
    }
}

/// Importing an export gives back the exported tracks, whatever bytes follow
/// it, as long as every count and length fits the format's `u32` fields.
pub proof fn law_binary_round_trip(tracks: Seq<TrackModel>, trailing: Seq<u8>)
    requires
        fits_binary(tracks),
    ensures
        decode_binary(binary_image(tracks) + trailing) == Ok::<Seq<TrackModel>, RecorderError>(tracks),
{
    lemma_auto_spec_u32_to_from_le_bytes();
    let count = spec_u32_to_le_bytes(tracks.len() as u32);
    let body = tracks_bytes(tracks);
    let b = binary_image(tracks) + trailing;
    assert(b =~= magic() + count + body + trailing);
    assert(b.subrange(0, 8) =~= magic());
    assert(b.subrange(8, 12) =~= count);
    assert(u32_at(b, 8) == tracks.len());
    assert(b.subrange(12, 12 + body.len() as int) =~= body);
    lemma_tracks_at(b, 12, tracks);
}

/// `String::from_utf8`: succeeds exactly on valid UTF-8, and the string then
/// holds those bytes.
#[verifier::external_body]
fn string_from_utf8(bytes: Vec<u8>) -> (res: Option<String>)
    ensures
        res is Some <==> valid_utf8(bytes@),
        res matches Some(s) ==> encode_utf8(s@) == bytes@,
{
    String::from_utf8(bytes).ok()
}

/// A position in a byte slice, read forward.
pub(crate) struct BinaryReader<'a> {
    pub(crate) bytes: &'a [u8],
    pub(crate) pos: usize,
}

impl<'a> BinaryReader<'a> {
    pub(crate) fn new(bytes: &'a [u8]) -> (r: Self)
        ensures
            r.bytes@ == bytes@,
            r.pos == 0,
    {
        BinaryReader { bytes, pos: 0 }
    }

    /// Read the next `len` bytes, or fail with `InvalidBinary` if fewer remain.
    pub(crate) fn bytes(&mut self, len: usize) -> (res: Result<&'a [u8], RecorderError>)
        requires
            old(self).pos <= old(self).bytes@.len(),
        ensures
            final(self).bytes@ == old(self).bytes@,
            final(self).pos <= final(self).bytes@.len(),
            old(self).pos + len > old(self).bytes@.len() ==> res == Err::<&'a [u8], RecorderError>(
                RecorderError::InvalidBinary,
            ) && final(self).pos == old(self).pos,
            old(self).pos + len <= old(self).bytes@.len() ==> (res matches Ok(s) && s@
                == old(self).bytes@.subrange(old(self).pos as int, old(self).pos + len)
                && final(self).pos == old(self).pos + len),
    {
        if len > self.bytes.len() - self.pos {
            return Err(RecorderError::InvalidBinary);
        }
        let end = self.pos + len;
        let out = &self.bytes[self.pos..end];
        self.pos = end;
        Ok(out)
    }

    /// Check that the next bytes are `magic`.
    pub(crate) fn expect_magic(&mut self, magic: &[u8]) -> (res: Result<(), RecorderError>)
        requires
            old(self).pos <= old(self).bytes@.len(),
        ensures
            final(self).bytes@ == old(self).bytes@,
            final(self).pos <= final(self).bytes@.len(),
            res is Ok <==> old(self).pos + magic@.len() <= old(self).bytes@.len()
                && old(self).bytes@.subrange(old(self).pos as int, old(self).pos + magic@.len())
                == magic@,
            res matches Err(e) ==> e == RecorderError::InvalidBinary,
            res is Ok ==> final(self).pos == old(self).pos + magic@.len(),
    {
        let got = self.bytes(magic.len())?;
        let mut i: usize = 0;
        while i < magic.len()
            invariant
                got@.len() == magic@.len(),
                i <= magic@.len(),
                self.bytes@ == old(self).bytes@,
                self.pos <= self.bytes@.len(),
                got@ == old(self).bytes@.subrange(old(self).pos as int, old(self).pos + magic@.len()),
                forall|j: int| 0 <= j < i ==> got@[j] == magic@[j],
            decreases magic@.len() - i,
        {
            if got[i] != magic[i] {
                assert(got@[i as int] != magic@[i as int]);
                return Err(RecorderError::InvalidBinary);
            }
            i += 1;
        }
        assert(got@ =~= magic@);
        Ok(())
    }

    /// Read a little-endian `u32`.
    pub(crate) fn u32(&mut self) -> (res: Result<u32, RecorderError>)
        requires
            old(self).pos <= old(self).bytes@.len(),
        ensures
            final(self).bytes@ == old(self).bytes@,
            final(self).pos <= final(self).bytes@.len(),
            old(self).pos + 4 > old(self).bytes@.len() ==> res == Err::<u32, RecorderError>(
                RecorderError::InvalidBinary,
            ),
            old(self).pos + 4 <= old(self).bytes@.len() ==> res == Ok::<u32, RecorderError>(
                u32_at(old(self).bytes@, old(self).pos as int),
            ) && final(self).pos == old(self).pos + 4,
    {
        let b = self.bytes(4)?;
        Ok(u32_from_le_bytes(b))
    }

    /// Read the bit pattern of a little-endian single-precision number.
    pub(crate) fn f32_bits(&mut self) -> (res: Result<u32, RecorderError>)
        requires
            old(self).pos <= old(self).bytes@.len(),
        ensures
            final(self).bytes@ == old(self).bytes@,
            final(self).pos <= final(self).bytes@.len(),
            old(self).pos + 4 > old(self).bytes@.len() ==> res == Err::<u32, RecorderError>(
                RecorderError::InvalidBinary,
            ),
            old(self).pos + 4 <= old(self).bytes@.len() ==> res == Ok::<u32, RecorderError>(
                u32_at(old(self).bytes@, old(self).pos as int),
            ) && final(self).pos == old(self).pos + 4,
    {
        let b = self.bytes(4)?;
        Ok(u32_from_le_bytes(b))
    }

    /// Read the bit pattern of a little-endian double-precision number.
    pub(crate) fn f64_bits(&mut self) -> (res: Result<u64, RecorderError>)
        requires
            old(self).pos <= old(self).bytes@.len(),
        ensures
            final(self).bytes@ == old(self).bytes@,
            final(self).pos <= final(self).bytes@.len(),
            old(self).pos + 8 > old(self).bytes@.len() ==> res == Err::<u64, RecorderError>(
                RecorderError::InvalidBinary,
            ),
            old(self).pos + 8 <= old(self).bytes@.len() ==> res == Ok::<u64, RecorderError>(
                u64_at(old(self).bytes@, old(self).pos as int),
            ) && final(self).pos == old(self).pos + 8,
    {
        let b = self.bytes(8)?;
        Ok(u64_from_le_bytes(b))
    }
}

/// Read one track at the reader's position.
pub(crate) fn read_track(reader: &mut BinaryReader) -> (res: Result<RecordedTrack, RecorderError>)
    requires
        old(reader).pos <= old(reader).bytes@.len(),
    ensures
        final(reader).bytes@ == old(reader).bytes@,
        final(reader).pos <= final(reader).bytes@.len(),
        match track_at(old(reader).bytes@, old(reader).pos as int) {
            Err(e) => res == Err::<RecordedTrack, RecorderError>(e),
            Ok((t, next)) => (res matches Ok(track) && track@ == t && final(reader).pos == next),
        },
{
    let ghost b = reader.bytes@;
    let ghost start = reader.pos as int;
    let label_len = reader.u32()? as usize;
    let label_bytes = reader.bytes(label_len)?;
    let label = match string_from_utf8(vstd::slice::slice_to_vec(label_bytes)) {
        Some(s) => s,
        None => return Err(RecorderError::InvalidUtf8),
    };
    let ghost label_end = reader.pos as int;
    let sample_count = reader.u32()? as usize;
    let ghost first = reader.pos as int;
    let mut samples: Vec<RecordedSample> = Vec::new();
    let mut k: usize = 0;
    while k < sample_count
        invariant
            reader.bytes@ == b,
            old(reader).bytes@ == b,
            start == old(reader).pos,
            start + 4 <= b.len(),
            label_end == start + 4 + u32_at(b, start),
            label_end + 4 <= b.len(),
            first == label_end + 4,
            valid_utf8(b.subrange(start + 4, label_end)),
            reader.pos <= b.len(),
            k <= sample_count,
            sample_count == u32_at(b, label_end) as nat,
            reader.pos == first + 12 * k,
            samples@ == samples_at(b, first, k as nat),
        decreases sample_count - k,
    {
        let time_bits = reader.f32_bits()?;
        let value_bits = reader.f64_bits()?;
        samples.push(RecordedSample { time_bits, value_bits });
        k += 1;
        assert(samples@ =~= samples_at(b, first, k as nat));
    }
    proof {
        vstd::utf8::decode_utf8_encode_utf8(b.subrange(start + 4, label_end));
        assert(label@ == decode_utf8(b.subrange(start + 4, label_end)));
    }
    Ok(RecordedTrack { label, samples })
}

/// Append the bytes of one track.
pub(crate) fn write_track(track: &RecordedTrack, out: &mut Vec<u8>)
    ensures
        final(out)@ == old(out)@ + track_bytes(track@),
{
    let mut label = track.label.as_str().as_bytes_vec();
    let mut len_bytes = u32_to_le_bytes(label.len() as u32);
    out.append(&mut len_bytes);
    out.append(&mut label);
    let mut count_bytes = u32_to_le_bytes(track.samples.len() as u32);
    out.append(&mut count_bytes);
    let ghost head = out@;
    let mut j: usize = 0;
    while j < track.samples.len()
        invariant
            j <= track.samples@.len(),
            out@ == head + samples_bytes(track.samples@.take(j as int)),
        decreases track.samples@.len() - j,
    {
        let s = track.samples[j];
        let mut t = u32_to_le_bytes(s.time_bits);
        let mut v = u64_to_le_bytes(s.value_bits);
        out.append(&mut t);
        out.append(&mut v);
        proof {
            let taken = track.samples@.take(j + 1);
            assert(taken.drop_last() =~= track.samples@.take(j as int));
        }
        j += 1;
    }
    assert(track.samples@.take(j as int) =~= track.samples@);
}

} // verus!
