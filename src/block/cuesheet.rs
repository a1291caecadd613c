use vstd::prelude::*;
use vstd::utf8::{decode_utf8, encode_utf8, encode_utf8_decode_utf8, encode_utf8_valid_utf8, valid_utf8};
use crate::error::{Error, ErrorKind, Result};
use crate::text::{append_bytes, decode_range, room, string_bytes};
use crate::util::{
    be_bytes, be_value, lemma_be_bytes_len, lemma_be_round_trip, lemma_pow256_8, read_be,
    u64_to_be_bytes,
};

verus! {

/// A structure representing a cuesheet track index.
#[derive(Clone, Copy, Debug, PartialEq, Eq, Structural)]
pub struct CueSheetTrackIndex {
    /// Offset in samples, relative to the track offset, of the index point.
    pub offset: u64,
    /// The index point number.
    pub point_num: u8,
}

/// A structure representing a cuesheet track.
#[derive(Clone, Debug, PartialEq, Eq)]
pub struct CueSheetTrack {
    /// Track offset in samples, relative to the beginning of the FLAC audio stream. It is the
    /// offset to the first index point of the track.
    pub offset: u64,
    /// Track number.
    pub number: u8,
    /// Track ISRC. This is a 12-digit alphanumeric code.
    pub isrc: String,
    /// The track type.
    pub is_audio: bool,
    /// The pre-emphasis flag.
    pub pre_emphasis: bool,
    /// For all tracks except the lead-out track, one or more track index points.
    pub indices: Vec<CueSheetTrackIndex>,
}

/// The value of a `CueSheetTrack`.
pub ghost struct TrackModel {
    pub offset: u64,
    pub number: u8,
    pub isrc: Seq<char>,
    pub is_audio: bool,
    pub pre_emphasis: bool,
    pub indices: Seq<CueSheetTrackIndex>,
}

impl View for CueSheetTrack {
    type V = TrackModel;

    open spec fn view(&self) -> TrackModel {
        TrackModel {
            offset: self.offset,
            number: self.number,
            isrc: self.isrc@,
            is_audio: self.is_audio,
            pre_emphasis: self.pre_emphasis,
            indices: self.indices@,
        }
    }
}

/// A structure representing a CUESHEET block.
#[derive(Clone, Debug, PartialEq, Eq)]
pub struct CueSheet {
    /// Media catalog number.
    pub catalog_num: String,
    /// The number of lead-in samples.
    pub num_leadin: u64,
    /// True if the cuesheet corresponds to a compact disc.
    pub is_cd: bool,
    /// One or more tracks.
    pub tracks: Vec<CueSheetTrack>,
}

/// The value of a `CueSheet`.
pub ghost struct CueSheetModel {
    pub catalog_num: Seq<char>,
    pub num_leadin: u64,
    pub is_cd: bool,
    pub tracks: Seq<TrackModel>,
}

impl View for CueSheet {
    type V = CueSheetModel;

    open spec fn view(&self) -> CueSheetModel {
        CueSheetModel {
            catalog_num: self.catalog_num@,
            num_leadin: self.num_leadin,
            is_cd: self.is_cd,
            tracks: Seq::new(self.tracks@.len(), |i: int| self.tracks@[i]@),
        }
    }
}

/// `n` zero bytes.
pub open spec fn zeros(n: nat) -> Seq<u8> {
    Seq::new(n, |i: int| 0u8)
}

/// `s` followed by zero bytes up to `n` bytes.
pub open spec fn padded(s: Seq<u8>, n: nat) -> Seq<u8> {
    s + zeros((n - s.len()) as nat)
}

/// `s` without its trailing NUL bytes.
pub open spec fn trim_nul(s: Seq<u8>) -> Seq<u8>
    decreases s.len(),
{
    if s.len() > 0 && s.last() == 0 {
        trim_nul(s.drop_last())
    } else {
        s
    }
}

/// Whether `s` does not end in a NUL byte, so that the padding after it can be told apart.
pub open spec fn no_trailing_nul(s: Seq<u8>) -> bool {
    s.len() == 0 || s.last() != 0
}

/// Whether a track fits its fixed-width fields: an ISRC of at most 12 bytes and at most 255
/// index points.
pub open spec fn track_fits(t: TrackModel) -> bool {
    encode_utf8(t.isrc).len() <= 12 && t.indices.len() <= 255
}

/// Whether a cuesheet fits its fixed-width fields: a catalog number of at most 128 bytes, at
/// most 255 tracks, and tracks that fit theirs.
pub open spec fn cuesheet_fits(m: CueSheetModel) -> bool {
    &&& encode_utf8(m.catalog_num).len() <= 128
    &&& m.tracks.len() <= 255
    &&& forall|i: int| 0 <= i < m.tracks.len() ==> track_fits(#[trigger] m.tracks[i])
}

/// The 12 bytes of a track index point.
pub open spec fn index_bytes(x: CueSheetTrackIndex) -> Seq<u8> {
    be_bytes(x.offset as nat, 8) + seq![x.point_num] + zeros(3)
}

/// The index points of a track, one after another.
pub open spec fn indices_bytes(s: Seq<CueSheetTrackIndex>) -> Seq<u8>
    decreases s.len(),
{
    if s.len() == 0 {
        Seq::empty()
    } else {
        indices_bytes(s.drop_last()) + index_bytes(s.last())
    }
}

/// The flags byte of a track.
pub open spec fn track_flags(t: TrackModel) -> u8 {
    ((if t.is_audio { 0u8 } else { 0x80u8 }) + (if t.pre_emphasis { 0x40u8 } else { 0u8 })) as u8
}

/// The encoded form of a track.
pub open spec fn track_bytes(t: TrackModel) -> Seq<u8> {
    be_bytes(t.offset as nat, 8) + seq![t.number] + padded(encode_utf8(t.isrc), 12) + seq![
        track_flags(t),
    ] + zeros(13) + seq![t.indices.len() as u8] + indices_bytes(t.indices)
}

/// The tracks of a cuesheet, one after another.
pub open spec fn tracks_bytes(s: Seq<TrackModel>) -> Seq<u8>
    decreases s.len(),
{
    if s.len() == 0 {
        Seq::empty()
    } else {
        tracks_bytes(s.drop_last()) + track_bytes(s.last())
    }
}

/// The encoded form of a CUESHEET block.
pub open spec fn cuesheet_bytes(m: CueSheetModel) -> Seq<u8> {
    padded(encode_utf8(m.catalog_num), 128) + be_bytes(m.num_leadin as nat, 8) + seq![
        if m.is_cd { 0x80u8 } else { 0u8 },
    ] + zeros(258) + seq![m.tracks.len() as u8] + tracks_bytes(m.tracks)
}

/// The index point held at `pos`.
pub open spec fn index_at(b: Seq<u8>, pos: int) -> CueSheetTrackIndex {
    CueSheetTrackIndex { offset: be_value(b.subrange(pos, pos + 8)) as u64, point_num: b[pos + 8] }
}

/// The `n` index points held from `pos` on.
pub open spec fn indices_at(b: Seq<u8>, pos: int, n: nat) -> Seq<CueSheetTrackIndex> {
    Seq::new(n, |i: int| index_at(b, pos + 12 * i))
}

/// The track held at `pos` and the position after it, or the kind of error that reading it
/// meets.
pub open spec fn track_at(b: Seq<u8>, pos: int) -> core::result::Result<(TrackModel, int), ErrorKind> {
    if pos + 36 > b.len() {
        Err(ErrorKind::InvalidInput)
    } else if !valid_utf8(trim_nul(b.subrange(pos + 9, pos + 21))) {
        Err(ErrorKind::StringDecoding)
    } else {
        let n = b[pos + 35] as nat;
        let end = pos + 36 + 12 * n;
        if end > b.len() {
            Err(ErrorKind::InvalidInput)
        } else {
            let flags = b[pos + 21];
            Ok(
                (
                    TrackModel {
                        offset: be_value(b.subrange(pos, pos + 8)) as u64,
                        number: b[pos + 8],
                        isrc: decode_utf8(trim_nul(b.subrange(pos + 9, pos + 21))),
                        is_audio: flags & 0x80 == 0,
                        pre_emphasis: flags & 0x40 != 0,
                        indices: indices_at(b, pos + 36, n),
                    },
                    end,
                ),
            )
        }
    }
}

/// The `n` tracks held from `pos` on and the position after them, or the kind of error that
/// reading them meets.
pub open spec fn tracks_at(b: Seq<u8>, pos: int, n: nat) -> core::result::Result<
    (Seq<TrackModel>, int),
    ErrorKind,
>
    decreases n,
{
    if n == 0 {
        Ok((Seq::empty(), pos))
    } else {
        match tracks_at(b, pos, (n - 1) as nat) {
            Err(e) => Err(e),
            Ok((ts, p)) => match track_at(b, p) {
                Err(e) => Err(e),
                Ok((t, q)) => Ok((ts.push(t), q)),
            },
        }
    }
}

/// The CUESHEET block held in `b`, or the kind of error that reading it meets: a record that
/// runs past the end is invalid input, text that is not UTF-8 a decoding error. The NUL
/// padding after the catalog number and after each ISRC is not part of them.
pub open spec fn cuesheet_of(b: Seq<u8>) -> core::result::Result<CueSheetModel, ErrorKind> {
    if b.len() < 396 {
        Err(ErrorKind::InvalidInput)
    } else if !valid_utf8(trim_nul(b.subrange(0, 128))) {
        Err(ErrorKind::StringDecoding)
    } else {
        match tracks_at(b, 396, b[395] as nat) {
            Err(e) => Err(e),
            Ok((ts, _)) => Ok(
                CueSheetModel {
                    catalog_num: decode_utf8(trim_nul(b.subrange(0, 128))),
                    num_leadin: be_value(b.subrange(128, 136)) as u64,
                    is_cd: b[136] & 0x80 != 0,
                    tracks: ts,
                },
            ),
        }
    }
}

proof fn lemma_tracks_error_persists(b: Seq<u8>, pos: int, k: nat, m: nat)
    requires
        k <= m,
        tracks_at(b, pos, k) is Err,
    ensures
        tracks_at(b, pos, m) == tracks_at(b, pos, k),
    decreases m,
{
    if k < m {
        lemma_tracks_error_persists(b, pos, k, (m - 1) as nat);
    }
}

/// Values that the encoded form of a cuesheet keeps exactly: a catalog number of at most 128
/// bytes and ISRCs of at most 12 bytes, none ending in a NUL character (the padding), at most
/// 255 tracks and at most 255 index points per track.
#[verifier::opaque]
pub open spec fn cuesheet_valid(m: CueSheetModel) -> bool {
    &&& encode_utf8(m.catalog_num).len() <= 128
    &&& no_trailing_nul(encode_utf8(m.catalog_num))
    &&& m.tracks.len() <= 255
    &&& forall|i: int| 0 <= i < m.tracks.len() ==> track_valid(#[trigger] m.tracks[i])
}

/// Values that the encoded form of a track keeps exactly.
pub open spec fn track_valid(t: TrackModel) -> bool {
    &&& encode_utf8(t.isrc).len() <= 12
    &&& no_trailing_nul(encode_utf8(t.isrc))
    &&& t.indices.len() <= 255
}

/// Dropping the NUL padding after a string that does not end in NUL gives the string back.
proof fn lemma_trim_padded(s: Seq<u8>, n: nat)
    requires
        s.len() <= n,
        no_trailing_nul(s),
    ensures
        trim_nul(padded(s, n)) == s,
    decreases n - s.len(),
{
    if s.len() < n {
        let p = padded(s, n);
        assert(p.last() == 0);
        assert(p.drop_last() =~= padded(s, (n - 1) as nat));
        lemma_trim_padded(s, (n - 1) as nat);
    } else {
        assert(padded(s, n) =~= s);
    }
}

proof fn lemma_indices_layout(s: Seq<CueSheetTrackIndex>)
    ensures
        indices_bytes(s).len() == 12 * s.len(),
        forall|i: int|
            0 <= i < s.len() ==> #[trigger] indices_bytes(s).subrange(12 * i, 12 * i + 12)
                == index_bytes(s[i]),
    decreases s.len(),
{
    if s.len() > 0 {
        let init = s.drop_last();
        lemma_indices_layout(init);
        lemma_be_bytes_len(s.last().offset as nat, 8);
        let b = indices_bytes(s);
        assert forall|i: int| 0 <= i < s.len() implies #[trigger] b.subrange(12 * i, 12 * i + 12)
            == index_bytes(s[i]) by {
            if i < s.len() - 1 {
                assert(b.subrange(12 * i, 12 * i + 12) =~= indices_bytes(init).subrange(
                    12 * i,
                    12 * i + 12,
                ));
            } else {
                assert(b.subrange(12 * i, 12 * i + 12) =~= index_bytes(s.last()));
            }
        }
    }
}

proof fn lemma_flags(audio: bool, pre: bool)
    ensures
        ({
            let f = ((if audio { 0u8 } else { 0x80u8 }) + (if pre { 0x40u8 } else { 0u8 })) as u8;
            &&& (f & 0x80 == 0) == audio
            &&& (f & 0x40 != 0) == pre
        }),
{
    assert(0u8 & 0x80 == 0 && 0u8 & 0x40 == 0) by (bit_vector);
    assert(0x40u8 & 0x80 == 0 && 0x40u8 & 0x40 != 0) by (bit_vector);
    assert(0x80u8 & 0x80 != 0 && 0x80u8 & 0x40 == 0) by (bit_vector);
    assert(0xC0u8 & 0x80 != 0 && 0xC0u8 & 0x40 != 0) by (bit_vector);
}

proof fn lemma_track_round_trip(t: TrackModel, before: Seq<u8>, after: Seq<u8>)
    requires
        track_valid(t),
    ensures
        track_bytes(t).len() == 36 + 12 * t.indices.len(),
        track_at(before + track_bytes(t) + after, before.len() as int) == Ok::<
            (TrackModel, int),
            ErrorKind,
        >((t, (before.len() + track_bytes(t).len()) as int)),
{
    lemma_pow256_8();
    let b = before + track_bytes(t) + after;
    let pos = before.len() as int;
    let isrc = encode_utf8(t.isrc);
    lemma_be_round_trip(t.offset as nat, 8);
    lemma_indices_layout(t.indices);
    encode_utf8_valid_utf8(t.isrc);
    encode_utf8_decode_utf8(t.isrc);
    lemma_flags(t.is_audio, t.pre_emphasis);
    lemma_trim_padded(isrc, 12);
    assert(b.subrange(pos, pos + 8) =~= be_bytes(t.offset as nat, 8));
    assert(b.subrange(pos + 9, pos + 21) =~= padded(isrc, 12));
    assert(b[pos + 8] == t.number);
    assert(b[pos + 21] == track_flags(t));
    assert(b[pos + 35] == t.indices.len() as u8);
    let n = t.indices.len();
    let got = indices_at(b, pos + 36, n);
    assert forall|i: int| 0 <= i < n implies #[trigger] got[i] == t.indices[i] by {
        let x = t.indices[i];
        lemma_be_round_trip(x.offset as nat, 8);
        let q = pos + 36 + 12 * i;
        assert(indices_bytes(t.indices).subrange(12 * i, 12 * i + 12) == index_bytes(x));
        assert(b.subrange(q, q + 8) =~= index_bytes(x).subrange(0, 8));
        assert(index_bytes(x).subrange(0, 8) =~= be_bytes(x.offset as nat, 8));
        assert(b[q + 8] == index_bytes(x)[8]);
    }
    assert(got =~= t.indices);
}

proof fn lemma_tracks_bytes_concat(a: Seq<TrackModel>, c: Seq<TrackModel>)
    ensures
        tracks_bytes(a + c) == tracks_bytes(a) + tracks_bytes(c),
    decreases c.len(),
{
    if c.len() == 0 {
        assert(a + c =~= a);
        assert(tracks_bytes(a) + tracks_bytes(c) =~= tracks_bytes(a));
    } else {
        lemma_tracks_bytes_concat(a, c.drop_last());
        assert((a + c).drop_last() =~= a + c.drop_last());
        assert((a + c).last() == c.last());
        assert(tracks_bytes(a + c) =~= tracks_bytes(a) + tracks_bytes(c));
    }
}

#[verifier::rlimit(100)]
proof fn lemma_tracks_round_trip(ts: Seq<TrackModel>, before: Seq<u8>, after: Seq<u8>, k: nat)
    requires
        k <= ts.len(),
        forall|i: int| 0 <= i < ts.len() ==> track_valid(#[trigger] ts[i]),
    ensures
        tracks_at(before + tracks_bytes(ts) + after, before.len() as int, k) == Ok::<
            (Seq<TrackModel>, int),
            ErrorKind,
        >(
            (ts.subrange(0, k as int), (before.len() + tracks_bytes(ts.subrange(0, k as int)).len()) as int),
        ),
    decreases k,
{
    let b = before + tracks_bytes(ts) + after;
    if k == 0 {
        assert(ts.subrange(0, 0) =~= Seq::<TrackModel>::empty());
    } else {
        lemma_tracks_round_trip(ts, before, after, (k - 1) as nat);
        let head = ts.subrange(0, k - 1);
        let t = ts[k - 1];
        assert(ts.subrange(0, k as int).drop_last() =~= head);
        assert(ts =~= ts.subrange(0, k as int) + ts.subrange(k as int, ts.len() as int));
        lemma_tracks_bytes_concat(ts.subrange(0, k as int), ts.subrange(k as int, ts.len() as int));
        let pre = before + tracks_bytes(head);
        let post = tracks_bytes(ts.subrange(k as int, ts.len() as int)) + after;
        assert(b =~= pre + track_bytes(t) + post);
        lemma_track_round_trip(t, pre, post);
        assert(head.push(t) =~= ts.subrange(0, k as int));
    }
}

/// Decoding the encoded form of a valid cuesheet gives it back.
pub proof fn lemma_cuesheet_round_trip(m: CueSheetModel)
    requires
        cuesheet_valid(m),
    ensures
        cuesheet_fits(m),
        cuesheet_of(cuesheet_bytes(m)) == Ok::<CueSheetModel, ErrorKind>(m),
{
    reveal(cuesheet_valid);
    lemma_pow256_8();
    let b = cuesheet_bytes(m);
    let cat = encode_utf8(m.catalog_num);
    lemma_be_round_trip(m.num_leadin as nat, 8);
    encode_utf8_valid_utf8(m.catalog_num);
    encode_utf8_decode_utf8(m.catalog_num);
    lemma_trim_padded(cat, 128);
    let head = padded(cat, 128) + be_bytes(m.num_leadin as nat, 8) + seq![if m.is_cd { 0x80u8 } else { 0u8 }]
        + zeros(258) + seq![m.tracks.len() as u8];
    assert(head.len() == 396);
    assert(b =~= head + tracks_bytes(m.tracks) + Seq::<u8>::empty());
    assert(b.subrange(0, 128) =~= padded(cat, 128));
    assert(b.subrange(128, 136) =~= be_bytes(m.num_leadin as nat, 8));
    assert(b[395] == m.tracks.len() as u8);
    assert(0x80u8 & 0x80 != 0 && 0u8 & 0x80 == 0) by (bit_vector);
    lemma_tracks_round_trip(m.tracks, head, Seq::empty(), m.tracks.len());
    assert(m.tracks.subrange(0, m.tracks.len() as int) =~= m.tracks);
}

impl CueSheetTrackIndex {
    /// Returns a new `CueSheetTrackIndex` with all zero values.
    pub fn new() -> (r: CueSheetTrackIndex)
        ensures
            r == (CueSheetTrackIndex { offset: 0, point_num: 0 }),
    {
        CueSheetTrackIndex { offset: 0, point_num: 0 }
    }
}

impl CueSheetTrack {
    /// Returns a new `CueSheetTrack` of type audio, without pre-emphasis, and with zero/empty
    /// values.
    pub fn new() -> (r: CueSheetTrack)
        ensures
            r@ == (TrackModel {
                offset: 0,
                number: 0,
                isrc: Seq::empty(),
                is_audio: true,
                pre_emphasis: false,
                indices: Seq::empty(),
            }),
    {
        CueSheetTrack {
            offset: 0,
            number: 0,
            isrc: String::new(),
            is_audio: true,
            pre_emphasis: false,
            indices: Vec::new(),
        }
    }
}

/// Appends `n` zero bytes.
fn push_zeros(out: &mut Vec<u8>, n: usize)
    ensures
        final(out)@ == old(out)@ + zeros(n as nat),
{
    let mut i: usize = 0;
    while i < n
        invariant
            i <= n,
            out@ == old(out)@ + zeros(i as nat),
        decreases n - i,
    {
        out.push(0u8);
        i = i + 1;
        assert(out@ =~= old(out)@ + zeros(i as nat));
    }
}

/// The end of `bytes[start..end]` once its trailing NUL bytes are dropped.
fn trimmed_end(bytes: &[u8], start: usize, end: usize) -> (r: usize)
    requires
        start <= end <= bytes@.len(),
    ensures
        start <= r <= end,
        bytes@.subrange(start as int, r as int) == trim_nul(bytes@.subrange(start as int, end as int)),
{
    let mut r: usize = end;
    while r > start && bytes[r - 1] == 0
        invariant
            start <= r <= end <= bytes@.len(),
            trim_nul(bytes@.subrange(start as int, end as int)) == trim_nul(
                bytes@.subrange(start as int, r as int),
            ),
        decreases r,
    {
        assert(bytes@.subrange(start as int, r as int).drop_last() =~= bytes@.subrange(
            start as int,
            r - 1,
        ));
        r = r - 1;
    }
    r
}

/// Reads the track at `pos`.
fn read_track(bytes: &[u8], pos: usize) -> (r: Result<(CueSheetTrack, usize)>)
    requires
        pos <= bytes@.len(),
    ensures
        match (r, track_at(bytes@, pos as int)) {
            (Ok((t, p)), Ok((m, q))) => t@ == m && p == q,
            (Err(e), Err(k)) => e.kind == k,
            _ => false,
        },
{
    let len: usize = bytes.len();
    if !room(len, pos, 36) {
        return Err(Error::new(ErrorKind::InvalidInput, "cuesheet track is too short"));
    }
    let isrc_end = trimmed_end(bytes, pos + 9, pos + 21);
    let isrc = match decode_range(bytes, pos + 9, isrc_end) {
        Some(s) => s,
        None => {
            return Err(Error::new(ErrorKind::StringDecoding, "invalid track ISRC"));
        },
    };
    let n: u8 = bytes[pos + 35];
    if !room(len, pos + 36, 12 * n as u64) {
        return Err(Error::new(ErrorKind::InvalidInput, "cuesheet track is too short"));
    }
    let flags: u8 = bytes[pos + 21];
    let mut indices: Vec<CueSheetTrackIndex> = Vec::new();
    let mut i: u8 = 0;
    let mut p: usize = pos + 36;
    while i < n
        invariant
            len == bytes@.len(),
            i <= n,
            n == bytes@[pos + 35],
            pos + 36 + 12 * n <= len,
            p == pos + 36 + 12 * i,
            indices@ == indices_at(bytes@, pos + 36, n as nat).subrange(0, i as int),
        decreases n - i,
    {
        let offset = read_be(bytes, p, 8);
        let point_num = bytes[p + 8];
        indices.push(CueSheetTrackIndex { offset, point_num });
        i = i + 1;
        p = p + 12;
        assert(indices@ =~= indices_at(bytes@, pos + 36, n as nat).subrange(0, i as int));
    }
    assert(indices@ =~= indices_at(bytes@, pos + 36, n as nat));
    let track = CueSheetTrack {
        offset: read_be(bytes, pos, 8),
        number: bytes[pos + 8],
        isrc,
        is_audio: flags & 0x80 == 0,
        pre_emphasis: flags & 0x40 != 0,
        indices,
    };
    Ok((track, p))
}

impl CueSheet {
    /// Returns a new `CueSheet` for a CD with zero/empty values.
    pub fn new() -> (r: CueSheet)
        ensures
            r@ == (CueSheetModel {
                catalog_num: Seq::empty(),
                num_leadin: 0,
                is_cd: true,
                tracks: Seq::empty(),
            }),
    {
        let r = CueSheet {
            catalog_num: String::new(),
            num_leadin: 0,
            is_cd: true,
            tracks: Vec::new(),
        };
        assert(r@.tracks =~= Seq::<TrackModel>::empty());
        r
    }

    /// Parses the bytes as a cuesheet block.
    pub fn from_bytes(bytes: &[u8]) -> (r: Result<CueSheet>)
        ensures
            match (r, cuesheet_of(bytes@)) {
                (Ok(c), Ok(m)) => c@ == m,
                (Err(e), Err(k)) => e.kind == k,
                _ => false,
            },
    {
        let len: usize = bytes.len();
        if len < 396 {
            return Err(Error::new(ErrorKind::InvalidInput, "cuesheet block is too short"));
        }
        let catalog_end = trimmed_end(bytes, 0, 128);
        let catalog_num = match decode_range(bytes, 0, catalog_end) {
            Some(s) => s,
            None => {
                return Err(Error::new(ErrorKind::StringDecoding, "invalid catalog number"));
            },
        };
        let num_leadin = read_be(bytes, 128, 8);
        let is_cd = bytes[136] & 0x80 != 0;
        let n: u8 = bytes[395];
        let mut tracks: Vec<CueSheetTrack> = Vec::new();
        let mut i: u8 = 0;
        let mut p: usize = 396;
        assert(Seq::new(tracks@.len(), |j: int| tracks@[j]@) =~= Seq::<TrackModel>::empty());
        while i < n
            invariant
                len == bytes@.len(),
                len >= 396,
                valid_utf8(trim_nul(bytes@.subrange(0, 128))),
                i <= n,
                n == bytes@[395],
                p <= len,
                tracks_at(bytes@, 396, i as nat) == Ok::<(Seq<TrackModel>, int), ErrorKind>(
                    (Seq::new(tracks@.len(), |j: int| tracks@[j]@), p as int),
                ),
            decreases n - i,
        {
            let ghost prev = tracks_at(bytes@, 396, i as nat);
            assert(tracks_at(bytes@, 396, (i + 1) as nat) == match track_at(bytes@, p as int) {
                Err(e) => Err(e),
                Ok((t, q)) => Ok::<(Seq<TrackModel>, int), ErrorKind>((prev.unwrap().0.push(t), q)),
            });
            match read_track(bytes, p) {
                Ok((t, q)) => {
                    let ghost before = Seq::new(tracks@.len(), |j: int| tracks@[j]@);
                    let ghost tv = t@;
                    tracks.push(t);
                    p = q;
                    assert(Seq::new(tracks@.len(), |j: int| tracks@[j]@) =~= before.push(tv));
                },
                Err(e) => {
                    proof {
                        lemma_tracks_error_persists(bytes@, 396, (i + 1) as nat, n as nat);
                    }
                    return Err(e);
                },
            }
            i = i + 1;
        }
        Ok(CueSheet { catalog_num, num_leadin, is_cd, tracks })
    }

    /// Whether the fixed-width fields can hold the catalog number, the ISRCs and the counts.
    pub fn fits(&self) -> (r: bool)
        ensures
            r == cuesheet_fits(self@),
    {
        if self.catalog_num.as_str().as_bytes().len() > 128 || self.tracks.len() > 255 {
            return false;
        }
        let mut i: usize = 0;
        while i < self.tracks.len()
            invariant
                i <= self.tracks@.len(),
                forall|j: int| 0 <= j < i ==> track_fits(#[trigger] self@.tracks[j]),
            decreases self.tracks@.len() - i,
        {
            let t = &self.tracks[i];
            if t.isrc.as_str().as_bytes().len() > 12 || t.indices.len() > 255 {
                assert(!track_fits(self@.tracks[i as int]));
                return false;
            }
            i = i + 1;
        }
        true
    }

    /// Returns a vector representation of the cuesheet block suitable for writing to a file.
    pub fn to_bytes(&self) -> (r: Vec<u8>)
        requires
            cuesheet_fits(self@),
        ensures
            r@ == cuesheet_bytes(self@),
    {
        let mut bytes = string_bytes(&self.catalog_num);
        let cat_len = bytes.len();
        push_zeros(&mut bytes, 128 - cat_len);
        let mut part = u64_to_be_bytes(self.num_leadin, 8);
        bytes.append(&mut part);
        bytes.push(if self.is_cd { 0x80u8 } else { 0u8 });
        push_zeros(&mut bytes, 258);
        bytes.push(self.tracks.len() as u8);
        let ghost ts = self@.tracks;
        let mut i: usize = 0;
        while i < self.tracks.len()
            invariant
                i <= self.tracks@.len(),
                ts == self@.tracks,
                cuesheet_fits(self@),
                bytes@ == padded(encode_utf8(self.catalog_num@), 128) + be_bytes(
                    self.num_leadin as nat,
                    8,
                ) + seq![if self.is_cd { 0x80u8 } else { 0u8 }] + zeros(258) + seq![
                    self.tracks@.len() as u8,
                ] + tracks_bytes(ts.subrange(0, i as int)),
            decreases self.tracks@.len() - i,
        {
            assert(track_fits(ts[i as int]));
            let mut tb = track_to_bytes(&self.tracks[i]);
            bytes.append(&mut tb);
            i = i + 1;
            assert(ts.subrange(0, i as int).drop_last() =~= ts.subrange(0, i - 1));
        }
        assert(ts.subrange(0, i as int) =~= ts);
        bytes
    }
}

fn track_to_bytes(track: &CueSheetTrack) -> (r: Vec<u8>)
    requires
        track_fits(track@),
    ensures
        r@ == track_bytes(track@),
{
    let mut bytes = u64_to_be_bytes(track.offset, 8);
    bytes.push(track.number);
    let isrc = string_bytes(&track.isrc);
    append_bytes(&mut bytes, isrc.as_slice());
    push_zeros(&mut bytes, 12 - isrc.len());
    let mut flags: u8 = 0;
    if !track.is_audio {
        flags = flags + 0x80;
    }
    if track.pre_emphasis {
        flags = flags + 0x40;
    }
    bytes.push(flags);
    push_zeros(&mut bytes, 13);
    bytes.push(track.indices.len() as u8);
    let ghost xs = track.indices@;
    let mut i: usize = 0;
    while i < track.indices.len()
        invariant
            i <= xs.len(),
            xs == track.indices@,
            bytes@ == be_bytes(track.offset as nat, 8) + seq![track.number] + padded(
                encode_utf8(track.isrc@),
                12,
            ) + seq![track_flags(track@)] + zeros(13) + seq![xs.len() as u8] + indices_bytes(
                xs.subrange(0, i as int),
            ),
        decreases xs.len() - i,
    {
        let x = track.indices[i];
        let mut part = u64_to_be_bytes(x.offset, 8);
        bytes.append(&mut part);
        bytes.push(x.point_num);
        push_zeros(&mut bytes, 3);
        i = i + 1;
        assert(xs.subrange(0, i as int).drop_last() =~= xs.subrange(0, i - 1));
    }
    assert(xs.subrange(0, i as int) =~= xs);
    bytes
}

impl Default for CueSheetTrackIndex {
    fn default() -> (r: CueSheetTrackIndex)
        ensures
            r == (CueSheetTrackIndex { offset: 0, point_num: 0 }),
    {
        CueSheetTrackIndex::new()
    }
}

impl Default for CueSheetTrack {
    fn default() -> (r: CueSheetTrack)
        ensures
            r@ == (TrackModel {
                offset: 0,
                number: 0,
                isrc: Seq::empty(),
                is_audio: true,
                pre_emphasis: false,
                indices: Seq::empty(),
            }),
    {
        CueSheetTrack::new()
    }
}

impl Default for CueSheet {
    fn default() -> (r: CueSheet)
        ensures
            r@ == (CueSheetModel {
                catalog_num: Seq::empty(),
                num_leadin: 0,
                is_cd: true,
                tracks: Seq::empty(),
            }),
    {
        CueSheet::new()
    }
}

} // verus!
