use vstd::prelude::*;
use crate::text::append_bytes;
use crate::util::{
    be_bytes, be_value, lemma_be_round_trip, lemma_be_value_bound, lemma_pow256_8, read_be,
    u64_to_be_bytes,
};

verus! {

/// A structure representing a seektable seek point.
#[derive(Clone, Copy, Debug, PartialEq, Eq, Structural)]
pub struct SeekPoint {
    /// Sample number of first sample in the target frame, or 0xFFFFFFFFFFFFFFFF for a placeholder
    /// point.
    pub sample_number: u64,
    /// Offset (in bytes) from the first byte of the first frame header to the first byte of the
    /// target frame's header.
    pub offset: u64,
    /// Number of samples in the target frame.
    pub num_samples: u16,
}

/// The 18 bytes of a seek point.
pub open spec fn seekpoint_bytes(p: SeekPoint) -> Seq<u8> {
    be_bytes(p.sample_number as nat, 8) + be_bytes(p.offset as nat, 8) + be_bytes(
        p.num_samples as nat,
        2,
    )
}

/// The seek point held in the first 18 bytes of `b`.
pub open spec fn seekpoint_of(b: Seq<u8>) -> SeekPoint {
    SeekPoint {
        sample_number: be_value(b.subrange(0, 8)) as u64,
        offset: be_value(b.subrange(8, 16)) as u64,
        num_samples: be_value(b.subrange(16, 18)) as u16,
    }
}

/// The encoded form of a SEEKTABLE block: its points one after another.
pub open spec fn seektable_bytes(points: Seq<SeekPoint>) -> Seq<u8>
    decreases points.len(),
{
    if points.len() == 0 {
        Seq::empty()
    } else {
        seektable_bytes(points.drop_last()) + seekpoint_bytes(points.last())
    }
}

/// The seek points held in `b`: one for each whole 18 bytes.
pub open spec fn seektable_of(b: Seq<u8>) -> Seq<SeekPoint> {
    Seq::new(b.len() / 18, |i: int| seekpoint_of(b.subrange(18 * i, 18 * i + 18)))
}

/// Decoding the bytes of a seek point gives it back.
pub proof fn lemma_seekpoint_round_trip(p: SeekPoint)
    ensures
        seekpoint_bytes(p).len() == 18,
        seekpoint_of(seekpoint_bytes(p)) == p,
{
    lemma_pow256_8();
    let b = seekpoint_bytes(p);
    lemma_be_round_trip(p.sample_number as nat, 8);
    lemma_be_round_trip(p.offset as nat, 8);
    lemma_be_round_trip(p.num_samples as nat, 2);
    assert(b.subrange(0, 8) =~= be_bytes(p.sample_number as nat, 8));
    assert(b.subrange(8, 16) =~= be_bytes(p.offset as nat, 8));
    assert(b.subrange(16, 18) =~= be_bytes(p.num_samples as nat, 2));
}

proof fn lemma_seektable_layout(points: Seq<SeekPoint>)
    ensures
        seektable_bytes(points).len() == 18 * points.len(),
        forall|i: int|
            0 <= i < points.len() ==> #[trigger] seektable_bytes(points).subrange(18 * i, 18 * i + 18)
                == seekpoint_bytes(points[i]),
    decreases points.len(),
{
    if points.len() > 0 {
        let init = points.drop_last();
        lemma_seektable_layout(init);
        lemma_seekpoint_round_trip(points.last());
        let b = seektable_bytes(points);
        assert forall|i: int| 0 <= i < points.len() implies #[trigger] b.subrange(18 * i, 18 * i + 18)
            == seekpoint_bytes(points[i]) by {
            if i < points.len() - 1 {
                assert(b.subrange(18 * i, 18 * i + 18) =~= seektable_bytes(init).subrange(
                    18 * i,
                    18 * i + 18,
                ));
            } else {
                assert(b.subrange(18 * i, 18 * i + 18) =~= seekpoint_bytes(points.last()));
            }
        }
    }
}

/// Decoding the encoded form of a SEEKTABLE block gives its points back.
pub proof fn lemma_seektable_round_trip(points: Seq<SeekPoint>)
    ensures
        seektable_of(seektable_bytes(points)) == points,
{
    lemma_seektable_layout(points);
    let b = seektable_bytes(points);
    assert(b.len() / 18 == points.len()) by (nonlinear_arith)
        requires b.len() == 18 * points.len();
    assert forall|i: int| 0 <= i < points.len() implies #[trigger] seektable_of(b)[i] == points[i] by {
        lemma_seekpoint_round_trip(points[i]);
        assert(b.subrange(18 * i, 18 * i + 18) == seekpoint_bytes(points[i]));
    }
    assert(seektable_of(b) =~= points);
}

impl SeekPoint {
    /// Returns a new `SeekPoint` with all zero values.
    pub fn new() -> (r: SeekPoint)
        ensures
            r == (SeekPoint { sample_number: 0, offset: 0, num_samples: 0 }),
    {
        SeekPoint { sample_number: 0, offset: 0, num_samples: 0 }
    }

    /// Parses the bytes as a seekpoint.
    pub fn from_bytes(bytes: &[u8]) -> (r: SeekPoint)
        requires
            bytes@.len() >= 18,
        ensures
            r == seekpoint_of(bytes@),
    {
        let r = read_point(bytes, 0);
        let ghost b = bytes@.subrange(0, 18);
        assert(b.subrange(0, 8) =~= bytes@.subrange(0, 8));
        assert(b.subrange(8, 16) =~= bytes@.subrange(8, 16));
        assert(b.subrange(16, 18) =~= bytes@.subrange(16, 18));
        r
    }

    /// Returns a vector representation of the seekpoint suitable for writing to a file.
    pub fn to_bytes(&self) -> (r: Vec<u8>)
        ensures
            r@ == seekpoint_bytes(*self),
    {
        let mut bytes = u64_to_be_bytes(self.sample_number, 8);
        let mut part = u64_to_be_bytes(self.offset, 8);
        bytes.append(&mut part);
        let mut part = u64_to_be_bytes(self.num_samples as u64, 2);
        bytes.append(&mut part);
        bytes
    }
}

fn read_point(bytes: &[u8], start: usize) -> (r: SeekPoint)
    requires
        start + 18 <= bytes@.len(),
    ensures
        r == seekpoint_of(bytes@.subrange(start as int, start + 18)),
{
    let total: usize = bytes.len();
    assert(start + 18 <= total);
    let ghost b = bytes@.subrange(start as int, start + 18);
    proof {
        lemma_pow256_8();
        lemma_be_value_bound(bytes@.subrange(start + 16, start + 18));
        assert(b.subrange(0, 8) =~= bytes@.subrange(start as int, start + 8));
        assert(b.subrange(8, 16) =~= bytes@.subrange(start + 8, start + 16));
        assert(b.subrange(16, 18) =~= bytes@.subrange(start + 16, start + 18));
    }
    SeekPoint {
        sample_number: read_be(bytes, start, 8),
        offset: read_be(bytes, start + 8, 8),
        num_samples: read_be(bytes, start + 16, 2) as u16,
    }
}

/// A structure representing a SEEKTABLE block.
#[derive(Clone, Debug, PartialEq, Eq)]
pub struct SeekTable {
    /// One or more seek points.
    pub seekpoints: Vec<SeekPoint>,
}

impl View for SeekTable {
    type V = Seq<SeekPoint>;

    open spec fn view(&self) -> Seq<SeekPoint> {
        self.seekpoints@
    }
}

impl SeekTable {
    /// Returns a new `SeekTable` with no seekpoints.
    pub fn new() -> (r: SeekTable)
        ensures
            r@ == Seq::<SeekPoint>::empty(),
    {
        SeekTable { seekpoints: Vec::new() }
    }

    /// Parses the bytes as a seektable.
    pub fn from_bytes(bytes: &[u8]) -> (r: SeekTable)
        ensures
            r@ == seektable_of(bytes@),
    {
        let total: usize = bytes.len();
        let num_points: usize = total / 18;
        let mut seekpoints: Vec<SeekPoint> = Vec::with_capacity(num_points);
        let mut i: usize = 0;
        let mut pos: usize = 0;
        while i < num_points
            invariant
                total == bytes@.len(),
                num_points == bytes@.len() / 18,
                i <= num_points,
                pos == 18 * i,
                seekpoints@ == seektable_of(bytes@).subrange(0, i as int),
            decreases num_points - i,
        {
            assert(18 * i + 18 <= bytes@.len()) by (nonlinear_arith)
                requires i < num_points, num_points == bytes@.len() / 18;
            let p = read_point(bytes, pos);
            seekpoints.push(p);
            i = i + 1;
            pos = pos + 18;
            assert(seekpoints@ =~= seektable_of(bytes@).subrange(0, i as int));
        }
        assert(seekpoints@ =~= seektable_of(bytes@));
        SeekTable { seekpoints }
    }

    /// Returns a vector representation of the seektable suitable for writing to a file.
    pub fn to_bytes(&self) -> (r: Vec<u8>)
        ensures
            r@ == seektable_bytes(self@),
    {
        let mut bytes: Vec<u8> = Vec::new();
        let mut i: usize = 0;
        while i < self.seekpoints.len()
            invariant
                i <= self.seekpoints@.len(),
                bytes@ == seektable_bytes(self.seekpoints@.subrange(0, i as int)),
            decreases self.seekpoints@.len() - i,
        {
            let part = self.seekpoints[i].to_bytes();
            append_bytes(&mut bytes, part.as_slice());
            i = i + 1;
            assert(self.seekpoints@.subrange(0, i as int).drop_last() =~= self.seekpoints@.subrange(
                0,
                i - 1,
            ));
        }
        assert(self.seekpoints@.subrange(0, i as int) =~= self.seekpoints@);
        bytes
    }
}

impl Default for SeekPoint {
    fn default() -> (r: SeekPoint)
        ensures
            r == (SeekPoint { sample_number: 0, offset: 0, num_samples: 0 }),
    {
        SeekPoint::new()
    }
}

impl Default for SeekTable {
    fn default() -> (r: SeekTable)
        ensures
            r@ == Seq::<SeekPoint>::empty(),
    {
        SeekTable::new()
    }
}

} // verus!
