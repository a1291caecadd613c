use vstd::prelude::*;
use crate::util::{
    be_bytes, be_value, lemma_be_round_trip, lemma_be_value_bound, lemma_pow256_8, read_be,
    u64_to_be_bytes,
};
use crate::text::copy_range;

verus! {

/// A structure representing a STREAMINFO block.
#[derive(Clone, Debug, PartialEq, Eq)]
pub struct StreamInfo {
    /// The minimum block size (in samples) used in the stream.
    pub min_block_size: u16,
    /// The maximum block size (in samples) used in the stream.
    pub max_block_size: u16,
    /// The minimum frame size (in bytes) used in the stream; 24 bits are stored.
    pub min_frame_size: u32,
    /// The maximum frame size (in bytes) used in the stream; 24 bits are stored.
    pub max_frame_size: u32,
    /// Sample rate in Hz; 20 bits are stored.
    pub sample_rate: u32,
    /// Number of channels, from 1 to 8.
    pub num_channels: u8,
    /// Bits per sample, from 4 to 32.
    pub bits_per_sample: u8,
    /// Total samples in stream; 36 bits are stored.
    pub total_samples: u64,
    /// MD5 signature of the unencoded audio data.
    pub md5: Vec<u8>,
}

/// The value of a `StreamInfo`.
pub ghost struct StreamInfoModel {
    pub min_block_size: u16,
    pub max_block_size: u16,
    pub min_frame_size: u32,
    pub max_frame_size: u32,
    pub sample_rate: u32,
    pub num_channels: u8,
    pub bits_per_sample: u8,
    pub total_samples: u64,
    pub md5: Seq<u8>,
}

impl View for StreamInfo {
    type V = StreamInfoModel;

    open spec fn view(&self) -> StreamInfoModel {
        StreamInfoModel {
            min_block_size: self.min_block_size,
            max_block_size: self.max_block_size,
            min_frame_size: self.min_frame_size,
            max_frame_size: self.max_frame_size,
            sample_rate: self.sample_rate,
            num_channels: self.num_channels,
            bits_per_sample: self.bits_per_sample,
            total_samples: self.total_samples,
            md5: self.md5@,
        }
    }
}

pub open spec fn pow2_20() -> nat { 0x100000 }
pub open spec fn pow2_24() -> nat { 0x1000000 }
pub open spec fn pow2_36() -> nat { 0x1000000000 }

/// The 64 bits that hold the sample rate (20 bits), the channel count less one (3 bits),
/// the bits per sample less one (5 bits) and the total sample count (36 bits).
pub open spec fn packed_fields(m: StreamInfoModel) -> u64 {
    ((m.sample_rate as u64 & 0xFFFFF) << 44u64)
        | ((((m.num_channels as u64 + 7) as u64) & 0x7) << 41u64)
        | ((((m.bits_per_sample as u64 + 31) as u64) & 0x1F) << 36u64)
        | (m.total_samples & 0xFFFFFFFFF)
}

/// The encoded form of a STREAMINFO block.
pub open spec fn streaminfo_bytes(m: StreamInfoModel) -> Seq<u8> {
    be_bytes(m.min_block_size as nat, 2) + be_bytes(m.max_block_size as nat, 2)
        + be_bytes(m.min_frame_size as nat % pow2_24(), 3)
        + be_bytes(m.max_frame_size as nat % pow2_24(), 3)
        + be_bytes(packed_fields(m) as nat, 8) + m.md5
}

/// The STREAMINFO block held in the first 34 bytes of `b`.
pub open spec fn streaminfo_of(b: Seq<u8>) -> StreamInfoModel {
    let packed = be_value(b.subrange(10, 18)) as u64;
    StreamInfoModel {
        min_block_size: be_value(b.subrange(0, 2)) as u16,
        max_block_size: be_value(b.subrange(2, 4)) as u16,
        min_frame_size: be_value(b.subrange(4, 7)) as u32,
        max_frame_size: be_value(b.subrange(7, 10)) as u32,
        sample_rate: (packed >> 44u64) as u32,
        num_channels: (((packed >> 41u64) & 0x7) + 1) as u8,
        bits_per_sample: (((packed >> 36u64) & 0x1F) + 1) as u8,
        total_samples: packed & 0xFFFFFFFFF,
        md5: b.subrange(18, 34),
    }
}

/// Field values that the encoded form keeps exactly.
pub open spec fn streaminfo_valid(m: StreamInfoModel) -> bool {
    &&& 1 <= m.num_channels <= 8
    &&& 1 <= m.bits_per_sample <= 32
    &&& m.sample_rate < pow2_20()
    &&& m.min_frame_size < pow2_24()
    &&& m.max_frame_size < pow2_24()
    &&& m.total_samples < pow2_36()
    &&& m.md5.len() == 16
}

proof fn lemma_packed_split(a: u64, b: u64, c: u64, d: u64)
    requires
        a < 0x100000,
        1 <= b <= 8,
        1 <= c <= 32,
        d < 0x1000000000,
    ensures
        ({
            let p = ((a & 0xFFFFF) << 44u64) | ((((b + 7) as u64) & 0x7) << 41u64) | ((((c + 31) as u64) & 0x1F)
                << 36u64) | (d & 0xFFFFFFFFF);
            &&& p >> 44u64 == a
            &&& (((p >> 41u64) & 0x7) + 1) as u64 == b
            &&& (((p >> 36u64) & 0x1F) + 1) as u64 == c
            &&& p & 0xFFFFFFFFF == d
            &&& (p >> 41u64) & 0x7 <= 7
            &&& (p >> 36u64) & 0x1F <= 31
        }),
{
    assert(({
        let p = ((a & 0xFFFFF) << 44u64) | ((((b + 7) as u64) & 0x7) << 41u64) | ((((c + 31) as u64) & 0x1F) << 36u64)
            | (d & 0xFFFFFFFFF);
        &&& p >> 44u64 == a
        &&& (((p >> 41u64) & 0x7) + 1) as u64 == b
        &&& (((p >> 36u64) & 0x1F) + 1) as u64 == c
        &&& p & 0xFFFFFFFFF == d
        &&& (p >> 41u64) & 0x7 <= 7
        &&& (p >> 36u64) & 0x1F <= 31
    })) by (bit_vector)
        requires
            a < 0x100000,
            1 <= b <= 8,
            1 <= c <= 32,
            d < 0x1000000000,
    ;
}

/// Decoding the encoded form of a valid STREAMINFO block gives it back.
pub proof fn lemma_streaminfo_round_trip(m: StreamInfoModel)
    requires
        streaminfo_valid(m),
    ensures
        streaminfo_bytes(m).len() == 34,
        streaminfo_of(streaminfo_bytes(m)) == m,
{
    lemma_pow256_8();
    let b = streaminfo_bytes(m);
    let p = packed_fields(m);
    lemma_packed_split(
        m.sample_rate as u64,
        m.num_channels as u64,
        m.bits_per_sample as u64,
        m.total_samples,
    );
    lemma_be_round_trip(m.min_block_size as nat, 2);
    lemma_be_round_trip(m.max_block_size as nat, 2);
    lemma_be_round_trip(m.min_frame_size as nat, 3);
    lemma_be_round_trip(m.max_frame_size as nat, 3);
    lemma_be_round_trip(p as nat, 8);
    assert(b.subrange(0, 2) =~= be_bytes(m.min_block_size as nat, 2));
    assert(b.subrange(2, 4) =~= be_bytes(m.max_block_size as nat, 2));
    assert(b.subrange(4, 7) =~= be_bytes(m.min_frame_size as nat, 3));
    assert(b.subrange(7, 10) =~= be_bytes(m.max_frame_size as nat, 3));
    assert(b.subrange(10, 18) =~= be_bytes(p as nat, 8));
    assert(b.subrange(18, 34) =~= m.md5);
}

proof fn lemma_be_value_8(s: Seq<u8>)
    requires
        s.len() == 8,
    ensures
        be_value(s) == s[0] as nat * 0x100000000000000 + s[1] as nat * 0x1000000000000 + s[2] as nat
            * 0x10000000000 + s[3] as nat * 0x100000000 + s[4] as nat * 0x1000000 + s[5] as nat
            * 0x10000 + s[6] as nat * 0x100 + s[7] as nat,
{
    reveal_with_fuel(be_value, 9);
    let s1 = s.drop_last();
    let s2 = s1.drop_last();
    let s3 = s2.drop_last();
    let s4 = s3.drop_last();
    let s5 = s4.drop_last();
    let s6 = s5.drop_last();
    let s7 = s6.drop_last();
    assert(s7.drop_last() =~= Seq::<u8>::empty());
    assert(s7.last() == s[0] && s6.last() == s[1] && s5.last() == s[2] && s4.last() == s[3]);
    assert(s3.last() == s[4] && s2.last() == s[5] && s1.last() == s[6]);
}

/// The channel count held in a STREAMINFO block is the three bits of byte 12 above its lowest
/// bit, plus one; the bits per sample are the lowest bit of byte 12 followed by the high four
/// bits of byte 13, plus one.
pub proof fn lemma_streaminfo_sample_fields(b: Seq<u8>)
    requires
        b.len() >= 34,
    ensures
        streaminfo_of(b).num_channels == ((b[12] >> 1u8) & 0x7) + 1,
        streaminfo_of(b).bits_per_sample == ((((b[12] & 0x1) as u8) << 4u8) | (b[13] >> 4u8)) + 1,
{
    let s = b.subrange(10, 18);
    lemma_be_value_8(s);
    let x0 = s[0] as u64;
    let x1 = s[1] as u64;
    let x2 = s[2] as u64;
    let x3 = s[3] as u64;
    let x4 = s[4] as u64;
    let x5 = s[5] as u64;
    let x6 = s[6] as u64;
    let x7 = s[7] as u64;
    let p = be_value(s) as u64;
    assert(p == (x0 << 56u64) | (x1 << 48u64) | (x2 << 40u64) | (x3 << 32u64) | (x4 << 24u64) | (
    x5 << 16u64) | (x6 << 8u64) | x7) by (bit_vector)
        requires
            x0 < 256 && x1 < 256 && x2 < 256 && x3 < 256 && x4 < 256 && x5 < 256 && x6 < 256 && x7
                < 256,
            p == x0 * 0x100000000000000 + x1 * 0x1000000000000 + x2 * 0x10000000000 + x3
                * 0x100000000 + x4 * 0x1000000 + x5 * 0x10000 + x6 * 0x100 + x7,
    ;
    assert((p >> 41u64) & 0x7 == (x2 >> 1u64) & 0x7 && (p >> 36u64) & 0x1F == ((x2 & 1) << 4u64)
        | (x3 >> 4u64) && (x2 >> 1u64) & 0x7 <= 7 && ((x2 & 1) << 4u64) | (x3 >> 4u64) <= 31)
        by (bit_vector)
        requires
            x0 < 256 && x1 < 256 && x2 < 256 && x3 < 256 && x4 < 256 && x5 < 256 && x6 < 256 && x7
                < 256,
            p == (x0 << 56u64) | (x1 << 48u64) | (x2 << 40u64) | (x3 << 32u64) | (x4 << 24u64) | (
            x5 << 16u64) | (x6 << 8u64) | x7,
    ;
    let c = b[12];
    let d = b[13];
    assert(((c >> 1u8) & 0x7) as u64 == (x2 >> 1u64) & 0x7 && ((((c & 0x1) as u8) << 4u8) | (d
        >> 4u8)) as u64 == ((x2 & 1) << 4u64) | (x3 >> 4u64)) by (bit_vector)
        requires
            x2 == c as u64 && x3 == d as u64,
    ;
}

/// A valid STREAMINFO block stores its channel count less one in bits 1..3 of byte 12, and its
/// bits per sample less one across the lowest bit of byte 12 and the high nibble of byte 13.
pub proof fn lemma_streaminfo_stored_fields(m: StreamInfoModel)
    requires
        streaminfo_valid(m),
    ensures
        ((streaminfo_bytes(m)[12] >> 1u8) & 0x7) + 1 == m.num_channels,
        ((((streaminfo_bytes(m)[12] & 0x1) as u8) << 4u8) | (streaminfo_bytes(m)[13] >> 4u8)) + 1
            == m.bits_per_sample,
{
    lemma_streaminfo_round_trip(m);
    lemma_streaminfo_sample_fields(streaminfo_bytes(m));
}

impl StreamInfo {
    /// Returns a new `StreamInfo` with zero/empty values.
    pub fn new() -> (r: StreamInfo)
        ensures
            r@ == (StreamInfoModel {
                min_block_size: 0,
                max_block_size: 0,
                min_frame_size: 0,
                max_frame_size: 0,
                sample_rate: 0,
                num_channels: 0,
                bits_per_sample: 0,
                total_samples: 0,
                md5: Seq::empty(),
            }),
    {
        StreamInfo {
            min_block_size: 0,
            max_block_size: 0,
            min_frame_size: 0,
            max_frame_size: 0,
            sample_rate: 0,
            num_channels: 0,
            bits_per_sample: 0,
            total_samples: 0,
            md5: Vec::new(),
        }
    }

    /// Parses the bytes as a StreamInfo block.
    pub fn from_bytes(bytes: &[u8]) -> (r: StreamInfo)
        requires
            bytes@.len() >= 34,
        ensures
            r@ == streaminfo_of(bytes@),
    {
        proof {
            lemma_pow256_8();
            lemma_be_value_bound(bytes@.subrange(0, 2));
            lemma_be_value_bound(bytes@.subrange(2, 4));
            lemma_be_value_bound(bytes@.subrange(4, 7));
            lemma_be_value_bound(bytes@.subrange(7, 10));
        }
        let packed: u64 = read_be(bytes, 10, 8);
        assert((packed >> 41u64) & 0x7 <= 7) by (bit_vector);
        assert((packed >> 36u64) & 0x1F <= 31) by (bit_vector);
        StreamInfo {
            min_block_size: read_be(bytes, 0, 2) as u16,
            max_block_size: read_be(bytes, 2, 2) as u16,
            min_frame_size: read_be(bytes, 4, 3) as u32,
            max_frame_size: read_be(bytes, 7, 3) as u32,
            sample_rate: (packed >> 44u64) as u32,
            num_channels: (((packed >> 41u64) & 0x7) + 1) as u8,
            bits_per_sample: (((packed >> 36u64) & 0x1F) + 1) as u8,
            total_samples: packed & 0xFFFFFFFFF,
            md5: copy_range(bytes, 18, 34),
        }
    }

    /// Returns a vector representation of the streaminfo block suitable for writing to a file.
    pub fn to_bytes(&self) -> (r: Vec<u8>)
        ensures
            r@ == streaminfo_bytes(self@),
    {
        let mut bytes = u64_to_be_bytes(self.min_block_size as u64, 2);
        let mut part = u64_to_be_bytes(self.max_block_size as u64, 2);
        bytes.append(&mut part);
        let mut part = u64_to_be_bytes(self.min_frame_size as u64 % 0x1000000, 3);
        bytes.append(&mut part);
        let mut part = u64_to_be_bytes(self.max_frame_size as u64 % 0x1000000, 3);
        bytes.append(&mut part);
        let packed: u64 = ((self.sample_rate as u64 & 0xFFFFF) << 44u64)
            | (((self.num_channels as u64 + 7) & 0x7) << 41u64)
            | (((self.bits_per_sample as u64 + 31) & 0x1F) << 36u64)
            | (self.total_samples & 0xFFFFFFFFF);
        let mut part = u64_to_be_bytes(packed, 8);
        bytes.append(&mut part);
        let mut md5 = copy_range(self.md5.as_slice(), 0, self.md5.len());
        bytes.append(&mut md5);
        assert(self.md5@.subrange(0, self.md5@.len() as int) =~= self.md5@);
        bytes
    }
}

impl Default for StreamInfo {
    fn default() -> (r: StreamInfo)
        ensures
            r@ == (StreamInfoModel {
                min_block_size: 0,
                max_block_size: 0,
                min_frame_size: 0,
                max_frame_size: 0,
                sample_rate: 0,
                num_channels: 0,
                bits_per_sample: 0,
                total_samples: 0,
                md5: Seq::empty(),
            }),
    {
        StreamInfo::new()
    }
}

} // verus!
