use vstd::prelude::*;
use vstd::utf8::encode_utf8;
use crate::error::{Error, ErrorKind, Result};
use crate::text::{append_bytes, copy_range, room};
use crate::util::{
    be_bytes, be_value, lemma_be_bytes_len, lemma_be_round_trip, lemma_be_value_bound,
    lemma_pow256_8, read_be, u64_to_be_bytes,
};

/// The APPLICATION block.
pub mod application;
/// The CUESHEET block and its tracks.
pub mod cuesheet;
/// The PICTURE block.
pub mod picture;
/// The SEEKTABLE block and its seek points.
pub mod seektable;
/// The stream identifier and the walk over a stream's blocks.
pub mod stream;
/// The STREAMINFO block.
pub mod streaminfo;
/// The VORBIS_COMMENT block.
pub mod vorbis;

use application::{application_bytes, application_of, lemma_application_round_trip};
use cuesheet::{
    cuesheet_bytes, cuesheet_fits, cuesheet_of, cuesheet_valid, lemma_cuesheet_round_trip, zeros,
};
use picture::{lemma_picture_round_trip, picture_bytes, picture_fits, picture_of};
use seektable::{lemma_seektable_round_trip, seektable_bytes, seektable_of};
use streaminfo::{lemma_streaminfo_round_trip, streaminfo_bytes, streaminfo_of, streaminfo_valid};
use vorbis::{lemma_vorbis_round_trip, vorbis_bytes, vorbis_fits, vorbis_of, vorbis_valid};

pub use application::{Application, ApplicationModel};
pub use cuesheet::{CueSheet, CueSheetModel, CueSheetTrack, CueSheetTrackIndex, TrackModel};
pub use picture::{Picture, PictureModel, PictureType};
pub use seektable::{SeekPoint, SeekTable};
pub use stream::{
    has_id3, id3_end, ident_end, is_ident_at, read_ident, step_at, Blocks, BlocksState,
};
pub use streaminfo::{StreamInfo, StreamInfoModel};
pub use vorbis::{CommentList, VorbisComment, VorbisModel};

verus! {

/// Types of blocks. Used primarily to map blocks to block identifiers when reading and writing.
#[derive(Clone, Copy, Debug, PartialEq, Eq, Structural)]
pub enum BlockType {
    StreamInfo,
    Padding,
    Application,
    SeekTable,
    VorbisComment,
    CueSheet,
    Picture,
    Unknown(u8),
}

/// The type code of a block type.
pub open spec fn type_code(t: BlockType) -> u8 {
    match t {
        BlockType::StreamInfo => 0,
        BlockType::Padding => 1,
        BlockType::Application => 2,
        BlockType::SeekTable => 3,
        BlockType::VorbisComment => 4,
        BlockType::CueSheet => 5,
        BlockType::Picture => 6,
        BlockType::Unknown(n) => n,
    }
}

/// The block type that a type code stands for.
pub open spec fn type_of_code(n: u8) -> BlockType {
    if n == 0 {
        BlockType::StreamInfo
    } else if n == 1 {
        BlockType::Padding
    } else if n == 2 {
        BlockType::Application
    } else if n == 3 {
        BlockType::SeekTable
    } else if n == 4 {
        BlockType::VorbisComment
    } else if n == 5 {
        BlockType::CueSheet
    } else if n == 6 {
        BlockType::Picture
    } else {
        BlockType::Unknown(n)
    }
}

impl BlockType {
    /// The type code of this block type.
    pub fn to_u8(&self) -> (r: u8)
        ensures
            r == type_code(*self),
    {
        match *self {
            BlockType::StreamInfo => 0,
            BlockType::Padding => 1,
            BlockType::Application => 2,
            BlockType::SeekTable => 3,
            BlockType::VorbisComment => 4,
            BlockType::CueSheet => 5,
            BlockType::Picture => 6,
            BlockType::Unknown(n) => n,
        }
    }

    /// The block type that a type code stands for.
    pub fn from_u8(n: u8) -> (r: BlockType)
        ensures
            r == type_of_code(n),
    {
        match n {
            0 => BlockType::StreamInfo,
            1 => BlockType::Padding,
            2 => BlockType::Application,
            3 => BlockType::SeekTable,
            4 => BlockType::VorbisComment,
            5 => BlockType::CueSheet,
            6 => BlockType::Picture,
            n => BlockType::Unknown(n),
        }
    }
}

/// The parsed content of a metadata block.
#[derive(Debug)]
pub enum Block {
    /// A value containing a parsed streaminfo block.
    StreamInfo(StreamInfo),
    /// A value containing a parsed application block.
    Application(Application),
    /// A value containing a parsed cuesheet block.
    CueSheet(CueSheet),
    /// A value containing the number of bytes of padding.
    Padding(u32),
    /// A value containing a parsed picture block.
    Picture(Picture),
    /// A value containing a parsed seektable block.
    SeekTable(SeekTable),
    /// A value containing a parsed vorbis comment block.
    VorbisComment(VorbisComment),
    /// An value containing the type code and the bytes of an unknown block.
    Unknown((u8, Vec<u8>)),
}

/// The value of a `Block`.
pub ghost enum BlockModel {
    StreamInfo(StreamInfoModel),
    Application(ApplicationModel),
    CueSheet(CueSheetModel),
    Padding(u32),
    Picture(PictureModel),
    SeekTable(Seq<SeekPoint>),
    VorbisComment(VorbisModel),
    Unknown(u8, Seq<u8>),
}

impl View for Block {
    type V = BlockModel;

    open spec fn view(&self) -> BlockModel {
        match self {
            Block::StreamInfo(s) => BlockModel::StreamInfo(s@),
            Block::Application(a) => BlockModel::Application(a@),
            Block::CueSheet(c) => BlockModel::CueSheet(c@),
            Block::Padding(n) => BlockModel::Padding(*n),
            Block::Picture(p) => BlockModel::Picture(p@),
            Block::SeekTable(t) => BlockModel::SeekTable(t@),
            Block::VorbisComment(v) => BlockModel::VorbisComment(v@),
            Block::Unknown((c, d)) => BlockModel::Unknown(*c, d@),
        }
    }
}

/// The type of a block.
pub open spec fn model_type(m: BlockModel) -> BlockType {
    match m {
        BlockModel::StreamInfo(_) => BlockType::StreamInfo,
        BlockModel::Application(_) => BlockType::Application,
        BlockModel::CueSheet(_) => BlockType::CueSheet,
        BlockModel::Padding(_) => BlockType::Padding,
        BlockModel::Picture(_) => BlockType::Picture,
        BlockModel::SeekTable(_) => BlockType::SeekTable,
        BlockModel::VorbisComment(_) => BlockType::VorbisComment,
        BlockModel::Unknown(c, _) => BlockType::Unknown(c),
    }
}

/// The payload of a block as written; padding is that many zero bytes.
pub open spec fn payload_bytes(m: BlockModel) -> Seq<u8> {
    match m {
        BlockModel::StreamInfo(s) => streaminfo_bytes(s),
        BlockModel::Application(a) => application_bytes(a),
        BlockModel::CueSheet(c) => cuesheet_bytes(c),
        BlockModel::Padding(n) => zeros(n as nat),
        BlockModel::Picture(p) => picture_bytes(p),
        BlockModel::SeekTable(t) => seektable_bytes(t),
        BlockModel::VorbisComment(v) => vorbis_bytes(v),
        BlockModel::Unknown(_, d) => d,
    }
}

/// Whether a block can be written: its fixed-width fields hold its values and its payload
/// is shorter than 2^24 bytes.
pub open spec fn writable(m: BlockModel) -> bool {
    &&& match m {
        BlockModel::CueSheet(c) => cuesheet_fits(c),
        BlockModel::Picture(p) => picture_fits(p),
        BlockModel::VorbisComment(v) => vorbis_fits(v),
        _ => true,
    }
    &&& payload_bytes(m).len() < 0x1000000
}

/// The first header byte: the last-block flag and the low seven bits of the type code.
pub open spec fn header_byte(is_last: bool, t: BlockType) -> u8 {
    ((if is_last { 0x80int } else { 0int }) + type_code(t) % 128) as u8
}

/// A block as written: its header, then its payload.
pub open spec fn block_bytes(m: BlockModel, is_last: bool) -> Seq<u8> {
    seq![header_byte(is_last, model_type(m))] + be_bytes(payload_bytes(m).len(), 3) + payload_bytes(m)
}

/// The block that a payload of type code `code` holds, or the kind of error that reading it
/// meets.
#[verifier::opaque]
pub open spec fn payload_of(code: u8, p: Seq<u8>) -> core::result::Result<BlockModel, ErrorKind> {
    match type_of_code(code) {
        BlockType::StreamInfo => if p.len() < 34 {
            Err(ErrorKind::InvalidInput)
        } else {
            Ok(BlockModel::StreamInfo(streaminfo_of(p)))
        },
        BlockType::Padding => Ok(BlockModel::Padding(p.len() as u32)),
        BlockType::Application => if p.len() < 4 {
            Err(ErrorKind::InvalidInput)
        } else {
            Ok(BlockModel::Application(application_of(p)))
        },
        BlockType::SeekTable => Ok(BlockModel::SeekTable(seektable_of(p))),
        BlockType::VorbisComment => match vorbis_of(p) {
            Ok(v) => Ok(BlockModel::VorbisComment(v)),
            Err(e) => Err(e),
        },
        BlockType::CueSheet => match cuesheet_of(p) {
            Ok(c) => Ok(BlockModel::CueSheet(c)),
            Err(e) => Err(e),
        },
        BlockType::Picture => match picture_of(p) {
            Ok(x) => Ok(BlockModel::Picture(x)),
            Err(e) => Err(e),
        },
        BlockType::Unknown(c) => Ok(BlockModel::Unknown(c, p)),
    }
}

/// The block at `pos`: whether it is the last one, what it holds, and the position after it;
/// or the kind of error that reading it meets. A header or payload cut short is an I/O error.
pub open spec fn block_at(b: Seq<u8>, pos: int) -> core::result::Result<
    (bool, BlockModel, int),
    ErrorKind,
> {
    if pos + 4 > b.len() {
        Err(ErrorKind::Io)
    } else {
        let end = pos + 4 + be_value(b.subrange(pos + 1, pos + 4));
        if end > b.len() {
            Err(ErrorKind::Io)
        } else {
            match payload_of(b[pos] % 128, b.subrange(pos + 4, end)) {
                Ok(m) => Ok((b[pos] >= 128, m, end)),
                Err(e) => Err(e),
            }
        }
    }
}

impl Block {
    /// Reads the block at `pos` of `bytes`.
    pub(crate) fn read_at(bytes: &[u8], pos: usize) -> (r: Result<(bool, u32, Block)>)
        ensures
            match (r, block_at(bytes@, pos as int)) {
                (Ok((last, n, blk)), Ok((l, m, end))) => last == l && blk@ == m && pos + n == end,
                (Err(e), Err(k)) => e.kind == k,
                _ => false,
            },
    {
        let len: usize = bytes.len();
        proof {
            lemma_pow256_8();
            reveal(payload_of);
        }
        if pos > len || !room(len, pos, 4) {
            return Err(Error::new(ErrorKind::Io, "block header is cut short"));
        }
        let byte: u8 = bytes[pos];
        let is_last = byte >= 128;
        let code: u8 = byte % 128;
        let length: u64 = read_be(bytes, pos + 1, 3);
        proof {
            lemma_be_value_bound(bytes@.subrange(pos + 1, pos + 4));
        }
        if !room(len, pos + 4, length) {
            return Err(Error::new(ErrorKind::Io, "block payload is cut short"));
        }
        let start: usize = pos + 4;
        let end: usize = start + length as usize;
        let data = copy_range(bytes, start, end);
        let ghost p = data@;
        let block = match BlockType::from_u8(code) {
            BlockType::StreamInfo => {
                if length < 34 {
                    return Err(Error::new(ErrorKind::InvalidInput, "streaminfo block is too short"));
                }
                Block::StreamInfo(StreamInfo::from_bytes(data.as_slice()))
            },
            BlockType::Padding => Block::Padding(length as u32),
            BlockType::Application => {
                if length < 4 {
                    return Err(Error::new(ErrorKind::InvalidInput, "application block is too short"));
                }
                Block::Application(Application::from_bytes(data.as_slice()))
            },
            BlockType::SeekTable => Block::SeekTable(SeekTable::from_bytes(data.as_slice())),
            BlockType::VorbisComment => Block::VorbisComment(VorbisComment::from_bytes(data.as_slice())?),
            BlockType::Picture => Block::Picture(Picture::from_bytes(data.as_slice())?),
            BlockType::CueSheet => Block::CueSheet(CueSheet::from_bytes(data.as_slice())?),
            BlockType::Unknown(_) => Block::Unknown((code, data)),
        };
        Ok((is_last, length as u32 + 4, block))
    }

    /// Attempts to read a block from the start of `bytes`. Returns a tuple containing a boolean
    /// indicating if the block was the last block, the length of the block in bytes, and the
    /// new `Block`.
    pub fn read_from(bytes: &[u8]) -> (r: Result<(bool, u32, Block)>)
        ensures
            match (r, block_at(bytes@, 0)) {
                (Ok((last, n, blk)), Ok((l, m, end))) => last == l && blk@ == m && n == end,
                (Err(e), Err(k)) => e.kind == k,
                _ => false,
            },
    {
        Block::read_at(bytes, 0)
    }

    /// The payload of this block as written, or `None` where it cannot be written.
    fn payload(&self) -> (r: Option<Vec<u8>>)
        ensures
            match r {
                Some(v) => writable(self@) && v@ == payload_bytes(self@),
                None => !writable(self@),
            },
    {
        let bytes = match self {
            Block::StreamInfo(s) => s.to_bytes(),
            Block::Application(a) => a.to_bytes(),
            Block::CueSheet(c) => {
                if !c.fits() {
                    return None;
                }
                c.to_bytes()
            },
            Block::Padding(n) => {
                if *n >= 0x1000000 {
                    return None;
                }
                let mut v: Vec<u8> = Vec::new();
                push_zero_bytes(&mut v, *n as usize);
                v
            },
            Block::Picture(p) => {
                if !p.fits() {
                    return None;
                }
                p.to_bytes()
            },
            Block::SeekTable(t) => t.to_bytes(),
            Block::VorbisComment(v) => {
                if !v.fits() {
                    return None;
                }
                v.to_bytes()
            },
            Block::Unknown((_, d)) => copy_range(d.as_slice(), 0, d.len()),
        };
        proof {
            if let Block::Unknown((_, d)) = self {
                assert(d@.subrange(0, d@.len() as int) =~= d@);
            }
        }
        if bytes.len() >= 0x1000000 {
            return None;
        }
        Some(bytes)
    }

    /// Attempts to write the block to `out`. Returns the length of the block in bytes.
    pub fn write_to(&self, is_last: bool, out: &mut Vec<u8>) -> (r: Result<u32>)
        ensures
            match r {
                Ok(n) => writable(self@) && final(out)@ == old(out)@ + block_bytes(self@, is_last)
                    && n == block_bytes(self@, is_last).len(),
                Err(e) => !writable(self@) && e.kind == ErrorKind::InvalidInput && final(out)@
                    == old(out)@,
            },
    {
        let contents = match self.payload() {
            Some(c) => c,
            None => {
                return Err(Error::new(ErrorKind::InvalidInput, "block content cannot be written"));
            },
        };
        let t = self.block_type();
        let flag: u8 = if is_last { 0x80 } else { 0 };
        let byte: u8 = flag + t.to_u8() % 128;
        out.push(byte);
        let mut length = u64_to_be_bytes(contents.len() as u64, 3);
        out.append(&mut length);
        append_bytes(out, contents.as_slice());
        proof {
            lemma_be_bytes_len(payload_bytes(self@).len(), 3);
            assert(out@ =~= old(out)@ + block_bytes(self@, is_last));
        }
        Ok(contents.len() as u32 + 4)
    }

    /// Returns the corresponding block type byte for the block.
    pub fn block_type(&self) -> (r: BlockType)
        ensures
            r == model_type(self@),
    {
        match self {
            Block::StreamInfo(_) => BlockType::StreamInfo,
            Block::Application(_) => BlockType::Application,
            Block::CueSheet(_) => BlockType::CueSheet,
            Block::Padding(_) => BlockType::Padding,
            Block::Picture(_) => BlockType::Picture,
            Block::SeekTable(_) => BlockType::SeekTable,
            Block::VorbisComment(_) => BlockType::VorbisComment,
            Block::Unknown((c, _)) => BlockType::Unknown(*c),
        }
    }
}

/// Appends `n` zero bytes, a kibibyte at a time.
fn push_zero_bytes(out: &mut Vec<u8>, n: usize)
    ensures
        final(out)@ == old(out)@ + zeros(n as nat),
{
    let chunk: Vec<u8> = vec![0u8; 1024];
    let mut remaining: usize = n;
    while remaining > 0
        invariant
            remaining <= n,
            chunk@ == zeros(1024),
            out@ == old(out)@ + zeros((n - remaining) as nat),
        decreases remaining,
    {
        let step: usize = if remaining < 1024 { remaining } else { 1024 };
        append_bytes(out, &chunk.as_slice()[0..step]);
        remaining = remaining - step;
        assert(out@ =~= old(out)@ + zeros((n - remaining) as nat));
    }
}

/// Field values that a block's encoded form keeps exactly: each field within its bit width, a
/// four-byte application identifier, a 16-byte signature, catalog numbers and ISRCs that fit
/// their fields and do not end in NUL, comments under distinct upper-case keys without `=`, padding and payload below
/// 2^24 bytes, and an unknown type code outside the known ones that fits seven bits.
pub open spec fn block_valid(m: BlockModel) -> bool {
    &&& writable(m)
    &&& match m {
        BlockModel::StreamInfo(s) => streaminfo_valid(s),
        BlockModel::Application(a) => a.id.len() == 4,
        BlockModel::CueSheet(c) => cuesheet_valid(c),
        BlockModel::Padding(_) => true,
        BlockModel::Picture(p) => picture_fits(p),
        BlockModel::SeekTable(_) => true,
        BlockModel::VorbisComment(v) => vorbis_valid(v),
        BlockModel::Unknown(c, _) => 7 <= c < 128,
    }
}

/// Decoding the payload of a valid block, under its type code, gives the block back.
pub proof fn lemma_payload_round_trip(m: BlockModel)
    requires
        block_valid(m),
    ensures
        payload_of(type_code(model_type(m)), payload_bytes(m)) == Ok::<BlockModel, ErrorKind>(m),
{
    reveal(payload_of);
    match m {
        BlockModel::StreamInfo(s) => lemma_streaminfo_round_trip(s),
        BlockModel::Application(a) => lemma_application_round_trip(a),
        BlockModel::CueSheet(c) => lemma_cuesheet_round_trip(c),
        BlockModel::Picture(p) => lemma_picture_round_trip(p),
        BlockModel::SeekTable(t) => lemma_seektable_round_trip(t),
        BlockModel::VorbisComment(v) => lemma_vorbis_round_trip(v),
        _ => {},
    }
}

/// A block written anywhere in a stream is read back, with its last-block flag, from where it
/// starts, whatever precedes or follows it.
#[verifier::rlimit(100)]
pub proof fn lemma_block_round_trip(m: BlockModel, is_last: bool, before: Seq<u8>, after: Seq<u8>)
    requires
        block_valid(m),
    ensures
        block_at(before + block_bytes(m, is_last) + after, before.len() as int) == Ok::<
            (bool, BlockModel, int),
            ErrorKind,
        >((is_last, m, (before.len() + block_bytes(m, is_last).len()) as int)),
{
    lemma_payload_round_trip(m);
    let h = header_byte(is_last, model_type(m));
    let code = type_code(model_type(m));
    lemma_header(payload_bytes(m), h, before, after);
    assert(code < 128);
    assert(h % 128 == code);
    assert((h >= 128) == is_last);
    let b = before + block_bytes(m, is_last) + after;
    let pos = before.len() as int;
    lemma_be_bytes_len(payload_bytes(m).len(), 3);
    assert(block_bytes(m, is_last).len() == 4 + payload_bytes(m).len());
    assert(b[pos] % 128 == code);
    assert(block_at(b, pos) == Ok::<(bool, BlockModel, int), ErrorKind>(
        (is_last, m, pos + 4 + payload_bytes(m).len()),
    ));
    assert(payload_of(b[pos] % 128, b.subrange(pos + 4, pos + 4 + payload_bytes(m).len())) == Ok::<
        BlockModel,
        ErrorKind,
    >(m));
}

proof fn lemma_header(p: Seq<u8>, h: u8, before: Seq<u8>, after: Seq<u8>)
    requires
        p.len() < 0x1000000,
    ensures
        ({
            let b = before + (seq![h] + be_bytes(p.len(), 3) + p) + after;
            let pos = before.len() as int;
            &&& b.len() >= pos + 4 + p.len()
            &&& b[pos] == h
            &&& be_value(b.subrange(pos + 1, pos + 4)) == p.len()
            &&& b.subrange(pos + 4, pos + 4 + p.len()) == p
        }),
{
    lemma_pow256_8();
    let b = before + (seq![h] + be_bytes(p.len(), 3) + p) + after;
    let pos = before.len() as int;
    lemma_be_round_trip(p.len(), 3);
    assert(b.subrange(pos + 1, pos + 4) =~= be_bytes(p.len(), 3));
    assert(b.subrange(pos + 4, pos + 4 + p.len()) =~= p);
}

/// A cuesheet whose catalog number takes more than 128 bytes, or one of whose tracks has an
/// ISRC of more than 12 bytes, cannot be written.
pub proof fn lemma_oversized_cuesheet_rejected(c: CueSheetModel)
    requires
        encode_utf8(c.catalog_num).len() > 128 || exists|i: int|
            0 <= i < c.tracks.len() && encode_utf8(#[trigger] c.tracks[i].isrc).len() > 12,
    ensures
        !writable(BlockModel::CueSheet(c)),
{
}

/// Mapping a code to its type and back gives the code.
pub proof fn lemma_type_code_round_trip(n: u8)
    ensures
        type_code(type_of_code(n)) == n,
{
}

} // verus!
