use vstd::prelude::*;
use crate::error::{Error, ErrorKind, Result};
use super::{Block, block_at};

verus! {

/// Whether the four bytes at `p` are the stream identifier `fLaC`.
pub open spec fn is_ident_at(b: Seq<u8>, p: int) -> bool {
    b[p] == 0x66u8 && b[p + 1] == 0x4Cu8 && b[p + 2] == 0x61u8 && b[p + 3] == 0x43u8
}

/// Whether `b` starts with the header of an ID3v2.2, v2.3 or v2.4 tag.
pub open spec fn has_id3(b: Seq<u8>) -> bool {
    b.len() >= 4 && b[0] == 0x49u8 && b[1] == 0x44u8 && b[2] == 0x33u8 && 2 <= b[3] <= 4
}

/// The position after a leading ID3v2 tag: its 10-byte header, the size that the header
/// gives in four 7-bit groups, and a 10-byte footer where the flags announce one.
pub open spec fn id3_end(b: Seq<u8>) -> int {
    let size = (b[6] % 128) as int * 0x200000 + (b[7] % 128) as int * 0x4000 + (b[8] % 128) as int
        * 0x80 + (b[9] % 128) as int;
    let footer = if (b[5] / 16) % 2 == 1 {
        10int
    } else {
        0int
    };
    10 + size + footer
}

/// The position after the stream identifier, or the kind of error that finding it meets. A
/// leading ID3v2 tag is skipped once; a stream cut short is an I/O error; another identifier
/// is invalid input.
pub open spec fn ident_end(b: Seq<u8>) -> core::result::Result<int, ErrorKind> {
    if b.len() < 4 {
        Err(ErrorKind::Io)
    } else if has_id3(b) {
        if b.len() < 10 {
            Err(ErrorKind::Io)
        } else {
            let p = if id3_end(b) < b.len() {
                id3_end(b)
            } else {
                b.len() as int
            };
            if p + 4 > b.len() {
                Err(ErrorKind::Io)
            } else if is_ident_at(b, p) {
                Ok(p + 4)
            } else {
                Err(ErrorKind::InvalidInput)
            }
        }
    } else if is_ident_at(b, 0) {
        Ok(4)
    } else {
        Err(ErrorKind::InvalidInput)
    }
}

/// Finds the stream identifier of `bytes`, skipping a leading ID3v2 tag, and returns the
/// position after it.
pub fn read_ident(bytes: &[u8]) -> (r: Result<usize>)
    ensures
        match (r, ident_end(bytes@)) {
            (Ok(p), Ok(q)) => p == q,
            (Err(e), Err(k)) => e.kind == k,
            _ => false,
        },
{
    let len: usize = bytes.len();
    if len < 4 {
        return Err(Error::new(ErrorKind::Io, "stream is cut short"));
    }
    let mut p: usize = 0;
    if bytes[0] == 0x49 && bytes[1] == 0x44 && bytes[2] == 0x33 && 2 <= bytes[3] && bytes[3] <= 4 {
        if len < 10 {
            return Err(Error::new(ErrorKind::Io, "stream is cut short"));
        }
        let size: u64 = (bytes[6] % 128) as u64 * 0x200000 + (bytes[7] % 128) as u64 * 0x4000
            + (bytes[8] % 128) as u64 * 0x80 + (bytes[9] % 128) as u64;
        let footer: u64 = if (bytes[5] / 16) % 2 == 1 {
            10
        } else {
            0
        };
        let skip: u64 = 10 + size + footer;
        p = if skip < len as u64 {
            skip as usize
        } else {
            len
        };
        if len - p < 4 {
            return Err(Error::new(ErrorKind::Io, "stream is cut short"));
        }
    }
    if bytes[p] == 0x66 && bytes[p + 1] == 0x4C && bytes[p + 2] == 0x61 && bytes[p + 3] == 0x43 {
        Ok(p + 4)
    } else {
        Err(Error::new(ErrorKind::InvalidInput, "reader does not contain flac metadata"))
    }
}

/// The state of a block stream.
pub ghost struct BlocksState {
    /// Whether the identifier has been read.
    pub ident_read: bool,
    /// Whether the stream has ended.
    pub finished: bool,
    /// The bytes of the stream.
    pub data: Seq<u8>,
    /// The position of the next block.
    pub pos: int,
}

/// Iterator over FLAC stream's blocks
pub struct Blocks {
    ident_read: bool,
    finished: bool,
    data: Vec<u8>,
    pos: usize,
}

impl View for Blocks {
    type V = BlocksState;

    closed spec fn view(&self) -> BlocksState {
        BlocksState {
            ident_read: self.ident_read,
            finished: self.finished,
            data: self.data@,
            pos: self.pos as int,
        }
    }
}

/// What reading a block at `pos` gives: the result handed out and the state after it.
pub open spec fn step_at(s: BlocksState, pos: int, r: Option<Result<(u32, Block)>>, t: BlocksState) -> bool {
    &&& t.ident_read
    &&& t.data == s.data
    &&& match (r, block_at(s.data, pos)) {
        (Some(Ok((n, blk))), Ok((last, m, end))) => blk@ == m && n == end - pos && t.pos == end
            && t.finished == last,
        (Some(Err(e)), Err(k)) => e.kind == k && t.finished,
        _ => false,
    }
}

impl Blocks {
    /// Create new iterator over the blocks of the stream held in `data`.
    pub fn new(data: Vec<u8>) -> (r: Blocks)
        ensures
            r@ == (BlocksState { ident_read: false, finished: false, data: data@, pos: 0 }),
    {
        Blocks { ident_read: false, finished: false, data, pos: 0 }
    }

    /// The next block and its length in bytes, header included; `None` once the last block
    /// or an error has been handed out. The identifier is read first.
    pub fn next(&mut self) -> (r: Option<Result<(u32, Block)>>)
        ensures
            !old(self)@.ident_read ==> match ident_end(old(self)@.data) {
                Err(k) => match r {
                    Some(Err(e)) => e.kind == k && final(self)@.finished && final(self)@.ident_read
                        && final(self)@.data == old(self)@.data,
                    _ => false,
                },
                Ok(p) => step_at(old(self)@, p, r, final(self)@),
            },
            old(self)@.ident_read && old(self)@.finished ==> r is None && final(self)@ == old(self)@,
            old(self)@.ident_read && !old(self)@.finished ==> step_at(
                old(self)@,
                old(self)@.pos,
                r,
                final(self)@,
            ),
    {
        if !self.ident_read {
            self.ident_read = true;
            match read_ident(self.data.as_slice()) {
                Ok(p) => {
                    self.pos = p;
                },
                Err(err) => {
                    self.finished = true;
                    return Some(Err(err));
                },
            }
        } else if self.finished {
            return None;
        }
        let total: usize = self.data.len();
        match Block::read_at(self.data.as_slice(), self.pos) {
            Ok((is_last, length, block)) => {
                assert(self.pos + length <= total);
                self.finished = is_last;
                self.pos = self.pos + length as usize;
                Some(Ok((length, block)))
            },
            Err(err) => {
                self.finished = true;
                Some(Err(err))
            },
        }
    }
}

} // verus!
