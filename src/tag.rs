use vstd::prelude::*;
use crate::block::{
    Block, BlockModel, BlockType, Picture, PictureModel, PictureType, StreamInfo,
    VorbisComment, VorbisModel, model_type,
};
use crate::block::vorbis::{lookup, strings, with_values, without_key, without_pair};
use crate::block::{
    block_at, block_bytes, ident_end, is_ident_at, payload_bytes, read_ident, writable,
};
use crate::error::{Error, ErrorKind, Result};
use crate::text::{append_bytes, ascii_uppercase, copy_range, upper};
use crate::util::be_value;

/// What writing and reading a tag guarantee.
pub mod laws;

pub use laws::{
    all_valid, lemma_add_picture, lemma_bad_identifier, lemma_in_place_keeps_audio,
    lemma_rewrite_layout, lemma_tag_round_trip, lemma_vorbis_case_insensitive,
    picture_type_differs,
};

verus! {

/// The value of a `Tag`.
pub ghost struct TagModel {
    /// The path from which the blocks were loaded.
    pub path: Option<Seq<char>>,
    /// The blocks, in order.
    pub blocks: Seq<BlockModel>,
    /// The size of the metadata when the file was last read or written.
    pub length: u32,
}

/// A structure representing a flac metadata tag.
#[derive(Debug)]
pub struct Tag {
    /// The path from which the blocks were loaded.
    path: Option<String>,
    /// The metadata blocks contained in this tag.
    blocks: Vec<Block>,
    /// The size of the metadata when the file was read.
    length: u32,
}

/// The values of a list of blocks.
pub open spec fn models(v: Seq<Block>) -> Seq<BlockModel> {
    Seq::new(v.len(), |i: int| v[i]@)
}

/// The value of an optional path.
pub open spec fn path_model(p: Option<String>) -> Option<Seq<char>> {
    match p {
        Some(s) => Some(s@),
        None => None,
    }
}

impl View for Tag {
    type V = TagModel;

    closed spec fn view(&self) -> TagModel {
        TagModel { path: path_model(self.path), blocks: models(self.blocks@), length: self.length }
    }
}

/// Whether a block is of a type other than `t`.
pub open spec fn type_differs(t: BlockType) -> spec_fn(BlockModel) -> bool {
    |m: BlockModel| model_type(m) != t
}

/// Whether a block is of type `t`.
pub open spec fn type_is(t: BlockType) -> spec_fn(BlockModel) -> bool {
    |m: BlockModel| model_type(m) == t
}

/// Whether a block is anything but a picture of type `t`.
pub open spec fn not_picture_of(t: PictureType) -> spec_fn(BlockModel) -> bool {
    |m: BlockModel|
        match m {
            BlockModel::Picture(p) => p.picture_type != t,
            _ => true,
        }
}

/// The pictures among `bs`.
pub open spec fn pictures_of(bs: Seq<BlockModel>) -> Seq<PictureModel>
    decreases bs.len(),
{
    if bs.len() == 0 {
        Seq::empty()
    } else {
        match bs.last() {
            BlockModel::Picture(p) => pictures_of(bs.drop_last()).push(p),
            _ => pictures_of(bs.drop_last()),
        }
    }
}

/// The position of the first block of `bs` that `f` holds of, or -1.
pub open spec fn first_where(bs: Seq<BlockModel>, f: spec_fn(BlockModel) -> bool) -> int
    decreases bs.len(),
{
    if bs.len() == 0 {
        -1
    } else if first_where(bs.drop_last(), f) >= 0 {
        first_where(bs.drop_last(), f)
    } else if f(bs.last()) {
        bs.len() - 1
    } else {
        -1
    }
}

pub proof fn lemma_first_where(bs: Seq<BlockModel>, f: spec_fn(BlockModel) -> bool)
    ensures
        -1 <= first_where(bs, f) < bs.len(),
        first_where(bs, f) >= 0 ==> f(bs[first_where(bs, f)]),
        forall|i: int|
            0 <= i < bs.len() && (first_where(bs, f) < 0 || i < first_where(bs, f)) ==> !f(
                #[trigger] bs[i],
            ),
    decreases bs.len(),
{
    if bs.len() > 0 {
        lemma_first_where(bs.drop_last(), f);
        assert(forall|i: int| 0 <= i < bs.len() - 1 ==> bs.drop_last()[i] == bs[i]);
    }
}

/// Whether a block holds vorbis comments.
pub open spec fn is_vorbis() -> spec_fn(BlockModel) -> bool {
    |m: BlockModel| m is VorbisComment
}

/// Whether a block holds stream information.
pub open spec fn is_streaminfo() -> spec_fn(BlockModel) -> bool {
    |m: BlockModel| m is StreamInfo
}

/// The first vorbis comment block of `bs`, if any.
pub open spec fn comments_of(bs: Seq<BlockModel>) -> Option<VorbisModel> {
    let i = first_where(bs, is_vorbis());
    if i >= 0 {
        Some(bs[i]->VorbisComment_0)
    } else {
        None
    }
}

/// `bs` with its first vorbis comment block set to `v`, or with `v` appended where it has
/// none.
pub open spec fn with_comments(bs: Seq<BlockModel>, v: VorbisModel) -> Seq<BlockModel> {
    let i = first_where(bs, is_vorbis());
    if i >= 0 {
        bs.update(i, BlockModel::VorbisComment(v))
    } else {
        bs.push(BlockModel::VorbisComment(v))
    }
}

/// The comments of the first vorbis comment block, or an empty one.
pub open spec fn current_comments(bs: Seq<BlockModel>) -> VorbisModel {
    match comments_of(bs) {
        Some(v) => v,
        None => VorbisModel { vendor_string: Seq::empty(), comments: Seq::empty() },
    }
}

/// The first stream information block of `bs`, if any.
pub open spec fn streaminfo_of_blocks(bs: Seq<BlockModel>) -> Option<crate::block::StreamInfoModel> {
    let i = first_where(bs, is_streaminfo());
    if i >= 0 {
        Some(bs[i]->StreamInfo_0)
    } else {
        None
    }
}

/// Position of the first block that holds vorbis comments.
fn first_vorbis(blocks: &Vec<Block>) -> (r: Option<usize>)
    ensures
        match r {
            Some(i) => i as int == first_where(models(blocks@), is_vorbis()),
            None => first_where(models(blocks@), is_vorbis()) < 0,
        },
{
    let ghost bs = models(blocks@);
    let mut i: usize = 0;
    while i < blocks.len()
        invariant
            i <= blocks@.len(),
            bs == models(blocks@),
            first_where(bs.subrange(0, i as int), is_vorbis()) < 0,
        decreases blocks@.len() - i,
    {
        let ghost next = bs.subrange(0, i + 1);
        assert(next.drop_last() =~= bs.subrange(0, i as int));
        if let Block::VorbisComment(_) = &blocks[i] {
            proof {
                lemma_first_where_prefix(bs, (i + 1) as nat, is_vorbis());
            }
            return Some(i);
        }
        i = i + 1;
    }
    assert(bs.subrange(0, i as int) =~= bs);
    None
}

/// The first match in a sequence is the first match in any prefix that holds one.
proof fn lemma_first_where_prefix(bs: Seq<BlockModel>, n: nat, f: spec_fn(BlockModel) -> bool)
    requires
        n <= bs.len(),
        first_where(bs.subrange(0, n as int), f) >= 0,
    ensures
        first_where(bs, f) == first_where(bs.subrange(0, n as int), f),
    decreases bs.len(),
{
    if n < bs.len() {
        assert(bs.drop_last().subrange(0, n as int) =~= bs.subrange(0, n as int));
        lemma_first_where_prefix(bs.drop_last(), n, f);
    } else {
        assert(bs.subrange(0, n as int) =~= bs);
    }
}

/// Keeps, in order, the blocks that are not of type `t`, or with `pictures_only` the blocks
/// that are not pictures of type `pt`.
fn retain_blocks(blocks: &mut Vec<Block>, t: BlockType, pictures_only: bool, pt: PictureType)
    ensures
        models(final(blocks)@) == models(old(blocks)@).filter(
            if pictures_only {
                not_picture_of(pt)
            } else {
                type_differs(t)
            },
        ),
{
    let ghost f = if pictures_only {
        not_picture_of(pt)
    } else {
        type_differs(t)
    };
    let ghost bs = models(blocks@);
    let mut rest: Vec<Block> = Vec::new();
    std::mem::swap(&mut rest, blocks);
    let ghost all = rest@;
    let n: usize = rest.len();
    let mut i: usize = 0;
    proof {
        reveal(Seq::filter);
        assert(models(blocks@) =~= bs.subrange(0, 0).filter(f));
    }
    while i < n
        invariant
            n == all.len(),
            i <= n,
            bs == models(all),
            rest@ == all.subrange(i as int, n as int),
            models(blocks@) == bs.subrange(0, i as int).filter(f),
            f == (if pictures_only {
                not_picture_of(pt)
            } else {
                type_differs(t)
            }),
        decreases n - i,
    {
        assert(rest@[0] == all[i as int]);
        let b = rest.remove(0);
        assert(rest@ =~= all.subrange(i + 1, n as int));
        let ghost before = models(blocks@);
        let ghost next = bs.subrange(0, i + 1);
        assert(next.drop_last() =~= bs.subrange(0, i as int));
        assert(next.last() == b@);
        proof {
            reveal(Seq::filter);
        }
        let keep = if pictures_only {
            match &b {
                Block::Picture(p) => p.picture_type != pt,
                _ => true,
            }
        } else {
            b.block_type() != t
        };
        if keep {
            let ghost bv = b@;
            assert(f(bv));
            blocks.push(b);
            assert(models(blocks@) =~= before.push(bv));
        } else {
            assert(!f(b@));
        }
        i = i + 1;
    }
    assert(bs.subrange(0, n as int) =~= bs);
}

proof fn lemma_models_update(v: Seq<Block>)
    ensures
        forall|i: int, x: Block|
            0 <= i < v.len() ==> #[trigger] models(v.update(i, x)) == models(v).update(i, x@),
{
    assert forall|i: int, x: Block| 0 <= i < v.len() implies #[trigger] models(v.update(i, x))
        == models(v).update(i, x@) by {
        assert(models(v.update(i, x)) =~= models(v).update(i, x@));
    }
}

/// The blocks from `pos` on, up to the one marked last, and the position after it; or the
/// kind of error that reading them meets.
pub open spec fn blocks_from(b: Seq<u8>, pos: int) -> core::result::Result<
    (Seq<BlockModel>, int),
    ErrorKind,
>
    decreases b.len() - pos,
{
    match block_at(b, pos) {
        Err(k) => Err(k),
        Ok((last, m, end)) => if last {
            Ok((seq![m], end))
        } else if end <= pos || end > b.len() {
            Err(ErrorKind::Io)
        } else {
            match blocks_from(b, end) {
                Err(k) => Err(k),
                Ok((ms, e)) => Ok((seq![m] + ms, e)),
            }
        },
    }
}

/// The blocks of a stream and their length in bytes, or the kind of error that reading them
/// meets. Metadata of 2^32 bytes or more is invalid input.
pub open spec fn tag_of(b: Seq<u8>) -> core::result::Result<(Seq<BlockModel>, nat), ErrorKind> {
    match ident_end(b) {
        Err(k) => Err(k),
        Ok(p) => match blocks_from(b, p) {
            Err(k) => Err(k),
            Ok((ms, e)) => if e - p >= 0x100000000 {
                Err(ErrorKind::InvalidInput)
            } else {
                Ok((ms, (e - p) as nat))
            },
        },
    }
}

/// The stream identifier.
pub open spec fn flac_ident() -> Seq<u8> {
    seq![0x66u8, 0x4Cu8, 0x61u8, 0x43u8]
}

/// The first `k` blocks of `bs` as written, the last of `bs` marked as such.
pub open spec fn blocks_bytes(bs: Seq<BlockModel>, k: nat) -> Seq<u8>
    decreases k,
{
    if k == 0 || k > bs.len() {
        Seq::empty()
    } else {
        blocks_bytes(bs, (k - 1) as nat) + block_bytes(bs[k - 1], k == bs.len())
    }
}

/// The blocks as written, none marked last.
pub open spec fn body_bytes(bs: Seq<BlockModel>) -> Seq<u8>
    decreases bs.len(),
{
    if bs.len() == 0 {
        Seq::empty()
    } else {
        body_bytes(bs.drop_last()) + block_bytes(bs.last(), false)
    }
}

proof fn lemma_blocks_bytes_grow(bs: Seq<BlockModel>, k: nat, m: nat)
    requires
        k <= m <= bs.len(),
    ensures
        blocks_bytes(bs, k).len() <= blocks_bytes(bs, m).len(),
    decreases m,
{
    if k < m {
        lemma_blocks_bytes_grow(bs, k, (m - 1) as nat);
    }
}

/// Whether every block can be written.
pub open spec fn all_writable(bs: Seq<BlockModel>) -> bool {
    forall|i: int| 0 <= i < bs.len() ==> writable(#[trigger] bs[i])
}

/// The bytes of a file once the metadata before `pos` has been skipped: everything after the
/// block marked last, or everything from the start where a header is cut short.
pub open spec fn metadata_end(b: Seq<u8>, pos: int) -> Option<int>
    decreases b.len() - pos,
{
    if pos < 0 || pos + 4 > b.len() {
        None
    } else {
        let next = pos + 4 + be_value(b.subrange(pos + 1, pos + 4));
        if b[pos] >= 128 {
            Some(next)
        } else if next >= b.len() {
            None
        } else {
            metadata_end(b, next)
        }
    }
}

/// The contents of a file without its metadata: what follows the last block, or the whole file
/// where it does not start with the identifier or its headers are cut short.
pub open spec fn without_metadata(b: Seq<u8>) -> Seq<u8> {
    if b.len() < 4 || !is_ident_at(b, 0) {
        b
    } else {
        match metadata_end(b, 4) {
            None => b,
            Some(e) => if e >= b.len() {
                Seq::empty()
            } else {
                b.subrange(e, b.len() as int)
            },
        }
    }
}

/// The size of the padding block that a fresh file gets.
pub open spec fn fresh_padding() -> u32 {
    1024
}

/// Whether writing `t` to `path` can overwrite its prior metadata region in place: the tag was
/// read from that path, the region holds the new blocks and a padding block header, and the
/// padding left fits a block.
pub open spec fn fits_in_place(t: TagModel, path: Seq<char>, new_len: int) -> bool {
    &&& t.path == Some(path)
    &&& new_len + 4 <= t.length
    &&& t.length - new_len - 4 < 0x1000000
}

/// The file that writing `t` to `path` gives where the file held `existing`, or the kind of
/// error that writing meets. Padding blocks are dropped and one fresh padding block goes last.
pub open spec fn written_file(t: TagModel, path: Seq<char>, existing: Option<Seq<u8>>)
    -> core::result::Result<Seq<u8>, ErrorKind> {
    let bs = t.blocks.filter(type_differs(BlockType::Padding));
    let body = body_bytes(bs);
    if !all_writable(bs) {
        Err(ErrorKind::InvalidInput)
    } else if fits_in_place(t, path, body.len() as int) {
        match existing {
            None => Err(ErrorKind::Io),
            Some(prior) => match ident_end(prior) {
                Err(k) => Err(k),
                Ok(p) => {
                    let pad = (t.length - body.len() - 4) as u32;
                    let rest = if p + t.length < prior.len() {
                        prior.subrange(p + t.length, prior.len() as int)
                    } else {
                        Seq::empty()
                    };
                    Ok(prior.subrange(0, p) + body + block_bytes(BlockModel::Padding(pad), true) + rest)
                },
            },
        }
    } else if body.len() + 4 + fresh_padding() >= 0x100000000 {
        Err(ErrorKind::InvalidInput)
    } else {
        let rest = match existing {
            None => Seq::empty(),
            Some(prior) => without_metadata(prior),
        };
        Ok(flac_ident() + body + block_bytes(BlockModel::Padding(fresh_padding()), true) + rest)
    }
}

/// The tag that writing `t` to `path` leaves.
pub open spec fn tag_after_write(t: TagModel, path: Seq<char>) -> TagModel {
    let bs = t.blocks.filter(type_differs(BlockType::Padding));
    let n = body_bytes(bs).len() as int;
    if fits_in_place(t, path, n) {
        TagModel {
            path: Some(path),
            blocks: bs.push(BlockModel::Padding((t.length - n - 4) as u32)),
            length: t.length,
        }
    } else {
        TagModel {
            path: Some(path),
            blocks: bs.push(BlockModel::Padding(fresh_padding())),
            length: (n + 4 + fresh_padding()) as u32,
        }
    }
}

/// The value of optional file contents.
pub open spec fn opt_bytes(b: Option<&[u8]>) -> Option<Seq<u8>> {
    match b {
        Some(x) => Some(x@),
        None => None,
    }
}

/// Whether a stream starts with the identifier.
pub open spec fn starts_with_ident(b: Seq<u8>) -> bool {
    b.len() >= 4 && is_ident_at(b, 0)
}

/// Appends each block of `blocks` as written, none marked last.
fn write_body(blocks: &Vec<Block>, out: &mut Vec<u8>) -> (r: Result<()>)
    ensures
        match r {
            Ok(()) => all_writable(models(blocks@)) && final(out)@ == old(out)@ + body_bytes(
                models(blocks@),
            ),
            Err(e) => !all_writable(models(blocks@)) && e.kind == ErrorKind::InvalidInput,
        },
{
    let ghost bs = models(blocks@);
    let mut i: usize = 0;
    assert(bs.subrange(0, 0) =~= Seq::<BlockModel>::empty());
    while i < blocks.len()
        invariant
            i <= blocks@.len(),
            bs == models(blocks@),
            forall|j: int| 0 <= j < i ==> writable(#[trigger] bs[j]),
            out@ == old(out)@ + body_bytes(bs.subrange(0, i as int)),
        decreases blocks@.len() - i,
    {
        match blocks[i].write_to(false, out) {
            Ok(_) => {},
            Err(e) => {
                assert(!writable(bs[i as int]));
                return Err(e);
            },
        }
        let ghost next = bs.subrange(0, i + 1);
        assert(next.drop_last() =~= bs.subrange(0, i as int));
        i = i + 1;
    }
    assert(bs.subrange(0, i as int) =~= bs);
    Ok(())
}

/// The vorbis comments that a block known to hold them holds.
fn comments_in(b: &mut Block) -> (r: &mut VorbisComment)
    requires
        old(b)@ is VorbisComment,
    ensures
        r@ == old(b)@->VorbisComment_0,
        final(b)@ == BlockModel::VorbisComment(final(r)@),
{
    match b {
        Block::VorbisComment(c) => c,
        _ => vstd::pervasive::unreached(),
    }
}

impl Tag {
    /// Creates a new FLAC tag with no blocks.
    pub fn new() -> (r: Tag)
        ensures
            r@ == (TagModel { path: None, blocks: Seq::empty(), length: 0 }),
    {
        let r = Tag { path: None, blocks: Vec::new(), length: 0 };
        assert(models(r.blocks@) =~= Seq::<BlockModel>::empty());
        r
    }

    /// Adds a block to the tag. A streaminfo block replaces any other and goes first.
    pub fn push_block(&mut self, block: Block)
        ensures
            final(self)@.path == old(self)@.path,
            final(self)@.length == old(self)@.length,
            final(self)@.blocks == if block@ is StreamInfo {
                seq![block@] + old(self)@.blocks.filter(type_differs(BlockType::StreamInfo))
            } else {
                old(self)@.blocks.push(block@)
            },
    {
        if let Block::StreamInfo(s) = block {
            self.set_streaminfo(s);
            return;
        }
        let ghost before = self@.blocks;
        let ghost bv = block@;
        self.blocks.push(block);
        assert(self@.blocks =~= before.push(bv));
    }

    /// Returns the blocks in the tag.
    pub fn blocks(&self) -> (r: &Vec<Block>)
        ensures
            models(r@) == self@.blocks,
    {
        &self.blocks
    }

    /// Returns references to the blocks with the specified type.
    pub fn get_blocks(&self, block_type: BlockType) -> (r: Vec<&Block>)
        ensures
            Seq::new(r@.len(), |i: int| r@[i]@) == self@.blocks.filter(type_is(block_type)),
    {
        let ghost bs = self@.blocks;
        let ghost f = type_is(block_type);
        let mut out: Vec<&Block> = Vec::new();
        let mut i: usize = 0;
        proof {
            reveal(Seq::filter);
            assert(Seq::new(out@.len(), |j: int| out@[j]@) =~= bs.subrange(0, 0).filter(f));
        }
        while i < self.blocks.len()
            invariant
                i <= self.blocks@.len(),
                bs == self@.blocks,
                bs == models(self.blocks@),
                f == type_is(block_type),
                Seq::new(out@.len(), |j: int| out@[j]@) == bs.subrange(0, i as int).filter(f),
            decreases self.blocks@.len() - i,
        {
            let ghost before = Seq::new(out@.len(), |j: int| out@[j]@);
            let ghost next = bs.subrange(0, i + 1);
            assert(next.drop_last() =~= bs.subrange(0, i as int));
            proof {
                reveal(Seq::filter);
            }
            let b = &self.blocks[i];
            if b.block_type() == block_type {
                out.push(b);
                assert(Seq::new(out@.len(), |j: int| out@[j]@) =~= before.push(b@));
            }
            i = i + 1;
        }
        assert(bs.subrange(0, i as int) =~= bs);
        out
    }

    /// Removes blocks with the specified type.
    pub fn remove_blocks(&mut self, block_type: BlockType)
        ensures
            final(self)@.path == old(self)@.path,
            final(self)@.length == old(self)@.length,
            final(self)@.blocks == old(self)@.blocks.filter(type_differs(block_type)),
    {
        retain_blocks(&mut self.blocks, block_type, false, PictureType::Other);
    }

    /// Returns a reference to the first vorbis comment block.
    /// Returns `None` if no vorbis comment blocks are found.
    pub fn vorbis_comments(&self) -> (r: Option<&VorbisComment>)
        ensures
            match (r, comments_of(self@.blocks)) {
                (Some(c), Some(m)) => c@ == m,
                (None, None) => true,
                _ => false,
            },
    {
        proof {
            lemma_first_where(self@.blocks, is_vorbis());
        }
        match first_vorbis(&self.blocks) {
            Some(i) => match &self.blocks[i] {
                Block::VorbisComment(c) => Some(c),
                _ => None,
            },
            None => None,
        }
    }

    /// Returns a mutable reference to the first vorbis comment block.
    /// If no block is found, a new vorbis comment block is added to the tag and a reference to the
    /// newly added block is returned.
    pub fn vorbis_comments_mut(&mut self) -> (r: &mut VorbisComment)
        ensures
            r@ == current_comments(old(self)@.blocks),
            final(self)@.path == old(self)@.path,
            final(self)@.length == old(self)@.length,
            final(self)@.blocks == with_comments(old(self)@.blocks, final(r)@),
    {
        proof {
            lemma_first_where(self@.blocks, is_vorbis());
        }
        let ghost bs = self@.blocks;
        let i = match first_vorbis(&self.blocks) {
            Some(i) => i,
            None => {
                let b = Block::VorbisComment(VorbisComment::new());
                let ghost bv = b@;
                self.blocks.push(b);
                assert(self@.blocks =~= bs.push(bv));
                self.blocks.len() - 1
            },
        };
        proof {
            lemma_models_update(self.blocks@);
        }
        comments_in(&mut self.blocks[i])
    }

    /// Returns the values for the specified vorbis comment key, which is matched without
    /// regard to ASCII case.
    /// Returns `None` if the tag does not contain a vorbis comment or if the vorbis comment does
    /// not contain a comment with the specified key.
    pub fn get_vorbis(&self, key: &str) -> (r: Option<&Vec<String>>)
        ensures
            match (r, comments_of(self@.blocks)) {
                (Some(v), Some(c)) => lookup(c.comments, upper(key@)) == Some(strings(v@)),
                (None, Some(c)) => lookup(c.comments, upper(key@)) is None,
                (None, None) => true,
                _ => false,
            },
    {
        match self.vorbis_comments() {
            Some(c) => {
                let k = ascii_uppercase(key);
                c.get(k.as_str())
            },
            None => None,
        }
    }

    /// Sets the values for the specified vorbis comment key, folded to upper case.
    pub fn set_vorbis(&mut self, key: &str, values: Vec<&str>)
        ensures
            final(self)@.path == old(self)@.path,
            final(self)@.length == old(self)@.length,
            final(self)@.blocks == with_comments(
                old(self)@.blocks,
                VorbisModel {
                    vendor_string: current_comments(old(self)@.blocks).vendor_string,
                    comments: with_values(
                        current_comments(old(self)@.blocks).comments,
                        upper(key@),
                        Seq::new(values@.len(), |i: int| values@[i]@),
                    ),
                },
            ),
    {
        let k = ascii_uppercase(key);
        self.vorbis_comments_mut().set(k.as_str(), values);
    }

    /// Removes the values for the specified vorbis comment key, folded to upper case.
    pub fn remove_vorbis(&mut self, key: &str)
        ensures
            final(self)@.path == old(self)@.path,
            final(self)@.length == old(self)@.length,
            final(self)@.blocks == with_comments(
                old(self)@.blocks,
                VorbisModel {
                    vendor_string: current_comments(old(self)@.blocks).vendor_string,
                    comments: without_key(current_comments(old(self)@.blocks).comments, upper(key@)),
                },
            ),
    {
        let k = ascii_uppercase(key);
        self.vorbis_comments_mut().remove(k.as_str());
    }

    /// Removes the vorbis comments with the specified key, folded to upper case, and value.
    pub fn remove_vorbis_pair(&mut self, key: &str, value: &str)
        ensures
            final(self)@.path == old(self)@.path,
            final(self)@.length == old(self)@.length,
            final(self)@.blocks == with_comments(
                old(self)@.blocks,
                VorbisModel {
                    vendor_string: current_comments(old(self)@.blocks).vendor_string,
                    comments: without_pair(
                        current_comments(old(self)@.blocks).comments,
                        upper(key@),
                        value@,
                    ),
                },
            ),
    {
        let k = ascii_uppercase(key);
        self.vorbis_comments_mut().remove_pair(k.as_str(), value);
    }

    /// The path from which the tag was read or to which it was last written.
    pub fn path(&self) -> (r: Option<&String>)
        ensures
            match r {
                Some(p) => self@.path == Some(p@),
                None => self@.path is None,
            },
    {
        match &self.path {
            Some(p) => Some(p),
            None => None,
        }
    }

    /// Remembers the path from which the tag was read.
    pub fn set_path(&mut self, path: Option<String>)
        ensures
            final(self)@.path == path_model(path),
            final(self)@.blocks == old(self)@.blocks,
            final(self)@.length == old(self)@.length,
    {
        self.path = path;
    }

    /// Will return true if the bytes are a candidate for FLAC metadata: they start with the
    /// identifier.
    pub fn is_candidate(bytes: &[u8]) -> (r: bool)
        ensures
            r == starts_with_ident(bytes@),
    {
        bytes.len() >= 4 && bytes[0] == 0x66 && bytes[1] == 0x4C && bytes[2] == 0x61 && bytes[3]
            == 0x43
    }

    /// Returns the contents of a file without any FLAC metadata.
    pub fn skip_metadata(bytes: &[u8]) -> (r: Vec<u8>)
        ensures
            r@ == without_metadata(bytes@),
    {
        let len: usize = bytes.len();
        if !Tag::is_candidate(bytes) {
            return copy_range(bytes, 0, len);
        }
        let mut pos: usize = 4;
        loop
            invariant
                len == bytes@.len(),
                4 <= pos <= len,
                starts_with_ident(bytes@),
                metadata_end(bytes@, 4) == metadata_end(bytes@, pos as int),
            decreases len - pos,
        {
            if len - pos < 4 {
                return copy_range(bytes, 0, len);
            }
            proof {
                crate::util::lemma_be_value_bound(bytes@.subrange(pos + 1, pos + 4));
                crate::util::lemma_pow256_8();
            }
            let length: u64 = crate::util::read_be(bytes, pos + 1, 3);
            let more = bytes[pos] < 128;
            if length >= (len - pos - 4) as u64 {
                if more {
                    proof {
                        let next = pos + 4 + length;
                        assert(next >= len);
                        assert(metadata_end(bytes@, next as int) is None);
                    }
                    return copy_range(bytes, 0, len);
                }
                return Vec::new();
            }
            let next: usize = pos + 4 + length as usize;
            if !more {
                return copy_range(bytes, next, len);
            }
            pos = next;
        }
    }

    /// Attempts to read a FLAC tag from the bytes of a stream.
    pub fn read_from(bytes: &[u8]) -> (r: Result<Tag>)
        ensures
            match (r, tag_of(bytes@)) {
                (Ok(t), Ok((ms, n))) => t@ == (TagModel { path: None, blocks: ms, length: n as u32 }),
                (Err(e), Err(k)) => e.kind == k,
                _ => false,
            },
    {
        let start = read_ident(bytes)?;
        let len: usize = bytes.len();
        let mut blocks: Vec<Block> = Vec::new();
        let mut pos: usize = start;
        let ghost whole = blocks_from(bytes@, start as int);
        assert(models(blocks@) =~= Seq::<BlockModel>::empty());
        loop
            invariant
                len == bytes@.len(),
                start <= pos <= len,
                ident_end(bytes@) == Ok::<int, ErrorKind>(start as int),
                whole == blocks_from(bytes@, start as int),
                whole == match blocks_from(bytes@, pos as int) {
                    Err(k) => Err(k),
                    Ok((ms, e)) => Ok::<(Seq<BlockModel>, int), ErrorKind>((models(blocks@) + ms, e)),
                },
            decreases len - pos,
        {
            match Block::read_at(bytes, pos) {
                Err(e) => {
                    return Err(e);
                },
                Ok((is_last, length, block)) => {
                    let ghost before = models(blocks@);
                    let ghost bv = block@;
                    blocks.push(block);
                    assert(models(blocks@) =~= before.push(bv));
                    let next: usize = pos + length as usize;
                    if is_last {
                        assert(before + seq![bv] =~= before.push(bv));
                        if (next - start) as u64 >= 0x100000000 {
                            return Err(Error::new(ErrorKind::InvalidInput, "metadata is too large"));
                        }
                        return Ok(Tag { path: None, blocks, length: (next - start) as u32 });
                    }
                    proof {
                        match blocks_from(bytes@, next as int) {
                            Err(k) => {},
                            Ok((ms, e)) => {
                                assert(before + (seq![bv] + ms) =~= before.push(bv) + ms);
                            },
                        }
                    }
                    pos = next;
                },
            }
        }
    }

    /// Attempts to write the FLAC tag to `out`, the last block marked as such, and remembers
    /// the length of the metadata written.
    pub fn write_to(&mut self, out: &mut Vec<u8>) -> (r: Result<()>)
        ensures
            final(self)@.path == old(self)@.path,
            final(self)@.blocks == old(self)@.blocks,
            match r {
                Ok(()) => all_writable(old(self)@.blocks) && blocks_bytes(
                    old(self)@.blocks,
                    old(self)@.blocks.len(),
                ).len() < 0x100000000 && final(out)@ == old(out)@ + flac_ident() + blocks_bytes(
                    old(self)@.blocks,
                    old(self)@.blocks.len(),
                ) && final(self)@.length == blocks_bytes(
                    old(self)@.blocks,
                    old(self)@.blocks.len(),
                ).len(),
                Err(e) => e.kind == ErrorKind::InvalidInput && !(all_writable(old(self)@.blocks)
                    && blocks_bytes(old(self)@.blocks, old(self)@.blocks.len()).len()
                    < 0x100000000),
            },
    {
        out.push(0x66);
        out.push(0x4C);
        out.push(0x61);
        out.push(0x43);
        let ghost head = out@;
        assert(head =~= old(out)@ + flac_ident());
        let ghost bs = self@.blocks;
        let n: usize = self.blocks.len();
        let mut total: u64 = 0;
        let mut i: usize = 0;
        while i < n
            invariant
                n == bs.len(),
                bs == models(self.blocks@),
                i <= n,
                forall|j: int| 0 <= j < i ==> writable(#[trigger] bs[j]),
                out@ == head + blocks_bytes(bs, i as nat),
                total == blocks_bytes(bs, i as nat).len(),
                total < 0x100000000,
            decreases n - i,
        {
            let written = match self.blocks[i].write_to(i == n - 1, out) {
                Ok(w) => w,
                Err(e) => {
                    assert(!writable(bs[i as int]));
                    return Err(e);
                },
            };
            proof {
                crate::util::lemma_be_bytes_len(crate::block::payload_bytes(bs[i as int]).len(), 3);
            }
            total = total + written as u64;
            i = i + 1;
            if total >= 0x100000000 {
                proof {
                    lemma_blocks_bytes_grow(bs, i as nat, n as nat);
                }
                return Err(Error::new(ErrorKind::InvalidInput, "metadata is too large"));
            }
        }
        self.length = total as u32;
        Ok(())
    }

    /// Writes the tag for the file at `path`, which holds `existing` (`None` where there is no
    /// such file), and returns the new contents of that file. Padding blocks are dropped. Where
    /// the tag was read from `path` and the prior metadata region holds the new blocks and a
    /// padding block header, the region is overwritten in place, the rest of padding filling
    /// it, and every byte after it is kept. Otherwise the file is rewritten: the identifier,
    /// the blocks, a fresh padding block, then what followed the prior metadata.
    pub fn write_to_path(&mut self, path: &str, existing: Option<&[u8]>) -> (r: Result<Vec<u8>>)
        ensures
            match (r, written_file(old(self)@, path@, opt_bytes(existing))) {
                (Ok(v), Ok(f)) => v@ == f && final(self)@ == tag_after_write(old(self)@, path@),
                (Err(e), Err(k)) => e.kind == k && final(self)@.path == old(self)@.path
                    && final(self)@.length == old(self)@.length && final(self)@.blocks == old(
                    self,
                )@.blocks.filter(type_differs(BlockType::Padding)),
                _ => false,
            },
    {
        self.remove_blocks(BlockType::Padding);
        let mut body: Vec<u8> = Vec::new();
        write_body(&self.blocks, &mut body)?;
        assert(body@ =~= body_bytes(self@.blocks));
        let new_len: usize = body.len();
        let target = path.to_owned();
        let same = match &self.path {
            Some(p) => *p == target,
            None => false,
        };
        let ghost bs = self@.blocks;
        if same && (self.length as u64) >= 4 && (new_len as u64) <= (self.length as u64) - 4 && (
        self.length as u64 - new_len as u64 - 4) < 0x1000000 {
            let old_bytes = match existing {
                Some(b) => b,
                None => {
                    return Err(Error::new(ErrorKind::Io, "file to overwrite does not exist"));
                },
            };
            let p = read_ident(old_bytes)?;
            let pad: u32 = self.length - new_len as u32 - 4;
            let len: usize = old_bytes.len();
            let mut out = copy_range(old_bytes, 0, p);
            append_bytes(&mut out, body.as_slice());
            let padding = Block::Padding(pad);
            let _ = padding.write_to(true, &mut out);
            let rest_start: usize = if (self.length as u64) < (len - p) as u64 {
                p + self.length as usize
            } else {
                len
            };
            let mut rest = copy_range(old_bytes, rest_start, len);
            out.append(&mut rest);
            let ghost pv = padding@;
            self.blocks.push(padding);
            assert(self@.blocks =~= bs.push(pv));
            self.path = Some(target);
            proof {
                if !(p + old(self)@.length < len) {
                    assert(old_bytes@.subrange(len as int, len as int) =~= Seq::<u8>::empty());
                }
            }
            Ok(out)
        } else {
            if (new_len as u64) >= 0x100000000 - 4 - 1024 {
                return Err(Error::new(ErrorKind::InvalidInput, "metadata is too large"));
            }
            let mut out: Vec<u8> = Vec::new();
            out.push(0x66);
            out.push(0x4C);
            out.push(0x61);
            out.push(0x43);
            append_bytes(&mut out, body.as_slice());
            let padding = Block::Padding(1024);
            let _ = padding.write_to(true, &mut out);
            let mut rest = match existing {
                Some(b) => Tag::skip_metadata(b),
                None => Vec::new(),
            };
            out.append(&mut rest);
            let ghost pv = padding@;
            self.blocks.push(padding);
            assert(self@.blocks =~= bs.push(pv));
            self.length = new_len as u32 + 4 + 1024;
            self.path = Some(target);
            Ok(out)
        }
    }

    /// Attempts to save the tag back to the file which it was read from, which holds
    /// `existing`, and returns the new contents of that file. An `ErrorKind::InvalidInput` is
    /// returned if this is called on a tag which was not read from a file.
    pub fn save(&mut self, existing: Option<&[u8]>) -> (r: Result<Vec<u8>>)
        ensures
            match old(self)@.path {
                None => r matches Err(e) && e.kind == ErrorKind::InvalidInput && final(self)@ == old(
                    self,
                )@,
                Some(path) => match (r, written_file(old(self)@, path, opt_bytes(existing))) {
                    (Ok(v), Ok(f)) => v@ == f && final(self)@ == tag_after_write(old(self)@, path),
                    (Err(e), Err(k)) => e.kind == k,
                    _ => false,
                },
            },
    {
        let path = match &self.path {
            Some(p) => p.clone(),
            None => {
                return Err(
                    Error::new(
                        ErrorKind::InvalidInput,
                        "attempted to save file which was not read from a path",
                    ),
                );
            },
        };
        self.write_to_path(path.as_str(), existing)
    }

    /// Returns references to the pictures in the tag, in order.
    pub fn pictures(&self) -> (r: Vec<&Picture>)
        ensures
            Seq::new(r@.len(), |i: int| r@[i]@) == pictures_of(self@.blocks),
    {
        let ghost bs = self@.blocks;
        let mut out: Vec<&Picture> = Vec::new();
        let mut i: usize = 0;
        assert(Seq::new(out@.len(), |j: int| out@[j]@) =~= pictures_of(bs.subrange(0, 0)));
        while i < self.blocks.len()
            invariant
                i <= self.blocks@.len(),
                bs == self@.blocks,
                bs == models(self.blocks@),
                Seq::new(out@.len(), |j: int| out@[j]@) == pictures_of(bs.subrange(0, i as int)),
            decreases self.blocks@.len() - i,
        {
            let ghost before = Seq::new(out@.len(), |j: int| out@[j]@);
            let ghost next = bs.subrange(0, i + 1);
            assert(next.drop_last() =~= bs.subrange(0, i as int));
            if let Block::Picture(p) = &self.blocks[i] {
                out.push(p);
                assert(Seq::new(out@.len(), |j: int| out@[j]@) =~= before.push(p@));
            }
            i = i + 1;
        }
        assert(bs.subrange(0, i as int) =~= bs);
        out
    }

    /// Adds a picture block, in place of any picture of the same type.
    pub fn add_picture(&mut self, mime_type: &str, picture_type: PictureType, data: Vec<u8>)
        ensures
            final(self)@.path == old(self)@.path,
            final(self)@.length == old(self)@.length,
            final(self)@.blocks == old(self)@.blocks.filter(not_picture_of(picture_type)).push(
                BlockModel::Picture(
                    PictureModel {
                        picture_type,
                        mime_type: mime_type@,
                        description: Seq::empty(),
                        width: 0,
                        height: 0,
                        depth: 0,
                        num_colors: 0,
                        data: data@,
                    },
                ),
            ),
    {
        self.remove_picture_type(picture_type);
        let mut picture = Picture::new();
        picture.mime_type = mime_type.to_owned();
        picture.picture_type = picture_type;
        picture.data = data;
        self.push_block(Block::Picture(picture));
    }

    /// Removes the pictures of the specified picture type.
    pub fn remove_picture_type(&mut self, picture_type: PictureType)
        ensures
            final(self)@.path == old(self)@.path,
            final(self)@.length == old(self)@.length,
            final(self)@.blocks == old(self)@.blocks.filter(not_picture_of(picture_type)),
    {
        retain_blocks(&mut self.blocks, BlockType::Picture, true, picture_type);
    }

    /// Returns a reference to the first streaminfo block.
    /// Returns `None` if no streaminfo blocks are found.
    pub fn get_streaminfo(&self) -> (r: Option<&StreamInfo>)
        ensures
            match (r, streaminfo_of_blocks(self@.blocks)) {
                (Some(s), Some(m)) => s@ == m,
                (None, None) => true,
                _ => false,
            },
    {
        let ghost bs = self@.blocks;
        proof {
            lemma_first_where(bs, is_streaminfo());
        }
        let mut i: usize = 0;
        while i < self.blocks.len()
            invariant
                i <= self.blocks@.len(),
                bs == self@.blocks,
                bs == models(self.blocks@),
                first_where(bs.subrange(0, i as int), is_streaminfo()) < 0,
            decreases self.blocks@.len() - i,
        {
            let ghost next = bs.subrange(0, i + 1);
            assert(next.drop_last() =~= bs.subrange(0, i as int));
            if let Block::StreamInfo(s) = &self.blocks[i] {
                proof {
                    lemma_first_where_prefix(bs, (i + 1) as nat, is_streaminfo());
                }
                return Some(s);
            }
            i = i + 1;
        }
        assert(bs.subrange(0, i as int) =~= bs);
        None
    }

    /// Sets the streaminfo block. If there is already a streaminfo block then it will be replaced.
    pub fn set_streaminfo(&mut self, block: StreamInfo)
        ensures
            final(self)@.path == old(self)@.path,
            final(self)@.length == old(self)@.length,
            final(self)@.blocks == seq![BlockModel::StreamInfo(block@)] + old(self)@.blocks.filter(
                type_differs(BlockType::StreamInfo),
            ),
    {
        self.remove_blocks(BlockType::StreamInfo);
        let ghost before = self@.blocks;
        let b = Block::StreamInfo(block);
        let ghost bv = b@;
        self.blocks.insert(0, b);
        assert(self@.blocks =~= seq![bv] + before);
    }
}

impl Default for Tag {
    fn default() -> (r: Tag)
        ensures
            r@ == (TagModel { path: None, blocks: Seq::empty(), length: 0 }),
    {
        Tag::new()
    }
}

} // verus!
