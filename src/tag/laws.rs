use vstd::prelude::*;
use crate::block::vorbis::{
    find_key, key_differs, lemma_find_key_range, lookup, with_values, without_key,
};
use crate::block::{
    block_bytes, block_valid, has_id3, ident_end, is_ident_at, lemma_block_round_trip,
    payload_bytes, writable, BlockModel, BlockType, PictureModel, PictureType, VorbisModel,
};
use crate::error::ErrorKind;
use crate::text::upper;
use super::{
    all_writable, blocks_bytes, blocks_from, body_bytes, comments_of, current_comments,
    fits_in_place, first_where, flac_ident, fresh_padding, is_vorbis, lemma_first_where,
    not_picture_of, pictures_of, tag_of, type_differs, with_comments, without_metadata,
    written_file, TagModel,
};

verus! {

/// Whether every block keeps its field values when written and read back.
pub open spec fn all_valid(bs: Seq<BlockModel>) -> bool {
    forall|i: int| 0 <= i < bs.len() ==> block_valid(#[trigger] bs[i])
}

proof fn lemma_blocks_bytes_prefix(bs: Seq<BlockModel>, k: nat, n: nat)
    requires
        k <= n <= bs.len(),
    ensures
        blocks_bytes(bs, k).len() <= blocks_bytes(bs, n).len(),
        blocks_bytes(bs, n).subrange(0, blocks_bytes(bs, k).len() as int) == blocks_bytes(bs, k),
    decreases n,
{
    if k < n {
        lemma_blocks_bytes_prefix(bs, k, (n - 1) as nat);
        let l = blocks_bytes(bs, k).len() as int;
        assert(blocks_bytes(bs, n).subrange(0, l) =~= blocks_bytes(bs, (n - 1) as nat).subrange(0, l));
    } else {
        assert(blocks_bytes(bs, n).subrange(0, blocks_bytes(bs, n).len() as int) =~= blocks_bytes(
            bs,
            n,
        ));
    }
}

proof fn lemma_split_at(a: Seq<u8>, m: Seq<u8>, c: Seq<u8>, k: int)
    requires
        0 <= k <= m.len(),
    ensures
        (a + m + c).subrange(0, a.len() + k) == a + m.subrange(0, k),
{
    assert((a + m + c).subrange(0, a.len() + k) =~= a + m.subrange(0, k));
}

#[verifier::rlimit(100)]
proof fn lemma_blocks_from_written(bs: Seq<BlockModel>, prefix: Seq<u8>, after: Seq<u8>, j: nat)
    requires
        all_valid(bs),
        j < bs.len(),
    ensures
        blocks_from(
            prefix + blocks_bytes(bs, bs.len()) + after,
            (prefix.len() + blocks_bytes(bs, j).len()) as int,
        ) == Ok::<(Seq<BlockModel>, int), ErrorKind>(
            (
                bs.subrange(j as int, bs.len() as int),
                (prefix.len() + blocks_bytes(bs, bs.len()).len()) as int,
            ),
        ),
    decreases bs.len() - j,
{
    let n = bs.len();
    let b = prefix + blocks_bytes(bs, n) + after;
    let pj: int = (prefix.len() + blocks_bytes(bs, j).len()) as int;
    let last = j + 1 == n;
    lemma_blocks_bytes_prefix(bs, (j + 1) as nat, n);
    lemma_blocks_bytes_prefix(bs, j, (j + 1) as nat);
    let pj1: int = (prefix.len() + blocks_bytes(bs, (j + 1) as nat).len()) as int;
    let before = prefix + blocks_bytes(bs, j);
    let rest = b.subrange(pj1, b.len() as int);
    let bb1 = blocks_bytes(bs, (j + 1) as nat);
    assert(bb1 == blocks_bytes(bs, j) + block_bytes(bs[j as int], last));
    assert(blocks_bytes(bs, n).subrange(0, bb1.len() as int) == bb1);
    lemma_split_at(prefix, blocks_bytes(bs, n), after, bb1.len() as int);
    assert(b.subrange(0, pj1) == prefix + bb1);
    assert(b == b.subrange(0, pj1) + rest) by {
        assert(b =~= b.subrange(0, pj1) + b.subrange(pj1, b.len() as int));
    }
    assert(prefix + bb1 == before + block_bytes(bs[j as int], last)) by {
        assert(prefix + bb1 =~= before + block_bytes(bs[j as int], last));
    }
    assert(block_valid(bs[j as int]));
    lemma_block_round_trip(bs[j as int], last, before, rest);
    if j + 1 < n {
        lemma_blocks_from_written(bs, prefix, after, (j + 1) as nat);
        assert(bs.subrange(j as int, n as int) =~= seq![bs[j as int]] + bs.subrange(j + 1 as int, n as int));
    } else {
        assert(bs.subrange(j as int, n as int) =~= seq![bs[j as int]]);
    }
}

/// Writing a non-empty list of valid blocks after the identifier and reading the stream back
/// gives the same blocks and their length, whatever follows the metadata.
pub proof fn lemma_tag_round_trip(bs: Seq<BlockModel>, after: Seq<u8>)
    requires
        bs.len() > 0,
        all_valid(bs),
        blocks_bytes(bs, bs.len()).len() < 0x100000000,
    ensures
        tag_of(flac_ident() + blocks_bytes(bs, bs.len()) + after) == Ok::<
            (Seq<BlockModel>, nat),
            ErrorKind,
        >((bs, blocks_bytes(bs, bs.len()).len())),
{
    let b = flac_ident() + blocks_bytes(bs, bs.len()) + after;
    assert(b[0] == 0x66u8 && b[1] == 0x4Cu8 && b[2] == 0x61u8 && b[3] == 0x43u8);
    assert(!has_id3(b));
    assert(ident_end(b) == Ok::<int, ErrorKind>(4));
    lemma_blocks_from_written(bs, flac_ident(), after, 0);
    assert(bs.subrange(0, bs.len() as int) =~= bs);
}

/// A stream of four bytes or more that starts neither with the identifier nor with a
/// recognized foreign tag is invalid input.
pub proof fn lemma_bad_identifier(b: Seq<u8>)
    requires
        b.len() >= 4,
        !has_id3(b),
        !is_ident_at(b, 0),
    ensures
        tag_of(b) == Err::<(Seq<BlockModel>, nat), ErrorKind>(ErrorKind::InvalidInput),
{
}

/// Writing in place keeps the length of the file, the bytes before the metadata region and
/// every byte after it.
pub proof fn lemma_in_place_keeps_audio(t: TagModel, path: Seq<char>, prior: Seq<u8>)
    requires
        fits_in_place(t, path, body_bytes(t.blocks.filter(type_differs(BlockType::Padding))).len() as int),
        all_writable(t.blocks.filter(type_differs(BlockType::Padding))),
        ident_end(prior) is Ok,
        ident_end(prior)->Ok_0 + t.length <= prior.len(),
    ensures
        ({
            let p = ident_end(prior)->Ok_0;
            let end = p + t.length;
            &&& written_file(t, path, Some(prior)) is Ok
            &&& written_file(t, path, Some(prior))->Ok_0.len() == prior.len()
            &&& written_file(t, path, Some(prior))->Ok_0.subrange(0, p) == prior.subrange(0, p)
            &&& written_file(t, path, Some(prior))->Ok_0.subrange(end, prior.len() as int)
                == prior.subrange(end, prior.len() as int)
        }),
{
    let bs = t.blocks.filter(type_differs(BlockType::Padding));
    let body = body_bytes(bs);
    let p = ident_end(prior)->Ok_0;
    let end = p + t.length;
    let pad = (t.length - body.len() - 4) as u32;
    crate::util::lemma_be_bytes_len(payload_bytes(BlockModel::Padding(pad)).len(), 3);
    let rest = if end < prior.len() {
        prior.subrange(end, prior.len() as int)
    } else {
        Seq::empty()
    };
    let f = prior.subrange(0, p) + body + block_bytes(BlockModel::Padding(pad), true) + rest;
    assert(written_file(t, path, Some(prior)) == Ok::<Seq<u8>, ErrorKind>(f));
    assert(f.subrange(0, p) =~= prior.subrange(0, p));
    assert(f.subrange(end, prior.len() as int) =~= prior.subrange(end, prior.len() as int));
}

proof fn lemma_blocks_bytes_push(bs: Seq<BlockModel>, x: BlockModel, k: nat)
    requires
        k <= bs.len(),
    ensures
        blocks_bytes(bs.push(x), k) == body_bytes(bs.subrange(0, k as int)),
    decreases k,
{
    if k > 0 {
        lemma_blocks_bytes_push(bs, x, (k - 1) as nat);
        assert(bs.subrange(0, k as int).drop_last() =~= bs.subrange(0, k - 1));
    } else {
        assert(bs.subrange(0, 0) =~= Seq::<BlockModel>::empty());
    }
}

/// Rewriting gives a file that starts with the identifier, holds the blocks in order with a
/// fresh padding block as the only one marked last, and ends with what followed the prior
/// metadata.
#[verifier::rlimit(80)]
pub proof fn lemma_rewrite_layout(t: TagModel, path: Seq<char>, existing: Option<Seq<u8>>)
    requires
        !fits_in_place(t, path, body_bytes(t.blocks.filter(type_differs(BlockType::Padding))).len() as int),
        all_valid(t.blocks.filter(type_differs(BlockType::Padding))),
        body_bytes(t.blocks.filter(type_differs(BlockType::Padding))).len() + 4 + fresh_padding()
            < 0x100000000,
    ensures
        ({
            let bs = t.blocks.filter(type_differs(BlockType::Padding));
            let rest = match existing {
                None => Seq::empty(),
                Some(prior) => without_metadata(prior),
            };
            let f = written_file(t, path, existing)->Ok_0;
            &&& written_file(t, path, existing) is Ok
            &&& f.subrange(0, 4) == flac_ident()
            &&& f.subrange(f.len() - rest.len(), f.len() as int) == rest
            &&& blocks_from(f, 4) == Ok::<(Seq<BlockModel>, int), ErrorKind>(
                (bs.push(BlockModel::Padding(fresh_padding())), f.len() - rest.len()),
            )
        }),
{
    let bs = t.blocks.filter(type_differs(BlockType::Padding));
    let pad = BlockModel::Padding(fresh_padding());
    let all = bs.push(pad);
    assert(all_writable(bs)) by {
        assert forall|i: int| 0 <= i < bs.len() implies writable(#[trigger] bs[i]) by {
            assert(block_valid(bs[i]));
        }
    }
    let rest = match existing {
        None => Seq::empty(),
        Some(prior) => without_metadata(prior),
    };
    let body = body_bytes(bs);
    lemma_blocks_bytes_push(bs, pad, bs.len());
    assert(bs.subrange(0, bs.len() as int) =~= bs);
    assert(blocks_bytes(all, all.len()) == body + block_bytes(pad, true));
    let f = flac_ident() + body + block_bytes(pad, true) + rest;
    assert(written_file(t, path, existing) == Ok::<Seq<u8>, ErrorKind>(f));
    assert(f =~= flac_ident() + blocks_bytes(all, all.len()) + rest);
    assert(all_valid(all)) by {
        assert forall|i: int| 0 <= i < all.len() implies block_valid(#[trigger] all[i]) by {
            if i < bs.len() {
                assert(all[i] == bs[i]);
            }
        }
    }
    lemma_blocks_from_written(all, flac_ident(), rest, 0);
    assert(all.subrange(0, all.len() as int) =~= all);
    assert(f.subrange(0, 4) =~= flac_ident());
    assert(f.subrange(f.len() - rest.len(), f.len() as int) =~= rest);
}

proof fn lemma_first_where_at(bs: Seq<BlockModel>, f: spec_fn(BlockModel) -> bool, i: int)
    requires
        0 <= i < bs.len(),
        f(bs[i]),
        forall|j: int| 0 <= j < i ==> !f(#[trigger] bs[j]),
    ensures
        first_where(bs, f) == i,
    decreases bs.len(),
{
    let init = bs.drop_last();
    lemma_first_where(init, f);
    if i < bs.len() - 1 {
        assert(init[i] == bs[i]);
        assert forall|j: int| 0 <= j < i implies !f(#[trigger] init[j]) by {
            assert(init[j] == bs[j]);
        }
        lemma_first_where_at(init, f, i);
    } else if first_where(init, f) >= 0 {
        assert(init[first_where(init, f)] == bs[first_where(init, f)]);
    }
}

proof fn lemma_comments_of_with(bs: Seq<BlockModel>, v: VorbisModel)
    ensures
        comments_of(with_comments(bs, v)) == Some(v),
{
    lemma_first_where(bs, is_vorbis());
    let i = first_where(bs, is_vorbis());
    let r = with_comments(bs, v);
    if i >= 0 {
        assert forall|j: int| 0 <= j < i implies !is_vorbis()(#[trigger] r[j]) by {
            assert(r[j] == bs[j]);
        }
        lemma_first_where_at(r, is_vorbis(), i);
    } else {
        assert(r.drop_last() =~= bs);
    }
}

/// Setting the values of a key, and then looking up any spelling of the key that folds to the
/// same upper case, gives the values set; removing the key by one spelling leaves no values
/// under any other.
pub proof fn lemma_vorbis_case_insensitive(
    bs: Seq<BlockModel>,
    key: Seq<char>,
    other: Seq<char>,
    values: Seq<Seq<char>>,
)
    requires
        upper(key) == upper(other),
    ensures
        comments_of(
            with_comments(
                bs,
                VorbisModel {
                    vendor_string: current_comments(bs).vendor_string,
                    comments: with_values(current_comments(bs).comments, upper(key), values),
                },
            ),
        )->Some_0.comments.len() > 0,
        lookup(
            comments_of(
                with_comments(
                    bs,
                    VorbisModel {
                        vendor_string: current_comments(bs).vendor_string,
                        comments: with_values(current_comments(bs).comments, upper(key), values),
                    },
                ),
            )->Some_0.comments,
            upper(other),
        ) == Some(values),
        lookup(
            comments_of(
                with_comments(
                    bs,
                    VorbisModel {
                        vendor_string: current_comments(bs).vendor_string,
                        comments: without_key(current_comments(bs).comments, upper(key)),
                    },
                ),
            )->Some_0.comments,
            upper(other),
        ) is None,
{
    let c = current_comments(bs);
    let set = VorbisModel {
        vendor_string: c.vendor_string,
        comments: with_values(c.comments, upper(key), values),
    };
    let removed = VorbisModel {
        vendor_string: c.vendor_string,
        comments: without_key(c.comments, upper(key)),
    };
    lemma_comments_of_with(bs, set);
    lemma_comments_of_with(bs, removed);
    let left = removed.comments;
    lemma_find_key_range(left, upper(other));
    if find_key(left, upper(other)) >= 0 {
        let i = find_key(left, upper(other));
        c.comments.lemma_filter_pred(key_differs(upper(key)), i);
    }
}

/// Whether a picture is of a type other than `t`.
pub open spec fn picture_type_differs(t: PictureType) -> spec_fn(PictureModel) -> bool {
    |p: PictureModel| p.picture_type != t
}

proof fn lemma_pictures_of_filter(bs: Seq<BlockModel>, t: PictureType)
    ensures
        pictures_of(bs.filter(not_picture_of(t))) == pictures_of(bs).filter(picture_type_differs(t)),
    decreases bs.len(),
{
    reveal(Seq::filter);
    if bs.len() > 0 {
        lemma_pictures_of_filter(bs.drop_last(), t);
        let x = bs.last();
        let fb = bs.drop_last().filter(not_picture_of(t));
        if not_picture_of(t)(x) {
            assert(bs.filter(not_picture_of(t)) == fb.push(x));
            assert(fb.push(x).drop_last() =~= fb);
        }
        match x {
            BlockModel::Picture(p) => {
                assert(pictures_of(bs).drop_last() =~= pictures_of(bs.drop_last()));
            },
            _ => {},
        }
    }
}

/// After a picture is added, the pictures of the tag are those of other types, in order, and
/// then the new one: it is the only picture of its type.
pub proof fn lemma_add_picture(bs: Seq<BlockModel>, p: PictureModel)
    ensures
        pictures_of(bs.filter(not_picture_of(p.picture_type)).push(BlockModel::Picture(p)))
            == pictures_of(bs).filter(picture_type_differs(p.picture_type)).push(p),
        forall|i: int|
            0 <= i < pictures_of(
                bs.filter(not_picture_of(p.picture_type)).push(BlockModel::Picture(p)),
            ).len() - 1 ==> (#[trigger] pictures_of(
                bs.filter(not_picture_of(p.picture_type)).push(BlockModel::Picture(p)),
            )[i]).picture_type != p.picture_type,
{
    let kept = bs.filter(not_picture_of(p.picture_type));
    lemma_pictures_of_filter(bs, p.picture_type);
    assert(kept.push(BlockModel::Picture(p)).drop_last() =~= kept);
    let others = pictures_of(bs).filter(picture_type_differs(p.picture_type));
    assert forall|i: int| 0 <= i < others.len() implies picture_type_differs(p.picture_type)(
        #[trigger] others[i],
    ) by {
        pictures_of(bs).lemma_filter_pred(picture_type_differs(p.picture_type), i);
    }
}

} // verus!
