use vstd::prelude::*;
use vstd::utf8::{
    decode_utf8, encode_utf8, encode_utf8_decode_utf8, encode_utf8_valid_utf8, valid_utf8,
    valid_utf8_concat,
};
use crate::error::{Error, ErrorKind, Result};
use crate::text::{
    append_bytes, ascii_uppercase, decimal, decimal_string, decode_range, parse_u32, parsed_u32,
    room, string_bytes, upper,
};
use crate::util::{
    bytes_to_le_u64, le_bytes, le_value, lemma_le_round_trip, lemma_le_value_bound, lemma_pow256_8,
    u64_to_le_bytes,
};

verus! {

/// The comments of a block: each key with its values, in order.
pub type CommentList = Seq<(Seq<char>, Seq<Seq<char>>)>;

/// A structure representing a VORBIS_COMMENT block.
#[derive(Clone, Debug, PartialEq, Eq)]
pub struct VorbisComment {
    /// The vendor string.
    pub vendor_string: String,
    /// Each key with the list of its values. Keys are distinct (`keys_distinct`): the methods
    /// keep them so, and reading a block groups its comments by key.
    pub comments: Vec<(String, Vec<String>)>,
}

/// The value of a `VorbisComment`.
pub ghost struct VorbisModel {
    pub vendor_string: Seq<char>,
    pub comments: CommentList,
}

/// The characters of each string.
pub open spec fn strings(v: Seq<String>) -> Seq<Seq<char>> {
    Seq::new(v.len(), |i: int| v[i]@)
}

/// The characters of each key and of each of its values.
pub open spec fn comment_list(v: Seq<(String, Vec<String>)>) -> CommentList {
    Seq::new(v.len(), |i: int| (v[i].0@, strings(v[i].1@)))
}

impl View for VorbisComment {
    type V = VorbisModel;

    open spec fn view(&self) -> VorbisModel {
        VorbisModel {
            vendor_string: self.vendor_string@,
            comments: comment_list(self.comments@),
        }
    }
}

/// The position of the entry for key `k` in `cs`, or -1 where there is none.
pub open spec fn find_key(cs: CommentList, k: Seq<char>) -> int
    decreases cs.len(),
{
    if cs.len() == 0 {
        -1
    } else if cs.last().0 == k {
        cs.len() - 1
    } else {
        find_key(cs.drop_last(), k)
    }
}

/// The values listed under key `k`, if any.
pub open spec fn lookup(cs: CommentList, k: Seq<char>) -> Option<Seq<Seq<char>>> {
    if find_key(cs, k) >= 0 {
        Some(cs[find_key(cs, k)].1)
    } else {
        None
    }
}

/// Whether an entry has a key other than `k`.
pub open spec fn key_differs(k: Seq<char>) -> spec_fn((Seq<char>, Seq<Seq<char>>)) -> bool {
    |e: (Seq<char>, Seq<Seq<char>>)| e.0 != k
}

/// Whether no two entries share a key.
pub open spec fn keys_distinct(cs: CommentList) -> bool {
    forall|i: int, j: int| 0 <= i < j < cs.len() ==> #[trigger] cs[i].0 != #[trigger] cs[j].0
}

/// `cs` without the entry for key `k`.
pub open spec fn without_key(cs: CommentList, k: Seq<char>) -> CommentList {
    cs.filter(key_differs(k))
}

/// `cs` with the values of `k` replaced by `vs`.
pub open spec fn with_values(cs: CommentList, k: Seq<char>, vs: Seq<Seq<char>>) -> CommentList {
    without_key(cs, k).push((k, vs))
}

/// Whether a value differs from `v`.
pub open spec fn value_differs(v: Seq<char>) -> spec_fn(Seq<char>) -> bool {
    |s: Seq<char>| s != v
}

/// `cs` with the value `v` taken from key `k`, and the key dropped once it has no value left.
pub open spec fn without_pair(cs: CommentList, k: Seq<char>, v: Seq<char>) -> CommentList {
    let i = find_key(cs, k);
    if i < 0 {
        cs
    } else {
        let left = cs[i].1.filter(value_differs(v));
        if left.len() == 0 {
            without_key(cs, k)
        } else {
            cs.update(i, (k, left))
        }
    }
}

pub proof fn lemma_find_key_range(cs: CommentList, k: Seq<char>)
    ensures
        -1 <= find_key(cs, k) < cs.len(),
        find_key(cs, k) >= 0 ==> cs[find_key(cs, k)].0 == k,
        find_key(cs, k) < 0 ==> forall|i: int| 0 <= i < cs.len() ==> #[trigger] cs[i].0 != k,
    decreases cs.len(),
{
    if cs.len() > 0 {
        lemma_find_key_range(cs.drop_last(), k);
        if find_key(cs, k) < 0 {
            assert forall|i: int| 0 <= i < cs.len() implies #[trigger] cs[i].0 != k by {
                if i < cs.len() - 1 {
                    assert(cs.drop_last()[i] == cs[i]);
                }
            }
        }
    }
}

/// The number spelled by the first value of key `k`, if it has one that spells a number.
pub open spec fn first_number(cs: CommentList, k: Seq<char>) -> Option<u32> {
    match lookup(cs, k) {
        Some(vs) => if vs.len() > 0 {
            parsed_u32(vs[0])
        } else {
            None
        },
        None => None,
    }
}

/// One comment as written: its key, `=`, its value.
pub open spec fn entry_text(k: Seq<char>, v: Seq<char>) -> Seq<u8> {
    encode_utf8(k) + seq![0x3Du8] + encode_utf8(v)
}

/// A 32-bit little-endian length field followed by the bytes it counts.
pub open spec fn le_prefixed(b: Seq<u8>) -> Seq<u8> {
    le_bytes(b.len(), 4) + b
}

/// Every (key, value) pair of `cs`, in order.
pub open spec fn pairs(cs: CommentList) -> Seq<(Seq<char>, Seq<char>)>
    decreases cs.len(),
{
    if cs.len() == 0 {
        Seq::empty()
    } else {
        pairs(cs.drop_last()) + cs.last().1.map_values(|v: Seq<char>| (cs.last().0, v))
    }
}

/// The comments as written, one after another.
pub open spec fn entries_bytes(es: Seq<(Seq<char>, Seq<char>)>) -> Seq<u8>
    decreases es.len(),
{
    if es.len() == 0 {
        Seq::empty()
    } else {
        entries_bytes(es.drop_last()) + le_prefixed(entry_text(es.last().0, es.last().1))
    }
}

/// The encoded form of a VORBIS_COMMENT block.
pub open spec fn vorbis_bytes(m: VorbisModel) -> Seq<u8> {
    le_prefixed(encode_utf8(m.vendor_string)) + le_bytes(pairs(m.comments).len(), 4)
        + entries_bytes(pairs(m.comments))
}

/// Whether the number of comments fits its 32-bit field.
pub open spec fn vorbis_fits(m: VorbisModel) -> bool {
    pairs(m.comments).len() < 0x100000000
}

/// Whether every length and the number of comments fit their 32-bit fields.
pub open spec fn vorbis_lengths_fit(m: VorbisModel) -> bool {
    &&& encode_utf8(m.vendor_string).len() < 0x100000000
    &&& pairs(m.comments).len() < 0x100000000
    &&& forall|i: int|
        0 <= i < pairs(m.comments).len() ==> entry_text(
            #[trigger] pairs(m.comments)[i].0,
            pairs(m.comments)[i].1,
        ).len() < 0x100000000
}

proof fn lemma_pairs_len_mono(cs: CommentList, i: int)
    requires
        0 <= i <= cs.len(),
    ensures
        pairs(cs.subrange(0, i)).len() <= pairs(cs).len(),
    decreases cs.len() - i,
{
    if i < cs.len() {
        assert(cs.subrange(0, i + 1).drop_last() =~= cs.subrange(0, i));
        lemma_pairs_len_mono(cs, i + 1);
    } else {
        assert(cs.subrange(0, i) =~= cs);
    }
}

/// The little-endian 32-bit field at `pos`.
pub open spec fn le_u32_at(b: Seq<u8>, pos: int) -> nat {
    le_value(b.subrange(pos, pos + 4))
}

/// The position of the first `=` in `e`, or -1.
pub open spec fn first_eq(e: Seq<u8>) -> int
    decreases e.len(),
{
    if e.len() == 0 {
        -1
    } else if first_eq(e.drop_last()) >= 0 {
        first_eq(e.drop_last())
    } else if e.last() == 0x3Du8 {
        e.len() - 1
    } else {
        -1
    }
}

/// The (key, value) pair of the comment held at `pos` and the position after it, or the kind
/// of error that reading it meets. The key is folded to upper case.
pub open spec fn entry_at(b: Seq<u8>, pos: int) -> core::result::Result<
    ((Seq<char>, Seq<char>), int),
    ErrorKind,
> {
    if pos + 4 > b.len() {
        Err(ErrorKind::InvalidInput)
    } else {
        let end: int = pos + 4 + le_u32_at(b, pos) as int;
        if end > b.len() {
            Err(ErrorKind::InvalidInput)
        } else {
            let e = b.subrange(pos + 4, end);
            let j = first_eq(e);
            if !valid_utf8(e) {
                Err(ErrorKind::StringDecoding)
            } else if j < 0 {
                Err(ErrorKind::InvalidInput)
            } else if !valid_utf8(e.subrange(0, j)) || !valid_utf8(e.subrange(j + 1, e.len() as int)) {
                Err(ErrorKind::StringDecoding)
            } else {
                Ok(
                    (
                        (
                            upper(decode_utf8(e.subrange(0, j))),
                            decode_utf8(e.subrange(j + 1, e.len() as int)),
                        ),
                        end,
                    ),
                )
            }
        }
    }
}

/// The `n` comments held from `pos` on and the position after them, or the kind of error that
/// reading them meets.
pub open spec fn entries_at(b: Seq<u8>, pos: int, n: nat) -> core::result::Result<
    (Seq<(Seq<char>, Seq<char>)>, int),
    ErrorKind,
>
    decreases n,
{
    if n == 0 {
        Ok((Seq::empty(), pos))
    } else {
        match entries_at(b, pos, (n - 1) as nat) {
            Err(e) => Err(e),
            Ok((es, p)) => match entry_at(b, p) {
                Err(e) => Err(e),
                Ok((x, q)) => Ok((es.push(x), q)),
            },
        }
    }
}

/// `cs` with value `v` added under key `k`.
pub open spec fn add_value(cs: CommentList, k: Seq<char>, v: Seq<char>) -> CommentList {
    let i = find_key(cs, k);
    if i >= 0 {
        cs.update(i, (k, cs[i].1.push(v)))
    } else {
        cs.push((k, seq![v]))
    }
}

/// The comments grouped by key, keys in order of first appearance.
pub open spec fn group(es: Seq<(Seq<char>, Seq<char>)>) -> CommentList
    decreases es.len(),
{
    if es.len() == 0 {
        Seq::empty()
    } else {
        add_value(group(es.drop_last()), es.last().0, es.last().1)
    }
}

/// The VORBIS_COMMENT block held in `b`, or the kind of error that reading it meets: a field
/// that runs past the end or a comment without `=` is invalid input, text that is not UTF-8 a
/// decoding error.
pub open spec fn vorbis_of(b: Seq<u8>) -> core::result::Result<VorbisModel, ErrorKind> {
    if b.len() < 4 {
        Err(ErrorKind::InvalidInput)
    } else {
        let vend: int = 4 + le_u32_at(b, 0) as int;
        if vend + 4 > b.len() {
            Err(ErrorKind::InvalidInput)
        } else if !valid_utf8(b.subrange(4, vend)) {
            Err(ErrorKind::StringDecoding)
        } else {
            match entries_at(b, vend + 4, le_u32_at(b, vend)) {
                Err(e) => Err(e),
                Ok((es, _)) => Ok(
                    VorbisModel {
                        vendor_string: decode_utf8(b.subrange(4, vend)),
                        comments: group(es),
                    },
                ),
            }
        }
    }
}

proof fn lemma_entries_error_persists(b: Seq<u8>, pos: int, k: nat, m: nat)
    requires
        k <= m,
        entries_at(b, pos, k) is Err,
    ensures
        entries_at(b, pos, m) == entries_at(b, pos, k),
    decreases m,
{
    if k < m {
        lemma_entries_error_persists(b, pos, k, (m - 1) as nat);
    }
}

/// Whether a key comes back from its written form: it is in upper case and its bytes hold no
/// `=`.
pub open spec fn key_valid(k: Seq<char>) -> bool {
    &&& upper(k) == k
    &&& forall|i: int| 0 <= i < encode_utf8(k).len() ==> #[trigger] encode_utf8(k)[i] != 0x3Du8
}

/// Values that the encoded form of a vorbis comment block keeps exactly: lengths and count
/// that fit their fields, keys that come back from their written form, distinct keys, and at
/// least one value under each.
#[verifier::opaque]
pub open spec fn vorbis_valid(m: VorbisModel) -> bool {
    &&& vorbis_lengths_fit(m)
    &&& forall|i: int| 0 <= i < pairs(m.comments).len() ==> key_valid(#[trigger] pairs(m.comments)[i].0)
    &&& forall|i: int| 0 <= i < m.comments.len() ==> #[trigger] m.comments[i].1.len() > 0
    &&& keys_distinct(m.comments)
}

proof fn lemma_first_eq_at(e: Seq<u8>, j: int)
    requires
        0 <= j < e.len(),
        e[j] == 0x3Du8,
        forall|i: int| 0 <= i < j ==> e[i] != 0x3Du8,
    ensures
        first_eq(e) == j,
    decreases e.len(),
{
    let init = e.drop_last();
    lemma_first_eq_range(init);
    if j < e.len() - 1 {
        assert(init[j] == e[j]);
        assert forall|i: int| 0 <= i < j implies init[i] != 0x3Du8 by {
            assert(init[i] == e[i]);
        }
        lemma_first_eq_at(init, j);
    } else if first_eq(init) >= 0 {
        assert(init[first_eq(init)] == e[first_eq(init)]);
    }
}

proof fn lemma_entry_round_trip(k: Seq<char>, v: Seq<char>, before: Seq<u8>, after: Seq<u8>)
    requires
        key_valid(k),
        entry_text(k, v).len() < 0x100000000,
    ensures
        entry_at(before + le_prefixed(entry_text(k, v)) + after, before.len() as int) == Ok::<
            ((Seq<char>, Seq<char>), int),
            ErrorKind,
        >(((k, v), (before.len() + 4 + entry_text(k, v).len()) as int)),
{
    lemma_pow256_8();
    let e = entry_text(k, v);
    let kb = encode_utf8(k);
    let vb = encode_utf8(v);
    let b = before + le_prefixed(e) + after;
    let pos = before.len() as int;
    lemma_le_round_trip(e.len(), 4);
    assert(b.subrange(pos, pos + 4) =~= le_bytes(e.len(), 4));
    assert(b.subrange(pos + 4, pos + 4 + e.len()) =~= e);
    encode_utf8_valid_utf8(k);
    encode_utf8_valid_utf8(v);
    encode_utf8_decode_utf8(k);
    encode_utf8_decode_utf8(v);
    assert(valid_utf8(seq![0x3Du8])) by {
        reveal_with_fuel(valid_utf8, 2);
    }
    valid_utf8_concat(kb, seq![0x3Du8]);
    valid_utf8_concat(kb + seq![0x3Du8], vb);
    let j = kb.len() as int;
    assert forall|i: int| 0 <= i < j implies e[i] != 0x3Du8 by {
        assert(e[i] == kb[i]);
    }
    lemma_first_eq_at(e, j);
    assert(e.subrange(0, j) =~= kb);
    assert(e.subrange(j + 1, e.len() as int) =~= vb);
}

proof fn lemma_entries_bytes_concat(a: Seq<(Seq<char>, Seq<char>)>, c: Seq<(Seq<char>, Seq<char>)>)
    ensures
        entries_bytes(a + c) == entries_bytes(a) + entries_bytes(c),
    decreases c.len(),
{
    if c.len() == 0 {
        assert(a + c =~= a);
        assert(entries_bytes(a) + entries_bytes(c) =~= entries_bytes(a));
    } else {
        lemma_entries_bytes_concat(a, c.drop_last());
        assert((a + c).drop_last() =~= a + c.drop_last());
        assert((a + c).last() == c.last());
        assert(entries_bytes(a + c) =~= entries_bytes(a) + entries_bytes(c));
    }
}

#[verifier::rlimit(80)]
proof fn lemma_entries_round_trip(
    es: Seq<(Seq<char>, Seq<char>)>,
    before: Seq<u8>,
    after: Seq<u8>,
    k: nat,
)
    requires
        k <= es.len(),
        forall|i: int| 0 <= i < es.len() ==> key_valid(#[trigger] es[i].0),
        forall|i: int|
            0 <= i < es.len() ==> entry_text(#[trigger] es[i].0, es[i].1).len() < 0x100000000,
    ensures
        entries_at(before + entries_bytes(es) + after, before.len() as int, k) == Ok::<
            (Seq<(Seq<char>, Seq<char>)>, int),
            ErrorKind,
        >(
            (
                es.subrange(0, k as int),
                (before.len() + entries_bytes(es.subrange(0, k as int)).len()) as int,
            ),
        ),
    decreases k,
{
    let b = before + entries_bytes(es) + after;
    if k == 0 {
        assert(es.subrange(0, 0) =~= Seq::<(Seq<char>, Seq<char>)>::empty());
    } else {
        lemma_entries_round_trip(es, before, after, (k - 1) as nat);
        let head = es.subrange(0, k - 1);
        let x = es[k - 1];
        assert(es.subrange(0, k as int).drop_last() =~= head);
        assert(es =~= es.subrange(0, k as int) + es.subrange(k as int, es.len() as int));
        lemma_entries_bytes_concat(es.subrange(0, k as int), es.subrange(k as int, es.len() as int));
        let pre = before + entries_bytes(head);
        let post = entries_bytes(es.subrange(k as int, es.len() as int)) + after;
        assert(b =~= pre + le_prefixed(entry_text(x.0, x.1)) + post);
        assert(key_valid(es[k - 1].0));
        lemma_entry_round_trip(x.0, x.1, pre, post);
        assert(head.push(x) =~= es.subrange(0, k as int));
        crate::util::lemma_le_bytes_len(entry_text(x.0, x.1).len(), 4);
        assert(entries_bytes(es.subrange(0, k as int)) == entries_bytes(head) + le_prefixed(
            entry_text(x.0, x.1),
        ));
    }
}

proof fn lemma_group_append(
    a: Seq<(Seq<char>, Seq<char>)>,
    k: Seq<char>,
    vs: Seq<Seq<char>>,
    j: nat,
)
    requires
        find_key(group(a), k) < 0,
        1 <= j <= vs.len(),
    ensures
        group(a + vs.subrange(0, j as int).map_values(|v: Seq<char>| (k, v))) == group(a).push(
            (k, vs.subrange(0, j as int)),
        ),
    decreases j,
{
    let f = |v: Seq<char>| (k, v);
    let x = a + vs.subrange(0, j as int).map_values(f);
    assert(x.last() == (k, vs[j - 1]));
    if j == 1 {
        assert(x.drop_last() =~= a);
        assert(seq![vs[0]] =~= vs.subrange(0, 1));
    } else {
        lemma_group_append(a, k, vs, (j - 1) as nat);
        assert(x.drop_last() =~= a + vs.subrange(0, j - 1).map_values(f));
        let g = group(a).push((k, vs.subrange(0, j - 1)));
        assert(find_key(g, k) == g.len() - 1);
        assert(vs.subrange(0, j - 1).push(vs[j - 1]) =~= vs.subrange(0, j as int));
        assert(g.update(g.len() - 1, (k, vs.subrange(0, j - 1).push(vs[j - 1]))) =~= group(a).push(
            (k, vs.subrange(0, j as int)),
        ));
    }
}

proof fn lemma_group_pairs(cs: CommentList)
    requires
        forall|i: int| 0 <= i < cs.len() ==> #[trigger] cs[i].1.len() > 0,
        forall|i: int, j: int| 0 <= i < j < cs.len() ==> #[trigger] cs[i].0 != #[trigger] cs[j].0,
    ensures
        group(pairs(cs)) == cs,
    decreases cs.len(),
{
    if cs.len() > 0 {
        let init = cs.drop_last();
        let (k, vs) = cs.last();
        assert forall|i: int, j: int| 0 <= i < j < init.len() implies #[trigger] init[i].0
            != #[trigger] init[j].0 by {
            assert(init[i] == cs[i] && init[j] == cs[j]);
        }
        assert forall|i: int| 0 <= i < init.len() implies #[trigger] init[i].1.len() > 0 by {
            assert(init[i] == cs[i]);
        }
        lemma_group_pairs(init);
        lemma_find_key_range(init, k);
        if find_key(init, k) >= 0 {
            assert(init[find_key(init, k)] == cs[find_key(init, k)]);
        }
        assert(cs[cs.len() - 1].1.len() > 0);
        lemma_group_append(pairs(init), k, vs, vs.len());
        assert(vs.subrange(0, vs.len() as int) =~= vs);
        assert(vs.subrange(0, vs.len() as int).map_values(|v: Seq<char>| (k, v)) =~= vs.map_values(
            |v: Seq<char>| (cs.last().0, v),
        ));
        assert(init.push((k, vs)) =~= cs);
    }
}

/// Decoding the encoded form of a valid vorbis comment block gives it back.
pub proof fn lemma_vorbis_round_trip(m: VorbisModel)
    requires
        vorbis_valid(m),
    ensures
        vorbis_fits(m),
        vorbis_of(vorbis_bytes(m)) == Ok::<VorbisModel, ErrorKind>(m),
{
    reveal(vorbis_valid);
    lemma_pow256_8();
    let vb = encode_utf8(m.vendor_string);
    let es = pairs(m.comments);
    let b = vorbis_bytes(m);
    lemma_le_round_trip(vb.len(), 4);
    lemma_le_round_trip(es.len(), 4);
    encode_utf8_valid_utf8(m.vendor_string);
    encode_utf8_decode_utf8(m.vendor_string);
    let vend: int = 4 + vb.len() as int;
    assert(b.subrange(0, 4) =~= le_bytes(vb.len(), 4));
    assert(b.subrange(4, vend) =~= vb);
    assert(b.subrange(vend, vend + 4) =~= le_bytes(es.len(), 4));
    let head = le_prefixed(vb) + le_bytes(es.len(), 4);
    assert(b =~= head + entries_bytes(es) + Seq::<u8>::empty());
    lemma_entries_round_trip(es, head, Seq::empty(), es.len());
    assert(es.subrange(0, es.len() as int) =~= es);
    lemma_group_pairs(m.comments);
}

/// Keeping some of the entries keeps their keys distinct.
pub proof fn lemma_filter_keys_distinct(cs: CommentList, f: spec_fn((Seq<char>, Seq<Seq<char>>)) -> bool)
    requires
        keys_distinct(cs),
    ensures
        keys_distinct(cs.filter(f)),
    decreases cs.len(),
{
    reveal(Seq::filter);
    if cs.len() > 0 {
        let init = cs.drop_last();
        assert(keys_distinct(init)) by {
            assert forall|i: int, j: int| 0 <= i < j < init.len() implies #[trigger] init[i].0
                != #[trigger] init[j].0 by {
                assert(init[i] == cs[i] && init[j] == cs[j]);
            }
        }
        lemma_filter_keys_distinct(init, f);
        let fi = init.filter(f);
        if f(cs.last()) {
            let r = fi.push(cs.last());
            assert forall|i: int, j: int| 0 <= i < j < r.len() implies #[trigger] r[i].0
                != #[trigger] r[j].0 by {
                if j == r.len() - 1 {
                    assert(fi.contains(fi[i]));
                    init.lemma_filter_contains_rev(f, fi[i]);
                    let a = choose|a: int| 0 <= a < init.len() && init[a] == fi[i];
                    assert(cs[a] == init[a]);
                    assert(cs[a].0 != cs[cs.len() - 1].0);
                } else {
                    assert(r[i] == fi[i] && r[j] == fi[j]);
                }
            }
        }
    }
}

/// Setting the values of a key keeps the keys distinct.
pub proof fn lemma_with_values_distinct(cs: CommentList, k: Seq<char>, vs: Seq<Seq<char>>)
    requires
        keys_distinct(cs),
    ensures
        keys_distinct(with_values(cs, k, vs)),
{
    let kept = without_key(cs, k);
    lemma_filter_keys_distinct(cs, key_differs(k));
    let r = kept.push((k, vs));
    assert forall|i: int, j: int| 0 <= i < j < r.len() implies #[trigger] r[i].0 != #[trigger] r[j].0 by {
        if j == r.len() - 1 {
            cs.lemma_filter_pred(key_differs(k), i);
        } else {
            assert(r[i] == kept[i] && r[j] == kept[j]);
        }
    }
}

/// Removing a value keeps the keys distinct.
pub proof fn lemma_without_pair_distinct(cs: CommentList, k: Seq<char>, v: Seq<char>)
    requires
        keys_distinct(cs),
    ensures
        keys_distinct(without_pair(cs, k, v)),
{
    lemma_filter_keys_distinct(cs, key_differs(k));
    lemma_find_key_range(cs, k);
}

proof fn lemma_vorbis_of_distinct(b: Seq<u8>)
    ensures
        vorbis_of(b) is Ok ==> keys_distinct(vorbis_of(b)->Ok_0.comments),
{
    if vorbis_of(b) is Ok {
        let vend: int = 4 + le_u32_at(b, 0) as int;
        let es = entries_at(b, vend + 4, le_u32_at(b, vend))->Ok_0.0;
        lemma_group_distinct(es);
    }
}

proof fn lemma_group_distinct(es: Seq<(Seq<char>, Seq<char>)>)
    ensures
        keys_distinct(group(es)),
    decreases es.len(),
{
    if es.len() > 0 {
        let g = group(es.drop_last());
        lemma_group_distinct(es.drop_last());
        let (k, v) = es.last();
        lemma_find_key_range(g, k);
        if find_key(g, k) < 0 {
            let r = g.push((k, seq![v]));
            assert forall|i: int, j: int| 0 <= i < j < r.len() implies #[trigger] r[i].0
                != #[trigger] r[j].0 by {
                if j == r.len() - 1 {
                    assert(r[i] == g[i]);
                } else {
                    assert(r[i] == g[i] && r[j] == g[j]);
                }
            }
        }
    }
}

/// Position of the first `=` in `bytes[start..end]`, relative to `start`.
fn find_eq(bytes: &[u8], start: usize, end: usize) -> (r: Option<usize>)
    requires
        start <= end <= bytes@.len(),
    ensures
        match r {
            Some(j) => j as int == first_eq(bytes@.subrange(start as int, end as int)),
            None => first_eq(bytes@.subrange(start as int, end as int)) < 0,
        },
{
    let mut i: usize = start;
    while i < end
        invariant
            start <= i <= end <= bytes@.len(),
            first_eq(bytes@.subrange(start as int, i as int)) < 0,
        decreases end - i,
    {
        let ghost s = bytes@.subrange(start as int, i + 1);
        assert(s.drop_last() =~= bytes@.subrange(start as int, i as int));
        if bytes[i] == 0x3D {
            proof {
                lemma_first_eq_prefix(bytes@.subrange(start as int, end as int), (i - start + 1) as nat);
                assert(bytes@.subrange(start as int, end as int).subrange(0, i - start + 1) =~= s);
            }
            return Some(i - start);
        }
        i = i + 1;
    }
    None
}

proof fn lemma_first_eq_range(e: Seq<u8>)
    ensures
        -1 <= first_eq(e) < e.len(),
        first_eq(e) >= 0 ==> e[first_eq(e)] == 0x3Du8,
        first_eq(e) >= 0 ==> forall|i: int| 0 <= i < first_eq(e) ==> e[i] != 0x3Du8,
        first_eq(e) < 0 ==> forall|i: int| 0 <= i < e.len() ==> e[i] != 0x3Du8,
    decreases e.len(),
{
    if e.len() > 0 {
        lemma_first_eq_range(e.drop_last());
        assert(forall|i: int| 0 <= i < e.len() - 1 ==> e.drop_last()[i] == e[i]);
    }
}

/// The first `=` of a sequence is found in any prefix that holds it.
proof fn lemma_first_eq_prefix(e: Seq<u8>, n: nat)
    requires
        n <= e.len(),
        first_eq(e.subrange(0, n as int)) >= 0,
    ensures
        first_eq(e) == first_eq(e.subrange(0, n as int)),
    decreases e.len(),
{
    if n < e.len() {
        assert(e.drop_last().subrange(0, n as int) =~= e.subrange(0, n as int));
        lemma_first_eq_prefix(e.drop_last(), n);
    } else {
        assert(e.subrange(0, n as int) =~= e);
    }
}

/// Reads the comment at `pos`.
fn read_entry(bytes: &[u8], pos: usize) -> (r: Result<((String, String), usize)>)
    requires
        pos <= bytes@.len(),
    ensures
        match (r, entry_at(bytes@, pos as int)) {
            (Ok(((k, v), p)), Ok(((mk, mv), q))) => k@ == mk && v@ == mv && p == q,
            (Err(e), Err(x)) => e.kind == x,
            _ => false,
        },
{
    let len: usize = bytes.len();
    proof {
        lemma_pow256_8();
    }
    if !room(len, pos, 4) {
        return Err(Error::new(ErrorKind::InvalidInput, "comment is too short"));
    }
    let ghost field = bytes@.subrange(pos as int, pos + 4);
    let n: u64 = bytes_to_le_u64(&bytes[pos..pos + 4]);
    proof {
        lemma_le_value_bound(field);
    }
    if !room(len, pos + 4, n) {
        return Err(Error::new(ErrorKind::InvalidInput, "comment is too short"));
    }
    let start: usize = pos + 4;
    let end: usize = start + n as usize;
    let ghost e = bytes@.subrange(start as int, end as int);
    if decode_range(bytes, start, end).is_none() {
        return Err(Error::new(ErrorKind::StringDecoding, "invalid comment"));
    }
    let j = match find_eq(bytes, start, end) {
        Some(j) => j,
        None => {
            return Err(Error::new(ErrorKind::InvalidInput, "comment has no '='"));
        },
    };
    proof {
        lemma_first_eq_range(e);
        assert(e.subrange(0, j as int) =~= bytes@.subrange(start as int, start + j));
        assert(e.subrange(j + 1, e.len() as int) =~= bytes@.subrange(start + j + 1, end as int));
    }
    let key = match decode_range(bytes, start, start + j) {
        Some(s) => s,
        None => {
            return Err(Error::new(ErrorKind::StringDecoding, "invalid comment key"));
        },
    };
    let value = match decode_range(bytes, start + j + 1, end) {
        Some(s) => s,
        None => {
            return Err(Error::new(ErrorKind::StringDecoding, "invalid comment value"));
        },
    };
    let key = ascii_uppercase(key.as_str());
    Ok(((key, value), end))
}

/// The values of a list of strings, as strings of their own.
fn owned_values(values: &Vec<&str>) -> (r: Vec<String>)
    ensures
        strings(r@) == Seq::new(values@.len(), |i: int| values@[i]@),
{
    let mut out: Vec<String> = Vec::new();
    let mut i: usize = 0;
    while i < values.len()
        invariant
            i <= values@.len(),
            strings(out@) == Seq::new(i as nat, |j: int| values@[j]@),
        decreases values@.len() - i,
    {
        let ghost before = strings(out@);
        let v = values[i].to_owned();
        let ghost vv = v@;
        out.push(v);
        assert(strings(out@) =~= before.push(vv));
        i = i + 1;
        assert(strings(out@) =~= Seq::new(i as nat, |j: int| values@[j]@));
    }
    out
}

/// Position of the entry for `key` in `comments`.
fn position_in(comments: &Vec<(String, Vec<String>)>, key: &String) -> (r: Option<usize>)
    ensures
        match r {
            Some(i) => i as int == find_key(comment_list(comments@), key@),
            None => find_key(comment_list(comments@), key@) < 0,
        },
{
    let ghost cs = comment_list(comments@);
    let mut i: usize = comments.len();
    assert(cs.subrange(0, i as int) =~= cs);
    while i > 0
        invariant
            i <= comments@.len(),
            cs == comment_list(comments@),
            find_key(cs, key@) == find_key(cs.subrange(0, i as int), key@),
        decreases i,
    {
        assert(cs.subrange(0, i as int).drop_last() =~= cs.subrange(0, i - 1));
        if comments[i - 1].0 == *key {
            return Some(i - 1);
        }
        i = i - 1;
    }
    None
}

/// Adds `value` under `key`.
fn add_value_to(comments: &mut Vec<(String, Vec<String>)>, key: String, value: String)
    ensures
        comment_list(final(comments)@) == add_value(comment_list(old(comments)@), key@, value@),
{
    let ghost cs = comment_list(comments@);
    proof {
        lemma_find_key_range(cs, key@);
    }
    match position_in(comments, &key) {
        Some(i) => {
            let (k, mut values) = comments.remove(i);
            let ghost vs = strings(values@);
            let ghost vv = value@;
            values.push(value);
            assert(strings(values@) =~= vs.push(vv));
            comments.insert(i, (k, values));
            assert(comment_list(comments@) =~= cs.update(i as int, (key@, cs[i as int].1.push(vv))));
        },
        None => {
            let ghost kv = key@;
            let ghost vv = value@;
            let mut values: Vec<String> = Vec::new();
            values.push(value);
            assert(strings(values@) =~= seq![vv]);
            comments.push((key, values));
            assert(comment_list(comments@) =~= cs.push((kv, seq![vv])));
        },
    }
}

impl VorbisComment {
    /// Returns a new `VorbisComment` with an empty vendor string and no comments.
    pub fn new() -> (r: VorbisComment)
        ensures
            r@.vendor_string == Seq::<char>::empty(),
            r@.comments == CommentList::empty(),
            keys_distinct(r@.comments),
    {
        let r = VorbisComment { vendor_string: String::new(), comments: Vec::new() };
        assert(r@.comments =~= CommentList::empty());
        r
    }

    /// Returns a reference to the vector of comments for the specified key.
    pub fn get(&self, key: &str) -> (r: Option<&Vec<String>>)
        ensures
            match (r, lookup(self@.comments, key@)) {
                (Some(v), Some(vs)) => strings(v@) == vs,
                (None, None) => true,
                _ => false,
            },
    {
        let k = key.to_owned();
        proof {
            lemma_find_key_range(self@.comments, key@);
        }
        match position_in(&self.comments, &k) {
            Some(i) => Some(&self.comments[i].1),
            None => None,
        }
    }

    /// Sets the comments for the specified key. Any previous values under the key will be removed.
    pub fn set(&mut self, key: &str, values: Vec<&str>)
        ensures
            final(self)@.vendor_string == old(self)@.vendor_string,
            final(self)@.comments == with_values(
                old(self)@.comments,
                key@,
                Seq::new(values@.len(), |i: int| values@[i]@),
            ),
            keys_distinct(old(self)@.comments) ==> keys_distinct(final(self)@.comments),
    {
        proof {
            if keys_distinct(self@.comments) {
                lemma_with_values_distinct(
                    self@.comments,
                    key@,
                    Seq::new(values@.len(), |i: int| values@[i]@),
                );
            }
        }
        self.remove(key);
        let vs = owned_values(&values);
        let ghost before = self@.comments;
        let ghost vv = strings(vs@);
        self.comments.push((key.to_owned(), vs));
        assert(self@.comments =~= before.push((key@, vv)));
    }

    /// Removes the comments for the specified key.
    pub fn remove(&mut self, key: &str)
        ensures
            final(self)@.vendor_string == old(self)@.vendor_string,
            final(self)@.comments == without_key(old(self)@.comments, key@),
            keys_distinct(old(self)@.comments) ==> keys_distinct(final(self)@.comments),
    {
        let k = key.to_owned();
        let ghost cs = self@.comments;
        proof {
            if keys_distinct(cs) {
                lemma_filter_keys_distinct(cs, key_differs(key@));
            }
        }
        let ghost pred = key_differs(key@);
        let mut kept: Vec<(String, Vec<String>)> = Vec::new();
        let mut old_comments: Vec<(String, Vec<String>)> = Vec::new();
        std::mem::swap(&mut old_comments, &mut self.comments);
        let mut rest = old_comments;
        let ghost all = rest@;
        assert(comment_list(all) =~= cs);
        proof {
            reveal(Seq::filter);
        }
        let mut i: usize = 0;
        let n: usize = rest.len();
        while i < n
            invariant
                n == all.len(),
                i <= n,
                rest@ == all.subrange(i as int, n as int),
                comment_list(kept@) == cs.subrange(0, i as int).filter(pred),
                cs == comment_list(all),
                k@ == key@,
                pred == key_differs(key@),
            decreases n - i,
        {
            assert(rest@[0] == all[i as int]);
            let e = rest.remove(0);
            assert(rest@ =~= all.subrange(i + 1, n as int));
            assert(cs[i as int] == (e.0@, strings(e.1@)));
            let ghost before = comment_list(kept@);
            assert(cs.subrange(0, i + 1).drop_last() =~= cs.subrange(0, i as int));
            proof {
                reveal(Seq::filter);
            }
            let ghost next = cs.subrange(0, i + 1);
            assert(next.last() == cs[i as int]);
            if !(e.0 == k) {
                let ghost ev = (e.0@, strings(e.1@));
                assert(pred(ev));
                assert(next.filter(pred) == next.drop_last().filter(pred).push(ev));
                kept.push(e);
                assert(comment_list(kept@) =~= before.push(ev));
            } else {
                assert(!pred(cs[i as int]));
                assert(next.filter(pred) == next.drop_last().filter(pred));
            }
            i = i + 1;
        }
        assert(cs.subrange(0, n as int) =~= cs);
        self.comments = kept;
    }

    /// Removes any matching key/value pairs.
    pub fn remove_pair(&mut self, key: &str, value: &str)
        ensures
            final(self)@.vendor_string == old(self)@.vendor_string,
            final(self)@.comments == without_pair(old(self)@.comments, key@, value@),
            keys_distinct(old(self)@.comments) ==> keys_distinct(final(self)@.comments),
    {
        let k = key.to_owned();
        let v = value.to_owned();
        let ghost cs = self@.comments;
        proof {
            if keys_distinct(cs) {
                lemma_without_pair_distinct(cs, key@, value@);
            }
        }
        proof {
            lemma_find_key_range(cs, key@);
        }
        let i = match position_in(&self.comments, &k) {
            Some(i) => i,
            None => {
                return;
            },
        };
        let ghost vs = cs[i as int].1;
        let ghost pred = value_differs(value@);
        let mut left: Vec<String> = Vec::new();
        let mut j: usize = 0;
        let n: usize = self.comments[i].1.len();
        proof {
            reveal(Seq::filter);
        }
        while j < n
            invariant
                i < self.comments@.len(),
                cs == self@.comments,
                vs == cs[i as int].1,
                n == vs.len(),
                j <= n,
                strings(left@) == vs.subrange(0, j as int).filter(pred),
                pred == value_differs(value@),
                v@ == value@,
            decreases n - j,
        {
            let s = &self.comments[i].1[j];
            let ghost before = strings(left@);
            let ghost next = vs.subrange(0, j + 1);
            assert(next.drop_last() =~= vs.subrange(0, j as int));
            assert(next.last() == s@);
            proof {
                reveal(Seq::filter);
            }
            if !(*s == v) {
                let c = s.clone();
                assert(pred(s@));
                left.push(c);
                assert(strings(left@) =~= before.push(next.last()));
            }
            j = j + 1;
        }
        assert(vs.subrange(0, n as int) =~= vs);
        if left.len() == 0 {
            self.remove(key);
        } else {
            let ghost lv = strings(left@);
            let _ = self.comments.remove(i);
            self.comments.insert(i, (k, left));
            assert(self@.comments =~= cs.update(i as int, (key@, lv)));
        }
    }

    /// Attempts to parse the bytes as a vorbis comment block. Returns a `VorbisComment` on
    /// success.
    pub fn from_bytes(bytes: &[u8]) -> (r: Result<VorbisComment>)
        ensures
            match (r, vorbis_of(bytes@)) {
                (Ok(c), Ok(m)) => c@ == m,
                (Err(e), Err(k)) => e.kind == k,
                _ => false,
            },
            r is Ok ==> keys_distinct(r->Ok_0@.comments),
    {
        let len: usize = bytes.len();
        proof {
            lemma_vorbis_of_distinct(bytes@);
            lemma_pow256_8();
        }
        if len < 4 {
            return Err(Error::new(ErrorKind::InvalidInput, "vorbis comment block is too short"));
        }
        let vendor_len: u64 = bytes_to_le_u64(&bytes[0..4]);
        proof {
            lemma_le_value_bound(bytes@.subrange(0, 4));
        }
        if !room(len, 4, vendor_len + 4) {
            return Err(Error::new(ErrorKind::InvalidInput, "vorbis comment block is too short"));
        }
        let vend: usize = 4 + vendor_len as usize;
        let vendor_string = match decode_range(bytes, 4, vend) {
            Some(s) => s,
            None => {
                return Err(Error::new(ErrorKind::StringDecoding, "invalid vendor string"));
            },
        };
        let count: u64 = bytes_to_le_u64(&bytes[vend..vend + 4]);
        let mut comments: Vec<(String, Vec<String>)> = Vec::new();
        let mut i: u64 = 0;
        let mut p: usize = vend + 4;
        let ghost mut es: Seq<(Seq<char>, Seq<char>)> = Seq::empty();
        assert(comment_list(comments@) =~= group(es));
        while i < count
            invariant
                len == bytes@.len(),
                vend + 4 <= len,
                vend == 4 + le_u32_at(bytes@, 0),
                valid_utf8(bytes@.subrange(4, vend as int)),
                count == le_u32_at(bytes@, vend as int),
                i <= count,
                p <= len,
                entries_at(bytes@, vend + 4, i as nat) == Ok::<(Seq<(Seq<char>, Seq<char>)>, int), ErrorKind>((es, p as int)),
                comment_list(comments@) == group(es),
            decreases count - i,
        {
            let ghost prev = entries_at(bytes@, vend + 4, i as nat);
            assert(entries_at(bytes@, vend + 4, (i + 1) as nat) == match entry_at(bytes@, p as int) {
                Err(e) => Err(e),
                Ok((x, q)) => Ok::<(Seq<(Seq<char>, Seq<char>)>, int), ErrorKind>((es.push(x), q)),
            });
            match read_entry(bytes, p) {
                Ok(((key, value), q)) => {
                    let ghost x = (key@, value@);
                    add_value_to(&mut comments, key, value);
                    proof {
                        assert(es.push(x).drop_last() =~= es);
                        es = es.push(x);
                    }
                    p = q;
                },
                Err(e) => {
                    proof {
                        lemma_entries_error_persists(bytes@, vend + 4, (i + 1) as nat, count as nat);
                    }
                    return Err(e);
                },
            }
            i = i + 1;
        }
        Ok(VorbisComment { vendor_string, comments })
    }

    /// Whether the number of comments fits its 32-bit field.
    pub fn fits(&self) -> (r: bool)
        ensures
            r == vorbis_fits(self@),
    {
        let ghost cs = self@.comments;
        let mut count: u64 = 0;
        let mut i: usize = 0;
        while i < self.comments.len()
            invariant
                i <= self.comments@.len(),
                cs == self@.comments,
                count == pairs(cs.subrange(0, i as int)).len(),
                count < 0x100000000,
            decreases self.comments@.len() - i,
        {
            assert(cs.subrange(0, i + 1).drop_last() =~= cs.subrange(0, i as int));
            let n = self.comments[i].1.len() as u64;
            if n >= 0x100000000 - count {
                proof {
                    lemma_pairs_len_mono(cs, i + 1);
                }
                return false;
            }
            count = count + n;
            i = i + 1;
        }
        assert(cs.subrange(0, i as int) =~= cs);
        true
    }

    /// Returns a vector representation of the vorbis comment suitable for writing to a file.
    pub fn to_bytes(&self) -> (r: Vec<u8>)
        requires
            vorbis_fits(self@),
        ensures
            r@ == vorbis_bytes(self@),
    {
        let ghost cs = self@.comments;
        let vendor = string_bytes(&self.vendor_string);
        let mut bytes = u64_to_le_bytes(vendor.len() as u64, 4);
        append_bytes(&mut bytes, vendor.as_slice());
        let mut count: u64 = 0;
        let mut i: usize = 0;
        while i < self.comments.len()
            invariant
                i <= self.comments@.len(),
                cs == self@.comments,
                vorbis_fits(self@),
                count == pairs(cs.subrange(0, i as int)).len(),
            decreases self.comments@.len() - i,
        {
            assert(cs.subrange(0, i + 1).drop_last() =~= cs.subrange(0, i as int));
            proof {
                lemma_pairs_len_mono(cs, i + 1);
            }
            count = count + self.comments[i].1.len() as u64;
            i = i + 1;
        }
        assert(cs.subrange(0, i as int) =~= cs);
        let mut part = u64_to_le_bytes(count, 4);
        bytes.append(&mut part);
        let ghost head = bytes@;
        let mut i: usize = 0;
        while i < self.comments.len()
            invariant
                i <= self.comments@.len(),
                cs == self@.comments,
                bytes@ == head + entries_bytes(pairs(cs.subrange(0, i as int))),
            decreases self.comments@.len() - i,
        {
            let key = string_bytes(&self.comments[i].0);
            let ghost k = cs[i as int].0;
            let ghost vs = cs[i as int].1;
            let ghost done = pairs(cs.subrange(0, i as int));
            let ghost f = |v: Seq<char>| (k, v);
            let mut j: usize = 0;
            assert(done + vs.subrange(0, 0).map_values(f) =~= done);
            while j < self.comments[i].1.len()
                invariant
                    i < self.comments@.len(),
                    cs == self@.comments,
                    k == cs[i as int].0,
                    vs == cs[i as int].1,
                    key@ == encode_utf8(k),
                    f == (|v: Seq<char>| (k, v)),
                    j <= vs.len(),
                    bytes@ == head + entries_bytes(done + vs.subrange(0, j as int).map_values(f)),
                decreases vs.len() - j,
            {
                let value = string_bytes(&self.comments[i].1[j]);
                let mut entry: Vec<u8> = Vec::new();
                append_bytes(&mut entry, key.as_slice());
                entry.push(0x3Du8);
                append_bytes(&mut entry, value.as_slice());
                let mut field = u64_to_le_bytes(entry.len() as u64, 4);
                bytes.append(&mut field);
                bytes.append(&mut entry);
                let ghost es = done + vs.subrange(0, j + 1).map_values(f);
                assert(es.drop_last() =~= done + vs.subrange(0, j as int).map_values(f));
                assert(es.last() == (k, vs[j as int]));
                j = j + 1;
            }
            assert(vs.subrange(0, j as int) =~= vs);
            assert(cs.subrange(0, i + 1).drop_last() =~= cs.subrange(0, i as int));
            i = i + 1;
        }
        assert(cs.subrange(0, i as int) =~= cs);
        bytes
    }

    /// Returns a reference to the vector of values with the ARTIST key.
    pub fn artist(&self) -> (r: Option<&Vec<String>>)
        ensures
            match (r, lookup(self@.comments, "ARTIST"@)) {
                (Some(v), Some(vs)) => strings(v@) == vs,
                (None, None) => true,
                _ => false,
            },
    {
        self.get("ARTIST")
    }

    /// Sets the values for the ARTIST key. This will result in any ARTISTSORT comments being
    /// removed.
    pub fn set_artist(&mut self, values: Vec<&str>)
        ensures
            final(self)@.vendor_string == old(self)@.vendor_string,
            final(self)@.comments == with_values(
                without_key(old(self)@.comments, "ARTISTSORT"@),
                "ARTIST"@,
                Seq::new(values@.len(), |i: int| values@[i]@),
            ),
    {
        self.remove("ARTISTSORT");
        self.set("ARTIST", values);
    }

    /// Removes all values with the ARTIST key. This will result in any ARTISTSORT comments being
    /// removed as well.
    pub fn remove_artist(&mut self)
        ensures
            final(self)@.vendor_string == old(self)@.vendor_string,
            final(self)@.comments == without_key(
                without_key(old(self)@.comments, "ARTISTSORT"@),
                "ARTIST"@,
            ),
    {
        self.remove("ARTISTSORT");
        self.remove("ARTIST");
    }

    /// Returns a reference to the vector of values with the ALBUM key.
    pub fn album(&self) -> (r: Option<&Vec<String>>)
        ensures
            match (r, lookup(self@.comments, "ALBUM"@)) {
                (Some(v), Some(vs)) => strings(v@) == vs,
                (None, None) => true,
                _ => false,
            },
    {
        self.get("ALBUM")
    }

    /// Sets the values for the ALBUM key. This will result in any ALBUMSORT comments being
    /// removed.
    pub fn set_album(&mut self, values: Vec<&str>)
        ensures
            final(self)@.vendor_string == old(self)@.vendor_string,
            final(self)@.comments == with_values(
                without_key(old(self)@.comments, "ALBUMSORT"@),
                "ALBUM"@,
                Seq::new(values@.len(), |i: int| values@[i]@),
            ),
    {
        self.remove("ALBUMSORT");
        self.set("ALBUM", values);
    }

    /// Removes all values with the ALBUM key. This will result in any ALBUMSORT comments being
    /// removed as well.
    pub fn remove_album(&mut self)
        ensures
            final(self)@.vendor_string == old(self)@.vendor_string,
            final(self)@.comments == without_key(
                without_key(old(self)@.comments, "ALBUMSORT"@),
                "ALBUM"@,
            ),
    {
        self.remove("ALBUMSORT");
        self.remove("ALBUM");
    }

    /// Returns a reference to the vector of values with the GENRE key.
    pub fn genre(&self) -> (r: Option<&Vec<String>>)
        ensures
            match (r, lookup(self@.comments, "GENRE"@)) {
                (Some(v), Some(vs)) => strings(v@) == vs,
                (None, None) => true,
                _ => false,
            },
    {
        self.get("GENRE")
    }

    /// Sets the values for the GENRE key.
    pub fn set_genre(&mut self, values: Vec<&str>)
        ensures
            final(self)@.vendor_string == old(self)@.vendor_string,
            final(self)@.comments == with_values(
                old(self)@.comments,
                "GENRE"@,
                Seq::new(values@.len(), |i: int| values@[i]@),
            ),
    {
        self.set("GENRE", values);
    }

    /// Removes all values with the GENRE key.
    pub fn remove_genre(&mut self)
        ensures
            final(self)@.vendor_string == old(self)@.vendor_string,
            final(self)@.comments == without_key(old(self)@.comments, "GENRE"@),
    {
        self.remove("GENRE");
    }

    /// Returns a reference to the vector of values with the TITLE key.
    pub fn title(&self) -> (r: Option<&Vec<String>>)
        ensures
            match (r, lookup(self@.comments, "TITLE"@)) {
                (Some(v), Some(vs)) => strings(v@) == vs,
                (None, None) => true,
                _ => false,
            },
    {
        self.get("TITLE")
    }

    /// Sets the values for the TITLE key. This will result in any TITLESORT comments being
    /// removed.
    pub fn set_title(&mut self, values: Vec<&str>)
        ensures
            final(self)@.vendor_string == old(self)@.vendor_string,
            final(self)@.comments == with_values(
                without_key(old(self)@.comments, "TITLESORT"@),
                "TITLE"@,
                Seq::new(values@.len(), |i: int| values@[i]@),
            ),
    {
        self.remove("TITLESORT");
        self.set("TITLE", values);
    }

    /// Removes all values with the TITLE key. This will result in any TITLESORT comments being
    /// removed as well.
    pub fn remove_title(&mut self)
        ensures
            final(self)@.vendor_string == old(self)@.vendor_string,
            final(self)@.comments == without_key(
                without_key(old(self)@.comments, "TITLESORT"@),
                "TITLE"@,
            ),
    {
        self.remove("TITLESORT");
        self.remove("TITLE");
    }

    /// Attempts to convert the first TRACKNUMBER comment to a `u32`.
    pub fn track(&self) -> (r: Option<u32>)
        ensures
            r == first_number(self@.comments, "TRACKNUMBER"@),
    {
        match self.get("TRACKNUMBER") {
            Some(values) => {
                if values.len() > 0 {
                    parse_u32(values[0].as_str())
                } else {
                    None
                }
            },
            None => None,
        }
    }

    /// Sets the TRACKNUMBER comment.
    pub fn set_track(&mut self, n: u32)
        ensures
            final(self)@.vendor_string == old(self)@.vendor_string,
            final(self)@.comments == with_values(old(self)@.comments, "TRACKNUMBER"@, seq![decimal(n as nat)]),
    {
        let text = decimal_string(n);
        let values: Vec<&str> = vec![text.as_str()];
        self.set("TRACKNUMBER", values);
        assert(Seq::new(values@.len(), |i: int| values@[i]@) =~= seq![decimal(n as nat)]);
    }

    /// Removes all values with the TRACKNUMBER key.
    pub fn remove_track(&mut self)
        ensures
            final(self)@.vendor_string == old(self)@.vendor_string,
            final(self)@.comments == without_key(old(self)@.comments, "TRACKNUMBER"@),
    {
        self.remove("TRACKNUMBER");
    }

    /// Attempts to convert the first TOTALTRACKS comment to a `u32`.
    pub fn total_tracks(&self) -> (r: Option<u32>)
        ensures
            r == first_number(self@.comments, "TOTALTRACKS"@),
    {
        match self.get("TOTALTRACKS") {
            Some(values) => {
                if values.len() > 0 {
                    parse_u32(values[0].as_str())
                } else {
                    None
                }
            },
            None => None,
        }
    }

    /// Sets the TOTALTRACKS comment.
    pub fn set_total_tracks(&mut self, n: u32)
        ensures
            final(self)@.vendor_string == old(self)@.vendor_string,
            final(self)@.comments == with_values(old(self)@.comments, "TOTALTRACKS"@, seq![decimal(n as nat)]),
    {
        let text = decimal_string(n);
        let values: Vec<&str> = vec![text.as_str()];
        self.set("TOTALTRACKS", values);
        assert(Seq::new(values@.len(), |i: int| values@[i]@) =~= seq![decimal(n as nat)]);
    }

    /// Removes all values with the TOTALTRACKS key.
    pub fn remove_total_tracks(&mut self)
        ensures
            final(self)@.vendor_string == old(self)@.vendor_string,
            final(self)@.comments == without_key(old(self)@.comments, "TOTALTRACKS"@),
    {
        self.remove("TOTALTRACKS");
    }

    /// Returns a reference to the vector of values with the ALBUMARTIST key.
    pub fn album_artist(&self) -> (r: Option<&Vec<String>>)
        ensures
            match (r, lookup(self@.comments, "ALBUMARTIST"@)) {
                (Some(v), Some(vs)) => strings(v@) == vs,
                (None, None) => true,
                _ => false,
            },
    {
        self.get("ALBUMARTIST")
    }

    /// Sets the values for the ALBUMARTIST key. This will result in any ALBUMARTISTSORT comments being
    /// removed.
    pub fn set_album_artist(&mut self, values: Vec<&str>)
        ensures
            final(self)@.vendor_string == old(self)@.vendor_string,
            final(self)@.comments == with_values(
                without_key(old(self)@.comments, "ALBUMARTISTSORT"@),
                "ALBUMARTIST"@,
                Seq::new(values@.len(), |i: int| values@[i]@),
            ),
    {
        self.remove("ALBUMARTISTSORT");
        self.set("ALBUMARTIST", values);
    }

    /// Removes all values with the ALBUMARTIST key. This will result in any ALBUMARTISTSORT comments being
    /// removed as well.
    pub fn remove_album_artist(&mut self)
        ensures
            final(self)@.vendor_string == old(self)@.vendor_string,
            final(self)@.comments == without_key(
                without_key(old(self)@.comments, "ALBUMARTISTSORT"@),
                "ALBUMARTIST"@,
            ),
    {
        self.remove("ALBUMARTISTSORT");
        self.remove("ALBUMARTIST");
    }

    /// Returns a reference to the vector of values with the LYRICS key.
    pub fn lyrics(&self) -> (r: Option<&Vec<String>>)
        ensures
            match (r, lookup(self@.comments, "LYRICS"@)) {
                (Some(v), Some(vs)) => strings(v@) == vs,
                (None, None) => true,
                _ => false,
            },
    {
        self.get("LYRICS")
    }

    /// Sets the values for the LYRICS key.
    pub fn set_lyrics(&mut self, values: Vec<&str>)
        ensures
            final(self)@.vendor_string == old(self)@.vendor_string,
            final(self)@.comments == with_values(
                old(self)@.comments,
                "LYRICS"@,
                Seq::new(values@.len(), |i: int| values@[i]@),
            ),
    {
        self.set("LYRICS", values);
    }

    /// Removes all values with the LYRICS key.
    pub fn remove_lyrics(&mut self)
        ensures
            final(self)@.vendor_string == old(self)@.vendor_string,
            final(self)@.comments == without_key(old(self)@.comments, "LYRICS"@),
    {
        self.remove("LYRICS");
    }
}

impl Default for VorbisComment {
    fn default() -> (r: VorbisComment)
        ensures
            r@.vendor_string == Seq::<char>::empty(),
            r@.comments == CommentList::empty(),
    {
        VorbisComment::new()
    }
}

} // verus!
