//! Wire format of the stored fingerprint: a tag byte, and for folders a
//! repeated (length-prefixed base name, kind byte) record per child. The
//! format is internal to the cache; unknown encodings are rejected.

use vstd::bytes::lemma_auto_spec_u64_to_from_le_bytes;
use vstd::bytes::spec_u64_from_le_bytes;
use vstd::bytes::spec_u64_to_le_bytes;
use vstd::bytes::u64_from_le_bytes;
use vstd::bytes::u64_to_le_bytes;
use vstd::prelude::*;
use vstd::slice::slice_subrange;
use vstd::slice::slice_to_vec;

use crate::node::{children_view, FsNode, FsNodeType, FsNodeView};
use crate::FsSyncError;

verus! {

/// Tag byte of a kind.
pub open spec fn spec_kind_byte(k: FsNodeType) -> u8 {
    match k {
        FsNodeType::File => 0u8,
        FsNodeType::Symlink => 1u8,
        FsNodeType::Folder => 2u8,
    }
}

/// The kind a tag byte stands for, if any.
pub open spec fn spec_byte_kind(b: u8) -> Option<FsNodeType> {
    if b == 0 {
        Some(FsNodeType::File)
    } else if b == 1 {
        Some(FsNodeType::Symlink)
    } else if b == 2 {
        Some(FsNodeType::Folder)
    } else {
        None
    }
}

/// One child record: 8-byte little-endian name length, name bytes, kind byte.
pub open spec fn spec_encode_child(c: (Seq<u8>, FsNodeType)) -> Seq<u8> {
    spec_u64_to_le_bytes(c.0.len() as u64) + c.0 + seq![spec_kind_byte(c.1)]
}

/// Child records in order.
pub open spec fn spec_encode_children(cs: Seq<(Seq<u8>, FsNodeType)>) -> Seq<u8>
    decreases cs.len(),
{
    if cs.len() == 0 {
        Seq::empty()
    } else {
        spec_encode_child(cs.first()) + spec_encode_children(cs.drop_first())
    }
}

/// The full encoding of a fingerprint.
pub open spec fn spec_encode(m: FsNodeView) -> Seq<u8> {
    match m {
        FsNodeView::File => seq![0u8],
        FsNodeView::Symlink => seq![1u8],
        FsNodeView::Folder(cs) => seq![2u8] + spec_encode_children(cs),
    }
}

/// Parse child records until the bytes run out; any malformed or trailing
/// bytes reject the whole input.
pub open spec fn spec_decode_children(b: Seq<u8>) -> Option<Seq<(Seq<u8>, FsNodeType)>>
    decreases b.len(),
{
    if b.len() == 0 {
        Some(Seq::empty())
    } else if b.len() < 8 {
        None
    } else {
        let n = spec_u64_from_le_bytes(b.take(8)) as int;
        let rest = b.skip(8);
        if rest.len() < n + 1 {
            None
        } else {
            match spec_byte_kind(rest[n]) {
                Option::None => None,
                Option::Some(k) => match spec_decode_children(rest.skip(n + 1)) {
                    Option::None => None,
                    Option::Some(tail) => Some(seq![(rest.take(n), k)] + tail),
                },
            }
        }
    }
}

/// The fingerprint a byte string encodes, if it is well formed.
pub open spec fn spec_decode(b: Seq<u8>) -> Option<FsNodeView> {
    if b.len() == 0 {
        None
    } else if b[0] == 0 {
        if b.len() == 1 {
            Some(FsNodeView::File)
        } else {
            None
        }
    } else if b[0] == 1 {
        if b.len() == 1 {
            Some(FsNodeView::Symlink)
        } else {
            None
        }
    } else if b[0] == 2 {
        match spec_decode_children(b.skip(1)) {
            Option::None => None,
            Option::Some(cs) => Some(FsNodeView::Folder(cs)),
        }
    } else {
        None
    }
}

/// Every child name fits in the 8-byte length prefix.
pub open spec fn children_len_ok(cs: Seq<(Seq<u8>, FsNodeType)>) -> bool {
    forall|i: int| 0 <= i < cs.len() ==> (#[trigger] cs[i]).0.len() <= u64::MAX
}

/// The fingerprint can be encoded without loss.
pub open spec fn node_len_ok(m: FsNodeView) -> bool {
    match m {
        FsNodeView::Folder(cs) => children_len_ok(cs),
        _ => true,
    }
}

/// Decoding inverts encoding on child records.
pub proof fn lemma_children_round_trip(cs: Seq<(Seq<u8>, FsNodeType)>)
    requires
        children_len_ok(cs),
    ensures
        spec_decode_children(spec_encode_children(cs)) == Some(cs),
    decreases cs.len(),
{
    lemma_auto_spec_u64_to_from_le_bytes();
    if cs.len() == 0 {
    } else {
        let c = cs.first();
        let tail_enc = spec_encode_children(cs.drop_first());
        let e = spec_encode_children(cs);
        assert(e == spec_encode_child(c) + tail_enc);
        let lb = spec_u64_to_le_bytes(c.0.len() as u64);
        assert(lb.len() == 8);
        assert(e.take(8) =~= lb);
        let n = spec_u64_from_le_bytes(e.take(8)) as int;
        assert(n == c.0.len());
        let rest = e.skip(8);
        assert(rest =~= c.0 + seq![spec_kind_byte(c.1)] + tail_enc);
        assert(rest.len() == c.0.len() + 1 + tail_enc.len());
        assert(rest.take(n) =~= c.0);
        assert(rest[n] == spec_kind_byte(c.1));
        assert(spec_byte_kind(spec_kind_byte(c.1)) == Some(c.1));
        assert(rest.skip(n + 1) =~= tail_enc);
        assert(children_len_ok(cs.drop_first())) by {
            assert(forall|i: int|
                0 <= i < cs.drop_first().len() ==> cs.drop_first()[i] == cs[i + 1]);
        }
        lemma_children_round_trip(cs.drop_first());
        assert(seq![(rest.take(n), c.1)] + cs.drop_first() =~= cs);
    }
}

/// Decoding inverts encoding: the codec loses nothing.
pub proof fn lemma_node_round_trip(m: FsNodeView)
    requires
        node_len_ok(m),
    ensures
        spec_decode(spec_encode(m)) == Some(m),
{
    let e = spec_encode(m);
    match m {
        FsNodeView::File => {
            assert(e.len() == 1 && e[0] == 0);
        }
        FsNodeView::Symlink => {
            assert(e.len() == 1 && e[0] == 1);
        }
        FsNodeView::Folder(cs) => {
            assert(e[0] == 2);
            assert(e.skip(1) =~= spec_encode_children(cs));
            lemma_children_round_trip(cs);
        }
    }
}

/// Appending one child record to an encoded prefix.
pub proof fn lemma_encode_children_push(xs: Seq<(Seq<u8>, FsNodeType)>, y: (Seq<u8>, FsNodeType))
    ensures
        spec_encode_children(xs.push(y)) == spec_encode_children(xs) + spec_encode_child(y),
    decreases xs.len(),
{
    if xs.len() == 0 {
        reveal_with_fuel(spec_encode_children, 3);
        assert(xs.push(y).first() == y);
        assert(xs.push(y).drop_first() =~= xs);
        assert(spec_encode_children(xs.push(y)) =~= spec_encode_child(y));
        assert(spec_encode_children(xs) + spec_encode_child(y) =~= spec_encode_child(y));
    } else {
        assert(xs.push(y).first() == xs.first());
        assert(xs.push(y).drop_first() =~= xs.drop_first().push(y));
        lemma_encode_children_push(xs.drop_first(), y);
        assert(spec_encode_children(xs.push(y)) =~= spec_encode_children(xs)
            + spec_encode_child(y));
    }
}

/// Tag byte of a kind.
pub fn kind_byte(k: FsNodeType) -> (r: u8)
    ensures
        r == spec_kind_byte(k),
{
    match k {
        FsNodeType::File => 0,
        FsNodeType::Symlink => 1,
        FsNodeType::Folder => 2,
    }
}

/// The kind a tag byte stands for, if any.
pub fn byte_kind(b: u8) -> (r: Option<FsNodeType>)
    ensures
        r == spec_byte_kind(b),
{
    if b == 0 {
        Some(FsNodeType::File)
    } else if b == 1 {
        Some(FsNodeType::Symlink)
    } else if b == 2 {
        Some(FsNodeType::Folder)
    } else {
        None
    }
}

/// Append all of `src` to `dst`.
pub fn append_bytes(dst: &mut Vec<u8>, src: &Vec<u8>)
    ensures
        final(dst)@ == old(dst)@ + src@,
{
    let mut i: usize = 0;
    while i < src.len()
        invariant
            0 <= i <= src.len(),
            dst@ =~= old(dst)@ + src@.take(i as int),
        decreases src.len() - i,
    {
        dst.push(src[i]);
        i = i + 1;
    }
    proof {
        assert(dst@ =~= old(dst)@ + src@);
    }
}

/// Serialize a fingerprint.
pub fn encode_node(n: &FsNode) -> (r: Vec<u8>)
    ensures
        r@ == spec_encode(n@),
{
    match n {
        FsNode::File => {
            let mut v: Vec<u8> = Vec::new();
            v.push(0);
            proof {
                assert(v@ =~= spec_encode(n@));
            }
            v
        }
        FsNode::Symlink => {
            let mut v: Vec<u8> = Vec::new();
            v.push(1);
            proof {
                assert(v@ =~= spec_encode(n@));
            }
            v
        }
        FsNode::Folder(cs) => {
            let ghost cm = children_view(cs@);
            let mut v: Vec<u8> = Vec::new();
            v.push(2);
            let mut i: usize = 0;
            while i < cs.len()
                invariant
                    0 <= i <= cs.len(),
                    cm == children_view(cs@),
                    v@ == seq![2u8] + spec_encode_children(cm.take(i as int)),
                decreases cs.len() - i,
            {
                let name_len: usize = cs[i].0.len();
                let lb = u64_to_le_bytes(name_len as u64);
                append_bytes(&mut v, &lb);
                append_bytes(&mut v, &cs[i].0);
                v.push(kind_byte(cs[i].1));
                proof {
                    assert(cm.take(i + 1) =~= cm.take(i as int).push(cm[i as int]));
                    lemma_encode_children_push(cm.take(i as int), cm[i as int]);
                    assert(spec_encode_child(cm[i as int]) =~= lb@ + cs@[i as int].0@
                        + seq![spec_kind_byte(cs@[i as int].1)]);
                    assert(v@ =~= seq![2u8] + spec_encode_children(cm.take(i + 1)));
                }
                i = i + 1;
            }
            proof {
                assert(cm.take(cs@.len() as int) =~= cm);
                assert(v@ =~= spec_encode(n@));
            }
            v
        }
    }
}

/// Deserialize a fingerprint, rejecting any byte string the encoder cannot
/// have produced.
pub fn decode_node(b: &Vec<u8>) -> (r: Result<FsNode, FsSyncError>)
    ensures
        match r {
            Result::Ok(n) => spec_decode(b@) == Some(n@),
            Result::Err(e) => e == FsSyncError::Corrupt && spec_decode(b@) is None,
        },
{
    if b.len() == 0 {
        return Err(FsSyncError::Corrupt);
    }
    let tag = b[0];
    if tag == 0 {
        if b.len() == 1 {
            Ok(FsNode::File)
        } else {
            Err(FsSyncError::Corrupt)
        }
    } else if tag == 1 {
        if b.len() == 1 {
            Ok(FsNode::Symlink)
        } else {
            Err(FsSyncError::Corrupt)
        }
    } else if tag == 2 {
        let mut cs: Vec<(Vec<u8>, FsNodeType)> = Vec::new();
        let mut off: usize = 1;
        while off < b.len()
            invariant
                1 <= off <= b@.len(),
                b@.len() >= 1 && b@[0] == 2,
                match spec_decode_children(b@.skip(off as int)) {
                    Option::Some(tail) => spec_decode_children(b@.skip(1)) == Some(
                        children_view(cs@) + tail,
                    ),
                    Option::None => spec_decode_children(b@.skip(1)) is None,
                },
            decreases b@.len() - off,
        {
            let ghost cur = b@.skip(off as int);
            let rem: usize = b.len() - off;
            if rem < 8 {
                return Err(FsSyncError::Corrupt);
            }
            let n64 = u64_from_le_bytes(slice_subrange(b.as_slice(), off, off + 8));
            proof {
                assert(b@.subrange(off as int, off + 8) =~= cur.take(8));
                assert(cur.skip(8) =~= b@.skip(off + 8));
            }
            if !(n64 < (rem - 8) as u64) {
                proof {
                    assert(spec_decode_children(cur) is None);
                }
                return Err(FsSyncError::Corrupt);
            }
            let n: usize = n64 as usize;
            let name = slice_to_vec(slice_subrange(b.as_slice(), off + 8, off + 8 + n));
            proof {
                assert(b@.subrange(off + 8, off + 8 + n) =~= cur.skip(8).take(n as int));
            }
            let kb = b[off + 8 + n];
            proof {
                assert(kb == cur.skip(8)[n as int]);
            }
            let k = match byte_kind(kb) {
                Option::Some(k) => k,
                Option::None => {
                    return Err(FsSyncError::Corrupt);
                }
            };
            let ghost old_cs = cs@;
            cs.push((name, k));
            off = off + 8 + n + 1;
            proof {
                assert(cur.skip(8).skip(n + 1) =~= b@.skip(off as int));
                assert(spec_decode_children(cur) == Some(
                    seq![(cur.skip(8).take(n as int), k)] + spec_decode_children(
                        b@.skip(off as int),
                    )->Some_0,
                ) || spec_decode_children(b@.skip(off as int)) is None);
                assert(children_view(cs@) =~= children_view(old_cs).push((name@, k)));
                if spec_decode_children(b@.skip(off as int)) is Some {
                    let tail = spec_decode_children(b@.skip(off as int))->Some_0;
                    assert(children_view(old_cs) + (seq![(name@, k)] + tail) =~= children_view(
                        cs@,
                    ) + tail);
                }
            }
        }
        proof {
            assert(b@.skip(off as int) =~= Seq::<u8>::empty());
            assert(spec_decode_children(b@.skip(off as int)) == Some(
                Seq::<(Seq<u8>, FsNodeType)>::empty(),
            ));
            assert(children_view(cs@) + Seq::<(Seq<u8>, FsNodeType)>::empty() =~= children_view(
                cs@,
            ));
        }
        Ok(FsNode::Folder(cs))
    } else {
        Err(FsSyncError::Corrupt)
    }
}

/// Any fingerprint value held in memory encodes without loss: every child
/// name is a vector, so its length is machine-bounded.
pub proof fn lemma_exec_node_len_ok(n: FsNode)
    ensures
        node_len_ok(n@),
{
    broadcast use vstd::std_specs::vec::axiom_spec_len;

    match n {
        FsNode::File => {},
        FsNode::Symlink => {},
        FsNode::Folder(cs) => {
            assert forall|i: int|
                0 <= i < children_view(cs@).len() implies (#[trigger] children_view(
                cs@,
            )[i]).0.len() <= u64::MAX by {
                assert(children_view(cs@)[i].0 == cs@[i].0@);
                assert(cs@[i].0.len() <= usize::MAX);
            }
        },
    }
}

} // verus!
