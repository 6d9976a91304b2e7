//! Names on the wire: a row of labels, each behind its length byte.

use crate::text::{
    append_bytes, lemma_split_join, lemma_split_nonempty, lemma_split_piece_len, pieces_view, split,
    split_bytes, DOT,
};
use vstd::prelude::*;

verus! {

/// The longest label that a length byte can announce.
pub const MAX_LABEL: usize = 255;

/// One label on the wire: its length in one byte, then its bytes.
pub open spec fn label_wire(label: Seq<u8>) -> Seq<u8> {
    seq![label.len() as u8] + label
}

/// A row of labels on the wire, one behind the other.
pub open spec fn labels_wire(labels: Seq<Seq<u8>>) -> Seq<u8>
    decreases labels.len(),
{
    if labels.len() == 0 {
        Seq::<u8>::empty()
    } else {
        labels_wire(labels.drop_last()) + label_wire(labels.last())
    }
}

/// Every label is short enough for its length byte.
pub open spec fn labels_fit(labels: Seq<Seq<u8>>) -> bool {
    forall|i: int| 0 <= i < labels.len() ==> (#[trigger] labels[i]).len() <= MAX_LABEL
}

/// The labels of a dotted name: the pieces between its dots.
pub open spec fn labels_of(name: Seq<u8>) -> Seq<Seq<u8>> {
    split(name, DOT)
}

/// A dotted name whose labels all fit their length bytes.
pub open spec fn name_fits(name: Seq<u8>) -> bool {
    labels_fit(labels_of(name))
}

/// A dotted name as a row of labels on the wire, without a terminating
/// zero byte of its own. A name that ends in a dot has an empty last label,
/// whose length byte is that zero.
pub open spec fn name_wire(name: Seq<u8>) -> Seq<u8> {
    labels_wire(labels_of(name))
}

/// Writes a dotted name as a row of labels, or `None` if one of its labels
/// is longer than 255 bytes.
pub fn label_to_bytes(name: &[u8]) -> (r: Option<Vec<u8>>)
    ensures
        match r {
            Some(wire) => name_fits(name@) && wire@ == name_wire(name@),
            None => !name_fits(name@),
        },
{
    let pieces = split_bytes(name, DOT);
    let ghost labels = labels_of(name@);
    let mut wire: Vec<u8> = Vec::new();
    let mut i: usize = 0;
    assert(labels.take(0) =~= Seq::<Seq<u8>>::empty());
    while i < pieces.len()
        invariant
            i <= pieces.len(),
            labels == labels_of(name@),
            labels == pieces_view(pieces@),
            labels_fit(labels.take(i as int)),
            wire@ == labels_wire(labels.take(i as int)),
        decreases pieces.len() - i,
    {
        let piece = &pieces[i];
        assert(labels[i as int] == piece@);
        if piece.len() > MAX_LABEL {
            return None;
        }
        assert(labels.take(i + 1).drop_last() =~= labels.take(i as int));
        assert(labels.take(i + 1).last() == piece@);
        wire.push(piece.len() as u8);
        append_bytes(&mut wire, piece.as_slice());
        assert(wire@ =~= labels_wire(labels.take(i as int)) + label_wire(piece@));
        assert forall|j: int| 0 <= j < labels.take(i + 1).len() implies (
        #[trigger] labels.take(i + 1)[j]).len() <= MAX_LABEL by {
            if j < i {
                assert(labels.take(i as int)[j] == labels[j]);
            }
        }
        i = i + 1;
    }
    assert(labels.take(i as int) =~= labels);
    Some(wire)
}

/// On the wire a dotted name takes one byte more than it has itself: a
/// length byte for each label in place of each dot, and one more.
pub proof fn lemma_name_wire_len(name: Seq<u8>)
    ensures
        name_wire(name).len() == name.len() + 1,
    decreases name.len(),
{
    if name.len() == 0 {
        let labels = labels_of(name);
        assert(labels.drop_last() =~= Seq::<Seq<u8>>::empty());
        assert(labels_wire(labels.drop_last()) =~= Seq::<u8>::empty());
    } else {
        let before = labels_of(name.drop_last());
        lemma_split_nonempty(name.drop_last(), DOT);
        lemma_name_wire_len(name.drop_last());
        if name.last() == DOT {
            assert(before.push(Seq::<u8>::empty()).drop_last() =~= before);
        } else {
            let longer = before.last().push(name.last());
            assert(before.drop_last().push(longer).drop_last() =~= before.drop_last());
        }
    }
}

/// The labels of a name, with dots between them.
pub open spec fn join(labels: Seq<Seq<u8>>) -> Seq<u8>
    decreases labels.len(),
{
    if labels.len() == 0 {
        Seq::<u8>::empty()
    } else if labels.len() == 1 {
        labels[0]
    } else {
        join(labels.drop_last()) + seq![DOT] + labels.last()
    }
}

/// Labels that fit their length bytes join to a name whose labels fit,
/// also where a label holds a dot of its own.
pub proof fn lemma_join_fits(labels: Seq<Seq<u8>>)
    requires
        labels_fit(labels),
    ensures
        name_fits(join(labels)),
    decreases labels.len(),
{
    let name = join(labels);
    if labels.len() == 0 {
    } else if labels.len() == 1 {
        assert forall|i: int| 0 <= i < labels_of(name).len() implies (#[trigger] labels_of(
            name,
        )[i]).len() <= MAX_LABEL by {
            lemma_split_piece_len(name, DOT, i);
            assert(labels[0].len() <= MAX_LABEL);
        }
    } else {
        let front = join(labels.drop_last());
        let last = labels.last();
        assert(labels_fit(labels.drop_last())) by {
            assert forall|i: int| 0 <= i < labels.drop_last().len() implies (
            #[trigger] labels.drop_last()[i]).len() <= MAX_LABEL by {
                assert(labels.drop_last()[i] == labels[i]);
            }
        }
        lemma_join_fits(labels.drop_last());
        lemma_split_join(front, last, DOT);
        assert forall|i: int| 0 <= i < labels_of(name).len() implies (#[trigger] labels_of(
            name,
        )[i]).len() <= MAX_LABEL by {
            let head = labels_of(front);
            if i < head.len() {
                assert(labels_of(name)[i] == head[i]);
            } else {
                assert(labels_of(name)[i] == labels_of(last)[i - head.len()]);
                lemma_split_piece_len(last, DOT, i - head.len());
                assert(last.len() <= MAX_LABEL);
            }
        }
    }
}

/// The first byte of a compression pointer with nothing but its mark: the
/// two highest bits.
pub const POINTER_MARK: u16 = 0xc000;

/// The offsets that a compression pointer can hold are those below this.
pub const POINTER_LIMIT: usize = 0x4000;

/// The compression pointer to the name at `offset` of a message: the two
/// highest bits set, and the offset in the fourteen bits below them. An
/// offset that does not fit in fourteen bits has no pointer.
pub open spec fn name_pointer(offset: int) -> Option<u16> {
    if 0 <= offset < POINTER_LIMIT {
        Some((POINTER_MARK + offset) as u16)
    } else {
        None
    }
}

/// The compression pointer to the name at `offset`, where there is one.
pub fn pointer_to(offset: usize) -> (r: Option<u16>)
    ensures
        r == name_pointer(offset as int),
{
    if offset < POINTER_LIMIT {
        Some(POINTER_MARK + offset as u16)
    } else {
        None
    }
}

/// A pointer has its two highest bits set and holds its offset in the
/// other fourteen.
pub proof fn lemma_pointer_bits(offset: int)
    requires
        0 <= offset < POINTER_LIMIT,
    ensures
        name_pointer(offset) is Some,
        name_pointer(offset).unwrap() & 0xc000 == 0xc000,
        name_pointer(offset).unwrap() & 0x3fff == offset,
{
    let low: u16 = offset as u16;
    let pointer: u16 = name_pointer(offset).unwrap();
    assert(pointer == 0xc000 + low);
    assert((0xc000u16 + low) as u16 & 0xc000 == 0xc000 && (0xc000u16 + low) as u16 & 0x3fff
        == low) by (bit_vector)
        requires
            low < 0x4000,
    ;
}

} // verus!
