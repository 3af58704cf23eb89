//! What holds of every layout: fields lie in declaration order without
//! overlap, every offset respects its alignment, padding only ever adds
//! bytes, and a structure that gains a field gains size.

use vstd::prelude::*;
use crate::align::{
    round_up, lemma_round_up_bounds, lemma_round_up_ge, lemma_round_up_monotonic,
    lemma_round_up_shift,
};
use crate::layout::{
    FieldView, DeclView, effective_align, end_offset, field_offset, struct_align, struct_size,
    total_field_size, lemma_end_offset_prefix,
};

verus! {

/// The alignment of a structure is at least one byte and at least the capped
/// alignment of each of its fields.
pub proof fn lemma_struct_align_bounds(fields: Seq<FieldView>, cap: nat, i: int)
    requires
        0 <= i < fields.len(),
    ensures
        struct_align(fields, cap) >= 1,
        struct_align(fields, cap) >= effective_align(fields[i], cap),
    decreases fields.len(),
{
    lemma_struct_align_positive(fields.drop_last(), cap);
    if i < fields.len() - 1 {
        lemma_struct_align_bounds(fields.drop_last(), cap, i);
    }
}

/// The alignment of a structure is at least one byte.
pub proof fn lemma_struct_align_positive(fields: Seq<FieldView>, cap: nat)
    ensures
        struct_align(fields, cap) >= 1,
    decreases fields.len(),
{
    if fields.len() > 0 {
        lemma_struct_align_positive(fields.drop_last(), cap);
    }
}

/// Each field ends where the layout of the fields up to and including it ends,
/// and that is inside the structure.
pub proof fn lemma_field_inside(fields: Seq<FieldView>, cap: nat, i: int)
    requires
        0 <= i < fields.len(),
    ensures
        field_offset(fields, cap, i) + fields[i].size == end_offset(fields.take(i + 1), cap),
        field_offset(fields, cap, i) + fields[i].size <= struct_size(fields, cap),
{
    let upto = fields.take(i + 1);
    assert(upto.drop_last() =~= fields.take(i));
    assert(upto.last() == fields[i]);
    lemma_end_offset_prefix(fields, cap, i + 1);
    lemma_round_up_ge(end_offset(fields, cap), struct_align(fields, cap));
}

/// Fields lie in declaration order and do not overlap: an earlier field ends
/// before a later one starts.
pub proof fn lemma_fields_in_order(fields: Seq<FieldView>, cap: nat, i: int, j: int)
    requires
        0 <= i < j < fields.len(),
    ensures
        field_offset(fields, cap, i) + fields[i].size <= field_offset(fields, cap, j),
{
    lemma_field_inside(fields, cap, i);
    let before = fields.take(j);
    lemma_end_offset_prefix(before, cap, i + 1);
    assert(before.take(i + 1) =~= fields.take(i + 1));
    lemma_round_up_ge(end_offset(before, cap), effective_align(fields[j], cap));
}

/// Under rules with a positive cap, every field of a well-formed declaration
/// starts at a multiple of its capped alignment, and the size of the
/// structure is a multiple of the structure's alignment.
pub proof fn lemma_offsets_aligned(decl: DeclView, cap: nat, i: int)
    requires
        decl.wf(),
        cap >= 1,
        0 <= i < decl.fields.len(),
    ensures
        effective_align(decl.fields[i], cap) >= 1,
        field_offset(decl.fields, cap, i) % effective_align(decl.fields[i], cap) == 0,
        struct_size(decl.fields, cap) % struct_align(decl.fields, cap) == 0,
{
    assert(decl.fields[i].wf());
    lemma_round_up_bounds(
        end_offset(decl.fields.take(i), cap),
        effective_align(decl.fields[i], cap),
    );
    lemma_struct_align_positive(decl.fields, cap);
    lemma_round_up_bounds(end_offset(decl.fields, cap), struct_align(decl.fields, cap));
}

/// Padding only ever adds bytes: a structure is at least as large as its
/// fields together.
pub proof fn lemma_size_at_least_total(fields: Seq<FieldView>, cap: nat)
    ensures
        total_field_size(fields) <= end_offset(fields, cap) <= struct_size(fields, cap),
    decreases fields.len(),
{
    if fields.len() > 0 {
        lemma_size_at_least_total(fields.drop_last(), cap);
        lemma_round_up_ge(
            end_offset(fields.drop_last(), cap),
            effective_align(fields.last(), cap),
        );
    }
    lemma_round_up_ge(end_offset(fields, cap), struct_align(fields, cap));
}

/// Under byte packing there is no padding: the size of a structure is the sum
/// of the sizes of its fields.
pub proof fn lemma_byte_packed_size(fields: Seq<FieldView>)
    ensures
        end_offset(fields, 1) == total_field_size(fields),
        struct_align(fields, 1) == 1,
        struct_size(fields, 1) == total_field_size(fields),
    decreases fields.len(),
{
    if fields.len() > 0 {
        lemma_byte_packed_size(fields.drop_last());
        let a = effective_align(fields.last(), 1);
        assert(a == 0 || a == 1);
        let e = end_offset(fields.drop_last(), 1);
        assert(round_up(e, a) == e);
    }
    let e = end_offset(fields, 1);
    assert(round_up(e, 1) == e);
}

/// Under byte packing every field starts where the fields before it end.
pub proof fn lemma_byte_packed_offset(fields: Seq<FieldView>, i: int)
    requires
        0 <= i < fields.len(),
    ensures
        field_offset(fields, 1, i) == total_field_size(fields.take(i)),
{
    lemma_byte_packed_size(fields.take(i));
    let a = effective_align(fields[i], 1);
    assert(a == 0 || a == 1);
    let e = end_offset(fields.take(i), 1);
    assert(round_up(e, a) == e);
}

/// A structure that gains a last field at least as large as the structure's
/// alignment becomes strictly larger; read backwards, a structure that loses
/// such a last field becomes strictly smaller.
pub proof fn lemma_appended_field_grows(fields: Seq<FieldView>, cap: nat, f: FieldView)
    requires
        f.size >= struct_align(fields, cap),
    ensures
        struct_size(fields.push(f), cap) > struct_size(fields, cap),
{
    let more = fields.push(f);
    assert(more.drop_last() =~= fields);
    assert(more.last() == f);
    lemma_struct_align_positive(fields, cap);
    lemma_round_up_bounds(end_offset(fields, cap), struct_align(fields, cap));
    lemma_round_up_ge(end_offset(fields, cap), effective_align(f, cap));
    lemma_round_up_ge(end_offset(more, cap), struct_align(more, cap));
}

/// The sum of the sizes of two runs of fields laid end to end.
pub proof fn lemma_total_field_size_concat(front: Seq<FieldView>, back: Seq<FieldView>)
    ensures
        total_field_size(front + back) == total_field_size(front) + total_field_size(back),
    decreases back.len(),
{
    if back.len() == 0 {
        assert(front + back =~= front);
    } else {
        lemma_total_field_size_concat(front, back.drop_last());
        assert((front + back).drop_last() =~= front + back.drop_last());
        assert((front + back).last() == back.last());
    }
}

/// Under byte packing a field inserted anywhere adds exactly its own size to
/// the structure.
pub proof fn lemma_byte_packed_insert(fields: Seq<FieldView>, i: int, f: FieldView)
    requires
        0 <= i <= fields.len(),
    ensures
        struct_size(fields.insert(i, f), 1) == struct_size(fields, 1) + f.size,
{
    let front = fields.take(i);
    let back = fields.skip(i);
    let one = seq![f];
    assert(fields =~= front + back);
    assert(fields.insert(i, f) =~= (front + one) + back);
    assert(one.drop_last() =~= Seq::<FieldView>::empty());
    assert(total_field_size(one) == f.size) by {
        assert(total_field_size(one.drop_last()) == 0);
        assert(one.last() == f);
    }
    lemma_total_field_size_concat(front, back);
    lemma_total_field_size_concat(front, one);
    lemma_total_field_size_concat(front + one, back);
    lemma_byte_packed_size(fields);
    lemma_byte_packed_size(fields.insert(i, f));
}

/// Under byte packing a field removed anywhere takes exactly its own size
/// from the structure.
pub proof fn lemma_byte_packed_remove(fields: Seq<FieldView>, i: int)
    requires
        0 <= i < fields.len(),
    ensures
        struct_size(fields.remove(i), 1) + fields[i].size == struct_size(fields, 1),
{
    let rest = fields.remove(i);
    assert(rest.insert(i, fields[i]) =~= fields);
    lemma_byte_packed_insert(rest, i, fields[i]);
}

/// The capped alignment of every one of `fields` divides `d`. Where all
/// alignments are powers of two, the largest of them is such a `d`.
pub open spec fn alignments_divide(fields: Seq<FieldView>, cap: nat, d: nat) -> bool {
    forall|k: int|
        0 <= k < fields.len() ==> d % effective_align(#[trigger] fields[k], cap) == 0
}

/// The alignment of a structure divides whatever the capped alignments of
/// all its fields divide, and so is no larger.
pub proof fn lemma_struct_align_divides(decl: DeclView, cap: nat, d: nat)
    requires
        decl.wf(),
        cap >= 1,
        d >= 1,
        alignments_divide(decl.fields, cap, d),
    ensures
        d % struct_align(decl.fields, cap) == 0,
        struct_align(decl.fields, cap) <= d,
    decreases decl.fields.len(),
{
    let fields = decl.fields;
    if fields.len() > 0 {
        let front = DeclView { name: decl.name, fields: fields.drop_last() };
        assert(front.wf()) by {
            assert forall|k: int| 0 <= k < front.fields.len() implies (
            #[trigger] front.fields[k]).wf() by {
                assert(fields[k].wf());
            }
        }
        assert(alignments_divide(front.fields, cap, d)) by {
            assert forall|k: int| 0 <= k < front.fields.len() implies d % effective_align(
                #[trigger] front.fields[k],
                cap,
            ) == 0 by {
                assert(front.fields[k] == fields[k]);
            }
        }
        lemma_struct_align_divides(front, cap, d);
        assert(d % effective_align(fields[fields.len() - 1], cap) == 0);
    }
    let a = struct_align(fields, cap);
    lemma_struct_align_positive(fields, cap);
    assert(a <= d) by (nonlinear_arith)
        requires
            a >= 1,
            d >= 1,
            d % a == 0,
    ;
}

/// With a field of at least `d` bytes inserted at position `i`, everything
/// from that position on ends at least `d` bytes later.
proof fn lemma_insert_shifts_end(decl: DeclView, cap: nat, i: int, f: FieldView, d: nat, k: int)
    requires
        decl.wf(),
        f.wf(),
        cap >= 1,
        0 <= i <= k <= decl.fields.len(),
        d >= 1,
        alignments_divide(decl.fields, cap, d),
        f.size >= d,
    ensures
        end_offset(decl.fields.insert(i, f).take(k + 1), cap) >= end_offset(
            decl.fields.take(k),
            cap,
        ) + d,
    decreases k - i,
{
    let fields = decl.fields;
    let wider = fields.insert(i, f);
    let upto = wider.take(k + 1);
    if k == i {
        assert(upto.drop_last() =~= fields.take(i));
        assert(upto.last() == f);
        lemma_round_up_ge(end_offset(fields.take(i), cap), effective_align(f, cap));
    } else {
        lemma_insert_shifts_end(decl, cap, i, f, d, k - 1);
        let g = fields[k - 1];
        let a = effective_align(g, cap);
        assert(g.wf());
        assert(upto.drop_last() =~= wider.take(k));
        assert(upto.last() == g);
        assert(fields.take(k).drop_last() =~= fields.take(k - 1));
        assert(fields.take(k).last() == g);
        let before = end_offset(fields.take(k - 1), cap);
        let after = end_offset(wider.take(k), cap);
        lemma_round_up_shift(before, d, a);
        lemma_round_up_monotonic(before + d, after, a);
    }
}

/// A well-formed structure that gains a field anywhere becomes strictly
/// larger, provided the field is at least `d` bytes and every capped
/// alignment of the structure divides `d`. Read backwards, a structure that
/// loses such a field becomes strictly smaller.
pub proof fn lemma_inserted_field_grows(decl: DeclView, cap: nat, i: int, f: FieldView, d: nat)
    requires
        decl.wf(),
        f.wf(),
        cap >= 1,
        0 <= i <= decl.fields.len(),
        d >= 1,
        alignments_divide(decl.fields, cap, d),
        f.size >= d,
    ensures
        struct_size(decl.fields.insert(i, f), cap) > struct_size(decl.fields, cap),
{
    let fields = decl.fields;
    let wider = fields.insert(i, f);
    let n = fields.len() as int;
    lemma_insert_shifts_end(decl, cap, i, f, d, n);
    assert(wider.take(n + 1) =~= wider);
    assert(fields.take(n) =~= fields);
    lemma_struct_align_divides(decl, cap, d);
    lemma_round_up_bounds(end_offset(fields, cap), struct_align(fields, cap));
    lemma_round_up_ge(end_offset(wider, cap), struct_align(wider, cap));
}

/// Under two-byte alignment every capped alignment is one or two, so a field
/// of two bytes or more added anywhere makes a well-formed structure larger.
pub proof fn lemma_word_aligned_insert_grows(decl: DeclView, i: int, f: FieldView)
    requires
        decl.wf(),
        f.wf(),
        0 <= i <= decl.fields.len(),
        f.size >= 2,
    ensures
        struct_size(decl.fields.insert(i, f), 2) > struct_size(decl.fields, 2),
{
    assert(alignments_divide(decl.fields, 2, 2)) by {
        assert forall|k: int| 0 <= k < decl.fields.len() implies 2nat % effective_align(
            #[trigger] decl.fields[k],
            2,
        ) == 0 by {
            assert(decl.fields[k].wf());
            let a = effective_align(decl.fields[k], 2);
            assert(a == 1 || a == 2);
        }
    }
    lemma_inserted_field_grows(decl, 2, i, f, 2);
}

} // verus!
