//! Foreign structure declarations and the byte layout their fields imply.
//!
//! A declaration is a name and an ordered list of fields. Each field has a
//! size and a natural alignment; the packing rules of the foreign platform cap
//! every alignment. Fields are placed in order, each at the next offset that
//! is a multiple of its capped alignment, and the structure as a whole is
//! padded to a multiple of the largest capped alignment among its fields.

use vstd::prelude::*;
use crate::align::{round_up, round_up_checked, lemma_round_up_ge};

verus! {

/// What a field contributes to a layout: its name, its size in bytes and its
/// natural alignment in bytes.
pub struct FieldView {
    pub name: Seq<char>,
    pub size: nat,
    pub align: nat,
}

impl FieldView {
    /// A field's alignment is a positive number of bytes.
    pub open spec fn wf(self) -> bool {
        self.align >= 1
    }
}

/// A named structure declaration as a mathematical value.
pub struct DeclView {
    pub name: Seq<char>,
    pub fields: Seq<FieldView>,
}

impl DeclView {
    /// Every field of the declaration is well formed.
    pub open spec fn wf(self) -> bool {
        forall|i: int| 0 <= i < self.fields.len() ==> (#[trigger] self.fields[i]).wf()
    }
}

/// The alignment a field is placed at under packing rules that cap every
/// alignment at `cap` bytes.
pub open spec fn effective_align(f: FieldView, cap: nat) -> nat {
    if f.align <= cap {
        f.align
    } else {
        cap
    }
}

/// The offset just past the last of `fields`, before any trailing padding.
pub open spec fn end_offset(fields: Seq<FieldView>, cap: nat) -> nat
    decreases fields.len(),
{
    if fields.len() == 0 {
        0
    } else {
        let last = fields.last();
        round_up(end_offset(fields.drop_last(), cap), effective_align(last, cap)) + last.size
    }
}

/// The offset at which field `i` starts.
pub open spec fn field_offset(fields: Seq<FieldView>, cap: nat, i: int) -> nat
    recommends
        0 <= i < fields.len(),
{
    round_up(end_offset(fields.take(i), cap), effective_align(fields[i], cap))
}

/// The alignment of the whole structure: the largest capped alignment among
/// its fields, and one byte for a structure without fields.
pub open spec fn struct_align(fields: Seq<FieldView>, cap: nat) -> nat
    decreases fields.len(),
{
    if fields.len() == 0 {
        1
    } else {
        let rest = struct_align(fields.drop_last(), cap);
        let a = effective_align(fields.last(), cap);
        if a > rest {
            a
        } else {
            rest
        }
    }
}

/// The size of the whole structure in bytes, trailing padding included.
pub open spec fn struct_size(fields: Seq<FieldView>, cap: nat) -> nat {
    round_up(end_offset(fields, cap), struct_align(fields, cap))
}

/// The sum of the sizes of `fields`, with no padding at all.
pub open spec fn total_field_size(fields: Seq<FieldView>) -> nat
    decreases fields.len(),
{
    if fields.len() == 0 {
        0
    } else {
        total_field_size(fields.drop_last()) + fields.last().size
    }
}

/// A field of a foreign structure.
#[derive(Debug)]
pub struct Field {
    name: String,
    size: usize,
    align: usize,
}

impl View for Field {
    type V = FieldView;

    closed spec fn view(&self) -> FieldView {
        FieldView { name: self.name@, size: self.size as nat, align: self.align as nat }
    }
}

impl Field {
    #[verifier::type_invariant]
    spec fn inv(&self) -> bool {
        self.align >= 1
    }

    /// A field called `name` of `size` bytes whose natural alignment is
    /// `align` bytes. There is no field with an alignment of zero.
    pub fn new(name: &str, size: usize, align: usize) -> (r: Option<Field>)
        ensures
            r is Some <==> align >= 1,
            r matches Some(f) ==> f@ == (FieldView {
                name: name@,
                size: size as nat,
                align: align as nat,
            }),
    {
        if align == 0 {
            None
        } else {
            Some(Field { name: String::from_str(name), size, align })
        }
    }

    /// The field's name.
    pub fn name(&self) -> (r: &str)
        ensures
            r@ == self@.name,
    {
        self.name.as_str()
    }

    /// The field's size in bytes.
    pub fn size(&self) -> (r: usize)
        ensures
            r == self@.size,
    {
        self.size
    }

    /// The field's natural alignment in bytes, which is never zero.
    pub fn align(&self) -> (r: usize)
        ensures
            r == self@.align,
            r >= 1,
    {
        proof {
            use_type_invariant(self);
        }
        self.align
    }
}

/// The packing rules of the foreign platform: no field is aligned to more
/// than `max_align` bytes. The view of the rules is that cap.
#[derive(Debug, Clone, Copy)]
pub struct PackingRules {
    max_align: usize,
}

impl View for PackingRules {
    type V = nat;

    closed spec fn view(&self) -> nat {
        self.max_align as nat
    }
}

impl PackingRules {
    #[verifier::type_invariant]
    spec fn inv(&self) -> bool {
        self.max_align >= 1
    }

    /// Rules that cap every alignment at `max_align` bytes. A cap of zero
    /// bytes is no rule.
    pub fn new(max_align: usize) -> (r: Option<PackingRules>)
        ensures
            r is Some <==> max_align >= 1,
            r matches Some(p) ==> p@ == max_align,
    {
        if max_align == 0 {
            None
        } else {
            Some(PackingRules { max_align })
        }
    }

    /// Rules under which fields follow each other without any padding.
    pub fn byte_packed() -> (r: PackingRules)
        ensures
            r@ == 1,
    {
        PackingRules { max_align: 1 }
    }

    /// Rules under which nothing is aligned to more than two bytes, as on
    /// 68000-family platforms.
    pub fn word_aligned() -> (r: PackingRules)
        ensures
            r@ == 2,
    {
        PackingRules { max_align: 2 }
    }

    /// The cap in bytes, which is never zero.
    pub fn max_align(&self) -> (r: usize)
        ensures
            r == self@,
            r >= 1,
    {
        proof {
            use_type_invariant(self);
        }
        self.max_align
    }
}

/// The views of a list of fields, in order.
pub open spec fn field_views(fields: Seq<Field>) -> Seq<FieldView> {
    fields.map_values(|f: Field| f@)
}

/// A named foreign structure: its fields in declaration order.
#[derive(Debug)]
pub struct StructDecl {
    name: String,
    fields: Vec<Field>,
}

impl View for StructDecl {
    type V = DeclView;

    closed spec fn view(&self) -> DeclView {
        DeclView { name: self.name@, fields: field_views(self.fields@) }
    }
}

/// Where a declaration's fields lie, and how large the whole is.
#[derive(Debug)]
pub struct Layout {
    /// The offset of each field, in declaration order.
    pub offsets: Vec<usize>,
    /// The size of the structure in bytes, trailing padding included.
    pub size: usize,
    /// The alignment of the structure in bytes.
    pub align: usize,
}

/// The layout of a prefix of the fields ends no later than the layout of all
/// of them.
pub proof fn lemma_end_offset_prefix(fields: Seq<FieldView>, cap: nat, i: int)
    requires
        0 <= i <= fields.len(),
    ensures
        end_offset(fields.take(i), cap) <= end_offset(fields, cap),
    decreases fields.len(),
{
    if i == fields.len() {
        assert(fields.take(i) =~= fields);
    } else {
        let front = fields.drop_last();
        lemma_end_offset_prefix(front, cap, i);
        assert(front.take(i) =~= fields.take(i));
    }
}

/// Placing one more field: the layout of the first `i + 1` fields in terms of
/// the layout of the first `i`.
pub proof fn lemma_layout_step(fields: Seq<FieldView>, cap: nat, i: int)
    requires
        0 <= i < fields.len(),
    ensures
        end_offset(fields.take(i + 1), cap) == field_offset(fields, cap, i) + fields[i].size,
        struct_align(fields.take(i + 1), cap) == (if effective_align(fields[i], cap)
            > struct_align(fields.take(i), cap) {
            effective_align(fields[i], cap)
        } else {
            struct_align(fields.take(i), cap)
        }),
{
    let next = fields.take(i + 1);
    assert(next.drop_last() =~= fields.take(i));
    assert(next.last() == fields[i]);
}

impl StructDecl {
    #[verifier::type_invariant]
    spec fn inv(&self) -> bool {
        forall|i: int| 0 <= i < self.fields@.len() ==> (#[trigger] self.fields@[i]).align >= 1
    }

    /// A declaration called `name` that has no fields yet.
    pub fn new(name: &str) -> (r: StructDecl)
        ensures
            r@.name == name@,
            r@.fields == Seq::<FieldView>::empty(),
            r@.wf(),
    {
        let r = StructDecl { name: String::from_str(name), fields: Vec::new() };
        assert(r@.fields =~= Seq::<FieldView>::empty());
        r
    }

    /// The same declaration with one more field after those already there.
    pub fn with_field(self, field: Field) -> (r: StructDecl)
        ensures
            r@.name == self@.name,
            r@.fields == self@.fields.push(field@),
            r@.wf(),
    {
        proof {
            use_type_invariant(&self);
            use_type_invariant(&field);
        }
        let mut fields = self.fields;
        fields.push(field);
        let r = StructDecl { name: self.name, fields };
        assert(r@.fields =~= self@.fields.push(field@));
        r
    }

    /// The declaration's name.
    pub fn name(&self) -> (r: &str)
        ensures
            r@ == self@.name,
    {
        self.name.as_str()
    }

    /// Whether the declaration is called `name`.
    pub fn is_named(&self, name: &String) -> (r: bool)
        ensures
            r == (self@.name == name@),
    {
        self.name == *name
    }

    /// Whether the two declarations carry the same name.
    pub fn same_name(&self, other: &StructDecl) -> (r: bool)
        ensures
            r == (self@.name == other@.name),
    {
        self.name == other.name
    }

    /// How many fields the declaration has.
    pub fn field_count(&self) -> (r: usize)
        ensures
            r == self@.fields.len(),
            self@.wf(),
    {
        proof {
            use_type_invariant(self);
        }
        self.fields.len()
    }

    /// The field at position `i`, if there is one.
    pub fn field(&self, i: usize) -> (r: Option<&Field>)
        ensures
            r is Some <==> i < self@.fields.len(),
            r matches Some(f) ==> f@ == self@.fields[i as int],
    {
        if i < self.fields.len() {
            Some(&self.fields[i])
        } else {
            None
        }
    }

    /// Lays the fields out under `rules`. The result is `None` exactly when
    /// the size of the structure does not fit in a `usize`.
    pub fn layout(&self, rules: &PackingRules) -> (r: Option<Layout>)
        ensures
            r is Some <==> struct_size(self@.fields, rules@) <= usize::MAX,
            r matches Some(l) ==> {
                &&& l.size == struct_size(self@.fields, rules@)
                &&& l.align == struct_align(self@.fields, rules@)
                &&& l.offsets@.len() == self@.fields.len()
                &&& forall|j: int|
                    0 <= j < self@.fields.len() ==> l.offsets@[j] == field_offset(
                        self@.fields,
                        rules@,
                        j,
                    )
            },
    {
        let cap: usize = rules.max_align();
        let n: usize = self.fields.len();
        let ghost fields = self@.fields;
        let mut offsets: Vec<usize> = Vec::new();
        let mut end: usize = 0;
        let mut align: usize = 1;
        let mut i: usize = 0;
        assert(fields.take(0) =~= Seq::<FieldView>::empty());
        while i < n
            invariant
                i <= n,
                n == self.fields.len(),
                fields == self@.fields,
                cap == rules@,
                end == end_offset(fields.take(i as int), cap as nat),
                align == struct_align(fields.take(i as int), cap as nat),
                offsets@.len() == i,
                forall|j: int| 0 <= j < i ==> offsets@[j] == field_offset(fields, cap as nat, j),
            decreases n - i,
        {
            let f = &self.fields[i];
            proof {
                lemma_layout_step(fields, cap as nat, i as int);
                lemma_end_offset_prefix(fields, cap as nat, i as int + 1);
                lemma_round_up_ge(
                    end_offset(fields, cap as nat),
                    struct_align(fields, cap as nat),
                );
            }
            let a: usize = if f.align <= cap {
                f.align
            } else {
                cap
            };
            let start: usize = match round_up_checked(end, a) {
                Some(start) => start,
                None => {
                    return None;
                },
            };
            let next: usize = match start.checked_add(f.size) {
                Some(next) => next,
                None => {
                    return None;
                },
            };
            offsets.push(start);
            end = next;
            if a > align {
                align = a;
            }
            i += 1;
        }
        assert(fields.take(n as int) =~= fields);
        match round_up_checked(end, align) {
            Some(size) => Some(Layout { offsets, size, align }),
            None => None,
        }
    }

    /// The size of the structure under `rules`, or `None` exactly when that
    /// size does not fit in a `usize`.
    pub fn size(&self, rules: &PackingRules) -> (r: Option<usize>)
        ensures
            r == (if struct_size(self@.fields, rules@) <= usize::MAX {
                Some(struct_size(self@.fields, rules@) as usize)
            } else {
                None::<usize>
            }),
    {
        match self.layout(rules) {
            Some(l) => Some(l.size),
            None => None,
        }
    }
}

} // verus!
