//! What the verdict says about a table: it reports exactly the entries that
//! do not pass, each once and under its own name, and a fault in one entry
//! never touches the report on another.

use vstd::prelude::*;
use crate::layout::{DeclView, FieldView, struct_align, struct_size};
use crate::layout_lemmas::{
    alignments_divide, lemma_appended_field_grows, lemma_inserted_field_grows,
};
use crate::harness::{
    EntryView, VerdictView, entry_matches, mismatch_of, mismatches, verdict_of,
};

verus! {

/// Every entry of `table` but the one at position `i` passes.
pub open spec fn all_match_but(table: Seq<EntryView>, cap: nat, i: int) -> bool {
    forall|j: int| 0 <= j < table.len() && j != i ==> entry_matches(#[trigger] table[j], cap)
}

/// Every entry of `table` passes.
pub open spec fn all_match(table: Seq<EntryView>, cap: nat) -> bool {
    forall|j: int| 0 <= j < table.len() ==> entry_matches(#[trigger] table[j], cap)
}

/// Every report is about an entry of the table that does not pass, and says
/// of it what `mismatch_of` says.
pub proof fn lemma_reports_are_faults(table: Seq<EntryView>, cap: nat, k: int)
    requires
        0 <= k < mismatches(table, cap).len(),
    ensures
        mismatches(table, cap)[k].index < table.len(),
        !entry_matches(table[mismatches(table, cap)[k].index as int], cap),
        mismatches(table, cap)[k] == mismatch_of(
            table[mismatches(table, cap)[k].index as int],
            mismatches(table, cap)[k].index,
            cap,
        ),
        mismatches(table, cap)[k].name == table[mismatches(table, cap)[k].index as int].decl.name,
    decreases table.len(),
{
    if table.len() > 0 {
        let front = table.drop_last();
        let rest = mismatches(front, cap);
        if k < rest.len() {
            lemma_reports_are_faults(front, cap, k);
        }
    }
}

/// Reports come in table order: a later report is about a later entry, so no
/// entry is reported twice.
pub proof fn lemma_reports_in_table_order(table: Seq<EntryView>, cap: nat, k1: int, k2: int)
    requires
        0 <= k1 < k2 < mismatches(table, cap).len(),
    ensures
        mismatches(table, cap)[k1].index < mismatches(table, cap)[k2].index,
    decreases table.len(),
{
    if table.len() > 0 {
        let front = table.drop_last();
        let rest = mismatches(front, cap);
        if k2 < rest.len() {
            lemma_reports_in_table_order(front, cap, k1, k2);
        } else {
            lemma_reports_are_faults(front, cap, k1);
        }
    }
}

/// Every entry that does not pass is reported.
pub proof fn lemma_faults_are_reported(table: Seq<EntryView>, cap: nat, i: int)
    requires
        0 <= i < table.len(),
        !entry_matches(table[i], cap),
    ensures
        exists|k: int|
            0 <= k < mismatches(table, cap).len() && (#[trigger] mismatches(table, cap)[k]).index
                == i,
    decreases table.len(),
{
    let front = table.drop_last();
    let rest = mismatches(front, cap);
    if i == table.len() - 1 {
        let k = rest.len() as int;
        assert(mismatches(table, cap)[k].index == i);
    } else {
        lemma_faults_are_reported(front, cap, i);
        let k = choose|k: int| 0 <= k < rest.len() && (#[trigger] rest[k]).index == i;
        assert(mismatches(table, cap)[k].index == i);
    }
}

/// A table is verified exactly when every one of its entries passes: the
/// whole table is checked, not a part of it.
pub proof fn lemma_verified_iff_all_match(table: Seq<EntryView>, cap: nat)
    ensures
        verdict_of(table, cap) is Verified <==> all_match(table, cap),
        mismatches(table, cap).len() == 0 <==> all_match(table, cap),
{
    if mismatches(table, cap).len() == 0 {
        assert forall|j: int| 0 <= j < table.len() implies entry_matches(
            #[trigger] table[j],
            cap,
        ) by {
            if !entry_matches(table[j], cap) {
                lemma_faults_are_reported(table, cap, j);
            }
        }
    } else {
        lemma_reports_are_faults(table, cap, 0);
    }
}

/// The verdict is a function of the table and the packing rules and of
/// nothing else: checking the same table under the same rules again gives the
/// same verdict.
pub proof fn lemma_verdict_repeatable(
    first: Seq<EntryView>,
    second: Seq<EntryView>,
    cap: nat,
)
    requires
        first =~= second,
    ensures
        verdict_of(first, cap) == verdict_of(second, cap),
{
}

/// A single fault gives a single report: where every entry but the one at
/// position `i` passes, the table is rejected with exactly one report, and
/// that report names entry `i`.
pub proof fn lemma_single_fault(table: Seq<EntryView>, cap: nat, i: int)
    requires
        0 <= i < table.len(),
        all_match_but(table, cap, i),
        !entry_matches(table[i], cap),
    ensures
        mismatches(table, cap) == seq![mismatch_of(table[i], i as nat, cap)],
        verdict_of(table, cap) == VerdictView::Rejected(
            seq![mismatch_of(table[i], i as nat, cap)],
        ),
        mismatches(table, cap)[0].name == table[i].decl.name,
    decreases table.len(),
{
    let front = table.drop_last();
    let one = seq![mismatch_of(table[i], i as nat, cap)];
    if i == table.len() - 1 {
        assert(all_match(front, cap)) by {
            assert forall|j: int| 0 <= j < front.len() implies entry_matches(
                #[trigger] front[j],
                cap,
            ) by {
                assert(front[j] == table[j]);
            }
        }
        lemma_verified_iff_all_match(front, cap);
        assert(mismatches(table, cap) =~= one);
    } else {
        assert(all_match_but(front, cap, i)) by {
            assert forall|j: int| 0 <= j < front.len() && j != i implies entry_matches(
                #[trigger] front[j],
                cap,
            ) by {
                assert(front[j] == table[j]);
            }
        }
        assert(front[i] == table[i]);
        lemma_single_fault(front, cap, i);
        assert(entry_matches(table[table.len() - 1], cap));
        assert(mismatches(table, cap) =~= one);
    }
}

/// The table `table` with the declaration of entry `i` replaced by `decl`.
pub open spec fn with_decl(table: Seq<EntryView>, i: int, decl: DeclView) -> Seq<EntryView> {
    table.update(i, EntryView { decl, expected: table[i].expected })
}

/// The table `table` with the expected size of entry `i` replaced by
/// `expected`.
pub open spec fn with_expected(table: Seq<EntryView>, i: int, expected: nat) -> Seq<EntryView> {
    table.update(i, EntryView { decl: table[i].decl, expected })
}

/// The declaration `decl` with its fields replaced by `fields`.
pub open spec fn with_fields(decl: DeclView, fields: Seq<FieldView>) -> DeclView {
    DeclView { name: decl.name, fields }
}

/// Changing one entry of a table leaves the check of every other entry as it
/// was.
pub proof fn lemma_other_entries_untouched(
    table: Seq<EntryView>,
    cap: nat,
    i: int,
    e: EntryView,
    j: int,
)
    requires
        0 <= i < table.len(),
        0 <= j < table.len(),
        j != i,
    ensures
        entry_matches(table.update(i, e)[j], cap) == entry_matches(table[j], cap),
{
}

/// In a table that passes, a declaration whose fields are changed so that its
/// size changes is reported, alone and under its own name.
pub proof fn lemma_changed_declaration_blamed(
    table: Seq<EntryView>,
    cap: nat,
    i: int,
    fields: Seq<FieldView>,
)
    requires
        0 <= i < table.len(),
        all_match(table, cap),
        struct_size(fields, cap) != struct_size(table[i].decl.fields, cap),
    ensures
        ({
            let changed = with_decl(table, i, with_fields(table[i].decl, fields));
            &&& all_match_but(changed, cap, i)
            &&& !entry_matches(changed[i], cap)
            &&& mismatches(changed, cap) == seq![mismatch_of(changed[i], i as nat, cap)]
            &&& mismatches(changed, cap)[0].name == table[i].decl.name
            &&& verdict_of(changed, cap) is Rejected
        }),
{
    let changed = with_decl(table, i, with_fields(table[i].decl, fields));
    assert(entry_matches(table[i], cap));
    assert forall|j: int| 0 <= j < changed.len() && j != i implies entry_matches(
        #[trigger] changed[j],
        cap,
    ) by {
        assert(changed[j] == table[j]);
    }
    lemma_single_fault(changed, cap, i);
}

/// In a table that passes, an expected size that is set to any other value
/// is reported in the same way: alone and under the declaration's name.
pub proof fn lemma_wrong_expected_blamed(table: Seq<EntryView>, cap: nat, i: int, wrong: nat)
    requires
        0 <= i < table.len(),
        all_match(table, cap),
        wrong != table[i].expected,
    ensures
        ({
            let changed = with_expected(table, i, wrong);
            &&& all_match_but(changed, cap, i)
            &&& !entry_matches(changed[i], cap)
            &&& mismatches(changed, cap) == seq![mismatch_of(changed[i], i as nat, cap)]
            &&& mismatches(changed, cap)[0].name == table[i].decl.name
            &&& mismatches(changed, cap)[0].expected == wrong
            &&& verdict_of(changed, cap) is Rejected
        }),
{
    let changed = with_expected(table, i, wrong);
    assert(entry_matches(table[i], cap));
    assert forall|j: int| 0 <= j < changed.len() && j != i implies entry_matches(
        #[trigger] changed[j],
        cap,
    ) by {
        assert(changed[j] == table[j]);
    }
    lemma_single_fault(changed, cap, i);
}

/// In a table that passes, a declaration that gains a last field at least as
/// large as the structure's alignment is reported, alone.
pub proof fn lemma_added_field_blamed(table: Seq<EntryView>, cap: nat, i: int, f: FieldView)
    requires
        0 <= i < table.len(),
        all_match(table, cap),
        f.size >= struct_align(table[i].decl.fields, cap),
    ensures
        ({
            let changed = with_decl(
                table,
                i,
                with_fields(table[i].decl, table[i].decl.fields.push(f)),
            );
            &&& all_match_but(changed, cap, i)
            &&& mismatches(changed, cap) == seq![mismatch_of(changed[i], i as nat, cap)]
            &&& mismatches(changed, cap)[0].name == table[i].decl.name
        }),
{
    lemma_appended_field_grows(table[i].decl.fields, cap, f);
    lemma_changed_declaration_blamed(table, cap, i, table[i].decl.fields.push(f));
}

/// In a table that passes, a declaration that loses its last field, where
/// that field is at least as large as the alignment of what remains, is
/// reported, alone.
pub proof fn lemma_removed_field_blamed(table: Seq<EntryView>, cap: nat, i: int)
    requires
        0 <= i < table.len(),
        all_match(table, cap),
        table[i].decl.fields.len() > 0,
        table[i].decl.fields.last().size >= struct_align(table[i].decl.fields.drop_last(), cap),
    ensures
        ({
            let changed = with_decl(
                table,
                i,
                with_fields(table[i].decl, table[i].decl.fields.drop_last()),
            );
            &&& all_match_but(changed, cap, i)
            &&& mismatches(changed, cap) == seq![mismatch_of(changed[i], i as nat, cap)]
            &&& mismatches(changed, cap)[0].name == table[i].decl.name
        }),
{
    let fields = table[i].decl.fields;
    let fewer = fields.drop_last();
    assert(fewer.push(fields.last()) =~= fields);
    lemma_appended_field_grows(fewer, cap, fields.last());
    lemma_changed_declaration_blamed(table, cap, i, fewer);
}

/// In a table that passes, a well-formed declaration that gains a field
/// anywhere is reported, alone, provided the field is at least `d` bytes and
/// every capped alignment of the declaration divides `d`.
pub proof fn lemma_inserted_field_blamed(
    table: Seq<EntryView>,
    cap: nat,
    i: int,
    at: int,
    f: FieldView,
    d: nat,
)
    requires
        0 <= i < table.len(),
        all_match(table, cap),
        table[i].decl.wf(),
        f.wf(),
        cap >= 1,
        0 <= at <= table[i].decl.fields.len(),
        d >= 1,
        alignments_divide(table[i].decl.fields, cap, d),
        f.size >= d,
    ensures
        ({
            let changed = with_decl(
                table,
                i,
                with_fields(table[i].decl, table[i].decl.fields.insert(at, f)),
            );
            &&& all_match_but(changed, cap, i)
            &&& mismatches(changed, cap) == seq![mismatch_of(changed[i], i as nat, cap)]
            &&& mismatches(changed, cap)[0].name == table[i].decl.name
        }),
{
    lemma_inserted_field_grows(table[i].decl, cap, at, f, d);
    lemma_changed_declaration_blamed(table, cap, i, table[i].decl.fields.insert(at, f));
}

/// In a table that passes, a well-formed declaration that loses a field
/// anywhere is reported, alone, provided the field is at least `d` bytes and
/// every capped alignment of what remains divides `d`.
pub proof fn lemma_dropped_field_blamed(
    table: Seq<EntryView>,
    cap: nat,
    i: int,
    at: int,
    d: nat,
)
    requires
        0 <= i < table.len(),
        all_match(table, cap),
        table[i].decl.wf(),
        cap >= 1,
        0 <= at < table[i].decl.fields.len(),
        d >= 1,
        alignments_divide(table[i].decl.fields.remove(at), cap, d),
        table[i].decl.fields[at].size >= d,
    ensures
        ({
            let changed = with_decl(
                table,
                i,
                with_fields(table[i].decl, table[i].decl.fields.remove(at)),
            );
            &&& all_match_but(changed, cap, i)
            &&& mismatches(changed, cap) == seq![mismatch_of(changed[i], i as nat, cap)]
            &&& mismatches(changed, cap)[0].name == table[i].decl.name
        }),
{
    let fields = table[i].decl.fields;
    let fewer = with_fields(table[i].decl, fields.remove(at));
    assert(fewer.wf()) by {
        assert forall|k: int| 0 <= k < fewer.fields.len() implies (
        #[trigger] fewer.fields[k]).wf() by {
            if k < at {
                assert(fields[k].wf());
            } else {
                assert(fields[k + 1].wf());
            }
        }
    }
    assert(fields[at].wf());
    assert(fewer.fields.insert(at, fields[at]) =~= fields);
    lemma_inserted_field_grows(fewer, cap, at, fields[at], d);
    lemma_changed_declaration_blamed(table, cap, i, fewer.fields);
}

} // verus!
