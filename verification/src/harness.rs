//! The verification harness: a table that pairs each declaration with the
//! size the foreign platform mandates, and the verdict on that table.
//!
//! The harness only detects. A declaration passes when its size under the
//! packing rules is exactly the expected size; every declaration that does
//! not is reported by name, and nothing is repaired or tolerated.

use vstd::prelude::*;
use crate::layout::{DeclView, PackingRules, StructDecl, struct_size};

verus! {

/// A declaration together with the size it must have.
pub struct EntryView {
    pub decl: DeclView,
    pub expected: nat,
}

/// One declaration whose size disagrees with the expected size.
pub struct MismatchView {
    /// The position of the entry in the table.
    pub index: nat,
    /// The name of the declaration.
    pub name: Seq<char>,
    /// The size the platform mandates.
    pub expected: nat,
    /// The size the declaration has, where a `usize` can hold it.
    pub declared: Option<nat>,
}

/// The outcome of checking a table.
pub enum VerdictView {
    /// Every declaration has its expected size.
    Verified,
    /// The declarations that do not, in table order.
    Rejected(Seq<MismatchView>),
}

/// An entry passes when the declaration's size is exactly the expected size.
/// Nothing tells a wrong declaration from a wrong expectation.
pub open spec fn entry_matches(e: EntryView, cap: nat) -> bool {
    struct_size(e.decl.fields, cap) == e.expected
}

/// A size as a report can carry it.
pub open spec fn reportable(size: nat) -> Option<nat> {
    if size <= usize::MAX {
        Some(size)
    } else {
        None
    }
}

/// The report on entry `e`, which stands at position `index`.
pub open spec fn mismatch_of(e: EntryView, index: nat, cap: nat) -> MismatchView {
    MismatchView {
        index,
        name: e.decl.name,
        expected: e.expected,
        declared: reportable(struct_size(e.decl.fields, cap)),
    }
}

/// The reports on all entries of `table` that do not pass, in table order.
pub open spec fn mismatches(table: Seq<EntryView>, cap: nat) -> Seq<MismatchView>
    decreases table.len(),
{
    if table.len() == 0 {
        Seq::empty()
    } else {
        let rest = mismatches(table.drop_last(), cap);
        let last = (table.len() - 1) as nat;
        if entry_matches(table.last(), cap) {
            rest
        } else {
            rest.push(mismatch_of(table.last(), last, cap))
        }
    }
}

/// The verdict on `table`: verified when nothing is reported, and otherwise
/// rejected with every report.
pub open spec fn verdict_of(table: Seq<EntryView>, cap: nat) -> VerdictView {
    let found = mismatches(table, cap);
    if found.len() == 0 {
        VerdictView::Verified
    } else {
        VerdictView::Rejected(found)
    }
}

/// No two entries of `table` carry the same name.
pub open spec fn names_distinct(table: Seq<EntryView>) -> bool {
    forall|i: int, j: int|
        0 <= i < j < table.len() ==> (#[trigger] table[i]).decl.name != (
        #[trigger] table[j]).decl.name
}

/// A declaration paired with the size the platform mandates for it.
#[derive(Debug)]
pub struct Entry {
    decl: StructDecl,
    expected: usize,
}

impl View for Entry {
    type V = EntryView;

    closed spec fn view(&self) -> EntryView {
        EntryView { decl: self.decl@, expected: self.expected as nat }
    }
}

impl Entry {
    /// Pairs `decl` with the size `expected`.
    pub fn new(decl: StructDecl, expected: usize) -> (r: Entry)
        ensures
            r@ == (EntryView { decl: decl@, expected: expected as nat }),
    {
        Entry { decl, expected }
    }

    /// The declaration.
    pub fn decl(&self) -> (r: &StructDecl)
        ensures
            r@ == self@.decl,
    {
        &self.decl
    }

    /// The size the declaration must have.
    pub fn expected(&self) -> (r: usize)
        ensures
            r == self@.expected,
    {
        self.expected
    }

    /// Whether the declaration has its expected size under `rules`.
    pub fn matches(&self, rules: &PackingRules) -> (r: bool)
        ensures
            r == entry_matches(self@, rules@),
    {
        match self.decl.size(rules) {
            Some(size) => size == self.expected,
            None => false,
        }
    }
}

/// One declaration whose size disagrees with the expected size.
#[derive(Debug)]
pub struct Mismatch {
    /// The position of the entry in the table.
    pub index: usize,
    /// The name of the declaration.
    pub name: String,
    /// The size the platform mandates.
    pub expected: usize,
    /// The size the declaration has, or `None` where no `usize` holds it.
    pub declared: Option<usize>,
}

impl View for Mismatch {
    type V = MismatchView;

    open spec fn view(&self) -> MismatchView {
        MismatchView {
            index: self.index as nat,
            name: self.name@,
            expected: self.expected as nat,
            declared: match self.declared {
                Some(d) => Some(d as nat),
                None => None,
            },
        }
    }
}

/// The views of a list of reports, in order.
pub open spec fn mismatch_views(found: Seq<Mismatch>) -> Seq<MismatchView> {
    found.map_values(|m: Mismatch| m@)
}

/// The outcome of checking a table.
#[derive(Debug)]
pub enum Verdict {
    /// Every declaration has its expected size.
    Verified,
    /// The declarations that do not, in table order.
    Rejected(Vec<Mismatch>),
}

impl View for Verdict {
    type V = VerdictView;

    open spec fn view(&self) -> VerdictView {
        match self {
            Verdict::Verified => VerdictView::Verified,
            Verdict::Rejected(found) => VerdictView::Rejected(mismatch_views(found@)),
        }
    }
}

/// The line that names a mismatched declaration.
pub open spec fn label_of(name: Seq<char>) -> Seq<char> {
    "Size of "@ + name
}

/// One line for each report, in order.
pub open spec fn labels_of(found: Seq<MismatchView>) -> Seq<Seq<char>> {
    found.map_values(|m: MismatchView| label_of(m.name))
}

/// What a verdict has to say, line by line: nothing about a table that
/// passed, and one line for each mismatched declaration of a table that did
/// not.
pub open spec fn diagnostics_of(v: VerdictView) -> Seq<Seq<char>> {
    match v {
        VerdictView::Verified => Seq::empty(),
        VerdictView::Rejected(found) => labels_of(found),
    }
}

/// The contents of a list of lines, in order.
pub open spec fn line_views(lines: Seq<String>) -> Seq<Seq<char>> {
    lines.map_values(|l: String| l@)
}

impl Mismatch {
    /// The diagnostic line for this report. It names the declaration.
    pub fn label(&self) -> (r: String)
        ensures
            r@ == label_of(self@.name),
    {
        let mut line = String::from_str("Size of ");
        line.append(self.name.as_str());
        line
    }
}

impl Verdict {
    /// Whether every declaration had its expected size.
    pub fn is_verified(&self) -> (r: bool)
        ensures
            r == (self@ is Verified),
    {
        match self {
            Verdict::Verified => true,
            Verdict::Rejected(_) => false,
        }
    }

    /// How many declarations are reported.
    pub fn mismatch_count(&self) -> (r: usize)
        ensures
            r == diagnostics_of(self@).len(),
    {
        match self {
            Verdict::Verified => 0,
            Verdict::Rejected(found) => found.len(),
        }
    }

    /// One diagnostic line for each mismatched declaration, in table order;
    /// no line at all for a verified table.
    pub fn diagnostics(&self) -> (lines: Vec<String>)
        ensures
            line_views(lines@) == diagnostics_of(self@),
    {
        let mut lines: Vec<String> = Vec::new();
        match self {
            Verdict::Verified => {
                assert(line_views(lines@) =~= diagnostics_of(self@));
            },
            Verdict::Rejected(found) => {
                let n: usize = found.len();
                let ghost all = labels_of(mismatch_views(found@));
                let mut i: usize = 0;
                assert(line_views(lines@) =~= all.take(0));
                while i < n
                    invariant
                        i <= n,
                        n == found.len(),
                        all == labels_of(mismatch_views(found@)),
                        line_views(lines@) == all.take(i as int),
                    decreases n - i,
                {
                    let line = found[i].label();
                    let ghost before = line_views(lines@);
                    lines.push(line);
                    assert(line_views(lines@) =~= before.push(line@));
                    assert(all.take(i as int + 1) =~= all.take(i as int).push(all[i as int]));
                    i += 1;
                }
                assert(all.take(n as int) =~= all);
            },
        }
        lines
    }
}

/// The views of a list of entries, in order.
pub open spec fn entry_views(entries: Seq<Entry>) -> Seq<EntryView> {
    entries.map_values(|e: Entry| e@)
}

/// The table the harness checks: entries whose names are pairwise distinct,
/// so that a name in a report points at one declaration. A table does not
/// change once it is made.
#[derive(Debug)]
pub struct Table {
    entries: Vec<Entry>,
}

impl View for Table {
    type V = Seq<EntryView>;

    closed spec fn view(&self) -> Seq<EntryView> {
        entry_views(self.entries@)
    }
}

impl Table {
    #[verifier::type_invariant]
    spec fn inv(&self) -> bool {
        names_distinct(entry_views(self.entries@))
    }

    /// Makes a table of `entries`, in their order. There is no table in which
    /// two entries carry the same name.
    pub fn from_entries(entries: Vec<Entry>) -> (r: Option<Table>)
        ensures
            r is Some <==> names_distinct(entry_views(entries@)),
            r matches Some(t) ==> t@ == entry_views(entries@),
    {
        let n: usize = entries.len();
        let ghost views = entry_views(entries@);
        let mut j: usize = 0;
        while j < n
            invariant
                j <= n,
                n == entries.len(),
                views == entry_views(entries@),
                forall|a: int, b: int|
                    0 <= a < b < j ==> (#[trigger] views[a]).decl.name != (
                    #[trigger] views[b]).decl.name,
            decreases n - j,
        {
            let mut i: usize = 0;
            while i < j
                invariant
                    i <= j < n,
                    n == entries.len(),
                    views == entry_views(entries@),
                    forall|a: int|
                        0 <= a < i ==> (#[trigger] views[a]).decl.name != views[j as int].decl.name,
                decreases j - i,
            {
                if entries[i].decl.same_name(&entries[j].decl) {
                    assert(views[i as int].decl.name == views[j as int].decl.name);
                    return None;
                }
                i += 1;
            }
            j += 1;
        }
        Some(Table { entries })
    }

    /// How many entries the table has.
    pub fn len(&self) -> (r: usize)
        ensures
            r == self@.len(),
            names_distinct(self@),
    {
        proof {
            use_type_invariant(self);
        }
        self.entries.len()
    }

    /// The entry at position `i`, if there is one.
    pub fn entry(&self, i: usize) -> (r: Option<&Entry>)
        ensures
            r is Some <==> i < self@.len(),
            r matches Some(e) ==> e@ == self@[i as int],
    {
        if i < self.entries.len() {
            Some(&self.entries[i])
        } else {
            None
        }
    }

    /// The expected size of the declaration called `name`, if the table has
    /// an entry for it.
    pub fn expected_size(&self, name: &str) -> (r: Option<usize>)
        ensures
            r is Some <==> exists|i: int|
                0 <= i < self@.len() && (#[trigger] self@[i]).decl.name == name@,
            forall|i: int|
                0 <= i < self@.len() && (#[trigger] self@[i]).decl.name == name@ ==> r == Some(
                    self@[i].expected as usize,
                ),
    {
        proof {
            use_type_invariant(self);
        }
        let key = String::from_str(name);
        let n: usize = self.entries.len();
        let mut i: usize = 0;
        while i < n
            invariant
                i <= n,
                n == self.entries.len(),
                key@ == name@,
                names_distinct(self@),
                forall|k: int| 0 <= k < i ==> (#[trigger] self@[k]).decl.name != name@,
            decreases n - i,
        {
            if self.entries[i].decl.is_named(&key) {
                assert(self@[i as int].decl.name == name@);
                return Some(self.entries[i].expected);
            }
            i += 1;
        }
        None
    }

    /// Checks every entry of the table under `rules` and reports each
    /// declaration whose size is not its expected size.
    pub fn verify(&self, rules: &PackingRules) -> (v: Verdict)
        ensures
            v@ == verdict_of(self@, rules@),
            v is Verified <==> forall|i: int|
                0 <= i < self@.len() ==> entry_matches(#[trigger] self@[i], rules@),
    {
        let n: usize = self.entries.len();
        let ghost table = self@;
        let mut found: Vec<Mismatch> = Vec::new();
        let mut i: usize = 0;
        assert(table.take(0) =~= Seq::<EntryView>::empty());
        while i < n
            invariant
                i <= n,
                n == self.entries.len(),
                table == self@,
                mismatch_views(found@) == mismatches(table.take(i as int), rules@),
                found@.len() == 0 <==> forall|k: int|
                    0 <= k < i ==> entry_matches(#[trigger] table[k], rules@),
            decreases n - i,
        {
            let e = &self.entries[i];
            let declared = e.decl.size(rules);
            let passes = match declared {
                Some(size) => size == e.expected,
                None => false,
            };
            proof {
                let upto = table.take(i as int + 1);
                assert(upto.drop_last() =~= table.take(i as int));
                assert(upto.last() == table[i as int]);
                assert(passes == entry_matches(table[i as int], rules@));
            }
            if !passes {
                let m = Mismatch {
                    index: i,
                    name: String::from_str(e.decl.name()),
                    expected: e.expected,
                    declared,
                };
                assert(m@ == mismatch_of(table[i as int], i as nat, rules@));
                let ghost before = mismatch_views(found@);
                found.push(m);
                assert(mismatch_views(found@) =~= before.push(m@));
            }
            i += 1;
        }
        assert(table.take(n as int) =~= table);
        if found.len() == 0 {
            Verdict::Verified
        } else {
            Verdict::Rejected(found)
        }
    }
}

} // verus!
