//! Which changes a status report shows, and in what order.
use vstd::prelude::*;
use crate::sandbox::changes::change_entries::{
    ChangeEntry, ChangeEntries, ChangeOrder, EntryOperation, actually_modified, sorted_changes,
    copy_entry, entry_view, entry_views, Destination, ReverseSource,
};
use crate::sort::{lemma_stable_sort_exists, lemma_stable_sort_multiset};
use vstd::multiset::Multiset;

verus! {

/// Whether a change is worth reporting: a write that really changes something, or any
/// other change.
pub open spec fn reportable(c: ChangeEntry) -> bool {
    match c.operation {
        EntryOperation::Write(_) => actually_modified(c),
        _ => true,
    }
}

/// The kinds of changes a report shows, one section each.
pub enum Section {
    Errors,
    Removals,
    Renames,
    Writes,
}

/// Whether a change belongs to a section of the report.
pub open spec fn in_section(c: ChangeEntry, s: Section) -> bool {
    match s {
        Section::Errors => c.operation is Error,
        Section::Removals => c.operation == EntryOperation::Remove,
        Section::Renames => c.operation == EntryOperation::Rename,
        Section::Writes => c.operation is Write && actually_modified(c),
    }
}

/// The changes of `s` that belong to a section, in order.
pub open spec fn section_of(s: Seq<ChangeEntry>, sec: Section) -> Seq<ChangeEntry>
    decreases s.len(),
{
    if s.len() == 0 {
        seq![]
    } else if in_section(s.last(), sec) {
        section_of(s.drop_last(), sec).push(s.last())
    } else {
        section_of(s.drop_last(), sec)
    }
}

/// The changes a report shows, in order: errors by destination, removals and renames by
/// source from last to first, then real writes by destination. Each section's order comes
/// from sorting the list as the previous section left it. `None` where no change is
/// worth reporting.
pub open spec fn report(s: Seq<ChangeEntry>) -> Option<Seq<ChangeEntry>> {
    if exists|i: int| 0 <= i < s.len() && reportable(#[trigger] s[i]) {
        let by_dest = sorted_changes(s, ChangeOrder::Destination);
        let by_source = sorted_changes(by_dest, ChangeOrder::ReverseSource);
        let by_source_again = sorted_changes(by_source, ChangeOrder::ReverseSource);
        let by_dest_again = sorted_changes(by_source_again, ChangeOrder::Destination);
        Some(
            section_of(by_dest, Section::Errors) + section_of(by_source, Section::Removals)
                + section_of(by_source_again, Section::Renames) + section_of(
                by_dest_again,
                Section::Writes,
            ),
        )
    } else {
        None
    }
}

fn section_member(c: &ChangeEntry, sec: &Section) -> (r: bool)
    ensures
        r == in_section(*c, *sec),
{
    match sec {
        Section::Errors => match c.operation {
            EntryOperation::Error(_) => true,
            _ => false,
        },
        Section::Removals => c.operation == EntryOperation::Remove,
        Section::Renames => c.operation == EntryOperation::Rename,
        Section::Writes => match c.operation {
            EntryOperation::Write(_) => c.is_actually_modified(),
            _ => false,
        },
    }
}

/// Appends the changes of `s` that belong to a section.
fn push_section(out: &mut Vec<ChangeEntry>, s: &Vec<ChangeEntry>, sec: Section)
    ensures
        entry_views(final(out)@) == entry_views(old(out)@) + entry_views(section_of(s@, sec)),
{
    let ghost start = entry_views(out@);
    let mut i: usize = 0;
    while i < s.len()
        invariant
            i <= s.len(),
            entry_views(out@) == start + entry_views(section_of(s@.take(i as int), sec)),
        decreases s.len() - i,
    {
        assert(s@.take(i + 1).drop_last() =~= s@.take(i as int));
        assert(s@.take(i + 1).last() == s@[i as int]);
        if section_member(&s[i], &sec) {
            let ghost before = out@;
            let c = copy_entry(&s[i]);
            out.push(c);
            assert(entry_views(out@) =~= entry_views(before).push(entry_view(c)));
            assert(entry_views(section_of(s@.take(i + 1), sec)) =~= entry_views(
                section_of(s@.take(i as int), sec),
            ).push(entry_view(s@[i as int])));
        }
        i = i + 1;
    }
    assert(s@.take(s.len() as int) =~= s@);
}

/// The changes a status report shows, in order, or `None` where no change is worth
/// reporting.
pub fn report_changes(changes: ChangeEntries) -> (r: Option<Vec<ChangeEntry>>)
    ensures
        match (r, report(changes.0@)) {
            (Some(v), Some(s)) => entry_views(v@) == entry_views(s),
            (None, None) => true,
            _ => false,
        },
{
    let mut any = false;
    let mut i: usize = 0;
    while i < changes.0.len()
        invariant
            i <= changes.0.len(),
            any == exists|j: int| 0 <= j < i && reportable(#[trigger] changes.0@[j]),
        decreases changes.0.len() - i,
    {
        let worth = match changes.0[i].operation {
            EntryOperation::Write(_) => changes.0[i].is_actually_modified(),
            _ => true,
        };
        if worth {
            any = true;
        }
        i = i + 1;
    }
    if !any {
        return None;
    }
    let mut list = changes;
    let mut out: Vec<ChangeEntry> = Vec::new();
    list.sort_by(ChangeOrder::Destination);
    push_section(&mut out, &list.0, Section::Errors);
    list.sort_by(ChangeOrder::ReverseSource);
    push_section(&mut out, &list.0, Section::Removals);
    list.sort_by(ChangeOrder::ReverseSource);
    push_section(&mut out, &list.0, Section::Renames);
    list.sort_by(ChangeOrder::Destination);
    push_section(&mut out, &list.0, Section::Writes);
    Some(out)
}

/// A section holds each change of `t` that belongs to it as often as `t` does, and
/// nothing else.
proof fn lemma_section_count(t: Seq<ChangeEntry>, sec: Section, x: ChangeEntry)
    ensures
        section_of(t, sec).to_multiset().count(x) == if in_section(x, sec) {
            t.to_multiset().count(x)
        } else {
            0
        },
    decreases t.len(),
{
    broadcast use vstd::seq_lib::group_to_multiset_ensures;
    broadcast use vstd::multiset::group_multiset_axioms;

    if t.len() == 0 {
        assert(t.to_multiset() =~= Multiset::<ChangeEntry>::empty());
        assert(section_of(t, sec).to_multiset() =~= Multiset::<ChangeEntry>::empty());
    } else {
        lemma_section_count(t.drop_last(), sec, x);
        assert(t =~= t.drop_last().push(t.last()));
    }
}

/// Sorting changes in either order keeps each change as often as it was.
proof fn lemma_sorted_changes_count(t: Seq<ChangeEntry>, o: ChangeOrder, x: ChangeEntry)
    requires
        o == ChangeOrder::Destination || o == ChangeOrder::ReverseSource,
    ensures
        sorted_changes(t, o).to_multiset().count(x) == t.to_multiset().count(x),
{
    let r = sorted_changes(t, o);
    if o == ChangeOrder::Destination {
        lemma_stable_sort_exists(&Destination, t);
        lemma_stable_sort_multiset(&Destination, |c: ChangeEntry| c, t, r);
    } else {
        lemma_stable_sort_exists(&ReverseSource, t);
        lemma_stable_sort_multiset(&ReverseSource, |c: ChangeEntry| c, t, r);
    }
    assert(r.map_values(|c: ChangeEntry| c) =~= r);
    assert(t.map_values(|c: ChangeEntry| c) =~= t);
}

/// A status report shows every change worth showing (every change that is not a write,
/// and every write that really changes something) exactly as often as the list holds it,
/// and nothing else; and there is a report exactly when some change is worth showing.
pub proof fn lemma_report_shows_each_change(s: Seq<ChangeEntry>, x: ChangeEntry)
    ensures
        report(s) is Some <==> exists|i: int|
            0 <= i < s.len() && ((#[trigger] s[i]).operation is Write ==> actually_modified(s[i])),
        report(s) matches Some(r) ==> r.to_multiset().count(x) == if x.operation is Write ==> actually_modified(x) {
            s.to_multiset().count(x)
        } else {
            0
        },
{
    broadcast use vstd::seq_lib::lemma_multiset_commutative;
    broadcast use vstd::multiset::group_multiset_axioms;

    assert((exists|i: int| 0 <= i < s.len() && reportable(#[trigger] s[i])) <==> exists|i: int|
        0 <= i < s.len() && ((#[trigger] s[i]).operation is Write ==> actually_modified(s[i]))) by {
        if exists|i: int| 0 <= i < s.len() && reportable(#[trigger] s[i]) {
            let i = choose|i: int| 0 <= i < s.len() && reportable(#[trigger] s[i]);
            assert(s[i].operation is Write ==> actually_modified(s[i]));
        }
        if exists|i: int| 0 <= i < s.len() && ((#[trigger] s[i]).operation is Write ==> actually_modified(s[i])) {
            let i = choose|i: int| 0 <= i < s.len() && ((#[trigger] s[i]).operation is Write ==> actually_modified(s[i]));
            assert(reportable(s[i]));
        }
    }
    if report(s) is Some {
        let d1 = sorted_changes(s, ChangeOrder::Destination);
        let d2 = sorted_changes(d1, ChangeOrder::ReverseSource);
        let d3 = sorted_changes(d2, ChangeOrder::ReverseSource);
        let d4 = sorted_changes(d3, ChangeOrder::Destination);
        lemma_sorted_changes_count(s, ChangeOrder::Destination, x);
        lemma_sorted_changes_count(d1, ChangeOrder::ReverseSource, x);
        lemma_sorted_changes_count(d2, ChangeOrder::ReverseSource, x);
        lemma_sorted_changes_count(d3, ChangeOrder::Destination, x);
        lemma_section_count(d1, Section::Errors, x);
        lemma_section_count(d2, Section::Removals, x);
        lemma_section_count(d3, Section::Renames, x);
        lemma_section_count(d4, Section::Writes, x);
        let a = section_of(d1, Section::Errors);
        let b = section_of(d2, Section::Removals);
        let c = section_of(d3, Section::Renames);
        let w = section_of(d4, Section::Writes);
        assert(report(s) == Some(a + b + c + w));
        assert((a + b + c + w).to_multiset().count(x) == a.to_multiset().count(x) + b.to_multiset().count(x)
            + c.to_multiset().count(x) + w.to_multiset().count(x));
    }
}

} // verus!
