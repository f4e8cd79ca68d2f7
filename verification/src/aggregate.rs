//! Bringing the records of several pages together under their selectors.

use vstd::prelude::*;
use crate::record::{RecordView, ScrapedData, clone_strings};

verus! {

/// The place of the first of `records` whose name is `name`.
pub open spec fn name_index(records: Seq<RecordView>, name: Seq<char>) -> Option<int>
    decreases records.len(),
{
    if records.len() == 0 {
        None
    } else {
        match name_index(records.drop_last(), name) {
            Some(i) => Some(i),
            None => if records.last().name == name {
                Some(records.len() - 1)
            } else {
                None
            },
        }
    }
}

/// `name_index` finds the first record with the name, and only such a one.
pub proof fn lemma_name_index(records: Seq<RecordView>, name: Seq<char>)
    ensures
        match name_index(records, name) {
            Some(i) => 0 <= i < records.len() && records[i].name == name && forall|j: int|
                0 <= j < i ==> (#[trigger] records[j]).name != name,
            None => forall|j: int| 0 <= j < records.len() ==> (#[trigger] records[j]).name != name,
        },
    decreases records.len(),
{
    if records.len() > 0 {
        let init = records.drop_last();
        lemma_name_index(init, name);
        assert forall|j: int| 0 <= j < init.len() implies #[trigger] records[j] == init[j] by {}
    }
}

/// One record for each selector name in `records`, in the order in which the
/// names first appear; its values are those of all records of that name,
/// later records behind earlier ones.
pub open spec fn merged(records: Seq<RecordView>) -> Seq<RecordView>
    decreases records.len(),
{
    if records.len() == 0 {
        Seq::empty()
    } else {
        let rest = merged(records.drop_last());
        let last = records.last();
        match name_index(rest, last.name) {
            Some(i) => rest.update(
                i,
                RecordView { name: last.name, values: rest[i].values + last.values },
            ),
            None => rest.push(last),
        }
    }
}

/// Merging leaves each name once, adds no record, and keeps every name.
pub proof fn lemma_merged(records: Seq<RecordView>)
    ensures
        merged(records).len() <= records.len(),
        forall|i: int, j: int|
            0 <= i < j < merged(records).len() ==> (#[trigger] merged(records)[i]).name != (
            #[trigger] merged(records)[j]).name,
        forall|k: int|
            0 <= k < records.len() ==> name_index(merged(records), (#[trigger] records[k]).name)
                is Some,
    decreases records.len(),
{
    if records.len() > 0 {
        let init = records.drop_last();
        let rest = merged(init);
        let last = records.last();
        let out = merged(records);
        lemma_merged(init);
        lemma_name_index(rest, last.name);
        assert forall|k: int| 0 <= k < records.len() implies name_index(
            out,
            (#[trigger] records[k]).name,
        ) is Some by {
            let name = records[k].name;
            lemma_name_index(out, name);
            if k < init.len() {
                assert(records[k] == init[k]);
                lemma_name_index(rest, name);
                let i = name_index(rest, name)->0;
                assert(out[i].name == name);
            } else {
                match name_index(rest, last.name) {
                    Some(i) => {
                        assert(out[i].name == name);
                    },
                    None => {
                        assert(out[rest.len() as int].name == name);
                    },
                }
            }
        }
    }
}

/// Where the first record named `name` stands.
fn find_name(records: &Vec<ScrapedData>, name: &String) -> (out: Option<usize>)
    ensures
        match out {
            Some(i) => name_index(records.deep_view(), name@) == Some(i as int),
            None => name_index(records.deep_view(), name@) is None,
        },
{
    let mut i: usize = 0;
    while i < records.len()
        invariant
            i <= records.len(),
            forall|j: int| 0 <= j < i ==> (#[trigger] records.deep_view()[j]).name != name@,
        decreases records.len() - i,
    {
        if records[i].selector_name == *name {
            proof {
                lemma_name_index(records.deep_view(), name@);
                let k = name_index(records.deep_view(), name@)->0;
                assert(records.deep_view()[i as int].name == name@);
                if k < i {
                    assert(records.deep_view()[k].name != name@);
                }
            }
            return Some(i);
        }
        i += 1;
    }
    proof {
        lemma_name_index(records.deep_view(), name@);
    }
    None
}

/// Puts the strings of `more` behind those of `values`.
fn extend_strings(values: &mut Vec<String>, more: &Vec<String>)
    ensures
        final(values).deep_view() == old(values).deep_view() + more.deep_view(),
{
    let ghost before = values.deep_view();
    let mut copy = clone_strings(more);
    let ghost added = copy.deep_view();
    values.append(&mut copy);
    assert(values.deep_view() =~= before + added);
}

/// Brings records of the same selector name together: one record for each
/// name, in the order in which the names first appear, with the values of
/// later records behind those of earlier ones.
pub fn merge_by_name(records: &Vec<ScrapedData>) -> (out: Vec<ScrapedData>)
    ensures
        out.deep_view() == merged(records.deep_view()),
{
    let mut out: Vec<ScrapedData> = Vec::new();
    let mut k: usize = 0;
    assert(records.deep_view().take(0) =~= Seq::<RecordView>::empty());
    assert(out.deep_view() =~= Seq::<RecordView>::empty());
    while k < records.len()
        invariant
            k <= records.len(),
            out.deep_view() == merged(records.deep_view().take(k as int)),
        decreases records.len() - k,
    {
        let ghost rest = out.deep_view();
        proof {
            let after = records.deep_view().take(k + 1);
            assert(after.drop_last() =~= records.deep_view().take(k as int));
            assert(after.last() == records[k as int].deep_view());
            lemma_name_index(rest, records[k as int].selector_name@);
        }
        match find_name(&out, &records[k].selector_name) {
            Some(i) => {
                let mut entry = out.remove(i);
                extend_strings(&mut entry.values, &records[k].values);
                out.insert(i, entry);
                assert(out.deep_view() =~= rest.update(
                    i as int,
                    RecordView {
                        name: records[k as int].selector_name@,
                        values: rest[i as int].values + records[k as int].values.deep_view(),
                    },
                ));
            },
            None => {
                let copy = records[k].duplicate();
                out.push(copy);
                assert(out.deep_view() =~= rest.push(copy.deep_view()));
            },
        }
        k += 1;
    }
    assert(records.deep_view().take(records.len() as int) =~= records.deep_view());
    out
}

} // verus!
