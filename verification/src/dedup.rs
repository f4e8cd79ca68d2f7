//! Dropping records that repeat an earlier one.

use vstd::prelude::*;
use crate::record::{RecordView, ScrapedData};

verus! {

/// The strings of `values`, one after the other, with nothing between them.
pub open spec fn concat_all(values: Seq<Seq<char>>) -> Seq<char>
    decreases values.len(),
{
    if values.len() == 0 {
        Seq::empty()
    } else {
        concat_all(values.drop_last()) + values.last()
    }
}

/// The key by which two records count as the same: the name followed by
/// every value, with no separator. Records whose names and values differ can
/// still share a key, where the boundaries fall differently.
pub open spec fn dedup_key(r: RecordView) -> Seq<char> {
    r.name + concat_all(r.values)
}

/// Whether one of `records` has the key `key`.
pub open spec fn key_seen(records: Seq<RecordView>, key: Seq<char>) -> bool {
    exists|i: int| 0 <= i < records.len() && dedup_key(#[trigger] records[i]) == key
}

/// `records` without each record whose key a retained earlier record has.
pub open spec fn deduplicated(records: Seq<RecordView>) -> Seq<RecordView>
    decreases records.len(),
{
    if records.len() == 0 {
        Seq::empty()
    } else {
        let kept = deduplicated(records.drop_last());
        if key_seen(kept, dedup_key(records.last())) {
            kept
        } else {
            kept.push(records.last())
        }
    }
}

/// Whether `a` can be had from `b` by leaving records out, the others
/// staying in their order.
pub open spec fn subsequence_of(a: Seq<RecordView>, b: Seq<RecordView>) -> bool
    decreases b.len(),
{
    if a.len() == 0 {
        true
    } else if b.len() == 0 {
        false
    } else {
        (a.last() == b.last() && subsequence_of(a.drop_last(), b.drop_last())) || subsequence_of(
            a,
            b.drop_last(),
        )
    }
}

/// Deduplication never adds a record and keeps the remaining records in
/// their order; no key is left twice, and every key of the input is left
/// once, on the first record that had it.
pub proof fn lemma_deduplicated(records: Seq<RecordView>)
    ensures
        deduplicated(records).len() <= records.len(),
        subsequence_of(deduplicated(records), records),
        forall|i: int, j: int|
            0 <= i < j < deduplicated(records).len() ==> dedup_key(
                #[trigger] deduplicated(records)[i],
            ) != dedup_key(#[trigger] deduplicated(records)[j]),
        forall|i: int|
            0 <= i < records.len() ==> key_seen(
                deduplicated(records),
                dedup_key(#[trigger] records[i]),
            ),
        forall|j: int|
            0 <= j < deduplicated(records).len() ==> first_with_key(
                records,
                #[trigger] deduplicated(records)[j],
            ),
    decreases records.len(),
{
    if records.len() > 0 {
        let init = records.drop_last();
        let last = records.last();
        let kept = deduplicated(init);
        let out = deduplicated(records);
        lemma_deduplicated(init);
        if key_seen(kept, dedup_key(last)) {
            assert(out == kept);
        } else {
            assert(out == kept.push(last));
            assert(out.drop_last() =~= kept);
            assert(out[kept.len() as int] == last);
        }
        assert forall|i: int| 0 <= i < records.len() implies key_seen(
            out,
            dedup_key(#[trigger] records[i]),
        ) by {
            if i < init.len() {
                assert(records[i] == init[i]);
                assert(key_seen(kept, dedup_key(init[i])));
                let k = choose|k: int|
                    0 <= k < kept.len() && dedup_key(#[trigger] kept[k]) == dedup_key(init[i]);
                assert(out[k] == kept[k]);
            } else if key_seen(kept, dedup_key(last)) {
            } else {
                assert(dedup_key(out[kept.len() as int]) == dedup_key(last));
            }
        }
        assert forall|j: int| 0 <= j < out.len() implies first_with_key(
            records,
            #[trigger] out[j],
        ) by {
            if j < kept.len() {
                assert(out[j] == kept[j]);
                assert(first_with_key(init, kept[j]));
                let i = choose|i: int|
                    0 <= i < init.len() && init[i] == kept[j] && forall|k: int|
                        0 <= k < i ==> dedup_key(#[trigger] init[k]) != dedup_key(kept[j]);
                assert(records[i] == kept[j]);
                assert forall|k: int| 0 <= k < i implies dedup_key(#[trigger] records[k])
                    != dedup_key(kept[j]) by {
                    assert(records[k] == init[k]);
                }
            } else {
                assert(out[j] == last);
                let i = records.len() - 1;
                assert(records[i] == last);
                assert forall|k: int| 0 <= k < i implies dedup_key(#[trigger] records[k])
                    != dedup_key(last) by {
                    assert(records[k] == init[k]);
                    assert(key_seen(kept, dedup_key(init[k])));
                }
            }
        }
    }
}

/// Whether `r` is the first of `records` that has its key.
pub open spec fn first_with_key(records: Seq<RecordView>, r: RecordView) -> bool {
    exists|i: int|
        0 <= i < records.len() && #[trigger] records[i] == r && forall|k: int|
            0 <= k < i ==> dedup_key(#[trigger] records[k]) != dedup_key(r)
}

/// The key of `item`.
pub fn key_of(item: &ScrapedData) -> (out: String)
    ensures
        out@ == dedup_key(item.deep_view()),
{
    let mut out = item.selector_name.clone();
    let mut i: usize = 0;
    assert(item.values.deep_view().take(0) =~= Seq::<Seq<char>>::empty());
    assert(out@ =~= item.selector_name@ + concat_all(Seq::empty()));
    while i < item.values.len()
        invariant
            i <= item.values.len(),
            out@ == item.selector_name@ + concat_all(item.values.deep_view().take(i as int)),
        decreases item.values.len() - i,
    {
        proof {
            let after = item.values.deep_view().take(i + 1);
            assert(after.drop_last() =~= item.values.deep_view().take(i as int));
            assert(after.last() == item.values[i as int]@);
            assert(item.selector_name@ + concat_all(after) =~= out@ + item.values[i as int]@);
        }
        out.append(item.values[i].as_str());
        i += 1;
    }
    assert(item.values.deep_view().take(item.values.len() as int) =~= item.values.deep_view());
    out
}

/// Whether `keys` holds `key`.
fn holds_key(keys: &Vec<String>, key: &String) -> (out: bool)
    ensures
        out == exists|i: int| 0 <= i < keys.len() && #[trigger] keys[i]@ == key@,
{
    let mut i: usize = 0;
    while i < keys.len()
        invariant
            i <= keys.len(),
            forall|j: int| 0 <= j < i ==> (#[trigger] keys[j])@ != key@,
        decreases keys.len() - i,
    {
        if keys[i] == *key {
            return true;
        }
        i += 1;
    }
    false
}

/// Drops each record whose key a retained earlier record has, keeping the
/// others in their order, and counts the records dropped.
pub fn deduplicate_data(data: Vec<ScrapedData>) -> (out: (Vec<ScrapedData>, usize))
    ensures
        out.0.deep_view() == deduplicated(data.deep_view()),
        out.0.len() <= data.len(),
        out.1 == data.len() - out.0.len(),
{
    let mut result: Vec<ScrapedData> = Vec::new();
    let mut seen: Vec<String> = Vec::new();
    let mut i: usize = 0;
    assert(data.deep_view().take(0) =~= Seq::<RecordView>::empty());
    assert(result.deep_view() =~= Seq::<RecordView>::empty());
    while i < data.len()
        invariant
            i <= data.len(),
            result.len() <= i,
            seen.len() == result.len(),
            forall|j: int|
                0 <= j < seen.len() ==> (#[trigger] seen[j])@ == dedup_key(
                    result.deep_view()[j],
                ),
            result.deep_view() == deduplicated(data.deep_view().take(i as int)),
        decreases data.len() - i,
    {
        let ghost kept = result.deep_view();
        let ghost old_seen = seen@;
        proof {
            let after = data.deep_view().take(i + 1);
            assert(after.drop_last() =~= data.deep_view().take(i as int));
            assert(after.last() == data[i as int].deep_view());
        }
        let key = key_of(&data[i]);
        let found = holds_key(&seen, &key);
        proof {
            if found {
                let j = choose|j: int| 0 <= j < seen.len() && #[trigger] seen[j]@ == key@;
                assert(dedup_key(kept[j]) == key@);
            }
            if key_seen(kept, key@) {
                let j = choose|j: int|
                    0 <= j < kept.len() && dedup_key(#[trigger] kept[j]) == key@;
                assert(seen[j]@ == key@);
            }
        }
        if !found {
            let copy = data[i].duplicate();
            seen.push(key);
            result.push(copy);
            proof {
                assert(result.deep_view() =~= kept.push(copy.deep_view()));
                assert forall|j: int| 0 <= j < seen.len() implies (#[trigger] seen[j])@
                    == dedup_key(result.deep_view()[j]) by {
                    if j < old_seen.len() {
                        assert(seen[j] == old_seen[j]);
                        assert(result.deep_view()[j] == kept[j]);
                    }
                }
            }
        }
        i += 1;
    }
    assert(data.deep_view().take(data.len() as int) =~= data.deep_view());
    let removed = data.len() - result.len();
    (result, removed)
}

} // verus!
