//! The values extracted for one selector.

use vstd::prelude::*;

verus! {

/// The values that one selector produced, in the order in which they were
/// found.
#[derive(Debug)]
pub struct ScrapedData {
    pub selector_name: String,
    pub values: Vec<String>,
}

/// What a `ScrapedData` holds, as sequences of characters.
pub struct RecordView {
    pub name: Seq<char>,
    pub values: Seq<Seq<char>>,
}

impl DeepView for ScrapedData {
    type V = RecordView;

    open spec fn deep_view(&self) -> RecordView {
        RecordView { name: self.selector_name@, values: self.values.deep_view() }
    }
}

/// A copy of `values`, string by string.
pub fn clone_strings(values: &Vec<String>) -> (out: Vec<String>)
    ensures
        out.deep_view() == values.deep_view(),
{
    let mut out: Vec<String> = Vec::new();
    let mut i: usize = 0;
    while i < values.len()
        invariant
            i <= values.len(),
            out.len() == i,
            forall|j: int| 0 <= j < i ==> out[j]@ == values[j]@,
        decreases values.len() - i,
    {
        out.push(values[i].clone());
        i += 1;
    }
    assert(out.deep_view() =~= values.deep_view());
    out
}

impl ScrapedData {
    /// A copy of this record.
    pub fn duplicate(&self) -> (out: ScrapedData)
        ensures
            out.deep_view() == self.deep_view(),
    {
        ScrapedData { selector_name: self.selector_name.clone(), values: clone_strings(&self.values) }
    }
}

} // verus!
