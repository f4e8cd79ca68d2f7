//! Extraction of values from the elements that a selector matched.

use vstd::prelude::*;
use crate::record::{RecordView, ScrapedData};
use crate::selectors::SelectorSpec;
use crate::text::{clean_text, normalized, lemma_trimmed_twice};

verus! {

/// What extraction reads of one matched element: its descendant text nodes,
/// in document order, and the value of one attribute, if the element has it.
#[derive(Debug)]
pub struct MatchedElement {
    pub text_nodes: Vec<String>,
    pub link: Option<String>,
}

/// What a `MatchedElement` holds, as sequences of characters.
pub struct ElementView {
    pub text_nodes: Seq<Seq<char>>,
    pub link: Option<Seq<char>>,
}

impl DeepView for MatchedElement {
    type V = ElementView;

    open spec fn deep_view(&self) -> ElementView {
        ElementView { text_nodes: self.text_nodes.deep_view(), link: self.link.deep_view() }
    }
}

/// The elements that one selector matched, under the selector's name.
#[derive(Debug)]
pub struct SelectorMatches {
    pub name: String,
    pub elements: Vec<MatchedElement>,
}

/// What a `SelectorMatches` holds, as sequences.
pub struct MatchesView {
    pub name: Seq<char>,
    pub elements: Seq<ElementView>,
}

impl DeepView for SelectorMatches {
    type V = MatchesView;

    open spec fn deep_view(&self) -> MatchesView {
        MatchesView { name: self.name@, elements: self.elements.deep_view() }
    }
}

/// Why a page could not be extracted.
#[derive(Debug)]
pub enum ScrapeError {
    /// The selector expression held here is not valid CSS.
    InvalidSelector(String),
}

impl ScrapeError {
    /// The expression that was refused.
    pub open spec fn expr(&self) -> Seq<char> {
        match self {
            ScrapeError::InvalidSelector(e) => e@,
        }
    }

    /// The error as a line of text.
    pub fn message(&self) -> (out: String)
        ensures
            out@ == "Invalid selector: "@ + self.expr(),
    {
        match self {
            ScrapeError::InvalidSelector(e) => {
                String::from_str("Invalid selector: ").concat(e.as_str())
            },
        }
    }
}

/// The name of the attribute that stands in for an element without text.
pub open spec fn link_attribute() -> Seq<char> {
    "href"@
}

/// The text nodes in `parts`, with one space between neighbours.
pub open spec fn joined(parts: Seq<Seq<char>>) -> Seq<char>
    decreases parts.len(),
{
    if parts.len() == 0 {
        Seq::empty()
    } else if parts.len() == 1 {
        parts[0]
    } else {
        joined(parts.drop_last()) + seq![' '] + parts.last()
    }
}

/// The visible text of an element: its text nodes joined, in normal form.
pub open spec fn element_text(e: ElementView) -> Seq<char> {
    normalized(joined(e.text_nodes))
}

/// What an element contributes: its text, or its link where the text is
/// empty, or nothing where it has neither.
pub open spec fn element_value(e: ElementView) -> Option<Seq<char>> {
    if element_text(e).len() > 0 {
        Some(element_text(e))
    } else {
        e.link
    }
}

/// The contributions of `elements`, in order.
pub open spec fn element_values(elements: Seq<ElementView>) -> Seq<Seq<char>>
    decreases elements.len(),
{
    if elements.len() == 0 {
        Seq::empty()
    } else {
        let rest = element_values(elements.drop_last());
        match element_value(elements.last()) {
            Some(v) => rest.push(v),
            None => rest,
        }
    }
}

/// Whether one of `values` is not the empty string.
pub open spec fn has_nonempty(values: Seq<Seq<char>>) -> bool {
    exists|j: int| 0 <= j < values.len() && (#[trigger] values[j]).len() > 0
}

/// One record for each selector that contributed a value which is not
/// empty, in order. Such a record keeps all that its elements contributed.
pub open spec fn records_of(matches: Seq<MatchesView>) -> Seq<RecordView>
    decreases matches.len(),
{
    if matches.len() == 0 {
        Seq::empty()
    } else {
        let rest = records_of(matches.drop_last());
        let values = element_values(matches.last().elements);
        if has_nonempty(values) {
            rest.push(RecordView { name: matches.last().name, values })
        } else {
            rest
        }
    }
}

/// Joins text nodes with single spaces.
pub fn join_text(parts: &Vec<String>) -> (out: String)
    ensures
        out@ == joined(parts.deep_view()),
{
    let mut out = String::new();
    let mut i: usize = 0;
    while i < parts.len()
        invariant
            i <= parts.len(),
            out@ == joined(parts.deep_view().take(i as int)),
        decreases parts.len() - i,
    {
        let ghost before = parts.deep_view().take(i as int);
        let ghost after = parts.deep_view().take(i + 1);
        proof {
            reveal_strlit(" ");
            assert(after.drop_last() =~= before);
            assert(after.last() == parts[i as int]@);
            assert(" "@ =~= seq![' ']);
            if i == 0 {
                assert(before =~= Seq::<Seq<char>>::empty());
                assert(Seq::<char>::empty() + parts[0]@ =~= parts[0]@);
            }
        }
        if i > 0 {
            out.append(" ");
        }
        out.append(parts[i].as_str());
        i += 1;
    }
    assert(parts.deep_view().take(parts.len() as int) =~= parts.deep_view());
    out
}

/// The value that one element contributes.
pub fn value_of(element: &MatchedElement) -> (out: Option<String>)
    ensures
        out.deep_view() == element_value(element.deep_view()),
{
    let text = join_text(&element.text_nodes);
    let cleaned = clean_text(text.as_str().trim());
    proof {
        lemma_trimmed_twice(text@);
    }
    if !cleaned.as_str().is_empty() {
        Some(cleaned)
    } else {
        match &element.link {
            Some(link) => Some(link.clone()),
            None => None,
        }
    }
}

/// The values that `elements` contribute, in order.
pub fn extract_values(elements: &Vec<MatchedElement>) -> (out: Vec<String>)
    ensures
        out.deep_view() == element_values(elements.deep_view()),
{
    let mut out: Vec<String> = Vec::new();
    let mut i: usize = 0;
    assert(elements.deep_view().take(0) =~= Seq::<ElementView>::empty());
    assert(out.deep_view() =~= Seq::<Seq<char>>::empty());
    while i < elements.len()
        invariant
            i <= elements.len(),
            out.deep_view() == element_values(elements.deep_view().take(i as int)),
        decreases elements.len() - i,
    {
        let ghost before = out.deep_view();
        proof {
            let after = elements.deep_view().take(i + 1);
            assert(after.drop_last() =~= elements.deep_view().take(i as int));
            assert(after.last() == elements[i as int].deep_view());
        }
        match value_of(&elements[i]) {
            Some(v) => {
                out.push(v);
                assert(out.deep_view() =~= before.push(v@));
            },
            None => {},
        }
        i += 1;
    }
    assert(elements.deep_view().take(elements.len() as int) =~= elements.deep_view());
    out
}

/// Whether one of `values` is not the empty string.
pub fn any_nonempty(values: &Vec<String>) -> (out: bool)
    ensures
        out == has_nonempty(values.deep_view()),
{
    let mut i: usize = 0;
    while i < values.len()
        invariant
            i <= values.len(),
            forall|j: int| 0 <= j < i ==> (#[trigger] values.deep_view()[j]).len() == 0,
        decreases values.len() - i,
    {
        if !values[i].as_str().is_empty() {
            assert(values.deep_view()[i as int].len() > 0);
            return true;
        }
        i += 1;
    }
    false
}

/// Turns the matches of each selector into records: one record for each
/// selector whose elements contributed at least one value that is not
/// empty. A selector whose elements contributed nothing, or empty strings
/// only, gets no record.
pub fn records_from_matches(matches: &Vec<SelectorMatches>) -> (out: Vec<ScrapedData>)
    ensures
        out.deep_view() == records_of(matches.deep_view()),
{
    let mut out: Vec<ScrapedData> = Vec::new();
    let mut i: usize = 0;
    assert(matches.deep_view().take(0) =~= Seq::<MatchesView>::empty());
    assert(out.deep_view() =~= Seq::<RecordView>::empty());
    while i < matches.len()
        invariant
            i <= matches.len(),
            out.deep_view() == records_of(matches.deep_view().take(i as int)),
        decreases matches.len() - i,
    {
        let ghost before = out.deep_view();
        proof {
            let after = matches.deep_view().take(i + 1);
            assert(after.drop_last() =~= matches.deep_view().take(i as int));
            assert(after.last() == matches[i as int].deep_view());
        }
        let values = extract_values(&matches[i].elements);
        if any_nonempty(&values) {
            let record = ScrapedData { selector_name: matches[i].name.clone(), values };
            out.push(record);
            assert(out.deep_view() =~= before.push(record.deep_view()));
        }
        i += 1;
    }
    assert(matches.deep_view().take(matches.len() as int) =~= matches.deep_view());
    out
}

/// Whether `scraper::Selector::parse` accepts `expr`.
pub uninterp spec fn selector_parses(expr: Seq<char>) -> bool;

/// What `scraper::Html::select` yields for the document parsed from `html`
/// and the selector parsed from `expr`: for each matched element, in the
/// order in which the iterator gives them, its text nodes and the value of
/// its attribute `attr`.
pub uninterp spec fn selected_elements(
    html: Seq<char>,
    expr: Seq<char>,
    attr: Seq<char>,
) -> Seq<ElementView>;

/// Parses `expr` with `scraper::Selector::parse` and `html` with
/// `scraper::Html::parse_document`, and walks `Html::select`. `None` stands
/// for a selector that does not parse. Of each element the result keeps what
/// `ElementRef::text` yields and what `Element::attr` returns for `attr`.
#[verifier::external_body]
fn select_elements(html: &str, expr: &str, attr: &str) -> (out: Option<Vec<MatchedElement>>)
    ensures
        out is Some <==> selector_parses(expr@),
        out is Some ==> out->0.deep_view() == selected_elements(html@, expr@, attr@),
{
    match scraper::Selector::parse(expr) {
        Err(_) => None,
        Ok(selector) => Some(
            scraper::Html::parse_document(html).select(&selector).map(
                |e| MatchedElement {
                    text_nodes: e.text().map(String::from).collect(),
                    link: e.value().attr(attr).map(String::from),
                },
            ).collect(),
        ),
    }
}

/// The matches of each selector on the page `html`, in the selectors' order,
/// or the first expression among them that is not valid.
pub open spec fn matches_of(html: Seq<char>, selectors: Seq<(Seq<char>, Seq<char>)>) -> Result<
    Seq<MatchesView>,
    Seq<char>,
>
    decreases selectors.len(),
{
    if selectors.len() == 0 {
        Ok(Seq::empty())
    } else {
        match matches_of(html, selectors.drop_last()) {
            Err(e) => Err(e),
            Ok(found) => {
                let (name, expr) = selectors.last();
                if selector_parses(expr) {
                    Ok(
                        found.push(
                            MatchesView {
                                name,
                                elements: selected_elements(html, expr, link_attribute()),
                            },
                        ),
                    )
                } else {
                    Err(expr)
                }
            },
        }
    }
}

/// The records that the page `html` gives for `selectors`.
pub open spec fn extraction(html: Seq<char>, selectors: Seq<(Seq<char>, Seq<char>)>) -> Result<
    Seq<RecordView>,
    Seq<char>,
> {
    match matches_of(html, selectors) {
        Ok(found) => Ok(records_of(found)),
        Err(e) => Err(e),
    }
}

/// Runs every selector on the page, in the selectors' order, and stops at
/// the first expression that is not valid.
pub fn select_all(html: &str, selectors: &SelectorSpec) -> (out: Result<
    Vec<SelectorMatches>,
    ScrapeError,
>)
    ensures
        match out {
            Ok(found) => matches_of(html@, selectors@) == Ok::<Seq<MatchesView>, Seq<char>>(
                found.deep_view(),
            ),
            Err(e) => matches_of(html@, selectors@) == Err::<Seq<MatchesView>, Seq<char>>(
                e.expr(),
            ),
        },
{
    let mut found: Vec<SelectorMatches> = Vec::new();
    let mut i: usize = 0;
    assert(selectors@.take(0) =~= Seq::<(Seq<char>, Seq<char>)>::empty());
    assert(found.deep_view() =~= Seq::<MatchesView>::empty());
    while i < selectors.len()
        invariant
            i <= selectors@.len(),
            matches_of(html@, selectors@.take(i as int)) == Ok::<Seq<MatchesView>, Seq<char>>(
                found.deep_view(),
            ),
        decreases selectors@.len() - i,
    {
        let ghost before = found.deep_view();
        proof {
            let after = selectors@.take(i + 1);
            assert(after.drop_last() =~= selectors@.take(i as int));
            assert(after.last() == selectors@[i as int]);
            reveal_strlit("href");
        }
        let expr = selectors.expr_at(i);
        match select_elements(html, expr.as_str(), "href") {
            Some(elements) => {
                let entry = SelectorMatches { name: selectors.name_at(i).clone(), elements };
                found.push(entry);
                assert(found.deep_view() =~= before.push(entry.deep_view()));
            },
            None => {
                proof {
                    lemma_matches_fail(html@, selectors@, i as int);
                }
                return Err(ScrapeError::InvalidSelector(expr.clone()));
            },
        }
        i += 1;
    }
    assert(selectors@.take(selectors@.len() as int) =~= selectors@);
    Ok(found)
}

/// An expression that is not valid, after valid ones only, fails the whole.
proof fn lemma_matches_fail(html: Seq<char>, selectors: Seq<(Seq<char>, Seq<char>)>, i: int)
    requires
        0 <= i < selectors.len(),
        matches_of(html, selectors.take(i)) is Ok,
        !selector_parses(selectors[i].1),
    ensures
        matches_of(html, selectors) == Err::<Seq<MatchesView>, Seq<char>>(selectors[i].1),
    decreases selectors.len(),
{
    if selectors.len() == i + 1 {
        assert(selectors.drop_last() =~= selectors.take(i));
    } else {
        assert(selectors.drop_last().take(i) =~= selectors.take(i));
        lemma_matches_fail(html, selectors.drop_last(), i);
    }
}

/// Every record has a value that is not empty, and so at least one value.
pub proof fn lemma_records_nonempty(matches: Seq<MatchesView>)
    ensures
        forall|i: int|
            0 <= i < records_of(matches).len() ==> has_nonempty(
                (#[trigger] records_of(matches)[i]).values,
            ) && records_of(matches)[i].values.len() > 0,
    decreases matches.len(),
{
    if matches.len() > 0 {
        let rest = records_of(matches.drop_last());
        lemma_records_nonempty(matches.drop_last());
        assert forall|i: int| 0 <= i < records_of(matches).len() implies has_nonempty(
            (#[trigger] records_of(matches)[i]).values,
        ) && records_of(matches)[i].values.len() > 0 by {
            if i < rest.len() {
                assert(records_of(matches)[i] == rest[i]);
            }
        }
    }
}

/// Extracts the page `html`: one record for each selector that contributed
/// at least one value that is not empty, in the selectors' order. An
/// expression that is not valid fails the whole page.
pub fn scrape_data(html: &str, selectors: &SelectorSpec) -> (out: Result<
    Vec<ScrapedData>,
    ScrapeError,
>)
    ensures
        match out {
            Ok(records) => extraction(html@, selectors@) == Ok::<Seq<RecordView>, Seq<char>>(
                records.deep_view(),
            ),
            Err(e) => extraction(html@, selectors@) == Err::<Seq<RecordView>, Seq<char>>(
                e.expr(),
            ),
        },
        out is Ok ==> forall|i: int|
            0 <= i < out->Ok_0.len() ==> has_nonempty((#[trigger] out->Ok_0[i]).values.deep_view())
                && out->Ok_0[i].values.len() > 0,
{
    match select_all(html, selectors) {
        Ok(found) => {
            let records = records_from_matches(&found);
            proof {
                lemma_records_nonempty(found.deep_view());
                assert forall|i: int| 0 <= i < records.len() implies has_nonempty(
                    (#[trigger] records[i]).values.deep_view(),
                ) && records[i].values.len() > 0 by {
                    assert(records.deep_view()[i].values == records[i].values.deep_view());
                    assert(has_nonempty(records.deep_view()[i].values));
                }
            }
            Ok(records)
        },
        Err(e) => Err(e),
    }
}

} // verus!
