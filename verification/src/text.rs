//! Whitespace handling for extracted text.

use vstd::prelude::*;

verus! {

/// Whether `c` carries the Unicode property White_Space.
pub open spec fn is_space(c: char) -> bool {
    let n = c as u32;
    ||| 0x09 <= n <= 0x0d
    ||| n == 0x20
    ||| n == 0x85
    ||| n == 0xa0
    ||| n == 0x1680
    ||| 0x2000 <= n <= 0x200a
    ||| n == 0x2028
    ||| n == 0x2029
    ||| n == 0x202f
    ||| n == 0x205f
    ||| n == 0x3000
}

/// `s` without its leading whitespace.
pub open spec fn trimmed_start(s: Seq<char>) -> Seq<char>
    decreases s.len(),
{
    if s.len() > 0 && is_space(s[0]) {
        trimmed_start(s.drop_first())
    } else {
        s
    }
}

/// `s` without its trailing whitespace.
pub open spec fn trimmed_end(s: Seq<char>) -> Seq<char>
    decreases s.len(),
{
    if s.len() > 0 && is_space(s.last()) {
        trimmed_end(s.drop_last())
    } else {
        s
    }
}

/// `s` without its leading and trailing whitespace.
pub open spec fn trimmed(s: Seq<char>) -> Seq<char> {
    trimmed_end(trimmed_start(s))
}

/// `s` with every maximal run of whitespace replaced by one space.
pub open spec fn collapsed(s: Seq<char>) -> Seq<char>
    decreases s.len(),
{
    if s.len() == 0 {
        s
    } else if !is_space(s.last()) {
        collapsed(s.drop_last()).push(s.last())
    } else if s.len() >= 2 && is_space(s[s.len() - 2]) {
        collapsed(s.drop_last())
    } else {
        collapsed(s.drop_last()).push(' ')
    }
}

/// The normal form of a text: trimmed, then collapsed.
pub open spec fn normalized(s: Seq<char>) -> Seq<char> {
    collapsed(trimmed(s))
}

/// `str::trim` removes leading and trailing characters that have the Unicode
/// property White_Space and keeps everything between them.
pub assume_specification[ str::trim ](s: &str) -> (out: &str)
    ensures
        out@ == trimmed(s@),
;

/// Calls `regex::Regex::new` on the pattern `\s+` and `Regex::replace_all`
/// with a single space as the replacement. The pattern matches the maximal
/// runs of White_Space characters, and `replace_all` substitutes every match,
/// left to right, leaving the rest of the text as it was. `None` would mean
/// that the pattern did not compile, which the pattern's syntax rules out.
#[verifier::external_body]
fn collapse_whitespace(text: &str) -> (out: Option<String>)
    ensures
        out is Some,
        out->0@ == collapsed(text@),
{
    match regex::Regex::new(r"\s+") {
        Ok(re) => Some(re.replace_all(text, " ").into_owned()),
        Err(_) => None,
    }
}

/// Trims `text` and collapses every run of whitespace in it to one space.
pub fn clean_text(text: &str) -> (out: String)
    ensures
        out@ == normalized(text@),
        normalized(out@) == out@,
{
    proof {
        lemma_normalized_idempotent(text@);
    }
    let cleaned = text.trim();
    match collapse_whitespace(cleaned) {
        Some(s) => s,
        None => String::new(),
    }
}

/// Trimming what is already trimmed changes nothing.
pub proof fn lemma_trimmed_twice(s: Seq<char>)
    ensures
        trimmed(trimmed(s)) == trimmed(s),
{
    lemma_trimmed_edges(s);
    lemma_trimmed_fixed(trimmed(s));
}

/// A trimmed text neither begins nor ends with whitespace.
pub proof fn lemma_trimmed_edges(s: Seq<char>)
    ensures
        trimmed(s).len() > 0 ==> !is_space(trimmed(s)[0]) && !is_space(trimmed(s).last()),
{
    lemma_trimmed_start_edge(s);
    lemma_trimmed_end_edge(trimmed_start(s));
}

proof fn lemma_trimmed_start_edge(s: Seq<char>)
    ensures
        trimmed_start(s).len() > 0 ==> !is_space(trimmed_start(s)[0]),
    decreases s.len(),
{
    if s.len() > 0 && is_space(s[0]) {
        lemma_trimmed_start_edge(s.drop_first());
    }
}

proof fn lemma_trimmed_end_edge(s: Seq<char>)
    ensures
        trimmed_end(s).len() > 0 ==> !is_space(trimmed_end(s).last()),
        trimmed_end(s).len() > 0 ==> trimmed_end(s)[0] == s[0],
        trimmed_end(s).len() <= s.len(),
    decreases s.len(),
{
    if s.len() > 0 && is_space(s.last()) {
        lemma_trimmed_end_edge(s.drop_last());
    }
}

/// A text that neither begins nor ends with whitespace is its own trimming.
pub proof fn lemma_trimmed_fixed(s: Seq<char>)
    requires
        s.len() > 0 ==> !is_space(s[0]) && !is_space(s.last()),
    ensures
        trimmed(s) == s,
{
}

/// Whether every whitespace character of `s` is a single space that does not
/// follow another whitespace character.
pub open spec fn single_spaced(s: Seq<char>) -> bool {
    forall|i: int|
        0 <= i < s.len() && is_space(#[trigger] s[i]) ==> s[i] == ' ' && (i > 0 ==> !is_space(
            s[i - 1],
        ))
}

/// What collapsing leaves: single spaces only, and whitespace at an end of
/// the result exactly where the text had whitespace at that end.
pub proof fn lemma_collapsed_shape(s: Seq<char>)
    ensures
        single_spaced(collapsed(s)),
        collapsed(s).len() > 0 <==> s.len() > 0,
        s.len() > 0 ==> (is_space(collapsed(s)[0]) <==> is_space(s[0])),
        s.len() > 0 ==> (is_space(collapsed(s).last()) <==> is_space(s.last())),
    decreases s.len(),
{
    if s.len() > 0 {
        let init = s.drop_last();
        let ci = collapsed(init);
        let c = collapsed(s);
        lemma_collapsed_shape(init);
        if init.len() > 0 {
            assert(init[0] == s[0]);
            assert(init.last() == s[s.len() - 2]);
        }
        if !is_space(s.last()) {
            assert(c == ci.push(s.last()));
            assert forall|i: int| 0 <= i < c.len() && is_space(#[trigger] c[i]) implies c[i] == ' '
                && (i > 0 ==> !is_space(c[i - 1])) by {
                assert(c[i] == ci[i]);
            }
        } else if s.len() >= 2 && is_space(s[s.len() - 2]) {
            assert(c == ci);
        } else {
            assert(c == ci.push(' '));
            assert forall|i: int| 0 <= i < c.len() && is_space(#[trigger] c[i]) implies c[i] == ' '
                && (i > 0 ==> !is_space(c[i - 1])) by {
                if i < ci.len() {
                    assert(c[i] == ci[i]);
                } else if i > 0 {
                    assert(c[i - 1] == ci.last());
                }
            }
        }
    }
}

/// Collapsing a text that is already single-spaced changes nothing.
pub proof fn lemma_collapsed_fixed(s: Seq<char>)
    requires
        single_spaced(s),
    ensures
        collapsed(s) == s,
    decreases s.len(),
{
    if s.len() > 0 {
        let init = s.drop_last();
        assert forall|i: int| 0 <= i < init.len() && is_space(#[trigger] init[i]) implies init[i]
            == ' ' && (i > 0 ==> !is_space(init[i - 1])) by {
            assert(init[i] == s[i]);
        }
        lemma_collapsed_fixed(init);
        assert(is_space(s[s.len() - 1]) ==> s[s.len() - 1] == ' ');
        assert(init.push(s.last()) =~= s);
    } else {
        assert(collapsed(s) =~= s);
    }
}

/// Normalizing is idempotent: a text in normal form is its own normal form.
pub proof fn lemma_normalized_idempotent(s: Seq<char>)
    ensures
        normalized(normalized(s)) == normalized(s),
{
    let t = trimmed(s);
    let u = collapsed(t);
    lemma_trimmed_edges(s);
    lemma_collapsed_shape(t);
    lemma_trimmed_fixed(u);
    lemma_collapsed_fixed(u);
}

} // verus!
