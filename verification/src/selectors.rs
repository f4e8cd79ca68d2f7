//! The selectors of a run: names mapped to CSS expressions.

use vstd::prelude::*;

verus! {

/// One named selector.
#[derive(Debug)]
pub struct SelectorEntry {
    pub name: String,
    pub expr: String,
}

/// The selectors of a run, each under a name that occurs once, in the order
/// in which the names were first inserted.
#[derive(Debug)]
pub struct SelectorSpec {
    entries: Vec<SelectorEntry>,
}

impl View for SelectorSpec {
    type V = Seq<(Seq<char>, Seq<char>)>;

    /// The pairs of name and expression, in order.
    closed spec fn view(&self) -> Seq<(Seq<char>, Seq<char>)> {
        Seq::new(self.entries@.len(), |i: int| (self.entries@[i].name@, self.entries@[i].expr@))
    }
}

/// The place of the first pair in `pairs` whose name is `name`.
pub open spec fn position(pairs: Seq<(Seq<char>, Seq<char>)>, name: Seq<char>) -> Option<int>
    decreases pairs.len(),
{
    if pairs.len() == 0 {
        None
    } else {
        match position(pairs.drop_last(), name) {
            Some(i) => Some(i),
            None => if pairs.last().0 == name {
                Some(pairs.len() - 1)
            } else {
                None
            },
        }
    }
}

/// `position` finds the first pair with the name, and only such a pair.
pub proof fn lemma_position(pairs: Seq<(Seq<char>, Seq<char>)>, name: Seq<char>)
    ensures
        match position(pairs, name) {
            Some(i) => 0 <= i < pairs.len() && pairs[i].0 == name && forall|j: int|
                0 <= j < i ==> (#[trigger] pairs[j]).0 != name,
            None => forall|j: int| 0 <= j < pairs.len() ==> (#[trigger] pairs[j]).0 != name,
        },
    decreases pairs.len(),
{
    if pairs.len() > 0 {
        let init = pairs.drop_last();
        lemma_position(init, name);
        assert forall|j: int| 0 <= j < init.len() implies #[trigger] pairs[j] == init[j] by {}
    }
}

/// Whether no name occurs twice in `pairs`.
pub open spec fn distinct_names(pairs: Seq<(Seq<char>, Seq<char>)>) -> bool {
    forall|i: int, j: int| 0 <= i < j < pairs.len() ==> pairs[i].0 != pairs[j].0
}

impl SelectorSpec {
    #[verifier::type_invariant]
    spec fn inv(self) -> bool {
        distinct_names(self@)
    }

    /// No selectors.
    pub fn new() -> (out: SelectorSpec)
        ensures
            out@ == Seq::<(Seq<char>, Seq<char>)>::empty(),
    {
        let out = SelectorSpec { entries: Vec::new() };
        assert(out@ =~= Seq::<(Seq<char>, Seq<char>)>::empty());
        out
    }

    /// How many selectors there are.
    pub fn len(&self) -> (n: usize)
        ensures
            n == self@.len(),
            distinct_names(self@),
    {
        proof {
            use_type_invariant(self);
        }
        self.entries.len()
    }

    /// The name at place `i`.
    pub fn name_at(&self, i: usize) -> (out: &String)
        requires
            i < self@.len(),
        ensures
            out@ == self@[i as int].0,
    {
        &self.entries[i].name
    }

    /// The expression at place `i`.
    pub fn expr_at(&self, i: usize) -> (out: &String)
        requires
            i < self@.len(),
        ensures
            out@ == self@[i as int].1,
    {
        &self.entries[i].expr
    }

    /// Where `name` stands, if it is present.
    pub fn find(&self, name: &str) -> (out: Option<usize>)
        ensures
            match out {
                Some(i) => position(self@, name@) == Some(i as int),
                None => position(self@, name@) is None,
            },
    {
        let mut i: usize = 0;
        while i < self.entries.len()
            invariant
                i <= self.entries.len(),
                self.entries.len() == self@.len(),
                forall|j: int| 0 <= j < i ==> (#[trigger] self@[j]).0 != name@,
            decreases self.entries.len() - i,
        {
            if str_eq(self.entries[i].name.as_str(), name) {
                proof {
                    lemma_position(self@, name@);
                    let k = position(self@, name@)->0;
                    assert(self@[i as int].0 == name@);
                    if k < i {
                        assert(self@[k].0 != name@);
                    }
                }
                return Some(i);
            }
            i += 1;
        }
        proof {
            lemma_position(self@, name@);
        }
        None
    }

    /// Puts `expr` under `name`. A name that is already present keeps its
    /// place and gets the new expression, and the old one is returned; a new
    /// name goes to the end.
    pub fn insert(&mut self, name: String, expr: String) -> (out: Option<String>)
        ensures
            distinct_names(final(self)@),
            match position(old(self)@, name@) {
                Some(i) => {
                    &&& out is Some
                    &&& out->0@ == old(self)@[i].1
                    &&& final(self)@ == old(self)@.update(i, (name@, expr@))
                },
                None => {
                    &&& out is None
                    &&& final(self)@ == old(self)@.push((name@, expr@))
                },
            },
    {
        let ghost before = *self;
        proof {
            use_type_invariant(&*self);
            lemma_position(before@, name@);
        }
        let found = self.find(name.as_str());
        let mut entries: Vec<SelectorEntry> = Vec::new();
        std::mem::swap(&mut entries, &mut self.entries);
        assert(self@ =~= Seq::<(Seq<char>, Seq<char>)>::empty());
        let ghost new_name = name@;
        let ghost new_expr = expr@;
        let out = match found {
            Some(i) => {
                let old_entry = entries.remove(i);
                entries.insert(i, SelectorEntry { name, expr });
                Some(old_entry.expr)
            },
            None => {
                entries.push(SelectorEntry { name, expr });
                None
            },
        };
        proof {
            let after = Seq::new(entries@.len(), |i: int| (entries@[i].name@, entries@[i].expr@));
            match found {
                Some(i) => {
                    assert(after =~= before@.update(i as int, (new_name, new_expr)));
                },
                None => {
                    assert(after =~= before@.push((new_name, new_expr)));
                },
            }
            assert(distinct_names(after));
        }
        std::mem::swap(&mut entries, &mut self.entries);
        out
    }
}

/// Whether two strings hold the same characters.
pub fn str_eq(a: &str, b: &str) -> (out: bool)
    ensures
        out == (a@ == b@),
{
    let n = a.unicode_len();
    if n != b.unicode_len() {
        return false;
    }
    let mut i: usize = 0;
    while i < n
        invariant
            i <= n,
            n == a@.len(),
            n == b@.len(),
            forall|j: int| 0 <= j < i ==> a@[j] == b@[j],
        decreases n - i,
    {
        if a.get_char(i) != b.get_char(i) {
            return false;
        }
        i += 1;
    }
    assert(a@ =~= b@);
    true
}

} // verus!
