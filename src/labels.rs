use vstd::prelude::*;

use crate::op::Word;

verus! {

/// The label table as a map from names to the offsets of their entries,
/// a later entry winning over an earlier one of the same name.
pub open spec fn entries_map(es: Seq<(Vec<char>, Word)>) -> Map<Seq<char>, Word>
    decreases es.len(),
{
    if es.len() == 0 {
        Map::empty()
    } else {
        entries_map(es.drop_last()).insert(es.last().0@, es.last().1)
    }
}

pub open spec fn unique_names(es: Seq<(Vec<char>, Word)>) -> bool {
    forall|i: int, j: int| 0 <= i < j < es.len() ==> es[i].0@ != es[j].0@
}

/// A name is in the map exactly when an entry has it, and then it maps to that
/// entry's offset.
proof fn lemma_entries_map(es: Seq<(Vec<char>, Word)>, k: int)
    requires
        unique_names(es),
        0 <= k < es.len(),
    ensures
        entries_map(es).contains_key(es[k].0@),
        entries_map(es)[es[k].0@] == es[k].1,
    decreases es.len(),
{
    if k < es.len() - 1 {
        let init = es.drop_last();
        assert(init[k] == es[k]);
        lemma_entries_map(init, k);
    }
}

proof fn lemma_entries_map_absent(es: Seq<(Vec<char>, Word)>, name: Seq<char>)
    requires
        forall|i: int| 0 <= i < es.len() ==> (#[trigger] es[i]).0@ != name,
    ensures
        !entries_map(es).contains_key(name),
    decreases es.len(),
{
    if es.len() > 0 {
        let init = es.drop_last();
        assert forall|i: int| 0 <= i < init.len() implies (#[trigger] init[i]).0@ != name by {
            assert(init[i] == es[i]);
        }
        lemma_entries_map_absent(init, name);
    }
}

/// Whether `x` holds exactly the characters `s[a..b]`.
fn same_chars(x: &Vec<char>, s: &Vec<char>, a: usize, b: usize) -> (r: bool)
    requires
        a <= b <= s.len(),
    ensures
        r == (x@ == s@.subrange(a as int, b as int)),
{
    if x.len() != b - a {
        return false;
    }
    let mut k: usize = 0;
    while k < x.len()
        invariant
            x.len() == b - a,
            a <= b <= s.len(),
            k <= x.len(),
            forall|m: int| 0 <= m < k ==> x@[m] == s@[a + m],
        decreases x.len() - k,
    {
        if x[k] != s[a + k] {
            assert(x@[k as int] != s@.subrange(a as int, b as int)[k as int]);
            return false;
        }
        k = k + 1;
    }
    assert(x@ =~= s@.subrange(a as int, b as int));
    true
}

/// Label names with the byte offsets they stand for.
pub struct Labels {
    entries: Vec<(Vec<char>, Word)>,
}

impl View for Labels {
    type V = Map<Seq<char>, Word>;

    closed spec fn view(&self) -> Map<Seq<char>, Word> {
        entries_map(self.entries@)
    }
}

impl Labels {
    /// No name is entered twice.
    pub closed spec fn wf(&self) -> bool {
        unique_names(self.entries@)
    }

    pub fn new() -> (r: Labels)
        ensures
            r.wf(),
            r@ == Map::<Seq<char>, Word>::empty(),
    {
        Labels { entries: Vec::new() }
    }

    /// The offset of the label named `s[a..b]`.
    pub fn find(&self, s: &Vec<char>, a: usize, b: usize) -> (r: Option<Word>)
        requires
            self.wf(),
            a <= b <= s.len(),
        ensures
            self@.contains_key(s@.subrange(a as int, b as int)) ==> r == Some(
                self@[s@.subrange(a as int, b as int)],
            ),
            !self@.contains_key(s@.subrange(a as int, b as int)) ==> r is None,
    {
        let ghost name = s@.subrange(a as int, b as int);
        let mut i: usize = 0;
        while i < self.entries.len()
            invariant
                self.wf(),
                a <= b <= s.len(),
                name == s@.subrange(a as int, b as int),
                i <= self.entries.len(),
                forall|m: int| 0 <= m < i ==> (#[trigger] self.entries@[m]).0@ != name,
            decreases self.entries.len() - i,
        {
            if same_chars(&self.entries[i].0, s, a, b) {
                proof {
                    lemma_entries_map(self.entries@, i as int);
                }
                return Some(self.entries[i].1);
            }
            i = i + 1;
        }
        proof {
            lemma_entries_map_absent(self.entries@, name);
        }
        None
    }

    /// The offset of the label called `name`.
    pub fn get(&self, name: &Vec<char>) -> (r: Option<Word>)
        requires
            self.wf(),
        ensures
            self@.contains_key(name@) ==> r == Some(self@[name@]),
            !self@.contains_key(name@) ==> r is None,
    {
        assert(name@.subrange(0, name@.len() as int) =~= name@);
        self.find(name, 0, name.len())
    }

    /// Enters the label named `s[a..b]`, which is not yet in the table.
    pub fn insert(&mut self, s: &Vec<char>, a: usize, b: usize, offset: Word)
        requires
            old(self).wf(),
            a <= b <= s.len(),
            !old(self)@.contains_key(s@.subrange(a as int, b as int)),
        ensures
            final(self).wf(),
            final(self)@ == old(self)@.insert(s@.subrange(a as int, b as int), offset),
    {
        let ghost name = s@.subrange(a as int, b as int);
        let mut copy: Vec<char> = Vec::new();
        let mut k = a;
        while k < b
            invariant
                a <= k <= b <= s.len(),
                copy@ == s@.subrange(a as int, k as int),
            decreases b - k,
        {
            copy.push(s[k]);
            k = k + 1;
            assert(copy@ =~= s@.subrange(a as int, k as int));
        }
        proof {
            assert forall|i: int| 0 <= i < self.entries@.len() implies (#[trigger] self.entries@[i]).0@
                != name by {
                if self.entries@[i].0@ == name {
                    lemma_entries_map(self.entries@, i);
                }
            }
        }
        self.entries.push((copy, offset));
        assert(self.entries@.drop_last() =~= old(self).entries@);
    }
}

} // verus!
