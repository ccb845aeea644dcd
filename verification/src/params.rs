//! The parameters of one submission: names with their values.

use vstd::prelude::*;
use vstd::string::*;
use crate::field::pairs_view;
use crate::text::clone_pairs;

verus! {

/// A pair of a name and a value, as texts.
pub type Pair = (Seq<char>, Seq<char>);

/// The map that results from inserting the pairs one after the other
/// into `base`: a later pair replaces an earlier one of the same name.
pub open spec fn insert_all(base: Map<Seq<char>, Seq<char>>, pairs: Seq<Pair>) -> Map<
    Seq<char>,
    Seq<char>,
>
    decreases pairs.len(),
{
    if pairs.len() == 0 {
        base
    } else {
        insert_all(base, pairs.drop_last()).insert(pairs.last().0, pairs.last().1)
    }
}

/// Whether no name occurs twice.
pub open spec fn distinct_names(pairs: Seq<Pair>) -> bool {
    forall|i: int, j: int| 0 <= i < j < pairs.len() ==> pairs[i].0 != pairs[j].0
}

/// Inserting two lists in turn is inserting their concatenation.
pub proof fn lemma_insert_all_concat(base: Map<Seq<char>, Seq<char>>, a: Seq<Pair>, b: Seq<Pair>)
    ensures
        insert_all(base, a + b) == insert_all(insert_all(base, a), b),
    decreases b.len(),
{
    if b.len() == 0 {
        assert(a + b =~= a);
    } else {
        assert((a + b).drop_last() =~= a + b.drop_last());
        assert((a + b).last() == b.last());
        lemma_insert_all_concat(base, a, b.drop_last());
    }
}

proof fn lemma_replace(pairs: Seq<Pair>, at: int, value: Seq<char>)
    requires
        distinct_names(pairs),
        0 <= at < pairs.len(),
    ensures
        distinct_names(pairs.update(at, (pairs[at].0, value))),
        insert_all(Map::empty(), pairs.update(at, (pairs[at].0, value))) == insert_all(
            Map::empty(),
            pairs,
        ).insert(pairs[at].0, value),
    decreases pairs.len(),
{
    let name = pairs[at].0;
    let next = pairs.update(at, (name, value));
    let front = insert_all(Map::empty(), pairs.drop_last());
    if at == pairs.len() - 1 {
        assert(next.drop_last() =~= pairs.drop_last());
        assert(front.insert(name, pairs.last().1).insert(name, value) =~= front.insert(
            name,
            value,
        ));
    } else {
        assert(next.drop_last() =~= pairs.drop_last().update(at, (name, value)));
        assert(next.last() == pairs.last());
        assert(pairs.drop_last()[at] == pairs[at]);
        lemma_replace(pairs.drop_last(), at, value);
        let last = pairs.last();
        assert(last.0 != name);
        assert(front.insert(name, value).insert(last.0, last.1) =~= front.insert(
            last.0,
            last.1,
        ).insert(name, value));
    }
}

proof fn lemma_lookup(pairs: Seq<Pair>)
    requires
        distinct_names(pairs),
    ensures
        forall|i: int|
            0 <= i < pairs.len() ==> insert_all(Map::empty(), pairs).contains_key(
                #[trigger] pairs[i].0,
            ) && insert_all(Map::empty(), pairs)[pairs[i].0] == pairs[i].1,
        forall|name: Seq<char>| #[trigger]
            insert_all(Map::empty(), pairs).contains_key(name) ==> exists|i: int|
                0 <= i < pairs.len() && #[trigger] pairs[i].0 == name,
    decreases pairs.len(),
{
    if pairs.len() > 0 {
        let front = pairs.drop_last();
        lemma_lookup(front);
        assert forall|i: int| 0 <= i < pairs.len() implies insert_all(
            Map::empty(),
            pairs,
        ).contains_key(#[trigger] pairs[i].0) && insert_all(Map::empty(), pairs)[pairs[i].0]
            == pairs[i].1 by {
            if i < pairs.len() - 1 {
                assert(front[i] == pairs[i]);
            }
        }
        assert forall|name: Seq<char>| #[trigger]
            insert_all(Map::empty(), pairs).contains_key(name) implies exists|i: int|
            0 <= i < pairs.len() && #[trigger] pairs[i].0 == name by {
            if name == pairs.last().0 {
                assert(pairs[pairs.len() - 1].0 == name);
            } else {
                assert(insert_all(Map::empty(), front).contains_key(name));
                let i = choose|i: int| 0 <= i < front.len() && #[trigger] front[i].0 == name;
                assert(pairs[i].0 == name);
            }
        }
    }
}

proof fn lemma_count(pairs: Seq<Pair>)
    requires
        distinct_names(pairs),
    ensures
        insert_all(Map::empty(), pairs).dom().finite(),
        insert_all(Map::empty(), pairs).len() == pairs.len(),
    decreases pairs.len(),
{
    if pairs.len() > 0 {
        let front = pairs.drop_last();
        lemma_count(front);
        lemma_lookup(front);
        let name = pairs.last().0;
        if insert_all(Map::empty(), front).contains_key(name) {
            let i = choose|i: int| 0 <= i < front.len() && #[trigger] front[i].0 == name;
            assert(pairs[i].0 == pairs[pairs.len() - 1].0);
        }
    }
}

/// The parameters of one submission. No name occurs twice: a value
/// inserted under a name that is present replaces the earlier one.
#[derive(Debug, Clone)]
pub struct ParameterMap {
    entries: Vec<(String, String)>,
}

impl View for ParameterMap {
    type V = Map<Seq<char>, Seq<char>>;

    closed spec fn view(&self) -> Map<Seq<char>, Seq<char>> {
        insert_all(Map::empty(), pairs_view(self.entries@))
    }
}

impl ParameterMap {
    /// The invariant of the type: no name occurs twice.
    pub closed spec fn wf(&self) -> bool {
        distinct_names(pairs_view(self.entries@))
    }

    /// The pairs that the map holds, in the order in which their names
    /// were first inserted.
    pub closed spec fn pairs(&self) -> Seq<Pair> {
        pairs_view(self.entries@)
    }

    /// The map holds exactly its pairs, each name once.
    pub proof fn lemma_pairs(&self)
        requires
            self.wf(),
        ensures
            distinct_names(self.pairs()),
            self@ == insert_all(Map::empty(), self.pairs()),
            forall|i: int|
                0 <= i < self.pairs().len() ==> self@.contains_key(#[trigger] self.pairs()[i].0)
                    && self@[self.pairs()[i].0] == self.pairs()[i].1,
            forall|name: Seq<char>| #[trigger]
                self@.contains_key(name) ==> exists|i: int|
                    0 <= i < self.pairs().len() && #[trigger] self.pairs()[i].0 == name,
    {
        lemma_lookup(self.pairs());
    }

    /// An empty map.
    pub fn new() -> (map: ParameterMap)
        ensures
            map.wf(),
            map@ == Map::<Seq<char>, Seq<char>>::empty(),
            map.pairs().len() == 0,
    {
        ParameterMap { entries: Vec::new() }
    }

    /// How many names the map holds.
    pub fn len(&self) -> (len: usize)
        requires
            self.wf(),
        ensures
            len == self.pairs().len(),
            len == self@.len(),
            self@.dom().finite(),
    {
        proof {
            lemma_count(self.pairs());
        }
        self.entries.len()
    }

    /// The pairs that the map holds.
    pub fn entries(&self) -> (list: Vec<(String, String)>)
        ensures
            pairs_view(list@) == self.pairs(),
    {
        clone_pairs(&self.entries)
    }

    fn position(&self, name: &String) -> (at: Option<usize>)
        ensures
            match at {
                Some(i) => i < self.pairs().len() && self.pairs()[i as int].0 == name@,
                None => forall|i: int|
                    0 <= i < self.pairs().len() ==> (#[trigger] self.pairs()[i]).0 != name@,
            },
    {
        let mut i: usize = 0;
        while i < self.entries.len()
            invariant
                i <= self.entries.len(),
                forall|k: int| 0 <= k < i ==> (#[trigger] self.pairs()[k]).0 != name@,
            decreases self.entries.len() - i,
        {
            if self.entries[i].0 == *name {
                return Some(i);
            }
            i += 1;
        }
        None
    }

    /// The value under a name, if the map holds one.
    pub fn get(&self, name: &str) -> (value: Option<String>)
        requires
            self.wf(),
        ensures
            match value {
                Some(v) => self@.contains_key(name@) && self@[name@] == v@,
                None => !self@.contains_key(name@),
            },
    {
        let key: String = String::from_str(name);
        proof {
            lemma_lookup(self.pairs());
        }
        match self.position(&key) {
            Some(i) => {
                assert(self.pairs()[i as int].1 == self.entries@[i as int].1@);
                Some(self.entries[i].1.clone())
            },
            None => None,
        }
    }

    /// Sets the value under a name, replacing the one that was there.
    pub fn insert(&mut self, name: String, value: String)
        requires
            old(self).wf(),
        ensures
            final(self).wf(),
            final(self)@ == old(self)@.insert(name@, value@),
    {
        let ghost before = self.pairs();
        match self.position(&name) {
            Some(i) => {
                proof {
                    lemma_replace(before, i as int, value@);
                }
                self.entries.set(i, (name, value));
                assert(self.pairs() =~= before.update(i as int, (before[i as int].0, value@)));
            },
            None => {
                self.entries.push((name, value));
                assert(self.pairs() =~= before.push((name@, value@)));
                assert(self.pairs().drop_last() =~= before);
            },
        }
    }

    /// Inserts the pairs one after the other.
    pub fn insert_all(&mut self, list: &Vec<(String, String)>)
        requires
            old(self).wf(),
        ensures
            final(self).wf(),
            final(self)@ == insert_all(old(self)@, pairs_view(list@)),
    {
        let ghost pairs = pairs_view(list@);
        let mut i: usize = 0;
        while i < list.len()
            invariant
                i <= list.len(),
                pairs == pairs_view(list@),
                self.wf(),
                self@ == insert_all(old(self)@, pairs.take(i as int)),
            decreases list.len() - i,
        {
            self.insert(list[i].0.clone(), list[i].1.clone());
            proof {
                assert(pairs.take(i + 1).drop_last() =~= pairs.take(i as int));
                assert(pairs.take(i + 1).last() == pairs[i as int]);
            }
            i += 1;
        }
        assert(pairs.take(list.len() as int) =~= pairs);
    }
}

} // verus!
