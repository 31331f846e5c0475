//! Tables with texts for keys, kept in the order of the keys.

use crate::text::{
    chars_of, lemma_text_less_irreflexive, lemma_text_less_transitive, same_but_case,
    same_but_case_str, same_chars, text_less, text_less_slice,
};
use vstd::prelude::*;

verus! {

/// A table that holds one value for each of its keys.
#[derive(Debug, Clone)]
pub struct TextTable<V> {
    entries: Vec<(String, V)>,
}

impl<V> View for TextTable<V> {
    type V = Map<Seq<char>, V>;

    closed spec fn view(&self) -> Map<Seq<char>, V> {
        Map::new(
            |key: Seq<char>| exists|i: int| holds_key(self.entries@, i, key),
            |key: Seq<char>| self.entries@[choose|i: int| holds_key(self.entries@, i, key)].1,
        )
    }
}

spec fn holds_key<V>(entries: Seq<(String, V)>, i: int, key: Seq<char>) -> bool {
    0 <= i < entries.len() && entries[i].0@ == key
}

spec fn ascending<V>(entries: Seq<(String, V)>) -> bool {
    forall|i: int, j: int|
        0 <= i < j < entries.len() ==> text_less(#[trigger] entries[i].0@, #[trigger] entries[j].0@)
}

/// No key stands twice in ascending entries.
proof fn lemma_one_place<V>(entries: Seq<(String, V)>, i: int, j: int, key: Seq<char>)
    requires
        ascending(entries),
        holds_key(entries, i, key),
        holds_key(entries, j, key),
    ensures
        i == j,
{
    lemma_text_less_irreflexive(key);
    if i < j {
        assert(text_less(entries[i].0@, entries[j].0@));
    } else if j < i {
        assert(text_less(entries[j].0@, entries[i].0@));
    }
}

impl<V> TextTable<V> {
    /// The keys stand in ascending order.
    pub closed spec fn wf(self) -> bool {
        ascending(self.entries@)
    }

    proof fn lemma_value_at(self, i: int)
        requires
            self.wf(),
            0 <= i < self.entries@.len(),
        ensures
            self@.dom().contains(self.entries@[i].0@),
            self@[self.entries@[i].0@] == self.entries@[i].1,
    {
        let key = self.entries@[i].0@;
        assert(holds_key(self.entries@, i, key));
        let k = choose|k: int| holds_key(self.entries@, k, key);
        lemma_one_place(self.entries@, i, k, key);
    }

    pub fn new() -> (res: Self)
        ensures
            res.wf(),
            res@ == Map::<Seq<char>, V>::empty(),
    {
        let res = TextTable { entries: Vec::new() };
        assert(res@ =~= Map::<Seq<char>, V>::empty());
        res
    }

    /// Where a key stands, or where it would have to stand.
    fn search(&self, key: &[char]) -> (res: (bool, usize))
        requires
            self.wf(),
        ensures
            res.1 <= self.entries@.len(),
            forall|j: int| 0 <= j < res.1 ==> text_less(#[trigger] self.entries@[j].0@, key@),
            res.0 ==> holds_key(self.entries@, res.1 as int, key@),
            !res.0 ==> forall|j: int|
                res.1 <= j < self.entries@.len() ==> text_less(key@, #[trigger] self.entries@[j].0@),
    {
        let mut low: usize = 0;
        let mut high: usize = self.entries.len();
        while low < high
            invariant
                self.wf(),
                low <= high <= self.entries@.len(),
                forall|j: int| 0 <= j < low ==> text_less(#[trigger] self.entries@[j].0@, key@),
                forall|j: int|
                    high <= j < self.entries@.len() ==> text_less(
                        key@,
                        #[trigger] self.entries@[j].0@,
                    ),
            decreases high - low,
        {
            let mid = low + (high - low) / 2;
            let here = chars_of(self.entries[mid].0.as_str());
            if same_chars(&here, key) {
                assert forall|j: int| 0 <= j < mid implies text_less(
                    #[trigger] self.entries@[j].0@,
                    key@,
                ) by {
                    assert(text_less(self.entries@[j].0@, self.entries@[mid as int].0@));
                }
                return (true, mid);
            }
            if text_less_slice(&here, key) {
                assert forall|j: int| 0 <= j < mid + 1 implies text_less(
                    #[trigger] self.entries@[j].0@,
                    key@,
                ) by {
                    if j < mid {
                        lemma_text_less_transitive(
                            self.entries@[j].0@,
                            self.entries@[mid as int].0@,
                            key@,
                        );
                    }
                }
                low = mid + 1;
            } else {
                proof {
                    crate::text::lemma_text_less_total(self.entries@[mid as int].0@, key@);
                }
                assert forall|j: int| mid <= j < self.entries@.len() implies text_less(
                    key@,
                    #[trigger] self.entries@[j].0@,
                ) by {
                    if j > mid {
                        lemma_text_less_transitive(
                            key@,
                            self.entries@[mid as int].0@,
                            self.entries@[j].0@,
                        );
                    }
                }
                high = mid;
            }
        }
        (false, low)
    }

    /// Sets the value of a key.
    pub fn insert(&mut self, key: String, value: V)
        requires
            old(self).wf(),
        ensures
            final(self).wf(),
            final(self)@ == old(self)@.insert(key@, value),
    {
        let (found, i) = self.search(&chars_of(key.as_str()));
        let ghost before = *self;
        let ghost k = key@;
        if found {
            self.entries.set(i, (key, value));
        } else {
            self.entries.insert(i, (key, value));
        }
        proof {
            let now = *self;
            assert forall|a: int, b: int| 0 <= a < b < now.entries@.len() implies text_less(
                #[trigger] now.entries@[a].0@,
                #[trigger] now.entries@[b].0@,
            ) by {
                if found {
                    assert(now.entries@[a].0@ == before.entries@[a].0@);
                    assert(now.entries@[b].0@ == before.entries@[b].0@);
                } else {
                    let c = if a < i { a } else { a - 1 };
                    let d = if b < i { b } else { b - 1 };
                    if a == i {
                        assert(now.entries@[b] == before.entries@[d]);
                    } else if b == i {
                        assert(now.entries@[a] == before.entries@[c]);
                    } else {
                        assert(now.entries@[a] == before.entries@[c]);
                        assert(now.entries@[b] == before.entries@[d]);
                    }
                }
            }
            assert(now.wf());
            let expected = before@.insert(k, value);
            assert(now.entries@[i as int] == (key, value));
            assert(holds_key(now.entries@, i as int, k));
            now.lemma_value_at(i as int);
            assert forall|t: Seq<char>| now@.dom().contains(t) == expected.dom().contains(t) by {
                if now@.dom().contains(t) && t != k {
                    let a = choose|a: int| holds_key(now.entries@, a, t);
                    assert(a != i);
                    let c = if found || a < i { a } else { a - 1 };
                    assert(now.entries@[a] == before.entries@[c]);
                    assert(holds_key(before.entries@, c, t));
                }
                if before@.dom().contains(t) {
                    let c = choose|c: int| holds_key(before.entries@, c, t);
                    let a = if found || c < i { c } else { c + 1 };
                    if !(found && c == i) {
                        assert(now.entries@[a] == before.entries@[c]);
                    }
                    assert(holds_key(now.entries@, a, t));
                }
            }
            assert forall|t: Seq<char>| now@.dom().contains(t) implies now@[t] == expected[t] by {
                if t != k {
                    let a = choose|a: int| holds_key(now.entries@, a, t);
                    let c = if found || a < i { a } else { a - 1 };
                    assert(now.entries@[a] == before.entries@[c]);
                    now.lemma_value_at(a);
                    before.lemma_value_at(c);
                }
            }
            assert(now@ =~= expected);
        }
    }

    /// The value of a key.
    pub fn get(&self, key: &str) -> (res: Option<&V>)
        requires
            self.wf(),
        ensures
            match res {
                Some(value) => self@.dom().contains(key@) && *value == self@[key@],
                None => !self@.dom().contains(key@),
            },
    {
        let (found, i) = self.search(&chars_of(key));
        if found {
            proof {
                self.lemma_value_at(i as int);
            }
            Some(&self.entries[i].1)
        } else {
            proof {
                if self@.dom().contains(key@) {
                    let j = choose|j: int| holds_key(self.entries@, j, key@);
                    lemma_text_less_irreflexive(key@);
                    assert(self.entries@[j].0@ == key@);
                    assert(false);
                }
            }
            None
        }
    }

    /// The keys, in ascending order.
    pub closed spec fn keys(self) -> Seq<Seq<char>> {
        self.entries@.map_values(|entry: (String, V)| entry.0@)
    }

    /// The keys are those of the entries, each once and in ascending order.
    pub proof fn law_keys_ascend(self)
        requires
            self.wf(),
        ensures
            forall|key: Seq<char>| self@.dom().contains(key) == self.keys().contains(key),
            forall|i: int, j: int|
                0 <= i < j < self.keys().len() ==> text_less(
                    #[trigger] self.keys()[i],
                    #[trigger] self.keys()[j],
                ),
    {
        assert forall|key: Seq<char>| self@.dom().contains(key) == self.keys().contains(key) by {
            if self@.dom().contains(key) {
                let i = choose|i: int| holds_key(self.entries@, i, key);
                assert(self.keys()[i] == key);
            }
            if self.keys().contains(key) {
                let i = choose|i: int| 0 <= i < self.keys().len() && self.keys()[i] == key;
                assert(holds_key(self.entries@, i, key));
            }
        }
    }

    pub fn len(&self) -> (res: usize)
        ensures
            res == self.keys().len(),
    {
        self.entries.len()
    }

    /// The entry at an index, in the order of the keys.
    pub fn at(&self, i: usize) -> (res: (&String, &V))
        requires
            self.wf(),
            i < self.keys().len(),
        ensures
            res.0@ == self.keys()[i as int],
            self@.dom().contains(res.0@),
            *res.1 == self@[res.0@],
    {
        proof {
            self.lemma_value_at(i as int);
        }
        (&self.entries[i].0, &self.entries[i].1)
    }

    /// The value of the first key that is `name` but for the case of ASCII
    /// letters.
    pub fn first_ignoring_case(&self, name: &str) -> (res: Option<(&String, &V)>)
        requires
            self.wf(),
        ensures
            match res {
                Some((key, value)) => {
                    &&& first_but_case(self@, name@, key@)
                    &&& *value == self@[key@]
                },
                None => forall|key: Seq<char>|
                    self@.dom().contains(key) ==> !same_but_case(key, name@),
            },
    {
        let mut i: usize = 0;
        while i < self.entries.len()
            invariant
                self.wf(),
                i <= self.entries@.len(),
                forall|j: int| 0 <= j < i ==> !same_but_case(#[trigger] self.entries@[j].0@, name@),
            decreases self.entries@.len() - i,
        {
            if same_but_case_str(&chars_of(self.entries[i].0.as_str()), name) {
                proof {
                    let key = self.entries@[i as int].0@;
                    self.lemma_value_at(i as int);
                    assert forall|t: Seq<char>|
                        self@.dom().contains(t) && same_but_case(t, name@) && t
                            != key implies text_less(key, t) by {
                        let j = choose|j: int| holds_key(self.entries@, j, t);
                        assert(self.entries@[j].0@ == t);
                    }
                }
                return Some((&self.entries[i].0, &self.entries[i].1));
            }
            i = i + 1;
        }
        assert forall|key: Seq<char>| self@.dom().contains(key) implies !same_but_case(
            key,
            name@,
        ) by {
            let j = choose|j: int| holds_key(self.entries@, j, key);
            assert(self.entries@[j].0@ == key);
        }
        None
    }
}

/// Whether `key` is the first key of a table that is `name` but for the case
/// of ASCII letters.
pub open spec fn first_but_case<V>(table: Map<Seq<char>, V>, name: Seq<char>, key: Seq<char>) -> bool {
    &&& table.dom().contains(key)
    &&& same_but_case(key, name)
    &&& forall|other: Seq<char>|
        table.dom().contains(other) && same_but_case(other, name) && other != key ==> text_less(
            key,
            other,
        )
}

/// There is one first key at most.
pub proof fn lemma_first_but_case<V>(
    table: Map<Seq<char>, V>,
    name: Seq<char>,
    a: Seq<char>,
    b: Seq<char>,
)
    requires
        first_but_case(table, name, a),
        first_but_case(table, name, b),
    ensures
        a == b,
{
    if a != b {
        lemma_text_less_transitive(a, b, a);
        lemma_text_less_irreflexive(a);
    }
}

} // verus!
