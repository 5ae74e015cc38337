//! Maps from names to values, kept in the order of the names.
use vstd::prelude::*;
use vstd::string::*;

use crate::text;

verus! {

/// A name and its value.
#[derive(Debug)]
pub struct Entry<T> {
    pub key: String,
    pub value: T,
}

/// A map from names to values, in the order of the names.
#[derive(Debug)]
pub struct OrderedMap<T> {
    pub entries: Vec<Entry<T>>,
}

/// Whether the names grow.
pub open spec fn in_order<T>(entries: Seq<Entry<T>>) -> bool {
    forall|i: int, j: int|
        0 <= i < j < entries.len() ==> text::lex_less(
            (#[trigger] entries[i]).key@,
            (#[trigger] entries[j]).key@,
        )
}

/// Whether `entries` has the name `key`.
pub open spec fn has_key<T>(entries: Seq<Entry<T>>, key: Seq<char>) -> bool {
    exists|i: int| 0 <= i < entries.len() && (#[trigger] entries[i]).key@ == key
}

/// Where `entries` has the name `key`.
pub open spec fn index_of<T>(entries: Seq<Entry<T>>, key: Seq<char>) -> int {
    choose|i: int| 0 <= i < entries.len() && (#[trigger] entries[i]).key@ == key
}

/// The map that `entries` make up.
pub open spec fn as_map<T>(entries: Seq<Entry<T>>) -> Map<Seq<char>, T> {
    Map::new(
        |key: Seq<char>| has_key(entries, key),
        |key: Seq<char>| entries[index_of(entries, key)].value,
    )
}

/// Names in order are different.
pub proof fn lemma_distinct<T>(entries: Seq<Entry<T>>, i: int, j: int)
    requires
        in_order(entries),
        0 <= i < entries.len(),
        0 <= j < entries.len(),
        entries[i].key@ == entries[j].key@,
    ensures
        i == j,
{
    if i < j {
        text::lemma_lex_irreflexive(entries[i].key@);
    } else if j < i {
        text::lemma_lex_irreflexive(entries[j].key@);
    }
}

/// The value of a name is the one that stands beside it.
pub proof fn lemma_at<T>(entries: Seq<Entry<T>>, i: int)
    requires
        in_order(entries),
        0 <= i < entries.len(),
    ensures
        as_map(entries).contains_key(entries[i].key@),
        as_map(entries)[entries[i].key@] == entries[i].value,
{
    let key = entries[i].key@;
    assert(has_key(entries, key));
    lemma_distinct(entries, i, index_of(entries, key));
}

/// The names of `entries`.
pub open spec fn keys_of<T>(entries: Seq<Entry<T>>) -> Seq<Seq<char>> {
    entries.map_values(|e: Entry<T>| e.key@)
}

proof fn lemma_inserted<T>(
    before: Seq<Entry<T>>,
    after: Seq<Entry<T>>,
    at: int,
    e: Entry<T>,
)
    requires
        in_order(before),
        0 <= at <= before.len(),
        after == before.insert(at, e),
        forall|j: int| 0 <= j < at ==> text::lex_less((#[trigger] before[j]).key@, e.key@),
        forall|j: int|
            at <= j < before.len() ==> text::lex_less(e.key@, (#[trigger] before[j]).key@),
    ensures
        in_order(after),
        !as_map(before).contains_key(e.key@),
        as_map(after) == as_map(before).insert(e.key@, e.value),
{
    assert forall|i: int, j: int| 0 <= i < j < after.len() implies text::lex_less(
        (#[trigger] after[i]).key@,
        (#[trigger] after[j]).key@,
    ) by {
        let bi = if i < at {
            i
        } else {
            i - 1
        };
        let bj = if j < at {
            j
        } else {
            j - 1
        };
        if i != at && j != at {
            assert(text::lex_less(before[bi].key@, before[bj].key@));
        } else if i == at {
            assert(text::lex_less(e.key@, before[bj].key@));
        } else {
            assert(text::lex_less(before[bi].key@, e.key@));
        }
    }
    if has_key(before, e.key@) {
        let i = index_of(before, e.key@);
        text::lemma_lex_irreflexive(e.key@);
        if i < at {
            assert(text::lex_less(before[i].key@, e.key@));
        } else {
            assert(text::lex_less(e.key@, before[i].key@));
        }
    }
    assert(after[at] == e);
    lemma_at(after, at);
    let m = as_map(before).insert(e.key@, e.value);
    assert forall|key: Seq<char>| as_map(after).contains_key(key) <==> m.contains_key(key) by {
        if has_key(before, key) {
            let i = index_of(before, key);
            let k = if i < at {
                i
            } else {
                i + 1
            };
            assert(after[k].key@ == key);
        }
        if has_key(after, key) && key != e.key@ {
            let i = index_of(after, key);
            let k = if i < at {
                i
            } else {
                i - 1
            };
            assert(before[k].key@ == key);
        }
    }
    assert forall|key: Seq<char>| as_map(after).contains_key(key) implies as_map(after)[key]
        == m[key] by {
        if key != e.key@ {
            let i = index_of(before, key);
            let k = if i < at {
                i
            } else {
                i + 1
            };
            assert(after[k] == before[i]);
            lemma_at(after, k);
            lemma_at(before, i);
        }
    }
    assert(as_map(after) =~= m);
}

proof fn lemma_removed<T>(before: Seq<Entry<T>>, after: Seq<Entry<T>>, at: int)
    requires
        in_order(before),
        0 <= at < before.len(),
        after == before.remove(at),
    ensures
        in_order(after),
        as_map(after) == as_map(before).remove(before[at].key@),
{
    assert forall|i: int, j: int| 0 <= i < j < after.len() implies text::lex_less(
        (#[trigger] after[i]).key@,
        (#[trigger] after[j]).key@,
    ) by {
        let bi = if i < at {
            i
        } else {
            i + 1
        };
        let bj = if j < at {
            j
        } else {
            j + 1
        };
        assert(text::lex_less(before[bi].key@, before[bj].key@));
    }
    let gone = before[at].key@;
    let m = as_map(before).remove(gone);
    assert forall|key: Seq<char>| as_map(after).contains_key(key) <==> m.contains_key(key) by {
        if has_key(before, key) && key != gone {
            let i = index_of(before, key);
            let k = if i < at {
                i
            } else {
                i - 1
            };
            assert(after[k].key@ == key);
        }
        if has_key(after, key) {
            let i = index_of(after, key);
            let k = if i < at {
                i
            } else {
                i + 1
            };
            assert(before[k].key@ == key);
            if key == gone {
                lemma_distinct(before, k, at);
            }
        }
    }
    assert forall|key: Seq<char>| as_map(after).contains_key(key) implies as_map(after)[key]
        == m[key] by {
        assert(m.contains_key(key));
        assert(has_key(before, key) && key != gone);
        let i = index_of(before, key);
        let k = if i < at {
            i
        } else {
            i - 1
        };
        assert(after[k] == before[i]);
        lemma_at(after, k);
        lemma_at(before, i);
    }
    assert(as_map(after) =~= m);
}

impl<T> View for OrderedMap<T> {
    type V = Map<Seq<char>, T>;

    open spec fn view(&self) -> Map<Seq<char>, T> {
        as_map(self.entries@)
    }
}

impl<T> OrderedMap<T> {
    /// The names grow.
    pub open spec fn wf(self) -> bool {
        in_order(self.entries@)
    }

    /// An empty map.
    pub fn new() -> (r: Self)
        ensures
            r.wf(),
            r.entries@.len() == 0,
            r@ == Map::<Seq<char>, T>::empty(),
    {
        let r = OrderedMap { entries: Vec::new() };
        assert(r@ =~= Map::<Seq<char>, T>::empty());
        r
    }

    /// The number of names.
    pub fn len(&self) -> (r: usize)
        ensures
            r == self.entries@.len(),
    {
        self.entries.len()
    }

    /// Where a name is, or where it would have to stand.
    fn position(&self, key: &str) -> (r: Result<usize, usize>)
        requires
            self.wf(),
        ensures
            match r {
                Ok(i) => {
                    &&& i < self.entries@.len()
                    &&& self.entries@[i as int].key@ == key@
                    &&& self@.contains_key(key@)
                    &&& self@[key@] == self.entries@[i as int].value
                },
                Err(i) => {
                    &&& i <= self.entries@.len()
                    &&& !self@.contains_key(key@)
                    &&& forall|j: int|
                        0 <= j < i ==> text::lex_less((#[trigger] self.entries@[j]).key@, key@)
                    &&& forall|j: int|
                        i <= j < self.entries@.len() ==> text::lex_less(
                            key@,
                            (#[trigger] self.entries@[j]).key@,
                        )
                },
            },
    {
        let mut i: usize = 0;
        while i < self.entries.len() && text::str_less(self.entries[i].key.as_str(), key)
            invariant
                i <= self.entries@.len(),
                forall|j: int|
                    0 <= j < i ==> text::lex_less((#[trigger] self.entries@[j]).key@, key@),
            decreases self.entries@.len() - i,
        {
            i += 1;
        }
        if i < self.entries.len() && text::str_eq(self.entries[i].key.as_str(), key) {
            proof {
                lemma_at(self.entries@, i as int);
            }
            return Ok(i);
        }
        proof {
            assert forall|j: int| i <= j < self.entries@.len() implies text::lex_less(
                key@,
                (#[trigger] self.entries@[j]).key@,
            ) by {
                text::lemma_lex_total(key@, self.entries@[i as int].key@);
                if i < j {
                    text::lemma_lex_transitive(
                        key@,
                        self.entries@[i as int].key@,
                        self.entries@[j].key@,
                    );
                }
            }
            if has_key(self.entries@, key@) {
                let k = index_of(self.entries@, key@);
                text::lemma_lex_irreflexive(key@);
                if k < i {
                    assert(text::lex_less(self.entries@[k].key@, key@));
                } else {
                    assert(text::lex_less(key@, self.entries@[k].key@));
                }
            }
        }
        Err(i)
    }

    /// Whether there is a value for the name.
    pub fn contains(&self, key: &str) -> (r: bool)
        requires
            self.wf(),
        ensures
            r == self@.contains_key(key@),
    {
        match self.position(key) {
            Ok(_) => true,
            Err(_) => false,
        }
    }

    /// Adds a name that is not there yet. Tells whether it was added.
    pub fn insert_new(&mut self, key: String, value: T) -> (r: Result<(), T>)
        requires
            old(self).wf(),
        ensures
            final(self).wf(),
            match r {
                Ok(_) => !old(self)@.contains_key(key@) && final(self)@ == old(self)@.insert(
                    key@,
                    value,
                ),
                Err(v) => old(self)@.contains_key(key@) && *final(self) == *old(self) && v == value,
            },
    {
        match self.position(key.as_str()) {
            Ok(_) => Err(value),
            Err(i) => {
                let ghost before = self.entries@;
                let e = Entry { key, value };
                self.entries.insert(i, e);
                proof {
                    lemma_inserted(before, self.entries@, i as int, e);
                }
                Ok(())
            },
        }
    }

    /// Takes a name out.
    pub fn remove(&mut self, key: &str) -> (r: Option<T>)
        requires
            old(self).wf(),
        ensures
            final(self).wf(),
            final(self)@ == old(self)@.remove(key@),
            match r {
                Some(v) => old(self)@.contains_key(key@) && v == old(self)@[key@],
                None => !old(self)@.contains_key(key@) && *final(self) == *old(self),
            },
    {
        match self.position(key) {
            Ok(i) => {
                let ghost before = self.entries@;
                let e = self.entries.remove(i);
                proof {
                    lemma_removed(before, self.entries@, i as int);
                }
                Some(e.value)
            },
            Err(_) => {
                assert(old(self)@.remove(key@) =~= old(self)@);
                None
            },
        }
    }

    /// The value of a name.
    pub fn get(&self, key: &str) -> (r: Option<&T>)
        requires
            self.wf(),
        ensures
            match r {
                Some(v) => self@.contains_key(key@) && *v == self@[key@],
                None => !self@.contains_key(key@),
            },
    {
        match self.position(key) {
            Ok(i) => Some(&self.entries[i].value),
            Err(_) => None,
        }
    }

    /// The names, in their order.
    pub fn keys(&self) -> (r: Vec<String>)
        ensures
            text::texts(r@) == keys_of(self.entries@),
    {
        let mut out: Vec<String> = Vec::new();
        let mut i: usize = 0;
        while i < self.entries.len()
            invariant
                i <= self.entries@.len(),
                text::texts(out@) == keys_of(self.entries@.take(i as int)),
            decreases self.entries@.len() - i,
        {
            let ghost before = out@;
            out.push(self.entries[i].key.clone());
            assert(text::texts(out@) =~= text::texts(before).push(self.entries@[i as int].key@));
            assert(keys_of(self.entries@.take(i + 1)) =~= keys_of(
                self.entries@.take(i as int),
            ).push(self.entries@[i as int].key@));
            i += 1;
        }
        assert(self.entries@.take(self.entries@.len() as int) =~= self.entries@);
        out
    }
}

/// The names that a map lists are those that it has, each once, in their order.
pub proof fn law_keys_are_listed_in_order<T>(entries: Seq<Entry<T>>)
    requires
        in_order(entries),
    ensures
        forall|i: int, j: int|
            0 <= i < j < keys_of(entries).len() ==> text::lex_less(
                #[trigger] keys_of(entries)[i],
                #[trigger] keys_of(entries)[j],
            ),
        forall|key: Seq<char>|
            keys_of(entries).contains(key) <==> #[trigger] as_map(entries).contains_key(key),
{
    assert forall|i: int, j: int| 0 <= i < j < keys_of(entries).len() implies text::lex_less(
        #[trigger] keys_of(entries)[i],
        #[trigger] keys_of(entries)[j],
    ) by {
        assert(text::lex_less(entries[i].key@, entries[j].key@));
    }
    assert forall|key: Seq<char>|
        keys_of(entries).contains(key) <==> #[trigger] as_map(entries).contains_key(key) by {
        if has_key(entries, key) {
            let i = index_of(entries, key);
            assert(keys_of(entries)[i] == key);
        }
        if keys_of(entries).contains(key) {
            let i = choose|i: int| 0 <= i < keys_of(entries).len() && keys_of(entries)[i] == key;
            assert(entries[i].key@ == key);
        }
    }
}

/// What was put under a name is found under it and can be taken out again; a name that is taken is
/// refused and keeps its value; nothing that is done under one name changes another.
pub proof fn law_values_are_kept_by_name<T>()
    ensures
        forall|map: &mut OrderedMap<T>, key: String, value: T, r: Result<(), T>|
            map.wf() && #[trigger] call_ensures(OrderedMap::<T>::insert_new, (map, key, value), r)
                ==> {
                &&& r is Ok <==> !has_key(map.entries@, key@)
                &&& r is Ok ==> final(map)@.contains_key(key@) && final(map)@[key@] == value
                &&& r is Err ==> final(map).entries@ == map.entries@
                &&& final(map)@.remove(key@) == map@.remove(key@)
            },
        forall|map: &mut OrderedMap<T>, key: &str, r: Option<T>|
            map.wf() && #[trigger] call_ensures(OrderedMap::<T>::remove, (map, key), r) ==> {
                &&& r is Some <==> has_key(map.entries@, key@)
                &&& r matches Some(v) ==> v == map@[key@]
                &&& !has_key(final(map).entries@, key@)
                &&& final(map)@ == map@.remove(key@)
            },
{
    assert forall|a: Map<Seq<char>, T>, k: Seq<char>, v: T| (#[trigger] a.insert(k, v)).remove(k)
        == a.remove(k) by {
        assert(a.insert(k, v).remove(k) =~= a.remove(k));
    }
    assert forall|entries: Seq<Entry<T>>, k: Seq<char>| #[trigger] has_key(entries, k) <==> as_map(
        entries,
    ).contains_key(k) by {}
}

} // verus!
