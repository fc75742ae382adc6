//! Values that can be copied by view, and dictionaries keyed by text.
use vstd::prelude::*;
use crate::text::str_eq;

verus! {

/// The views of the items of a sequence.
pub open spec fn views<T: View>(s: Seq<T>) -> Seq<T::V> {
    s.map_values(|x: T| x@)
}

/// The view of an optional value.
pub open spec fn option_view<T: View>(o: Option<T>) -> Option<T::V> {
    match o {
        Some(x) => Some(x@),
        None => None,
    }
}

/// Pushing an item pushes its view.
pub broadcast proof fn lemma_views_push<T: View>(s: Seq<T>, x: T)
    ensures
        #[trigger] views(s.push(x)) == views(s).push(x@),
{
    assert(views(s.push(x)) =~= views(s).push(x@));
}

/// A value that can be copied.
pub trait Duplicate: View + Sized {
    /// Another value with the same view.
    fn duplicate(&self) -> (r: Self)
        ensures
            r@ == self@,
    ;
}

impl Duplicate for String {
    fn duplicate(&self) -> (r: Self) {
        self.clone()
    }
}

/// A vector whose items have the same views.
pub fn duplicate_all<T: Duplicate>(v: &Vec<T>) -> (r: Vec<T>)
    ensures
        views(r@) == views(v@),
{
    let mut r: Vec<T> = Vec::new();
    let mut i: usize = 0;
    while i < v.len()
        invariant
            0 <= i <= v.len(),
            views(r@) == views(v@.take(i as int)),
        decreases v.len() - i,
    {
        let x = v[i].duplicate();
        proof {
            lemma_views_push(r@, x);
            assert(v@.take(i + 1) =~= v@.take(i as int).push(v@[i as int]));
            lemma_views_push(v@.take(i as int), v@[i as int]);
        }
        r.push(x);
        i += 1;
    }
    assert(v@.take(i as int) =~= v@);
    r
}

/// Whether a text is among the given ones.
pub fn contains_text(v: &Vec<String>, s: &str) -> (r: bool)
    ensures
        r == views(v@).contains(s@),
{
    let mut i: usize = 0;
    while i < v.len()
        invariant
            0 <= i <= v.len(),
            forall|j: int| 0 <= j < i ==> v@[j]@ != s@,
        decreases v.len() - i,
    {
        if str_eq(v[i].as_str(), s) {
            assert(views(v@)[i as int] == s@);
            return true;
        }
        i += 1;
    }
    false
}

/// The map that a list of pairs stands for: of two pairs with one key, the later one counts.
pub open spec fn map_of<V: View>(s: Seq<(String, V)>) -> Map<Seq<char>, V::V>
    decreases s.len(),
{
    if s.len() == 0 {
        Map::empty()
    } else {
        map_of(s.drop_last()).insert(s.last().0@, s.last().1@)
    }
}

/// A dictionary from text to values.
#[derive(Debug)]
pub struct Dict<V> {
    entries: Vec<(String, V)>,
}

impl<V: View> View for Dict<V> {
    type V = Map<Seq<char>, V::V>;

    closed spec fn view(&self) -> Map<Seq<char>, V::V> {
        map_of(self.entries@)
    }
}

proof fn lemma_map_of_absent<V: View>(s: Seq<(String, V)>, key: Seq<char>)
    requires
        forall|i: int| 0 <= i < s.len() ==> (#[trigger] s[i]).0@ != key,
    ensures
        !map_of(s).contains_key(key),
    decreases s.len(),
{
    if s.len() > 0 {
        lemma_map_of_absent(s.drop_last(), key);
    }
}

proof fn lemma_map_of_last<V: View>(s: Seq<(String, V)>, n: int)
    requires
        0 <= n < s.len(),
        forall|i: int| n < i < s.len() ==> (#[trigger] s[i]).0@ != s[n].0@,
    ensures
        map_of(s).contains_key(s[n].0@),
        map_of(s)[s[n].0@] == s[n].1@,
    decreases s.len(),
{
    if n < s.len() - 1 {
        lemma_map_of_last(s.drop_last(), n);
    }
}

proof fn lemma_map_of_update<V: View>(s: Seq<(String, V)>, n: int, key: String, value: V)
    requires
        0 <= n < s.len(),
        s[n].0@ == key@,
        forall|i: int| n < i < s.len() ==> (#[trigger] s[i]).0@ != key@,
    ensures
        map_of(s.update(n, (key, value))) == map_of(s).insert(key@, value@),
    decreases s.len(),
{
    let t = s.update(n, (key, value));
    if n == s.len() - 1 {
        assert(t.drop_last() =~= s.drop_last());
    } else {
        lemma_map_of_update(s.drop_last(), n, key, value);
        assert(t.drop_last() =~= s.drop_last().update(n, (key, value)));
    }
    assert(map_of(t) =~= map_of(s).insert(key@, value@));
}

proof fn lemma_map_of_domain<V: View>(s: Seq<(String, V)>)
    ensures
        forall|key: Seq<char>|
            #[trigger] map_of(s).contains_key(key) <==> exists|i: int|
                0 <= i < s.len() && (#[trigger] s[i]).0@ == key,
    decreases s.len(),
{
    if s.len() > 0 {
        let t = s.drop_last();
        lemma_map_of_domain(t);
        assert forall|key: Seq<char>| #[trigger] map_of(s).contains_key(key) implies exists|i: int|
            0 <= i < s.len() && (#[trigger] s[i]).0@ == key by {
            if key != s.last().0@ {
                assert(map_of(t).contains_key(key));
                let i = choose|i: int| 0 <= i < t.len() && (#[trigger] t[i]).0@ == key;
                assert(s[i].0@ == key);
            } else {
                assert(s[s.len() - 1].0@ == key);
            }
        }
        assert forall|key: Seq<char>|
            (exists|i: int| 0 <= i < s.len() && (#[trigger] s[i]).0@ == key) implies (
        #[trigger] map_of(s).contains_key(key)) by {
            let i = choose|i: int| 0 <= i < s.len() && (#[trigger] s[i]).0@ == key;
            if i < t.len() {
                assert(t[i].0@ == key);
                assert(map_of(t).contains_key(key));
            }
        }
    }
}

/// The position of the last pair with a key, if there is one.
fn find<V: View>(entries: &Vec<(String, V)>, key: &str) -> (r: Option<usize>)
    ensures
        match r {
            Some(n) => {
                &&& n < entries@.len()
                &&& entries@[n as int].0@ == key@
                &&& forall|i: int| n < i < entries@.len() ==> (#[trigger] entries@[i]).0@ != key@
                &&& map_of(entries@).contains_key(key@)
                &&& map_of(entries@)[key@] == entries@[n as int].1@
            },
            None => {
                &&& forall|i: int| 0 <= i < entries@.len() ==> (#[trigger] entries@[i]).0@ != key@
                &&& !map_of(entries@).contains_key(key@)
            },
        },
{
    let mut i: usize = entries.len();
    while i > 0
        invariant
            0 <= i <= entries@.len(),
            forall|j: int| i <= j < entries@.len() ==> (#[trigger] entries@[j]).0@ != key@,
        decreases i,
    {
        i -= 1;
        if str_eq(entries[i].0.as_str(), key) {
            proof {
                lemma_map_of_last(entries@, i as int);
            }
            return Some(i);
        }
    }
    proof {
        lemma_map_of_absent(entries@, key@);
    }
    None
}

/// The value that a list of pairs gives to a key.
pub fn lookup<'a, V: View>(entries: &'a Vec<(String, V)>, key: &str) -> (r: Option<&'a V>)
    ensures
        match r {
            Some(v) => map_of(entries@).contains_key(key@) && v@ == map_of(entries@)[key@],
            None => !map_of(entries@).contains_key(key@),
        },
{
    match find(entries, key) {
        Some(n) => Some(&entries[n].1),
        None => None,
    }
}

impl<V> Dict<V> {
    /// No key has two entries.
    #[verifier::type_invariant]
    spec fn unique_keys(self) -> bool {
        forall|i: int, j: int|
            0 <= i < j < self.entries@.len() ==> (#[trigger] self.entries@[i]).0@ != (
            #[trigger] self.entries@[j]).0@
    }
}

impl<V: View> Dict<V> {
    /// A dictionary without entries.
    pub fn new() -> (r: Self)
        ensures
            r@ == Map::<Seq<char>, V::V>::empty(),
    {
        Dict { entries: Vec::new() }
    }

    /// The value of a key.
    pub fn get(&self, key: &str) -> (r: Option<&V>)
        ensures
            match r {
                Some(v) => self@.contains_key(key@) && v@ == self@[key@],
                None => !self@.contains_key(key@),
            },
    {
        lookup(&self.entries, key)
    }

    /// Whether a key has a value.
    pub fn contains_key(&self, key: &str) -> (r: bool)
        ensures
            r == self@.contains_key(key@),
    {
        self.get(key).is_some()
    }

    /// Gives a key a value, in place of the one it had.
    pub fn insert(&mut self, key: String, value: V)
        ensures
            final(self)@ == old(self)@.insert(key@, value@),
    {
        proof {
            use_type_invariant(&*self);
        }
        let ghost before = self.entries@;
        let mut entries: Vec<(String, V)> = Vec::new();
        std::mem::swap(&mut entries, &mut self.entries);
        match find(&entries, key.as_str()) {
            Some(n) => {
                proof {
                    lemma_map_of_update(before, n as int, key, value);
                }
                entries.set(n, (key, value));
                assert(entries@ =~= before.update(n as int, (key, value)));
            },
            None => {
                entries.push((key, value));
                assert(entries@.drop_last() =~= before);
            },
        }
        self.entries = entries;
    }

    /// Adds the entries of a list, one after the other.
    pub fn extend(&mut self, entries: &Vec<(String, V)>) where V: Duplicate
        ensures
            final(self)@ == old(self)@.union_prefer_right(map_of(entries@)),
    {
        let mut i: usize = 0;
        let ghost before = self@;
        assert(map_of(entries@.take(0)) =~= Map::<Seq<char>, V::V>::empty());
        assert(before.union_prefer_right(map_of(entries@.take(0))) =~= before);
        while i < entries.len()
            invariant
                0 <= i <= entries.len(),
                self@ == before.union_prefer_right(map_of(entries@.take(i as int))),
            decreases entries.len() - i,
        {
            assert(entries@.take(i + 1).drop_last() =~= entries@.take(i as int));
            self.insert(entries[i].0.clone(), entries[i].1.duplicate());
            i += 1;
            assert(self@ =~= before.union_prefer_right(map_of(entries@.take(i as int))));
        }
        assert(entries@.take(i as int) =~= entries@);
    }

    /// The dictionary of a list of pairs.
    pub fn from_entries(entries: Vec<(String, V)>) -> (r: Self) where V: Duplicate
        ensures
            r@ == map_of(entries@),
    {
        let mut r: Dict<V> = Dict::new();
        r.extend(&entries);
        assert(r@ =~= map_of(entries@));
        r
    }

    /// The keys, each of them once.
    pub fn keys(&self) -> (r: Vec<String>)
        ensures
            views(r@).no_duplicates(),
            views(r@).to_set() == self@.dom(),
    {
        proof {
            use_type_invariant(&*self);
            lemma_map_of_domain(self.entries@);
        }
        let mut r: Vec<String> = Vec::new();
        let mut i: usize = 0;
        while i < self.entries.len()
            invariant
                0 <= i <= self.entries@.len(),
                r@.len() == i,
                forall|j: int| 0 <= j < i ==> (#[trigger] r@[j])@ == self.entries@[j].0@,
            decreases self.entries@.len() - i,
        {
            r.push(self.entries[i].0.clone());
            i += 1;
        }
        proof {
            let keys = views(r@);
            assert forall|key: Seq<char>| #[trigger]
                keys.to_set().contains(key) <==> self@.dom().contains(key) by {
                if keys.contains(key) {
                    let j = choose|j: int| 0 <= j < keys.len() && keys[j] == key;
                    assert(self.entries@[j].0@ == key);
                }
                if self@.contains_key(key) {
                    let j = choose|j: int|
                        0 <= j < self.entries@.len() && (#[trigger] self.entries@[j]).0@ == key;
                    assert(keys[j] == key);
                }
            }
            assert(keys.to_set() =~= self@.dom());
        }
        r
    }
}

impl<V: Duplicate> Duplicate for Dict<V> {
    fn duplicate(&self) -> (r: Self) {
        let mut r: Dict<V> = Dict::new();
        r.extend(&self.entries);
        assert(r@ =~= self@);
        r
    }
}

/// A list of pairs has the keys of its pairs.
pub proof fn law_pairs_have_their_keys<V: View>(s: Seq<(String, V)>, key: Seq<char>)
    ensures
        map_of(s).contains_key(key) <==> exists|i: int|
            0 <= i < s.len() && (#[trigger] s[i]).0@ == key,
    decreases s.len(),
{
    if s.len() > 0 {
        let t = s.drop_last();
        law_pairs_have_their_keys(t, key);
        if s.last().0@ == key {
            assert(s[s.len() - 1].0@ == key);
        } else if exists|i: int| 0 <= i < s.len() && (#[trigger] s[i]).0@ == key {
            let i = choose|i: int| 0 <= i < s.len() && (#[trigger] s[i]).0@ == key;
            assert(t[i].0@ == key);
        } else if exists|i: int| 0 <= i < t.len() && (#[trigger] t[i]).0@ == key {
            let i = choose|i: int| 0 <= i < t.len() && (#[trigger] t[i]).0@ == key;
            assert(s[i].0@ == key);
        }
    }
}

/// Of two pairs with one key, the later one counts.
pub proof fn law_last_pair_counts<V: View>(s: Seq<(String, V)>, i: int)
    requires
        0 <= i < s.len(),
        forall|j: int| i < j < s.len() ==> (#[trigger] s[j]).0@ != s[i].0@,
    ensures
        map_of(s)[s[i].0@] == s[i].1@,
    decreases s.len(),
{
    let t = s.drop_last();
    if i < t.len() {
        assert(s[s.len() - 1].0@ != s[i].0@);
        assert(t[i] == s[i]);
        assert forall|j: int| i < j < t.len() implies (#[trigger] t[j]).0@ != t[i].0@ by {
            assert(s[j].0@ != s[i].0@);
        }
        law_last_pair_counts(t, i);
    }
}

} // verus!
