//! The string-to-string map carried in a control datagram.
use vstd::prelude::*;
use vstd::string::*;

verus! {

/// The map that a list of key/value pairs denotes; a later pair overrides an earlier one.
pub open spec fn map_of<K, V>(es: Seq<(K, V)>) -> Map<K, V>
    decreases es.len(),
{
    if es.len() == 0 {
        Map::empty()
    } else {
        map_of(es.drop_last()).insert(es.last().0, es.last().1)
    }
}

/// No key occurs twice among the pairs.
pub open spec fn keys_distinct<K, V>(es: Seq<(K, V)>) -> bool {
    forall|i: int, j: int| 0 <= i < es.len() && 0 <= j < es.len() && i != j ==> es[i].0 != es[j].0
}

/// With distinct keys, every pair is found in the map.
pub proof fn lemma_map_of_entry<K, V>(es: Seq<(K, V)>, i: int)
    requires
        keys_distinct(es),
        0 <= i < es.len(),
    ensures
        map_of(es).contains_key(es[i].0),
        map_of(es)[es[i].0] == es[i].1,
    decreases es.len(),
{
    if i < es.len() - 1 {
        lemma_map_of_entry(es.drop_last(), i);
        assert(es.drop_last()[i] == es[i]);
    }
}

/// A key that no pair carries is not in the map.
pub proof fn lemma_map_of_absent<K, V>(es: Seq<(K, V)>, k: K)
    requires
        forall|i: int| 0 <= i < es.len() ==> es[i].0 != k,
    ensures
        !map_of(es).contains_key(k),
    decreases es.len(),
{
    if es.len() > 0 {
        lemma_map_of_absent(es.drop_last(), k);
    }
}

/// A key in the map is carried by some pair.
pub proof fn lemma_map_of_present<K, V>(es: Seq<(K, V)>, k: K)
    requires
        map_of(es).contains_key(k),
    ensures
        exists|i: int| 0 <= i < es.len() && es[i].0 == k,
{
    if forall|i: int| 0 <= i < es.len() ==> es[i].0 != k {
        lemma_map_of_absent(es, k);
    }
}

/// Replacing the value of an existing key updates the map at that key.
pub proof fn lemma_map_of_update<K, V>(es: Seq<(K, V)>, i: int, k: K, v: V)
    requires
        keys_distinct(es),
        0 <= i < es.len(),
        es[i].0 == k,
    ensures
        keys_distinct(es.update(i, (k, v))),
        map_of(es.update(i, (k, v))) == map_of(es).insert(k, v),
{
    let ns = es.update(i, (k, v));
    let m1 = map_of(ns);
    let m2 = map_of(es).insert(k, v);
    assert forall|q: K| #[trigger] m1.contains_key(q) <==> m2.contains_key(q) by {
        if q == k {
            lemma_map_of_entry(ns, i);
        } else if exists|j: int| 0 <= j < es.len() && es[j].0 == q {
            let j = choose|j: int| 0 <= j < es.len() && es[j].0 == q;
            lemma_map_of_entry(ns, j);
            lemma_map_of_entry(es, j);
        } else {
            lemma_map_of_absent(ns, q);
            lemma_map_of_absent(es, q);
        }
    }
    assert forall|q: K| m1.contains_key(q) implies #[trigger] m1[q] == m2[q] by {
        if q == k {
            lemma_map_of_entry(ns, i);
        } else {
            lemma_map_of_present(ns, q);
            let j = choose|j: int| 0 <= j < ns.len() && ns[j].0 == q;
            lemma_map_of_entry(ns, j);
            lemma_map_of_entry(es, j);
        }
    }
    assert(m1 =~= m2);
}

/// With distinct keys, the map has one key per pair.
pub proof fn lemma_map_of_len<K, V>(es: Seq<(K, V)>)
    requires
        keys_distinct(es),
    ensures
        map_of(es).dom().finite(),
        map_of(es).dom().len() == es.len(),
    decreases es.len(),
{
    if es.len() > 0 {
        let init = es.drop_last();
        assert(keys_distinct(init));
        lemma_map_of_len(init);
        assert forall|i: int| 0 <= i < init.len() implies init[i].0 != es.last().0 by {
            assert(init[i] == es[i]);
        }
        lemma_map_of_absent(init, es.last().0);
    }
}

/// Appending a pair with a new key keeps the keys distinct and adds that key to the map.
pub proof fn lemma_map_of_push<K, V>(es: Seq<(K, V)>, k: K, v: V)
    requires
        keys_distinct(es),
        !map_of(es).contains_key(k),
    ensures
        keys_distinct(es.push((k, v))),
        map_of(es.push((k, v))) == map_of(es).insert(k, v),
{
    let ns = es.push((k, v));
    assert(ns.drop_last() =~= es);
    assert forall|i: int, j: int| 0 <= i < ns.len() && 0 <= j < ns.len() && i != j implies ns[i].0
        != ns[j].0 by {
        if i < es.len() && j < es.len() {
            assert(ns[i] == es[i] && ns[j] == es[j]);
        } else if i < es.len() {
            assert(ns[i] == es[i]);
            lemma_map_of_entry(es, i);
        } else if j < es.len() {
            assert(ns[j] == es[j]);
            lemma_map_of_entry(es, j);
        }
    }
}

/// Equality of two strings, by their UTF-8 bytes.
pub fn str_equal(a: &str, b: &str) -> (res: bool)
    ensures
        res == (a@ == b@),
{
    let ab = a.as_bytes();
    let bb = b.as_bytes();
    proof {
        vstd::utf8::encode_utf8_decode_utf8(a@);
        vstd::utf8::encode_utf8_decode_utf8(b@);
    }
    if ab.len() != bb.len() {
        return false;
    }
    let mut i: usize = 0;
    while i < ab.len()
        invariant
            ab@.len() == bb@.len(),
            i <= ab@.len(),
            ab@ == a.spec_bytes(),
            bb@ == b.spec_bytes(),
            forall|k: int| 0 <= k < i ==> ab@[k] == bb@[k],
        decreases ab@.len() - i,
    {
        if ab[i] != bb[i] {
            return false;
        }
        i = i + 1;
    }
    assert(ab@ =~= bb@);
    true
}

/// A map from strings to strings, kept as a list of pairs with distinct keys.
#[derive(Debug)]
pub struct Content {
    entries: Vec<(String, String)>,
}

impl Content {
    /// The pairs, each as a pair of character sequences.
    pub closed spec fn pairs_view(self) -> Seq<(Seq<char>, Seq<char>)> {
        self.entries@.map_values(|e: (String, String)| (e.0@, e.1@))
    }

    #[verifier::type_invariant]
    closed spec fn well_formed(self) -> bool {
        keys_distinct(self.pairs_view())
    }
}

impl View for Content {
    type V = Map<Seq<char>, Seq<char>>;

    closed spec fn view(&self) -> Map<Seq<char>, Seq<char>> {
        map_of(self.pairs_view())
    }
}

impl Content {
    /// An empty map.
    pub fn new() -> (res: Content)
        ensures
            res@ == Map::<Seq<char>, Seq<char>>::empty(),
    {
        let res = Content { entries: Vec::new() };
        assert(res.pairs_view() =~= Seq::<(Seq<char>, Seq<char>)>::empty());
        res
    }

    /// Position of the pair whose key is `key`, if there is one.
    fn position(&self, key: &str) -> (res: Option<usize>)
        ensures
            match res {
                Some(i) => i < self.pairs_view().len() && self.pairs_view()[i as int].0 == key@,
                None => forall|i: int|
                    0 <= i < self.pairs_view().len() ==> self.pairs_view()[i].0 != key@,
            },
    {
        let mut i: usize = 0;
        while i < self.entries.len()
            invariant
                i <= self.entries@.len(),
                self.pairs_view().len() == self.entries@.len(),
                forall|k: int| 0 <= k < i ==> self.pairs_view()[k].0 != key@,
            decreases self.entries@.len() - i,
        {
            if str_equal(self.entries[i].0.as_str(), key) {
                return Some(i);
            }
            i = i + 1;
        }
        None
    }

    /// The value stored under `key` (`HashMap::get`).
    pub fn get(&self, key: &str) -> (res: Option<&String>)
        ensures
            match res {
                Some(v) => self@.contains_key(key@) && v@ == self@[key@],
                None => !self@.contains_key(key@),
            },
    {
        proof {
            use_type_invariant(self);
        }
        match self.position(key) {
            Some(i) => {
                proof {
                    lemma_map_of_entry(self.pairs_view(), i as int);
                }
                Some(&self.entries[i].1)
            },
            None => {
                proof {
                    lemma_map_of_absent(self.pairs_view(), key@);
                }
                None
            },
        }
    }

    /// Whether `key` is stored (`HashMap::contains_key`).
    pub fn contains_key(&self, key: &str) -> (res: bool)
        ensures
            res == self@.contains_key(key@),
    {
        self.get(key).is_some()
    }

    /// Stores `value` under `key`, replacing any earlier value (`HashMap::insert`).
    pub fn insert(&mut self, key: String, value: String)
        ensures
            final(self)@ == old(self)@.insert(key@, value@),
    {
        proof {
            use_type_invariant(&*self);
        }
        let ghost old_pairs = self.pairs_view();
        let pos = self.position(key.as_str());
        let ghost k = key@;
        let ghost v = value@;
        let mut entries = Vec::new();
        std::mem::swap(&mut entries, &mut self.entries);
        match pos {
            Some(i) => {
                entries.set(i, (key, value));
                let ghost new_pairs = entries@.map_values(|e: (String, String)| (e.0@, e.1@));
                assert(new_pairs =~= old_pairs.update(i as int, (k, v)));
                proof {
                    lemma_map_of_update(old_pairs, i as int, k, v);
                }
            },
            None => {
                entries.push((key, value));
                let ghost new_pairs = entries@.map_values(|e: (String, String)| (e.0@, e.1@));
                assert(new_pairs =~= old_pairs.push((k, v)));
                assert(new_pairs.drop_last() =~= old_pairs);
            },
        }
        self.entries = entries;
    }

    /// The stored pairs, in no particular order; each key occurs once.
    pub fn pairs(&self) -> (res: &Vec<(String, String)>)
        ensures
            map_of(res@.map_values(|e: (String, String)| (e.0@, e.1@))) == self@,
            keys_distinct(res@.map_values(|e: (String, String)| (e.0@, e.1@))),
    {
        proof {
            use_type_invariant(self);
        }
        &self.entries
    }
}


impl Clone for Content {
    /// A copy with the same pairs.
    fn clone(&self) -> (res: Self)
        ensures
            res@ == self@,
    {
        proof {
            use_type_invariant(self);
        }
        let mut entries: Vec<(String, String)> = Vec::new();
        let mut i: usize = 0;
        while i < self.entries.len()
            invariant
                i <= self.entries@.len(),
                entries@.map_values(|e: (String, String)| (e.0@, e.1@)) == self.pairs_view().take(
                    i as int,
                ),
            decreases self.entries@.len() - i,
        {
            let k = self.entries[i].0.clone();
            let v = self.entries[i].1.clone();
            let ghost before = entries@;
            assert(self.pairs_view()[i as int] == (k@, v@));
            entries.push((k, v));
            assert(entries@.map_values(|e: (String, String)| (e.0@, e.1@)) =~= before.map_values(
                |e: (String, String)| (e.0@, e.1@),
            ).push((k@, v@)));
            assert(entries@.map_values(|e: (String, String)| (e.0@, e.1@)) =~= self.pairs_view().take(
                i + 1,
            ));
            i = i + 1;
        }
        assert(self.pairs_view().take(i as int) =~= self.pairs_view());
        Content { entries }
    }
}

} // verus!
