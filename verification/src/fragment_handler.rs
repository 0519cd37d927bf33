//! Reassembling the text of a control datagram from its fragments.
use vstd::prelude::*;
use vstd::string::*;
use crate::content::{keys_distinct, lemma_map_of_absent, lemma_map_of_entry, lemma_map_of_len,
    lemma_map_of_push, lemma_map_of_update, map_of, str_equal};
use crate::control_datagram::ControlDatagram;
use crate::fragmentation::{can_fragment, concat, fragment_content, fragment_data, fragment_of,
    fragment_pieces, law_fragments_rejoin};
use crate::digest::sha256_hex;
use crate::fragmentation::{half_content, half_point, is_half_cut, quote_marked};
use crate::text::{decimal, lemma_decimal_parses, lemma_padded_decimal_parses, parse_i32, spec_parse_i32,
    zero_padded};

verus! {

/// The stored fragments: the data of each, keyed by index and digest
/// (`None` for a fragment that carried no data).
pub type FragmentStore = Map<(i32, Seq<char>), Option<Seq<char>>>;

/// Fragments `0..n` of the text with digest `digest` are all stored.
pub open spec fn all_present(store: FragmentStore, digest: Seq<char>, n: int) -> bool {
    forall|i: int| 0 <= i < n ==> #[trigger] store.contains_key((i as i32, digest))
}

/// The data of fragments `0..n` of `digest`, joined in index order.
pub open spec fn joined_data(store: FragmentStore, digest: Seq<char>, n: nat) -> Seq<char>
    decreases n,
{
    if n == 0 {
        Seq::empty()
    } else {
        joined_data(store, digest, (n - 1) as nat) + store[((n - 1) as i32, digest)].unwrap()
    }
}

/// The text of `digest` once all `length` fragments are stored, `None` while one is missing.
pub open spec fn assembled(store: FragmentStore, digest: Seq<char>, length: i32) -> Option<Seq<char>> {
    if length <= 0 {
        Some(Seq::empty())
    } else if all_present(store, digest, length as int) {
        Some(joined_data(store, digest, length as nat))
    } else {
        None
    }
}

/// Every fragment that assembling reads (those before the first missing one) carries data.
pub open spec fn data_ready(store: FragmentStore, digest: Seq<char>, length: i32) -> bool {
    forall|i: int|
        0 <= i < length && all_present(store, digest, i + 1) ==> #[trigger] store[(
            i as i32,
            digest,
        )] is Some
}

/// How many fragments the handler keeps before it forgets them all.
pub open spec fn store_limit() -> nat {
    512
}

/// The data field of a fragment, if it has one.
pub open spec fn data_field(f: Map<Seq<char>, Seq<char>>) -> Option<Seq<char>> {
    if f.contains_key("data"@) {
        Some(f["data"@])
    } else {
        None
    }
}

/// The store after taking fragment `f` with parsed `index`.
pub open spec fn stored_with(store: FragmentStore, f: Map<Seq<char>, Seq<char>>, index: i32) -> FragmentStore {
    let s1 = store.insert((index, f["digest"@]), data_field(f));
    if s1.dom().len() > store_limit() {
        Map::empty()
    } else {
        s1
    }
}

/// What receiving the fragment with fields `f` does: the new store, and the assembled text
/// once every fragment of its digest is there.
pub open spec fn fragment_step(store: FragmentStore, f: Map<Seq<char>, Seq<char>>) -> (
    FragmentStore,
    Option<Seq<char>>,
) {
    if f["contentType"@] != "control_datagram"@ {
        (store, None)
    } else {
        match spec_parse_i32(f["index"@]) {
            None => (store, None),
            Some(index) => match spec_parse_i32(f["length"@]) {
                None => (store, None),
                Some(length) => {
                    let s = stored_with(store, f, index);
                    (s, assembled(s, f["digest"@], length))
                },
            },
        }
    }
}

/// Receiving `f` reads only fields it has.
pub open spec fn fragment_accepted(store: FragmentStore, f: Map<Seq<char>, Seq<char>>) -> bool {
    &&& f.contains_key("contentType"@)
    &&& f["contentType"@] == "control_datagram"@ ==> {
        &&& f.contains_key("index"@)
        &&& spec_parse_i32(f["index"@]) is Some ==> {
            &&& f.contains_key("length"@)
            &&& spec_parse_i32(f["length"@]) is Some ==> {
                &&& f.contains_key("digest"@)
                &&& data_ready(
                    stored_with(store, f, spec_parse_i32(f["index"@]).unwrap()),
                    f["digest"@],
                    spec_parse_i32(f["length"@]).unwrap(),
                )
            }
        }
    }
}

/// Collects fragments until all fragments of a datagram have arrived.
pub struct FragmentHandler {
    fragments: Vec<(i32, String, Option<String>)>,
}

/// The key and data of a stored entry.
pub open spec fn entry_view(e: (i32, String, Option<String>)) -> ((i32, Seq<char>), Option<Seq<char>>) {
    ((e.0, e.1@), e.2.deep_view())
}

impl FragmentHandler {
    /// The stored entries.
    pub closed spec fn entries_view(self) -> Seq<((i32, Seq<char>), Option<Seq<char>>)> {
        self.fragments@.map_values(|e: (i32, String, Option<String>)| entry_view(e))
    }

    #[verifier::type_invariant]
    closed spec fn well_formed(self) -> bool {
        keys_distinct(self.entries_view())
    }
}

impl View for FragmentHandler {
    type V = FragmentStore;

    closed spec fn view(&self) -> FragmentStore {
        map_of(self.entries_view())
    }
}

impl FragmentHandler {
    /// A handler with no fragments.
    pub fn new() -> (res: FragmentHandler)
        ensures
            res@ == FragmentStore::empty(),
    {
        let res = FragmentHandler { fragments: Vec::new() };
        assert(res.entries_view() =~= Seq::<((i32, Seq<char>), Option<Seq<char>>)>::empty());
        res
    }

    /// Position of the entry with key `(index, digest)`.
    fn position(&self, index: i32, digest: &str) -> (res: Option<usize>)
        ensures
            match res {
                Some(i) => i < self.entries_view().len() && self.entries_view()[i as int].0 == (
                    index,
                    digest@,
                ),
                None => forall|i: int|
                    0 <= i < self.entries_view().len() ==> self.entries_view()[i].0 != (
                        index,
                        digest@,
                    ),
            },
    {
        let mut i: usize = 0;
        while i < self.fragments.len()
            invariant
                i <= self.fragments@.len(),
                self.entries_view().len() == self.fragments@.len(),
                forall|k: int| 0 <= k < i ==> self.entries_view()[k].0 != (index, digest@),
            decreases self.fragments@.len() - i,
        {
            if self.fragments[i].0 == index && str_equal(self.fragments[i].1.as_str(), digest) {
                return Some(i);
            }
            i = i + 1;
        }
        None
    }

    /// The data stored under `(index, digest)`.
    fn lookup(&self, index: i32, digest: &str) -> (res: Option<&Option<String>>)
        ensures
            match res {
                Some(d) => self@.contains_key((index, digest@)) && d.deep_view() == self@[(
                    index,
                    digest@,
                )],
                None => !self@.contains_key((index, digest@)),
            },
    {
        proof {
            use_type_invariant(self);
        }
        match self.position(index, digest) {
            Some(i) => {
                proof {
                    lemma_map_of_entry(self.entries_view(), i as int);
                }
                Some(&self.fragments[i].2)
            },
            None => {
                proof {
                    lemma_map_of_absent(self.entries_view(), (index, digest@));
                }
                None
            },
        }
    }

    /// Number of stored fragments.
    fn stored(&self) -> (res: usize)
        ensures
            res == self@.dom().len(),
            self@.dom().finite(),
    {
        proof {
            use_type_invariant(self);
            lemma_map_of_len(self.entries_view());
        }
        self.fragments.len()
    }

    /// Stores `data` under `(index, digest)`, replacing what was there.
    fn store(&mut self, index: i32, digest: String, data: Option<String>)
        ensures
            final(self)@ == old(self)@.insert((index, digest@), data.deep_view()),
    {
        proof {
            use_type_invariant(&*self);
        }
        let ghost old_entries = self.entries_view();
        let pos = self.position(index, digest.as_str());
        let ghost key = (index, digest@);
        let ghost value = data.deep_view();
        let mut entries = Vec::new();
        std::mem::swap(&mut entries, &mut self.fragments);
        match pos {
            Some(i) => {
                entries.set(i, (index, digest, data));
                proof {
                    assert(entries@.map_values(|e: (i32, String, Option<String>)| entry_view(e))
                        =~= old_entries.update(i as int, (key, value)));
                    lemma_map_of_update(old_entries, i as int, key, value);
                }
            },
            None => {
                entries.push((index, digest, data));
                proof {
                    assert(entries@.map_values(|e: (i32, String, Option<String>)| entry_view(e))
                        =~= old_entries.push((key, value)));
                    lemma_map_of_absent(old_entries, key);
                    lemma_map_of_push(old_entries, key, value);
                }
            },
        }
        self.fragments = entries;
    }

    /// Forgets every fragment.
    fn clear(&mut self)
        ensures
            final(self)@ == FragmentStore::empty(),
    {
        self.fragments = Vec::new();
        assert(self.entries_view() =~= Seq::<((i32, Seq<char>), Option<Seq<char>>)>::empty());
    }

    /// Joins the data of fragments `0..length` of `digest`, or `None` when one is missing.
    fn assemble(&self, digest: &str, length: i32) -> (res: Option<String>)
        requires
            data_ready(self@, digest@, length),
        ensures
            res.deep_view() == assembled(self@, digest@, length),
    {
        let mut full = String::new();
        let mut i: i32 = 0;
        while i < length
            invariant
                0 <= i,
                i <= length || length <= 0,
                data_ready(self@, digest@, length),
                all_present(self@, digest@, i as int),
                full@ == joined_data(self@, digest@, i as nat),
            decreases length - i,
        {
            match self.lookup(i, digest) {
                None => {
                    proof {
                        assert(!self@.contains_key((i as int as i32, digest@)));
                    }
                    return None;
                },
                Some(data) => {
                    proof {
                        assert(all_present(self@, digest@, i + 1));
                        assert(self@[(i as int as i32, digest@)] is Some);
                    }
                    match data {
                        Some(d) => full.append(d.as_str()),
                        None => {
                            return None;
                        },
                    }
                },
            }
            i = i + 1;
        }
        if length <= 0 {
            return Some(String::new());
        }
        Some(full)
    }

    /// Takes a received `fragment`; returns the text of the datagram it belongs to once all its
    /// fragments have arrived. A fragment whose content type is not `control_datagram`, or whose
    /// index or length does not parse, is ignored. When more than 512 fragments are held, all
    /// are forgotten.
    pub fn get_complete_datagram(&mut self, fragment: ControlDatagram) -> (res: Option<String>)
        requires
            fragment_accepted(old(self)@, fragment.content@),
        ensures
            (final(self)@, res.deep_view()) == fragment_step(old(self)@, fragment.content@),
    {
        let content_type = fragment.content.get("contentType").unwrap();
        if !str_equal(content_type.as_str(), "control_datagram") {
            return None;
        }
        let index = match parse_i32(fragment.content.get("index").unwrap().as_str()) {
            Some(i) => i,
            None => {
                return None;
            },
        };
        let length = match parse_i32(fragment.content.get("length").unwrap().as_str()) {
            Some(l) => l,
            None => {
                return None;
            },
        };
        let digest = fragment.content.get("digest").unwrap().clone();
        let data = match fragment.content.get("data") {
            Some(d) => Some(d.clone()),
            None => None,
        };
        let ghost f = fragment.content@;
        self.store(index, digest.clone(), data);
        if self.stored() > 512 {
            self.clear();
        }
        assert(self@ == stored_with(old(self)@, f, index));
        self.assemble(digest.as_str(), length)
    }

    /// Whether receiving `fragment` reads only fields it has (`fragment_accepted`).
    pub fn accepts(&self, fragment: &ControlDatagram) -> (res: bool)
        ensures
            res == fragment_accepted(self@, fragment.content@),
    {
        let content_type = match fragment.content.get("contentType") {
            Some(c) => c,
            None => {
                return false;
            },
        };
        if !str_equal(content_type.as_str(), "control_datagram") {
            return true;
        }
        let index = match fragment.content.get("index") {
            None => {
                return false;
            },
            Some(t) => match parse_i32(t.as_str()) {
                None => {
                    return true;
                },
                Some(i) => i,
            },
        };
        let length = match fragment.content.get("length") {
            None => {
                return false;
            },
            Some(t) => match parse_i32(t.as_str()) {
                None => {
                    return true;
                },
                Some(l) => l,
            },
        };
        let digest = match fragment.content.get("digest") {
            None => {
                return false;
            },
            Some(d) => d,
        };
        let has_data = fragment.content.contains_key("data");
        let ghost f = fragment.content@;
        let ghost s1 = self@.insert((index, digest@), data_field(f));
        // Would the store be cleared?
        let n = self.stored();
        let is_new = self.lookup(index, digest.as_str()).is_none();
        proof {
            vstd::set::axiom_set_insert_len(self@.dom(), (index, digest@));
            if is_new {
                assert(s1.dom() =~= self@.dom().insert((index, digest@)));
            } else {
                assert(s1.dom() =~= self@.dom());
            }
        }
        if (is_new && n >= 512) || (!is_new && n > 512) {
            proof {
                let e = stored_with(self@, f, index);
                assert(e == FragmentStore::empty());
                assert forall|k: int|
                    0 <= k < length && all_present(e, digest@, k + 1) implies #[trigger] e[(
                    k as i32,
                    digest@,
                )] is Some by {
                    assert(e.contains_key((0int as i32, digest@)));
                }
            }
            return true;
        }
        let ghost s = stored_with(self@, f, index);
        assert(s == s1);
        let mut i: i32 = 0;
        while i < length
            invariant
                0 <= i,
                i <= length || length <= 0,
                s == self@.insert((index, digest@), data_field(f)),
                s == stored_with(self@, f, index),
                f == fragment.content@,
                f.contains_key("contentType"@),
                f["contentType"@] == "control_datagram"@,
                f.contains_key("index"@),
                f.contains_key("length"@),
                f.contains_key("digest"@),
                spec_parse_i32(f["index"@]) == Some(index),
                spec_parse_i32(f["length"@]) == Some(length),
                f["digest"@] == digest@,
                has_data == f.contains_key("data"@),
                all_present(s, digest@, i as int),
                forall|k: int| 0 <= k < i ==> #[trigger] s[(k as i32, digest@)] is Some,
            decreases length - i,
        {
            let ghost key = (i as int as i32, digest@);
            if i == index {
                if !has_data {
                    proof {
                        assert(s[key] is None);
                        assert(all_present(s, digest@, i + 1));
                    }
                    return false;
                }
            } else {
                match self.lookup(i, digest.as_str()) {
                    None => {
                        proof {
                            assert(!s.contains_key(key));
                            assert forall|k: int|
                                0 <= k < length && all_present(s, digest@, k + 1) implies #[trigger] s[(
                                k as i32,
                                digest@,
                            )] is Some by {
                                if k >= i {
                                    assert(s.contains_key((i as int as i32, digest@)));
                                }
                            }
                        }
                        return true;
                    },
                    Some(d) => {
                        if d.is_none() {
                            proof {
                                assert(s[key] is None);
                                assert(all_present(s, digest@, i + 1));
                            }
                            return false;
                        }
                    },
                }
            }
            i = i + 1;
        }
        true
    }
}


/// The fields of a fragment, read back.
pub proof fn lemma_fragment_fields(
    digest: Seq<char>,
    content_type: Seq<char>,
    index: u16,
    length: u16,
    data: Seq<char>,
)
    ensures
        ({
            let f = fragment_content(digest, content_type, index, length, data);
            &&& f.contains_key("digest"@) && f["digest"@] == digest
            &&& f.contains_key("contentType"@) && f["contentType"@] == content_type
            &&& f.contains_key("index"@) && f["index"@] == zero_padded(decimal(index as nat), 5)
            &&& f.contains_key("length"@) && f["length"@] == zero_padded(decimal(length as nat), 5)
            &&& f.contains_key("data"@) && f["data"@] == data
            &&& spec_parse_i32(f["index"@]) == Some(index as i32)
            &&& spec_parse_i32(f["length"@]) == Some(length as i32)
        }),
{
    reveal_strlit("digest");
    reveal_strlit("contentType");
    reveal_strlit("index");
    reveal_strlit("length");
    reveal_strlit("data");
    assert("digest"@[0] != "contentType"@[0]);
    assert("digest"@[0] != "index"@[0]);
    assert("digest"@[0] != "length"@[0]);
    assert("digest"@[1] != "data"@[1]);
    assert("contentType"@[0] != "index"@[0]);
    assert("contentType"@[0] != "length"@[0]);
    assert("contentType"@[0] != "data"@[0]);
    assert("index"@[0] != "length"@[0]);
    assert("index"@[0] != "data"@[0]);
    assert("length"@[0] != "data"@[0]);
    lemma_padded_decimal_parses(index as nat, 5);
    lemma_padded_decimal_parses(length as nat, 5);
}

/// The store of a fresh handler after it has received fragments `0..k` of `json`.
pub open spec fn fragments_received(
    json: Seq<char>,
    datagram_max_size: u16,
    empty_fragment_size: nat,
    k: nat,
) -> FragmentStore
    decreases k,
{
    if k == 0 {
        FragmentStore::empty()
    } else {
        fragments_received(json, datagram_max_size, empty_fragment_size, (k - 1) as nat).insert(
            ((k - 1) as i32, sha256_hex(quote_marked(json))),
            Some(fragment_data(json, datagram_max_size, empty_fragment_size, k - 1)),
        )
    }
}

proof fn lemma_fragments_received(
    json: Seq<char>,
    datagram_max_size: u16,
    empty_fragment_size: nat,
    k: nat,
)
    requires
        k < 0x8000_0000,
    ensures
        ({
            let s = fragments_received(json, datagram_max_size, empty_fragment_size, k);
            let h = sha256_hex(quote_marked(json));
            &&& s.dom().finite()
            &&& s.dom().len() == k
            &&& forall|key: (i32, Seq<char>)| #[trigger]
                s.contains_key(key) <==> (key.1 == h && 0 <= key.0 < k)
            &&& forall|j: int|
                0 <= j < k ==> #[trigger] s[(j as i32, h)] == Some(
                    fragment_data(json, datagram_max_size, empty_fragment_size, j),
                )
        }),
    decreases k,
{
    if k > 0 {
        lemma_fragments_received(json, datagram_max_size, empty_fragment_size, (k - 1) as nat);
        let prev = fragments_received(json, datagram_max_size, empty_fragment_size, (k - 1) as nat);
        let h = sha256_hex(quote_marked(json));
        vstd::set::axiom_set_insert_len(prev.dom(), ((k - 1) as i32, h));
        assert(!prev.contains_key(((k - 1) as i32, h)));
    }
}

proof fn lemma_joined_received(
    json: Seq<char>,
    datagram_max_size: u16,
    empty_fragment_size: nat,
    n: nat,
    m: nat,
)
    requires
        m <= n < 0x8000_0000,
    ensures
        joined_data(
            fragments_received(json, datagram_max_size, empty_fragment_size, n),
            sha256_hex(quote_marked(json)),
            m,
        ) == concat(
            Seq::new(n, |i: int| fragment_data(json, datagram_max_size, empty_fragment_size, i)).take(
                m as int,
            ),
        ),
    decreases m,
{
    let datas = Seq::new(n, |i: int| fragment_data(json, datagram_max_size, empty_fragment_size, i));
    if m > 0 {
        lemma_joined_received(json, datagram_max_size, empty_fragment_size, n, (m - 1) as nat);
        lemma_fragments_received(json, datagram_max_size, empty_fragment_size, n);
        assert(datas.take(m as int).drop_last() =~= datas.take(m - 1));
    } else {
        assert(datas.take(0) =~= Seq::<Seq<char>>::empty());
    }
}

/// Reassembly undoes fragmentation. A fresh handler holds no fragments; handed the fragments
/// of a NUL-free, nonempty `json` (at most 512 of them) in index order, it accepts each,
/// keeps exactly the fragments received so far, answers nothing until the last one, and
/// answers `json` for the last one.
pub proof fn law_fragments_reassemble(json: Seq<char>, datagram_max_size: u16, empty_fragment_size: nat)
    requires
        can_fragment(json, datagram_max_size, empty_fragment_size),
        forall|i: int| 0 <= i < json.len() ==> json[i] != '\0',
        json.len() > 0,
        fragment_pieces(json, datagram_max_size, empty_fragment_size).len() <= store_limit(),
    ensures
        fragments_received(json, datagram_max_size, empty_fragment_size, 0) == FragmentStore::empty(),
        ({
            let n = fragment_pieces(json, datagram_max_size, empty_fragment_size).len();
            forall|k: nat|
                #![trigger fragments_received(json, datagram_max_size, empty_fragment_size, k)]
                k < n ==> {
                    let before = fragments_received(json, datagram_max_size, empty_fragment_size, k);
                    let f = fragment_of(json, datagram_max_size, empty_fragment_size, k as int);
                    &&& fragment_accepted(before, f)
                    &&& fragment_step(before, f) == (
                        fragments_received(json, datagram_max_size, empty_fragment_size, k + 1),
                        if k + 1 == n {
                            Some(json)
                        } else {
                            None
                        },
                    )
                }
        }),
{
    let pieces = fragment_pieces(json, datagram_max_size, empty_fragment_size);
    let n = pieces.len();
    let h = sha256_hex(quote_marked(json));
    law_fragments_rejoin(json, datagram_max_size, empty_fragment_size);
    reveal_strlit("control_datagram");
    assert forall|k: nat|
        #![trigger fragments_received(json, datagram_max_size, empty_fragment_size, k)]
        k < n implies {
        let before = fragments_received(json, datagram_max_size, empty_fragment_size, k);
        let f = fragment_of(json, datagram_max_size, empty_fragment_size, k as int);
        &&& fragment_accepted(before, f)
        &&& fragment_step(before, f) == (
            fragments_received(json, datagram_max_size, empty_fragment_size, k + 1),
            if k + 1 == n {
                Some(json)
            } else {
                None
            },
        )
    } by {
        let before = fragments_received(json, datagram_max_size, empty_fragment_size, k);
        let after = fragments_received(json, datagram_max_size, empty_fragment_size, k + 1);
        let f = fragment_of(json, datagram_max_size, empty_fragment_size, k as int);
        let data = fragment_data(json, datagram_max_size, empty_fragment_size, k as int);
        lemma_fragment_fields(
            h,
            "control_datagram"@,
            (k % 65536) as u16,
            (n % 65536) as u16,
            fragment_data(json, datagram_max_size, empty_fragment_size, k as int),
        );
        assert((k % 65536) as u16 as i32 == k as i32);
        assert((n % 65536) as u16 as i32 == n as i32);
        assert(data_field(f) == Some(data));
        lemma_fragments_received(json, datagram_max_size, empty_fragment_size, k + 1);
        assert(f["digest"@] == h);
        assert(before.insert((k as i32, h), Some(data)) == after);
        assert(stored_with(before, f, k as i32) == after);
        assert forall|i: int|
            0 <= i < n as i32 && all_present(after, h, i + 1) implies #[trigger] after[(
            i as i32,
            h,
        )] is Some by {
            assert(after.contains_key((i as i32, h)));
        }
        assert(data_ready(after, h, n as i32));
        if k + 1 < n {
            assert(!after.contains_key(((k + 1) as int as i32, h)));
            assert(!all_present(after, h, n as int));
        } else {
            assert(all_present(after, h, n as int));
            lemma_joined_received(json, datagram_max_size, empty_fragment_size, n, n);
            let datas = Seq::new(
                n,
                |i: int| fragment_data(json, datagram_max_size, empty_fragment_size, i),
            );
            assert(datas.take(n as int) =~= datas);
        }
    }
}

/// The handler never holds more than 512 fragments. From a store of at most 512, taking any
/// fragment leaves at most 512; a fragment that would make the 513th clears the store, itself
/// included, and gives no text for a datagram of at least one fragment.
pub proof fn law_fragment_store_bounded(store: FragmentStore, f: Map<Seq<char>, Seq<char>>)
    requires
        store.dom().finite(),
        store.dom().len() <= store_limit(),
    ensures
        fragment_step(store, f).0.dom().finite(),
        fragment_step(store, f).0.dom().len() <= store_limit(),
        ({
            let index = spec_parse_i32(f["index"@]);
            let length = spec_parse_i32(f["length"@]);
            f["contentType"@] == "control_datagram"@ && index is Some && length is Some
                && store.insert((index->0, f["digest"@]), data_field(f)).dom().len() > store_limit()
                ==> fragment_step(store, f).0 == FragmentStore::empty() && (length->0 >= 1
                ==> fragment_step(store, f).1 is None)
        }),
{
    let index = spec_parse_i32(f["index"@]);
    let length = spec_parse_i32(f["length"@]);
    if f["contentType"@] == "control_datagram"@ && index is Some && length is Some {
        let s1 = store.insert((index->0, f["digest"@]), data_field(f));
        assert(s1.dom() =~= store.dom().insert((index->0, f["digest"@])));
        vstd::set::axiom_set_insert_finite(store.dom(), (index->0, f["digest"@]));
        vstd::set::axiom_set_insert_len(store.dom(), (index->0, f["digest"@]));
        if s1.dom().len() > store_limit() {
            let e = FragmentStore::empty();
            assert(e.dom() =~= Set::empty());
            if length->0 >= 1 {
                assert(!e.contains_key((0int as i32, f["digest"@])));
                assert(!all_present(e, f["digest"@], length->0 as int));
            }
        }
    }
}

/// The fields of a half, read back.
proof fn lemma_half_fields(json: Seq<char>, part: Seq<char>, index: nat)
    requires
        index < 2,
    ensures
        ({
            let f = half_content(json, part, index);
            &&& f.contains_key("digest"@) && f["digest"@] == sha256_hex(json)
            &&& f.contains_key("contentType"@) && f["contentType"@] == "control_datagram"@
            &&& f.contains_key("index"@) && spec_parse_i32(f["index"@]) == Some(index as i32)
            &&& f.contains_key("length"@) && spec_parse_i32(f["length"@]) == Some(2i32)
            &&& data_field(f) == Some(part)
        }),
{
    reveal_strlit("digest");
    reveal_strlit("contentType");
    reveal_strlit("index");
    reveal_strlit("length");
    reveal_strlit("data");
    assert("digest"@[0] != "contentType"@[0]);
    assert("digest"@[0] != "index"@[0]);
    assert("digest"@[0] != "length"@[0]);
    assert("digest"@[1] != "data"@[1]);
    assert("contentType"@[0] != "index"@[0]);
    assert("contentType"@[0] != "length"@[0]);
    assert("contentType"@[0] != "data"@[0]);
    assert("index"@[0] != "length"@[0]);
    assert("index"@[0] != "data"@[0]);
    assert("length"@[0] != "data"@[0]);
    lemma_decimal_parses(index);
    lemma_decimal_parses(2);
}

/// Taking the half `i` of the text with digest `h` into a store holding at most the other
/// half.
proof fn lemma_half_step(json: Seq<char>, store: FragmentStore, i: nat, first: bool)
    requires
        i < 2,
        exists|k: int| is_half_cut(json, k),
        first ==> store == FragmentStore::empty(),
        !first ==> store == FragmentStore::empty().insert(
            ((1 - i) as i32, sha256_hex(json)),
            Some(half_part(json, (1 - i) as nat)),
        ),
    ensures
        fragment_accepted(store, half_content(json, half_part(json, i), i)),
        fragment_step(store, half_content(json, half_part(json, i), i)) == (
            store.insert((i as i32, sha256_hex(json)), Some(half_part(json, i))),
            if first {
                None
            } else {
                Some(json)
            },
        ),
{
    let h = sha256_hex(json);
    let f = half_content(json, half_part(json, i), i);
    lemma_half_fields(json, half_part(json, i), i);
    reveal_strlit("control_datagram");
    let s1 = store.insert((i as i32, h), Some(half_part(json, i)));
    if first {
        assert(s1.dom() =~= Set::empty().insert((i as i32, h)));
    } else {
        assert(s1.dom() =~= Set::empty().insert(((1 - i) as i32, h)).insert((i as i32, h)));
        vstd::set::axiom_set_insert_len(Set::<(i32, Seq<char>)>::empty().insert(((1 - i) as i32, h)), (i as i32, h));
    }
    vstd::set::axiom_set_insert_len(Set::<(i32, Seq<char>)>::empty(), ((1 - i) as i32, h));
    vstd::set::axiom_set_insert_len(Set::<(i32, Seq<char>)>::empty(), (i as i32, h));
    assert(stored_with(store, f, i as i32) == s1);
    assert forall|j: int| 0 <= j < 2i32 && all_present(s1, h, j + 1) implies #[trigger] s1[(
        j as i32,
        h,
    )] is Some by {
        assert(s1.contains_key((j as i32, h)));
    }
    if first {
        assert(!s1.contains_key(((1 - i) as int as i32, h)));
        assert(!all_present(s1, h, 2));
    } else {
        assert(s1.contains_key((0int as i32, h)));
        assert(s1.contains_key((1int as i32, h)));
        assert(all_present(s1, h, 2));
        let k = half_point(json);
        assert(is_half_cut(json, k));
        assert(joined_data(s1, h, 2) == joined_data(s1, h, 1) + s1[(1i32, h)].unwrap());
        assert(joined_data(s1, h, 1) == joined_data(s1, h, 0) + s1[(0i32, h)].unwrap());
        assert(json.take(k) + json.skip(k) =~= json);
    }
}

/// The piece that half `i` of `json` carries.
pub open spec fn half_part(json: Seq<char>, i: nat) -> Seq<char> {
    if i == 0 {
        json.take(half_point(json))
    } else {
        json.skip(half_point(json))
    }
}

/// The two halves of `json` reassemble in either order. A fresh handler accepts the first
/// half received and gives nothing for it; it accepts the other half and gives `json` back.
pub proof fn law_halves_reassemble(json: Seq<char>, i: nat)
    requires
        exists|k: int| is_half_cut(json, k),
        i < 2,
    ensures
        ({
            let first = half_content(json, half_part(json, i), i);
            let second = half_content(json, half_part(json, (1 - i) as nat), (1 - i) as nat);
            let (store, text) = fragment_step(FragmentStore::empty(), first);
            &&& fragment_accepted(FragmentStore::empty(), first)
            &&& text is None
            &&& fragment_accepted(store, second)
            &&& fragment_step(store, second).1 == Some(json)
        }),
{
    let h = sha256_hex(json);
    lemma_half_step(json, FragmentStore::empty(), i, true);
    let store = FragmentStore::empty().insert((i as i32, h), Some(half_part(json, i)));
    assert(1 - (1 - i) == i);
    lemma_half_step(json, store, (1 - i) as nat, false);
}

/// The store of a fresh handler after it has received the fragments of `json` whose indexes
/// are in `received`, in any order.
pub open spec fn fragments_in(
    json: Seq<char>,
    datagram_max_size: u16,
    empty_fragment_size: nat,
    received: Set<int>,
) -> FragmentStore {
    Map::new(
        |key: (i32, Seq<char>)| key.1 == sha256_hex(quote_marked(json)) && received.contains(
            key.0 as int,
        ),
        |key: (i32, Seq<char>)|
            Some(fragment_data(json, datagram_max_size, empty_fragment_size, key.0 as int)),
    )
}

/// Reassembly undoes fragmentation whatever the order in which the fragments arrive. A fresh
/// handler holds no fragments; holding some of the fragments of a NUL-free, nonempty `json`
/// (at most 512 of them), it accepts any other one, then holds that one too, and gives `json`
/// back exactly when it then holds them all.
pub proof fn law_fragments_reassemble_any_order(
    json: Seq<char>,
    datagram_max_size: u16,
    empty_fragment_size: nat,
    received: Set<int>,
    j: int,
)
    requires
        can_fragment(json, datagram_max_size, empty_fragment_size),
        forall|i: int| 0 <= i < json.len() ==> json[i] != '\0',
        json.len() > 0,
        fragment_pieces(json, datagram_max_size, empty_fragment_size).len() <= store_limit(),
        forall|i: int|
            #[trigger] received.contains(i) ==> 0 <= i < fragment_pieces(
                json,
                datagram_max_size,
                empty_fragment_size,
            ).len(),
        0 <= j < fragment_pieces(json, datagram_max_size, empty_fragment_size).len(),
        !received.contains(j),
    ensures
        fragments_in(json, datagram_max_size, empty_fragment_size, Set::empty())
            == FragmentStore::empty(),
        ({
            let n = fragment_pieces(json, datagram_max_size, empty_fragment_size).len();
            let before = fragments_in(json, datagram_max_size, empty_fragment_size, received);
            let after = fragments_in(json, datagram_max_size, empty_fragment_size, received.insert(j));
            let f = fragment_of(json, datagram_max_size, empty_fragment_size, j);
            &&& fragment_accepted(before, f)
            &&& fragment_step(before, f) == (
                after,
                if forall|i: int| 0 <= i < n ==> #[trigger] received.insert(j).contains(i) {
                    Some(json)
                } else {
                    None
                },
            )
        }),
{
    let pieces = fragment_pieces(json, datagram_max_size, empty_fragment_size);
    let n = pieces.len();
    let h = sha256_hex(quote_marked(json));
    let r2 = received.insert(j);
    let before = fragments_in(json, datagram_max_size, empty_fragment_size, received);
    let after = fragments_in(json, datagram_max_size, empty_fragment_size, r2);
    let f = fragment_of(json, datagram_max_size, empty_fragment_size, j);
    let data = fragment_data(json, datagram_max_size, empty_fragment_size, j);
    assert(fragments_in(json, datagram_max_size, empty_fragment_size, Set::empty())
        =~= FragmentStore::empty());
    law_fragments_rejoin(json, datagram_max_size, empty_fragment_size);
    reveal_strlit("control_datagram");
    lemma_fragment_fields(h, "control_datagram"@, (j % 65536) as u16, (n % 65536) as u16, data);
    assert((j % 65536) as u16 as i32 == j as i32);
    assert((n % 65536) as u16 as i32 == n as i32);
    assert(data_field(f) == Some(data));
    assert(f["digest"@] == h);
    let s1 = before.insert((j as i32, h), Some(data));
    assert(s1 =~= after);
    lemma_fragments_received(json, datagram_max_size, empty_fragment_size, n);
    let all = fragments_received(json, datagram_max_size, empty_fragment_size, n);
    assert(after.dom().subset_of(all.dom()));
    vstd::set_lib::lemma_len_subset(after.dom(), all.dom());
    assert(stored_with(before, f, j as i32) == after);
    assert forall|i: int| 0 <= i < n as i32 && all_present(after, h, i + 1) implies #[trigger] after[(
        i as i32,
        h,
    )] is Some by {
        assert(after.contains_key((i as i32, h)));
    }
    assert(data_ready(after, h, n as i32));
    if forall|i: int| 0 <= i < n ==> #[trigger] r2.contains(i) {
        assert forall|key: (i32, Seq<char>)| #[trigger] after.contains_key(key) <==> all.contains_key(
            key,
        ) by {
            if all.contains_key(key) {
                assert(r2.contains(key.0 as int));
            }
            if after.contains_key(key) {
                if key.0 as int != j {
                    assert(received.contains(key.0 as int));
                }
            }
        }
        assert forall|key: (i32, Seq<char>)| #[trigger] after.contains_key(key) implies after[key]
            == all[key] by {
            let i = key.0 as int;
            assert(key == (i as i32, h));
            assert(all[(i as i32, h)] == Some(
                fragment_data(json, datagram_max_size, empty_fragment_size, i),
            ));
        }
        assert(after =~= all);
        assert(all_present(after, h, n as int));
        lemma_joined_received(json, datagram_max_size, empty_fragment_size, n, n);
        let datas = Seq::new(n, |i: int| fragment_data(json, datagram_max_size, empty_fragment_size, i));
        assert(datas.take(n as int) =~= datas);
    } else {
        let i = choose|i: int| 0 <= i < n && !#[trigger] r2.contains(i);
        assert(!after.contains_key((i as i32, h)));
        assert(!all_present(after, h, n as int));
    }
}

/// Fragments are kept: unless the store would pass 512 fragments, taking a fragment of a
/// control datagram keeps every stored fragment, whatever its digest, and adds the new one.
pub proof fn law_fragments_kept(store: FragmentStore, f: Map<Seq<char>, Seq<char>>)
    requires
        f["contentType"@] == "control_datagram"@,
        spec_parse_i32(f["index"@]) is Some,
        spec_parse_i32(f["length"@]) is Some,
        store.insert((spec_parse_i32(f["index"@])->0, f["digest"@]), data_field(f)).dom().len()
            <= store_limit(),
    ensures
        fragment_step(store, f).0 == store.insert(
            (spec_parse_i32(f["index"@])->0, f["digest"@]),
            data_field(f),
        ),
        forall|k: (i32, Seq<char>)| #[trigger]
            store.contains_key(k) ==> fragment_step(store, f).0.contains_key(k),
{
}

/// The text of the first `m` fragments of digest `h` depends only on those fragments.
proof fn lemma_joined_agree(s1: FragmentStore, s2: FragmentStore, h: Seq<char>, m: nat)
    requires
        forall|i: int| 0 <= i < m ==> #[trigger] s1[(i as i32, h)] == s2[(i as i32, h)],
    ensures
        joined_data(s1, h, m) == joined_data(s2, h, m),
    decreases m,
{
    if m > 0 {
        assert(s1[((m - 1) as int as i32, h)] == s2[((m - 1) as int as i32, h)]);
        lemma_joined_agree(s1, s2, h, (m - 1) as nat);
    }
}

/// Fragments of one datagram reassemble whatever fragments of other datagrams the handler
/// holds. With fragments of other digests stored (no more than 512 fragments in all, counting
/// those of `json`), and some of the fragments of a NUL-free, nonempty `json` received in any
/// order, taking another fragment of `json` keeps every stored fragment, adds the new one, and
/// gives `json` back exactly when all its fragments are then held.
pub proof fn law_fragments_reassemble_among_others(
    json: Seq<char>,
    datagram_max_size: u16,
    empty_fragment_size: nat,
    other: FragmentStore,
    received: Set<int>,
    j: int,
)
    requires
        can_fragment(json, datagram_max_size, empty_fragment_size),
        forall|i: int| 0 <= i < json.len() ==> json[i] != '\0',
        json.len() > 0,
        other.dom().finite(),
        forall|k: (i32, Seq<char>)| #[trigger]
            other.contains_key(k) ==> k.1 != sha256_hex(quote_marked(json)),
        other.dom().len() + fragment_pieces(json, datagram_max_size, empty_fragment_size).len()
            <= store_limit(),
        forall|i: int|
            #[trigger] received.contains(i) ==> 0 <= i < fragment_pieces(
                json,
                datagram_max_size,
                empty_fragment_size,
            ).len(),
        0 <= j < fragment_pieces(json, datagram_max_size, empty_fragment_size).len(),
        !received.contains(j),
    ensures
        ({
            let n = fragment_pieces(json, datagram_max_size, empty_fragment_size).len();
            let before = other.union_prefer_right(
                fragments_in(json, datagram_max_size, empty_fragment_size, received),
            );
            let after = other.union_prefer_right(
                fragments_in(json, datagram_max_size, empty_fragment_size, received.insert(j)),
            );
            let f = fragment_of(json, datagram_max_size, empty_fragment_size, j);
            &&& fragment_accepted(before, f)
            &&& fragment_step(before, f) == (
                after,
                if forall|i: int| 0 <= i < n ==> #[trigger] received.insert(j).contains(i) {
                    Some(json)
                } else {
                    None
                },
            )
            &&& forall|k: (i32, Seq<char>)| #[trigger]
                other.contains_key(k) ==> fragment_step(before, f).0.contains_key(k)
                    && fragment_step(before, f).0[k] == other[k]
        }),
{
    let pieces = fragment_pieces(json, datagram_max_size, empty_fragment_size);
    let n = pieces.len();
    let h = sha256_hex(quote_marked(json));
    let r2 = received.insert(j);
    let fin = fragments_in(json, datagram_max_size, empty_fragment_size, received);
    let fin2 = fragments_in(json, datagram_max_size, empty_fragment_size, r2);
    let before = other.union_prefer_right(fin);
    let after = other.union_prefer_right(fin2);
    let f = fragment_of(json, datagram_max_size, empty_fragment_size, j);
    let data = fragment_data(json, datagram_max_size, empty_fragment_size, j);
    law_fragments_rejoin(json, datagram_max_size, empty_fragment_size);
    reveal_strlit("control_datagram");
    lemma_fragment_fields(h, "control_datagram"@, (j % 65536) as u16, (n % 65536) as u16, data);
    assert((j % 65536) as u16 as i32 == j as i32);
    assert((n % 65536) as u16 as i32 == n as i32);
    assert(data_field(f) == Some(data));
    assert(f["digest"@] == h);
    let s1 = before.insert((j as i32, h), Some(data));
    assert(s1 =~= after);
    lemma_fragments_received(json, datagram_max_size, empty_fragment_size, n);
    let all = fragments_received(json, datagram_max_size, empty_fragment_size, n);
    assert(after.dom().subset_of(other.dom().union(all.dom())));
    vstd::set_lib::lemma_len_union(other.dom(), all.dom());
    vstd::set::axiom_set_union_finite(other.dom(), all.dom());
    vstd::set_lib::lemma_len_subset(after.dom(), other.dom().union(all.dom()));
    assert(stored_with(before, f, j as i32) == after);
    assert forall|i: int| 0 <= i < n as i32 && all_present(after, h, i + 1) implies #[trigger] after[(
        i as i32,
        h,
    )] is Some by {
        assert(after.contains_key((i as i32, h)));
        assert(!other.contains_key((i as i32, h)));
    }
    assert(data_ready(after, h, n as i32));
    if forall|i: int| 0 <= i < n ==> #[trigger] r2.contains(i) {
        assert forall|i: int| 0 <= i < n implies #[trigger] after[(i as i32, h)] == all[(
            i as i32,
            h,
        )] by {
            assert(r2.contains(i));
            assert(!other.contains_key((i as i32, h)));
            assert(fin2.contains_key((i as i32, h)));
        }
        assert forall|i: int| 0 <= i < n implies #[trigger] after.contains_key((i as i32, h)) by {
            assert(r2.contains(i));
            assert(fin2.contains_key((i as i32, h)));
        }
        assert(all_present(after, h, n as int));
        lemma_joined_agree(after, all, h, n);
        lemma_joined_received(json, datagram_max_size, empty_fragment_size, n, n);
        let datas = Seq::new(n, |i: int| fragment_data(json, datagram_max_size, empty_fragment_size, i));
        assert(datas.take(n as int) =~= datas);
    } else {
        let i = choose|i: int| 0 <= i < n && !#[trigger] r2.contains(i);
        assert(!other.contains_key((i as i32, h)));
        assert(!after.contains_key((i as i32, h)));
        assert(!all_present(after, h, n as int));
    }
}

} // verus!
