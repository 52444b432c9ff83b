use vstd::prelude::*;
use vstd::utf8::{encode_utf8, encode_utf8_decode_utf8};

verus! {

/// Byte-wise lexicographic order, the order of `str` in Rust.
pub open spec fn bytes_lt(a: Seq<u8>, b: Seq<u8>) -> bool
    decreases a.len(),
{
    if a.len() == 0 {
        b.len() > 0
    } else if b.len() == 0 {
        false
    } else if a[0] != b[0] {
        a[0] < b[0]
    } else {
        bytes_lt(a.drop_first(), b.drop_first())
    }
}

/// The order of keys: the byte-wise order of their UTF-8 encodings.
pub open spec fn key_lt(a: Seq<char>, b: Seq<char>) -> bool {
    bytes_lt(encode_utf8(a), encode_utf8(b))
}

/// No byte sequence comes before itself.
pub proof fn lemma_bytes_lt_irreflexive(a: Seq<u8>)
    ensures
        !bytes_lt(a, a),
    decreases a.len(),
{
    if a.len() > 0 {
        lemma_bytes_lt_irreflexive(a.drop_first());
    }
}

/// The byte-wise order is transitive.
pub proof fn lemma_bytes_lt_transitive(a: Seq<u8>, b: Seq<u8>, c: Seq<u8>)
    requires
        bytes_lt(a, b),
        bytes_lt(b, c),
    ensures
        bytes_lt(a, c),
    decreases a.len(),
{
    if a.len() > 0 && b.len() > 0 && c.len() > 0 && a[0] == b[0] && b[0] == c[0] {
        lemma_bytes_lt_transitive(a.drop_first(), b.drop_first(), c.drop_first());
    }
}

/// Of two different byte sequences, one comes before the other.
pub proof fn lemma_bytes_lt_total(a: Seq<u8>, b: Seq<u8>)
    requires
        a != b,
    ensures
        bytes_lt(a, b) || bytes_lt(b, a),
    decreases a.len(),
{
    if a.len() == 0 && b.len() == 0 {
        assert(a =~= b);
    } else if a.len() > 0 && b.len() > 0 && a[0] == b[0] {
        if a.drop_first() =~= b.drop_first() {
            assert(a =~= seq![a[0]] + a.drop_first());
            assert(b =~= seq![b[0]] + b.drop_first());
        } else {
            lemma_bytes_lt_total(a.drop_first(), b.drop_first());
        }
    }
}

/// The order of keys is a strict total order.
pub proof fn lemma_key_lt_order(a: Seq<char>, b: Seq<char>, c: Seq<char>)
    ensures
        !key_lt(a, a),
        key_lt(a, b) && key_lt(b, c) ==> key_lt(a, c),
        a != b ==> key_lt(a, b) || key_lt(b, a),
        key_lt(a, b) ==> !key_lt(b, a),
{
    lemma_bytes_lt_irreflexive(encode_utf8(a));
    if key_lt(a, b) && key_lt(b, c) {
        lemma_bytes_lt_transitive(encode_utf8(a), encode_utf8(b), encode_utf8(c));
    }
    if key_lt(a, b) && key_lt(b, a) {
        lemma_bytes_lt_transitive(encode_utf8(a), encode_utf8(b), encode_utf8(a));
    }
    if a != b {
        encode_utf8_decode_utf8(a);
        encode_utf8_decode_utf8(b);
        lemma_bytes_lt_total(encode_utf8(a), encode_utf8(b));
    }
}

/// Compares two texts in the order of `str`.
pub fn str_lt(a: &str, b: &str) -> (r: bool)
    ensures
        r == key_lt(a@, b@),
{
    let x = a.as_bytes();
    let y = b.as_bytes();
    let mut i: usize = 0;
    assert(x@.skip(0) =~= x@ && y@.skip(0) =~= y@);
    while i < x.len() && i < y.len() && x[i] == y[i]
        invariant
            x@ == encode_utf8(a@),
            y@ == encode_utf8(b@),
            i <= x.len(),
            i <= y.len(),
            bytes_lt(x@, y@) == bytes_lt(x@.skip(i as int), y@.skip(i as int)),
        decreases x.len() - i,
    {
        assert(x@.skip(i as int).drop_first() =~= x@.skip(i + 1));
        assert(y@.skip(i as int).drop_first() =~= y@.skip(i + 1));
        i = i + 1;
    }
    if i == x.len() {
        i < y.len()
    } else if i == y.len() {
        false
    } else {
        x[i] < y[i]
    }
}

/// Whether two texts are equal.
pub fn str_eq(a: &str, b: &str) -> (r: bool)
    ensures
        r == (a@ == b@),
{
    let x = a.as_bytes();
    let y = b.as_bytes();
    proof {
        encode_utf8_decode_utf8(a@);
        encode_utf8_decode_utf8(b@);
    }
    if x.len() != y.len() {
        return false;
    }
    let mut i: usize = 0;
    while i < x.len()
        invariant
            x@ == encode_utf8(a@),
            y@ == encode_utf8(b@),
            x.len() == y.len(),
            i <= x.len(),
            forall|j: int| 0 <= j < i ==> x@[j] == y@[j],
        decreases x.len() - i,
    {
        if x[i] != y[i] {
            return false;
        }
        i = i + 1;
    }
    assert(x@ =~= y@);
    true
}

/// A map from texts to values whose entries are kept in the order of their
/// keys, each key once: the ordered map that a configuration is made of.
pub struct StrMap<V: View> {
    entries: Vec<(String, V)>,
}

/// Keys in strictly increasing order.
pub open spec fn keys_sorted<V>(entries: Seq<(Seq<char>, V)>) -> bool {
    forall|i: int, j: int| 0 <= i < j < entries.len() ==> key_lt(entries[i].0, entries[j].0)
}

/// The value of the entry with key `key`, where keys are unique.
pub open spec fn seq_lookup<V>(entries: Seq<(Seq<char>, V)>, key: Seq<char>) -> Option<V>
    decreases entries.len(),
{
    if entries.len() == 0 {
        None
    } else if entries[0].0 == key {
        Some(entries[0].1)
    } else {
        seq_lookup(entries.drop_first(), key)
    }
}

impl<V: View> View for StrMap<V> {
    type V = Seq<(Seq<char>, V::V)>;

    closed spec fn view(&self) -> Seq<(Seq<char>, V::V)> {
        Seq::new(self.entries.len() as nat, |i: int| (self.entries@[i].0@, self.entries@[i].1@))
    }
}

impl<V: View> StrMap<V> {
    #[verifier::type_invariant]
    pub open spec fn wf(self) -> bool {
        keys_sorted(self@)
    }

    /// The entries of the map, in the order of their keys.
    pub closed spec fn spec_entries(&self) -> Seq<(String, V)> {
        self.entries@
    }

    /// The value that `key` maps to.
    pub open spec fn lookup(&self, key: Seq<char>) -> Option<V::V> {
        seq_lookup(self@, key)
    }


    /// An empty map.
    pub fn new() -> (r: Self)
        ensures
            r@ == Seq::<(Seq<char>, V::V)>::empty(),
    {
        let r = StrMap { entries: Vec::new() };
        assert(r@ =~= Seq::<(Seq<char>, V::V)>::empty());
        r
    }

    /// The number of entries.
    pub fn len(&self) -> (r: usize)
        ensures
            r == self@.len(),
    {
        self.entries.len()
    }

    /// Whether the map has no entries.
    pub fn is_empty(&self) -> (r: bool)
        ensures
            r == (self@.len() == 0),
    {
        self.entries.len() == 0
    }

    /// The key of the entry at position `i`.
    pub fn key_at(&self, i: usize) -> (r: &String)
        requires
            i < self@.len(),
        ensures
            r@ == self@[i as int].0,
            *r == self.spec_entries()[i as int].0,
    {
        &self.entries[i].0
    }

    /// The value of the entry at position `i`.
    pub fn value_at(&self, i: usize) -> (r: &V)
        requires
            i < self@.len(),
        ensures
            r@ == self@[i as int].1,
            *r == self.spec_entries()[i as int].1,
    {
        &self.entries[i].1
    }
}

/// In a sequence with keys in increasing order, every key after position
/// `i` comes after the key at `i`, and a lookup finds the entry with that key.
pub proof fn lemma_sorted_lookup<V>(entries: Seq<(Seq<char>, V)>, i: int)
    requires
        keys_sorted(entries),
        0 <= i < entries.len(),
    ensures
        seq_lookup(entries, entries[i].0) == Some(entries[i].1),
    decreases entries.len(),
{
    if i > 0 {
        lemma_key_lt_order(entries[0].0, entries[i].0, entries[i].0);
        assert(entries.drop_first()[i - 1] == entries[i]);
        lemma_sorted_lookup(entries.drop_first(), i - 1);
    }
}

/// A lookup finds nothing for a key that no entry has.
pub proof fn lemma_lookup_absent<V>(entries: Seq<(Seq<char>, V)>, key: Seq<char>)
    requires
        forall|i: int| 0 <= i < entries.len() ==> entries[i].0 != key,
    ensures
        seq_lookup(entries, key) is None,
    decreases entries.len(),
{
    if entries.len() > 0 {
        assert(entries[0].0 != key);
        assert forall|i: int| 0 <= i < entries.drop_first().len() implies entries.drop_first()[i].0
            != key by {
            assert(entries.drop_first()[i] == entries[i + 1]);
        }
        lemma_lookup_absent(entries.drop_first(), key);
    }
}

/// A lookup gives the value of some entry with the key, or nothing when no
/// entry has it.
pub proof fn lemma_lookup_found<V>(entries: Seq<(Seq<char>, V)>, key: Seq<char>)
    ensures
        seq_lookup(entries, key) is Some ==> exists|i: int|
            0 <= i < entries.len() && entries[i].0 == key && #[trigger] entries[i].1 == seq_lookup(
                entries,
                key,
            )->0,
        seq_lookup(entries, key) is None ==> forall|i: int|
            0 <= i < entries.len() ==> #[trigger] entries[i].0 != key,
    decreases entries.len(),
{
    if entries.len() > 0 {
        lemma_lookup_found(entries.drop_first(), key);
        if entries[0].0 != key {
            if seq_lookup(entries, key) is Some {
                let j = choose|j: int|
                    0 <= j < entries.drop_first().len() && entries.drop_first()[j].0 == key
                        && #[trigger] entries.drop_first()[j].1 == seq_lookup(
                        entries.drop_first(),
                        key,
                    )->0;
                assert(entries[j + 1] == entries.drop_first()[j]);
            } else {
                assert forall|i: int| 0 <= i < entries.len() implies #[trigger] entries[i].0
                    != key by {
                    if i > 0 {
                        assert(entries[i] == entries.drop_first()[i - 1]);
                    }
                }
            }
        }
    }
}

impl<V: View> StrMap<V> {
    /// The value of the entry with key `key`, if there is one.
    pub fn get(&self, key: &str) -> (r: Option<&V>)
        ensures
            match r {
                Some(v) => self.lookup(key@) == Some(v@),
                None => self.lookup(key@) is None,
            },
    {
        proof {
            use_type_invariant(self);
        }
        let mut i: usize = 0;
        while i < self.entries.len()
            invariant
                i <= self.entries.len(),
                keys_sorted(self@),
                self@.len() == self.entries.len(),
                forall|j: int| 0 <= j < i ==> self@[j].0 != key@,
            decreases self.entries.len() - i,
        {
            if str_eq(self.entries[i].0.as_str(), key) {
                proof {
                    lemma_sorted_lookup(self@, i as int);
                }
                return Some(&self.entries[i].1);
            }
            i = i + 1;
        }
        proof {
            lemma_lookup_absent(self@, key@);
        }
        None
    }

    /// Maps `key` to `value`: the value of an entry with that key is replaced,
    /// else a new entry is put in its place in the order of keys.
    pub fn insert(&mut self, key: String, value: V)
        ensures
            keys_sorted(final(self)@),
            final(self).lookup(key@) == Some(value@),
            forall|k: Seq<char>|
                k != key@ ==> #[trigger] final(self).lookup(k) == old(self).lookup(k),
            old(self).lookup(key@) is Some ==> final(self)@.len() == old(self)@.len(),
            old(self).lookup(key@) is None ==> final(self)@.len() == old(self)@.len() + 1,
    {
        proof {
            use_type_invariant(&*self);
        }
        let ghost old_view = self@;
        let mut entries: Vec<(String, V)> = Vec::new();
        std::mem::swap(&mut entries, &mut self.entries);
        let ghost ev = Seq::new(entries.len() as nat, |i: int| (entries@[i].0@, entries@[i].1@));
        assert(ev =~= old_view);
        let mut i: usize = 0;
        while i < entries.len() && str_lt(entries[i].0.as_str(), key.as_str())
            invariant
                i <= entries.len(),
                ev == Seq::new(entries.len() as nat, |i: int| (entries@[i].0@, entries@[i].1@)),
                forall|j: int| 0 <= j < i ==> key_lt(#[trigger] ev[j].0, key@),
            decreases entries.len() - i,
        {
            i = i + 1;
        }
        proof {
            assert forall|j: int| i <= j < ev.len() implies !key_lt(#[trigger] ev[j].0, key@) by {
                if j > i {
                    lemma_key_lt_order(ev[i as int].0, ev[j].0, key@);
                    lemma_key_lt_order(ev[j].0, key@, ev[j].0);
                }
            }
        }
        let ghost kv = key@;
        let ghost vv = value@;
        if i < entries.len() && str_eq(entries[i].0.as_str(), key.as_str()) {
            entries.set(i, (key, value));
            let ghost nv = Seq::new(entries.len() as nat, |i: int| (entries@[i].0@, entries@[i].1@));
            assert(nv =~= ev.update(i as int, (kv, vv)));
            proof {
                assert(ev[i as int].0 == kv);
                assert(forall|j: int| 0 <= j < nv.len() ==> #[trigger] nv[j].0 == ev[j].0);
                assert(keys_sorted(nv));
                lemma_sorted_lookup(nv, i as int);
                assert forall|k: Seq<char>| k != kv implies seq_lookup(nv, k) == seq_lookup(ev, k) by {
                    lemma_lookup_found(ev, k);
                    lemma_lookup_found(nv, k);
                    if seq_lookup(ev, k) is Some {
                        let j = choose|j: int| 0 <= j < ev.len() && ev[j].0 == k && #[trigger] ev[j].1 == seq_lookup(ev, k)->0;
                        lemma_sorted_lookup(nv, j);
                    } else {
                        assert forall|j: int| 0 <= j < nv.len() implies nv[j].0 != k by {
                            if j != i {
                                assert(nv[j] == ev[j]);
                            }
                        }
                        lemma_lookup_absent(nv, k);
                    }
                }
                lemma_sorted_lookup(ev, i as int);
            }
        } else {
            entries.insert(i, (key, value));
            let ghost nv = Seq::new(entries.len() as nat, |i: int| (entries@[i].0@, entries@[i].1@));
            assert(nv =~= ev.insert(i as int, (kv, vv)));
            proof {
                assert forall|j: int| i <= j < ev.len() implies key_lt(kv, #[trigger] ev[j].0) by {
                    lemma_key_lt_order(ev[j].0, kv, kv);
                    if j == i {
                    } else {
                        lemma_key_lt_order(ev[i as int].0, ev[j].0, kv);
                        lemma_key_lt_order(kv, ev[i as int].0, ev[j].0);
                    }
                    if ev[j].0 == kv {
                        lemma_key_lt_order(ev[i as int].0, kv, kv);
                    }
                }
                assert forall|a: int, b: int| 0 <= a < b < nv.len() implies key_lt(nv[a].0, nv[b].0) by {
                    if b < i {
                    } else if b == i {
                    } else if a < i {
                        lemma_key_lt_order(nv[a].0, kv, nv[b].0);
                    } else if a == i {
                    } else {
                        assert(nv[a] == ev[a - 1] && nv[b] == ev[b - 1]);
                    }
                }
                lemma_sorted_lookup(nv, i as int);
                assert forall|j: int| 0 <= j < ev.len() implies ev[j].0 != kv by {
                    if j < i {
                        lemma_key_lt_order(ev[j].0, kv, kv);
                    }
                }
                lemma_lookup_absent(ev, kv);
                assert forall|k: Seq<char>| k != kv implies seq_lookup(nv, k) == seq_lookup(ev, k) by {
                    lemma_lookup_found(ev, k);
                    if seq_lookup(ev, k) is Some {
                        let j = choose|j: int| 0 <= j < ev.len() && ev[j].0 == k && #[trigger] ev[j].1 == seq_lookup(ev, k)->0;
                        if j < i {
                            assert(nv[j] == ev[j]);
                            lemma_sorted_lookup(nv, j);
                        } else {
                            assert(nv[j + 1] == ev[j]);
                            lemma_sorted_lookup(nv, j + 1);
                        }
                    } else {
                        assert forall|j: int| 0 <= j < nv.len() implies nv[j].0 != k by {
                            if j < i {
                                assert(nv[j] == ev[j]);
                            } else if j > i {
                                assert(nv[j] == ev[j - 1]);
                            }
                        }
                        lemma_lookup_absent(nv, k);
                    }
                }
            }
        }
        self.entries = entries;
    }

    /// Whether some entry has key `key`.
    pub fn contains_key(&self, key: &str) -> (r: bool)
        ensures
            r == self.lookup(key@) is Some,
    {
        self.get(key).is_some()
    }
}

} // verus!
