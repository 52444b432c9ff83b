use vstd::prelude::*;

use crate::blueprint::model::{Field, FieldName, FieldView, TypeName};

verus! {

/// The key of a field in the blueprint: the name of the field and the name
/// of the type it belongs to.
pub struct FieldHash {
    pub name: FieldName,
    pub id: TypeName,
}

impl View for FieldHash {
    type V = (Seq<char>, Seq<char>);

    open spec fn view(&self) -> (Seq<char>, Seq<char>) {
        (self.name.0@, self.id.0@)
    }
}

impl FieldHash {
    /// The key of field `name` of type `id`.
    pub fn new(name: FieldName, id: TypeName) -> (r: FieldHash)
        ensures
            r@ == (name.0@, id.0@),
    {
        FieldHash { name, id }
    }
}

/// The map that the entries of `s` make, each later entry replacing an
/// earlier one with the same key.
pub open spec fn entries_map(s: Seq<(FieldHash, Field)>) -> Map<(Seq<char>, Seq<char>), FieldView>
    decreases s.len(),
{
    if s.len() == 0 {
        Map::empty()
    } else {
        entries_map(s.drop_last()).insert(s.last().0@, s.last().1@)
    }
}

/// No two entries have the same key.
pub open spec fn keys_unique(s: Seq<(FieldHash, Field)>) -> bool {
    forall|i: int, j: int| 0 <= i < j < s.len() ==> s[i].0@ != s[j].0@
}

/// The map holds exactly the keys of the entries, each with the value of its entry.
proof fn lemma_entries_map(s: Seq<(FieldHash, Field)>)
    requires
        keys_unique(s),
    ensures
        forall|k: (Seq<char>, Seq<char>)|
            #[trigger] entries_map(s).dom().contains(k) <==> exists|i: int| 0 <= i < s.len() && s[i].0@ == k,
        forall|i: int| 0 <= i < s.len() ==> #[trigger] entries_map(s)[s[i].0@] == s[i].1@,
    decreases s.len(),
{
    if s.len() > 0 {
        let d = s.drop_last();
        assert forall|i: int, j: int| 0 <= i < j < d.len() implies d[i].0@ != d[j].0@ by {
            assert(d[i] == s[i] && d[j] == s[j]);
        }
        lemma_entries_map(d);
        let m = entries_map(d);
        let lk = s.last().0@;
        assert(entries_map(s) == m.insert(lk, s.last().1@));
        assert forall|k: (Seq<char>, Seq<char>)|
            #[trigger] entries_map(s).dom().contains(k) <==> exists|i: int| 0 <= i < s.len() && s[i].0@ == k by {
            if entries_map(s).dom().contains(k) {
                if k == lk {
                    assert(s[s.len() - 1].0@ == k);
                } else {
                    assert(m.dom().contains(k));
                    let i = choose|i: int| 0 <= i < d.len() && d[i].0@ == k;
                    assert(s[i] == d[i]);
                }
            }
            if exists|i: int| 0 <= i < s.len() && s[i].0@ == k {
                let i = choose|i: int| 0 <= i < s.len() && s[i].0@ == k;
                if i < s.len() - 1 {
                    assert(d[i] == s[i]);
                    assert(m.dom().contains(k));
                }
            }
        }
        assert forall|i: int| 0 <= i < s.len() implies #[trigger] entries_map(s)[s[i].0@] == s[i].1@ by {
            if i < s.len() - 1 {
                assert(d[i] == s[i]);
                assert(s[i].0@ != lk);
                assert(m[d[i].0@] == d[i].1@);
            }
        }
    }
}

/// Replacing the entry of a key replaces its value in the map.
proof fn lemma_entries_map_update(s: Seq<(FieldHash, Field)>, i: int, e: (FieldHash, Field))
    requires
        keys_unique(s),
        0 <= i < s.len(),
        s[i].0@ == e.0@,
    ensures
        entries_map(s.update(i, e)) == entries_map(s).insert(e.0@, e.1@),
    decreases s.len(),
{
    let u = s.update(i, e);
    if i == s.len() - 1 {
        assert(u.drop_last() =~= s.drop_last());
        assert(entries_map(u) =~= entries_map(s).insert(e.0@, e.1@));
    } else {
        assert(u.drop_last() =~= s.drop_last().update(i, e));
        lemma_entries_map_update(s.drop_last(), i, e);
        assert(s[i].0@ != s.last().0@);
        assert(entries_map(u) =~= entries_map(s).insert(e.0@, e.1@));
    }
}

/// The fields of the blueprint, by the name of the field and of its type.
pub struct FieldMap {
    entries: Vec<(FieldHash, Field)>,
}

impl View for FieldMap {
    type V = Map<(Seq<char>, Seq<char>), FieldView>;

    closed spec fn view(&self) -> Map<(Seq<char>, Seq<char>), FieldView> {
        entries_map(self.entries@)
    }
}

impl FieldMap {
    #[verifier::type_invariant]
    closed spec fn wf(self) -> bool {
        keys_unique(self.entries@)
    }

    /// An empty map.
    pub fn new() -> (r: FieldMap)
        ensures
            r@ == Map::<(Seq<char>, Seq<char>), FieldView>::empty(),
    {
        FieldMap { entries: Vec::new() }
    }

    /// The field with key `key`, if there is one.
    pub fn get(&self, key: &FieldHash) -> (r: Option<&Field>)
        ensures
            match r {
                Some(f) => self@.dom().contains(key@) && self@[key@] == f@,
                None => !self@.dom().contains(key@),
            },
    {
        proof {
            use_type_invariant(self);
        }
        let mut i: usize = 0;
        while i < self.entries.len()
            invariant
                keys_unique(self.entries@),
                i <= self.entries.len(),
                forall|j: int| 0 <= j < i ==> #[trigger] self.entries@[j].0@ != key@,
            decreases self.entries.len() - i,
        {
            if self.entries[i].0.name.0 == key.name.0 && self.entries[i].0.id.0 == key.id.0 {
                proof {
                    lemma_entries_map(self.entries@);
                }
                return Some(&self.entries[i].1);
            }
            i = i + 1;
        }
        proof {
            lemma_entries_map(self.entries@);
        }
        None
    }

    /// Maps `key` to `value`, replacing the field that the key had.
    pub fn insert(&mut self, key: FieldHash, value: Field)
        ensures
            final(self)@ == old(self)@.insert(key@, value@),
    {
        proof {
            use_type_invariant(&*self);
        }
        let mut entries: Vec<(FieldHash, Field)> = Vec::new();
        std::mem::swap(&mut entries, &mut self.entries);
        let ghost s = entries@;
        let ghost e = (key, value);
        assert(old(self)@ == entries_map(s));
        let mut i: usize = 0;
        while i < entries.len()
            invariant
                entries@ == s,
                keys_unique(s),
                e == (key, value),
                old(self)@ == entries_map(s),
                i <= entries.len(),
                forall|j: int| 0 <= j < i ==> #[trigger] s[j].0@ != key@,
            decreases entries.len() - i,
        {
            if entries[i].0.name.0 == key.name.0 && entries[i].0.id.0 == key.id.0 {
                assert(s[i as int].0@ == e.0@);
                entries.set(i, (key, value));
                proof {
                    assert(entries@ == s.update(i as int, e));
                    lemma_entries_map_update(s, i as int, e);
                    assert(entries_map(entries@) == entries_map(s).insert(key@, value@));
                    assert forall|a: int, b: int| 0 <= a < b < entries@.len() implies entries@[a].0@
                        != entries@[b].0@ by {
                        assert(s[a].0@ != s[b].0@);
                    }
                }
                self.entries = entries;
                return;
            }
            i = i + 1;
        }
        entries.push((key, value));
        proof {
            assert(entries@.drop_last() =~= s);
            assert forall|a: int, b: int| 0 <= a < b < entries@.len() implies entries@[a].0@
                != entries@[b].0@ by {
                if b < s.len() {
                    assert(s[a].0@ != s[b].0@);
                }
            }
        }
        self.entries = entries;
    }
}

} // verus!
