use vstd::prelude::*;

use crate::map::{key_lt, lemma_key_lt_order, str_lt};

verus! {

/// Things that have a name to be ordered by.
pub trait Named: View + Sized {
    /// The name of a thing, from its mathematical form.
    spec fn view_name(v: Self::V) -> Seq<char>;

    /// The name.
    fn name_str(&self) -> (r: &str)
        ensures
            r@ == Self::view_name(self@),
    ;
}

impl Named for String {
    open spec fn view_name(v: Seq<char>) -> Seq<char> {
        v
    }

    fn name_str(&self) -> (r: &str) {
        self.as_str()
    }
}

/// The name of each thing, as a function of its mathematical form.
pub open spec fn name_of<T: Named>() -> spec_fn(T::V) -> Seq<char> {
    |v: T::V| T::view_name(v)
}

/// `x` put into `s` after every element whose name does not come after the
/// name of `x`: before the first element with a greater name.
pub open spec fn insert_by_name<V>(s: Seq<V>, x: V, name: spec_fn(V) -> Seq<char>) -> Seq<V>
    decreases s.len(),
{
    if s.len() == 0 {
        seq![x]
    } else if key_lt(name(x), name(s[0])) {
        seq![x] + s
    } else {
        seq![s[0]] + insert_by_name(s.drop_first(), x, name)
    }
}

/// `s` ordered by name, elements of equal names in their first order: the
/// order that a stable sort by name gives.
pub open spec fn sort_by_name<V>(s: Seq<V>, name: spec_fn(V) -> Seq<char>) -> Seq<V>
    decreases s.len(),
{
    if s.len() == 0 {
        Seq::empty()
    } else {
        insert_by_name(sort_by_name(s.drop_last(), name), s.last(), name)
    }
}

/// Names that never decrease along the sequence.
pub open spec fn sorted_by_name<V>(s: Seq<V>, name: spec_fn(V) -> Seq<char>) -> bool {
    forall|i: int, j: int| 0 <= i < j < s.len() ==> !key_lt(name(s[j]), name(s[i]))
}

/// The mathematical forms of a sequence.
pub open spec fn views_of<T: View>(s: Seq<T>) -> Seq<T::V> {
    Seq::new(s.len(), |i: int| s[i]@)
}

/// `insert_by_name` puts `x` at the first position whose element has a
/// greater name.
proof fn lemma_insert_at<V>(s: Seq<V>, x: V, name: spec_fn(V) -> Seq<char>, j: int)
    requires
        0 <= j <= s.len(),
        forall|k: int| 0 <= k < j ==> !key_lt(name(x), #[trigger] name(s[k])),
        j < s.len() ==> key_lt(name(x), name(s[j])),
    ensures
        insert_by_name(s, x, name) == s.insert(j, x),
    decreases s.len(),
{
    if s.len() == 0 {
        assert(seq![x] =~= s.insert(j, x));
    } else if j == 0 {
        assert(seq![x] + s =~= s.insert(j, x));
    } else {
        assert forall|k: int| 0 <= k < j - 1 implies !key_lt(name(x), #[trigger] name(s.drop_first()[k])) by {
            assert(s.drop_first()[k] == s[k + 1]);
        }
        lemma_insert_at(s.drop_first(), x, name, j - 1);
        assert(seq![s[0]] + s.drop_first().insert(j - 1, x) =~= s.insert(j, x));
    }
}

/// Where `insert_by_name` puts `x`: after every element whose name is not
/// greater than that of `x`, before the first whose name is.
proof fn lemma_insert_position<V>(s: Seq<V>, x: V, name: spec_fn(V) -> Seq<char>) -> (j: int)
    ensures
        0 <= j <= s.len(),
        insert_by_name(s, x, name) == s.insert(j, x),
        forall|k: int| 0 <= k < j ==> !key_lt(name(x), #[trigger] name(s[k])),
        j < s.len() ==> key_lt(name(x), name(s[j])),
    decreases s.len(),
{
    if s.len() == 0 {
        assert(seq![x] =~= s.insert(0, x));
        0
    } else if key_lt(name(x), name(s[0])) {
        assert(seq![x] + s =~= s.insert(0, x));
        0
    } else {
        let j = lemma_insert_position(s.drop_first(), x, name);
        assert(seq![s[0]] + s.drop_first().insert(j, x) =~= s.insert(j + 1, x));
        assert forall|k: int| 0 <= k < j + 1 implies !key_lt(name(x), #[trigger] name(s[k])) by {
            if k > 0 {
                assert(s[k] == s.drop_first()[k - 1]);
            }
        }
        if j + 1 < s.len() {
            assert(s[j + 1] == s.drop_first()[j]);
        }
        j + 1
    }
}

/// Inserting by name into a sequence ordered by name keeps it ordered, and
/// adds exactly the one element.
pub proof fn lemma_insert_by_name_sorted<V>(s: Seq<V>, x: V, name: spec_fn(V) -> Seq<char>)
    requires
        sorted_by_name(s, name),
    ensures
        sorted_by_name(insert_by_name(s, x, name), name),
        insert_by_name(s, x, name).to_multiset() == s.to_multiset().insert(x),
{
    let j = lemma_insert_position(s, x, name);
    let r = s.insert(j, x);
    vstd::seq_lib::to_multiset_insert(s, j, x);
    assert forall|a: int, b: int| 0 <= a < b < r.len() implies !key_lt(name(r[b]), name(r[a])) by {
        if b < j {
            assert(r[a] == s[a] && r[b] == s[b]);
        } else if b == j {
            assert(r[a] == s[a] && r[b] == x);
        } else if a == j {
            assert(r[b] == s[b - 1]);
            lemma_key_lt_order(name(s[j]), name(s[b - 1]), name(x));
            lemma_key_lt_order(name(x), name(s[j]), name(s[b - 1]));
            lemma_key_lt_order(name(s[b - 1]), name(x), name(s[j]));
        } else if a < j {
            assert(r[a] == s[a] && r[b] == s[b - 1]);
        } else {
            assert(r[a] == s[a - 1] && r[b] == s[b - 1]);
        }
    }
}

/// Sorting by name orders the names and keeps every element, each as many
/// times as it occurs.
pub proof fn lemma_sort_by_name<V>(s: Seq<V>, name: spec_fn(V) -> Seq<char>)
    ensures
        sorted_by_name(sort_by_name(s, name), name),
        sort_by_name(s, name).to_multiset() == s.to_multiset(),
    decreases s.len(),
{
    if s.len() == 0 {
        assert(sort_by_name(s, name) =~= s);
    } else {
        lemma_sort_by_name(s.drop_last(), name);
        lemma_insert_by_name_sorted(sort_by_name(s.drop_last(), name), s.last(), name);
        vstd::seq_lib::to_multiset_build(s.drop_last(), s.last());
        assert(s.drop_last().push(s.last()) =~= s);
    }
}

/// A sequence already ordered by name is left as it is.
pub proof fn lemma_sort_by_name_sorted_unchanged<V>(s: Seq<V>, name: spec_fn(V) -> Seq<char>)
    requires
        sorted_by_name(s, name),
    ensures
        sort_by_name(s, name) == s,
    decreases s.len(),
{
    if s.len() > 0 {
        let d = s.drop_last();
        assert(sorted_by_name(d, name)) by {
            assert forall|a: int, b: int| 0 <= a < b < d.len() implies !key_lt(name(d[b]), name(d[a])) by {
                assert(d[a] == s[a] && d[b] == s[b]);
            }
        }
        lemma_sort_by_name_sorted_unchanged(d, name);
        assert forall|k: int| 0 <= k < d.len() implies !key_lt(name(s.last()), #[trigger] name(d[k])) by {
            assert(d[k] == s[k]);
        }
        lemma_insert_at(d, s.last(), name, d.len() as int);
        assert(d.insert(d.len() as int, s.last()) =~= s);
    }
}

/// Sorting by name twice gives what sorting once gives.
pub proof fn lemma_sort_by_name_idempotent<V>(s: Seq<V>, name: spec_fn(V) -> Seq<char>)
    ensures
        sort_by_name(sort_by_name(s, name), name) == sort_by_name(s, name),
{
    lemma_sort_by_name(s, name);
    lemma_sort_by_name_sorted_unchanged(sort_by_name(s, name), name);
}

/// Sorts things by name, stably.
pub fn sort_by_name_vec<T: Named>(v: Vec<T>) -> (r: Vec<T>)
    ensures
        views_of(r@) == sort_by_name(views_of(v@), name_of::<T>()),
{
    let ghost name = name_of::<T>();
    let ghost all = views_of(v@);
    let mut rest = v;
    let mut out: Vec<T> = Vec::new();
    let ghost mut taken: int = 0;
    assert(all.take(0) =~= Seq::<T::V>::empty());
    assert(views_of(out@) =~= Seq::<T::V>::empty());
    while rest.len() > 0
        invariant
            forall|x: T::V| #[trigger] name(x) == T::view_name(x),
            0 <= taken <= all.len(),
            views_of(rest@) == all.skip(taken),
            views_of(out@) == sort_by_name(all.take(taken), name),
        decreases rest.len(),
    {
        let ghost before = rest@;
        proof {
            assert(views_of(before).len() == before.len());
            assert(taken < all.len());
        }
        let x = rest.remove(0);
        proof {
            assert(rest@ =~= before.subrange(1, before.len() as int));
            assert forall|k: int| 0 <= k < rest@.len() implies #[trigger] views_of(rest@)[k] == all.skip(taken + 1)[k] by {
                assert(views_of(before)[k + 1] == before[k + 1]@);
                assert(all.skip(taken)[k + 1] == all[taken + k + 1]);
            }
            assert(views_of(rest@) =~= all.skip(taken + 1));
            assert(views_of(before)[0] == before[0]@);
            assert(all.skip(taken)[0] == all[taken]);
            assert(all[taken] == x@);
        }
        let mut j: usize = 0;
        while j < out.len() && !str_lt(x.name_str(), out[j].name_str())
            invariant
                forall|y: T::V| #[trigger] name(y) == T::view_name(y),
                j <= out.len(),
                forall|k: int| 0 <= k < j ==> !key_lt(name(x@), #[trigger] name(views_of(out@)[k])),
            decreases out.len() - j,
        {
            assert(views_of(out@)[j as int] == out@[j as int]@);
            j = j + 1;
        }
        proof {
            if j < out.len() {
                assert(views_of(out@)[j as int] == out@[j as int]@);
            }
            lemma_insert_at(views_of(out@), x@, name, j as int);
        }
        let ghost out_before = views_of(out@);
        out.insert(j, x);
        proof {
            assert(views_of(out@) =~= out_before.insert(j as int, x@));
            assert(all.take(taken + 1).drop_last() =~= all.take(taken));
            assert(all.take(taken + 1).last() == x@);
            taken = taken + 1;
        }
    }
    assert(all.take(taken) =~= all);
    out
}

} // verus!
