use std::collections::HashMap;
use vstd::prelude::*;

use crate::text::{i32_to_string, int_decimal};

verus! {

broadcast use vstd::std_specs::hash::group_hash_axioms;

/// The decimal texts of `ids`, each after the first preceded by `&id=`.
pub open spec fn join_ids(ids: Seq<i32>) -> Seq<char>
    decreases ids.len(),
{
    if ids.len() == 0 {
        Seq::empty()
    } else if ids.len() == 1 {
        int_decimal(ids[0] as int)
    } else {
        join_ids(ids.drop_last()) + "&id="@ + int_decimal(ids.last() as int)
    }
}

/// The address that lists the users with the given ids.
pub fn users_request_url(keys: &[i32]) -> (r: String)
    ensures
        r@ == "http://localhost:3000/users?id="@ + join_ids(keys@),
{
    let mut ids = String::new();
    let mut i: usize = 0;
    while i < keys.len()
        invariant
            i <= keys.len(),
            ids@ == join_ids(keys@.take(i as int)),
        decreases keys.len() - i,
    {
        proof {
            assert(keys@.take(i + 1).drop_last() =~= keys@.take(i as int));
            assert(keys@.take(i + 1).last() == keys@[i as int]);
        }
        if i > 0 {
            ids.append("&id=");
        }
        let d = i32_to_string(keys[i]);
        ids.append(d.as_str());
        proof {
            if i == 0 {
                assert(ids@ =~= join_ids(keys@.take(1)));
            }
        }
        i = i + 1;
    }
    assert(keys@.take(keys.len() as int) =~= keys@);
    String::from_str("http://localhost:3000/users?id=").concat(ids.as_str())
}

/// The address of the post with id `id`.
pub fn post_request_url(id: i32) -> (r: String)
    ensures
        r@ == "http://localhost:3000/posts/"@ + int_decimal(id as int),
{
    let d = i32_to_string(id);
    String::from_str("http://localhost:3000/posts/").concat(d.as_str())
}

/// The address of the user with id `id`.
pub fn user_request_url(id: i32) -> (r: String)
    ensures
        r@ == "http://localhost:3000/users/"@ + int_decimal(id as int),
{
    let d = i32_to_string(id);
    String::from_str("http://localhost:3000/users/").concat(d.as_str())
}

/// The address that lists all posts.
pub fn posts_request_url() -> (r: String)
    ensures
        r@ == "http://localhost:3000/posts"@,
{
    String::from_str("http://localhost:3000/posts")
}

/// The address that lists all users.
pub fn users_list_url() -> (r: String)
    ensures
        r@ == "http://localhost:3000/users"@,
{
    String::from_str("http://localhost:3000/users")
}

/// Items by id, a later item replacing an earlier one of the same id.
pub open spec fn map_by_id<V>(items: Seq<(i32, V)>) -> Map<i32, V>
    decreases items.len(),
{
    if items.len() == 0 {
        Map::empty()
    } else {
        map_by_id(items.drop_last()).insert(items.last().0, items.last().1)
    }
}

/// Indexes items by their ids; of two with the same id the later stays.
pub fn index_by_id<V>(items: Vec<(i32, V)>) -> (r: HashMap<i32, V>)
    ensures
        r@ == map_by_id(items@),
{
    let ghost all = items@;
    let mut rest = items;
    let mut map: HashMap<i32, V> = HashMap::new();
    let ghost mut taken: int = 0;
    while rest.len() > 0
        invariant
            0 <= taken <= all.len(),
            rest@ == all.skip(taken),
            map@ == map_by_id(all.take(taken)),
        decreases rest.len(),
    {
        let ghost before = rest@;
        let (id, item) = rest.remove(0);
        proof {
            assert(before[0] == all[taken]);
            assert(rest@ =~= all.skip(taken + 1));
            assert(all.take(taken + 1).drop_last() =~= all.take(taken));
        }
        map.insert(id, item);
        proof {
            taken = taken + 1;
        }
    }
    assert(all.take(taken) =~= all);
    map
}

/// The items that were found, in order.
pub open spec fn found<V>(results: Seq<Option<(i32, V)>>) -> Seq<(i32, V)>
    decreases results.len(),
{
    if results.len() == 0 {
        Seq::empty()
    } else {
        match results.last() {
            Some(p) => found(results.drop_last()).push(p),
            None => found(results.drop_last()),
        }
    }
}

/// Indexes the items that were found by their ids; of two with the same id
/// the later stays.
pub fn collect_found<V>(results: Vec<Option<(i32, V)>>) -> (r: HashMap<i32, V>)
    ensures
        r@ == map_by_id(found(results@)),
{
    let ghost all = results@;
    let mut rest = results;
    let mut map: HashMap<i32, V> = HashMap::new();
    let ghost mut taken: int = 0;
    while rest.len() > 0
        invariant
            0 <= taken <= all.len(),
            rest@ == all.skip(taken),
            map@ == map_by_id(found(all.take(taken))),
        decreases rest.len(),
    {
        let ghost before = rest@;
        let result = rest.remove(0);
        proof {
            assert(before[0] == all[taken]);
            assert(rest@ =~= all.skip(taken + 1));
            assert(all.take(taken + 1).drop_last() =~= all.take(taken));
        }
        match result {
            Some((id, item)) => {
                map.insert(id, item);
                proof {
                    assert(found(all.take(taken + 1)) == found(all.take(taken)).push((id, item)));
                    assert(found(all.take(taken)).push((id, item)).drop_last() =~= found(all.take(taken)));
                }
            },
            None => {},
        }
        proof {
            taken = taken + 1;
        }
    }
    assert(all.take(taken) =~= all);
    map
}

} // verus!
