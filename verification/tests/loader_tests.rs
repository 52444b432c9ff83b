use ssdd_on_top::loaders::{
    collect_found, index_by_id, post_request_url, posts_request_url, user_request_url,
    users_list_url, users_request_url,
};

#[test]
fn users_url_joins_the_ids() {
    assert_eq!(users_request_url(&[1, 2, 3]), "http://localhost:3000/users?id=1&id=2&id=3");
    assert_eq!(users_request_url(&[42]), "http://localhost:3000/users?id=42");
    assert_eq!(users_request_url(&[]), "http://localhost:3000/users?id=");
    assert_eq!(users_request_url(&[-7, 0]), "http://localhost:3000/users?id=-7&id=0");
}

#[test]
fn single_item_urls() {
    assert_eq!(post_request_url(12), "http://localhost:3000/posts/12");
    assert_eq!(user_request_url(-1), "http://localhost:3000/users/-1");
    assert_eq!(post_request_url(i32::MIN), "http://localhost:3000/posts/-2147483648");
    assert_eq!(posts_request_url(), "http://localhost:3000/posts");
    assert_eq!(users_list_url(), "http://localhost:3000/users");
}

#[test]
fn index_by_id_keeps_the_last_of_an_id() {
    let map = index_by_id(vec![(1, "a"), (2, "b"), (1, "c")]);
    assert_eq!(map.len(), 2);
    assert_eq!(map.get(&1), Some(&"c"));
    assert_eq!(map.get(&2), Some(&"b"));
    assert_eq!(map.get(&3), None);
}

#[test]
fn collect_found_skips_what_was_not_found() {
    let map = collect_found(vec![Some((1, "a")), None, Some((3, "x")), Some((1, "z"))]);
    assert_eq!(map.len(), 2);
    assert_eq!(map.get(&1), Some(&"z"));
    assert_eq!(map.get(&3), Some(&"x"));
    let empty = collect_found::<u8>(vec![None, None]);
    assert!(empty.is_empty());
}
