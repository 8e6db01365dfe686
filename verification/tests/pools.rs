use script_bundle::index::types::CName;
use script_bundle::{CNameIndex, ScriptBundle, StringPool};

#[test]
fn adding_twice_gives_one_index() {
    let mut pool: StringPool<CName> = StringPool::new();
    let first = pool.add("Foo");
    let second = pool.add("Foo");
    assert_eq!(first, second);
    assert_eq!(first.value(), 0);
    assert_eq!(pool.len(), 1);
}

#[test]
fn indices_follow_the_order_of_insertion() {
    let mut pool: StringPool<CName> = StringPool::new();
    assert_eq!(pool.add("a").value(), 0);
    assert_eq!(pool.add("b").value(), 1);
    assert_eq!(pool.add("a").value(), 0);
    assert_eq!(pool.add("c").value(), 2);
    assert_eq!(pool.add("").value(), 3);
    assert_eq!(pool.len(), 4);
}

#[test]
fn an_added_string_is_found_again() {
    let mut pool: StringPool<CName> = StringPool::new();
    let index = pool.add("Foo");
    assert_eq!(pool.get(index), Some("Foo"));
    assert_eq!(pool.get_index("Foo"), Some(index));
    assert_eq!(pool.get_index("Bar"), None);
    assert_eq!(pool.get(CNameIndex::new(1)), None);
}

#[test]
fn a_new_pool_is_empty() {
    let pool: StringPool<CName> = StringPool::new();
    assert_eq!(pool.len(), 0);
    assert_eq!(pool.get(CNameIndex::new(0)), None);
    assert_eq!(pool.get_index(""), None);
    let pool: StringPool<CName> = StringPool::default();
    assert_eq!(pool.len(), 0);
}

#[test]
fn an_owned_pool_holds_the_same_strings() {
    let mut pool: StringPool<CName> = StringPool::new();
    pool.add("x");
    pool.add("y");
    let owned = pool.into_owned();
    assert_eq!(owned.len(), 2);
    assert_eq!(owned.get(CNameIndex::new(0)), Some("x"));
    assert_eq!(owned.get(CNameIndex::new(1)), Some("y"));
}

#[test]
fn strings_with_other_than_ascii_are_kept() {
    let mut pool: StringPool<CName> = StringPool::new();
    let index = pool.add("żółć €");
    assert_eq!(pool.get(index), Some("żółć €"));
}

#[test]
fn the_pools_of_a_bundle_are_apart() {
    let mut bundle = ScriptBundle::new();
    let name = bundle.cnames_mut().add("Foo");
    let resource = bundle.resources_mut().add("Bar");
    let literal = bundle.strings_mut().add("Baz");
    let id = bundle.tdb_ids_mut().add("Qux");
    assert_eq!(name.value(), 0);
    assert_eq!(resource.value(), 0);
    assert_eq!(literal.value(), 0);
    assert_eq!(id.value(), 0);
    assert_eq!(bundle.get_item(name), Some("Foo"));
    assert_eq!(bundle.get_item(resource), Some("Bar"));
    assert_eq!(bundle.get_item(literal), Some("Baz"));
    assert_eq!(bundle.get_item(id), Some("Qux"));
    assert_eq!(bundle.cnames().len(), 1);
    assert_eq!(bundle.tdb_ids().len(), 1);
    assert_eq!(bundle.resources().len(), 1);
    assert_eq!(bundle.strings().len(), 1);
}

#[test]
fn the_checked_form_adds_like_the_plain_one() {
    let mut pool: StringPool<CName> = StringPool::new();
    let first = pool.try_add("Foo").unwrap();
    assert_eq!(pool.try_add("Foo"), Some(first));
    assert_eq!(pool.try_add("Bar").unwrap().value(), 1);
    assert_eq!(pool.add("Foo"), first);
    assert_eq!(pool.len(), 2);
}
