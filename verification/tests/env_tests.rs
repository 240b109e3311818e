use scheme_core::env::{Env, EnvRef, EnvValues, Store};
use scheme_core::lexer::Token;
use scheme_core::parser::Expr;
use scheme_core::serr::SErr;

fn num(i: i64) -> Expr {
    Expr::Atom(Token::Integer(i))
}

fn unbound(name: &str) -> SErr {
    SErr::UnboundVariable(name.to_string())
}

#[test]
fn values_insert_then_get() {
    let mut values = EnvValues::new();
    assert_eq!(values.get("x"), None);
    assert!(!values.contains_key("x"));
    values.insert("x".to_string(), num(1));
    values.insert("y".to_string(), num(2));
    assert_eq!(values.get("x"), Some(num(1)));
    assert_eq!(values.get("y"), Some(num(2)));
    assert!(values.contains_key("y"));
}

#[test]
fn values_insert_overwrites_in_place() {
    let mut values = EnvValues::new();
    values.insert("x".to_string(), num(1));
    values.insert("x".to_string(), num(5));
    assert_eq!(values.get("x"), Some(num(5)));
    assert_eq!(values.entries.len(), 1);
}

#[test]
fn null_scope_binds_nothing() {
    let store = Store::new();
    assert_eq!(Env::null(), EnvRef::Null);
    assert_eq!(store.get(Env::null(), "x"), Err(unbound("x")));
    assert_eq!(store.find_scope(Env::null(), "x"), None);
}

#[test]
fn get_searches_the_chain_outward() {
    let mut store = Store::new();
    let mut global = Env::new(Env::null());
    global.insert("x".to_string(), num(1));
    global.insert("y".to_string(), num(2));
    let global = global.to_ref(&mut store);
    let mut inner = Env::new(global);
    inner.insert("x".to_string(), num(10));
    let inner = inner.to_ref(&mut store);
    assert_eq!(global, EnvRef::Scope(0));
    assert_eq!(inner, EnvRef::Scope(1));
    assert_eq!(store.len(), 2);
    assert_eq!(store.get(inner, "x"), Ok(num(10)));
    assert_eq!(store.get(inner, "y"), Ok(num(2)));
    assert_eq!(store.get(global, "x"), Ok(num(1)));
    assert_eq!(store.get(inner, "z"), Err(unbound("z")));
    assert_eq!(store.find_scope(inner, "y"), Some(0));
    assert_eq!(store.find_scope(inner, "x"), Some(1));
}

#[test]
fn insert_never_touches_an_ancestor() {
    let mut store = Store::new();
    let mut global = Env::new(Env::null());
    global.insert("x".to_string(), num(1));
    let global = global.to_ref(&mut store);
    let inner = Env::new(global).to_ref(&mut store);
    assert!(store.insert(inner, "x".to_string(), num(2)));
    assert_eq!(store.get(inner, "x"), Ok(num(2)));
    assert_eq!(store.get(global, "x"), Ok(num(1)));
}

#[test]
fn insert_into_no_scope_changes_nothing() {
    let mut store = Store::new();
    assert!(!store.insert(EnvRef::Null, "x".to_string(), num(1)));
    assert!(!store.insert(EnvRef::Scope(3), "x".to_string(), num(1)));
    assert_eq!(store.len(), 0);
}

#[test]
fn set_overwrites_where_the_name_is_bound() {
    let mut store = Store::new();
    let mut global = Env::new(Env::null());
    global.insert("x".to_string(), num(1));
    let global = global.to_ref(&mut store);
    let inner = Env::new(global).to_ref(&mut store);
    assert_eq!(store.set(inner, "x", num(7)), Ok(()));
    assert_eq!(store.get(global, "x"), Ok(num(7)));
    assert_eq!(store.scopes[1].values.get("x"), None);
}

#[test]
fn set_of_an_unbound_name_fails() {
    let mut store = Store::new();
    let global = Env::new(Env::null()).to_ref(&mut store);
    assert_eq!(store.set(global, "x", num(7)), Err(unbound("x")));
    assert_eq!(store.get(global, "x"), Err(unbound("x")));
}

#[test]
fn pack_pairs_names_and_values_by_position() {
    let mut env = Env::new(Env::null());
    env.pack(
        &vec!["a".to_string(), "b".to_string()],
        vec![num(1), num(2)],
    );
    let store = Store::new();
    assert_eq!(env.get("a", &store), Ok(num(1)));
    assert_eq!(env.get("b", &store), Ok(num(2)));
    assert_eq!(env.get("c", &store), Err(unbound("c")));
}

#[test]
fn with_values_keeps_the_bindings() {
    let mut values = EnvValues::new();
    values.insert("k".to_string(), num(3));
    let mut store = Store::new();
    let parent = Env::with_values(Env::null(), values).to_ref(&mut store);
    let child = Env::new(parent);
    assert_eq!(child.get("k", &store), Ok(num(3)));
}

#[test]
fn a_parent_link_to_a_younger_scope_is_not_followed() {
    let mut store = Store::new();
    let first = Env::new(EnvRef::Scope(1)).to_ref(&mut store);
    let mut second = Env::new(Env::null());
    second.insert("x".to_string(), num(1));
    second.to_ref(&mut store);
    assert_eq!(store.get(first, "x"), Err(unbound("x")));
}
