use ronkey::object::{MapKey, MapPair, Object};

#[test]
fn test_string_map_key() {
    let hello1 = MapKey::String("Hello World".to_string());
    let hello2 = MapKey::String("Hello World".to_string());
    let diff1 = MapKey::String("My name is johnny".to_string());
    let diff2 = MapKey::String("My name is johnny".to_string());

    assert!(hello1 == hello2);
    assert!(diff1 == diff2);
    assert!(hello1 != diff2);
}

#[test]
fn test_get_type() {
    assert_eq!(Object::Integer(1).get_type(), "Integer");
    assert_eq!(Object::Boolean(true).get_type(), "Boolean");
    assert_eq!(Object::String("x".to_string()).get_type(), "String");
    assert_eq!(Object::Null.get_type(), "null");
    assert_eq!(Object::Array(vec![]).get_type(), "Array");
    assert_eq!(Object::Let.get_type(), "");
    assert_eq!(Object::Default.get_type(), "");
}

#[test]
fn test_object_display() {
    assert_eq!(Object::Integer(-5).to_string(), "-5");
    assert_eq!(Object::Boolean(false).to_string(), "false");
    assert_eq!(Object::String("hi".to_string()).to_string(), "hi");
    assert_eq!(Object::Null.to_string(), "null");
    let array = Object::Array(vec![
        Object::Integer(1),
        Object::String("x".to_string()),
        Object::Boolean(true),
    ]);
    assert_eq!(array.to_string(), "[1, x, true]");
    let map = Object::Hash(vec![(
        MapKey::Integer(1),
        MapPair::new(Object::Integer(1), Object::Integer(2)),
    )]);
    assert_eq!(map.to_string(), "{1: 2}");
}

#[test]
fn test_map_pair_display() {
    let pair = MapPair::new(Object::String("k".to_string()), Object::Integer(3));
    assert_eq!(pair.key, Object::String("k".to_string()));
    assert_eq!(pair.value, Object::Integer(3));
    assert_eq!(pair.to_string(), "k: 3");
}

#[test]
fn test_buildin_table() {
    let table = ronkey::buildin::new();
    let names: Vec<String> = table.iter().map(|entry| entry.0.clone()).collect();
    assert_eq!(names, vec!["len", "first", "last", "rest", "push"]);
}
