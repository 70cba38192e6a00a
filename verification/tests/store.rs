use kv_metrics::store::Store;

#[test]
fn put_get_delete_round_trip() {
    let mut st = Store::new();
    let (status, body) = st.put_response("foo".to_string(), "bar".to_string());
    assert_eq!(status, 200);
    assert_eq!(body, "");

    let key = "foo".to_string();
    let (status, body) = st.get_response(&key);
    assert_eq!(status, 200);
    assert_eq!(body, "bar");

    let (status, body) = st.delete_response(&key);
    assert_eq!(status, 204);
    assert_eq!(body, "");

    let (status, body) = st.get_response(&key);
    assert_eq!(status, 404);
    assert_eq!(body, "");
}

#[test]
fn get_missing_on_empty_store() {
    let st = Store::new();
    let key = "missing".to_string();
    let (status, body) = st.get_response(&key);
    assert_eq!(status, 404);
    assert_eq!(body, "");
}

#[test]
fn delete_missing_is_not_found() {
    let mut st = Store::new();
    let key = "nothing".to_string();
    let (status, body) = st.delete_response(&key);
    assert_eq!(status, 404);
    assert_eq!(body, "");
}

#[test]
fn put_overwrites_value() {
    let mut st = Store::new();
    st.put_response("k".to_string(), "first".to_string());
    st.put_response("k".to_string(), "second".to_string());
    let key = "k".to_string();
    let (status, body) = st.get_response(&key);
    assert_eq!(status, 200);
    assert_eq!(body, "second");
}

#[test]
fn keys_are_independent() {
    let mut st = Store::new();
    st.insert("a".to_string(), "1".to_string());
    st.insert("b".to_string(), "2".to_string());
    assert_eq!(st.get(&"a".to_string()), Some("1".to_string()));
    assert_eq!(st.get(&"b".to_string()), Some("2".to_string()));
    assert!(st.remove(&"a".to_string()));
    assert_eq!(st.get(&"a".to_string()), None);
    assert_eq!(st.get(&"b".to_string()), Some("2".to_string()));
}

#[test]
fn remove_reports_whether_key_existed() {
    let mut st = Store::new();
    st.insert("x".to_string(), "y".to_string());
    assert!(st.remove(&"x".to_string()));
    assert!(!st.remove(&"x".to_string()));
}

#[test]
fn empty_key_and_value_round_trip() {
    let mut st = Store::new();
    st.insert(String::new(), String::new());
    assert_eq!(st.get(&String::new()), Some(String::new()));
}
