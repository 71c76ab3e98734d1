use probing::config::ConfigStore;
use probing::ele::{Ele, Real32, Real64};

fn single(x: f32) -> Real32 {
    Real32 { bits: x.to_bits(), text: x.to_string() }
}

fn double(x: f64) -> Real64 {
    Real64 { bits: x.to_bits(), text: x.to_string() }
}

#[test]
fn test_set_and_get() {
    let mut store = ConfigStore::new();

    store.set("test.key1", "value1");
    assert_eq!(store.get("test.key1"), Some(Ele::Text("value1".to_string())));
    assert_eq!(store.get_str("test.key1"), Some("value1".to_string()));

    store.set("test.key2", "value2".to_string());
    assert_eq!(store.get("test.key2"), Some(Ele::Text("value2".to_string())));

    store.set("test.bool.true", true);
    assert_eq!(store.get("test.bool.true"), Some(Ele::BOOL(true)));
    assert_eq!(store.get_str("test.bool.true"), Some("True".to_string()));
    store.set("test.bool.false", false);
    assert_eq!(store.get("test.bool.false"), Some(Ele::BOOL(false)));
    assert_eq!(store.get_str("test.bool.false"), Some("False".to_string()));

    store.set("test.i32", 42i32);
    assert_eq!(store.get("test.i32"), Some(Ele::I32(42)));
    assert_eq!(store.get_str("test.i32"), Some("42".to_string()));

    store.set("test.i64", 100i64);
    assert_eq!(store.get("test.i64"), Some(Ele::I64(100)));
    assert_eq!(store.get_str("test.i64"), Some("100".to_string()));

    store.set("test.f32", single(3.14f32));
    assert_eq!(store.get("test.f32"), Some(Ele::F32(single(3.14))));
    assert_eq!(store.get_str("test.f32"), Some("3.14".to_string()));

    store.set("test.f64", double(2.718f64));
    assert_eq!(store.get("test.f64"), Some(Ele::F64(double(2.718))));
    assert_eq!(store.get_str("test.f64"), Some("2.718".to_string()));
}

#[test]
fn test_contains_key() {
    let mut store = ConfigStore::new();

    store.set("test.key", "value");
    assert!(store.contains_key("test.key"));
    assert!(!store.contains_key("test.nonexistent"));
}

#[test]
fn test_remove() {
    let mut store = ConfigStore::new();

    store.set("test.key", "value");
    assert!(store.contains_key("test.key"));

    let removed = store.remove("test.key");
    assert_eq!(removed, Some(Ele::Text("value".to_string())));
    assert!(!store.contains_key("test.key"));
}

#[test]
fn test_keys() {
    let mut store = ConfigStore::new();

    store.set("a.key", "value1");
    store.set("b.key", "value2");
    store.set("c.key", "value3");

    let keys = store.keys();
    assert_eq!(keys.len(), 3, "Expected 3 keys, but got {}: {:?}", keys.len(), keys);
    assert_eq!(keys[0], "a.key");
    assert_eq!(keys[1], "b.key");
    assert_eq!(keys[2], "c.key");
}

#[test]
fn test_get_with_prefix() {
    let mut store = ConfigStore::new();

    store.set("torch.profiling", "on");
    store.set("torch.mode", "random");
    store.set("server.port", "8080");

    let torch_configs = store.get_with_prefix("torch.");
    assert_eq!(torch_configs.len(), 2);
    assert!(torch_configs.contains_key("torch.profiling"));
    assert!(torch_configs.contains_key("torch.mode"));
    assert!(!torch_configs.contains_key("server.port"));
}

#[test]
fn test_remove_with_prefix() {
    let mut store = ConfigStore::new();

    store.set("torch.profiling", "on");
    store.set("torch.mode", "random");
    store.set("server.port", "8080");

    let removed = store.remove_with_prefix("torch.");
    assert_eq!(removed, 2);
    assert!(!store.contains_key("torch.profiling"));
    assert!(!store.contains_key("torch.mode"));
    assert!(store.contains_key("server.port"));
}

#[test]
fn test_len_and_is_empty() {
    let mut store = ConfigStore::new();

    assert!(store.is_empty(), "Store should be empty after clear");
    assert_eq!(store.len(), 0, "Length should be 0 after clear");

    store.set("test.key", "value");
    assert!(!store.is_empty(), "Store should not be empty after setting a key");
    assert_eq!(store.len(), 1, "Length should be 1 after setting one key");

    store.clear();
    assert!(store.is_empty(), "Store should be empty after clear");
    assert_eq!(store.len(), 0, "Length should be 0 after clear");
}

#[test]
fn keys_come_out_sorted_whatever_the_order_of_writes() {
    let mut store = ConfigStore::new();
    for key in ["server.port", "a", "torch.mode", "", "server", "torch.profiling", "b.key", "ab"] {
        store.set(key, key);
    }
    store.set("a", "again");
    let keys = store.keys();
    assert_eq!(
        keys,
        vec!["", "a", "ab", "b.key", "server", "server.port", "torch.mode", "torch.profiling"]
    );
    assert_eq!(store.len(), 8);
    assert_eq!(store.get_str("a"), Some("again".to_string()));
    assert_eq!(store.get("zz"), None);
}

#[test]
fn keys_order_by_code_point() {
    let mut store = ConfigStore::new();
    store.set("é", 1i32);
    store.set("z", 2i32);
    store.set("Z", 3i32);
    store.set("z.a", 4i32);
    assert_eq!(store.keys(), vec!["Z", "z", "z.a", "é"]);
}

#[test]
fn prefix_scan_is_exact_and_sorted() {
    let mut store = ConfigStore::new();
    store.set("torch.profiling", "on");
    store.set("torch", "bare");
    store.set("torch.mode", "random");
    store.set("torchx", "other");
    store.set("server.port", "8080");

    let scan = store.get_with_prefix("torch.");
    assert_eq!(scan.keys(), vec!["torch.mode", "torch.profiling"]);
    assert_eq!(scan.get_str("torch.mode"), Some("random".to_string()));

    let wide = store.get_with_prefix("torch");
    assert_eq!(wide.keys(), vec!["torch", "torch.mode", "torch.profiling", "torchx"]);

    assert_eq!(store.get_with_prefix("none").len(), 0);
    assert_eq!(store.all(), store);
    assert_eq!(store.len(), 5);
}

#[test]
fn remove_of_a_missing_key_changes_nothing() {
    let mut store = ConfigStore::new();
    store.set("k", "v");
    assert_eq!(store.remove("other"), None);
    assert_eq!(store.len(), 1);
    assert_eq!(store.remove_with_prefix("x"), 0);
    assert_eq!(store.remove_with_prefix(""), 1);
    assert!(store.is_empty());
}

#[test]
fn timestamps_render_as_rfc_3339() {
    let mut store = ConfigStore::new();
    store.set("at", Ele::DataTime(1_662_921_288_000_000));
    assert_eq!(store.get_str("at"), Some("2022-09-11T18:34:48+00:00".to_string()));
    store.set("nil", Ele::Nil);
    assert_eq!(store.get_str("nil"), Some("nil".to_string()));
    store.set("late", Ele::DataTime(u64::MAX));
    assert_eq!(store.get_str("late"), Some("18446744073709551615".to_string()));
}
