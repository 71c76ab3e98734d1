use probing::config::ConfigStore;
use probing::engine::Plugin;
use probing::extension::{
    EngineCall, EngineDatasource, EngineError, EngineExtension, EngineExtensionManager,
    EngineExtensionOption,
};
use std::collections::HashMap;

#[derive(Debug)]
struct TestExtension {
    name: String,
    key: String,
    test_option: String,
    locked: bool,
}

impl TestExtension {
    fn named(name: &str) -> Self {
        TestExtension::with_key(name, "option")
    }

    fn with_key(name: &str, key: &str) -> Self {
        TestExtension {
            name: name.to_string(),
            key: key.to_string(),
            test_option: "default".to_string(),
            locked: false,
        }
    }
}

impl Default for TestExtension {
    fn default() -> Self {
        TestExtension::named("test")
    }
}

impl EngineCall for TestExtension {
    fn call(
        &self,
        path: &str,
        _params: &HashMap<String, String>,
        body: &[u8],
    ) -> Result<Vec<u8>, EngineError> {
        match path {
            "echo" => Ok(body.to_vec()),
            "broken" => Err(EngineError::PluginError("broken".to_string())),
            _ => Err(EngineError::UnsupportedCall),
        }
    }
}

impl EngineDatasource for TestExtension {
    fn datasrc(&self, _namespace: &str, _name: Option<&str>) -> Option<Plugin> {
        None
    }
}

impl EngineExtension for TestExtension {
    fn name(&self) -> String {
        self.name.clone()
    }

    fn set(&mut self, key: &str, value: &str) -> Result<String, EngineError> {
        if key != self.key {
            return Err(EngineError::UnsupportedOption(key.to_string()));
        }
        if self.locked {
            return Err(EngineError::ReadOnlyOption(key.to_string()));
        }
        let old = self.test_option.clone();
        self.test_option = value.to_string();
        Ok(old)
    }

    fn get(&self, key: &str) -> Result<String, EngineError> {
        if key != self.key {
            return Err(EngineError::UnsupportedOption(key.to_string()));
        }
        Ok(self.test_option.clone())
    }

    fn options(&self) -> Vec<EngineExtensionOption> {
        vec![EngineExtensionOption {
            key: self.key.clone(),
            value: Some(self.test_option.clone()),
            help: "Test option",
        }]
    }
}

#[test]
fn test_set_option_syncs_to_config_store() {
    let mut store = ConfigStore::default();
    let mut manager = EngineExtensionManager::default();
    manager.register("test".to_string(), TestExtension::default());

    manager.set_option_with_store_update(&mut store, "test.option", "new_value").unwrap();

    assert_eq!(store.get_str("test.option"), Some("new_value".to_string()));
    assert_eq!(manager.get_option("test.option").unwrap(), "new_value");
}

#[test]
fn test_set_option_updates_existing_value() {
    let mut store = ConfigStore::new();
    store.set("test.option", "old_value");

    let mut manager = EngineExtensionManager::new();
    manager.register("test".to_string(), TestExtension::default());

    manager.set_option_with_store_update(&mut store, "test.option", "new_value").unwrap();

    assert_eq!(store.get_str("test.option"), Some("new_value".to_string()));
}

#[test]
fn test_set_option_unsupported_key() {
    let mut store = ConfigStore::new();
    let mut manager = EngineExtensionManager::new();
    manager.register("test".to_string(), TestExtension::default());

    let result = manager.set_option("test.invalid", "value");
    assert!(result.is_err());
    assert!(matches!(result.unwrap_err(), EngineError::UnsupportedOption(_)));

    assert!(!store.contains_key("test.invalid"));

    let again = manager.set_option_with_store_update(&mut store, "test.invalid", "value");
    assert_eq!(again, Err(EngineError::UnsupportedOption("test.invalid".to_string())));
    assert!(!store.contains_key("test.invalid"));
    assert!(store.is_empty());
}

#[test]
fn test_get_option_from_config_store() {
    let mut store = ConfigStore::new();
    store.set("test.option", "stored_value");
    assert_eq!(store.get_str("test.option"), Some("stored_value".to_string()));
}

#[test]
fn namespace_is_lower_case_name_without_extension_and_a_dot() {
    assert_eq!(EngineExtensionManager::<TestExtension>::extract_namespace("PythonExtension"), "python.");
    assert_eq!(EngineExtensionManager::<TestExtension>::extract_namespace("test"), "test.");
    assert_eq!(EngineExtensionManager::<TestExtension>::extract_namespace("Extension"), ".");
    assert_eq!(EngineExtensionManager::<TestExtension>::extract_namespace("ExtensionX"), "extensionx.");
    assert_eq!(EngineExtensionManager::<TestExtension>::extract_namespace("ÄB"), "äb.");
}

#[test]
fn namespace_of_a_lower_case_name() {
    assert_eq!(probing::extension::namespace_from_lower("pythonextension"), "python.");
    assert_eq!(probing::extension::namespace_from_lower("test"), "test.");
    assert_eq!(probing::extension::namespace_from_lower("extension"), ".");
    assert_eq!(probing::extension::namespace_from_lower(""), ".");
    assert_eq!(probing::extension::namespace_from_lower("extensionextension"), "extension.");
    assert_eq!(probing::extension::namespace_from_lower("xtension"), "xtension.");
    assert_eq!(probing::extension::namespace_from_lower("PythonExtension"), "PythonExtension.");
    assert_eq!(probing::extension::namespace_from_lower("äextension"), "ä.");
}

#[test]
fn an_extension_is_asked_with_what_follows_its_namespace() {
    assert_eq!(probing::extension::local_key_for("test", "test.option"), Some("option"));
    assert_eq!(probing::extension::local_key_for("TestExtension", "test.option"), Some("option"));
    assert_eq!(probing::extension::local_key_for("test", "test.test.option"), Some("test.option"));
    assert_eq!(probing::extension::local_key_for("test", "test."), Some(""));
    assert_eq!(probing::extension::local_key_for("test", "test"), None);
    assert_eq!(probing::extension::local_key_for("test", "Test.option"), None);
    assert_eq!(probing::extension::local_key_for("test", "other.test.option"), None);
    assert_eq!(probing::extension::local_key_for("Extension", ".x"), Some("x"));
    assert_eq!(probing::extension::local_key_for("Ä", "ä.ö"), Some("ö"));

    assert_eq!(probing::extension::local_path_for("test", "/test/echo"), Some("echo"));
    assert_eq!(probing::extension::local_path_for("test", "/test/a/b"), Some("a/b"));
    assert_eq!(probing::extension::local_path_for("test", "/test/"), Some(""));
    assert_eq!(probing::extension::local_path_for("Test", "/test/echo"), None);
    assert_eq!(probing::extension::local_path_for("test", "test/echo"), None);
    assert_eq!(probing::extension::local_path_for("test", "/test"), None);
    assert_eq!(probing::extension::local_path_for("test", "/test/test/echo"), Some("test/echo"));
}

#[test]
fn first_accept_wins() {
    let mut manager = EngineExtensionManager::new();
    manager.register("z".to_string(), TestExtension::named("Shared"));
    manager.register("a".to_string(), TestExtension::named("SharedExtension"));

    assert_eq!(manager.set_option("shared.option", "v"), Ok(()));
    let options = manager.options();
    assert_eq!(options.len(), 2);
    assert_eq!(options[0].value, Some("v".to_string()));
    assert_eq!(options[1].value, Some("default".to_string()));
    assert_eq!(options[0].key, "option");
    assert_eq!(manager.get_option("shared.option"), Ok("v".to_string()));
}

#[test]
fn an_extension_that_does_not_know_the_key_lets_the_next_one_answer() {
    let mut manager = EngineExtensionManager::new();
    manager.register("one".to_string(), TestExtension::with_key("Shared", "left"));
    manager.register("two".to_string(), TestExtension::with_key("shared", "right"));

    assert_eq!(manager.set_option("shared.right", "v"), Ok(()));
    let options = manager.options();
    assert_eq!(options[0].value, Some("default".to_string()));
    assert_eq!(options[1].value, Some("v".to_string()));
    assert_eq!(manager.get_option("shared.right"), Ok("v".to_string()));
    assert_eq!(manager.get_option("shared.left"), Ok("default".to_string()));
}

#[test]
fn the_dispatch_goes_by_the_names_that_extensions_give_themselves() {
    let mut manager = EngineExtensionManager::new();
    manager.register("a".to_string(), TestExtension::with_key("test", "option"));
    manager.register("b".to_string(), TestExtension::with_key("TestExtension", "other"));

    assert_eq!(manager.set_option("test.other", "v"), Ok(()));
    let options = manager.options();
    assert_eq!(options[0].value, Some("default".to_string()));
    assert_eq!(options[1].value, Some("v".to_string()));
    assert_eq!(manager.get_option("test.other"), Ok("v".to_string()));
    assert_eq!(manager.get_option("test.option"), Ok("default".to_string()));

    assert_eq!(manager.set_option("a.option", "w"), Err(EngineError::UnsupportedOption("a.option".to_string())));
    assert_eq!(manager.set_option("b.other", "w"), Err(EngineError::UnsupportedOption("b.other".to_string())));
    assert_eq!(manager.get_option("a.option"), Err(EngineError::UnsupportedOption("a.option".to_string())));
    assert_eq!(manager.get_option("test.other"), Ok("v".to_string()));
}

#[test]
fn an_error_other_than_unsupported_stops_the_dispatch() {
    let mut manager = EngineExtensionManager::new();
    let mut first = TestExtension::named("shared");
    first.locked = true;
    manager.register("one".to_string(), first);
    manager.register("two".to_string(), TestExtension::named("SHARED"));

    let result = manager.set_option("shared.option", "v");
    assert_eq!(result, Err(EngineError::ReadOnlyOption("option".to_string())));
    assert_eq!(manager.options()[1].value, Some("default".to_string()));

    let missing = manager.set_option("other.option", "v");
    assert_eq!(missing, Err(EngineError::UnsupportedOption("other.option".to_string())));
    let unknown = manager.get_option("shared.unknown");
    assert_eq!(unknown, Err(EngineError::UnsupportedOption("shared.unknown".to_string())));
}

#[test]
fn the_namespace_is_taken_from_the_front_once() {
    let mut manager = EngineExtensionManager::new();
    manager.register("test".to_string(), TestExtension::default());
    assert_eq!(
        manager.set_option("test.test.option", "v"),
        Err(EngineError::UnsupportedOption("test.test.option".to_string()))
    );
    assert_eq!(manager.get_option("test.option"), Ok("default".to_string()));
    assert_eq!(
        manager.get_option("test.test.option"),
        Err(EngineError::UnsupportedOption("test.test.option".to_string()))
    );

    let mut nested = EngineExtensionManager::new();
    nested.register("test".to_string(), TestExtension::with_key("test", "test.option"));
    assert_eq!(nested.set_option("test.test.option", "v"), Ok(()));
    assert_eq!(nested.get_option("test.test.option"), Ok("v".to_string()));
    assert_eq!(nested.options()[0].key, "test.option");
    assert_eq!(
        nested.set_option("test.option", "w"),
        Err(EngineError::UnsupportedOption("test.option".to_string()))
    );
}

#[test]
fn registering_a_name_again_replaces_in_place() {
    let mut manager = EngineExtensionManager::new();
    manager.register("a".to_string(), TestExtension::named("first"));
    manager.register("b".to_string(), TestExtension::named("second"));
    let mut third = TestExtension::named("third");
    third.test_option = "fresh".to_string();
    manager.register("a".to_string(), third);
    assert_eq!(manager.len(), 2);
    let options = manager.options();
    assert_eq!(options.len(), 2);
    assert_eq!(options[0].value, Some("fresh".to_string()));
    assert_eq!(options[1].value, Some("default".to_string()));
    manager.set_option("third.option", "x").unwrap();
    assert_eq!(manager.get_option("third.option"), Ok("x".to_string()));
    assert_eq!(manager.get_option("second.option"), Ok("default".to_string()));
    assert_eq!(manager.get_option("first.option"), Err(EngineError::UnsupportedOption("first.option".to_string())));
}

#[test]
fn the_second_half_of_a_write_through_stores_or_hands_back() {
    let mut store = ConfigStore::new();
    assert_eq!(probing::config::store_routed(&mut store, "probing.a", "1", Ok(())), Ok(()));
    assert_eq!(store.get_str("probing.a"), Some("1".to_string()));
    assert_eq!(
        probing::config::store_routed(
            &mut store,
            "probing.b",
            "2",
            Err(EngineError::UnsupportedOption("b".to_string()))
        ),
        Ok(())
    );
    assert_eq!(store.get_str("probing.b"), Some("2".to_string()));
    assert_eq!(
        probing::config::store_routed(
            &mut store,
            "probing.c",
            "3",
            Err(EngineError::InvalidOptionValue("c".to_string(), "3".to_string()))
        ),
        Err(EngineError::InvalidOptionValue("c".to_string(), "3".to_string()))
    );
    assert_eq!(
        probing::config::store_routed(&mut store, "probing.a", "4", Err(EngineError::UnsupportedCall)),
        Err(EngineError::UnsupportedCall)
    );
    assert_eq!(store.get_str("probing.a"), Some("1".to_string()));
    assert!(!store.contains_key("probing.c"));
    assert_eq!(store.len(), 2);
}

#[test]
fn session_entries_carry_the_probing_prefix() {
    let mut manager = EngineExtensionManager::new();
    manager.register("test".to_string(), TestExtension::default());
    let entries = manager.entries();
    assert_eq!(entries.len(), 1);
    assert_eq!(entries[0].key, "probing.option");
    assert_eq!(entries[0].value, Some("default".to_string()));
    assert_eq!(entries[0].help, "Test option");
}

#[test]
fn calls_go_to_the_extension_named_in_the_path() {
    let mut manager = EngineExtensionManager::new();
    manager.register("test".to_string(), TestExtension::default());
    let params = HashMap::new();

    assert_eq!(manager.call("/test/echo", &params, b"hi"), Ok(b"hi".to_vec()));
    assert_eq!(
        manager.call("/test/other", &params, b""),
        Err(EngineError::CallError("/test/other".to_string()))
    );
    assert_eq!(
        manager.call("/none/echo", &params, b""),
        Err(EngineError::CallError("/none/echo".to_string()))
    );
    assert_eq!(
        manager.call("/test/broken", &params, b""),
        Err(EngineError::PluginError("broken".to_string()))
    );
    assert_eq!(
        manager.call("test/echo", &params, b""),
        Err(EngineError::CallError("test/echo".to_string()))
    );

    let mut renamed = EngineExtensionManager::new();
    renamed.register("r".to_string(), TestExtension::named("Test"));
    assert_eq!(renamed.call("/Test/echo", &params, b"hi"), Ok(b"hi".to_vec()));
    assert_eq!(renamed.call("/r/echo", &params, b"hi"), Err(EngineError::CallError("/r/echo".to_string())));
    assert_eq!(renamed.call("/test/echo", &params, b"hi"), Err(EngineError::CallError("/test/echo".to_string())));
}

#[test]
fn write_through_reaches_the_extension_and_the_store() {
    let mut store = ConfigStore::new();
    let mut manager = EngineExtensionManager::new();
    manager.register("test".to_string(), TestExtension::default());

    probing::config::write(&mut manager, &mut store, "probing.test.option", "x").unwrap();
    assert_eq!(store.get_str("probing.test.option"), Some("x".to_string()));
    assert_eq!(manager.get_option("test.option"), Ok("x".to_string()));
}

#[test]
fn write_of_a_plain_key_is_stored_only() {
    let mut store = ConfigStore::new();
    let mut manager = EngineExtensionManager::new();
    manager.register("test".to_string(), TestExtension::default());

    probing::config::write(&mut manager, &mut store, "test.option", "new_value").unwrap();
    assert_eq!(store.get_str("test.option"), Some("new_value".to_string()));
    assert_eq!(manager.get_option("test.option"), Ok("default".to_string()));
}

#[test]
fn unclaimed_probing_key_falls_through() {
    let mut store = ConfigStore::new();
    let mut manager: EngineExtensionManager<TestExtension> = EngineExtensionManager::new();

    assert_eq!(probing::config::write(&mut manager, &mut store, "probing.test.key", "v"), Ok(()));
    assert_eq!(store.get_str("probing.test.key"), Some("v".to_string()));

    manager.register("test".to_string(), TestExtension::default());
    assert_eq!(probing::config::write(&mut manager, &mut store, "probing.test.other", "w"), Ok(()));
    assert_eq!(store.get_str("probing.test.other"), Some("w".to_string()));
    assert_eq!(probing::config::write(&mut manager, &mut store, "probing", "1"), Ok(()));
    assert_eq!(store.get_str("probing"), Some("1".to_string()));
}

#[test]
fn write_hands_back_the_error_of_the_extension_and_stores_nothing() {
    let mut store = ConfigStore::new();
    let mut manager = EngineExtensionManager::new();
    let mut locked = TestExtension::default();
    locked.locked = true;
    manager.register("test".to_string(), locked);

    let result = probing::config::write(&mut manager, &mut store, "probing.test.option", "x");
    assert_eq!(result, Err(EngineError::ReadOnlyOption("option".to_string())));
    assert!(store.is_empty());
}

#[test]
fn test_config_set_syncs_to_config_store() {
    let mut store = ConfigStore::new();
    let mut manager = EngineExtensionManager::new();
    manager.register("test".to_string(), TestExtension::default());

    probing::config::write(&mut manager, &mut store, "test.option", "new_value").unwrap();

    let value = store.get_str("test.option");
    assert_eq!(value, Some("new_value".to_string()));
}

#[test]
fn test_config_set_with_probing_prefix_updates_engine() {
    let mut store = ConfigStore::new();
    let mut manager: EngineExtensionManager<TestExtension> = EngineExtensionManager::new();

    let _result = probing::config::write(&mut manager, &mut store, "probing.test.key", "test_value");
    let _value = store.get_str("probing.test.key");
}

#[test]
fn test_config_get_from_config_store() {
    let mut store = ConfigStore::new();
    let mut manager = EngineExtensionManager::new();
    manager.register("test".to_string(), TestExtension::default());

    probing::config::write(&mut manager, &mut store, "test.option", "stored_value").unwrap();

    let store_value = store.get_str("test.option");
    assert_eq!(store_value, Some("stored_value".to_string()));

    let value = store.get_str("test.option").unwrap();
    assert_eq!(value, "stored_value");
}

#[test]
fn test_config_set_updates_extension_and_store() {
    let mut store = ConfigStore::new();
    let mut manager = EngineExtensionManager::new();
    manager.register("test".to_string(), TestExtension::default());

    probing::config::write(&mut manager, &mut store, "test.option", "extension_value").unwrap();

    let store_value = store.get_str("test.option");
    assert_eq!(store_value, Some("extension_value".to_string()));

    let value = store.get_str("test.option").unwrap();
    assert_eq!(value, "extension_value");
}

#[test]
fn test_config_set_engine_not_initialized() {
    let mut store = ConfigStore::new();
    let mut manager: EngineExtensionManager<TestExtension> = EngineExtensionManager::new();

    let _result = probing::config::write(&mut manager, &mut store, "test.nonexistent", "value");
}

fn option(key: &str, value: Option<&str>) -> EngineExtensionOption {
    EngineExtensionOption { key: key.to_string(), value: value.map(String::from), help: "help" }
}

#[test]
fn lists_of_options_are_joined_one_behind_the_other() {
    let lists = vec![vec![option("a", Some("1")), option("b", None)], vec![], vec![option("c", Some("3"))]];
    assert_eq!(
        probing::extension::join_options(lists),
        vec![option("a", Some("1")), option("b", None), option("c", Some("3"))]
    );
    assert_eq!(probing::extension::join_options(vec![]), vec![]);
    assert_eq!(
        probing::extension::as_session_entries(vec![option("a", Some("1")), option("b", None)]),
        vec![option("probing.a", Some("1")), option("probing.b", None)]
    );

    let mut manager = EngineExtensionManager::new();
    let mut first = TestExtension::named("first");
    first.test_option = "one".to_string();
    manager.register("z".to_string(), first);
    manager.register("a".to_string(), TestExtension::named("second"));
    let keys: Vec<Option<String>> = manager.options().into_iter().map(|o| o.value).collect();
    assert_eq!(keys, vec![Some("one".to_string()), Some("default".to_string())]);
    let entries = manager.entries();
    assert_eq!(entries.len(), 2);
    assert_eq!(entries[0], option_with_help("probing.option", Some("one"), "Test option"));
}

fn option_with_help(key: &str, value: Option<&str>, help: &'static str) -> EngineExtensionOption {
    EngineExtensionOption { key: key.to_string(), value: value.map(String::from), help }
}
