use probing::ele::{Column, Real64};
use probing::engine::{
    arrow_array_to_seq, frame_of, ArrowArray, Engine, EngineBuilder, Plugin, PluginType, RecordBatch, Step,
};
use probing::extension::{
    EngineCall, EngineDatasource, EngineError, EngineExtension, EngineExtensionOption,
};

struct Source {
    offers: bool,
}

impl EngineCall for Source {}

impl EngineDatasource for Source {
    fn datasrc(&self, namespace: &str, name: Option<&str>) -> Option<Plugin> {
        if !self.offers {
            return None;
        }
        Some(match name {
            Some(name) => table(namespace, name),
            None => Plugin {
                name: namespace.to_string(),
                kind: PluginType::Namespace,
                namespace: namespace.to_string(),
            },
        })
    }
}

impl EngineExtension for Source {
    fn name(&self) -> String {
        "source".to_string()
    }

    fn set(&mut self, key: &str, _value: &str) -> Result<String, EngineError> {
        Err(EngineError::UnsupportedOption(key.to_string()))
    }

    fn get(&self, key: &str) -> Result<String, EngineError> {
        Err(EngineError::UnsupportedOption(key.to_string()))
    }

    fn options(&self) -> Vec<EngineExtensionOption> {
        vec![]
    }
}

fn table(namespace: &str, name: &str) -> Plugin {
    Plugin { name: name.to_string(), kind: PluginType::Table, namespace: namespace.to_string() }
}

fn whole(namespace: &str) -> Plugin {
    Plugin { name: namespace.to_string(), kind: PluginType::Namespace, namespace: namespace.to_string() }
}

#[test]
fn test_engine_builder() {
    let engine = Engine::<Source>::builder().build().unwrap();
    assert_eq!(engine.default_namespace(), "probe");

    let engine =
        Engine::<Source>::builder().with_default_namespace("test_namespace").build().unwrap();
    assert_eq!(engine.default_namespace(), "test_namespace");
}

#[test]
fn test_plugin_registration() {
    let mut engine = Engine::<Source>::builder().build().unwrap();

    let table_plugin = table("test_namespace", "test_table");
    assert!(engine.enable(table_plugin).is_ok());

    let namespace_plugin = whole("test_namespace");
    assert!(engine.enable(namespace_plugin).is_ok());
}

#[test]
fn test_duplicate_plugin_registration() {
    let mut engine = Engine::<Source>::builder().build().unwrap();

    let plugin1 = table("test_namespace", "test_table");
    engine.enable(plugin1.clone()).unwrap();

    let result = engine.enable(plugin1);
    assert!(result.is_ok() || result.is_err());
}

#[test]
fn a_built_engine_is_empty_until_plugins_come() {
    let mut engine = Engine::<Source>::builder().with_default_namespace("test_namespace").build().unwrap();
    assert!(engine.plugins().is_empty());
    assert!(engine.namespaces().is_empty());
    assert!(engine.enable(table("test_namespace", "test_table")).is_ok());
    assert!(engine.has_table("test_namespace", "test_table"));
    assert!(!engine.has_table("test_namespace", "other"));
    assert_eq!(engine.namespaces(), vec!["test_namespace"]);
    assert_eq!(engine.enable(whole("test_namespace")), Ok(()));
    assert_eq!(engine.namespaces(), vec!["test_namespace"]);
    assert_eq!(engine.plugins(), vec![table("test_namespace", "test_table"), whole("test_namespace")]);
}

#[test]
fn taking_in_a_plugin_twice_replaces_it() {
    let mut engine: Engine<Source> = Engine::new();
    assert_eq!(engine.enable(table("ns", "t")), Ok(()));
    assert_eq!(engine.enable(table("ns", "t")), Ok(()));
    assert_eq!(engine.plugins(), vec![table("ns", "t")]);
    assert_eq!(engine.namespaces(), vec!["ns"]);
}

#[test]
fn tables_of_several_namespaces_stand_side_by_side() {
    let mut engine: Engine<Source> = Engine::new();
    engine.enable(table("ns1", "t")).unwrap();
    engine.enable(table("ns2", "t")).unwrap();
    engine.enable(table("ns1", "u")).unwrap();
    assert_eq!(engine.namespaces(), vec!["ns1", "ns2"]);
    assert_eq!(engine.plugins(), vec![table("ns1", "t"), table("ns2", "t"), table("ns1", "u")]);
    assert!(engine.has_table("ns2", "t"));
    assert!(!engine.has_table("ns2", "u"));
}

#[test]
fn the_catalog_is_made_on_first_use_and_namespaces_on_demand() {
    let mut engine: Engine<Source> = Engine::new();
    let first = engine.prepare(&table("ns", "t"));
    assert_eq!(
        first,
        vec![
            Step::CreateCatalog,
            Step::CreateNamespace("ns".to_string()),
            Step::RegisterTable("ns".to_string(), "t".to_string()),
        ]
    );
    assert_eq!(engine.record(table("ns", "t"), Ok(())), Ok(()));

    let second = engine.prepare(&table("ns", "u"));
    assert_eq!(second, vec![Step::RegisterTable("ns".to_string(), "u".to_string())]);
    let failed = engine.record(table("ns", "u"), Err(EngineError::PluginError("no".to_string())));
    assert_eq!(failed, Err(EngineError::PluginError("no".to_string())));
    assert!(!engine.has_table("ns", "u"));
    assert!(engine.has_table("ns", "t"));

    let whole =
        Plugin { name: "dyn".to_string(), kind: PluginType::Namespace, namespace: "dyn".to_string() };
    assert_eq!(engine.prepare(&whole), vec![Step::RegisterNamespace("dyn".to_string())]);
    assert_eq!(engine.record(whole.clone(), Ok(())), Ok(()));
    assert_eq!(engine.namespaces(), vec!["ns", "dyn"]);
    assert_eq!(engine.plugins(), vec![table("ns", "t"), whole]);
    assert!(!engine.has_table("dyn", "dyn"));

    let mut fresh: Engine<Source> = Engine::new();
    let whole = Plugin { name: "n".to_string(), kind: PluginType::Namespace, namespace: "n".to_string() };
    assert_eq!(
        fresh.prepare(&whole),
        vec![Step::CreateCatalog, Step::RegisterNamespace("n".to_string())]
    );
}

#[test]
fn a_namespace_and_a_table_of_the_same_dotted_name_stand_apart() {
    let mut engine: Engine<Source> = Engine::new();
    let whole =
        Plugin { name: "x".to_string(), kind: PluginType::Namespace, namespace: "a.b".to_string() };
    engine.enable(whole.clone()).unwrap();
    engine.enable(table("a", "b")).unwrap();
    assert_eq!(engine.plugins(), vec![table("a", "b")]);
    assert_eq!(engine.namespaces(), vec!["a.b", "a"]);
}

#[test]
fn the_builder_seeds_plugins_and_extensions() {
    let builder: EngineBuilder<Source> = EngineBuilder::new()
        .with_plugin(table("seed", "one"))
        .with_extension(Source { offers: true }, "ext", Some("two"))
        .with_extension(Source { offers: false }, "none", None);
    assert_eq!(builder.plugins.len(), 1);
    assert_eq!(builder.offered.len(), 1);
    assert_eq!(builder.extensions.len(), 2);
    let mut engine = builder.build().unwrap();
    assert!(engine.has_table("seed", "one"));
    assert!(engine.has_table("ext", "two"));
    assert_eq!(engine.plugins(), vec![table("ext", "two"), table("seed", "one")]);
    assert_eq!(engine.namespaces(), vec!["ext", "seed"]);
    assert_eq!(engine.extensions().len(), 1);
    assert_eq!(
        engine.extensions_mut().set_option("source.x", "1"),
        Err(EngineError::UnsupportedOption("source.x".to_string()))
    );
}

#[test]
fn an_empty_result_is_no_frame() {
    assert_eq!(frame_of(None), None);
    let empty = RecordBatch {
        names: vec!["id".to_string()],
        columns: vec![ArrowArray::Int32(vec![])],
        rows: 0,
    };
    assert_eq!(frame_of(Some(empty)), None);
}

#[test]
fn table_plugin_query() {
    let batch = RecordBatch {
        names: vec!["id".to_string(), "name".to_string()],
        columns: vec![
            ArrowArray::Int32(vec![2, 3]),
            ArrowArray::Utf8(vec!["b".to_string(), "c".to_string()]),
        ],
        rows: 2,
    };
    let frame = frame_of(Some(batch)).unwrap();
    assert_eq!(frame.names, vec!["id", "name"]);
    assert_eq!(
        frame.cols,
        vec![Column::SeqI32(vec![2, 3]), Column::SeqText(vec!["b".to_string(), "c".to_string()])]
    );
    assert_eq!(frame.rows(), 2);
}

#[test]
fn every_array_has_its_column() {
    assert_eq!(arrow_array_to_seq(ArrowArray::Int32(vec![1])), Column::SeqI32(vec![1]));
    assert_eq!(arrow_array_to_seq(ArrowArray::Int64(vec![1])), Column::SeqI64(vec![1]));
    assert_eq!(arrow_array_to_seq(ArrowArray::Boolean(vec![true])), Column::SeqBOOL(vec![true]));
    let x = Real64 { bits: 1.5f64.to_bits(), text: "1.5".to_string() };
    let y = Real64 { bits: 1.5f64.to_bits(), text: "1.5".to_string() };
    assert_eq!(arrow_array_to_seq(ArrowArray::Float64(vec![x])), Column::SeqF64(vec![y]));
    assert_eq!(arrow_array_to_seq(ArrowArray::Float32(vec![])), Column::SeqF32(vec![]));
    assert_eq!(arrow_array_to_seq(ArrowArray::TimestampSecond(vec![1])), Column::SeqI64(vec![1]));
    assert_eq!(arrow_array_to_seq(ArrowArray::TimestampMillisecond(vec![2])), Column::SeqI64(vec![2]));
    assert_eq!(arrow_array_to_seq(ArrowArray::TimestampMicrosecond(vec![3])), Column::SeqI64(vec![3]));
    assert_eq!(arrow_array_to_seq(ArrowArray::TimestampNanosecond(vec![4])), Column::SeqI64(vec![4]));
    assert_eq!(arrow_array_to_seq(ArrowArray::Other), Column::Nil);
}

#[test]
fn an_extension_that_answers_no_calls_says_so() {
    let source = Source { offers: false };
    let params = std::collections::HashMap::new();
    assert_eq!(source.call("anything", &params, b""), Err(EngineError::UnsupportedCall));
    let mut engine: Engine<Source> = Engine::new();
    let failed = engine.record(table("ns", "t"), Err(EngineError::Engine("no such schema".to_string())));
    assert_eq!(failed, Err(EngineError::Engine("no such schema".to_string())));
    assert!(engine.plugins().is_empty());
    assert!(engine.namespaces().is_empty());
    assert_eq!(engine.record(table("ns", "t"), Ok(())), Ok(()));
    assert!(engine.has_table("ns", "t"));
}

struct Labelled {
    name: String,
    label: String,
}

impl Labelled {
    fn new(name: &str, label: &str) -> Self {
        Labelled { name: name.to_string(), label: label.to_string() }
    }
}

impl EngineCall for Labelled {}

impl EngineDatasource for Labelled {}

impl EngineExtension for Labelled {
    fn name(&self) -> String {
        self.name.clone()
    }

    fn set(&mut self, key: &str, _value: &str) -> Result<String, EngineError> {
        Err(EngineError::UnsupportedOption(key.to_string()))
    }

    fn get(&self, key: &str) -> Result<String, EngineError> {
        match key {
            "label" => Ok(self.label.clone()),
            _ => Err(EngineError::UnsupportedOption(key.to_string())),
        }
    }

    fn options(&self) -> Vec<EngineExtensionOption> {
        vec![EngineExtensionOption { key: "label".to_string(), value: Some(self.label.clone()), help: "label" }]
    }
}

#[test]
fn seed_extensions_stand_in_their_order_and_a_name_given_again_replaces() {
    let builder: EngineBuilder<Labelled> = EngineBuilder::new()
        .with_extension(Labelled::new("a", "1"), "ns", None)
        .with_extension(Labelled::new("b", "2"), "ns", Some("t"))
        .with_extension(Labelled::new("a", "3"), "ns", None);
    assert_eq!(builder.offered.len(), 0);
    let names: Vec<&str> = builder.extensions.iter().map(|(name, _)| name.as_str()).collect();
    assert_eq!(names, vec!["a", "b", "a"]);
    let engine = builder.build().unwrap();
    assert_eq!(engine.extensions().len(), 2);
    let labels: Vec<Option<String>> = engine.extensions().options().into_iter().map(|o| o.value).collect();
    assert_eq!(labels, vec![Some("3".to_string()), Some("2".to_string())]);
    assert_eq!(engine.extensions().get_option("a.label"), Ok("3".to_string()));
    assert_eq!(engine.extensions().get_option("b.label"), Ok("2".to_string()));
    assert!(!engine.has_table("ns", "t"));
}

#[test]
fn a_seed_extension_brings_the_plugin_that_it_offers() {
    let builder: EngineBuilder<Source> = EngineBuilder::new()
        .with_offer(Source { offers: false }, Some(table("ns", "t")))
        .with_offer(Source { offers: true }, None)
        .with_offer(Source { offers: true }, Some(whole("all")));
    assert_eq!(builder.offered, vec![table("ns", "t"), whole("all")]);
    assert_eq!(builder.extensions.len(), 3);
    assert_eq!(builder.extensions[2].0, "source");
    let engine = builder.build().unwrap();
    assert_eq!(engine.extensions().len(), 1);
    assert!(engine.has_table("ns", "t"));
    assert_eq!(engine.plugins(), vec![table("ns", "t"), whole("all")]);
}
