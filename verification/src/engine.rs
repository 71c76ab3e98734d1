//! The engine's catalog: the one catalog `probe`, its namespaces, and the
//! index of the plugins that contribute tables and namespaces to it.

use crate::ele::{Column, DataFrame, Real32, Real64};
use crate::extension::{
    registered_members, registered_names, EngineError, EngineExtension, EngineExtensionManager,
};
use crate::text::same_text;
use vstd::prelude::*;

verus! {

/// The kinds of plugin that the engine takes.
#[derive(Clone, Copy, Debug, PartialEq, Eq, Structural)]
pub enum PluginType {
    /// One table, reached as `namespace.name`.
    Table,
    /// A whole namespace, whose tables are found on demand.
    Namespace,
}

/// What the engine's catalog needs to know of a plugin.
#[derive(Debug, PartialEq, Eq)]
pub struct Plugin {
    /// The table's name, for a table plugin.
    pub name: String,
    pub kind: PluginType,
    pub namespace: String,
}

impl Clone for Plugin {
    fn clone(&self) -> (r: Self)
        ensures
            r == *self,
    {
        Plugin { name: self.name.clone(), kind: self.kind, namespace: self.namespace.clone() }
    }
}

/// The name under which the index holds a plugin: `probe.<namespace>` for a
/// namespace plugin, `probe.<namespace>.<name>` for a table plugin.
pub open spec fn key_of(plugin: Plugin) -> Seq<char> {
    match plugin.kind {
        PluginType::Namespace => "probe."@ + plugin.namespace@,
        PluginType::Table => "probe."@ + plugin.namespace@ + "."@ + plugin.name@,
    }
}

/// One thing that the query runtime has to do to take a plugin in.
#[derive(Debug, PartialEq, Eq)]
pub enum Step {
    /// Make the catalog `probe`.
    CreateCatalog,
    /// Make an empty namespace of this name in the catalog.
    CreateNamespace(String),
    /// Let the plugin add its namespace to the catalog.
    RegisterNamespace(String),
    /// Let the plugin add its table (second) to the namespace (first).
    RegisterTable(String, String),
}

/// A step, with its texts as sequences of characters.
pub enum StepView {
    CreateCatalog,
    CreateNamespace(Seq<char>),
    RegisterNamespace(Seq<char>),
    RegisterTable(Seq<char>, Seq<char>),
}

impl View for Step {
    type V = StepView;

    open spec fn view(&self) -> StepView {
        match *self {
            Step::CreateCatalog => StepView::CreateCatalog,
            Step::CreateNamespace(n) => StepView::CreateNamespace(n@),
            Step::RegisterNamespace(n) => StepView::RegisterNamespace(n@),
            Step::RegisterTable(n, t) => StepView::RegisterTable(n@, t@),
        }
    }
}

/// The steps of a list, each by its view.
pub open spec fn step_views(steps: Seq<Step>) -> Seq<StepView> {
    Seq::new(steps.len(), |i: int| steps[i]@)
}

/// The steps that take `plugin` in: the catalog is made on first use, the
/// namespace of a table plugin where it is missing, and then the plugin
/// registers what it brings.
pub open spec fn steps_for(plugin: Plugin, catalog: bool, namespaces: Seq<Seq<char>>) -> Seq<StepView> {
    let first = if catalog {
        Seq::<StepView>::empty()
    } else {
        seq![StepView::CreateCatalog]
    };
    match plugin.kind {
        PluginType::Namespace => first.push(StepView::RegisterNamespace(plugin.namespace@)),
        PluginType::Table => {
            let second = if namespaces.contains(plugin.namespace@) {
                first
            } else {
                first.push(StepView::CreateNamespace(plugin.namespace@))
            };
            second.push(StepView::RegisterTable(plugin.namespace@, plugin.name@))
        },
    }
}

/// The texts of a sequence of strings.
pub open spec fn string_views(v: Seq<String>) -> Seq<Seq<char>> {
    Seq::new(v.len(), |i: int| v[i]@)
}

/// Whether `name` is among `names`.
pub fn contains_text(names: &Vec<String>, name: &str) -> (r: bool)
    ensures
        r == string_views(names@).contains(name@),
{
    let mut i: usize = 0;
    while i < names.len()
        invariant
            i <= names@.len(),
            forall|j: int| 0 <= j < i ==> #[trigger] string_views(names@)[j] != name@,
        decreases names@.len() - i,
    {
        if same_text(names[i].as_str(), name) {
            proof {
                assert(string_views(names@)[i as int] == name@);
            }
            return true;
        }
        i += 1;
    }
    false
}

/// The query engine's catalog and plugin index, with the registry of its
/// extensions.
pub struct Engine<E: EngineExtension> {
    extensions: EngineExtensionManager<E>,
    default_namespace: String,
    catalog: bool,
    namespaces: Vec<String>,
    plugins: Vec<(String, Plugin)>,
}

impl<E: EngineExtension> Default for Engine<E> {
    fn default() -> (r: Self)
        ensures
            r.wf(),
            !r.has_catalog(),
            r.plugin_keys().len() == 0,
            r.default_namespace_view() == "probe"@,
    {
        Engine::new()
    }
}

impl<E: EngineExtension> Default for EngineBuilder<E> {
    fn default() -> (r: Self)
        ensures
            r.default_namespace is None,
            r.plugins@.len() == 0,
            r.extensions@.len() == 0,
    {
        EngineBuilder::new()
    }
}

impl<E: EngineExtension> Engine<E> {
    /// The registry of the extensions whose options the engine's session
    /// reflects.
    pub closed spec fn registry(&self) -> EngineExtensionManager<E> {
        self.extensions
    }

    /// Whether the catalog `probe` exists.
    pub closed spec fn has_catalog(&self) -> bool {
        self.catalog
    }

    /// The namespaces of the catalog, in the order in which they came.
    pub closed spec fn namespaces_view(&self) -> Seq<Seq<char>> {
        string_views(self.namespaces@)
    }

    /// The names under which the index holds the plugins, in the order in
    /// which they came.
    pub closed spec fn plugin_keys(&self) -> Seq<Seq<char>> {
        Seq::new(self.plugins@.len(), |i: int| self.plugins@[i].0@)
    }

    /// The plugins of the index, in the order of their names.
    pub closed spec fn plugins_view(&self) -> Seq<Plugin> {
        Seq::new(self.plugins@.len(), |i: int| self.plugins@[i].1)
    }

    /// The namespace that unqualified table names are looked up in.
    pub closed spec fn default_namespace_view(&self) -> Seq<char> {
        self.default_namespace@
    }

    /// The engine's invariant: no namespace and no plugin name occurs twice,
    /// each plugin stands under its own name, and namespaces exist only
    /// within the catalog.
    pub closed spec fn wf(&self) -> bool {
        &&& self.namespaces_view().no_duplicates()
        &&& self.plugin_keys().no_duplicates()
        &&& !self.catalog ==> self.namespaces@.len() == 0 && self.plugins@.len() == 0
        &&& forall|i: int|
            0 <= i < self.plugins@.len() ==> #[trigger] self.plugin_keys()[i] == key_of(self.plugins_view()[i])
    }

    /// An engine without catalog, plugins or extensions, with `probe` as its
    /// default namespace.
    pub fn new() -> (r: Self)
        ensures
            r.wf(),
            !r.has_catalog(),
            r.namespaces_view().len() == 0,
            r.plugin_keys().len() == 0,
            r.default_namespace_view() == "probe"@,
            r.registry().wf(),
            r.registry().names().len() == 0,
            r.registry().members().len() == 0,
    {
        Engine {
            extensions: EngineExtensionManager::new(),
            default_namespace: "probe".to_owned(),
            catalog: false,
            namespaces: Vec::new(),
            plugins: Vec::new(),
        }
    }

    /// A builder of engines.
    pub fn builder() -> (r: EngineBuilder<E>)
        ensures
            r.default_namespace is None,
            r.plugins@.len() == 0,
            r.extensions@.len() == 0,
    {
        EngineBuilder::new()
    }

    /// The registry of the engine's extensions.
    pub fn extensions(&self) -> (r: &EngineExtensionManager<E>)
        ensures
            *r == self.registry(),
    {
        &self.extensions
    }

    /// The registry of the engine's extensions, to change it.
    pub fn extensions_mut(&mut self) -> (r: &mut EngineExtensionManager<E>)
        ensures
            *r == old(self).registry(),
            final(self).registry() == *final(r),
            final(self).wf() == old(self).wf(),
            final(self).has_catalog() == old(self).has_catalog(),
            final(self).default_namespace_view() == old(self).default_namespace_view(),
            final(self).namespaces_view() == old(self).namespaces_view(),
            final(self).plugin_keys() == old(self).plugin_keys(),
            final(self).plugins_view() == old(self).plugins_view(),
    {
        &mut self.extensions
    }

    /// Makes `options` the registry whose options the engine's session
    /// reflects.
    pub fn register_extension_options(&mut self, options: EngineExtensionManager<E>)
        ensures
            final(self).registry() == options,
            final(self).wf() == old(self).wf(),
            final(self).has_catalog() == old(self).has_catalog(),
            final(self).default_namespace_view() == old(self).default_namespace_view(),
            final(self).namespaces_view() == old(self).namespaces_view(),
            final(self).plugin_keys() == old(self).plugin_keys(),
            final(self).plugins_view() == old(self).plugins_view(),
    {
        self.extensions = options;
    }

    /// The namespace that unqualified table names are looked up in.
    pub fn default_namespace(&self) -> (r: String)
        ensures
            r@ == self.default_namespace_view(),
    {
        self.default_namespace.clone()
    }

    /// The namespaces of the catalog, in the order in which they came.
    pub fn namespaces(&self) -> (r: Vec<String>)
        ensures
            string_views(r@) == self.namespaces_view(),
    {
        let r = self.namespaces.clone();
        proof {
            assert(string_views(r@) =~= self.namespaces_view());
        }
        r
    }

    /// The plugins of the index, in the order in which their names came.
    pub fn plugins(&self) -> (r: Vec<Plugin>)
        ensures
            r@ == self.plugins_view(),
    {
        let mut out: Vec<Plugin> = Vec::new();
        let mut i: usize = 0;
        while i < self.plugins.len()
            invariant
                i <= self.plugins@.len(),
                out@.len() == i,
                forall|j: int| 0 <= j < i ==> #[trigger] out@[j] == self.plugins@[j].1,
            decreases self.plugins@.len() - i,
        {
            out.push(self.plugins[i].1.clone());
            i += 1;
        }
        proof {
            assert(out@ =~= self.plugins_view());
        }
        out
    }

    /// Whether the index holds a table plugin of this namespace and name.
    pub fn has_table(&self, namespace: &str, name: &str) -> (r: bool)
        ensures
            r == exists|i: int|
                0 <= i < self.plugins_view().len() && (#[trigger] self.plugins_view()[i]).kind
                    == PluginType::Table && self.plugins_view()[i].namespace@ == namespace@
                    && self.plugins_view()[i].name@ == name@,
    {
        let mut i: usize = 0;
        while i < self.plugins.len()
            invariant
                i <= self.plugins@.len(),
                forall|j: int|
                    0 <= j < i ==> !((#[trigger] self.plugins_view()[j]).kind == PluginType::Table
                        && self.plugins_view()[j].namespace@ == namespace@ && self.plugins_view()[j].name@
                        == name@),
            decreases self.plugins@.len() - i,
        {
            let p = &self.plugins[i].1;
            proof {
                assert(self.plugins_view()[i as int] == *p);
            }
            if p.kind == PluginType::Table && same_text(p.namespace.as_str(), namespace) && same_text(
                p.name.as_str(),
                name,
            ) {
                return true;
            }
            i += 1;
        }
        false
    }

    /// Makes the catalog and, for a table plugin, its namespace where they
    /// are missing, and lists the steps by which the query runtime takes
    /// the plugin in. The last step is the plugin's own; `record` notes how
    /// it went.
    pub fn prepare(&mut self, plugin: &Plugin) -> (steps: Vec<Step>)
        requires
            old(self).wf(),
        ensures
            final(self).wf(),
            step_views(steps@) == steps_for(*plugin, old(self).has_catalog(), old(self).namespaces_view()),
            final(self).has_catalog(),
            final(self).registry() == old(self).registry(),
            final(self).default_namespace_view() == old(self).default_namespace_view(),
            final(self).plugin_keys() == old(self).plugin_keys(),
            final(self).plugins_view() == old(self).plugins_view(),
            final(self).namespaces_view() == if plugin.kind == PluginType::Table && !old(
                self,
            ).namespaces_view().contains(plugin.namespace@) {
                old(self).namespaces_view().push(plugin.namespace@)
            } else {
                old(self).namespaces_view()
            },
    {
        let mut steps: Vec<Step> = Vec::new();
        if !self.catalog {
            steps.push(Step::CreateCatalog);
            self.catalog = true;
        }
        let ghost first = step_views(steps@);
        match plugin.kind {
            PluginType::Namespace => {
                steps.push(Step::RegisterNamespace(plugin.namespace.clone()));
                proof {
                    assert(step_views(steps@) =~= first.push(StepView::RegisterNamespace(plugin.namespace@)));
                    assert(first =~= if old(self).has_catalog() {
                        Seq::<StepView>::empty()
                    } else {
                        seq![StepView::CreateCatalog]
                    });
                }
            },
            PluginType::Table => {
                let ghost before = self.namespaces_view();
                if !contains_text(&self.namespaces, plugin.namespace.as_str()) {
                    steps.push(Step::CreateNamespace(plugin.namespace.clone()));
                    self.namespaces.push(plugin.namespace.clone());
                    proof {
                        assert(self.namespaces_view() =~= before.push(plugin.namespace@));
                    }
                }
                let ghost second = step_views(steps@);
                steps.push(Step::RegisterTable(plugin.namespace.clone(), plugin.name.clone()));
                proof {
                    assert(first =~= if old(self).has_catalog() {
                        Seq::<StepView>::empty()
                    } else {
                        seq![StepView::CreateCatalog]
                    });
                    assert(second =~= if before.contains(plugin.namespace@) {
                        first
                    } else {
                        first.push(StepView::CreateNamespace(plugin.namespace@))
                    });
                    assert(step_views(steps@) =~= second.push(
                        StepView::RegisterTable(plugin.namespace@, plugin.name@),
                    ));
                }
            },
        }
        steps
    }

    /// Records how the plugin's own step went. Where it succeeded, the
    /// catalog exists and has the plugin's namespace, and the index holds
    /// the plugin under its name, in the place of a plugin that stood under
    /// that name before. Where it failed, the error comes back and catalog
    /// and index stay as they are.
    pub fn record(&mut self, plugin: Plugin, went: Result<(), EngineError>) -> (r: Result<(), EngineError>)
        requires
            old(self).wf(),
        ensures
            final(self).wf(),
            r == went,
            final(self).has_catalog() == (old(self).has_catalog() || went is Ok),
            final(self).registry() == old(self).registry(),
            final(self).default_namespace_view() == old(self).default_namespace_view(),
            went is Err ==> final(self).plugin_keys() == old(self).plugin_keys() && final(self).plugins_view()
                == old(self).plugins_view() && final(self).namespaces_view() == old(self).namespaces_view(),
            went is Ok ==> {
                &&& final(self).namespaces_view() == if old(self).namespaces_view().contains(
                    plugin.namespace@,
                ) {
                    old(self).namespaces_view()
                } else {
                    old(self).namespaces_view().push(plugin.namespace@)
                }
                &&& old(self).plugin_keys().contains(key_of(plugin)) ==> {
                    &&& final(self).plugin_keys() == old(self).plugin_keys()
                    &&& final(self).plugins_view() == old(self).plugins_view().update(
                        old(self).plugin_keys().index_of(key_of(plugin)),
                        plugin,
                    )
                }
                &&& !old(self).plugin_keys().contains(key_of(plugin)) ==> {
                    &&& final(self).plugin_keys() == old(self).plugin_keys().push(key_of(plugin))
                    &&& final(self).plugins_view() == old(self).plugins_view().push(plugin)
                }
            },
    {
        if went.is_err() {
            return went;
        }
        self.catalog = true;
        let ghost spaces = self.namespaces_view();
        if !contains_text(&self.namespaces, plugin.namespace.as_str()) {
            self.namespaces.push(plugin.namespace.clone());
            proof {
                assert(self.namespaces_view() =~= spaces.push(plugin.namespace@));
                assert(self.plugin_keys() =~= old(self).plugin_keys());
                assert(self.plugins_view() =~= old(self).plugins_view());
            }
        }
        proof {
            reveal_strlit("probe.");
            reveal_strlit(".");
        }
        let mut key = "probe.".to_owned();
        key.append(plugin.namespace.as_str());
        match plugin.kind {
            PluginType::Table => {
                key.append(".");
                key.append(plugin.name.as_str());
            },
            PluginType::Namespace => {},
        }
        assert(key@ == key_of(plugin));
        let ghost before = *self;
        let ghost keys = self.plugin_keys();
        let mut i: usize = 0;
        while i < self.plugins.len()
            invariant
                *self == before,
                before.wf(),
                before.has_catalog(),
                went is Ok,
                key@ == key_of(plugin),
                keys == before.plugin_keys(),
                before.registry() == old(self).registry(),
                before.default_namespace_view() == old(self).default_namespace_view(),
                before.plugin_keys() == old(self).plugin_keys(),
                before.plugins_view() == old(self).plugins_view(),
                before.namespaces_view() == if old(self).namespaces_view().contains(plugin.namespace@) {
                    old(self).namespaces_view()
                } else {
                    old(self).namespaces_view().push(plugin.namespace@)
                },
                i <= self.plugins@.len(),
                forall|j: int| 0 <= j < i ==> #[trigger] keys[j] != key@,
            decreases self.plugins@.len() - i,
        {
            if self.plugins[i].0 == key {
                proof {
                    assert(keys[i as int] == key@);
                    let at = keys.index_of(key@);
                    assert(keys[at] == key@);
                    assert(at == i);
                }
                self.plugins.set(i, (key, plugin));
                proof {
                    assert(self.plugin_keys() =~= keys);
                    assert(self.plugins_view() =~= before.plugins_view().update(i as int, plugin));
                    assert(self.namespaces_view() =~= before.namespaces_view());
                    assert forall|j: int| 0 <= j < self.plugins@.len() implies #[trigger] self.plugin_keys()[j]
                        == key_of(self.plugins_view()[j]) by {
                        if j != i {
                            assert(before.plugin_keys()[j] == key_of(before.plugins_view()[j]));
                        }
                    }
                }
                return went;
            }
            proof {
                assert(keys[i as int] == self.plugins@[i as int].0@);
            }
            i += 1;
        }
        self.plugins.push((key, plugin));
        proof {
            assert(self.plugin_keys() =~= keys.push(key@));
            assert(self.plugins_view() =~= before.plugins_view().push(plugin));
            assert(self.namespaces_view() =~= before.namespaces_view());
            assert(!keys.contains(key@));
            assert forall|j: int| 0 <= j < self.plugins@.len() implies #[trigger] self.plugin_keys()[j]
                == key_of(self.plugins_view()[j]) by {
                if j < keys.len() {
                    assert(before.plugin_keys()[j] == key_of(before.plugins_view()[j]));
                }
            }
        }
        went
    }

    /// Takes in a plugin whose own step succeeds: afterwards the catalog
    /// exists, it has the plugin's namespace, and the index holds the plugin
    /// under its name. Taking in the same plugin again changes nothing.
    pub fn enable(&mut self, plugin: Plugin) -> (r: Result<(), EngineError>)
        requires
            old(self).wf(),
        ensures
            final(self).wf(),
            r is Ok,
            final(self).has_catalog(),
            final(self).registry() == old(self).registry(),
            final(self).default_namespace_view() == old(self).default_namespace_view(),
            final(self).namespaces_view() == if old(self).namespaces_view().contains(plugin.namespace@) {
                old(self).namespaces_view()
            } else {
                old(self).namespaces_view().push(plugin.namespace@)
            },
            final(self).plugin_keys().contains(key_of(plugin)),
            final(self).plugins_view()[final(self).plugin_keys().index_of(key_of(plugin))] == plugin,
            old(self).plugin_keys().contains(key_of(plugin)) ==> {
                &&& final(self).plugin_keys() == old(self).plugin_keys()
                &&& final(self).plugins_view() == old(self).plugins_view().update(
                    old(self).plugin_keys().index_of(key_of(plugin)),
                    plugin,
                )
            },
            !old(self).plugin_keys().contains(key_of(plugin)) ==> {
                &&& final(self).plugin_keys() == old(self).plugin_keys().push(key_of(plugin))
                &&& final(self).plugins_view() == old(self).plugins_view().push(plugin)
            },
    {
        let _ = self.prepare(&plugin);
        proof {
            let spaces = old(self).namespaces_view();
            if plugin.kind == PluginType::Table && !spaces.contains(plugin.namespace@) {
                assert(spaces.push(plugin.namespace@)[spaces.len() as int] == plugin.namespace@);
            }
        }
        let r = self.record(plugin, Ok(()));
        proof {
            let keys = old(self).plugin_keys();
            let key = key_of(plugin);
            if keys.contains(key) {
                let at = keys.index_of(key);
                assert(keys[at] == key);
            } else {
                assert(keys.push(key)[keys.len() as int] == key);
                let at = self.plugin_keys().index_of(key);
                assert(self.plugin_keys()[at] == key);
                assert(at == keys.len());
            }
        }
        r
    }

    /// Takes in the plugins of a list, one after the other as `enable`
    /// does. Afterwards the index holds each of them, the catalog has each
    /// one's namespace, and what the index and the catalog held before they
    /// hold still.
    pub fn enable_all(&mut self, plugins: &Vec<Plugin>)
        requires
            old(self).wf(),
        ensures
            final(self).wf(),
            final(self).registry() == old(self).registry(),
            final(self).default_namespace_view() == old(self).default_namespace_view(),
            final(self).has_catalog() == (old(self).has_catalog() || plugins@.len() > 0),
            final(self).namespaces_view() == namespaces_after(
                old(self).namespaces_view(),
                plugins@,
                plugins@.len() as int,
            ),
            final(self).plugin_keys() == keys_after(old(self).plugin_keys(), plugins@, plugins@.len() as int),
            final(self).plugins_view() == plugins_after(
                old(self).plugin_keys(),
                old(self).plugins_view(),
                plugins@,
                plugins@.len() as int,
            ),
            forall|k: Seq<char>| old(self).plugin_keys().contains(k) ==> final(self).plugin_keys().contains(k),
            forall|n: Seq<char>|
                old(self).namespaces_view().contains(n) ==> final(self).namespaces_view().contains(n),
            forall|i: int|
                0 <= i < plugins@.len() ==> final(self).plugin_keys().contains(key_of(#[trigger] plugins@[i]))
                    && final(self).namespaces_view().contains(plugins@[i].namespace@),
    {
        let mut i: usize = 0;
        while i < plugins.len()
            invariant
                self.wf(),
                i <= plugins@.len(),
                self.registry() == old(self).registry(),
                self.default_namespace_view() == old(self).default_namespace_view(),
                self.has_catalog() == (old(self).has_catalog() || i > 0),
                self.namespaces_view() == namespaces_after(old(self).namespaces_view(), plugins@, i as int),
                self.plugin_keys() == keys_after(old(self).plugin_keys(), plugins@, i as int),
                self.plugins_view() == plugins_after(
                    old(self).plugin_keys(),
                    old(self).plugins_view(),
                    plugins@,
                    i as int,
                ),
                forall|k: Seq<char>| old(self).plugin_keys().contains(k) ==> self.plugin_keys().contains(k),
                forall|n: Seq<char>| old(self).namespaces_view().contains(n) ==> self.namespaces_view().contains(n),
                forall|j: int|
                    0 <= j < i ==> self.plugin_keys().contains(key_of(#[trigger] plugins@[j]))
                        && self.namespaces_view().contains(plugins@[j].namespace@),
            decreases plugins@.len() - i,
        {
            let ghost before = *self;
            let _ = self.enable(plugins[i].clone());
            proof {
                let now = *self;
                assert forall|k: Seq<char>| before.plugin_keys().contains(k) implies now.plugin_keys().contains(
                    k,
                ) by {
                    let at = before.plugin_keys().index_of(k);
                    assert(before.plugin_keys()[at] == k);
                    assert(now.plugin_keys()[at] == k);
                }
                assert forall|n: Seq<char>| before.namespaces_view().contains(n) implies now.namespaces_view().contains(
                    n,
                ) by {
                    let at = before.namespaces_view().index_of(n);
                    assert(before.namespaces_view()[at] == n);
                    assert(now.namespaces_view()[at] == n);
                }
                let ns = plugins@[i as int].namespace@;
                if !before.namespaces_view().contains(ns) {
                    assert(now.namespaces_view()[before.namespaces_view().len() as int] == ns);
                }
            }
            i += 1;
        }
    }
}

/// A column of a record batch of the query runtime, as plain values. The
/// timestamps are counts since the UNIX epoch in the unit of their variant.
#[derive(Debug, PartialEq)]
pub enum ArrowArray {
    Int32(Vec<i32>),
    Int64(Vec<i64>),
    Float32(Vec<Real32>),
    Float64(Vec<Real64>),
    Utf8(Vec<String>),
    Boolean(Vec<bool>),
    TimestampSecond(Vec<i64>),
    TimestampMillisecond(Vec<i64>),
    TimestampMicrosecond(Vec<i64>),
    TimestampNanosecond(Vec<i64>),
    /// A column of a type that the probe has no column for.
    Other,
}

/// The column of an array of the query runtime: a column of the array's
/// element type, `SeqI64` for every timestamp, `Nil` for a type without a
/// column.
pub fn arrow_array_to_seq(array: ArrowArray) -> (r: Column)
    ensures
        r == match array {
            ArrowArray::Int32(v) => Column::SeqI32(v),
            ArrowArray::Int64(v) => Column::SeqI64(v),
            ArrowArray::Float32(v) => Column::SeqF32(v),
            ArrowArray::Float64(v) => Column::SeqF64(v),
            ArrowArray::Utf8(v) => Column::SeqText(v),
            ArrowArray::Boolean(v) => Column::SeqBOOL(v),
            ArrowArray::TimestampSecond(v) => Column::SeqI64(v),
            ArrowArray::TimestampMillisecond(v) => Column::SeqI64(v),
            ArrowArray::TimestampMicrosecond(v) => Column::SeqI64(v),
            ArrowArray::TimestampNanosecond(v) => Column::SeqI64(v),
            ArrowArray::Other => Column::Nil,
        },
{
    match array {
        ArrowArray::Int32(v) => Column::SeqI32(v),
        ArrowArray::Int64(v) => Column::SeqI64(v),
        ArrowArray::Float32(v) => Column::SeqF32(v),
        ArrowArray::Float64(v) => Column::SeqF64(v),
        ArrowArray::Utf8(v) => Column::SeqText(v),
        ArrowArray::Boolean(v) => Column::SeqBOOL(v),
        ArrowArray::TimestampMicrosecond(v) => Column::SeqI64(v),
        ArrowArray::TimestampNanosecond(v) => Column::SeqI64(v),
        ArrowArray::TimestampMillisecond(v) => Column::SeqI64(v),
        ArrowArray::TimestampSecond(v) => Column::SeqI64(v),
        ArrowArray::Other => Column::Nil,
    }
}

/// The columns of a list of arrays, each as `arrow_array_to_seq` gives it.
pub open spec fn columns_of(arrays: Seq<ArrowArray>) -> Seq<Column> {
    Seq::new(
        arrays.len(),
        |i: int|
            match arrays[i] {
                ArrowArray::Int32(v) => Column::SeqI32(v),
                ArrowArray::Int64(v) => Column::SeqI64(v),
                ArrowArray::Float32(v) => Column::SeqF32(v),
                ArrowArray::Float64(v) => Column::SeqF64(v),
                ArrowArray::Utf8(v) => Column::SeqText(v),
                ArrowArray::Boolean(v) => Column::SeqBOOL(v),
                ArrowArray::TimestampSecond(v) => Column::SeqI64(v),
                ArrowArray::TimestampMillisecond(v) => Column::SeqI64(v),
                ArrowArray::TimestampMicrosecond(v) => Column::SeqI64(v),
                ArrowArray::TimestampNanosecond(v) => Column::SeqI64(v),
                ArrowArray::Other => Column::Nil,
            },
    )
}

/// The result of a query as the query runtime hands it over: the batches of
/// the result joined into one, with the field names of its schema.
#[derive(Debug, PartialEq)]
pub struct RecordBatch {
    pub names: Vec<String>,
    pub columns: Vec<ArrowArray>,
    /// The number of rows.
    pub rows: usize,
}

/// The data frame of a query's result: none where the query gave no batch
/// or no row, else the names of the fields and a column for each array.
pub fn frame_of(result: Option<RecordBatch>) -> (r: Option<DataFrame>)
    ensures
        match result {
            None => r is None,
            Some(batch) => if batch.rows == 0 {
                r is None
            } else {
                r is Some && r->0.names == batch.names && r->0.cols@ == columns_of(batch.columns@)
            },
        },
{
    match result {
        None => None,
        Some(batch) => {
            if batch.rows == 0 {
                return None;
            }
            let ghost arrays = batch.columns@;
            let mut columns = batch.columns;
            let mut cols: Vec<Column> = Vec::new();
            let mut rest: Vec<ArrowArray> = Vec::new();
            while columns.len() > 0
                invariant
                    arrays.len() == columns@.len() + rest@.len(),
                    forall|j: int| 0 <= j < columns@.len() ==> #[trigger] columns@[j] == arrays[j],
                    forall|j: int|
                        0 <= j < rest@.len() ==> #[trigger] rest@[j] == arrays[arrays.len() - 1 - j],
                decreases columns@.len(),
            {
                let last = columns.pop();
                match last {
                    Some(array) => {
                        rest.push(array);
                    },
                    None => {},
                }
            }
            while rest.len() > 0
                invariant
                    arrays.len() == cols@.len() + rest@.len(),
                    forall|j: int|
                        0 <= j < rest@.len() ==> #[trigger] rest@[j] == arrays[arrays.len() - 1 - j],
                    cols@ == columns_of(arrays.take(cols@.len() as int)),
                decreases rest@.len(),
            {
                let ghost done = cols@.len() as int;
                let next = rest.pop();
                match next {
                    Some(array) => {
                        assert(array == arrays[done]);
                        cols.push(arrow_array_to_seq(array));
                        assert(cols@ =~= columns_of(arrays.take(done + 1)));
                    },
                    None => {},
                }
            }
            proof {
                assert(arrays.take(arrays.len() as int) =~= arrays);
            }
            Some(DataFrame::new(batch.names, cols))
        },
    }
}

/// Collects what an engine is built from.
pub struct EngineBuilder<E: EngineExtension> {
    pub default_namespace: Option<String>,
    /// The seed plugins.
    pub plugins: Vec<Plugin>,
    /// The seed extensions, each with the name that it gives itself.
    pub extensions: Vec<(String, E)>,
    /// The plugins that the seed extensions offer.
    pub offered: Vec<Plugin>,
}

impl<E: EngineExtension> EngineBuilder<E> {
    /// A builder without namespace, plugins or extensions.
    pub fn new() -> (r: Self)
        ensures
            r.default_namespace is None,
            r.plugins@.len() == 0,
            r.extensions@.len() == 0,
            r.offered@.len() == 0,
    {
        EngineBuilder {
            default_namespace: None,
            plugins: Vec::new(),
            extensions: Vec::new(),
            offered: Vec::new(),
        }
    }

    /// Sets the default namespace.
    pub fn with_default_namespace(self, namespace: &str) -> (r: Self)
        ensures
            r.default_namespace is Some,
            r.default_namespace->0@ == namespace@,
            r.plugins == self.plugins,
            r.extensions == self.extensions,
            r.offered == self.offered,
    {
        EngineBuilder {
            default_namespace: Some(namespace.to_owned()),
            plugins: self.plugins,
            extensions: self.extensions,
            offered: self.offered,
        }
    }

    /// Adds a seed plugin.
    pub fn with_plugin(self, plugin: Plugin) -> (r: Self)
        ensures
            r.default_namespace == self.default_namespace,
            r.plugins@ == self.plugins@.push(plugin),
            r.extensions == self.extensions,
            r.offered == self.offered,
    {
        let mut plugins = self.plugins;
        plugins.push(plugin);
        EngineBuilder {
            default_namespace: self.default_namespace,
            plugins,
            extensions: self.extensions,
            offered: self.offered,
        }
    }

    /// Adds a seed extension under the name it gives itself, and with it
    /// the plugin that it offers for `namespace` and `name`, if it offers
    /// one: what `with_offer` makes of the extension and its offer.
    pub fn with_extension(self, ext: E, namespace: &str, name: Option<&str>) -> (r: Self)
        ensures
            r.default_namespace == self.default_namespace,
            r.plugins == self.plugins,
            r.extensions@ == self.extensions@.push(r.extensions@.last()),
            r.extensions@.last().0@ == ext.name_view(),
            r.extensions@.last().1 == ext,
            r.offered@ == self.offered@ || (r.offered@.len() == self.offered@.len() + 1
                && r.offered@.drop_last() == self.offered@),
    {
        let offer = ext.datasrc(namespace, name);
        self.with_offer(ext, offer)
    }

    /// Adds a seed extension under the name it gives itself, and with it
    /// the plugin `offer`, where there is one.
    pub fn with_offer(self, ext: E, offer: Option<Plugin>) -> (r: Self)
        ensures
            r.default_namespace == self.default_namespace,
            r.plugins == self.plugins,
            r.extensions@ == self.extensions@.push(r.extensions@.last()),
            r.extensions@.last().0@ == ext.name_view(),
            r.extensions@.last().1 == ext,
            r.offered@ == match offer {
                Some(plugin) => self.offered@.push(plugin),
                None => self.offered@,
            },
    {
        let mut offered = self.offered;
        let mut extensions = self.extensions;
        match offer {
            Some(plugin) => {
                offered.push(plugin);
            },
            None => {},
        }
        let registered = ext.name();
        extensions.push((registered, ext));
        proof {
            assert(extensions@ =~= self.extensions@.push(extensions@.last()));
        }
        EngineBuilder { default_namespace: self.default_namespace, plugins: self.plugins, extensions, offered }
    }

    /// Builds the engine: the default namespace is the given one or
    /// `probe`, the seed extensions are registered in their order, each
    /// under the name it was added with, the plugins that they offer are
    /// taken in, and then the seed plugins.
    pub fn build(self) -> (r: Result<Engine<E>, EngineError>)
        ensures
            r is Ok,
            r->Ok_0.wf(),
            r->Ok_0.default_namespace_view() == match self.default_namespace {
                Some(n) => n@,
                None => "probe"@,
            },
            r->Ok_0.has_catalog() == (self.offered@.len() > 0 || self.plugins@.len() > 0),
            r->Ok_0.namespaces_view() == namespaces_after(
                namespaces_after(Seq::empty(), self.offered@, self.offered@.len() as int),
                self.plugins@,
                self.plugins@.len() as int,
            ),
            r->Ok_0.plugin_keys() == keys_after(
                keys_after(Seq::empty(), self.offered@, self.offered@.len() as int),
                self.plugins@,
                self.plugins@.len() as int,
            ),
            r->Ok_0.plugins_view() == plugins_after(
                keys_after(Seq::empty(), self.offered@, self.offered@.len() as int),
                plugins_after(Seq::empty(), Seq::empty(), self.offered@, self.offered@.len() as int),
                self.plugins@,
                self.plugins@.len() as int,
            ),
            forall|i: int|
                0 <= i < self.plugins@.len() ==> r->Ok_0.plugin_keys().contains(key_of(#[trigger] self.plugins@[i]))
                    && r->Ok_0.namespaces_view().contains(self.plugins@[i].namespace@),
            forall|i: int|
                0 <= i < self.offered@.len() ==> r->Ok_0.plugin_keys().contains(key_of(#[trigger] self.offered@[i]))
                    && r->Ok_0.namespaces_view().contains(self.offered@[i].namespace@),
            r->Ok_0.registry().wf(),
            r->Ok_0.registry().names() == seeded_names(self.extensions@, self.extensions@.len() as int),
            r->Ok_0.registry().members() == seeded_members(self.extensions@, self.extensions@.len() as int),
            forall|i: int|
                0 <= i < self.extensions@.len() ==> r->Ok_0.registry().names().contains(
                    #[trigger] self.extensions@[i].0@,
                ),
    {
        let mut engine: Engine<E> = Engine::new();
        match self.default_namespace {
            Some(n) => {
                engine.default_namespace = n;
            },
            None => {},
        }
        let mut extensions = self.extensions;
        let ghost seeds = self.extensions@;
        let ghost mut done: int = 0;
        proof {
            assert(engine.plugin_keys() =~= Seq::<Seq<char>>::empty());
            assert(engine.plugins_view() =~= Seq::<Plugin>::empty());
            assert(engine.namespaces_view() =~= Seq::<Seq<char>>::empty());
            assert(engine.registry().names() =~= seeded_names(seeds, 0));
            assert(engine.registry().members() =~= seeded_members(seeds, 0));
        }
        while extensions.len() > 0
            invariant
                engine.wf(),
                engine.registry().wf(),
                !engine.has_catalog(),
                engine.plugin_keys() == Seq::<Seq<char>>::empty(),
                engine.plugins_view() == Seq::<Plugin>::empty(),
                engine.namespaces_view() == Seq::<Seq<char>>::empty(),
                engine.default_namespace_view() == match self.default_namespace {
                    Some(n) => n@,
                    None => "probe"@,
                },
                seeds == self.extensions@,
                0 <= done <= seeds.len(),
                extensions@ == seeds.skip(done),
                engine.registry().names() == seeded_names(seeds, done),
                engine.registry().members() == seeded_members(seeds, done),
                forall|j: int| 0 <= j < done ==> engine.registry().names().contains(#[trigger] seeds[j].0@),
            decreases extensions@.len(),
        {
            let pair = extensions.remove(0);
            let ghost before = engine.registry().names();
            proof {
                assert(pair == seeds[done]);
                assert(extensions@ =~= seeds.skip(done + 1));
            }
            engine.extensions.register(pair.0, pair.1);
            proof {
                let now = engine.registry().names();
                assert forall|j: int| 0 <= j < done + 1 implies now.contains(#[trigger] seeds[j].0@) by {
                    let name = seeds[j].0@;
                    if j < done {
                        let at = before.index_of(name);
                        assert(before[at] == name);
                        assert(now[at] == name);
                    } else if before.contains(name) {
                    } else {
                        assert(now[before.len() as int] == name);
                    }
                }
                done = done + 1;
            }
        }
        proof {
            assert(seeds.len() == done);
        }
        engine.enable_all(&self.offered);
        engine.enable_all(&self.plugins);
        Ok(engine)
    }
}

/// The namespaces of a catalog that had `spaces` after the first `upto`
/// plugins of `plugins` were taken in, in the order in which they came.
pub open spec fn namespaces_after(spaces: Seq<Seq<char>>, plugins: Seq<Plugin>, upto: int) -> Seq<Seq<char>>
    decreases upto,
{
    if upto <= 0 || upto > plugins.len() {
        spaces
    } else {
        registered_names(namespaces_after(spaces, plugins, upto - 1), plugins[upto - 1].namespace@)
    }
}

/// The names of an index that had `keys` after the first `upto` plugins of
/// `plugins` were taken in, in the order in which they came.
pub open spec fn keys_after(keys: Seq<Seq<char>>, plugins: Seq<Plugin>, upto: int) -> Seq<Seq<char>>
    decreases upto,
{
    if upto <= 0 || upto > plugins.len() {
        keys
    } else {
        registered_names(keys_after(keys, plugins, upto - 1), key_of(plugins[upto - 1]))
    }
}

/// The plugins of an index that held `held` under `keys` after the first
/// `upto` plugins of `plugins` were taken in: a plugin whose name the index
/// has takes the place of the one that stood under it.
pub open spec fn plugins_after(keys: Seq<Seq<char>>, held: Seq<Plugin>, plugins: Seq<Plugin>, upto: int) -> Seq<
    Plugin,
>
    decreases upto,
{
    if upto <= 0 || upto > plugins.len() {
        held
    } else {
        registered_members(
            keys_after(keys, plugins, upto - 1),
            plugins_after(keys, held, plugins, upto - 1),
            key_of(plugins[upto - 1]),
            plugins[upto - 1],
        )
    }
}

/// The names of a registry in which the first `upto` seed extensions were
/// registered in their order, each under the name it came with.
pub open spec fn seeded_names<E>(seeds: Seq<(String, E)>, upto: int) -> Seq<Seq<char>>
    decreases upto,
{
    if upto <= 0 || upto > seeds.len() {
        Seq::empty()
    } else {
        registered_names(seeded_names(seeds, upto - 1), seeds[upto - 1].0@)
    }
}

/// The extensions of a registry in which the first `upto` seed extensions
/// were registered in their order: a later seed of the same name stands in
/// the place of the earlier one.
pub open spec fn seeded_members<E>(seeds: Seq<(String, E)>, upto: int) -> Seq<E>
    decreases upto,
{
    if upto <= 0 || upto > seeds.len() {
        Seq::empty()
    } else {
        registered_members(
            seeded_names(seeds, upto - 1),
            seeded_members(seeds, upto - 1),
            seeds[upto - 1].0@,
            seeds[upto - 1].1,
        )
    }
}

} // verus!
