//! The options of the interpreter's extension: which writes they take, and
//! what the interpreter has to do for them.

use crate::extension::{EngineError, ErrorView, Maybe};
use crate::text::{
    parse_i32, parse_i32_text, parse_usize, parse_usize_text, piece_texts, same_text, split_on, split_text,
    trim, trimmed,
};
use vstd::prelude::*;

verus! {

/// What the interpreter has to do after a write that the options took.
#[derive(Debug, PartialEq, Eq)]
pub enum Action {
    /// Install the crash handler of this path.
    EnableCrashHandler(String),
    /// Install the monitoring script of this path.
    EnableMonitoring(String),
    /// Run this statement and keep the extension that it makes.
    Load(String),
    /// Shut down the extension that this statement made.
    Unload(String),
    /// Nothing.
    NoAction,
}

/// An action, with its text as a sequence of characters.
pub enum ActionView {
    EnableCrashHandler(Seq<char>),
    EnableMonitoring(Seq<char>),
    Load(Seq<char>),
    Unload(Seq<char>),
    NoAction,
}

impl View for Action {
    type V = ActionView;

    open spec fn view(&self) -> ActionView {
        match *self {
            Action::EnableCrashHandler(p) => ActionView::EnableCrashHandler(p@),
            Action::EnableMonitoring(p) => ActionView::EnableMonitoring(p@),
            Action::Load(s) => ActionView::Load(s@),
            Action::Unload(s) => ActionView::Unload(s@),
            Action::NoAction => ActionView::NoAction,
        }
    }
}

/// The result of a write, with its texts as sequences of characters.
pub open spec fn taken(r: Result<Action, EngineError>) -> Result<ActionView, ErrorView> {
    match r {
        Ok(a) => Ok(a@),
        Err(e) => Err(e@),
    }
}

/// The text of an option value, if it has one.
pub open spec fn value_text(v: Maybe<String>) -> Option<Seq<char>> {
    match v {
        Maybe::Just(s) => Some(s@),
        Maybe::Nothing => None,
    }
}

/// The texts of a sequence of strings.
pub open spec fn statements(v: Seq<String>) -> Seq<Seq<char>> {
    Seq::new(v.len(), |i: int| v[i]@)
}

/// What a write to an option that can be written once comes to: refused as
/// read-only where the option is set, as invalid where the value is empty,
/// else taken.
pub open spec fn written_once(key: Seq<char>, held: Option<Seq<char>>, value: Option<Seq<char>>) -> Result<
    Seq<char>,
    ErrorView,
> {
    if held is Some {
        Err(ErrorView::ReadOnlyOption(key))
    } else {
        match value {
            None => Err(ErrorView::InvalidOptionValue(key, Seq::empty())),
            Some(v) => Ok(v),
        }
    }
}

/// The message of a second write of the same statement.
pub open spec fn already_enabled(statement: Seq<char>) -> Seq<char> {
    "Python extension '"@ + statement + "' is already enabled"@
}

/// The options of the interpreter's extension.
#[derive(Debug, PartialEq, Eq)]
pub struct PythonOptions {
    /// The path of the crash handler; written once.
    pub crash_handler: Maybe<String>,
    /// The path of the monitoring script; written once.
    pub monitoring: Maybe<String>,
    /// The statements of the extensions that are loaded, in the order of
    /// their loading.
    pub enabled: Vec<String>,
}

fn position_of(list: &Vec<String>, statement: &str) -> (r: Option<usize>)
    ensures
        r is Some <==> statements(list@).contains(statement@),
        r is Some ==> r->0 < list@.len() && list@[r->0 as int]@ == statement@ && forall|j: int|
            0 <= j < r->0 ==> (#[trigger] list@[j])@ != statement@,
{
    let mut i: usize = 0;
    while i < list.len()
        invariant
            i <= list@.len(),
            forall|j: int| 0 <= j < i ==> (#[trigger] list@[j])@ != statement@,
        decreases list@.len() - i,
    {
        if same_text(list[i].as_str(), statement) {
            proof {
                assert(statements(list@)[i as int] == statement@);
            }
            return Some(i);
        }
        i += 1;
    }
    proof {
        if statements(list@).contains(statement@) {
            let j = choose|j: int| 0 <= j < list@.len() && statements(list@)[j] == statement@;
            assert(list@[j]@ == statement@);
        }
    }
    None
}

impl PythonOptions {
    /// Options of which none is set.
    pub fn new() -> (r: Self)
        ensures
            r.crash_handler is Nothing,
            r.monitoring is Nothing,
            r.enabled@.len() == 0,
    {
        PythonOptions { crash_handler: Maybe::Nothing, monitoring: Maybe::Nothing, enabled: Vec::new() }
    }

    /// Writes the crash handler. The option can be written once, and not
    /// with an empty value; a write that is taken sets it, whether or not
    /// the interpreter then installs the handler.
    pub fn set_crash_handler(&mut self, value: Maybe<String>) -> (r: Result<Action, EngineError>)
        ensures
            final(self).monitoring == old(self).monitoring,
            final(self).enabled == old(self).enabled,
            match written_once("crash_handler"@, value_text(old(self).crash_handler), value_text(value)) {
                Ok(path) => taken(r) == Ok::<ActionView, ErrorView>(ActionView::EnableCrashHandler(path))
                    && value_text(final(self).crash_handler) == Some(path),
                Err(e) => taken(r) == Err::<ActionView, ErrorView>(e) && final(self).crash_handler == old(
                    self,
                ).crash_handler,
            },
    {
        match &self.crash_handler {
            Maybe::Just(_) => Err(EngineError::ReadOnlyOption("crash_handler".to_owned())),
            Maybe::Nothing => match value {
                Maybe::Nothing => Err(
                    EngineError::InvalidOptionValue("crash_handler".to_owned(), String::new()),
                ),
                Maybe::Just(path) => {
                    self.crash_handler = Maybe::Just(path.clone());
                    Ok(Action::EnableCrashHandler(path))
                },
            },
        }
    }

    /// Writes the monitoring script. The option can be written once, and
    /// not with an empty value; a write that is taken sets it, whether or
    /// not the interpreter then installs the script.
    pub fn set_monitoring(&mut self, value: Maybe<String>) -> (r: Result<Action, EngineError>)
        ensures
            final(self).crash_handler == old(self).crash_handler,
            final(self).enabled == old(self).enabled,
            match written_once("monitoring"@, value_text(old(self).monitoring), value_text(value)) {
                Ok(path) => taken(r) == Ok::<ActionView, ErrorView>(ActionView::EnableMonitoring(path))
                    && value_text(final(self).monitoring) == Some(path),
                Err(e) => taken(r) == Err::<ActionView, ErrorView>(e) && final(self).monitoring == old(
                    self,
                ).monitoring,
            },
    {
        match &self.monitoring {
            Maybe::Just(_) => Err(EngineError::ReadOnlyOption("monitoring".to_owned())),
            Maybe::Nothing => match value {
                Maybe::Nothing => Err(EngineError::InvalidOptionValue("monitoring".to_owned(), String::new())),
                Maybe::Just(path) => {
                    self.monitoring = Maybe::Just(path.clone());
                    Ok(Action::EnableMonitoring(path))
                },
            },
        }
    }

    /// Writes a statement that loads an extension: refused as invalid where
    /// it is empty, as a failure of the plugin where the same statement is
    /// loaded already, else the interpreter is to run it. `loaded` records
    /// that it did.
    pub fn set_enabled(&self, value: Maybe<String>) -> (r: Result<Action, EngineError>)
        ensures
            match value_text(value) {
                None => taken(r) == Err::<ActionView, ErrorView>(
                    ErrorView::InvalidOptionValue("enabled"@, Seq::empty()),
                ),
                Some(s) => if statements(self.enabled@).contains(s) {
                    taken(r) == Err::<ActionView, ErrorView>(ErrorView::PluginError(already_enabled(s)))
                } else {
                    taken(r) == Ok::<ActionView, ErrorView>(ActionView::Load(s))
                },
            },
    {
        match value {
            Maybe::Nothing => Err(EngineError::InvalidOptionValue("enabled".to_owned(), String::new())),
            Maybe::Just(statement) => {
                match position_of(&self.enabled, statement.as_str()) {
                    Some(_) => {
                        let mut message = "Python extension '".to_owned();
                        message.append(statement.as_str());
                        message.append("' is already enabled");
                        Err(EngineError::PluginError(message))
                    },
                    None => Ok(Action::Load(statement)),
                }
            },
        }
    }

    /// Records that the interpreter ran a statement and keeps its extension.
    pub fn loaded(&mut self, statement: String)
        ensures
            final(self).crash_handler == old(self).crash_handler,
            final(self).monitoring == old(self).monitoring,
            statements(final(self).enabled@) == if statements(old(self).enabled@).contains(statement@) {
                statements(old(self).enabled@)
            } else {
                statements(old(self).enabled@).push(statement@)
            },
    {
        match position_of(&self.enabled, statement.as_str()) {
            Some(_) => {},
            None => {
                self.enabled.push(statement);
                proof {
                    assert(statements(self.enabled@) =~= statements(old(self).enabled@).push(statement@));
                }
            },
        }
    }

    /// Writes a statement whose extension is to be unloaded: refused as
    /// invalid where it is empty; where the statement is loaded it is
    /// dropped from the loaded ones and the interpreter is to shut its
    /// extension down; else nothing is to be done.
    pub fn set_disabled(&mut self, value: Maybe<String>) -> (r: Result<Action, EngineError>)
        ensures
            final(self).crash_handler == old(self).crash_handler,
            final(self).monitoring == old(self).monitoring,
            match value_text(value) {
                None => taken(r) == Err::<ActionView, ErrorView>(
                    ErrorView::InvalidOptionValue("disabled"@, Seq::empty()),
                ) && final(self).enabled == old(self).enabled,
                Some(s) => if statements(old(self).enabled@).contains(s) {
                    &&& taken(r) == Ok::<ActionView, ErrorView>(ActionView::Unload(s))
                    &&& exists|i: int|
                        0 <= i < old(self).enabled@.len() && (#[trigger] old(self).enabled@[i])@ == s
                            && final(self).enabled@ == old(self).enabled@.remove(i)
                } else {
                    taken(r) == Ok::<ActionView, ErrorView>(ActionView::NoAction) && final(self).enabled == old(
                        self,
                    ).enabled
                },
            },
    {
        match value {
            Maybe::Nothing => Err(EngineError::InvalidOptionValue("disabled".to_owned(), String::new())),
            Maybe::Just(statement) => {
                match position_of(&self.enabled, statement.as_str()) {
                    Some(i) => {
                        let _ = self.enabled.remove(i);
                        Ok(Action::Unload(statement))
                    },
                    None => Ok(Action::NoAction),
                }
            },
        }
    }

    /// The error of a written value that the interpreter then refused.
    pub fn refused(key: &str, value: &str) -> (r: EngineError)
        ensures
            r@ == ErrorView::InvalidOptionValue(key@, value@),
    {
        EngineError::InvalidOptionValue(key.to_owned(), value.to_owned())
    }
}

/// What a call asks of the interpreter.
#[derive(Debug, PartialEq, Eq)]
pub enum PythonCall {
    /// The call stack of a thread, or of the process.
    Callstack { tid: Option<i32> },
    /// Evaluate the body of the call.
    Eval,
    /// The flame graph of the profiler.
    Flamegraph,
    /// The trace events for the tracing viewer, at most `limit` of them.
    ChromeTracing { limit: usize },
    /// The timeline of the profiler.
    TorchTimeline,
    /// Start the profiler for a number of steps.
    TorchProfile { steps: i32 },
    /// The functions that can be traced, under a prefix if one is given.
    TraceList { prefix: Option<String> },
    /// The functions that are traced.
    TraceShow,
    /// Start to trace a function.
    TraceStart { function: String, watch: Vec<String>, print_to_terminal: bool, depth: i32 },
    /// Stop to trace a function.
    TraceStop { function: String },
    /// The variables that the traces recorded, of one function or of all.
    TraceVariables { function: Option<String>, limit: usize },
    /// Anything else: answered with an empty body.
    Empty,
}

/// The texts of the parameters of a call.
pub open spec fn param_texts(v: Seq<(String, String)>) -> Seq<(Seq<char>, Seq<char>)> {
    Seq::new(v.len(), |i: int| (v[i].0@, v[i].1@))
}

/// The value of the first parameter from `from` on that has the given
/// name.
pub open spec fn param(params: Seq<(Seq<char>, Seq<char>)>, name: Seq<char>, from: int) -> Option<Seq<char>>
    decreases params.len() - from,
{
    if from < 0 || from >= params.len() {
        None
    } else if params[from].0 == name {
        Some(params[from].1)
    } else {
        param(params, name, from + 1)
    }
}

/// The 32-bit number of a parameter, or `fallback` where the parameter is
/// missing or writes none.
pub open spec fn number_or(value: Option<Seq<char>>, fallback: i32) -> i32 {
    match value {
        Some(v) => match parse_i32(v) {
            Some(n) => n,
            None => fallback,
        },
        None => fallback,
    }
}

/// The count of a parameter, or `fallback` where the parameter is missing
/// or writes none.
pub open spec fn count_or(value: Option<Seq<char>>, fallback: usize) -> usize {
    match value {
        Some(v) => match parse_usize(v) {
            Some(n) => n,
            None => fallback,
        },
        None => fallback,
    }
}

/// The names that a list with commas between them holds, each without the
/// white space around it; none where there is no list.
pub open spec fn watched(value: Option<Seq<char>>) -> Seq<Seq<char>> {
    match value {
        Some(v) => Seq::new(split_on(v, ',').len(), |i: int| trimmed(split_on(v, ',')[i])),
        None => Seq::empty(),
    }
}

/// What the call to `path` with the given parameters asks of the
/// interpreter, with its texts as sequences of characters.
pub enum CallView {
    Callstack { tid: Option<i32> },
    Eval,
    Flamegraph,
    ChromeTracing { limit: usize },
    TorchTimeline,
    TorchProfile { steps: i32 },
    TraceList { prefix: Option<Seq<char>> },
    TraceShow,
    TraceStart { function: Seq<char>, watch: Seq<Seq<char>>, print_to_terminal: bool, depth: i32 },
    TraceStop { function: Seq<char> },
    TraceVariables { function: Option<Seq<char>>, limit: usize },
    Empty,
}

/// The text of an optional string.
pub open spec fn maybe_text(s: Option<String>) -> Option<Seq<char>> {
    match s {
        Some(t) => Some(t@),
        None => None,
    }
}

impl View for PythonCall {
    type V = CallView;

    open spec fn view(&self) -> CallView {
        match *self {
            PythonCall::Callstack { tid } => CallView::Callstack { tid },
            PythonCall::Eval => CallView::Eval,
            PythonCall::Flamegraph => CallView::Flamegraph,
            PythonCall::ChromeTracing { limit } => CallView::ChromeTracing { limit },
            PythonCall::TorchTimeline => CallView::TorchTimeline,
            PythonCall::TorchProfile { steps } => CallView::TorchProfile { steps },
            PythonCall::TraceList { prefix } => CallView::TraceList { prefix: maybe_text(prefix) },
            PythonCall::TraceShow => CallView::TraceShow,
            PythonCall::TraceStart { function, watch, print_to_terminal, depth } => CallView::TraceStart {
                function: function@,
                watch: piece_texts(watch@),
                print_to_terminal,
                depth,
            },
            PythonCall::TraceStop { function } => CallView::TraceStop { function: function@ },
            PythonCall::TraceVariables { function, limit } => CallView::TraceVariables {
                function: maybe_text(function),
                limit,
            },
            PythonCall::Empty => CallView::Empty,
        }
    }
}

/// What the call to `path` with the given parameters asks of the
/// interpreter: a thread that writes no number is thread 0, counts and
/// depths that are missing or write no number take their defaults, and a
/// trace cannot start or stop without its function.
pub open spec fn planned(path: Seq<char>, params: Seq<(Seq<char>, Seq<char>)>) -> Result<CallView, ErrorView> {
    if path == "callstack"@ {
        Ok(
            CallView::Callstack {
                tid: match param(params, "tid"@, 0) {
                    Some(v) => Some(number_or(Some(v), 0)),
                    None => None,
                },
            },
        )
    } else if path == "eval"@ {
        Ok(CallView::Eval)
    } else if path == "flamegraph"@ {
        Ok(CallView::Flamegraph)
    } else if path == "trace/chrome-tracing"@ {
        Ok(CallView::ChromeTracing { limit: count_or(param(params, "limit"@, 0), 1000) })
    } else if path == "pytorch/timeline"@ {
        Ok(CallView::TorchTimeline)
    } else if path == "pytorch/profile"@ {
        Ok(CallView::TorchProfile { steps: number_or(param(params, "steps"@, 0), 1) })
    } else if path == "trace/list"@ {
        Ok(CallView::TraceList { prefix: param(params, "prefix"@, 0) })
    } else if path == "trace/show"@ {
        Ok(CallView::TraceShow)
    } else if path == "trace/start"@ {
        match param(params, "function"@, 0) {
            None => Err(ErrorView::PluginError("Missing 'function' parameter"@)),
            Some(function) => Ok(
                CallView::TraceStart {
                    function,
                    watch: watched(param(params, "watch"@, 0)),
                    print_to_terminal: param(params, "print_to_terminal"@, 0) == Some("true"@),
                    depth: number_or(param(params, "depth"@, 0), 1),
                },
            ),
        }
    } else if path == "trace/stop"@ {
        match param(params, "function"@, 0) {
            None => Err(ErrorView::PluginError("Missing 'function' parameter"@)),
            Some(function) => Ok(CallView::TraceStop { function }),
        }
    } else if path == "trace/variables"@ {
        Ok(
            CallView::TraceVariables {
                function: param(params, "function"@, 0),
                limit: count_or(param(params, "limit"@, 0), 100),
            },
        )
    } else {
        Ok(CallView::Empty)
    }
}

/// The plan of a call, with its texts as sequences of characters.
pub open spec fn plan_view(r: Result<PythonCall, EngineError>) -> Result<CallView, ErrorView> {
    match r {
        Ok(c) => Ok(c@),
        Err(e) => Err(e@),
    }
}

fn lookup(params: &Vec<(String, String)>, name: &str) -> (r: Option<String>)
    ensures
        maybe_text(r) == param(param_texts(params@), name@, 0),
{
    let mut i: usize = 0;
    while i < params.len()
        invariant
            i <= params@.len(),
            param(param_texts(params@), name@, 0) == param(param_texts(params@), name@, i as int),
        decreases params@.len() - i,
    {
        proof {
            assert(param_texts(params@)[i as int] == (params@[i as int].0@, params@[i as int].1@));
        }
        if same_text(params[i].0.as_str(), name) {
            return Some(params[i].1.clone());
        }
        i += 1;
    }
    None
}

fn number_of(value: &Option<String>, fallback: i32) -> (r: i32)
    ensures
        r == number_or(maybe_text(*value), fallback),
{
    match value {
        Some(v) => match parse_i32_text(v.as_str()) {
            Some(n) => n,
            None => fallback,
        },
        None => fallback,
    }
}

fn count_of(value: &Option<String>, fallback: usize) -> (r: usize)
    ensures
        r == count_or(maybe_text(*value), fallback),
{
    match value {
        Some(v) => match parse_usize_text(v.as_str()) {
            Some(n) => n,
            None => fallback,
        },
        None => fallback,
    }
}

fn watch_list(value: &Option<String>) -> (r: Vec<String>)
    ensures
        piece_texts(r@) == watched(maybe_text(*value)),
{
    let mut names: Vec<String> = Vec::new();
    match value {
        Some(v) => {
            let pieces = split_text(v.as_str(), ',');
            let mut i: usize = 0;
            while i < pieces.len()
                invariant
                    i <= pieces@.len(),
                    piece_texts(pieces@) == split_on(v@, ','),
                    names@.len() == i,
                    forall|k: int| 0 <= k < i ==> (#[trigger] names@[k])@ == trimmed(split_on(v@, ',')[k]),
                decreases pieces@.len() - i,
            {
                proof {
                    assert(piece_texts(pieces@)[i as int] == pieces@[i as int]@);
                }
                names.push(trim(pieces[i].as_str()));
                i += 1;
            }
            proof {
                assert(piece_texts(pieces@).len() == pieces@.len());
                assert(piece_texts(names@) =~= watched(Some(v@)));
            }
        },
        None => {
            proof {
                assert(piece_texts(names@) =~= Seq::<Seq<char>>::empty());
            }
        },
    }
    names
}

/// What the call to `path` with the given parameters asks of the
/// interpreter.
pub fn plan_call(path: &str, params: &Vec<(String, String)>) -> (r: Result<PythonCall, EngineError>)
    ensures
        plan_view(r) == planned(path@, param_texts(params@)),
{
    if same_text(path, "callstack") {
        let tid = lookup(params, "tid");
        let thread = match &tid {
            Some(_) => Some(number_of(&tid, 0)),
            None => None,
        };
        Ok(PythonCall::Callstack { tid: thread })
    } else if same_text(path, "eval") {
        Ok(PythonCall::Eval)
    } else if same_text(path, "flamegraph") {
        Ok(PythonCall::Flamegraph)
    } else if same_text(path, "trace/chrome-tracing") {
        Ok(PythonCall::ChromeTracing { limit: count_of(&lookup(params, "limit"), 1000) })
    } else if same_text(path, "pytorch/timeline") {
        Ok(PythonCall::TorchTimeline)
    } else if same_text(path, "pytorch/profile") {
        Ok(PythonCall::TorchProfile { steps: number_of(&lookup(params, "steps"), 1) })
    } else if same_text(path, "trace/list") {
        Ok(PythonCall::TraceList { prefix: lookup(params, "prefix") })
    } else if same_text(path, "trace/show") {
        Ok(PythonCall::TraceShow)
    } else if same_text(path, "trace/start") {
        match lookup(params, "function") {
            None => Err(EngineError::PluginError("Missing 'function' parameter".to_owned())),
            Some(function) => {
                let watch = watch_list(&lookup(params, "watch"));
                let print_to_terminal = match lookup(params, "print_to_terminal") {
                    Some(v) => same_text(v.as_str(), "true"),
                    None => false,
                };
                let depth = number_of(&lookup(params, "depth"), 1);
                Ok(PythonCall::TraceStart { function, watch, print_to_terminal, depth })
            },
        }
    } else if same_text(path, "trace/stop") {
        match lookup(params, "function") {
            None => Err(EngineError::PluginError("Missing 'function' parameter".to_owned())),
            Some(function) => Ok(PythonCall::TraceStop { function }),
        }
    } else if same_text(path, "trace/variables") {
        let function = lookup(params, "function");
        let limit = count_of(&lookup(params, "limit"), 100);
        Ok(PythonCall::TraceVariables { function, limit })
    } else {
        Ok(PythonCall::Empty)
    }
}

} // verus!
