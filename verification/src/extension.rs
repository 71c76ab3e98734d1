//! Extensions and their registry: namespaces derived from names, and the
//! dispatch of option writes, option reads and calls to the first extension
//! that takes them.

use crate::config::ConfigStore;
use crate::engine::Plugin;
use crate::ele::EleView;
use crate::trace::opt_str_text;
use crate::text::{ends_with, starts_with, text_ends_with, text_starts_with};
use std::collections::HashMap;
use vstd::prelude::*;

verus! {

/// What can go wrong in the engine and its extensions.
#[derive(Debug, PartialEq, Eq)]
pub enum EngineError {
    /// No extension takes the option of this key.
    UnsupportedOption(String),
    /// The option of this key can be written once, and has been.
    ReadOnlyOption(String),
    /// The extension refused the value (second) for the key (first).
    InvalidOptionValue(String, String),
    /// The extension answers no calls, or not this one.
    UnsupportedCall,
    /// No extension answered the call to this path.
    CallError(String),
    /// An extension failed within itself.
    PluginError(String),
    /// The query runtime failed to parse, plan or execute; the text is its
    /// diagnostic.
    Engine(String),
}

/// An error, with its texts as sequences of characters.
pub enum ErrorView {
    UnsupportedOption(Seq<char>),
    ReadOnlyOption(Seq<char>),
    InvalidOptionValue(Seq<char>, Seq<char>),
    UnsupportedCall,
    CallError(Seq<char>),
    PluginError(Seq<char>),
    Engine(Seq<char>),
}

impl View for EngineError {
    type V = ErrorView;

    open spec fn view(&self) -> ErrorView {
        match *self {
            EngineError::UnsupportedOption(k) => ErrorView::UnsupportedOption(k@),
            EngineError::ReadOnlyOption(k) => ErrorView::ReadOnlyOption(k@),
            EngineError::InvalidOptionValue(k, v) => ErrorView::InvalidOptionValue(k@, v@),
            EngineError::UnsupportedCall => ErrorView::UnsupportedCall,
            EngineError::CallError(p) => ErrorView::CallError(p@),
            EngineError::PluginError(m) => ErrorView::PluginError(m@),
            EngineError::Engine(m) => ErrorView::Engine(m@),
        }
    }
}

/// The answer of an extension to a write or a read of an option, with its
/// texts as sequences of characters.
pub open spec fn answer_view(r: Result<String, EngineError>) -> Result<Seq<char>, ErrorView> {
    match r {
        Ok(s) => Ok(s@),
        Err(e) => Err(e@),
    }
}

/// The outcome of a dispatch that hands no value back.
pub open spec fn outcome_view(r: Result<(), EngineError>) -> Result<(), ErrorView> {
    match r {
        Ok(_) => Ok(()),
        Err(e) => Err(e@),
    }
}

/// A value that a free-form option text may or may not hold.
#[derive(Debug, PartialEq, Eq)]
pub enum Maybe<T> {
    Just(T),
    Nothing,
}

impl<T> Default for Maybe<T> {
    fn default() -> (r: Self)
        ensures
            r is Nothing,
    {
        Maybe::Nothing
    }
}

/// Calls `str::parse`, which reads the text as the target type reads it.
/// Nothing is promised of the value: what parses is the target type's
/// affair.
#[verifier::external_body]
fn parse_text<T: std::str::FromStr>(s: &str) -> (r: Option<T>) {
    s.parse::<T>().ok()
}

impl<T: std::str::FromStr> std::str::FromStr for Maybe<T> {
    type Err = std::convert::Infallible;

    /// Nothing for the empty text and for a text that does not parse, else
    /// the parsed value.
    fn from_str(s: &str) -> (r: Result<Self, Self::Err>)
        ensures
            r is Ok,
            s@.len() == 0 ==> r->Ok_0 is Nothing,
    {
        let parsed = if s.unicode_len() == 0 {
            None
        } else {
            parse_text::<T>(s)
        };
        Ok(Maybe::from_parsed(s, parsed))
    }
}

impl<T> Maybe<T> {
    /// What a parser made of the option text `s`: nothing for the empty text
    /// or a text that did not parse, else the parsed value.
    pub fn from_parsed(s: &str, parsed: Option<T>) -> (r: Self)
        ensures
            r == if s@.len() == 0 {
                Maybe::<T>::Nothing
            } else {
                match parsed {
                    Some(v) => Maybe::Just(v),
                    None => Maybe::Nothing,
                }
            },
    {
        if s.unicode_len() == 0 {
            Maybe::Nothing
        } else {
            match parsed {
                Some(v) => Maybe::Just(v),
                None => Maybe::Nothing,
            }
        }
    }

    /// The value, if there is one.
    pub fn into_option(self) -> (r: Option<T>)
        ensures
            r == match self {
                Maybe::Just(v) => Some(v),
                Maybe::Nothing => None,
            },
    {
        match self {
            Maybe::Just(v) => Some(v),
            Maybe::Nothing => None,
        }
    }
}

/// One option of an extension.
#[derive(Debug, PartialEq, Eq)]
pub struct EngineExtensionOption {
    /// The key as the extension knows it, without the namespace.
    pub key: String,
    /// The current value, if the option is set.
    pub value: Option<String>,
    pub help: &'static str,
}

/// An option, with its texts as sequences of characters.
pub struct OptionView {
    pub key: Seq<char>,
    pub value: Option<Seq<char>>,
    pub help: Seq<char>,
}

impl View for EngineExtensionOption {
    type V = OptionView;

    open spec fn view(&self) -> OptionView {
        OptionView {
            key: self.key@,
            value: match self.value {
                Some(v) => Some(v@),
                None => None,
            },
            help: self.help@,
        }
    }
}

/// The options of a list, each by its view.
pub open spec fn option_views(v: Seq<EngineExtensionOption>) -> Seq<OptionView> {
    Seq::new(v.len(), |i: int| v[i]@)
}

/// How an extension answers calls.
pub trait EngineCall {
    /// Answers the call to `path` with the given parameters and body. An
    /// extension that answers no calls, or not this one, says
    /// `UnsupportedCall`; so does every extension that leaves this method
    /// as it is.
    fn call(&self, path: &str, params: &HashMap<String, String>, body: &[u8]) -> (r: Result<
        Vec<u8>,
        EngineError,
    >)
        default_ensures
            r matches Err(EngineError::UnsupportedCall),
    {
        Err(EngineError::UnsupportedCall)
    }
}

/// How an extension offers data sources.
pub trait EngineDatasource {
    /// The plugin that this extension offers under `namespace`, and `name`
    /// if one is given; `None` where it offers none, as every extension
    /// does that leaves this method as it is.
    fn datasrc(&self, namespace: &str, name: Option<&str>) -> (r: Option<Plugin>)
        default_ensures
            r is None,
    {
        None
    }
}

/// A configurable module of the probe. The registry asks it by its local
/// keys; what it answers is its own affair, and it says so itself: an
/// implementation states its name, its answers to writes and reads and its
/// options as the four spec functions, and its methods return what those
/// say. An answer is thus taken to depend on the extension and on what it
/// is asked, and on nothing else. The registry's contracts are stated over
/// these functions and hold of every implementation whose methods keep to
/// them; the bodies given here only stand in where an implementation states
/// none, and no proof reads them.
pub trait EngineExtension: EngineCall + EngineDatasource {
    /// The name that `name` returns.
    open spec fn name_view(&self) -> Seq<char> {
        arbitrary()
    }

    /// What `set` answers to the write of `value` under the local key `key`.
    open spec fn set_answer(&self, key: Seq<char>, value: Seq<char>) -> Answer {
        arbitrary()
    }

    /// What `get` answers to the read of the local key `key`.
    open spec fn get_answer(&self, key: Seq<char>) -> Answer {
        arbitrary()
    }

    /// The options that `options` lists.
    open spec fn options_view(&self) -> Seq<OptionView> {
        arbitrary()
    }

    /// The extension's name.
    fn name(&self) -> (r: String)
        ensures
            r@ == self.name_view(),
    ;

    /// Writes an option and hands back its old value. An extension that does
    /// not know the key says `UnsupportedOption`.
    fn set(&mut self, key: &str, value: &str) -> (r: Result<String, EngineError>)
        ensures
            answer_view(r) == old(self).set_answer(key@, value@),
    ;

    /// Reads an option. An extension that does not know the key says
    /// `UnsupportedOption`.
    fn get(&self, key: &str) -> (r: Result<String, EngineError>)
        ensures
            answer_view(r) == self.get_answer(key@),
    ;

    /// The options of the extension, each under its local key.
    fn options(&self) -> (r: Vec<EngineExtensionOption>)
        ensures
            option_views(r@) == self.options_view(),
    ;
}

/// The lower-case form of `s` that `str::to_lowercase` gives.
pub uninterp spec fn lowercase(s: Seq<char>) -> Seq<char>;

/// Calls `str::to_lowercase`, which maps each character by the Unicode
/// lower-case tables. The contract only names the result: the same text
/// always gives the same lower-case text.
#[verifier::external_body]
fn to_lowercase(s: &str) -> (r: String)
    ensures
        r@ == lowercase(s@),
{
    s.to_lowercase()
}

/// The namespace that goes with a lower-case name: the name without a
/// trailing `extension`, and a dot.
pub open spec fn namespace_from(lower: Seq<char>) -> Seq<char> {
    if ends_with(lower, "extension"@) {
        lower.subrange(0, lower.len() - 9) + "."@
    } else {
        lower + "."@
    }
}

/// The namespace of an extension of the given name: the lower-case name,
/// without a trailing `extension`, and a dot.
pub open spec fn namespace_of(name: Seq<char>) -> Seq<char> {
    namespace_from(lowercase(name))
}

/// The namespace that goes with a name that is in lower case already.
pub fn namespace_from_lower(lower: &str) -> (r: String)
    ensures
        r@ == namespace_from(lower@),
{
    proof {
        reveal_strlit("extension");
        reveal_strlit(".");
    }
    let mut namespace = if text_ends_with(lower, "extension") {
        let n: usize = lower.unicode_len();
        lower.substring_char(0, n - 9).to_owned()
    } else {
        lower.to_owned()
    };
    namespace.append(".");
    namespace
}

/// The prefix of the paths that an extension of the given name answers.
pub open spec fn call_prefix(name: Seq<char>) -> Seq<char> {
    "/"@ + name + "/"@
}

/// The key as the extension of the given name sees it: what follows the
/// namespace, which is taken from the front once.
pub open spec fn local_key(name: Seq<char>, key: Seq<char>) -> Seq<char> {
    key.subrange(namespace_of(name).len() as int, key.len() as int)
}

/// What an extension of the given name is asked for a write or a read of
/// `key`: its local key where its namespace starts the key, nothing where it
/// does not.
pub open spec fn handed_key(name: Seq<char>, key: Seq<char>) -> Option<Seq<char>> {
    if starts_with(key, namespace_of(name)) {
        Some(local_key(name, key))
    } else {
        None
    }
}

/// What an extension of the given name is asked for a call to `path`: the
/// rest of the path where its name, between slashes, starts the path,
/// nothing where it does not.
pub open spec fn handed_path(name: Seq<char>, path: Seq<char>) -> Option<Seq<char>> {
    if starts_with(path, call_prefix(name)) {
        Some(local_path(name, path))
    } else {
        None
    }
}

/// The local key that an extension of the given name is asked for a write
/// or a read of `key`, if it is asked.
pub fn local_key_for<'a>(name: &str, key: &'a str) -> (r: Option<&'a str>)
    ensures
        opt_str_text(r) == handed_key(name@, key@),
{
    let lower = to_lowercase(name);
    let namespace = namespace_from_lower(lower.as_str());
    if text_starts_with(key, namespace.as_str()) {
        let from: usize = namespace.as_str().unicode_len();
        let to: usize = key.unicode_len();
        Some(key.substring_char(from, to))
    } else {
        None
    }
}

/// The rest of the path that an extension of the given name is asked for a
/// call to `path`, if it is asked.
pub fn local_path_for<'a>(name: &str, path: &'a str) -> (r: Option<&'a str>)
    ensures
        opt_str_text(r) == handed_path(name@, path@),
{
    proof {
        reveal_strlit("/");
    }
    let mut prefix = "/".to_owned();
    prefix.append(name);
    prefix.append("/");
    if text_starts_with(path, prefix.as_str()) {
        let from: usize = prefix.as_str().unicode_len();
        let to: usize = path.unicode_len();
        Some(path.substring_char(from, to))
    } else {
        None
    }
}

/// The names that the extensions give themselves, in their order.
pub open spec fn own_names<E: EngineExtension>(exts: Seq<E>) -> Seq<Seq<char>> {
    Seq::new(exts.len(), |i: int| exts[i].name_view())
}

/// What each extension answers to the write of `value` under `key`, asked
/// with its local key.
pub open spec fn set_answers<E: EngineExtension>(exts: Seq<E>, key: Seq<char>, value: Seq<char>) -> Seq<Answer> {
    Seq::new(exts.len(), |i: int| exts[i].set_answer(local_key(exts[i].name_view(), key), value))
}

/// What each extension answers to the read of `key`, asked with its local
/// key.
pub open spec fn get_answers<E: EngineExtension>(exts: Seq<E>, key: Seq<char>) -> Seq<Answer> {
    Seq::new(exts.len(), |i: int| exts[i].get_answer(local_key(exts[i].name_view(), key)))
}

/// The options that each extension lists.
pub open spec fn option_lists<E: EngineExtension>(exts: Seq<E>) -> Seq<Seq<OptionView>> {
    Seq::new(exts.len(), |i: int| exts[i].options_view())
}

/// The names of a registry after `name` is registered: as before where the
/// name stands already, else with the name last.
pub open spec fn registered_names(names: Seq<Seq<char>>, name: Seq<char>) -> Seq<Seq<char>> {
    if names.contains(name) {
        names
    } else {
        names.push(name)
    }
}

/// The extensions of a registry after `extension` is registered under
/// `name`: in the place of the one that stood under the name, else last.
pub open spec fn registered_members<E>(names: Seq<Seq<char>>, members: Seq<E>, name: Seq<char>, extension: E) -> Seq<
    E,
> {
    if names.contains(name) {
        members.update(names.index_of(name), extension)
    } else {
        members.push(extension)
    }
}

/// The rest of a path behind the prefix of the extension of the given name.
pub open spec fn local_path(name: Seq<char>, path: Seq<char>) -> Seq<char> {
    path.subrange(call_prefix(name).len() as int, path.len() as int)
}

/// An answer to a write or a read of an option.
pub type Answer = Result<Seq<char>, ErrorView>;

/// An answer to a call.
pub type Reply = Result<Seq<u8>, ErrorView>;

/// The reply of an extension to a call, with its texts as sequences of
/// characters.
pub open spec fn reply_view(r: Result<Vec<u8>, EngineError>) -> Reply {
    match r {
        Ok(bytes) => Ok(bytes@),
        Err(e) => Err(e@),
    }
}

/// Whether the extension of the given name settles the write, if `answer` is
/// what it answers: the key is in its namespace, and the answer is anything
/// but `UnsupportedOption`.
pub open spec fn settles_set(name: Seq<char>, key: Seq<char>, answer: Answer) -> bool {
    &&& starts_with(key, namespace_of(name))
    &&& !(answer matches Err(ErrorView::UnsupportedOption(_)))
}

/// Whether the extension of the given name settles the read, if `answer` is
/// what it answers: the key is in its namespace, and the answer is a value.
pub open spec fn settles_get(name: Seq<char>, key: Seq<char>, answer: Answer) -> bool {
    &&& starts_with(key, namespace_of(name))
    &&& answer is Ok
}

/// Whether the extension of the given name settles the call, if `reply` is
/// what it replies: its name, between slashes, starts the path, and the
/// reply is anything but `UnsupportedCall`.
pub open spec fn settles_call(name: Seq<char>, path: Seq<char>, reply: Reply) -> bool {
    &&& starts_with(path, call_prefix(name))
    &&& !(reply matches Err(ErrorView::UnsupportedCall))
}

/// The first extension from position `from` on that settles the write, where
/// `answers[i]` is what the extension at position `i` answers.
pub open spec fn first_to_set(names: Seq<Seq<char>>, key: Seq<char>, answers: Seq<Answer>, from: int) -> Option<
    int,
>
    decreases names.len() - from,
{
    if from < 0 || from >= names.len() {
        None
    } else if settles_set(names[from], key, answers[from]) {
        Some(from)
    } else {
        first_to_set(names, key, answers, from + 1)
    }
}

/// The first extension from position `from` on that settles the read.
pub open spec fn first_to_get(names: Seq<Seq<char>>, key: Seq<char>, answers: Seq<Answer>, from: int) -> Option<
    int,
>
    decreases names.len() - from,
{
    if from < 0 || from >= names.len() {
        None
    } else if settles_get(names[from], key, answers[from]) {
        Some(from)
    } else {
        first_to_get(names, key, answers, from + 1)
    }
}

/// The first extension from position `from` on that settles the call.
pub open spec fn first_to_call(names: Seq<Seq<char>>, path: Seq<char>, replies: Seq<Reply>, from: int) -> Option<
    int,
>
    decreases names.len() - from,
{
    if from < 0 || from >= names.len() {
        None
    } else if settles_call(names[from], path, replies[from]) {
        Some(from)
    } else {
        first_to_call(names, path, replies, from + 1)
    }
}

/// What a write under `key` comes to, where `answers[i]` is what the
/// extension at position `i` answers to it: the answer of the first
/// extension that settles it, without the old value; `UnsupportedOption` of
/// the whole key where none does.
pub open spec fn routed_set(names: Seq<Seq<char>>, key: Seq<char>, answers: Seq<Answer>) -> Result<
    (),
    ErrorView,
> {
    match first_to_set(names, key, answers, 0) {
        Some(i) => match answers[i] {
            Ok(_) => Ok(()),
            Err(e) => Err(e),
        },
        None => Err(ErrorView::UnsupportedOption(key)),
    }
}

/// What a read of `key` comes to, where `answers[i]` is what the extension
/// at position `i` answers to it: the value that the first extension that
/// settles it answers; `UnsupportedOption` of the whole key where none does.
pub open spec fn routed_get(names: Seq<Seq<char>>, key: Seq<char>, answers: Seq<Answer>) -> Answer {
    match first_to_get(names, key, answers, 0) {
        Some(i) => answers[i],
        None => Err(ErrorView::UnsupportedOption(key)),
    }
}

/// What a call to `path` comes to, where `replies[i]` is what the extension
/// at position `i` replies to it: the reply of the first extension that
/// settles it; `CallError` of the whole path where none does.
pub open spec fn routed_call(names: Seq<Seq<char>>, path: Seq<char>, replies: Seq<Reply>) -> Reply {
    match first_to_call(names, path, replies, 0) {
        Some(i) => replies[i],
        None => Err(ErrorView::CallError(path)),
    }
}

/// Whether the dispatch of a write asks the extension at position `j`: its
/// namespace starts the key, and no extension before it settles the write.
pub open spec fn asked_to_set(names: Seq<Seq<char>>, key: Seq<char>, answers: Seq<Answer>, j: int) -> bool {
    &&& 0 <= j < names.len()
    &&& starts_with(key, namespace_of(names[j]))
    &&& match first_to_set(names, key, answers, 0) {
        Some(first) => j <= first,
        None => true,
    }
}

/// Whether a dispatch of a write that got the given answers comes to
/// `outcome` and leaves every extension that it does not ask as it was.
pub open spec fn dispatched_set<E>(
    names: Seq<Seq<char>>,
    key: Seq<char>,
    answers: Seq<Answer>,
    outcome: Result<(), ErrorView>,
    before: Seq<E>,
    after: Seq<E>,
) -> bool {
    &&& answers.len() == names.len()
    &&& outcome == routed_set(names, key, answers)
    &&& after.len() == before.len()
    &&& forall|j: int|
        0 <= j < before.len() && !asked_to_set(names, key, answers, j) ==> #[trigger] after[j] == before[j]
}

/// What an answer to a write means for the dispatch: `None` to go on to the
/// next extension, else the result of the dispatch.
pub fn settle_set(answer: Result<String, EngineError>) -> (r: Option<Result<(), EngineError>>)
    ensures
        answer matches Err(EngineError::UnsupportedOption(_)) ==> r is None,
        answer is Ok ==> r == Some(Ok::<(), EngineError>(())),
        answer is Err && !(answer matches Err(EngineError::UnsupportedOption(_))) ==> r == Some(
            Err::<(), EngineError>(answer->Err_0),
        ),
{
    match answer {
        Ok(_) => Some(Ok(())),
        Err(EngineError::UnsupportedOption(_)) => None,
        Err(e) => Some(Err(e)),
    }
}

/// What an answer to a read means for the dispatch: `None` to go on to the
/// next extension, else the value that the dispatch hands back.
pub fn settle_get(answer: Result<String, EngineError>) -> (r: Option<String>)
    ensures
        r == match answer {
            Ok(value) => Some(value),
            Err(_) => None,
        },
{
    match answer {
        Ok(value) => Some(value),
        Err(_) => None,
    }
}

/// What a reply to a call means for the dispatch: `None` to go on to the
/// next extension, else the result of the dispatch.
pub fn settle_call(reply: Result<Vec<u8>, EngineError>) -> (r: Option<Result<Vec<u8>, EngineError>>)
    ensures
        reply matches Err(EngineError::UnsupportedCall) ==> r is None,
        !(reply matches Err(EngineError::UnsupportedCall)) ==> r == Some(reply),
{
    match reply {
        Err(EngineError::UnsupportedCall) => None,
        other => Some(other),
    }
}

/// A dispatch that no extension before `upto` settles goes on from `upto` as
/// it would from the start.
pub proof fn lemma_unsettled_set(names: Seq<Seq<char>>, key: Seq<char>, answers: Seq<Answer>, upto: int)
    requires
        0 <= upto <= names.len(),
        forall|j: int| 0 <= j < upto ==> !settles_set(#[trigger] names[j], key, answers[j]),
    ensures
        first_to_set(names, key, answers, 0) == first_to_set(names, key, answers, upto),
    decreases upto,
{
    if upto > 0 {
        lemma_unsettled_set(names, key, answers, upto - 1);
    }
}

/// A read that no extension before `upto` settles goes on from `upto` as it
/// would from the start.
pub proof fn lemma_unsettled_get(names: Seq<Seq<char>>, key: Seq<char>, answers: Seq<Answer>, upto: int)
    requires
        0 <= upto <= names.len(),
        forall|j: int| 0 <= j < upto ==> !settles_get(#[trigger] names[j], key, answers[j]),
    ensures
        first_to_get(names, key, answers, 0) == first_to_get(names, key, answers, upto),
    decreases upto,
{
    if upto > 0 {
        lemma_unsettled_get(names, key, answers, upto - 1);
    }
}

/// A call that no extension before `upto` settles goes on from `upto` as it
/// would from the start.
pub proof fn lemma_unsettled_call(names: Seq<Seq<char>>, path: Seq<char>, replies: Seq<Reply>, upto: int)
    requires
        0 <= upto <= names.len(),
        forall|j: int| 0 <= j < upto ==> !settles_call(#[trigger] names[j], path, replies[j]),
    ensures
        first_to_call(names, path, replies, 0) == first_to_call(names, path, replies, upto),
    decreases upto,
{
    if upto > 0 {
        lemma_unsettled_call(names, path, replies, upto - 1);
    }
}

/// The first extension that settles a write, and that none before it does.
pub proof fn lemma_first_to_set(names: Seq<Seq<char>>, key: Seq<char>, answers: Seq<Answer>, from: int)
    requires
        0 <= from,
    ensures
        match first_to_set(names, key, answers, from) {
            Some(i) => from <= i < names.len() && settles_set(names[i], key, answers[i]) && forall|j: int|
                from <= j < i ==> !settles_set(#[trigger] names[j], key, answers[j]),
            None => forall|j: int| from <= j < names.len() ==> !settles_set(#[trigger] names[j], key, answers[j]),
        },
    decreases names.len() - from,
{
    if from < names.len() && !settles_set(names[from], key, answers[from]) {
        lemma_first_to_set(names, key, answers, from + 1);
    }
}

/// A key made of an extension's namespace and a local key is in that
/// namespace, and reaches the extension as the local key, whatever the local
/// key starts with.
pub proof fn law_local_key(name: Seq<char>, local: Seq<char>)
    ensures
        starts_with(namespace_of(name) + local, namespace_of(name)),
        local_key(name, namespace_of(name) + local) == local,
{
    let ns = namespace_of(name);
    let key = ns + local;
    assert(key.subrange(0, ns.len() as int) =~= ns);
    assert(key.subrange(ns.len() as int, key.len() as int) =~= local);
}

/// First accept wins. Let the extension at position `at`, by the name it
/// gives itself, accept the write of `value` under its local key `local`.
/// Then the key made of its namespace and `local` reaches it as `local`, and
/// the write is settled by this extension exactly when no extension
/// registered before it settles it. The write succeeds exactly when the
/// first extension that settles it accepts it: so it does whenever none
/// before `at` settles it, and whenever the extensions before `at` answer
/// nothing but acceptance and `UnsupportedOption`.
pub proof fn law_first_accept_wins<E: EngineExtension>(exts: Seq<E>, at: int, local: Seq<char>, value: Seq<char>)
    requires
        0 <= at < exts.len(),
        exts[at].set_answer(local, value) is Ok,
    ensures
        ({
            let names = own_names(exts);
            let key = namespace_of(exts[at].name_view()) + local;
            let answers = set_answers(exts, key, value);
            &&& answers[at] == exts[at].set_answer(local, value)
            &&& settles_set(names[at], key, answers[at])
            &&& first_to_set(names, key, answers, 0) == Some(at) <==> (forall|j: int|
                0 <= j < at ==> !settles_set(#[trigger] names[j], key, answers[j]))
            &&& first_to_set(names, key, answers, 0) is Some
            &&& routed_set(names, key, answers) is Ok <==> answers[first_to_set(names, key, answers, 0)->Some_0] is Ok
            &&& first_to_set(names, key, answers, 0) == Some(at) ==> routed_set(names, key, answers) is Ok
            &&& (forall|j: int|
                0 <= j < at ==> (#[trigger] answers[j] is Ok || answers[j] matches Err(
                    ErrorView::UnsupportedOption(_),
                ))) ==> routed_set(names, key, answers) is Ok
        }),
{
    let names = own_names(exts);
    let key = namespace_of(exts[at].name_view()) + local;
    let answers = set_answers(exts, key, value);
    law_local_key(exts[at].name_view(), local);
    lemma_first_to_set(names, key, answers, 0);
}

/// A write that succeeds is read back. Let the write of `value` under `key`
/// succeed, settled by the extension at position `i`, and let `after` be the
/// extensions as the write left them. If that extension now answers the read
/// of its local key with `value`, and no extension before it answers the
/// read of its own local key with a value, the read of `key` gives `value`.
pub proof fn law_write_then_read<E: EngineExtension>(
    before: Seq<E>,
    after: Seq<E>,
    key: Seq<char>,
    value: Seq<char>,
    i: int,
)
    requires
        after.len() == before.len(),
        own_names(after) == own_names(before),
        first_to_set(own_names(before), key, set_answers(before, key, value), 0) == Some(i),
        set_answers(before, key, value)[i] is Ok,
        after[i].get_answer(local_key(after[i].name_view(), key)) == Ok::<Seq<char>, ErrorView>(value),
        forall|j: int|
            0 <= j < i && starts_with(key, namespace_of(#[trigger] after[j].name_view())) ==> !(after[j].get_answer(
                local_key(after[j].name_view(), key),
            ) is Ok),
    ensures
        routed_set(own_names(before), key, set_answers(before, key, value)) is Ok,
        routed_get(own_names(after), key, get_answers(after, key)) == Ok::<Seq<char>, ErrorView>(value),
{
    let names = own_names(before);
    lemma_first_to_set(names, key, set_answers(before, key, value), 0);
    let answers = get_answers(after, key);
    assert(names[i] == after[i].name_view()) by {
        assert(own_names(after)[i] == after[i].name_view());
    }
    assert forall|j: int| 0 <= j < i implies !settles_get(#[trigger] names[j], key, answers[j]) by {
        assert(own_names(after)[j] == after[j].name_view());
    }
    lemma_unsettled_get(names, key, answers, i);
    assert(settles_get(names[i], key, answers[i]));
}

/// The registry of extensions, in the order of their registration.
pub struct EngineExtensionManager<E: EngineExtension> {
    extensions: Vec<(String, E)>,
}

impl<E: EngineExtension> Default for EngineExtensionManager<E> {
    fn default() -> (r: Self)
        ensures
            r.wf(),
            r.members().len() == 0,
            r.names().len() == 0,
    {
        EngineExtensionManager::new()
    }
}

impl<E: EngineExtension> EngineExtensionManager<E> {
    /// The registered extensions, in the order of their registration.
    pub closed spec fn members(&self) -> Seq<E> {
        Seq::new(self.extensions@.len(), |i: int| self.extensions@[i].1)
    }

    /// The names that the extensions are registered under, in the order of
    /// their registration. A registration under a name that stands here
    /// replaces; the dispatch does not go by these names.
    pub closed spec fn names(&self) -> Seq<Seq<char>> {
        Seq::new(self.extensions@.len(), |i: int| self.extensions@[i].0@)
    }

    /// The names that the registered extensions give themselves, in the
    /// order of their registration: the names that the dispatch goes by.
    pub open spec fn own_names(&self) -> Seq<Seq<char>> {
        own_names(self.members())
    }

    /// The registry's invariant: no name is registered twice.
    pub closed spec fn wf(&self) -> bool {
        self.names().no_duplicates()
    }

    /// Each extension stands under one name: there are as many names as
    /// extensions.
    pub proof fn lemma_one_name_each(&self)
        ensures
            self.members().len() == self.names().len(),
            self.own_names().len() == self.names().len(),
    {
    }

    /// A registry without extensions.
    pub fn new() -> (r: Self)
        ensures
            r.wf(),
            r.members().len() == 0,
            r.names().len() == 0,
    {
        EngineExtensionManager { extensions: Vec::new() }
    }

    /// The number of registered extensions.
    pub fn len(&self) -> (n: usize)
        ensures
            n == self.names().len(),
            n == self.members().len(),
    {
        self.extensions.len()
    }

    /// A registry of the same names, with a copy of each extension as its
    /// `clone` makes it: for extensions that are shared handles, a snapshot
    /// to dispatch from without holding the registry.
    pub fn snapshot(&self) -> (r: Self) where E: Clone
        requires
            self.wf(),
        ensures
            r.wf(),
            r.names() == self.names(),
    {
        let mut copy: Vec<(String, E)> = Vec::new();
        let mut i: usize = 0;
        while i < self.extensions.len()
            invariant
                i <= self.extensions@.len(),
                copy@.len() == i,
                forall|j: int| 0 <= j < i ==> (#[trigger] copy@[j]).0@ == self.extensions@[j].0@,
            decreases self.extensions@.len() - i,
        {
            copy.push((self.extensions[i].0.clone(), self.extensions[i].1.clone()));
            i += 1;
        }
        let r = EngineExtensionManager { extensions: copy };
        proof {
            assert(r.names() =~= self.names());
        }
        r
    }

    /// Registers `extension` under `name`. An extension registered under the
    /// same name before is replaced, in its place; a new name goes last.
    pub fn register(&mut self, name: String, extension: E)
        requires
            old(self).wf(),
        ensures
            final(self).wf(),
            final(self).names() == registered_names(old(self).names(), name@),
            final(self).members() == registered_members(old(self).names(), old(self).members(), name@, extension),
    {
        let ghost before = *self;
        let mut i: usize = 0;
        while i < self.extensions.len()
            invariant
                *self == before,
                before == *old(self),
                before.wf(),
                i <= self.extensions@.len(),
                forall|j: int| 0 <= j < i ==> #[trigger] before.names()[j] != name@,
            decreases self.extensions@.len() - i,
        {
            if self.extensions[i].0 == name {
                proof {
                    assert(before.names()[i as int] == name@);
                    let at = before.names().index_of(name@);
                    assert(before.names()[at] == name@);
                    assert(at == i);
                }
                self.extensions.set(i, (name, extension));
                proof {
                    assert(self.names() =~= before.names());
                    assert(self.members() =~= before.members().update(i as int, extension));
                }
                return ;
            }
            proof {
                assert(before.names()[i as int] == self.extensions@[i as int].0@);
            }
            i += 1;
        }
        self.extensions.push((name, extension));
        proof {
            assert(self.names() =~= before.names().push(name@));
            assert(self.members() =~= before.members().push(extension));
            assert(!before.names().contains(name@));
        }
    }

    /// The namespace of an extension of the given name: the lower-case name,
    /// without a trailing `extension`, and a dot.
    pub fn extract_namespace(extension_name: &str) -> (r: String)
        ensures
            r@ == namespace_of(extension_name@),
    {
        let lower = to_lowercase(extension_name);
        namespace_from_lower(lower.as_str())
    }

    /// Writes the option `key`: the extensions are asked in the order of
    /// their registration, each one whose namespace, made from the name it
    /// gives itself, starts the key, with its local key, until one answers
    /// anything but `UnsupportedOption`. The result is what `routed_set`
    /// makes of the extensions' answers, and an extension that is not asked
    /// stays as it was.
    pub fn set_option(&mut self, key: &str, value: &str) -> (r: Result<(), EngineError>)
        requires
            old(self).wf(),
        ensures
            final(self).wf(),
            final(self).names() == old(self).names(),
            dispatched_set(
                old(self).own_names(),
                key@,
                set_answers(old(self).members(), key@, value@),
                outcome_view(r),
                old(self).members(),
                final(self).members(),
            ),
    {
        let ghost exts = self.members();
        let ghost names = own_names(exts);
        let ghost answers = set_answers(exts, key@, value@);
        let n: usize = self.extensions.len();
        let mut i: usize = 0;
        while i < n
            invariant
                self.extensions@.len() == n,
                exts == old(self).members(),
                exts.len() == n,
                names == own_names(exts),
                answers == set_answers(exts, key@, value@),
                self.names() == old(self).names(),
                old(self).wf(),
                i <= n,
                forall|j: int| 0 <= j < i ==> !settles_set(#[trigger] names[j], key@, answers[j]),
                forall|j: int|
                    0 <= j < i && self.members()[j] != exts[j] ==> starts_with(
                        key@,
                        namespace_of(#[trigger] names[j]),
                    ),
                forall|j: int| i <= j < n ==> #[trigger] self.members()[j] == exts[j],
            decreases n - i,
        {
            let name = self.extensions[i].1.name();
            proof {
                assert(self.members()[i as int] == exts[i as int]);
                assert(name@ == names[i as int]);
            }
            if let Some(local) = local_key_for(name.as_str(), key) {
                let ghost prev = *self;
                let answer = self.extensions[i].1.set(local, value);
                proof {
                    assert(self.names() =~= prev.names());
                    assert forall|j: int| 0 <= j < n && j != i implies #[trigger] self.members()[j]
                        == prev.members()[j] by {
                        assert(self.extensions@[j] == prev.extensions@[j]);
                    }
                    assert(local@ == local_key(names[i as int], key@));
                    assert(answer_view(answer) == answers[i as int]);
                }
                match settle_set(answer) {
                    Some(result) => {
                        proof {
                            lemma_unsettled_set(names, key@, answers, i as int);
                            assert(settles_set(names[i as int], key@, answers[i as int]));
                            assert(first_to_set(names, key@, answers, 0) == Some(i as int));
                            assert(outcome_view(result) == routed_set(names, key@, answers));
                            assert(self.members().len() == exts.len());
                        }
                        return result;
                    },
                    None => {},
                }
            }
            i += 1;
        }
        proof {
            lemma_unsettled_set(names, key@, answers, n as int);
            assert(self.members().len() == exts.len());
        }
        Err(EngineError::UnsupportedOption(key.to_owned()))
    }

    /// Writes the option `key` as `set_option` does and, where that
    /// succeeds, stores the value under the same key.
    pub fn set_option_with_store_update(&mut self, store: &mut ConfigStore, key: &str, value: &str) -> (r:
        Result<(), EngineError>)
        requires
            old(self).wf(),
            old(store).wf(),
        ensures
            final(self).wf(),
            final(store).wf(),
            final(self).names() == old(self).names(),
            dispatched_set(
                old(self).own_names(),
                key@,
                set_answers(old(self).members(), key@, value@),
                outcome_view(r),
                old(self).members(),
                final(self).members(),
            ),
            r is Ok ==> final(store)@ == old(store)@.insert(key@, EleView::Text(value@)),
            r is Err ==> final(store)@ == old(store)@,
    {
        match self.set_option(key, value) {
            Ok(_) => {
                store.set(key, value);
                Ok(())
            },
            Err(e) => Err(e),
        }
    }

    /// Reads the option `key`: the extensions are asked in the order of
    /// their registration, each one whose namespace, made from the name it
    /// gives itself, starts the key, with its local key, until one answers
    /// with a value. The result is what `routed_get` makes of the
    /// extensions' answers.
    pub fn get_option(&self, key: &str) -> (r: Result<String, EngineError>)
        ensures
            answer_view(r) == routed_get(self.own_names(), key@, get_answers(self.members(), key@)),
    {
        let ghost exts = self.members();
        let ghost names = own_names(exts);
        let ghost answers = get_answers(exts, key@);
        let n: usize = self.extensions.len();
        let mut i: usize = 0;
        while i < n
            invariant
                self.extensions@.len() == n,
                exts == self.members(),
                names == own_names(exts),
                answers == get_answers(exts, key@),
                i <= n,
                forall|j: int| 0 <= j < i ==> !settles_get(#[trigger] names[j], key@, answers[j]),
            decreases n - i,
        {
            let name = self.extensions[i].1.name();
            proof {
                assert(name@ == names[i as int]);
            }
            if let Some(local) = local_key_for(name.as_str(), key) {
                let answer = self.extensions[i].1.get(local);
                proof {
                    assert(local@ == local_key(names[i as int], key@));
                    assert(answer_view(answer) == answers[i as int]);
                }
                match settle_get(answer) {
                    Some(found) => {
                        proof {
                            lemma_unsettled_get(names, key@, answers, i as int);
                            assert(settles_get(names[i as int], key@, answers[i as int]));
                        }
                        return Ok(found);
                    },
                    None => {},
                }
            }
            i += 1;
        }
        proof {
            lemma_unsettled_get(names, key@, answers, n as int);
        }
        Err(EngineError::UnsupportedOption(key.to_owned()))
    }

    /// The options of all extensions, in the order of registration, each
    /// under its local key: first all that the first extension lists, and
    /// so on.
    pub fn options(&self) -> (r: Vec<EngineExtensionOption>)
        ensures
            option_views(r@) == joined(option_lists(self.members()), self.members().len() as int),
    {
        let mut lists: Vec<Vec<EngineExtensionOption>> = Vec::new();
        let n: usize = self.extensions.len();
        let mut i: usize = 0;
        while i < n
            invariant
                n == self.extensions@.len(),
                i <= n,
                lists@.len() == i,
                forall|j: int| 0 <= j < i ==> option_views((#[trigger] lists@[j])@) == self.members()[j].options_view(),
            decreases n - i,
        {
            lists.push(self.extensions[i].1.options());
            i += 1;
        }
        proof {
            assert(list_views(lists@) =~= option_lists(self.members()));
        }
        join_options(lists)
    }

    /// The options of all extensions as settings of the query session: the
    /// options that `options` gives, in their order, each key with
    /// `probing.` in front.
    pub fn entries(&self) -> (r: Vec<EngineExtensionOption>)
        ensures
            option_views(r@) == session_entries(
                joined(option_lists(self.members()), self.members().len() as int),
            ),
            forall|i: int| 0 <= i < r@.len() ==> starts_with(#[trigger] r@[i].key@, "probing."@),
    {
        as_session_entries(self.options())
    }

    /// Hands the call to `path` to the extensions whose name, as each gives
    /// it itself and between slashes, starts the path, in the order of
    /// registration and each with the rest of the path, until one replies
    /// anything but `UnsupportedCall`. The result is what `routed_call`
    /// makes of the replies that came.
    pub fn call(&self, path: &str, params: &HashMap<String, String>, body: &[u8]) -> (r: Result<
        Vec<u8>,
        EngineError,
    >)
        ensures
            exists|replies: Seq<Reply>|
                replies.len() == self.own_names().len() && reply_view(r) == #[trigger] routed_call(
                    self.own_names(),
                    path@,
                    replies,
                ),
            (forall|i: int|
                0 <= i < self.own_names().len() ==> !starts_with(
                    path@,
                    call_prefix(#[trigger] self.own_names()[i]),
                )) ==> reply_view(r) == Err::<Seq<u8>, ErrorView>(ErrorView::CallError(path@)),
    {
        let ghost names = self.own_names();
        let ghost mut asked: Seq<Reply> = Seq::empty();
        let ghost quiet: Reply = Err(ErrorView::UnsupportedCall);
        let n: usize = self.extensions.len();
        let mut i: usize = 0;
        while i < n
            invariant
                self.extensions@.len() == n,
                names == self.own_names(),
                names.len() == n,
                quiet == Err::<Seq<u8>, ErrorView>(ErrorView::UnsupportedCall),
                i <= n,
                asked.len() == i,
                forall|j: int| 0 <= j < i ==> !settles_call(#[trigger] names[j], path@, asked[j]),
            decreases n - i,
        {
            let name = self.extensions[i].1.name();
            proof {
                assert(names[i as int] == self.members()[i as int].name_view());
            }
            if let Some(local) = local_path_for(name.as_str(), path) {
                let reply = self.extensions[i].1.call(local, params, body);
                proof {
                    asked = asked.push(reply_view(reply));
                }
                match settle_call(reply) {
                    Some(result) => {
                        proof {
                            let all = asked + Seq::new((n - i - 1) as nat, |k: int| quiet);
                            assert forall|j: int| 0 <= j < i implies !settles_call(
                                #[trigger] names[j],
                                path@,
                                all[j],
                            ) by {
                                assert(all[j] == asked[j]);
                            }
                            lemma_unsettled_call(names, path@, all, i as int);
                            assert(all[i as int] == asked[i as int]);
                            assert(reply_view(result) == routed_call(names, path@, all));
                        }
                        return result;
                    },
                    None => {},
                }
            } else {
                proof {
                    asked = asked.push(quiet);
                }
            }
            i += 1;
        }
        proof {
            lemma_unsettled_call(names, path@, asked, n as int);
            assert(Err::<Seq<u8>, ErrorView>(ErrorView::CallError(path@)) == routed_call(names, path@, asked));
        }
        Err(EngineError::CallError(path.to_owned()))
    }
}

/// An option as a setting of the query session: its key with `probing.` in
/// front.
pub open spec fn session_entry(o: OptionView) -> OptionView {
    OptionView { key: "probing."@ + o.key, value: o.value, help: o.help }
}

/// The options of a sequence as settings of the query session, in their
/// order.
pub open spec fn session_entries(options: Seq<OptionView>) -> Seq<OptionView> {
    Seq::new(options.len(), |i: int| session_entry(options[i]))
}

/// The lists of options, each list by the views of its options.
pub open spec fn list_views(lists: Seq<Vec<EngineExtensionOption>>) -> Seq<Seq<OptionView>> {
    Seq::new(lists.len(), |i: int| option_views(lists[i]@))
}

/// The options of the first `upto` lists, one list behind the other.
pub open spec fn joined(lists: Seq<Seq<OptionView>>, upto: int) -> Seq<OptionView>
    decreases upto,
{
    if upto <= 0 || upto > lists.len() {
        Seq::empty()
    } else {
        joined(lists, upto - 1) + lists[upto - 1]
    }
}

/// The options of all lists, one list behind the other.
pub fn join_options(lists: Vec<Vec<EngineExtensionOption>>) -> (r: Vec<EngineExtensionOption>)
    ensures
        option_views(r@) == joined(list_views(lists@), lists@.len() as int),
{
    let ghost given = list_views(lists@);
    let mut rest = lists;
    let mut all: Vec<EngineExtensionOption> = Vec::new();
    let ghost mut done: int = 0;
    proof {
        assert(option_views(all@) =~= joined(given, 0));
    }
    while rest.len() > 0
        invariant
            0 <= done <= given.len(),
            given.len() == done + rest@.len(),
            forall|k: int| 0 <= k < rest@.len() ==> option_views((#[trigger] rest@[k])@) == given[done + k],
            option_views(all@) == joined(given, done),
        decreases rest@.len(),
    {
        let ghost held = option_views(all@);
        let ghost before = rest@;
        let mut next = rest.remove(0);
        proof {
            assert(option_views(next@) == given[done]);
            assert forall|k: int| 0 <= k < rest@.len() implies option_views((#[trigger] rest@[k])@)
                == given[done + 1 + k] by {
                assert(rest@[k] == before[k + 1]);
            }
        }
        let ghost more = option_views(next@);
        all.append(&mut next);
        proof {
            assert(option_views(all@) =~= held + more);
            done = done + 1;
        }
    }
    all
}

/// The options as settings of the query session: each key with `probing.`
/// in front.
pub fn as_session_entries(options: Vec<EngineExtensionOption>) -> (r: Vec<EngineExtensionOption>)
    ensures
        r@.len() == options@.len(),
        option_views(r@) == session_entries(option_views(options@)),
        forall|i: int| 0 <= i < r@.len() ==> starts_with(#[trigger] r@[i].key@, "probing."@),
{
    let mut out: Vec<EngineExtensionOption> = Vec::new();
    let mut i: usize = 0;
    proof {
        reveal_strlit("probing.");
    }
    while i < options.len()
        invariant
            i <= options@.len(),
            out@.len() == i,
            forall|j: int| 0 <= j < i ==> (#[trigger] out@[j])@ == session_entry(options@[j]@),
        decreases options@.len() - i,
    {
        let mut key = "probing.".to_owned();
        key.append(options[i].key.as_str());
        let value = match &options[i].value {
            Some(v) => Some(v.clone()),
            None => None,
        };
        out.push(EngineExtensionOption { key, value, help: options[i].help });
        i += 1;
    }
    proof {
        assert(option_views(out@) =~= session_entries(option_views(options@)));
        assert forall|i: int| 0 <= i < out@.len() implies starts_with(#[trigger] out@[i].key@, "probing."@) by {
            assert(out@[i]@ == session_entry(options@[i]@));
            assert(out@[i].key@.subrange(0, 8) =~= "probing."@);
        }
    }
    out
}

} // verus!
