//! What the command-line client decides for itself: the settings that its
//! flags come to, and which commands run under a time limit.

use crate::text::{same_text, signed_decimal, signed_decimal_text, text_ends_with, trim, trimmed};
use vstd::prelude::*;

verus! {

/// The settings that the flags of the `config` command carry.
#[derive(Debug, PartialEq, Eq)]
pub struct Settings {
    /// How the probe is enabled.
    pub probing_mode: Option<String>,
    pub loglevel: Option<String>,
    pub assets_root: Option<String>,
    pub server_port: Option<u64>,
    pub torch_profiling: Option<String>,
    /// The sample rate, written with two decimals.
    pub rdma_sample_rate: Option<String>,
    pub rdma_hca_name: Option<String>,
}

/// The statement that sets `key` to `value`.
pub open spec fn statement(key: Seq<char>, value: Seq<char>) -> Seq<char> {
    "set "@ + key + "="@ + value + ";"@
}

/// The statement that sets `key` to the value, if there is one.
pub open spec fn optional_statement(key: Seq<char>, value: Option<Seq<char>>) -> Seq<char> {
    match value {
        Some(v) => statement(key, v),
        None => Seq::empty(),
    }
}

/// The text of an optional string.
pub open spec fn option_text(s: Option<String>) -> Option<Seq<char>> {
    match s {
        Some(t) => Some(t@),
        None => None,
    }
}

/// The address that the server listens on for a port.
pub open spec fn any_address(port: u64) -> Seq<char> {
    "0.0.0.0:"@ + crate::text::decimal(port as nat)
}

impl Settings {
    /// The statements of all settings that are given, in the order of the
    /// flags.
    pub open spec fn statements(&self) -> Seq<char> {
        optional_statement("probing"@, option_text(self.probing_mode)) + optional_statement(
            "server.log_level"@,
            option_text(self.loglevel),
        ) + optional_statement("server.assets_root"@, option_text(self.assets_root)) + optional_statement(
            "server.address"@,
            match self.server_port {
                Some(p) => Some(any_address(p)),
                None => None,
            },
        ) + optional_statement("torch.profiling"@, option_text(self.torch_profiling)) + optional_statement(
            "rdma.sample_rate"@,
            option_text(self.rdma_sample_rate),
        ) + optional_statement("rdma.hca_name"@, option_text(self.rdma_hca_name))
    }

    /// Settings with no flag given.
    pub fn new() -> (r: Self)
        ensures
            r.probing_mode is None,
            r.loglevel is None,
            r.assets_root is None,
            r.server_port is None,
            r.torch_profiling is None,
            r.rdma_sample_rate is None,
            r.rdma_hca_name is None,
            r.statements().len() == 0,
    {
        Settings {
            probing_mode: None,
            loglevel: None,
            assets_root: None,
            server_port: None,
            torch_profiling: None,
            rdma_sample_rate: None,
            rdma_hca_name: None,
        }
    }

    /// The configuration text of the settings: one `set` statement for each
    /// setting that is given, or nothing where none is.
    pub fn to_cfg(&self) -> (r: Option<String>)
        ensures
            self.statements().len() == 0 ==> r is None,
            self.statements().len() > 0 ==> r is Some && r->0@ == self.statements(),
    {
        let mut cfg = String::new();
        proof {
            reveal_strlit("probing");
            reveal_strlit("server.log_level");
            reveal_strlit("server.assets_root");
            reveal_strlit("server.address");
            reveal_strlit("torch.profiling");
            reveal_strlit("rdma.sample_rate");
            reveal_strlit("rdma.hca_name");
            reveal_strlit("0.0.0.0:");
        }
        push_statement(&mut cfg, "probing", &self.probing_mode);
        push_statement(&mut cfg, "server.log_level", &self.loglevel);
        push_statement(&mut cfg, "server.assets_root", &self.assets_root);
        let address = match self.server_port {
            Some(p) => {
                let mut a = "0.0.0.0:".to_owned();
                a.append(crate::text::decimal_text(p).as_str());
                Some(a)
            },
            None => None,
        };
        push_statement(&mut cfg, "server.address", &address);
        push_statement(&mut cfg, "torch.profiling", &self.torch_profiling);
        push_statement(&mut cfg, "rdma.sample_rate", &self.rdma_sample_rate);
        push_statement(&mut cfg, "rdma.hca_name", &self.rdma_hca_name);
        proof {
            assert(cfg@ =~= self.statements());
        }
        if cfg.as_str().unicode_len() == 0 {
            None
        } else {
            Some(cfg)
        }
    }
}

/// Appends the statement that sets `key` to the value, if there is one.
fn push_statement(cfg: &mut String, key: &str, value: &Option<String>)
    ensures
        final(cfg)@ == old(cfg)@ + optional_statement(key@, option_text(*value)),
{
    match value {
        Some(v) => {
            proof {
                reveal_strlit("set ");
                reveal_strlit("=");
                reveal_strlit(";");
            }
            cfg.append("set ");
            cfg.append(key);
            cfg.append("=");
            cfg.append(v.as_str());
            cfg.append(";");
            proof {
                assert(cfg@ =~= old(cfg)@ + statement(key@, v@));
            }
        },
        None => {
            proof {
                assert(cfg@ =~= old(cfg)@ + Seq::<char>::empty());
            }
        },
    }
}

/// The commands of the client.
#[derive(Debug, PartialEq, Eq)]
pub enum Commands {
    /// Inject the probe into a process; the arguments of the injection.
    Inject(Vec<String>),
    /// List the processes that carry a probe.
    List { verbose: bool, tree: bool },
    /// Show or change the configuration.
    Config { options: Settings, setting: Option<String> },
    /// Show the call stack of the process or of one thread.
    Backtrace { tid: Option<i32> },
    /// Show the RDMA flow.
    Rdma { hca_name: Option<String> },
    /// Evaluate code in the process.
    Eval { code: String },
    /// Query the data of the process.
    Query { query: String },
    /// An interactive session.
    Repl,
    /// Launch a new process.
    Launch { recursive: bool, args: Vec<String> },
    /// A command that the client does not know itself.
    External(Vec<String>),
    /// Reach a storage backend; the arguments of the access.
    Store(Vec<String>),
}

impl Commands {
    /// Whether the command runs under the client's time limit: every
    /// command does, but the interactive and the long-running ones.
    pub fn should_timeout(&self) -> (r: bool)
        ensures
            r == !(*self is Repl || *self is Launch || *self is External),
    {
        match self {
            Commands::Repl => false,
            Commands::Launch { .. } => false,
            Commands::External(_) => false,
            Commands::List { .. } => true,
            Commands::Config { .. } => true,
            Commands::Backtrace { .. } => true,
            Commands::Rdma { .. } => true,
            Commands::Eval { .. } => true,
            Commands::Query { .. } => true,
            Commands::Store(_) => true,
            Commands::Inject(_) => true,
        }
    }
}

/// What the interactive session does with a line that was read.
#[derive(Debug, PartialEq, Eq)]
pub enum ReplStep {
    /// Read the next line.
    Ignore,
    /// End the session.
    Exit,
    /// Send this text and show what comes back.
    Send(String),
}

/// What the interactive session does with a line that was read: a line of
/// white space is passed over, the line `exit` ends the session, every other
/// line is sent as it is, with a line end behind it.
pub fn repl_step(line: &str) -> (r: ReplStep)
    ensures
        trimmed(line@).len() == 0 ==> r is Ignore,
        trimmed(line@) == "exit"@ ==> r is Exit,
        trimmed(line@).len() > 0 && trimmed(line@) != "exit"@ ==> (r matches ReplStep::Send(text) && text@
            == line@ + "\n"@),
{
    proof {
        reveal_strlit("exit");
        reveal_strlit("\n");
    }
    let t = trim(line);
    if t.as_str().unicode_len() == 0 {
        ReplStep::Ignore
    } else if same_text(t.as_str(), "exit") {
        ReplStep::Exit
    } else {
        let mut text = line.to_owned();
        text.append("\n");
        ReplStep::Send(text)
    }
}

/// What the session shows of an output: nothing of an empty one, else the
/// output with a line end behind it, unless it ends with one.
pub open spec fn shown(output: Seq<char>) -> Seq<char> {
    if output.len() == 0 || output.last() == '\n' {
        output
    } else {
        output + "\n"@
    }
}

/// What the session shows of an output.
pub fn show_output(output: &str) -> (r: String)
    ensures
        r@ == shown(output@),
{
    proof {
        reveal_strlit("\n");
    }
    let mut r = output.to_owned();
    proof {
        assert("\n"@ =~= seq!['\n']);
        if output@.len() > 0 {
            let tail = output@.subrange(output@.len() - 1, output@.len() as int);
            assert(tail =~= seq![output@.last()]);
            assert(tail[0] == output@.last());
        }
    }
    if output.unicode_len() > 0 && !text_ends_with(output, "\n") {
        r.append("\n");
    }
    r
}

/// The address of the session of a probe that listens at `addr`.
pub fn websocket_url(addr: &str) -> (r: String)
    ensures
        r@ == "ws://"@ + addr@ + "/ws"@,
{
    let mut r = "ws://".to_owned();
    r.append(addr);
    r.append("/ws");
    r
}

/// The name of the local socket of the probe in the process `pid`, in the
/// abstract namespace.
pub fn abstract_socket_name(pid: i32) -> (r: String)
    ensures
        r@ == "\0probing-"@ + signed_decimal(pid as int),
{
    let mut r = "\0probing-".to_owned();
    r.append(signed_decimal_text(pid as i64).as_str());
    r
}

/// The file name of the local socket of the probe in the process `pid`.
pub fn socket_file_name(pid: i32) -> (r: String)
    ensures
        r@ == "probing-"@ + signed_decimal(pid as int) + ".sock"@,
{
    let mut r = "probing-".to_owned();
    r.append(signed_decimal_text(pid as i64).as_str());
    r.append(".sock");
    r
}

} // verus!
