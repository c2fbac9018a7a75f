use vstd::prelude::*;
use vstd::string::StringExecFns;
use crate::config::EmacsConfig;
use crate::parser::timestamp::opt_str_view;
use crate::text::{contains, str_contains, trim, trim_str};

verus! {

broadcast use vstd::string::group_string_axioms;

/// What can go wrong when Emacs evaluates elisp.
#[derive(Debug)]
pub enum EmacsError {
    DaemonNotRunning,
    EvalFailed(String),
    IoError(String),
}

impl EmacsError {
    /// The message of the error.
    pub fn message(&self) -> (r: String)
        ensures
            match self {
                EmacsError::DaemonNotRunning => r@ == "Emacs daemon not running"@,
                EmacsError::EvalFailed(s) => r@ == "Elisp evaluation failed: "@ + s@,
                EmacsError::IoError(s) => r@ == "IO error: "@ + s@,
            },
    {
        match self {
            EmacsError::DaemonNotRunning => "Emacs daemon not running".to_owned(),
            EmacsError::EvalFailed(s) => {
                let mut m = "Elisp evaluation failed: ".to_owned();
                m.append(s.as_str());
                m
            },
            EmacsError::IoError(s) => {
                let mut m = "IO error: ".to_owned();
                m.append(s.as_str());
                m
            },
        }
    }
}

/// A client of the Emacs server, reached through `emacsclient`.
#[derive(Clone, Debug)]
pub struct EmacsClient {
    pub socket_name: Option<String>,
}

/// The arguments of `emacsclient` that evaluate `elisp`, with the socket first where one is
/// named.
pub open spec fn eval_args_spec(socket: Option<Seq<char>>, elisp: Seq<char>) -> Seq<Seq<char>> {
    match socket {
        Some(s) => seq!["--socket-name"@, s, "--eval"@, elisp],
        None => seq!["--eval"@, elisp],
    }
}

/// Where the failed run's standard error speaks of the connection or the socket, the daemon is
/// taken not to run.
pub open spec fn failure_spec(stderr: Seq<char>) -> EmacsErrorKind {
    if contains(stderr, "connect"@) || contains(stderr, "socket"@) {
        EmacsErrorKind::DaemonNotRunning
    } else {
        EmacsErrorKind::EvalFailed(stderr)
    }
}

/// The value of an `EmacsError`.
pub enum EmacsErrorKind {
    DaemonNotRunning,
    EvalFailed(Seq<char>),
    IoError(Seq<char>),
}

impl View for EmacsError {
    type V = EmacsErrorKind;

    open spec fn view(&self) -> EmacsErrorKind {
        match self {
            EmacsError::DaemonNotRunning => EmacsErrorKind::DaemonNotRunning,
            EmacsError::EvalFailed(s) => EmacsErrorKind::EvalFailed(s@),
            EmacsError::IoError(s) => EmacsErrorKind::IoError(s@),
        }
    }
}

impl EmacsClient {
    /// A client of the default server.
    pub fn new() -> (r: Self)
        ensures
            r.socket_name is None,
    {
        EmacsClient { socket_name: None }
    }

    /// A client of the server with the socket `socket_name`.
    pub fn with_socket(socket_name: &str) -> (r: Self)
        ensures
            r.socket_name matches Some(s) && s@ == socket_name@,
    {
        EmacsClient { socket_name: Some(socket_name.to_owned()) }
    }

    /// The client that the configuration asks for: with its socket where `emacsclient` is to
    /// be used and a socket is named, else with the default one.
    pub fn for_config(config: &EmacsConfig) -> (r: Self)
        ensures
            opt_str_view(r.socket_name) == (if config.use_emacsclient {
                opt_str_view(config.socket_name)
            } else {
                None
            }),
    {
        if config.use_emacsclient {
            match &config.socket_name {
                Some(socket) => Self::with_socket(socket.as_str()),
                None => Self::new(),
            }
        } else {
            Self::new()
        }
    }

    /// The arguments of `emacsclient` that evaluate `elisp`.
    pub fn eval_args(&self, elisp: &str) -> (r: Vec<String>)
        ensures
            r@.map_values(|s: String| s@) == eval_args_spec(
                crate::parser::timestamp::opt_str_view(self.socket_name),
                elisp@,
            ),
    {
        let mut r: Vec<String> = Vec::new();
        match &self.socket_name {
            Some(s) => {
                r.push("--socket-name".to_owned());
                r.push(s.clone());
            },
            None => {},
        }
        r.push("--eval".to_owned());
        r.push(elisp.to_owned());
        assert(r@.map_values(|s: String| s@) =~= eval_args_spec(
            crate::parser::timestamp::opt_str_view(self.socket_name),
            elisp@,
        ));
        r
    }

    /// What a finished run of `emacsclient` yields: on success its trimmed standard output,
    /// else the error that its standard error shows.
    pub fn run_outcome(success: bool, stdout: &str, stderr: &str) -> (r: Result<String, EmacsError>)
        ensures
            match r {
                Ok(out) => success && out@ == trim(stdout@),
                Err(e) => !success && e@ == failure_spec(stderr@),
            },
    {
        if !success {
            if str_contains(stderr, "connect") || str_contains(stderr, "socket") {
                return Err(EmacsError::DaemonNotRunning);
            }
            return Err(EmacsError::EvalFailed(stderr.to_owned()));
        }
        Ok(trim_str(stdout))
    }
}

impl Default for EmacsClient {
    fn default() -> (r: Self)
        ensures
            r.socket_name is None,
    {
        Self::new()
    }
}

} // verus!
