use org_cli::config::EmacsConfig;
use org_cli::emacs::{EmacsClient, EmacsError};

#[test]
fn test_emacs_client_new() {
    let client = EmacsClient::new();
    assert!(client.socket_name.is_none());
}

#[test]
fn test_emacs_client_with_socket() {
    let client = EmacsClient::with_socket("server");
    assert_eq!(client.socket_name, Some("server".to_string()));
}

#[test]
fn test_emacs_client_default() {
    let client = EmacsClient::default();
    assert!(client.socket_name.is_none());
}

#[test]
fn test_emacs_error_display() {
    let err = EmacsError::DaemonNotRunning;
    assert_eq!(err.message(), "Emacs daemon not running");
    let err = EmacsError::EvalFailed("test error".to_string());
    assert_eq!(err.message(), "Elisp evaluation failed: test error");
}

#[test]
fn io_error_message() {
    let err = EmacsError::IoError("broken pipe".to_string());
    assert_eq!(err.message(), "IO error: broken pipe");
}

#[test]
fn eval_args_with_and_without_socket() {
    assert_eq!(EmacsClient::new().eval_args("(+ 1 2)"), vec!["--eval", "(+ 1 2)"]);
    assert_eq!(
        EmacsClient::with_socket("work").eval_args("x"),
        vec!["--socket-name", "work", "--eval", "x"]
    );
}

#[test]
fn run_outcome_classifies_failures() {
    assert_eq!(EmacsClient::run_outcome(true, "  3\n", "").unwrap(), "3");
    match EmacsClient::run_outcome(false, "", "can't connect to socket") {
        Err(EmacsError::DaemonNotRunning) => {}
        other => panic!("unexpected: {:?}", other),
    }
    match EmacsClient::run_outcome(false, "", "void-variable foo") {
        Err(EmacsError::EvalFailed(s)) => assert_eq!(s, "void-variable foo"),
        other => panic!("unexpected: {:?}", other),
    }
}

#[test]
fn client_for_config_uses_socket_only_with_emacsclient() {
    let c = EmacsConfig { use_emacsclient: true, socket_name: Some("s".to_string()) };
    assert_eq!(EmacsClient::for_config(&c).socket_name, Some("s".to_string()));
    let c = EmacsConfig { use_emacsclient: false, socket_name: Some("s".to_string()) };
    assert!(EmacsClient::for_config(&c).socket_name.is_none());
}
