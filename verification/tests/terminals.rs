use remote_executor::shell_manager::ShellManager;
use remote_executor::websocket::{
    handle_admin, handle_client_message, refuse_first_text, AdminRequest, AdminStep,
    ClientMessage, ClientStep,
};

fn ids(m: &ShellManager, pty: &str) -> Vec<String> {
    m.client_details(pty).into_iter().map(|c| c.id).collect()
}

#[test]
fn clients_come_and_go() {
    let mut m = ShellManager::new();
    m.register_client("main", "b", 1, "1.1.1.1:1");
    m.register_client("main", "a", 2, "2.2.2.2:2");
    assert_eq!(ids(&m, "main"), ["a", "b"]);
    assert_eq!(m.client_details("main")[0].peer_addr, "2.2.2.2:2");
    assert!(ids(&m, "other").is_empty());
    m.remove_client("main", "b", 1);
    assert_eq!(ids(&m, "main"), ["a"]);
    m.remove_client("other", "b", 1);
    m.remove_client("main", "a", 2);
    assert!(ids(&m, "main").is_empty());
}

#[test]
fn a_newer_connection_keeps_the_name() {
    let mut m = ShellManager::new();
    m.register_client("main", "a", 1, "x");
    m.register_client("main", "a", 2, "y");
    m.remove_client("main", "a", 1);
    assert_eq!(m.client_details("main")[0].peer_addr, "y");
}

#[test]
fn one_client_controls_and_the_others_watch() {
    let mut m = ShellManager::new();
    m.register_client("main", "a", 1, "x");
    m.register_client("main", "b", 2, "y");
    let roles = m.client_roles("main", Some("b"));
    assert_eq!(
        roles,
        [("a".to_string(), "Viewer"), ("b".to_string(), "Controller")]
    );
    assert!(m.client_roles("main", None).iter().all(|(_, role)| *role == "Viewer"));
}

#[test]
fn locked_terminals_belong_to_user_0() {
    let mut m = ShellManager::new();
    assert_eq!(
        m.lock_pty("main", false).unwrap_err().to_string(),
        "pty main does not exist"
    );
    assert!(!m.is_locked("main"));
    m.lock_pty("main", true).unwrap();
    assert!(m.is_locked("main"));
    let step = |m: &ShellManager, id: &str| {
        handle_client_message(m, "main", id, &ClientMessage::RequestControl)
    };
    assert!(matches!(step(&m, "a"), ClientStep::Complain(s) if s == "pty is locked to user 0"));
    assert!(matches!(step(&m, "0"), ClientStep::TakeControl));
    m.unlock_pty("main");
    assert!(matches!(step(&m, "a"), ClientStep::TakeControl));
    m.lock_pty("main", true).unwrap();
    m.register_client("main", "a", 1, "x");
    m.remove_pty("main");
    assert!(!m.is_locked("main"));
    assert!(ids(&m, "main").is_empty());
}

#[test]
fn messages_lead_to_steps() {
    let m = ShellManager::new();
    let step = |msg: ClientMessage| handle_client_message(&m, "main", "a", &msg);
    assert!(matches!(step(ClientMessage::Bytes), ClientStep::Write));
    assert!(matches!(
        step(ClientMessage::Resize { cols: 80, rows: 24 }),
        ClientStep::SetSize { cols: 80, rows: 24 }
    ));
    assert!(matches!(step(ClientMessage::Hello), ClientStep::Ignore));
    assert!(matches!(step(ClientMessage::Ping), ClientStep::Pong));
    assert!(matches!(step(ClientMessage::Other), ClientStep::Ignore));
    assert!(matches!(
        step(ClientMessage::Unreadable("x".to_string())),
        ClientStep::Complain(s) if s == "bad client message: x"
    ));
}

#[test]
fn administrators_may_only_look() {
    assert!(matches!(handle_admin(&AdminRequest::List), AdminStep::Sessions));
    assert!(matches!(
        handle_admin(&AdminRequest::Detail("main".to_string())),
        AdminStep::Session(s) if s == "main"
    ));
    assert!(matches!(
        handle_admin(&AdminRequest::Other),
        AdminStep::Refused(s) if s == "remote admin mutation is disabled"
    ));
    assert_eq!(refuse_first_text(), "expected ptyt hello or read-only admin request");
}
