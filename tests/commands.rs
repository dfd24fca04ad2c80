use karaoke::commands::{Command, Inbound, Reaction, Session};

fn admin() -> String {
    "hunter2".to_string()
}

#[test]
fn admin_command_without_authentication_is_refused() {
    let mut session = Session::new();
    let r = session.handle(Inbound::Command(Command::Play { id: 5 }), &admin());
    assert!(matches!(r, Reaction::Unauthenticated));
    assert!(!session.authenticated);
}

#[test]
fn authenticate_then_play() {
    let mut session = Session::new();
    let r = session.handle(
        Inbound::Command(Command::Authenticate { password: "hunter2".to_string() }),
        &admin(),
    );
    assert!(matches!(r, Reaction::AuthResult(true)));
    let r = session.handle(Inbound::Command(Command::Play { id: 5 }), &admin());
    assert!(matches!(r, Reaction::Execute(Command::Play { id: 5 })));
}

#[test]
fn wrong_password_stays_unauthenticated() {
    let mut session = Session::new();
    let r = session.handle(
        Inbound::Command(Command::Authenticate { password: "guess".to_string() }),
        &admin(),
    );
    assert!(matches!(r, Reaction::AuthResult(false)));
    assert!(!session.authenticated);
}

#[test]
fn authenticate_again_logs_out() {
    let mut session = Session { authenticated: true };
    let r = session.handle(
        Inbound::Command(Command::Authenticate { password: "hunter2".to_string() }),
        &admin(),
    );
    assert!(matches!(r, Reaction::AuthResult(false)));
    assert!(!session.authenticated);
}

#[test]
fn public_commands_need_no_authentication() {
    let mut session = Session::new();
    let r = session.handle(
        Inbound::Command(Command::Add { song: 1, singer: "A".to_string(), password: None }),
        &admin(),
    );
    assert!(matches!(r, Reaction::Execute(Command::Add { song: 1, .. })));
    let r = session.handle(
        Inbound::Command(Command::RemoveAsUser { id: 3, password: "p".to_string() }),
        &admin(),
    );
    assert!(matches!(r, Reaction::Execute(Command::RemoveAsUser { id: 3, .. })));
}

#[test]
fn every_admin_command_is_guarded() {
    let guarded = vec![
        Command::Play { id: 1 },
        Command::RemoveAsAdmin { id: 1 },
        Command::Swap { id1: 1, id2: 2 },
        Command::MoveAfter { id: 1, after: 2 },
        Command::MoveTop { id: 1 },
        Command::ReportBug { song: 1, report: "x".to_string() },
    ];
    for cmd in guarded {
        assert!(cmd.requires_admin());
        let mut session = Session::new();
        assert!(matches!(session.handle(Inbound::Command(cmd), &admin()), Reaction::Unauthenticated));
    }
}

#[test]
fn control_frames() {
    let mut session = Session::new();
    assert!(matches!(session.handle(Inbound::Ping(vec![1, 2]), &admin()), Reaction::Pong(p) if p == vec![1, 2]));
    assert!(matches!(session.handle(Inbound::Pong, &admin()), Reaction::Ignore));
    assert!(matches!(session.handle(Inbound::Binary, &admin()), Reaction::Ignore));
    assert!(matches!(session.handle(Inbound::Close, &admin()), Reaction::Closed));
    assert!(matches!(session.handle(Inbound::Malformed, &admin()), Reaction::Terminate));
}
