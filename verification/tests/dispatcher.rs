use filesys::errors::SysError;
use filesys::users::{admin_id, Perms, UserId};
use filesys::{Action, ActionRes, System, SESSION_WINDOW_MILLIS};

fn read_perms() -> Perms {
    Perms { read: true, write: false, execute: false, control: false }
}

#[test]
fn action_without_login_is_rejected() {
    let mut sys = System::new().unwrap();
    let res = sys.exec_at(admin_id(), &Action::Ls("/".to_string()), 0);
    assert_eq!(res.unwrap_err(), SysError::AuthenticationRequired);
}

#[test]
fn session_window_is_absolute_not_sliding() {
    let mut sys = System::new().unwrap();
    let t0 = 1_000;
    let admin = sys.login_at("admin", "", t0).unwrap();
    assert_eq!(admin, admin_id());

    // an action immediately after login passes the guard
    sys.exec_at(admin, &Action::Ls("/".to_string()), t0 + 1).unwrap();
    // an action at the edge of the window still passes
    sys.exec_at(admin, &Action::Ls("/".to_string()), t0 + SESSION_WINDOW_MILLIS).unwrap();
    // one past the window fails, although the previous action just ran
    let res = sys.exec_at(admin, &Action::Ls("/".to_string()), t0 + SESSION_WINDOW_MILLIS + 1);
    assert_eq!(res.unwrap_err(), SysError::AuthenticationRequired);
    // a fresh login reopens the window
    sys.login_at("admin", "", t0 + SESSION_WINDOW_MILLIS + 1).unwrap();
    sys.exec_at(admin, &Action::Ls("/".to_string()), t0 + SESSION_WINDOW_MILLIS + 2).unwrap();
}

#[test]
fn admin_only_actions_are_refused_to_others() {
    let mut sys = System::new().unwrap();
    let t0 = 0;
    let admin = sys.login_at("admin", "", t0).unwrap();
    sys.exec_at(admin, &Action::AddUser("a".to_string()), t0).unwrap();
    let user = sys.login_at("a", "", t0).unwrap();
    let add = sys.exec_at(user, &Action::AddUser("b".to_string()), t0);
    assert_eq!(add.unwrap_err(), SysError::NotAuthorized);
    let logs = sys.exec_at(user, &Action::Logs, t0);
    assert_eq!(logs.unwrap_err(), SysError::NotAuthorized);
    let unblock = sys.exec_at(user, &Action::Unblock("a".to_string()), t0);
    assert_eq!(unblock.unwrap_err(), SysError::NotAuthorized);
}

#[test]
fn permissions_grant_opens_a_file_to_a_user() {
    // the end-to-end walk: admin builds /docs/readme, writes "hello";
    // a fresh user cannot read it until admin grants {read} down the path
    let mut sys = System::new().unwrap();
    let t0 = 0;
    let admin = sys.login_at("admin", "", t0).unwrap();
    sys.exec_at(admin, &Action::NewDir("/docs".to_string()), t0).unwrap();
    sys.exec_at(admin, &Action::NewFile("/docs/readme".to_string()), t0).unwrap();
    sys.exec_at(admin, &Action::Write("/docs/readme".to_string(), "hello".to_string()), t0)
        .unwrap();

    sys.exec_at(admin, &Action::AddUser("A".to_string()), t0).unwrap();
    let a = sys.login_at("A", "", t0).unwrap();
    assert_eq!(a, UserId::new(1));

    let denied = sys.exec_at(a, &Action::Read("/docs/readme".to_string()), t0);
    assert_eq!(denied.unwrap_err(), SysError::PermissionDenied);

    for path in ["/", "/docs", "/docs/readme"] {
        sys.exec_at(
            admin,
            &Action::SetPerms(path.to_string(), "A".to_string(), read_perms()),
            t0,
        )
        .unwrap();
    }

    match sys.exec_at(a, &Action::Read("/docs/readme".to_string()), t0).unwrap() {
        ActionRes::Read(text) => assert_eq!(text, "hello"),
        other => panic!("expected file text, got {:?}", other),
    }
}

#[test]
fn set_perms_for_unknown_user_fails() {
    let mut sys = System::new().unwrap();
    let admin = sys.login_at("admin", "", 0).unwrap();
    sys.exec_at(admin, &Action::NewFile("/f".to_string()), 0).unwrap();
    let res = sys.exec_at(
        admin,
        &Action::SetPerms("/f".to_string(), "ghost".to_string(), read_perms()),
        0,
    );
    assert_eq!(res.unwrap_err(), SysError::UserNotFound);
}

#[test]
fn change_password_via_dispatcher() {
    let mut sys = System::new().unwrap();
    let admin = sys.login_at("admin", "", 0).unwrap();
    sys.exec_at(admin, &Action::AddUser("u".to_string()), 0).unwrap();
    let u = sys.login_at("u", "", 0).unwrap();
    sys.exec_at(u, &Action::ChangePassword { old: "".to_string(), new: "pw".to_string() }, 0)
        .unwrap();
    assert_eq!(sys.login_at("u", "", 1).unwrap_err(), SysError::AuthenticationRequired);
    sys.login_at("u", "pw", 2).unwrap();
}

#[test]
fn audit_log_records_kind_and_outcome_only() {
    let mut sys = System::new().unwrap();
    let admin = sys.login_at("admin", "", 0).unwrap();
    sys.exec_at(admin, &Action::NewFile("/f".to_string()), 0).unwrap();
    sys.exec_at(admin, &Action::Read("/missing".to_string()), 0).unwrap_err();
    let logs = match sys.exec_at(admin, &Action::Logs, 5).unwrap() {
        ActionRes::Logs(entries) => entries,
        other => panic!("expected log entries, got {:?}", other),
    };
    // the login entry plus the two dispatched actions; the Logs action
    // itself is appended only after its own snapshot is taken
    assert_eq!(logs.len(), 3);
    assert_eq!(logs[0].msg, "new login with \"admin\"");
    assert_eq!(logs[0].uid, None);
    assert_eq!(logs[1].msg, "action new-file(\"/f\") => ok");
    assert_eq!(logs[1].uid, Some(admin));
    assert_eq!(logs[2].msg, "action read(\"/missing\") => failed");
    assert_eq!(logs[2].time, 0);
}

#[test]
fn pack_unpack_keeps_everything_but_sessions() {
    let mut sys = System::new().unwrap();
    let admin = sys.login_at("admin", "", 0).unwrap();
    sys.exec_at(admin, &Action::NewDir("/d".to_string()), 0).unwrap();
    sys.exec_at(admin, &Action::NewFile("/d/f".to_string()), 0).unwrap();
    sys.exec_at(admin, &Action::Write("/d/f".to_string(), "kept".to_string()), 0).unwrap();
    sys.exec_at(admin, &Action::AddUser("carry".to_string()), 0).unwrap();

    let image = sys.pack();
    let mut sys2 = image.unpack();

    // the prior session is gone: every user must authenticate again
    let res = sys2.exec_at(admin, &Action::Read("/d/f".to_string()), 1);
    assert_eq!(res.unwrap_err(), SysError::AuthenticationRequired);

    // contents, accounts and the audit trail carried over
    let admin2 = sys2.login_at("admin", "", 1).unwrap();
    match sys2.exec_at(admin2, &Action::Read("/d/f".to_string()), 1).unwrap() {
        ActionRes::Read(text) => assert_eq!(text, "kept"),
        other => panic!("expected file text, got {:?}", other),
    }
    sys2.login_at("carry", "", 1).unwrap();
    let logs = match sys2.exec_at(admin2, &Action::Logs, 1).unwrap() {
        ActionRes::Logs(entries) => entries,
        other => panic!("expected log entries, got {:?}", other),
    };
    assert_eq!(logs[0].msg, "new login with \"admin\"");
    assert!(logs.len() >= 5);
}

#[test]
fn login_against_the_wall_clock() {
    let mut sys = System::new().unwrap();
    let admin = sys.login("admin", "").unwrap();
    sys.exec(admin, &Action::Ls("/".to_string())).unwrap();
}
