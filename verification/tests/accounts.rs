use filesys::errors::SysError;
use filesys::protocol::IntoSerialize;
use filesys::users::{admin_id, AccessMap, Op, Perms, UserDb, UserId};

#[test]
fn unknown_name_and_wrong_password_fail_alike() {
    let mut db = UserDb::new().unwrap();
    db.add_user("alice", "secret").unwrap();
    assert_eq!(db.login("nobody", "secret").unwrap_err(), SysError::AuthenticationRequired);
    assert_eq!(db.login("alice", "wrong").unwrap_err(), SysError::AuthenticationRequired);
    let uid = db.login("alice", "secret").unwrap();
    assert_eq!(uid.0, 1);
}

#[test]
fn three_wrong_logins_block_until_admin_unblocks() {
    let mut db = UserDb::new().unwrap();
    db.add_user("bob", "pw").unwrap();
    assert_eq!(db.login("bob", "nope").unwrap_err(), SysError::AuthenticationRequired);
    assert_eq!(db.login("bob", "nope").unwrap_err(), SysError::AuthenticationRequired);
    assert_eq!(db.login("bob", "nope").unwrap_err(), SysError::AccountBlocked);
    // the fourth attempt carries the correct password and still fails
    assert_eq!(db.login("bob", "pw").unwrap_err(), SysError::AccountBlocked);
    db.unblock("bob").unwrap();
    db.login("bob", "pw").unwrap();
}

#[test]
fn duplicate_usernames_are_rejected() {
    let mut db = UserDb::new().unwrap();
    db.add_user("carol", "x").unwrap();
    assert_eq!(db.add_user("carol", "y").unwrap_err(), SysError::AlreadyExists);
    assert_eq!(db.add_user("admin", "").unwrap_err(), SysError::AlreadyExists);
}

#[test]
fn change_password_reverifies_the_old_one() {
    let mut db = UserDb::new().unwrap();
    let uid = db.add_user("dave", "old-pw").unwrap();
    assert_eq!(
        db.change_pass(uid, "not-it", "new-pw").unwrap_err(),
        SysError::AuthenticationRequired
    );
    db.change_pass(uid, "old-pw", "new-pw").unwrap();
    assert_eq!(db.login("dave", "old-pw").unwrap_err(), SysError::AuthenticationRequired);
    db.login("dave", "new-pw").unwrap();
}

#[test]
fn blocked_account_cannot_change_its_password() {
    let mut db = UserDb::new().unwrap();
    let uid = db.add_user("erin", "pw").unwrap();
    for _ in 0..3 {
        db.login("erin", "wrong").unwrap_err();
    }
    assert_eq!(db.change_pass(uid, "pw", "other").unwrap_err(), SysError::AccountBlocked);
}

#[test]
fn unblock_unknown_user_fails() {
    let mut db = UserDb::new().unwrap();
    assert_eq!(db.unblock("ghost").unwrap_err(), SysError::UserNotFound);
    assert_eq!(db.id_of("ghost").unwrap_err(), SysError::UserNotFound);
}

#[test]
fn perms_render_and_parse_are_inverse() {
    let p = Perms { read: true, write: false, execute: true, control: false };
    let rendered = p.render();
    assert_eq!(rendered, "r-x-");
    assert_eq!(Perms::parse(&rendered), Some(p));

    let all = Perms { read: true, write: true, execute: true, control: true };
    assert_eq!(all.render(), "rwxc");
    assert_eq!(Perms::parse("rwxc"), Some(all));

    let none = Perms { read: false, write: false, execute: false, control: false };
    assert_eq!(none.render(), "----");
    assert_eq!(Perms::parse("----"), Some(none));

    assert_eq!(Perms::parse("r?x-"), None);
}

#[test]
fn requested_capability_lists_convert_to_sets() {
    let p = Perms::from_ops(&[Op::Read, Op::Write]);
    assert_eq!(p, Perms { read: true, write: true, execute: false, control: false });
    let q = Perms::from_ops(&[Op::Control, Op::Exec, Op::Control]);
    assert_eq!(q, Perms { read: false, write: false, execute: true, control: true });
    assert_eq!(Perms::from_ops(&[]), Perms { read: false, write: false, execute: false, control: false });
}

#[test]
fn failures_serialize_as_plain_strings() {
    let ok: Result<u64, SysError> = Ok(7);
    assert_eq!(ok.into_serialize(), Ok(7));
    let err: Result<u64, SysError> = Err(SysError::Conflict);
    assert_eq!(err.into_serialize(), Err("can't remove non-empty directory".to_string()));
}

#[test]
fn capability_check_wants_every_requested_bit() {
    let mut m = AccessMap::new();
    let user = UserId::new(7);
    let read_only = Perms { read: true, write: false, execute: false, control: false };
    m.set(user, read_only);
    assert!(m.allows(user, &[Op::Read]));
    assert!(!m.allows(user, &[Op::Write]));
    assert!(!m.allows(user, &[Op::Read, Op::Write]));
    assert!(!m.allows(user, &[]));
    // a user absent from the map has no capabilities at all
    assert!(!m.allows(UserId::new(8), &[Op::Read]));
}

#[test]
fn administrator_bypasses_every_check() {
    let mut m = AccessMap::new();
    assert!(m.allows(admin_id(), &[Op::Read, Op::Write, Op::Exec, Op::Control]));
    // an explicit grant for the administrator is silently dropped
    let none = Perms { read: false, write: false, execute: false, control: false };
    m.set(admin_id(), none);
    assert!(m.allows(admin_id(), &[Op::Write]));
    assert_eq!(m.get(admin_id()), none);
    assert_eq!(m.get(UserId::new(3)), none);
}
