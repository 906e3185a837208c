use filesys::errors::SysError;
use filesys::fs::{Fs, NodeTag};
use filesys::users::{admin_id, UserId};

#[test]
fn create_write_read() {
    let mut fs = Fs::new();
    let uid = admin_id();
    fs.new_dir(uid, "/dir").unwrap();
    fs.new_file(uid, "/dir/file").unwrap();

    let data = "42";
    fs.write(uid, "/dir/file", data).unwrap();

    let content = fs.read(uid, "/dir/file").unwrap();

    assert_eq!(content, data);
}

#[test]
fn create_write_rm_read() {
    let mut fs = Fs::new();
    let uid = admin_id();
    fs.new_dir(uid, "/dir").unwrap();
    fs.new_file(uid, "/dir/file").unwrap();

    let data = "42";
    fs.write(uid, "/dir/file", data).unwrap();

    let content = fs.read(uid, "/dir/file").unwrap();

    assert_eq!(content, data);

    let res = fs.rm(uid, "/dir");
    assert!(res.is_err());
}

#[test]
fn create_access_read() {
    let mut fs = Fs::new();
    let uid = admin_id();

    fs.new_file(uid, "./file").unwrap();

    fs.write(uid, "file", "my fancy data").unwrap();

    fs.read(UserId::new(12), "/dir/file").unwrap_err();
}

#[test]
fn remove_conflict_until_empty() {
    let mut fs = Fs::new();
    let uid = admin_id();
    fs.new_dir(uid, "/dir").unwrap();
    fs.new_file(uid, "/dir/a").unwrap();
    fs.new_file(uid, "/dir/b").unwrap();

    assert_eq!(fs.rm(uid, "/dir").unwrap_err(), SysError::Conflict);
    fs.rm(uid, "/dir/a").unwrap();
    assert_eq!(fs.rm(uid, "/dir").unwrap_err(), SysError::Conflict);
    fs.rm(uid, "/dir/b").unwrap();
    fs.rm(uid, "/dir").unwrap();
    assert_eq!(fs.read(uid, "/dir"), Err(SysError::NotFound));
}

#[test]
fn path_spellings_address_the_same_node() {
    let mut fs = Fs::new();
    let uid = admin_id();
    fs.new_dir(uid, "dir").unwrap();
    fs.new_file(uid, "/dir//file").unwrap();
    fs.write(uid, "./dir/./file", "x").unwrap();
    assert_eq!(fs.read(uid, "dir/file/").unwrap(), "x");
    assert_eq!(fs.read(uid, "/dir/../dir/file").unwrap(), "x");
}

#[test]
fn path_ending_in_parent_name_is_rejected() {
    let mut fs = Fs::new();
    let uid = admin_id();
    assert_eq!(fs.new_file(uid, "/dir/.."), Err(SysError::NotFound));
    assert_eq!(fs.rm(uid, ".."), Err(SysError::NotFound));
}

#[test]
fn read_on_directory_is_type_mismatch() {
    let mut fs = Fs::new();
    let uid = admin_id();
    fs.new_dir(uid, "/dir").unwrap();
    assert_eq!(fs.read(uid, "/dir").unwrap_err(), SysError::TypeMismatch);
    assert_eq!(fs.write(uid, "/dir", "x").unwrap_err(), SysError::TypeMismatch);
}

#[test]
fn create_existing_name_fails() {
    let mut fs = Fs::new();
    let uid = admin_id();
    fs.new_file(uid, "/f").unwrap();
    assert_eq!(fs.new_file(uid, "/f").unwrap_err(), SysError::AlreadyExists);
    assert_eq!(fs.new_dir(uid, "/f").unwrap_err(), SysError::AlreadyExists);
}

#[test]
fn listing_hides_dots_and_unreadable_children() {
    let mut fs = Fs::new();
    let admin = admin_id();
    fs.new_dir(admin, "/docs").unwrap();
    fs.new_file(admin, "/docs/shown").unwrap();
    fs.new_file(admin, "/docs/hidden").unwrap();
    fs.write(admin, "/docs/shown", "abc").unwrap();

    let user = UserId::new(1);
    let read_only = filesys::users::Perms { read: true, write: false, execute: false, control: false };
    // the user may read the path down to the directory and one child
    fs.set_perms(admin, user, "/", read_only).unwrap();
    fs.set_perms(admin, user, "/docs", read_only).unwrap();
    fs.set_perms(admin, user, "/docs/shown", read_only).unwrap();

    let entries = fs.ls(user, "/docs").unwrap();
    assert_eq!(entries.len(), 1);
    assert_eq!(entries[0].name, "shown");
    assert!(matches!(entries[0].tag, NodeTag::File));
    assert_eq!(entries[0].size, 3);
    assert_eq!(entries[0].perms, read_only);

    // the administrator sees both children, and still no dot entries
    let all = fs.ls(admin, "/docs").unwrap();
    assert_eq!(all.len(), 2);

    // directory sizes count entries without `.` and `..`
    let root = fs.ls(admin, "/").unwrap();
    assert_eq!(root.len(), 1);
    assert_eq!(root[0].name, "docs");
    assert!(matches!(root[0].tag, NodeTag::Dir));
    assert_eq!(root[0].size, 2);
}

#[test]
fn exec_checks_the_exec_capability() {
    let mut fs = Fs::new();
    let admin = admin_id();
    fs.new_file(admin, "/tool").unwrap();
    let user = UserId::new(1);
    let rx = filesys::users::Perms { read: true, write: false, execute: true, control: false };
    let r = filesys::users::Perms { read: true, write: false, execute: false, control: false };
    fs.set_perms(admin, user, "/", r).unwrap();
    fs.set_perms(admin, user, "/tool", r).unwrap();
    assert_eq!(fs.exec(user, "/tool").unwrap_err(), SysError::PermissionDenied);
    fs.set_perms(admin, user, "/tool", rx).unwrap();
    fs.exec(user, "/tool").unwrap();
}
