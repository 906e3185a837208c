//! A multi-user, in-process hierarchical data store.
//!
//! A tree of named nodes — files holding text, directories holding child
//! entries — where every node carries its own per-user access-control list.
//! Callers drive the store through an authenticated, permission-checked
//! action interface, and the whole state is durable across restarts as a
//! single packed image.

use vstd::prelude::*;
use vstd::string::StringExecFns;
use std::collections::HashMap;

pub mod clock;
pub mod crypto;
pub mod errors;
pub mod fs;
pub mod log;
pub mod paths;
pub mod protocol;
pub mod users;

use crate::crypto::password_verifies;
use crate::errors::SysError;
use crate::fs::{
    entry_views, fresh_graph, spec_create, spec_exec, spec_ls, spec_read, spec_rm, spec_set_perms,
    spec_write, Fs, NodeTag,
};
use crate::log::{log_views, Log, LogLevel, LogV, Logger};
use crate::paths::path_segments;
use crate::users::{
    add_user_outcome, change_pass_outcome, has_name, login_outcome, name_index,
    perms_render_spec, unblock_outcome, Perms, UserDb, UserId, Username, ADMIN_UID,
};

verus! {

broadcast use vstd::std_specs::hash::group_hash_axioms;

/// The absolute session lifetime in milliseconds, measured from login time,
/// not from the most recent action.
pub const SESSION_WINDOW_MILLIS: u64 = 60000;

/// The closed set of request variants a caller may submit.
#[derive(Debug)]
pub enum Action {
    Read(String),
    Write(String, String),
    Rm(String),
    NewFile(String),
    NewDir(String),
    Exec(String),
    SetPerms(String, Username, Perms),
    Ls(String),
    AddUser(Username),
    ChangePassword { old: String, new: String },
    Unblock(Username),
    Logs,
}

impl Action {
    /// The human-readable description of the action kind that audit
    /// entries carry. A password change never echoes its arguments.
    pub open spec fn describe_spec(self) -> Seq<char> {
        match self {
            Action::Read(p) => "read(\""@ + p@ + "\")"@,
            Action::Write(p, _) => "write(\""@ + p@ + "\")"@,
            Action::Rm(p) => "rm(\""@ + p@ + "\")"@,
            Action::NewFile(p) => "new-file(\""@ + p@ + "\")"@,
            Action::NewDir(p) => "new-dir(\""@ + p@ + "\")"@,
            Action::Exec(p) => "exec(\""@ + p@ + "\")"@,
            Action::SetPerms(p, u, perms) => "set-perms(\""@ + p@ + "\", \""@ + u@ + "\", "@
                + perms_render_spec(perms) + ")"@,
            Action::Ls(p) => "ls(\""@ + p@ + "\")"@,
            Action::AddUser(u) => "add-user(\""@ + u@ + "\")"@,
            Action::ChangePassword { .. } => "change-pass"@,
            Action::Unblock(u) => "unblock(\""@ + u@ + "\")"@,
            Action::Logs => "logs"@,
        }
    }

    /// Renders the description.
    pub fn describe(&self) -> (r: String)
        ensures
            r@ == self.describe_spec(),
    {
        match self {
            Action::Read(p) => {
                let mut s = String::from_str("read(\"");
                s.append(p.as_str());
                s.append("\")");
                s
            }
            Action::Write(p, _) => {
                let mut s = String::from_str("write(\"");
                s.append(p.as_str());
                s.append("\")");
                s
            }
            Action::Rm(p) => {
                let mut s = String::from_str("rm(\"");
                s.append(p.as_str());
                s.append("\")");
                s
            }
            Action::NewFile(p) => {
                let mut s = String::from_str("new-file(\"");
                s.append(p.as_str());
                s.append("\")");
                s
            }
            Action::NewDir(p) => {
                let mut s = String::from_str("new-dir(\"");
                s.append(p.as_str());
                s.append("\")");
                s
            }
            Action::Exec(p) => {
                let mut s = String::from_str("exec(\"");
                s.append(p.as_str());
                s.append("\")");
                s
            }
            Action::SetPerms(p, u, perms) => {
                let mut s = String::from_str("set-perms(\"");
                s.append(p.as_str());
                s.append("\", \"");
                s.append(u.as_str());
                s.append("\", ");
                let rendered = perms.render();
                s.append(rendered.as_str());
                s.append(")");
                s
            }
            Action::Ls(p) => {
                let mut s = String::from_str("ls(\"");
                s.append(p.as_str());
                s.append("\")");
                s
            }
            Action::AddUser(u) => {
                let mut s = String::from_str("add-user(\"");
                s.append(u.as_str());
                s.append("\")");
                s
            }
            Action::ChangePassword { .. } => String::from_str("change-pass"),
            Action::Unblock(u) => {
                let mut s = String::from_str("unblock(\"");
                s.append(u.as_str());
                s.append("\")");
                s
            }
            Action::Logs => String::from_str("logs"),
        }
    }
}

/// The closed set of successful results.
#[derive(Debug)]
pub enum ActionRes {
    Okay,
    Read(String),
    Ls(Vec<crate::fs::NodeEntry>),
    Logs(Vec<Log>),
}

/// One long-lived instance composing the graph, the user directory, the
/// session table and the audit log.
#[derive(Debug)]
pub struct System {
    pub fs: Fs,
    pub users: UserDb,
    pub last_access: HashMap<u64, u64>,
    pub logger: Logger,
}

/// The durable projection of the whole system. The session table is never
/// part of it.
#[derive(Debug)]
pub struct SystemImage {
    pub fs: Fs,
    pub users: UserDb,
    pub logger: Logger,
}

/// The session guard: a caller passes only with a recorded login whose age
/// does not exceed the window. A clock reading earlier than the login (the
/// clock may jump) counts as no elapsed time.
pub open spec fn session_ok(last: Map<u64, u64>, uid: u64, now: u64) -> bool {
    last.contains_key(uid) && now <= last[uid] + SESSION_WINDOW_MILLIS
}

/// The audit message recorded for a dispatched action: the action kind and
/// whether it succeeded, never the error text.
pub open spec fn action_msg(cmd: Action, ok: bool) -> Seq<char> {
    "action "@ + cmd.describe_spec() + (if ok {
        " => ok"@
    } else {
        " => failed"@
    })
}

/// The audit message recorded for a login attempt.
pub open spec fn login_msg(name: Seq<char>) -> Seq<char> {
    "new login with \""@ + name + "\""@
}

/// What a login at time `now` does: the attempt is always recorded in the
/// audit log; on success the caller's session is stamped with `now`.
pub open spec fn login_post(
    pre: System,
    post: System,
    name: Seq<char>,
    pass: Seq<char>,
    now: u64,
    r: Result<UserId, SysError>,
) -> bool {
    &&& post.fs == pre.fs
    &&& post.logger@ == pre.logger@.push(
        LogV { level: LogLevel::Info, uid: None, msg: login_msg(name), time: now },
    )
    &&& login_outcome(pre.users@, post.users@, name, pass, r)
    &&& (r is Ok ==> post.last_access@ == pre.last_access@.insert(r->Ok_0.0, now))
    &&& (r is Err ==> post.last_access@ == pre.last_access@)
}

/// What dispatching one action does to the graph and the user directory,
/// and what it returns, for every variant.
pub open spec fn dispatch_post(
    pre: System,
    post: System,
    uid: u64,
    cmd: Action,
    r: Result<ActionRes, SysError>,
) -> bool {
    match cmd {
        Action::Read(p) => post.fs == pre.fs && post.users@ == pre.users@ && (match spec_read(
            pre.fs@,
            uid,
            path_segments(p@),
        ) {
            Ok(c) => r matches Ok(ActionRes::Read(s)) && s@ == c,
            Err(e) => r == Err::<ActionRes, SysError>(e),
        }),
        Action::Write(p, d) => post.users@ == pre.users@ && (match spec_write(
            pre.fs@,
            uid,
            path_segments(p@),
            d@,
        ) {
            Ok(v2) => r == Ok::<ActionRes, SysError>(ActionRes::Okay) && post.fs@ == v2,
            Err(e) => r == Err::<ActionRes, SysError>(e) && post.fs == pre.fs,
        }),
        Action::Rm(p) => post.users@ == pre.users@ && (match spec_rm(
            pre.fs@,
            uid,
            path_segments(p@),
        ) {
            Ok(v2) => r == Ok::<ActionRes, SysError>(ActionRes::Okay) && post.fs@ == v2,
            Err(e) => r == Err::<ActionRes, SysError>(e) && post.fs == pre.fs,
        }),
        Action::NewFile(p) => post.users@ == pre.users@ && (match spec_create(
            pre.fs@,
            uid,
            path_segments(p@),
            NodeTag::File,
        ) {
            Ok(v2) => r == Ok::<ActionRes, SysError>(ActionRes::Okay) && post.fs@ == v2,
            Err(e) => r == Err::<ActionRes, SysError>(e) && post.fs == pre.fs,
        }),
        Action::NewDir(p) => post.users@ == pre.users@ && (match spec_create(
            pre.fs@,
            uid,
            path_segments(p@),
            NodeTag::Dir,
        ) {
            Ok(v2) => r == Ok::<ActionRes, SysError>(ActionRes::Okay) && post.fs@ == v2,
            Err(e) => r == Err::<ActionRes, SysError>(e) && post.fs == pre.fs,
        }),
        Action::Exec(p) => post.fs == pre.fs && post.users@ == pre.users@ && (match spec_exec(
            pre.fs@,
            uid,
            path_segments(p@),
        ) {
            Ok(()) => r == Ok::<ActionRes, SysError>(ActionRes::Okay),
            Err(e) => r == Err::<ActionRes, SysError>(e),
        }),
        Action::SetPerms(p, username, perms) => post.users@ == pre.users@ && (if !has_name(
            pre.users@,
            username@,
        ) {
            r == Err::<ActionRes, SysError>(SysError::UserNotFound) && post.fs == pre.fs
        } else {
            let target = name_index(pre.users@, username@) as u64;
            match spec_set_perms(pre.fs@, uid, target, path_segments(p@), perms) {
                Ok(v2) => r == Ok::<ActionRes, SysError>(ActionRes::Okay) && post.fs@ == v2,
                Err(e) => r == Err::<ActionRes, SysError>(e) && post.fs == pre.fs,
            }
        }),
        Action::Ls(p) => post.fs == pre.fs && post.users@ == pre.users@ && (match spec_ls(
            pre.fs@,
            uid,
            path_segments(p@),
        ) {
            Ok(es) => r matches Ok(ActionRes::Ls(v)) && entry_views(v@) == es,
            Err(e) => r == Err::<ActionRes, SysError>(e),
        }),
        Action::AddUser(name) => post.fs == pre.fs && (if uid != ADMIN_UID {
            r == Err::<ActionRes, SysError>(SysError::NotAuthorized) && post.users@ == pre.users@
        } else {
            match r {
                Ok(res) => res == ActionRes::Okay && add_user_outcome(
                    pre.users@,
                    post.users@,
                    name@,
                    ""@,
                    Ok(UserId(pre.users@.len() as u64)),
                ),
                Err(e) => add_user_outcome(pre.users@, post.users@, name@, ""@, Err(e)),
            }
        }),
        Action::ChangePassword { old, new } => post.fs == pre.fs && (match r {
            Ok(res) => res == ActionRes::Okay && change_pass_outcome(
                pre.users@,
                post.users@,
                uid,
                old@,
                new@,
                Ok(()),
            ),
            Err(e) => change_pass_outcome(pre.users@, post.users@, uid, old@, new@, Err(e)),
        }),
        Action::Unblock(username) => post.fs == pre.fs && (if uid != ADMIN_UID {
            r == Err::<ActionRes, SysError>(SysError::NotAuthorized) && post.users@ == pre.users@
        } else {
            match r {
                Ok(res) => res == ActionRes::Okay && unblock_outcome(
                    pre.users@,
                    post.users@,
                    username@,
                    Ok(()),
                ),
                Err(e) => unblock_outcome(pre.users@, post.users@, username@, Err(e)),
            }
        }),
        Action::Logs => post.fs == pre.fs && post.users@ == pre.users@ && (if uid != ADMIN_UID {
            r == Err::<ActionRes, SysError>(SysError::NotAuthorized)
        } else {
            r matches Ok(ActionRes::Logs(v)) && log_views(v@) == pre.logger@
        }),
    }
}

/// What one dispatched action at time `now` does: a caller without a live
/// session is rejected outright and nothing changes; otherwise the action
/// runs against the graph or the directory, one audit entry tagged with the
/// caller records the kind and whether it succeeded, and the session table
/// is left as it was — running actions never extends a session.
pub open spec fn exec_post(
    pre: System,
    post: System,
    uid: u64,
    cmd: Action,
    now: u64,
    r: Result<ActionRes, SysError>,
) -> bool {
    if !session_ok(pre.last_access@, uid, now) {
        r == Err::<ActionRes, SysError>(SysError::AuthenticationRequired) && post == pre
    } else {
        &&& post.last_access@ == pre.last_access@
        &&& post.logger@ == pre.logger@.push(
            LogV {
                level: LogLevel::Info,
                uid: Some(uid),
                msg: action_msg(cmd, r is Ok),
                time: now,
            },
        )
        &&& dispatch_post(pre, post, uid, cmd, r)
    }
}

impl System {
    pub open spec fn inv(&self) -> bool {
        self.fs.inv() && self.users.inv()
    }

    /// A fresh system: root directory only, one administrator account with
    /// an empty password, no sessions, an empty audit log.
    pub fn new() -> (r: Result<System, SysError>)
        ensures
            match r {
                Ok(s) => s.inv() && s.fs@ == fresh_graph() && s.users@.len() == 1
                    && s.users@[0].name == "admin"@ && s.users@[0].tries == 0
                    && password_verifies(""@, s.users@[0].pass_hash) && s.last_access@ == Map::<
                    u64,
                    u64,
                >::empty() && s.logger@ == Seq::<LogV>::empty(),
                Err(e) => e == SysError::HashFailure,
            },
    {
        let fs = Fs::new();
        let users = match UserDb::new() {
            Ok(u) => u,
            Err(e) => {
                return Err(e);
            }
        };
        Ok(System { fs, users, last_access: HashMap::new(), logger: Logger::new() })
    }

    /// Authenticates at an explicit time: the attempt is recorded, and on
    /// success the caller's session is (re)stamped with `now`.
    pub fn login_at(&mut self, name: &str, pass: &str, now: u64) -> (r: Result<UserId, SysError>)
        requires
            old(self).inv(),
        ensures
            final(self).inv(),
            login_post(*old(self), *final(self), name@, pass@, now, r),
    {
        let mut msg = String::from_str("new login with \"");
        msg.append(name);
        msg.append("\"");
        self.logger.log(Log::new(LogLevel::Info, msg, now));
        let r = self.users.login(name, pass);
        match r {
            Ok(uid) => {
                self.last_access.insert(uid.0, now);
                Ok(uid)
            }
            Err(e) => Err(e),
        }
    }

    /// Authenticates against the wall clock.
    pub fn login(&mut self, name: &str, pass: &str) -> (r: Result<UserId, SysError>)
        requires
            old(self).inv(),
        ensures
            final(self).inv(),
            exists|now: u64| #[trigger] login_post(*old(self), *final(self), name@, pass@, now, r),
    {
        let now = crate::clock::now_millis();
        self.login_at(name, pass, now)
    }

    /// Administrator-only: creates an account with an empty initial
    /// password.
    pub fn add_user(&mut self, uid: UserId, name: &str) -> (r: Result<UserId, SysError>)
        requires
            old(self).inv(),
        ensures
            final(self).inv(),
            final(self).fs == old(self).fs,
            final(self).last_access@ == old(self).last_access@,
            final(self).logger@ == old(self).logger@,
            (if uid.0 != ADMIN_UID {
                r == Err::<UserId, SysError>(SysError::NotAuthorized) && final(self).users@ == old(
                    self,
                ).users@
            } else {
                add_user_outcome(old(self).users@, final(self).users@, name@, ""@, r)
            }),
    {
        if uid.0 == ADMIN_UID {
            self.users.add_user(name, "")
        } else {
            Err(SysError::NotAuthorized)
        }
    }

    /// Administrator-only: clears the named account's failure counter.
    fn unblock(&mut self, uid: UserId, username: &str) -> (r: Result<(), SysError>)
        requires
            old(self).inv(),
        ensures
            final(self).inv(),
            final(self).fs == old(self).fs,
            final(self).last_access@ == old(self).last_access@,
            final(self).logger@ == old(self).logger@,
            (if uid.0 != ADMIN_UID {
                r == Err::<(), SysError>(SysError::NotAuthorized) && final(self).users@ == old(
                    self,
                ).users@
            } else {
                unblock_outcome(old(self).users@, final(self).users@, username@, r)
            }),
    {
        if uid.0 != ADMIN_UID {
            Err(SysError::NotAuthorized)
        } else {
            self.users.unblock(username)
        }
    }

    /// Administrator-only: a copy of the audit entries recorded so far.
    pub fn logs(&self, uid: UserId) -> (r: Result<Vec<Log>, SysError>)
        ensures
            (if uid.0 != ADMIN_UID {
                r == Err::<Vec<Log>, SysError>(SysError::NotAuthorized)
            } else {
                r is Ok && log_views(r->Ok_0@) == self.logger@
            }),
    {
        if uid.0 == ADMIN_UID {
            Ok(self.logger.snapshot())
        } else {
            Err(SysError::NotAuthorized)
        }
    }

    /// Dispatches one action at an explicit time.
    pub fn exec_at(&mut self, uid: UserId, cmd: &Action, now: u64) -> (r: Result<
        ActionRes,
        SysError,
    >)
        requires
            old(self).inv(),
        ensures
            final(self).inv(),
            exec_post(*old(self), *final(self), uid.0, *cmd, now, r),
    {
        let guard_ok = match self.last_access.get(&uid.0) {
            Some(last) => {
                let t0 = *last;
                if now >= t0 {
                    now - t0 <= SESSION_WINDOW_MILLIS
                } else {
                    true
                }
            }
            None => false,
        };
        if !guard_ok {
            return Err(SysError::AuthenticationRequired);
        }
        let desc = cmd.describe();
        let res: Result<ActionRes, SysError> = match cmd {
            Action::Read(path) => match self.fs.read(uid, path.as_str()) {
                Ok(text) => Ok(ActionRes::Read(String::from_str(text))),
                Err(e) => Err(e),
            },
            Action::Write(path, data) => match self.fs.write(uid, path.as_str(), data.as_str()) {
                Ok(()) => Ok(ActionRes::Okay),
                Err(e) => Err(e),
            },
            Action::Rm(path) => match self.fs.rm(uid, path.as_str()) {
                Ok(()) => Ok(ActionRes::Okay),
                Err(e) => Err(e),
            },
            Action::NewFile(path) => match self.fs.new_file(uid, path.as_str()) {
                Ok(()) => Ok(ActionRes::Okay),
                Err(e) => Err(e),
            },
            Action::NewDir(path) => match self.fs.new_dir(uid, path.as_str()) {
                Ok(()) => Ok(ActionRes::Okay),
                Err(e) => Err(e),
            },
            Action::Exec(path) => match self.fs.exec(uid, path.as_str()) {
                Ok(()) => Ok(ActionRes::Okay),
                Err(e) => Err(e),
            },
            Action::SetPerms(path, username, perms) => match self.users.id_of(username.as_str()) {
                Err(e) => Err(e),
                Ok(for_user) => match self.fs.set_perms(uid, for_user, path.as_str(), *perms) {
                    Ok(()) => Ok(ActionRes::Okay),
                    Err(e) => Err(e),
                },
            },
            Action::Ls(path) => match self.fs.ls(uid, path.as_str()) {
                Ok(entries) => Ok(ActionRes::Ls(entries)),
                Err(e) => Err(e),
            },
            Action::AddUser(name) => match self.add_user(uid, name.as_str()) {
                Ok(_) => Ok(ActionRes::Okay),
                Err(e) => Err(e),
            },
            Action::ChangePassword { old: old_pass, new } => match self.users.change_pass(
                uid,
                old_pass.as_str(),
                new.as_str(),
            ) {
                Ok(()) => Ok(ActionRes::Okay),
                Err(e) => Err(e),
            },
            Action::Unblock(username) => match self.unblock(uid, username.as_str()) {
                Ok(()) => Ok(ActionRes::Okay),
                Err(e) => Err(e),
            },
            Action::Logs => match self.logs(uid) {
                Ok(entries) => Ok(ActionRes::Logs(entries)),
                Err(e) => Err(e),
            },
        };
        let ok = res.is_ok();
        let mut msg = String::from_str("action ");
        msg.append(desc.as_str());
        if ok {
            msg.append(" => ok");
        } else {
            msg.append(" => failed");
        }
        self.logger.log(Log::new_with_uid(LogLevel::Info, uid, msg, now));
        res
    }

    /// Dispatches one action against the wall clock.
    pub fn exec(&mut self, uid: UserId, cmd: &Action) -> (r: Result<ActionRes, SysError>)
        requires
            old(self).inv(),
        ensures
            final(self).inv(),
            exists|now: u64| #[trigger] exec_post(*old(self), *final(self), uid.0, *cmd, now, r),
    {
        let now = crate::clock::now_millis();
        self.exec_at(uid, cmd, now)
    }

    /// Bundles the graph, the user directory and the audit log into the
    /// durable image, consuming the running system. The session table is
    /// deliberately dropped.
    pub fn pack(self) -> (r: SystemImage)
        ensures
            r.fs == self.fs,
            r.users == self.users,
            r.logger == self.logger,
    {
        let System { fs, users, last_access: _, logger } = self;
        SystemImage { fs, users, logger }
    }
}

impl SystemImage {
    /// Reconstructs the running system from the image. Every user must
    /// authenticate again: the session table always starts empty.
    pub fn unpack(self) -> (r: System)
        ensures
            r.fs == self.fs,
            r.users == self.users,
            r.logger == self.logger,
            r.last_access@ == Map::<u64, u64>::empty(),
    {
        let SystemImage { fs, users, logger } = self;
        System { fs, users, last_access: HashMap::new(), logger }
    }
}

/// Law: packing and then unpacking reproduces the node graph, the user
/// directory and the accumulated audit entries exactly, while the session
/// table comes back empty — no session survives a restart, expired or not.
pub proof fn lemma_pack_unpack(s: System, img: SystemImage, s2: System)
    requires
        img.fs == s.fs && img.users == s.users && img.logger == s.logger,
        s2.fs == img.fs && s2.users == img.users && s2.logger == img.logger,
        s2.last_access@ == Map::<u64, u64>::empty(),
    ensures
        s2.fs@ == s.fs@,
        s2.users@ == s.users@,
        s2.logger@ == s.logger@,
        forall|uid: u64, now: u64| !session_ok(s2.last_access@, uid, now),
{
}

/// Law: the session window is absolute. After a successful login at `t0`
/// the guard passes at any time within the window; a dispatched action
/// leaves the session stamp untouched, so at any time past `t0 + window`
/// the guard rejects with `AuthenticationRequired` — even when the previous
/// action ran well inside the window.
pub proof fn lemma_session_window_absolute(
    pre: System,
    s0: System,
    s1: System,
    name: Seq<char>,
    pass: Seq<char>,
    uid: u64,
    t0: u64,
    cmd: Action,
    t1: u64,
    r1: Result<ActionRes, SysError>,
    t2: u64,
)
    requires
        login_post(pre, s0, name, pass, t0, Ok(UserId(uid))),
        t0 <= t1,
        t1 - t0 <= SESSION_WINDOW_MILLIS,
        exec_post(s0, s1, uid, cmd, t1, r1),
        t2 - t0 > SESSION_WINDOW_MILLIS,
        t2 >= t0,
    ensures
        session_ok(s0.last_access@, uid, t1),
        !session_ok(s1.last_access@, uid, t2),
        forall|s2: System, cmd2: Action, r2: Result<ActionRes, SysError>|
            exec_post(s1, s2, uid, cmd2, t2, r2) ==> r2 == Err::<ActionRes, SysError>(
                SysError::AuthenticationRequired,
            ) && s2 == s1,
{
    assert(s0.last_access@ == pre.last_access@.insert(uid, t0));
    assert(session_ok(s0.last_access@, uid, t1));
    assert(s1.last_access@ == s0.last_access@);
    assert(s1.last_access@[uid] == t0);
    assert(!session_ok(s1.last_access@, uid, t2));
}

} // verus!
