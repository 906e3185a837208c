//! Accounts and access control.
//!
//! `Perms` is the 4-bit capability set `{read, write, exec, control}`;
//! `AccessMap` is a node's per-user table of grants; `UserDb` is the user
//! directory with credential verification and the sticky login lockout.

use vstd::prelude::*;
use vstd::string::StringExecFns;
use std::collections::HashMap;

use crate::crypto;
use crate::crypto::password_verifies;
use crate::errors::SysError;

verus! {

broadcast use vstd::std_specs::hash::group_hash_axioms;

/// Consecutive failed logins after which an account is blocked.
pub const MAX_LOGIN_TRIES: u64 = 3;

/// An account handle. Ids are assigned from a counter that starts at the
/// administrator's fixed id and are never reused.
#[derive(Debug, Clone, Copy, PartialEq, Eq, Hash, Structural)]
pub struct UserId(pub u64);

/// The distinguished administrator's id value: it bypasses every capability
/// check.
pub const ADMIN_UID: u64 = 0;

/// The administrator's `UserId`.
pub open spec fn admin_id_spec() -> UserId {
    UserId(ADMIN_UID)
}

/// The administrator's `UserId`.
pub fn admin_id() -> (r: UserId)
    ensures
        r == admin_id_spec(),
{
    UserId(ADMIN_UID)
}

impl Default for UserId {
    fn default() -> (r: Self)
        ensures
            r == admin_id_spec(),
    {
        UserId(ADMIN_UID)
    }
}

impl UserId {
    pub fn new(num: u64) -> (r: Self)
        ensures
            r.0 == num,
    {
        UserId(num)
    }

    /// Returns the current id and advances the counter.
    pub fn tick_next(&mut self) -> (r: Self)
        requires
            old(self).0 < u64::MAX,
        ensures
            r == *old(self),
            final(self).0 == old(self).0 + 1,
    {
        let this = *self;
        self.0 = self.0 + 1;
        this
    }

    pub fn get_next(&self) -> (r: Self)
        requires
            self.0 < u64::MAX,
        ensures
            r.0 == self.0 + 1,
    {
        UserId(self.0 + 1)
    }
}

pub type Username = String;

/// A single requested capability.
#[derive(Debug, Clone, Copy, PartialEq, Eq, Structural)]
pub enum Op {
    Read,
    Write,
    Exec,
    Control,
}

/// The per-user capability set.
#[derive(Debug, Clone, Copy, PartialEq, Eq, Structural)]
pub struct Perms {
    pub read: bool,
    pub write: bool,
    pub execute: bool,
    pub control: bool,
}

/// Whether the single capability `op` is present in `p`.
pub open spec fn op_allowed(p: Perms, op: Op) -> bool {
    match op {
        Op::Read => p.read,
        Op::Write => p.write,
        Op::Exec => p.execute,
        Op::Control => p.control,
    }
}

/// The core capability test: every requested capability must be present
/// (an "all of" test, not "any of"); an empty request never succeeds.
pub open spec fn allows_ops(p: Perms, ops: Seq<Op>) -> bool {
    ops.len() > 0 && (forall|i: int| 0 <= i < ops.len() ==> op_allowed(p, #[trigger] ops[i]))
}

impl Perms {
    /// The all-false capability set.
    pub open spec fn empty_spec() -> Perms {
        Perms { read: false, write: false, execute: false, control: false }
    }

    pub fn none() -> (r: Perms)
        ensures
            r == Perms::empty_spec(),
    {
        Perms { read: false, write: false, execute: false, control: false }
    }

    /// The explicit, total conversion from a requested-capability list to
    /// the capability set: a bit is set exactly when the list names it.
    pub fn from_ops(ops: &[Op]) -> (r: Perms)
        ensures
            r.read == ops@.contains(Op::Read),
            r.write == ops@.contains(Op::Write),
            r.execute == ops@.contains(Op::Exec),
            r.control == ops@.contains(Op::Control),
    {
        let mut this = Perms { read: false, write: false, execute: false, control: false };
        let mut i: usize = 0;
        while i < ops.len()
            invariant
                0 <= i <= ops@.len(),
                this.read == (exists|j: int| 0 <= j < i && ops@[j] == Op::Read),
                this.write == (exists|j: int| 0 <= j < i && ops@[j] == Op::Write),
                this.execute == (exists|j: int| 0 <= j < i && ops@[j] == Op::Exec),
                this.control == (exists|j: int| 0 <= j < i && ops@[j] == Op::Control),
            decreases ops@.len() - i,
        {
            match ops[i] {
                Op::Read => { this.read = true; }
                Op::Write => { this.write = true; }
                Op::Exec => { this.execute = true; }
                Op::Control => { this.control = true; }
            }
            i = i + 1;
        }
        this
    }

    /// The "all of" test over a requested-capability list.
    pub fn intersects(&self, ops: &[Op]) -> (r: bool)
        ensures
            r == allows_ops(*self, ops@),
    {
        if ops.len() == 0 {
            return false;
        }
        let mut i: usize = 0;
        while i < ops.len()
            invariant
                0 <= i <= ops@.len(),
                forall|j: int| 0 <= j < i ==> op_allowed(*self, #[trigger] ops@[j]),
            decreases ops@.len() - i,
        {
            let allowed = match ops[i] {
                Op::Read => self.read,
                Op::Write => self.write,
                Op::Exec => self.execute,
                Op::Control => self.control,
            };
            if !allowed {
                return false;
            }
            i = i + 1;
        }
        true
    }
}

/// The fixed 4-character rendering of a capability set: one position per
/// capability in the order read, write, exec, control; `-` for an absent
/// one.
pub open spec fn perms_render_spec(p: Perms) -> Seq<char> {
    seq![
        if p.read {
            'r'
        } else {
            '-'
        },
        if p.write {
            'w'
        } else {
            '-'
        },
        if p.execute {
            'x'
        } else {
            '-'
        },
        if p.control {
            'c'
        } else {
            '-'
        },
    ]
}

/// The inverse reading: `r`, `w`, `x`, `c` set their capability, `-` sets
/// nothing, and any other character fails the whole parse.
pub open spec fn perms_parse_spec(s: Seq<char>) -> Option<Perms>
    decreases s.len(),
{
    if s.len() == 0 {
        Some(Perms::empty_spec())
    } else {
        match perms_parse_spec(s.drop_last()) {
            None => None,
            Some(p) => {
                let c = s.last();
                if c == 'r' {
                    Some(Perms { read: true, ..p })
                } else if c == 'w' {
                    Some(Perms { write: true, ..p })
                } else if c == 'x' {
                    Some(Perms { execute: true, ..p })
                } else if c == 'c' {
                    Some(Perms { control: true, ..p })
                } else if c == '-' {
                    Some(p)
                } else {
                    None
                }
            }
        }
    }
}

/// A failed parse of a prefix fails the whole string.
proof fn lemma_parse_prefix_none(s: Seq<char>, i: int)
    requires
        0 <= i <= s.len(),
        perms_parse_spec(s.take(i)) is None,
    ensures
        perms_parse_spec(s) is None,
    decreases s.len() - i,
{
    if i < s.len() {
        assert(s.take(i + 1).drop_last() =~= s.take(i));
        lemma_parse_prefix_none(s, i + 1);
    } else {
        assert(s.take(i) =~= s);
    }
}

impl Perms {
    /// Renders the capability set as its fixed 4-character string.
    pub fn render(&self) -> (r: String)
        ensures
            r@ == perms_render_spec(*self),
    {
        let mut s = String::new();
        if self.read {
            s.append("r");
        } else {
            s.append("-");
        }
        if self.write {
            s.append("w");
        } else {
            s.append("-");
        }
        if self.execute {
            s.append("x");
        } else {
            s.append("-");
        }
        if self.control {
            s.append("c");
        } else {
            s.append("-");
        }
        proof {
            reveal_strlit("r");
            reveal_strlit("w");
            reveal_strlit("x");
            reveal_strlit("c");
            reveal_strlit("-");
            assert(s@ =~= perms_render_spec(*self));
        }
        s
    }

    /// Parses a capability string; `None` on any unexpected character.
    pub fn parse(s: &str) -> (r: Option<Perms>)
        ensures
            r == perms_parse_spec(s@),
    {
        let n = s.unicode_len();
        let mut p = Perms { read: false, write: false, execute: false, control: false };
        let mut i: usize = 0;
        while i < n
            invariant
                n == s@.len(),
                0 <= i <= n,
                perms_parse_spec(s@.take(i as int)) == Some(p),
            decreases n - i,
        {
            let c = s.get_char(i);
            proof {
                assert(s@.take(i + 1 as int).drop_last() =~= s@.take(i as int));
                assert(s@.take(i + 1 as int).last() == s@[i as int]);
            }
            if c == 'r' {
                p.read = true;
            } else if c == 'w' {
                p.write = true;
            } else if c == 'x' {
                p.execute = true;
            } else if c == 'c' {
                p.control = true;
            } else if c == '-' {
            } else {
                proof {
                    lemma_parse_prefix_none(s@, i + 1);
                }
                return None;
            }
            i = i + 1;
        }
        proof {
            assert(s@.take(n as int) =~= s@);
        }
        Some(p)
    }
}

/// Law: the rendering parses back to exactly the capability set it was
/// rendered from.
pub proof fn lemma_perms_render_parse(p: Perms)
    ensures
        perms_parse_spec(perms_render_spec(p)) == Some(p),
{
    let s = perms_render_spec(p);
    let s0 = s.take(0);
    let s1 = s.take(1);
    let s2 = s.take(2);
    let s3 = s.take(3);
    assert(s0 =~= Seq::<char>::empty());
    assert(s1.drop_last() =~= s0 && s1.last() == s[0]);
    assert(s2.drop_last() =~= s1 && s2.last() == s[1]);
    assert(s3.drop_last() =~= s2 && s3.last() == s[2]);
    assert(s.drop_last() =~= s3 && s.last() == s[3]);
    assert(perms_parse_spec(s0) == Some(Perms::empty_spec()));
    assert(perms_parse_spec(s1) is Some);
    assert(perms_parse_spec(s2) is Some);
    assert(perms_parse_spec(s3) is Some);
    assert(perms_parse_spec(s) == Some(p));
}

/// A node's per-user table of capability grants.
#[derive(Debug)]
pub struct AccessMap {
    pub perms: HashMap<u64, Perms>,
}

impl View for AccessMap {
    type V = Map<u64, Perms>;

    open spec fn view(&self) -> Map<u64, Perms> {
        self.perms@
    }
}

/// Whether `uid` may perform `ops`: the administrator always may; anyone
/// else needs every requested capability among their stored grants, and a
/// user absent from the table has none.
pub open spec fn spec_allows(m: Map<u64, Perms>, uid: u64, ops: Seq<Op>) -> bool {
    uid == ADMIN_UID || (m.contains_key(uid) && allows_ops(m[uid], ops))
}

/// The stored grant of `uid`, defaulting to all-false.
pub open spec fn spec_perms_of(m: Map<u64, Perms>, uid: u64) -> Perms {
    if m.contains_key(uid) {
        m[uid]
    } else {
        Perms::empty_spec()
    }
}

impl AccessMap {
    pub fn new() -> (r: Self)
        ensures
            r@ == Map::<u64, Perms>::empty(),
    {
        AccessMap { perms: HashMap::new() }
    }

    pub fn allows(&self, uid: UserId, ops: &[Op]) -> (r: bool)
        ensures
            r == spec_allows(self@, uid.0, ops@),
    {
        if uid.0 == ADMIN_UID {
            true
        } else {
            match self.perms.get(&uid.0) {
                Some(p) => p.intersects(ops),
                None => false,
            }
        }
    }

    /// Overwrites `uid`'s grant; a no-op when `uid` is the administrator,
    /// whose permissions are never stored.
    pub fn set(&mut self, uid: UserId, perms: Perms)
        ensures
            final(self)@ == (if uid.0 == ADMIN_UID {
                old(self)@
            } else {
                old(self)@.insert(uid.0, perms)
            }),
    {
        if uid.0 != ADMIN_UID {
            self.perms.insert(uid.0, perms);
        }
    }

    pub fn get(&self, uid: UserId) -> (r: Perms)
        ensures
            r == spec_perms_of(self@, uid.0),
    {
        match self.perms.get(&uid.0) {
            Some(p) => *p,
            None => Perms::none(),
        }
    }
}

/// Law: the administrator bypasses every `AccessMap` check regardless of the
/// table's contents, including requests it was never explicitly granted.
pub proof fn lemma_admin_bypass(m: Map<u64, Perms>, ops: Seq<Op>)
    ensures
        spec_allows(m, ADMIN_UID, ops),
{
}

/// Law: a user granted only `{read}` passes a request for `{read}` alone,
/// and fails any request that also names `{write}`.
pub proof fn lemma_read_only_grant(m: Map<u64, Perms>, uid: u64, ops: Seq<Op>)
    requires
        uid != ADMIN_UID,
        m.contains_key(uid),
        m[uid] == (Perms { read: true, write: false, execute: false, control: false }),
    ensures
        spec_allows(m, uid, seq![Op::Read]),
        ops.contains(Op::Write) ==> !spec_allows(m, uid, ops),
{
    assert(seq![Op::Read][0] == Op::Read);
    if ops.contains(Op::Write) {
        let i = choose|i: int| 0 <= i < ops.len() && ops[i] == Op::Write;
        assert(!op_allowed(m[uid], ops[i]));
    }
}

/// The mathematical face of an account: its name, its stored password hash,
/// and its count of consecutive failed logins.
#[verifier::ext_equal]
pub struct UserV {
    pub name: Seq<char>,
    pub pass_hash: Seq<char>,
    pub tries: u64,
}

/// An account record.
#[derive(Debug)]
pub struct User {
    pub id: UserId,
    pub name: Username,
    pub pass: String,
    pub last_login_tries: u64,
}

impl View for User {
    type V = UserV;

    open spec fn view(&self) -> UserV {
        UserV { name: self.name@, pass_hash: self.pass@, tries: self.last_login_tries }
    }
}

/// The outcome of checking a password against an account: the account
/// afterwards, and the verdict. A blocked account fails immediately whatever
/// the password; a successful check resets the failure counter; a failed
/// check increments it, and reports the block as soon as it is reached.
pub open spec fn verify_outcome(u: UserV, pass: Seq<char>) -> (UserV, Result<(), SysError>) {
    if u.tries >= MAX_LOGIN_TRIES {
        (u, Err(SysError::AccountBlocked))
    } else if password_verifies(pass, u.pass_hash) {
        (UserV { tries: 0, ..u }, Ok(()))
    } else if u.tries + 1 >= MAX_LOGIN_TRIES {
        (UserV { tries: (u.tries + 1) as u64, ..u }, Err(SysError::AccountBlocked))
    } else {
        (UserV { tries: (u.tries + 1) as u64, ..u }, Err(SysError::AuthenticationRequired))
    }
}

impl User {
    /// A fresh account with the given id and name, whose stored hash is
    /// derived from `pass`.
    pub fn new(id: UserId, name: Username, pass: &str) -> (r: Result<User, SysError>)
        ensures
            match r {
                Ok(u) => u.id == id && u@.name == name@ && u@.tries == 0
                    && password_verifies(pass@, u@.pass_hash),
                Err(e) => e == SysError::HashFailure,
            },
    {
        let mut this = User { id, name, pass: String::new(), last_login_tries: 0 };
        match this.change_pass(pass) {
            Ok(()) => Ok(this),
            Err(e) => Err(e),
        }
    }

    pub fn is_blocked(&self) -> (r: bool)
        ensures
            r == (self@.tries >= MAX_LOGIN_TRIES),
    {
        self.last_login_tries >= MAX_LOGIN_TRIES
    }

    /// Checks `pass` against the stored hash, with the lockout rule.
    pub fn verify_pass(&mut self, pass: &str) -> (r: Result<(), SysError>)
        ensures
            final(self).id == old(self).id,
            final(self)@ == verify_outcome(old(self)@, pass@).0,
            r == verify_outcome(old(self)@, pass@).1,
    {
        if self.is_blocked() {
            return Err(SysError::AccountBlocked);
        }
        let ok = crypto::verify_password(pass, self.pass.as_str());
        if ok {
            self.reset_login_tries();
            Ok(())
        } else {
            match self.inc_login_tries() {
                Ok(()) => Err(SysError::AuthenticationRequired),
                Err(e) => Err(e),
            }
        }
    }

    fn inc_login_tries(&mut self) -> (r: Result<(), SysError>)
        requires
            old(self).last_login_tries < MAX_LOGIN_TRIES,
        ensures
            final(self).id == old(self).id,
            final(self)@ == (UserV { tries: (old(self)@.tries + 1) as u64, ..old(self)@ }),
            r == (if old(self).last_login_tries + 1 >= MAX_LOGIN_TRIES {
                Err::<(), SysError>(SysError::AccountBlocked)
            } else {
                Ok::<(), SysError>(())
            }),
    {
        self.last_login_tries = self.last_login_tries + 1;
        if self.last_login_tries >= MAX_LOGIN_TRIES {
            Err(SysError::AccountBlocked)
        } else {
            Ok(())
        }
    }

    fn reset_login_tries(&mut self)
        ensures
            final(self).id == old(self).id,
            final(self)@ == (UserV { tries: 0, ..old(self)@ }),
    {
        self.last_login_tries = 0;
    }

    /// Replaces the stored hash with one derived from `pass`.
    pub fn change_pass(&mut self, pass: &str) -> (r: Result<(), SysError>)
        ensures
            final(self).id == old(self).id,
            match r {
                Ok(()) => final(self)@.name == old(self)@.name
                    && final(self)@.tries == old(self)@.tries
                    && password_verifies(pass@, final(self)@.pass_hash),
                Err(e) => e == SysError::HashFailure && *final(self) == *old(self),
            },
    {
        match crypto::derive_password_hash(pass) {
            Some(h) => {
                self.pass = h;
                Ok(())
            }
            None => Err(SysError::HashFailure),
        }
    }
}

/// Law: three consecutive wrong-password checks block the account, a fourth
/// check with the correct password still fails with `AccountBlocked`, and
/// once the failure counter is reset the correct password succeeds.
pub proof fn lemma_login_lockout(u: UserV, wrong: Seq<char>, right: Seq<char>)
    requires
        u.tries == 0,
        !password_verifies(wrong, u.pass_hash),
        password_verifies(right, u.pass_hash),
    ensures
        ({
            let u1 = verify_outcome(u, wrong).0;
            let u2 = verify_outcome(u1, wrong).0;
            let u3 = verify_outcome(u2, wrong).0;
            &&& verify_outcome(u2, wrong).1 == Err::<(), SysError>(SysError::AccountBlocked)
            &&& verify_outcome(u3, right).1 == Err::<(), SysError>(SysError::AccountBlocked)
            &&& verify_outcome(UserV { tries: 0, ..u3 }, right).1 == Ok::<(), SysError>(())
        }),
{
}

/// Whether some account in `users` carries `name`.
pub open spec fn has_name(users: Seq<UserV>, name: Seq<char>) -> bool {
    exists|i: int| 0 <= i < users.len() && users[i].name == name
}

/// The index of the account carrying `name` (well defined when the names
/// are unique and `has_name` holds).
pub open spec fn name_index(users: Seq<UserV>, name: Seq<char>) -> int {
    choose|i: int| 0 <= i < users.len() && users[i].name == name
}

/// Usernames are globally unique.
pub open spec fn names_unique(users: Seq<UserV>) -> bool {
    forall|i: int, j: int|
        0 <= i < users.len() && 0 <= j < users.len() && i != j ==> (#[trigger] users[i].name)
            != (#[trigger] users[j].name)
}

/// The user directory: accounts indexed by id. Ids are dense — the account
/// with id `i` sits at position `i` — because accounts are never deleted,
/// only blocked and unblocked.
#[derive(Debug)]
pub struct UserDb {
    pub users: Vec<User>,
}

impl View for UserDb {
    type V = Seq<UserV>;

    open spec fn view(&self) -> Seq<UserV> {
        Seq::new(self.users@.len() as nat, |i: int| self.users@[i]@)
    }
}

/// What a login by name does to the directory and reports back.
pub open spec fn login_outcome(
    pre: Seq<UserV>,
    post: Seq<UserV>,
    name: Seq<char>,
    pass: Seq<char>,
    r: Result<UserId, SysError>,
) -> bool {
    if !has_name(pre, name) {
        r == Err::<UserId, SysError>(SysError::AuthenticationRequired) && post == pre
    } else {
        let i = name_index(pre, name);
        let outcome = verify_outcome(pre[i], pass);
        &&& post == pre.update(i, outcome.0)
        &&& (outcome.1 is Ok ==> r == Ok::<UserId, SysError>(UserId(i as u64)))
        &&& (outcome.1 is Err ==> r == Err::<UserId, SysError>(outcome.1->Err_0))
    }
}

/// What a password change does to the directory and reports back: the old
/// password is re-verified under the lockout rule, and only then is a new
/// hash stored.
pub open spec fn change_pass_outcome(
    pre: Seq<UserV>,
    post: Seq<UserV>,
    uid: u64,
    old_pass: Seq<char>,
    new_pass: Seq<char>,
    r: Result<(), SysError>,
) -> bool {
    if uid >= pre.len() {
        r == Err::<(), SysError>(SysError::AuthenticationRequired) && post == pre
    } else {
        let i = uid as int;
        let outcome = verify_outcome(pre[i], old_pass);
        if outcome.1 is Err {
            post == pre.update(i, outcome.0) && r == Err::<(), SysError>(outcome.1->Err_0)
        } else {
            match r {
                Ok(()) => post == pre.update(
                    i,
                    UserV { name: pre[i].name, pass_hash: post[i].pass_hash, tries: 0 },
                ) && password_verifies(new_pass, post[i].pass_hash),
                Err(e) => e == SysError::HashFailure && post == pre.update(i, outcome.0),
            }
        }
    }
}

/// What an unblock does: the named account's failure counter is cleared.
pub open spec fn unblock_outcome(
    pre: Seq<UserV>,
    post: Seq<UserV>,
    name: Seq<char>,
    r: Result<(), SysError>,
) -> bool {
    match r {
        Ok(()) => has_name(pre, name) && ({
            let i = name_index(pre, name);
            post == pre.update(i, UserV { tries: 0, ..pre[i] })
        }),
        Err(e) => e == SysError::UserNotFound && !has_name(pre, name) && post == pre,
    }
}

/// What adding a user does: a fresh account under a free, globally unique
/// name, with a hash derived from the given password.
pub open spec fn add_user_outcome(
    pre: Seq<UserV>,
    post: Seq<UserV>,
    name: Seq<char>,
    pass: Seq<char>,
    r: Result<UserId, SysError>,
) -> bool {
    match r {
        Ok(uid) => !has_name(pre, name) && uid.0 == pre.len() && post.len() == pre.len() + 1
            && post.subrange(0, pre.len() as int) == pre && post.last().name == name
            && post.last().tries == 0 && password_verifies(pass, post.last().pass_hash),
        Err(SysError::AlreadyExists) => has_name(pre, name) && post == pre,
        Err(SysError::HashFailure) => !has_name(pre, name) && post == pre,
        Err(_) => false,
    }
}

/// Updating one account without changing its name keeps the names unique.
proof fn lemma_names_unique_update(pre: Seq<UserV>, post: Seq<UserV>, i: int)
    requires
        names_unique(pre),
        0 <= i < pre.len(),
        post.len() == pre.len(),
        post =~= pre.update(i, post[i]),
        post[i].name == pre[i].name,
    ensures
        names_unique(post),
{
    assert forall|a: int, b: int|
        0 <= a < post.len() && 0 <= b < post.len() && a != b implies (#[trigger] post[a].name)
        != (#[trigger] post[b].name) by {
        assert(post[a].name == pre[a].name);
        assert(post[b].name == pre[b].name);
    }
}

impl UserDb {
    pub open spec fn inv(&self) -> bool {
        &&& forall|i: int|
            0 <= i < self.users@.len() ==> (#[trigger] self.users@[i]).id.0 == i
        &&& names_unique(self@)
    }

    /// A fresh directory holding exactly the administrator account, with an
    /// empty password.
    pub fn new() -> (r: Result<UserDb, SysError>)
        ensures
            match r {
                Ok(db) => db.inv() && db@.len() == 1 && db@[0].name == "admin"@ && db@[0].tries
                    == 0 && password_verifies(""@, db@[0].pass_hash),
                Err(e) => e == SysError::HashFailure,
            },
    {
        let mut this = UserDb { users: Vec::new() };
        match this.add_user("admin", "") {
            Ok(_) => Ok(this),
            Err(e) => Err(e),
        }
    }

    fn find_name(&self, name: &str) -> (r: Option<usize>)
        ensures
            match r {
                Some(i) => i < self@.len() && self@[i as int].name == name@,
                None => !has_name(self@, name@),
            },
    {
        let wanted = String::from_str(name);
        let mut i: usize = 0;
        while i < self.users.len()
            invariant
                0 <= i <= self@.len(),
                self@.len() == self.users@.len(),
                wanted@ == name@,
                forall|j: int| 0 <= j < i ==> (#[trigger] self@[j].name) != name@,
            decreases self@.len() - i,
        {
            if self.users[i].name == wanted {
                return Some(i);
            }
            i = i + 1;
        }
        None
    }

    /// Creates an account under a globally unique name; the new id is the
    /// next value of the id counter.
    pub fn add_user(&mut self, name: &str, pass: &str) -> (r: Result<UserId, SysError>)
        requires
            old(self).inv(),
        ensures
            final(self).inv(),
            add_user_outcome(old(self)@, final(self)@, name@, pass@, r),
            r is Err ==> *final(self) == *old(self),
    {
        match self.find_name(name) {
            Some(_) => Err(SysError::AlreadyExists),
            None => {
                let id = UserId(self.users.len() as u64);
                let owned = String::from_str(name);
                match User::new(id, owned, pass) {
                    Ok(u) => {
                        self.users.push(u);
                        proof {
                            assert(self@.subrange(0, old(self)@.len() as int) =~= old(self)@);
                            let n = old(self)@.len() as int;
                            assert forall|i: int, j: int|
                                0 <= i < self@.len() && 0 <= j < self@.len() && i != j implies (
                            #[trigger] self@[i].name) != (#[trigger] self@[j].name) by {
                                if i < n && j < n {
                                    assert(self@[i] == old(self)@[i]);
                                    assert(self@[j] == old(self)@[j]);
                                    assert(old(self)@[i].name != old(self)@[j].name);
                                } else if i < n {
                                    assert(self@[j].name == name@);
                                    assert(!(0 <= i < old(self)@.len() && old(self)@[i].name
                                        == name@));
                                    assert(self@[i] == old(self)@[i]);
                                } else if j < n {
                                    assert(self@[i].name == name@);
                                    assert(self@[j] == old(self)@[j]);
                                    assert(!(0 <= j < old(self)@.len() && old(self)@[j].name
                                        == name@));
                                }
                            }
                        }
                        Ok(id)
                    }
                    Err(e) => Err(e),
                }
            }
        }
    }

    /// Authenticates by name: an unknown name and a wrong password fail the
    /// same way, so callers cannot probe which names exist.
    pub fn login(&mut self, name: &str, pass: &str) -> (r: Result<UserId, SysError>)
        requires
            old(self).inv(),
        ensures
            final(self).inv(),
            login_outcome(old(self)@, final(self)@, name@, pass@, r),
            !has_name(old(self)@, name@) ==> *final(self) == *old(self),
    {
        match self.find_name(name) {
            None => Err(SysError::AuthenticationRequired),
            Some(i) => {
                proof {
                    let j = name_index(self@, name@);
                    assert(self@[j].name == name@);
                    assert(j == i);
                }
                let res = {
                    let u = &mut self.users[i];
                    u.verify_pass(pass)
                };
                proof {
                    assert(self@ =~= old(self)@.update(i as int, self@[i as int]));
                    lemma_names_unique_update(old(self)@, self@, i as int);
                    assert forall|k: int| 0 <= k < self.users@.len() implies (
                    #[trigger] self.users@[k]).id.0 == k by {
                        if k != i as int {
                            assert(self.users@[k] == old(self).users@[k]);
                        }
                    }
                }
                match res {
                    Ok(()) => Ok(UserId(i as u64)),
                    Err(e) => Err(e),
                }
            }
        }
    }

    /// Authenticates by id, with the same outcome rule as `login`.
    pub fn login_with_id(&mut self, uid: UserId, pass: &str) -> (r: Result<(), SysError>)
        requires
            old(self).inv(),
        ensures
            final(self).inv(),
            ({
                if uid.0 >= old(self)@.len() {
                    r == Err::<(), SysError>(SysError::AuthenticationRequired) && *final(self)
                        == *old(self)
                } else {
                    let outcome = verify_outcome(old(self)@[uid.0 as int], pass@);
                    final(self)@ == old(self)@.update(uid.0 as int, outcome.0) && r == outcome.1
                }
            }),
    {
        if uid.0 >= self.users.len() as u64 {
            return Err(SysError::AuthenticationRequired);
        }
        let i = uid.0 as usize;
        let res = {
            let u = &mut self.users[i];
            u.verify_pass(pass)
        };
        proof {
            assert(self@ =~= old(self)@.update(i as int, self@[i as int]));
            lemma_names_unique_update(old(self)@, self@, i as int);
            assert forall|k: int| 0 <= k < self.users@.len() implies (
            #[trigger] self.users@[k]).id.0 == k by {
                if k != i as int {
                    assert(self.users@[k] == old(self).users@[k]);
                }
            }
        }
        res
    }

    /// Re-runs credential verification against `old_pass` (with the lockout
    /// rule) and, on success, stores a hash derived from `new_pass`.
    pub fn change_pass(&mut self, uid: UserId, old_pass: &str, new_pass: &str) -> (r: Result<
        (),
        SysError,
    >)
        requires
            old(self).inv(),
        ensures
            final(self).inv(),
            change_pass_outcome(old(self)@, final(self)@, uid.0, old_pass@, new_pass@, r),
            uid.0 >= old(self)@.len() ==> *final(self) == *old(self),
    {
        match self.login_with_id(uid, old_pass) {
            Err(e) => Err(e),
            Ok(()) => {
                let ghost mid = *self;
                proof {
                    assert(uid.0 < old(self)@.len());
                    assert(mid@.len() == old(self)@.len());
                    assert(mid@ == old(self)@.update(
                        uid.0 as int,
                        verify_outcome(old(self)@[uid.0 as int], old_pass@).0,
                    ));
                    assert(verify_outcome(old(self)@[uid.0 as int], old_pass@).1 is Ok);
                }
                let _len = self.users.len();
                assert(uid.0 < _len as u64);
                let i = uid.0 as usize;
                assert(i as int == uid.0 as int);
                assert(i < self.users@.len());
                let res = {
                    let u = &mut self.users[i];
                    u.change_pass(new_pass)
                };
                proof {
                    assert(self@ =~= mid@.update(i as int, self@[i as int]));
                    lemma_names_unique_update(mid@, self@, i as int);
                    assert forall|k: int| 0 <= k < self.users@.len() implies (
                    #[trigger] self.users@[k]).id.0 == k by {
                        if k != i as int {
                            assert(self.users@[k] == mid.users@[k]);
                        }
                    }
                    if res is Ok {
                        assert(self@[i as int].name == mid@[i as int].name);
                        assert(mid@[i as int].name == old(self)@[i as int].name);
                        assert(self@[i as int].tries == mid@[i as int].tries);
                        assert(mid@[i as int].tries == 0);
                        assert(self@ =~= old(self)@.update(
                            i as int,
                            UserV {
                                name: old(self)@[i as int].name,
                                pass_hash: self@[i as int].pass_hash,
                                tries: 0,
                            },
                        ));
                    } else {
                        assert(self@ =~= old(self)@.update(
                            i as int,
                            verify_outcome(old(self)@[i as int], old_pass@).0,
                        ));
                    }
                }
                res
            }
        }
    }

    /// The id bound to `username`.
    pub fn id_of(&self, username: &str) -> (r: Result<UserId, SysError>)
        requires
            self.inv(),
        ensures
            match r {
                Ok(uid) => has_name(self@, username@) && uid.0 == name_index(self@, username@),
                Err(e) => e == SysError::UserNotFound && !has_name(self@, username@),
            },
    {
        match self.find_name(username) {
            Some(i) => {
                proof {
                    let j = name_index(self@, username@);
                    assert(self@[j].name == username@);
                    assert(j == i);
                }
                Ok(UserId(i as u64))
            }
            None => Err(SysError::UserNotFound),
        }
    }

    /// Administrator action: clears the failure counter, unblocking the
    /// account.
    pub fn unblock(&mut self, username: &str) -> (r: Result<(), SysError>)
        requires
            old(self).inv(),
        ensures
            final(self).inv(),
            unblock_outcome(old(self)@, final(self)@, username@, r),
            !has_name(old(self)@, username@) ==> *final(self) == *old(self),
    {
        match self.find_name(username) {
            None => Err(SysError::UserNotFound),
            Some(i) => {
                proof {
                    let j = name_index(self@, username@);
                    assert(self@[j].name == username@);
                    assert(j == i);
                }
                let u = &mut self.users[i];
                u.reset_login_tries();
                proof {
                    assert(self@ =~= old(self)@.update(i as int, self@[i as int]));
                    lemma_names_unique_update(old(self)@, self@, i as int);
                    assert forall|k: int| 0 <= k < self.users@.len() implies (
                    #[trigger] self.users@[k]).id.0 == k by {
                        if k != i as int {
                            assert(self.users@[k] == old(self).users@[k]);
                        }
                    }
                }
                Ok(())
            }
        }
    }
}

} // verus!
