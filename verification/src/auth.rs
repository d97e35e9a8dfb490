//! Account commands: signup, login and logout. Each command is an
//! atomic transaction against the table store: its exact effect is a
//! transition function on the store model, and the executable command
//! is proved to realize that transition; on any rejection the store
//! is left untouched.
use vstd::prelude::*;

verus! {

use crate::rows::{
    Change, ChangeV, CommandError, Identity, Row, RowV, User, UserCredentials, UserCredentialsV,
    UserV, ValidationError,
};
use crate::store::{
    ChatDb, DbModel, cred_conn_idx, cred_uid_idx, cred_uids_distinct, cred_uids_exist,
    conn_in_one_credential, find_credentials_by_conn, find_credentials_by_uid, find_user_by_id,
    find_user_by_name, has_cred_conn, has_cred_uid, has_user_id, has_user_name,
    lemma_cred_conn_at, lemma_cred_uid_at, lemma_user_id_at, lemma_user_name_at, user_id_idx,
    user_ids_bounded, user_ids_distinct, user_name_idx, user_names_distinct, user_uids_have_cred,
};
use crate::text::{chars_vec, lemma_push_contains, lemma_without_id, remove_u64, without_id};
use crate::rows::{dup_credentials, dup_user};
use vstd::pervasive::VecAdditionalExecFns;

/// The exact effect of `signup`: either a rejection that leaves the
/// store unchanged, or a new account and credential created together,
/// with the caller's connection online and bound.
pub open spec fn signup_tr(m: DbModel, s: Identity, name: Seq<char>, password: Seq<char>) -> (
    DbModel,
    Result<(), CommandError>,
) {
    if has_cred_conn(m.credentials, s) {
        (m, Err(CommandError::Rejected(ValidationError::AlreadyAuthenticated)))
    } else if name.len() < 3 {
        (m, Err(CommandError::Rejected(ValidationError::NameTooShort)))
    } else if password.len() < 4 {
        (m, Err(CommandError::Rejected(ValidationError::PasswordTooShort)))
    } else if has_user_name(m.users, name) {
        (m, Err(CommandError::Rejected(ValidationError::NameTaken)))
    } else {
        let u = UserV {
            id: m.next_user_id,
            is_admin: false,
            avatar: None,
            name: name,
            online: seq![s],
        };
        let c = UserCredentialsV {
            user_id: m.next_user_id,
            password: password,
            connections: seq![s],
        };
        (
            DbModel {
                users: m.users.push(u),
                credentials: m.credentials.push(c),
                next_user_id: (m.next_user_id + 1) as u32,
                changes: m.changes.push(ChangeV::Inserted(RowV::UserRow(u))).push(
                    ChangeV::Inserted(RowV::CredentialRow(c)),
                ),
                ..m
            },
            Ok(()),
        )
    }
}

/// Signup preserves the store invariant.
pub proof fn lemma_signup_wf(m: DbModel, s: Identity, name: Seq<char>, password: Seq<char>)
    requires
        m.wf(),
        m.next_user_id < u32::MAX,
    ensures
        signup_tr(m, s, name, password).0.wf(),
{
    let m1 = signup_tr(m, s, name, password).0;
    if !has_cred_conn(m.credentials, s) && name.len() >= 3 && password.len() >= 4 && !has_user_name(
        m.users,
        name,
    ) {
        let u = UserV {
            id: m.next_user_id,
            is_admin: false,
            avatar: None,
            name: name,
            online: seq![s],
        };
        let c = UserCredentialsV {
            user_id: m.next_user_id,
            password: password,
            connections: seq![s],
        };
        let us1 = m.users.push(u);
        let cs1 = m.credentials.push(c);
        let n = m.users.len() as int;
        let cn = m.credentials.len() as int;
        assert(user_ids_distinct(us1)) by {
            assert forall|i: int, j: int| 0 <= i < j < us1.len() implies us1[i].id != us1[j].id by {
                if j < n {
                    assert(m.users[i].id != m.users[j].id);
                } else {
                    assert(m.users[i].id < m.next_user_id);
                }
            }
        }
        assert(user_names_distinct(us1)) by {
            assert forall|i: int, j: int|
                0 <= i < j < us1.len() implies us1[i].name != us1[j].name by {
                if j < n {
                    assert(m.users[i].name != m.users[j].name);
                } else {
                    assert(m.users[i].name != name);
                }
            }
        }
        assert(user_ids_bounded(us1, m1.next_user_id)) by {
            assert forall|i: int| 0 <= i < us1.len() implies us1[i].id < m1.next_user_id by {
                if i < n {
                    assert(m.users[i].id < m.next_user_id);
                }
            }
        }
        // A credential's account id is an existing user id, hence
        // below the fresh id.
        assert forall|i: int| 0 <= i < cn implies m.credentials[i].user_id < m.next_user_id by {
            assert(has_user_id(m.users, m.credentials[i].user_id));
            let k = crate::store::user_id_idx(m.users, m.credentials[i].user_id);
            assert(m.users[k].id < m.next_user_id);
        }
        assert(cred_uids_distinct(cs1)) by {
            assert forall|i: int, j: int|
                0 <= i < j < cs1.len() implies cs1[i].user_id != cs1[j].user_id by {
                if j < cn {
                    assert(m.credentials[i].user_id != m.credentials[j].user_id);
                }
            }
        }
        assert(cred_uids_exist(cs1, us1)) by {
            assert forall|i: int| 0 <= i < cs1.len() implies has_user_id(
                us1,
                cs1[i].user_id,
            ) by {
                if i < cn {
                    assert(has_user_id(m.users, m.credentials[i].user_id));
                    let k = user_id_idx(m.users, m.credentials[i].user_id);
                    assert(us1[k].id == cs1[i].user_id);
                } else {
                    assert(us1[n].id == cs1[i].user_id);
                }
            }
        }
        assert(user_uids_have_cred(us1, cs1)) by {
            assert forall|i: int| 0 <= i < us1.len() implies has_cred_uid(
                cs1,
                us1[i].id,
            ) by {
                if i < n {
                    assert(has_cred_uid(m.credentials, m.users[i].id));
                    let k = cred_uid_idx(m.credentials, m.users[i].id);
                    assert(cs1[k].user_id == us1[i].id);
                } else {
                    assert(cs1[cn].user_id == us1[i].id);
                }
            }
        }
        assert(conn_in_one_credential(cs1)) by {
            assert forall|i: int, j: int, x: Identity|
                0 <= i < cs1.len() && 0 <= j < cs1.len() && i != j implies !(
            cs1[i].connections.contains(x) && cs1[j].connections.contains(x)) by {
                if cs1[i].connections.contains(x) && cs1[j].connections.contains(x) {
                    if i < cn && j < cn {
                        assert(!(m.credentials[i].connections.contains(x)
                            && m.credentials[j].connections.contains(x)));
                    } else {
                        // One of the two is the new credential, whose
                        // only binding is `s`; but `s` was bound
                        // nowhere before.
                        let o = if i < cn { i } else { j };
                        assert(cs1[if i < cn { j } else { i }].connections == seq![s]);
                        assert(seq![s][0] == s);
                        assert(x == s);
                        assert(m.credentials[o].connections.contains(s));
                        assert(has_cred_conn(m.credentials, s));
                    }
                }
            }
        }
    }
}

/// Creates an account with a unique display name, binding and
/// bringing online the calling connection. The name needs at least 3
/// characters and the password at least 4.
pub fn signup(db: &mut ChatDb, sender: Identity, name: String, password: String) -> (r: Result<
    (),
    CommandError,
>)
    requires
        old(db)@.wf(),
        old(db)@.next_user_id < u32::MAX,
    ensures
        final(db)@ == signup_tr(old(db)@, sender, name@, password@).0,
        r == signup_tr(old(db)@, sender, name@, password@).1,
        final(db)@.wf(),
{
    let ghost m0 = old(db)@;
    match find_credentials_by_conn(&db.credentials, sender) {
        Some(i) => {
            proof {
                assert(m0.credentials[i as int].connections.contains(sender));
            }
            return Err(CommandError::Rejected(ValidationError::AlreadyAuthenticated));
        }
        None => {
            proof {
                if has_cred_conn(m0.credentials, sender) {
                    let k = cred_conn_idx(m0.credentials, sender);
                    assert(db.credentials@[k].connections@.contains(sender));
                }
            }
        }
    }
    let name_chars = chars_vec(name.as_str());
    if name_chars.len() < 3 {
        return Err(CommandError::Rejected(ValidationError::NameTooShort));
    }
    let password_chars = chars_vec(password.as_str());
    if password_chars.len() < 4 {
        return Err(CommandError::Rejected(ValidationError::PasswordTooShort));
    }
    match find_user_by_name(&db.users, &name) {
        Some(i) => {
            proof {
                assert(m0.users[i as int].name == name@);
            }
            return Err(CommandError::Rejected(ValidationError::NameTaken));
        }
        None => {
            proof {
                if has_user_name(m0.users, name@) {
                    let k = user_name_idx(m0.users, name@);
                    assert(db.users@[k].name@ == name@);
                }
            }
        }
    }
    let uid = db.next_user_id;
    let mut online: Vec<Identity> = Vec::new();
    online.push(sender);
    let user_row = User { id: uid, is_admin: false, avatar: None, name, online };
    let user_copy = dup_user(&user_row);
    db.users.push(user_row);
    db.changes.push(Change::Inserted(Row::UserRow(user_copy)));
    let mut connections: Vec<Identity> = Vec::new();
    connections.push(sender);
    let cred_row = UserCredentials { user_id: uid, password, connections };
    let cred_copy = dup_credentials(&cred_row);
    db.credentials.push(cred_row);
    db.changes.push(Change::Inserted(Row::CredentialRow(cred_copy)));
    db.next_user_id = uid + 1;
    proof {
        let uv = UserV {
            id: m0.next_user_id,
            is_admin: false,
            avatar: None,
            name: name@,
            online: seq![sender],
        };
        let cv = UserCredentialsV {
            user_id: m0.next_user_id,
            password: password@,
            connections: seq![sender],
        };
        assert(user_copy@ =~= uv);
        assert(cred_copy@ =~= cv);
        assert(db@.users =~= m0.users.push(uv));
        assert(db@.credentials =~= m0.credentials.push(cv));
        assert(db@.changes =~= m0.changes.push(ChangeV::Inserted(RowV::UserRow(uv))).push(
            ChangeV::Inserted(RowV::CredentialRow(cv)),
        ));
        assert(db@ =~= signup_tr(m0, sender, name@, password@).0);
        lemma_signup_wf(m0, sender, name@, password@);
    }
    Ok(())
}

/// The exact effect of `login`: either a rejection that leaves the
/// store unchanged, or the caller's connection added to the named
/// account's binding set and online set.
pub open spec fn login_tr(m: DbModel, s: Identity, name: Seq<char>, password: Seq<char>) -> (
    DbModel,
    Result<(), CommandError>,
) {
    if has_cred_conn(m.credentials, s) {
        (m, Err(CommandError::Rejected(ValidationError::AlreadyAuthenticated)))
    } else if !has_user_name(m.users, name) {
        (m, Err(CommandError::Rejected(ValidationError::NoSuchUser)))
    } else {
        let ui = user_name_idx(m.users, name);
        let u = m.users[ui];
        let ci = cred_uid_idx(m.credentials, u.id);
        let c = m.credentials[ci];
        if c.password != password {
            (m, Err(CommandError::Rejected(ValidationError::BadPassword)))
        } else {
            let c2 = UserCredentialsV { connections: c.connections.push(s), ..c };
            let u2 = UserV { online: u.online.push(s), ..u };
            (
                DbModel {
                    users: m.users.update(ui, u2),
                    credentials: m.credentials.update(ci, c2),
                    changes: m.changes.push(
                        ChangeV::Updated(RowV::CredentialRow(c), RowV::CredentialRow(c2)),
                    ).push(ChangeV::Updated(RowV::UserRow(u), RowV::UserRow(u2))),
                    ..m
                },
                Ok(()),
            )
        }
    }
}

/// Login preserves the store invariant.
pub proof fn lemma_login_wf(m: DbModel, s: Identity, name: Seq<char>, password: Seq<char>)
    requires
        m.wf(),
    ensures
        login_tr(m, s, name, password).0.wf(),
{
    if !has_cred_conn(m.credentials, s) && has_user_name(m.users, name) {
        let ui = user_name_idx(m.users, name);
        let u = m.users[ui];
        let ci = cred_uid_idx(m.credentials, u.id);
        let c = m.credentials[ci];
        if c.password == password {
            let m1 = login_tr(m, s, name, password).0;
            let u2 = UserV { online: u.online.push(s), ..u };
            let c2 = UserCredentialsV { connections: c.connections.push(s), ..c };
            let us1 = m.users.update(ui, u2);
            let cs1 = m.credentials.update(ci, c2);
            assert(has_user_id(m.users, u.id)) by {
                lemma_user_name_at(m.users, ui);
                lemma_user_id_at(m.users, ui);
            }
            assert(0 <= ci < m.credentials.len() && c.user_id == u.id) by {
                let k = cred_uid_idx(m.credentials, u.id);
                assert(has_cred_uid(m.credentials, u.id)) by {
                    assert(cred_uids_exist(m.credentials, m.users));
                    let uk = user_id_idx(m.users, u.id);
                    assert(has_cred_uid(m.credentials, m.users[uk].id));
                }
            }
            assert(user_ids_distinct(us1)) by {
                assert forall|i: int, j: int|
                    0 <= i < j < us1.len() implies us1[i].id != us1[j].id by {
                    assert(m.users[i].id != m.users[j].id);
                    assert(us1[i].id == m.users[i].id && us1[j].id == m.users[j].id);
                }
            }
            assert(user_names_distinct(us1)) by {
                assert forall|i: int, j: int|
                    0 <= i < j < us1.len() implies us1[i].name != us1[j].name by {
                    assert(m.users[i].name != m.users[j].name);
                    assert(us1[i].name == m.users[i].name && us1[j].name == m.users[j].name);
                }
            }
            assert(user_ids_bounded(us1, m1.next_user_id)) by {
                assert forall|i: int| 0 <= i < us1.len() implies us1[i].id < m1.next_user_id by {
                    assert(m.users[i].id < m.next_user_id);
                    assert(us1[i].id == m.users[i].id);
                }
            }
            assert(cred_uids_distinct(cs1)) by {
                assert forall|i: int, j: int|
                    0 <= i < j < cs1.len() implies cs1[i].user_id != cs1[j].user_id by {
                    assert(m.credentials[i].user_id != m.credentials[j].user_id);
                    assert(cs1[i].user_id == m.credentials[i].user_id);
                    assert(cs1[j].user_id == m.credentials[j].user_id);
                }
            }
            assert(cred_uids_exist(cs1, us1)) by {
                assert forall|i: int| 0 <= i < cs1.len() implies has_user_id(
                    us1,
                    cs1[i].user_id,
                ) by {
                    assert(has_user_id(m.users, m.credentials[i].user_id));
                    let k = user_id_idx(m.users, m.credentials[i].user_id);
                    assert(us1[k].id == m.users[k].id);
                    assert(cs1[i].user_id == m.credentials[i].user_id);
                }
            }
            assert(user_uids_have_cred(us1, cs1)) by {
                assert forall|i: int| 0 <= i < us1.len() implies has_cred_uid(
                    cs1,
                    us1[i].id,
                ) by {
                    assert(has_cred_uid(m.credentials, m.users[i].id));
                    let k = cred_uid_idx(m.credentials, m.users[i].id);
                    assert(cs1[k].user_id == m.credentials[k].user_id);
                    assert(us1[i].id == m.users[i].id);
                }
            }
            assert(conn_in_one_credential(cs1)) by {
                assert forall|i: int, j: int, x: Identity|
                    0 <= i < cs1.len() && 0 <= j < cs1.len() && i != j implies !(
                cs1[i].connections.contains(x) && cs1[j].connections.contains(x)) by {
                    if cs1[i].connections.contains(x) && cs1[j].connections.contains(x) {
                        lemma_push_contains(c.connections, s, x);
                        if i != ci && j != ci {
                            assert(!(m.credentials[i].connections.contains(x)
                                && m.credentials[j].connections.contains(x)));
                        } else {
                            let o = if i == ci { j } else { i };
                            assert(cs1[o] == m.credentials[o]);
                            if x == s {
                                assert(m.credentials[o].connections.contains(s));
                                assert(has_cred_conn(m.credentials, s));
                            } else {
                                assert(c.connections.contains(x));
                                assert(!(m.credentials[ci].connections.contains(x)
                                    && m.credentials[o].connections.contains(x)));
                            }
                        }
                    }
                }
            }
        }
    }
}

/// Binds the calling connection to the named account and brings it
/// online. A connection that is already bound must log out first:
/// a connection is bound to at most one account at a time.
pub fn login(db: &mut ChatDb, sender: Identity, name: String, password: String) -> (r: Result<
    (),
    CommandError,
>)
    requires
        old(db)@.wf(),
    ensures
        final(db)@ == login_tr(old(db)@, sender, name@, password@).0,
        r == login_tr(old(db)@, sender, name@, password@).1,
        final(db)@.wf(),
{
    let ghost m0 = old(db)@;
    match find_credentials_by_conn(&db.credentials, sender) {
        Some(i) => {
            proof {
                assert(m0.credentials[i as int].connections.contains(sender));
            }
            return Err(CommandError::Rejected(ValidationError::AlreadyAuthenticated));
        }
        None => {
            proof {
                if has_cred_conn(m0.credentials, sender) {
                    let k = cred_conn_idx(m0.credentials, sender);
                    assert(db.credentials@[k].connections@.contains(sender));
                }
            }
        }
    }
    let ui = match find_user_by_name(&db.users, &name) {
        None => {
            proof {
                if has_user_name(m0.users, name@) {
                    let k = user_name_idx(m0.users, name@);
                    assert(db.users@[k].name@ == name@);
                }
            }
            return Err(CommandError::Rejected(ValidationError::NoSuchUser));
        }
        Some(ui) => {
            proof {
                lemma_user_name_at(m0.users, ui as int);
            }
            ui
        }
    };
    let uid = db.users[ui].id;
    let ci = match find_credentials_by_uid(&db.credentials, uid) {
        None => {
            proof {
                assert(has_cred_uid(m0.credentials, m0.users[ui as int].id));
                let k = cred_uid_idx(m0.credentials, uid);
                assert(db.credentials@[k].user_id == uid);
                assert(false);
            }
            return Err(CommandError::Internal);
        }
        Some(ci) => {
            proof {
                lemma_cred_uid_at(m0.credentials, ci as int);
            }
            ci
        }
    };
    if db.credentials[ci].password != password {
        return Err(CommandError::Rejected(ValidationError::BadPassword));
    }
    let old_cred_copy = dup_credentials(&db.credentials[ci]);
    let mut c2 = dup_credentials(&db.credentials[ci]);
    c2.connections.push(sender);
    let new_cred_copy = dup_credentials(&c2);
    db.credentials.set(ci, c2);
    db.changes.push(
        Change::Updated(Row::CredentialRow(old_cred_copy), Row::CredentialRow(new_cred_copy)),
    );
    let old_user_copy = dup_user(&db.users[ui]);
    let mut u2 = dup_user(&db.users[ui]);
    u2.online.push(sender);
    let new_user_copy = dup_user(&u2);
    db.users.set(ui, u2);
    db.changes.push(Change::Updated(Row::UserRow(old_user_copy), Row::UserRow(new_user_copy)));
    proof {
        let u = m0.users[ui as int];
        let c = m0.credentials[ci as int];
        let u2v = UserV { online: u.online.push(sender), ..u };
        let c2v = UserCredentialsV { connections: c.connections.push(sender), ..c };
        assert(new_user_copy@ =~= u2v);
        assert(new_cred_copy@ =~= c2v);
        assert(db@.users =~= m0.users.update(ui as int, u2v));
        assert(db@.credentials =~= m0.credentials.update(ci as int, c2v));
        assert(db@.changes =~= m0.changes.push(
            ChangeV::Updated(RowV::CredentialRow(c), RowV::CredentialRow(c2v)),
        ).push(ChangeV::Updated(RowV::UserRow(u), RowV::UserRow(u2v))));
        assert(db@ =~= login_tr(m0, sender, name@, password@).0);
        lemma_login_wf(m0, sender, name@, password@);
    }
    Ok(())
}

/// The exact effect of `logout`: either `NotAuthenticated`, or the
/// caller's connection removed from its account's binding set and
/// online set; nothing else moves.
pub open spec fn logout_tr(m: DbModel, s: Identity) -> (DbModel, Result<(), CommandError>) {
    if !has_cred_conn(m.credentials, s) {
        (m, Err(CommandError::Rejected(ValidationError::NotAuthenticated)))
    } else {
        let ci = cred_conn_idx(m.credentials, s);
        let c = m.credentials[ci];
        let ui = user_id_idx(m.users, c.user_id);
        let u = m.users[ui];
        let u2 = UserV { online: without_id(u.online, s), ..u };
        let c2 = UserCredentialsV { connections: without_id(c.connections, s), ..c };
        (
            DbModel {
                users: m.users.update(ui, u2),
                credentials: m.credentials.update(ci, c2),
                changes: m.changes.push(ChangeV::Updated(RowV::UserRow(u), RowV::UserRow(u2))).push(
                    ChangeV::Updated(RowV::CredentialRow(c), RowV::CredentialRow(c2)),
                ),
                ..m
            },
            Ok(()),
        )
    }
}

/// Logout preserves the store invariant.
pub proof fn lemma_logout_wf(m: DbModel, s: Identity)
    requires
        m.wf(),
    ensures
        logout_tr(m, s).0.wf(),
{
    if has_cred_conn(m.credentials, s) {
        let m1 = logout_tr(m, s).0;
        let ci = cred_conn_idx(m.credentials, s);
        let c = m.credentials[ci];
        assert(0 <= ci < m.credentials.len() && c.connections.contains(s));
        assert(has_user_id(m.users, c.user_id)) by {
            assert(cred_uids_exist(m.credentials, m.users));
        }
        let ui = user_id_idx(m.users, c.user_id);
        let u = m.users[ui];
        assert(0 <= ui < m.users.len() && u.id == c.user_id);
        let u2 = UserV { online: without_id(u.online, s), ..u };
        let c2 = UserCredentialsV { connections: without_id(c.connections, s), ..c };
        let us1 = m.users.update(ui, u2);
        let cs1 = m.credentials.update(ci, c2);
        assert(user_ids_distinct(us1) && user_names_distinct(us1) && user_ids_bounded(
            us1,
            m1.next_user_id,
        )) by {
            assert(forall|i: int| #![trigger us1[i]]
                0 <= i < us1.len() ==> us1[i].id == m.users[i].id && us1[i].name
                    == m.users[i].name);
        }
        assert(cred_uids_distinct(cs1)) by {
            assert(forall|i: int| #![trigger cs1[i]]
                0 <= i < cs1.len() ==> cs1[i].user_id == m.credentials[i].user_id);
        }
        assert(cred_uids_exist(cs1, us1)) by {
            assert forall|i: int| 0 <= i < cs1.len() implies has_user_id(us1, cs1[i].user_id) by {
                assert(has_user_id(m.users, m.credentials[i].user_id));
                let k = user_id_idx(m.users, m.credentials[i].user_id);
                assert(us1[k].id == m.users[k].id);
                assert(cs1[i].user_id == m.credentials[i].user_id);
            }
        }
        assert(user_uids_have_cred(us1, cs1)) by {
            assert forall|i: int| 0 <= i < us1.len() implies has_cred_uid(cs1, us1[i].id) by {
                assert(has_cred_uid(m.credentials, m.users[i].id));
                let k = cred_uid_idx(m.credentials, m.users[i].id);
                assert(cs1[k].user_id == m.credentials[k].user_id);
                assert(us1[i].id == m.users[i].id);
            }
        }
        assert(conn_in_one_credential(cs1)) by {
            assert forall|i: int, j: int, x: Identity|
                0 <= i < cs1.len() && 0 <= j < cs1.len() && i != j implies !(
            cs1[i].connections.contains(x) && cs1[j].connections.contains(x)) by {
                if cs1[i].connections.contains(x) && cs1[j].connections.contains(x) {
                    lemma_without_id(c.connections, s, x);
                    assert(m.credentials[i].connections.contains(x));
                    assert(m.credentials[j].connections.contains(x));
                }
            }
        }
    }
}

/// Unbinds the calling connection from its account and removes it
/// from the account's online set.
pub fn logout(db: &mut ChatDb, sender: Identity) -> (r: Result<(), CommandError>)
    requires
        old(db)@.wf(),
    ensures
        final(db)@ == logout_tr(old(db)@, sender).0,
        r == logout_tr(old(db)@, sender).1,
        final(db)@.wf(),
{
    let ghost m0 = old(db)@;
    let ci = match find_credentials_by_conn(&db.credentials, sender) {
        None => {
            proof {
                if has_cred_conn(m0.credentials, sender) {
                    let k = cred_conn_idx(m0.credentials, sender);
                    assert(db.credentials@[k].connections@.contains(sender));
                }
            }
            return Err(CommandError::Rejected(ValidationError::NotAuthenticated));
        }
        Some(ci) => {
            proof {
                lemma_cred_conn_at(m0.credentials, ci as int, sender);
            }
            ci
        }
    };
    let uid = db.credentials[ci].user_id;
    let ui = match find_user_by_id(&db.users, uid) {
        None => {
            proof {
                assert(has_user_id(m0.users, m0.credentials[ci as int].user_id));
                let k = user_id_idx(m0.users, uid);
                assert(db.users@[k].id == uid);
                assert(false);
            }
            return Err(CommandError::Internal);
        }
        Some(ui) => {
            proof {
                lemma_user_id_at(m0.users, ui as int);
            }
            ui
        }
    };
    let old_user_copy = dup_user(&db.users[ui]);
    let mut u2 = dup_user(&db.users[ui]);
    let online2 = remove_u64(&u2.online, sender);
    u2.online = online2;
    let new_user_copy = dup_user(&u2);
    db.users.set(ui, u2);
    db.changes.push(Change::Updated(Row::UserRow(old_user_copy), Row::UserRow(new_user_copy)));
    let old_cred_copy = dup_credentials(&db.credentials[ci]);
    let mut c2 = dup_credentials(&db.credentials[ci]);
    let connections2 = remove_u64(&c2.connections, sender);
    c2.connections = connections2;
    let new_cred_copy = dup_credentials(&c2);
    db.credentials.set(ci, c2);
    db.changes.push(
        Change::Updated(Row::CredentialRow(old_cred_copy), Row::CredentialRow(new_cred_copy)),
    );
    proof {
        let u = m0.users[ui as int];
        let c = m0.credentials[ci as int];
        let u2v = UserV { online: without_id(u.online, sender), ..u };
        let c2v = UserCredentialsV { connections: without_id(c.connections, sender), ..c };
        assert(new_user_copy@ =~= u2v);
        assert(new_cred_copy@ =~= c2v);
        assert(db@.users =~= m0.users.update(ui as int, u2v));
        assert(db@.credentials =~= m0.credentials.update(ci as int, c2v));
        assert(db@.changes =~= m0.changes.push(
            ChangeV::Updated(RowV::UserRow(u), RowV::UserRow(u2v)),
        ).push(ChangeV::Updated(RowV::CredentialRow(c), RowV::CredentialRow(c2v))));
        assert(db@ =~= logout_tr(m0, sender).0);
        lemma_logout_wf(m0, sender);
    }
    Ok(())
}

} // verus!
