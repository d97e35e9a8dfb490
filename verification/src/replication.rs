//! Replication: which committed change records are mirrored to which
//! subscribed connection. Private tables are never replicated; the
//! request table is visible only to the requesting connection; voice
//! packets only to members of their room; everything else is public.
//! Events come out in commit order, re-filtered per connection.
use vstd::prelude::*;

verus! {

use crate::rows::{Change, ChangeV, Identity, Row, RowV, dup_change};
use crate::store::{
    ChatDb, DbModel, cred_conn_idx, find_credentials_by_conn, find_room_by_id, has_cred_conn,
    has_room_id, lemma_cred_conn_at, lemma_room_id_at, room_id_idx,
};
use crate::text::contains_u32;

/// A table of the store, as named by a subscription query.
#[derive(Clone, Copy, Debug, PartialEq, Eq, Structural)]
pub enum TableId {
    Users,
    Credentials,
    Messages,
    Requests,
    Stagings,
    Files,
    Rooms,
    Packets,
}

/// One declarative query of a subscription: every row of one table,
/// or an ad-hoc point query for one file id.
#[derive(Clone, Copy, Debug, PartialEq, Eq, Structural)]
pub enum Query {
    AllOf(TableId),
    FileById(u32),
}

/// The registered interest of one connection.
pub struct Subscription {
    pub conn: Identity,
    pub queries: Vec<Query>,
}

#[verifier::ext_equal]
pub struct SubscriptionV {
    pub conn: Identity,
    pub queries: Seq<Query>,
}

impl View for Subscription {
    type V = SubscriptionV;

    open spec fn view(&self) -> SubscriptionV {
        SubscriptionV { conn: self.conn, queries: self.queries@ }
    }
}

/// One outbound replication event: a change record delivered to one
/// connection.
pub struct ReplEvent {
    pub conn: Identity,
    pub change: Change,
}

#[verifier::ext_equal]
pub struct ReplEventV {
    pub conn: Identity,
    pub change: ChangeV,
}

impl View for ReplEvent {
    type V = ReplEventV;

    open spec fn view(&self) -> ReplEventV {
        ReplEventV { conn: self.conn, change: self.change@ }
    }
}

/// The table a row belongs to.
pub open spec fn table_of(r: RowV) -> TableId {
    match r {
        RowV::UserRow(_) => TableId::Users,
        RowV::CredentialRow(_) => TableId::Credentials,
        RowV::MessageRow(_) => TableId::Messages,
        RowV::RequestRow(_) => TableId::Requests,
        RowV::StagingRow(_) => TableId::Stagings,
        RowV::FileRow(_) => TableId::Files,
        RowV::RoomRow(_) => TableId::Rooms,
        RowV::PacketRow(_) => TableId::Packets,
    }
}

/// The row a change is filtered on: the new row for inserts and
/// updates, the old row for deletes.
pub open spec fn change_row(c: ChangeV) -> RowV {
    match c {
        ChangeV::Inserted(r) => r,
        ChangeV::Updated(_, r) => r,
        ChangeV::Deleted(r) => r,
    }
}

/// The per-row visibility filter, parameterized by the requesting
/// connection. Credential and staging rows are private and visible
/// to nobody; a request row only to the connection that owns it; a
/// voice packet only to connections whose account is a member of the
/// packet's room; user, message, file and room rows to everyone.
pub open spec fn row_visible_to(r: RowV, conn: Identity, m: DbModel) -> bool {
    match r {
        RowV::UserRow(_) => true,
        RowV::MessageRow(_) => true,
        RowV::FileRow(_) => true,
        RowV::RoomRow(_) => true,
        RowV::RequestRow(q) => q.sender == conn,
        RowV::PacketRow(p) => has_cred_conn(m.credentials, conn) && has_room_id(m.rooms, p.room_id)
            && m.rooms[room_id_idx(m.rooms, p.room_id)].users.contains(
            m.credentials[cred_conn_idx(m.credentials, conn)].user_id,
        ),
        RowV::CredentialRow(_) => false,
        RowV::StagingRow(_) => false,
    }
}

/// Whether one query matches a row.
pub open spec fn query_matches(q: Query, r: RowV) -> bool {
    match q {
        Query::AllOf(t) => table_of(r) == t,
        Query::FileById(fid) => match r {
            RowV::FileRow(f) => f.id == fid,
            _ => false,
        },
    }
}

/// Whether a subscription is shown a change: some registered query
/// matches the change's row, and the row is visible to the
/// subscribed connection.
pub open spec fn sub_wants(sub: SubscriptionV, c: ChangeV, m: DbModel) -> bool {
    (exists|i: int| 0 <= i < sub.queries.len() && query_matches(#[trigger] sub.queries[i], change_row(c)))
        && row_visible_to(change_row(c), sub.conn, m)
}

/// The events one change record produces, one per subscription that
/// wants it, in subscription order.
pub open spec fn events_for_change(c: ChangeV, subs: Seq<SubscriptionV>, m: DbModel) -> Seq<
    ReplEventV,
>
    decreases subs.len(),
{
    if subs.len() == 0 {
        Seq::empty()
    } else {
        let head: Seq<ReplEventV> = if sub_wants(subs[0], c, m) {
            seq![ReplEventV { conn: subs[0].conn, change: c }]
        } else {
            Seq::empty()
        };
        head + events_for_change(c, subs.drop_first(), m)
    }
}

/// The whole outbound stream for a batch of committed changes: the
/// changes in commit order, each fanned out to the subscriptions
/// that want it.
pub open spec fn replicate_spec(
    changes: Seq<ChangeV>,
    subs: Seq<SubscriptionV>,
    m: DbModel,
) -> Seq<ReplEventV>
    decreases changes.len(),
{
    if changes.len() == 0 {
        Seq::empty()
    } else {
        events_for_change(changes[0], subs, m) + replicate_spec(changes.drop_first(), subs, m)
    }
}

proof fn lemma_events_for_change_snoc(
    c: ChangeV,
    subs: Seq<SubscriptionV>,
    sub: SubscriptionV,
    m: DbModel,
)
    ensures
        events_for_change(c, subs.push(sub), m) == events_for_change(c, subs, m) + (if sub_wants(
            sub,
            c,
            m,
        ) {
            seq![ReplEventV { conn: sub.conn, change: c }]
        } else {
            Seq::<ReplEventV>::empty()
        }),
    decreases subs.len(),
{
    let tail: Seq<ReplEventV> = if sub_wants(sub, c, m) {
        seq![ReplEventV { conn: sub.conn, change: c }]
    } else {
        Seq::empty()
    };
    if subs.len() == 0 {
        assert(subs.push(sub)[0] == sub);
        assert(subs.push(sub).drop_first() =~= subs);
        assert(events_for_change(c, subs.push(sub), m) =~= events_for_change(c, subs, m) + tail);
    } else {
        assert(subs.push(sub)[0] == subs[0]);
        assert(subs.push(sub).drop_first() =~= subs.drop_first().push(sub));
        lemma_events_for_change_snoc(c, subs.drop_first(), sub, m);
        let head: Seq<ReplEventV> = if sub_wants(subs[0], c, m) {
            seq![ReplEventV { conn: subs[0].conn, change: c }]
        } else {
            Seq::empty()
        };
        assert(events_for_change(c, subs.push(sub), m) == head + (events_for_change(
            c,
            subs.drop_first(),
            m,
        ) + tail));
        assert(head + (events_for_change(c, subs.drop_first(), m) + tail) =~= (head
            + events_for_change(c, subs.drop_first(), m)) + tail);
    }
}

proof fn lemma_replicate_spec_snoc(
    changes: Seq<ChangeV>,
    c: ChangeV,
    subs: Seq<SubscriptionV>,
    m: DbModel,
)
    ensures
        replicate_spec(changes.push(c), subs, m) == replicate_spec(changes, subs, m)
            + events_for_change(c, subs, m),
    decreases changes.len(),
{
    if changes.len() == 0 {
        assert(changes.push(c)[0] == c);
        assert(changes.push(c).drop_first() =~= changes);
        assert(replicate_spec(changes.push(c), subs, m) =~= replicate_spec(changes, subs, m)
            + events_for_change(c, subs, m));
    } else {
        assert(changes.push(c)[0] == changes[0]);
        assert(changes.push(c).drop_first() =~= changes.drop_first().push(c));
        lemma_replicate_spec_snoc(changes.drop_first(), c, subs, m);
        let head = events_for_change(changes[0], subs, m);
        assert(replicate_spec(changes.push(c), subs, m) == head + (replicate_spec(
            changes.drop_first(),
            subs,
            m,
        ) + events_for_change(c, subs, m)));
        assert(head + (replicate_spec(changes.drop_first(), subs, m) + events_for_change(
            c,
            subs,
            m,
        )) =~= (head + replicate_spec(changes.drop_first(), subs, m)) + events_for_change(
            c,
            subs,
            m,
        ));
    }
}

/// The table a row belongs to.
pub fn table_of_row(r: &Row) -> (t: TableId)
    ensures
        t == table_of(r@),
{
    match r {
        Row::UserRow(_) => TableId::Users,
        Row::CredentialRow(_) => TableId::Credentials,
        Row::MessageRow(_) => TableId::Messages,
        Row::RequestRow(_) => TableId::Requests,
        Row::StagingRow(_) => TableId::Stagings,
        Row::FileRow(_) => TableId::Files,
        Row::RoomRow(_) => TableId::Rooms,
        Row::PacketRow(_) => TableId::Packets,
    }
}

fn change_row_ref(c: &Change) -> (r: &Row)
    ensures
        r@ == change_row(c@),
{
    match c {
        Change::Inserted(r) => r,
        Change::Updated(_, r) => r,
        Change::Deleted(r) => r,
    }
}

/// Evaluates the visibility filter of one row for one connection.
/// The filter is parameterized by the requesting identity and must
/// be re-evaluated per connection; it cannot be shared between them.
pub fn row_visible(db: &ChatDb, r: &Row, conn: Identity) -> (v: bool)
    requires
        db@.wf(),
    ensures
        v == row_visible_to(r@, conn, db@),
{
    match r {
        Row::UserRow(_) => true,
        Row::MessageRow(_) => true,
        Row::FileRow(_) => true,
        Row::RoomRow(_) => true,
        Row::RequestRow(q) => q.sender == conn,
        Row::CredentialRow(_) => false,
        Row::StagingRow(_) => false,
        Row::PacketRow(p) => {
            let ci = match find_credentials_by_conn(&db.credentials, conn) {
                None => {
                    proof {
                        if has_cred_conn(db@.credentials, conn) {
                            let k = cred_conn_idx(db@.credentials, conn);
                            assert(db.credentials@[k].connections@.contains(conn));
                        }
                    }
                    return false;
                }
                Some(ci) => {
                    proof {
                        lemma_cred_conn_at(db@.credentials, ci as int, conn);
                    }
                    ci
                }
            };
            let ri = match find_room_by_id(&db.rooms, p.room_id) {
                None => {
                    proof {
                        if has_room_id(db@.rooms, p.room_id) {
                            let k = room_id_idx(db@.rooms, p.room_id);
                            assert(db.rooms@[k].id == p.room_id);
                        }
                    }
                    return false;
                }
                Some(ri) => {
                    proof {
                        lemma_room_id_at(db@.rooms, ri as int);
                    }
                    ri
                }
            };
            contains_u32(&db.rooms[ri].users, db.credentials[ci].user_id)
        }
    }
}

/// Whether one query matches a row.
pub fn query_matches_row(q: &Query, r: &Row) -> (v: bool)
    ensures
        v == query_matches(*q, r@),
{
    match q {
        Query::AllOf(t) => {
            let rt = table_of_row(r);
            rt == *t
        }
        Query::FileById(fid) => match r {
            Row::FileRow(f) => f.id == *fid,
            _ => false,
        },
    }
}

/// Whether a subscription is shown a change.
pub fn wants(db: &ChatDb, sub: &Subscription, c: &Change) -> (v: bool)
    requires
        db@.wf(),
    ensures
        v == sub_wants(sub@, c@, db@),
{
    let r = change_row_ref(c);
    let mut i: usize = 0;
    let mut matched = false;
    while i < sub.queries.len()
        invariant
            i <= sub.queries.len(),
            matched ==> exists|k: int|
                0 <= k < sub@.queries.len() && query_matches(
                    #[trigger] sub@.queries[k],
                    change_row(c@),
                ),
            !matched ==> forall|k: int|
                0 <= k < i ==> !query_matches(#[trigger] sub@.queries[k], change_row(c@)),
            r@ == change_row(c@),
        decreases sub.queries.len() - i,
    {
        if !matched {
            if query_matches_row(&sub.queries[i], r) {
                proof {
                    assert(query_matches(sub@.queries[i as int], change_row(c@)));
                }
                matched = true;
            }
        }
        i += 1;
    }
    if !matched {
        return false;
    }
    row_visible(db, r, sub.conn)
}

/// Computes the outbound event stream for a batch of committed
/// changes: every change, in commit order, delivered to exactly the
/// subscriptions whose queries match it and whose connection the row
/// is visible to.
pub fn replicate(db: &ChatDb, changes: &Vec<Change>, subs: &Vec<Subscription>) -> (out: Vec<
    ReplEvent,
>)
    requires
        db@.wf(),
    ensures
        out@.map_values(|e: ReplEvent| e@) == replicate_spec(
            changes@.map_values(|c: Change| c@),
            subs@.map_values(|s: Subscription| s@),
            db@,
        ),
{
    let ghost changesv = changes@.map_values(|c: Change| c@);
    let ghost subsv = subs@.map_values(|s: Subscription| s@);
    let mut out: Vec<ReplEvent> = Vec::new();
    let mut i: usize = 0;
    proof {
        assert(changesv.subrange(0, 0) =~= Seq::empty());
        assert(out@.map_values(|e: ReplEvent| e@) =~= replicate_spec(
            changesv.subrange(0, 0),
            subsv,
            db@,
        ));
    }
    while i < changes.len()
        invariant
            db@.wf(),
            i <= changes.len(),
            changesv == changes@.map_values(|c: Change| c@),
            subsv == subs@.map_values(|s: Subscription| s@),
            out@.map_values(|e: ReplEvent| e@) == replicate_spec(
                changesv.subrange(0, i as int),
                subsv,
                db@,
            ),
        decreases changes.len() - i,
    {
        let c = &changes[i];
        let mut j: usize = 0;
        proof {
            assert(subsv.subrange(0, 0) =~= Seq::empty());
            assert(events_for_change(c@, subsv.subrange(0, 0), db@) =~= Seq::<ReplEventV>::empty());
        }
        while j < subs.len()
            invariant
                db@.wf(),
                j <= subs.len(),
                i < changes.len(),
                changesv == changes@.map_values(|c0: Change| c0@),
                subsv == subs@.map_values(|s: Subscription| s@),
                c == &changes[i as int],
                out@.map_values(|e: ReplEvent| e@) == replicate_spec(
                    changesv.subrange(0, i as int),
                    subsv,
                    db@,
                ) + events_for_change(c@, subsv.subrange(0, j as int), db@),
            decreases subs.len() - j,
        {
            let ghost pre = subsv.subrange(0, j as int);
            let ghost out0 = out@.map_values(|e: ReplEvent| e@);
            let w = wants(db, &subs[j], c);
            if w {
                let ev = ReplEvent { conn: subs[j].conn, change: dup_change(c) };
                let ghost evv = ev@;
                out.push(ev);
                proof {
                    assert(evv == ReplEventV { conn: subsv[j as int].conn, change: c@ });
                    assert(out@.map_values(|e: ReplEvent| e@) =~= out0.push(evv));
                }
            }
            proof {
                assert(subsv.subrange(0, j + 1 as int) =~= pre.push(subsv[j as int]));
                lemma_events_for_change_snoc(c@, pre, subsv[j as int], db@);
                assert(sub_wants(subsv[j as int], c@, db@) == w);
                assert(out@.map_values(|e: ReplEvent| e@) =~= replicate_spec(
                    changesv.subrange(0, i as int),
                    subsv,
                    db@,
                ) + events_for_change(c@, subsv.subrange(0, j + 1 as int), db@));
            }
            j += 1;
        }
        proof {
            assert(subsv.subrange(0, subsv.len() as int) =~= subsv);
            let pre = changesv.subrange(0, i as int);
            assert(changesv.subrange(0, i + 1 as int) =~= pre.push(changesv[i as int]));
            lemma_replicate_spec_snoc(pre, changesv[i as int], subsv, db@);
        }
        i += 1;
    }
    proof {
        assert(changesv.subrange(0, changesv.len() as int) =~= changesv);
    }
    out
}

/// Whether a subscription already holds the point query for file
/// `id`.
pub open spec fn has_file_query(qs: Seq<Query>, id: u32) -> bool {
    exists|i: int| 0 <= i < qs.len() && #[trigger] qs[i] == Query::FileById(id)
}

/// Registers an ad-hoc point query for one file: it runs against
/// future changes until cancelled. A second registration for the
/// same file is refused, mirroring a download already in progress.
pub fn register_file_query(sub: &mut Subscription, id: u32) -> (added: bool)
    ensures
        added == !has_file_query(old(sub)@.queries, id),
        final(sub)@.conn == old(sub)@.conn,
        final(sub)@.queries == if added {
            old(sub)@.queries.push(Query::FileById(id))
        } else {
            old(sub)@.queries
        },
{
    let mut i: usize = 0;
    while i < sub.queries.len()
        invariant
            i <= sub.queries.len(),
            forall|k: int| 0 <= k < i ==> (#[trigger] sub@.queries[k]) != Query::FileById(id),
            sub@ == old(sub)@,
        decreases sub.queries.len() - i,
    {
        match sub.queries[i] {
            Query::FileById(f) => {
                if f == id {
                    proof {
                        assert(sub@.queries[i as int] == Query::FileById(id));
                    }
                    return false;
                }
            }
            Query::AllOf(_) => {}
        }
        i += 1;
    }
    proof {
        if has_file_query(sub@.queries, id) {
            let k = choose|k: int|
                0 <= k < sub@.queries.len() && #[trigger] sub@.queries[k] == Query::FileById(id);
            assert(sub@.queries[k] == Query::FileById(id));
        }
    }
    sub.queries.push(Query::FileById(id));
    true
}

/// The queries with every point query for file `id` dropped.
pub open spec fn without_file_query(qs: Seq<Query>, id: u32) -> Seq<Query> {
    qs.filter(|q: Query| q != Query::FileById(id))
}

/// Cancels the point query for one file, once its row has arrived:
/// later changes to it are no longer mirrored through that query.
pub fn cancel_file_query(sub: &mut Subscription, id: u32)
    ensures
        final(sub)@.conn == old(sub)@.conn,
        final(sub)@.queries == without_file_query(old(sub)@.queries, id),
{
    let mut out: Vec<Query> = Vec::new();
    let mut i: usize = 0;
    while i < sub.queries.len()
        invariant
            i <= sub.queries.len(),
            sub@ == old(sub)@,
            out@ =~= without_file_query(sub@.queries.subrange(0, i as int), id),
        decreases sub.queries.len() - i,
    {
        proof {
            let pre = sub@.queries.subrange(0, i as int);
            assert(sub@.queries.subrange(0, i + 1 as int).drop_last() =~= pre);
            reveal_with_fuel(Seq::filter, 2);
        }
        let keep = match sub.queries[i] {
            Query::FileById(f) => f != id,
            Query::AllOf(_) => true,
        };
        if keep {
            out.push(sub.queries[i]);
        }
        i += 1;
    }
    proof {
        assert(sub@.queries.subrange(0, sub@.queries.len() as int) =~= sub@.queries);
    }
    sub.queries = out;
}

/// Law: rows of the private tables are never replicated. A change
/// whose row is a credential or a staging buffer produces no event,
/// whatever the subscriptions are.
pub proof fn lemma_private_rows_never_replicated(
    c: ChangeV,
    subs: Seq<SubscriptionV>,
    m: DbModel,
)
    requires
        change_row(c) is CredentialRow || change_row(c) is StagingRow,
    ensures
        events_for_change(c, subs, m) == Seq::<ReplEventV>::empty(),
    decreases subs.len(),
{
    if subs.len() > 0 {
        lemma_private_rows_never_replicated(c, subs.drop_first(), m);
        assert(events_for_change(c, subs, m) =~= Seq::<ReplEventV>::empty());
    }
}

/// Law: no event reaches a connection that did not ask for it. Every
/// event a change fans out to belongs to some subscription whose
/// query matches the change and to whose connection the row is
/// visible.
pub proof fn lemma_events_for_change_sound(c: ChangeV, subs: Seq<SubscriptionV>, m: DbModel)
    ensures
        forall|k: int|
            0 <= k < events_for_change(c, subs, m).len() ==> {
                let e = #[trigger] events_for_change(c, subs, m)[k];
                &&& e.change == c
                &&& exists|si: int|
                    0 <= si < subs.len() && (#[trigger] subs[si]).conn == e.conn && sub_wants(
                        subs[si],
                        c,
                        m,
                    )
            },
    decreases subs.len(),
{
    if subs.len() > 0 {
        lemma_events_for_change_sound(c, subs.drop_first(), m);
        let evs = events_for_change(c, subs, m);
        let rest = events_for_change(c, subs.drop_first(), m);
        let d = subs.drop_first();
        assert forall|k: int| 0 <= k < evs.len() implies {
            let e = #[trigger] evs[k];
            &&& e.change == c
            &&& exists|si: int|
                0 <= si < subs.len() && (#[trigger] subs[si]).conn == e.conn && sub_wants(
                    subs[si],
                    c,
                    m,
                )
        } by {
            let head_len: int = if sub_wants(subs[0], c, m) {
                1int
            } else {
                0int
            };
            if k < head_len {
                assert(evs[k].conn == subs[0].conn && sub_wants(subs[0], c, m));
            } else {
                assert(evs[k] == rest[k - head_len]);
                let si0 = choose|si: int|
                    0 <= si < d.len() && (#[trigger] d[si]).conn == rest[k - head_len].conn
                        && sub_wants(d[si], c, m);
                assert(subs[si0 + 1] == d[si0]);
            }
        }
    }
}

/// Law: replication soundness over a whole commit batch. Every event
/// in the outbound stream carries one of the committed changes and
/// goes to a subscription that matches it and may see it; nothing is
/// ever delivered unasked or against the visibility filter.
pub proof fn lemma_replicate_spec_sound(
    changes: Seq<ChangeV>,
    subs: Seq<SubscriptionV>,
    m: DbModel,
)
    ensures
        forall|k: int|
            0 <= k < replicate_spec(changes, subs, m).len() ==> {
                let e = #[trigger] replicate_spec(changes, subs, m)[k];
                &&& changes.contains(e.change)
                &&& exists|si: int|
                    0 <= si < subs.len() && (#[trigger] subs[si]).conn == e.conn && sub_wants(
                        subs[si],
                        e.change,
                        m,
                    )
            },
    decreases changes.len(),
{
    if changes.len() > 0 {
        lemma_replicate_spec_sound(changes.drop_first(), subs, m);
        lemma_events_for_change_sound(changes[0], subs, m);
        let out = replicate_spec(changes, subs, m);
        let head = events_for_change(changes[0], subs, m);
        let rest = replicate_spec(changes.drop_first(), subs, m);
        let d = changes.drop_first();
        assert forall|k: int| 0 <= k < out.len() implies {
            let e = #[trigger] out[k];
            &&& changes.contains(e.change)
            &&& exists|si: int|
                0 <= si < subs.len() && (#[trigger] subs[si]).conn == e.conn && sub_wants(
                    subs[si],
                    e.change,
                    m,
                )
        } by {
            if k < head.len() {
                assert(out[k] == head[k]);
                assert(head[k].change == changes[0]);
                assert(changes[0] == changes[0int]);
                assert(changes.contains(changes[0]));
            } else {
                assert(out[k] == rest[k - head.len()]);
                assert(d.contains(rest[k - head.len()].change));
                let ci = choose|ci: int| 0 <= ci < d.len() && d[ci] == rest[k - head.len()].change;
                assert(changes[ci + 1] == d[ci]);
                assert(changes.contains(rest[k - head.len()].change));
            }
        }
    }
}

/// Law: room isolation. A connection whose account is not a member
/// of a voice packet's room — or that is not even bound to an
/// account — receives no event for that packet, whatever it has
/// subscribed to.
pub proof fn lemma_room_isolation(
    m: DbModel,
    c: ChangeV,
    subs: Seq<SubscriptionV>,
    conn: Identity,
)
    requires
        change_row(c) is PacketRow,
        !row_visible_to(change_row(c), conn, m),
    ensures
        forall|k: int|
            0 <= k < events_for_change(c, subs, m).len() ==> (#[trigger] events_for_change(
                c,
                subs,
                m,
            )[k]).conn != conn,
    decreases subs.len(),
{
    if subs.len() > 0 {
        lemma_room_isolation(m, c, subs.drop_first(), conn);
        let evs = events_for_change(c, subs, m);
        let rest = events_for_change(c, subs.drop_first(), m);
        assert forall|k: int| 0 <= k < evs.len() implies (#[trigger] evs[k]).conn != conn by {
            if sub_wants(subs[0], c, m) {
                if k == 0 {
                    assert(subs[0].conn != conn);
                } else {
                    assert(evs[k] == rest[k - 1]);
                }
            } else {
                assert(evs[k] == rest[k]);
            }
        }
    }
}

} // verus!
