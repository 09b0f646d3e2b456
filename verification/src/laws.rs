//! Protocol-level laws, proved over the dispatcher's and session's
//! postcondition predicates: what holds of any run of the server, not just
//! of one call.

use vstd::prelude::*;
use crate::protocol::Channel;
use crate::protocol::ServerMessageView;
use crate::protocol::channel_for;
use crate::roster::UserView;
use crate::roster::ids_of;
use crate::roster::lemma_map_of_dom;
use crate::roster::lemma_map_of_push;
use crate::roster::map_of;
use crate::roster::roster_wf;
use crate::server::Condition;
use crate::server::OutboundView;
use crate::server::broadcast_to;
use crate::server::chat_post;
use crate::server::join_post;
use crate::server::remove_post;
use crate::session::DisplayEventView;
use crate::session::SessionView;
use crate::session::apply_post;

verus! {

/// One request the server can process: a join, a chat, or a removal — the
/// latter standing both for an explicit disconnect and for a transport-level
/// connection loss, which go through the same procedure.
pub enum ServerOp {
    Join { id: u64, name: Seq<char> },
    Chat { id: u64, text: Seq<char> },
    Remove { id: u64 },
}

/// One dispatcher step: processing `op` turned roster `r0` into `r1` and
/// produced the outbound messages `out`, as the dispatcher's contracts say.
pub open spec fn server_step(
    r0: Seq<UserView>,
    op: ServerOp,
    r1: Seq<UserView>,
    out: Seq<OutboundView>,
) -> bool {
    match op {
        ServerOp::Join { id, name } => join_post(r0, id, name, r1, out),
        ServerOp::Chat { id, text } => r1 == r0 && chat_post(r0, id, text, out),
        ServerOp::Remove { id } => remove_post(r0, id, r1, out),
    }
}

/// How one operation drives the roster mapping: a join from a new connection
/// inserts it, a duplicate join changes nothing, a chat changes nothing, a
/// removal removes.
pub open spec fn roster_map_after(m: Map<u64, Seq<char>>, op: ServerOp) -> Map<u64, Seq<char>> {
    match op {
        ServerOp::Join { id, name } => if m.contains_key(id) {
            m
        } else {
            m.insert(id, name)
        },
        ServerOp::Chat { .. } => m,
        ServerOp::Remove { id } => m.remove(id),
    }
}

/// The roster mapping after a whole sequence of operations.
pub open spec fn roster_map_after_ops(m: Map<u64, Seq<char>>, ops: Seq<ServerOp>) -> Map<
    u64,
    Seq<char>,
>
    decreases ops.len(),
{
    if ops.len() == 0 {
        m
    } else {
        roster_map_after(roster_map_after_ops(m, ops.drop_last()), ops.last())
    }
}

/// The set of connections that have joined and not since been removed.
pub open spec fn live_after(ids: Set<u64>, op: ServerOp) -> Set<u64> {
    match op {
        ServerOp::Join { id, .. } => ids.insert(id),
        ServerOp::Chat { .. } => ids,
        ServerOp::Remove { id } => ids.remove(id),
    }
}

/// The live set after a whole sequence of operations.
pub open spec fn live_after_ops(ids: Set<u64>, ops: Seq<ServerOp>) -> Set<u64>
    decreases ops.len(),
{
    if ops.len() == 0 {
        ids
    } else {
        live_after(live_after_ops(ids, ops.drop_last()), ops.last())
    }
}

/// Each dispatcher step keeps the roster well formed.
pub proof fn lemma_step_wf(r0: Seq<UserView>, op: ServerOp, r1: Seq<UserView>, out: Seq<OutboundView>)
    requires
        roster_wf(r0),
        server_step(r0, op, r1, out),
    ensures
        roster_wf(r1),
{
    match op {
        ServerOp::Join { id, name } => {
            if !map_of(r0).contains_key(id) {
                lemma_map_of_push(r0, UserView { id: id, name: name });
            }
        },
        ServerOp::Chat { .. } => {},
        ServerOp::Remove { .. } => {},
    }
}

/// Each dispatcher step drives the roster mapping exactly as
/// `roster_map_after` says.
pub proof fn lemma_step_tracks_map(
    r0: Seq<UserView>,
    op: ServerOp,
    r1: Seq<UserView>,
    out: Seq<OutboundView>,
)
    requires
        roster_wf(r0),
        server_step(r0, op, r1, out),
    ensures
        map_of(r1) == roster_map_after(map_of(r0), op),
{
    match op {
        ServerOp::Join { id, name } => {
            if !map_of(r0).contains_key(id) {
                lemma_map_of_push(r0, UserView { id: id, name: name });
            }
        },
        ServerOp::Chat { .. } => {},
        ServerOp::Remove { .. } => {},
    }
}

/// Every message a dispatcher step emits is addressed to a member of the
/// roster as it stands after the step.
pub proof fn lemma_step_targets_members(
    r0: Seq<UserView>,
    op: ServerOp,
    r1: Seq<UserView>,
    out: Seq<OutboundView>,
)
    requires
        roster_wf(r0),
        server_step(r0, op, r1, out),
    ensures
        forall|i: int| 0 <= i < out.len() ==> map_of(r1).contains_key(#[trigger] out[i].to),
{
    lemma_map_of_dom(r1);
    match op {
        ServerOp::Join { id, name } => {
            if !map_of(r0).contains_key(id) {
                lemma_map_of_push(r0, UserView { id: id, name: name });
                assert forall|i: int| 0 <= i < out.len() implies map_of(r1).contains_key(
                    #[trigger] out[i].to,
                ) by {
                    if i == 0 {
                        assert(ids_of(r1)[ids_of(r1).len() - 1] == id);
                        assert(ids_of(r1).contains(id));
                    } else {
                        let bc = broadcast_to(
                            ids_of(r1),
                            Channel::OrderedReliable,
                            ServerMessageView::ClientConnected { client_id: id, username: name },
                        );
                        assert(out[i] == bc[i - 1]);
                        assert(out[i].to == ids_of(r1)[i - 1]);
                        assert(ids_of(r1).contains(out[i].to));
                    }
                }
            }
        },
        ServerOp::Chat { id, text } => {
            if map_of(r0).contains_key(id) {
                assert forall|i: int| 0 <= i < out.len() implies map_of(r1).contains_key(
                    #[trigger] out[i].to,
                ) by {
                    assert(out[i].to == ids_of(r1)[i]);
                    assert(ids_of(r1).contains(out[i].to));
                }
            }
        },
        ServerOp::Remove { id } => {
            if map_of(r0).contains_key(id) {
                assert forall|i: int| 0 <= i < out.len() implies map_of(r1).contains_key(
                    #[trigger] out[i].to,
                ) by {
                    assert(out[i].to == ids_of(r1)[i]);
                    assert(ids_of(r1).contains(out[i].to));
                }
            }
        },
    }
}

/// Law: every message the dispatcher emits travels on the channel class the
/// wire protocol requires for its kind — chat broadcasts unordered-reliable,
/// everything else ordered-reliable.
pub proof fn lemma_channels_follow_protocol(
    r0: Seq<UserView>,
    op: ServerOp,
    r1: Seq<UserView>,
    out: Seq<OutboundView>,
)
    requires
        server_step(r0, op, r1, out),
    ensures
        forall|i: int| 0 <= i < out.len() ==> (#[trigger] out[i]).channel
            == channel_for(out[i].message),
{
    match op {
        ServerOp::Join { id, name } => {
            if !map_of(r0).contains_key(id) {
                let bc = broadcast_to(
                    ids_of(r1),
                    Channel::OrderedReliable,
                    ServerMessageView::ClientConnected { client_id: id, username: name },
                );
                assert forall|i: int| 0 <= i < out.len() implies (#[trigger] out[i]).channel
                    == channel_for(out[i].message) by {
                    if i > 0 {
                        assert(out[i] == bc[i - 1]);
                    }
                }
            }
        },
        ServerOp::Chat { id, text } => {
            if map_of(r0).contains_key(id) {
                assert forall|i: int| 0 <= i < out.len() implies (#[trigger] out[i]).channel
                    == channel_for(out[i].message) by {
                    assert(out[i] == broadcast_to(
                        ids_of(r0),
                        Channel::UnorderedReliable,
                        ServerMessageView::ChatMessage { client_id: id, message: text },
                    )[i]);
                }
            }
        },
        ServerOp::Remove { id } => {
            if map_of(r0).contains_key(id) {
                assert forall|i: int| 0 <= i < out.len() implies (#[trigger] out[i]).channel
                    == channel_for(out[i].message) by {
                    assert(out[i] == broadcast_to(
                        ids_of(r1),
                        Channel::OrderedReliable,
                        ServerMessageView::ClientDisconnected { client_id: id },
                    )[i]);
                }
            }
        },
    }
}

/// A chain of dispatcher steps: `rs` are the successive rosters, `ops` the
/// operations, `outs` what each step emitted.
pub open spec fn server_chain(
    rs: Seq<Seq<UserView>>,
    ops: Seq<ServerOp>,
    outs: Seq<Seq<OutboundView>>,
) -> bool {
    ops.len() == outs.len()
    && rs.len() == ops.len() + 1
    && forall|i: int| 0 <= i < ops.len() ==> server_step(rs[i], #[trigger] ops[i], rs[i + 1], outs[i])
}

/// Along a chain from a well-formed start, every roster is well formed.
pub proof fn lemma_chain_wf(
    rs: Seq<Seq<UserView>>,
    ops: Seq<ServerOp>,
    outs: Seq<Seq<OutboundView>>,
    j: int,
)
    requires
        server_chain(rs, ops, outs),
        roster_wf(rs[0]),
        0 <= j < rs.len(),
    ensures
        roster_wf(rs[j]),
    decreases j,
{
    if j > 0 {
        lemma_chain_wf(rs, ops, outs, j - 1);
        lemma_step_wf(rs[j - 1], ops[j - 1], rs[j], outs[j - 1]);
    }
}

/// Along a chain, the roster mapping is a pure function of the operations
/// processed so far.
pub proof fn lemma_chain_tracks_ops(
    rs: Seq<Seq<UserView>>,
    ops: Seq<ServerOp>,
    outs: Seq<Seq<OutboundView>>,
    j: int,
)
    requires
        server_chain(rs, ops, outs),
        roster_wf(rs[0]),
        0 <= j < rs.len(),
    ensures
        map_of(rs[j]) == roster_map_after_ops(map_of(rs[0]), ops.subrange(0, j)),
    decreases j,
{
    if j == 0 {
        assert(ops.subrange(0, 0) =~= Seq::<ServerOp>::empty());
    } else {
        lemma_chain_wf(rs, ops, outs, j - 1);
        lemma_chain_tracks_ops(rs, ops, outs, j - 1);
        lemma_step_tracks_map(rs[j - 1], ops[j - 1], rs[j], outs[j - 1]);
        let p = ops.subrange(0, j);
        assert(p.drop_last() =~= ops.subrange(0, j - 1));
        assert(p.last() == ops[j - 1]);
    }
}

/// The live set law, on the pure history: after any operations from an empty
/// roster, the mapping's domain is exactly the set of connections that
/// joined and were not since removed.
pub proof fn lemma_live_set(ops: Seq<ServerOp>)
    ensures
        roster_map_after_ops(Map::<u64, Seq<char>>::empty(), ops).dom()
            =~= live_after_ops(Set::<u64>::empty(), ops),
    decreases ops.len(),
{
    if ops.len() > 0 {
        lemma_live_set(ops.drop_last());
        let m = roster_map_after_ops(Map::<u64, Seq<char>>::empty(), ops.drop_last());
        let l = live_after_ops(Set::<u64>::empty(), ops.drop_last());
        match ops.last() {
            ServerOp::Join { id, .. } => {
                if m.contains_key(id) {
                    assert(m.dom() =~= l.insert(id));
                } else {
                    assert(m.insert(id, ops.last()->Join_name).dom() =~= l.insert(id));
                }
            },
            ServerOp::Chat { .. } => {},
            ServerOp::Remove { id } => {
                assert(m.remove(id).dom() =~= l.remove(id));
            },
        }
    }
}

/// Law: for any sequence of operations processed by the dispatcher from an
/// empty roster, the roster's keys afterwards are exactly the connections
/// that joined and have not since been removed — no duplicates, no ghosts.
pub proof fn lemma_roster_matches_history(
    rs: Seq<Seq<UserView>>,
    ops: Seq<ServerOp>,
    outs: Seq<Seq<OutboundView>>,
    j: int,
)
    requires
        server_chain(rs, ops, outs),
        rs[0] == Seq::<UserView>::empty(),
        0 <= j < rs.len(),
    ensures
        roster_wf(rs[j]),
        map_of(rs[j]).dom() =~= live_after_ops(Set::<u64>::empty(), ops.subrange(0, j)),
{
    assert(roster_wf(rs[0])) by {
        assert(ids_of(rs[0]) =~= Seq::<u64>::empty());
    }
    lemma_chain_wf(rs, ops, outs, j);
    lemma_chain_tracks_ops(rs, ops, outs, j);
    assert(map_of(rs[0]) == Map::<u64, Seq<char>>::empty());
    lemma_live_set(ops.subrange(0, j));
}

/// Law: a join from a connection already in the roster mutates nothing and
/// emits nothing — in particular, no `ClientConnected`.
pub proof fn lemma_duplicate_join_inert(
    r0: Seq<UserView>,
    from: u64,
    name: Seq<char>,
    r1: Seq<UserView>,
    out: Seq<OutboundView>,
)
    requires
        map_of(r0).contains_key(from),
        join_post(r0, from, name, r1, out),
    ensures
        r1 == r0,
        out == Seq::<OutboundView>::empty(),
{
}

/// Law: removal is idempotent. Removing a present connection mutates the
/// roster once and broadcasts `ClientDisconnected` exactly once to each
/// remaining member; removing it again right away — as when an explicit
/// disconnect races a connection-loss notification — changes nothing and
/// sends nothing.
pub proof fn lemma_remove_idempotent(
    r0: Seq<UserView>,
    id: u64,
    r1: Seq<UserView>,
    out1: Seq<OutboundView>,
    r2: Seq<UserView>,
    out2: Seq<OutboundView>,
)
    requires
        roster_wf(r0),
        map_of(r0).contains_key(id),
        remove_post(r0, id, r1, out1),
        remove_post(r1, id, r2, out2),
    ensures
        map_of(r1) == map_of(r0).remove(id),
        out1.len() == r1.len(),
        forall|j: int| 0 <= j < out1.len() ==> (#[trigger] out1[j]).message
            == (ServerMessageView::ClientDisconnected { client_id: id }),
        r2 == r1,
        out2 == Seq::<OutboundView>::empty(),
{
    assert(!map_of(r1).contains_key(id));
}

/// Law: a chat message whose sender is the session itself is never
/// displayed — the client suppresses its own echo.
pub proof fn lemma_no_self_echo(
    s0: SessionView,
    text: Seq<char>,
    s1: SessionView,
    disp: Seq<DisplayEventView>,
    cond: Option<Condition>,
)
    requires
        apply_post(
            s0,
            ServerMessageView::ChatMessage { client_id: s0.self_id, message: text },
            s1,
            disp,
            cond,
        ),
    ensures
        disp == Seq::<DisplayEventView>::empty(),
{
}

/// The messages in `out` addressed to connection `c`, in order.
pub open spec fn messages_to(out: Seq<OutboundView>, c: u64) -> Seq<ServerMessageView> {
    out.filter(|o: OutboundView| o.to == c).map_values(|o: OutboundView| o.message)
}

/// Nothing is addressed to `c` in an empty queue.
proof fn lemma_messages_to_empty(c: u64)
    ensures
        messages_to(Seq::<OutboundView>::empty(), c) == Seq::<ServerMessageView>::empty(),
{
    reveal(Seq::filter);
    assert(messages_to(Seq::<OutboundView>::empty(), c) =~= Seq::<ServerMessageView>::empty());
}

/// Appending one transmission appends its message for its addressee and
/// nothing for anyone else.
proof fn lemma_messages_to_push(out: Seq<OutboundView>, x: OutboundView, c: u64)
    ensures
        messages_to(out.push(x), c) == (if x.to == c {
            messages_to(out, c).push(x.message)
        } else {
            messages_to(out, c)
        }),
{
    reveal(Seq::filter);
    assert(out.push(x).drop_last() =~= out);
    assert(out.push(x).last() == x);
    if x.to == c {
        assert(messages_to(out.push(x), c) =~= messages_to(out, c).push(x.message));
    } else {
        assert(messages_to(out.push(x), c) =~= messages_to(out, c));
    }
}

/// Message extraction distributes over concatenation.
proof fn lemma_messages_to_add(a: Seq<OutboundView>, b: Seq<OutboundView>, c: u64)
    ensures
        messages_to(a + b, c) == messages_to(a, c) + messages_to(b, c),
    decreases b.len(),
{
    if b.len() == 0 {
        assert(a + b =~= a);
        lemma_messages_to_empty(c);
        assert(b =~= Seq::<OutboundView>::empty());
        assert(messages_to(a, c) + messages_to(b, c) =~= messages_to(a, c));
    } else {
        let d = b.drop_last();
        let x = b.last();
        lemma_messages_to_add(a, d, c);
        assert(a + b =~= (a + d).push(x));
        assert(b =~= d.push(x));
        lemma_messages_to_push(a + d, x, c);
        lemma_messages_to_push(d, x, c);
        if x.to == c {
            assert((messages_to(a, c) + messages_to(d, c)).push(x.message)
                =~= messages_to(a, c) + messages_to(d, c).push(x.message));
        }
    }
}

/// If nothing in `out` is addressed to `c`, `c` receives nothing.
proof fn lemma_messages_to_none(out: Seq<OutboundView>, c: u64)
    requires
        forall|i: int| 0 <= i < out.len() ==> (#[trigger] out[i]).to != c,
    ensures
        messages_to(out, c) == Seq::<ServerMessageView>::empty(),
    decreases out.len(),
{
    if out.len() == 0 {
        lemma_messages_to_empty(c);
        assert(out =~= Seq::<OutboundView>::empty());
    } else {
        let d = out.drop_last();
        lemma_messages_to_none(d, c);
        assert(out =~= d.push(out.last()));
        lemma_messages_to_push(d, out.last(), c);
    }
}

/// What one broadcast delivers to `c`: the message once if `c` is among the
/// (pairwise-distinct) targets, nothing otherwise.
proof fn lemma_messages_to_broadcast(
    targets: Seq<u64>,
    channel: Channel,
    m: ServerMessageView,
    c: u64,
)
    requires
        targets.no_duplicates(),
    ensures
        targets.contains(c) ==> messages_to(broadcast_to(targets, channel, m), c) == seq![m],
        !targets.contains(c) ==> messages_to(broadcast_to(targets, channel, m), c)
            == Seq::<ServerMessageView>::empty(),
    decreases targets.len(),
{
    if targets.len() == 0 {
        lemma_messages_to_empty(c);
        assert(broadcast_to(targets, channel, m) =~= Seq::<OutboundView>::empty());
    } else {
        let d = targets.drop_last();
        let t = targets.last();
        assert(d.no_duplicates()) by {
            assert(forall|j: int| 0 <= j < d.len() ==> d[j] == targets[j]);
        }
        lemma_messages_to_broadcast(d, channel, m, c);
        let x = OutboundView { to: t, channel: channel, message: m };
        assert(broadcast_to(targets, channel, m) =~= broadcast_to(d, channel, m).push(x));
        lemma_messages_to_push(broadcast_to(d, channel, m), x, c);
        if t == c {
            assert(!d.contains(c)) by {
                assert forall|j: int| 0 <= j < d.len() implies d[j] != c by {
                    assert(targets[j] == d[j]);
                    assert(targets[j] != targets[targets.len() - 1]);
                }
            }
            assert(messages_to(broadcast_to(targets, channel, m), c)
                =~= Seq::<ServerMessageView>::empty().push(m));
            assert(Seq::<ServerMessageView>::empty().push(m) =~= seq![m]);
            assert(targets.contains(c)) by {
                assert(targets[targets.len() - 1] == c);
            }
        } else {
            if targets.contains(c) {
                let j = choose|j: int| 0 <= j < targets.len() && targets[j] == c;
                assert(d[j] == c);
                assert(d.contains(c));
            } else {
                assert(!d.contains(c)) by {
                    if d.contains(c) {
                        let j = choose|j: int| 0 <= j < d.len() && d[j] == c;
                        assert(targets[j] == c);
                    }
                }
            }
        }
    }
}

/// Law: a connection that is not in the roster receives nothing; and at its
/// own successful join, what it receives is exactly `InitClient` — carrying
/// the snapshot taken strictly after its insertion — followed by its own
/// `ClientConnected`. No other message kind can precede the `InitClient`.
pub proof fn lemma_init_client_first(
    rs: Seq<Seq<UserView>>,
    ops: Seq<ServerOp>,
    outs: Seq<Seq<OutboundView>>,
    c: u64,
    name: Seq<char>,
    k: int,
)
    requires
        server_chain(rs, ops, outs),
        roster_wf(rs[0]),
        0 <= k < ops.len(),
        forall|i: int| 0 <= i <= k ==> !map_of(#[trigger] rs[i]).contains_key(c),
        ops[k] == (ServerOp::Join { id: c, name: name }),
    ensures
        forall|i: int| 0 <= i < k ==> messages_to(#[trigger] outs[i], c)
            == Seq::<ServerMessageView>::empty(),
        messages_to(outs[k], c) == seq![
            ServerMessageView::InitClient { client_id: c, usernames: rs[k + 1] },
            ServerMessageView::ClientConnected { client_id: c, username: name },
        ],
{
    assert forall|i: int| 0 <= i < k implies messages_to(#[trigger] outs[i], c)
        == Seq::<ServerMessageView>::empty() by {
        lemma_chain_wf(rs, ops, outs, i);
        lemma_step_targets_members(rs[i], ops[i], rs[i + 1], outs[i]);
        assert forall|j: int| 0 <= j < outs[i].len() implies (#[trigger] outs[i][j]).to != c by {
            assert(map_of(rs[i + 1]).contains_key(outs[i][j].to));
            assert(!map_of(rs[i + 1]).contains_key(c));
        }
        lemma_messages_to_none(outs[i], c);
    }
    lemma_chain_wf(rs, ops, outs, k);
    let r0 = rs[k];
    let r1 = rs[k + 1];
    let out = outs[k];
    assert(server_step(r0, ops[k], r1, out));
    assert(!map_of(r0).contains_key(c));
    let u = UserView { id: c, name: name };
    lemma_map_of_push(r0, u);
    assert(r1 == r0.push(u));
    let initv = OutboundView {
        to: c,
        channel: Channel::OrderedReliable,
        message: ServerMessageView::InitClient { client_id: c, usernames: r1 },
    };
    let ccv = ServerMessageView::ClientConnected { client_id: c, username: name };
    let bc = broadcast_to(ids_of(r1), Channel::OrderedReliable, ccv);
    assert(out == seq![initv] + bc);
    lemma_messages_to_add(seq![initv], bc, c);
    assert(messages_to(seq![initv], c) == seq![initv.message]) by {
        lemma_messages_to_empty(c);
        assert(seq![initv] =~= Seq::<OutboundView>::empty().push(initv));
        lemma_messages_to_push(Seq::<OutboundView>::empty(), initv, c);
        assert(Seq::<ServerMessageView>::empty().push(initv.message) =~= seq![initv.message]);
    }
    assert(ids_of(r1).contains(c)) by {
        assert(ids_of(r1) == ids_of(r0).push(c));
        assert(ids_of(r1)[ids_of(r1).len() - 1] == c);
    }
    lemma_messages_to_broadcast(ids_of(r1), Channel::OrderedReliable, ccv, c);
    assert(messages_to(out, c) =~= seq![initv.message, ccv]);
}

/// Law: the roster mirror stays consistent. If a client's mirror agrees with
/// the server's roster, and the server processes one operation that does not
/// remove this very client, then the step sends the client at most one
/// roster notification, and applying it (or nothing, when none arrives)
/// leaves the mirror agreeing with the server's new roster.
pub proof fn lemma_mirror_tracks_server(
    r0: Seq<UserView>,
    op: ServerOp,
    r1: Seq<UserView>,
    out: Seq<OutboundView>,
    c: u64,
    s0: SessionView,
    s1: SessionView,
    disp: Seq<DisplayEventView>,
    cond: Option<Condition>,
)
    requires
        roster_wf(r0),
        server_step(r0, op, r1, out),
        map_of(r0).contains_key(c),
        map_of(r1).contains_key(c),
        s0.self_id == c,
        roster_wf(s0.users),
        map_of(s0.users) == map_of(r0),
        (if messages_to(out, c).len() == 0 {
            s1 == s0
        } else {
            apply_post(s0, messages_to(out, c)[0], s1, disp, cond)
        }),
    ensures
        messages_to(out, c).len() <= 1,
        s1.self_id == c,
        roster_wf(s1.users),
        map_of(s1.users) == map_of(r1),
{
    lemma_step_wf(r0, op, r1, out);
    lemma_map_of_dom(r0);
    lemma_map_of_dom(r1);
    match op {
        ServerOp::Join { id, name } => {
            if map_of(r0).contains_key(id) {
                lemma_messages_to_empty(c);
                assert(out =~= Seq::<OutboundView>::empty());
            } else {
                let u = UserView { id: id, name: name };
                lemma_map_of_push(r0, u);
                let initv = OutboundView {
                    to: id,
                    channel: Channel::OrderedReliable,
                    message: ServerMessageView::InitClient { client_id: id, usernames: r1 },
                };
                let ccv = ServerMessageView::ClientConnected { client_id: id, username: name };
                let bc = broadcast_to(ids_of(r1), Channel::OrderedReliable, ccv);
                assert(out == seq![initv] + bc);
                lemma_messages_to_add(seq![initv], bc, c);
                assert(id != c);
                assert(messages_to(seq![initv], c) == Seq::<ServerMessageView>::empty()) by {
                    lemma_messages_to_empty(c);
                    assert(seq![initv] =~= Seq::<OutboundView>::empty().push(initv));
                    lemma_messages_to_push(Seq::<OutboundView>::empty(), initv, c);
                }
                lemma_messages_to_broadcast(ids_of(r1), Channel::OrderedReliable, ccv, c);
                assert(ids_of(r1).contains(c));
                assert(messages_to(out, c) =~= seq![ccv]);
                assert(map_of(s1.users) == map_of(s0.users).insert(id, name));
            }
        },
        ServerOp::Chat { id, text } => {
            if map_of(r0).contains_key(id) {
                let cm = ServerMessageView::ChatMessage { client_id: id, message: text };
                lemma_messages_to_broadcast(ids_of(r0), Channel::UnorderedReliable, cm, c);
                assert(ids_of(r0).contains(c));
                assert(messages_to(out, c) == seq![cm]);
                assert(s1 == s0);
            } else {
                lemma_messages_to_empty(c);
                assert(out =~= Seq::<OutboundView>::empty());
            }
        },
        ServerOp::Remove { id } => {
            if map_of(r0).contains_key(id) {
                let dm = ServerMessageView::ClientDisconnected { client_id: id };
                lemma_messages_to_broadcast(ids_of(r1), Channel::OrderedReliable, dm, c);
                assert(ids_of(r1).contains(c));
                assert(messages_to(out, c) == seq![dm]);
                assert(map_of(s0.users).contains_key(id));
                assert(map_of(s1.users) == map_of(s0.users).remove(id));
            } else {
                lemma_messages_to_empty(c);
                assert(out =~= Seq::<OutboundView>::empty());
            }
        },
    }
}

} // verus!
