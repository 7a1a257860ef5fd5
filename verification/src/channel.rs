//! The room actor: the single owner of all room state.  Every mailbox
//! event is applied atomically by `handle_event`; the caller performs the
//! resulting broadcast (if any) and reports which sinks failed, which are
//! then pruned in one step.

use std::collections::HashMap;

use vstd::prelude::*;
use vstd::map::*;
use vstd::std_specs::hash::group_hash_axioms;
use vstd::seq_lib::group_seq_properties;
use vstd::seq_lib::group_filter_ensures;

use crate::api::{
    opt_egress_view, EgressMessage, EgressView, IngressMessage, IngressView, Join, Part,
    PlayItem, PlayItemView, PlaybackMessage, PlaybackView, RegisterMessage, Skip, StatusMessage,
    UserMessage,
};
use crate::policy::{role_allows, spec_allows, Role};
use crate::users::{spec_role, User, UserId, UserView};

verus! {

broadcast use group_hash_axioms, group_seq_properties, group_filter_ensures;

/// One entry of the room's mailbox.
pub enum ChanMessage {
    /// A new connection was accepted under this identity.
    Introduce(UserId),
    /// A room-originated status line to broadcast.
    Status(String),
    /// An ingress event read from this identity's connection.
    Message(UserId, IngressMessage),
}

/// Mathematical model of a [`ChanMessage`].
pub enum ChanMessageView {
    Introduce(UserId),
    Status(Seq<char>),
    Message(UserId, IngressView),
}

impl View for ChanMessage {
    type V = ChanMessageView;

    open spec fn view(&self) -> ChanMessageView {
        match self {
            ChanMessage::Introduce(uid) => ChanMessageView::Introduce(*uid),
            ChanMessage::Status(body) => ChanMessageView::Status(body@),
            ChanMessage::Message(uid, m) => ChanMessageView::Message(*uid, m@),
        }
    }
}

/// The model of each user's registration state, keyed by identifier.
pub open spec fn users_view(m: Map<u64, User>) -> Map<u64, UserView> {
    m.map_values(|u: User| u@)
}

/// The model of the play queue.
pub open spec fn play_view(s: Seq<PlayItem>) -> Seq<PlayItemView> {
    s.map_values(|p: PlayItem| p@)
}

/// Mathematical model of the room state.
#[verifier::ext_equal]
pub struct ChannelView {
    /// Registration state per identity.
    pub users: Map<u64, UserView>,
    /// The identities that receive broadcasts, in ascending order.
    pub clients: Seq<UserId>,
    /// The DJ waitlist, oldest request first, no duplicates.
    pub dj_queue: Seq<UserId>,
    /// Submitted track requests, oldest first.
    pub play_queue: Seq<PlayItemView>,
}

/// Ascending identifier order: the fan-out order of broadcasts.
pub open spec fn sorted_strict(s: Seq<UserId>) -> bool {
    forall|i: int, j: int| 0 <= i < j < s.len() ==> s[i].0 < s[j].0
}

/// Keeps everything but the given identity.
pub open spec fn others(uid: UserId) -> spec_fn(UserId) -> bool {
    |u: UserId| u != uid
}

/// Keeps only the given identity.
pub open spec fn same_user(uid: UserId) -> spec_fn(UserId) -> bool {
    |u: UserId| u == uid
}

/// Keeps the identities whose sink did not fail.
pub open spec fn alive(dead: Seq<UserId>) -> spec_fn(UserId) -> bool {
    |u: UserId| !dead.contains(u)
}

/// How many queue slots an identity holds.
pub open spec fn occurrences(s: Seq<UserId>, uid: UserId) -> nat {
    s.filter(same_user(uid)).len()
}

impl ChannelView {
    /// Room-state invariant: fan-out order is strictly ascending and the DJ
    /// waitlist holds each identity at most once.
    pub open spec fn wf(self) -> bool {
        &&& sorted_strict(self.clients)
        &&& self.dj_queue.no_duplicates()
    }
}

/// Where a newly accepted identity lands in the fan-out order.  Inserting
/// an identity that is already present leaves the order unchanged (its sink
/// is replaced outside the library).
pub open spec fn insert_sorted(s: Seq<UserId>, uid: UserId) -> Seq<UserId>
    decreases s.len(),
{
    if s.len() == 0 {
        seq![uid]
    } else if s[0].0 < uid.0 {
        seq![s[0]] + insert_sorted(s.drop_first(), uid)
    } else if s[0].0 == uid.0 {
        s
    } else {
        seq![uid] + s
    }
}

/// The `register` transition: an anonymous user becomes a member under the
/// requested nick and a join event is broadcast; a registered user's
/// request is a no-op.
pub open spec fn step_register(ch: ChannelView, uid: UserId, nick: Seq<char>) -> (ChannelView,
    Option<EgressView>) {
    if ch.users[uid.0] is Anonymous {
        (
            ChannelView {
                users: ch.users.insert(
                    uid.0,
                    UserView::Registered {
                        oauth_token: Option::None,
                        nick: nick,
                        role: Role::Member,
                    },
                ),
                ..ch
            },
            Option::Some(EgressView::Join { when: 0, uid, nick }),
        )
    } else {
        (ch, Option::None)
    }
}

/// The `dj_queue` transition: append the identity unless already queued.
pub open spec fn step_dj_queue(ch: ChannelView, uid: UserId) -> ChannelView {
    if ch.dj_queue.contains(uid) {
        ch
    } else {
        ChannelView { dj_queue: ch.dj_queue.push(uid), ..ch }
    }
}

/// The `dj_unqueue` transition: drop every slot of the identity, keeping
/// the relative order of everyone else.
pub open spec fn step_dj_unqueue(ch: ChannelView, uid: UserId) -> ChannelView {
    ChannelView { dj_queue: ch.dj_queue.filter(others(uid)), ..ch }
}

/// One ingress event, gated by user lookup and the policy table: an event
/// from an unknown identity, or one its role denies, is dropped without any
/// state change or broadcast.
pub open spec fn step_msg(ch: ChannelView, uid: UserId, m: IngressView) -> (ChannelView, Option<
    EgressView,
>) {
    if !ch.users.contains_key(uid.0) {
        (ch, Option::None)
    } else if !spec_allows(spec_role(ch.users[uid.0]), m) {
        (ch, Option::None)
    } else {
        match m {
            IngressView::Register { nick } => step_register(ch, uid, nick),
            IngressView::Disconnect => (ch, Option::Some(EgressView::Part { when: 0, uid })),
            IngressView::Skip => (
                ch,
                Option::Some(EgressView::PlaybackMessage(PlaybackView::Skip { uid })),
            ),
            IngressView::Part => (ch, Option::None),
            IngressView::DjQueue => (step_dj_queue(ch, uid), Option::None),
            IngressView::DjUnqueue => (step_dj_unqueue(ch, uid), Option::None),
            IngressView::Message(body) => (
                ch,
                Option::Some(EgressView::UserMessage { when: 0, uid, body }),
            ),
        }
    }
}

/// One mailbox entry.  An introduction adds the identity to the fan-out
/// order and, when it is not yet known, records it as anonymous, so that
/// its first ingress event is judged by the anonymous policy row rather
/// than dropped as unknown.
pub open spec fn step_event(ch: ChannelView, ev: ChanMessageView) -> (ChannelView, Option<
    EgressView,
>) {
    match ev {
        ChanMessageView::Introduce(uid) => (
            ChannelView {
                users: if ch.users.contains_key(uid.0) {
                    ch.users
                } else {
                    ch.users.insert(uid.0, UserView::Anonymous)
                },
                clients: insert_sorted(ch.clients, uid),
                ..ch
            },
            Option::None,
        ),
        ChanMessageView::Status(body) => (
            ch,
            Option::Some(EgressView::StatusMessage { when: 0, body }),
        ),
        ChanMessageView::Message(uid, m) => step_msg(ch, uid, m),
    }
}

/// Pruning after a broadcast pass: the clients whose sinks failed leave the
/// fan-out order in one step; everyone else keeps their position.
pub open spec fn spec_prune(ch: ChannelView, dead: Seq<UserId>) -> ChannelView {
    ChannelView { clients: ch.clients.filter(alive(dead)), ..ch }
}

/// A sequence without duplicates holds any one identity at most once.
proof fn lemma_no_dups_occurrences(s: Seq<UserId>, uid: UserId)
    requires
        s.no_duplicates(),
    ensures
        occurrences(s, uid) <= 1,
{
    lemma_filter_no_dups(s, same_user(uid));
    let f = s.filter(same_user(uid));
    if f.len() >= 2 {
        assert(same_user(uid)(f[0]));
        assert(same_user(uid)(f[1]));
        assert(f[0] != f[1]);
        assert(false);
    }
}

/// The room state after a sequence of ingress events from one sender.
pub open spec fn apply_msgs(ch: ChannelView, uid: UserId, ms: Seq<IngressView>) -> ChannelView
    decreases ms.len(),
{
    if ms.len() == 0 {
        ch
    } else {
        apply_msgs(step_msg(ch, uid, ms[0]).0, uid, ms.drop_first())
    }
}

/// One DJ-queue or DJ-unqueue event touches only the DJ waitlist, never
/// duplicates an entry, and leaves every other identity's slots in their
/// relative order.
proof fn lemma_dj_step(ch: ChannelView, uid: UserId, m: IngressView)
    requires
        ch.dj_queue.no_duplicates(),
        m is DjQueue || m is DjUnqueue,
    ensures
        step_msg(ch, uid, m).0.dj_queue.no_duplicates(),
        step_msg(ch, uid, m).0.dj_queue.filter(others(uid)) == ch.dj_queue.filter(others(uid)),
        step_msg(ch, uid, m).0.users == ch.users,
        step_msg(ch, uid, m).0.clients == ch.clients,
        step_msg(ch, uid, m).0.play_queue == ch.play_queue,
{
    let ch1 = step_msg(ch, uid, m).0;
    if ch1 == ch {
    } else if m is DjQueue {
        assert(!ch.dj_queue.contains(uid));
        let r = ch.dj_queue.push(uid);
        assert forall|i: int, j: int|
            0 <= i < r.len() && 0 <= j < r.len() && i != j implies r[i] != r[j] by {
            if j == r.len() - 1 && i < j {
                if r[i] == uid {
                    assert(ch.dj_queue[i] == uid);
                    assert(ch.dj_queue.contains(uid));
                }
            } else if i == r.len() - 1 && j < i {
                if r[j] == uid {
                    assert(ch.dj_queue[j] == uid);
                    assert(ch.dj_queue.contains(uid));
                }
            }
        }
        ch.dj_queue.lemma_filter_push(uid, others(uid));
    } else {
        lemma_filter_no_dups(ch.dj_queue, others(uid));
        let f = ch.dj_queue.filter(others(uid));
        assert(forall|i: int| 0 <= i < f.len() ==> others(uid)(#[trigger] f[i]));
        lemma_filter_all(f, others(uid));
    }
}

/// For any sequence of DJ-queue and DJ-unqueue events from one sender, the
/// DJ waitlist never holds that sender more than once, and the other
/// identities' slots keep their relative order throughout.
pub proof fn lemma_dj_discipline(ch: ChannelView, uid: UserId, ms: Seq<IngressView>)
    requires
        ch.wf(),
        forall|i: int| 0 <= i < ms.len() ==> (ms[i] is DjQueue || ms[i] is DjUnqueue),
    ensures
        apply_msgs(ch, uid, ms).wf(),
        occurrences(apply_msgs(ch, uid, ms).dj_queue, uid) <= 1,
        apply_msgs(ch, uid, ms).dj_queue.filter(others(uid)) == ch.dj_queue.filter(others(uid)),
    decreases ms.len(),
{
    if ms.len() == 0 {
        lemma_no_dups_occurrences(ch.dj_queue, uid);
    } else {
        assert(ms[0] is DjQueue || ms[0] is DjUnqueue);
        lemma_dj_step(ch, uid, ms[0]);
        let ch1 = step_msg(ch, uid, ms[0]).0;
        assert(ch1.wf());
        let rest = ms.drop_first();
        assert(forall|i: int| 0 <= i < rest.len() ==> (#[trigger] rest[i] is DjQueue || rest[i]
            is DjUnqueue)) by {
            assert(forall|i: int| 0 <= i < rest.len() ==> rest[i] == ms[i + 1]);
        }
        lemma_dj_discipline(ch1, uid, rest);
    }
}

/// Re-sending `register` to an already-registered user produces no state
/// change and no join broadcast.
pub proof fn lemma_register_idempotent(ch: ChannelView, uid: UserId, nick: Seq<char>)
    requires
        ch.users.contains_key(uid.0),
        ch.users[uid.0] is Registered,
    ensures
        step_msg(ch, uid, IngressView::Register { nick }) == (ch, Option::<EgressView>::None),
{
}

/// An ingress event from an identity with no `users` entry has no
/// observable effect: no state change and no broadcast.
pub proof fn lemma_unknown_user_dropped(ch: ChannelView, uid: UserId, m: IngressView)
    requires
        !ch.users.contains_key(uid.0),
    ensures
        step_msg(ch, uid, m) == (ch, Option::<EgressView>::None),
{
}

/// An ingress event whose kind the sender's role denies has no observable
/// effect: no state change and no broadcast.
pub proof fn lemma_denied_dropped(ch: ChannelView, uid: UserId, m: IngressView)
    requires
        ch.users.contains_key(uid.0),
        !spec_allows(spec_role(ch.users[uid.0]), m),
    ensures
        step_msg(ch, uid, m) == (ch, Option::<EgressView>::None),
{
}

/// A broadcast pass accounts for every client: each identity in the
/// fan-out order is attempted (it is among the targets), and afterwards it
/// either remains a client (its sink accepted the push) or was pruned (its
/// sink failed); pruned identities are never targeted again.
pub proof fn lemma_broadcast_accounting(ch: ChannelView, dead: Seq<UserId>)
    ensures
        forall|uid: UserId|
            ch.clients.contains(uid) && !dead.contains(uid) ==> #[trigger] spec_prune(
                ch,
                dead,
            ).clients.contains(uid),
        forall|uid: UserId|
            dead.contains(uid) ==> !(#[trigger] spec_prune(ch, dead).clients.contains(uid)),
        forall|uid: UserId|
            #[trigger] spec_prune(ch, dead).clients.contains(uid) ==> ch.clients.contains(uid),
{
    lemma_filter_members(ch.clients, alive(dead));
    let f = ch.clients.filter(alive(dead));
    assert forall|uid: UserId|
        ch.clients.contains(uid) && !dead.contains(uid) implies #[trigger] spec_prune(
        ch,
        dead,
    ).clients.contains(uid) by {
        let k = choose|k: int| 0 <= k < ch.clients.len() && ch.clients[k] == uid;
        assert(alive(dead)(ch.clients[k]));
        assert(f.contains(ch.clients[k]));
    }
    assert forall|uid: UserId| dead.contains(uid) implies !(#[trigger] spec_prune(
        ch,
        dead,
    ).clients.contains(uid)) by {
        if f.contains(uid) {
            let k = choose|k: int| 0 <= k < f.len() && f[k] == uid;
            assert(alive(dead)(f[k]));
        }
    }
}

/// The room actor's state: who is known, who receives broadcasts, and the
/// two queues.
pub struct Channel {
    users: HashMap<u64, User>,
    clients: Vec<UserId>,
    dj_queue: Vec<UserId>,
    play_queue: Vec<PlayItem>,
}

impl View for Channel {
    type V = ChannelView;

    closed spec fn view(&self) -> ChannelView {
        ChannelView {
            users: users_view(self.users@),
            clients: self.clients@,
            dj_queue: self.dj_queue@,
            play_queue: play_view(self.play_queue@),
        }
    }
}

/// `users_view` keeps the domain and models each entry.
pub proof fn lemma_users_view(m: Map<u64, User>)
    ensures
        forall|k: u64| #[trigger] users_view(m).contains_key(k) <==> m.contains_key(k),
        forall|k: u64| m.contains_key(k) ==> #[trigger] users_view(m)[k] == m[k]@,
{
}

/// Inserting one user commutes with taking the model.
pub proof fn lemma_users_view_insert(m: Map<u64, User>, k: u64, v: User)
    ensures
        users_view(m.insert(k, v)) == users_view(m).insert(k, v@),
{
    lemma_users_view(m);
    lemma_users_view(m.insert(k, v));
    assert(users_view(m.insert(k, v)) =~= users_view(m).insert(k, v@));
}

/// Characterizes `insert_sorted` by the split point of the insertion.
proof fn lemma_insert_sorted_split(s: Seq<UserId>, uid: UserId, i: int)
    requires
        0 <= i <= s.len(),
        forall|k: int| 0 <= k < i ==> s[k].0 < uid.0,
        i < s.len() ==> s[i].0 >= uid.0,
    ensures
        insert_sorted(s, uid) == if i < s.len() && s[i].0 == uid.0 {
            s
        } else {
            s.subrange(0, i) + seq![uid] + s.skip(i)
        },
    decreases i,
{
    if i == 0 {
        if s.len() == 0 {
            assert(insert_sorted(s, uid) =~= s.subrange(0, 0) + seq![uid] + s.skip(0));
        } else if s[0].0 == uid.0 {
        } else {
            assert(s[0].0 > uid.0);
            assert(insert_sorted(s, uid) =~= s.subrange(0, 0) + seq![uid] + s.skip(0));
        }
    } else {
        let t = s.drop_first();
        assert(forall|k: int| 0 <= k < i - 1 ==> #[trigger] t[k].0 < uid.0);
        lemma_insert_sorted_split(t, uid, i - 1);
        assert(s[0].0 < uid.0);
        if i < s.len() && s[i].0 == uid.0 {
            assert(t[i - 1].0 == uid.0);
            assert(insert_sorted(s, uid) == seq![s[0]] + insert_sorted(t, uid));
            assert(seq![s[0]] + t =~= s);
        } else {
            assert(insert_sorted(s, uid) == seq![s[0]] + (t.subrange(0, i - 1) + seq![uid]
                + t.skip(i - 1)));
            assert(seq![s[0]] + (t.subrange(0, i - 1) + seq![uid] + t.skip(i - 1)) =~= s.subrange(
                0,
                i,
            ) + seq![uid] + s.skip(i));
        }
    }
}

/// Inserting keeps the fan-out order ascending, and adds exactly the new
/// identity to the membership.
pub proof fn lemma_insert_sorted_facts(s: Seq<UserId>, uid: UserId)
    requires
        sorted_strict(s),
    ensures
        sorted_strict(insert_sorted(s, uid)),
        forall|x: UserId| #[trigger] insert_sorted(s, uid).contains(x) <==> s.contains(x) || x
            == uid,
    decreases s.len(),
{
    if s.len() == 0 {
        assert forall|x: UserId| #[trigger] insert_sorted(s, uid).contains(x) implies x == uid by {
            let j = choose|j: int| 0 <= j < insert_sorted(s, uid).len() && insert_sorted(s, uid)[j]
                == x;
        }
        assert(insert_sorted(s, uid)[0] == uid);
        assert(insert_sorted(s, uid).contains(uid));
    } else if s[0].0 < uid.0 {
        let t = s.drop_first();
        assert(sorted_strict(t));
        lemma_insert_sorted_facts(t, uid);
        let r = seq![s[0]] + insert_sorted(t, uid);
        assert(insert_sorted(s, uid) == r);
        assert forall|i: int, j: int| 0 <= i < j < r.len() implies r[i].0 < r[j].0 by {
            if i == 0 {
                let y = r[j];
                assert(insert_sorted(t, uid)[j - 1] == y);
                assert(insert_sorted(t, uid).contains(y));
                if y == uid {
                    assert(r[i].0 < y.0);
                } else {
                    let k = choose|k: int| 0 <= k < t.len() && t[k] == y;
                    assert(s[k + 1] == y);
                    assert(r[i].0 < y.0);
                }
            } else {
                assert(insert_sorted(t, uid)[i - 1].0 < insert_sorted(t, uid)[j - 1].0);
            }
        }
        assert forall|x: UserId| #[trigger] r.contains(x) implies s.contains(x) || x == uid by {
            let j = choose|j: int| 0 <= j < r.len() && r[j] == x;
            if j == 0 {
                assert(s[0] == x);
            } else {
                assert(insert_sorted(t, uid).contains(x));
                if x != uid {
                    assert(t.contains(x));
                    let k = choose|k: int| 0 <= k < t.len() && t[k] == x;
                    assert(s[k + 1] == x);
                }
            }
        }
        assert forall|x: UserId| s.contains(x) || x == uid implies #[trigger] r.contains(x) by {
            if s.contains(x) {
                let k = choose|k: int| 0 <= k < s.len() && s[k] == x;
                if k == 0 {
                    assert(r[0] == x);
                } else {
                    assert(t[k - 1] == x);
                    assert(t.contains(x));
                    assert(insert_sorted(t, uid).contains(x));
                    let j = choose|j: int| 0 <= j < insert_sorted(t, uid).len() && insert_sorted(
                        t,
                        uid,
                    )[j] == x;
                    assert(r[j + 1] == x);
                }
            } else {
                assert(insert_sorted(t, uid).contains(uid));
                let j = choose|j: int| 0 <= j < insert_sorted(t, uid).len() && insert_sorted(
                    t,
                    uid,
                )[j] == uid;
                assert(r[j + 1] == uid);
            }
        }
    } else if s[0].0 == uid.0 {
        assert forall|x: UserId| s.contains(x) || x == uid implies #[trigger] s.contains(x) by {
            if x == uid {
                assert(s[0].0 == uid.0);
                assert(s[0] == uid) by {
                    assert(s[0].0 == uid.0);
                }
                assert(s.contains(uid));
            }
        }
    } else {
        let r = seq![uid] + s;
        assert(insert_sorted(s, uid) == r);
        assert forall|i: int, j: int| 0 <= i < j < r.len() implies r[i].0 < r[j].0 by {
            if i == 0 {
                if j == 1 {
                    assert(r[j] == s[0]);
                } else {
                    assert(r[j] == s[j - 1]);
                    assert(s[0].0 < s[j - 1].0);
                }
            }
        }
        assert forall|x: UserId| #[trigger] r.contains(x) implies s.contains(x) || x == uid by {
            let j = choose|j: int| 0 <= j < r.len() && r[j] == x;
            if j > 0 {
                assert(s[j - 1] == x);
            }
        }
        assert forall|x: UserId| s.contains(x) || x == uid implies #[trigger] r.contains(x) by {
            if s.contains(x) {
                let k = choose|k: int| 0 <= k < s.len() && s[k] == x;
                assert(r[k + 1] == x);
            } else {
                assert(r[0] == uid);
            }
        }
    }
}

/// Everything a filter keeps was in the original sequence.
pub proof fn lemma_filter_members(s: Seq<UserId>, pred: spec_fn(UserId) -> bool)
    ensures
        forall|x: UserId| #[trigger] s.filter(pred).contains(x) ==> s.contains(x),
    decreases s.len(),
{
    reveal(Seq::filter);
    if s.len() > 0 {
        let t = s.drop_last();
        lemma_filter_members(t, pred);
        assert forall|x: UserId| #[trigger] s.filter(pred).contains(x) implies s.contains(x) by {
            if pred(s.last()) {
                assert(s.filter(pred) == t.filter(pred).push(s.last()));
                let j = choose|j: int| 0 <= j < s.filter(pred).len() && s.filter(pred)[j] == x;
                if j < t.filter(pred).len() {
                    assert(t.filter(pred)[j] == x);
                    assert(t.filter(pred).contains(x));
                    assert(t.contains(x));
                    let k = choose|k: int| 0 <= k < t.len() && t[k] == x;
                    assert(s[k] == x);
                } else {
                    assert(x == s.last());
                }
            } else {
                assert(s.filter(pred) == t.filter(pred));
                assert(t.contains(x));
                let k = choose|k: int| 0 <= k < t.len() && t[k] == x;
                assert(s[k] == x);
            }
        }
    }
}

/// A filter never introduces a duplicate.
pub proof fn lemma_filter_no_dups(s: Seq<UserId>, pred: spec_fn(UserId) -> bool)
    requires
        s.no_duplicates(),
    ensures
        s.filter(pred).no_duplicates(),
    decreases s.len(),
{
    reveal(Seq::filter);
    if s.len() > 0 {
        let t = s.drop_last();
        assert(t.no_duplicates());
        lemma_filter_no_dups(t, pred);
        lemma_filter_members(t, pred);
        if pred(s.last()) {
            let r = t.filter(pred).push(s.last());
            assert(s.filter(pred) == r);
            assert(!t.contains(s.last())) by {
                if t.contains(s.last()) {
                    let k = choose|k: int| 0 <= k < t.len() && t[k] == s.last();
                    assert(s[k] == s[s.len() - 1]);
                }
            }
            assert(!t.filter(pred).contains(s.last()));
            assert forall|i: int, j: int|
                0 <= i < r.len() && 0 <= j < r.len() && i != j implies r[i] != r[j] by {
                if i < r.len() - 1 && j < r.len() - 1 {
                    assert(t.filter(pred)[i] != t.filter(pred)[j]);
                } else if j == r.len() - 1 && i < j {
                    if r[i] == s.last() {
                        assert(t.filter(pred)[i] == s.last());
                        assert(t.filter(pred).contains(s.last()));
                    }
                } else if i == r.len() - 1 && j < i {
                    if r[j] == s.last() {
                        assert(t.filter(pred)[j] == s.last());
                        assert(t.filter(pred).contains(s.last()));
                    }
                }
            }
        }
    }
}

/// A filter keeps the fan-out order ascending.
pub proof fn lemma_filter_sorted(s: Seq<UserId>, pred: spec_fn(UserId) -> bool)
    requires
        sorted_strict(s),
    ensures
        sorted_strict(s.filter(pred)),
    decreases s.len(),
{
    reveal(Seq::filter);
    if s.len() > 0 {
        let t = s.drop_last();
        assert(sorted_strict(t));
        lemma_filter_sorted(t, pred);
        lemma_filter_members(t, pred);
        if pred(s.last()) {
            let r = t.filter(pred).push(s.last());
            assert(s.filter(pred) == r);
            assert forall|i: int, j: int| 0 <= i < j < r.len() implies r[i].0 < r[j].0 by {
                if j == r.len() - 1 {
                    assert(t.filter(pred)[i] == r[i]);
                    assert(t.filter(pred).contains(r[i]));
                    assert(t.contains(r[i]));
                    let k = choose|k: int| 0 <= k < t.len() && t[k] == r[i];
                    assert(s[k].0 < s[s.len() - 1].0);
                } else {
                    assert(t.filter(pred)[i].0 < t.filter(pred)[j].0);
                }
            }
        }
    }
}

/// Filtering a sequence that already satisfies the predicate changes
/// nothing.
pub proof fn lemma_filter_all(s: Seq<UserId>, pred: spec_fn(UserId) -> bool)
    requires
        forall|i: int| 0 <= i < s.len() ==> pred(#[trigger] s[i]),
    ensures
        s.filter(pred) == s,
    decreases s.len(),
{
    reveal(Seq::filter);
    if s.len() > 0 {
        let t = s.drop_last();
        assert(forall|i: int| 0 <= i < t.len() ==> pred(#[trigger] t[i]));
        lemma_filter_all(t, pred);
        assert(pred(s.last()));
        assert(s.filter(pred) =~= s);
    }
}

/// Whether a queue holds an identity.
fn vec_contains(v: &Vec<UserId>, uid: UserId) -> (r: bool)
    ensures
        r == v@.contains(uid),
{
    let mut i: usize = 0;
    while i < v.len()
        invariant
            i <= v@.len(),
            forall|k: int| 0 <= k < i ==> v@[k] != uid,
        decreases v@.len() - i,
    {
        if v[i] == uid {
            return true;
        }
        i = i + 1;
    }
    false
}

impl Channel {
    /// An empty room: nobody known, nobody connected, both queues empty.
    pub fn new() -> (r: Channel)
        ensures
            r@ == (ChannelView {
                users: Map::<u64, UserView>::empty(),
                clients: Seq::<UserId>::empty(),
                dj_queue: Seq::<UserId>::empty(),
                play_queue: Seq::<PlayItemView>::empty(),
            }),
            r@.wf(),
    {
        let r = Channel {
            users: HashMap::new(),
            clients: Vec::new(),
            dj_queue: Vec::new(),
            play_queue: Vec::new(),
        };
        proof {
            assert(users_view(r.users@) =~= Map::<u64, UserView>::empty());
            assert(play_view(r.play_queue@) =~= Seq::<PlayItemView>::empty());
        }
        r
    }

    /// Admits a newly accepted identity: adds it to the fan-out order,
    /// keeping the order ascending, and records it as anonymous when it is
    /// not yet known.  A replaced sink leaves both unchanged.
    pub fn introduce(&mut self, uid: UserId)
        requires
            old(self)@.wf(),
        ensures
            final(self)@.wf(),
            final(self)@ == step_event(old(self)@, ChanMessageView::Introduce(uid)).0,
    {
        proof {
            lemma_users_view(self.users@);
        }
        if !self.users.contains_key(&uid.0) {
            let anon = User::anonymous();
            proof {
                lemma_users_view_insert(self.users@, uid.0, anon);
                assert(anon@ == UserView::Anonymous);
            }
            self.users.insert(uid.0, anon);
        }
        let n = self.clients.len();
        let mut i: usize = 0;
        while i < n && self.clients[i].0 < uid.0
            invariant
                i <= n,
                n == self.clients@.len(),
                forall|k: int| 0 <= k < i ==> self.clients@[k].0 < uid.0,
            decreases n - i,
        {
            i = i + 1;
        }
        proof {
            lemma_insert_sorted_split(self.clients@, uid, i as int);
            lemma_insert_sorted_facts(self.clients@, uid);
        }
        if i < n && self.clients[i].0 == uid.0 {
            proof {
                assert(self@ =~= step_event(old(self)@, ChanMessageView::Introduce(uid)).0);
            }
            return ;
        }
        self.clients.insert(i, uid);
        proof {
            assert(self.clients@ =~= old(self).clients@.subrange(0, i as int) + seq![uid] + old(
                self,
            ).clients@.skip(i as int));
            assert(self@ =~= step_event(old(self)@, ChanMessageView::Introduce(uid)).0);
        }
    }

    /// Appends the identity to the DJ waitlist unless it is already there;
    /// an existing slot keeps its position.
    fn handle_dj_queue(&mut self, uid: UserId)
        requires
            old(self)@.wf(),
        ensures
            final(self)@.wf(),
            final(self)@ == step_dj_queue(old(self)@, uid),
    {
        if !vec_contains(&self.dj_queue, uid) {
            self.dj_queue.push(uid);
            proof {
                assert forall|i: int, j: int|
                    0 <= i < self.dj_queue@.len() && 0 <= j < self.dj_queue@.len() && i
                        != j implies self.dj_queue@[i] != self.dj_queue@[j] by {
                    if j == self.dj_queue@.len() - 1 && i < j {
                        if self.dj_queue@[i] == uid {
                            assert(old(self).dj_queue@[i] == uid);
                            assert(old(self).dj_queue@.contains(uid));
                        }
                    } else if i == self.dj_queue@.len() - 1 && j < i {
                        if self.dj_queue@[j] == uid {
                            assert(old(self).dj_queue@[j] == uid);
                            assert(old(self).dj_queue@.contains(uid));
                        }
                    }
                }
            }
        }
        proof {
            assert(self@ =~= step_dj_queue(old(self)@, uid));
        }
    }

    /// Removes every slot of the identity from the DJ waitlist, keeping
    /// the relative order of the remaining entries.
    fn handle_dj_unqueue(&mut self, uid: UserId)
        requires
            old(self)@.wf(),
        ensures
            final(self)@.wf(),
            final(self)@ == step_dj_unqueue(old(self)@, uid),
    {
        let mut kept: Vec<UserId> = Vec::new();
        let n = self.dj_queue.len();
        let mut i: usize = 0;
        proof {
            assert(self.dj_queue@.take(0).filter(others(uid)) =~= Seq::<UserId>::empty());
        }
        while i < n
            invariant
                i <= n,
                n == self.dj_queue@.len(),
                self == old(self),
                kept@ == self.dj_queue@.take(i as int).filter(others(uid)),
            decreases n - i,
        {
            let ghost prefix = self.dj_queue@.take(i as int);
            let c = self.dj_queue[i];
            if !(c == uid) {
                kept.push(c);
            }
            proof {
                assert(self.dj_queue@.take(i + 1) =~= prefix.push(c));
                prefix.lemma_filter_push(c, others(uid));
            }
            i = i + 1;
        }
        proof {
            assert(self.dj_queue@.take(n as int) =~= self.dj_queue@);
            lemma_filter_no_dups(self.dj_queue@, others(uid));
        }
        self.dj_queue = kept;
        proof {
            assert(self@ =~= step_dj_unqueue(old(self)@, uid));
        }
    }

    /// Registers an anonymous user under the requested nick, as a member,
    /// and asks for a join broadcast; a registered user's request is a
    /// no-op (nick changes are not supported).
    fn handle_register(&mut self, uid: UserId, reg: &RegisterMessage) -> (out: Option<
        EgressMessage,
    >)
        requires
            old(self)@.wf(),
            old(self)@.users.contains_key(uid.0),
        ensures
            final(self)@.wf(),
            final(self)@ == step_register(old(self)@, uid, reg.nick@).0,
            opt_egress_view(out) == step_register(old(self)@, uid, reg.nick@).1,
    {
        proof {
            lemma_users_view(self.users@);
        }
        let is_anon = match self.users.get(&uid.0) {
            Option::Some(user) => user.is_anonymous(),
            Option::None => false,
        };
        if !is_anon {
            return Option::None;
        }
        let nu = User::registered(reg.nick.as_str());
        proof {
            lemma_users_view_insert(self.users@, uid.0, nu);
        }
        self.users.insert(uid.0, nu);
        proof {
            assert(self@ =~= step_register(old(self)@, uid, reg.nick@).0);
        }
        Option::Some(EgressMessage::Join(Join { when: 0, uid, nick: reg.nick.clone() }))
    }

    /// Relays a chat line: asks for a broadcast carrying the sender and the
    /// body verbatim.
    fn handle_message(&mut self, uid: UserId, msg: &str) -> (out: Option<EgressMessage>)
        ensures
            *final(self) == *old(self),
            opt_egress_view(out) == Option::Some(EgressView::UserMessage {
                when: 0,
                uid,
                body: msg@,
            }),
    {
        Option::Some(EgressMessage::UserMessage(UserMessage {
            when: 0,
            uid,
            body: msg.to_owned(),
        }))
    }

    /// Applies one ingress event: drops it if the sender is unknown or its
    /// role denies the kind, else dispatches by kind.  Returns the egress
    /// event to broadcast, if the event asks for one.
    pub fn handle_msg(&mut self, uid: UserId, msg: &IngressMessage) -> (out: Option<EgressMessage>)
        requires
            old(self)@.wf(),
        ensures
            final(self)@.wf(),
            final(self)@ == step_msg(old(self)@, uid, msg@).0,
            opt_egress_view(out) == step_msg(old(self)@, uid, msg@).1,
    {
        proof {
            lemma_users_view(self.users@);
        }
        let allowed = match self.users.get(&uid.0) {
            Option::Some(user) => role_allows(user.policy(), msg),
            Option::None => {
                return Option::None;
            },
        };
        if !allowed {
            return Option::None;
        }
        match msg {
            IngressMessage::Register(reg) => self.handle_register(uid, reg),
            IngressMessage::Disconnect => Option::Some(
                EgressMessage::Part(Part { when: 0, uid }),
            ),
            IngressMessage::Skip => Option::Some(
                EgressMessage::PlaybackMessage(PlaybackMessage::Skip(Skip { uid })),
            ),
            IngressMessage::Part => Option::None,
            IngressMessage::DjQueue => {
                self.handle_dj_queue(uid);
                Option::None
            },
            IngressMessage::DjUnqueue => {
                self.handle_dj_unqueue(uid);
                Option::None
            },
            IngressMessage::Message(body) => self.handle_message(uid, body.as_str()),
        }
    }

    /// Applies one mailbox entry to completion.  Returns the egress event
    /// the caller must broadcast, if any.
    pub fn handle_event(&mut self, ev: ChanMessage) -> (out: Option<EgressMessage>)
        requires
            old(self)@.wf(),
        ensures
            final(self)@.wf(),
            final(self)@ == step_event(old(self)@, ev@).0,
            opt_egress_view(out) == step_event(old(self)@, ev@).1,
    {
        match ev {
            ChanMessage::Introduce(uid) => {
                self.introduce(uid);
                Option::None
            },
            ChanMessage::Status(body) => Option::Some(
                EgressMessage::StatusMessage(StatusMessage { when: 0, body }),
            ),
            ChanMessage::Message(uid, msg) => self.handle_msg(uid, &msg),
        }
    }

    /// The identities a broadcast must attempt, in fan-out order: exactly
    /// the current clients.
    pub fn broadcast_targets(&self) -> (r: Vec<UserId>)
        ensures
            r@ == self@.clients,
    {
        let mut r: Vec<UserId> = Vec::new();
        let n = self.clients.len();
        let mut i: usize = 0;
        while i < n
            invariant
                i <= n,
                n == self.clients@.len(),
                r@ == self.clients@.take(i as int),
            decreases n - i,
        {
            r.push(self.clients[i]);
            proof {
                assert(self.clients@.take(i + 1) =~= self.clients@.take(i as int).push(
                    self.clients@[i as int],
                ));
            }
            i = i + 1;
        }
        proof {
            assert(self.clients@.take(n as int) =~= self.clients@);
        }
        r
    }

    /// Removes the clients whose sinks failed during a broadcast pass, in
    /// one step, keeping everyone else's position.
    pub fn prune_dead(&mut self, dead: &Vec<UserId>)
        requires
            old(self)@.wf(),
        ensures
            final(self)@.wf(),
            final(self)@ == spec_prune(old(self)@, dead@),
    {
        let mut kept: Vec<UserId> = Vec::new();
        let n = self.clients.len();
        let mut i: usize = 0;
        proof {
            assert(self.clients@.take(0).filter(alive(dead@)) =~= Seq::<UserId>::empty());
        }
        while i < n
            invariant
                i <= n,
                n == self.clients@.len(),
                self == old(self),
                kept@ == self.clients@.take(i as int).filter(alive(dead@)),
            decreases n - i,
        {
            let ghost prefix = self.clients@.take(i as int);
            let c = self.clients[i];
            if !vec_contains(dead, c) {
                kept.push(c);
            }
            proof {
                assert(self.clients@.take(i + 1) =~= prefix.push(c));
                prefix.lemma_filter_push(c, alive(dead@));
            }
            i = i + 1;
        }
        proof {
            assert(self.clients@.take(n as int) =~= self.clients@);
            lemma_filter_sorted(self.clients@, alive(dead@));
        }
        self.clients = kept;
        proof {
            assert(self@ =~= spec_prune(old(self)@, dead@));
        }
    }

    /// The current DJ waitlist, oldest request first.
    pub fn dj_queue(&self) -> (r: &Vec<UserId>)
        ensures
            r@ == self@.dj_queue,
    {
        &self.dj_queue
    }
}

} // verus!
