//! Message schema: the ingress events a client may send into the room, the
//! egress events the room broadcasts back, and the tag names of the wire
//! format's tagged-array encoding.

use vstd::prelude::*;
use vstd::string::StrSliceExecFns;

use crate::users::UserId;

verus! {

/// A user joined the room (registered a nick).
#[derive(Debug, Clone, PartialEq, Eq)]
pub struct Join {
    pub when: u64,
    pub uid: UserId,
    pub nick: String,
}

/// A user announced departure.
#[derive(Debug, Clone, Copy, PartialEq, Eq, Structural)]
pub struct Part {
    pub when: u64,
    pub uid: UserId,
}

/// A bare timestamp event.
#[derive(Debug, Clone, Copy, PartialEq, Eq, Structural)]
pub struct Clock {
    pub when: u64,
}

/// A room-originated status line.
#[derive(Debug, Clone, PartialEq, Eq)]
pub struct StatusMessage {
    pub when: u64,
    pub body: String,
}

/// A chat line relayed from one user to the whole room.
#[derive(Debug, Clone, PartialEq, Eq)]
pub struct UserMessage {
    pub when: u64,
    pub uid: UserId,
    pub body: String,
}

/// A track request entered the play queue.
#[derive(Debug, Clone, PartialEq, Eq)]
pub struct EnqueueItem {
    pub when: u64,
    pub uid: UserId,
    pub yid: String,
}

/// A track started playing.
#[derive(Debug, Clone, PartialEq, Eq)]
pub struct PlayItem {
    pub when: u64,
    pub uid: UserId,
    pub yid: String,
}

/// A user skipped the current track.
#[derive(Debug, Clone, Copy, PartialEq, Eq, Structural)]
pub struct Skip {
    pub uid: UserId,
}

/// Mathematical model of a [`PlayItem`].
pub struct PlayItemView {
    pub when: u64,
    pub uid: UserId,
    pub yid: Seq<char>,
}

impl View for PlayItem {
    type V = PlayItemView;

    open spec fn view(&self) -> PlayItemView {
        PlayItemView { when: self.when, uid: self.uid, yid: self.yid@ }
    }
}

/// Playback-related egress events, a nested tagged union on the wire.
#[derive(Debug, Clone, PartialEq, Eq)]
pub enum PlaybackMessage {
    EnqueueItem(EnqueueItem),
    PlayItem(PlayItem),
    Skip(Skip),
}

/// Mathematical model of a [`PlaybackMessage`].
pub enum PlaybackView {
    EnqueueItem { when: u64, uid: UserId, yid: Seq<char> },
    PlayItem { when: u64, uid: UserId, yid: Seq<char> },
    Skip { uid: UserId },
}

impl View for PlaybackMessage {
    type V = PlaybackView;

    open spec fn view(&self) -> PlaybackView {
        match self {
            PlaybackMessage::EnqueueItem(e) => PlaybackView::EnqueueItem {
                when: e.when,
                uid: e.uid,
                yid: e.yid@,
            },
            PlaybackMessage::PlayItem(p) => PlaybackView::PlayItem {
                when: p.when,
                uid: p.uid,
                yid: p.yid@,
            },
            PlaybackMessage::Skip(s) => PlaybackView::Skip { uid: s.uid },
        }
    }
}

/// Events broadcast from the room to all clients.
#[derive(Debug, Clone, PartialEq, Eq)]
pub enum EgressMessage {
    Clock(Clock),
    Join(Join),
    Part(Part),
    StatusMessage(StatusMessage),
    UserMessage(UserMessage),
    PlaybackMessage(PlaybackMessage),
}

/// Mathematical model of an [`EgressMessage`].
pub enum EgressView {
    Clock { when: u64 },
    Join { when: u64, uid: UserId, nick: Seq<char> },
    Part { when: u64, uid: UserId },
    StatusMessage { when: u64, body: Seq<char> },
    UserMessage { when: u64, uid: UserId, body: Seq<char> },
    PlaybackMessage(PlaybackView),
}

impl View for EgressMessage {
    type V = EgressView;

    open spec fn view(&self) -> EgressView {
        match self {
            EgressMessage::Clock(c) => EgressView::Clock { when: c.when },
            EgressMessage::Join(j) => EgressView::Join { when: j.when, uid: j.uid, nick: j.nick@ },
            EgressMessage::Part(p) => EgressView::Part { when: p.when, uid: p.uid },
            EgressMessage::StatusMessage(s) => EgressView::StatusMessage {
                when: s.when,
                body: s.body@,
            },
            EgressMessage::UserMessage(u) => EgressView::UserMessage {
                when: u.when,
                uid: u.uid,
                body: u.body@,
            },
            EgressMessage::PlaybackMessage(p) => EgressView::PlaybackMessage(p@),
        }
    }
}

/// Payload of a `register` request: the nick the sender wants.
#[derive(Debug, Clone, PartialEq, Eq)]
pub struct RegisterMessage {
    pub nick: String,
}

/// Events a client sends into the room.
#[derive(Debug, Clone, PartialEq, Eq)]
pub enum IngressMessage {
    Register(RegisterMessage),
    Disconnect,
    Skip,
    Part,
    DjQueue,
    DjUnqueue,
    Message(String),
}

/// Mathematical model of an [`IngressMessage`].
pub enum IngressView {
    Register { nick: Seq<char> },
    Disconnect,
    Skip,
    Part,
    DjQueue,
    DjUnqueue,
    Message(Seq<char>),
}

impl View for IngressMessage {
    type V = IngressView;

    open spec fn view(&self) -> IngressView {
        match self {
            IngressMessage::Register(r) => IngressView::Register { nick: r.nick@ },
            IngressMessage::Disconnect => IngressView::Disconnect,
            IngressMessage::Skip => IngressView::Skip,
            IngressMessage::Part => IngressView::Part,
            IngressMessage::DjQueue => IngressView::DjQueue,
            IngressMessage::DjUnqueue => IngressView::DjUnqueue,
            IngressMessage::Message(s) => IngressView::Message(s@),
        }
    }
}

/// The model of an optional egress event: the broadcast a room transition
/// asks for, if any.
pub open spec fn opt_egress_view(o: Option<EgressMessage>) -> Option<EgressView> {
    match o {
        Option::None => Option::None,
        Option::Some(m) => Option::Some(m@),
    }
}

/// Compares two string slices character by character.
pub fn str_eq(a: &str, b: &str) -> (r: bool)
    ensures
        r == (a@ == b@),
{
    let alen = a.unicode_len();
    let blen = b.unicode_len();
    if alen != blen {
        return false;
    }
    let mut i: usize = 0;
    while i < alen
        invariant
            i <= alen,
            alen == a@.len(),
            alen == b@.len(),
            forall|k: int| 0 <= k < i ==> a@[k] == b@[k],
        decreases alen - i,
    {
        if a.get_char(i) != b.get_char(i) {
            return false;
        }
        i = i + 1;
    }
    proof {
        assert(a@ =~= b@);
    }
    true
}

/// The wire tag of each [`PlaybackMessage`] variant.
#[derive(Debug, Clone, Copy, PartialEq, Eq, Structural)]
pub enum PlaybackMessageField {
    EnqueueItem,
    PlayItem,
    Skip,
}

/// Which [`PlaybackMessageField`] a tag string denotes, if any.
pub open spec fn spec_playback_field(s: Seq<char>) -> Result<PlaybackMessageField, ()> {
    if s == "enqueue_item"@ {
        Ok(PlaybackMessageField::EnqueueItem)
    } else if s == "play_item"@ {
        Ok(PlaybackMessageField::PlayItem)
    } else if s == "skip"@ {
        Ok(PlaybackMessageField::Skip)
    } else {
        Err(())
    }
}

/// The tag string of a [`PlaybackMessageField`].
pub open spec fn spec_playback_name(f: PlaybackMessageField) -> Seq<char> {
    match f {
        PlaybackMessageField::EnqueueItem => "enqueue_item"@,
        PlaybackMessageField::PlayItem => "play_item"@,
        PlaybackMessageField::Skip => "skip"@,
    }
}

impl PlaybackMessageField {
    pub fn from_name(name: &str) -> (r: Result<Self, ()>)
        ensures
            r == spec_playback_field(name@),
    {
        if str_eq(name, "enqueue_item") {
            Ok(PlaybackMessageField::EnqueueItem)
        } else if str_eq(name, "play_item") {
            Ok(PlaybackMessageField::PlayItem)
        } else if str_eq(name, "skip") {
            Ok(PlaybackMessageField::Skip)
        } else {
            Err(())
        }
    }

    pub fn name(&self) -> (r: &'static str)
        ensures
            r@ == spec_playback_name(*self),
    {
        match self {
            PlaybackMessageField::EnqueueItem => "enqueue_item",
            PlaybackMessageField::PlayItem => "play_item",
            PlaybackMessageField::Skip => "skip",
        }
    }
}

/// The wire tag of each [`EgressMessage`] variant.
#[derive(Debug, Clone, Copy, PartialEq, Eq, Structural)]
pub enum EgressMessageField {
    Clock,
    Join,
    Part,
    StatusMessage,
    UserMessage,
    PlaybackMessage,
}

/// Which [`EgressMessageField`] a tag string denotes, if any.
pub open spec fn spec_egress_field(s: Seq<char>) -> Result<EgressMessageField, ()> {
    if s == "clock"@ {
        Ok(EgressMessageField::Clock)
    } else if s == "join"@ {
        Ok(EgressMessageField::Join)
    } else if s == "part"@ {
        Ok(EgressMessageField::Part)
    } else if s == "status_message"@ {
        Ok(EgressMessageField::StatusMessage)
    } else if s == "user_message"@ {
        Ok(EgressMessageField::UserMessage)
    } else if s == "playback_message"@ {
        Ok(EgressMessageField::PlaybackMessage)
    } else {
        Err(())
    }
}

/// The tag string of an [`EgressMessageField`].
pub open spec fn spec_egress_name(f: EgressMessageField) -> Seq<char> {
    match f {
        EgressMessageField::Clock => "clock"@,
        EgressMessageField::Join => "join"@,
        EgressMessageField::Part => "part"@,
        EgressMessageField::StatusMessage => "status_message"@,
        EgressMessageField::UserMessage => "user_message"@,
        EgressMessageField::PlaybackMessage => "playback_message"@,
    }
}

impl EgressMessageField {
    pub fn from_name(name: &str) -> (r: Result<Self, ()>)
        ensures
            r == spec_egress_field(name@),
    {
        if str_eq(name, "clock") {
            Ok(EgressMessageField::Clock)
        } else if str_eq(name, "join") {
            Ok(EgressMessageField::Join)
        } else if str_eq(name, "part") {
            Ok(EgressMessageField::Part)
        } else if str_eq(name, "status_message") {
            Ok(EgressMessageField::StatusMessage)
        } else if str_eq(name, "user_message") {
            Ok(EgressMessageField::UserMessage)
        } else if str_eq(name, "playback_message") {
            Ok(EgressMessageField::PlaybackMessage)
        } else {
            Err(())
        }
    }

    pub fn name(&self) -> (r: &'static str)
        ensures
            r@ == spec_egress_name(*self),
    {
        match self {
            EgressMessageField::Clock => "clock",
            EgressMessageField::Join => "join",
            EgressMessageField::Part => "part",
            EgressMessageField::StatusMessage => "status_message",
            EgressMessageField::UserMessage => "user_message",
            EgressMessageField::PlaybackMessage => "playback_message",
        }
    }
}

/// The wire tag of each [`IngressMessage`] variant.
#[derive(Debug, Clone, Copy, PartialEq, Eq, Structural)]
pub enum IngressMessageField {
    Register,
    Disconnect,
    Skip,
    Part,
    DjQueue,
    DjUnqueue,
    Message,
}

/// Which [`IngressMessageField`] a tag string denotes, if any.
pub open spec fn spec_ingress_field(s: Seq<char>) -> Result<IngressMessageField, ()> {
    if s == "register"@ {
        Ok(IngressMessageField::Register)
    } else if s == "disconnect"@ {
        Ok(IngressMessageField::Disconnect)
    } else if s == "skip"@ {
        Ok(IngressMessageField::Skip)
    } else if s == "part"@ {
        Ok(IngressMessageField::Part)
    } else if s == "dj_queue"@ {
        Ok(IngressMessageField::DjQueue)
    } else if s == "dj_unqueue"@ {
        Ok(IngressMessageField::DjUnqueue)
    } else if s == "message"@ {
        Ok(IngressMessageField::Message)
    } else {
        Err(())
    }
}

/// The tag string of an [`IngressMessageField`].
pub open spec fn spec_ingress_name(f: IngressMessageField) -> Seq<char> {
    match f {
        IngressMessageField::Register => "register"@,
        IngressMessageField::Disconnect => "disconnect"@,
        IngressMessageField::Skip => "skip"@,
        IngressMessageField::Part => "part"@,
        IngressMessageField::DjQueue => "dj_queue"@,
        IngressMessageField::DjUnqueue => "dj_unqueue"@,
        IngressMessageField::Message => "message"@,
    }
}

impl IngressMessageField {
    pub fn from_name(name: &str) -> (r: Result<Self, ()>)
        ensures
            r == spec_ingress_field(name@),
    {
        if str_eq(name, "register") {
            Ok(IngressMessageField::Register)
        } else if str_eq(name, "disconnect") {
            Ok(IngressMessageField::Disconnect)
        } else if str_eq(name, "skip") {
            Ok(IngressMessageField::Skip)
        } else if str_eq(name, "part") {
            Ok(IngressMessageField::Part)
        } else if str_eq(name, "dj_queue") {
            Ok(IngressMessageField::DjQueue)
        } else if str_eq(name, "dj_unqueue") {
            Ok(IngressMessageField::DjUnqueue)
        } else if str_eq(name, "message") {
            Ok(IngressMessageField::Message)
        } else {
            Err(())
        }
    }

    pub fn name(&self) -> (r: &'static str)
        ensures
            r@ == spec_ingress_name(*self),
    {
        match self {
            IngressMessageField::Register => "register",
            IngressMessageField::Disconnect => "disconnect",
            IngressMessageField::Skip => "skip",
            IngressMessageField::Part => "part",
            IngressMessageField::DjQueue => "dj_queue",
            IngressMessageField::DjUnqueue => "dj_unqueue",
            IngressMessageField::Message => "message",
        }
    }
}

} // verus!
