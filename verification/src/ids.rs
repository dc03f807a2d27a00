//! The identifiers and small values that bookmarks are made of.

use vstd::prelude::*;

verus! {

/// Whether `ruma::EventId::parse` accepts a text as an event id.
pub uninterp spec fn is_event_id(text: Seq<char>) -> bool;

/// Whether `ruma::RoomId::parse` accepts a text as a room id.
pub uninterp spec fn is_room_id(text: Seq<char>) -> bool;

/// Whether `ruma::UserId::parse` accepts a text as a user id.
pub uninterp spec fn is_user_id(text: Seq<char>) -> bool;

/// Calls `ruma::EventId::parse`, which validates the text and nothing else: whether it succeeds
/// is a function of the text.
#[verifier::external_body]
fn accepts_event_id(text: &str) -> (accepted: bool)
    ensures
        accepted == is_event_id(text@),
{
    ruma::EventId::parse(text).is_ok()
}

/// Calls `ruma::RoomId::parse`, which validates the text and nothing else: whether it succeeds
/// is a function of the text.
#[verifier::external_body]
fn accepts_room_id(text: &str) -> (accepted: bool)
    ensures
        accepted == is_room_id(text@),
{
    ruma::RoomId::parse(text).is_ok()
}

/// Calls `ruma::UserId::parse`, which validates the text and nothing else: whether it succeeds
/// is a function of the text.
#[verifier::external_body]
fn accepts_user_id(text: &str) -> (accepted: bool)
    ensures
        accepted == is_user_id(text@),
{
    ruma::UserId::parse(text).is_ok()
}

/// The id of an event. Its view is its text, which is always a valid event id.
#[derive(Debug, PartialEq, Eq, Hash)]
pub struct EventId {
    text: String,
}

impl View for EventId {
    type V = Seq<char>;

    closed spec fn view(&self) -> Seq<char> {
        self.text@
    }
}

impl EventId {
    #[verifier::type_invariant]
    spec fn valid(self) -> bool {
        is_event_id(self.text@)
    }

    /// The event id with the given text, if the text is one.
    pub fn parse(text: &str) -> (id: Option<EventId>)
        ensures
            id is Some <==> is_event_id(text@),
            id matches Some(event_id) ==> event_id@ == text@,
    {
        if accepts_event_id(text) {
            Some(EventId { text: text.to_owned() })
        } else {
            None
        }
    }

    /// The text of this id.
    pub fn as_str(&self) -> (text: &str)
        ensures
            text@ == self@,
            is_event_id(text@),
    {
        proof {
            use_type_invariant(self);
        }
        self.text.as_str()
    }

    /// Whether both ids have the same text.
    pub fn same_as(&self, other: &EventId) -> (same: bool)
        ensures
            same == (self@ == other@),
    {
        self.text == other.text
    }
}

impl Clone for EventId {
    fn clone(&self) -> (copy: EventId)
        ensures
            copy == *self,
    {
        proof {
            use_type_invariant(self);
        }
        EventId { text: self.text.clone() }
    }
}

/// The id of a room. Its view is its text, which is always a valid room id.
#[derive(Debug, PartialEq, Eq, Hash)]
pub struct RoomId {
    text: String,
}

impl View for RoomId {
    type V = Seq<char>;

    closed spec fn view(&self) -> Seq<char> {
        self.text@
    }
}

impl RoomId {
    #[verifier::type_invariant]
    spec fn valid(self) -> bool {
        is_room_id(self.text@)
    }

    /// The room id with the given text, if the text is one.
    pub fn parse(text: &str) -> (id: Option<RoomId>)
        ensures
            id is Some <==> is_room_id(text@),
            id matches Some(room_id) ==> room_id@ == text@,
    {
        if accepts_room_id(text) {
            Some(RoomId { text: text.to_owned() })
        } else {
            None
        }
    }

    /// The text of this id.
    pub fn as_str(&self) -> (text: &str)
        ensures
            text@ == self@,
            is_room_id(text@),
    {
        proof {
            use_type_invariant(self);
        }
        self.text.as_str()
    }

    /// Whether both ids have the same text.
    pub fn same_as(&self, other: &RoomId) -> (same: bool)
        ensures
            same == (self@ == other@),
    {
        self.text == other.text
    }
}

impl Clone for RoomId {
    fn clone(&self) -> (copy: RoomId)
        ensures
            copy == *self,
    {
        proof {
            use_type_invariant(self);
        }
        RoomId { text: self.text.clone() }
    }
}

/// The id of a user. Its view is its text, which is always a valid user id.
#[derive(Debug, PartialEq, Eq, Hash)]
pub struct UserId {
    text: String,
}

impl View for UserId {
    type V = Seq<char>;

    closed spec fn view(&self) -> Seq<char> {
        self.text@
    }
}

impl UserId {
    #[verifier::type_invariant]
    spec fn valid(self) -> bool {
        is_user_id(self.text@)
    }

    /// The user id with the given text, if the text is one.
    pub fn parse(text: &str) -> (id: Option<UserId>)
        ensures
            id is Some <==> is_user_id(text@),
            id matches Some(user_id) ==> user_id@ == text@,
    {
        if accepts_user_id(text) {
            Some(UserId { text: text.to_owned() })
        } else {
            None
        }
    }

    /// The text of this id.
    pub fn as_str(&self) -> (text: &str)
        ensures
            text@ == self@,
            is_user_id(text@),
    {
        proof {
            use_type_invariant(self);
        }
        self.text.as_str()
    }

    /// Whether both ids have the same text.
    pub fn same_as(&self, other: &UserId) -> (same: bool)
        ensures
            same == (self@ == other@),
    {
        self.text == other.text
    }
}

impl Clone for UserId {
    fn clone(&self) -> (copy: UserId)
        ensures
            copy == *self,
    {
        proof {
            use_type_invariant(self);
        }
        UserId { text: self.text.clone() }
    }
}

/// An instant, in milliseconds since the Unix epoch, that a signed 64-bit count of nanoseconds can
/// express. Its view is that number of milliseconds.
#[derive(Debug, Clone, Copy, PartialEq, Eq)]
pub struct MilliSecondsSinceUnixEpoch {
    millis: u64,
}

/// The largest number of milliseconds whose count of nanoseconds fits a signed 64-bit integer.
pub const MAX_MILLIS: u64 = 9_223_372_036_854;

impl View for MilliSecondsSinceUnixEpoch {
    type V = int;

    closed spec fn view(&self) -> int {
        self.millis as int
    }
}

impl MilliSecondsSinceUnixEpoch {
    #[verifier::type_invariant]
    spec fn representable(self) -> bool {
        self.millis <= MAX_MILLIS
    }

    /// The instant at the given number of milliseconds, if nanoseconds can express it.
    pub fn new(millis: u64) -> (instant: Option<MilliSecondsSinceUnixEpoch>)
        ensures
            instant is Some <==> millis <= MAX_MILLIS,
            instant matches Some(at) ==> at@ == millis,
    {
        if millis <= MAX_MILLIS {
            Some(MilliSecondsSinceUnixEpoch { millis })
        } else {
            None
        }
    }

    /// The number of milliseconds.
    pub fn get(&self) -> (millis: u64)
        ensures
            millis == self@,
            millis <= MAX_MILLIS,
    {
        proof {
            use_type_invariant(self);
        }
        self.millis
    }
}

/// The relevance of a search result: the bit pattern of a single precision number.
#[derive(Debug, Clone, Copy, PartialEq, Eq)]
pub struct Score {
    pub bits: u32,
}

/// The rank of a bit pattern in the total order of single precision numbers: patterns without the
/// sign bit ascend from zero, patterns with it descend from just below zero.
pub open spec fn score_rank(bits: u32) -> int {
    if bits < 0x8000_0000 {
        bits as int
    } else {
        0x7fff_ffff - bits
    }
}

impl Score {
    /// Whether this score ranks strictly above the other one.
    pub fn is_above(&self, other: &Score) -> (above: bool)
        ensures
            above == (score_rank(self.bits) > score_rank(other.bits)),
    {
        if self.bits < 0x8000_0000 {
            other.bits >= 0x8000_0000 || self.bits > other.bits
        } else {
            other.bits >= 0x8000_0000 && self.bits < other.bits
        }
    }
}

} // verus!
