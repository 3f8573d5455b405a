//! Channel events, connector states and connector configuration.
use vstd::prelude::*;
use crate::strmap::{find_key, keyed, lemma_has_key_map_of, map_of, set_key, unique_keys};
use crate::text::text_eq;

verus! {

/// The kind of an event that a channel delivers.
#[derive(Debug, Clone, PartialEq, Eq)]
pub enum ChannelEventType {
    Message,
    Edit,
    Delete,
    Reaction,
    ThreadReply,
    FileUpload,
    MemberJoin,
    MemberLeave,
    Custom(String),
}

/// The name of an event kind.
pub open spec fn event_name(e: ChannelEventType) -> Seq<char> {
    match e {
        ChannelEventType::Message => "message"@,
        ChannelEventType::Edit => "edit"@,
        ChannelEventType::Delete => "delete"@,
        ChannelEventType::Reaction => "reaction"@,
        ChannelEventType::ThreadReply => "thread_reply"@,
        ChannelEventType::FileUpload => "file_upload"@,
        ChannelEventType::MemberJoin => "member_join"@,
        ChannelEventType::MemberLeave => "member_leave"@,
        ChannelEventType::Custom(s) => s@,
    }
}

/// The built-in event kind with name `s`, if there is one.
pub open spec fn builtin_event(s: Seq<char>) -> Option<ChannelEventType> {
    if s == "message"@ {
        Some(ChannelEventType::Message)
    } else if s == "edit"@ {
        Some(ChannelEventType::Edit)
    } else if s == "delete"@ {
        Some(ChannelEventType::Delete)
    } else if s == "reaction"@ {
        Some(ChannelEventType::Reaction)
    } else if s == "thread_reply"@ {
        Some(ChannelEventType::ThreadReply)
    } else if s == "file_upload"@ {
        Some(ChannelEventType::FileUpload)
    } else if s == "member_join"@ {
        Some(ChannelEventType::MemberJoin)
    } else if s == "member_leave"@ {
        Some(ChannelEventType::MemberLeave)
    } else {
        None
    }
}

/// `e` is the event kind named `s`: the built-in one, or a custom kind with that name.
pub open spec fn names_event(s: Seq<char>, e: ChannelEventType) -> bool {
    match builtin_event(s) {
        Some(b) => e == b,
        None => e matches ChannelEventType::Custom(x) && x@ == s,
    }
}

/// Two event kinds are the same kind (custom kinds compared by name).
pub open spec fn same_event(a: ChannelEventType, b: ChannelEventType) -> bool {
    match (a, b) {
        (ChannelEventType::Custom(x), ChannelEventType::Custom(y)) => x@ == y@,
        _ => a == b,
    }
}

impl ChannelEventType {
    /// The name of the event kind (see [`event_name`]).
    pub fn as_str(&self) -> (r: &str)
        ensures
            r@ == event_name(*self),
    {
        match self {
            ChannelEventType::Message => "message",
            ChannelEventType::Edit => "edit",
            ChannelEventType::Delete => "delete",
            ChannelEventType::Reaction => "reaction",
            ChannelEventType::ThreadReply => "thread_reply",
            ChannelEventType::FileUpload => "file_upload",
            ChannelEventType::MemberJoin => "member_join",
            ChannelEventType::MemberLeave => "member_leave",
            ChannelEventType::Custom(s) => s.as_str(),
        }
    }

    /// The event kind with name `s`: a built-in kind, or else a custom one.
    pub fn from_str(s: &str) -> (r: ChannelEventType)
        ensures
            names_event(s@, r),
    {
        if text_eq(s, "message") {
            ChannelEventType::Message
        } else if text_eq(s, "edit") {
            ChannelEventType::Edit
        } else if text_eq(s, "delete") {
            ChannelEventType::Delete
        } else if text_eq(s, "reaction") {
            ChannelEventType::Reaction
        } else if text_eq(s, "thread_reply") {
            ChannelEventType::ThreadReply
        } else if text_eq(s, "file_upload") {
            ChannelEventType::FileUpload
        } else if text_eq(s, "member_join") {
            ChannelEventType::MemberJoin
        } else if text_eq(s, "member_leave") {
            ChannelEventType::MemberLeave
        } else {
            ChannelEventType::Custom(String::from_str(s))
        }
    }
}

/// Reading the name of the kind that a name gives back yields the name.
pub proof fn lemma_name_of_named(s: Seq<char>, e: ChannelEventType)
    requires
        names_event(s, e),
    ensures
        event_name(e) == s,
{
}

/// Naming a kind and reading the kind back gives the same kind, except for a
/// custom kind that bears the name of a built-in one.
pub proof fn lemma_named_of_name(e: ChannelEventType, r: ChannelEventType)
    requires
        names_event(event_name(e), r),
        !(e is Custom && builtin_event(event_name(e)) is Some),
    ensures
        same_event(e, r),
{
    reveal_strlit("message");
    reveal_strlit("edit");
    reveal_strlit("delete");
    reveal_strlit("reaction");
    reveal_strlit("thread_reply");
    reveal_strlit("file_upload");
    reveal_strlit("member_join");
    reveal_strlit("member_leave");
    let n = event_name(e);
    match e {
        ChannelEventType::Custom(_) => {},
        _ => {
            // The built-in names differ in length or in one of these letters.
            assert(builtin_event(n) == Some(e)) by {
                assert(n.len() != 7 || n[0] != 'm' || n == "message"@);
                assert("member_join"@[2] != "message"@[2]);
                assert("member_leave"@[2] != "message"@[2]);
                assert("member_leave"@[0] != "thread_reply"@[0]);
                assert("member_join"@[0] != "file_upload"@[0]);
                assert("member_join"@[7] != "member_leave"@[7]);
            }
        },
    }
}

/// An event that a channel delivers.
#[derive(Debug, Clone)]
pub struct ChannelEvent {
    pub event_type: ChannelEventType,
    pub source: String,
    pub channel_name: String,
    pub content: String,
    pub author: Option<String>,
    pub message_id: Option<String>,
    /// Further fields of the event, each value written as JSON text; a later
    /// pair shadows an earlier one with the same name.
    pub metadata: Vec<(String, String)>,
    /// When the event happened, as RFC 3339 text.
    pub timestamp: String,
}

/// The state of a connector.
#[derive(Debug, Clone, PartialEq, Eq)]
pub enum ConnectorStatus {
    Disconnected,
    Connecting,
    Connected,
    Polling,
    Error(String),
}

/// Parameters of a connector, by name.
#[derive(Debug, Clone)]
pub struct ConnectorConfig {
    /// Name/value pairs; `new` and `set` keep each name at most once.
    pub params: Vec<(String, String)>,
}

impl View for ConnectorConfig {
    type V = Map<Seq<char>, Seq<char>>;

    open spec fn view(&self) -> Map<Seq<char>, Seq<char>> {
        map_of(self.params@)
    }
}

impl ConnectorConfig {
    /// A configuration without parameters.
    pub fn new() -> (r: ConnectorConfig)
        ensures
            r@ == Map::<Seq<char>, Seq<char>>::empty(),
            unique_keys(r.params@),
    {
        let r = ConnectorConfig { params: Vec::new() };
        assert(keyed(r.params@) =~= Seq::empty());
        assert(map_of(r.params@) =~= Map::empty());
        r
    }

    /// The value of parameter `key`.
    pub fn get(&self, key: &str) -> (r: Option<&str>)
        ensures
            r is Some <==> self@.contains_key(key@),
            r matches Some(v) ==> v@ == self@[key@],
    {
        match find_key(&self.params, key) {
            Some(i) => Some(self.params[i].1.as_str()),
            None => None,
        }
    }

    /// Sets parameter `key` to `value`.
    pub fn set(&mut self, key: &str, value: &str)
        ensures
            final(self)@ == old(self)@.insert(key@, value@),
            unique_keys(old(self).params@) ==> unique_keys(final(self).params@),
            final(self).params@.len() == old(self).params@.len() + (if old(self)@.contains_key(
                key@,
            ) {
                0int
            } else {
                1int
            }),
    {
        proof {
            lemma_has_key_map_of(self.params@, key@);
        }
        set_key(&mut self.params, String::from_str(key), String::from_str(value));
    }
}

impl Default for ConnectorConfig {
    fn default() -> (r: ConnectorConfig)
        ensures
            r@ == Map::<Seq<char>, Seq<char>>::empty(),
    {
        ConnectorConfig::new()
    }
}

/// A parameter reads back as it was last set, and setting one parameter
/// leaves every other as it was.
pub proof fn lemma_set_then_get(
    before: Map<Seq<char>, Seq<char>>,
    key: Seq<char>,
    value: Seq<char>,
    other: Seq<char>,
)
    ensures
        before.insert(key, value).contains_key(key),
        before.insert(key, value)[key] == value,
        other != key ==> before.insert(key, value).contains_key(other) == before.contains_key(
            other,
        ),
        other != key && before.contains_key(other) ==> before.insert(key, value)[other]
            == before[other],
{
}

} // verus!
