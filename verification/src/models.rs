//! The events that the bridge carries.

use crate::json;
use vstd::prelude::*;
use vstd::string::*;

verus! {

/// A message from one client to another.
#[derive(Debug, Clone, PartialEq)]
pub struct TonEvent {
    /// The event's id in the recipient's inbox; empty before it is stored.
    pub id: String,
    /// The client that sent the message.
    pub from: String,
    /// The client that the message is for.
    pub to: String,
    /// The body of the message.
    pub message: String,
    /// When the message expires, in seconds since the Unix epoch.
    pub deadline: u64,
}

/// What a [`TonEvent`] says.
pub struct TonEventView {
    pub id: Seq<char>,
    pub from: Seq<char>,
    pub to: Seq<char>,
    pub message: Seq<char>,
    pub deadline: u64,
}

impl View for TonEvent {
    type V = TonEventView;

    open spec fn view(&self) -> TonEventView {
        TonEventView {
            id: self.id@,
            from: self.from@,
            to: self.to@,
            message: self.message@,
            deadline: self.deadline,
        }
    }
}

impl TonEventView {
    /// The event under another id.
    pub open spec fn with_id(self, id: Seq<char>) -> TonEventView {
        TonEventView { id, ..self }
    }

    /// What a subscriber sees of the event.
    pub open spec fn public_members(self) -> Seq<(Seq<char>, json::JsonValue)> {
        seq![
            ("from"@, json::JsonValue::Text(self.from)),
            ("message"@, json::JsonValue::Text(self.message)),
        ]
    }

    /// What is stored of the event. An event without an id is stored without
    /// one.
    pub open spec fn stored_members(self) -> Seq<(Seq<char>, json::JsonValue)> {
        let id = if self.id.len() == 0 {
            Seq::empty()
        } else {
            seq![("id"@, json::JsonValue::Text(self.id))]
        };
        id + seq![
            ("from"@, json::JsonValue::Text(self.from)),
            ("to"@, json::JsonValue::Text(self.to)),
            ("message"@, json::JsonValue::Text(self.message)),
            ("deadline"@, json::JsonValue::Number(self.deadline as nat)),
        ]
    }

    /// The event that is read back from what is stored of this one: the same,
    /// with the default id where it was stored without one.
    pub open spec fn read_back(self) -> TonEventView {
        if self.id.len() == 0 {
            self.with_id("n/a"@)
        } else {
            self
        }
    }
}

/// The id of an event that was stored without one.
pub fn default_id() -> (r: String)
    ensures
        r@ == "n/a"@,
{
    "n/a".to_owned()
}

proof fn lemma_keys_differ()
    ensures
        "id"@ != "from"@,
        "id"@ != "to"@,
        "id"@ != "message"@,
        "id"@ != "deadline"@,
        "from"@ != "to"@,
        "from"@ != "message"@,
        "from"@ != "deadline"@,
        "to"@ != "message"@,
        "to"@ != "deadline"@,
        "message"@ != "deadline"@,
{
    reveal_strlit("id");
    reveal_strlit("from");
    reveal_strlit("to");
    reveal_strlit("message");
    reveal_strlit("deadline");
    assert("id"@[0] != "to"@[0]);
    assert("from"@.len() == 4);
    assert("message"@.len() == 7);
    assert("deadline"@.len() == 8);
}

impl TonEvent {
    /// The body of the message.
    pub fn as_ref(&self) -> (r: &str)
        ensures
            r@ == self.message@,
    {
        self.message.as_str()
    }

    /// The JSON text that a subscriber gets: the sender and the message.
    pub fn serialize_for_sse(&self) -> (r: Result<String, serde_json::Error>)
        ensures
            r is Ok,
            r->Ok_0@ == json::object_text(self@.public_members()),
    {
        proof {
            lemma_keys_differ();
        }
        let mut object: json::JsonObject = json::JsonObject::new();
        object.insert_text("from", self.from.as_str());
        object.insert_text("message", self.message.as_str());
        assert(object@ =~= self@.public_members());
        object.write()
    }

    /// The JSON text under which the event is stored.
    pub fn serialize(&self) -> (r: Result<String, serde_json::Error>)
        ensures
            r is Ok,
            r->Ok_0@ == json::object_text(self@.stored_members()),
    {
        proof {
            lemma_keys_differ();
        }
        let mut object: json::JsonObject = json::JsonObject::new();
        if !self.id.as_str().is_empty() {
            object.insert_text("id", self.id.as_str());
        }
        object.insert_text("from", self.from.as_str());
        object.insert_text("to", self.to.as_str());
        object.insert_text("message", self.message.as_str());
        object.insert_number("deadline", self.deadline);
        assert(object@ =~= self@.stored_members());
        object.write()
    }
}

/// The stored text of an event determines the event.
pub proof fn law_stored_text_determines_event(a: TonEventView, b: TonEventView)
    requires
        json::object_text(a.stored_members()) == json::object_text(b.stored_members()),
    ensures
        a == b,
{
    json::law_object_text_determines_members(a.stored_members(), b.stored_members());
    let ma = a.stored_members();
    let mb = b.stored_members();
    assert(ma.len() == mb.len());
    let k = ma.len() - 4;
    if k == 1 {
        assert(ma[0] == mb[0]);
    } else {
        assert(a.id =~= b.id);
    }
    assert(ma[k] == mb[k]);
    assert(ma[k + 1] == mb[k + 1]);
    assert(ma[k + 2] == mb[k + 2]);
    assert(ma[k + 3] == mb[k + 3]);
}

/// What a subscriber gets of an event determines its sender and its message,
/// and stands on one line.
pub proof fn law_subscriber_gets_the_message(a: TonEventView, b: TonEventView)
    ensures
        json::object_text(a.public_members()) == json::object_text(b.public_members()) ==> a.from
            == b.from && a.message == b.message,
        json::printable(json::object_text(a.public_members())),
{
    json::law_object_text_is_one_line(a.public_members());
    if json::object_text(a.public_members()) == json::object_text(b.public_members()) {
        json::law_object_text_determines_members(a.public_members(), b.public_members());
        assert(a.public_members()[0] == b.public_members()[0]);
        assert(a.public_members()[1] == b.public_members()[1]);
    }
}

/// What an event says is what its fields hold.
pub proof fn law_view_of_an_event(event: TonEvent)
    ensures
        event@.id == event.id@,
        event@.from == event.from@,
        event@.to == event.to@,
        event@.message == event.message@,
        event@.deadline == event.deadline,
{
}

/// An event under another id is the same event otherwise.
pub proof fn law_with_id(event: TonEventView, id: Seq<char>)
    ensures
        event.with_id(id).id == id,
        event.with_id(id).from == event.from,
        event.with_id(id).to == event.to,
        event.with_id(id).message == event.message,
        event.with_id(id).deadline == event.deadline,
{
}

/// An event that was stored with an id is read back as it was, and one that was
/// stored without an id under the default id.
pub proof fn law_read_back(event: TonEventView)
    ensures
        event.id.len() > 0 ==> event.read_back() == event,
        event.id.len() == 0 ==> event.read_back().id == "n/a"@,
        event.read_back().from == event.from,
        event.read_back().to == event.to,
        event.read_back().message == event.message,
        event.read_back().deadline == event.deadline,
{
}

/// The text that a subscriber gets is the JSON object of the sender and the
/// message, and of nothing else.
pub proof fn law_public_text(event: TonEventView)
    ensures
        json::object_text(event.public_members()) == "{\"from\":"@ + json::string_text(event.from)
            + ",\"message\":"@ + json::string_text(event.message) + "}"@,
{
    reveal_strlit("from");
    reveal_strlit("message");
    reveal_strlit("{\"from\":");
    reveal_strlit(",\"message\":");
    reveal_strlit("}");
    json::law_plain_text_stands_for_itself("from"@);
    json::law_plain_text_stands_for_itself("message"@);
    json::lemma_two_members(
        "from"@,
        json::JsonValue::Text(event.from),
        "message"@,
        json::JsonValue::Text(event.message),
    );
    assert("{\"from\":"@ =~= seq!['{'] + json::string_text("from"@) + seq![':']);
    assert(",\"message\":"@ =~= seq![','] + json::string_text("message"@) + seq![':']);
    assert("}"@ =~= seq!['}']);
    assert(json::object_text(event.public_members()) =~= "{\"from\":"@ + json::string_text(
        event.from,
    ) + ",\"message\":"@ + json::string_text(event.message) + "}"@);
}

/// The text under which an event is stored is the JSON object of the sender, the
/// recipient, the message and the deadline, and of the id in front of them where
/// the event has one.
pub proof fn law_stored_text(event: TonEventView)
    ensures
        ({
            let rest = "\"from\":"@ + json::string_text(event.from) + ",\"to\":"@
                + json::string_text(event.to) + ",\"message\":"@ + json::string_text(event.message)
                + ",\"deadline\":"@ + crate::text::decimal(event.deadline as nat) + "}"@;
            json::object_text(event.stored_members()) == if event.id.len() == 0 {
                "{"@ + rest
            } else {
                "{\"id\":"@ + json::string_text(event.id) + ","@ + rest
            }
        }),
{
    reveal_strlit("id");
    reveal_strlit("from");
    reveal_strlit("to");
    reveal_strlit("message");
    reveal_strlit("deadline");
    reveal_strlit("{");
    reveal_strlit("}");
    reveal_strlit(",");
    reveal_strlit("{\"id\":");
    reveal_strlit("\"from\":");
    reveal_strlit(",\"to\":");
    reveal_strlit(",\"message\":");
    reveal_strlit(",\"deadline\":");
    json::law_plain_text_stands_for_itself("id"@);
    json::law_plain_text_stands_for_itself("from"@);
    json::law_plain_text_stands_for_itself("to"@);
    json::law_plain_text_stands_for_itself("message"@);
    json::law_plain_text_stands_for_itself("deadline"@);
    let id = ("id"@, json::JsonValue::Text(event.id));
    let from = ("from"@, json::JsonValue::Text(event.from));
    let to = ("to"@, json::JsonValue::Text(event.to));
    let message = ("message"@, json::JsonValue::Text(event.message));
    let deadline = ("deadline"@, json::JsonValue::Number(event.deadline as nat));
    let all = seq![from, to, message, deadline];
    json::lemma_first_member(message.0, message.1, seq![deadline]);
    json::lemma_first_member(to.0, to.1, seq![message, deadline]);
    json::lemma_first_member(from.0, from.1, seq![to, message, deadline]);
    json::lemma_first_member(id.0, id.1, all);
    assert(seq![message] + seq![deadline] =~= seq![message, deadline]);
    assert(seq![to] + seq![message, deadline] =~= seq![to, message, deadline]);
    assert(seq![from] + seq![to, message, deadline] =~= all);
    assert("\"from\":"@ =~= json::string_text("from"@) + seq![':']);
    assert(",\"to\":"@ =~= seq![','] + json::string_text("to"@) + seq![':']);
    assert(",\"message\":"@ =~= seq![','] + json::string_text("message"@) + seq![':']);
    assert(",\"deadline\":"@ =~= seq![','] + json::string_text("deadline"@) + seq![':']);
    assert("{\"id\":"@ =~= seq!['{'] + json::string_text("id"@) + seq![':']);
    assert("{"@ =~= seq!['{']);
    assert("}"@ =~= seq!['}']);
    assert(","@ =~= seq![',']);
    let rest = "\"from\":"@ + json::string_text(event.from) + ",\"to\":"@ + json::string_text(
        event.to,
    ) + ",\"message\":"@ + json::string_text(event.message) + ",\"deadline\":"@
        + crate::text::decimal(event.deadline as nat) + "}"@;
    assert(json::members_text(all) + seq!['}'] =~= rest);
    if event.id.len() == 0 {
        assert(event.stored_members() =~= all);
        assert(json::object_text(event.stored_members()) =~= "{"@ + rest);
    } else {
        assert(event.stored_members() =~= seq![id] + all);
        assert(json::object_text(event.stored_members()) =~= "{\"id\":"@ + json::string_text(
            event.id,
        ) + ","@ + rest);
    }
}

} // verus!
