//! The answers to HTTP requests.

use crate::json;
use crate::storage::EventStorageError;
use vstd::prelude::*;
use vstd::string::*;

pub mod message_handler;
pub mod sse_handler;

verus! {

/// The longest client id, in bytes.
pub const MAX_CLIENT_ID_LEN: usize = 64;

/// The parameters of a request's query string.
pub struct Query<T>(pub T);

/// Why a request was refused.
#[derive(Debug)]
pub struct ValidationError(pub String);

/// An answer that says that a request failed.
#[derive(Debug)]
pub struct AppError {
    pub message: String,
    /// The HTTP status code.
    pub status: u16,
}

/// An HTTP answer with a JSON body.
#[derive(Debug)]
pub struct JsonResponse {
    /// The HTTP status code.
    pub status: u16,
    pub body: String,
}

/// The members of an answer's JSON body.
pub open spec fn answer_members(message: Seq<char>, status: u16) -> Seq<
    (Seq<char>, json::JsonValue),
> {
    seq![
        ("message"@, json::JsonValue::Text(message)),
        ("statusCode"@, json::JsonValue::Number(status as nat)),
    ]
}

/// An answer with a message: the status stands in its body too.
pub(crate) fn answer(message: &str, status: u16) -> (r: JsonResponse)
    ensures
        r.status == status,
        r.body@ == json::object_text(answer_members(message@, status)),
{
    proof {
        reveal_strlit("message");
        reveal_strlit("statusCode");
        assert("message"@.len() == 7);
        assert("statusCode"@.len() == 10);
    }
    let mut object: json::JsonObject = json::JsonObject::new();
    object.insert_text("message", message);
    object.insert_number("statusCode", status as u64);
    assert(object@ =~= answer_members(message@, status));
    let body: String = object.write().unwrap();
    JsonResponse { status, body }
}

impl AppError {
    /// The answer that says so.
    pub fn into_response(self) -> (r: JsonResponse)
        ensures
            r.status == self.status,
            r.body@ == json::object_text(answer_members(self.message@, self.status)),
    {
        answer(self.message.as_str(), self.status)
    }
}

impl vstd::std_specs::convert::FromSpecImpl<ValidationError> for AppError {
    open spec fn obeys_from_spec() -> bool {
        true
    }

    open spec fn from_spec(e: ValidationError) -> AppError {
        AppError { message: e.0, status: 400 }
    }
}

/// A request that is refused is answered with the reason.
impl From<ValidationError> for AppError {
    fn from(e: ValidationError) -> Self {
        AppError { message: e.0, status: 400 }
    }
}

impl vstd::std_specs::convert::FromSpecImpl<EventStorageError> for AppError {
    open spec fn obeys_from_spec() -> bool {
        false
    }

    open spec fn from_spec(e: EventStorageError) -> AppError {
        arbitrary()
    }
}

/// A failure of the storage is answered without saying what failed.
impl From<EventStorageError> for AppError {
    fn from(e: EventStorageError) -> (r: Self)
        ensures
            r.status == 500,
            r.message@ == "something went wrong"@,
    {
        AppError { message: "something went wrong".to_owned(), status: 500 }
    }
}

/// The body of an answer is the JSON object of its message and its status.
pub proof fn law_text_of_an_answer(message: Seq<char>, status: u16)
    ensures
        json::object_text(answer_members(message, status)) == "{\"message\":"@ + json::string_text(
            message,
        ) + ",\"statusCode\":"@ + crate::text::decimal(status as nat) + "}"@,
{
    reveal_strlit("message");
    reveal_strlit("statusCode");
    reveal_strlit("{\"message\":");
    reveal_strlit(",\"statusCode\":");
    reveal_strlit("}");
    json::law_plain_text_stands_for_itself("message"@);
    json::law_plain_text_stands_for_itself("statusCode"@);
    json::lemma_two_members(
        "message"@,
        json::JsonValue::Text(message),
        "statusCode"@,
        json::JsonValue::Number(status as nat),
    );
    assert("{\"message\":"@ =~= seq!['{'] + json::string_text("message"@) + seq![':']);
    assert(",\"statusCode\":"@ =~= seq![','] + json::string_text("statusCode"@) + seq![':']);
    assert("}"@ =~= seq!['}']);
    assert(json::object_text(answer_members(message, status)) =~= "{\"message\":"@
        + json::string_text(message) + ",\"statusCode\":"@ + crate::text::decimal(status as nat)
        + "}"@);
}

} // verus!
