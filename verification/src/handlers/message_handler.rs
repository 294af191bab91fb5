//! Messages that a client sends.

use super::{answer, AppError, JsonResponse, Query, ValidationError, MAX_CLIENT_ID_LEN};
use crate::config::MessageLimits;
use crate::encoding;
use crate::json;
use crate::models::{TonEvent, TonEventView};
use crate::storage::EventStorageError;
use crate::text;
use vstd::prelude::*;
use vstd::string::*;
use vstd::utf8::*;

verus! {

/// The parameters of a request to send a message.
#[derive(Debug)]
pub struct SendMessageQueryParams {
    /// The client that sends.
    pub client_id: String,
    /// The client that the message is for.
    pub to: String,
    /// How long the message may live, in seconds.
    pub ttl: Option<u16>,
}

/// The answer to a message that was taken.
#[derive(Debug)]
pub struct SendMessageResponse {
    pub message: String,
    /// The HTTP status code.
    pub code: u16,
}

/// Whether `id` is longer than a client id may be.
pub open spec fn id_too_long(id: Seq<char>) -> bool {
    encode_utf8(id).len() > MAX_CLIENT_ID_LEN
}

/// Why the parameters are refused; `None` where they are not. The first reason
/// counts.
pub open spec fn query_refusal(
    client_id: Seq<char>,
    to: Seq<char>,
    ttl: Option<u16>,
    max_ttl_sec: u16,
) -> Option<Seq<char>> {
    if client_id.len() == 0 {
        Some("Failed to deserialize query string: empty field `client_id`"@)
    } else if id_too_long(client_id) {
        Some(
            "Failed to deserialize query string: field `client_id` must not exceed "@
                + text::decimal(MAX_CLIENT_ID_LEN as nat) + " characters"@,
        )
    } else if to.len() == 0 {
        Some("Failed to deserialize query string: empty field `to`"@)
    } else if id_too_long(to) {
        Some(
            "Failed to deserialize query string: field `to` must not exceed "@ + text::decimal(
                MAX_CLIENT_ID_LEN as nat,
            ) + " characters"@,
        )
    } else if ttl is Some && ttl->0 > max_ttl_sec {
        Some(
            "Failed to deserialize query string: `ttl` value must be less than "@ + text::decimal(
                max_ttl_sec as nat,
            ),
        )
    } else {
        None
    }
}

impl SendMessageQueryParams {
    /// Why the parameters are refused.
    pub open spec fn refusal(&self, max_ttl_sec: u16) -> Option<Seq<char>> {
        query_refusal(self.client_id@, self.to@, self.ttl, max_ttl_sec)
    }

    /// Refuses parameters that name no sender or recipient, or one whose id is
    /// too long, or that ask for more time than a message may have.
    pub fn validate(&self, max_ttl_sec: u16) -> (r: Result<(), ValidationError>)
        ensures
            r is Ok <==> self.refusal(max_ttl_sec) is None,
            r is Err ==> r->Err_0.0@ == self.refusal(max_ttl_sec)->0,
            r is Ok <==> {
                &&& self.client_id@.len() > 0 && encode_utf8(self.client_id@).len() <= 64
                &&& self.to@.len() > 0 && encode_utf8(self.to@).len() <= 64
                &&& self.ttl is Some ==> self.ttl->0 <= max_ttl_sec
            },
    {
        if self.client_id.as_str().is_empty() {
            return Err(
                ValidationError(
                    "Failed to deserialize query string: empty field `client_id`".to_owned(),
                ),
            );
        }
        if text::byte_len(self.client_id.as_str()) > MAX_CLIENT_ID_LEN {
            return Err(
                ValidationError(
                    "Failed to deserialize query string: field `client_id` must not exceed ".to_owned().concat(
                    text::decimal_text(MAX_CLIENT_ID_LEN as u64).as_str()).concat(" characters"),
                ),
            );
        }
        if self.to.as_str().is_empty() {
            return Err(
                ValidationError(
                    "Failed to deserialize query string: empty field `to`".to_owned(),
                ),
            );
        }
        if text::byte_len(self.to.as_str()) > MAX_CLIENT_ID_LEN {
            return Err(
                ValidationError(
                    "Failed to deserialize query string: field `to` must not exceed ".to_owned().concat(
                    text::decimal_text(MAX_CLIENT_ID_LEN as u64).as_str()).concat(" characters"),
                ),
            );
        }
        if let Some(ttl) = self.ttl {
            if ttl > max_ttl_sec {
                return Err(
                    ValidationError(
                        "Failed to deserialize query string: `ttl` value must be less than ".to_owned().concat(
                        text::decimal_text(max_ttl_sec as u64).as_str()),
                    ),
                );
            }
        }
        Ok(())
    }
}

/// Why the body of a message is refused; `None` where it is not.
pub open spec fn body_refusal(body: Seq<char>) -> Option<Seq<char>> {
    if body.len() == 0 {
        Some("Missing request body"@)
    } else if !encoding::is_base64(body) {
        Some("Request body must be a valid base64 message"@)
    } else {
        None
    }
}

/// Refuses a body that is empty or not base64.
pub fn validate_message_body(body: &String) -> (r: Result<(), ValidationError>)
    ensures
        r is Ok <==> body_refusal(body@) is None,
        r is Ok <==> body@.len() > 0 && encoding::is_base64(body@),
        r is Err ==> r->Err_0.0@ == body_refusal(body@)->0,
{
    if body.as_str().is_empty() {
        return Err(ValidationError("Missing request body".to_owned()));
    }
    if !encoding::decodes_as_base64(body.as_str()) {
        return Err(
            ValidationError("Request body must be a valid base64 message".to_owned()),
        );
    }
    Ok(())
}

/// How long a message lives for which `ttl` was asked.
pub open spec fn granted_ttl(ttl: Option<u16>, limits: MessageLimits) -> u16 {
    if ttl is Some && ttl->0 >= limits.min_ttl_sec {
        ttl->0
    } else {
        limits.max_ttl_sec
    }
}

/// How long a message lives: as long as was asked, unless that is less than the
/// shortest time or nothing was asked.
pub fn grant_ttl(ttl: Option<u16>, limits: MessageLimits) -> (r: u16)
    ensures
        r == granted_ttl(ttl, limits),
        ttl is Some && ttl->0 >= limits.min_ttl_sec ==> r == ttl->0,
        ttl is Some && ttl->0 < limits.min_ttl_sec ==> r == limits.max_ttl_sec,
        ttl is None ==> r == limits.max_ttl_sec,
{
    match ttl {
        Some(v) => if v >= limits.min_ttl_sec {
            v
        } else {
            limits.max_ttl_sec
        },
        None => limits.max_ttl_sec,
    }
}

/// Why a message is refused; `None` where it is taken.
pub open spec fn message_refusal(
    client_id: Seq<char>,
    to: Seq<char>,
    ttl: Option<u16>,
    body: Seq<char>,
    limits: MessageLimits,
) -> Option<Seq<char>> {
    let refusal = query_refusal(client_id, to, ttl, limits.max_ttl_sec);
    if refusal is Some {
        refusal
    } else {
        body_refusal(body)
    }
}

/// The event for a message that arrived at `now`.
pub open spec fn message_event(
    client_id: Seq<char>,
    to: Seq<char>,
    ttl: Option<u16>,
    body: Seq<char>,
    limits: MessageLimits,
    now: u64,
) -> TonEventView {
    TonEventView {
        id: Seq::empty(),
        from: client_id,
        to,
        message: body,
        deadline: (now + granted_ttl(ttl, limits)) as u64,
    }
}

/// Takes a message that arrived at `now`, in seconds since the Unix epoch:
/// gives the event that is to be stored, or the error that answers the request.
pub fn message_handler(
    query: Query<SendMessageQueryParams>,
    body: String,
    limits: MessageLimits,
    now: u64,
) -> (r: Result<TonEvent, AppError>)
    requires
        message_refusal(query.0.client_id@, query.0.to@, query.0.ttl, body@, limits) is None
            ==> now + granted_ttl(query.0.ttl, limits) <= u64::MAX,
    ensures
        ({
            let refusal = message_refusal(
                query.0.client_id@,
                query.0.to@,
                query.0.ttl,
                body@,
                limits,
            );
            &&& r is Ok <==> refusal is None
            &&& r is Ok ==> r->Ok_0@ == message_event(
                query.0.client_id@,
                query.0.to@,
                query.0.ttl,
                body@,
                limits,
                now,
            )
            &&& r is Err ==> r->Err_0.status == 400 && r->Err_0.message@ == refusal->0
        }),
{
    let Query(query) = query;
    if let Err(e) = query.validate(limits.max_ttl_sec) {
        return Err(AppError::from(e));
    }
    if let Err(e) = validate_message_body(&body) {
        return Err(AppError::from(e));
    }
    let ttl: u16 = grant_ttl(query.ttl, limits);
    Ok(
        TonEvent {
            id: String::new(),
            from: query.client_id,
            to: query.to,
            message: body,
            deadline: now + ttl as u64,
        },
    )
}

/// Answers a message, once the storage has taken its event or failed to.
pub fn message_response(stored: Result<(), EventStorageError>) -> (r: Result<
    SendMessageResponse,
    AppError,
>)
    ensures
        r is Ok <==> stored is Ok,
        r is Ok ==> r->Ok_0.code == 200 && r->Ok_0.message@ == "OK"@,
        r is Err ==> r->Err_0.status == 500 && r->Err_0.message@ == "something went wrong"@,
{
    match stored {
        Ok(_) => Ok(SendMessageResponse { message: "OK".to_owned(), code: 200 }),
        Err(e) => Err(AppError::from(e)),
    }
}

impl SendMessageResponse {
    /// The answer as it is sent.
    pub fn into_response(self) -> (r: JsonResponse)
        ensures
            r.status == 200,
            r.body@ == json::object_text(super::answer_members(self.message@, self.code)),
    {
        let r: JsonResponse = answer(self.message.as_str(), self.code);
        JsonResponse { status: 200, body: r.body }
    }
}

/// The bridge does not tell senders from recipients: a message that is taken
/// from one client for another is taken in the other direction as well.
pub proof fn law_communication_is_symmetrical(
    a: Seq<char>,
    b: Seq<char>,
    ttl: Option<u16>,
    body: Seq<char>,
    limits: MessageLimits,
)
    ensures
        message_refusal(a, b, ttl, body, limits) is None <==> message_refusal(
            b,
            a,
            ttl,
            body,
            limits,
        ) is None,
{
}

/// A message that is taken lives no longer than a message may, and no shorter
/// than the shortest time that can be asked for, if that is not the longer of
/// the two.
pub proof fn law_lifetime_is_within_limits(
    client_id: Seq<char>,
    to: Seq<char>,
    ttl: Option<u16>,
    body: Seq<char>,
    limits: MessageLimits,
    now: u64,
)
    requires
        message_refusal(client_id, to, ttl, body, limits) is None,
        now + granted_ttl(ttl, limits) <= u64::MAX,
    ensures
        ({
            let deadline = message_event(client_id, to, ttl, body, limits, now).deadline;
            &&& now <= deadline <= now + limits.max_ttl_sec
            &&& limits.min_ttl_sec <= limits.max_ttl_sec ==> now + limits.min_ttl_sec <= deadline
        }),
{
}

/// A message that is taken lives as long as its sender asked, where that is no
/// less than the shortest time that can be asked for; where less was asked, or
/// nothing, it lives as long as a message may. The event is from the sender, for
/// the recipient, holds the body as it came, and has no id yet.
pub proof fn law_asked_time_is_granted(
    client_id: Seq<char>,
    to: Seq<char>,
    ttl: Option<u16>,
    body: Seq<char>,
    limits: MessageLimits,
    now: u64,
)
    requires
        message_refusal(client_id, to, ttl, body, limits) is None,
    ensures
        ({
            let event = message_event(client_id, to, ttl, body, limits, now);
            &&& ttl is Some ==> ttl->0 <= limits.max_ttl_sec
            &&& ttl is Some && limits.min_ttl_sec <= ttl->0 && now + ttl->0 <= u64::MAX
                ==> event.deadline == now + ttl->0
            &&& ttl is Some && ttl->0 < limits.min_ttl_sec && now + limits.max_ttl_sec <= u64::MAX
                ==> event.deadline == now + limits.max_ttl_sec
            &&& ttl is None && now + limits.max_ttl_sec <= u64::MAX ==> event.deadline == now
                + limits.max_ttl_sec
            &&& event.from == client_id
            &&& event.to == to
            &&& event.message == body
            &&& event.id.len() == 0
        }),
{
}

/// A message is taken exactly where it names a sender and a recipient, each by
/// an id of one to sixty-four bytes, asks for no more time than a message may
/// have, and has a body that is base64.
pub proof fn law_what_is_taken(
    client_id: Seq<char>,
    to: Seq<char>,
    ttl: Option<u16>,
    body: Seq<char>,
    limits: MessageLimits,
)
    ensures
        message_refusal(client_id, to, ttl, body, limits) is None <==> {
            &&& client_id.len() > 0 && encode_utf8(client_id).len() <= 64
            &&& to.len() > 0 && encode_utf8(to).len() <= 64
            &&& ttl is Some ==> ttl->0 <= limits.max_ttl_sec
            &&& body.len() > 0 && encoding::is_base64(body)
        },
{
}

/// What is wrong with the parameters of a request is the first thing that is
/// wrong with the message, whatever its body; where nothing is, the body counts.
pub proof fn law_parameters_come_first(
    query: SendMessageQueryParams,
    body: Seq<char>,
    limits: MessageLimits,
)
    ensures
        ({
            let answer = message_refusal(query.client_id@, query.to@, query.ttl, body, limits);
            let refusal = query.refusal(limits.max_ttl_sec);
            &&& refusal is Some ==> answer == refusal
            &&& refusal is None ==> answer == body_refusal(body)
            &&& refusal is None <==> {
                &&& query.client_id@.len() > 0 && encode_utf8(query.client_id@).len() <= 64
                &&& query.to@.len() > 0 && encode_utf8(query.to@).len() <= 64
                &&& query.ttl is Some ==> query.ttl->0 <= limits.max_ttl_sec
            }
        }),
        body.len() == 0 ==> body_refusal(body) == Some("Missing request body"@),
        body.len() > 0 && !encoding::is_base64(body) ==> body_refusal(body) == Some(
            "Request body must be a valid base64 message"@,
        ),
        body.len() > 0 && encoding::is_base64(body) ==> body_refusal(body) is None,
{
}

/// A payload of any bytes can be sent: its base64 text is no body that is
/// refused.
pub proof fn law_every_payload_can_be_sent(payload: Seq<u8>)
    requires
        payload.len() > 0,
    ensures
        body_refusal(encoding::encoded(payload)) is None,
{
    encoding::law_base64_is_the_text_of_bytes(Seq::empty(), payload);
    encoding::law_text_of_a_payload(payload);
}

/// What the answer to a message that is not taken says: the sender's id is
/// looked at first, then the recipient's, then the time that was asked for, and
/// the body last.
pub proof fn law_why_a_message_is_refused(
    client_id: Seq<char>,
    to: Seq<char>,
    ttl: Option<u16>,
    body: Seq<char>,
    limits: MessageLimits,
)
    ensures
        ({
            let answer = message_refusal(client_id, to, ttl, body, limits);
            let sender = client_id.len() > 0 && encode_utf8(client_id).len() <= 64;
            let recipient = to.len() > 0 && encode_utf8(to).len() <= 64;
            let time = ttl is None || ttl->0 <= limits.max_ttl_sec;
            &&& client_id.len() == 0 ==> answer == Some(
                "Failed to deserialize query string: empty field `client_id`"@,
            )
            &&& client_id.len() > 0 && encode_utf8(client_id).len() > 64 ==> answer == Some(
                "Failed to deserialize query string: field `client_id` must not exceed 64 characters"@,
            )
            &&& sender && to.len() == 0 ==> answer == Some(
                "Failed to deserialize query string: empty field `to`"@,
            )
            &&& sender && to.len() > 0 && encode_utf8(to).len() > 64 ==> answer == Some(
                "Failed to deserialize query string: field `to` must not exceed 64 characters"@,
            )
            &&& sender && recipient && !time ==> answer == Some(
                "Failed to deserialize query string: `ttl` value must be less than "@
                    + text::decimal(limits.max_ttl_sec as nat),
            )
            &&& sender && recipient && time && body.len() == 0 ==> answer == Some(
                "Missing request body"@,
            )
            &&& sender && recipient && time && body.len() > 0 && !encoding::is_base64(body)
                ==> answer == Some("Request body must be a valid base64 message"@)
        }),
{
    text::lemma_sixty_four();
    reveal_strlit("Failed to deserialize query string: field `client_id` must not exceed ");
    reveal_strlit(
        "Failed to deserialize query string: field `client_id` must not exceed 64 characters",
    );
    reveal_strlit("Failed to deserialize query string: field `to` must not exceed ");
    reveal_strlit("Failed to deserialize query string: field `to` must not exceed 64 characters");
    reveal_strlit(" characters");
    reveal_strlit("64");
    assert("Failed to deserialize query string: field `client_id` must not exceed "@ + "64"@
        + " characters"@
        =~= "Failed to deserialize query string: field `client_id` must not exceed 64 characters"@);
    assert("Failed to deserialize query string: field `to` must not exceed "@ + "64"@
        + " characters"@
        =~= "Failed to deserialize query string: field `to` must not exceed 64 characters"@);
}

} // verus!
