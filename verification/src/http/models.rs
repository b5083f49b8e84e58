//! OpenAI-compatible responses and errors.

use vstd::prelude::*;

use serde_json::Value;

use crate::crypto::primitives::{lower_case, to_lower};
use crate::json::{json_of, node_of, number_as_u64, Json, Node};
use crate::text::{
    contains, decimal_text, occurs_in, parse_unsigned, text_of, unsigned_value,
};
use crate::text_laws::law_part_of_two_texts;

verus! {

/// Non-streaming `chat/completions` response.
#[derive(Debug, Clone)]
pub struct ChatResponse {
    /// Provider-assigned completion id.
    pub id: String,
    /// Model that produced the completion.
    pub model: String,
    /// Generated choices (usually one).
    pub choices: Vec<Choice>,
    /// Token accounting, if the provider reports it.
    pub usage: Option<Usage>,
}

/// One generated completion choice.
#[derive(Debug, Clone)]
pub struct Choice {
    /// Position of this choice in the response.
    pub index: u32,
    /// The generated message.
    pub message: Message,
    /// Why generation stopped (`stop`, `length`, ...).
    pub finish_reason: Option<String>,
}

/// A chat message (request or response).
#[derive(Debug)]
pub struct Message {
    /// `system`, `user`, `assistant`, ...
    pub role: String,
    /// Message text content.
    pub content: String,
}

/// What a [`Message`] stands for.
pub struct MessageView {
    /// `system`, `user`, `assistant`, ...
    pub role: Seq<char>,
    /// Message text content.
    pub content: Seq<char>,
}

impl View for Message {
    type V = MessageView;

    open spec fn view(&self) -> MessageView {
        MessageView { role: self.role@, content: self.content@ }
    }
}

impl Clone for Message {
    fn clone(&self) -> (r: Message)
        ensures
            r@ == self@,
    {
        Message { role: self.role.clone(), content: self.content.clone() }
    }
}

/// Token usage accounting.
#[derive(Debug, Clone, Copy)]
pub struct Usage {
    /// Tokens consumed by the prompt.
    pub prompt_tokens: u64,
    /// Tokens generated in the completion.
    pub completion_tokens: u64,
    /// Total tokens billed.
    pub total_tokens: u64,
}

/// One SSE chunk of a streaming completion.
#[derive(Debug, Clone)]
pub struct ChatChunk {
    /// Provider-assigned completion id.
    pub id: String,
    /// Model that produced the chunk.
    pub model: String,
    /// Incremental choice deltas.
    pub choices: Vec<ChunkChoice>,
}

/// One choice inside a streaming chunk.
#[derive(Debug, Clone)]
pub struct ChunkChoice {
    /// Position of this choice in the response.
    pub index: u32,
    /// Incremental content update.
    pub delta: Delta,
    /// Why generation stopped, present only on the final chunk.
    pub finish_reason: Option<String>,
}

/// Incremental message fragment inside a streaming choice.
#[derive(Debug, Clone)]
pub struct Delta {
    /// Role, present only on the first chunk.
    pub role: Option<String>,
    /// Text fragment to append.
    pub content: Option<String>,
}

impl Default for Delta {
    fn default() -> (r: Delta)
        ensures
            r.role is None,
            r.content is None,
    {
        Delta { role: None, content: None }
    }
}

/// Error object a provider may return in a body, or inject mid-stream.
#[derive(Debug)]
pub struct ApiErrorEnvelope {
    /// The wrapped error body.
    pub error: ApiErrorBody,
}

/// Provider error details.
#[derive(Debug)]
pub struct ApiErrorBody {
    /// Human-readable error message.
    pub message: String,
    /// Providers send this as a number (`"code": 429`) or string
    /// (`"code": "429"` / `"rate_limit_exceeded"`), so anything is accepted.
    pub code: Option<Value>,
    /// Provider-specific error type tag.
    pub kind: Option<String>,
    /// Alternative status field some providers use.
    pub status: Option<Value>,
}

/// What an [`ApiErrorBody`] stands for.
pub struct ErrorView {
    /// Human-readable error message.
    pub message: Seq<char>,
    /// Error code, of any form.
    pub code: Option<Json>,
    /// Provider-specific error type tag.
    pub kind: Option<Seq<char>>,
    /// Alternative status field.
    pub status: Option<Json>,
}

/// What an optional value stands for.
pub open spec fn optional_json(value: Option<Value>) -> Option<Json> {
    match value {
        Some(v) => Some(json_of(v)),
        None => None,
    }
}

impl View for ApiErrorBody {
    type V = ErrorView;

    open spec fn view(&self) -> ErrorView {
        ErrorView {
            message: self.message@,
            code: optional_json(self.code),
            kind: text_of(self.kind),
            status: optional_json(self.status),
        }
    }
}

/// What a field says of the code: nothing, or that it is this number, or that
/// it is a number but no code.
pub open spec fn field_code(field: Option<Json>) -> Option<Option<u16>> {
    match field {
        Some(Json::Number(number)) => match number.natural {
            Some(n) => Some(
                if n <= u16::MAX {
                    Some(n as u16)
                } else {
                    None
                },
            ),
            None => None,
        },
        Some(Json::Text(text)) => match unsigned_value(text, u16::MAX as u64) {
            Some(n) => Some(Some(n as u16)),
            None => None,
        },
        _ => None,
    }
}

/// The code that well-known symbolic identifiers stand for.
pub open spec fn symbolic_code(hay: Seq<char>) -> Option<u16> {
    if occurs_in(hay, "rate_limit"@) || occurs_in(hay, "resource_exhausted"@) {
        Some(429)
    } else if occurs_in(hay, "invalid_api_key"@) || occurs_in(hay, "unauthenticated"@) {
        Some(401)
    } else if occurs_in(hay, "permission"@) {
        Some(403)
    } else {
        None
    }
}

impl ErrorView {
    /// Where symbolic identifiers are looked for: the type tag and the code, if
    /// that is a text, in lower case and set apart by a space. A space is no
    /// letter, so that each is in lower case what it is on its own.
    pub open spec fn hay(self) -> Seq<char> {
        let kind = match self.kind {
            Some(text) => lower_case(text),
            None => ""@,
        };
        let code = match self.code {
            Some(Json::Text(text)) => lower_case(text),
            _ => ""@,
        };
        kind + " "@ + code
    }

    /// The numeric code of the error: the first of `code` and `status` that
    /// says one, else what the symbolic identifiers stand for.
    pub open spec fn numeric(self) -> Option<u16> {
        match field_code(self.code) {
            Some(code) => code,
            None => match field_code(self.status) {
                Some(code) => code,
                None => symbolic_code(self.hay()),
            },
        }
    }
}

/// What a field says of the code.
fn code_in(field: &Option<Value>) -> (r: Option<Option<u16>>)
    ensures
        r == field_code(optional_json(*field)),
{
    match field {
        Some(value) => match node_of(value.clone()) {
            Node::Number(number) => match number_as_u64(&number) {
                Some(n) => {
                    if n <= 65_535 {
                        Some(Some(n as u16))
                    } else {
                        Some(None)
                    }
                },
                None => None,
            },
            Node::Text(text) => match parse_unsigned(text.as_str(), 65_535) {
                Some(n) => Some(Some(n as u16)),
                None => None,
            },
            _ => None,
        },
        None => None,
    }
}

/// The code that well-known symbolic identifiers stand for.
pub fn code_of_symbols(hay: &str) -> (r: Option<u16>)
    ensures
        r == symbolic_code(hay@),
{
    if contains(hay, "rate_limit") || contains(hay, "resource_exhausted") {
        Some(429)
    } else if contains(hay, "invalid_api_key") || contains(hay, "unauthenticated") {
        Some(401)
    } else if contains(hay, "permission") {
        Some(403)
    } else {
        None
    }
}

impl ApiErrorBody {
    /// Best-effort numeric code extraction from `code`/`status` fields.
    pub fn numeric_code(&self) -> (r: Option<u16>)
        ensures
            r == self@.numeric(),
    {
        if let Some(code) = code_in(&self.code) {
            return code;
        }
        if let Some(code) = code_in(&self.status) {
            return code;
        }
        let kind: String = match &self.kind {
            Some(text) => to_lower(text.as_str()),
            None => "".to_string(),
        };
        let code: String = match &self.code {
            Some(value) => match node_of(value.clone()) {
                Node::Text(text) => to_lower(text.as_str()),
                _ => "".to_string(),
            },
            None => "".to_string(),
        };
        let hay: String = kind.concat(" ").concat(code.as_str());
        code_of_symbols(hay.as_str())
    }
}

/// A number says the same as the text of its digits.
pub proof fn law_number_and_text_agree(code: u16)
    ensures
        field_code(Some(Json::Number(crate::json::natural_number(code as u64)))) == Some(Some(code)),
        field_code(Some(Json::Text(crate::text::decimal_text(code as nat)))) == Some(Some(code)),
{
    crate::text::law_decimal_round_trip(code as u64, u16::MAX as u64);
}

/// Whether the type tag or the text of the code, in lower case, holds an
/// identifier.
pub open spec fn names(e: ErrorView, identifier: Seq<char>) -> bool {
    (e.kind matches Some(kind) && occurs_in(lower_case(kind), identifier)) || (e.code
        matches Some(Json::Text(code)) && occurs_in(lower_case(code), identifier))
}

proof fn lemma_names(e: ErrorView, identifier: Seq<char>)
    requires
        identifier.len() > 0,
        !identifier.contains(' '),
    ensures
        occurs_in(e.hay(), identifier) <==> names(e, identifier),
{
    reveal_strlit("");
    reveal_strlit(" ");
    let kind = match e.kind {
        Some(text) => lower_case(text),
        None => ""@,
    };
    let code = match e.code {
        Some(Json::Text(text)) => lower_case(text),
        _ => ""@,
    };
    assert(" "@ =~= seq![' ']);
    law_part_of_two_texts(kind, ' ', code, identifier);
}

/// An error that neither its code nor its status gives a number is told by the
/// identifiers that its type tag or the text of its code names, whichever of the
/// two does and whatever the other says: a rate limit before a refused key, and
/// that before a missing permission.
pub proof fn law_either_field_names_the_error(e: ErrorView)
    requires
        field_code(e.code) is None,
        field_code(e.status) is None,
    ensures
        ({
            let limited = names(e, "rate_limit"@) || names(e, "resource_exhausted"@);
            let refused = names(e, "invalid_api_key"@) || names(e, "unauthenticated"@);
            let forbidden = names(e, "permission"@);
            &&& e.numeric() == Some(429u16) <==> limited
            &&& e.numeric() == Some(401u16) <==> refused && !limited
            &&& e.numeric() == Some(403u16) <==> forbidden && !refused && !limited
            &&& e.numeric() is None <==> !limited && !refused && !forbidden
        }),
{
    reveal_strlit("rate_limit");
    reveal_strlit("resource_exhausted");
    reveal_strlit("invalid_api_key");
    reveal_strlit("unauthenticated");
    reveal_strlit("permission");
    lemma_names(e, "rate_limit"@);
    lemma_names(e, "resource_exhausted"@);
    lemma_names(e, "invalid_api_key"@);
    lemma_names(e, "unauthenticated"@);
    lemma_names(e, "permission"@);
}

/// A code or status that is a number is the numeric code, the code before the
/// status, whether it is written as a number or as text; a number that is no
/// status code at all is none. Anything else says nothing.
pub proof fn law_numbers_come_first(e: ErrorView, n: u16)
    ensures
        (e.code matches Some(Json::Number(number)) && number.natural == Some(n as u64))
            ==> e.numeric() == Some(n),
        e.code == Some(Json::Text(decimal_text(n as nat))) ==> e.numeric() == Some(n),
        (e.code is None || e.code == Some(Json::Null)) && (e.status matches Some(
            Json::Number(number),
        ) && number.natural == Some(n as u64)) ==> e.numeric() == Some(n),
        (e.code is None || e.code == Some(Json::Null)) && e.status == Some(
            Json::Text(decimal_text(n as nat)),
        ) ==> e.numeric() == Some(n),
        (e.code matches Some(Json::Number(number)) && number.natural is Some
            && number.natural->0 > u16::MAX) ==> e.numeric() is None,
        field_code(None) is None,
        field_code(Some(Json::Null)) is None,
        forall|b: bool| #[trigger] field_code(Some(Json::Bool(b))) is None,
        forall|text: Seq<char>|
            unsigned_value(text, u16::MAX as u64) is None ==> #[trigger] field_code(
                Some(Json::Text(text)),
            ) is None,
{
    crate::text::law_decimal_round_trip(n as u64, u16::MAX as u64);
}

/// Messages and errors say what their fields hold.
pub proof fn law_message_views(message: Message, body: ApiErrorBody)
    ensures
        message@.role == message.role@,
        message@.content == message.content@,
        body@.message == body.message@,
        body@.kind == text_of(body.kind),
        body.code matches Some(value) ==> body@.code == Some(json_of(value)),
        body.code is None ==> body@.code is None,
        body.status matches Some(value) ==> body@.status == Some(json_of(value)),
        body.status is None ==> body@.status is None,
{
}

} // verus!
