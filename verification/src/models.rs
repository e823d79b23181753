//! The payload and row types the service exchanges with its collaborators,
//! and the pagination rule of the message listing.
use crate::errors::{ValidationDetail, ValidationError};
use vstd::prelude::*;

verus! {

/// The response to a successful token insertion.
pub struct OnSuccessTokenAdd {
    pub refresh_token: String,
}

/// An error relayed from the AI provider.
pub struct GeminiApiError {
    pub code: u16,
    pub message: String,
}

/// The provider's error envelope.
pub struct GeminiApiErrorWrapper {
    pub error: GeminiApiError,
}

/// A persistence-layer failure surfaced to the client.
pub struct DatabaseError {
    pub error: String,
}

/// The service's top-level error: a validation payload or a relayed
/// provider error.
pub enum AppError {
    Validation(ValidationError),
    Gemini(GeminiApiErrorWrapper),
}

/// A conversation id picked out of a request path.
pub struct ConversationID {
    pub id: i64,
}

/// An incoming chat message.
pub struct Message {
    pub msg: String,
}

/// The AI provider's reply.
pub struct AiResponse {
    pub ai_response: String,
}

/// A stored conversation.
pub struct Conversation {
    pub id: i64,
    pub user_id: i64,
    pub title: String,
    pub created_at: i64,
    pub updated_at: i64,
}

/// A stored chat message.
pub struct ConvMessage {
    conversation_id: i64,
    role: String,
    content: String,
    timestamp: i64,
    token_count: i64,
}

impl ConvMessage {
    pub fn new(conversation_id: i64, role: String, content: String, timestamp: i64, token_count: i64) -> (
        r: ConvMessage)
        ensures
            r.conversation_id() == conversation_id,
            r.role() == role@,
            r.content() == content@,
            r.timestamp() == timestamp,
            r.token_count() == token_count,
    {
        ConvMessage { conversation_id, role, content, timestamp, token_count }
    }

    pub closed spec fn conversation_id(&self) -> i64 {
        self.conversation_id
    }

    pub closed spec fn role(&self) -> Seq<char> {
        self.role@
    }

    pub closed spec fn content(&self) -> Seq<char> {
        self.content@
    }

    pub closed spec fn timestamp(&self) -> i64 {
        self.timestamp
    }

    pub closed spec fn token_count(&self) -> i64 {
        self.token_count
    }
}

/// A websocket message's conversation tag.
pub struct UserMessage {
    pub conversation_id: i64,
}

/// A conversation title update.
pub struct Title {
    pub title: String,
}

/// A user row as the users table holds it.
pub struct UserDB {
    pub id: i64,
    pub name: String,
    pub password: String,
    pub email: String,
}

/// A registration request.
pub struct RegisterData {
    pub name: String,
    pub password: String,
    pub email: String,
}

/// A login request.
pub struct LoginData {
    pub password: String,
    pub email: String,
}

/// The response to a successful registration.
pub struct OnSuccessRegister {
    pub message: String,
    pub user_id: i64,
}

/// A token row in its plain, at-rest shape.
pub struct DBToken {
    pub id: i64,
    pub token: String,
    pub name: String,
    pub email: String,
    pub user_id: i64,
    pub exp: i64,
    pub used: bool,
}

/// A refresh request's payload.
pub struct RefreshToken {
    pub refresh_token: String,
}

/// The page a message listing asks for.
pub struct PaginationParams {
    pub page: Option<u32>,
    pub limit: Option<u32>,
}

/// The requested page number, defaulting to 1.
pub open spec fn page_of(p: PaginationParams) -> u32 {
    match p.page {
        Some(v) => v,
        None => 1u32,
    }
}

/// The requested page size, defaulting to 10.
pub open spec fn limit_of(p: PaginationParams) -> u32 {
    match p.limit {
        Some(v) => v,
        None => 10u32,
    }
}

/// Resolves pagination parameters to a page, a limit, and the row offset
/// of that page.  A zero page or limit is rejected with one message per
/// offending field.
pub fn page_window(params: &PaginationParams) -> (r: Result<(u32, u32, u64), ValidationError>)
    ensures
        r is Ok <==> page_of(*params) != 0 && limit_of(*params) != 0,
        r matches Ok(t) ==> t.0 == page_of(*params) && t.1 == limit_of(*params) && t.2 == (page_of(
            *params,
        ) - 1) * limit_of(*params),
        r matches Err(e) ==> e.error@ == "Invalid pagination parameters"@ && e.details@.len() == 2,
{
    let page = match params.page {
        Some(v) => v,
        None => 1,
    };
    let limit = match params.limit {
        Some(v) => v,
        None => 10,
    };
    if page == 0 || limit == 0 {
        let mut page_messages: Vec<String> = Vec::new();
        if page == 0 {
            page_messages.push(String::from_str("Page must be greater than 0"));
        }
        let mut limit_messages: Vec<String> = Vec::new();
        if limit == 0 {
            limit_messages.push(String::from_str("Limit must be greater than 0"));
        }
        let mut details: Vec<ValidationDetail> = Vec::new();
        details.push(ValidationDetail { field: String::from_str("page"), messages: page_messages });
        details.push(
            ValidationDetail { field: String::from_str("limit"), messages: limit_messages },
        );
        proof {
            reveal_strlit("Invalid pagination parameters");
        }
        return Err(
            ValidationError { error: String::from_str("Invalid pagination parameters"), details },
        );
    }
    let pm1: u64 = (page - 1) as u64;
    let lm: u64 = limit as u64;
    proof {
        assert(pm1 * lm <= u64::MAX) by (nonlinear_arith)
            requires
                pm1 < 0x1_0000_0000,
                lm < 0x1_0000_0000,
        ;
    }
    let offset: u64 = pm1 * lm;
    Ok((page, limit, offset))
}

} // verus!
