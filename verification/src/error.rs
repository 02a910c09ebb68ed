//! The errors that the bot's requests and settings can end in.

use vstd::prelude::*;
use crate::text::{i64_to_decimal, signed_decimal_text};

verus! {

/// Why a request, a reply or the settings were refused.
pub enum BotError {
    /// Bybit answered with a `retCode` other than zero.
    Api { code: i64, message: String },
    /// Telegram answered without `"ok": true`; `method` names the Bot API call.
    Telegram { method: String, description: String },
    /// A request body could not be serialised; the text is the serialiser's.
    Encode { message: String },
    /// A request could not be sent or its reply not read: `message` says
    /// which, `cause` is the underlying error's text.
    Transport { message: String, cause: String },
    /// A required environment variable is not set.
    MissingEnv { name: String },
}

/// The text that describes an error, as the bot reports it (for a transport
/// failure, without its cause).
pub open spec fn error_text(e: BotError) -> Seq<char> {
    match e {
        BotError::Api { code, message } => "Bybit API error "@ + signed_decimal_text(code as int)
            + ": "@ + message@,
        BotError::Telegram { method, description } => "Telegram "@ + method@ + " failed: "@
            + description@,
        BotError::Encode { message } => message@,
        BotError::Transport { message, .. } => message@,
        BotError::MissingEnv { name } => name@ + " env var is not set"@,
    }
}

impl BotError {
    /// The text that describes this error.
    pub fn describe(&self) -> (s: String)
        ensures
            s@ == error_text(*self),
    {
        match self {
            BotError::Api { code, message } => {
                let mut s = String::from_str("Bybit API error ");
                s.append(i64_to_decimal(*code).as_str());
                s.append(": ");
                s.append(message.as_str());
                s
            },
            BotError::Telegram { method, description } => {
                let mut s = String::from_str("Telegram ");
                s.append(method.as_str());
                s.append(" failed: ");
                s.append(description.as_str());
                s
            },
            BotError::Encode { message } => message.clone(),
            BotError::Transport { message, .. } => message.clone(),
            BotError::MissingEnv { name } => {
                let mut s = name.clone();
                s.append(" env var is not set");
                s
            },
        }
    }
}

} // verus!
