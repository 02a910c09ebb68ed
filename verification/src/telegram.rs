//! Telegram Bot API: the requests the bot makes and how their replies are judged.

use vstd::prelude::*;
use crate::error::BotError;

verus! {

/// The URL of Bot API method `method` for the bot with `bot_token`.
pub open spec fn bot_method_url(bot_token: Seq<char>, method: Seq<char>) -> Seq<char> {
    "https://api.telegram.org/bot"@ + bot_token + seq!['/'] + method
}

/// A Bot API call: `sendMessage` sends `fields` as a form, `getChat` as the query.
pub struct TelegramRequest {
    pub url: String,
    pub fields: Vec<(String, String)>,
}

/// The fields of a request, taken by their views.
pub open spec fn request_fields_view(fields: Seq<(String, String)>) -> Seq<(Seq<char>, Seq<char>)> {
    fields.map_values(|p: (String, String)| (p.0@, p.1@))
}

fn method_url(bot_token: &str, method: &str) -> (url: String)
    ensures
        url@ == bot_method_url(bot_token@, method@),
{
    let mut url = String::from_str("https://api.telegram.org/bot");
    url.append(bot_token);
    url.push('/');
    url.append(method);
    url
}

/// The `sendMessage` call that sends `text` to `chat_id`.
pub fn send_message_request(bot_token: &str, chat_id: &str, text: &str) -> (req: TelegramRequest)
    ensures
        req.url@ == bot_method_url(bot_token@, "sendMessage"@),
        request_fields_view(req.fields@) == seq![("chat_id"@, chat_id@), ("text"@, text@)],
{
    let url = method_url(bot_token, "sendMessage");
    let mut fields: Vec<(String, String)> = Vec::new();
    fields.push((String::from_str("chat_id"), String::from_str(chat_id)));
    fields.push((String::from_str("text"), String::from_str(text)));
    assert(request_fields_view(fields@) =~= seq![("chat_id"@, chat_id@), ("text"@, text@)]);
    TelegramRequest { url, fields }
}

/// The `getChat` call that checks the bot can reach `chat_id`.
pub fn verify_chat_request(bot_token: &str, chat_id: &str) -> (req: TelegramRequest)
    ensures
        req.url@ == bot_method_url(bot_token@, "getChat"@),
        request_fields_view(req.fields@) == seq![("chat_id"@, chat_id@)],
{
    let url = method_url(bot_token, "getChat");
    let mut fields: Vec<(String, String)> = Vec::new();
    fields.push((String::from_str("chat_id"), String::from_str(chat_id)));
    assert(request_fields_view(fields@) =~= seq![("chat_id"@, chat_id@)]);
    TelegramRequest { url, fields }
}

/// The fields of a Bot API reply that decide whether the call succeeded.
pub struct TelegramReply {
    /// `ok`, when it is a boolean.
    pub ok: Option<bool>,
    /// `description`, when it is a string.
    pub description: Option<String>,
}

/// A reply succeeds exactly when `ok` is `true`; otherwise the error names
/// the call and carries the description ("unknown error" when missing).
pub fn check_reply(reply: &TelegramReply, method: &str) -> (r: Result<(), BotError>)
    ensures
        r is Ok <==> reply.ok == Some(true),
        r matches Err(e) ==> (e matches BotError::Telegram { method: m, description: d }
            && m@ == method@ && d@ == match reply.description {
            Some(d) => d@,
            None => "unknown error"@,
        }),
{
    let ok = match reply.ok {
        Some(b) => b,
        None => false,
    };
    if !ok {
        let description = match &reply.description {
            Some(d) => d.clone(),
            None => String::from_str("unknown error"),
        };
        return Err(BotError::Telegram { method: String::from_str(method), description });
    }
    Ok(())
}

} // verus!
