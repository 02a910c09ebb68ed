use spread_bot::error::BotError;
use spread_bot::telegram::{check_reply, send_message_request, verify_chat_request, TelegramReply};

#[test]
fn send_message_request_fields() {
    let req = send_message_request("123:abc", "42", "/gm");
    assert_eq!(req.url, "https://api.telegram.org/bot123:abc/sendMessage");
    assert_eq!(req.fields, vec![("chat_id".to_string(), "42".to_string()), ("text".to_string(), "/gm".to_string())]);
}

#[test]
fn verify_chat_request_fields() {
    let req = verify_chat_request("123:abc", "42");
    assert_eq!(req.url, "https://api.telegram.org/bot123:abc/getChat");
    assert_eq!(req.fields, vec![("chat_id".to_string(), "42".to_string())]);
}

#[test]
fn reply_ok_only_when_true() {
    assert!(check_reply(&TelegramReply { ok: Some(true), description: None }, "sendMessage").is_ok());
    match check_reply(&TelegramReply { ok: Some(false), description: Some("Forbidden".to_string()) }, "sendMessage") {
        Err(BotError::Telegram { method, description }) => {
            assert_eq!(method, "sendMessage");
            assert_eq!(description, "Forbidden");
        }
        _ => panic!("ok=false must fail"),
    }
    match check_reply(&TelegramReply { ok: None, description: None }, "getChat") {
        Err(e) => assert_eq!(e.describe(), "Telegram getChat failed: unknown error"),
        Ok(()) => panic!("a missing ok must fail"),
    }
}
