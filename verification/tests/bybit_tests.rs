use spread_bot::bybit::{
    check_ret_code, leverage_outcome, market_order_body, order_id_of, query_string, set_leverage_body, step_decimals, ApiReply,
    BybitClient, HttpMethod, InstrumentInfo, InstrumentPages, LotSizeFilter, MarketOrder, PriceFilter, Side,
};
use spread_bot::error::BotError;

fn client() -> BybitClient {
    BybitClient::new("mykey".to_string(), "mysecret".to_string(), true)
}

fn inst(symbol: &str) -> InstrumentInfo {
    InstrumentInfo {
        symbol: symbol.to_string(),
        base_coin: "BTC".to_string(),
        quote_coin: "USDT".to_string(),
        status: "Trading".to_string(),
        lot_size_filter: LotSizeFilter { qty_step: "0.001".to_string(), min_order_qty: "0.001".to_string() },
        price_filter: PriceFilter { tick_size: "0.1".to_string() },
    }
}

#[test]
fn step_decimals_counts_places_after_the_point() {
    assert_eq!(step_decimals("0.001"), 3);
    assert_eq!(step_decimals("0.1"), 1);
    assert_eq!(step_decimals("1"), 0);
    assert_eq!(step_decimals("10"), 0);
    assert_eq!(step_decimals(""), 0);
    assert_eq!(step_decimals("."), 0);
    assert_eq!(step_decimals("1."), 0);
    assert_eq!(step_decimals("0.5.5"), 3);
    assert_eq!(step_decimals("1.é"), 2);
}

#[test]
fn query_string_joins_in_order() {
    let params = vec![
        ("category".to_string(), "linear".to_string()),
        ("limit".to_string(), "1000".to_string()),
    ];
    assert_eq!(query_string(&params), "category=linear&limit=1000");
    assert_eq!(query_string(&vec![]), "");
}

#[test]
fn client_base_url_follows_network() {
    let main = BybitClient::new("k".to_string(), "s".to_string(), false);
    let req = main.get_signed("/v5/x", &vec![], "1");
    assert_eq!(req.url, "https://api.bybit.com/v5/x");
    let test = BybitClient::new("k".to_string(), "s".to_string(), true);
    let req = test.get_signed("/v5/x", &vec![], "1");
    assert_eq!(req.url, "https://api-testnet.bybit.com/v5/x");
}

#[test]
fn get_signed_signs_the_query_it_sends() {
    let pages = InstrumentPages::new();
    let req = client().instruments_page_request(&pages, "1700000000000");
    assert_eq!(req.method, HttpMethod::Get);
    assert_eq!(req.url, "https://api-testnet.bybit.com/v5/market/instruments-info?category=linear&limit=1000");
    assert_eq!(req.api_key, "mykey");
    assert_eq!(req.timestamp, "1700000000000");
    assert_eq!(req.recv_window, "5000");
    assert_eq!(req.signature, "484895047b5f39174c7e2426d6da339aa994839339fbf5ff95e754e85d74c421");
    assert!(req.body.is_none());
}

#[test]
fn tickers_request_asks_for_linear() {
    let req = client().tickers_request("1");
    assert_eq!(req.url, "https://api-testnet.bybit.com/v5/market/tickers?category=linear");
}

#[test]
fn set_leverage_signs_its_body() {
    let req = client().set_leverage_request("BTCUSDT", 10, "1700000000000").ok().unwrap();
    assert_eq!(req.method, HttpMethod::Post);
    assert_eq!(req.url, "https://api-testnet.bybit.com/v5/position/set-leverage");
    let body = req.body.clone().unwrap();
    assert_eq!(body, "{\"buyLeverage\":\"10\",\"category\":\"linear\",\"sellLeverage\":\"10\",\"symbol\":\"BTCUSDT\"}");
    assert_eq!(req.signature, "a95be47969d3782ef8503027a27e53a52d583d69d4ce3e034a6749ebe9b40b66");
}

#[test]
fn market_order_body_fields() {
    let order = MarketOrder { symbol: "BTCUSDC".to_string(), side: Side::Sell, qty: "0.010".to_string(), reduce_only: true };
    let body = market_order_body(&order);
    assert_eq!(body.len(), 7);
    let req = client().market_order_request(&order, "1").ok().unwrap();
    assert_eq!(req.url, "https://api-testnet.bybit.com/v5/order/create");
    assert_eq!(
        req.body.unwrap(),
        "{\"category\":\"linear\",\"orderType\":\"Market\",\"qty\":\"0.010\",\"reduceOnly\":true,\"side\":\"Sell\",\"symbol\":\"BTCUSDC\",\"timeInForce\":\"IOC\"}"
    );
    assert_eq!(set_leverage_body("X", 5).len(), 4);
}

#[test]
fn side_names_and_opposites() {
    assert_eq!(Side::Buy.as_str(), "Buy");
    assert_eq!(Side::Sell.as_str(), "Sell");
    assert_eq!(Side::Buy.opposite(), Side::Sell);
    assert_eq!(Side::Sell.opposite(), Side::Buy);
}

#[test]
fn ret_code_zero_is_success() {
    assert!(check_ret_code(&ApiReply { ret_code: Some(0), ret_msg: Some("OK".to_string()) }).is_ok());
    match check_ret_code(&ApiReply { ret_code: Some(10001), ret_msg: Some("params error".to_string()) }) {
        Err(e) => assert_eq!(e.describe(), "Bybit API error 10001: params error"),
        Ok(()) => panic!("a non-zero code must fail"),
    }
    match check_ret_code(&ApiReply { ret_code: None, ret_msg: None }) {
        Err(e) => assert_eq!(e.describe(), "Bybit API error -1: unknown error"),
        Ok(()) => panic!("a missing code must fail"),
    }
}

#[test]
fn leverage_not_modified_is_success() {
    let unchanged = BotError::Api { code: 110043, message: "leverage not modified".to_string() };
    assert!(leverage_outcome(Err(unchanged)).is_ok());
    let other = BotError::Api { code: 10001, message: "params error".to_string() };
    assert!(leverage_outcome(Err(other)).is_err());
    let transport = BotError::Transport {
        message: "POST request to Bybit failed".to_string(),
        cause: "error 110043 in connection".to_string(),
    };
    assert!(leverage_outcome(Err(transport)).is_err());
    assert!(leverage_outcome(Ok(())).is_ok());
}

#[test]
fn pages_are_collected_until_the_cursor_is_empty() {
    let mut pages = InstrumentPages::new();
    assert!(!pages.is_finished());
    assert_eq!(pages.page_params().len(), 2);
    pages.absorb(vec![inst("BTCUSDT"), inst("ETHUSDT")], Some("abc".to_string()));
    assert!(!pages.is_finished());
    let params = pages.page_params();
    assert_eq!(params.len(), 3);
    assert_eq!(params[2], ("cursor".to_string(), "abc".to_string()));
    let req = client().instruments_page_request(&pages, "1");
    assert_eq!(req.url, "https://api-testnet.bybit.com/v5/market/instruments-info?category=linear&limit=1000&cursor=abc");
    pages.absorb(vec![inst("SOLUSDT")], Some(String::new()));
    assert!(pages.is_finished());
    let all = pages.into_instruments();
    let symbols: Vec<String> = all.iter().map(|i| i.symbol.clone()).collect();
    assert_eq!(symbols, vec!["BTCUSDT", "ETHUSDT", "SOLUSDT"]);
}

#[test]
fn missing_cursor_ends_the_walk() {
    let mut pages = InstrumentPages::new();
    pages.absorb(vec![], None);
    assert!(pages.is_finished());
    assert_eq!(pages.into_instruments().len(), 0);
}

#[test]
fn error_texts() {
    assert_eq!(
        BotError::Telegram { method: "getChat".to_string(), description: "chat not found".to_string() }.describe(),
        "Telegram getChat failed: chat not found"
    );
    assert_eq!(BotError::MissingEnv { name: "BYBIT_API_KEY".to_string() }.describe(), "BYBIT_API_KEY env var is not set");
    assert_eq!(BotError::Encode { message: "x".to_string() }.describe(), "x");
}

#[test]
fn order_id_defaults_to_empty() {
    assert_eq!(order_id_of(Some("abc-1".to_string())), "abc-1");
    assert_eq!(order_id_of(None), "");
}

#[test]
fn signed_requests_carry_the_receive_window() {
    let c = client();
    assert_eq!(c.tickers_request("1").recv_window, "5000");
    assert_eq!(c.set_leverage_request("BTCUSDT", 3, "1").ok().unwrap().recv_window, "5000");
    assert_eq!(c.sign("payload").len(), 64);
}
