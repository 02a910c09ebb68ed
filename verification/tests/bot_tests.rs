use spread_bot::bot::{
    choose_legs, discover_pairs, entry_orders, entry_outcome, plan_pair, record_entry, Direction, EnteredCoins, EntryOutcome, EnvValues,
    PairAction, QuoteVerdict, Settings,
};
use spread_bot::bybit::{InstrumentInfo, LotSizeFilter, PriceFilter, Side};
use spread_bot::error::BotError;

fn inst(symbol: &str, base: &str, quote: &str, status: &str, step: &str) -> InstrumentInfo {
    InstrumentInfo {
        symbol: symbol.to_string(),
        base_coin: base.to_string(),
        quote_coin: quote.to_string(),
        status: status.to_string(),
        lot_size_filter: LotSizeFilter { qty_step: step.to_string(), min_order_qty: step.to_string() },
        price_filter: PriceFilter { tick_size: "0.01".to_string() },
    }
}

fn env() -> EnvValues {
    EnvValues {
        bybit_api_key: Some("k".to_string()),
        bybit_api_secret: Some("s".to_string()),
        telegram_bot_token: Some("t".to_string()),
        telegram_chat_id: Some("c".to_string()),
        bybit_testnet: None,
        dry_run: None,
        leverage: None,
        poll_interval_secs: None,
    }
}

#[test]
fn settings_defaults() {
    let s = Settings::from_env_values(env()).ok().unwrap();
    assert_eq!(s.api_key, "k");
    assert!(!s.testnet);
    assert!(s.dry_run);
    assert_eq!(s.leverage, 10);
    assert_eq!(s.poll_interval_secs, 3);
}

#[test]
fn settings_from_values() {
    let mut e = env();
    e.bybit_testnet = Some("true".to_string());
    e.dry_run = Some("false".to_string());
    e.leverage = Some("5".to_string());
    e.poll_interval_secs = Some("+7".to_string());
    let s = Settings::from_env_values(e).ok().unwrap();
    assert!(s.testnet);
    assert!(!s.dry_run);
    assert_eq!(s.leverage, 5);
    assert_eq!(s.poll_interval_secs, 7);

    let mut e = env();
    e.bybit_testnet = Some("TRUE".to_string());
    e.dry_run = Some("no".to_string());
    e.leverage = Some("ten".to_string());
    e.poll_interval_secs = Some("-1".to_string());
    let s = Settings::from_env_values(e).ok().unwrap();
    assert!(!s.testnet);
    assert!(s.dry_run);
    assert_eq!(s.leverage, 10);
    assert_eq!(s.poll_interval_secs, 3);
}

#[test]
fn settings_name_the_first_missing_variable() {
    let mut e = env();
    e.telegram_chat_id = None;
    e.bybit_api_secret = None;
    match Settings::from_env_values(e) {
        Err(BotError::MissingEnv { name }) => assert_eq!(name, "BYBIT_API_SECRET"),
        _ => panic!("a missing secret must fail"),
    }
    let mut e = env();
    e.telegram_chat_id = None;
    match Settings::from_env_values(e) {
        Err(err) => assert_eq!(err.describe(), "TELEGRAM_CHAT_ID env var is not set"),
        Ok(_) => panic!("a missing chat id must fail"),
    }
}

#[test]
fn pairs_need_both_quotes_and_trading_status() {
    let list = vec![
        inst("BTCUSDT", "BTC", "USDT", "Trading", "0.001"),
        inst("BTCPERP", "BTC", "USDC", "Trading", "0.001"),
        inst("ETHUSDT", "ETH", "USDT", "Trading", "0.01"),
        inst("ETH-PERP", "ETH", "USDC", "Closed", "0.01"),
        inst("SOLUSDT", "SOL", "USDT", "Trading", "0.1"),
        inst("XRPPERP", "XRP", "USDC", "Trading", "1"),
        inst("BTCUSD", "BTC", "USD", "Trading", "1"),
    ];
    let pairs = discover_pairs(&list);
    assert_eq!(pairs.len(), 1);
    assert_eq!(pairs[0].base_coin, "BTC");
    assert_eq!(pairs[0].usdt.symbol, "BTCUSDT");
    assert_eq!(pairs[0].usdc.symbol, "BTCPERP");
}

#[test]
fn pairs_take_the_last_listing_of_a_coin() {
    let list = vec![
        inst("BTCUSDT-OLD", "BTC", "USDT", "Trading", "0.01"),
        inst("BTCPERP", "BTC", "USDC", "Trading", "0.001"),
        inst("ETHPERP", "ETH", "USDC", "Trading", "0.01"),
        inst("BTCUSDT", "BTC", "USDT", "Trading", "0.001"),
        inst("ETHUSDT", "ETH", "USDT", "Trading", "0.01"),
    ];
    let mut pairs = discover_pairs(&list);
    pairs.sort_by(|a, b| a.base_coin.cmp(&b.base_coin));
    assert_eq!(pairs.len(), 2);
    assert_eq!(pairs[0].base_coin, "BTC");
    assert_eq!(pairs[0].usdt.symbol, "BTCUSDT");
    assert_eq!(pairs[1].base_coin, "ETH");
    assert_eq!(pairs[1].usdc.symbol, "ETHPERP");
    assert!(discover_pairs(&vec![]).is_empty());
}

#[test]
fn entered_coins_stay_entered() {
    let mut entered = EnteredCoins::new();
    assert!(!entered.contains("BTC"));
    assert!(entered.insert("BTC".to_string()));
    assert!(entered.contains("BTC"));
    assert!(!entered.insert("BTC".to_string()));
    assert!(entered.insert("ETH".to_string()));
    assert!(entered.contains("BTC"));
    assert!(entered.contains("ETH"));
    assert!(!entered.contains("SOL"));
}

#[test]
fn legs_follow_the_wider_spread() {
    let list = vec![inst("BTCUSDT", "BTC", "USDT", "Trading", "0.001"), inst("BTCPERP", "BTC", "USDC", "Trading", "0.001")];
    let pairs = discover_pairs(&list);
    let a = choose_legs(&pairs[0], true);
    assert_eq!(a.direction, Direction::A);
    assert_eq!(a.long_symbol, "BTCPERP");
    assert_eq!(a.short_symbol, "BTCUSDT");
    let b = choose_legs(&pairs[0], false);
    assert_eq!(b.direction, Direction::B);
    assert_eq!(b.long_symbol, "BTCUSDT");
    assert_eq!(b.short_symbol, "BTCPERP");
}

#[test]
fn entry_uses_the_same_quantity_on_both_legs() {
    let (long, short) = entry_orders("BTCPERP", "BTCUSDT", "0.010");
    assert_eq!((long.symbol.as_str(), long.side, long.qty.as_str(), long.reduce_only), ("BTCPERP", Side::Buy, "0.010", false));
    assert_eq!((short.symbol.as_str(), short.side, short.qty.as_str(), short.reduce_only), ("BTCUSDT", Side::Sell, "0.010", false));
}

#[test]
fn a_lone_leg_is_unwound() {
    let (long, short) = entry_orders("L", "S", "2");
    assert!(matches!(entry_outcome(&long, &short, true, true), EntryOutcome::Opened));
    assert!(matches!(entry_outcome(&long, &short, false, false), EntryOutcome::BothFailed));
    match entry_outcome(&long, &short, true, false) {
        EntryOutcome::UnwindLong(o) => {
            assert_eq!((o.symbol.as_str(), o.side, o.qty.as_str(), o.reduce_only), ("L", Side::Sell, "2", true))
        }
        _ => panic!("the long leg must be unwound"),
    }
    match entry_outcome(&long, &short, false, true) {
        EntryOutcome::UnwindShort(o) => {
            assert_eq!((o.symbol.as_str(), o.side, o.qty.as_str(), o.reduce_only), ("S", Side::Buy, "2", true))
        }
        _ => panic!("the short leg must be unwound"),
    }
}

#[test]
fn an_entered_coin_is_skipped() {
    let list = vec![inst("BTCUSDT", "BTC", "USDT", "Trading", "0.001"), inst("BTCPERP", "BTC", "USDC", "Trading", "0.001")];
    let pairs = discover_pairs(&list);
    let mut entered = EnteredCoins::new();
    let wide = || Some(QuoteVerdict { a_wider: false, exceeds_threshold: true });
    match plan_pair(&entered, &pairs[0], wide()) {
        PairAction::Enter(legs) => {
            assert_eq!(legs.direction, Direction::B);
            assert_eq!(legs.long_symbol, "BTCUSDT");
        }
        PairAction::Skip => panic!("a wide spread on a fresh coin is entered"),
    }
    assert!(matches!(plan_pair(&entered, &pairs[0], None), PairAction::Skip));
    assert!(matches!(
        plan_pair(&entered, &pairs[0], Some(QuoteVerdict { a_wider: true, exceeds_threshold: false })),
        PairAction::Skip
    ));
    entered.insert("BTC".to_string());
    entered.insert("ETH".to_string());
    assert!(matches!(plan_pair(&entered, &pairs[0], wide()), PairAction::Skip));
}

#[test]
fn only_an_opened_position_enters_its_coin() {
    let list = vec![inst("BTCUSDT", "BTC", "USDT", "Trading", "0.001"), inst("BTCPERP", "BTC", "USDC", "Trading", "0.001")];
    let pairs = discover_pairs(&list);
    let mut entered = EnteredCoins::new();
    assert!(!record_entry(&mut entered, &pairs[0], false, false));
    assert!(!entered.contains("BTC"));
    assert!(!record_entry(&mut entered, &pairs[0], true, true));
    assert!(entered.contains("BTC"));
    let mut live = EnteredCoins::new();
    assert!(record_entry(&mut live, &pairs[0], true, false));
    assert!(live.contains("BTC"));
}
