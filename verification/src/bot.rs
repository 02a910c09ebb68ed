//! The bot's decisions: its settings, which coins form a tradable pair, which
//! coins a session has entered, and which orders open or unwind an entry.

use vstd::prelude::*;
use crate::bybit::{opposite, InstrumentInfo, MarketOrder, Side};
use crate::error::BotError;
use crate::text::{decimal_text, lemma_decimal_text_reads_back, parse_u32, parse_u64, parsed_u32, parsed_u64, same_text};

verus! {

/// The bot's settings as the environment gives them: each variable's text,
/// or `None` when it is not set (or not valid Unicode).
pub struct EnvValues {
    pub bybit_api_key: Option<String>,
    pub bybit_api_secret: Option<String>,
    pub telegram_bot_token: Option<String>,
    pub telegram_chat_id: Option<String>,
    pub bybit_testnet: Option<String>,
    pub dry_run: Option<String>,
    pub leverage: Option<String>,
    pub poll_interval_secs: Option<String>,
}

/// The bot's settings, but for the order sizes and the entry threshold.
pub struct Settings {
    pub api_key: String,
    pub api_secret: String,
    pub testnet: bool,
    pub dry_run: bool,
    pub leverage: u32,
    pub poll_interval_secs: u64,
    pub telegram_bot_token: String,
    pub telegram_chat_id: String,
}

/// The first of the required variables that is not set, in the order
/// BYBIT_API_KEY, BYBIT_API_SECRET, TELEGRAM_BOT_TOKEN, TELEGRAM_CHAT_ID.
pub open spec fn first_missing(env: EnvValues) -> Option<Seq<char>> {
    if env.bybit_api_key is None {
        Some("BYBIT_API_KEY"@)
    } else if env.bybit_api_secret is None {
        Some("BYBIT_API_SECRET"@)
    } else if env.telegram_bot_token is None {
        Some("TELEGRAM_BOT_TOKEN"@)
    } else if env.telegram_chat_id is None {
        Some("TELEGRAM_CHAT_ID"@)
    } else {
        None
    }
}

/// The variable is set to exactly `word`.
pub open spec fn is_set_to(v: Option<String>, word: Seq<char>) -> bool {
    v matches Some(s) && s@ == word
}

/// A `u32` setting: the variable's value when it reads as one, else `default`.
pub open spec fn u32_setting(v: Option<String>, default: u32) -> u32 {
    match v {
        Some(s) => match parsed_u32(s@) {
            Some(n) => n,
            None => default,
        },
        None => default,
    }
}

/// A `u64` setting: the variable's value when it reads as one, else `default`.
pub open spec fn u64_setting(v: Option<String>, default: u64) -> u64 {
    match v {
        Some(s) => match parsed_u64(s@) {
            Some(n) => n,
            None => default,
        },
        None => default,
    }
}

fn is_word(v: &Option<String>, word: &str) -> (r: bool)
    ensures
        r == is_set_to(*v, word@),
{
    match v {
        Some(s) => same_text(s.as_str(), word),
        None => false,
    }
}

fn missing(name: &str) -> (e: BotError)
    ensures
        e matches BotError::MissingEnv { name: n } && n@ == name@,
{
    BotError::MissingEnv { name: String::from_str(name) }
}

impl Settings {
    /// The settings from the environment's values. The four credentials are
    /// required; the test network is used only when BYBIT_TESTNET is "true";
    /// orders are dry runs unless DRY_RUN is "false"; LEVERAGE defaults to 10
    /// and POLL_INTERVAL_SECS to 3 when missing or not a number.
    pub fn from_env_values(env: EnvValues) -> (r: Result<Settings, BotError>)
        ensures
            match first_missing(env) {
                Some(name) => r matches Err(BotError::MissingEnv { name: n }) && n@ == name,
                None => r matches Ok(s) && {
                    &&& env.bybit_api_key == Some(s.api_key)
                    &&& env.bybit_api_secret == Some(s.api_secret)
                    &&& env.telegram_bot_token == Some(s.telegram_bot_token)
                    &&& env.telegram_chat_id == Some(s.telegram_chat_id)
                    &&& s.testnet == is_set_to(env.bybit_testnet, "true"@)
                    &&& s.dry_run == !is_set_to(env.dry_run, "false"@)
                    &&& s.leverage == u32_setting(env.leverage, 10)
                    &&& s.poll_interval_secs == u64_setting(env.poll_interval_secs, 3)
                    &&& forall|v: String|
                        env.leverage == Some(v) && parsed_u32(v@) is Some ==> Some(s.leverage)
                            == parsed_u32(v@)
                    &&& (match env.leverage {
                        Some(v) => parsed_u32(v@) is None,
                        None => true,
                    }) ==> s.leverage == 10
                    &&& forall|v: String|
                        env.poll_interval_secs == Some(v) && parsed_u64(v@) is Some ==> Some(
                            s.poll_interval_secs,
                        ) == parsed_u64(v@)
                    &&& (match env.poll_interval_secs {
                        Some(v) => parsed_u64(v@) is None,
                        None => true,
                    }) ==> s.poll_interval_secs == 3
                },
            },
    {
        let testnet = is_word(&env.bybit_testnet, "true");
        let dry_run = !is_word(&env.dry_run, "false");
        let leverage = match &env.leverage {
            Some(v) => match parse_u32(v.as_str()) {
                Some(n) => n,
                None => 10,
            },
            None => 10,
        };
        let poll_interval_secs = match &env.poll_interval_secs {
            Some(v) => match parse_u64(v.as_str()) {
                Some(n) => n,
                None => 3,
            },
            None => 3,
        };
        let api_key = match env.bybit_api_key {
            Some(v) => v,
            None => return Err(missing("BYBIT_API_KEY")),
        };
        let api_secret = match env.bybit_api_secret {
            Some(v) => v,
            None => return Err(missing("BYBIT_API_SECRET")),
        };
        let telegram_bot_token = match env.telegram_bot_token {
            Some(v) => v,
            None => return Err(missing("TELEGRAM_BOT_TOKEN")),
        };
        let telegram_chat_id = match env.telegram_chat_id {
            Some(v) => v,
            None => return Err(missing("TELEGRAM_CHAT_ID")),
        };
        Ok(
            Settings {
                api_key,
                api_secret,
                testnet,
                dry_run,
                leverage,
                poll_interval_secs,
                telegram_bot_token,
                telegram_chat_id,
            },
        )
    }
}

/// The status of an instrument that trades.
pub open spec fn trading_status() -> Seq<char> {
    "Trading"@
}

/// The quote coin of a USDT-margined perpetual.
pub open spec fn usdt_quote() -> Seq<char> {
    "USDT"@
}

/// The quote coin of a USDC-margined perpetual.
pub open spec fn usdc_quote() -> Seq<char> {
    "USDC"@
}

/// `inst` trades against `quote`.
pub open spec fn is_leg(inst: InstrumentInfo, quote: Seq<char>) -> bool {
    inst.status@ == trading_status() && inst.quote_coin@ == quote
}

/// The last instrument of `insts` that trades `base` against `quote`: when a
/// listing names a coin twice, the later entry counts.
pub open spec fn last_leg(insts: Seq<InstrumentInfo>, quote: Seq<char>, base: Seq<char>) -> Option<
    InstrumentInfo,
>
    decreases insts.len(),
{
    if insts.len() == 0 {
        None
    } else if is_leg(insts.last(), quote) && insts.last().base_coin@ == base {
        Some(insts.last())
    } else {
        last_leg(insts.drop_last(), quote, base)
    }
}

/// A base coin that has both a USDT-margined and a USDC-margined perpetual.
pub struct Pair {
    pub base_coin: String,
    pub usdt: InstrumentInfo,
    pub usdc: InstrumentInfo,
}

/// `p` pairs the USDT and the USDC perpetual that `insts` lists last for its coin.
pub open spec fn is_pair_of(insts: Seq<InstrumentInfo>, p: Pair) -> bool {
    &&& last_leg(insts, usdt_quote(), p.base_coin@) == Some(p.usdt)
    &&& last_leg(insts, usdc_quote(), p.base_coin@) == Some(p.usdc)
}

/// `legs` holds, once for each coin that trades against `quote` in `seen`,
/// the instrument listed last for it.
spec fn legs_table(legs: Seq<InstrumentInfo>, seen: Seq<InstrumentInfo>, quote: Seq<char>) -> bool {
    &&& forall|k: int|
        0 <= k < legs.len() ==> last_leg(seen, quote, #[trigger] legs[k].base_coin@) == Some(legs[k])
    &&& forall|k: int, l: int|
        0 <= k < l < legs.len() ==> legs[k].base_coin@ != legs[l].base_coin@
    &&& forall|b: Seq<char>|
        #[trigger] last_leg(seen, quote, b) is Some ==> exists|k: int|
            0 <= k < legs.len() && legs[k].base_coin@ == b
}

proof fn lemma_last_leg_push(seen: Seq<InstrumentInfo>, x: InstrumentInfo, quote: Seq<char>, b: Seq<char>)
    ensures
        last_leg(seen.push(x), quote, b) == if is_leg(x, quote) && x.base_coin@ == b {
            Some(x)
        } else {
            last_leg(seen, quote, b)
        },
{
    assert(seen.push(x).drop_last() =~= seen);
}

fn find_leg(legs: &Vec<InstrumentInfo>, base: &str) -> (r: Option<usize>)
    ensures
        r matches Some(k) ==> k < legs@.len() && legs@[k as int].base_coin@ == base@,
        r is None ==> forall|k: int| 0 <= k < legs@.len() ==> legs@[k].base_coin@ != base@,
{
    for k in 0..legs.len()
        invariant
            forall|j: int| 0 <= j < k ==> legs@[j].base_coin@ != base@,
    {
        if same_text(legs[k].base_coin.as_str(), base) {
            return Some(k);
        }
    }
    None
}

fn record_leg(
    legs: &mut Vec<InstrumentInfo>,
    inst: &InstrumentInfo,
    Ghost(seen): Ghost<Seq<InstrumentInfo>>,
    Ghost(quote): Ghost<Seq<char>>,
)
    requires
        legs_table(old(legs)@, seen, quote),
        is_leg(*inst, quote),
    ensures
        legs_table(final(legs)@, seen.push(*inst), quote),
{
    let ghost before = legs@;
    let ghost after_seen = seen.push(*inst);
    match find_leg(legs, inst.base_coin.as_str()) {
        Some(k) => {
            legs.set(k, inst.copy());
            assert forall|j: int| 0 <= j < legs@.len() implies last_leg(
                after_seen,
                quote,
                #[trigger] legs@[j].base_coin@,
            ) == Some(legs@[j]) by {
                lemma_last_leg_push(seen, *inst, quote, legs@[j].base_coin@);
            }
            assert forall|b: Seq<char>| #[trigger] last_leg(after_seen, quote, b) is Some implies exists|
                j: int,
            | 0 <= j < legs@.len() && legs@[j].base_coin@ == b by {
                lemma_last_leg_push(seen, *inst, quote, b);
                if b == inst.base_coin@ {
                    assert(legs@[k as int].base_coin@ == b);
                } else {
                    let j = choose|j: int| 0 <= j < before.len() && before[j].base_coin@ == b;
                    assert(legs@[j].base_coin@ == b);
                }
            }
        },
        None => {
            legs.push(inst.copy());
            assert forall|j: int| 0 <= j < legs@.len() implies last_leg(
                after_seen,
                quote,
                #[trigger] legs@[j].base_coin@,
            ) == Some(legs@[j]) by {
                lemma_last_leg_push(seen, *inst, quote, legs@[j].base_coin@);
            }
            assert forall|b: Seq<char>| #[trigger] last_leg(after_seen, quote, b) is Some implies exists|
                j: int,
            | 0 <= j < legs@.len() && legs@[j].base_coin@ == b by {
                lemma_last_leg_push(seen, *inst, quote, b);
                if b == inst.base_coin@ {
                    assert(legs@[before.len() as int].base_coin@ == b);
                } else {
                    let j = choose|j: int| 0 <= j < before.len() && before[j].base_coin@ == b;
                    assert(legs@[j].base_coin@ == b);
                }
            }
        },
    }
}

proof fn lemma_table_skips(legs: Seq<InstrumentInfo>, seen: Seq<InstrumentInfo>, x: InstrumentInfo, quote: Seq<char>)
    requires
        legs_table(legs, seen, quote),
        !is_leg(x, quote),
    ensures
        legs_table(legs, seen.push(x), quote),
{
    assert forall|k: int| 0 <= k < legs.len() implies last_leg(
        seen.push(x),
        quote,
        #[trigger] legs[k].base_coin@,
    ) == Some(legs[k]) by {
        lemma_last_leg_push(seen, x, quote, legs[k].base_coin@);
    }
    assert forall|b: Seq<char>| #[trigger] last_leg(seen.push(x), quote, b) is Some implies exists|k: int|
        0 <= k < legs.len() && legs[k].base_coin@ == b by {
        lemma_last_leg_push(seen, x, quote, b);
    }
}

fn is_quote(inst: &InstrumentInfo, quote: &str) -> (r: bool)
    ensures
        r == is_leg(*inst, quote@),
{
    same_text(inst.status.as_str(), "Trading") && same_text(inst.quote_coin.as_str(), quote)
}

/// The coins that trade against both USDT and USDC, each once, with the
/// instruments the listing names last for it; the order of the pairs is not
/// part of the contract.
pub fn discover_pairs(instruments: &Vec<InstrumentInfo>) -> (pairs: Vec<Pair>)
    ensures
        forall|i: int| 0 <= i < pairs@.len() ==> #[trigger] is_pair_of(instruments@, pairs@[i]),
        forall|i: int, j: int|
            0 <= i < j < pairs@.len() ==> pairs@[i].base_coin@ != pairs@[j].base_coin@,
        forall|b: Seq<char>|
            #[trigger] last_leg(instruments@, usdt_quote(), b) is Some && last_leg(
                instruments@,
                usdc_quote(),
                b,
            ) is Some ==> exists|i: int| 0 <= i < pairs@.len() && pairs@[i].base_coin@ == b,
{
    let mut usdt_legs: Vec<InstrumentInfo> = Vec::new();
    let mut usdc_legs: Vec<InstrumentInfo> = Vec::new();
    let n = instruments.len();
    assert(instruments@.take(0) =~= Seq::<InstrumentInfo>::empty());
    proof {
        reveal_strlit("USDT");
        reveal_strlit("USDC");
        assert(usdt_quote()[3] != usdc_quote()[3]);
    }
    for i in 0..n
        invariant
            n == instruments@.len(),
            usdt_quote() != usdc_quote(),
            legs_table(usdt_legs@, instruments@.take(i as int), usdt_quote()),
            legs_table(usdc_legs@, instruments@.take(i as int), usdc_quote()),
    {
        let inst = &instruments[i];
        let ghost seen = instruments@.take(i as int);
        assert(instruments@.take(i + 1) =~= seen.push(*inst));
        if is_quote(inst, "USDT") {
            record_leg(&mut usdt_legs, inst, Ghost(seen), Ghost(usdt_quote()));
            proof {
                lemma_table_skips(usdc_legs@, seen, *inst, usdc_quote());
            }
        } else if is_quote(inst, "USDC") {
            record_leg(&mut usdc_legs, inst, Ghost(seen), Ghost(usdc_quote()));
            proof {
                lemma_table_skips(usdt_legs@, seen, *inst, usdt_quote());
            }
        } else {
            proof {
                lemma_table_skips(usdt_legs@, seen, *inst, usdt_quote());
                lemma_table_skips(usdc_legs@, seen, *inst, usdc_quote());
            }
        }
    }
    assert(instruments@.take(n as int) =~= instruments@);
    let mut pairs: Vec<Pair> = Vec::new();
    let ghost mut origin: Seq<int> = Seq::empty();
    let m = usdt_legs.len();
    for k in 0..m
        invariant
            m == usdt_legs@.len(),
            legs_table(usdt_legs@, instruments@, usdt_quote()),
            legs_table(usdc_legs@, instruments@, usdc_quote()),
            origin.len() == pairs@.len(),
            forall|i: int| 0 <= i < pairs@.len() ==> #[trigger] is_pair_of(instruments@, pairs@[i]),
            forall|i: int|
                0 <= i < origin.len() ==> 0 <= #[trigger] origin[i] < k
                    && pairs@[i].base_coin@ == usdt_legs@[origin[i]].base_coin@,
            forall|i: int, j: int| 0 <= i < j < origin.len() ==> origin[i] < origin[j],
            forall|l: int|
                0 <= l < k && (#[trigger] last_leg(
                    instruments@,
                    usdc_quote(),
                    usdt_legs@[l].base_coin@,
                )) is Some ==> exists|i: int| 0 <= i < origin.len() && #[trigger] origin[i] == l,
    {
        let leg = &usdt_legs[k];
        match find_leg(&usdc_legs, leg.base_coin.as_str()) {
            Some(j) => {
                let ghost before = pairs@;
                let ghost before_origin = origin;
                let pair = Pair {
                    base_coin: leg.base_coin.clone(),
                    usdt: leg.copy(),
                    usdc: usdc_legs[j].copy(),
                };
                pairs.push(pair);
                proof {
                    origin = origin.push(k as int);
                }
                assert(is_pair_of(instruments@, pairs@[before.len() as int]));
                assert forall|i: int| 0 <= i < pairs@.len() implies #[trigger] is_pair_of(
                    instruments@,
                    pairs@[i],
                ) by {
                    if i < before.len() {
                        assert(pairs@[i] == before[i]);
                    }
                }
                assert forall|i: int|
                    0 <= i < origin.len() implies 0 <= #[trigger] origin[i] < k + 1
                    && pairs@[i].base_coin@ == usdt_legs@[origin[i]].base_coin@ by {
                    if i < before.len() {
                        assert(pairs@[i] == before[i]);
                        assert(origin[i] == before_origin[i]);
                    }
                }
                assert forall|l: int|
                    0 <= l < k + 1 && (#[trigger] last_leg(
                        instruments@,
                        usdc_quote(),
                        usdt_legs@[l].base_coin@,
                    )) is Some implies exists|i: int|
                    0 <= i < origin.len() && #[trigger] origin[i] == l by {
                    if l == k {
                        assert(origin[before.len() as int] == l);
                    } else {
                        let i = choose|i: int|
                            0 <= i < before_origin.len() && #[trigger] before_origin[i] == l;
                        assert(origin[i] == l);
                    }
                }
            },
            None => {
                proof {
                    let b = usdt_legs@[k as int].base_coin@;
                    if last_leg(instruments@, usdc_quote(), b) is Some {
                        let j = choose|j: int|
                            0 <= j < usdc_legs@.len() && usdc_legs@[j].base_coin@ == b;
                        assert(false);
                    }
                }
            },
        }
    }
    assert forall|i: int, j: int|
        0 <= i < j < pairs@.len() implies pairs@[i].base_coin@ != pairs@[j].base_coin@ by {
        assert(origin[i] < origin[j]);
    }
    assert forall|b: Seq<char>|
        #[trigger] last_leg(instruments@, usdt_quote(), b) is Some && last_leg(
            instruments@,
            usdc_quote(),
            b,
        ) is Some implies exists|i: int| 0 <= i < pairs@.len() && pairs@[i].base_coin@ == b by {
        let l = choose|l: int| 0 <= l < usdt_legs@.len() && usdt_legs@[l].base_coin@ == b;
        assert(last_leg(instruments@, usdc_quote(), usdt_legs@[l].base_coin@) is Some);
        let i = choose|i: int| 0 <= i < origin.len() && #[trigger] origin[i] == l;
        assert(pairs@[i].base_coin@ == b);
    }
    pairs
}

/// The coins a session has entered: once a coin is in, the bot leaves it alone.
pub struct EnteredCoins {
    coins: Vec<String>,
}

impl View for EnteredCoins {
    type V = Set<Seq<char>>;

    closed spec fn view(&self) -> Set<Seq<char>> {
        Set::new(|c: Seq<char>| exists|i: int| 0 <= i < self.coins@.len() && #[trigger] self.coins@[i]@ == c)
    }
}

impl EnteredCoins {
    /// No coin entered yet.
    pub fn new() -> (s: Self)
        ensures
            s@ == Set::<Seq<char>>::empty(),
    {
        let s = EnteredCoins { coins: Vec::new() };
        assert(s@ =~= Set::<Seq<char>>::empty());
        s
    }

    /// Whether `coin` has been entered.
    pub fn contains(&self, coin: &str) -> (r: bool)
        ensures
            r == self@.contains(coin@),
    {
        for i in 0..self.coins.len()
            invariant
                forall|j: int| 0 <= j < i ==> self.coins@[j]@ != coin@,
        {
            if same_text(self.coins[i].as_str(), coin) {
                assert(self.coins@[i as int]@ == coin@);
                return true;
            }
        }
        false
    }

    /// Marks `coin` as entered; true when it was not entered before.
    pub fn insert(&mut self, coin: String) -> (added: bool)
        ensures
            final(self)@ == old(self)@.insert(coin@),
            added == !old(self)@.contains(coin@),
    {
        if self.contains(coin.as_str()) {
            assert(self@ =~= self@.insert(coin@));
            return false;
        }
        let ghost before = self.coins@;
        let ghost c = coin@;
        self.coins.push(coin);
        assert forall|x: Seq<char>| #[trigger] self@.contains(x) == old(self)@.insert(c).contains(x) by {
            if x == c {
                assert(self.coins@[before.len() as int]@ == x);
            }
            if old(self)@.contains(x) {
                let i = choose|i: int| 0 <= i < before.len() && #[trigger] before[i]@ == x;
                assert(self.coins@[i]@ == x);
            }
            if self@.contains(x) && x != c {
                let i = choose|i: int| 0 <= i < self.coins@.len() && #[trigger] self.coins@[i]@ == x;
                assert(i < before.len());
                assert(before[i]@ == x);
            }
        }
        assert(self@ =~= old(self)@.insert(c));
        true
    }
}

/// The coins entered after `start` once `added` are entered, in order.
pub open spec fn entered_after(start: Set<Seq<char>>, added: Seq<Seq<char>>) -> Set<Seq<char>>
    decreases added.len(),
{
    if added.len() == 0 {
        start
    } else {
        entered_after(start, added.drop_last()).insert(added.last())
    }
}

/// A coin, once entered, stays entered whatever the session enters after it:
/// the bot never touches it again during that session.
pub proof fn lemma_entered_coin_stays_entered(start: Set<Seq<char>>, coin: Seq<char>, later: Seq<Seq<char>>)
    ensures
        entered_after(start.insert(coin), later).contains(coin),
    decreases later.len(),
{
    if later.len() > 0 {
        lemma_entered_coin_stays_entered(start, coin, later.drop_last());
    }
}

/// Which spread a position follows: A buys the USDC leg and sells the USDT
/// leg, B buys the USDT leg and sells the USDC leg.
#[derive(PartialEq, Eq, Structural, Clone, Copy, Debug)]
pub enum Direction {
    A,
    B,
}

/// The legs a position takes: long one symbol, short the other.
pub struct LegChoice {
    pub direction: Direction,
    pub long_symbol: String,
    pub short_symbol: String,
}

/// The legs of a position on `pair`: spread A buys the USDC leg and sells
/// the USDT leg, spread B the reverse.
pub open spec fn legs_for(pair: Pair, a_wider: bool) -> LegChoice {
    if a_wider {
        LegChoice { direction: Direction::A, long_symbol: pair.usdc.symbol, short_symbol: pair.usdt.symbol }
    } else {
        LegChoice { direction: Direction::B, long_symbol: pair.usdt.symbol, short_symbol: pair.usdc.symbol }
    }
}

/// The legs of a position on `pair`. `a_wider` tells whether spread A (USDT
/// bid over USDC ask) is wider than spread B (USDC bid over USDT ask): the
/// position buys where the wider spread asks and sells where it bids.
pub fn choose_legs(pair: &Pair, a_wider: bool) -> (c: LegChoice)
    ensures
        c == legs_for(*pair, a_wider),
        (c.direction == Direction::A) == a_wider,
        a_wider ==> c.long_symbol == pair.usdc.symbol && c.short_symbol == pair.usdt.symbol,
        !a_wider ==> c.long_symbol == pair.usdt.symbol && c.short_symbol == pair.usdc.symbol,
{
    if a_wider {
        LegChoice {
            direction: Direction::A,
            long_symbol: pair.usdc.symbol.clone(),
            short_symbol: pair.usdt.symbol.clone(),
        }
    } else {
        LegChoice {
            direction: Direction::B,
            long_symbol: pair.usdt.symbol.clone(),
            short_symbol: pair.usdc.symbol.clone(),
        }
    }
}

/// What a cycle does with a pair.
pub enum PairAction {
    /// Leave the pair for now (or for good, once its coin is entered).
    Skip,
    /// Open a position with these legs.
    Enter(LegChoice),
}

/// How a cycle judges a pair whose two tickers it has: whether spread A is
/// the wider one, and whether the wider spread exceeds the entry threshold.
pub struct QuoteVerdict {
    pub a_wider: bool,
    pub exceeds_threshold: bool,
}

/// The action a cycle takes on a pair.
pub open spec fn planned_action(entered: Set<Seq<char>>, pair: Pair, quotes: Option<QuoteVerdict>) -> PairAction {
    if entered.contains(pair.base_coin@) {
        PairAction::Skip
    } else {
        match quotes {
            Some(v) => if v.exceeds_threshold {
                PairAction::Enter(legs_for(pair, v.a_wider))
            } else {
                PairAction::Skip
            },
            None => PairAction::Skip,
        }
    }
}

/// Decides what a cycle does with `pair` (`quotes` is `None` when a ticker of
/// either leg is missing): a coin already entered is skipped whatever its
/// quotes; otherwise the pair is entered on the wider spread when both
/// tickers are there and that spread exceeds the threshold.
pub fn plan_pair(entered: &EnteredCoins, pair: &Pair, quotes: Option<QuoteVerdict>) -> (a: PairAction)
    ensures
        a == planned_action(entered@, *pair, quotes),
        entered@.contains(pair.base_coin@) ==> a is Skip,
        quotes is None ==> a is Skip,
        forall|v: QuoteVerdict| quotes == Some(v) && !v.exceeds_threshold ==> a is Skip,
        forall|v: QuoteVerdict|
            !entered@.contains(pair.base_coin@) && quotes == Some(v) && v.exceeds_threshold ==> (
            a matches PairAction::Enter(c) && (c.direction == Direction::A) == v.a_wider && (
            v.a_wider ==> c.long_symbol == pair.usdc.symbol && c.short_symbol == pair.usdt.symbol)
                && (!v.a_wider ==> c.long_symbol == pair.usdt.symbol && c.short_symbol
                == pair.usdc.symbol)),
{
    if entered.contains(pair.base_coin.as_str()) {
        return PairAction::Skip;
    }
    match quotes {
        Some(v) => {
            if v.exceeds_threshold {
                PairAction::Enter(choose_legs(pair, v.a_wider))
            } else {
                PairAction::Skip
            }
        },
        None => PairAction::Skip,
    }
}

/// Once a pair's coin is entered, every later cycle of the session skips
/// the pair, whatever is entered after it and whatever its quotes.
pub proof fn lemma_entered_pair_is_skipped(
    start: Set<Seq<char>>,
    pair: Pair,
    later: Seq<Seq<char>>,
    quotes: Option<QuoteVerdict>,
)
    ensures
        planned_action(entered_after(start.insert(pair.base_coin@), later), pair, quotes) is Skip,
{
    lemma_entered_coin_stays_entered(start, pair.base_coin@, later);
}

/// `order` opens a position: `side` on `symbol` for `qty`, not reduce-only.
pub open spec fn opens(order: MarketOrder, symbol: Seq<char>, side: Side, qty: Seq<char>) -> bool {
    &&& order.symbol@ == symbol
    &&& order.side == side
    &&& order.qty@ == qty
    &&& !order.reduce_only
}

/// `order` closes what `leg` opened: same symbol and quantity, the other
/// side, reduce-only.
pub open spec fn unwinds(order: MarketOrder, leg: MarketOrder) -> bool {
    &&& order.symbol@ == leg.symbol@
    &&& order.side == opposite(leg.side)
    &&& order.qty@ == leg.qty@
    &&& order.reduce_only
}

/// The two orders of an entry: buy `qty` of the long symbol and sell the same
/// `qty` of the short symbol.
pub fn entry_orders(long_symbol: &str, short_symbol: &str, qty: &str) -> (orders: (MarketOrder, MarketOrder))
    ensures
        opens(orders.0, long_symbol@, Side::Buy, qty@),
        opens(orders.1, short_symbol@, Side::Sell, qty@),
{
    let long = MarketOrder {
        symbol: String::from_str(long_symbol),
        side: Side::Buy,
        qty: String::from_str(qty),
        reduce_only: false,
    };
    let short = MarketOrder {
        symbol: String::from_str(short_symbol),
        side: Side::Sell,
        qty: String::from_str(qty),
        reduce_only: false,
    };
    (long, short)
}

/// What follows the two orders of an entry.
pub enum EntryOutcome {
    /// Both legs were placed: the position stands.
    Opened,
    /// The short leg failed: this order unwinds the long leg.
    UnwindLong(MarketOrder),
    /// The long leg failed: this order unwinds the short leg.
    UnwindShort(MarketOrder),
    /// Neither leg was placed.
    BothFailed,
}

/// The order that closes what `leg` opened: same symbol and quantity, the
/// other side, reduce-only.
pub open spec fn unwind_of(leg: MarketOrder) -> MarketOrder {
    MarketOrder { symbol: leg.symbol, side: opposite(leg.side), qty: leg.qty, reduce_only: true }
}

/// The order that closes what `leg` opened.
pub fn unwind_order(leg: &MarketOrder) -> (order: MarketOrder)
    ensures
        order == unwind_of(*leg),
{
    MarketOrder { symbol: leg.symbol.clone(), side: leg.side.opposite(), qty: leg.qty.clone(), reduce_only: true }
}

/// What follows an entry, from whether each of its legs was placed.
pub open spec fn planned_outcome(long: MarketOrder, short: MarketOrder, long_ok: bool, short_ok: bool) -> EntryOutcome {
    if long_ok && short_ok {
        EntryOutcome::Opened
    } else if long_ok {
        EntryOutcome::UnwindLong(unwind_of(long))
    } else if short_ok {
        EntryOutcome::UnwindShort(unwind_of(short))
    } else {
        EntryOutcome::BothFailed
    }
}

/// Decides what follows an entry from whether each leg was placed: when only
/// one was, that leg is unwound.
pub fn entry_outcome(long: &MarketOrder, short: &MarketOrder, long_ok: bool, short_ok: bool) -> (r:
    EntryOutcome)
    ensures
        r == planned_outcome(*long, *short, long_ok, short_ok),
{
    if long_ok && short_ok {
        EntryOutcome::Opened
    } else if long_ok {
        EntryOutcome::UnwindLong(unwind_order(long))
    } else if short_ok {
        EntryOutcome::UnwindShort(unwind_order(short))
    } else {
        EntryOutcome::BothFailed
    }
}

/// An entry never leaves one leg alone. For the two orders of an entry
/// (buy the long symbol, sell the short one, same quantity), whatever came of
/// each: both legs stand, or nothing was placed, or the one leg that was
/// placed is closed by a reduce-only order of the other side on the same
/// symbol for the same quantity.
pub proof fn lemma_entry_stays_hedged(
    long: MarketOrder,
    short: MarketOrder,
    long_symbol: Seq<char>,
    short_symbol: Seq<char>,
    qty: Seq<char>,
    long_ok: bool,
    short_ok: bool,
)
    requires
        opens(long, long_symbol, Side::Buy, qty),
        opens(short, short_symbol, Side::Sell, qty),
    ensures
        ({
            let outcome = planned_outcome(long, short, long_ok, short_ok);
            &&& outcome is Opened <==> long_ok && short_ok
            &&& outcome is BothFailed <==> !long_ok && !short_ok
            &&& outcome matches EntryOutcome::UnwindLong(o) ==> long_ok && !short_ok && o.symbol@
                == long_symbol && o.side == Side::Sell && o.qty@ == qty && o.reduce_only
            &&& outcome matches EntryOutcome::UnwindShort(o) ==> short_ok && !long_ok && o.symbol@
                == short_symbol && o.side == Side::Buy && o.qty@ == qty && o.reduce_only
        }),
{
}

/// Records how an entry on `pair` went and says whether to announce it: the
/// coin is entered exactly when its position opened, and the announcement
/// goes out only then, and only when orders are not dry runs.
pub fn record_entry(entered: &mut EnteredCoins, pair: &Pair, opened: bool, dry_run: bool) -> (notify: bool)
    ensures
        final(entered)@ == if opened {
            old(entered)@.insert(pair.base_coin@)
        } else {
            old(entered)@
        },
        notify == (opened && !dry_run),
{
    if opened {
        entered.insert(pair.base_coin.clone());
    }
    opened && !dry_run
}

/// One pair as a cycle meets it: the pair, its quotes (`None` when a ticker
/// is missing), and whether the position opened when it was tried.
pub struct CycleStep {
    pub pair: Pair,
    pub quotes: Option<QuoteVerdict>,
    pub opened: bool,
}

/// The coins entered after a cycle's `steps`, one pair after another: a coin
/// is added when its pair was planned for entry and the position opened.
pub open spec fn after_steps(entered: Set<Seq<char>>, steps: Seq<CycleStep>) -> Set<Seq<char>>
    decreases steps.len(),
{
    if steps.len() == 0 {
        entered
    } else {
        let prev = after_steps(entered, steps.drop_last());
        let step = steps.last();
        if planned_action(prev, step.pair, step.quotes) is Enter && step.opened {
            prev.insert(step.pair.base_coin@)
        } else {
            prev
        }
    }
}

proof fn lemma_after_steps_grows(entered: Set<Seq<char>>, steps: Seq<CycleStep>)
    ensures
        entered.subset_of(after_steps(entered, steps)),
    decreases steps.len(),
{
    if steps.len() > 0 {
        lemma_after_steps_grows(entered, steps.drop_last());
    }
}

/// A cycle keeps every coin entered before it, adds exactly the coins whose
/// pair it planned to enter and whose position opened, and plans no entry
/// (so places no order and sends no message) for a pair whose coin was
/// entered before it.
pub proof fn lemma_cycle_adds_only_opened_coins(entered: Set<Seq<char>>, steps: Seq<CycleStep>)
    ensures
        entered.subset_of(after_steps(entered, steps)),
        forall|i: int|
            #![trigger steps[i]]
            0 <= i < steps.len() && planned_action(
                after_steps(entered, steps.take(i)),
                steps[i].pair,
                steps[i].quotes,
            ) is Enter && steps[i].opened ==> after_steps(entered, steps).contains(
                steps[i].pair.base_coin@,
            ),
        forall|c: Seq<char>|
            #[trigger] after_steps(entered, steps).contains(c) && !entered.contains(c) ==> exists|i: int|
                #![trigger steps[i]]
                0 <= i < steps.len() && steps[i].pair.base_coin@ == c && steps[i].opened
                    && planned_action(
                    after_steps(entered, steps.take(i)),
                    steps[i].pair,
                    steps[i].quotes,
                ) is Enter,
        forall|i: int|
            #![trigger steps[i]]
            0 <= i < steps.len() && entered.contains(steps[i].pair.base_coin@) ==> planned_action(
                after_steps(entered, steps.take(i)),
                steps[i].pair,
                steps[i].quotes,
            ) is Skip,
    decreases steps.len(),
{
    lemma_after_steps_grows(entered, steps);
    assert forall|i: int|
        #![trigger steps[i]]
        0 <= i < steps.len() && entered.contains(steps[i].pair.base_coin@) implies planned_action(
        after_steps(entered, steps.take(i)),
        steps[i].pair,
        steps[i].quotes,
    ) is Skip by {
        lemma_after_steps_grows(entered, steps.take(i));
    }
    if steps.len() > 0 {
        let n = steps.len() - 1;
        let init = steps.drop_last();
        lemma_cycle_adds_only_opened_coins(entered, init);
        assert(steps.take(n) =~= init);
        let prev = after_steps(entered, init);
        assert forall|i: int|
            #![trigger steps[i]]
            0 <= i < steps.len() && planned_action(
                after_steps(entered, steps.take(i)),
                steps[i].pair,
                steps[i].quotes,
            ) is Enter && steps[i].opened implies after_steps(entered, steps).contains(
            steps[i].pair.base_coin@,
        ) by {
            if i < n {
                assert(init.take(i) =~= steps.take(i));
                assert(init[i] == steps[i]);
            }
        }
        assert forall|c: Seq<char>|
            #[trigger] after_steps(entered, steps).contains(c) && !entered.contains(c) implies exists|
            i: int,
        |
            #![trigger steps[i]]
            0 <= i < steps.len() && steps[i].pair.base_coin@ == c && steps[i].opened
                && planned_action(
                after_steps(entered, steps.take(i)),
                steps[i].pair,
                steps[i].quotes,
            ) is Enter by {
            if prev.contains(c) {
                let i = choose|i: int|
                    #![trigger init[i]]
                    0 <= i < init.len() && init[i].pair.base_coin@ == c && init[i].opened
                        && planned_action(
                        after_steps(entered, init.take(i)),
                        init[i].pair,
                        init[i].quotes,
                    ) is Enter;
                assert(init.take(i) =~= steps.take(i));
                assert(init[i] == steps[i]);
            } else {
                assert(steps[n].pair.base_coin@ == c);
            }
        }
    }
}

/// A pair not yet entered whose two tickers are there and whose wider spread
/// exceeds the threshold is entered on that spread: direction A exactly when
/// spread A (USDT bid over USDC ask) is the wider one, and then the USDC
/// symbol is bought and the USDT symbol sold; when spread B is wider, the
/// USDT symbol is bought and the USDC symbol sold. Any other pair is skipped.
pub proof fn lemma_entry_follows_wider_spread(entered: Set<Seq<char>>, pair: Pair, quotes: Option<QuoteVerdict>)
    ensures
        forall|v: QuoteVerdict|
            !entered.contains(pair.base_coin@) && quotes == Some(v) && v.exceeds_threshold ==> (
            planned_action(entered, pair, quotes) matches PairAction::Enter(c) && (c.direction
                == Direction::A) == v.a_wider && (v.a_wider ==> c.long_symbol == pair.usdc.symbol
                && c.short_symbol == pair.usdt.symbol) && (!v.a_wider ==> c.long_symbol
                == pair.usdt.symbol && c.short_symbol == pair.usdc.symbol)),
        entered.contains(pair.base_coin@) ==> planned_action(entered, pair, quotes) is Skip,
        quotes is None ==> planned_action(entered, pair, quotes) is Skip,
        forall|v: QuoteVerdict|
            quotes == Some(v) && !v.exceeds_threshold ==> planned_action(entered, pair, quotes) is Skip,
{
}

/// A `u32` setting is the number its text reads as, whatever that number;
/// only a missing or unreadable value gives the default. In particular a
/// setting written as the decimal numeral of `n` is `n`.
pub proof fn lemma_u32_setting_reads_the_number(v: String, n: u32, default: u32)
    ensures
        parsed_u32(v@) == Some(n) ==> u32_setting(Some(v), default) == n,
        parsed_u32(v@) is None ==> u32_setting(Some(v), default) == default,
        u32_setting(None, default) == default,
        v@ == decimal_text(n as nat) ==> u32_setting(Some(v), default) == n,
{
    lemma_decimal_text_reads_back(n as nat);
}

/// A `u64` setting is the number its text reads as, whatever that number;
/// only a missing or unreadable value gives the default. In particular a
/// setting written as the decimal numeral of `n` is `n`.
pub proof fn lemma_u64_setting_reads_the_number(v: String, n: u64, default: u64)
    ensures
        parsed_u64(v@) == Some(n) ==> u64_setting(Some(v), default) == n,
        parsed_u64(v@) is None ==> u64_setting(Some(v), default) == default,
        u64_setting(None, default) == default,
        v@ == decimal_text(n as nat) ==> u64_setting(Some(v), default) == n,
{
    lemma_decimal_text_reads_back(n as nat);
}

} // verus!
