//! Bybit's v5 API: instruments, signed requests, order bodies and replies.

use vstd::prelude::*;
use vstd::utf8::encode_utf8;
use crate::digest::{sign, signature_text};
use crate::error::{error_text, BotError};
use crate::json::{field_of, fields_view, lemma_field_at, json_error_message, object_json_text, object_to_json, JsonScalar, JsonScalarView};
use crate::text::{
    chars_of, contains_text, decimal_text, lemma_decimal_text_reads_back, parsed_u32, suffix_byte_len, text_contains,
    u64_to_decimal,
};

verus! {

/// Lot-size rules of an instrument, as Bybit writes them (decimal text).
#[derive(Debug)]
pub struct LotSizeFilter {
    pub qty_step: String,
    pub min_order_qty: String,
}

/// Price rules of an instrument, as Bybit writes them (decimal text).
#[derive(Debug)]
pub struct PriceFilter {
    pub tick_size: String,
}

/// One linear instrument as `/v5/market/instruments-info` lists it.
#[derive(Debug)]
pub struct InstrumentInfo {
    pub symbol: String,
    pub base_coin: String,
    pub quote_coin: String,
    pub status: String,
    pub lot_size_filter: LotSizeFilter,
    pub price_filter: PriceFilter,
}

impl LotSizeFilter {
    /// An equal copy.
    pub fn copy(&self) -> (r: Self)
        ensures
            r == *self,
    {
        LotSizeFilter { qty_step: self.qty_step.clone(), min_order_qty: self.min_order_qty.clone() }
    }
}

impl PriceFilter {
    /// An equal copy.
    pub fn copy(&self) -> (r: Self)
        ensures
            r == *self,
    {
        PriceFilter { tick_size: self.tick_size.clone() }
    }
}

impl InstrumentInfo {
    /// An equal copy.
    pub fn copy(&self) -> (r: Self)
        ensures
            r == *self,
    {
        InstrumentInfo {
            symbol: self.symbol.clone(),
            base_coin: self.base_coin.clone(),
            quote_coin: self.quote_coin.clone(),
            status: self.status.clone(),
            lot_size_filter: self.lot_size_filter.copy(),
            price_filter: self.price_filter.copy(),
        }
    }
}

/// `s[i]` is the first '.' of `s`.
pub open spec fn is_first_dot(s: Seq<char>, i: int) -> bool {
    &&& 0 <= i < s.len()
    &&& s[i] == '.'
    &&& forall|j: int| 0 <= j < i ==> s[j] != '.'
}

/// What `split_once('.')` leaves after the first '.', if there is one.
pub open spec fn fraction_part(s: Seq<char>) -> Option<Seq<char>> {
    if exists|i: int| #[trigger] is_first_dot(s, i) {
        Some(s.skip((choose|i: int| #[trigger] is_first_dot(s, i)) + 1))
    } else {
        None
    }
}

/// Number of decimal places implied by a step string like "0.001": the length
/// in bytes of what follows its first '.', or zero when it has none.
pub fn step_decimals(step_str: &str) -> (n: usize)
    ensures
        n == match fraction_part(step_str@) {
            Some(f) => encode_utf8(f).len(),
            None => 0,
        },
{
    let c = chars_of(step_str);
    let len = c.len();
    for i in 0..len
        invariant
            len == c@.len(),
            c@ == step_str@,
            forall|j: int| 0 <= j < i ==> step_str@[j] != '.',
    {
        if c[i] == '.' {
            assert(is_first_dot(step_str@, i as int));
            let ghost k = choose|k: int| #[trigger] is_first_dot(step_str@, k);
            assert(k == i);
            return suffix_byte_len(step_str, i + 1);
        }
    }
    assert forall|i: int| !#[trigger] is_first_dot(step_str@, i) by {}
    0
}

/// One `key=value` item of a query string.
pub open spec fn param_text(p: (Seq<char>, Seq<char>)) -> Seq<char> {
    p.0 + seq!['='] + p.1
}

/// The items joined by '&', in order.
pub open spec fn joined_params(ps: Seq<(Seq<char>, Seq<char>)>) -> Seq<char>
    decreases ps.len(),
{
    if ps.len() == 0 {
        seq![]
    } else if ps.len() == 1 {
        param_text(ps[0])
    } else {
        joined_params(ps.drop_last()) + seq!['&'] + param_text(ps.last())
    }
}

/// Query parameters taken by their views.
pub open spec fn params_view(ps: Seq<(String, String)>) -> Seq<(Seq<char>, Seq<char>)> {
    ps.map_values(|p: (String, String)| (p.0@, p.1@))
}

/// The query string of `params`, in their order, as the request carries it
/// and as it is signed.
pub fn query_string(params: &Vec<(String, String)>) -> (q: String)
    ensures
        q@ == joined_params(params_view(params@)),
{
    let mut q = String::new();
    let n = params.len();
    for i in 0..n
        invariant
            n == params@.len(),
            q@ == joined_params(params_view(params@).take(i as int)),
    {
        let ghost ps = params_view(params@);
        assert(ps.take(i + 1).drop_last() =~= ps.take(i as int));
        assert(ps.take(i + 1).last() == ps[i as int]);
        if i > 0 {
            q.push('&');
        }
        q.append(params[i].0.as_str());
        q.push('=');
        q.append(params[i].1.as_str());
        assert(q@ =~= joined_params(ps.take(i + 1)));
    }
    assert(params_view(params@).take(n as int) =~= params_view(params@));
    q
}

/// The base URL of Bybit's test network.
pub open spec fn testnet_url() -> Seq<char> {
    "https://api-testnet.bybit.com"@
}

/// The base URL of Bybit's main network.
pub open spec fn mainnet_url() -> Seq<char> {
    "https://api.bybit.com"@
}

/// The receive window, in milliseconds, sent with every signed request.
pub open spec fn recv_window() -> Seq<char> {
    "5000"@
}

/// What a signed request signs: timestamp, API key, receive window, then the
/// query string (GET) or the body (POST).
pub open spec fn signing_payload(timestamp: Seq<char>, api_key: Seq<char>, rest: Seq<char>) -> Seq<char> {
    timestamp + api_key + recv_window() + rest
}

/// The URL of a GET request: the query string follows a '?' unless it is empty.
pub open spec fn get_url(base: Seq<char>, path: Seq<char>, query: Seq<char>) -> Seq<char> {
    if query.len() == 0 {
        base + path
    } else {
        base + path + seq!['?'] + query
    }
}

/// The HTTP method of a request.
#[derive(PartialEq, Eq, Structural, Clone, Copy, Debug)]
pub enum HttpMethod {
    Get,
    Post,
}

/// A request ready to send. Its headers are `X-BAPI-API-KEY` (`api_key`),
/// `X-BAPI-TIMESTAMP` (`timestamp`), `X-BAPI-SIGN` (`signature`) and
/// `X-BAPI-RECV-WINDOW` (`recv_window`); a POST also carries `body` as
/// `application/json`.
pub struct SignedRequest {
    pub method: HttpMethod,
    pub url: String,
    pub api_key: String,
    pub timestamp: String,
    pub signature: String,
    pub recv_window: String,
    pub body: Option<String>,
}

/// A Bybit client's settings: where it connects and with which credentials.
pub struct BybitClient {
    base_url: String,
    api_key: String,
    api_secret: String,
}

impl BybitClient {
    /// The base URL requests go to.
    pub closed spec fn base_url_view(&self) -> Seq<char> {
        self.base_url@
    }

    /// The API key sent with each request.
    pub closed spec fn api_key_view(&self) -> Seq<char> {
        self.api_key@
    }

    /// The secret requests are signed with.
    pub closed spec fn api_secret_view(&self) -> Seq<char> {
        self.api_secret@
    }

    /// A client for the test network when `testnet` holds, else for the main one.
    pub fn new(api_key: String, api_secret: String, testnet: bool) -> (c: Self)
        ensures
            c.base_url_view() == (if testnet {
                testnet_url()
            } else {
                mainnet_url()
            }),
            c.api_key_view() == api_key@,
            c.api_secret_view() == api_secret@,
    {
        let base_url = if testnet {
            String::from_str("https://api-testnet.bybit.com")
        } else {
            String::from_str("https://api.bybit.com")
        };
        BybitClient { base_url, api_key, api_secret }
    }

    /// The signature of `payload` under this client's secret: 64 lowercase
    /// hexadecimal digits.
    pub fn sign(&self, payload: &str) -> (signature: String)
        ensures
            signature@ == signature_text(self.api_secret_view(), payload@),
            signature@.len() == 64,
    {
        sign(self.api_secret.as_str(), payload)
    }

    fn signed(&self, method: HttpMethod, url: String, rest: &str, timestamp: &str, body: Option<String>) -> (req: SignedRequest)
        ensures
            req.method == method,
            req.url == url,
            req.api_key@ == self.api_key_view(),
            req.timestamp@ == timestamp@,
            req.recv_window@ == recv_window(),
            req.signature@ == signature_text(
                self.api_secret_view(),
                signing_payload(timestamp@, self.api_key_view(), rest@),
            ),
            req.body == body,
    {
        let mut payload = String::from_str(timestamp);
        payload.append(self.api_key.as_str());
        payload.append("5000");
        payload.append(rest);
        let signature = self.sign(payload.as_str());
        SignedRequest {
            method,
            url,
            api_key: self.api_key.clone(),
            timestamp: String::from_str(timestamp),
            signature,
            recv_window: String::from_str("5000"),
            body,
        }
    }

    /// A signed GET of `path` with `params`: the query string in the URL is
    /// the one that is signed.
    pub fn get_signed(&self, path: &str, params: &Vec<(String, String)>, timestamp: &str) -> (req:
        SignedRequest)
        ensures
            ({
                let query = joined_params(params_view(params@));
                &&& req.method == HttpMethod::Get
                &&& req.url@ == get_url(self.base_url_view(), path@, query)
                &&& req.api_key@ == self.api_key_view()
                &&& req.timestamp@ == timestamp@
                &&& req.recv_window@ == recv_window()
                &&& req.signature@ == signature_text(
                    self.api_secret_view(),
                    signing_payload(timestamp@, self.api_key_view(), query),
                )
                &&& req.body is None
            }),
    {
        let query = query_string(params);
        let mut url = self.base_url.clone();
        url.append(path);
        if query.as_str().is_empty() {
        } else {
            url.push('?');
            url.append(query.as_str());
        }
        self.signed(HttpMethod::Get, url, query.as_str(), timestamp, None)
    }

    /// A signed POST of `path` whose body is the JSON object of `body`: the
    /// body sent is the one that is signed. Serialising such a body does not
    /// fail, so a request always results.
    pub fn post_signed(&self, path: &str, body: &Vec<(String, JsonScalar)>, timestamp: &str) -> (r:
        Result<SignedRequest, BotError>)
        ensures
            r is Ok,
            match r {
                Ok(req) => {
                    let text = object_json_text(fields_view(body@));
                    &&& req.method == HttpMethod::Post
                    &&& req.url@ == self.base_url_view() + path@
                    &&& req.api_key@ == self.api_key_view()
                    &&& req.timestamp@ == timestamp@
                    &&& req.recv_window@ == recv_window()
                    &&& req.signature@ == signature_text(
                        self.api_secret_view(),
                        signing_payload(timestamp@, self.api_key_view(), text),
                    )
                    &&& req.body matches Some(b) && b@ == text
                },
                Err(e) => e is Encode,
            },
    {
        match object_to_json(body) {
            Ok(text) => {
                let mut url = self.base_url.clone();
                url.append(path);
                let signed_text = text.clone();
                Ok(self.signed(HttpMethod::Post, url, signed_text.as_str(), timestamp, Some(text)))
            },
            Err(e) => Err(BotError::Encode { message: json_error_message(&e) }),
        }
    }

    /// The request for one page of linear instruments.
    pub fn instruments_page_request(&self, pages: &InstrumentPages, timestamp: &str) -> (req:
        SignedRequest)
        ensures
            ({
                let query = joined_params(page_params_view(pages.cursor_view()));
                &&& req.method == HttpMethod::Get
                &&& req.url@ == get_url(
                    self.base_url_view(),
                    "/v5/market/instruments-info"@,
                    query,
                )
                &&& req.signature@ == signature_text(
                    self.api_secret_view(),
                    signing_payload(timestamp@, self.api_key_view(), query),
                )
                &&& req.api_key@ == self.api_key_view()
                &&& req.timestamp@ == timestamp@
                &&& req.recv_window@ == recv_window()
                &&& req.body is None
            }),
    {
        let params = pages.page_params();
        self.get_signed("/v5/market/instruments-info", &params, timestamp)
    }

    /// The request for the best bid and ask of every linear symbol.
    pub fn tickers_request(&self, timestamp: &str) -> (req: SignedRequest)
        ensures
            ({
                let query = "category"@ + seq!['='] + "linear"@;
                &&& req.method == HttpMethod::Get
                &&& req.url@ == get_url(self.base_url_view(), "/v5/market/tickers"@, query)
                &&& req.signature@ == signature_text(
                    self.api_secret_view(),
                    signing_payload(timestamp@, self.api_key_view(), query),
                )
                &&& req.api_key@ == self.api_key_view()
                &&& req.timestamp@ == timestamp@
                &&& req.recv_window@ == recv_window()
                &&& req.body is None
            }),
    {
        let mut params: Vec<(String, String)> = Vec::new();
        params.push((String::from_str("category"), String::from_str("linear")));
        assert(params_view(params@) =~= seq![("category"@, "linear"@)]);
        self.get_signed("/v5/market/tickers", &params, timestamp)
    }

    /// The request that sets both buy and sell leverage of `symbol`.
    pub fn set_leverage_request(&self, symbol: &str, leverage: u32, timestamp: &str) -> (r: Result<
        SignedRequest,
        BotError,
    >)
        ensures
            r is Ok,
            match r {
                Ok(req) => {
                    let text = object_json_text(leverage_fields(symbol@, leverage));
                    &&& req.method == HttpMethod::Post
                    &&& req.url@ == self.base_url_view() + "/v5/position/set-leverage"@
                    &&& req.signature@ == signature_text(
                        self.api_secret_view(),
                        signing_payload(timestamp@, self.api_key_view(), text),
                    )
                    &&& req.body matches Some(b) && b@ == text
                    &&& req.api_key@ == self.api_key_view()
                    &&& req.timestamp@ == timestamp@
                    &&& req.recv_window@ == recv_window()
                },
                Err(e) => e is Encode,
            },
    {
        let body = set_leverage_body(symbol, leverage);
        self.post_signed("/v5/position/set-leverage", &body, timestamp)
    }

    /// The request that places `order` at market.
    pub fn market_order_request(&self, order: &MarketOrder, timestamp: &str) -> (r: Result<
        SignedRequest,
        BotError,
    >)
        ensures
            r is Ok,
            match r {
                Ok(req) => {
                    let text = object_json_text(market_order_fields(*order));
                    &&& req.method == HttpMethod::Post
                    &&& req.url@ == self.base_url_view() + "/v5/order/create"@
                    &&& req.signature@ == signature_text(
                        self.api_secret_view(),
                        signing_payload(timestamp@, self.api_key_view(), text),
                    )
                    &&& req.body matches Some(b) && b@ == text
                    &&& req.api_key@ == self.api_key_view()
                    &&& req.timestamp@ == timestamp@
                    &&& req.recv_window@ == recv_window()
                },
                Err(e) => e is Encode,
            },
    {
        let body = market_order_body(order);
        self.post_signed("/v5/order/create", &body, timestamp)
    }
}

/// The fields of Bybit's reply envelope that decide whether a call succeeded.
pub struct ApiReply {
    /// `retCode`, when it is an integer.
    pub ret_code: Option<i64>,
    /// `retMsg`, when it is a string.
    pub ret_msg: Option<String>,
}

/// The return code of a reply; a missing one counts as -1.
pub open spec fn reply_code(resp: ApiReply) -> i64 {
    match resp.ret_code {
        Some(c) => c,
        None => -1i64,
    }
}

/// The message of a reply; a missing one reads "unknown error".
pub open spec fn reply_message(resp: ApiReply) -> Seq<char> {
    match resp.ret_msg {
        Some(m) => m@,
        None => "unknown error"@,
    }
}

/// A reply succeeds exactly when its return code is zero; otherwise it is an
/// API error with that code and message.
pub fn check_ret_code(resp: &ApiReply) -> (r: Result<(), BotError>)
    ensures
        r is Ok <==> reply_code(*resp) == 0,
        r matches Err(e) ==> (e matches BotError::Api { code, message } && code == reply_code(*resp)
            && message@ == reply_message(*resp)),
        r is Ok ==> resp.ret_code == Some(0i64),
        forall|c: i64|
            resp.ret_code == Some(c) && c != 0 ==> (r matches Err(BotError::Api { code, .. }) && code
                == c),
        resp.ret_code is None ==> r is Err,
{
    let code = match resp.ret_code {
        Some(c) => c,
        None => -1,
    };
    if code != 0 {
        let message = match &resp.ret_msg {
            Some(m) => m.clone(),
            None => String::from_str("unknown error"),
        };
        return Err(BotError::Api { code, message });
    }
    Ok(())
}

/// The code Bybit answers when the leverage asked for is already set.
pub open spec fn leverage_not_modified() -> Seq<char> {
    "110043"@
}

/// The outcome of setting leverage: an error whose text holds "110043"
/// (leverage not modified) counts as success; any other outcome stands.
pub fn leverage_outcome(outcome: Result<(), BotError>) -> (r: Result<(), BotError>)
    ensures
        match outcome {
            Ok(()) => r is Ok,
            Err(e) => if contains_text(error_text(e), leverage_not_modified()) {
                r is Ok
            } else {
                r == Err::<(), BotError>(e)
            },
        },
{
    match outcome {
        Ok(()) => Ok(()),
        Err(e) => {
            let text = e.describe();
            if text_contains(text.as_str(), "110043") {
                Ok(())
            } else {
                Err(e)
            }
        },
    }
}

/// The `orderId` of an order's reply; a missing one reads as empty.
pub fn order_id_of(reply_order_id: Option<String>) -> (id: String)
    ensures
        id@ == match reply_order_id {
            Some(s) => s@,
            None => Seq::<char>::empty(),
        },
{
    match reply_order_id {
        Some(s) => s,
        None => String::new(),
    }
}

/// The side of a market order.
#[derive(PartialEq, Eq, Structural, Clone, Copy, Debug)]
pub enum Side {
    Buy,
    Sell,
}

/// The name Bybit uses for a side.
pub open spec fn side_text(side: Side) -> Seq<char> {
    match side {
        Side::Buy => "Buy"@,
        Side::Sell => "Sell"@,
    }
}

/// The other side.
pub open spec fn opposite(side: Side) -> Side {
    match side {
        Side::Buy => Side::Sell,
        Side::Sell => Side::Buy,
    }
}

impl Side {
    /// The name Bybit uses for this side.
    pub fn as_str(&self) -> (s: &'static str)
        ensures
            s@ == side_text(*self),
    {
        match self {
            Side::Buy => "Buy",
            Side::Sell => "Sell",
        }
    }

    /// The side that closes a position this side opened.
    pub fn opposite(&self) -> (s: Side)
        ensures
            s == opposite(*self),
    {
        match self {
            Side::Buy => Side::Sell,
            Side::Sell => Side::Buy,
        }
    }
}

/// A market order of `qty` (decimal text) on `symbol`.
pub struct MarketOrder {
    pub symbol: String,
    pub side: Side,
    pub qty: String,
    pub reduce_only: bool,
}

/// A text field of a body.
pub open spec fn text_field(key: Seq<char>, value: Seq<char>) -> (Seq<char>, JsonScalarView) {
    (key, JsonScalarView::Text(value))
}

/// The body of an order: linear category, market type, immediate-or-cancel.
pub open spec fn market_order_fields(order: MarketOrder) -> Seq<(Seq<char>, JsonScalarView)> {
    seq![
        text_field("category"@, "linear"@),
        text_field("symbol"@, order.symbol@),
        text_field("side"@, side_text(order.side)),
        text_field("orderType"@, "Market"@),
        text_field("qty"@, order.qty@),
        ("reduceOnly"@, JsonScalarView::Flag(order.reduce_only)),
        text_field("timeInForce"@, "IOC"@),
    ]
}

/// The body that sets buy and sell leverage of a linear symbol alike.
pub open spec fn leverage_fields(symbol: Seq<char>, leverage: u32) -> Seq<(Seq<char>, JsonScalarView)> {
    seq![
        text_field("category"@, "linear"@),
        text_field("symbol"@, symbol),
        text_field("buyLeverage"@, decimal_text(leverage as nat)),
        text_field("sellLeverage"@, decimal_text(leverage as nat)),
    ]
}

fn text_entry(key: &str, value: &str) -> (f: (String, JsonScalar))
    ensures
        f.0@ == key@,
        f.1@ == JsonScalarView::Text(value@),
{
    (String::from_str(key), JsonScalar::Text(String::from_str(value)))
}

/// The fields of the body that places `order`.
pub fn market_order_body(order: &MarketOrder) -> (body: Vec<(String, JsonScalar)>)
    ensures
        fields_view(body@) == market_order_fields(*order),
        field_of(fields_view(body@), "reduceOnly"@) == Some(JsonScalarView::Flag(order.reduce_only)),
        field_of(fields_view(body@), "side"@) == Some(JsonScalarView::Text(side_text(order.side))),
        field_of(fields_view(body@), "qty"@) == Some(JsonScalarView::Text(order.qty@)),
        field_of(fields_view(body@), "symbol"@) == Some(JsonScalarView::Text(order.symbol@)),
{
    let mut body: Vec<(String, JsonScalar)> = Vec::new();
    body.push(text_entry("category", "linear"));
    body.push(text_entry("symbol", order.symbol.as_str()));
    body.push(text_entry("side", order.side.as_str()));
    body.push(text_entry("orderType", "Market"));
    body.push(text_entry("qty", order.qty.as_str()));
    body.push((String::from_str("reduceOnly"), JsonScalar::Flag(order.reduce_only)));
    body.push(text_entry("timeInForce", "IOC"));
    assert(fields_view(body@) =~= market_order_fields(*order));
    proof {
        lemma_order_body_carries_the_order(*order);
    }
    body
}

/// The fields of the body that sets the leverage of `symbol`.
pub fn set_leverage_body(symbol: &str, leverage: u32) -> (body: Vec<(String, JsonScalar)>)
    ensures
        fields_view(body@) == leverage_fields(symbol@, leverage),
        field_of(fields_view(body@), "buyLeverage"@) matches Some(JsonScalarView::Text(t))
            && parsed_u32(t) == Some(leverage),
        field_of(fields_view(body@), "sellLeverage"@) matches Some(JsonScalarView::Text(t))
            && parsed_u32(t) == Some(leverage),
{
    let lev = u64_to_decimal(leverage as u64);
    let mut body: Vec<(String, JsonScalar)> = Vec::new();
    body.push(text_entry("category", "linear"));
    body.push(text_entry("symbol", symbol));
    body.push(text_entry("buyLeverage", lev.as_str()));
    body.push(text_entry("sellLeverage", lev.as_str()));
    assert(fields_view(body@) =~= leverage_fields(symbol@, leverage));
    proof {
        lemma_leverage_body_sets_requested_leverage(symbol@, leverage);
    }
    body
}

/// The query of an instruments page: linear category, up to 1000 entries,
/// and the cursor of the page, if there is one.
pub open spec fn page_params_view(cursor: Option<Seq<char>>) -> Seq<(Seq<char>, Seq<char>)> {
    let first = seq![("category"@, "linear"@), ("limit"@, "1000"@)];
    match cursor {
        Some(c) => first.push(("cursor"@, c)),
        None => first,
    }
}

/// Walks the pages of `/v5/market/instruments-info`: it collects each page's
/// instruments in order and follows `nextPageCursor` until it is empty.
pub struct InstrumentPages {
    collected: Vec<InstrumentInfo>,
    cursor: Option<String>,
    finished: bool,
}

impl InstrumentPages {
    /// The instruments collected so far, in order.
    pub closed spec fn collected_view(&self) -> Seq<InstrumentInfo> {
        self.collected@
    }

    /// The cursor of the next page to fetch, if any.
    pub closed spec fn cursor_view(&self) -> Option<Seq<char>> {
        match self.cursor {
            Some(c) => Some(c@),
            None => None,
        }
    }

    /// Whether the last page has been read.
    pub closed spec fn finished_view(&self) -> bool {
        self.finished
    }

    /// Nothing collected yet; the first page has no cursor.
    pub fn new() -> (p: Self)
        ensures
            p.collected_view() == Seq::<InstrumentInfo>::empty(),
            p.cursor_view() is None,
            !p.finished_view(),
    {
        InstrumentPages { collected: Vec::new(), cursor: None, finished: false }
    }

    /// Whether the last page has been read.
    pub fn is_finished(&self) -> (r: bool)
        ensures
            r == self.finished_view(),
    {
        self.finished
    }

    /// The query parameters of the next page.
    pub fn page_params(&self) -> (params: Vec<(String, String)>)
        ensures
            params_view(params@) == page_params_view(self.cursor_view()),
    {
        let mut params: Vec<(String, String)> = Vec::new();
        params.push((String::from_str("category"), String::from_str("linear")));
        params.push((String::from_str("limit"), String::from_str("1000")));
        match &self.cursor {
            Some(c) => {
                params.push((String::from_str("cursor"), c.clone()));
            },
            None => {},
        }
        assert(params_view(params@) =~= page_params_view(self.cursor_view()));
        params
    }

    /// Takes in a page and the `nextPageCursor` that came with it (missing
    /// counts as empty): its instruments follow those collected before, and an
    /// empty cursor ends the walk.
    pub fn absorb(&mut self, page: Vec<InstrumentInfo>, next_cursor: Option<String>)
        requires
            !old(self).finished_view(),
        ensures
            final(self).collected_view() == old(self).collected_view() + page@,
            match next_cursor {
                Some(c) if c@.len() > 0 => final(self).cursor_view() == Some(c@)
                    && !final(self).finished_view(),
                _ => final(self).finished_view(),
            },
    {
        let mut page = page;
        self.collected.append(&mut page);
        match next_cursor {
            Some(c) => {
                if c.as_str().is_empty() {
                    self.finished = true;
                } else {
                    self.cursor = Some(c);
                }
            },
            None => {
                self.finished = true;
            },
        }
    }

    /// All instruments collected, in the order the pages listed them.
    pub fn into_instruments(self) -> (v: Vec<InstrumentInfo>)
        ensures
            v@ == self.collected_view(),
    {
        self.collected
    }
}

/// The instruments of `pages`, page after page.
pub open spec fn concat_pages(pages: Seq<Seq<InstrumentInfo>>) -> Seq<InstrumentInfo>
    decreases pages.len(),
{
    if pages.len() == 0 {
        Seq::empty()
    } else {
        concat_pages(pages.drop_last()) + pages.last()
    }
}

/// A walk loses no instrument and keeps their order: when `collected[0]` is
/// empty (as `InstrumentPages::new` starts) and each `absorb` of `pages[i]`
/// takes `collected[i]` to `collected[i + 1]`, what is collected at the end is
/// every page's instruments, page after page.
pub proof fn lemma_walk_collects_all_pages(collected: Seq<Seq<InstrumentInfo>>, pages: Seq<Seq<InstrumentInfo>>)
    requires
        collected.len() == pages.len() + 1,
        collected[0] == Seq::<InstrumentInfo>::empty(),
        forall|i: int| 0 <= i < pages.len() ==> #[trigger] collected[i + 1] == collected[i] + pages[i],
    ensures
        collected.last() == concat_pages(pages),
    decreases pages.len(),
{
    if pages.len() > 0 {
        let n = pages.len() - 1;
        assert(collected[n + 1] == collected[n] + pages[n]);
        lemma_walk_collects_all_pages(collected.drop_last(), pages.drop_last());
        assert(collected.drop_last().last() == collected[n]);
    }
}

/// A reply's code is its `retCode` when there is one, and -1, never success,
/// when there is none: a non-zero `retCode` is never taken for success.
pub proof fn lemma_reply_code_is_ret_code(resp: ApiReply)
    ensures
        resp.ret_code matches Some(c) ==> reply_code(resp) == c,
        resp.ret_code is None ==> reply_code(resp) == -1 && reply_code(resp) != 0,
        reply_code(resp) == 0 <==> resp.ret_code == Some(0i64),
{
}

/// An order's body carries the order itself: its symbol, its side's name,
/// its quantity and its own reduce-only flag, on the linear category, at
/// market, immediate-or-cancel.
pub proof fn lemma_order_body_carries_the_order(order: MarketOrder)
    ensures
        field_of(market_order_fields(order), "symbol"@) == Some(JsonScalarView::Text(order.symbol@)),
        field_of(market_order_fields(order), "side"@) == Some(JsonScalarView::Text(side_text(order.side))),
        field_of(market_order_fields(order), "qty"@) == Some(JsonScalarView::Text(order.qty@)),
        field_of(market_order_fields(order), "reduceOnly"@) == Some(JsonScalarView::Flag(order.reduce_only)),
        field_of(market_order_fields(order), "category"@) == Some(JsonScalarView::Text("linear"@)),
        field_of(market_order_fields(order), "orderType"@) == Some(JsonScalarView::Text("Market"@)),
        field_of(market_order_fields(order), "timeInForce"@) == Some(JsonScalarView::Text("IOC"@)),
        side_text(order.side) == (if order.side == Side::Buy { "Buy"@ } else { "Sell"@ }),
{
    reveal_strlit("symbol");
    reveal_strlit("side");
    reveal_strlit("qty");
    reveal_strlit("reduceOnly");
    reveal_strlit("category");
    reveal_strlit("orderType");
    reveal_strlit("timeInForce");
    let f = market_order_fields(order);
    assert(f[0].0.len() == 8 && f[1].0.len() == 6 && f[2].0.len() == 4 && f[3].0.len() == 9);
    assert(f[4].0.len() == 3 && f[5].0.len() == 10 && f[6].0.len() == 11);
    assert forall|j: int, k: int| 0 <= j < k < 7 implies f[j].0 != f[k].0 by {
        assert(f[j].0.len() != f[k].0.len());
    }
    lemma_field_at(f, "category"@, 0);
    lemma_field_at(f, "symbol"@, 1);
    lemma_field_at(f, "side"@, 2);
    lemma_field_at(f, "orderType"@, 3);
    lemma_field_at(f, "qty"@, 4);
    lemma_field_at(f, "reduceOnly"@, 5);
    lemma_field_at(f, "timeInForce"@, 6);
}

/// The leverage body sets buy and sell leverage both to the leverage asked
/// for: each is a decimal numeral that reads back as exactly that leverage;
/// it names the symbol asked for, on the linear category.
pub proof fn lemma_leverage_body_sets_requested_leverage(symbol: Seq<char>, leverage: u32)
    ensures
        field_of(leverage_fields(symbol, leverage), "buyLeverage"@) matches Some(JsonScalarView::Text(t))
            && parsed_u32(t) == Some(leverage),
        field_of(leverage_fields(symbol, leverage), "sellLeverage"@) matches Some(JsonScalarView::Text(t))
            && parsed_u32(t) == Some(leverage),
        field_of(leverage_fields(symbol, leverage), "symbol"@) == Some(JsonScalarView::Text(symbol)),
        field_of(leverage_fields(symbol, leverage), "category"@) == Some(JsonScalarView::Text("linear"@)),
{
    reveal_strlit("symbol");
    reveal_strlit("category");
    reveal_strlit("buyLeverage");
    reveal_strlit("sellLeverage");
    let f = leverage_fields(symbol, leverage);
    assert(f[0].0.len() == 8 && f[1].0.len() == 6 && f[2].0.len() == 11 && f[3].0.len() == 12);
    assert forall|j: int, k: int| 0 <= j < k < 4 implies f[j].0 != f[k].0 by {
        assert(f[j].0.len() != f[k].0.len());
    }
    lemma_field_at(f, "category"@, 0);
    lemma_field_at(f, "symbol"@, 1);
    lemma_field_at(f, "buyLeverage"@, 2);
    lemma_field_at(f, "sellLeverage"@, 3);
    lemma_decimal_text_reads_back(leverage as nat);
}

} // verus!
