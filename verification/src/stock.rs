//! The watchlist core: tracked quotes, the response parse-and-merge pipeline,
//! and tolerant persistence of the symbol codes.
//!
//! Quote figures are carried as the decimal text the feed sent (default
//! `"0"`): the core only stores and hands them out, so the text stands for
//! the number, and the display layer converts when it renders.

use vstd::prelude::*;
use vstd::string::StrSliceExecFns;
use vstd::string::StringExecFns;
use crate::json::{
    JVal,
    JsonV,
    jval_view,
    jarr_view,
    jobj_view,
    obj_lookup,
    obj_get,
    parse_json,
    jval_to_string,
    parsed_json,
    json_text,
    lemma_jarr_view_props,
    lemma_jobj_view_props,
};

verus! {

/// Mathematical view of one tracked quote.
#[verifier::ext_equal]
pub struct StockV {
    pub title: Seq<char>,
    pub code: Seq<char>,
    pub price: Seq<char>,
    pub percent: Seq<char>,
    pub open: Seq<char>,
    pub yestclose: Seq<char>,
    pub high: Seq<char>,
    pub low: Seq<char>,
}

/// One tracked quote. `code` is the join key for every operation; the other
/// fields hold the latest fetched values as decimal text.
#[derive(Clone, Debug)]
pub struct Stock {
    pub title: String,
    pub code: String,
    pub price: String,
    pub percent: String,
    pub open: String,
    pub yestclose: String,
    pub high: String,
    pub low: String,
}

impl View for Stock {
    type V = StockV;

    open spec fn view(&self) -> StockV {
        StockV {
            title: self.title@,
            code: self.code@,
            price: self.price@,
            percent: self.percent@,
            open: self.open@,
            yestclose: self.yestclose@,
            high: self.high@,
            low: self.low@,
        }
    }
}

pub open spec fn zero_text() -> Seq<char> {
    "0"@
}

/// A quote as it is first created: only the code is known, the title falls
/// back to the code, every figure is zero.
pub open spec fn fresh_stock(code: Seq<char>) -> StockV {
    StockV {
        title: code,
        code: code,
        price: zero_text(),
        percent: zero_text(),
        open: zero_text(),
        yestclose: zero_text(),
        high: zero_text(),
        low: zero_text(),
    }
}

impl Stock {
    pub fn new(code: &String) -> (r: Self)
        ensures
            r@ == fresh_stock(code@),
    {
        Stock {
            title: code.clone(),
            code: code.clone(),
            price: String::from_str("0"),
            percent: String::from_str("0"),
            open: String::from_str("0"),
            yestclose: String::from_str("0"),
            high: String::from_str("0"),
            low: String::from_str("0"),
        }
    }
}

fn clone_stock(s: &Stock) -> (r: Stock)
    ensures
        r@ == s@,
{
    Stock {
        title: s.title.clone(),
        code: s.code.clone(),
        price: s.price.clone(),
        percent: s.percent.clone(),
        open: s.open.clone(),
        yestclose: s.yestclose.clone(),
        high: s.high.clone(),
        low: s.low.clone(),
    }
}

pub open spec fn stocks_view(s: Seq<Stock>) -> Seq<StockV> {
    Seq::new(s.len(), |i: int| s[i]@)
}

pub open spec fn codes_of(s: Seq<StockV>) -> Seq<Seq<char>> {
    Seq::new(s.len(), |i: int| s[i].code)
}

/// The codes joined by single commas, in order; empty input gives the empty
/// string.
pub open spec fn joined_codes(codes: Seq<Seq<char>>) -> Seq<char>
    decreases codes.len(),
{
    if codes.len() == 0 {
        Seq::empty()
    } else if codes.len() == 1 {
        codes[0]
    } else {
        joined_codes(codes.drop_last()) + seq![','] + codes.last()
    }
}

/// The comma-joined code list of the watchlist, in insertion order.
pub fn codes_joined(stocks: &Vec<Stock>) -> (r: String)
    ensures
        r@ == joined_codes(codes_of(stocks_view(stocks@))),
{
    let ghost codes = codes_of(stocks_view(stocks@));
    let mut acc = String::new();
    let mut i: usize = 0;
    proof {
        assert(codes.take(0) =~= Seq::empty());
    }
    while i < stocks.len()
        invariant
            0 <= i <= stocks.len(),
            codes == codes_of(stocks_view(stocks@)),
            codes.len() == stocks.len(),
            forall|j: int| 0 <= j < stocks.len() ==> codes[j] == stocks@[j]@.code,
            acc@ == joined_codes(codes.take(i as int)),
        decreases stocks.len() - i,
    {
        if i > 0 {
            acc.append(",");
        }
        acc.append(stocks[i].code.as_str());
        proof {
            let t = codes.take(i as int + 1);
            assert(t.drop_last() =~= codes.take(i as int));
            assert(t.last() == codes[i as int]);
            if i == 0 {
                assert(acc@ == joined_codes(t));
            } else {
                assert(","@ =~= seq![',']) by {
                    reveal_strlit(",");
                }
                assert(acc@ == joined_codes(t));
            }
        }
        i += 1;
    }
    proof {
        assert(codes.take(stocks.len() as int) =~= codes);
    }
    acc
}

/// A non-empty comma-joined code list never starts or ends with a comma.
pub proof fn lemma_codes_joined_shape(codes: Seq<Seq<char>>)
    requires
        codes.len() > 0,
        forall|i: int| 0 <= i < codes.len() ==> codes[i].len() > 0 && !codes[i].contains(','),
    ensures
        joined_codes(codes).len() > 0,
        joined_codes(codes).first() != ',',
        joined_codes(codes).last() != ',',
    decreases codes.len(),
{
    if codes.len() == 1 {
        let c = codes[0];
        assert(c[0] != ',' && c[c.len() - 1] != ',') by {
            assert(!c.contains(','));
        }
    } else {
        lemma_codes_joined_shape(codes.drop_last());
        let c = codes.last();
        assert(c[0] != ',' && c[c.len() - 1] != ',') by {
            assert(!c.contains(','));
        }
    }
}

pub open spec fn feed_url_base() -> Seq<char> {
    "http://api.money.126.net/data/feed/"@
}

/// The fetch request a refresh would issue: the feed URL carrying every
/// tracked code, or nothing at all when no code is tracked.
pub fn refresh_request(stocks: &Vec<Stock>) -> (r: Option<String>)
    ensures
        r is Some <==> joined_codes(codes_of(stocks_view(stocks@))).len() > 0,
        r matches Some(u) ==> u@ == feed_url_base() + joined_codes(codes_of(stocks_view(stocks@))),
{
    let codes = codes_joined(stocks);
    if codes.as_str().unicode_len() > 0 {
        let url = String::from_str("http://api.money.126.net/data/feed/").concat(codes.as_str());
        Some(url)
    } else {
        None
    }
}

pub open spec fn wrapper_prefix() -> Seq<char> {
    "_ntes_quote_callback("@
}

/// The response is wrapper-formatted: the fixed 21-character call prefix,
/// a payload, and the fixed 2-character suffix.
pub open spec fn is_wrapped(c: Seq<char>) -> bool {
    c.len() >= 23 && c.subrange(0, 21) == wrapper_prefix()
}

/// The payload of a wrapper-formatted response: everything between the fixed
/// 21-character prefix and the 2-character suffix.
pub open spec fn payload_of(c: Seq<char>) -> Seq<char> {
    c.subrange(21, c.len() - 2)
}

/// Stripping is exact: a wrapper-formatted response is its fixed
/// 21-character prefix, then the payload, then its 2-character suffix.
pub proof fn lemma_wrapper_strip(c: Seq<char>)
    requires
        is_wrapped(c),
    ensures
        payload_of(c).len() == c.len() - 23,
        c == wrapper_prefix() + payload_of(c) + c.subrange(c.len() - 2, c.len() as int),
{
    assert(c =~= wrapper_prefix() + payload_of(c) + c.subrange(c.len() - 2, c.len() as int));
}

/// A usable feed response: wrapper-formatted, and its payload parses to a
/// JSON object keyed by symbol code.
pub open spec fn feed_ok(c: Seq<char>) -> bool {
    is_wrapped(c) && (parsed_json(payload_of(c)) matches Some(JsonV::Obj(_)))
}

pub open spec fn feed_pairs(c: Seq<char>) -> Seq<(Seq<char>, JsonV)> {
    match parsed_json(payload_of(c)) {
        Some(JsonV::Obj(o)) => o,
        _ => Seq::empty(),
    }
}

fn str_eq(a: &str, b: &str) -> (r: bool)
    ensures
        r == (a@ == b@),
{
    let x = String::from_str(a);
    let y = String::from_str(b);
    x == y
}

/// Validates and strips the feed wrapper and parses the payload. Returns the
/// code-keyed object on success, nothing on any malformed response.
pub fn parse_feed(content: &str) -> (r: Option<JVal>)
    ensures
        r is Some <==> feed_ok(content@),
        r matches Some(doc) ==> doc@ == JsonV::Obj(feed_pairs(content@)),
{
    let n = content.unicode_len();
    if n < 23 {
        return None;
    }
    let head = content.substring_char(0, 21);
    if !str_eq(head, "_ntes_quote_callback(") {
        return None;
    }
    let payload = content.substring_char(21, n - 2);
    match parse_json(payload) {
        Some(v) => {
            let is_obj = match &v {
                JVal::Obj(_) => true,
                _ => false,
            };
            if is_obj {
                Some(v)
            } else {
                None
            }
        },
        None => None,
    }
}

/// The value of a string member, or the default when it is absent or not a
/// string.
pub open spec fn str_field(entry: Seq<(Seq<char>, JsonV)>, key: Seq<char>, dflt: Seq<char>) -> Seq<
    char,
> {
    match obj_lookup(entry, key) {
        Some(JsonV::Str(s)) => s,
        _ => dflt,
    }
}

/// The text of a numeric member, or zero when it is absent or not a number.
pub open spec fn num_field(entry: Seq<(Seq<char>, JsonV)>, key: Seq<char>) -> Seq<char> {
    match obj_lookup(entry, key) {
        Some(JsonV::Num(s)) => s,
        _ => zero_text(),
    }
}

fn get_str_field(entry: &Vec<(String, JVal)>, key: &String, dflt: &String) -> (r: String)
    ensures
        r@ == str_field(jobj_view(entry@), key@, dflt@),
{
    match obj_get(entry, key) {
        Some(v) => match v {
            JVal::Str(s) => s.clone(),
            _ => dflt.clone(),
        },
        None => dflt.clone(),
    }
}

fn get_num_field(entry: &Vec<(String, JVal)>, key: &String) -> (r: String)
    ensures
        r@ == num_field(jobj_view(entry@), key@),
{
    match obj_get(entry, key) {
        Some(v) => match v {
            JVal::Num(s) => s.clone(),
            _ => String::from_str("0"),
        },
        None => String::from_str("0"),
    }
}

pub open spec fn doc_pairs(doc: JsonV) -> Seq<(Seq<char>, JsonV)> {
    match doc {
        JsonV::Obj(o) => o,
        _ => Seq::empty(),
    }
}

/// One quote after a merge with the feed object: a quote whose code the feed
/// does not carry as an object is left exactly as it was; otherwise each
/// field is taken from the entry, a missing or mistyped member falling back
/// to zero, and the title to the code.
pub open spec fn merged_stock(s: StockV, pairs: Seq<(Seq<char>, JsonV)>) -> StockV {
    match obj_lookup(pairs, s.code) {
        Some(JsonV::Obj(entry)) => StockV {
            code: s.code,
            title: str_field(entry, "name"@, s.code),
            price: num_field(entry, "price"@),
            percent: num_field(entry, "percent"@),
            open: num_field(entry, "open"@),
            yestclose: num_field(entry, "yestclose"@),
            high: num_field(entry, "high"@),
            low: num_field(entry, "low"@),
        },
        _ => s,
    }
}

/// Per-symbol tolerance: a response that lacks a tracked code entirely
/// leaves that quote's fields at their pre-refresh values.
pub proof fn lemma_merge_missing_code(s: StockV, pairs: Seq<(Seq<char>, JsonV)>)
    requires
        obj_lookup(pairs, s.code) is None,
    ensures
        merged_stock(s, pairs) == s,
{
}

fn merge_stock(s: &Stock, doc: &JVal) -> (r: Stock)
    ensures
        r@ == merged_stock(s@, doc_pairs(doc@)),
{
    match doc {
        JVal::Obj(pairs) => match obj_get(pairs, &s.code) {
            Some(entry_val) => match entry_val {
                JVal::Obj(entry) => {
                    let name_key = String::from_str("name");
                    let price_key = String::from_str("price");
                    let percent_key = String::from_str("percent");
                    let open_key = String::from_str("open");
                    let yestclose_key = String::from_str("yestclose");
                    let high_key = String::from_str("high");
                    let low_key = String::from_str("low");
                    Stock {
                        code: s.code.clone(),
                        title: get_str_field(entry, &name_key, &s.code),
                        price: get_num_field(entry, &price_key),
                        percent: get_num_field(entry, &percent_key),
                        open: get_num_field(entry, &open_key),
                        yestclose: get_num_field(entry, &yestclose_key),
                        high: get_num_field(entry, &high_key),
                        low: get_num_field(entry, &low_key),
                    }
                },
                _ => clone_stock(s),
            },
            None => clone_stock(s),
        },
        _ => clone_stock(s),
    }
}

/// Merges the feed object into every tracked quote, per-symbol tolerant.
pub fn merge_stocks(stocks: &mut Vec<Stock>, doc: &JVal)
    ensures
        final (stocks)@.len() == old(stocks)@.len(),
        forall|i: int|
            0 <= i < old(stocks)@.len() ==> final (stocks)@[i]@ == merged_stock(
                old(stocks)@[i]@,
                doc_pairs(doc@),
            ),
{
    let mut out: Vec<Stock> = Vec::new();
    let mut i: usize = 0;
    while i < stocks.len()
        invariant
            0 <= i <= stocks.len(),
            stocks@ == old(stocks)@,
            out@.len() == i,
            forall|j: int|
                0 <= j < i ==> out@[j]@ == merged_stock(stocks@[j]@, doc_pairs(doc@)),
        decreases stocks.len() - i,
    {
        let m = merge_stock(&stocks[i], doc);
        out.push(m);
        i += 1;
    }
    *stocks = out;
}

/// The code a saved-file entry contributes: the value of its `code` member,
/// nothing when the entry is not an object with a string code.
pub open spec fn code_contrib(v: JsonV) -> Seq<Seq<char>> {
    match v {
        JsonV::Obj(entry) => match obj_lookup(entry, "code"@) {
            Some(JsonV::Str(c)) => seq![c],
            _ => Seq::empty(),
        },
        _ => Seq::empty(),
    }
}

pub open spec fn item_codes(items: Seq<JsonV>) -> Seq<Seq<char>>
    decreases items.len(),
{
    if items.len() == 0 {
        Seq::empty()
    } else {
        code_contrib(items[0]) + item_codes(items.drop_first())
    }
}

proof fn lemma_item_codes_snoc(items: Seq<JsonV>)
    requires
        items.len() > 0,
    ensures
        item_codes(items) == item_codes(items.drop_last()) + code_contrib(items.last()),
    decreases items.len(),
{
    if items.len() == 1 {
        assert(items.drop_last() =~= Seq::empty());
        assert(items.drop_first() =~= Seq::empty());
        assert(code_contrib(items[0]) + Seq::empty() =~= Seq::empty() + code_contrib(items[0]));
    } else {
        let df = items.drop_first();
        lemma_item_codes_snoc(df);
        assert(df.drop_last() =~= items.drop_last().drop_first());
        assert(df.last() == items.last());
        assert(items.drop_last()[0] == items[0]);
        assert((code_contrib(items[0]) + item_codes(df.drop_last())) + code_contrib(items.last())
            =~= code_contrib(items[0]) + (item_codes(df.drop_last()) + code_contrib(
            items.last(),
        )));
    }
}

/// The codes a saved document yields: the string `code` of each entry under
/// `stocks`, in order; anything missing or mistyped is skipped, and a
/// document that is not an object carrying a `stocks` array yields nothing.
pub open spec fn loaded_codes(doc: Option<JsonV>) -> Seq<Seq<char>> {
    match doc {
        Some(JsonV::Obj(pairs)) => match obj_lookup(pairs, "stocks"@) {
            Some(JsonV::Arr(items)) => item_codes(items),
            _ => Seq::empty(),
        },
        _ => Seq::empty(),
    }
}

/// Persistence reads never fail: text that does not parse, a document of
/// another shape, or one without a `stocks` array all yield the empty
/// watchlist.
pub proof fn lemma_load_tolerant(doc: Option<JsonV>)
    ensures
        (match doc {
            Some(JsonV::Obj(pairs)) => !(obj_lookup(pairs, "stocks"@) matches Some(
                JsonV::Arr(_),
            )),
            _ => true,
        }) ==> loaded_codes(doc).len() == 0,
{
}

pub open spec fn loaded_stocks(c: Seq<char>) -> Seq<StockV> {
    Seq::new(
        loaded_codes(parsed_json(c)).len(),
        |i: int| fresh_stock(loaded_codes(parsed_json(c))[i]),
    )
}

/// Rebuilds the watchlist from saved-file text, tolerantly: malformed text,
/// a missing `stocks` field or a mistyped entry never fail, they just
/// contribute nothing.
pub fn load_codes(content: &str) -> (r: Vec<Stock>)
    ensures
        stocks_view(r@) == loaded_stocks(content@),
{
    let mut out: Vec<Stock> = Vec::new();
    match parse_json(content) {
        Some(doc) => match &doc {
            JVal::Obj(pairs) => {
                let skey = String::from_str("stocks");
                match obj_get(pairs, &skey) {
                    Some(arr) => match arr {
                        JVal::Arr(items) => {
                            let ghost iv = jarr_view(items@);
                            proof {
                                lemma_jarr_view_props(items@);
                                assert(iv.take(0) =~= Seq::empty());
                            }
                            let mut i: usize = 0;
                            while i < items.len()
                                invariant
                                    0 <= i <= items@.len(),
                                    iv == jarr_view(items@),
                                    iv.len() == items@.len(),
                                    forall|j: int|
                                        0 <= j < items@.len() ==> iv[j] == jval_view(items@[j]),
                                    out@.len() == item_codes(iv.take(i as int)).len(),
                                    forall|k: int|
                                        0 <= k < out@.len() ==> out@[k]@ == fresh_stock(
                                            item_codes(iv.take(i as int))[k],
                                        ),
                                decreases items@.len() - i,
                            {
                                let ghost out0 = out@;
                                let ghost t0 = iv.take(i as int);
                                let ghost t1 = iv.take(i as int + 1);
                                proof {
                                    assert(t1.drop_last() =~= t0);
                                    assert(t1.last() == iv[i as int]);
                                    lemma_item_codes_snoc(t1);
                                }
                                match &items[i] {
                                    JVal::Obj(entry) => {
                                        let ckey = String::from_str("code");
                                        match obj_get(entry, &ckey) {
                                            Some(cv) => match cv {
                                                JVal::Str(code) => {
                                                    proof {
                                                        assert(iv[i as int] == JsonV::Obj(
                                                            jobj_view(entry@),
                                                        ));
                                                        assert(obj_lookup(
                                                            jobj_view(entry@),
                                                            "code"@,
                                                        ) == Some(JsonV::Str(code@)));
                                                        assert(code_contrib(iv[i as int]) =~~= seq![
                                                            code@,
                                                        ]);
                                                        assert(item_codes(t1) =~~= item_codes(
                                                            t0,
                                                        ).push(code@));
                                                    }
                                                    out.push(Stock::new(code));
                                                },
                                                _ => {
                                                    proof {
                                                        assert(!(jval_view(*cv) is Str));
                                                        assert(code_contrib(iv[i as int])
                                                            =~~= Seq::<Seq<char>>::empty());
                                                    }
                                                },
                                            },
                                            None => {
                                                proof {
                                                    assert(code_contrib(iv[i as int])
                                                        =~~= Seq::<Seq<char>>::empty());
                                                }
                                            },
                                        }
                                    },
                                    _ => {
                                        proof {
                                            assert(!(iv[i as int] is Obj));
                                            assert(code_contrib(iv[i as int])
                                                =~~= Seq::<Seq<char>>::empty());
                                        }
                                    },
                                }
                                proof {
                                    if out@.len() == out0.len() {
                                        assert(item_codes(t1) =~~= item_codes(t0));
                                        assert(out@.len() == item_codes(t1).len());
                                        assert forall|k: int| 0 <= k < out@.len() implies out@[k]@
                                            == fresh_stock(item_codes(t1)[k]) by {
                                            assert(item_codes(t1)[k] == item_codes(t0)[k]);
                                        }
                                    } else {
                                        assert(out@ == out0.push(out@.last()));
                                        assert(out@.len() == item_codes(t1).len());
                                        assert forall|k: int| 0 <= k < out@.len() implies out@[k]@
                                            == fresh_stock(item_codes(t1)[k]) by {
                                            if k < out0.len() {
                                                assert(out@[k] == out0[k]);
                                                assert(item_codes(t1)[k] == item_codes(t0)[k]);
                                            } else {
                                                assert(item_codes(t1)[k] == item_codes(t1).last());
                                            }
                                        }
                                    }
                                }
                                i += 1;
                            }
                            proof {
                                assert(iv.take(items@.len() as int) =~= iv);
                            }
                        },
                        _ => {
                            proof {
                                assert(!(jval_view(*arr) is Arr));
                            }
                        },
                    },
                    None => {},
                }
            },
            _ => {
                proof {
                    assert(!(jval_view(doc) is Obj));
                }
            },
        },
        None => {},
    }
    proof {
        assert(stocks_view(out@) =~~= loaded_stocks(content@));
    }
    out
}

pub open spec fn code_entry(c: Seq<char>) -> JsonV {
    JsonV::Obj(seq![("code"@, JsonV::Str(c))])
}

/// The document the watchlist is saved as: only the symbol codes, each in an
/// entry of its own under `stocks`; quote data is derived and never persisted.
pub open spec fn saved_doc(codes: Seq<Seq<char>>) -> JsonV {
    JsonV::Obj(
        seq![
            ("stocks"@, JsonV::Arr(Seq::new(codes.len(), |i: int| code_entry(codes[i])))),
        ],
    )
}

/// The saved-file text for the current watchlist.
pub fn save_stocks_text(stocks: &Vec<Stock>) -> (r: String)
    ensures
        r@ == json_text(saved_doc(codes_of(stocks_view(stocks@)))),
{
    let ghost codes = codes_of(stocks_view(stocks@));
    let mut items: Vec<JVal> = Vec::new();
    let mut i: usize = 0;
    proof {
        assert(jarr_view(items@) =~= Seq::new(0, |k: int| code_entry(codes[k])));
    }
    while i < stocks.len()
        invariant
            0 <= i <= stocks.len(),
            codes == codes_of(stocks_view(stocks@)),
            codes.len() == stocks.len(),
            forall|j: int| 0 <= j < stocks.len() ==> codes[j] == stocks@[j]@.code,
            items@.len() == i,
            jarr_view(items@) == Seq::new(i as nat, |k: int| code_entry(codes[k])),
        decreases stocks.len() - i,
    {
        let ghost items0 = items@;
        let mut entry: Vec<(String, JVal)> = Vec::new();
        entry.push((String::from_str("code"), JVal::Str(stocks[i].code.clone())));
        let ghost ev = entry@;
        items.push(JVal::Obj(entry));
        proof {
            lemma_jarr_view_props(items0);
            lemma_jarr_view_props(items@);
            lemma_jobj_view_props(ev);
            assert(jobj_view(ev).len() == 1);
            assert(jobj_view(ev)[0] == (ev[0].0@, jval_view(ev[0].1)));
            assert(jval_view(ev[0].1) == JsonV::Str(codes[i as int]));
            assert(jobj_view(ev) =~~= seq![("code"@, JsonV::Str(codes[i as int]))]);
            assert(jval_view(items@[i as int]) == JsonV::Obj(jobj_view(ev)));
            assert(jval_view(items@[i as int]) == code_entry(codes[i as int]));
            assert forall|k: int| 0 <= k < i implies jval_view(items@[k]) == code_entry(
                codes[k],
            ) by {
                assert(items@[k] == items0[k]);
                assert(jarr_view(items0)[k] == jval_view(items0[k]));
                assert(jarr_view(items0)[k] == Seq::new(i as nat, |k2: int| code_entry(codes[k2]))[k]);
            }
            assert(jarr_view(items@) =~~= Seq::new((i + 1) as nat, |k: int| code_entry(codes[k])));
        }
        i += 1;
    }
    let ghost gitems = items@;
    let mut pairs: Vec<(String, JVal)> = Vec::new();
    pairs.push((String::from_str("stocks"), JVal::Arr(items)));
    let ghost gpairs = pairs@;
    let doc = JVal::Obj(pairs);
    proof {
        lemma_jobj_view_props(gpairs);
        assert(jobj_view(gpairs).len() == 1);
        assert(jobj_view(gpairs)[0] == (gpairs[0].0@, jval_view(gpairs[0].1)));
        assert(jval_view(gpairs[0].1) == JsonV::Arr(jarr_view(gitems)));
        assert(jobj_view(gpairs) =~~= seq![("stocks"@, JsonV::Arr(jarr_view(gitems)))]);
        assert(JsonV::Arr(jarr_view(gitems)) == JsonV::Arr(
            Seq::new(codes.len(), |k: int| code_entry(codes[k])),
        ));
        assert(jobj_view(gpairs) =~~= seq![
            ("stocks"@, JsonV::Arr(Seq::new(codes.len(), |k: int| code_entry(codes[k])))),
        ]);
        assert(jval_view(doc) == JsonV::Obj(jobj_view(gpairs)));
        assert(jval_view(doc) == saved_doc(codes));
    }
    jval_to_string(&doc)
}

/// What free-text input currently means: plain browsing, or entering a new
/// symbol code.
pub enum AppState {
    Normal,
    Adding,
}

/// Mathematical view of the whole application state.
#[verifier::ext_equal]
pub struct AppV {
    pub should_exit: bool,
    pub state: AppState,
    pub error: Seq<char>,
    pub input: Seq<char>,
    pub stocks: Seq<StockV>,
    pub selected: Option<usize>,
    pub last_refresh: i64,
    pub tick_count: u128,
}

/// The application state. `error` empty means no error; `last_refresh` is
/// the time of the most recent successful merge, in seconds; `selected` is
/// only meaningful while it lies inside `stocks`.
pub struct App {
    pub should_exit: bool,
    pub state: AppState,
    pub error: String,
    pub input: String,
    pub stocks: Vec<Stock>,
    pub selected: Option<usize>,
    pub last_refresh: i64,
    pub tick_count: u128,
}

impl View for App {
    type V = AppV;

    open spec fn view(&self) -> AppV {
        AppV {
            should_exit: self.should_exit,
            state: self.state,
            error: self.error@,
            input: self.input@,
            stocks: stocks_view(self.stocks@),
            selected: self.selected,
            last_refresh: self.last_refresh,
            tick_count: self.tick_count,
        }
    }
}

pub open spec fn initial_app() -> AppV {
    AppV {
        should_exit: false,
        state: AppState::Normal,
        error: Seq::empty(),
        input: Seq::empty(),
        stocks: Seq::empty(),
        selected: None,
        last_refresh: 0,
        tick_count: 0,
    }
}

pub open spec fn with_error(a: AppV, e: Seq<char>) -> AppV {
    AppV { error: e, ..a }
}

pub open spec fn with_stocks(a: AppV, s: Seq<StockV>) -> AppV {
    AppV { stocks: s, ..a }
}

/// The state after a successful merge: every quote merged per-symbol, the
/// error cleared, the refresh time stamped; nothing else moves.
pub open spec fn after_merge(a: AppV, pairs: Seq<(Seq<char>, JsonV)>, now: i64) -> AppV {
    AppV {
        stocks: Seq::new(a.stocks.len(), |i: int| merged_stock(a.stocks[i], pairs)),
        error: Seq::empty(),
        last_refresh: now,
        ..a
    }
}

pub open spec fn server_error_text() -> Seq<char> {
    "server error"@
}

/// The message recorded when the upstream response is not usable.
pub fn server_error_message() -> (r: String)
    ensures
        r@ == server_error_text(),
{
    String::from_str("server error")
}

impl App {
    pub fn new() -> (r: Self)
        ensures
            r@ == initial_app(),
    {
        let r = App {
            should_exit: false,
            state: AppState::Normal,
            error: String::new(),
            input: String::new(),
            stocks: Vec::new(),
            selected: None,
            last_refresh: 0,
            tick_count: 0,
        };
        proof {
            assert(r@ =~= initial_app());
        }
        r
    }

    /// The comma-joined code list of the watchlist.
    pub fn get_codes(&self) -> (r: String)
        ensures
            r@ == joined_codes(codes_of(self@.stocks)),
    {
        codes_joined(&self.stocks)
    }

    /// Replaces the watchlist with what the saved-file text yields;
    /// everything else is untouched.
    pub fn load_stocks(&mut self, content: &str)
        ensures
            final (self)@ == with_stocks(old(self)@, loaded_stocks(content@)),
    {
        self.stocks = load_codes(content);
        proof {
            assert(final (self)@ =~= with_stocks(old(self)@, loaded_stocks(content@)));
        }
    }

    /// The saved-file text for the watchlist.
    pub fn save_stocks(&self) -> (r: String)
        ensures
            r@ == json_text(saved_doc(codes_of(self@.stocks))),
    {
        save_stocks_text(&self.stocks)
    }

    /// Applies a fetched response body: a usable response merges into every
    /// quote, clears the error and stamps `now`; anything else only records
    /// the server-error message.
    pub fn apply_response(&mut self, content: &str, now: i64)
        ensures
            feed_ok(content@) ==> final (self)@ == after_merge(
                old(self)@,
                feed_pairs(content@),
                now,
            ),
            !feed_ok(content@) ==> final (self)@ == with_error(old(self)@, server_error_text()),
    {
        match parse_feed(content) {
            Some(doc) => {
                merge_stocks(&mut self.stocks, &doc);
                self.error = String::new();
                self.last_refresh = now;
                proof {
                    assert(final (self)@ =~= after_merge(old(self)@, feed_pairs(content@), now));
                }
            },
            None => {
                self.error = server_error_message();
                proof {
                    assert(final (self)@ =~= with_error(old(self)@, server_error_text()));
                }
            },
        }
    }

    /// Records a transport failure; the watchlist and the refresh time are
    /// untouched.
    pub fn apply_transport_error(&mut self, msg: String)
        ensures
            final (self)@ == with_error(old(self)@, msg@),
    {
        self.error = msg;
        proof {
            assert(final (self)@ =~= with_error(old(self)@, msg@));
        }
    }

    /// Starts tracking a symbol: a fresh quote goes to the end of the list.
    pub fn add_symbol(&mut self, code: &String)
        ensures
            final (self)@ == with_stocks(old(self)@, old(self)@.stocks.push(fresh_stock(code@))),
    {
        self.stocks.push(Stock::new(code));
        proof {
            assert(stocks_view(self.stocks@) =~~= old(self)@.stocks.push(fresh_stock(code@)));
            assert(final (self)@ =~= with_stocks(
                old(self)@,
                old(self)@.stocks.push(fresh_stock(code@)),
            ));
        }
    }

    /// Stops tracking a symbol: the first quote with that code leaves the
    /// list, everything else keeps its place.
    pub fn remove_symbol(&mut self, code: &String)
        ensures
            final (self)@ == with_stocks(old(self)@, without_code(old(self)@.stocks, code@)),
    {
        let ghost sv = stocks_view(old(self).stocks@);
        let mut i: usize = 0;
        while i < self.stocks.len()
            invariant
                0 <= i <= self.stocks@.len(),
                *self == *old(self),
                sv == stocks_view(self.stocks@),
                sv.len() == self.stocks@.len(),
                forall|j: int| 0 <= j < i ==> sv[j].code != code@,
            decreases self.stocks@.len() - i,
        {
            if self.stocks[i].code == *code {
                self.stocks.remove(i);
                proof {
                    assert(sv[i as int] == old(self).stocks@[i as int]@);
                    lemma_without_code_at(sv, code@, i as int);
                    assert(stocks_view(self.stocks@) =~~= sv.remove(i as int));
                    assert(final (self)@ =~= with_stocks(
                        old(self)@,
                        without_code(old(self)@.stocks, code@),
                    ));
                }
                return ;
            }
            proof {
                assert(sv[i as int] == old(self).stocks@[i as int]@);
            }
            i += 1;
        }
        proof {
            lemma_without_code_none(sv, code@);
            assert(final (self)@ =~= with_stocks(
                old(self)@,
                without_code(old(self)@.stocks, code@),
            ));
        }
    }

    /// A consistent copy of the watchlist, for rendering.
    pub fn snapshot(&self) -> (r: Vec<Stock>)
        ensures
            stocks_view(r@) == self@.stocks,
    {
        let mut out: Vec<Stock> = Vec::new();
        let mut i: usize = 0;
        while i < self.stocks.len()
            invariant
                0 <= i <= self.stocks@.len(),
                out@.len() == i,
                forall|j: int| 0 <= j < i ==> out@[j]@ == self.stocks@[j]@,
            decreases self.stocks@.len() - i,
        {
            out.push(clone_stock(&self.stocks[i]));
            i += 1;
        }
        proof {
            assert(stocks_view(out@) =~~= self@.stocks);
        }
        out
    }

    /// The quote the selection points at; a selection at or past the end of
    /// the list counts as no selection.
    pub fn selected_stock(&self) -> (r: Option<&Stock>)
        ensures
            r is Some <==> (self@.selected matches Some(i) && i < self@.stocks.len()),
            r matches Some(s) ==> (self@.selected matches Some(i) && s@ == self@.stocks[i as int]),
    {
        match self.selected {
            Some(i) => {
                if i < self.stocks.len() {
                    Some(&self.stocks[i])
                } else {
                    None
                }
            },
            None => None,
        }
    }
}

/// The watchlist without the first quote carrying `code`; without any, it is
/// unchanged.
pub open spec fn without_code(s: Seq<StockV>, code: Seq<char>) -> Seq<StockV>
    decreases s.len(),
{
    if s.len() == 0 {
        s
    } else if s[0].code == code {
        s.drop_first()
    } else {
        seq![s[0]] + without_code(s.drop_first(), code)
    }
}

proof fn lemma_without_code_at(s: Seq<StockV>, code: Seq<char>, i: int)
    requires
        0 <= i < s.len(),
        s[i].code == code,
        forall|j: int| 0 <= j < i ==> s[j].code != code,
    ensures
        without_code(s, code) == s.remove(i),
    decreases i,
{
    if i == 0 {
        assert(without_code(s, code) =~= s.remove(0));
    } else {
        let df = s.drop_first();
        lemma_without_code_at(df, code, i - 1);
        assert(seq![s[0]] + df.remove(i - 1) =~= s.remove(i));
    }
}

proof fn lemma_without_code_none(s: Seq<StockV>, code: Seq<char>)
    requires
        forall|j: int| 0 <= j < s.len() ==> s[j].code != code,
    ensures
        without_code(s, code) == s,
    decreases s.len(),
{
    if s.len() > 0 {
        lemma_without_code_none(s.drop_first(), code);
        assert(seq![s[0]] + s.drop_first() =~= s);
    }
}

} // verus!


