use stock::stock::{
    codes_joined, load_codes, parse_feed, refresh_request, save_stocks_text,
    server_error_message, App, AppState, Stock,
};

fn app_with(codes: &[&str]) -> App {
    let mut app = App::new();
    for c in codes {
        let code = String::from(*c);
        app.add_symbol(&code);
    }
    app
}

#[test]
fn new_app_is_empty() {
    let app = App::new();
    assert!(app.stocks.is_empty());
    assert_eq!(app.error, "");
    assert_eq!(app.input, "");
    assert_eq!(app.last_refresh, 0);
    assert!(!app.should_exit);
    assert!(matches!(app.state, AppState::Normal));
}

#[test]
fn fresh_stock_defaults() {
    let code = String::from("600000");
    let s = Stock::new(&code);
    assert_eq!(s.code, "600000");
    assert_eq!(s.title, "600000");
    assert_eq!(s.price, "0");
    assert_eq!(s.percent, "0");
    assert_eq!(s.open, "0");
    assert_eq!(s.yestclose, "0");
    assert_eq!(s.high, "0");
    assert_eq!(s.low, "0");
}

#[test]
fn codes_joined_in_insertion_order() {
    let app = app_with(&["600000", "000001", "399001"]);
    assert_eq!(app.get_codes(), "600000,000001,399001");
}

#[test]
fn codes_joined_single_code_has_no_comma() {
    let app = app_with(&["600000"]);
    assert_eq!(app.get_codes(), "600000");
}

#[test]
fn codes_joined_empty_is_empty_string() {
    let app = App::new();
    assert_eq!(app.get_codes(), "");
}

#[test]
fn empty_watchlist_issues_no_fetch() {
    let app = App::new();
    assert!(refresh_request(&app.stocks).is_none());
}

#[test]
fn nonempty_watchlist_builds_feed_url() {
    let app = app_with(&["600000", "000001"]);
    let url = refresh_request(&app.stocks).unwrap();
    assert_eq!(url, "http://api.money.126.net/data/feed/600000,000001");
}

#[test]
fn wrapped_response_parses() {
    let body = "_ntes_quote_callback({\"600000\":{\"price\":10.5}});";
    assert!(parse_feed(body).is_some());
}

#[test]
fn non_wrapped_response_is_refused() {
    assert!(parse_feed("<html>error</html>").is_none());
    assert!(parse_feed("").is_none());
    assert!(parse_feed("_ntes_quote_callback(").is_none());
}

#[test]
fn wrapped_but_unparseable_payload_is_refused() {
    assert!(parse_feed("_ntes_quote_callback(nonsense);").is_none());
    assert!(parse_feed("_ntes_quote_callback([1,2]);").is_none());
}

#[test]
fn scenario_successful_merge() {
    let mut app = app_with(&["600000"]);
    let body = "_ntes_quote_callback({\"600000\":{\"name\":\"Pudong Bank\",\"price\":10.5,\"percent\":0.012}});";
    app.apply_response(body, 7);
    assert_eq!(app.stocks[0].title, "Pudong Bank");
    assert_eq!(app.stocks[0].price, "10.5");
    assert_eq!(app.stocks[0].price.parse::<f64>().unwrap(), 10.5);
    assert_eq!(app.stocks[0].percent, "0.012");
    assert_eq!(app.stocks[0].open, "0");
    assert_eq!(app.stocks[0].open.parse::<f64>().unwrap(), 0.0);
    assert_eq!(app.error, "");
    assert_eq!(app.last_refresh, 7);
}

#[test]
fn scenario_server_error_leaves_quotes_alone() {
    let mut app = app_with(&["600000"]);
    let good = "_ntes_quote_callback({\"600000\":{\"name\":\"Pudong Bank\",\"price\":10.5}});";
    app.apply_response(good, 7);
    app.apply_response("<html>error</html>", 9);
    assert_eq!(app.error, "server error");
    assert_eq!(app.error, server_error_message());
    assert_eq!(app.stocks[0].title, "Pudong Bank");
    assert_eq!(app.stocks[0].price, "10.5");
    assert_eq!(app.last_refresh, 7);
}

#[test]
fn merge_is_per_symbol_tolerant() {
    let mut app = app_with(&["600000", "000001"]);
    let both = "_ntes_quote_callback({\"600000\":{\"name\":\"Pudong Bank\",\"price\":10.5},\"000001\":{\"name\":\"PAB\",\"price\":11.2}});";
    app.apply_response(both, 1);
    let only_second = "_ntes_quote_callback({\"000001\":{\"name\":\"PAB\",\"price\":12.5}});";
    app.apply_response(only_second, 2);
    assert_eq!(app.stocks[0].title, "Pudong Bank");
    assert_eq!(app.stocks[0].price, "10.5");
    assert_eq!(app.stocks[1].title, "PAB");
    assert_eq!(app.stocks[1].price, "12.5");
    assert_eq!(app.error, "");
    assert_eq!(app.last_refresh, 2);
}

#[test]
fn merge_defaults_missing_fields() {
    let mut app = app_with(&["600000"]);
    let body = "_ntes_quote_callback({\"600000\":{\"price\":10.5}});";
    app.apply_response(body, 1);
    assert_eq!(app.stocks[0].title, "600000");
    assert_eq!(app.stocks[0].price, "10.5");
    assert_eq!(app.stocks[0].yestclose, "0");
}

#[test]
fn transport_error_is_recorded() {
    let mut app = app_with(&["600000"]);
    app.apply_transport_error(String::from("connection refused"));
    assert_eq!(app.error, "connection refused");
    assert_eq!(app.stocks.len(), 1);
    assert_eq!(app.stocks[0].price, "0");
    assert_eq!(app.last_refresh, 0);
}

#[test]
fn save_writes_only_codes() {
    let app = app_with(&["600000", "000001"]);
    let text = app.save_stocks();
    assert_eq!(text, "{\"stocks\":[{\"code\":\"600000\"},{\"code\":\"000001\"}]}");
}

#[test]
fn round_trip_load_save_load() {
    let original = "{\"stocks\":[{\"code\":\"600000\"},{\"code\":\"000001\"}]}";
    let mut app = App::new();
    app.load_stocks(original);
    let saved = app.save_stocks();
    let mut app2 = App::new();
    app2.load_stocks(&saved);
    assert_eq!(app2.stocks.len(), 2);
    assert_eq!(app2.stocks[0].code, "600000");
    assert_eq!(app2.stocks[1].code, "000001");
    assert_eq!(app2.stocks[0].title, "600000");
    assert_eq!(app2.stocks[0].price, "0");
    assert_eq!(app2.stocks[1].price, "0");
}

#[test]
fn load_tolerates_missing_and_malformed_files() {
    for content in ["", "{}", "{\"foo\":1}", "not json at all", "[]", "{\"stocks\":5}"] {
        let mut app = app_with(&["999999"]);
        app.load_stocks(content);
        assert!(app.stocks.is_empty(), "content {:?} should load as empty", content);
    }
}

#[test]
fn load_skips_mistyped_entries() {
    let content = "{\"stocks\":[{\"code\":\"600000\"},{\"name\":\"x\"},{\"code\":5},\"y\"],\"extra\":true}";
    let stocks = load_codes(content);
    assert_eq!(stocks.len(), 1);
    assert_eq!(stocks[0].code, "600000");
}

#[test]
fn remove_symbol_removes_first_match() {
    let mut app = app_with(&["600000", "000001", "600000"]);
    let code = String::from("600000");
    app.remove_symbol(&code);
    assert_eq!(app.stocks.len(), 2);
    assert_eq!(app.stocks[0].code, "000001");
    assert_eq!(app.stocks[1].code, "600000");
    let missing = String::from("123456");
    app.remove_symbol(&missing);
    assert_eq!(app.stocks.len(), 2);
}

#[test]
fn snapshot_copies_the_watchlist() {
    let app = app_with(&["600000", "000001"]);
    let snap = app.snapshot();
    assert_eq!(snap.len(), 2);
    assert_eq!(snap[0].code, "600000");
    assert_eq!(snap[1].code, "000001");
    assert_eq!(codes_joined(&snap), "600000,000001");
}

#[test]
fn selection_past_end_counts_as_absent() {
    let mut app = app_with(&["600000"]);
    assert!(app.selected_stock().is_none());
    app.selected = Some(0);
    assert_eq!(app.selected_stock().unwrap().code, "600000");
    app.selected = Some(5);
    assert!(app.selected_stock().is_none());
}

#[test]
fn save_and_reload_preserves_text_exactly() {
    let app = app_with(&["600000"]);
    let text = save_stocks_text(&app.stocks);
    assert_eq!(text, "{\"stocks\":[{\"code\":\"600000\"}]}");
    let reloaded = load_codes(&text);
    assert_eq!(reloaded.len(), 1);
    assert_eq!(reloaded[0].code, "600000");
}

#[test]
fn wrapper_with_empty_payload_is_an_error() {
    let mut app = app_with(&["600000"]);
    app.apply_response("_ntes_quote_callback();", 3);
    assert_eq!(app.error, "server error");
    assert_eq!(app.last_refresh, 0);
    assert_eq!(app.stocks[0].price, "0");
}

#[test]
fn wrapped_empty_object_merges_nothing_but_succeeds() {
    let mut app = app_with(&["600000"]);
    app.apply_response("_ntes_quote_callback({});", 5);
    assert_eq!(app.error, "");
    assert_eq!(app.last_refresh, 5);
    assert_eq!(app.stocks[0].title, "600000");
    assert_eq!(app.stocks[0].price, "0");
}
