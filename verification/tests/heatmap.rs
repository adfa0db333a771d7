use pulsebook::coinglass::{
    api_key, checked_symbol, default_range, largest_liquidations, number, read_heatmap,
    unreachable_service, unreadable_answer, validate_query, ApiStatus, HeatmapQuery,
};
use pulsebook::double::Double;
use pulsebook::json::{Json, JsonNumber};
use pulsebook::models::{OrderBook, Side};
use pulsebook::state::MarketState;
use pulsebook::table::Table;

fn d(x: f64) -> Double {
    Double::from_bits(x.to_bits())
}

fn f(x: Double) -> f64 {
    f64::from_bits(x.to_bits())
}

fn n(x: u64) -> Json {
    Json::Number(JsonNumber::Unsigned(x))
}

fn t(s: &str) -> Json {
    Json::Text(s.to_string())
}

fn object(rows: Vec<(&str, Json)>) -> Json {
    let mut r = Table::new();
    for (key, value) in rows {
        r.insert(key, value);
    }
    Json::Object(r)
}

fn row(first: u64, rest: [&str; 5]) -> Json {
    let mut items = vec![n(first)];
    for s in rest {
        items.push(t(s));
    }
    Json::List(items)
}

fn data() -> Json {
    object(vec![
        ("y_axis", Json::List(vec![n(90), n(110)])),
        (
            "liquidation_leverage_data",
            Json::List(vec![
                Json::List(vec![n(0), n(0), n(10)]),
                Json::List(vec![n(1), n(1), n(50)]),
            ]),
        ),
        (
            "price_candlesticks",
            Json::List(vec![
                row(1, ["99", "101", "98", "100", "1"]),
                row(2, ["100", "102", "99", "100", "1"]),
            ]),
        ),
    ])
}

#[test]
fn extracts_largest_clusters_with_side() {
    let clusters = largest_liquidations(&data());
    assert_eq!(f(clusters[0].amount), 50.0);
    assert_eq!(clusters[0].side, Side::Short);
    assert_eq!(clusters[1].side, Side::Long);
    assert_eq!(clusters[0].side.as_str(), "SHORT");
    assert_eq!(clusters[0].timestamp, Some(2));
    assert_eq!(f(clusters[1].price), 90.0);
    assert_eq!((clusters[0].x_index, clusters[0].y_index), (1, 1));
}

#[test]
fn points_without_a_price_level_are_left_out() {
    let points = Json::List(vec![
        Json::List(vec![n(0), n(7), n(10)]),
        Json::List(vec![n(9), n(0), t("3.5")]),
        Json::List(vec![n(0), n(0)]),
        n(4),
    ]);
    let clusters = largest_liquidations(&object(vec![
        ("y_axis", Json::List(vec![t("90.5")])),
        ("liquidation_leverage_data", points),
    ]));
    assert_eq!(clusters.len(), 1);
    assert_eq!(f(clusters[0].amount), 3.5);
    assert_eq!(f(clusters[0].price), 90.5);
    assert_eq!(clusters[0].timestamp, None);
    assert_eq!(clusters[0].side, Side::Short);
}

#[test]
fn at_most_twelve_clusters_are_shown() {
    let points: Vec<Json> = (0..30).map(|i| Json::List(vec![n(0), n(0), n(i)])).collect();
    let clusters = largest_liquidations(&object(vec![
        ("y_axis", Json::List(vec![n(1)])),
        ("liquidation_leverage_data", Json::List(points)),
    ]));
    let amounts: Vec<f64> = clusters.iter().map(|c| f(c.amount)).collect();
    assert_eq!(amounts.len(), 12);
    assert_eq!((amounts[0], amounts[11]), (29.0, 18.0));
}

#[test]
fn numbers_are_finite() {
    assert_eq!(number(&t("1.5")).map(f), Some(1.5));
    assert_eq!(number(&t("inf")).map(f), None);
    assert_eq!(number(&t("x")).map(f), None);
    assert_eq!(number(&n(3)).map(f), Some(3.0));
    assert_eq!(number(&Json::Null).map(f), None);
}

fn market() -> MarketState {
    let mut market = MarketState::new(d(0.0));
    market.books.insert("BTCUSDT", OrderBook::new());
    market
}

fn query(symbol: &str, range: &str) -> HeatmapQuery {
    HeatmapQuery { symbol: symbol.to_string(), range: range.to_string() }
}

#[test]
fn queries_are_checked() {
    let market = market();
    assert_eq!(default_range(), "3d");
    assert_eq!(validate_query(&query(" btcusdt ", "3d"), &market).unwrap(), "BTCUSDT");
    let e = validate_query(&query("BTC-USDT", "3d"), &market).unwrap_err();
    assert_eq!((e.status, e.message.as_str()), (ApiStatus::BadRequest, "Некорректный символ монеты"));
    let e = validate_query(&query("", "3d"), &market).unwrap_err();
    assert_eq!(e.status, ApiStatus::BadRequest);
    let e = validate_query(&query("BTCUSDT", "2d"), &market).unwrap_err();
    assert_eq!(e.message, "Неподдерживаемый диапазон heatmap");
    let e = validate_query(&query("ETHUSDT", "1y"), &market).unwrap_err();
    assert_eq!(e.status, ApiStatus::NotFound);
    assert!(checked_symbol("A".repeat(25), "3d", &market).is_err());
}

#[test]
fn the_service_needs_a_key() {
    let mut env = Table::new();
    assert_eq!(api_key(&env).unwrap_err().status, ApiStatus::ServiceUnavailable);
    env.insert("COINGLASS_API_KEY", "  ".to_string());
    assert!(api_key(&env).is_err());
    env.insert("COINGLASS_API_KEY", " k ".to_string());
    assert_eq!(api_key(&env).unwrap(), " k ");
}

#[test]
fn answers_are_checked() {
    let payload = object(vec![("code", t("0")), ("data", data())]);
    assert!(read_heatmap(true, &payload).is_ok());
    assert_eq!(
        read_heatmap(false, &payload).unwrap_err().message,
        "Coinglass отклонил запрос. Проверьте API-ключ, тариф и лимиты."
    );
    let payload = object(vec![("code", t("400")), ("msg", t("bad key"))]);
    assert_eq!(read_heatmap(true, &payload).unwrap_err().message, "bad key");
    let payload = object(vec![("data", object(vec![]))]);
    let e = read_heatmap(true, &payload).unwrap_err();
    assert_eq!(e.message, "Coinglass вернул неполные данные heatmap");
    assert_eq!(e.status, ApiStatus::BadGateway);
    assert_eq!(unreachable_service("timeout").message, "Coinglass недоступен: timeout");
    assert_eq!(unreadable_answer("eof").message, "Некорректный ответ Coinglass: eof");
}
