//! Liquidation heatmaps: what may be asked for, and what an answer holds.
use vstd::prelude::*;
use crate::config;
use crate::double;
use crate::double::Double;
use crate::json;
use crate::json::Json;
use crate::models::Side;
use crate::reading;
use crate::sorting;
use crate::state::MarketState;
use crate::table::Table;
use crate::text;
use crate::text::Edge;

verus! {

/// The most clusters that are shown.
pub const SHOWN_CLUSTERS: usize = 12;

/// The longest symbol that may be asked for.
pub const LONGEST_SYMBOL: usize = 24;

/// A heatmap that is asked for.
#[derive(Debug)]
pub struct HeatmapQuery {
    pub symbol: String,
    pub range: String,
}

/// The range of a query that names none.
pub fn default_range() -> (r: String)
    ensures
        r@ == "3d"@,
{
    "3d".to_owned()
}

/// Why a query is refused.
#[derive(Clone, Copy, Debug, PartialEq, Eq, Structural)]
pub enum ApiStatus {
    BadRequest,
    NotFound,
    ServiceUnavailable,
    BadGateway,
}

/// A refusal: its kind and what is said about it.
#[derive(Debug)]
pub struct ApiError {
    pub status: ApiStatus,
    pub message: String,
}

/// A refusal by its contents.
#[verifier::ext_equal]
pub struct ApiErrorView {
    pub status: ApiStatus,
    pub message: Seq<char>,
}

impl ApiError {
    pub open spec fn view(&self) -> ApiErrorView {
        ApiErrorView { status: self.status, message: self.message@ }
    }
}

fn refuse(status: ApiStatus, message: &str) -> (r: ApiError)
    ensures
        r@ == (ApiErrorView { status, message: message@ }),
{
    ApiError { status, message: message.to_owned() }
}

/// An ASCII letter or digit.
pub open spec fn alphanumeric(c: char) -> bool {
    ('0' as int <= c as int <= '9' as int) || ('a' as int <= c as int <= 'z' as int) || ('A' as int
        <= c as int <= 'Z' as int)
}

/// A symbol that can be one: short, of ASCII letters and digits, and not empty.
pub open spec fn well_formed(symbol: Seq<char>) -> bool {
    0 < symbol.len() <= LONGEST_SYMBOL && forall|i: int|
        0 <= i < symbol.len() ==> alphanumeric(#[trigger] symbol[i])
}

fn is_well_formed(symbol: &str) -> (r: bool)
    ensures
        r == well_formed(symbol@),
{
    let n = symbol.unicode_len();
    if n == 0 || n > LONGEST_SYMBOL {
        return false;
    }
    let mut i: usize = 0;
    while i < n
        invariant
            n == symbol@.len(),
            i <= n,
            forall|j: int| 0 <= j < i ==> alphanumeric(#[trigger] symbol@[j]),
        decreases n - i,
    {
        let c = symbol.get_char(i);
        if !(('0' <= c && c <= '9') || ('a' <= c && c <= 'z') || ('A' <= c && c <= 'Z')) {
            assert(!alphanumeric(symbol@[i as int]));
            return false;
        }
        i = i + 1;
    }
    true
}

/// A range that may be asked for.
pub open spec fn allowed(range: Seq<char>) -> bool {
    range == "12h"@ || range == "24h"@ || range == "3d"@ || range == "7d"@ || range == "30d"@
        || range == "90d"@ || range == "180d"@ || range == "1y"@
}

fn is_allowed(range: &str) -> (r: bool)
    ensures
        r == allowed(range@),
{
    text::text_eq(range, "12h") || text::text_eq(range, "24h") || text::text_eq(range, "3d")
        || text::text_eq(range, "7d") || text::text_eq(range, "30d") || text::text_eq(range, "90d")
        || text::text_eq(range, "180d") || text::text_eq(range, "1y")
}

/// The symbol of a query, in capitals and without space around it, or why the query is
/// refused.
pub open spec fn query_symbol(
    symbol: Seq<char>,
    range: Seq<char>,
    books: Set<Seq<char>>,
) -> Result<Seq<char>, ApiErrorView> {
    named_query(text::uppercased(text::stripped(symbol, Edge::Space)), range, books)
}

/// Checks a query and gives its symbol.
pub fn validate_query(query: &HeatmapQuery, market: &MarketState) -> (r: Result<String, ApiError>)
    ensures
        match r {
            Ok(symbol) => query_symbol(query.symbol@, query.range@, market@.books.dom()) == Ok::<
                Seq<char>,
                ApiErrorView,
            >(symbol@),
            Err(why) => query_symbol(query.symbol@, query.range@, market@.books.dom()) == Err::<
                Seq<char>,
                ApiErrorView,
            >(why@),
        },
        ({
            let plain = text::stripped(query.symbol@, Edge::Space);
            text::ascii(plain) ==> query_symbol(query.symbol@, query.range@, market@.books.dom())
                == named_query(text::capitals(plain), query.range@, market@.books.dom())
        }),
{
    let name = text::to_uppercase(text::strip(query.symbol.as_str(), Edge::Space));
    checked_symbol(name, query.range.as_str(), market)
}

/// A symbol that can be asked for, or why it is refused: it cannot be one, the range is not
/// offered, or the symbol is not followed. Of several reasons the first one counts.
pub open spec fn named_query(
    name: Seq<char>,
    range: Seq<char>,
    books: Set<Seq<char>>,
) -> Result<Seq<char>, ApiErrorView> {
    if !well_formed(name) {
        Err(
            ApiErrorView {
                status: ApiStatus::BadRequest,
                message: "Некорректный символ монеты"@,
            },
        )
    } else if !allowed(range) {
        Err(
            ApiErrorView {
                status: ApiStatus::BadRequest,
                message: "Неподдерживаемый диапазон heatmap"@,
            },
        )
    } else if !books.contains(name) {
        Err(
            ApiErrorView {
                status: ApiStatus::NotFound,
                message: "Монета отсутствует в активной группе PulseBook"@,
            },
        )
    } else {
        Ok(name)
    }
}

/// Checks a query whose symbol is written in capitals.
pub fn checked_symbol(name: String, range: &str, market: &MarketState) -> (r: Result<
    String,
    ApiError,
>)
    ensures
        match r {
            Ok(symbol) => named_query(name@, range@, market@.books.dom()) == Ok::<
                Seq<char>,
                ApiErrorView,
            >(symbol@),
            Err(why) => named_query(name@, range@, market@.books.dom()) == Err::<
                Seq<char>,
                ApiErrorView,
            >(why@),
        },
{
    if !is_well_formed(name.as_str()) {
        return Err(refuse(ApiStatus::BadRequest, "Некорректный символ монеты"));
    }
    if !is_allowed(range) {
        return Err(refuse(ApiStatus::BadRequest, "Неподдерживаемый диапазон heatmap"));
    }
    assert(market@.books.dom() =~= market.books@.dom());
    if !market.books.contains(name.as_str()) {
        return Err(
            refuse(ApiStatus::NotFound, "Монета отсутствует в активной группе PulseBook"),
        );
    }
    Ok(name)
}

/// A finite number, written as one or as a text.
pub open spec fn number_in(value: Json) -> Option<Double> {
    let found = match json::double_in(value) {
        Some(x) => Some(x),
        None => match json::text_in(value) {
            Some(s) => reading::double_of(s),
            None => None,
        },
    };
    match found {
        Some(x) => if x.finite() {
            Some(x)
        } else {
            None
        },
        None => None,
    }
}

/// A finite number, written as one or as a text.
pub fn number(value: &Json) -> (r: Option<Double>)
    ensures
        r == number_in(*value),
{
    let found = match value.as_double() {
        Some(x) => Some(x),
        None => match value.as_text() {
            Some(s) => reading::parse_double(s),
            None => None,
        },
    };
    match found {
        Some(x) => if x.is_finite() {
            Some(x)
        } else {
            None
        },
        None => None,
    }
}

/// An element of a list, null where there is none.
pub open spec fn item(value: Json, i: int) -> Json {
    match json::items_in(value) {
        Some(items) => if 0 <= i < items.len() {
            items[i]
        } else {
            Json::Null
        },
        None => Json::Null,
    }
}

fn find_item(value: Option<&Json>, i: u64) -> (r: Option<&Json>)
    ensures
        r is None ==> match value {
            Some(v) => item(*v, i as int) == Json::Null,
            None => true,
        },
        r is Some ==> value is Some && *(r->0) == item(*(value->0), i as int),
{
    match value {
        Some(v) => match v.as_list() {
            Some(items) => if i < items.len() as u64 {
                Some(&items[i as usize])
            } else {
                None
            },
            None => None,
        },
        None => None,
    }
}

/// The last close of a list of candles, zero without one.
pub open spec fn last_close(candles: Json) -> Double {
    match json::items_in(candles) {
        Some(rows) => if rows.len() > 0 {
            match number_in(item(rows.last(), 4)) {
                Some(x) => x,
                None => Double::zero(),
            }
        } else {
            Double::zero()
        },
        None => Double::zero(),
    }
}

fn find_last_close(candles: Option<&Json>) -> (r: Double)
    ensures
        r == (match candles {
            Some(v) => last_close(*v),
            None => Double::zero(),
        }),
{
    match candles {
        Some(v) => match v.as_list() {
            Some(rows) => {
                let n = rows.len();
                if n > 0 {
                    match find_item(Some(&rows[n - 1]), 4) {
                        Some(close) => match number(close) {
                            Some(x) => x,
                            None => Double::zero(),
                        },
                        None => Double::zero(),
                    }
                } else {
                    Double::zero()
                }
            },
            None => Double::zero(),
        },
        None => Double::zero(),
    }
}

/// A cluster of liquidations.
#[derive(Clone, Copy, Debug)]
pub struct Cluster {
    pub amount: Double,
    pub price: Double,
    pub x_index: u64,
    pub y_index: u64,
    pub timestamp: Option<u64>,
    pub side: Side,
}

/// Below the current price longs are liquidated, else shorts.
pub open spec fn spec_liquidated(price: Double, current: Double) -> Side {
    if current.gt(Double::zero()) && price.lt(current) {
        Side::Long
    } else {
        Side::Short
    }
}

#[verifier::when_used_as_spec(spec_liquidated)]
pub fn liquidated(price: Double, current: Double) -> (r: Side)
    ensures
        r == spec_liquidated(price, current),
{
    if current.gt(Double::zero()) && price.lt(current) {
        Side::Long
    } else {
        Side::Short
    }
}

/// The cluster of a point, if the point holds one.
pub open spec fn cluster_in(point: Json, y_axis: Json, candles: Json) -> Option<Cluster> {
    match (
        json::unsigned_in(item(point, 0)),
        json::unsigned_in(item(point, 1)),
        number_in(item(point, 2)),
    ) {
        (Some(x), Some(y), Some(amount)) => match number_in(item(y_axis, y as int)) {
            Some(price) => Some(
                Cluster {
                    amount,
                    price,
                    x_index: x,
                    y_index: y,
                    timestamp: json::unsigned_in(item(item(candles, x as int), 0)),
                    side: liquidated(price, last_close(candles)),
                },
            ),
            None => None,
        },
        _ => None,
    }
}

/// A value, null where there is none.
pub open spec fn or_null(value: Option<&Json>) -> Json {
    match value {
        Some(v) => *v,
        None => Json::Null,
    }
}

fn unsigned_at(point: &Json, i: u64) -> (r: Option<u64>)
    ensures
        r == json::unsigned_in(item(*point, i as int)),
{
    match find_item(Some(point), i) {
        Some(v) => v.as_unsigned(),
        None => None,
    }
}

fn number_at(list: Option<&Json>, i: u64) -> (r: Option<Double>)
    ensures
        r == number_in(item(or_null(list), i as int)),
{
    match find_item(list, i) {
        Some(v) => number(v),
        None => None,
    }
}

fn read_cluster(
    point: &Json,
    y_axis: Option<&Json>,
    candles: Option<&Json>,
    current: Double,
) -> (r: Option<Cluster>)
    requires
        current == last_close(or_null(candles)),
    ensures
        r == cluster_in(*point, or_null(y_axis), or_null(candles)),
{
    match (unsigned_at(point, 0), unsigned_at(point, 1), number_at(Some(point), 2)) {
        (Some(x), Some(y), Some(amount)) => match number_at(y_axis, y) {
            Some(price) => {
                let timestamp = match find_item(candles, x) {
                    Some(row) => unsigned_at(row, 0),
                    None => None,
                };
                Some(
                    Cluster {
                        amount,
                        price,
                        x_index: x,
                        y_index: y,
                        timestamp,
                        side: liquidated(price, current),
                    },
                )
            },
            None => None,
        },
        _ => None,
    }
}

/// The clusters of some points, in their order.
pub open spec fn clusters_in(points: Seq<Json>, y_axis: Json, candles: Json) -> Seq<Cluster>
    decreases points.len(),
{
    if points.len() == 0 {
        Seq::empty()
    } else {
        let before = clusters_in(points.drop_last(), y_axis, candles);
        match cluster_in(points.last(), y_axis, candles) {
            Some(cluster) => before.push(cluster),
            None => before,
        }
    }
}

/// The amounts of some clusters.
pub open spec fn amounts(clusters: Seq<Cluster>) -> Seq<Double> {
    clusters.map_values(|c: Cluster| c.amount)
}

/// The largest clusters of a heatmap, largest first; of equal ones the one that comes first.
pub open spec fn largest_in(data: Json) -> Seq<Cluster> {
    let points = match json::items_in(json::member_of(data, "liquidation_leverage_data"@)) {
        Some(points) => points,
        None => Seq::empty(),
    };
    let all = clusters_in(
        points,
        json::member_of(data, "y_axis"@),
        json::member_of(data, "price_candlesticks"@),
    );
    let sorted = sorting::picked(all, sorting::order(sorting::falling_keys(amounts(all))));
    if sorted.len() > SHOWN_CLUSTERS {
        sorted.take(SHOWN_CLUSTERS as int)
    } else {
        sorted
    }
}

/// The largest clusters of a heatmap, largest first.
pub fn largest_liquidations(data: &Json) -> (r: Vec<Cluster>)
    ensures
        r@ == largest_in(*data),
        r@.len() <= SHOWN_CLUSTERS,
        forall|i: int, j: int|
            0 <= i < j < r@.len() ==> double::rank((#[trigger] r@[i]).amount) >= double::rank(
                (#[trigger] r@[j]).amount,
            ),
{
    let y_axis = data.get("y_axis");
    let candles = data.get("price_candlesticks");
    let ghost y = json::member_of(*data, "y_axis"@);
    let ghost c = json::member_of(*data, "price_candlesticks"@);
    assert(or_null(y_axis) == y);
    assert(or_null(candles) == c);
    let current = find_last_close(candles);
    let mut all: Vec<Cluster> = Vec::new();
    let ghost points = match json::items_in(
        json::member_of(*data, "liquidation_leverage_data"@),
    ) {
        Some(points) => points,
        None => Seq::empty(),
    };
    match data.list_at("liquidation_leverage_data") {
        Some(rows) => {
            let mut i: usize = 0;
            while i < rows.len()
                invariant
                    i <= rows@.len(),
                    points == rows@,
                    or_null(y_axis) == y,
                    or_null(candles) == c,
                    current == last_close(or_null(candles)),
                    all@ == clusters_in(points.take(i as int), y, c),
                decreases rows@.len() - i,
            {
                assert(points.take(i + 1).drop_last() =~= points.take(i as int));
                match read_cluster(&rows[i], y_axis, candles, current) {
                    Some(cluster) => {
                        all.push(cluster);
                    },
                    None => {},
                }
                i = i + 1;
            }
            assert(points.take(i as int) =~= points);
        },
        None => {},
    }
    assert(all@ == clusters_in(points, y, c));
    let mut sizes: Vec<Double> = Vec::new();
    let mut j: usize = 0;
    while j < all.len()
        invariant
            j <= all@.len(),
            sizes@ == amounts(all@).take(j as int),
        decreases all@.len() - j,
    {
        sizes.push(all[j].amount);
        assert(amounts(all@).take(j + 1) =~= amounts(all@).take(j as int).push(
            amounts(all@)[j as int],
        ));
        j = j + 1;
    }
    assert(amounts(all@).take(j as int) =~= amounts(all@));
    let places = sorting::falling_order(&sizes);
    let n = if places.len() > SHOWN_CLUSTERS {
        SHOWN_CLUSTERS
    } else {
        places.len()
    };
    let ghost expected = largest_in(*data);
    let mut r: Vec<Cluster> = Vec::new();
    let mut k: usize = 0;
    while k < n
        invariant
            k <= n <= places@.len(),
            n == expected.len(),
            forall|x: int|
                0 <= x < n ==> #[trigger] expected[x] == sorting::picked(all@, places@)[x],
            forall|x: int| 0 <= x < places@.len() ==> #[trigger] places@[x] < all@.len(),
            r@ == expected.take(k as int),
        decreases n - k,
    {
        let at = places[k];
        r.push(all[at]);
        assert(expected.take(k + 1) =~= expected.take(k as int).push(expected[k as int]));
        k = k + 1;
    }
    assert(expected.take(k as int) =~= expected);
    proof {
        let keys = sorting::falling_keys(sizes@);
        assert forall|i: int, j: int| 0 <= i < j < r@.len() implies double::rank(
            (#[trigger] r@[i]).amount,
        ) >= double::rank((#[trigger] r@[j]).amount) by {
            assert(sorting::before(keys, places@[i], places@[j]));
            assert(r@[i] == all@[places@[i] as int]);
            assert(r@[j] == all@[places@[j] as int]);
        }
    }
    r
}

/// The key for the heatmap service, or why there is none.
pub open spec fn key_in(env: Map<Seq<char>, String>) -> Result<Seq<char>, ApiErrorView> {
    match config::variable(env, "COINGLASS_API_KEY"@) {
        Some(key) => if text::stripped(key, Edge::Space).len() > 0 {
            Ok(key)
        } else {
            Err(
                ApiErrorView {
                    status: ApiStatus::ServiceUnavailable,
                    message: "COINGLASS_API_KEY не настроен на сервере"@,
                },
            )
        },
        None => Err(
            ApiErrorView {
                status: ApiStatus::ServiceUnavailable,
                message: "COINGLASS_API_KEY не настроен на сервере"@,
            },
        ),
    }
}

/// Finds the key for the heatmap service.
pub fn api_key(env: &Table<String>) -> (r: Result<String, ApiError>)
    ensures
        match r {
            Ok(key) => key_in(env@) == Ok::<Seq<char>, ApiErrorView>(key@),
            Err(why) => key_in(env@) == Err::<Seq<char>, ApiErrorView>(why@),
        },
{
    match env.get("COINGLASS_API_KEY") {
        Some(key) => if text::strip(key.as_str(), Edge::Space).unicode_len() > 0 {
            return Ok(key.clone());
        },
        None => {},
    }
    Err(refuse(ApiStatus::ServiceUnavailable, "COINGLASS_API_KEY не настроен на сервере"))
}

/// The refusal when the heatmap service cannot be reached.
pub fn unreachable_service(error: &str) -> (r: ApiError)
    ensures
        r@ == (ApiErrorView {
            status: ApiStatus::BadGateway,
            message: "Coinglass недоступен: "@ + error@,
        }),
{
    let mut message = "Coinglass недоступен: ".to_owned();
    message.append(error);
    ApiError { status: ApiStatus::BadGateway, message }
}

/// The refusal when the heatmap service answers with something that is no JSON.
pub fn unreadable_answer(error: &str) -> (r: ApiError)
    ensures
        r@ == (ApiErrorView {
            status: ApiStatus::BadGateway,
            message: "Некорректный ответ Coinglass: "@ + error@,
        }),
{
    let mut message = "Некорректный ответ Coinglass: ".to_owned();
    message.append(error);
    ApiError { status: ApiStatus::BadGateway, message }
}

/// The heatmap service says that it refused.
pub open spec fn service_refused(success: bool, payload: Json) -> bool {
    !success || (json::text_in(json::member_of(payload, "code"@)) is Some && json::text_in(
        json::member_of(payload, "code"@),
    ) != Some("0"@))
}

/// An answer has all that a heatmap is made of.
pub open spec fn complete(data: Json) -> bool {
    json::member_of(data, "y_axis"@) is List && json::member_of(
        data,
        "liquidation_leverage_data"@,
    ) is List && json::member_of(data, "price_candlesticks"@) is List
}

/// The heatmap in an answer, or why there is none.
pub open spec fn heatmap_in(success: bool, payload: Json) -> Result<Json, ApiErrorView> {
    let data = json::member_of(payload, "data"@);
    if service_refused(success, payload) {
        Err(
            ApiErrorView {
                status: ApiStatus::BadGateway,
                message: match json::text_in(json::member_of(payload, "msg"@)) {
                    Some(message) => message,
                    None => "Coinglass отклонил запрос. Проверьте API-ключ, тариф и лимиты."@,
                },
            },
        )
    } else if !complete(data) {
        Err(
            ApiErrorView {
                status: ApiStatus::BadGateway,
                message: "Coinglass вернул неполные данные heatmap"@,
            },
        )
    } else {
        Ok(data)
    }
}

fn is_list_at(data: &Json, key: &str) -> (r: bool)
    ensures
        r == (json::member_of(*data, key@) is List),
{
    data.list_at(key).is_some()
}

/// Takes the heatmap out of an answer.
pub fn read_heatmap(success: bool, payload: &Json) -> (r: Result<&Json, ApiError>)
    ensures
        match r {
            Ok(data) => heatmap_in(success, *payload) == Ok::<Json, ApiErrorView>(*data),
            Err(why) => heatmap_in(success, *payload) == Err::<Json, ApiErrorView>(why@),
        },
{
    let refused = match payload.text_at("code") {
        Some(code) => !text::text_eq(code, "0"),
        None => false,
    };
    if !success || refused {
        return match payload.text_at("msg") {
            Some(message) => Err(refuse(ApiStatus::BadGateway, message)),
            None => Err(
                refuse(
                    ApiStatus::BadGateway,
                    "Coinglass отклонил запрос. Проверьте API-ключ, тариф и лимиты.",
                ),
            ),
        };
    }
    match payload.get("data") {
        Some(data) => if is_list_at(data, "y_axis") && is_list_at(
            data,
            "liquidation_leverage_data",
        ) && is_list_at(data, "price_candlesticks") {
            return Ok(data);
        },
        None => {},
    }
    Err(refuse(ApiStatus::BadGateway, "Coinglass вернул неполные данные heatmap"))
}

} // verus!
