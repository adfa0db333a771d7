//! What clients of the server may do and ask for.
use vstd::prelude::*;
use crate::admin;
use crate::config::Settings;
use crate::json;
use crate::json::Json;
use crate::state::{MarketState, MarketView};
use crate::table::Table;
use crate::text;
use crate::text::Edge;

verus! {

/// Why an administrator's request is refused.
#[derive(Clone, Copy, Debug, PartialEq, Eq, Structural)]
pub enum AdminRefusal {
    /// The server has no password.
    NotConfigured,
    /// The password is wrong.
    WrongPassword,
}

impl AdminRefusal {
    pub open spec fn text(self) -> Seq<char> {
        match self {
            AdminRefusal::NotConfigured => "ADMIN_PASSWORD is not configured"@,
            AdminRefusal::WrongPassword => "Invalid admin password"@,
        }
    }

    /// What is said about the refusal.
    pub fn message(self) -> (r: &'static str)
        ensures
            r@ == self.text(),
    {
        match self {
            AdminRefusal::NotConfigured => "ADMIN_PASSWORD is not configured",
            AdminRefusal::WrongPassword => "Invalid admin password",
        }
    }
}

/// Lets an administrator's request in: only with a password on the server, and only with
/// that password. A request without one counts as one with an empty password.
pub fn require_admin(settings: &Settings, env: &Table<String>, password: Option<&str>) -> (r: Result<
    (),
    AdminRefusal,
>)
    ensures
        r == (if !admin::has_password(env@) {
            Err(AdminRefusal::NotConfigured)
        } else if !admin::is_password(
            env@,
            match password {
                Some(given) => given@,
                None => ""@,
            },
        ) {
            Err(AdminRefusal::WrongPassword)
        } else {
            Ok(())
        }),
        r is Ok ==> {
            &&& password is Some
            &&& (password->0)@.len() > 0
            &&& env@.dom().contains("ADMIN_PASSWORD"@)
            &&& env@["ADMIN_PASSWORD"@]@ == (password->0)@
        },
{
    proof {
        reveal_strlit("");
    }
    if !settings.admin_password_configured(env) {
        return Err(AdminRefusal::NotConfigured);
    }
    let given = match password {
        Some(given) => given,
        None => "",
    };
    if !settings.admin_password_matches(env, given) {
        return Err(AdminRefusal::WrongPassword);
    }
    Ok(())
}

/// The symbol that a payload names, as it stands there.
pub open spec fn raw_symbol(payload: Json) -> Option<Seq<char>> {
    match json::text_in(payload) {
        Some(s) => Some(s),
        None => json::text_in(json::member_of(payload, "symbol"@)),
    }
}

/// A symbol that is followed.
pub open spec fn known(m: MarketView, name: Seq<char>) -> Option<Seq<char>> {
    if name.len() > 0 && m.books.dom().contains(name) {
        Some(name)
    } else {
        None
    }
}

/// An optional text by its characters.
pub open spec fn name_view(name: Option<String>) -> Option<Seq<char>> {
    match name {
        Some(name) => Some(name@),
        None => None,
    }
}

/// Gives a symbol back if it is followed.
pub fn known_symbol(name: String, market: &MarketState) -> (r: Option<String>)
    ensures
        name_view(r) == known(market@, name@),
{
    assert(market@.books.dom() =~= market.books@.dom());
    if name.as_str().unicode_len() > 0 && market.books.contains(name.as_str()) {
        Some(name)
    } else {
        None
    }
}

/// The symbol that a payload names, in capitals, if it is followed.
pub fn normalize_symbol(payload: &Json, market: &MarketState) -> (r: Option<String>)
    ensures
        name_view(r) == (match raw_symbol(*payload) {
            Some(raw) => known(market@, text::uppercased(text::stripped(raw, Edge::Space))),
            None => None,
        }),
        match raw_symbol(*payload) {
            Some(raw) => {
                let plain = text::stripped(raw, Edge::Space);
                text::ascii(plain) ==> name_view(r) == known(market@, text::capitals(plain))
            },
            None => true,
        },
        r is Some ==> (r->0)@.len() > 0 && market@.books.dom().contains((r->0)@),
{
    let raw = match payload.as_text() {
        Some(s) => s,
        None => match payload.text_at("symbol") {
            Some(s) => s,
            None => {
                return None;
            },
        },
    };
    let name = text::to_uppercase(text::strip(raw, Edge::Space));
    known_symbol(name, market)
}

/// The room of those who follow a symbol.
pub fn symbol_room(symbol: &str) -> (r: String)
    ensures
        r@ == "symbol:"@ + symbol@,
{
    let mut r = "symbol:".to_owned();
    r.append(symbol);
    r
}

/// No two symbols share a room.
pub proof fn rooms_are_distinct(a: Seq<char>, b: Seq<char>)
    requires
        "symbol:"@ + a == "symbol:"@ + b,
    ensures
        a == b,
{
    let start = "symbol:"@;
    assert(a =~= (start + a).skip(start.len() as int));
    assert(b =~= (start + b).skip(start.len() as int));
}

} // verus!
