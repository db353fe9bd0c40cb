//! Binance adapter pieces: the subscribe request and level
//! normalization.
//!
//! Binance depth messages carry price and quantity as decimal strings;
//! the adapter normalizes them through the decimal module into
//! `PriceLevel`s. The sequencing rule for its incremental updates — a
//! delta is valid only if its first update id is at most one past the
//! last applied final update id — is the contiguity rule of the book
//! module.

use vstd::prelude::*;
use crate::decimal::{decimal_value, parse_decimal, valid_decimal};
use crate::ladder::PriceLevel;

verus! {

broadcast use vstd::string::to_string_from_display_ensures_for_str;

/// The outbound subscription request sent after every (re)connect:
/// `method` is always "SUBSCRIBE", `params` names the streams.
pub struct Subscribe {
    pub method: String,
    pub params: Vec<String>,
    pub id: i64,
}

/// Build the depth-stream subscription request for one stream name.
pub fn depth_subscribe(stream: String, id: i64) -> (s: Subscribe)
    ensures
        s.method@ == "SUBSCRIBE"@,
        s.params@.len() == 1,
        s.params@[0]@ == stream@,
        s.id == id,
{
    let mut params: Vec<String> = Vec::new();
    params.push(stream);
    Subscribe { method: "SUBSCRIBE".to_string(), params, id }
}

/// Normalize one raw level: a price string and a quantity string, as
/// Binance sends them, into a fixed-point price level.
pub fn parse_level(price: &[u8], quantity: &[u8]) -> (r: Option<PriceLevel>)
    ensures
        r is Some <==> valid_decimal(price@) && valid_decimal(quantity@),
        r matches Some(l) ==> l.price as int == decimal_value(price@) && l.quantity as int
            == decimal_value(quantity@),
{
    match (parse_decimal(price), parse_decimal(quantity)) {
        (Option::Some(p), Option::Some(q)) => Some(PriceLevel { price: p, quantity: q }),
        _ => None,
    }
}

/// Normalize one side of a depth message: all levels, in message order,
/// or nothing if any price or quantity fails the decimal grammar.
pub fn parse_levels(pairs: &Vec<(Vec<u8>, Vec<u8>)>) -> (r: Option<Vec<PriceLevel>>)
    ensures
        r is Some <==> (forall|i: int|
            0 <= i < pairs@.len() ==> valid_decimal((#[trigger] pairs@[i]).0@) && valid_decimal(
                pairs@[i].1@,
            )),
        r matches Some(v) ==> ({
            &&& v@.len() == pairs@.len()
            &&& forall|i: int|
                0 <= i < pairs@.len() ==> (#[trigger] v@[i]).price as int == decimal_value(
                    pairs@[i].0@,
                ) && v@[i].quantity as int == decimal_value(pairs@[i].1@)
        }),
{
    let mut out: Vec<PriceLevel> = Vec::new();
    let mut i: usize = 0;
    while i < pairs.len()
        invariant
            i <= pairs@.len(),
            out@.len() == i,
            forall|j: int|
                0 <= j < i ==> valid_decimal((#[trigger] pairs@[j]).0@) && valid_decimal(
                    pairs@[j].1@,
                ),
            forall|j: int|
                0 <= j < i ==> (#[trigger] out@[j]).price as int == decimal_value(pairs@[j].0@)
                    && out@[j].quantity as int == decimal_value(pairs@[j].1@),
        decreases pairs.len() - i,
    {
        let pair = &pairs[i];
        match parse_level(pair.0.as_slice(), pair.1.as_slice()) {
            Option::Some(l) => {
                out.push(l);
            },
            Option::None => {
                proof {
                    assert(!(valid_decimal(pairs@[i as int].0@) && valid_decimal(
                        pairs@[i as int].1@,
                    )));
                }
                return None;
            },
        }
        i = i + 1;
    }
    Some(out)
}

} // verus!
