//! The application's configuration: the exchanges to connect to, and for each
//! the symbols whose books are kept.

use crate::exchanges::binance::BinanceConnector;
use vstd::prelude::*;

verus! {

/// The whole configuration.
pub struct ApplicationConfig {
    pub exchanges: Vec<ExchangeConfig>,
}

/// One exchange: its name, its endpoints and the symbols to follow.
pub struct ExchangeConfig {
    pub name: String,
    pub ws_endpoint: String,
    pub rest_endpoint: String,
    pub symbols: Vec<String>,
}

/// The books to keep for one exchange: its name, the connector that all of
/// its books share, and the symbols.
pub struct ExchangeBooks {
    pub exchange: String,
    pub connector: BinanceConnector,
    pub symbols: Vec<String>,
}

/// The only exchange the application knows.
pub open spec fn is_known_exchange(name: Seq<char>) -> bool {
    name == "binance"@
}

/// `plan` is what the configuration of `exchange` asks for.
pub open spec fn plans(exchange: ExchangeConfig, plan: ExchangeBooks) -> bool {
    &&& plan.exchange@ == exchange.name@
    &&& plan.connector.ws_endpoint_view() == exchange.ws_endpoint@
    &&& plan.connector.rest_endpoint_view() == exchange.rest_endpoint@
    &&& plan.symbols@.len() == exchange.symbols@.len()
    &&& forall|j: int| 0 <= j < plan.symbols@.len() ==> #[trigger] plan.symbols@[j]@ == exchange.symbols@[j]@
}

/// The books that the configuration asks for, an entry for each exchange in
/// order; or the name of the first exchange that is not known.
pub fn plan_exchanges(config: &ApplicationConfig) -> (r: Result<Vec<ExchangeBooks>, String>)
    ensures
        match r {
            Ok(books) => {
                &&& books@.len() == config.exchanges@.len()
                &&& forall|i: int|
                    0 <= i < books@.len() ==> is_known_exchange(#[trigger] config.exchanges@[i].name@)
                        && plans(config.exchanges@[i], books@[i])
            },
            Err(name) => exists|i: int|
                0 <= i < config.exchanges@.len() && !is_known_exchange(#[trigger] config.exchanges@[i].name@)
                    && name@ == config.exchanges@[i].name@ && forall|j: int|
                    0 <= j < i ==> is_known_exchange(#[trigger] config.exchanges@[j].name@),
        },
{
    let known = "binance".to_owned();
    let mut books: Vec<ExchangeBooks> = Vec::new();
    let n = config.exchanges.len();
    let mut i: usize = 0;
    while i < n
        invariant
            n == config.exchanges@.len(),
            i <= n,
            known@ == "binance"@,
            books@.len() == i,
            forall|k: int|
                0 <= k < i ==> is_known_exchange(#[trigger] config.exchanges@[k].name@) && plans(
                    config.exchanges@[k],
                    books@[k],
                ),
        decreases n - i,
    {
        let exchange = &config.exchanges[i];
        if exchange.name != known {
            return Err(exchange.name.clone());
        }
        let connector = BinanceConnector::new(exchange.ws_endpoint.clone(), exchange.rest_endpoint.clone());
        let symbols = clone_strings(&exchange.symbols);
        books.push(ExchangeBooks { exchange: exchange.name.clone(), connector, symbols });
        i = i + 1;
    }
    Ok(books)
}

fn clone_strings(strings: &Vec<String>) -> (copy: Vec<String>)
    ensures
        copy@.len() == strings@.len(),
        forall|j: int| 0 <= j < copy@.len() ==> #[trigger] copy@[j]@ == strings@[j]@,
{
    let mut copy: Vec<String> = Vec::new();
    let n = strings.len();
    let mut i: usize = 0;
    while i < n
        invariant
            n == strings@.len(),
            i <= n,
            copy@.len() == i,
            forall|j: int| 0 <= j < i ==> #[trigger] copy@[j]@ == strings@[j]@,
        decreases n - i,
    {
        copy.push(strings[i].clone());
        i = i + 1;
    }
    copy
}

} // verus!
