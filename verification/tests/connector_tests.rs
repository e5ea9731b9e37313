use rustorderbook::config::{plan_exchanges, ApplicationConfig, ExchangeConfig};
use rustorderbook::exchanges::connector::{next_run_action, Attempt, RunAction, RECONNECT_DELAY_SECS};

#[test]
fn run_actions() {
    assert_eq!(next_run_action(Attempt::Connect, true), RunAction::Stop);
    assert_eq!(next_run_action(Attempt::Connect, false), RunAction::Reconnect);
    assert_eq!(next_run_action(Attempt::Reconnect, true), RunAction::Connect);
    assert_eq!(next_run_action(Attempt::Reconnect, false), RunAction::WaitThenConnect { secs: 5 });
    assert_eq!(RECONNECT_DELAY_SECS, 5);
}

fn exchange(name: &str, symbols: &[&str]) -> ExchangeConfig {
    ExchangeConfig {
        name: name.to_string(),
        ws_endpoint: "wss://stream.binance.com:9443".to_string(),
        rest_endpoint: "https://api.binance.com".to_string(),
        symbols: symbols.iter().map(|s| s.to_string()).collect(),
    }
}

#[test]
fn plan_for_binance() {
    let config = ApplicationConfig { exchanges: vec![exchange("binance", &["bnbbtc", "ethusdt"])] };
    let plan = plan_exchanges(&config).ok().unwrap();
    assert_eq!(plan.len(), 1);
    assert_eq!(plan[0].exchange, "binance");
    assert_eq!(plan[0].symbols, vec!["bnbbtc".to_string(), "ethusdt".to_string()]);
    assert_eq!(plan[0].connector.snapshot_url("bnbbtc"), "https://api.binance.com/api/v3/depth?symbol=BNBBTC&limit=1000");
}

#[test]
fn unknown_exchange_is_refused() {
    let config = ApplicationConfig {
        exchanges: vec![exchange("binance", &["bnbbtc"]), exchange("kraken", &["xbtusd"]), exchange("ftx", &[])],
    };
    match plan_exchanges(&config) {
        Err(name) => assert_eq!(name, "kraken"),
        Ok(_) => panic!("expected the unknown exchange"),
    }
}
