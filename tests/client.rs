use chainquery::chain::{ChainId, ChainSet, ChainFamily};
use chainquery::client::{scoped_query, Client, ValidationError};
use chainquery::http::{auth_header, base_url, basic_auth_value, ConfigError, HttpProvider};
use chainquery::query::{Bound, Format, Query};
use chainquery::resource::Resource;

fn set_of(chains: &[ChainId]) -> ChainSet {
    let mut s = ChainSet::new();
    for c in chains {
        s.insert(*c);
    }
    s
}

fn pairs(v: &[(String, String)]) -> Vec<(&str, &str)> {
    v.iter().map(|(k, x)| (k.as_str(), x.as_str())).collect()
}

#[test]
fn scoped_family_refuses_empty_chains() {
    let client = Client::new(());
    let r = client.prepare(Resource::FuelBlocks, Query::new(ChainSet::new()));
    assert!(matches!(r, Err(ValidationError::NoChains)));
    let r = client.prepare(Resource::MoveBalances, Query::new(ChainSet::new()));
    assert!(matches!(r, Err(ValidationError::NoChains)));
}

#[test]
fn scoped_family_refuses_foreign_chain() {
    let client = Client::new(());
    let r = client.prepare(Resource::FuelLogs, Query::new(set_of(&[ChainId::ETH])));
    assert!(matches!(r, Err(ValidationError::UnsupportedChain(ChainId::ETH))));
    let r = client.prepare(Resource::MoveLogs, Query::new(set_of(&[ChainId::MOVEMENT, ChainId::FUEL])));
    assert!(matches!(r, Err(ValidationError::UnsupportedChain(ChainId::FUEL))));
    let r = client.prepare(Resource::MoveLogs, Query::new(set_of(&[ChainId::MOVEMENT, ChainId::FUEL, ChainId::BTC])));
    assert!(matches!(r, Err(ValidationError::UnsupportedChain(ChainId::BTC))));
}

#[test]
fn scoped_family_accepts_own_chain() {
    let client = Client::new(());
    let r = client.prepare(Resource::FuelMiraPools, Query::new(set_of(&[ChainId::FUEL]))).unwrap();
    assert_eq!(r.chains.chains, vec![ChainId::FUEL]);
    let r = client.prepare(Resource::MoveTransactions, Query::new(set_of(&[ChainId::MOVEMENT]))).unwrap();
    assert_eq!(r.chains.chains, vec![ChainId::MOVEMENT]);
}

#[test]
fn check_chain_direct() {
    let client = Client::new(0u8);
    assert_eq!(client.check_chain(&set_of(&[ChainId::BTC]), ChainFamily::Utxo), Ok(()));
    assert_eq!(client.check_chain(&ChainSet::new(), ChainFamily::Evm), Err(ValidationError::NoChains));
    assert_eq!(
        client.check_chain(&set_of(&[ChainId::ETH, ChainId::BTC]), ChainFamily::Evm),
        Err(ValidationError::UnsupportedChain(ChainId::BTC))
    );
}

#[test]
fn unscoped_family_passes_chains_through() {
    let client = Client::new(());
    let r = client.prepare(Resource::Erc20Transfers, Query::new(set_of(&[ChainId::FUEL, ChainId::BASE]))).unwrap();
    assert_eq!(r.chains.chains, vec![ChainId::BASE, ChainId::FUEL]);
    let r = client.prepare(Resource::Blocks, Query::new(ChainSet::new())).unwrap();
    assert!(r.chains.chains.is_empty());
}

#[test]
fn client_forwards_utxo_query_unchanged() {
    let client = Client::new(());
    let mut q = Query::new(set_of(&[ChainId::ETH, ChainId::BASE]));
    q.to_block = Bound { block: Some(9) };
    let r = client.prepare(Resource::BtcBlocks, q).unwrap();
    assert_eq!(r.chains.chains, vec![ChainId::ETH, ChainId::BASE]);
    assert_eq!(r.to_block, Bound { block: Some(9) });
    let r = client.prepare(Resource::BtcTransactions, Query::new(ChainSet::new())).unwrap();
    assert!(r.chains.chains.is_empty());
}

#[test]
fn transport_fixes_utxo_chain() {
    let mut q = Query::new(set_of(&[ChainId::ETH, ChainId::FUEL]));
    q.to_block = Bound { block: Some(9) };
    let r = scoped_query(Resource::BtcBlocks, q);
    assert_eq!(r.chains.chains, vec![ChainId::BTC]);
    assert_eq!(r.to_block, Bound { block: Some(9) });
    let r = scoped_query(Resource::FuelBlocks, Query::new(set_of(&[ChainId::ETH])));
    assert_eq!(r.chains.chains, vec![ChainId::ETH]);
}

#[test]
fn base_url_follows_security() {
    assert_eq!(base_url("api.example.com", true), "https://api.example.com/v1/api/");
    assert_eq!(base_url("localhost:8080", false), "http://localhost:8080/v1/api/");
}

#[test]
fn auth_header_needs_both_credentials() {
    assert_eq!(
        auth_header(Some("user".to_string()), Some("pass".to_string())),
        Some("Basic dXNlcjpwYXNz".to_string())
    );
    assert_eq!(auth_header(Some("user".to_string()), None), None);
    assert_eq!(auth_header(None, Some("pass".to_string())), None);
    assert_eq!(basic_auth_value("abc="), "Basic abc=");
}

#[test]
fn try_new_builds_configuration() {
    let p = HttpProvider::try_new("api.example.com".to_string(), true, Some("a".to_string()), Some("b".to_string())).unwrap();
    assert_eq!(p.base_url, "https://api.example.com/v1/api/");
    assert_eq!(p.auth_header, Some("Basic YTpi".to_string()));
    assert!(p.https_only);
    let p = HttpProvider::try_new("localhost:3000".to_string(), false, None, None).unwrap();
    assert_eq!(p.base_url, "http://localhost:3000/v1/api/");
    assert_eq!(p.auth_header, None);
    assert!(!p.https_only);
}

#[test]
fn try_new_refuses_bad_endpoint() {
    let r = HttpProvider::try_new("bad host name".to_string(), true, None, None);
    assert!(matches!(r, Err(ConfigError::InvalidBaseUrl)));
    let r = HttpProvider::assemble(None, None, true);
    assert!(matches!(r, Err(ConfigError::InvalidBaseUrl)));
    let p = HttpProvider::assemble(Some("http://h/".to_string()), None, false).unwrap();
    assert_eq!(p.base_url, "http://h/");
}

#[test]
fn base_address_is_the_parsed_form() {
    let p = HttpProvider::try_new("API.Example.com".to_string(), true, None, None).unwrap();
    assert_eq!(p.base_url, "https://api.example.com/v1/api/");
    assert_eq!(p.url(Resource::Blocks), Some("https://api.example.com/v1/api/blocks".to_string()));
    let p = HttpProvider::try_new("host?x".to_string(), false, None, None).unwrap();
    assert_eq!(p.base_url, "http://host/?x/v1/api/");
    assert_eq!(p.url(Resource::Logs), Some("http://host/logs".to_string()));
}

#[test]
fn blocks_call_over_http() {
    let p = HttpProvider::try_new("api.example.com".to_string(), true, None, None).unwrap();
    let mut q = Query::new(set_of(&[ChainId::ETH]));
    q.from_block = Bound { block: Some(100) };
    q.to_block = Bound { block: Some(200) };
    let call = p.outbound(Resource::Blocks, q, Format::JsonStream).unwrap();
    assert_eq!(call.url, "https://api.example.com/v1/api/blocks");
    assert_eq!(
        pairs(&call.params),
        vec![("chains", "eth"), ("from_block", "100"), ("to_block", "200"), ("format", "json_stream")]
    );
}

#[test]
fn utxo_call_over_http_names_only_its_chain() {
    let p = HttpProvider::try_new("api.example.com".to_string(), false, None, None).unwrap();
    let call = p.outbound(Resource::BtcTransactions, Query::new(set_of(&[ChainId::FUEL, ChainId::ETH])), Format::Json).unwrap();
    assert_eq!(call.url, "http://api.example.com/v1/api/transactions");
    assert_eq!(pairs(&call.params), vec![("chains", "btc"), ("format", "json")]);
    assert_eq!(p.url(Resource::Status), Some("http://api.example.com/v1/api/status".to_string()));
    let call = HttpProvider::call_for("u".to_string(), Resource::BtcBlocks, Query::new(ChainSet::new()), Format::Json);
    assert_eq!(call.url, "u");
    assert_eq!(pairs(&call.params), vec![("chains", "btc"), ("format", "json")]);
}
