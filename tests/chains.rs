use chainquery::chain::{parse_chain, ChainFamily, ChainId, ChainSet};
use chainquery::codec::{decimal, decode_chains, encode_chains};
use chainquery::hash::{decode_hashes, encode_hashes, parse_hash, Hash256, HashFilter};
use chainquery::mira::{default_chains, GetMiraLiquidityRequest, GetMiraPoolsRequest, GetMiraSwapsRequest};
use chainquery::query::{Bound, Format, Query};
use chainquery::resource::{chains_or_default, Resource, ResourceFamily};

fn set_of(chains: &[ChainId]) -> ChainSet {
    let mut s = ChainSet::new();
    for c in chains {
        s.insert(*c);
    }
    s
}

fn pairs(v: &[(String, String)]) -> Vec<(&str, &str)> {
    v.iter().map(|(k, x)| (k.as_str(), x.as_str())).collect()
}

#[test]
fn chain_families() {
    assert_eq!(ChainId::ETH.family(), ChainFamily::Evm);
    assert_eq!(ChainId::BASE.family(), ChainFamily::Evm);
    assert_eq!(ChainId::BTC.family(), ChainFamily::Utxo);
    assert_eq!(ChainId::MOVEMENT.family(), ChainFamily::ResourceVm);
    assert_eq!(ChainId::FUEL.family(), ChainFamily::AltVm);
}

#[test]
fn chain_set_dedups_on_insert() {
    let mut s = ChainSet::new();
    assert!(s.is_empty());
    assert!(s.insert(ChainId::ETH));
    assert!(!s.insert(ChainId::ETH));
    assert!(s.insert(ChainId::BASE));
    assert_eq!(s.chains, vec![ChainId::ETH, ChainId::BASE]);
    assert!(s.contains(ChainId::BASE));
    assert!(!s.contains(ChainId::FUEL));
    assert!(s.is_within(ChainFamily::Evm));
    assert!(!s.is_within(ChainFamily::AltVm));
}

#[test]
fn encode_chains_joins_with_commas() {
    let s = set_of(&[ChainId::ETH, ChainId::FUEL, ChainId::MOVEMENT]);
    assert_eq!(encode_chains(&s), Some("eth,fuel,movement".to_string()));
    assert_eq!(encode_chains(&set_of(&[ChainId::BTC])), Some("btc".to_string()));
}

#[test]
fn empty_chain_set_encodes_as_absent() {
    assert_eq!(encode_chains(&ChainSet::new()), None);
}

#[test]
fn chain_set_round_trips_through_comma_list() {
    let s = set_of(&[ChainId::ARBITRUM, ChainId::BSC, ChainId::BTC]);
    let text = encode_chains(&s).unwrap();
    let back = decode_chains(&text).unwrap();
    let mut got = back.chains.clone();
    got.sort_by_key(|c| format!("{:?}", c));
    let mut want = s.chains.clone();
    want.sort_by_key(|c| format!("{:?}", c));
    assert_eq!(got, want);
}

#[test]
fn decode_chains_dedups_and_rejects_unknown() {
    assert_eq!(decode_chains("eth,eth,base").unwrap().chains, vec![ChainId::ETH, ChainId::BASE]);
    assert!(decode_chains("eth,,fuel").is_none());
    assert!(decode_chains("").is_none());
    assert!(decode_chains("eth,solana").is_none());
    assert!(decode_chains("ETH").is_none());
}

#[test]
fn parse_chain_tokens() {
    assert_eq!(parse_chain(&"movement".chars().collect()), Some(ChainId::MOVEMENT));
    assert_eq!(parse_chain(&"fuel".chars().collect()), Some(ChainId::FUEL));
    assert_eq!(parse_chain(&"fue".chars().collect()), None);
}

#[test]
fn decimal_rendering() {
    assert_eq!(decimal(0), "0");
    assert_eq!(decimal(7), "7");
    assert_eq!(decimal(100), "100");
    assert_eq!(decimal(u64::MAX), "18446744073709551615");
}

#[test]
fn hash_tokens_and_filters() {
    let a = Hash256 { bytes: [0xab; 32] };
    let mut b_bytes = [0u8; 32];
    b_bytes[31] = 0x0f;
    let b = Hash256 { bytes: b_bytes };
    assert_eq!(a.token(), format!("0x{}", "ab".repeat(32)));
    assert_eq!(b.token(), format!("0x{}0f", "00".repeat(31)));
    let mut f = HashFilter::new();
    assert!(f.is_empty());
    assert_eq!(encode_hashes(&f), None);
    assert!(f.insert(a));
    assert!(!f.insert(a));
    assert!(f.insert(b));
    assert_eq!(encode_hashes(&f), Some(format!("{},{}", b.token(), a.token())));
}

#[test]
fn default_chains_are_family_defaults() {
    assert_eq!(default_chains().chains, vec![ChainId::FUEL]);
    assert_eq!(GetMiraPoolsRequest::default().chains.chains, vec![ChainId::FUEL]);
    assert_eq!(GetMiraLiquidityRequest::default().chains.chains, vec![ChainId::FUEL]);
    assert_eq!(GetMiraSwapsRequest::default().chains.chains, vec![ChainId::FUEL]);
    assert_eq!(ResourceFamily::Fuel.default_chains().chains, vec![ChainId::FUEL]);
    assert_eq!(ResourceFamily::Move.default_chains().chains, vec![ChainId::MOVEMENT]);
    assert_eq!(ResourceFamily::Btc.default_chains().chains, vec![ChainId::BTC]);
    assert_eq!(chains_or_default(ResourceFamily::Move, None).chains, vec![ChainId::MOVEMENT]);
    let given = set_of(&[ChainId::BASE]);
    assert_eq!(chains_or_default(ResourceFamily::Chain, Some(given)).chains, vec![ChainId::BASE]);
}

#[test]
fn mira_request_defaults_are_unbounded_and_unfiltered() {
    let r = GetMiraPoolsRequest::default();
    assert_eq!(r.from_block, Bound { block: None });
    assert_eq!(r.to_block, Bound::default());
    assert!(r.pool_address__in.is_empty());
    let q = r.into_query();
    assert_eq!(pairs(&q.params(Format::JsonStream)), vec![("chains", "fuel"), ("format", "json_stream")]);
}

#[test]
fn mira_request_params_list_filters_in_field_order() {
    let mut r = GetMiraSwapsRequest::default();
    r.from_block = Bound { block: Some(5) };
    let h = Hash256 { bytes: [0x11; 32] };
    r.assets__in.insert(h);
    let q = r.into_query();
    let token = h.token();
    assert_eq!(
        pairs(&q.params(Format::Json)),
        vec![("chains", "fuel"), ("from_block", "5"), ("assets__in", token.as_str()), ("format", "json")]
    );
}

#[test]
fn query_params_for_block_range() {
    let mut q = Query::new(set_of(&[ChainId::ETH]));
    q.from_block = Bound { block: Some(100) };
    q.to_block = Bound { block: Some(200) };
    assert_eq!(
        pairs(&q.params(Format::Json)),
        vec![("chains", "eth"), ("from_block", "100"), ("to_block", "200"), ("format", "json")]
    );
}

#[test]
fn resource_paths_and_families() {
    assert_eq!(Resource::Blocks.path(), "blocks");
    assert_eq!(Resource::FuelUnspentUtxos.path(), "transactions/outputs");
    assert_eq!(Resource::MoveFaTokens.path(), "fa-tokens");
    assert_eq!(Resource::UniswapV3Positions.path(), "uniswap/v3/positions");
    assert_eq!(Resource::Status.path(), "status");
    assert_eq!(Resource::FuelMiraSwaps.family(), ResourceFamily::Fuel);
    assert_eq!(Resource::MovePyth.family(), ResourceFamily::Move);
    assert_eq!(Resource::BtcTransactions.family(), ResourceFamily::Btc);
    assert_eq!(Resource::Erc20Approvals.family(), ResourceFamily::Erc20);
}

#[test]
fn hash_filter_round_trips_through_comma_list() {
    let a = Hash256 { bytes: [0x01; 32] };
    let mut b_bytes = [0xfeu8; 32];
    b_bytes[0] = 0x00;
    let b = Hash256 { bytes: b_bytes };
    let mut f = HashFilter::new();
    f.insert(a);
    f.insert(b);
    let text = encode_hashes(&f).unwrap();
    let back = decode_hashes(&text).unwrap();
    assert_eq!(back.items.len(), 2);
    assert!(back.contains(&a));
    assert!(back.contains(&b));
}

#[test]
fn decode_hashes_accepts_upper_case_and_rejects_malformed() {
    let upper = format!("0x{}", "AB".repeat(32));
    let f = decode_hashes(&upper).unwrap();
    assert!(f.contains(&Hash256 { bytes: [0xab; 32] }));
    let twice = format!("{},{}", upper, upper.to_lowercase());
    assert_eq!(decode_hashes(&twice).unwrap().items.len(), 1);
    assert!(decode_hashes("").is_none());
    assert!(decode_hashes("0x12").is_none());
    assert!(decode_hashes(&format!("0y{}", "00".repeat(32))).is_none());
    assert!(decode_hashes(&format!("0x{}g", "0".repeat(63))).is_none());
    assert!(decode_hashes(&format!("{},", upper)).is_none());
}

#[test]
fn parse_hash_reads_digits_high_first() {
    let t: Vec<char> = format!("0x{}1f", "00".repeat(31)).chars().collect();
    let h = parse_hash(&t).unwrap();
    assert_eq!(h.bytes[31], 0x1f);
    assert_eq!(h.bytes[0], 0);
}

#[test]
fn equal_chain_sets_encode_alike() {
    let a = set_of(&[ChainId::ETH, ChainId::BASE]);
    let b = set_of(&[ChainId::BASE, ChainId::ETH]);
    assert_eq!(a.chains, b.chains);
    assert_eq!(encode_chains(&a), Some("eth,base".to_string()));
    assert_eq!(encode_chains(&b), Some("eth,base".to_string()));
    let c = set_of(&[ChainId::MOVEMENT, ChainId::BTC, ChainId::ETH]);
    assert_eq!(c.chains, vec![ChainId::ETH, ChainId::BTC, ChainId::MOVEMENT]);
}

#[test]
fn equal_hash_filters_encode_alike() {
    let x = Hash256 { bytes: [0x20; 32] };
    let y = Hash256 { bytes: [0x10; 32] };
    let mut f = HashFilter::new();
    f.insert(x);
    f.insert(y);
    let mut g = HashFilter::new();
    g.insert(y);
    g.insert(x);
    assert_eq!(encode_hashes(&f), encode_hashes(&g));
    assert_eq!(encode_hashes(&f), Some(format!("{},{}", y.token(), x.token())));
}

#[test]
fn query_text_ignores_insertion_order() {
    let a = Query::new(set_of(&[ChainId::ETH, ChainId::BASE]));
    let b = Query::new(set_of(&[ChainId::BASE, ChainId::ETH]));
    assert_eq!(a.params(Format::Json), b.params(Format::Json));
}
