//! The request/response transport: its endpoint configuration, and the
//! outbound call (address and query parameters) it makes for each query.
use base64::engine::general_purpose::STANDARD as BASE64;
use base64::Engine;
use vstd::prelude::*;
use vstd::string::*;
use crate::chain::{chain_token, ChainId};
use crate::client::{forwarded, scoped_query};
use crate::codec::{decode_chains_spec, lemma_chains_round_trip};
use crate::hash::HashFilter;
use crate::query::filter_params;
use crate::resource::{family_of_resource, ResourceFamily};
use crate::query::{format_token, params_view, query_params_spec, Format, Query};
use crate::resource::{resource_path, Resource};

verus! {

/// The standard, padded base64 encoding of the UTF-8 bytes of a text.
pub uninterp spec fn base64_of(s: Seq<char>) -> Seq<char>;

/// The URL parser's serialized form of a text, when it accepts it as an
/// absolute URL.
pub uninterp spec fn parsed_url(s: Seq<char>) -> Option<Seq<char>>;

/// The serialized form of a relative reference resolved against a base
/// address, when the parser accepts both.
pub uninterp spec fn joined_url(base: Seq<char>, path: Seq<char>) -> Option<Seq<char>>;

/// Relies on base64's `STANDARD` engine `encode`: the padded standard-alphabet
/// encoding of the text's bytes, which depends on those bytes alone. Its size
/// computation cannot overflow for a text that fits in memory.
#[verifier::external_body]
fn base64_encode(s: &str) -> (r: String)
    ensures
        r@ == base64_of(s@),
{
    BASE64.encode(s)
}

/// Relies on `reqwest::Url::parse` (the url crate's parser): whether it
/// accepts the text, and the serialized URL, which depend on the text alone.
#[verifier::external_body]
fn parse_url(s: &str) -> (r: Option<String>)
    ensures
        r.is_some() == parsed_url(s@).is_some(),
        r.is_some() ==> r.unwrap()@ == parsed_url(s@).unwrap(),
{
    match reqwest::Url::parse(s) {
        Ok(u) => Some(u.into()),
        Err(_) => None,
    }
}

/// Relies on `reqwest::Url::join` (the url crate's reference resolution)
/// of `path` against the base address given as text; the text is read into
/// a URL by the same parser. The result depends on the two texts alone.
#[verifier::external_body]
fn join_url(base: &str, path: &str) -> (r: Option<String>)
    ensures
        r.is_some() == joined_url(base@, path@).is_some(),
        r.is_some() ==> r.unwrap()@ == joined_url(base@, path@).unwrap(),
{
    match reqwest::Url::parse(base) {
        Ok(b) => match b.join(path) {
            Ok(u) => Some(u.into()),
            Err(_) => None,
        },
        Err(_) => None,
    }
}

/// Why a provider could not be configured.
#[derive(Clone, Copy, Debug, PartialEq, Eq, Structural)]
pub enum ConfigError {
    /// The endpoint does not make a valid base address.
    InvalidBaseUrl,
    /// A resource path does not resolve against the base address.
    InvalidResourceUrl,
}

/// The API root for an endpoint host: `https://` or `http://`, the host, `/v1/api/`.
pub open spec fn base_url_spec(endpoint: Seq<char>, is_secure: bool) -> Seq<char> {
    (if is_secure { "https"@ } else { "http"@ }) + "://"@ + endpoint + "/v1/api/"@
}

/// The Basic authorization value for already-encoded credentials.
pub open spec fn basic_auth_spec(encoded: Seq<char>) -> Seq<char> {
    "Basic "@ + encoded
}

/// The text that Basic authentication encodes: `username:password`.
pub open spec fn credentials_spec(username: Seq<char>, password: Seq<char>) -> Seq<char> {
    username + ":"@ + password
}

/// The API root for an endpoint host.
pub fn base_url(endpoint: &str, is_secure: bool) -> (r: String)
    ensures
        r@ == base_url_spec(endpoint@, is_secure),
{
    let mut s = String::from_str(if is_secure { "https" } else { "http" });
    s.append("://");
    s.append(endpoint);
    s.append("/v1/api/");
    s
}

/// The Basic authorization value for already-encoded credentials.
pub fn basic_auth_value(encoded: &str) -> (r: String)
    ensures
        r@ == basic_auth_spec(encoded@),
{
    let mut s = String::from_str("Basic ");
    s.append(encoded);
    s
}

/// The authorization header value for optional credentials: present only
/// when both a username and a password are given.
pub fn auth_header(username: Option<String>, password: Option<String>) -> (r: Option<String>)
    ensures
        match (username, password) {
            (Some(u), Some(p)) => r.is_some() && r.unwrap()@ == basic_auth_spec(
                base64_of(credentials_spec(u@, p@)),
            ),
            _ => r.is_none(),
        },
{
    match (username, password) {
        (Some(u), Some(p)) => {
            let mut text = u;
            text.append(":");
            text.append(p.as_str());
            let encoded = base64_encode(text.as_str());
            Some(basic_auth_value(encoded.as_str()))
        },
        _ => None,
    }
}

/// A request/response transport, configured: its API root, the authorization
/// header sent with every call, and whether only secure connections are made.
#[derive(Debug)]
pub struct HttpProvider {
    pub base_url: String,
    pub auth_header: Option<String>,
    pub https_only: bool,
}

/// One outbound call: the full address and the query parameters in order.
#[derive(Debug)]
pub struct OutboundCall {
    pub url: String,
    pub params: Vec<(String, String)>,
}

impl HttpProvider {
    /// Assembles a provider from its parts once the URL parser has read the
    /// base address (`parsed`, its serialized form, or `None` if refused).
    pub fn assemble(parsed: Option<String>, auth_header: Option<String>, is_secure: bool) -> (r: Result<HttpProvider, ConfigError>)
        ensures
            r.is_ok() == parsed.is_some(),
            r.is_err() ==> r == Err::<HttpProvider, ConfigError>(ConfigError::InvalidBaseUrl),
            r.is_ok() ==> r.unwrap().base_url == parsed.unwrap() && r.unwrap().auth_header == auth_header
                && r.unwrap().https_only == is_secure,
    {
        match parsed {
            Some(base_url) => Ok(HttpProvider { base_url, auth_header, https_only: is_secure }),
            None => Err(ConfigError::InvalidBaseUrl),
        }
    }

    /// Configures a provider for `endpoint`: the scheme follows `is_secure`,
    /// which also restricts it to secure connections, and Basic
    /// authentication is used when both credentials are given. The base
    /// address kept is the parser's serialized form.
    pub fn try_new(endpoint: String, is_secure: bool, username: Option<String>, password: Option<String>) -> (r: Result<HttpProvider, ConfigError>)
        ensures
            r.is_ok() == parsed_url(base_url_spec(endpoint@, is_secure)).is_some(),
            r.is_err() ==> r == Err::<HttpProvider, ConfigError>(ConfigError::InvalidBaseUrl),
            r.is_ok() ==> {
                let p = r.unwrap();
                &&& p.base_url@ == parsed_url(base_url_spec(endpoint@, is_secure)).unwrap()
                &&& p.https_only == is_secure
                &&& match (username, password) {
                    (Some(u), Some(pw)) => p.auth_header.is_some() && p.auth_header.unwrap()@
                        == basic_auth_spec(base64_of(credentials_spec(u@, pw@))),
                    _ => p.auth_header.is_none(),
                }
            },
    {
        let auth = auth_header(username, password);
        let base = base_url(endpoint.as_str(), is_secure);
        let parsed = parse_url(base.as_str());
        HttpProvider::assemble(parsed, auth, is_secure)
    }

    /// The address of resource `r`: its path resolved against the base address.
    pub fn url(&self, r: Resource) -> (u: Option<String>)
        ensures
            u.is_some() == joined_url(self.base_url@, resource_path(r)).is_some(),
            u.is_some() ==> u.unwrap()@ == joined_url(self.base_url@, resource_path(r)).unwrap(),
    {
        join_url(self.base_url.as_str(), r.path())
    }

    /// The call for query `q` on resource `r` in `format` once its address is
    /// known. A query of the UTXO family is sent for that chain alone,
    /// whatever it named. This transport returns one bounded response, so it
    /// has no deltas mode.
    pub fn call_for(url: String, r: Resource, q: Query, format: Format) -> (c: OutboundCall)
        ensures
            c.url == url,
            exists|sent: Query| forwarded(r, q, sent) && params_view(c.params@)
                == query_params_spec(sent, format),
    {
        let sent = scoped_query(r, q);
        let params = sent.params(format);
        OutboundCall { url, params }
    }

    /// The call made for query `q` on resource `r` in `format`; fails when the
    /// resource's path does not resolve against the base address.
    pub fn outbound(&self, r: Resource, q: Query, format: Format) -> (c: Result<OutboundCall, ConfigError>)
        ensures
            c.is_ok() == joined_url(self.base_url@, resource_path(r)).is_some(),
            c.is_err() ==> c == Err::<OutboundCall, ConfigError>(ConfigError::InvalidResourceUrl),
            c.is_ok() ==> c.unwrap().url@ == joined_url(self.base_url@, resource_path(r)).unwrap()
                && exists|sent: Query| forwarded(r, q, sent) && params_view(c.unwrap().params@)
                == query_params_spec(sent, format),
    {
        match self.url(r) {
            Some(u) => Ok(HttpProvider::call_for(u, r, q, format)),
            None => Err(ConfigError::InvalidResourceUrl),
        }
    }
}

proof fn lemma_filter_keys(fs: Seq<(String, HashFilter)>)
    ensures
        forall|j: int| 0 <= j < filter_params(fs).len() ==> exists|i: int| 0 <= i < fs.len()
            && (#[trigger] filter_params(fs)[j]).0 == fs[i].0@,
    decreases fs.len(),
{
    if fs.len() > 0 {
        let init = fs.drop_last();
        lemma_filter_keys(init);
        assert forall|j: int| 0 <= j < filter_params(fs).len() implies exists|i: int| 0 <= i < fs.len()
            && (#[trigger] filter_params(fs)[j]).0 == fs[i].0@ by {
            if j < filter_params(init).len() {
                assert(filter_params(fs)[j] == filter_params(init)[j]);
                let i = choose|i: int| 0 <= i < init.len() && filter_params(init)[j].0 == init[i].0@;
                assert(fs[i] == init[i]);
            } else {
                assert(filter_params(fs)[j].0 == fs[fs.len() - 1].0@);
            }
        }
    }
}

/// Whatever chains a UTXO-chain query names, the transport sends it for the
/// UTXO chain alone: the first parameter is `chains` with that chain's
/// token, which decodes to the UTXO chain alone, and no other parameter is
/// named `chains` unless a filter is.
pub proof fn lemma_utxo_chain_fixed(r: Resource, q: Query, sent: Query, format: Format)
    requires
        family_of_resource(r) == ResourceFamily::Btc,
        forwarded(r, q, sent),
    ensures
        sent.chains@ == set![ChainId::BTC],
        query_params_spec(sent, format)[0] == ("chains"@, chain_token(ChainId::BTC)),
        decode_chains_spec(chain_token(ChainId::BTC)) == Some(set![ChainId::BTC]),
        (forall|i: int| 0 <= i < q.filters@.len() ==> (#[trigger] q.filters@[i]).0@ != "chains"@) ==>
            forall|j: int| 1 <= j < query_params_spec(sent, format).len()
                ==> (#[trigger] query_params_spec(sent, format)[j]).0 != "chains"@,
{
    assert(sent.chains.chains@ == seq![ChainId::BTC]);
    assert(sent.chains@ =~= set![ChainId::BTC]) by {
        assert(sent.chains.chains@[0] == ChainId::BTC);
    }
    let toks = crate::codec::chain_tokens(sent.chains.chains@);
    assert(toks.len() == 1 && toks[0] == chain_token(ChainId::BTC));
    assert(crate::codec::join_commas(toks) == chain_token(ChainId::BTC));
    lemma_chains_round_trip(sent.chains);
    let ps = query_params_spec(sent, format);
    let head = crate::query::opt_param("chains"@, crate::codec::encode_chains_spec(sent.chains.chains@));
    assert(head == seq![("chains"@, chain_token(ChainId::BTC))]);
    assert(ps[0] == head[0]);
    if forall|i: int| 0 <= i < q.filters@.len() ==> (#[trigger] q.filters@[i]).0@ != "chains"@ {
        reveal_strlit("chains");
        reveal_strlit("from_block");
        reveal_strlit("to_block");
        reveal_strlit("format");
        lemma_filter_keys(sent.filters@);
        let mid = crate::query::opt_param("from_block"@, crate::query::bound_value(sent.from_block))
            + crate::query::opt_param("to_block"@, crate::query::bound_value(sent.to_block));
        let fp = filter_params(sent.filters@);
        assert(ps =~= (head + mid + fp).push(("format"@, format_token(format))));
        assert forall|j: int| 1 <= j < ps.len() implies (#[trigger] ps[j]).0 != "chains"@ by {
            assert("chains"@.len() == 6);
            assert("from_block"@.len() == 10);
            assert("to_block"@.len() == 8);
            assert("format"@[0] != "chains"@[0]);
            if j == ps.len() - 1 {
            } else if j < 1 + mid.len() {
                assert(ps[j] == mid[j - 1]);
            } else {
                assert(ps[j] == fp[j - 1 - mid.len()]);
                let i = choose|i: int| 0 <= i < sent.filters@.len() && fp[j - 1 - mid.len()].0 == sent.filters@[i].0@;
                assert(q.filters@[i] == sent.filters@[i]);
            }
        }
    }
}

} // verus!
