//! Block bounds, output formats, and the flat query-parameter list that a
//! request is sent as.
use vstd::prelude::*;
use vstd::string::*;
use crate::chain::ChainSet;
use crate::codec::{decimal, decimal_spec, encode_chains, encode_chains_spec};
use crate::hash::{encode_hashes, encode_hashes_spec, HashFilter};

verus! {

/// An optional, inclusive block-height boundary; `None` is unbounded.
#[derive(Clone, Copy, Debug, PartialEq, Eq, Structural)]
pub struct Bound {
    pub block: Option<u64>,
}

impl Default for Bound {
    fn default() -> (r: Bound)
        ensures
            r.block.is_none(),
    {
        Bound { block: None }
    }
}

/// How the service frames a response; it never changes which records come back.
#[derive(Clone, Copy, Debug, PartialEq, Eq, Structural)]
pub enum Format {
    /// One structured document.
    Json,
    /// One record per line.
    JsonStream,
}

pub open spec fn format_token(f: Format) -> Seq<char> {
    match f {
        Format::Json => "json"@,
        Format::JsonStream => "json_stream"@,
    }
}

impl Format {
    /// The token sent as the `format` parameter.
    pub fn as_str(&self) -> (r: &'static str)
        ensures
            r@ == format_token(*self),
    {
        match self {
            Format::Json => "json",
            Format::JsonStream => "json_stream",
        }
    }
}

/// The parameters of one query: the chains asked for, a block range, and
/// named hash filters.
#[derive(Debug)]
pub struct Query {
    pub chains: ChainSet,
    pub from_block: Bound,
    pub to_block: Bound,
    pub filters: Vec<(String, HashFilter)>,
}

/// A query parameter as text.
pub open spec fn param_view(p: (String, String)) -> (Seq<char>, Seq<char>) {
    (p.0@, p.1@)
}

/// A parameter list as text.
pub open spec fn params_view(v: Seq<(String, String)>) -> Seq<(Seq<char>, Seq<char>)> {
    v.map_values(|p: (String, String)| param_view(p))
}

/// One parameter when the value is present, none when it is absent.
pub open spec fn opt_param(k: Seq<char>, v: Option<Seq<char>>) -> Seq<(Seq<char>, Seq<char>)> {
    match v {
        Some(x) => seq![(k, x)],
        None => Seq::empty(),
    }
}

/// The value a bound is sent as: absent when unbounded.
pub open spec fn bound_value(b: Bound) -> Option<Seq<char>> {
    match b.block {
        Some(n) => Some(decimal_spec(n as nat)),
        None => None,
    }
}

/// The parameters of the named filters, in order, leaving out the empty ones.
pub open spec fn filter_params(fs: Seq<(String, HashFilter)>) -> Seq<(Seq<char>, Seq<char>)>
    decreases fs.len(),
{
    if fs.len() == 0 {
        Seq::empty()
    } else {
        filter_params(fs.drop_last()) + opt_param(
            fs.last().0@,
            encode_hashes_spec(fs.last().1.items@),
        )
    }
}

/// The parameters of a query before the format token.
pub open spec fn query_fields_spec(q: Query) -> Seq<(Seq<char>, Seq<char>)> {
    opt_param("chains"@, encode_chains_spec(q.chains.chains@)) + opt_param(
        "from_block"@,
        bound_value(q.from_block),
    ) + opt_param("to_block"@, bound_value(q.to_block)) + filter_params(q.filters@)
}

/// All parameters of a query in the given format: its fields, then `format`.
pub open spec fn query_params_spec(q: Query, f: Format) -> Seq<(Seq<char>, Seq<char>)> {
    query_fields_spec(q).push(("format"@, format_token(f)))
}

fn push_opt_param(out: &mut Vec<(String, String)>, k: &str, v: Option<String>)
    ensures
        params_view(final(out)@) == params_view(old(out)@) + opt_param(
            k@,
            match v {
                Some(x) => Some(x@),
                None => None,
            },
        ),
{
    match v {
        Some(x) => {
            out.push((String::from_str(k), x));
            assert(params_view(out@) =~= params_view(old(out)@) + seq![(k@, x@)]);
        },
        None => {
            assert(params_view(out@) =~= params_view(out@) + Seq::<(Seq<char>, Seq<char>)>::empty());
        },
    }
}

fn bound_text(b: Bound) -> (r: Option<String>)
    ensures
        match r {
            Some(x) => bound_value(b) == Some(x@),
            None => bound_value(b).is_none(),
        },
{
    match b.block {
        Some(n) => Some(decimal(n)),
        None => None,
    }
}

impl Query {
    /// A query over `chains` with no block bounds and no filters.
    pub fn new(chains: ChainSet) -> (r: Query)
        ensures
            r.chains == chains,
            r.from_block.block.is_none(),
            r.to_block.block.is_none(),
            r.filters@.len() == 0,
    {
        Query {
            chains,
            from_block: Bound { block: None },
            to_block: Bound { block: None },
            filters: Vec::new(),
        }
    }

    /// The flat parameter list this query is sent as: `chains`, `from_block`,
    /// `to_block` and each filter when present, then `format`.
    pub fn params(&self, format: Format) -> (r: Vec<(String, String)>)
        ensures
            params_view(r@) == query_params_spec(*self, format),
    {
        let mut out: Vec<(String, String)> = Vec::new();
        assert(params_view(out@) =~= Seq::<(Seq<char>, Seq<char>)>::empty());
        push_opt_param(&mut out, "chains", encode_chains(&self.chains));
        push_opt_param(&mut out, "from_block", bound_text(self.from_block));
        push_opt_param(&mut out, "to_block", bound_text(self.to_block));
        let ghost head = params_view(out@);
        assert(head =~= opt_param("chains"@, encode_chains_spec(self.chains.chains@)) + opt_param(
            "from_block"@,
            bound_value(self.from_block),
        ) + opt_param("to_block"@, bound_value(self.to_block)));
        let mut i: usize = 0;
        assert(self.filters@.take(0) =~= Seq::<(String, HashFilter)>::empty());
        assert(head + filter_params(self.filters@.take(0)) =~= head);
        while i < self.filters.len()
            invariant
                i <= self.filters@.len(),
                params_view(out@) == head + filter_params(self.filters@.take(i as int)),
            decreases self.filters@.len() - i,
        {
            let entry = &self.filters[i];
            let ghost before = params_view(out@);
            push_opt_param(&mut out, entry.0.as_str(), encode_hashes(&entry.1));
            proof {
                let t1 = self.filters@.take(i + 1);
                assert(t1.drop_last() =~= self.filters@.take(i as int));
                assert(t1.last() == *entry);
                assert(params_view(out@) =~= head + filter_params(t1));
            }
            i += 1;
        }
        assert(self.filters@.take(self.filters@.len() as int) =~= self.filters@);
        let ghost fields = params_view(out@);
        out.push((String::from_str("format"), String::from_str(format.as_str())));
        assert(params_view(out@) =~= fields.push(("format"@, format_token(format))));
        out
    }
}

} // verus!
