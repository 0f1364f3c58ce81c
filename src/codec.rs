//! The comma-joined convention for multi-valued query parameters.
use vstd::prelude::*;
use vstd::string::*;
use crate::chain::{chain_token, parse_chain_token, lemma_parse_chain_token, parse_chain, ChainId, ChainSet};

verus! {

/// No character of `t` is a comma.
pub open spec fn comma_free(t: Seq<char>) -> bool {
    forall|i: int| 0 <= i < t.len() ==> t[i] != ','
}

/// Every token of `ts` is free of commas.
pub open spec fn all_comma_free(ts: Seq<Seq<char>>) -> bool {
    forall|i: int| 0 <= i < ts.len() ==> comma_free(#[trigger] ts[i])
}

/// The tokens joined with a comma between each two.
pub open spec fn join_commas(ts: Seq<Seq<char>>) -> Seq<char>
    decreases ts.len(),
{
    if ts.len() == 0 {
        Seq::empty()
    } else if ts.len() == 1 {
        ts[0]
    } else {
        join_commas(ts.drop_last()) + seq![','] + ts.last()
    }
}

/// The pieces of `s` between commas; there is always at least one.
pub open spec fn split_commas(s: Seq<char>) -> Seq<Seq<char>>
    decreases s.len(),
{
    if s.len() == 0 {
        seq![Seq::empty()]
    } else {
        let prev = split_commas(s.drop_last());
        if s.last() == ',' {
            prev.push(Seq::empty())
        } else {
            prev.update(prev.len() - 1, prev.last().push(s.last()))
        }
    }
}

pub proof fn lemma_split_nonempty(s: Seq<char>)
    ensures
        split_commas(s).len() >= 1,
    decreases s.len(),
{
    if s.len() > 0 {
        lemma_split_nonempty(s.drop_last());
    }
}

/// Appending comma-free text extends the last piece.
pub proof fn lemma_split_append_plain(a: Seq<char>, b: Seq<char>)
    requires
        comma_free(b),
    ensures
        split_commas(a + b) == split_commas(a).update(
            split_commas(a).len() - 1,
            split_commas(a).last() + b,
        ),
    decreases b.len(),
{
    lemma_split_nonempty(a);
    if b.len() == 0 {
        assert(a + b =~= a);
        assert(split_commas(a).last() + b =~= split_commas(a).last());
        assert(split_commas(a).update(split_commas(a).len() - 1, split_commas(a).last())
            =~= split_commas(a));
    } else {
        let b0 = b.drop_last();
        assert(comma_free(b0));
        lemma_split_append_plain(a, b0);
        assert((a + b).drop_last() =~= a + b0);
        assert((a + b).last() == b.last());
        assert(split_commas(a).last() + b0 + seq![b.last()] =~= split_commas(a).last() + b);
        assert((split_commas(a).last() + b0).push(b.last()) =~= split_commas(a).last() + b);
        assert(split_commas(a + b) =~= split_commas(a).update(
            split_commas(a).len() - 1,
            split_commas(a).last() + b,
        ));
    }
}

/// Splitting joined comma-free tokens gives the tokens back.
pub proof fn lemma_split_join(ts: Seq<Seq<char>>)
    requires
        ts.len() >= 1,
        all_comma_free(ts),
    ensures
        split_commas(join_commas(ts)) == ts,
    decreases ts.len(),
{
    if ts.len() == 1 {
        assert(comma_free(ts[0]));
        lemma_split_append_plain(Seq::empty(), ts[0]);
        assert(Seq::<char>::empty() + ts[0] =~= ts[0]);
        assert(split_commas(Seq::<char>::empty()) == seq![Seq::<char>::empty()]);
        assert(split_commas(join_commas(ts)) =~= ts);
    } else {
        let init = ts.drop_last();
        assert(all_comma_free(init)) by {
            assert forall|i: int| 0 <= i < init.len() implies comma_free(#[trigger] init[i]) by {
                assert(init[i] == ts[i]);
            }
        }
        lemma_split_join(init);
        let a = join_commas(init) + seq![','];
        assert(a.drop_last() =~= join_commas(init));
        assert(split_commas(a) == split_commas(join_commas(init)).push(Seq::empty()));
        assert(comma_free(ts.last()));
        lemma_split_append_plain(a, ts.last());
        assert(Seq::<char>::empty() + ts.last() =~= ts.last());
        assert(split_commas(join_commas(ts)) =~= ts);
    }
}


/// The wire tokens of a sequence of chains.
pub open spec fn chain_tokens(s: Seq<ChainId>) -> Seq<Seq<char>> {
    s.map_values(|c: ChainId| chain_token(c))
}

/// What a chain list encodes to: absent when empty, else its tokens joined by commas.
pub open spec fn encode_chains_spec(s: Seq<ChainId>) -> Option<Seq<char>> {
    if s.len() == 0 {
        None
    } else {
        Some(join_commas(chain_tokens(s)))
    }
}

/// Every piece names a chain.
pub open spec fn all_parse(parts: Seq<Seq<char>>) -> bool {
    forall|j: int| 0 <= j < parts.len() ==> (#[trigger] parse_chain_token(parts[j])).is_some()
}

/// The chains that the pieces name.
pub open spec fn parsed_chains(parts: Seq<Seq<char>>) -> Set<ChainId> {
    Set::new(
        |c: ChainId| exists|j: int| 0 <= j < parts.len() && parse_chain_token(parts[j]) == Some(c),
    )
}

/// What a comma-joined chain list decodes to: the set it names, when each piece names a chain.
pub open spec fn decode_chains_spec(s: Seq<char>) -> Option<Set<ChainId>> {
    let parts = split_commas(s);
    if all_parse(parts) {
        Some(parsed_chains(parts))
    } else {
        None
    }
}

proof fn lemma_parsed_push(parts: Seq<Seq<char>>, p: Seq<char>)
    ensures
        parsed_chains(parts.push(p)) == match parse_chain_token(p) {
            Some(c) => parsed_chains(parts).insert(c),
            None => parsed_chains(parts),
        },
        all_parse(parts.push(p)) == (all_parse(parts) && parse_chain_token(p).is_some()),
{
    let q = parts.push(p);
    let expected = match parse_chain_token(p) {
        Some(c) => parsed_chains(parts).insert(c),
        None => parsed_chains(parts),
    };
    assert forall|c: ChainId| parsed_chains(q).contains(c) <==> expected.contains(c) by {
        if parsed_chains(parts).contains(c) {
            let j = choose|j: int| 0 <= j < parts.len() && parse_chain_token(parts[j]) == Some(c);
            assert(q[j] == parts[j]);
        }
        if parsed_chains(q).contains(c) {
            let j = choose|j: int| 0 <= j < q.len() && parse_chain_token(q[j]) == Some(c);
            if j < parts.len() {
                assert(q[j] == parts[j]);
            }
        }
        if parse_chain_token(p) == Some(c) {
            assert(q[parts.len() as int] == p);
        }
    }
    assert(parsed_chains(q) =~= expected);
    if all_parse(parts) && parse_chain_token(p).is_some() {
        assert forall|j: int| 0 <= j < q.len() implies (#[trigger] parse_chain_token(q[j])).is_some() by {
            if j < parts.len() {
                assert(q[j] == parts[j]);
            }
        }
    }
    if all_parse(q) {
        assert(q[parts.len() as int] == p);
        assert forall|j: int| 0 <= j < parts.len() implies (#[trigger] parse_chain_token(parts[j])).is_some() by {
            assert(q[j] == parts[j]);
        }
    }
}

/// Renders a chain set as its comma-joined token list; an empty set is absent.
pub fn encode_chains(cs: &ChainSet) -> (r: Option<String>)
    ensures
        r.is_some() == encode_chains_spec(cs.chains@).is_some(),
        r.is_some() ==> r.unwrap()@ == encode_chains_spec(cs.chains@).unwrap(),
{
    let n = cs.chains.len();
    if n == 0 {
        return None;
    }
    let ghost toks = chain_tokens(cs.chains@);
    let mut out = String::new();
    let mut i: usize = 0;
    while i < n
        invariant
            n == cs.chains@.len(),
            toks == chain_tokens(cs.chains@),
            i <= n,
            out@ == join_commas(toks.take(i as int)),
        decreases n - i,
    {
        let tok = cs.chains[i].as_str();
        if i > 0 {
            proof { reveal_strlit(","); }
            out.append(",");
        }
        out.append(tok);
        proof {
            let t1 = toks.take(i + 1);
            assert(t1.drop_last() =~= toks.take(i as int));
            assert(t1.last() == tok@);
            if i == 0 {
                assert(Seq::<char>::empty() + tok@ =~= tok@);
            }
        }
        i += 1;
    }
    assert(toks.take(n as int) =~= toks);
    Some(out)
}

/// Reads a comma-joined chain list back into a set; fails when a piece names no chain.
pub fn decode_chains(s: &str) -> (r: Option<ChainSet>)
    ensures
        r.is_some() == decode_chains_spec(s@).is_some(),
        r.is_some() ==> r.unwrap()@ == decode_chains_spec(s@).unwrap() && r.unwrap().wf(),
{
    let n = s.unicode_len();
    let mut set = ChainSet::new();
    let mut cur: Vec<char> = Vec::new();
    let mut ok = true;
    let ghost mut done: Seq<Seq<char>> = seq![];
    let mut i: usize = 0;
    assert(s@.take(0) =~= Seq::<char>::empty());
    assert(parsed_chains(done) =~= Set::<ChainId>::empty());
    while i < n
        invariant
            n == s@.len(),
            i <= n,
            split_commas(s@.take(i as int)) == done.push(cur@),
            ok == all_parse(done),
            set@ == parsed_chains(done),
            set.wf(),
        decreases n - i,
    {
        let ch = s.get_char(i);
        let ghost prev = s@.take(i as int);
        assert(s@.take(i + 1).drop_last() =~= prev);
        assert(s@.take(i + 1).last() == ch);
        if ch == ',' {
            let p = parse_chain(&cur);
            proof { lemma_parsed_push(done, cur@); }
            match p {
                Some(c) => {
                    set.insert(c);
                },
                None => {
                    ok = false;
                },
            }
            proof { done = done.push(cur@); }
            cur = Vec::new();
            assert(split_commas(s@.take(i + 1)) =~= done.push(cur@));
        } else {
            cur.push(ch);
            assert(split_commas(s@.take(i + 1)) =~= done.push(cur@));
        }
        i += 1;
    }
    assert(s@.take(n as int) =~= s@);
    let p = parse_chain(&cur);
    proof { lemma_parsed_push(done, cur@); }
    match p {
        Some(c) => {
            set.insert(c);
            if ok {
                Some(set)
            } else {
                None
            }
        },
        None => None,
    }
}

/// Encoding a chain set and decoding the text gives the same set back, and
/// only the empty set encodes as absent.
pub proof fn lemma_chains_round_trip(cs: ChainSet)
    ensures
        encode_chains_spec(cs.chains@).is_none() <==> cs@ == Set::<ChainId>::empty(),
        encode_chains_spec(cs.chains@).is_some() ==> decode_chains_spec(
            encode_chains_spec(cs.chains@).unwrap(),
        ) == Some(cs@),
{
    let s = cs.chains@;
    if s.len() == 0 {
        assert(cs@ =~= Set::<ChainId>::empty());
    } else {
        assert(cs@.contains(s[0]));
        let toks = chain_tokens(s);
        assert forall|i: int| 0 <= i < toks.len() implies comma_free(#[trigger] toks[i]) by {
            lemma_parse_chain_token(s[i]);
        }
        lemma_split_join(toks);
        let parts = split_commas(join_commas(toks));
        assert forall|j: int| 0 <= j < parts.len() implies (#[trigger] parse_chain_token(parts[j])).is_some() by {
            lemma_parse_chain_token(s[j]);
        }
        assert forall|c: ChainId| parsed_chains(parts).contains(c) <==> cs@.contains(c) by {
            if cs@.contains(c) {
                let j = choose|j: int| 0 <= j < s.len() && s[j] == c;
                lemma_parse_chain_token(s[j]);
                assert(parse_chain_token(parts[j]) == Some(c));
            }
            if parsed_chains(parts).contains(c) {
                let j = choose|j: int| 0 <= j < parts.len() && parse_chain_token(parts[j]) == Some(c);
                lemma_parse_chain_token(s[j]);
                assert(s[j] == c);
            }
        }
        assert(parsed_chains(parts) =~= cs@);
    }
}


/// Relies on `String::push`: it appends the one character at the end.
pub assume_specification[ String::push ](s: &mut String, ch: char)
    ensures
        final(s)@ == old(s)@.push(ch),
;

/// The lowercase hexadecimal digit of `d`, for `d` below 16.
pub open spec fn digit_spec(d: int) -> char {
    if d == 0 {
        '0'
    } else if d == 1 {
        '1'
    } else if d == 2 {
        '2'
    } else if d == 3 {
        '3'
    } else if d == 4 {
        '4'
    } else if d == 5 {
        '5'
    } else if d == 6 {
        '6'
    } else if d == 7 {
        '7'
    } else if d == 8 {
        '8'
    } else if d == 9 {
        '9'
    } else if d == 10 {
        'a'
    } else if d == 11 {
        'b'
    } else if d == 12 {
        'c'
    } else if d == 13 {
        'd'
    } else if d == 14 {
        'e'
    } else {
        'f'
    }
}

/// The digit character of `d`, for `d` below 16.
pub fn digit_char(d: u8) -> (r: char)
    requires
        d < 16,
    ensures
        r == digit_spec(d as int),
{
    if d == 0 { '0' }
    else if d == 1 { '1' }
    else if d == 2 { '2' }
    else if d == 3 { '3' }
    else if d == 4 { '4' }
    else if d == 5 { '5' }
    else if d == 6 { '6' }
    else if d == 7 { '7' }
    else if d == 8 { '8' }
    else if d == 9 { '9' }
    else if d == 10 { 'a' }
    else if d == 11 { 'b' }
    else if d == 12 { 'c' }
    else if d == 13 { 'd' }
    else if d == 14 { 'e' }
    else { 'f' }
}

/// The value of a hexadecimal digit of either case; -1 for any other character.
pub open spec fn hex_val(c: char) -> int {
    if c == '0' {
        0
    } else if c == '1' {
        1
    } else if c == '2' {
        2
    } else if c == '3' {
        3
    } else if c == '4' {
        4
    } else if c == '5' {
        5
    } else if c == '6' {
        6
    } else if c == '7' {
        7
    } else if c == '8' {
        8
    } else if c == '9' {
        9
    } else if c == 'a' {
        10
    } else if c == 'b' {
        11
    } else if c == 'c' {
        12
    } else if c == 'd' {
        13
    } else if c == 'e' {
        14
    } else if c == 'f' {
        15
    } else if c == 'A' {
        10
    } else if c == 'B' {
        11
    } else if c == 'C' {
        12
    } else if c == 'D' {
        13
    } else if c == 'E' {
        14
    } else if c == 'F' {
        15
    } else {
        -1
    }
}

/// Reading back a digit gives its value.
pub proof fn lemma_hex_val_digit(d: int)
    requires
        0 <= d < 16,
    ensures
        hex_val(digit_spec(d)) == d,
        digit_spec(d) != ',',
{
}

/// The value of a hexadecimal digit of either case.
pub fn hex_value(c: char) -> (r: Option<u8>)
    ensures
        match r {
            Some(v) => v < 16 && v as int == hex_val(c),
            None => hex_val(c) < 0,
        },
{
    if c == '0' {
        Some(0)
    } else if c == '1' {
        Some(1)
    } else if c == '2' {
        Some(2)
    } else if c == '3' {
        Some(3)
    } else if c == '4' {
        Some(4)
    } else if c == '5' {
        Some(5)
    } else if c == '6' {
        Some(6)
    } else if c == '7' {
        Some(7)
    } else if c == '8' {
        Some(8)
    } else if c == '9' {
        Some(9)
    } else if c == 'a' {
        Some(10)
    } else if c == 'b' {
        Some(11)
    } else if c == 'c' {
        Some(12)
    } else if c == 'd' {
        Some(13)
    } else if c == 'e' {
        Some(14)
    } else if c == 'f' {
        Some(15)
    } else if c == 'A' {
        Some(10)
    } else if c == 'B' {
        Some(11)
    } else if c == 'C' {
        Some(12)
    } else if c == 'D' {
        Some(13)
    } else if c == 'E' {
        Some(14)
    } else if c == 'F' {
        Some(15)
    } else {
        None
    }
}

/// The decimal rendering of `n`, without leading zeros.
pub open spec fn decimal_spec(n: nat) -> Seq<char>
    decreases n,
{
    if n < 10 {
        seq![digit_spec(n as int)]
    } else {
        decimal_spec(n / 10).push(digit_spec((n % 10) as int))
    }
}

/// Renders `n` in decimal.
pub fn decimal(n: u64) -> (r: String)
    ensures
        r@ == decimal_spec(n as nat),
    decreases n,
{
    if n < 10 {
        let mut s = String::new();
        s.push(digit_char(n as u8));
        s
    } else {
        let mut s = decimal(n / 10);
        s.push(digit_char((n % 10) as u8));
        s
    }
}

/// Two lowercase hexadecimal digits per byte, high digit first.
pub open spec fn hex_spec(b: Seq<u8>) -> Seq<char>
    decreases b.len(),
{
    if b.len() == 0 {
        Seq::empty()
    } else {
        hex_spec(b.drop_last()) + seq![digit_spec(b.last() as int / 16), digit_spec(b.last() as int % 16)]
    }
}

/// Appends the hexadecimal digits of `b` to `out`.
pub fn push_hex(out: &mut String, b: &[u8])
    ensures
        final(out)@ == old(out)@ + hex_spec(b@),
{
    let ghost start = out@;
    let mut i: usize = 0;
    assert(b@.take(0) =~= Seq::<u8>::empty());
    assert(start + Seq::<char>::empty() =~= start);
    while i < b.len()
        invariant
            i <= b@.len(),
            out@ == start + hex_spec(b@.take(i as int)),
        decreases b@.len() - i,
    {
        let x = b[i];
        out.push(digit_char(x / 16));
        out.push(digit_char(x % 16));
        proof {
            let t = b@.take(i + 1);
            assert(t.drop_last() =~= b@.take(i as int));
            assert(t.last() == x);
            assert(out@ =~= start + hex_spec(t));
        }
        i += 1;
    }
    assert(b@.take(b@.len() as int) =~= b@);
}

} // verus!
