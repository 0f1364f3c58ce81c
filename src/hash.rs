//! 32-byte hashes and sets of them, as used by address and asset filters.
use vstd::prelude::*;
use vstd::string::*;
use crate::order::{lemma_sorted_insert, lemma_sorted_unique, sorted_by, strict_total};
use crate::codec::{
    all_comma_free, comma_free, hex_spec, hex_val, hex_value, join_commas, lemma_hex_val_digit,
    lemma_split_join, push_hex, split_commas, digit_spec,
};

verus! {

/// A 32-byte hash or address.
#[derive(Clone, Copy, Debug)]
pub struct Hash256 {
    pub bytes: [u8; 32],
}

/// The wire token of a hash: `0x` and 64 lowercase hexadecimal digits.
pub open spec fn hash_token(b: Seq<u8>) -> Seq<char> {
    seq!['0', 'x'] + hex_spec(b)
}

impl Hash256 {
    /// Whether the two hashes hold the same bytes.
    pub fn same(&self, other: &Hash256) -> (r: bool)
        ensures
            r == (self.bytes@ == other.bytes@),
    {
        let mut i: usize = 0;
        while i < 32
            invariant
                i <= 32,
                self.bytes@.len() == 32,
                other.bytes@.len() == 32,
                forall|j: int| 0 <= j < i ==> self.bytes@[j] == other.bytes@[j],
            decreases 32 - i,
        {
            if self.bytes[i] != other.bytes[i] {
                return false;
            }
            i += 1;
        }
        assert(self.bytes@ =~= other.bytes@);
        true
    }

    /// The wire token of this hash.
    pub fn token(&self) -> (r: String)
        ensures
            r@ == hash_token(self.bytes@),
    {
        let mut s = String::new();
        s.push('0');
        s.push('x');
        push_hex(&mut s, self.bytes.as_slice());
        assert(s@ =~= hash_token(self.bytes@));
        s
    }
}

/// Byte strings in lexicographic order, a proper prefix first.
pub open spec fn bytes_before(a: Seq<u8>, b: Seq<u8>) -> bool
    decreases a.len(),
{
    if a.len() == 0 || b.len() == 0 {
        a.len() < b.len()
    } else if a[0] != b[0] {
        a[0] < b[0]
    } else {
        bytes_before(a.drop_first(), b.drop_first())
    }
}

pub open spec fn bytes_lt() -> spec_fn(Seq<u8>, Seq<u8>) -> bool {
    |a: Seq<u8>, b: Seq<u8>| bytes_before(a, b)
}

proof fn lemma_before_irreflexive(a: Seq<u8>)
    ensures
        !bytes_before(a, a),
    decreases a.len(),
{
    if a.len() > 0 {
        lemma_before_irreflexive(a.drop_first());
    }
}

proof fn lemma_before_transitive(a: Seq<u8>, b: Seq<u8>, c: Seq<u8>)
    requires
        bytes_before(a, b),
        bytes_before(b, c),
    ensures
        bytes_before(a, c),
    decreases a.len(),
{
    if a.len() > 0 && b.len() > 0 && c.len() > 0 && a[0] == b[0] && b[0] == c[0] {
        lemma_before_transitive(a.drop_first(), b.drop_first(), c.drop_first());
    }
}

proof fn lemma_before_total(a: Seq<u8>, b: Seq<u8>)
    requires
        a != b,
    ensures
        bytes_before(a, b) || bytes_before(b, a),
    decreases a.len(),
{
    if a.len() == 0 && b.len() == 0 {
        assert(a =~= b);
    } else if a.len() > 0 && b.len() > 0 && a[0] == b[0] {
        if a.drop_first() == b.drop_first() {
            assert(a.len() == a.drop_first().len() + 1 && b.len() == b.drop_first().len() + 1);
            assert(a =~= b) by {
                assert forall|i: int| 0 <= i < a.len() implies a[i] == b[i] by {
                    if i > 0 {
                        assert(a[i] == a.drop_first()[i - 1]);
                        assert(b[i] == b.drop_first()[i - 1]);
                    }
                }
            }
        }
        lemma_before_total(a.drop_first(), b.drop_first());
    }
}

pub proof fn lemma_bytes_lt_total()
    ensures
        strict_total(bytes_lt()),
{
    assert forall|x: Seq<u8>| !(#[trigger] bytes_lt()(x, x)) by {
        lemma_before_irreflexive(x);
    }
    assert forall|x: Seq<u8>, y: Seq<u8>, z: Seq<u8>| #[trigger] bytes_lt()(x, y) && #[trigger] bytes_lt()(y, z) implies bytes_lt()(x, z) by {
        lemma_before_transitive(x, y, z);
    }
    assert forall|x: Seq<u8>, y: Seq<u8>| x != y implies #[trigger] bytes_lt()(x, y) || bytes_lt()(y, x) by {
        lemma_before_total(x, y);
    }
}

/// Whether the bytes of `a` come before those of `b`.
pub fn hash_before(a: &Hash256, b: &Hash256) -> (r: bool)
    ensures
        r == bytes_before(a.bytes@, b.bytes@),
{
    let mut i: usize = 0;
    assert(a.bytes@.skip(0) =~= a.bytes@);
    assert(b.bytes@.skip(0) =~= b.bytes@);
    while i < 32
        invariant
            i <= 32,
            a.bytes@.len() == 32,
            b.bytes@.len() == 32,
            bytes_before(a.bytes@, b.bytes@) == bytes_before(a.bytes@.skip(i as int), b.bytes@.skip(i as int)),
        decreases 32 - i,
    {
        let x = a.bytes[i];
        let y = b.bytes[i];
        assert(a.bytes@.skip(i as int)[0] == x);
        assert(b.bytes@.skip(i as int)[0] == y);
        if x != y {
            return x < y;
        }
        assert(a.bytes@.skip(i as int).drop_first() =~= a.bytes@.skip(i + 1));
        assert(b.bytes@.skip(i as int).drop_first() =~= b.bytes@.skip(i + 1));
        i += 1;
    }
    assert(a.bytes@.skip(32).len() == 0);
    false
}

/// A set of hashes, kept in byte order without repeats, so that equal sets
/// hold the same list.
#[derive(Clone, Debug)]
pub struct HashFilter {
    pub items: Vec<Hash256>,
}

/// The byte strings of a sequence of hashes.
pub open spec fn hash_bytes(s: Seq<Hash256>) -> Seq<Seq<u8>> {
    s.map_values(|h: Hash256| h.bytes@)
}

/// What a hash list encodes to: absent when empty, else its tokens joined by commas.
pub open spec fn encode_hashes_spec(s: Seq<Hash256>) -> Option<Seq<char>> {
    if s.len() == 0 {
        None
    } else {
        Some(join_commas(s.map_values(|h: Hash256| hash_token(h.bytes@))))
    }
}

impl View for HashFilter {
    type V = Set<Seq<u8>>;

    open spec fn view(&self) -> Set<Seq<u8>> {
        hash_bytes(self.items@).to_set()
    }
}

impl HashFilter {
    /// No hash is listed twice.
    pub open spec fn wf(&self) -> bool {
        sorted_by(hash_bytes(self.items@), bytes_lt())
    }

    /// The empty filter.
    pub fn new() -> (r: HashFilter)
        ensures
            r.wf(),
            r.items@ == Seq::<Hash256>::empty(),
            r@ == Set::<Seq<u8>>::empty(),
    {
        let r = HashFilter { items: Vec::new() };
        assert(hash_bytes(r.items@) =~= Seq::<Seq<u8>>::empty());
        assert(r@ =~= Set::<Seq<u8>>::empty());
        r
    }

    /// Whether a hash with the bytes of `h` is in the filter.
    pub fn contains(&self, h: &Hash256) -> (r: bool)
        ensures
            r == self@.contains(h.bytes@),
    {
        let mut i: usize = 0;
        while i < self.items.len()
            invariant
                i <= self.items@.len(),
                forall|j: int| 0 <= j < i ==> self.items@[j].bytes@ != h.bytes@,
            decreases self.items@.len() - i,
        {
            if self.items[i].same(h) {
                assert(hash_bytes(self.items@)[i as int] == h.bytes@);
                return true;
            }
            i += 1;
        }
        assert forall|j: int| 0 <= j < hash_bytes(self.items@).len() implies hash_bytes(self.items@)[j] != h.bytes@ by {}
        false
    }

    /// Adds `h` at its place in byte order; returns whether it was new.
    pub fn insert(&mut self, h: Hash256) -> (r: bool)
        requires
            old(self).wf(),
        ensures
            final(self).wf(),
            final(self)@ == old(self)@.insert(h.bytes@),
            r == !old(self)@.contains(h.bytes@),
    {
        let mut i: usize = 0;
        while i < self.items.len() && hash_before(&self.items[i], &h)
            invariant
                self.wf(),
                i <= self.items@.len(),
                forall|j: int| 0 <= j < i ==> bytes_before(#[trigger] self.items@[j].bytes@, h.bytes@),
            decreases self.items@.len() - i,
        {
            i += 1;
        }
        proof { lemma_bytes_lt_total(); }
        let ghost before = hash_bytes(self.items@);
        if i < self.items.len() && self.items[i].same(&h) {
            assert(before[i as int] == h.bytes@);
            assert(self@.contains(h.bytes@));
            assert(self@.insert(h.bytes@) =~= self@);
            return false;
        }
        proof {
            if i < self.items.len() {
                assert(before[i as int] == self.items@[i as int].bytes@);
                assert(!bytes_before(before[i as int], h.bytes@));
                lemma_before_total(before[i as int], h.bytes@);
            }
            assert forall|j: int| 0 <= j < i implies #[trigger] bytes_lt()(before[j], h.bytes@) by {
                assert(before[j] == self.items@[j].bytes@);
            }
            assert(!before.to_set().contains(h.bytes@)) by {
                if before.to_set().contains(h.bytes@) {
                    let j = choose|j: int| 0 <= j < before.len() && before[j] == h.bytes@;
                    if j < i {
                        lemma_before_irreflexive(h.bytes@);
                    } else if j > i {
                        assert(bytes_lt()(before[i as int], before[j]));
                        lemma_before_transitive(h.bytes@, before[i as int], h.bytes@);
                        lemma_before_irreflexive(h.bytes@);
                    }
                }
            }
            lemma_sorted_insert(before, i as int, h.bytes@, bytes_lt());
        }
        self.items.insert(i, h);
        assert(hash_bytes(self.items@) =~= before.insert(i as int, h.bytes@));
        true
    }

    /// Whether the filter is empty.
    pub fn is_empty(&self) -> (r: bool)
        ensures
            r == (self@ == Set::<Seq<u8>>::empty()),
    {
        if self.items.len() == 0 {
            assert(self@ =~= Set::<Seq<u8>>::empty());
            true
        } else {
            assert(self@.contains(hash_bytes(self.items@)[0]));
            false
        }
    }
}

/// Renders a filter as its comma-joined token list; an empty filter is absent.
pub fn encode_hashes(f: &HashFilter) -> (r: Option<String>)
    ensures
        r.is_some() == encode_hashes_spec(f.items@).is_some(),
        r.is_some() ==> r.unwrap()@ == encode_hashes_spec(f.items@).unwrap(),
{
    let n = f.items.len();
    if n == 0 {
        return None;
    }
    let ghost toks = f.items@.map_values(|h: Hash256| hash_token(h.bytes@));
    let mut out = String::new();
    let mut i: usize = 0;
    while i < n
        invariant
            n == f.items@.len(),
            toks == f.items@.map_values(|h: Hash256| hash_token(h.bytes@)),
            i <= n,
            out@ == join_commas(toks.take(i as int)),
        decreases n - i,
    {
        let tok = f.items[i].token();
        if i > 0 {
            out.push(',');
        }
        proof {
            let t1 = toks.take(i + 1);
            assert(t1.drop_last() =~= toks.take(i as int));
            assert(t1.last() == tok@);
        }
        out.append(tok.as_str());
        proof {
            if i == 0 {
                assert(Seq::<char>::empty() + tok@ =~= tok@);
            }
            assert(out@ =~= join_commas(toks.take(i + 1)));
        }
        i += 1;
    }
    assert(toks.take(n as int) =~= toks);
    Some(out)
}


/// Whether `t` is `0x` followed by 64 hexadecimal digits.
pub open spec fn is_hash_token(t: Seq<char>) -> bool {
    &&& t.len() == 66
    &&& t[0] == '0'
    &&& t[1] == 'x'
    &&& forall|i: int| 2 <= i < 66 ==> hex_val(#[trigger] t[i]) >= 0
}

/// The 32 bytes that the digits of a hash token spell, high digit first.
pub open spec fn token_bytes(t: Seq<char>) -> Seq<u8> {
    Seq::new(32, |i: int| (16 * hex_val(t[2 + 2 * i]) + hex_val(t[3 + 2 * i])) as u8)
}

/// The bytes a hash token names, if it is one.
pub open spec fn parse_hash_token(t: Seq<char>) -> Option<Seq<u8>> {
    if is_hash_token(t) {
        Some(token_bytes(t))
    } else {
        None
    }
}

/// Every piece is a hash token.
pub open spec fn all_hashes(parts: Seq<Seq<char>>) -> bool {
    forall|j: int| 0 <= j < parts.len() ==> (#[trigger] parse_hash_token(parts[j])).is_some()
}

/// The hashes that the pieces name.
pub open spec fn parsed_hashes(parts: Seq<Seq<char>>) -> Set<Seq<u8>> {
    Set::new(
        |b: Seq<u8>| exists|j: int| 0 <= j < parts.len() && parse_hash_token(parts[j]) == Some(b),
    )
}

/// What a comma-joined hash list decodes to: the set it names, when each piece is a hash token.
pub open spec fn decode_hashes_spec(s: Seq<char>) -> Option<Set<Seq<u8>>> {
    let parts = split_commas(s);
    if all_hashes(parts) {
        Some(parsed_hashes(parts))
    } else {
        None
    }
}

proof fn lemma_hex_spec_index(b: Seq<u8>)
    ensures
        hex_spec(b).len() == 2 * b.len(),
        forall|i: int| 0 <= i < b.len() ==> #[trigger] hex_spec(b)[2 * i] == digit_spec(b[i] as int / 16),
        forall|i: int| 0 <= i < b.len() ==> #[trigger] hex_spec(b)[2 * i + 1] == digit_spec(b[i] as int % 16),
    decreases b.len(),
{
    if b.len() > 0 {
        let init = b.drop_last();
        lemma_hex_spec_index(init);
        assert forall|i: int| 0 <= i < b.len() implies #[trigger] hex_spec(b)[2 * i] == digit_spec(b[i] as int / 16)
            && hex_spec(b)[2 * i + 1] == digit_spec(b[i] as int % 16) by {
            let tail = seq![digit_spec(b.last() as int / 16), digit_spec(b.last() as int % 16)];
            assert(hex_spec(b) == hex_spec(init) + tail);
            if i < init.len() {
                assert(init[i] == b[i]);
                assert(hex_spec(init)[2 * i + 1] == digit_spec(init[i] as int % 16));
                assert(hex_spec(init)[2 * i] == digit_spec(init[i] as int / 16));
                assert(hex_spec(b)[2 * i] == hex_spec(init)[2 * i]);
                assert(hex_spec(b)[2 * i + 1] == hex_spec(init)[2 * i + 1]);
            } else {
                assert(b[i] == b.last());
                assert(hex_spec(b)[2 * i] == tail[0]);
                assert(hex_spec(b)[2 * i + 1] == tail[1]);
            }
        }
        assert forall|i: int| 0 <= i < b.len() implies #[trigger] hex_spec(b)[2 * i + 1] == digit_spec(b[i] as int % 16) by {
            assert(hex_spec(b)[2 * i] == digit_spec(b[i] as int / 16));
        }
    }
}

/// A hash's token is a hash token that names its bytes, and holds no comma.
pub proof fn lemma_hash_token(b: Seq<u8>)
    requires
        b.len() == 32,
    ensures
        parse_hash_token(hash_token(b)) == Some(b),
        comma_free(hash_token(b)),
{
    let t = hash_token(b);
    lemma_hex_spec_index(b);
    assert forall|i: int| 0 <= i < 32 implies t[2 + 2 * i] == digit_spec(b[i] as int / 16)
        && t[3 + 2 * i] == digit_spec(b[i] as int % 16) by {
        assert(hex_spec(b)[2 * i] == digit_spec(b[i] as int / 16));
        assert(hex_spec(b)[2 * i + 1] == digit_spec(b[i] as int % 16));
    }
    assert forall|i: int| 2 <= i < 66 implies hex_val(#[trigger] t[i]) >= 0 && t[i] != ',' by {
        let k = (i - 2) / 2;
        assert(0 <= k < 32);
        lemma_hex_val_digit(b[k] as int / 16);
        lemma_hex_val_digit(b[k] as int % 16);
        if (i - 2) % 2 == 0 {
            assert(i == 2 + 2 * k);
        } else {
            assert(i == 3 + 2 * k);
        }
    }
    assert(token_bytes(t) =~= b) by {
        assert forall|i: int| 0 <= i < 32 implies token_bytes(t)[i] == b[i] by {
            lemma_hex_val_digit(b[i] as int / 16);
            lemma_hex_val_digit(b[i] as int % 16);
        }
    }
}

/// The hash whose token is exactly `t`, if it is one.
pub fn parse_hash(t: &Vec<char>) -> (r: Option<Hash256>)
    ensures
        r.is_some() == parse_hash_token(t@).is_some(),
        r.is_some() ==> r.unwrap().bytes@ == parse_hash_token(t@).unwrap(),
{
    if t.len() != 66 || t[0] != '0' || t[1] != 'x' {
        return None;
    }
    let mut bytes = [0u8; 32];
    let mut i: usize = 0;
    while i < 32
        invariant
            t@.len() == 66,
            i <= 32,
            bytes@.len() == 32,
            forall|k: int| 2 <= k < 2 + 2 * i ==> hex_val(#[trigger] t@[k]) >= 0,
            forall|j: int| 0 <= j < i ==> bytes@[j] == token_bytes(t@)[j],
        decreases 32 - i,
    {
        let hi = hex_value(t[2 + 2 * i]);
        let lo = hex_value(t[3 + 2 * i]);
        match (hi, lo) {
            (Some(h), Some(l)) => {
                bytes[i] = h * 16 + l;
                assert forall|k: int| 2 <= k < 2 + 2 * (i + 1) implies hex_val(#[trigger] t@[k]) >= 0 by {
                    if k == 2 + 2 * i || k == 3 + 2 * i {
                    }
                }
            },
            _ => {
                return None;
            },
        }
        i += 1;
    }
    assert(bytes@ =~= token_bytes(t@));
    Some(Hash256 { bytes })
}

proof fn lemma_hashes_push(parts: Seq<Seq<char>>, p: Seq<char>)
    ensures
        parsed_hashes(parts.push(p)) == match parse_hash_token(p) {
            Some(b) => parsed_hashes(parts).insert(b),
            None => parsed_hashes(parts),
        },
        all_hashes(parts.push(p)) == (all_hashes(parts) && parse_hash_token(p).is_some()),
{
    let q = parts.push(p);
    let expected = match parse_hash_token(p) {
        Some(b) => parsed_hashes(parts).insert(b),
        None => parsed_hashes(parts),
    };
    assert forall|b: Seq<u8>| parsed_hashes(q).contains(b) <==> expected.contains(b) by {
        if parsed_hashes(parts).contains(b) {
            let j = choose|j: int| 0 <= j < parts.len() && parse_hash_token(parts[j]) == Some(b);
            assert(q[j] == parts[j]);
        }
        if parsed_hashes(q).contains(b) {
            let j = choose|j: int| 0 <= j < q.len() && parse_hash_token(q[j]) == Some(b);
            if j < parts.len() {
                assert(q[j] == parts[j]);
            }
        }
        if parse_hash_token(p) == Some(b) {
            assert(q[parts.len() as int] == p);
        }
    }
    assert(parsed_hashes(q) =~= expected);
    if all_hashes(parts) && parse_hash_token(p).is_some() {
        assert forall|j: int| 0 <= j < q.len() implies (#[trigger] parse_hash_token(q[j])).is_some() by {
            if j < parts.len() {
                assert(q[j] == parts[j]);
            }
        }
    }
    if all_hashes(q) {
        assert(q[parts.len() as int] == p);
        assert forall|j: int| 0 <= j < parts.len() implies (#[trigger] parse_hash_token(parts[j])).is_some() by {
            assert(q[j] == parts[j]);
        }
    }
}

/// Reads a comma-joined hash list back into a filter; fails when a piece is not a hash token.
pub fn decode_hashes(s: &str) -> (r: Option<HashFilter>)
    ensures
        r.is_some() == decode_hashes_spec(s@).is_some(),
        r.is_some() ==> r.unwrap()@ == decode_hashes_spec(s@).unwrap() && r.unwrap().wf(),
{
    let n = s.unicode_len();
    let mut set = HashFilter::new();
    let mut cur: Vec<char> = Vec::new();
    let mut ok = true;
    let ghost mut done: Seq<Seq<char>> = seq![];
    let mut i: usize = 0;
    assert(s@.take(0) =~= Seq::<char>::empty());
    assert(parsed_hashes(done) =~= Set::<Seq<u8>>::empty());
    while i < n
        invariant
            n == s@.len(),
            i <= n,
            split_commas(s@.take(i as int)) == done.push(cur@),
            ok == all_hashes(done),
            set@ == parsed_hashes(done),
            set.wf(),
        decreases n - i,
    {
        let ch = s.get_char(i);
        let ghost prev = s@.take(i as int);
        assert(s@.take(i + 1).drop_last() =~= prev);
        assert(s@.take(i + 1).last() == ch);
        if ch == ',' {
            let p = parse_hash(&cur);
            proof { lemma_hashes_push(done, cur@); }
            match p {
                Some(h) => {
                    set.insert(h);
                },
                None => {
                    ok = false;
                },
            }
            proof { done = done.push(cur@); }
            cur = Vec::new();
            assert(split_commas(s@.take(i + 1)) =~= done.push(cur@));
        } else {
            cur.push(ch);
            assert(split_commas(s@.take(i + 1)) =~= done.push(cur@));
        }
        i += 1;
    }
    assert(s@.take(n as int) =~= s@);
    let p = parse_hash(&cur);
    proof { lemma_hashes_push(done, cur@); }
    match p {
        Some(h) => {
            set.insert(h);
            if ok {
                Some(set)
            } else {
                None
            }
        },
        None => None,
    }
}

/// Encoding a hash filter and decoding the text gives the same set back, and
/// only the empty filter encodes as absent.
pub proof fn lemma_hashes_round_trip(f: HashFilter)
    ensures
        encode_hashes_spec(f.items@).is_none() <==> f@ == Set::<Seq<u8>>::empty(),
        encode_hashes_spec(f.items@).is_some() ==> decode_hashes_spec(
            encode_hashes_spec(f.items@).unwrap(),
        ) == Some(f@),
{
    let s = f.items@;
    if s.len() == 0 {
        assert(hash_bytes(s) =~= Seq::<Seq<u8>>::empty());
        assert(f@ =~= Set::<Seq<u8>>::empty());
    } else {
        assert(f@.contains(hash_bytes(s)[0]));
        let toks = s.map_values(|h: Hash256| hash_token(h.bytes@));
        assert forall|i: int| 0 <= i < toks.len() implies comma_free(#[trigger] toks[i]) by {
            lemma_hash_token(s[i].bytes@);
        }
        assert(all_comma_free(toks));
        lemma_split_join(toks);
        let parts = split_commas(join_commas(toks));
        assert forall|j: int| 0 <= j < parts.len() implies (#[trigger] parse_hash_token(parts[j])).is_some() by {
            lemma_hash_token(s[j].bytes@);
        }
        assert forall|b: Seq<u8>| parsed_hashes(parts).contains(b) <==> f@.contains(b) by {
            if f@.contains(b) {
                let j = choose|j: int| 0 <= j < hash_bytes(s).len() && hash_bytes(s)[j] == b;
                lemma_hash_token(s[j].bytes@);
                assert(parse_hash_token(parts[j]) == Some(b));
            }
            if parsed_hashes(parts).contains(b) {
                let j = choose|j: int| 0 <= j < parts.len() && parse_hash_token(parts[j]) == Some(b);
                lemma_hash_token(s[j].bytes@);
                assert(hash_bytes(s)[j] == b);
            }
        }
        assert(parsed_hashes(parts) =~= f@);
    }
}


/// Two well-formed filters with the same hashes hold the same list, so they
/// are sent as the same text.
pub proof fn lemma_equal_filters(a: HashFilter, b: HashFilter)
    requires
        a.wf(),
        b.wf(),
        a@ == b@,
    ensures
        hash_bytes(a.items@) == hash_bytes(b.items@),
        encode_hashes_spec(a.items@) == encode_hashes_spec(b.items@),
{
    lemma_bytes_lt_total();
    lemma_sorted_unique(hash_bytes(a.items@), hash_bytes(b.items@), bytes_lt());
    let ta = a.items@.map_values(|h: Hash256| hash_token(h.bytes@));
    let tb = b.items@.map_values(|h: Hash256| hash_token(h.bytes@));
    assert(a.items@.len() == hash_bytes(a.items@).len());
    assert(ta =~= tb) by {
        assert forall|i: int| 0 <= i < ta.len() implies ta[i] == tb[i] by {
            assert(hash_bytes(a.items@)[i] == hash_bytes(b.items@)[i]);
        }
    }
}

} // verus!
