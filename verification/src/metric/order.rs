//! The order in which tags are kept: strings by their UTF-8 bytes, as the
//! standard library orders them, and pairs of strings by the first, then
//! the second.

use vstd::prelude::*;
use vstd::utf8::encode_utf8;
use vstd::utf8::encode_utf8_decode_utf8;

verus! {

/// A pair of strings, as the contracts see it.
pub type Pair = (Seq<char>, Seq<char>);

/// How two values stand to each other.
#[derive(Copy, Clone, Debug, PartialEq, Eq, Structural)]
pub enum Order {
    Less,
    Equal,
    Greater,
}

/// Whether `a` comes strictly before `b` in lexicographic order.
pub open spec fn lex_lt(a: Seq<u8>, b: Seq<u8>) -> bool
    decreases a.len(),
{
    if b.len() == 0 {
        false
    } else if a.len() == 0 {
        true
    } else if a[0] != b[0] {
        a[0] < b[0]
    } else {
        lex_lt(a.drop_first(), b.drop_first())
    }
}

/// Whether the string `a` comes strictly before the string `b`.
pub open spec fn str_lt(a: Seq<char>, b: Seq<char>) -> bool {
    lex_lt(encode_utf8(a), encode_utf8(b))
}

/// Whether the pair `p` comes strictly before the pair `q`.
pub open spec fn pair_lt(p: Pair, q: Pair) -> bool {
    str_lt(p.0, q.0) || (p.0 == q.0 && str_lt(p.1, q.1))
}

pub proof fn lemma_lex_irreflexive(a: Seq<u8>)
    ensures
        !lex_lt(a, a),
    decreases a.len(),
{
    if a.len() > 0 {
        lemma_lex_irreflexive(a.drop_first());
    }
}

pub proof fn lemma_lex_asymmetric(a: Seq<u8>, b: Seq<u8>)
    requires
        lex_lt(a, b),
    ensures
        !lex_lt(b, a),
    decreases a.len(),
{
    if a.len() > 0 && b.len() > 0 && a[0] == b[0] {
        lemma_lex_asymmetric(a.drop_first(), b.drop_first());
    }
}

pub proof fn lemma_lex_transitive(a: Seq<u8>, b: Seq<u8>, c: Seq<u8>)
    requires
        lex_lt(a, b),
        lex_lt(b, c),
    ensures
        lex_lt(a, c),
    decreases a.len(),
{
    if a.len() > 0 && b.len() > 0 && c.len() > 0 && a[0] == b[0] && b[0] == c[0] {
        lemma_lex_transitive(a.drop_first(), b.drop_first(), c.drop_first());
    }
}

pub proof fn lemma_lex_total(a: Seq<u8>, b: Seq<u8>)
    ensures
        a == b || lex_lt(a, b) || lex_lt(b, a),
    decreases a.len(),
{
    if a.len() > 0 && b.len() > 0 && a[0] == b[0] {
        lemma_lex_total(a.drop_first(), b.drop_first());
        if a.drop_first() == b.drop_first() {
            assert(a =~= seq![a[0]] + a.drop_first());
            assert(b =~= seq![b[0]] + b.drop_first());
        }
    } else if a.len() == 0 && b.len() == 0 {
        assert(a =~= b);
    }
}

/// Two strings with the same bytes are the same string.
pub proof fn lemma_same_bytes_same_string(a: Seq<char>, b: Seq<char>)
    requires
        encode_utf8(a) == encode_utf8(b),
    ensures
        a == b,
{
    encode_utf8_decode_utf8(a);
    encode_utf8_decode_utf8(b);
}

/// The order of pairs is a strict total order.
pub proof fn lemma_pair_irreflexive(p: Pair)
    ensures
        !pair_lt(p, p),
{
    lemma_lex_irreflexive(encode_utf8(p.0));
    lemma_lex_irreflexive(encode_utf8(p.1));
}

pub proof fn lemma_pair_asymmetric(p: Pair, q: Pair)
    requires
        pair_lt(p, q),
    ensures
        !pair_lt(q, p),
        p != q,
{
    lemma_lex_irreflexive(encode_utf8(p.0));
    lemma_lex_irreflexive(encode_utf8(p.1));
    if str_lt(p.0, q.0) {
        lemma_lex_asymmetric(encode_utf8(p.0), encode_utf8(q.0));
    } else {
        lemma_lex_asymmetric(encode_utf8(p.1), encode_utf8(q.1));
    }
}

pub proof fn lemma_pair_transitive(p: Pair, q: Pair, r: Pair)
    requires
        pair_lt(p, q),
        pair_lt(q, r),
    ensures
        pair_lt(p, r),
{
    if str_lt(p.0, q.0) && str_lt(q.0, r.0) {
        lemma_lex_transitive(encode_utf8(p.0), encode_utf8(q.0), encode_utf8(r.0));
    } else if p.0 == q.0 && q.0 == r.0 {
        lemma_lex_transitive(encode_utf8(p.1), encode_utf8(q.1), encode_utf8(r.1));
    }
}

pub proof fn lemma_pair_total(p: Pair, q: Pair)
    ensures
        p == q || pair_lt(p, q) || pair_lt(q, p),
{
    lemma_lex_total(encode_utf8(p.0), encode_utf8(q.0));
    lemma_lex_total(encode_utf8(p.1), encode_utf8(q.1));
    if encode_utf8(p.0) == encode_utf8(q.0) {
        lemma_same_bytes_same_string(p.0, q.0);
        if encode_utf8(p.1) == encode_utf8(q.1) {
            lemma_same_bytes_same_string(p.1, q.1);
        }
    }
}

/// Skipping a common first byte does not change the order of what is left.
proof fn lemma_lex_step(a: Seq<u8>, b: Seq<u8>, i: int)
    requires
        0 <= i < a.len(),
        i < b.len(),
        a[i] == b[i],
    ensures
        lex_lt(a.skip(i), b.skip(i)) == lex_lt(a.skip(i + 1), b.skip(i + 1)),
{
    assert(a.skip(i).drop_first() =~= a.skip(i + 1));
    assert(b.skip(i).drop_first() =~= b.skip(i + 1));
}

/// Compares two byte strings lexicographically.
pub fn bytes_order(a: &[u8], b: &[u8]) -> (o: Order)
    ensures
        o == Order::Less <==> lex_lt(a@, b@),
        o == Order::Equal <==> a@ == b@,
        o == Order::Greater <==> lex_lt(b@, a@),
{
    let mut i: usize = 0;
    proof {
        assert(a@.skip(0) =~= a@);
        assert(b@.skip(0) =~= b@);
    }
    while i < a.len() && i < b.len()
        invariant
            i <= a@.len(),
            i <= b@.len(),
            forall|j: int| 0 <= j < i ==> a@[j] == b@[j],
            lex_lt(a@, b@) == lex_lt(a@.skip(i as int), b@.skip(i as int)),
            lex_lt(b@, a@) == lex_lt(b@.skip(i as int), a@.skip(i as int)),
        decreases a@.len() - i,
    {
        if a[i] < b[i] {
            proof {
                lemma_lex_asymmetric(a@.skip(i as int), b@.skip(i as int));
            }
            return Order::Less;
        }
        if a[i] > b[i] {
            proof {
                lemma_lex_asymmetric(b@.skip(i as int), a@.skip(i as int));
            }
            return Order::Greater;
        }
        proof {
            lemma_lex_step(a@, b@, i as int);
            lemma_lex_step(b@, a@, i as int);
        }
        i = i + 1;
    }
    if i < b.len() {
        proof {
            lemma_lex_asymmetric(a@.skip(i as int), b@.skip(i as int));
        }
        Order::Less
    } else if i < a.len() {
        proof {
            lemma_lex_asymmetric(b@.skip(i as int), a@.skip(i as int));
        }
        Order::Greater
    } else {
        proof {
            assert(a@ =~= b@);
            lemma_lex_irreflexive(a@);
        }
        Order::Equal
    }
}

/// Compares two strings by their bytes.
pub fn str_order(a: &str, b: &str) -> (o: Order)
    ensures
        o == Order::Less <==> str_lt(a@, b@),
        o == Order::Equal <==> a@ == b@,
        o == Order::Greater <==> str_lt(b@, a@),
{
    let o = bytes_order(a.as_bytes(), b.as_bytes());
    proof {
        if encode_utf8(a@) == encode_utf8(b@) {
            lemma_same_bytes_same_string(a@, b@);
        }
    }
    o
}

/// Compares two pairs of strings: by the first, then by the second.
pub fn pair_order(a0: &str, a1: &str, b0: &str, b1: &str) -> (o: Order)
    ensures
        o == Order::Less <==> pair_lt((a0@, a1@), (b0@, b1@)),
        o == Order::Equal <==> (a0@, a1@) == (b0@, b1@),
        o == Order::Greater <==> pair_lt((b0@, b1@), (a0@, a1@)),
{
    proof {
        lemma_pair_total((a0@, a1@), (b0@, b1@));
        if pair_lt((a0@, a1@), (b0@, b1@)) {
            lemma_pair_asymmetric((a0@, a1@), (b0@, b1@));
        }
        if pair_lt((b0@, b1@), (a0@, a1@)) {
            lemma_pair_asymmetric((b0@, b1@), (a0@, a1@));
        }
        lemma_pair_irreflexive((a0@, a1@));
    }
    match str_order(a0, b0) {
        Order::Less => Order::Less,
        Order::Greater => Order::Greater,
        Order::Equal => str_order(a1, b1),
    }
}

} // verus!
