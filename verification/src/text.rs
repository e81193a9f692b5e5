//! Character-sequence order and prefix relations shared by the indexes.
use vstd::prelude::*;

verus! {

/// Lexicographic order on character sequences, by Unicode scalar value.
/// UTF-8 encodes scalar values order-preservingly, so this is also the
/// byte order of the encoded strings.
pub open spec fn lex_lt(a: Seq<char>, b: Seq<char>) -> bool
    decreases a.len(),
{
    if b.len() == 0 {
        false
    } else if a.len() == 0 {
        true
    } else if a[0] != b[0] {
        (a[0] as u32) < (b[0] as u32)
    } else {
        lex_lt(a.skip(1), b.skip(1))
    }
}

/// `p` is a literal prefix of `s`.
pub open spec fn is_prefix_of(p: Seq<char>, s: Seq<char>) -> bool {
    p.len() <= s.len() && s.take(p.len() as int) == p
}

/// The predicate "has `p` as a prefix", as one named function value, so that
/// every statement about a prefix search filters by the same term.
pub open spec fn prefix_pred(p: Seq<char>) -> spec_fn(Seq<char>) -> bool {
    |k: Seq<char>| is_prefix_of(p, k)
}

/// The same predicate on a (key, value) pair, by its key.
pub open spec fn pair_prefix_pred(p: Seq<char>) -> spec_fn((Seq<char>, u64)) -> bool {
    |kv: (Seq<char>, u64)| is_prefix_of(p, kv.0)
}

/// The same predicate on a (shortcode, symbol-text) entry, by its shortcode.
pub open spec fn entry_prefix_pred(p: Seq<char>) -> spec_fn((Seq<char>, Seq<char>)) -> bool {
    |e: (Seq<char>, Seq<char>)| is_prefix_of(p, e.0)
}

/// Keys in strictly ascending lexicographic order (and therefore distinct).
pub open spec fn strictly_sorted(keys: Seq<Seq<char>>) -> bool {
    forall|i: int| 0 <= i < keys.len() - 1 ==> lex_lt(keys[i], #[trigger] keys[i + 1])
}

/// A character's scalar value fits in 32 bits, so the cast to `u32` keeps
/// its value.
pub proof fn lemma_char_u32_int(c: char)
    ensures
        c as u32 as int == c as int,
{
}

/// Distinct characters have distinct scalar values.
pub proof fn lemma_char_cast_injective(c: char, d: char)
    requires
        (c as u32) == (d as u32),
    ensures
        c == d,
{
    assert(c as u32 as int == c as int);
    assert(d as u32 as int == d as int);
    assert(c as int == d as int);
}

/// The order is asymmetric: at most one direction holds.
pub proof fn lemma_lex_asym(a: Seq<char>, b: Seq<char>)
    requires
        lex_lt(a, b),
    ensures
        !lex_lt(b, a),
    decreases a.len(),
{
    if b.len() == 0 {
    } else if a.len() == 0 {
    } else if a[0] != b[0] {
    } else {
        lemma_lex_asym(a.skip(1), b.skip(1));
    }
}

/// The order is connected: incomparable sequences are equal.
pub proof fn lemma_lex_connected(a: Seq<char>, b: Seq<char>)
    requires
        !lex_lt(a, b),
        !lex_lt(b, a),
    ensures
        a == b,
    decreases a.len(),
{
    if b.len() == 0 {
        assert(a.len() == 0);
        assert(a =~= b);
    } else if a.len() == 0 {
        assert(lex_lt(a, b));
        assert(false);
    } else if a[0] != b[0] {
        assert((a[0] as u32) == (b[0] as u32));
        lemma_char_cast_injective(a[0], b[0]);
    } else {
        lemma_lex_connected(a.skip(1), b.skip(1));
        assert(a.skip(1).len() == a.len() - 1);
        assert(b.skip(1).len() == b.len() - 1);
        assert(a.len() == b.len());
        assert forall|j: int| 0 <= j < a.len() implies a[j] == b[j] by {
            if j > 0 {
                assert(a.skip(1)[j - 1] == b.skip(1)[j - 1]);
            }
        }
        assert(a =~= b);
    }
}

/// The order is transitive.
pub proof fn lemma_lex_trans(a: Seq<char>, b: Seq<char>, c: Seq<char>)
    requires
        lex_lt(a, b),
        lex_lt(b, c),
    ensures
        lex_lt(a, c),
    decreases a.len(),
{
    if a.len() == 0 {
    } else if b.len() == 0 {
    } else if c.len() == 0 {
    } else if a[0] == b[0] && b[0] == c[0] {
        lemma_lex_trans(a.skip(1), b.skip(1), c.skip(1));
    }
}

/// In a strictly sorted sequence of keys, earlier keys are below later ones.
pub proof fn lemma_sorted_pairwise(keys: Seq<Seq<char>>, i: int, j: int)
    requires
        strictly_sorted(keys),
        0 <= i < j < keys.len(),
    ensures
        lex_lt(keys[i], keys[j]),
    decreases j - i,
{
    if i + 1 == j {
    } else {
        lemma_sorted_pairwise(keys, i, j - 1);
        assert(lex_lt(keys[j - 1], keys[j - 1 + 1]));
        lemma_lex_trans(keys[i], keys[j - 1], keys[j]);
    }
}

/// Two sequences that agree on their first `i` characters compare the same
/// way as their remainders beyond `i`.
proof fn lemma_lex_lt_skip(a: Seq<char>, b: Seq<char>, i: int)
    requires
        0 <= i <= a.len(),
        i <= b.len(),
        a.take(i) == b.take(i),
    ensures
        lex_lt(a, b) == lex_lt(a.skip(i), b.skip(i)),
    decreases i,
{
    if i == 0 {
        assert(a.skip(0) == a);
        assert(b.skip(0) == b);
    } else {
        assert(a.take(i)[0] == a[0]);
        assert(b.take(i)[0] == b[0]);
        assert(a.len() > 0 && b.len() > 0 && a[0] == b[0]);
        assert(a.skip(1).take(i - 1) == b.skip(1).take(i - 1)) by {
            assert forall|j: int| 0 <= j < i - 1 implies #[trigger] a.skip(1)[j] == b.skip(
                1,
            )[j] by {
                assert(a.take(i)[j + 1] == b.take(i)[j + 1]);
                assert(a.skip(1)[j] == a[j + 1]);
                assert(b.skip(1)[j] == b[j + 1]);
                assert(a.take(i)[j + 1] == a[j + 1]);
                assert(b.take(i)[j + 1] == b[j + 1]);
            }
            assert(a.skip(1).take(i - 1) =~= b.skip(1).take(i - 1));
        }
        lemma_lex_lt_skip(a.skip(1), b.skip(1), i - 1);
        assert(a.skip(1).skip(i - 1) == a.skip(i));
        assert(b.skip(1).skip(i - 1) == b.skip(i));
    }
}

/// Whether `a` comes strictly before `b` in the index order.
pub fn str_lt(a: &str, b: &str) -> (r: bool)
    ensures
        r == lex_lt(a@, b@),
{
    let a_len = a.unicode_len();
    let b_len = b.unicode_len();
    let mut i: usize = 0;
    loop
        invariant
            i <= a_len,
            i <= b_len,
            a_len == a@.len(),
            b_len == b@.len(),
            a@.take(i as int) == b@.take(i as int),
        decreases a_len - i,
    {
        proof {
            lemma_lex_lt_skip(a@, b@, i as int);
        }
        if i == b_len {
            assert(b@.skip(i as int).len() == 0);
            return false;
        }
        if i == a_len {
            assert(a@.skip(i as int).len() == 0);
            return true;
        }
        let ca = a.get_char(i);
        let cb = b.get_char(i);
        if ca != cb {
            assert(a@.skip(i as int)[0] == ca && b@.skip(i as int)[0] == cb);
            return (ca as u32) < (cb as u32);
        }
        assert(a@.take(i + 1) =~= b@.take(i + 1)) by {
            assert(forall|j: int|
                0 <= j < i ==> a@.take(i + 1)[j] == #[trigger] a@.take(i as int)[j]);
            assert(forall|j: int|
                0 <= j < i ==> b@.take(i + 1)[j] == #[trigger] b@.take(i as int)[j]);
        }
        i = i + 1;
    }
}

/// Whether an integer is a Unicode scalar value, the values `char` holds.
pub open spec fn is_scalar_value(v: int) -> bool {
    (0 <= v && v < 0xD800) || (0xE000 <= v && v < 0x110000)
}

/// Relies on the standard library's documented behavior: `char::from_u32`
/// returns the character with the given scalar value, and `None` exactly on
/// surrogates and out-of-range values.
pub assume_specification[ char::from_u32 ](v: u32) -> (r: Option<char>)
    ensures
        r is Some <==> is_scalar_value(v as int),
        r matches Some(c) ==> c as u32 == v,
;

/// Collecting characters yields the string of exactly those characters.
/// Relies on the standard library's `FromIterator` for `String`.
#[verifier::external_body]
pub fn string_of(chars: &Vec<char>) -> (r: String)
    ensures
        r@ == chars@,
{
    chars.iter().collect()
}

} // verus!
