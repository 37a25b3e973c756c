use vstd::prelude::*;
use crate::error::ConversionError;
use crate::roman::Roman;
use crate::numeral::{
    decode_from, decode_numeral, digit_symbols, encode_from, encode_numeral, is_subtracted,
    lemma_pow10_monotone, magnitude_at, magnitude_table, pow10, repeated, symbol_table,
};

verus! {

/// The most significant decimal digit of `n`.
pub open spec fn leading_digit(n: nat) -> nat
    decreases n,
{
    if n < 10 {
        n
    } else {
        leading_digit(n / 10)
    }
}

/// The scale of the most significant decimal digit of `n`.
pub open spec fn leading_scale(n: nat) -> nat
    decreases n,
{
    if n < 10 {
        1
    } else {
        10 * leading_scale(n / 10)
    }
}

/// Looking a magnitude's symbol up again gives back the magnitude.
pub open spec fn tables_agree(symbols: Map<char, int>, magnitudes: Map<int, char>) -> bool {
    forall|m: int| #[trigger] magnitudes.contains_key(m) ==> {
        &&& symbols.contains_key(magnitudes[m])
        &&& symbols[magnitudes[m]] == m
    }
}

/// With distinct symbols, the symbol of each magnitude has that magnitude.
pub proof fn lemma_tables_agree(alphabet: Seq<char>)
    requires
        alphabet.no_duplicates(),
    ensures
        tables_agree(symbol_table(alphabet), magnitude_table(alphabet)),
        forall|m: int| #[trigger] magnitude_table(alphabet).contains_key(m)
            ==> alphabet.contains(magnitude_table(alphabet)[m]),
    decreases alphabet.len(),
{
    if alphabet.len() > 0 {
        let n = (alphabet.len() - 1) as nat;
        let prefix = alphabet.take(n as int);
        let c = alphabet[n as int];
        assert(prefix.no_duplicates()) by {
            assert forall|i: int, j: int| 0 <= i < prefix.len() && 0 <= j < prefix.len() && i != j
                implies prefix[i] != prefix[j] by {
                assert(prefix[i] == alphabet[i] && prefix[j] == alphabet[j]);
            }
        }
        lemma_tables_agree(prefix);
        assert forall|m: int| #[trigger] magnitude_table(alphabet).contains_key(m) implies {
            &&& symbol_table(alphabet).contains_key(magnitude_table(alphabet)[m])
            &&& symbol_table(alphabet)[magnitude_table(alphabet)[m]] == m
            &&& alphabet.contains(magnitude_table(alphabet)[m])
        } by {
            if m != magnitude_at(n) {
                let s = magnitude_table(prefix)[m];
                assert(magnitude_table(prefix).contains_key(m));
                assert(prefix.contains(s));
                let k = choose|k: int| 0 <= k < prefix.len() && prefix[k] == s;
                assert(alphabet[k] == s);
                assert(s != c);
            }
        }
    }
}

/// A run of `k` equal symbols of magnitude `u`, followed by nothing worth `u` or more,
/// adds `k * u` to the total.
proof fn lemma_decode_run(
    symbols: Map<char, int>,
    w: Seq<char>,
    i: nat,
    k: nat,
    c: char,
    u: int,
    total: int,
    lo: int,
    hi: int,
)
    requires
        i + k <= w.len(),
        forall|t: int| i <= t < i + k ==> w[t] == c,
        symbols.contains_key(c),
        symbols[c] == u,
        1 <= u <= hi,
        i + k < w.len() && symbols.contains_key(w[(i + k) as int]) ==> symbols[w[(i + k) as int]] < u,
        lo <= total,
        total + k * u <= hi,
    ensures
        decode_from(symbols, w, i, total, lo, hi) == decode_from(symbols, w, i + k, total + k * u, lo, hi),
    decreases k,
{
    if k > 0 {
        assert(!is_subtracted(symbols, w, i as int));
        assert((k - 1) * u + u == k * u) by (nonlinear_arith);
        assert(0 <= (k - 1) * u) by (nonlinear_arith)
            requires
                k >= 1,
                u >= 1,
        ;
        assert(w[i as int] == c);
        assert(decode_from(symbols, w, i, total, lo, hi) == decode_from(symbols, w, i + 1, total + u, lo, hi));
        lemma_decode_run(symbols, w, i + 1, (k - 1) as nat, c, u, total + u, lo, hi);
        assert(i + 1 + (k - 1) == i + k);
        assert(total + u + (k - 1) * u == total + k * u);
    } else {
        assert(k * u == 0) by (nonlinear_arith)
            requires
                k == 0,
        ;
    }
}

/// The symbols of one nonzero digit at scale `10^p`, followed by nothing worth `10^p` or
/// more, add the digit's value to the total.
proof fn lemma_decode_digit(
    symbols: Map<char, int>,
    magnitudes: Map<int, char>,
    d: int,
    p: nat,
    w: Seq<char>,
    j: nat,
    total: int,
    lo: int,
    hi: int,
)
    requires
        tables_agree(symbols, magnitudes),
        1 <= d <= 9,
        digit_symbols(magnitudes, d, p) is Ok,
        j + digit_symbols(magnitudes, d, p)->Ok_0.len() <= w.len(),
        w.subrange(j as int, (j + digit_symbols(magnitudes, d, p)->Ok_0.len()) as int)
            == digit_symbols(magnitudes, d, p)->Ok_0,
        ({
            let e = j + digit_symbols(magnitudes, d, p)->Ok_0.len();
            e < w.len() && symbols.contains_key(w[e as int]) ==> symbols[w[e as int]] < pow10(p)
        }),
        lo <= total,
        d == 4 || d == 9 ==> lo <= total - pow10(p),
        total + d * pow10(p) <= hi,
        forall|t: int| 0 <= t < digit_symbols(magnitudes, d, p)->Ok_0.len()
            ==> symbols[#[trigger] digit_symbols(magnitudes, d, p)->Ok_0[t]] <= hi,
    ensures
        decode_from(symbols, w, j, total, lo, hi) == decode_from(
            symbols,
            w,
            j + digit_symbols(magnitudes, d, p)->Ok_0.len(),
            total + d * pow10(p),
            lo,
            hi,
        ),
{
    let ds = digit_symbols(magnitudes, d, p)->Ok_0;
    let one = pow10(p) as int;
    lemma_pow10_monotone(0, p);
    assert forall|t: int| 0 <= t < ds.len() implies w[j + t] == ds[t] by {
        assert(w.subrange(j as int, (j + ds.len()) as int)[t] == w[j + t]);
    }
    assert(0 <= d * one) by (nonlinear_arith)
        requires
            d >= 1,
            one >= 1,
    ;
    if d <= 3 {
        let u = magnitudes[one];
        assert(ds == repeated(u, d as nat));
        assert(ds[0] == u && symbols[ds[0]] <= hi);
        assert forall|t: int| j <= t < j + d implies w[t] == u by {
            assert(w[j + (t - j)] == ds[t - j]);
        }
        lemma_decode_run(symbols, w, j, d as nat, u, one, total, lo, hi);
    } else if d == 4 {
        let u = magnitudes[one];
        let f = magnitudes[5 * one];
        assert(symbols[ds[0]] <= hi && symbols[ds[1]] <= hi);
        assert(w[j as int] == u && w[(j + 1) as int] == f);
        assert(is_subtracted(symbols, w, j as int));
        assert(!is_subtracted(symbols, w, (j + 1) as int));
        assert(decode_from(symbols, w, j + 1, total - one, lo, hi) == decode_from(
            symbols,
            w,
            j + 2,
            total + 4 * one,
            lo,
            hi,
        ));
    } else if d == 5 {
        let f = magnitudes[5 * one];
        assert(magnitudes.contains_key(5 * one));
        assert(symbols[ds[0]] <= hi);
        assert(w[j + 0int] == ds[0]);
        assert(w[j as int] == f);
        assert(!is_subtracted(symbols, w, j as int));
    } else if d <= 8 {
        let u = magnitudes[one];
        let f = magnitudes[5 * one];
        assert(ds[0] == f);
        assert(w[j + 0int] == ds[0]);
        assert(w[j as int] == f);
        assert(magnitudes.contains_key(one) && magnitudes.contains_key(5 * one));
        assert(symbols[u] == one && symbols[f] == 5 * one);
        assert(symbols[ds[0]] <= hi && symbols[ds[1]] <= hi);
        if d >= 6 {
            assert(w[j + 1int] == ds[1]);
        }
        assert(!is_subtracted(symbols, w, j as int));
        assert forall|t: int| j + 1 <= t < j + 1 + (d - 5) implies w[t] == u by {
            assert(w[j + (t - j)] == ds[t - j]);
            assert(ds[t - j] == u);
        }
        assert((d - 5) * one + 5 * one == d * one) by (nonlinear_arith);
        lemma_decode_run(symbols, w, j + 1, (d - 5) as nat, u, one, total + 5 * one, lo, hi);
    } else {
        let u = magnitudes[one];
        let t = magnitudes[10 * one];
        assert(symbols[ds[0]] <= hi && symbols[ds[1]] <= hi);
        assert(w[j as int] == u && w[(j + 1) as int] == t);
        assert(is_subtracted(symbols, w, j as int));
        assert(!is_subtracted(symbols, w, (j + 1) as int));
        assert(decode_from(symbols, w, j + 1, total - one, lo, hi) == decode_from(
            symbols,
            w,
            j + 2,
            total + 9 * one,
            lo,
            hi,
        ));
    }
}

/// The numeral of `n * 10^p`, followed by nothing worth `10^p` or more, adds `n * 10^p` to
/// the total.
proof fn lemma_decode_encoded(
    symbols: Map<char, int>,
    magnitudes: Map<int, char>,
    n: nat,
    p: nat,
    w: Seq<char>,
    j: nat,
    total: int,
    lo: int,
    hi: int,
)
    requires
        tables_agree(symbols, magnitudes),
        encode_from(magnitudes, n, p) is Ok,
        j + encode_from(magnitudes, n, p)->Ok_0.len() <= w.len(),
        w.subrange(j as int, (j + encode_from(magnitudes, n, p)->Ok_0.len()) as int)
            == encode_from(magnitudes, n, p)->Ok_0,
        ({
            let e = j + encode_from(magnitudes, n, p)->Ok_0.len();
            e < w.len() && symbols.contains_key(w[e as int]) ==> symbols[w[e as int]] < pow10(p)
        }),
        lo <= total,
        leading_digit(n) == 4 || leading_digit(n) == 9 ==> lo <= total - leading_scale(n) * pow10(p),
        total + n * pow10(p) <= hi,
        forall|t: int| 0 <= t < encode_from(magnitudes, n, p)->Ok_0.len()
            ==> symbols[#[trigger] encode_from(magnitudes, n, p)->Ok_0[t]] <= hi,
    ensures
        decode_from(symbols, w, j, total, lo, hi) == decode_from(
            symbols,
            w,
            j + encode_from(magnitudes, n, p)->Ok_0.len(),
            total + n * pow10(p),
            lo,
            hi,
        ),
    decreases n,
{
    let x = pow10(p) as int;
    lemma_pow10_monotone(0, p);
    if n == 0 {
        assert(n * x == 0) by (nonlinear_arith)
            requires
                n == 0,
        ;
    } else {
        let s = encode_from(magnitudes, n, p)->Ok_0;
        let q = n / 10;
        let d = n % 10;
        let ds = digit_symbols(magnitudes, d as int, p)->Ok_0;
        let high = encode_from(magnitudes, q, p + 1)->Ok_0;
        assert(s == high + ds);
        assert(pow10(p + 1) == 10 * x);
        assert(q * (10 * x) + d * x == n * x && 0 <= q * (10 * x) && q * (10 * x) <= n * x && x <= n * x
            && 10 * q * (10 * x) <= 10 * n * x && n * x <= 10 * n * x && 0 <= d * x && 0 <= n * x
            && 10 * x <= 10 * n * x && (d == 0 ==> d * x == 0))
            by (nonlinear_arith)
            requires
                n == 10 * q + d,
                0 <= d,
                0 <= q,
                1 <= n,
                1 <= x,
        ;
        let e1 = j + high.len();
        assert(w.subrange(j as int, e1 as int) =~= high) by {
            assert forall|t: int| 0 <= t < high.len() implies w[j + t] == high[t] by {
                assert(w.subrange(j as int, (j + s.len()) as int)[t] == s[t]);
            }
        }
        assert forall|t: int| 0 <= t < ds.len() implies w[e1 + t] == ds[t] by {
            assert(w.subrange(j as int, (j + s.len()) as int)[high.len() + t] == s[high.len() + t]);
        }
        if d > 0 {
            assert(w.subrange(e1 as int, (e1 + ds.len()) as int) =~= ds);
            let first = ds[0];
            assert(w[e1 + 0int] == first);
            assert(symbols.contains_key(first) && symbols[first] < 10 * x) by {
                if d <= 4 || d == 9 {
                    assert(magnitudes.contains_key(x));
                    assert(first == magnitudes[x]);
                } else {
                    assert(magnitudes.contains_key(5 * x));
                    assert(first == magnitudes[5 * x]);
                }
            }
        }
        if q > 0 {
            assert(leading_digit(n) == leading_digit(q));
            assert(leading_scale(n) == 10 * leading_scale(q));
            assert(leading_scale(q) * (10 * x) == leading_scale(n) * x) by (nonlinear_arith)
                requires
                    leading_scale(n) == 10 * leading_scale(q),
            ;
            assert(q * (10 * x) >= 10 * x) by (nonlinear_arith)
                requires
                    q >= 1,
                    x >= 1,
            ;
        } else {
            assert(leading_digit(q) == 0);
            assert(n == d && leading_digit(n) == d && leading_scale(n) == 1);
            assert(q * (10 * x) == 0) by (nonlinear_arith)
                requires
                    q == 0,
            ;
        }
        assert forall|t: int| 0 <= t < high.len() implies symbols[#[trigger] high[t]] <= hi by {
            assert(s[t] == high[t]);
        }
        assert forall|t: int| 0 <= t < ds.len() implies symbols[#[trigger] ds[t]] <= hi by {
            assert(s[high.len() + t] == ds[t]);
        }
        lemma_decode_encoded(symbols, magnitudes, q, p + 1, w, j, total, lo, hi);
        assert(q * pow10(p + 1) == q * (10 * x));
        if d > 0 {
            lemma_decode_digit(symbols, magnitudes, d as int, p, w, e1, total + q * (10 * x), lo, hi);
        } else {
            assert(ds.len() == 0);
        }
    }
}

/// Round trip: over an alphabet of distinct symbols, the numeral of any `n` that the
/// alphabet can write reads back as `n`, into any integer range `lo..=hi` that holds `n`
/// and the magnitude of each symbol written, and, where the numeral opens with a
/// subtracted symbol, that symbol's negated magnitude too.
pub proof fn lemma_round_trip(alphabet: Seq<char>, n: nat, lo: int, hi: int)
    requires
        alphabet.no_duplicates(),
        encode_numeral(magnitude_table(alphabet), n as int) is Ok,
        lo <= 0,
        n <= hi,
        forall|k: int| 0 <= k < encode_numeral(magnitude_table(alphabet), n as int)->Ok_0.len()
            ==> symbol_table(alphabet)[#[trigger] encode_numeral(magnitude_table(alphabet), n as int)->Ok_0[k]] <= hi,
        leading_digit(n) == 4 || leading_digit(n) == 9 ==> lo <= -leading_scale(n),
    ensures
        decode_numeral(
            symbol_table(alphabet),
            encode_numeral(magnitude_table(alphabet), n as int)->Ok_0,
            lo,
            hi,
        ) == Ok::<int, ConversionError>(n as int),
{
    let symbols = symbol_table(alphabet);
    let magnitudes = magnitude_table(alphabet);
    let s = encode_from(magnitudes, n, 0);
    lemma_tables_agree(alphabet);
    assert(pow10(0) == 1);
    assert(leading_scale(n) * 1 == leading_scale(n) && n * 1 == n);
    assert(s->Ok_0.subrange(0, s->Ok_0.len() as int) =~= s->Ok_0);
    lemma_decode_encoded(symbols, magnitudes, n, 0, s->Ok_0, 0, 0, lo, hi);
}

/// Building a codec twice from one alphabet gives two codecs that write every number and
/// read every numeral alike.
pub proof fn lemma_construction_deterministic(first: Roman, second: Roman, alphabet: Seq<char>)
    requires
        first.symbol_magnitudes() == symbol_table(alphabet),
        first.magnitude_symbols() == magnitude_table(alphabet),
        second.symbol_magnitudes() == symbol_table(alphabet),
        second.magnitude_symbols() == magnitude_table(alphabet),
    ensures
        forall|n: int| #[trigger] encode_numeral(first.magnitude_symbols(), n)
            == encode_numeral(second.magnitude_symbols(), n),
        forall|s: Seq<char>, lo: int, hi: int| #[trigger] decode_numeral(first.symbol_magnitudes(), s, lo, hi)
            == decode_numeral(second.symbol_magnitudes(), s, lo, hi),
{
}

} // verus!
