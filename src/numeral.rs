use vstd::prelude::*;
use crate::error::ConversionError;

verus! {

/// The most symbols an alphabet may have: the magnitude of each one must fit in a `u128`.
pub const MAX_SYMBOLS: usize = 77;

/// `10^e`.
pub open spec fn pow10(e: nat) -> nat
    decreases e,
{
    if e == 0 {
        1
    } else {
        10 * pow10((e - 1) as nat)
    }
}

/// The largest power of ten that a `u128` holds.
pub proof fn lemma_pow10_max()
    ensures
        pow10(38) == 100_000_000_000_000_000_000_000_000_000_000_000_000int,
        pow10(38) <= u128::MAX,
        5 * pow10(37) <= u128::MAX,
        pow10(39) > u128::MAX,
{
    reveal_with_fuel(pow10, 40);
}

/// Powers of ten grow with the exponent.
pub proof fn lemma_pow10_monotone(a: nat, b: nat)
    requires
        a <= b,
    ensures
        1 <= pow10(a) <= pow10(b),
        a < b ==> 10 * pow10(a) <= pow10(b),
    decreases b,
{
    if b > 0 {
        lemma_pow10_monotone(if a < b { a } else { (b - 1) as nat }, (b - 1) as nat);
    }
}

/// The magnitude of the symbol at position `i` of an alphabet: positions come in pairs,
/// and pair `g` holds `10^g` and `5 * 10^g`.
pub open spec fn magnitude_at(i: nat) -> int {
    if i % 2 == 0 {
        pow10(i / 2) as int
    } else {
        5 * pow10(i / 2) as int
    }
}

/// Symbol to magnitude, built in alphabet order: a repeated symbol keeps its last magnitude.
pub open spec fn symbol_table(alphabet: Seq<char>) -> Map<char, int>
    decreases alphabet.len(),
{
    if alphabet.len() == 0 {
        Map::empty()
    } else {
        let n = (alphabet.len() - 1) as nat;
        symbol_table(alphabet.take(n as int)).insert(alphabet[n as int], magnitude_at(n))
    }
}

/// Magnitude to symbol, built in alphabet order.
pub open spec fn magnitude_table(alphabet: Seq<char>) -> Map<int, char>
    decreases alphabet.len(),
{
    if alphabet.len() == 0 {
        Map::empty()
    } else {
        let n = (alphabet.len() - 1) as nat;
        magnitude_table(alphabet.take(n as int)).insert(magnitude_at(n), alphabet[n as int])
    }
}

/// Whether the symbol at `i` of `s` counts negatively: the symbol after it is worth
/// five or ten times as much.
pub open spec fn is_subtracted(table: Map<char, int>, s: Seq<char>, i: int) -> bool {
    &&& i + 1 < s.len()
    &&& table.contains_key(s[i + 1])
    &&& (table[s[i + 1]] == 5 * table[s[i]] || table[s[i + 1]] == 10 * table[s[i]])
}

/// Decodes `s` from position `i` on, with running total `total`, where every running
/// total must stay within `lo..=hi` and every symbol's magnitude within `..=hi`.
pub open spec fn decode_from(
    table: Map<char, int>,
    s: Seq<char>,
    i: nat,
    total: int,
    lo: int,
    hi: int,
) -> Result<int, ConversionError>
    decreases s.len() - i,
{
    if i >= s.len() {
        Ok(total)
    } else if !table.contains_key(s[i as int]) {
        Err(ConversionError::InvalidCharacter(s[i as int]))
    } else if table[s[i as int]] > hi {
        Err(ConversionError::GenericConversion)
    } else {
        let next = if is_subtracted(table, s, i as int) {
            total - table[s[i as int]]
        } else {
            total + table[s[i as int]]
        };
        if next < lo || next > hi {
            Err(ConversionError::Overflow)
        } else {
            decode_from(table, s, i + 1, next, lo, hi)
        }
    }
}

/// The value of the numeral `s` under `table`, read into an integer type with range `lo..=hi`.
pub open spec fn decode_numeral(table: Map<char, int>, s: Seq<char>, lo: int, hi: int) -> Result<int, ConversionError> {
    decode_from(table, s, 0, 0, lo, hi)
}

/// `m` is present in `table`, or the error that names it as missing.
pub open spec fn require_magnitude(table: Map<int, char>, m: int) -> Result<char, ConversionError> {
    if table.contains_key(m) {
        Ok(table[m])
    } else {
        Err(ConversionError::MissingMagnitude(m as u128))
    }
}

/// `k` copies of `c`.
pub open spec fn repeated(c: char, k: nat) -> Seq<char> {
    Seq::new(k, |_i: int| c)
}

/// The symbols of decimal digit `d` at scale `10^p`, most significant first. The symbols of
/// magnitude `10^p`, `5 * 10^p` and `10^(p+1)` are looked up only where the digit needs them,
/// and a missing one is reported in the order shown.
pub open spec fn digit_symbols(table: Map<int, char>, d: int, p: nat) -> Result<Seq<char>, ConversionError> {
    let one = pow10(p) as int;
    let five = 5 * one;
    let ten = 10 * one;
    if d <= 0 {
        Ok(Seq::empty())
    } else if d <= 3 {
        match require_magnitude(table, one) {
            Ok(u) => Ok(repeated(u, d as nat)),
            Err(e) => Err(e),
        }
    } else if d == 4 {
        match (require_magnitude(table, five), require_magnitude(table, one)) {
            (Err(e), _) => Err(e),
            (_, Err(e)) => Err(e),
            (Ok(f), Ok(u)) => Ok(seq![u, f]),
        }
    } else if d == 5 {
        match require_magnitude(table, five) {
            Ok(f) => Ok(seq![f]),
            Err(e) => Err(e),
        }
    } else if d <= 8 {
        match (require_magnitude(table, one), require_magnitude(table, five)) {
            (Err(e), _) => Err(e),
            (_, Err(e)) => Err(e),
            (Ok(u), Ok(f)) => Ok(seq![f] + repeated(u, (d - 5) as nat)),
        }
    } else {
        match (require_magnitude(table, ten), require_magnitude(table, one)) {
            (Err(e), _) => Err(e),
            (_, Err(e)) => Err(e),
            (Ok(t), Ok(u)) => Ok(seq![u, t]),
        }
    }
}

/// The numeral of `n * 10^p`, taken digit by digit from the least significant one, so that
/// the first missing magnitude met in that order is the one reported.
pub open spec fn encode_from(table: Map<int, char>, n: nat, p: nat) -> Result<Seq<char>, ConversionError>
    decreases n,
{
    if n == 0 {
        Ok(Seq::empty())
    } else {
        match digit_symbols(table, (n % 10) as int, p) {
            Err(e) => Err(e),
            Ok(low) => match encode_from(table, n / 10, p + 1) {
                Err(e) => Err(e),
                Ok(high) => Ok(high + low),
            },
        }
    }
}

/// The numeral of `n` under `table`; a negative `n` has none.
pub open spec fn encode_numeral(table: Map<int, char>, n: int) -> Result<Seq<char>, ConversionError> {
    if n < 0 {
        Err(ConversionError::NegativeNumber)
    } else {
        encode_from(table, n as nat, 0)
    }
}

} // verus!
