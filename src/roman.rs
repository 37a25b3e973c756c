use std::collections::HashMap;
use vstd::prelude::*;
use crate::error::ConversionError;
use crate::integer::NumeralInt;
use crate::numeral::{MAX_SYMBOLS, decode_from, decode_numeral, is_subtracted, digit_symbols, encode_from, encode_numeral, repeated, require_magnitude, magnitude_at, magnitude_table, symbol_table, lemma_pow10_max, lemma_pow10_monotone, pow10};

verus! {

broadcast use vstd::std_specs::hash::group_hash_axioms;

/// Relies on num::pow::pow: exponentiation by squaring, which squares the base only while
/// higher bits of the exponent remain, so no step leaves `u128` when the result fits.
#[verifier::external_body]
fn power_of_ten(exp: usize) -> (r: u128)
    requires
        pow10(exp as nat) <= u128::MAX,
    ensures
        r == pow10(exp as nat),
{
    num::pow::pow(10u128, exp)
}

/// Relies on std's `String: FromIterator<char>`: the string holds the characters in order.
#[verifier::external_body]
fn string_of(chars: Vec<char>) -> (r: String)
    ensures
        r@ == chars@,
{
    String::from_iter(chars)
}

/// Appends `k` copies of `c` to `out`.
fn push_repeated(out: &mut Vec<char>, c: char, k: u128)
    ensures
        final(out)@ == old(out)@ + repeated(c, k as nat),
{
    let mut j: u128 = 0;
    while j < k
        invariant
            j <= k,
            out@ == old(out)@ + repeated(c, j as nat),
        decreases k - j,
    {
        out.push(c);
        j = j + 1;
        assert(out@ =~= old(out)@ + repeated(c, j as nat));
    }
}

/// Reversal turns a concatenation around and undoes itself.
proof fn lemma_reverse_append(a: Seq<char>, b: Seq<char>)
    ensures
        (a + b).reverse() == b.reverse() + a.reverse(),
        a.reverse().reverse() == a,
{
    assert((a + b).reverse() =~= b.reverse() + a.reverse());
    assert(a.reverse().reverse() =~= a);
}

/// The characters of `rev` in the opposite order.
fn reversed(rev: &Vec<char>) -> (r: Vec<char>)
    ensures
        r@ == rev@.reverse(),
{
    let mut out: Vec<char> = Vec::new();
    let mut i: usize = rev.len();
    while i > 0
        invariant
            i <= rev@.len(),
            out@.len() == rev@.len() - i,
            forall|j: int| 0 <= j < out@.len() ==> out@[j] == rev@[rev@.len() - 1 - j],
        decreases i,
    {
        i = i - 1;
        out.push(rev[i]);
    }
    assert(out@ =~= rev@.reverse());
    out
}

/// The characters of `input`, in order.
fn symbols_of(input: &str) -> (r: Vec<char>)
    ensures
        r@ == input@,
{
    let mut symbols: Vec<char> = Vec::new();
    for c in iter: input.chars()
        invariant
            symbols@ == iter.seq().take(iter.index() as int),
    {
        symbols.push(c);
    }
    symbols
}

/// The classical alphabet: I, V, X, L, C, D, M.
pub open spec fn default_alphabet() -> Seq<char> {
    seq!['I', 'V', 'X', 'L', 'C', 'D', 'M']
}

/// A numeral codec over one alphabet of symbols.
#[derive(Debug)]
pub struct Roman {
    /// Magnitude of each symbol, keyed by the symbol's code point.
    character_magnitude_map: HashMap<u32, u128>,
    /// Symbol of each magnitude.
    magnitude_character_map: HashMap<u128, char>,
}

impl Default for Roman {
    /// The classical Roman numerals, whose largest value is 3999.
    fn default() -> (r: Roman)
        ensures
            r.symbol_magnitudes() == symbol_table(default_alphabet()),
            r.magnitude_symbols() == magnitude_table(default_alphabet()),
    {
        let alphabet = ['I', 'V', 'X', 'L', 'C', 'D', 'M'];
        proof {
            assert(alphabet@ =~= default_alphabet());
        }
        Roman::new(&alphabet)
    }
}

impl Roman {
    /// The magnitude of each symbol of the alphabet.
    pub closed spec fn symbol_magnitudes(&self) -> Map<char, int> {
        Map::new(
            |c: char| self.character_magnitude_map@.contains_key(c as u32),
            |c: char| self.character_magnitude_map@[c as u32] as int,
        )
    }

    /// The symbol of each magnitude of the alphabet.
    pub closed spec fn magnitude_symbols(&self) -> Map<int, char> {
        Map::new(
            |m: int| 0 <= m <= u128::MAX && self.magnitude_character_map@.contains_key(m as u128),
            |m: int| self.magnitude_character_map@[m as u128],
        )
    }

    /// Creates a codec whose symbols take their magnitudes from their positions in
    /// `character_set`: 1, 5, 10, 50, 100, 500, 1000, and so on.
    pub fn new(character_set: &[char]) -> (r: Roman)
        requires
            character_set@.len() <= MAX_SYMBOLS,
        ensures
            r.symbol_magnitudes() == symbol_table(character_set@),
            r.magnitude_symbols() == magnitude_table(character_set@),
    {
        let mut character_magnitude_map: HashMap<u32, u128> = HashMap::new();
        let mut magnitude_character_map: HashMap<u128, char> = HashMap::new();
        let mut magnitude: u128 = 1;
        let mut index: usize = 0;
        proof {
            lemma_pow10_max();
            assert(character_set@.take(0) =~= Seq::<char>::empty());
        }
        while index < character_set.len()
            invariant
                index <= character_set@.len() <= MAX_SYMBOLS,
                magnitude == pow10((index / 2) as nat),
                pow10(38) <= u128::MAX,
                5 * pow10(37) <= u128::MAX,
                (Roman { character_magnitude_map, magnitude_character_map }).symbol_magnitudes()
                    == symbol_table(character_set@.take(index as int)),
                (Roman { character_magnitude_map, magnitude_character_map }).magnitude_symbols()
                    == magnitude_table(character_set@.take(index as int)),
            decreases character_set@.len() - index,
        {
            let character = character_set[index];
            proof {
                lemma_pow10_monotone((index / 2) as nat, 38);
                if index % 2 == 1 {
                    lemma_pow10_monotone((index / 2) as nat, 37);
                }
            }
            let value: u128 = if index % 2 == 0 {
                magnitude
            } else {
                5 * magnitude
            };
            let ghost before = Roman { character_magnitude_map, magnitude_character_map };
            character_magnitude_map.insert(character as u32, value);
            magnitude_character_map.insert(value, character);
            proof {
                let after = Roman { character_magnitude_map, magnitude_character_map };
                let prefix = character_set@.take(index + 1);
                assert(prefix.take(index as int) =~= character_set@.take(index as int));
                assert(value == magnitude_at(index as nat));
                assert forall|c: char| #[trigger] after.symbol_magnitudes().contains_key(c)
                    == before.symbol_magnitudes().insert(character, value as int).contains_key(c)
                    && (after.symbol_magnitudes().contains_key(c) ==> after.symbol_magnitudes()[c]
                    == before.symbol_magnitudes().insert(character, value as int)[c]) by {
                    vstd::utf8::char_u32_cast(c, c as u32);
                    vstd::utf8::char_u32_cast(character, character as u32);
                }
                assert(after.symbol_magnitudes() =~= before.symbol_magnitudes().insert(character, value as int));
                assert(after.magnitude_symbols() =~= before.magnitude_symbols().insert(value as int, character));
            }
            if index % 2 == 1 {
                magnitude = magnitude * 10;
            }
            index = index + 1;
        }
        proof {
            assert(character_set@.take(index as int) =~= character_set@);
        }
        Roman { character_magnitude_map, magnitude_character_map }
    }

    /// The magnitude of symbol `c`, if it has one.
    fn magnitude_of(&self, c: char) -> (r: Option<u128>)
        ensures
            match r {
                Some(v) => self.symbol_magnitudes().contains_key(c) && self.symbol_magnitudes()[c] == v,
                None => !self.symbol_magnitudes().contains_key(c),
            },
    {
        match self.character_magnitude_map.get(&(c as u32)) {
            Some(v) => Some(*v),
            None => None,
        }
    }

    /// Reads the numeral `input` into the integer type `T`.
    pub fn from_str<T: NumeralInt>(&self, input: &str) -> (r: Result<T, ConversionError>)
        ensures
            match r {
                Ok(v) => decode_numeral(self.symbol_magnitudes(), input@, T::lowest(), T::highest()) == Ok::<int, ConversionError>(v.value()),
                Err(e) => decode_numeral(self.symbol_magnitudes(), input@, T::lowest(), T::highest()) == Err::<int, ConversionError>(e),
            },
    {
        let symbols = symbols_of(input);
        let ghost table = self.symbol_magnitudes();
        let mut result = T::zero();
        proof {
            result.lemma_range();
        }
        let mut i: usize = 0;
        while i < symbols.len()
            invariant
                symbols@ == input@,
                table == self.symbol_magnitudes(),
                i <= symbols@.len(),
                T::lowest() <= result.value() <= T::highest(),
                decode_numeral(table, input@, T::lowest(), T::highest())
                    == decode_from(table, input@, i as nat, result.value(), T::lowest(), T::highest()),
            decreases symbols@.len() - i,
        {
            let character = symbols[i];
            let value = match self.magnitude_of(character) {
                Some(v) => v,
                None => {
                    return Err(ConversionError::InvalidCharacter(character));
                },
            };
            let generic_value = match T::from_magnitude(value) {
                Some(g) => g,
                None => {
                    return Err(ConversionError::GenericConversion);
                },
            };
            let subtract = if i + 1 < symbols.len() {
                match self.magnitude_of(symbols[i + 1]) {
                    Some(next) => (value <= u128::MAX / 5 && value * 5 == next) || (value
                        <= u128::MAX / 10 && value * 10 == next),
                    None => false,
                }
            } else {
                false
            };
            assert(subtract == is_subtracted(table, input@, i as int));
            let step = if subtract {
                result.checked_minus(generic_value)
            } else {
                result.checked_plus(generic_value)
            };
            match step {
                Some(v) => {
                    proof {
                        v.lemma_range();
                    }
                    result = v;
                },
                None => {
                    return Err(ConversionError::Overflow);
                },
            }
            i = i + 1;
        }
        Ok(result)
    }

    /// The symbol of magnitude `m`, or the error that names it as missing.
    fn required_symbol(&self, m: u128) -> (r: Result<char, ConversionError>)
        ensures
            r == require_magnitude(self.magnitude_symbols(), m as int),
    {
        match self.magnitude_character_map.get(&m) {
            Some(c) => Ok(*c),
            None => Err(ConversionError::MissingMagnitude(m)),
        }
    }

    /// Appends the symbols of digit `d` at scale `10^p` to `rev`, last symbol first.
    fn push_digit(&self, rev: &mut Vec<char>, d: u128, p: usize) -> (r: Result<(), ConversionError>)
        requires
            1 <= d <= 9,
            d * pow10(p as nat) <= u128::MAX,
        ensures
            match digit_symbols(self.magnitude_symbols(), d as int, p as nat) {
                Ok(ds) => r is Ok && final(rev)@ == old(rev)@ + ds.reverse(),
                Err(e) => r == Err::<(), ConversionError>(e),
            },
    {
        let ghost table = self.magnitude_symbols();
        proof {
            lemma_pow10_max();
            lemma_pow10_monotone(0, p as nat);
            assert(pow10(p as nat) <= d * pow10(p as nat)) by (nonlinear_arith)
                requires
                    1 <= d,
                    1 <= pow10(p as nat),
            ;
            if d >= 4 {
                if p >= 38 {
                    lemma_pow10_monotone(38, p as nat);
                    assert(4 * pow10(p as nat) <= d * pow10(p as nat)) by (nonlinear_arith)
                        requires
                            4 <= d,
                            1 <= pow10(p as nat),
                    ;
                }
                lemma_pow10_monotone(p as nat, 37);
                lemma_pow10_monotone(p as nat, 38);
            }
        }
        let one = power_of_ten(p);
        if d <= 3 {
            match self.required_symbol(one) {
                Ok(u) => {
                    push_repeated(rev, u, d);
                    proof {
                        assert(repeated(u, d as nat).reverse() =~= repeated(u, d as nat));
                    }
                    Ok(())
                },
                Err(e) => Err(e),
            }
        } else if d == 4 {
            let five = self.required_symbol(5 * one);
            let unit = self.required_symbol(one);
            match (five, unit) {
                (Err(e), _) => Err(e),
                (_, Err(e)) => Err(e),
                (Ok(f), Ok(u)) => {
                    rev.push(f);
                    rev.push(u);
                    proof {
                        assert(rev@ =~= old(rev)@ + seq![u, f].reverse());
                    }
                    Ok(())
                },
            }
        } else if d == 5 {
            match self.required_symbol(5 * one) {
                Ok(f) => {
                    rev.push(f);
                    proof {
                        assert(rev@ =~= old(rev)@ + seq![f].reverse());
                    }
                    Ok(())
                },
                Err(e) => Err(e),
            }
        } else if d <= 8 {
            let unit = self.required_symbol(one);
            let five = self.required_symbol(5 * one);
            match (unit, five) {
                (Err(e), _) => Err(e),
                (_, Err(e)) => Err(e),
                (Ok(u), Ok(f)) => {
                    push_repeated(rev, u, d - 5);
                    rev.push(f);
                    proof {
                        let ds = seq![f] + repeated(u, (d - 5) as nat);
                        assert(rev@ =~= old(rev)@ + ds.reverse());
                    }
                    Ok(())
                },
            }
        } else {
            let ten = self.required_symbol(10 * one);
            let unit = self.required_symbol(one);
            match (ten, unit) {
                (Err(e), _) => Err(e),
                (_, Err(e)) => Err(e),
                (Ok(t), Ok(u)) => {
                    rev.push(t);
                    rev.push(u);
                    proof {
                        assert(rev@ =~= old(rev)@ + seq![u, t].reverse());
                    }
                    Ok(())
                },
            }
        }
    }

    /// Writes `number` as a numeral, most significant symbol first.
    pub fn to_string<T: NumeralInt>(&self, number: T) -> (r: Result<String, ConversionError>)
        ensures
            match r {
                Ok(s) => encode_numeral(self.magnitude_symbols(), number.value()) == Ok::<Seq<char>, ConversionError>(s@),
                Err(e) => encode_numeral(self.magnitude_symbols(), number.value()) == Err::<Seq<char>, ConversionError>(e),
            },
    {
        let n = match number.to_magnitude() {
            Some(n) => n,
            None => {
                return Err(ConversionError::NegativeNumber);
            },
        };
        let ghost table = self.magnitude_symbols();
        let mut rev: Vec<char> = Vec::new();
        let mut rest: u128 = n;
        let mut p: usize = 0;
        proof {
            lemma_pow10_max();
            assert(encode_from(table, n as nat, 0) =~= (match encode_from(table, rest as nat, p as nat) {
                Ok(high) => Ok(high + rev@.reverse()),
                Err(e) => Err(e),
            }));
        }
        while rest > 0
            invariant
                table == self.magnitude_symbols(),
                n == number.value(),
                rest * pow10(p as nat) <= n,
                p <= 39,
                pow10(39) > u128::MAX,
                encode_from(table, n as nat, 0) == (match encode_from(table, rest as nat, p as nat) {
                    Ok(high) => Ok(high + rev@.reverse()),
                    Err(e) => Err::<Seq<char>, ConversionError>(e),
                }),
            decreases rest,
        {
            let d = rest % 10;
            proof {
                lemma_pow10_monotone(0, p as nat);
                if p >= 39 {
                    lemma_pow10_monotone(39, p as nat);
                }
                assert(pow10(p as nat) <= rest * pow10(p as nat)) by (nonlinear_arith)
                    requires
                        1 <= rest,
                        1 <= pow10(p as nat),
                ;
                assert(d * pow10(p as nat) <= rest * pow10(p as nat)) by (nonlinear_arith)
                    requires
                        d <= rest,
                        1 <= pow10(p as nat),
                ;
                assert((rest / 10) * (10 * pow10(p as nat)) <= rest * pow10(p as nat)) by (nonlinear_arith)
                    requires
                        1 <= pow10(p as nat),
                ;
                assert(pow10((p + 1) as nat) == 10 * pow10(p as nat));
            }
            let ghost before = rev@;
            if d != 0 {
                match self.push_digit(&mut rev, d, p) {
                    Ok(()) => {},
                    Err(e) => {
                        assert(encode_from(table, rest as nat, p as nat) == Err::<Seq<char>, ConversionError>(e));
                        return Err(e);
                    },
                }
            }
            proof {
                let ds = digit_symbols(table, d as int, p as nat)->Ok_0;
                assert(d == 0 ==> ds =~= Seq::<char>::empty());
                assert(rev@ =~= before + ds.reverse());
                lemma_reverse_append(before, ds.reverse());
                lemma_reverse_append(ds, ds);
                match encode_from(table, (rest / 10) as nat, (p + 1) as nat) {
                    Ok(high) => {
                        assert(high + ds + before.reverse() =~= high + rev@.reverse());
                    },
                    Err(e) => {},
                }
            }
            rest = rest / 10;
            p = p + 1;
        }
        Ok(string_of(reversed(&rev)))
    }
}

} // verus!
