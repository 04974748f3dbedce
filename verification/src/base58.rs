//! The token codec: numbers written in base 58 with an alphabet that leaves
//! out the characters that are easily taken for one another.

use vstd::prelude::*;
use vstd::std_specs::iter::IteratorSpec;
use vstd::string::*;

verus! {

/// The 58 digits, in order of their value. `0`, `O`, `I` and `l` are left out.
pub const B58_ALPHABET: &'static str = "123456789ABCDEFGHJKLMNPQRSTUVWXYZabcdefghijkmnopqrstuvwxyz";

/// The digits as a sequence of characters: `alphabet()[d]` is the digit of value `d`.
pub open spec fn alphabet() -> Seq<char> {
    B58_ALPHABET@
}

/// The base-58 numeral of `n`, most significant digit first. Zero is the
/// empty numeral.
pub open spec fn base58(n: nat) -> Seq<char>
    decreases n,
{
    if n == 0 {
        Seq::empty()
    } else {
        base58(n / 58).push(alphabet()[(n % 58) as int])
    }
}

/// The characters that stand for `digits`, a numeral given least significant
/// digit first.
spec fn rendered(digits: Seq<usize>) -> Seq<char> {
    Seq::new(digits.len(), |i: int| alphabet()[digits[digits.len() - 1 - i] as int])
}

/// Writes `number` in base 58.
pub fn to_base58(number: u32) -> (token: String)
    ensures
        token@ == base58(number as nat),
{
    let mut digits: Vec<usize> = Vec::new();
    let mut rest: u32 = number;
    while rest > 0
        invariant
            base58(number as nat) == base58(rest as nat) + rendered(digits@),
            forall|i: int| 0 <= i < digits.len() ==> digits[i] < 58,
        decreases rest,
    {
        digits.push((rest % 58) as usize);
        rest = rest / 58;
    }
    let mut token = String::new();
    let mut i: usize = digits.len();
    proof {
        reveal_strlit("123456789ABCDEFGHJKLMNPQRSTUVWXYZabcdefghijkmnopqrstuvwxyz");
    }
    while i > 0
        invariant
            i <= digits.len(),
            token@ == rendered(digits@).subrange(0, digits.len() - i),
            forall|j: int| 0 <= j < digits.len() ==> digits[j] < 58,
            alphabet().len() == 58,
        decreases i,
    {
        i = i - 1;
        let d: usize = digits[i];
        token.append(B58_ALPHABET.substring_char(d, d + 1));
    }
    token
}

/// The value of the digit `c`: its place in the alphabet. `None` for a
/// character that is no digit.
pub open spec fn digit_value(c: char) -> Option<nat> {
    if alphabet().contains(c) {
        Some(alphabet().index_of(c) as nat)
    } else {
        None
    }
}

/// The number that the base-58 numeral `s` stands for, most significant digit
/// first. `None` where a character of `s` is no digit.
pub open spec fn base58_value(s: Seq<char>) -> Option<nat>
    decreases s.len(),
{
    if s.len() == 0 {
        Some(0)
    } else {
        match (base58_value(s.drop_last()), digit_value(s.last())) {
            (Some(high), Some(low)) => Some(high * 58 + low),
            _ => None,
        }
    }
}

/// What decoding `token` gives: its value, where it is a numeral whose value
/// fits in 32 bits.
pub open spec fn decoded(token: Seq<char>) -> Option<u32> {
    match base58_value(token) {
        Some(value) => if value <= u32::MAX {
            Some(value as u32)
        } else {
            None
        },
        None => None,
    }
}

/// The digit of value `d`, computed from the six runs of consecutive
/// characters that the alphabet is made of.
spec fn digit_at(d: int) -> char {
    if d < 9 {
        ('1' as int + d) as char
    } else if d < 17 {
        ('A' as int + d - 9) as char
    } else if d < 22 {
        ('J' as int + d - 17) as char
    } else if d < 33 {
        ('P' as int + d - 22) as char
    } else if d < 44 {
        ('a' as int + d - 33) as char
    } else {
        ('m' as int + d - 44) as char
    }
}

/// The first `n` digits of the alphabet are those that `digit_at` computes.
spec fn runs_agree(n: int) -> bool
    decreases n,
{
    n <= 0 || (alphabet()[n - 1] == digit_at(n - 1) && runs_agree(n - 1))
}

/// What `runs_agree` says of the first `n` digits, it says of each of them.
proof fn lemma_runs_agree_at(n: int, d: int)
    requires
        runs_agree(n),
        0 <= d < n,
    ensures
        alphabet()[d] == digit_at(d),
    decreases n,
{
    if d < n - 1 {
        lemma_runs_agree_at(n - 1, d);
    }
}

/// The alphabet has 58 digits, and each is the one that `digit_at` computes.
proof fn lemma_alphabet()
    ensures
        alphabet().len() == 58,
        forall|d: int| 0 <= d < 58 ==> alphabet()[d] == digit_at(d),
{
    reveal_strlit("123456789ABCDEFGHJKLMNPQRSTUVWXYZabcdefghijkmnopqrstuvwxyz");
    assert(runs_agree(58)) by {
        reveal_with_fuel(runs_agree, 59);
    }
    assert forall|d: int| 0 <= d < 58 implies alphabet()[d] == digit_at(d) by {
        lemma_runs_agree_at(58, d);
    }
}

/// The alphabet has no `/`: a numeral is fit to stand in a path.
pub proof fn lemma_alphabet_has_no_slash()
    ensures
        !alphabet().contains('/'),
{
    lemma_alphabet();
    if alphabet().contains('/') {
        let k = alphabet().index_of('/');
        assert(digit_at(k) == '/');
    }
}

/// Each digit of the alphabet has the value of its place.
pub proof fn lemma_digit_value(d: int)
    requires
        0 <= d < 58,
    ensures
        digit_value(alphabet()[d]) == Some(d as nat),
{
    lemma_alphabet();
    let c = alphabet()[d];
    let k = alphabet().index_of(c);
    assert(digit_at(k) == digit_at(d));
}

/// The value of the character `c` as a base-58 digit.
fn digit_of(c: char) -> (digit: Option<u32>)
    ensures
        match digit {
            Some(d) => digit_value(c) == Some(d as nat) && d < 58,
            None => digit_value(c) is None,
        },
{
    let code: u32 = c as u32;
    let digit: Option<u32> = if '1' as u32 <= code && code <= '9' as u32 {
        Some(code - '1' as u32)
    } else if 'A' as u32 <= code && code <= 'H' as u32 {
        Some(code - 'A' as u32 + 9)
    } else if 'J' as u32 <= code && code <= 'N' as u32 {
        Some(code - 'J' as u32 + 17)
    } else if 'P' as u32 <= code && code <= 'Z' as u32 {
        Some(code - 'P' as u32 + 22)
    } else if 'a' as u32 <= code && code <= 'k' as u32 {
        Some(code - 'a' as u32 + 33)
    } else if 'm' as u32 <= code && code <= 'z' as u32 {
        Some(code - 'm' as u32 + 44)
    } else {
        None
    };
    proof {
        lemma_alphabet();
        match digit {
            Some(d) => {
                assert(digit_at(d as int) == c);
                lemma_digit_value(d as int);
            },
            None => {
                if alphabet().contains(c) {
                    let k = alphabet().index_of(c);
                    assert(digit_at(k) == c);
                }
            },
        }
    }
    digit
}

/// A numeral's leading part is a numeral too, of a value that is no larger.
proof fn lemma_value_of_prefix(s: Seq<char>, k: int)
    requires
        0 <= k <= s.len(),
        base58_value(s) is Some,
    ensures
        base58_value(s.take(k)) is Some,
        base58_value(s.take(k))->0 <= base58_value(s)->0,
    decreases s.len(),
{
    if k == s.len() {
        assert(s.take(k) == s);
    } else {
        lemma_value_of_prefix(s.drop_last(), k);
        assert(s.drop_last().take(k) == s.take(k));
    }
}

/// Reads `token` as a base-58 numeral. Gives `None` where a character of it
/// is no digit of the alphabet, and where its value does not fit in 32 bits.
pub fn from_base58(token: &str) -> (id: Option<u32>)
    ensures
        id == decoded(token@),
{
    broadcast use vstd::string::group_string_axioms;

    let mut chars = token.chars();
    let mut value: u32 = 0;
    let ghost mut seen: int = 0;
    loop
        invariant
            chars.obeys_prophetic_iter_laws(),
            0 <= seen <= token@.len(),
            chars.remaining() == token@.skip(seen),
            base58_value(token@.take(seen)) == Some(value as nat),
        decreases token@.len() - seen,
    {
        let c = match chars.next() {
            Some(c) => c,
            None => {
                assert(token@.take(seen) == token@);
                return Some(value);
            },
        };
        assert(token@.take(seen + 1).drop_last() == token@.take(seen));
        proof {
            if base58_value(token@) is Some {
                lemma_value_of_prefix(token@, seen + 1);
            }
        }
        let step: u64 = match digit_of(c) {
            Some(d) => value as u64 * 58 + d as u64,
            None => {
                return None;
            },
        };
        if step > u32::MAX as u64 {
            return None;
        }
        value = step as u32;
        proof {
            seen = seen + 1;
        }
    }
}

/// Decoding undoes encoding: every number is the value of its own numeral.
pub proof fn lemma_value_of_base58(n: nat)
    ensures
        base58_value(base58(n)) == Some(n),
    decreases n,
{
    if n > 0 {
        lemma_value_of_base58(n / 58);
        lemma_alphabet();
        lemma_digit_value((n % 58) as int);
        assert(base58(n).drop_last() == base58(n / 58));
    }
}

/// An identifier comes back from its token: `from_base58` of what `to_base58`
/// wrote for `id` is `id`.
pub proof fn lemma_decode_encode(id: u32)
    ensures
        decoded(base58(id as nat)) == Some(id),
{
    lemma_value_of_base58(id as nat);
}

/// Different numbers have different numerals.
pub proof fn lemma_base58_injective(a: nat, b: nat)
    requires
        base58(a) == base58(b),
    ensures
        a == b,
{
    lemma_value_of_base58(a);
    lemma_value_of_base58(b);
}

/// A numeral is made of digits of the alphabet.
pub proof fn lemma_base58_digits(n: nat, i: int)
    requires
        0 <= i < base58(n).len(),
    ensures
        alphabet().contains(base58(n)[i]),
    decreases n,
{
    lemma_alphabet();
    if i < base58(n).len() - 1 {
        lemma_base58_digits(n / 58, i);
    }
}

/// A number from 58² up to, but not including, 58³ has a numeral of three
/// digits.
pub proof fn lemma_three_digits(n: nat)
    requires
        58 * 58 <= n < 58 * 58 * 58,
    ensures
        base58(n).len() == 3,
{
    reveal_with_fuel(base58, 4);
}

} // verus!
