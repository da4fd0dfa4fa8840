//! The size directive in a request path, `/mem/<bytes>[<unit>]`, and
//! decimal numbers as text.

use crate::h3::bytes_eq;
use vstd::prelude::*;
use vstd::slice::slice_subrange;
use vstd::string::is_ascii_spec_bytes;
use vstd::string::StringSliceAdditionalSpecFns;

verus! {

/// The error of a path that names no resource.
#[derive(Debug, Clone, Copy, PartialEq, Eq, Structural)]
pub struct NotFound;

/// A request for a body of so many bytes, as written in a path of the form
/// `/mem/<bytes>[<unit>]`. The units are none, `B`, `kB`, `MB` and `GB`, in
/// any mix of upper and lower case, and they are decimal.
#[derive(Debug, Clone, Copy, PartialEq, Eq, Structural)]
pub struct MemRequest(pub usize);

/// An ASCII decimal digit.
pub open spec fn is_digit(b: u8) -> bool {
    0x30 <= b <= 0x39
}

/// An ASCII letter.
pub open spec fn is_letter(b: u8) -> bool {
    0x41 <= b <= 0x5a || 0x61 <= b <= 0x7a
}

/// The lower-case form of an ASCII letter; any other byte itself.
pub open spec fn to_lower(b: u8) -> u8 {
    if 0x41 <= b <= 0x5a {
        (b + 0x20) as u8
    } else {
        b
    }
}

/// A byte string with its ASCII letters in lower case.
pub open spec fn lowered(s: Seq<u8>) -> Seq<u8> {
    s.map_values(|b: u8| to_lower(b))
}

/// The bytes that open a size directive.
pub open spec fn prefix() -> Seq<u8> {
    "/mem/".spec_bytes()
}

/// Where the run of digits that starts at `from` ends.
pub open spec fn digits_end(s: Seq<u8>, from: int) -> int
    decreases s.len() - from,
{
    if 0 <= from < s.len() && is_digit(s[from]) {
        digits_end(s, from + 1)
    } else {
        from
    }
}

/// The number that a string of decimal digits writes.
pub open spec fn decimal_value(digits: Seq<u8>) -> nat
    decreases digits.len(),
{
    if digits.len() == 0 {
        0
    } else {
        decimal_value(digits.drop_last()) * 10 + (digits.last() - 0x30) as nat
    }
}

/// The factor that a unit stands for; `None` for an unknown unit.
pub open spec fn multiplier(unit: Seq<u8>) -> Option<nat> {
    let u = lowered(unit);
    if u.len() == 0 || u == "b".spec_bytes() {
        Some(1)
    } else if u == "kb".spec_bytes() {
        Some(1_000)
    } else if u == "mb".spec_bytes() {
        Some(1_000_000)
    } else if u == "gb".spec_bytes() {
        Some(1_000_000_000)
    } else {
        None
    }
}

/// Whether `path` is a size directive written with these digits and this
/// unit: the prefix, the digits, of which there is one at least, and the
/// unit, which is letters only; and nothing else.
pub open spec fn is_directive(path: Seq<u8>, digits: Seq<u8>, unit: Seq<u8>) -> bool {
    &&& path == prefix() + digits + unit
    &&& digits.len() >= 1
    &&& forall|k: int| 0 <= k < digits.len() ==> is_digit(#[trigger] digits[k])
    &&& forall|k: int| 0 <= k < unit.len() ==> is_letter(#[trigger] unit[k])
}

/// The byte count that a path asks for: where the path as a whole is a size
/// directive with a known unit, the number that its digits write times what
/// the unit stands for. `None` for every other path.
pub open spec fn mem_size(path: Seq<u8>) -> Option<nat> {
    let d = digits_end(path, 5);
    let digits = path.subrange(5, d);
    let unit = path.subrange(d, path.len() as int);
    if path.len() > 5 && is_directive(path, digits, unit) {
        match multiplier(unit) {
            Some(m) => Some(decimal_value(digits) * m),
            None => None,
        }
    } else {
        None
    }
}

/// The decimal digits of `n`, without leading zeros.
pub open spec fn decimal_text(n: nat) -> Seq<u8>
    decreases n,
{
    if n < 10 {
        seq![(0x30 + n) as u8]
    } else {
        decimal_text(n / 10).push((0x30 + n % 10) as u8)
    }
}

/// The text constants of the grammar, byte by byte.
pub proof fn lemma_grammar_constants()
    ensures
        prefix() == seq![0x2fu8, 0x6d, 0x65, 0x6d, 0x2f],
        "b".spec_bytes() == seq![0x62u8],
        "kb".spec_bytes() == seq![0x6bu8, 0x62],
        "mb".spec_bytes() == seq![0x6du8, 0x62],
        "gb".spec_bytes() == seq![0x67u8, 0x62],
{
    reveal_strlit("/mem/");
    reveal_strlit("b");
    reveal_strlit("kb");
    reveal_strlit("mb");
    reveal_strlit("gb");
    is_ascii_spec_bytes("/mem/");
    is_ascii_spec_bytes("b");
    is_ascii_spec_bytes("kb");
    is_ascii_spec_bytes("mb");
    is_ascii_spec_bytes("gb");
    assert(prefix() =~= seq![0x2fu8, 0x6d, 0x65, 0x6d, 0x2f]);
    assert("b".spec_bytes() =~= seq![0x62u8]);
    assert("kb".spec_bytes() =~= seq![0x6bu8, 0x62]);
    assert("mb".spec_bytes() =~= seq![0x6du8, 0x62]);
    assert("gb".spec_bytes() =~= seq![0x67u8, 0x62]);
}

/// A run of digits ends at or after its start, within the string, on a byte
/// that is no digit; and every byte of it is a digit.
pub proof fn lemma_digits_end(s: Seq<u8>, from: int)
    requires
        0 <= from <= s.len(),
    ensures
        from <= digits_end(s, from) <= s.len(),
        digits_end(s, from) < s.len() ==> !is_digit(s[digits_end(s, from)]),
        forall|k: int| from <= k < digits_end(s, from) ==> is_digit(#[trigger] s[k]),
    decreases s.len() - from,
{
    if from < s.len() && is_digit(s[from]) {
        lemma_digits_end(s, from + 1);
    }
}

/// More digits never write a smaller number.
pub proof fn lemma_decimal_value_prefix(digits: Seq<u8>, k: int)
    requires
        0 <= k <= digits.len(),
    ensures
        decimal_value(digits.take(k)) <= decimal_value(digits),
    decreases digits.len() - k,
{
    if k < digits.len() {
        lemma_decimal_value_prefix(digits, k + 1);
        assert(digits.take(k + 1).drop_last() =~= digits.take(k));
    } else {
        assert(digits.take(k) =~= digits);
    }
}

/// Whether a byte is an ASCII decimal digit.
fn is_digit_byte(b: u8) -> (r: bool)
    ensures
        r == is_digit(b),
{
    0x30 <= b && b <= 0x39
}

/// Whether a byte is an ASCII letter.
fn is_letter_byte(b: u8) -> (r: bool)
    ensures
        r == is_letter(b),
{
    (0x41 <= b && b <= 0x5a) || (0x61 <= b && b <= 0x7a)
}

/// Whether `s`, its letters in lower case, reads `lower`.
fn eq_lowered(s: &[u8], lower: &[u8]) -> (same: bool)
    ensures
        same == (lowered(s@) == lower@),
{
    if s.len() != lower.len() {
        return false;
    }
    let mut i: usize = 0;
    while i < s.len()
        invariant
            i <= s.len(),
            s.len() == lower.len(),
            forall|j: int| 0 <= j < i ==> to_lower(s@[j]) == lower@[j],
        decreases s.len() - i,
    {
        let b: u8 = s[i];
        let l: u8 = if 0x41 <= b && b <= 0x5a {
            b + 0x20
        } else {
            b
        };
        if l != lower[i] {
            assert(lowered(s@)[i as int] != lower@[i as int]);
            return false;
        }
        i += 1;
    }
    assert(lowered(s@) =~= lower@);
    true
}

impl MemRequest {
    /// Reads the byte count that `path` asks for. A count that does not fit
    /// in `usize` is not found either.
    pub fn from_bytes(path: &[u8]) -> (r: Result<MemRequest, NotFound>)
        ensures
            match r {
                Ok(m) => mem_size(path@) == Some(m.0 as nat),
                Err(_) => match mem_size(path@) {
                    Some(n) => n > usize::MAX,
                    None => true,
                },
            },
    {
        let n: usize = path.len();
        proof {
            lemma_grammar_constants();
        }
        if n <= 5 || !bytes_eq(slice_subrange(path, 0, 5), "/mem/".as_bytes()) {
            proof {
                if n > 5 {
                    let d = digits_end(path@, 5);
                    assert((prefix() + path@.subrange(5, d) + path@.subrange(d, n as int)).subrange(
                        0,
                        5,
                    ) =~= prefix());
                }
            }
            return Err(NotFound);
        }
        let mut d: usize = 5;
        let mut value: usize = 0;
        proof {
            assert(path@.subrange(5, d as int) =~= Seq::<u8>::empty());
        }
        while d < n && is_digit_byte(path[d])
            invariant
                n == path.len(),
                5 <= d <= n,
                path@.subrange(0, 5) == prefix(),
                digits_end(path@, 5) == digits_end(path@, d as int),
                value == decimal_value(path@.subrange(5, d as int)),
            decreases n - d,
        {
            let digit: usize = (path[d] - 0x30) as usize;
            proof {
                let longer = path@.subrange(5, d + 1);
                assert(longer.drop_last() =~= path@.subrange(5, d as int));
                assert(decimal_value(longer) == value * 10 + digit);
                let end = digits_end(path@, 5);
                lemma_digits_end(path@, d + 1);
                let all = path@.subrange(5, end);
                assert(all.take(d + 1 - 5) =~= longer);
                lemma_decimal_value_prefix(all, d + 1 - 5);
                lemma_grammar_constants();
                assert(mem_size(path@) matches Some(size) ==> size >= decimal_value(longer)) by {
                    let unit = path@.subrange(end, n as int);
                    if multiplier(unit) is Some {
                        let m = multiplier(unit)->0;
                        let v = decimal_value(all);
                        assert(v * m >= v) by (nonlinear_arith)
                            requires
                                m >= 1,
                                v >= 0,
                        ;
                    }
                }
            }
            let tens: usize = match value.checked_mul(10) {
                Some(t) => t,
                None => {
                    return Err(NotFound);
                },
            };
            value = match tens.checked_add(digit) {
                Some(v) => v,
                None => {
                    return Err(NotFound);
                },
            };
            d += 1;
        }
        proof {
            lemma_digits_end(path@, 5);
        }
        if d == 5 {
            return Err(NotFound);
        }
        let mut u: usize = d;
        while u < n && is_letter_byte(path[u])
            invariant
                n == path.len(),
                d <= u <= n,
                forall|k: int| d <= k < u ==> is_letter(#[trigger] path@[k]),
            decreases n - u,
        {
            u += 1;
        }
        let ghost digits = path@.subrange(5, d as int);
        let ghost unit = path@.subrange(d as int, n as int);
        if u < n {
            assert(!is_letter(unit[u - d]));
            return Err(NotFound);
        }
        proof {
            assert(path@ =~= prefix() + digits + unit);
            assert(is_directive(path@, digits, unit));
        }
        let unit = slice_subrange(path, d, n);
        let factor: usize = if unit.len() == 0 || eq_lowered(unit, "b".as_bytes()) {
            1
        } else if eq_lowered(unit, "kb".as_bytes()) {
            1_000
        } else if eq_lowered(unit, "mb".as_bytes()) {
            1_000_000
        } else if eq_lowered(unit, "gb".as_bytes()) {
            1_000_000_000
        } else {
            return Err(NotFound);
        };
        match value.checked_mul(factor) {
            Some(size) => Ok(MemRequest(size)),
            None => Err(NotFound),
        }
    }

    /// Reads the byte count that the path `s` asks for.
    pub fn from_str(s: &str) -> (r: Result<MemRequest, NotFound>)
        ensures
            match r {
                Ok(m) => mem_size(s.spec_bytes()) == Some(m.0 as nat),
                Err(_) => match mem_size(s.spec_bytes()) {
                    Some(n) => n > usize::MAX,
                    None => true,
                },
            },
    {
        MemRequest::from_bytes(s.as_bytes())
    }
}

/// Writes `n` in decimal digits, without leading zeros.
pub fn decimal_digits(n: usize) -> (text: Vec<u8>)
    ensures
        text@ == decimal_text(n as nat),
{
    let mut text: Vec<u8> = Vec::new();
    let mut rest: usize = n;
    while rest >= 10
        invariant
            decimal_text(n as nat) == decimal_text(rest as nat) + text@,
        decreases rest,
    {
        let ghost before = text@;
        text.insert(0, 0x30 + (rest % 10) as u8);
        proof {
            let d = (0x30 + rest % 10) as u8;
            let tens = (rest / 10) as nat;
            assert(decimal_text(rest as nat) == decimal_text(tens).push(d));
            assert(decimal_text(tens).push(d) + before =~= decimal_text(tens) + text@);
        }
        rest = rest / 10;
    }
    let ghost before = text@;
    text.insert(0, 0x30 + rest as u8);
    assert(decimal_text(rest as nat) + before =~= text@);
    text
}

/// What `decimal_text` writes is one digit at least, and digits only.
pub proof fn lemma_decimal_text_digits(n: nat)
    ensures
        decimal_text(n).len() >= 1,
        forall|k: int| 0 <= k < decimal_text(n).len() ==> is_digit(#[trigger] decimal_text(n)[k]),
    decreases n,
{
    if n >= 10 {
        lemma_decimal_text_digits(n / 10);
    }
}

/// Reading back what was written gives the number again.
pub proof fn lemma_decimal_round_trip(n: nat)
    ensures
        decimal_value(decimal_text(n)) == n,
    decreases n,
{
    let text = decimal_text(n);
    if n < 10 {
        assert(text.drop_last() =~= Seq::<u8>::empty());
        assert(decimal_value(text.drop_last()) == 0);
        assert(text.last() == (0x30 + n) as u8);
    } else {
        lemma_decimal_round_trip(n / 10);
        assert(text.drop_last() =~= decimal_text(n / 10));
        assert(text.last() == (0x30 + n % 10) as u8);
    }
    assert(decimal_value(text) == decimal_value(text.drop_last()) * 10 + (text.last() - 0x30) as nat);
}

/// A stretch of digits that is followed by no digit is a run of digits.
pub proof fn lemma_digits_run(s: Seq<u8>, from: int, to: int)
    requires
        0 <= from <= to <= s.len(),
        forall|k: int| from <= k < to ==> is_digit(#[trigger] s[k]),
        to < s.len() ==> !is_digit(s[to]),
    ensures
        digits_end(s, from) == to,
    decreases to - from,
{
    if from < to {
        lemma_digits_run(s, from + 1, to);
    }
}

/// A path of the form `/mem/<digits><unit>` asks for the number that the
/// digits write, times what the unit stands for; with an unknown unit it
/// asks for nothing. Upper and lower case in the unit are the same.
pub proof fn lemma_directive(digits: Seq<u8>, unit: Seq<u8>)
    requires
        digits.len() >= 1,
        forall|k: int| 0 <= k < digits.len() ==> is_digit(#[trigger] digits[k]),
        forall|k: int| 0 <= k < unit.len() ==> is_letter(#[trigger] unit[k]),
    ensures
        mem_size(prefix() + digits + unit) == match multiplier(unit) {
            Some(m) => Some(decimal_value(digits) * m),
            None => None,
        },
        multiplier(unit) == multiplier(lowered(unit)),
{
    lemma_grammar_constants();
    let s = prefix() + digits + unit;
    let d: int = 5 + digits.len() as int;
    assert forall|k: int| 5 <= k < d implies is_digit(#[trigger] s[k]) by {
        assert(s[k] == digits[k - 5]);
    }
    if unit.len() > 0 {
        assert(s[d] == unit[0]);
    }
    lemma_digits_run(s, 5, d);
    assert(s.subrange(5, d) =~= digits);
    assert(s.subrange(d, s.len() as int) =~= unit);
    assert(lowered(lowered(unit)) =~= lowered(unit));
}

/// A path asks for something only where it is, as a whole, a size
/// directive with a known unit; text before the prefix or after the unit
/// makes it no directive.
pub proof fn lemma_whole_path(path: Seq<u8>)
    ensures
        mem_size(path) is Some <==> exists|digits: Seq<u8>, unit: Seq<u8>|
            #[trigger] is_directive(path, digits, unit) && multiplier(unit) is Some,
{
    lemma_grammar_constants();
    if mem_size(path) is Some {
        let d = digits_end(path, 5);
        assert(is_directive(path, path.subrange(5, d), path.subrange(d, path.len() as int)));
    }
    if exists|digits: Seq<u8>, unit: Seq<u8>|
        #[trigger] is_directive(path, digits, unit) && multiplier(unit) is Some {
        let (digits, unit) = choose|digits: Seq<u8>, unit: Seq<u8>|
            #[trigger] is_directive(path, digits, unit) && multiplier(unit) is Some;
        lemma_directive(digits, unit);
    }
}

/// The path that `/mem/` and the decimal digits of `n` make asks for `n`
/// bytes.
pub proof fn lemma_plain_count(n: nat)
    ensures
        mem_size(prefix() + decimal_text(n)) == Some(n),
{
    lemma_decimal_text_digits(n);
    lemma_decimal_round_trip(n);
    lemma_directive(decimal_text(n), Seq::empty());
    assert(prefix() + decimal_text(n) + Seq::<u8>::empty() =~= prefix() + decimal_text(n));
    assert(lowered(Seq::<u8>::empty()).len() == 0);
}

} // verus!
