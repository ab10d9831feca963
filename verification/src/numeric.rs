//! Verified parsing and formatting of the decimal notation used by the
//! delimited-text records: unsigned integers for the ids, non-negative
//! fixed-point amounts with up to four fractional digits, and the report's
//! rendering of balances with exactly four fractional digits.

use vstd::prelude::*;

verus! {

/// The byte is an ASCII decimal digit.
pub open spec fn is_digit(b: u8) -> bool {
    48 <= b && b <= 57
}

/// Every byte of the sequence is an ASCII decimal digit.
pub open spec fn all_digits(s: Seq<u8>) -> bool {
    forall|i: int| 0 <= i < s.len() ==> is_digit(#[trigger] s[i])
}

/// The value of a sequence of ASCII digits, most significant first.
pub open spec fn digits_val(s: Seq<u8>) -> nat
    decreases s.len(),
{
    if s.len() == 0 {
        0
    } else {
        digits_val(s.drop_last()) * 10 + (s.last() - 48) as nat
    }
}

/// Ten to the given power.
pub open spec fn pow10(n: nat) -> nat
    decreases n,
{
    if n == 0 {
        1
    } else {
        10 * pow10((n - 1) as nat)
    }
}

/// The digit prefixes of a sequence have non-decreasing values.
proof fn lemma_digits_val_prefix(s: Seq<u8>, i: int)
    requires
        0 <= i <= s.len(),
    ensures
        digits_val(s.subrange(0, i)) <= digits_val(s),
    decreases s.len() - i,
{
    if i == s.len() {
        assert(s.subrange(0, i) =~= s);
    } else {
        assert(s.subrange(0, i + 1).drop_last() =~= s.subrange(0, i));
        assert(digits_val(s.subrange(0, i + 1)) == digits_val(s.subrange(0, i)) * 10 + (s[i]
            - 48) as nat);
        lemma_digits_val_prefix(s, i + 1);
    }
}

/// A sequence of digits is bounded by ten to its length.
proof fn lemma_digits_val_bound(s: Seq<u8>)
    requires
        all_digits(s),
    ensures
        digits_val(s) < pow10(s.len() as nat),
    decreases s.len(),
{
    if s.len() > 0 {
        assert(all_digits(s.drop_last()));
        lemma_digits_val_bound(s.drop_last());
    }
}

/// What a run of digits parses to under a cap: defined exactly when the
/// run is non-empty, all digits, and its value does not exceed the cap.
pub open spec fn spec_parse_digits(s: Seq<u8>, cap: u64) -> Option<u64> {
    if s.len() > 0 && all_digits(s) && digits_val(s) <= cap {
        Some(digits_val(s) as u64)
    } else {
        None
    }
}

/// Parses the digit run `s[start..end]` against a cap. Mirrors
/// `spec_parse_digits` exactly.
fn parse_digits(s: &Vec<u8>, start: usize, end: usize, cap: u64) -> (r: Option<u64>)
    requires
        start <= end <= s@.len(),
    ensures
        r == spec_parse_digits(s@.subrange(start as int, end as int), cap),
{
    let ghost t = s@.subrange(start as int, end as int);
    if start == end {
        return None;
    }
    let mut acc: u64 = 0;
    let mut i = start;
    while i < end
        invariant
            start <= i <= end <= s@.len(),
            t == s@.subrange(start as int, end as int),
            all_digits(t.subrange(0, i - start)),
            acc == digits_val(t.subrange(0, i - start)),
            acc <= cap,
        decreases end - i,
    {
        let b = s[i];
        assert(t[i - start] == b);
        if b < 48 || b > 57 {
            return None;
        }
        let d = (b - 48) as u64;
        proof {
            assert(t.subrange(0, i - start + 1).drop_last() =~= t.subrange(0, i - start));
        }
        if d > cap || acc > (cap - d) / 10 {
            proof {
                assert(digits_val(t.subrange(0, i - start + 1)) > cap);
                if all_digits(t) && digits_val(t) <= cap {
                    lemma_digits_val_prefix(t, i - start + 1);
                }
            }
            return None;
        }
        assert(acc * 10 + d <= cap) by {
            assert(acc <= (cap - d) / 10);
            assert(acc * 10 <= ((cap - d) / 10) * 10);
            vstd::arithmetic::div_mod::lemma_fundamental_div_mod((cap - d) as int, 10);
        }
        acc = acc * 10 + d;
        i = i + 1;
    }
    proof {
        assert(t.subrange(0, (end - start) as int) =~= t);
    }
    Some(acc)
}

/// Strips one leading ASCII `+`, which decimal integer parsing accepts.
pub open spec fn strip_plus(s: Seq<u8>) -> Seq<u8> {
    if s.len() > 0 && s[0] == 43 {
        s.drop_first()
    } else {
        s
    }
}

/// What a client id field parses to.
pub open spec fn spec_parse_u16(s: Seq<u8>) -> Option<u16> {
    match spec_parse_digits(strip_plus(s), 0xFFFF) {
        Some(v) => Some(v as u16),
        None => None,
    }
}

/// Parses a client id field. Mirrors `spec_parse_u16` exactly.
pub fn parse_u16(s: &Vec<u8>) -> (r: Option<u16>)
    ensures
        r == spec_parse_u16(s@),
{
    let start: usize = if s.len() > 0 && s[0] == 43 {
        1
    } else {
        0
    };
    proof {
        assert(s@.subrange(start as int, s@.len() as int) =~= strip_plus(s@));
    }
    match parse_digits(s, start, s.len(), 0xFFFF) {
        Some(v) => Some(v as u16),
        None => None,
    }
}

/// What a transaction id field parses to.
pub open spec fn spec_parse_u32(s: Seq<u8>) -> Option<u32> {
    match spec_parse_digits(strip_plus(s), 0xFFFF_FFFF) {
        Some(v) => Some(v as u32),
        None => None,
    }
}

/// Parses a transaction id field. Mirrors `spec_parse_u32` exactly.
pub fn parse_u32(s: &Vec<u8>) -> (r: Option<u32>)
    ensures
        r == spec_parse_u32(s@),
{
    let start: usize = if s.len() > 0 && s[0] == 43 {
        1
    } else {
        0
    };
    proof {
        assert(s@.subrange(start as int, s@.len() as int) =~= strip_plus(s@));
    }
    match parse_digits(s, start, s.len(), 0xFFFF_FFFF) {
        Some(v) => Some(v as u32),
        None => None,
    }
}

/// The index of the first ASCII `.` of the sequence, or its length.
pub open spec fn first_dot(s: Seq<u8>) -> int
    decreases s.len(),
{
    if s.len() == 0 {
        0
    } else if s[0] == 46 {
        0
    } else {
        1 + first_dot(s.drop_first())
    }
}

proof fn lemma_first_dot_at(s: Seq<u8>, i: int)
    requires
        0 <= i <= s.len(),
        forall|j: int| 0 <= j < i ==> s[j] != 46,
        i < s.len() ==> s[i] == 46,
    ensures
        first_dot(s) == i,
    decreases i,
{
    if s.len() == 0 {
    } else if i == 0 {
    } else {
        assert(s[0] != 46);
        assert(forall|j: int| 0 <= j < i - 1 ==> s.drop_first()[j] == s[j + 1]);
        lemma_first_dot_at(s.drop_first(), i - 1);
    }
}

/// The largest integer part whose fixed-point value still fits `u64`.
pub open spec fn max_integral() -> u64 {
    1_844_674_407_370_954u64
}

/// What an amount field parses to, in units of 1/10000: an optional `+`,
/// then digits with at most four more digits after an optional dot, at
/// least one digit in all. Overflowing amounts do not parse.
pub open spec fn spec_parse_amount(s: Seq<u8>) -> Option<u64> {
    let t = strip_plus(s);
    let d = first_dot(t);
    let ip = t.subrange(0, d);
    let fp = if d < t.len() {
        t.subrange(d + 1, t.len() as int)
    } else {
        Seq::<u8>::empty()
    };
    if ip.len() + fp.len() > 0 && all_digits(ip) && all_digits(fp) && fp.len() <= 4
        && digits_val(ip) <= max_integral() {
        Some((digits_val(ip) * 10000 + digits_val(fp) * pow10((4 - fp.len()) as nat)) as u64)
    } else {
        None
    }
}

/// The scaled value of a fractional-digit run: defined when it holds at
/// most four digits, as units of 1/10000.
pub open spec fn spec_frac_units(fp: Seq<u8>) -> Option<u64> {
    if all_digits(fp) && fp.len() <= 4 {
        Some((digits_val(fp) * pow10((4 - fp.len()) as nat)) as u64)
    } else {
        None
    }
}

/// Parses the fractional digits `s[start..end]`. Mirrors `spec_frac_units`.
fn parse_frac_units(s: &Vec<u8>, start: usize, end: usize) -> (r: Option<u64>)
    requires
        start <= end <= s@.len(),
    ensures
        r == spec_frac_units(s@.subrange(start as int, end as int)),
        r matches Some(v) ==> v <= 9999 && v == digits_val(s@.subrange(start as int, end as int))
            * pow10((4 - s@.subrange(start as int, end as int).len()) as nat),
{
    let ghost fp = s@.subrange(start as int, end as int);
    proof {
        reveal_with_fuel(pow10, 5);
    }
    let len = end - start;
    if len > 4 {
        return None;
    }
    if len == 0 {
        proof {
            assert(fp =~= Seq::<u8>::empty());
            assert(digits_val(fp) == 0);
            assert(digits_val(fp) * pow10((4 - fp.len()) as nat) == 0) by {
                vstd::arithmetic::mul::lemma_mul_basics(pow10((4 - fp.len()) as nat) as int);
            }
        }
        return Some(0);
    }
    let fv = match parse_digits(s, start, end, 9999) {
        Some(v) => v,
        None => {
            proof {
                if all_digits(fp) {
                    lemma_digits_val_bound(fp);
                }
            }
            return None;
        },
    };
    let scale: u64 = if len == 1 {
        1000
    } else if len == 2 {
        100
    } else if len == 3 {
        10
    } else {
        1
    };
    proof {
        lemma_digits_val_bound(fp);
        assert(scale == pow10((4 - fp.len()) as nat));
        assert(digits_val(fp) * pow10((4 - fp.len()) as nat) < pow10(fp.len() as nat) * pow10(
            (4 - fp.len()) as nat,
        )) by {
            vstd::arithmetic::mul::lemma_mul_strict_inequality(
                digits_val(fp) as int,
                pow10(fp.len() as nat) as int,
                pow10((4 - fp.len()) as nat) as int,
            );
        }
        assert(pow10(fp.len() as nat) * pow10((4 - fp.len()) as nat) == 10000) by {
            if fp.len() == 1 {
                assert(pow10(1) * pow10(3) == 10000);
            } else if fp.len() == 2 {
                assert(pow10(2) * pow10(2) == 10000);
            } else if fp.len() == 3 {
                assert(pow10(3) * pow10(1) == 10000);
            } else {
                assert(pow10(4) * pow10(0) == 10000);
            }
        }
        assert(fv == digits_val(fp));
    }
    Some(fv * scale)
}

/// Parses an amount field. Mirrors `spec_parse_amount` exactly.
#[verifier::rlimit(30)]
pub fn parse_amount(s: &Vec<u8>) -> (r: Option<u64>)
    ensures
        r == spec_parse_amount(s@),
{
    let start: usize = if s.len() > 0 && s[0] == 43 {
        1
    } else {
        0
    };
    let ghost t = strip_plus(s@);
    proof {
        assert(s@.subrange(start as int, s@.len() as int) =~= t);
    }
    let n = s.len();
    let mut dot = start;
    while dot < n && s[dot] != 46
        invariant
            start <= dot <= n == s@.len(),
            t == strip_plus(s@),
            t == s@.subrange(start as int, s@.len() as int),
            forall|j: int| start <= j < dot ==> s@[j] != 46,
        decreases n - dot,
    {
        dot = dot + 1;
    }
    proof {
        assert(forall|j: int| 0 <= j < dot - start ==> t[j] == s@[j + start]);
        lemma_first_dot_at(t, dot - start);
    }
    let ghost d = first_dot(t);
    let ghost ip = t.subrange(0, d);
    let ghost fp = if d < t.len() {
        t.subrange(d + 1, t.len() as int)
    } else {
        Seq::<u8>::empty()
    };
    // At least one digit somewhere, or the field is malformed.
    if dot == start && (dot == n || n - (dot + 1) == 0) {
        return None;
    }
    // The integer part: empty parses as zero so that ".5" is accepted,
    // exactly as the reference number parser does.
    let int_val: u64 = if dot == start {
        0
    } else {
        proof {
            assert(ip =~= s@.subrange(start as int, dot as int));
        }
        match parse_digits(s, start, dot, 1_844_674_407_370_954u64) {
            Some(v) => v,
            None => {
                return None;
            },
        }
    };
    proof {
        if dot == start {
            assert(ip =~= Seq::<u8>::empty());
        }
        assert(all_digits(ip) && digits_val(ip) == int_val && digits_val(ip) <= max_integral());
    }
    // The fractional part, scaled to units of 1/10000.
    let frac_units: u64 = if dot == n {
        proof {
            assert(fp =~= Seq::<u8>::empty());
            assert(digits_val(fp) == 0);
            assert(digits_val(fp) * pow10((4 - fp.len()) as nat) == 0) by {
                vstd::arithmetic::mul::lemma_mul_basics(pow10((4 - fp.len()) as nat) as int);
            }
        }
        0
    } else {
        proof {
            assert(fp =~= s@.subrange(dot + 1 as int, n as int));
        }
        match parse_frac_units(s, dot + 1, n) {
            Some(v) => v,
            None => {
                return None;
            },
        }
    };
    proof {
        assert(frac_units == digits_val(fp) * pow10((4 - fp.len()) as nat));
        assert(frac_units <= 9999);
    }
    Some(int_val * 10000 + frac_units)
}

/// The ASCII decimal digits of a number, most significant first.
pub open spec fn dec_digits(n: nat) -> Seq<u8>
    decreases n,
{
    if n < 10 {
        seq![(48 + n) as u8]
    } else {
        dec_digits(n / 10).push((48 + n % 10) as u8)
    }
}

/// Appends the decimal digits of `n`.
pub fn push_dec(out: &mut Vec<u8>, n: u128)
    ensures
        final(out)@ == old(out)@ + dec_digits(n as nat),
    decreases n,
{
    if n < 10 {
        out.push(48 + n as u8);
        proof {
            assert(out@ =~= old(out)@ + dec_digits(n as nat));
        }
    } else {
        push_dec(out, n / 10);
        out.push(48 + (n % 10) as u8);
        proof {
            assert(out@ =~= old(out)@ + dec_digits(n as nat));
        }
    }
}

/// Exactly four fractional digits, for a value below 10000.
pub open spec fn frac4_digits(f: nat) -> Seq<u8> {
    seq![
        (48 + f / 1000 % 10) as u8,
        (48 + f / 100 % 10) as u8,
        (48 + f / 10 % 10) as u8,
        (48 + f % 10) as u8,
    ]
}

/// The report's rendering of a balance: an optional minus sign, the whole
/// units, a dot, and exactly four fractional digits.
pub open spec fn units_digits(v: int) -> Seq<u8> {
    let m = if v < 0 {
        -v
    } else {
        v
    };
    let sign: Seq<u8> = if v < 0 {
        seq![45u8]
    } else {
        Seq::empty()
    };
    sign + dec_digits((m / 10000) as nat) + seq![46u8] + frac4_digits((m % 10000) as nat)
}

/// Appends a balance in fixed-point notation. Mirrors `units_digits`.
pub fn push_units(out: &mut Vec<u8>, v: i128)
    ensures
        final(out)@ == old(out)@ + units_digits(v as int),
{
    let m: u128 = if v < 0 {
        out.push(45);
        // Two's-complement-safe absolute value.
        (-(v + 1)) as u128 + 1
    } else {
        v as u128
    };
    push_dec(out, m / 10000);
    out.push(46);
    let f = (m % 10000) as u128;
    out.push(48 + (f / 1000 % 10) as u8);
    out.push(48 + (f / 100 % 10) as u8);
    out.push(48 + (f / 10 % 10) as u8);
    out.push(48 + (f % 10) as u8);
    proof {
        assert(out@ =~= old(out)@ + units_digits(v as int));
    }
}

} // verus!
