use vstd::prelude::*;
use vstd::string::StrSliceExecFns;
use vstd::string::StringExecFns;

verus! {

/// c is a decimal digit.
pub open spec fn is_digit(c: char) -> bool {
    '0' <= c && c <= '9'
}

/// Numeric value of a digit character.
pub open spec fn digit_val(c: char) -> nat {
    (c as u32 - '0' as u32) as nat
}

pub open spec fn all_digits(s: Seq<char>) -> bool {
    forall|i: int| 0 <= i < s.len() ==> is_digit(#[trigger] s[i])
}

/// Value of a run of decimal digits, most significant first.
pub open spec fn digits_val(s: Seq<char>) -> nat
    decreases s.len(),
{
    if s.len() == 0 {
        0
    } else {
        digits_val(s.drop_last()) * 10 + digit_val(s.last())
    }
}

/// s is a well-formed signed decimal literal: an optional sign followed by
/// at least one digit and nothing else.
pub open spec fn is_int_literal(s: Seq<char>) -> bool {
    if s.len() == 0 {
        false
    } else if s[0] == '-' || s[0] == '+' {
        s.len() > 1 && all_digits(s.skip(1))
    } else {
        all_digits(s)
    }
}

/// s is a well-formed unsigned decimal literal: an optional leading '+'
/// followed by at least one digit and nothing else.
pub open spec fn is_uint_literal(s: Seq<char>) -> bool {
    is_int_literal(s) && (s.len() == 0 || s[0] != '-')
}

/// The integer a well-formed literal denotes.
pub open spec fn int_of(s: Seq<char>) -> int {
    if s.len() > 0 && s[0] == '-' {
        -(digits_val(s.skip(1)) as int)
    } else if s.len() > 0 && s[0] == '+' {
        digits_val(s.skip(1)) as int
    } else {
        digits_val(s) as int
    }
}

/// Appending digits never lowers the value of a digit run.
proof fn lemma_digits_val_mono(t: Seq<char>, j: int)
    requires
        0 <= j <= t.len(),
    ensures
        digits_val(t) >= digits_val(t.subrange(0, j)),
    decreases t.len(),
{
    if t.len() > j {
        lemma_digits_val_mono(t.drop_last(), j);
        assert(t.drop_last().subrange(0, j) =~= t.subrange(0, j));
    } else {
        assert(t.subrange(0, j) =~= t);
    }
}

/// Parse the digit run of `s` from position `start` on, up to `limit`.
/// Returns the value exactly when the rest of `s` is a nonempty digit run
/// whose value does not exceed `limit`.
fn parse_digits(s: &str, start: usize, limit: u128) -> (r: Option<u128>)
    requires
        start as int <= s@.len(),
        limit <= 0x2_0000_0000_0000_0000,
    ensures
        match r {
            Some(v) => s@.len() - start > 0 && all_digits(s@.skip(start as int))
                && v as nat == digits_val(s@.skip(start as int)) && v <= limit,
            None => !(s@.len() - start > 0 && all_digits(s@.skip(start as int))
                && digits_val(s@.skip(start as int)) <= limit),
        },
{
    let n = s.unicode_len();
    if start >= n {
        return None;
    }
    let ghost t = s@.skip(start as int);
    let mut acc: u128 = 0;
    let mut i: usize = start;
    while i < n
        invariant
            start <= i <= n,
            n == s@.len(),
            t == s@.skip(start as int),
            all_digits(s@.subrange(start as int, i as int)),
            acc as nat == digits_val(s@.subrange(start as int, i as int)),
            acc <= limit,
            limit <= 0x2_0000_0000_0000_0000,
        decreases n - i,
    {
        let c = s.get_char(i);
        proof {
            assert(t[i - start] == s@[i as int]);
        }
        if c < '0' || c > '9' {
            assert(!is_digit(t[i - start]));
            return None;
        }
        let d: u128 = (c as u32 - 48) as u128;
        proof {
            assert(s@.subrange(start as int, i + 1).drop_last() =~= s@.subrange(
                start as int,
                i as int,
            ));
            assert(s@.subrange(start as int, i + 1).last() == s@[i as int]);
        }
        let newacc = acc * 10 + d;
        if newacc > limit {
            proof {
                lemma_digits_val_mono(t, i + 1 - start);
                assert(t.subrange(0, i + 1 - start) =~= s@.subrange(start as int, i + 1));
                assert(digits_val(t) >= newacc);
            }
            return None;
        }
        acc = newacc;
        i += 1;
    }
    proof {
        assert(s@.subrange(start as int, n as int) =~= t);
    }
    Some(acc)
}

/// Parse a signed 64-bit decimal integer, exactly as the stored text form
/// of a counter is read back: an optional sign, then digits, in range.
pub fn parse_i64(s: &str) -> (r: Option<i64>)
    ensures
        match r {
            Some(v) => is_int_literal(s@) && i64::MIN <= int_of(s@) <= i64::MAX && v as int
                == int_of(s@),
            None => !(is_int_literal(s@) && i64::MIN <= int_of(s@) <= i64::MAX),
        },
{
    let n = s.unicode_len();
    if n == 0 {
        return None;
    }
    let c0 = s.get_char(0);
    let neg = c0 == '-';
    let signed = neg || c0 == '+';
    let start: usize = if signed {
        1
    } else {
        0
    };
    proof {
        if start == 0 {
            assert(s@.skip(0) =~= s@);
        }
    }
    match parse_digits(s, start, 0x8000_0000_0000_0000) {
        None => None,
        Some(m) => {
            if neg {
                Some((-(m as i128)) as i64)
            } else if m > 0x7fff_ffff_ffff_ffff {
                None
            } else {
                Some(m as i64)
            }
        }
    }
}

/// Parse an unsigned 64-bit decimal integer (an optional '+' is accepted).
pub fn parse_u64(s: &str) -> (r: Option<u64>)
    ensures
        match r {
            Some(v) => is_uint_literal(s@) && int_of(s@) <= u64::MAX && v as int == int_of(s@),
            None => !(is_uint_literal(s@) && int_of(s@) <= u64::MAX),
        },
{
    let n = s.unicode_len();
    if n == 0 {
        return None;
    }
    let c0 = s.get_char(0);
    if c0 == '-' {
        return None;
    }
    let start: usize = if c0 == '+' {
        1
    } else {
        0
    };
    proof {
        if start == 0 {
            assert(s@.skip(0) =~= s@);
        }
    }
    match parse_digits(s, start, u64::MAX as u128) {
        None => None,
        Some(m) => Some(m as u64),
    }
}

/// Parse a decimal `usize` (an optional '+' is accepted).
pub fn parse_usize(s: &str) -> (r: Option<usize>)
    ensures
        match r {
            Some(v) => is_uint_literal(s@) && int_of(s@) <= usize::MAX && v as int == int_of(s@),
            None => !(is_uint_literal(s@) && int_of(s@) <= usize::MAX),
        },
{
    let n = s.unicode_len();
    if n == 0 {
        return None;
    }
    let c0 = s.get_char(0);
    if c0 == '-' {
        return None;
    }
    let start: usize = if c0 == '+' {
        1
    } else {
        0
    };
    proof {
        if start == 0 {
            assert(s@.skip(0) =~= s@);
        }
    }
    match parse_digits(s, start, usize::MAX as u128) {
        None => None,
        Some(m) => Some(m as usize),
    }
}

/// The digit character for a value below ten.
pub open spec fn digit_char(d: nat) -> char {
    if d == 0 {
        '0'
    } else if d == 1 {
        '1'
    } else if d == 2 {
        '2'
    } else if d == 3 {
        '3'
    } else if d == 4 {
        '4'
    } else if d == 5 {
        '5'
    } else if d == 6 {
        '6'
    } else if d == 7 {
        '7'
    } else if d == 8 {
        '8'
    } else {
        '9'
    }
}

/// Decimal rendering of a natural number, no sign, no leading zeros
/// (a single '0' for zero).
pub open spec fn dec_digits_of(n: nat) -> Seq<char>
    decreases n,
{
    if n < 10 {
        seq![digit_char(n)]
    } else {
        dec_digits_of(n / 10).push(digit_char(n % 10))
    }
}

/// Decimal rendering of an integer, '-' prefix for negative values.
pub open spec fn dec_int_of(v: int) -> Seq<char> {
    if v < 0 {
        seq!['-'] + dec_digits_of((-v) as nat)
    } else {
        dec_digits_of(v as nat)
    }
}

pub fn digit_str(d: u64) -> (r: &'static str)
    requires
        d < 10,
    ensures
        r@ == seq![digit_char(d as nat)],
{
    proof {
        reveal_strlit("0");
        reveal_strlit("1");
        reveal_strlit("2");
        reveal_strlit("3");
        reveal_strlit("4");
        reveal_strlit("5");
        reveal_strlit("6");
        reveal_strlit("7");
        reveal_strlit("8");
        reveal_strlit("9");
    }
    let r = if d == 0 {
        "0"
    } else if d == 1 {
        "1"
    } else if d == 2 {
        "2"
    } else if d == 3 {
        "3"
    } else if d == 4 {
        "4"
    } else if d == 5 {
        "5"
    } else if d == 6 {
        "6"
    } else if d == 7 {
        "7"
    } else if d == 8 {
        "8"
    } else {
        "9"
    };
    proof {
        assert(r@ =~= seq![digit_char(d as nat)]);
    }
    r
}

/// Render an unsigned integer in decimal.
pub fn u64_to_string(n: u64) -> (r: String)
    ensures
        r@ == dec_digits_of(n as nat),
    decreases n,
{
    if n < 10 {
        digit_str(n).to_owned()
    } else {
        let mut r = u64_to_string(n / 10);
        r.append(digit_str(n % 10));
        proof {
            assert(dec_digits_of((n as nat) / 10).push(digit_char((n as nat) % 10))
                =~= dec_digits_of((n as nat) / 10) + seq![digit_char((n as nat) % 10)]);
        }
        r
    }
}

/// Render a signed integer in decimal.
pub fn i64_to_string(v: i64) -> (r: String)
    ensures
        r@ == dec_int_of(v as int),
{
    if v >= 0 {
        u64_to_string(v as u64)
    } else {
        let mag: u64 = (-(v as i128)) as u64;
        let mut r = String::from_str("-");
        let digits = u64_to_string(mag);
        r.append(digits.as_str());
        proof {
            reveal_strlit("-");
            assert("-"@ =~= seq!['-']);
        }
        r
    }
}

/// Rendering a natural number yields digits only, and reading them back
/// yields the number.
pub proof fn lemma_dec_digits_val(n: nat)
    ensures
        all_digits(dec_digits_of(n)),
        digits_val(dec_digits_of(n)) == n,
        dec_digits_of(n).len() >= 1,
        is_digit(dec_digits_of(n)[0]),
    decreases n,
{
    if n < 10 {
        let s = seq![digit_char(n)];
        assert(s.drop_last() =~= Seq::<char>::empty());
        assert(s.last() == digit_char(n));
        assert(digits_val(Seq::<char>::empty()) == 0);
        assert(digit_val(digit_char(n)) == n);
        assert(digits_val(s) == n);
    } else {
        lemma_dec_digits_val(n / 10);
        let p = dec_digits_of(n / 10);
        let d = digit_char(n % 10);
        assert(dec_digits_of(n) == p.push(d));
        assert(p.push(d).drop_last() =~= p);
        assert(p.push(d).last() == d);
        assert(digit_val(d) == n % 10);
        assert(digits_val(p.push(d)) == digits_val(p) * 10 + digit_val(d));
        assert((n / 10) * 10 + n % 10 == n) by (nonlinear_arith);
        assert(forall|i: int| 0 <= i < p.push(d).len() ==> is_digit(#[trigger] p.push(d)[i]));
    }
}

/// Rendering an integer in range and parsing it back is the identity.
pub proof fn lemma_dec_int_roundtrip(v: int)
    requires
        i64::MIN <= v <= i64::MAX,
    ensures
        is_int_literal(dec_int_of(v)),
        int_of(dec_int_of(v)) == v,
{
    if v < 0 {
        lemma_dec_digits_val((-v) as nat);
        let s = seq!['-'] + dec_digits_of((-v) as nat);
        assert(s.skip(1) =~= dec_digits_of((-v) as nat));
        assert(s[0] == '-');
    } else {
        lemma_dec_digits_val(v as nat);
        let s = dec_digits_of(v as nat);
        assert(is_digit(s[0]));
        assert(s[0] != '-' && s[0] != '+');
    }
}

} // verus!
