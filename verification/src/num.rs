//! Decimal numerals: verified formatting and parsing of integers as strings.
//!
//! Record keys, strategy identifiers and stored timestamps are all decimal
//! text, so the whole crate leans on these functions and their round-trip
//! lemmas.

use vstd::prelude::*;

verus! {

/// True of the ten ASCII digit characters.
pub open spec fn is_digit_char(c: char) -> bool {
    '0' <= c && c <= '9'
}

/// The numeric value of a digit character.
pub open spec fn digit_val(c: char) -> int {
    c as int - '0' as int
}

/// The digit character for a value in `0..10`.
pub open spec fn digit_char(d: int) -> char {
    if d == 0 {
        '0'
    } else if d == 1 {
        '1'
    } else if d == 2 {
        '2'
    } else if d == 3 {
        '3'
    } else if d == 4 {
        '4'
    } else if d == 5 {
        '5'
    } else if d == 6 {
        '6'
    } else if d == 7 {
        '7'
    } else if d == 8 {
        '8'
    } else {
        '9'
    }
}

/// Every character of `s` is a decimal digit.
pub open spec fn all_digits(s: Seq<char>) -> bool {
    forall|i: int| 0 <= i < s.len() ==> is_digit_char(#[trigger] s[i])
}

/// The value of a digit string, most significant digit first.
pub open spec fn dec_val(s: Seq<char>) -> int
    decreases s.len(),
{
    if s.len() == 0 {
        0
    } else {
        dec_val(s.drop_last()) * 10 + digit_val(s.last())
    }
}

/// The canonical decimal numeral of a natural number: no sign, no leading
/// zeros (except the numeral `0` itself).
pub open spec fn dec_of(n: nat) -> Seq<char>
    decreases n,
{
    if n < 10 {
        seq![digit_char(n as int)]
    } else {
        dec_of(n / 10).push(digit_char((n % 10) as int))
    }
}

/// The canonical decimal numeral of an integer: a leading `-` for negatives.
pub open spec fn dec_of_int(v: int) -> Seq<char> {
    if v < 0 {
        seq!['-'].add(dec_of((-v) as nat))
    } else {
        dec_of(v as nat)
    }
}

/// The digits of an integer numeral, with any single leading sign removed.
pub open spec fn digits_part(s: Seq<char>) -> Seq<char> {
    if s.len() > 0 && (s[0] == '-' || s[0] == '+') {
        s.subrange(1, s.len() as int)
    } else {
        s
    }
}

/// Whether the numeral denotes a negative number.
pub open spec fn is_neg_numeral(s: Seq<char>) -> bool {
    s.len() > 0 && s[0] == '-'
}

/// An integer numeral: an optional sign followed by at least one digit.
pub open spec fn is_int_numeral(s: Seq<char>) -> bool {
    digits_part(s).len() > 0 && all_digits(digits_part(s))
}

/// The value an integer numeral denotes.
pub open spec fn int_numeral_val(s: Seq<char>) -> int {
    if is_neg_numeral(s) {
        -dec_val(digits_part(s))
    } else {
        dec_val(digits_part(s))
    }
}

/// An integer numeral whose value fits in `i64`.
pub open spec fn is_i64_numeral(s: Seq<char>) -> bool {
    is_int_numeral(s) && i64::MIN <= int_numeral_val(s) <= i64::MAX
}

/// The value of a digit string is never negative.
pub proof fn lemma_dec_val_nonneg(s: Seq<char>)
    requires
        all_digits(s),
    ensures
        dec_val(s) >= 0,
    decreases s.len(),
{
    if s.len() > 0 {
        lemma_dec_val_nonneg(s.drop_last());
    }
}

/// Extending a digit string can only increase its value.
pub proof fn lemma_dec_val_prefix_mono(s: Seq<char>, j: int, k: int)
    requires
        all_digits(s),
        0 <= j <= k <= s.len(),
    ensures
        dec_val(s.subrange(0, j)) <= dec_val(s.subrange(0, k)),
    decreases k - j,
{
    if j < k {
        lemma_dec_val_prefix_mono(s, j, k - 1);
        let pre = s.subrange(0, k - 1);
        let cur = s.subrange(0, k);
        assert(cur.drop_last() =~= pre);
        assert(forall|i: int| 0 <= i < pre.len() ==> is_digit_char(#[trigger] pre[i]));
        lemma_dec_val_nonneg(pre);
        assert(dec_val(cur) == dec_val(pre) * 10 + digit_val(cur.last()));
        assert(dec_val(pre) * 10 >= dec_val(pre));
    }
}

/// The canonical numeral of `n` is made of digits, is non-empty, and
/// denotes `n`.
pub proof fn lemma_dec_of(n: nat)
    ensures
        all_digits(dec_of(n)),
        dec_of(n).len() >= 1,
        dec_val(dec_of(n)) == n,
    decreases n,
{
    if n < 10 {
        let s = dec_of(n);
        assert(s =~= seq![digit_char(n as int)]);
        assert(s.len() == 1);
        assert(s.last() == digit_char(n as int));
        assert(s.drop_last() =~= Seq::<char>::empty());
        assert(dec_val(Seq::<char>::empty()) == 0);
        assert(dec_val(s) == dec_val(s.drop_last()) * 10 + digit_val(s.last()));
    } else {
        lemma_dec_of(n / 10);
        let pre = dec_of(n / 10);
        let d = digit_char((n % 10) as int);
        let s = pre.push(d);
        assert(s.drop_last() =~= pre);
        assert(s.last() == d);
        assert(digit_val(d) == n % 10);
        assert(dec_val(s) == dec_val(pre) * 10 + digit_val(d));
        assert(n / 10 * 10 + n % 10 == n) by (nonlinear_arith);
        assert(forall|i: int|
            0 <= i < s.len() ==> is_digit_char(#[trigger] s[i]));
    }
}

/// The canonical numeral of an `i64` value parses back to that value.
pub proof fn lemma_int_numeral_round_trip(v: int)
    requires
        i64::MIN <= v <= i64::MAX,
    ensures
        is_i64_numeral(dec_of_int(v)),
        int_numeral_val(dec_of_int(v)) == v,
{
    if v < 0 {
        let m = (-v) as nat;
        lemma_dec_of(m);
        let s = dec_of_int(v);
        assert(s == seq!['-'].add(dec_of(m)));
        assert(s[0] == '-');
        assert(s.subrange(1, s.len() as int) =~= dec_of(m));
        assert(digits_part(s) == dec_of(m));
        assert(is_neg_numeral(s));
    } else {
        let s = dec_of(v as nat);
        lemma_dec_of(v as nat);
        assert(is_digit_char(s[0]));
        assert(s[0] != '-' && s[0] != '+');
        assert(digits_part(dec_of_int(v)) == s);
        assert(!is_neg_numeral(dec_of_int(v)));
    }
}

/// The string `"0"` through `"9"` for a digit value.
fn digit_str(d: u64) -> (r: &'static str)
    requires
        d < 10,
    ensures
        r@ =~= seq![digit_char(d as int)],
{
    if d == 0 {
        let s = "0";
        proof {
            reveal_strlit("0");
        }
        s
    } else if d == 1 {
        let s = "1";
        proof {
            reveal_strlit("1");
        }
        s
    } else if d == 2 {
        let s = "2";
        proof {
            reveal_strlit("2");
        }
        s
    } else if d == 3 {
        let s = "3";
        proof {
            reveal_strlit("3");
        }
        s
    } else if d == 4 {
        let s = "4";
        proof {
            reveal_strlit("4");
        }
        s
    } else if d == 5 {
        let s = "5";
        proof {
            reveal_strlit("5");
        }
        s
    } else if d == 6 {
        let s = "6";
        proof {
            reveal_strlit("6");
        }
        s
    } else if d == 7 {
        let s = "7";
        proof {
            reveal_strlit("7");
        }
        s
    } else if d == 8 {
        let s = "8";
        proof {
            reveal_strlit("8");
        }
        s
    } else {
        let s = "9";
        proof {
            reveal_strlit("9");
        }
        s
    }
}

/// Format a `u64` as its canonical decimal numeral.
pub fn fmt_u64(n: u64) -> (r: String)
    ensures
        r@ == dec_of(n as nat),
    decreases n,
{
    if n < 10 {
        digit_str(n).to_owned()
    } else {
        let mut s = fmt_u64(n / 10);
        s.append(digit_str(n % 10));
        proof {
            assert(s@ =~= dec_of(n as nat));
        }
        s
    }
}

/// Format an `i64` as its canonical decimal numeral.
pub fn fmt_i64(v: i64) -> (r: String)
    ensures
        r@ == dec_of_int(v as int),
{
    if v < 0 {
        // Negate without overflowing on i64::MIN.
        let m: u64 = ((-(v + 1)) as u64) + 1;
        assert(m == -(v as int));
        let mut s = "-".to_owned();
        proof {
            reveal_strlit("-");
            assert("-"@ =~= seq!['-']);
        }
        let digits = fmt_u64(m);
        s.append(digits.as_str());
        proof {
            assert(s@ =~= dec_of_int(v as int));
        }
        s
    } else {
        fmt_u64(v as u64)
    }
}

/// Parse a string of decimal digits as a `u64`.
///
/// Returns `Some` exactly when the string is a non-empty run of digits whose
/// value fits in `u64`.
pub fn parse_u64_digits(s: &str) -> (r: Option<u64>)
    ensures
        r is Some <==> s@.len() > 0 && all_digits(s@) && dec_val(s@) <= u64::MAX,
        r is Some ==> r->Some_0 == dec_val(s@),
{
    let n = s.unicode_len();
    if n == 0 {
        return None;
    }
    let mut acc: u64 = 0;
    let mut i: usize = 0;
    while i < n
        invariant
            0 < n == s@.len(),
            0 <= i <= n,
            all_digits(s@.subrange(0, i as int)),
            acc == dec_val(s@.subrange(0, i as int)),
        decreases n - i,
    {
        let c = s.get_char(i);
        let cu = c as u32;
        if cu < 48 || cu > 57 {
            assert(!is_digit_char(s@[i as int]));
            return None;
        }
        let d: u64 = (cu - 48) as u64;
        assert(d == digit_val(s@[i as int]) && d < 10);
        proof {
            assert(s@.subrange(0, i + 1).drop_last() =~= s@.subrange(0, i as int));
            assert(s@.subrange(0, i + 1).last() == s@[i as int]);
            lemma_dec_val_nonneg(s@.subrange(0, i as int));
        }
        if acc > u64::MAX / 10 || (acc == u64::MAX / 10 && d > u64::MAX % 10) {
            proof {
                assert(u64::MAX == (u64::MAX / 10) * 10 + u64::MAX % 10);
                assert(dec_val(s@.subrange(0, i + 1)) == acc * 10 + d);
                assert(acc * 10 + d > u64::MAX) by (nonlinear_arith)
                    requires
                        acc > u64::MAX / 10 || (acc == u64::MAX / 10 && d > u64::MAX % 10),
                        u64::MAX == (u64::MAX / 10) * 10 + u64::MAX % 10,
                        acc >= 0,
                        d >= 0,
                ;
                if all_digits(s@) {
                    assert(forall|k: int|
                        0 <= k < i + 1 ==> is_digit_char(#[trigger] s@.subrange(0, i + 1)[k]));
                    lemma_dec_val_prefix_mono(s@, i + 1, n as int);
                    assert(s@.subrange(0, n as int) =~= s@);
                    assert(dec_val(s@) > u64::MAX);
                }
            }
            return None;
        }
        assert(acc * 10 + d <= u64::MAX) by (nonlinear_arith)
            requires
                acc <= u64::MAX / 10,
                d < 10,
                !(acc == u64::MAX / 10 && d > u64::MAX % 10),
                u64::MAX == (u64::MAX / 10) * 10 + u64::MAX % 10,
                acc >= 0,
                d >= 0,
        ;
        acc = acc * 10 + d;
        i = i + 1;
        proof {
            assert(forall|k: int|
                0 <= k < i ==> is_digit_char(#[trigger] s@.subrange(0, i as int)[k]));
        }
    }
    proof {
        assert(s@.subrange(0, n as int) =~= s@);
        lemma_dec_val_nonneg(s@);
    }
    Some(acc)
}

/// The index just past the run of digits starting at `i`.
pub open spec fn skip_digits(s: Seq<char>, i: int) -> int
    decreases s.len() - i,
{
    if 0 <= i && i < s.len() && is_digit_char(s[i]) {
        skip_digits(s, i + 1)
    } else {
        i
    }
}

/// A floating-point numeral: an optional sign, then either digits with an
/// optional fraction or a bare fraction with digits, then an optional
/// exponent. Non-integer numbers are carried through the store as this
/// decimal text.
pub open spec fn is_float_numeral(s: Seq<char>) -> bool {
    let start: int = if s.len() > 0 && (s[0] == '+' || s[0] == '-') {
        1
    } else {
        0
    };
    let d1 = skip_digits(s, start);
    let mant_end: int = if d1 > start {
        if d1 < s.len() && s[d1] == '.' {
            skip_digits(s, d1 + 1)
        } else {
            d1
        }
    } else if d1 < s.len() && s[d1] == '.' && skip_digits(s, d1 + 1) > d1 + 1 {
        skip_digits(s, d1 + 1)
    } else {
        -1
    };
    if mant_end < 0 {
        false
    } else if mant_end == s.len() {
        true
    } else if s[mant_end] == 'e' || s[mant_end] == 'E' {
        let es: int = if mant_end + 1 < s.len() && (s[mant_end + 1] == '+' || s[mant_end + 1]
            == '-') {
            mant_end + 2
        } else {
            mant_end + 1
        };
        let de = skip_digits(s, es);
        de > es && de == s.len()
    } else {
        false
    }
}

/// The index just past the run of digits starting at `from`.
fn skip_digits_run(s: &str, from: usize) -> (r: usize)
    requires
        from <= s@.len(),
        s@.len() <= usize::MAX,
    ensures
        r == skip_digits(s@, from as int),
        from <= r <= s@.len(),
{
    let n = s.unicode_len();
    let mut j = from;
    loop
        invariant
            from <= j <= n,
            n == s@.len() <= usize::MAX,
            skip_digits(s@, from as int) == skip_digits(s@, j as int),
        ensures
            from <= j <= n,
            skip_digits(s@, from as int) == j,
        decreases n - j,
    {
        if j == n {
            break;
        }
        let c = s.get_char(j) as u32;
        if c < 48 || c > 57 {
            assert(!is_digit_char(s@[j as int]));
            break;
        }
        assert(is_digit_char(s@[j as int]));
        j = j + 1;
    }
    j
}

/// Whether a string is a floating-point numeral.
pub fn float_numeral(s: &str) -> (r: bool)
    ensures
        r == is_float_numeral(s@),
{
    let n = s.unicode_len();
    let start: usize = if n > 0 {
        let c = s.get_char(0) as u32;
        if c == 43 || c == 45 {
            1
        } else {
            0
        }
    } else {
        0
    };
    let d1 = skip_digits_run(s, start);
    let mant_end: usize;
    if d1 > start {
        if d1 < n {
            let c = s.get_char(d1) as u32;
            if c == 46 {
                mant_end = skip_digits_run(s, d1 + 1);
            } else {
                mant_end = d1;
            }
        } else {
            mant_end = d1;
        }
    } else if d1 < n {
        let c = s.get_char(d1) as u32;
        if c == 46 {
            let e2 = skip_digits_run(s, d1 + 1);
            if e2 > d1 + 1 {
                mant_end = e2;
            } else {
                return false;
            }
        } else {
            return false;
        }
    } else {
        return false;
    }
    if mant_end == n {
        return true;
    }
    let c = s.get_char(mant_end) as u32;
    if c != 101 && c != 69 {
        return false;
    }
    let es: usize = if mant_end + 1 < n {
        let c2 = s.get_char(mant_end + 1) as u32;
        if c2 == 43 || c2 == 45 {
            mant_end + 2
        } else {
            mant_end + 1
        }
    } else {
        mant_end + 1
    };
    let de = skip_digits_run(s, es);
    de > es && de == n
}

/// Parse an integer numeral (optional `+` or `-` sign, then digits) as an
/// `i64`.
///
/// Returns `Some` exactly when the string is an integer numeral whose value
/// fits in `i64`.
pub fn parse_i64(s: &str) -> (r: Option<i64>)
    ensures
        r is Some <==> is_i64_numeral(s@),
        r is Some ==> r->Some_0 == int_numeral_val(s@),
{
    let n = s.unicode_len();
    if n == 0 {
        return None;
    }
    let c0 = s.get_char(0) as u32;
    let neg = c0 == 45;
    let signed = neg || c0 == 43;
    let start: usize = if signed {
        1
    } else {
        0
    };
    let rest = s.substring_char(start, n);
    proof {
        if signed {
            assert(s@[0] == '-' || s@[0] == '+');
            assert(rest@ =~= digits_part(s@));
        } else {
            assert(!(s@[0] == '-' || s@[0] == '+'));
            assert(rest@ =~= digits_part(s@));
        }
        assert(neg == is_neg_numeral(s@));
    }
    match parse_u64_digits(rest) {
        None => {
            proof {
                if is_i64_numeral(s@) {
                    lemma_dec_val_nonneg(digits_part(s@));
                    if neg {
                        assert(int_numeral_val(s@) >= i64::MIN);
                        assert(dec_val(digits_part(s@)) <= 9223372036854775808);
                    } else {
                        assert(dec_val(digits_part(s@)) <= i64::MAX);
                    }
                }
            }
            None
        },
        Some(m) => {
            if neg {
                if m <= 9223372036854775807u64 {
                    Some(-(m as i64))
                } else if m == 9223372036854775808u64 {
                    Some(i64::MIN)
                } else {
                    None
                }
            } else {
                if m <= 9223372036854775807u64 {
                    Some(m as i64)
                } else {
                    None
                }
            }
        },
    }
}

} // verus!
