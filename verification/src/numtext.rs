//! Decimal text for ids: rendering an `i64` and parsing one back.
//!
//! Item ids travel through callback payloads and through the serialized
//! selection string of a delete session, so both directions are verified and
//! proved inverse to each other.

use vstd::prelude::*;

verus! {

/// The digit character for a value in `0..10`.
pub open spec fn dec_digit(d: int) -> char
    recommends
        0 <= d < 10,
{
    if d == 0 {
        '0'
    } else if d == 1 {
        '1'
    } else if d == 2 {
        '2'
    } else if d == 3 {
        '3'
    } else if d == 4 {
        '4'
    } else if d == 5 {
        '5'
    } else if d == 6 {
        '6'
    } else if d == 7 {
        '7'
    } else if d == 8 {
        '8'
    } else {
        '9'
    }
}

/// Whether `c` is an ASCII decimal digit.
pub open spec fn is_dec_digit(c: char) -> bool {
    48 <= c as u32 <= 57
}

/// The numeric value of a digit character.
pub open spec fn digit_val(c: char) -> int
    recommends
        is_dec_digit(c),
{
    c as u32 - 48
}

/// Decimal representation of a non-negative value, most significant digit
/// first.
pub open spec fn dec_nat(n: int) -> Seq<char>
    recommends
        n >= 0,
    decreases n,
{
    if n < 10 {
        seq![dec_digit(n)]
    } else {
        dec_nat(n / 10).push(dec_digit(n % 10))
    }
}

/// Decimal representation of a signed value.
pub open spec fn dec_int(n: int) -> Seq<char> {
    if n < 0 {
        seq!['-'] + dec_nat(-n)
    } else {
        dec_nat(n)
    }
}

/// Whether every character of `s` is a decimal digit.
pub open spec fn all_dec_digits(s: Seq<char>) -> bool {
    forall|i: int| 0 <= i < s.len() ==> is_dec_digit(#[trigger] s[i])
}

/// The value of a digit string, most significant digit first.
pub open spec fn digits_val(s: Seq<char>) -> int
    decreases s.len(),
{
    if s.len() == 0 {
        0
    } else {
        digits_val(s.drop_last()) * 10 + digit_val(s.last())
    }
}

/// What parsing a decimal string yields: an optional sign, then at least one
/// digit, and a value that fits in `i64`; anything else is rejected.
pub open spec fn parse_int_spec(s: Seq<char>) -> Option<i64> {
    let ds = if s.len() > 0 && (s[0] == '-' || s[0] == '+') {
        s.skip(1)
    } else {
        s
    };
    let neg = s.len() > 0 && s[0] == '-';
    if ds.len() == 0 || !all_dec_digits(ds) {
        None
    } else {
        let v = if neg {
            -digits_val(ds)
        } else {
            digits_val(ds)
        };
        if i64::MIN <= v <= i64::MAX {
            Some(v as i64)
        } else {
            None
        }
    }
}

proof fn lemma_dec_nat_digits(n: int)
    requires
        n >= 0,
    ensures
        dec_nat(n).len() >= 1,
        all_dec_digits(dec_nat(n)),
        digits_val(dec_nat(n)) == n,
    decreases n,
{
    if n < 10 {
        assert(dec_nat(n) =~= seq![dec_digit(n)]);
        assert(dec_nat(n).drop_last() =~= Seq::<char>::empty());
        assert('0' as u32 == 48 && '1' as u32 == 49 && '2' as u32 == 50 && '3' as u32 == 51
            && '4' as u32 == 52 && '5' as u32 == 53 && '6' as u32 == 54 && '7' as u32 == 55
            && '8' as u32 == 56 && '9' as u32 == 57);
        assert(digit_val(dec_digit(n)) == n);
        assert(digits_val(Seq::<char>::empty()) == 0);
        assert(digits_val(dec_nat(n)) == n);
    } else {
        lemma_dec_nat_digits(n / 10);
        let prefix = dec_nat(n / 10);
        let whole = prefix.push(dec_digit(n % 10));
        assert(whole.drop_last() =~= prefix);
        assert(whole.last() == dec_digit(n % 10));
        assert(forall|i: int|
            0 <= i < whole.len() ==> is_dec_digit(#[trigger] whole[i])) by {
            assert(forall|i: int|
                0 <= i < prefix.len() ==> is_dec_digit(#[trigger] prefix[i]));
        }
    }
}

/// Digit strings never contain a separator or sign character.
proof fn lemma_all_digits_no_special(s: Seq<char>, c: char)
    requires
        all_dec_digits(s),
        !is_dec_digit(c),
    ensures
        forall|i: int| 0 <= i < s.len() ==> s[i] != c,
{
}

/// Rendering then parsing gives the value back: the two directions are
/// inverse on every `i64`.
pub proof fn lemma_parse_dec_int(n: i64)
    ensures
        parse_int_spec(dec_int(n as int)) == Some(n),
{
    if n >= 0 {
        lemma_dec_nat_digits(n as int);
        let s = dec_nat(n as int);
        assert(is_dec_digit(s[0]));
        assert(s[0] != '-' && s[0] != '+');
    } else {
        lemma_dec_nat_digits(-(n as int));
        let ds = dec_nat(-(n as int));
        let s = seq!['-'] + ds;
        assert(s[0] == '-');
        assert(s.skip(1) =~= ds);
    }
}

/// A rendered id contains no comma, so comma-joined lists split back apart.
pub proof fn lemma_dec_int_no_comma(n: int)
    ensures
        forall|i: int| 0 <= i < dec_int(n).len() ==> dec_int(n)[i] != ',',
        dec_int(n).len() >= 1,
{
    if n >= 0 {
        lemma_dec_nat_digits(n);
        lemma_all_digits_no_special(dec_nat(n), ',');
    } else {
        lemma_dec_nat_digits(-n);
        let ds = dec_nat(-n);
        lemma_all_digits_no_special(ds, ',');
        let s = seq!['-'] + ds;
        assert(forall|i: int| 0 <= i < s.len() ==> s[i] != ',') by {
            assert(forall|i: int| 0 <= i < ds.len() ==> ds[i] != ',');
            assert(forall|i: int| 1 <= i < s.len() ==> s[i] == ds[i - 1]);
        }
    }
}

/// The digit as a one-character string slice.
fn digit_str(d: u64) -> (r: &'static str)
    requires
        d < 10,
    ensures
        r@ =~= seq![dec_digit(d as int)],
{
    if d == 0 {
        let s = "0";
        proof {
            reveal_strlit("0");
        }
        s
    } else if d == 1 {
        let s = "1";
        proof {
            reveal_strlit("1");
        }
        s
    } else if d == 2 {
        let s = "2";
        proof {
            reveal_strlit("2");
        }
        s
    } else if d == 3 {
        let s = "3";
        proof {
            reveal_strlit("3");
        }
        s
    } else if d == 4 {
        let s = "4";
        proof {
            reveal_strlit("4");
        }
        s
    } else if d == 5 {
        let s = "5";
        proof {
            reveal_strlit("5");
        }
        s
    } else if d == 6 {
        let s = "6";
        proof {
            reveal_strlit("6");
        }
        s
    } else if d == 7 {
        let s = "7";
        proof {
            reveal_strlit("7");
        }
        s
    } else if d == 8 {
        let s = "8";
        proof {
            reveal_strlit("8");
        }
        s
    } else {
        let s = "9";
        proof {
            reveal_strlit("9");
        }
        s
    }
}

/// Decimal text of a non-negative value.
fn fmt_u64(n: u64) -> (r: String)
    ensures
        r@ == dec_nat(n as int),
    decreases n,
{
    if n < 10 {
        digit_str(n).to_owned()
    } else {
        let mut s = fmt_u64(n / 10);
        s.append(digit_str(n % 10));
        s
    }
}

/// Decimal text of a signed id, as `i64::to_string` would produce it.
pub fn fmt_i64(n: i64) -> (r: String)
    ensures
        r@ == dec_int(n as int),
{
    if n >= 0 {
        fmt_u64(n as u64)
    } else {
        let mag_wide: i128 = -(n as i128);
        let mag: u64 = mag_wide as u64;
        let mut s = String::new();
        let dash = "-";
        proof {
            reveal_strlit("-");
        }
        s.append(dash);
        s.append(fmt_u64(mag).as_str());
        proof {
            assert(s@ =~= seq!['-'] + dec_nat(-(n as int)));
        }
        s
    }
}

/// Growing a digit string can only grow the value it denotes.
proof fn lemma_digits_val_monotone(s: Seq<char>, i: int)
    requires
        all_dec_digits(s),
        0 <= i <= s.len(),
    ensures
        digits_val(s) >= digits_val(s.take(i)),
        digits_val(s.take(i)) >= 0,
    decreases s.len() - i,
{
    if i == s.len() {
        assert(s.take(i) =~= s);
        lemma_digits_val_nonneg(s);
    } else {
        lemma_digits_val_monotone(s, i + 1);
        let t = s.take(i + 1);
        assert(t.drop_last() =~= s.take(i));
        assert(t.last() == s[i]);
        lemma_digits_val_nonneg(s.take(i));
    }
}

proof fn lemma_digits_val_nonneg(s: Seq<char>)
    requires
        all_dec_digits(s),
    ensures
        digits_val(s) >= 0,
    decreases s.len(),
{
    if s.len() > 0 {
        assert(all_dec_digits(s.drop_last())) by {
            assert(forall|i: int|
                0 <= i < s.len() - 1 ==> is_dec_digit(#[trigger] s.drop_last()[i]));
        }
        lemma_digits_val_nonneg(s.drop_last());
    }
}

/// Parse a decimal string with optional sign, as `str::parse::<i64>` does:
/// any other character or an out-of-range value is rejected.
pub fn parse_i64(s: &str) -> (r: Option<i64>)
    ensures
        r == parse_int_spec(s@),
{
    let n = s.unicode_len();
    let ghost whole = s@;
    if n == 0 {
        return None;
    }
    let first = s.get_char(0);
    let (neg, start) = if first == '-' {
        (true, 1usize)
    } else if first == '+' {
        (false, 1usize)
    } else {
        (false, 0usize)
    };
    let ghost ds = if first == '-' || first == '+' {
        whole.skip(1)
    } else {
        whole
    };
    proof {
        assert(forall|i: int|
            0 <= i < ds.len() ==> ds[i] == whole[i + start]);
    }
    if start == n {
        return None;
    }
    let mut mag: i128 = 0;
    let mut idx = start;
    while idx < n
        invariant
            start <= idx <= n,
            n == whole.len(),
            s@ == whole,
            0 <= start <= 1,
            whole.len() > 0,
            ds == (if whole[0] == '-' || whole[0] == '+' {
                whole.skip(1)
            } else {
                whole
            }),
            neg == (whole[0] == '-'),
            start + ds.len() == whole.len(),
            forall|i: int| 0 <= i < ds.len() ==> ds[i] == whole[i + start],
            all_dec_digits(ds.take(idx - start)),
            mag == digits_val(ds.take(idx - start)),
            0 <= mag <= 0x8000_0000_0000_0000i128,
        decreases n - idx,
    {
        let c = s.get_char(idx);
        let code = c as u32;
        if code < 48 || code > 57 {
            proof {
                assert(ds[idx - start] == c);
                assert(!is_dec_digit(ds[idx - start]));
                assert(!all_dec_digits(ds));
                assert(whole.len() > 0);
                if whole[0] == '-' || whole[0] == '+' {
                    assert(ds == whole.skip(1));
                } else {
                    assert(ds == whole);
                }
                assert(parse_int_spec(whole) == None::<i64>);
            }
            return None;
        }
        let d: i128 = (code - 48) as i128;
        let next = mag * 10 + d;
        proof {
            let k = idx + 1 - start;
            assert(ds.take(k).drop_last() =~= ds.take(idx - start));
            assert(ds.take(k).last() == ds[idx - start]);
            assert(is_dec_digit(ds[idx - start]));
            assert(digit_val(ds[idx - start]) == d);
            assert(digits_val(ds.take(k)) == mag * 10 + d);
            assert(forall|i: int|
                0 <= i < k ==> is_dec_digit(#[trigger] ds.take(k)[i])) by {
                assert(forall|i: int|
                    0 <= i < k - 1 ==> ds.take(k)[i] == ds.take(idx - start)[i]);
                assert(ds.take(k)[k - 1] == ds[idx - start]);
            }
        }
        if next > 0x8000_0000_0000_0000i128 {
            // The value already exceeds every i64; further digits only grow it.
            proof {
                let k = idx + 1 - start;
                if all_dec_digits(ds) {
                    lemma_digits_val_monotone(ds, k);
                    assert(ds.take(ds.len() as int) =~= ds);
                    assert(digits_val(ds) >= next);
                }
            }
            return None;
        }
        mag = next;
        idx = idx + 1;
    }
    proof {
        assert(ds.take(n - start) =~= ds);
    }
    if neg {
        let v: i64 = (-mag) as i64;
        Some(v)
    } else {
        if mag > 0x7fff_ffff_ffff_ffffi128 {
            return None;
        }
        let v: i64 = mag as i64;
        Some(v)
    }
}

} // verus!
