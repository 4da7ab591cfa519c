//! Decimal text for signed 64-bit integers: a verified parser matching the
//! behaviour of Rust's `i64::from_str` (optional sign, decimal digits,
//! overflow rejected) and a verified formatter, with a round-trip proof.

use vstd::prelude::*;

verus! {

pub open spec fn is_digit(b: u8) -> bool {
    48 <= b <= 57
}

pub open spec fn all_digits(s: Seq<u8>) -> bool {
    forall|i: int| 0 <= i < s.len() ==> is_digit(s[i])
}

/// Value of a string of decimal digits, most significant first.
pub open spec fn digits_val(s: Seq<u8>) -> int
    decreases s.len(),
{
    if s.len() == 0 {
        0
    } else {
        digits_val(s.drop_last()) * 10 + (s.last() - 48)
    }
}

/// What `"<s>".parse::<i64>()` yields: an optional `+`/`-` sign, then one or
/// more decimal digits, rejected when the value does not fit in `i64`.
pub open spec fn parse_i64_spec(s: Seq<u8>) -> Option<i64> {
    let neg = s.len() > 0 && s[0] == 45;
    let signed = s.len() > 0 && (s[0] == 43 || s[0] == 45);
    let ds = if signed {
        s.drop_first()
    } else {
        s
    };
    if ds.len() > 0 && all_digits(ds) {
        let v: int = if neg {
            -digits_val(ds)
        } else {
            digits_val(ds)
        };
        if i64::MIN <= v <= i64::MAX {
            Some(v as i64)
        } else {
            None
        }
    } else {
        None
    }
}

pub fn parse_i64(s: &Vec<u8>) -> (r: Option<i64>)
    ensures
        r == parse_i64_spec(s@),
{
    if s.len() == 0 {
        return None;
    }
    let b0 = s[0];
    let neg = b0 == 45;
    let start: usize = if b0 == 43 || b0 == 45 {
        1
    } else {
        0
    };
    let ghost ds: Seq<u8> = if start == 1 {
        s@.drop_first()
    } else {
        s@
    };
    proof {
        assert(ds.len() == s@.len() - start);
        assert(forall|j: int| 0 <= j < ds.len() ==> ds[j] == s@[j + start]);
    }
    if s.len() == start {
        return None;
    }
    let mut acc: u128 = 0;
    let mut over = false;
    let mut i: usize = start;
    while i < s.len()
        invariant
            start <= i <= s@.len(),
            start == 1 || start == 0,
            start == 1 <==> (s@.len() > 0 && (s@[0] == 43 || s@[0] == 45)),
            ds == (if start == 1 {
                s@.drop_first()
            } else {
                s@
            }),
            ds.len() == s@.len() - start,
            forall|j: int| 0 <= j < ds.len() ==> ds[j] == s@[j + start],
            forall|j: int| 0 <= j < i - start ==> is_digit(ds[j]),
            !over ==> acc == digits_val(ds.take(i - start)) && acc
                <= 9223372036854775808u128,
            over ==> digits_val(ds.take(i - start)) > 9223372036854775808int,
        decreases s@.len() - i,
    {
        let b = s[i];
        if b < 48 || b > 57 {
            proof {
                assert(ds[i - start] == b);
                assert(!is_digit(ds[i - start]));
            }
            return None;
        }
        proof {
            assert(ds.take(i - start + 1).drop_last() =~= ds.take(i - start));
            assert(ds.take(i - start + 1).last() == ds[i - start]);
            assert(ds[i - start] == b);
        }
        if over {
            proof {
                let p = digits_val(ds.take(i - start));
                assert(digits_val(ds.take(i - start + 1)) == p * 10 + (b - 48));
                assert(p * 10 + (b - 48) > 9223372036854775808int);
            }
        } else {
            let d: u8 = b - 48;
            let newacc: u128 = acc * 10 + (d as u128);
            proof {
                assert(digits_val(ds.take(i - start + 1)) == digits_val(ds.take(i - start)) * 10
                    + (b - 48));
            }
            if newacc > 9223372036854775808u128 {
                over = true;
            }
            acc = newacc;
        }
        i = i + 1;
    }
    proof {
        assert(ds.take(s@.len() - start) =~= ds);
        assert(all_digits(ds));
    }
    if over {
        return None;
    }
    if neg {
        if acc == 9223372036854775808u128 {
            Some(i64::MIN)
        } else {
            Some(-(acc as i64))
        }
    } else {
        if acc >= 9223372036854775808u128 {
            None
        } else {
            Some(acc as i64)
        }
    }
}

/// Decimal digits of `n`, most significant first, no leading zeros
/// (except for `n == 0` itself).
pub open spec fn dec_digits(n: nat) -> Seq<u8>
    decreases n,
{
    if n < 10 {
        seq![(48 + n) as u8]
    } else {
        dec_digits(n / 10).push((48 + n % 10) as u8)
    }
}

/// Decimal text of `v`: a leading `-` for negative values, then the digits.
pub open spec fn dec_of(v: int) -> Seq<u8> {
    if v < 0 {
        seq![45u8] + dec_digits((-v) as nat)
    } else {
        dec_digits(v as nat)
    }
}

pub proof fn lemma_dec_digits_bounds(n: nat)
    ensures
        dec_digits(n).len() >= 1,
        all_digits(dec_digits(n)),
    decreases n,
{
    if n < 10 {
        assert(is_digit(dec_digits(n)[0]));
    } else {
        lemma_dec_digits_bounds(n / 10);
        let prev = dec_digits(n / 10);
        assert forall|i: int| 0 <= i < dec_digits(n).len() implies is_digit(dec_digits(n)[i]) by {
            if i < prev.len() {
                assert(dec_digits(n)[i] == prev[i]);
            } else {
                assert(dec_digits(n)[i] == (48 + n % 10) as u8);
            }
        }
    }
}

pub proof fn lemma_digits_val_dec(n: nat)
    ensures
        digits_val(dec_digits(n)) == n,
    decreases n,
{
    if n < 10 {
        let s = dec_digits(n);
        assert(s == seq![(48 + n) as u8]);
        assert(s.drop_last() =~= Seq::<u8>::empty());
        assert(digits_val(s.drop_last()) == 0);
        assert(s.last() as int == 48 + n);
        assert(digits_val(s) == 0 * 10 + (s.last() - 48));
    } else {
        lemma_digits_val_dec(n / 10);
        let s = dec_digits(n);
        assert(s == dec_digits(n / 10).push((48 + n % 10) as u8));
        assert(s.drop_last() =~= dec_digits(n / 10));
        assert(s.last() == (48 + n % 10) as u8);
        assert(n % 10 < 10);
        assert(s.last() as int == 48 + (n % 10));
        assert(digits_val(s) == digits_val(s.drop_last()) * 10 + (s.last() - 48));
        assert(digits_val(s) == (n / 10) * 10 + (n % 10));
        vstd::arithmetic::div_mod::lemma_fundamental_div_mod(n as int, 10);
        assert(n == (n / 10) * 10 + (n % 10));
    }
}

/// Formatting and parsing agree: the decimal text of any `i64` parses back
/// to that same value.
pub proof fn lemma_parse_dec_roundtrip(v: i64)
    ensures
        parse_i64_spec(dec_of(v as int)) == Some(v),
{
    if v >= 0 {
        lemma_dec_digits_bounds(v as nat);
        lemma_digits_val_dec(v as nat);
        let s = dec_of(v as int);
        assert(is_digit(s[0]));
        assert(s[0] != 43 && s[0] != 45);
    } else {
        let m: nat = (-(v as int)) as nat;
        lemma_dec_digits_bounds(m);
        lemma_digits_val_dec(m);
        let s = dec_of(v as int);
        assert(s[0] == 45);
        assert(s.drop_first() =~= dec_digits(m));
    }
}

/// Decimal text never contains a comma, so it is always the whole leading
/// comma-segment of any string it begins.
pub proof fn lemma_dec_of_no_comma(v: int)
    ensures
        forall|j: int| 0 <= j < dec_of(v).len() ==> dec_of(v)[j] != 44,
{
    if v < 0 {
        lemma_dec_digits_bounds((-v) as nat);
        assert forall|j: int| 0 <= j < dec_of(v).len() implies dec_of(v)[j] != 44 by {
            if j == 0 {
            } else {
                assert(dec_of(v)[j] == dec_digits((-v) as nat)[j - 1]);
                assert(is_digit(dec_digits((-v) as nat)[j - 1]));
            }
        }
    } else {
        lemma_dec_digits_bounds(v as nat);
        assert forall|j: int| 0 <= j < dec_of(v).len() implies dec_of(v)[j] != 44 by {
            assert(is_digit(dec_digits(v as nat)[j]));
        }
    }
}

pub fn i64_to_dec(v: i64) -> (r: Vec<u8>)
    ensures
        r@ == dec_of(v as int),
{
    let neg = v < 0;
    let mut m: u128 = if v < 0 {
        (-(v as i128)) as u128
    } else {
        v as u128
    };
    let ghost orig: nat = m as nat;
    let mut dr: Vec<u8> = Vec::new();
    let ghost mut tail: Seq<u8> = Seq::empty();
    if m == 0 {
        dr.push(48);
        proof {
            tail = seq![48u8];
        }
    } else {
        while m > 0
            invariant
                m > 0 ==> dec_digits(orig) == dec_digits(m as nat) + tail,
                m == 0 ==> dec_digits(orig) == tail,
                dr@.len() == tail.len(),
                forall|k: int| 0 <= k < tail.len() ==> dr@[k] == tail[tail.len() - 1 - k],
            decreases m,
        {
            let d: u8 = 48 + (m % 10) as u8;
            dr.push(d);
            let ghost oldm: nat = m as nat;
            let ghost oldtail = tail;
            m = m / 10;
            proof {
                tail = seq![d] + oldtail;
                assert((oldm / 10) as nat == m as nat);
                if oldm >= 10 {
                    assert(dec_digits(oldm) == dec_digits(oldm / 10).push(d));
                    assert(dec_digits(oldm / 10).push(d) + oldtail =~= dec_digits(oldm / 10) + (
                    seq![d] + oldtail));
                } else {
                    assert(dec_digits(oldm) =~= seq![d]);
                    assert(dec_digits(oldm) + oldtail =~= seq![d] + oldtail);
                }
                assert(forall|k: int|
                    0 <= k < tail.len() ==> dr@[k] == tail[tail.len() - 1 - k]);
            }
        }
    }
    proof {
        assert(dec_digits(orig) == tail);
    }
    let mut out: Vec<u8> = Vec::new();
    if neg {
        out.push(45);
    }
    let ghost sign: Seq<u8> = if neg {
        seq![45u8]
    } else {
        Seq::<u8>::empty()
    };
    proof {
        assert(out@ =~= sign + tail.take(0));
    }
    let mut i: usize = dr.len();
    while i > 0
        invariant
            0 <= i <= dr@.len(),
            dr@.len() == tail.len(),
            forall|k: int| 0 <= k < tail.len() ==> dr@[k] == tail[tail.len() - 1 - k],
            out@ == sign + tail.take(tail.len() - i),
        decreases i,
    {
        i = i - 1;
        out.push(dr[i]);
        proof {
            assert(dr@[i as int] == tail[tail.len() - 1 - i]);
            assert(tail.take(tail.len() - i) =~= tail.take(tail.len() - (i + 1)).push(
                tail[tail.len() - 1 - i],
            ));
            assert(out@ =~= sign + tail.take(tail.len() - i));
        }
    }
    proof {
        assert(tail.take(tail.len() as int) =~= tail);
        if v < 0 {
            assert(orig == (-(v as int)) as nat);
            assert(out@ =~= dec_of(v as int));
        } else {
            assert(orig == v as nat);
            assert(out@ =~= dec_of(v as int));
        }
    }
    out
}

} // verus!
