use vstd::prelude::*;

verus! {

pub open spec fn is_digit(c: char) -> bool {
    48 <= c as u32 <= 57
}

pub open spec fn digit_val(c: char) -> int {
    c as u32 - 48
}

pub open spec fn digit_char(d: int) -> char {
    if d == 0 {
        '0'
    } else if d == 1 {
        '1'
    } else if d == 2 {
        '2'
    } else if d == 3 {
        '3'
    } else if d == 4 {
        '4'
    } else if d == 5 {
        '5'
    } else if d == 6 {
        '6'
    } else if d == 7 {
        '7'
    } else if d == 8 {
        '8'
    } else {
        '9'
    }
}

/// Decimal digit string of a nonnegative integer, no sign, no leading zeros.
pub open spec fn dec_str_nat(n: int) -> Seq<char>
    decreases n,
{
    if n < 10 {
        seq![digit_char(n)]
    } else {
        dec_str_nat(n / 10).push(digit_char(n % 10))
    }
}

/// Decimal rendering of an integer, `-` prefix when negative.
pub open spec fn dec_str(n: int) -> Seq<char> {
    if n < 0 {
        seq!['-'] + dec_str_nat(-n)
    } else {
        dec_str_nat(n)
    }
}

pub open spec fn all_digits(s: Seq<char>) -> bool {
    forall|i: int| 0 <= i < s.len() ==> is_digit(s[i])
}

/// Value of a digit string, most significant first.
pub open spec fn digits_val(s: Seq<char>) -> int
    decreases s.len(),
{
    if s.len() == 0 {
        0
    } else {
        digits_val(s.drop_last()) * 10 + digit_val(s.last())
    }
}

/// What `str::parse::<i64>` followed by `unwrap_or(0)` yields: the signed
/// value when the text is an optional sign followed by digits and the value
/// fits in `i64`, and `0` on any malformed or out-of-range input.
pub open spec fn parse_i64_spec(s: Seq<char>) -> int {
    let signed = s.len() > 0 && (s[0] == '-' || s[0] == '+');
    let neg = s.len() > 0 && s[0] == '-';
    let ds = if signed {
        s.skip(1)
    } else {
        s
    };
    if ds.len() > 0 && all_digits(ds) {
        let v = if neg {
            -digits_val(ds)
        } else {
            digits_val(ds)
        };
        if -0x8000000000000000 <= v <= 0x7fffffffffffffff {
            v
        } else {
            0
        }
    } else {
        0
    }
}

pub proof fn lemma_digits_val_nonneg(s: Seq<char>)
    requires
        all_digits(s),
    ensures
        digits_val(s) >= 0,
    decreases s.len(),
{
    if s.len() > 0 {
        assert(all_digits(s.drop_last()));
        lemma_digits_val_nonneg(s.drop_last());
    }
}

/// A digit string is worth at least any of its prefixes.
pub proof fn lemma_digits_val_prefix(s: Seq<char>, k: int)
    requires
        all_digits(s),
        0 <= k <= s.len(),
    ensures
        0 <= digits_val(s.take(k)) <= digits_val(s),
    decreases s.len(),
{
    assert(all_digits(s.take(k)));
    lemma_digits_val_nonneg(s.take(k));
    if k == s.len() {
        assert(s.take(k) =~= s);
    } else {
        assert(all_digits(s.drop_last()));
        assert(s.drop_last().take(k) =~= s.take(k));
        lemma_digits_val_prefix(s.drop_last(), k);
        lemma_digits_val_nonneg(s.drop_last());
    }
}

fn digit_str(d: u64) -> (r: &'static str)
    requires
        d < 10,
    ensures
        r@ == seq![digit_char(d as int)],
{
    proof {
        reveal_strlit("0");
        reveal_strlit("1");
        reveal_strlit("2");
        reveal_strlit("3");
        reveal_strlit("4");
        reveal_strlit("5");
        reveal_strlit("6");
        reveal_strlit("7");
        reveal_strlit("8");
        reveal_strlit("9");
    }
    let r = if d == 0 {
        "0"
    } else if d == 1 {
        "1"
    } else if d == 2 {
        "2"
    } else if d == 3 {
        "3"
    } else if d == 4 {
        "4"
    } else if d == 5 {
        "5"
    } else if d == 6 {
        "6"
    } else if d == 7 {
        "7"
    } else if d == 8 {
        "8"
    } else {
        "9"
    };
    proof {
        assert(r@ =~= seq![digit_char(d as int)]);
    }
    r
}

fn u64_to_string(n: u64) -> (r: String)
    ensures
        r@ == dec_str_nat(n as int),
    decreases n,
{
    if n < 10 {
        String::from_str(digit_str(n))
    } else {
        let prefix = u64_to_string(n / 10);
        prefix.concat(digit_str(n % 10))
    }
}

/// Decimal rendering of a signed 64-bit integer.
pub fn i64_to_string(n: i64) -> (r: String)
    ensures
        r@ == dec_str(n as int),
{
    if n >= 0 {
        u64_to_string(n as u64)
    } else {
        let mag: u64 = (-(n as i128)) as u64;
        let sign = String::from_str("-");
        let out = sign.concat(u64_to_string(mag).as_str());
        proof {
            reveal_strlit("-");
            assert(out@ =~= dec_str(n as int));
        }
        out
    }
}

/// Tolerant signed decimal parse: the value when well-formed and in range,
/// `0` otherwise, exactly as `parse_i64_spec` states.
pub fn parse_i64(s: &str) -> (r: i64)
    ensures
        r as int == parse_i64_spec(s@),
{
    let n = s.unicode_len();
    if n == 0 {
        return 0;
    }
    let first = s.get_char(0);
    let signed = first == '-' || first == '+';
    let neg = first == '-';
    let start: usize = if signed {
        1
    } else {
        0
    };
    if n == start {
        return 0;
    }
    let ghost ds: Seq<char> = if signed {
        s@.skip(1)
    } else {
        s@
    };
    let bound: i128 = if neg {
        0x8000000000000000
    } else {
        0x7fffffffffffffff
    };
    let mut acc: i128 = 0;
    let mut i: usize = start;
    while i < n
        invariant
            start <= i <= n,
            n == s@.len(),
            start == (if signed { 1int } else { 0int }),
            signed == (s@.len() > 0 && (s@[0] == '-' || s@[0] == '+')),
            neg == (s@.len() > 0 && s@[0] == '-'),
            ds == (if signed { s@.skip(1) } else { s@ }),
            ds.len() == n - start,
            all_digits(ds.take(i - start)),
            acc == digits_val(ds.take(i - start)),
            0 <= acc <= bound,
            bound == (if neg { 0x8000000000000000int } else { 0x7fffffffffffffffint }),
        decreases n - i,
    {
        let c = s.get_char(i);
        let cu = c as u32;
        proof {
            assert(ds[i - start] == s@[i as int]);
        }
        if cu < 48 || cu > 57 {
            proof {
                assert(!is_digit(ds[i - start]));
                assert(!all_digits(ds));
            }
            return 0;
        }
        let d: i128 = (cu - 48) as i128;
        proof {
            assert(ds.take(i - start + 1).drop_last() =~= ds.take(i - start));
            assert(ds.take(i - start + 1).last() == ds[i - start]);
        }
        acc = acc * 10 + d;
        if acc > bound {
            proof {
                if all_digits(ds) {
                    lemma_digits_val_prefix(ds, i - start + 1);
                }
            }
            return 0;
        }
        i += 1;
    }
    proof {
        assert(ds.take(n - start) =~= ds);
    }
    if neg {
        (-acc) as i64
    } else {
        acc as i64
    }
}

/// Rendering then parsing an in-range integer is the identity.
pub proof fn lemma_dec_str_nat_digits(n: int)
    requires
        n >= 0,
    ensures
        all_digits(dec_str_nat(n)),
        digits_val(dec_str_nat(n)) == n,
        dec_str_nat(n).len() >= 1,
        is_digit(dec_str_nat(n)[0]),
    decreases n,
{
    if n < 10 {
        assert(dec_str_nat(n) =~= seq![digit_char(n)]);
        assert(is_digit(digit_char(n)));
        assert(digit_val(digit_char(n)) == n);
        assert(dec_str_nat(n).drop_last() =~= Seq::<char>::empty());
        assert(dec_str_nat(n).last() == digit_char(n));
        assert(digits_val(Seq::<char>::empty()) == 0);
        assert(digits_val(dec_str_nat(n)) == digits_val(dec_str_nat(n).drop_last()) * 10
            + digit_val(dec_str_nat(n).last()));
    } else {
        lemma_dec_str_nat_digits(n / 10);
        let s = dec_str_nat(n);
        assert(s == dec_str_nat(n / 10).push(digit_char(n % 10)));
        assert(s.drop_last() =~= dec_str_nat(n / 10));
        assert(s.last() == digit_char(n % 10));
        assert(is_digit(digit_char(n % 10)));
        assert(digit_val(digit_char(n % 10)) == n % 10);
        assert forall|i: int| 0 <= i < s.len() implies is_digit(s[i]) by {
            if i < s.len() - 1 {
                assert(s[i] == dec_str_nat(n / 10)[i]);
            }
        }
        assert(digits_val(s) == (n / 10) * 10 + n % 10);
    }
}

/// Round trip on timestamps: parsing the decimal rendering of any `i64`
/// recovers the same value.
pub proof fn lemma_parse_dec_str(n: int)
    requires
        -0x8000000000000000 <= n <= 0x7fffffffffffffff,
    ensures
        parse_i64_spec(dec_str(n)) == n,
{
    if n >= 0 {
        lemma_dec_str_nat_digits(n);
        let s = dec_str(n);
        assert(s[0] != '-' && s[0] != '+');
    } else {
        lemma_dec_str_nat_digits(-n);
        let s = dec_str(n);
        assert(s[0] == '-');
        assert(s.skip(1) =~= dec_str_nat(-n));
    }
}

} // verus!
