//! Digit strings: the mapping between numbers and the decimal or hexadecimal
//! character sequences that the storage rows hold.

use vstd::prelude::*;

verus! {

/// The lowercase character for one digit value (bases up to 16).
pub open spec fn digit_char(d: int) -> char {
    if d == 0 {
        '0'
    } else if d == 1 {
        '1'
    } else if d == 2 {
        '2'
    } else if d == 3 {
        '3'
    } else if d == 4 {
        '4'
    } else if d == 5 {
        '5'
    } else if d == 6 {
        '6'
    } else if d == 7 {
        '7'
    } else if d == 8 {
        '8'
    } else if d == 9 {
        '9'
    } else if d == 10 {
        'a'
    } else if d == 11 {
        'b'
    } else if d == 12 {
        'c'
    } else if d == 13 {
        'd'
    } else if d == 14 {
        'e'
    } else if d == 15 {
        'f'
    } else {
        '?'
    }
}

/// The digit value of a character, or -1 when it is no digit.
/// Both lowercase and uppercase hexadecimal digits are read.
pub open spec fn char_digit(c: char) -> int {
    let v = c as u32;
    if 48 <= v && v <= 57 {
        v as int - 48
    } else if 97 <= v && v <= 102 {
        v as int - 87
    } else if 65 <= v && v <= 70 {
        v as int - 55
    } else {
        -1
    }
}

pub open spec fn is_digit(c: char, base: int) -> bool {
    0 <= char_digit(c) && char_digit(c) < base
}

pub open spec fn all_digits(s: Seq<char>, base: int) -> bool {
    forall|i: int| 0 <= i < s.len() ==> is_digit(#[trigger] s[i], base)
}

/// The number a digit string denotes, most significant digit first.
pub open spec fn digits_val(s: Seq<char>, base: int) -> int
    decreases s.len(),
{
    if s.len() == 0 {
        0
    } else {
        digits_val(s.drop_last(), base) * base + char_digit(s.last())
    }
}

/// Exactly `width` digits of `n`, least significant digit last.
pub open spec fn fixed_digits(n: int, width: nat, base: int) -> Seq<char>
    decreases width,
{
    if width == 0 {
        Seq::empty()
    } else {
        fixed_digits(n / base, (width - 1) as nat, base) + seq![digit_char(n % base)]
    }
}

/// The shortest decimal form of `n`, a single `0` included.
pub open spec fn dec_digits(n: int) -> Seq<char>
    decreases n,
{
    if n < 10 {
        seq![digit_char(n)]
    } else {
        dec_digits(n / 10) + seq![digit_char(n % 10)]
    }
}

/// `b` to the power of `e`.
pub open spec fn pow_int(b: int, e: nat) -> int
    decreases e,
{
    if e == 0 {
        1
    } else {
        b * pow_int(b, (e - 1) as nat)
    }
}

pub proof fn lemma_pow_int_pos(b: int, e: nat)
    requires
        b >= 1,
    ensures
        pow_int(b, e) >= 1,
    decreases e,
{
    if e > 0 {
        lemma_pow_int_pos(b, (e - 1) as nat);
        assert(b * pow_int(b, (e - 1) as nat) >= 1) by (nonlinear_arith)
            requires
                b >= 1,
                pow_int(b, (e - 1) as nat) >= 1,
        ;
    }
}

pub proof fn lemma_pow_int_increases(b: int, e1: nat, e2: nat)
    requires
        b >= 2,
        e1 <= e2,
    ensures
        pow_int(b, e1) <= pow_int(b, e2),
    decreases e2,
{
    if e1 < e2 {
        lemma_pow_int_increases(b, e1, (e2 - 1) as nat);
        lemma_pow_int_pos(b, (e2 - 1) as nat);
        assert(b * pow_int(b, (e2 - 1) as nat) >= pow_int(b, (e2 - 1) as nat)) by (nonlinear_arith)
            requires
                b >= 2,
                pow_int(b, (e2 - 1) as nat) >= 1,
        ;
    }
}

pub proof fn lemma_digit_char_val(d: int)
    requires
        0 <= d < 16,
    ensures
        char_digit(digit_char(d)) == d,
        is_digit(digit_char(d), 16),
{
}

pub proof fn lemma_fixed_digits_shape(n: int, width: nat, base: int)
    requires
        0 <= n,
        2 <= base <= 16,
    ensures
        fixed_digits(n, width, base).len() == width,
        all_digits(fixed_digits(n, width, base), base),
    decreases width,
{
    if width > 0 {
        lemma_fixed_digits_shape(n / base, (width - 1) as nat, base);
        assert(0 <= n % base < base) by {
            vstd::arithmetic::div_mod::lemma_mod_bound(n, base);
        }
        lemma_digit_char_val(n % base);
        let s = fixed_digits(n, width, base);
        let s0 = fixed_digits(n / base, (width - 1) as nat, base);
        assert forall|i: int| 0 <= i < s.len() implies is_digit(#[trigger] s[i], base) by {
            if i < s0.len() {
                assert(s[i] == s0[i]);
            } else {
                assert(s[i] == digit_char(n % base));
            }
        }
    }
}

pub proof fn lemma_fixed_digits_val(n: int, width: nat, base: int)
    requires
        2 <= base <= 16,
        0 <= n < pow_int(base, width),
    ensures
        digits_val(fixed_digits(n, width, base), base) == n,
    decreases width,
{
    if width == 0 {
        assert(pow_int(base, 0) == 1);
    } else {
        let p = pow_int(base, (width - 1) as nat);
        assert(pow_int(base, width) == base * p);
        lemma_pow_int_pos(base, (width - 1) as nat);
        vstd::arithmetic::div_mod::lemma_fundamental_div_mod(n, base);
        assert(0 <= n % base < base) by {
            vstd::arithmetic::div_mod::lemma_mod_bound(n, base);
        }
        assert(n / base < p) by (nonlinear_arith)
            requires
                n < base * p,
                base >= 2,
                p >= 0,
                n >= 0,
                n == base * (n / base) + n % base,
                0 <= n % base < base,
        ;
        assert(n / base >= 0) by {
            vstd::arithmetic::div_mod::lemma_div_pos_is_pos(n, base);
        }
        lemma_fixed_digits_val(n / base, (width - 1) as nat, base);
        let s = fixed_digits(n, width, base);
        let s0 = fixed_digits(n / base, (width - 1) as nat, base);
        assert(s.drop_last() =~= s0);
        assert(s.last() == digit_char(n % base));
        lemma_digit_char_val(n % base);
        assert(digits_val(s, base) == digits_val(s0, base) * base + char_digit(digit_char(n % base)));
        assert(digits_val(s0, base) == n / base);
        assert((n / base) * base + n % base == n) by {
            assert(base * (n / base) == (n / base) * base);
        }
    }
}

pub proof fn lemma_dec_digits(n: int)
    requires
        0 <= n,
    ensures
        dec_digits(n).len() >= 1,
        all_digits(dec_digits(n), 10),
        digits_val(dec_digits(n), 10) == n,
    decreases n,
{
    if n < 10 {
        lemma_digit_char_val(n);
        let s = dec_digits(n);
        assert(s.drop_last() =~= Seq::<char>::empty());
        assert(digits_val(Seq::<char>::empty(), 10) == 0);
        assert(digits_val(s, 10) == 0 * 10 + char_digit(digit_char(n)));
    } else {
        vstd::arithmetic::div_mod::lemma_fundamental_div_mod(n, 10);
        assert(0 <= n % 10 < 10) by {
            vstd::arithmetic::div_mod::lemma_mod_bound(n, 10);
        }
        assert(1 <= n / 10 < n) by {
            vstd::arithmetic::div_mod::lemma_div_decreases(n, 10);
            vstd::arithmetic::div_mod::lemma_div_non_zero(n, 10);
        }
        lemma_dec_digits(n / 10);
        lemma_digit_char_val(n % 10);
        let s = dec_digits(n);
        let s0 = dec_digits(n / 10);
        assert(s.drop_last() =~= s0);
        assert(s.last() == digit_char(n % 10));
        assert forall|i: int| 0 <= i < s.len() implies is_digit(#[trigger] s[i], 10) by {
            if i < s0.len() {
                assert(s[i] == s0[i]);
            } else {
                assert(s[i] == digit_char(n % 10));
            }
        }
    }
}

pub proof fn lemma_digits_val_nonneg(s: Seq<char>, base: int)
    requires
        all_digits(s, base),
        base >= 2,
    ensures
        digits_val(s, base) >= 0,
    decreases s.len(),
{
    if s.len() > 0 {
        assert(all_digits(s.drop_last(), base));
        lemma_digits_val_nonneg(s.drop_last(), base);
        assert(is_digit(s.last(), base));
        assert(digits_val(s.drop_last(), base) * base >= 0) by (nonlinear_arith)
            requires
                digits_val(s.drop_last(), base) >= 0,
                base >= 2,
        ;
    }
}

pub proof fn lemma_digits_val_bound(s: Seq<char>, base: int)
    requires
        all_digits(s, base),
        base >= 2,
    ensures
        0 <= digits_val(s, base) < pow_int(base, s.len()),
    decreases s.len(),
{
    if s.len() == 0 {
        assert(pow_int(base, 0) == 1);
    } else {
        assert(all_digits(s.drop_last(), base));
        lemma_digits_val_bound(s.drop_last(), base);
        let p = pow_int(base, (s.len() - 1) as nat);
        assert(pow_int(base, s.len()) == base * p);
        let v = digits_val(s.drop_last(), base);
        let d = char_digit(s.last());
        assert(0 <= d < base);
        assert(v * base + d < base * p) by (nonlinear_arith)
            requires
                0 <= v < p,
                0 <= d < base,
                base >= 2,
        ;
        assert(v * base + d >= 0) by (nonlinear_arith)
            requires
                v >= 0,
                d >= 0,
                base >= 2,
        ;
    }
}

/// A run of `k` zero characters, the padding of short decimal forms.
pub open spec fn zero_chars(k: nat) -> Seq<char> {
    Seq::new(k, |i| '0')
}

pub proof fn lemma_zero_chars_val(k: nat, base: int)
    requires
        base >= 2,
    ensures
        all_digits(zero_chars(k), base),
        digits_val(zero_chars(k), base) == 0,
    decreases k,
{
    if k > 0 {
        lemma_zero_chars_val((k - 1) as nat, base);
        assert(zero_chars(k).drop_last() =~= zero_chars((k - 1) as nat));
        assert(zero_chars(k).last() == '0');
    }
}

/// Leading zeros do not change the value a digit string denotes.
pub proof fn lemma_leading_zeros_val(k: nat, t: Seq<char>, base: int)
    requires
        base >= 2,
    ensures
        digits_val(zero_chars(k) + t, base) == digits_val(t, base),
    decreases t.len(),
{
    if t.len() == 0 {
        assert(zero_chars(k) + t =~= zero_chars(k));
        lemma_zero_chars_val(k, base);
    } else {
        lemma_leading_zeros_val(k, t.drop_last(), base);
        assert((zero_chars(k) + t).drop_last() =~= zero_chars(k) + t.drop_last());
        assert((zero_chars(k) + t).last() == t.last());
    }
}

/// The value can only grow as digits are appended on the right.
pub proof fn lemma_digits_val_prefix(s: Seq<char>, k: int, base: int)
    requires
        all_digits(s, base),
        base >= 2,
        0 <= k <= s.len(),
    ensures
        digits_val(s.take(k), base) <= digits_val(s, base),
    decreases s.len() - k,
{
    if k == s.len() {
        assert(s.take(k) =~= s);
    } else {
        lemma_digits_val_prefix(s, k + 1, base);
        let t = s.take(k + 1);
        assert(t.drop_last() =~= s.take(k));
        assert(all_digits(t, base)) by {
            assert(forall|i: int| 0 <= i < t.len() ==> t[i] == s[i]);
        }
        assert(all_digits(s.take(k), base)) by {
            assert(forall|i: int| 0 <= i < k ==> s.take(k)[i] == s[i]);
        }
        lemma_digits_val_nonneg(s.take(k), base);
        let v = digits_val(s.take(k), base);
        assert(digits_val(t, base) == v * base + char_digit(t.last()));
        assert(v * base >= v) by (nonlinear_arith)
            requires
                v >= 0,
                base >= 2,
        ;
        assert(0 <= char_digit(t.last()));
    }
}

/// Concatenation shifts the left part by the length of the right part.
pub proof fn lemma_digits_val_concat(a: Seq<char>, b: Seq<char>, base: int)
    requires
        base >= 2,
    ensures
        digits_val(a + b, base) == digits_val(a, base) * pow_int(base, b.len()) + digits_val(
            b,
            base,
        ),
    decreases b.len(),
{
    if b.len() == 0 {
        assert(a + b =~= a);
        assert(pow_int(base, 0) == 1);
    } else {
        lemma_digits_val_concat(a, b.drop_last(), base);
        assert((a + b).drop_last() =~= a + b.drop_last());
        assert((a + b).last() == b.last());
        let p = pow_int(base, (b.len() - 1) as nat);
        assert(pow_int(base, b.len()) == base * p);
        let x = digits_val(a, base);
        let y = digits_val(b.drop_last(), base);
        let d = char_digit(b.last());
        assert(digits_val(a + b, base) == (x * p + y) * base + d);
        assert((x * p + y) * base + d == x * (base * p) + (y * base + d)) by (nonlinear_arith);
    }
}

pub proof fn lemma_pow16_vals()
    ensures
        pow_int(16, 4) == 0x10000,
        pow_int(16, 8) == 0x100000000,
        pow_int(16, 12) == 0x1000000000000,
        pow_int(16, 16) == 0x10000000000000000,
        pow_int(16, 20) == 0x100000000000000000000,
        pow_int(16, 24) == 0x1000000000000000000000000,
        pow_int(16, 31) == 0x10000000000000000000000000000000,
        pow_int(16, 32) == 0x100000000000000000000000000000000,
{
    assert(pow_int(16, 0) == 1);
    assert(pow_int(16, 1) == 0x10);
    assert(pow_int(16, 2) == 0x100);
    assert(pow_int(16, 3) == 0x1000);
    assert(pow_int(16, 4) == 0x10000);
    assert(pow_int(16, 5) == 0x100000);
    assert(pow_int(16, 6) == 0x1000000);
    assert(pow_int(16, 7) == 0x10000000);
    assert(pow_int(16, 8) == 0x100000000);
    assert(pow_int(16, 9) == 0x1000000000);
    assert(pow_int(16, 10) == 0x10000000000);
    assert(pow_int(16, 11) == 0x100000000000);
    assert(pow_int(16, 12) == 0x1000000000000);
    assert(pow_int(16, 13) == 0x10000000000000);
    assert(pow_int(16, 14) == 0x100000000000000);
    assert(pow_int(16, 15) == 0x1000000000000000);
    assert(pow_int(16, 16) == 0x10000000000000000);
    assert(pow_int(16, 17) == 0x100000000000000000);
    assert(pow_int(16, 18) == 0x1000000000000000000);
    assert(pow_int(16, 19) == 0x10000000000000000000);
    assert(pow_int(16, 20) == 0x100000000000000000000);
    assert(pow_int(16, 21) == 0x1000000000000000000000);
    assert(pow_int(16, 22) == 0x10000000000000000000000);
    assert(pow_int(16, 23) == 0x100000000000000000000000);
    assert(pow_int(16, 24) == 0x1000000000000000000000000);
    assert(pow_int(16, 25) == 0x10000000000000000000000000);
    assert(pow_int(16, 26) == 0x100000000000000000000000000);
    assert(pow_int(16, 27) == 0x1000000000000000000000000000);
    assert(pow_int(16, 28) == 0x10000000000000000000000000000);
    assert(pow_int(16, 29) == 0x100000000000000000000000000000);
    assert(pow_int(16, 30) == 0x1000000000000000000000000000000);
    assert(pow_int(16, 31) == 0x10000000000000000000000000000000);
    assert(pow_int(16, 32) == 0x100000000000000000000000000000000);
}

pub proof fn lemma_pow10_vals()
    ensures
        pow_int(10, 1) == 10,
        pow_int(10, 2) == 100,
        pow_int(10, 3) == 1000,
        pow_int(10, 4) == 10000,
{
    assert(pow_int(10, 0) == 1);
    assert(pow_int(10, 1) == 10);
    assert(pow_int(10, 2) == 100);
    assert(pow_int(10, 3) == 1000);
    assert(pow_int(10, 4) == 10000);
}

/// The digit characters of `ds` read back to front.
pub open spec fn rev_digit_chars(ds: Seq<u8>) -> Seq<char> {
    Seq::new(ds.len(), |i| digit_char(ds[ds.len() - 1 - i] as int))
}

/// The value of one character as a digit, or -1 when it is no digit.
pub fn digit_of(c: char) -> (r: i32)
    ensures
        r as int == char_digit(c),
{
    let v = c as u32;
    if 48 <= v && v <= 57 {
        (v - 48) as i32
    } else if 97 <= v && v <= 102 {
        (v - 87) as i32
    } else if 65 <= v && v <= 70 {
        (v - 55) as i32
    } else {
        -1
    }
}

/// The one-character string for a digit value.
pub fn digit_str(d: u8) -> (r: &'static str)
    requires
        d < 16,
    ensures
        r@ =~= seq![digit_char(d as int)],
{
    match d {
        0 => {
            proof {
                reveal_strlit("0");
            }
            "0"
        },
        1 => {
            proof {
                reveal_strlit("1");
            }
            "1"
        },
        2 => {
            proof {
                reveal_strlit("2");
            }
            "2"
        },
        3 => {
            proof {
                reveal_strlit("3");
            }
            "3"
        },
        4 => {
            proof {
                reveal_strlit("4");
            }
            "4"
        },
        5 => {
            proof {
                reveal_strlit("5");
            }
            "5"
        },
        6 => {
            proof {
                reveal_strlit("6");
            }
            "6"
        },
        7 => {
            proof {
                reveal_strlit("7");
            }
            "7"
        },
        8 => {
            proof {
                reveal_strlit("8");
            }
            "8"
        },
        9 => {
            proof {
                reveal_strlit("9");
            }
            "9"
        },
        10 => {
            proof {
                reveal_strlit("a");
            }
            "a"
        },
        11 => {
            proof {
                reveal_strlit("b");
            }
            "b"
        },
        12 => {
            proof {
                reveal_strlit("c");
            }
            "c"
        },
        13 => {
            proof {
                reveal_strlit("d");
            }
            "d"
        },
        14 => {
            proof {
                reveal_strlit("e");
            }
            "e"
        },
        _ => {
            proof {
                reveal_strlit("f");
            }
            "f"
        },
    }
}

/// Turn a back-to-front digit buffer into its string.
fn chars_of_rev_digits(ds: &Vec<u8>) -> (s: String)
    requires
        forall|i: int| 0 <= i < ds@.len() ==> ds@[i] < 16,
    ensures
        s@ == rev_digit_chars(ds@),
{
    let n = ds.len();
    let mut out = String::new();
    let mut j: usize = 0;
    while j < n
        invariant
            n == ds@.len(),
            j <= n,
            forall|i: int| 0 <= i < ds@.len() ==> ds@[i] < 16,
            out@ =~= rev_digit_chars(ds@).take(j as int),
        decreases n - j,
    {
        let d = ds[n - 1 - j];
        out.append(digit_str(d));
        assert(out@ =~= rev_digit_chars(ds@).take(j + 1 as int)) by {
            assert(rev_digit_chars(ds@)[j as int] == digit_char(ds@[n - 1 - j] as int));
        }
        j = j + 1;
    }
    assert(rev_digit_chars(ds@).take(n as int) =~= rev_digit_chars(ds@));
    out
}

/// Encode `n` as exactly `width` digits in the given base.
pub fn encode_fixed(n: u128, width: usize, base: u128) -> (s: String)
    requires
        2 <= base <= 16,
    ensures
        s@ == fixed_digits(n as int, width as nat, base as int),
{
    let mut ds: Vec<u8> = Vec::new();
    let mut rest: u128 = n;
    let mut k: usize = 0;
    while k < width
        invariant
            2 <= base <= 16,
            k <= width,
            ds@.len() == k as int,
            forall|i: int| 0 <= i < ds@.len() ==> ds@[i] < 16,
            fixed_digits(n as int, width as nat, base as int) =~= fixed_digits(
                rest as int,
                (width - k) as nat,
                base as int,
            ) + rev_digit_chars(ds@),
        decreases width - k,
    {
        let d = (rest % base) as u8;
        proof {
            let w = (width - k) as nat;
            let b = base as int;
            assert(fixed_digits(rest as int, w, b) == fixed_digits((rest as int) / b, (w - 1) as nat, b)
                + seq![digit_char((rest as int) % b)]);
            assert(rev_digit_chars(ds@.push(d)) =~= seq![digit_char(d as int)] + rev_digit_chars(ds@));
            assert(fixed_digits(rest as int, w, b) + rev_digit_chars(ds@) =~= fixed_digits(
                (rest as int) / b,
                (w - 1) as nat,
                b,
            ) + rev_digit_chars(ds@.push(d)));
        }
        ds.push(d);
        rest = rest / base;
        k = k + 1;
    }
    assert(fixed_digits(n as int, width as nat, base as int) =~= rev_digit_chars(ds@)) by {
        assert(fixed_digits(rest as int, 0, base as int) =~= Seq::<char>::empty());
    }
    chars_of_rev_digits(&ds)
}

/// Encode `n` in its shortest decimal form.
pub fn encode_dec(n: u128) -> (s: String)
    ensures
        s@ == dec_digits(n as int),
{
    let mut ds: Vec<u8> = Vec::new();
    let mut rest: u128 = n;
    while rest >= 10
        invariant
            forall|i: int| 0 <= i < ds@.len() ==> ds@[i] < 16,
            dec_digits(n as int) =~= dec_digits(rest as int) + rev_digit_chars(ds@),
        decreases rest,
    {
        let d = (rest % 10) as u8;
        proof {
            assert(dec_digits(rest as int) == dec_digits((rest as int) / 10) + seq![
                digit_char((rest as int) % 10),
            ]);
            assert(rev_digit_chars(ds@.push(d)) =~= seq![digit_char(d as int)] + rev_digit_chars(
                ds@,
            ));
            assert(dec_digits(rest as int) + rev_digit_chars(ds@) =~= dec_digits((rest as int) / 10)
                + rev_digit_chars(ds@.push(d)));
        }
        ds.push(d);
        rest = rest / 10;
    }
    let d = rest as u8;
    proof {
        assert(dec_digits(rest as int) =~= seq![digit_char(d as int)]);
        assert(rev_digit_chars(ds@.push(d)) =~= seq![digit_char(d as int)] + rev_digit_chars(ds@));
        assert(dec_digits(n as int) =~= rev_digit_chars(ds@.push(d)));
    }
    ds.push(d);
    chars_of_rev_digits(&ds)
}

/// Read the hexadecimal digits of `s` between `lo` and `hi`.
pub fn parse_hex_range(s: &str, lo: usize, hi: usize) -> (r: Option<u64>)
    requires
        lo <= hi <= s@.len(),
        hi - lo <= 12,
    ensures
        match r {
            Some(v) => all_digits(s@.subrange(lo as int, hi as int), 16) && v as int == digits_val(
                s@.subrange(lo as int, hi as int),
                16,
            ),
            None => !all_digits(s@.subrange(lo as int, hi as int), 16),
        },
{
    let mut acc: u64 = 0;
    let mut i: usize = lo;
    while i < hi
        invariant
            lo <= i <= hi,
            hi <= s@.len(),
            hi - lo <= 12,
            all_digits(s@.subrange(lo as int, i as int), 16),
            acc as int == digits_val(s@.subrange(lo as int, i as int), 16),
            (acc as int) < pow_int(16, (i - lo) as nat),
        decreases hi - i,
    {
        let c = s.get_char(i);
        let d = digit_of(c);
        if d < 0 {
            proof {
                let sub = s@.subrange(lo as int, hi as int);
                assert(sub[i - lo] == s@[i as int]);
            }
            return None;
        }
        proof {
            lemma_pow16_vals();
            lemma_pow_int_increases(16, (i - lo) as nat, 11);
            assert(pow_int(16, 12) == 16 * pow_int(16, 11));
            let p = pow_int(16, (i - lo) as nat);
            assert((acc as int) * 16 + 15 < 16 * pow_int(16, 11)) by (nonlinear_arith)
                requires
                    0 <= (acc as int) && (acc as int) < p,
                    p <= pow_int(16, 11),
            ;
            assert((acc as int) * 16 + char_digit(s@[i as int]) < pow_int(
                16,
                (i + 1 - lo) as nat,
            )) by (nonlinear_arith)
                requires
                    0 <= (acc as int) && (acc as int) < p,
                    pow_int(16, (i + 1 - lo) as nat) == 16 * p,
                    0 <= char_digit(s@[i as int]) < 16,
            ;
            let sub1 = s@.subrange(lo as int, (i + 1) as int);
            assert(sub1.drop_last() =~= s@.subrange(lo as int, i as int));
            assert(sub1.last() == s@[i as int]);
        }
        acc = acc * 16 + (d as u64);
        i = i + 1;
    }
    Some(acc)
}

/// Read the decimal digits of `s` between `lo` and `hi`.
pub fn parse_dec_range(s: &str, lo: usize, hi: usize) -> (r: Option<u32>)
    requires
        lo <= hi <= s@.len(),
        hi - lo <= 4,
    ensures
        match r {
            Some(v) => all_digits(s@.subrange(lo as int, hi as int), 10) && v as int == digits_val(
                s@.subrange(lo as int, hi as int),
                10,
            ),
            None => !all_digits(s@.subrange(lo as int, hi as int), 10),
        },
{
    let mut acc: u32 = 0;
    let mut i: usize = lo;
    while i < hi
        invariant
            lo <= i <= hi,
            hi <= s@.len(),
            hi - lo <= 4,
            all_digits(s@.subrange(lo as int, i as int), 10),
            acc as int == digits_val(s@.subrange(lo as int, i as int), 10),
            (acc as int) < pow_int(10, (i - lo) as nat),
        decreases hi - i,
    {
        let c = s.get_char(i);
        let d = digit_of(c);
        if d < 0 || d > 9 {
            proof {
                let sub = s@.subrange(lo as int, hi as int);
                assert(sub[i - lo] == s@[i as int]);
            }
            return None;
        }
        proof {
            lemma_pow10_vals();
            lemma_pow_int_increases(10, (i - lo) as nat, 3);
            assert(pow_int(10, 4) == 10 * pow_int(10, 3));
            let p = pow_int(10, (i - lo) as nat);
            assert((acc as int) * 10 + 9 < 10 * pow_int(10, 3)) by (nonlinear_arith)
                requires
                    0 <= (acc as int) && (acc as int) < p,
                    p <= pow_int(10, 3),
            ;
            assert((acc as int) * 10 + char_digit(s@[i as int]) < pow_int(
                10,
                (i + 1 - lo) as nat,
            )) by (nonlinear_arith)
                requires
                    0 <= (acc as int) && (acc as int) < p,
                    pow_int(10, (i + 1 - lo) as nat) == 10 * p,
                    0 <= char_digit(s@[i as int]) < 10,
            ;
            let sub1 = s@.subrange(lo as int, (i + 1) as int);
            assert(sub1.drop_last() =~= s@.subrange(lo as int, i as int));
            assert(sub1.last() == s@[i as int]);
        }
        acc = acc * 10 + (d as u32);
        i = i + 1;
    }
    Some(acc)
}

} // verus!
