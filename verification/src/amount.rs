//! Exact decimal amounts: a 96-bit mantissa scaled by a power of ten, stored
//! as the exact decimal string, so no binary rounding ever touches a value.

use vstd::prelude::*;

use crate::digits::{
    all_digits, char_digit, dec_digits, digits_val, is_digit, lemma_dec_digits,
    lemma_digits_val_prefix, lemma_leading_zeros_val, lemma_zero_chars_val, zero_chars, encode_dec,
    digit_of,
};

verus! {

/// Exclusive upper bound of the mantissa: 2 to the 96th.
pub const MANTISSA_LIMIT: u128 = 0x1000000000000000000000000;

/// Largest number of fractional digits an amount can carry.
pub const MAX_SCALE: u32 = 28;

/// An exact, sign-significant decimal value: `mantissa` shifted right by
/// `scale` decimal digits, negated when `negative` is set.
#[derive(Clone, Copy, PartialEq, Eq, Structural, Debug)]
pub struct Amount {
    pub negative: bool,
    pub mantissa: u128,
    pub scale: u32,
}

impl Amount {
    /// What every amount must satisfy.
    pub open spec fn wf(self) -> bool {
        self.mantissa < MANTISSA_LIMIT && self.scale <= MAX_SCALE
    }

    /// A whole number of the given sign and magnitude.
    pub fn from_integer(negative: bool, magnitude: u64) -> (a: Amount)
        ensures
            a.wf(),
            a.negative == negative,
            a.mantissa == magnitude,
            a.scale == 0,
    {
        Amount { negative, mantissa: magnitude as u128, scale: 0 }
    }

    /// A scaled decimal, such as cents when `scale` is 2.
    pub fn from_scaled(negative: bool, mantissa: u128, scale: u32) -> (r: Option<Amount>)
        ensures
            match r {
                Some(a) => mantissa < MANTISSA_LIMIT && scale <= MAX_SCALE && a == (Amount {
                    negative,
                    mantissa,
                    scale,
                }),
                None => mantissa >= MANTISSA_LIMIT || scale > MAX_SCALE,
            },
    {
        if mantissa < MANTISSA_LIMIT && scale <= MAX_SCALE {
            Some(Amount { negative, mantissa, scale })
        } else {
            None
        }
    }
}

/// The digit block of an amount: the mantissa's decimal digits, left-padded
/// with zeros until at least one digit stands before the decimal point.
pub open spec fn amount_digits(a: Amount) -> Seq<char> {
    let raw = dec_digits(a.mantissa as int);
    if raw.len() > a.scale {
        raw
    } else {
        zero_chars((a.scale + 1 - raw.len()) as nat) + raw
    }
}

/// The exact decimal string of an amount: optional minus sign, the integer
/// digits, and for a positive scale a point followed by `scale` digits.
pub open spec fn amount_chars(a: Amount) -> Seq<char> {
    let p = amount_digits(a);
    let body = if a.scale == 0 {
        p
    } else {
        p.take(p.len() - a.scale) + seq!['.'] + p.skip(p.len() - a.scale)
    };
    if a.negative {
        seq!['-'] + body
    } else {
        body
    }
}

/// Index of the first `.` in `s`, or -1 when there is none.
pub open spec fn first_dot(s: Seq<char>) -> int
    decreases s.len(),
{
    if s.len() == 0 {
        -1
    } else if s[0] == '.' {
        0
    } else {
        let r = first_dot(s.skip(1));
        if r < 0 {
            -1
        } else {
            r + 1
        }
    }
}

pub proof fn lemma_first_dot_at(s: Seq<char>, i: int)
    requires
        0 <= i < s.len(),
        s[i] == '.',
        forall|j: int| 0 <= j < i ==> s[j] != '.',
    ensures
        first_dot(s) == i,
    decreases i,
{
    if i > 0 {
        assert(s[0] != '.');
        let t = s.skip(1);
        assert(t[i - 1] == '.');
        assert(forall|j: int| 0 <= j < i - 1 ==> t[j] == s[j + 1] && #[trigger] t[j] != '.');
        lemma_first_dot_at(t, i - 1);
    }
}

pub proof fn lemma_first_dot_none(s: Seq<char>)
    requires
        forall|j: int| 0 <= j < s.len() ==> s[j] != '.',
    ensures
        first_dot(s) == -1,
    decreases s.len(),
{
    if s.len() > 0 {
        let t = s.skip(1);
        assert(forall|j: int| 0 <= j < t.len() ==> t[j] == s[j + 1] && #[trigger] t[j] != '.');
        lemma_first_dot_none(t);
    }
}

/// The amount a string denotes, if it is a well-formed decimal form:
/// an optional minus sign, at least one integer digit, and optionally a
/// point followed by one to `MAX_SCALE` fractional digits, the whole digit
/// string denoting less than `MANTISSA_LIMIT`.
pub open spec fn parse_amount_chars(s: Seq<char>) -> Option<Amount> {
    let neg = s.len() > 0 && s[0] == '-';
    let body = if neg {
        s.skip(1)
    } else {
        s
    };
    let dot = first_dot(body);
    let ipart = if dot < 0 {
        body
    } else {
        body.take(dot)
    };
    let fpart = if dot < 0 {
        Seq::<char>::empty()
    } else {
        body.skip(dot + 1)
    };
    if ipart.len() >= 1 && (dot < 0 || fpart.len() >= 1) && all_digits(ipart, 10) && all_digits(
        fpart,
        10,
    ) && fpart.len() <= MAX_SCALE && digits_val(ipart + fpart, 10) < MANTISSA_LIMIT {
        Some(
            Amount {
                negative: neg,
                mantissa: digits_val(ipart + fpart, 10) as u128,
                scale: fpart.len() as u32,
            },
        )
    } else {
        None
    }
}

/// A digit is never a minus sign or a point.
proof fn lemma_digits_are_plain(s: Seq<char>)
    requires
        all_digits(s, 10),
    ensures
        forall|j: int| 0 <= j < s.len() ==> s[j] != '.',
        forall|j: int| 0 <= j < s.len() ==> s[j] != '-',
{
    assert forall|j: int| 0 <= j < s.len() implies s[j] != '.' && s[j] != '-' by {
        assert(is_digit(s[j], 10));
    }
}

/// Whatever a string parses into is a well-formed amount.
pub proof fn lemma_parsed_amount_wf(s: Seq<char>)
    ensures
        parse_amount_chars(s) matches Some(a) ==> a.wf(),
{
    if parse_amount_chars(s) is Some {
        let neg = s.len() > 0 && s[0] == '-';
        let body = if neg {
            s.skip(1)
        } else {
            s
        };
        let dot = first_dot(body);
        let ipart = if dot < 0 {
            body
        } else {
            body.take(dot)
        };
        let fpart = if dot < 0 {
            Seq::<char>::empty()
        } else {
            body.skip(dot + 1)
        };
        let w = ipart + fpart;
        assert(all_digits(w, 10)) by {
            assert(forall|j: int|
                0 <= j < w.len() ==> (if j < ipart.len() {
                    #[trigger] w[j] == ipart[j]
                } else {
                    w[j] == fpart[j - ipart.len()]
                }));
        }
        crate::digits::lemma_digits_val_nonneg(w, 10);
    }
}

/// Every well-formed amount is recovered exactly from its string.
pub proof fn lemma_amount_round_trip(a: Amount)
    requires
        a.wf(),
    ensures
        parse_amount_chars(amount_chars(a)) == Some(a),
{
    lemma_dec_digits(a.mantissa as int);
    let raw = dec_digits(a.mantissa as int);
    let p = amount_digits(a);
    assert(all_digits(p, 10) && digits_val(p, 10) == a.mantissa && p.len() > a.scale) by {
        if raw.len() > a.scale {
        } else {
            let k = (a.scale + 1 - raw.len()) as nat;
            lemma_zero_chars_val(k, 10);
            lemma_leading_zeros_val(k, raw, 10);
            assert forall|i: int| 0 <= i < p.len() implies is_digit(#[trigger] p[i], 10) by {
                if i < k {
                    assert(p[i] == '0');
                } else {
                    assert(p[i] == raw[i - k]);
                }
            }
        }
    }
    lemma_digits_are_plain(p);
    let body = if a.scale == 0 {
        p
    } else {
        p.take(p.len() - a.scale) + seq!['.'] + p.skip(p.len() - a.scale)
    };
    let s = amount_chars(a);
    if a.scale == 0 {
        lemma_first_dot_none(body);
        if a.negative {
            assert(s[0] == '-');
            assert(s.skip(1) =~= body);
        } else {
            assert(s =~= body);
            assert(s[0] == p[0]);
            assert(s[0] != '-');
        }
        assert(body + Seq::<char>::empty() =~= p);
    } else {
        let cut = p.len() - a.scale;
        let head = p.take(cut);
        let tail = p.skip(cut);
        assert(head.len() >= 1);
        assert(tail.len() == a.scale);
        assert(all_digits(head, 10)) by {
            assert(forall|i: int| 0 <= i < head.len() ==> head[i] == p[i]);
        }
        assert(all_digits(tail, 10)) by {
            assert(forall|i: int| 0 <= i < tail.len() ==> tail[i] == p[i + cut]);
        }
        lemma_digits_are_plain(head);
        assert(body[cut as int] == '.');
        assert(forall|j: int| 0 <= j < cut ==> body[j] == head[j]);
        lemma_first_dot_at(body, cut as int);
        if a.negative {
            assert(s[0] == '-');
            assert(s.skip(1) =~= body);
        } else {
            assert(s =~= body);
            assert(s[0] == head[0]);
            assert(s[0] != '-');
        }
        assert(body.take(cut as int) =~= head);
        assert(body.skip(cut as int + 1) =~= tail);
        assert(head + tail =~= p);
    }
}

/// Encode an amount as its exact decimal string.
pub fn encode_amount(a: &Amount) -> (s: String)
    requires
        a.wf(),
    ensures
        s@ == amount_chars(*a),
{
    proof {
        lemma_dec_digits(a.mantissa as int);
        reveal_strlit("0");
        reveal_strlit(".");
        reveal_strlit("-");
    }
    let digits = encode_dec(a.mantissa);
    let rawlen = digits.as_str().unicode_len();
    let scale = a.scale as usize;
    let mut padded = String::new();
    if rawlen <= scale {
        let pad = scale + 1 - rawlen;
        let mut j: usize = 0;
        while j < pad
            invariant
                j <= pad,
                padded@ =~= zero_chars(j as nat),
            decreases pad - j,
        {
            padded.append("0");
            proof {
                reveal_strlit("0");
                assert(padded@ =~= zero_chars((j + 1) as nat));
            }
            j = j + 1;
        }
    }
    padded.append(digits.as_str());
    proof {
        assert(padded@ =~= amount_digits(*a));
    }
    let plen = padded.as_str().unicode_len();
    let mut out = String::new();
    if a.negative {
        out.append("-");
    }
    if scale == 0 {
        out.append(padded.as_str());
    } else {
        out.append(padded.as_str().substring_char(0, plen - scale));
        out.append(".");
        out.append(padded.as_str().substring_char(plen - scale, plen));
    }
    proof {
        assert(out@ =~= amount_chars(*a));
    }
    out
}

/// Fold the decimal digits of `s` between `lo` and `hi` onto `acc`, which
/// already denotes the digits of `done`; fails on a non-digit or when the
/// total reaches `MANTISSA_LIMIT`.
fn fold_dec_range(s: &str, lo: usize, hi: usize, acc: u128, done: Ghost<Seq<char>>) -> (r: Option<
    u128,
>)
    requires
        lo <= hi <= s@.len(),
        all_digits(done@, 10),
        acc as int == digits_val(done@, 10),
        acc < MANTISSA_LIMIT,
    ensures
        match r {
            Some(v) => all_digits(s@.subrange(lo as int, hi as int), 10) && v as int == digits_val(
                done@ + s@.subrange(lo as int, hi as int),
                10,
            ) && v < MANTISSA_LIMIT,
            None => !all_digits(s@.subrange(lo as int, hi as int), 10) || digits_val(
                done@ + s@.subrange(lo as int, hi as int),
                10,
            ) >= MANTISSA_LIMIT,
        },
{
    let mut acc = acc;
    let mut i: usize = lo;
    while i < hi
        invariant
            lo <= i <= hi,
            hi <= s@.len(),
            all_digits(done@, 10),
            all_digits(s@.subrange(lo as int, i as int), 10),
            acc as int == digits_val(done@ + s@.subrange(lo as int, i as int), 10),
            acc < MANTISSA_LIMIT,
        decreases hi - i,
    {
        let c = s.get_char(i);
        let d = digit_of(c);
        if d < 0 || d > 9 {
            proof {
                let sub = s@.subrange(lo as int, hi as int);
                assert(sub[i - lo] == s@[i as int]);
            }
            return None;
        }
        let next = acc * 10 + (d as u128);
        proof {
            let pre = done@ + s@.subrange(lo as int, i as int);
            let pre1 = done@ + s@.subrange(lo as int, (i + 1) as int);
            assert(pre1.drop_last() =~= pre);
            assert(pre1.last() == s@[i as int]);
            assert(digits_val(pre1, 10) == digits_val(pre, 10) * 10 + char_digit(s@[i as int]));
            if next >= MANTISSA_LIMIT {
                let whole = done@ + s@.subrange(lo as int, hi as int);
                assert(all_digits(pre1, 10)) by {
                    assert(forall|j: int|
                        0 <= j < pre1.len() - 1 ==> pre1[j] == #[trigger] pre[j]);
                }
                if all_digits(s@.subrange(lo as int, hi as int), 10) {
                    assert(all_digits(whole, 10)) by {
                        assert(forall|j: int|
                            0 <= j < whole.len() ==> (if j < done@.len() {
                                whole[j] == done@[j]
                            } else {
                                whole[j] == s@.subrange(lo as int, hi as int)[j - done@.len()]
                            }));
                    }
                    assert(whole.take(pre1.len() as int) =~= pre1);
                    lemma_digits_val_prefix(whole, pre1.len() as int, 10);
                }
            }
        }
        if next >= MANTISSA_LIMIT {
            return None;
        }
        acc = next;
        i = i + 1;
    }
    Some(acc)
}

/// Parse an exact decimal string back into an amount.
#[verifier::rlimit(60)]
pub fn parse_amount(s: &str) -> (r: Option<Amount>)
    ensures
        r == parse_amount_chars(s@),
{
    let n = s.unicode_len();
    let neg = n > 0 && s.get_char(0) == '-';
    let start: usize = if neg {
        1
    } else {
        0
    };
    let ghost body = if neg {
        s@.skip(1)
    } else {
        s@
    };
    // find the first point
    let mut dot_at: Option<usize> = None;
    let mut i: usize = start;
    while i < n
        invariant
            start <= i <= n,
            n == s@.len(),
            dot_at matches Some(k) ==> start <= k < i && s@[k as int] == '.' && forall|j: int|
                start <= j < k ==> s@[j] != '.',
            dot_at is None ==> forall|j: int| start <= j < i ==> s@[j] != '.',
        decreases n - i,
    {
        if dot_at.is_none() && s.get_char(i) == '.' {
            dot_at = Some(i);
        }
        i = i + 1;
    }
    proof {
        match dot_at {
            Some(k) => {
                assert(body[k - start] == '.');
                assert(forall|j: int| 0 <= j < k - start ==> body[j] == s@[j + start]);
                lemma_first_dot_at(body, k - start);
            },
            None => {
                assert(forall|j: int| 0 <= j < body.len() ==> body[j] == s@[j + start]);
                lemma_first_dot_none(body);
            },
        }
    }
    let iend: usize = match dot_at {
        Some(k) => k,
        None => n,
    };
    if iend <= start {
        // no integer digit
        proof {
            if dot_at is Some {
                assert(body.take(first_dot(body)).len() == 0);
            } else {
                assert(body.len() == 0);
            }
        }
        return None;
    }
    let ghost ipart = s@.subrange(start as int, iend as int);
    proof {
        if dot_at is Some {
            assert(ipart =~= body.take(first_dot(body)));
        } else {
            assert(ipart =~= body);
        }
    }
    let m0 = fold_dec_range(s, start, iend, 0, Ghost(Seq::<char>::empty()));
    let m0 = match m0 {
        Some(v) => v,
        None => {
            proof {
                assert(Seq::<char>::empty() + ipart =~= ipart);
                let d = first_dot(body);
                if d < 0 {
                    assert(ipart + Seq::<char>::empty() =~= ipart);
                } else {
                    let fp = body.skip(d + 1);
                    if all_digits(ipart, 10) && all_digits(fp, 10) {
                        let w = ipart + fp;
                        assert(all_digits(w, 10)) by {
                            assert(forall|j: int|
                                0 <= j < w.len() ==> (if j < ipart.len() {
                                    #[trigger] w[j] == ipart[j]
                                } else {
                                    w[j] == fp[j - ipart.len()]
                                }));
                        }
                        assert(w.take(ipart.len() as int) =~= ipart);
                        lemma_digits_val_prefix(w, ipart.len() as int, 10);
                    }
                }
            }
            return None;
        },
    };
    proof {
        assert(Seq::<char>::empty() + ipart =~= ipart);
    }
    match dot_at {
        None => {
            proof {
                assert(ipart + Seq::<char>::empty() =~= ipart);
            }
            Some(Amount { negative: neg, mantissa: m0, scale: 0 })
        },
        Some(k) => {
            let flen = n - (k + 1);
            let ghost fpart = s@.subrange((k + 1) as int, n as int);
            proof {
                assert(fpart =~= body.skip(first_dot(body) + 1));
            }
            if flen == 0 {
                return None;
            }
            if flen > MAX_SCALE as usize {
                return None;
            }
            let m = fold_dec_range(s, k + 1, n, m0, Ghost(ipart));
            match m {
                Some(v) => Some(Amount { negative: neg, mantissa: v, scale: flen as u32 }),
                None => None,
            }
        },
    }
}

} // verus!
