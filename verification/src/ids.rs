//! Transaction identifiers: 128-bit values generated once at construction,
//! stored as the canonical lowercase hyphenated hexadecimal string.

use vstd::prelude::*;

use crate::digits::{
    all_digits, digits_val, fixed_digits, lemma_digits_val_bound, lemma_fixed_digits_shape,
    lemma_fixed_digits_val, lemma_pow16_vals, parse_hex_range, encode_fixed,
};

verus! {

/// A 128-bit unique identifier, assigned when a transaction is constructed
/// and never changed afterwards.
#[derive(Clone, Copy, PartialEq, Eq, Structural, Debug, Hash)]
pub struct TransactionId(pub u128);

/// The 32 hexadecimal digits of an identifier.
pub open spec fn id_hex_chars(id: TransactionId) -> Seq<char> {
    fixed_digits(id.0 as int, 32, 16)
}

/// The canonical hyphenated form: 8-4-4-4-12 lowercase hexadecimal digits.
pub open spec fn id_chars(id: TransactionId) -> Seq<char> {
    let h = id_hex_chars(id);
    h.subrange(0, 8) + seq!['-'] + h.subrange(8, 12) + seq!['-'] + h.subrange(12, 16) + seq!['-']
        + h.subrange(16, 20) + seq!['-'] + h.subrange(20, 32)
}

/// The 32 digit positions of a 36-character hyphenated form.
pub open spec fn id_stripped(s: Seq<char>) -> Seq<char> {
    s.subrange(0, 8) + s.subrange(9, 13) + s.subrange(14, 18) + s.subrange(19, 23) + s.subrange(
        24,
        36,
    )
}

/// Whether `s` is a hyphenated identifier string; either case of the
/// hexadecimal digits is read.
pub open spec fn is_id_chars(s: Seq<char>) -> bool {
    &&& s.len() == 36
    &&& s[8] == '-'
    &&& s[13] == '-'
    &&& s[18] == '-'
    &&& s[23] == '-'
    &&& all_digits(id_stripped(s), 16)
}

/// The identifier a string denotes, if it is well-formed.
pub open spec fn parse_id_chars(s: Seq<char>) -> Option<TransactionId> {
    if is_id_chars(s) {
        Some(TransactionId(digits_val(id_stripped(s), 16) as u128))
    } else {
        None
    }
}

/// Every identifier is recovered exactly from its canonical string.
pub proof fn lemma_id_round_trip(id: TransactionId)
    ensures
        parse_id_chars(id_chars(id)) == Some(id),
{
    lemma_pow16_vals();
    lemma_fixed_digits_shape(id.0 as int, 32, 16);
    lemma_fixed_digits_val(id.0 as int, 32, 16);
    let h = id_hex_chars(id);
    let s = id_chars(id);
    assert(s.len() == 36);
    assert(id_stripped(s) =~= h);
    assert(is_id_chars(s));
    assert(digits_val(id_stripped(s), 16) == id.0 as int);
}

/// Encode an identifier as its canonical hyphenated string.
pub fn encode_id(id: TransactionId) -> (s: String)
    ensures
        s@ == id_chars(id),
{
    let h = encode_fixed(id.0, 32, 16);
    proof {
        lemma_fixed_digits_shape(id.0 as int, 32, 16);
        reveal_strlit("-");
    }
    let hs = h.as_str();
    let mut out = String::new();
    out.append(hs.substring_char(0, 8));
    out.append("-");
    out.append(hs.substring_char(8, 12));
    out.append("-");
    out.append(hs.substring_char(12, 16));
    out.append("-");
    out.append(hs.substring_char(16, 20));
    out.append("-");
    out.append(hs.substring_char(20, 32));
    proof {
        assert(out@ =~= id_chars(id));
    }
    out
}

/// Parse the canonical hyphenated form back into an identifier.
pub fn parse_id(s: &str) -> (r: Option<TransactionId>)
    ensures
        r == parse_id_chars(s@),
{
    if s.unicode_len() != 36 {
        return None;
    }
    if s.get_char(8) != '-' || s.get_char(13) != '-' || s.get_char(18) != '-' || s.get_char(23)
        != '-' {
        return None;
    }
    let g0 = parse_hex_range(s, 0, 8);
    let g1 = parse_hex_range(s, 9, 13);
    let g2 = parse_hex_range(s, 14, 18);
    let g3 = parse_hex_range(s, 19, 23);
    let g4 = parse_hex_range(s, 24, 36);
    proof {
        lemma_pow16_vals();
    }
    match (g0, g1, g2, g3, g4) {
        (Some(v0), Some(v1), Some(v2), Some(v3), Some(v4)) => {
            proof {
                let q0 = s@.subrange(0, 8);
                let q1 = s@.subrange(9, 13);
                let q2 = s@.subrange(14, 18);
                let q3 = s@.subrange(19, 23);
                let q4 = s@.subrange(24, 36);
                lemma_digits_val_bound(q0, 16);
                lemma_digits_val_bound(q1, 16);
                lemma_digits_val_bound(q2, 16);
                lemma_digits_val_bound(q3, 16);
                lemma_digits_val_bound(q4, 16);
                assert(id_stripped(s@) =~= q0 + (q1 + (q2 + (q3 + q4))));
                crate::digits::lemma_digits_val_concat(q3, q4, 16);
                crate::digits::lemma_digits_val_concat(q2, q3 + q4, 16);
                crate::digits::lemma_digits_val_concat(q1, q2 + (q3 + q4), 16);
                crate::digits::lemma_digits_val_concat(q0, q1 + (q2 + (q3 + q4)), 16);
                assert((q1 + (q2 + (q3 + q4))).len() == 24);
                assert((q2 + (q3 + q4)).len() == 20);
                assert((q3 + q4).len() == 16);
                assert(all_digits(id_stripped(s@), 16)) by {
                    let t = id_stripped(s@);
                    assert forall|i: int| 0 <= i < t.len() implies crate::digits::is_digit(
                        #[trigger] t[i],
                        16,
                    ) by {
                        if i < 8 {
                            assert(t[i] == q0[i]);
                        } else if i < 12 {
                            assert(t[i] == q1[i - 8]);
                        } else if i < 16 {
                            assert(t[i] == q2[i - 12]);
                        } else if i < 20 {
                            assert(t[i] == q3[i - 16]);
                        } else {
                            assert(t[i] == q4[i - 20]);
                        }
                    }
                }
                assert(is_id_chars(s@));
            }
            let v = (v0 as u128) * 0x1000000000000000000000000 + (v1 as u128)
                * 0x100000000000000000000 + (v2 as u128) * 0x10000000000000000 + (v3 as u128)
                * 0x1000000000000 + (v4 as u128);
            proof {
                assert(v as int == digits_val(id_stripped(s@), 16));
            }
            Some(TransactionId(v))
        },
        _ => {
            proof {
                if is_id_chars(s@) {
                    let t = id_stripped(s@);
                    assert forall|i: int| 0 <= i < 8 implies crate::digits::is_digit(
                        #[trigger] s@.subrange(0, 8)[i],
                        16,
                    ) by {
                        assert(s@.subrange(0, 8)[i] == t[i]);
                    }
                    assert forall|i: int| 0 <= i < 4 implies crate::digits::is_digit(
                        #[trigger] s@.subrange(9, 13)[i],
                        16,
                    ) by {
                        assert(s@.subrange(9, 13)[i] == t[i + 8]);
                    }
                    assert forall|i: int| 0 <= i < 4 implies crate::digits::is_digit(
                        #[trigger] s@.subrange(14, 18)[i],
                        16,
                    ) by {
                        assert(s@.subrange(14, 18)[i] == t[i + 12]);
                    }
                    assert forall|i: int| 0 <= i < 4 implies crate::digits::is_digit(
                        #[trigger] s@.subrange(19, 23)[i],
                        16,
                    ) by {
                        assert(s@.subrange(19, 23)[i] == t[i + 16]);
                    }
                    assert forall|i: int| 0 <= i < 12 implies crate::digits::is_digit(
                        #[trigger] s@.subrange(24, 36)[i],
                        16,
                    ) by {
                        assert(s@.subrange(24, 36)[i] == t[i + 20]);
                    }
                    assert(false);
                }
            }
            None
        },
    }
}

/// Relies on `uuid::Uuid::new_v4` and `uuid::Uuid::as_u128`: a freshly
/// generated random identifier. Its version nibble is 4 and its variant
/// bits are the RFC 4122 ones; nothing else is promised of the value.
#[verifier::external_body]
fn random_id_bits() -> (r: u128)
    ensures
        r & 0xF0000000000000000000 == 0x40000000000000000000,
        r & 0xC000000000000000 == 0x8000000000000000,
{
    uuid::Uuid::new_v4().as_u128()
}

/// Draw a fresh random identifier.
pub fn fresh_id() -> (id: TransactionId)
    ensures
        id.0 & 0xF0000000000000000000 == 0x40000000000000000000,
        id.0 & 0xC000000000000000 == 0x8000000000000000,
{
    TransactionId(random_id_bits())
}

} // verus!
