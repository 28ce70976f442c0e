//! The binary word format of the machine.
//!
//! A word is a 32-bit signed integer. Its low 5 bits hold the
//! address/operand field and bits 13 to 15 hold the 3-bit opcode field;
//! the remaining bits are don't-care for execution.
//!
//! The machine historically writes a word's bits least significant first,
//! left to right. Internally all arithmetic uses the ordinary two's
//! complement convention; only the textual form (snapshot files, display)
//! uses the historical order. `word_of_bits` and `word_bits_seq` are the
//! two sides of that boundary, and the round-trip lemmas at the end of
//! this module show that they invert each other.

use vstd::arithmetic::div_mod::{
    lemma_div_denominator, lemma_div_is_ordered, lemma_fundamental_div_mod,
    lemma_fundamental_div_mod_converse_div, lemma_fundamental_div_mod_converse_mod,
};
use vstd::arithmetic::power2::{lemma2_to64, lemma_pow2_adds, lemma_pow2_pos, pow2};
use vstd::prelude::*;

verus! {

/// Mask selecting the 5-bit address/operand field of a word.
pub const DATA_MASK: u32 = 0x1f;

/// Mask selecting a 3-bit opcode once it sits on the low edge of a word.
pub const OPCODE_MASK: u32 = 0x7;

/// Right shift that brings the opcode field to the low edge of a word.
pub const OPCODE_SHIFT: u32 = 13;

/// The 3-bit opcode field of a word: bits 13 to 15.
pub open spec fn word_opcode_field(w: i32) -> u32 {
    ((w as u32) >> OPCODE_SHIFT) & OPCODE_MASK
}

/// The 5-bit address/operand field of a word: bits 0 to 4.
pub open spec fn word_data_field(w: i32) -> u32 {
    (w as u32) & DATA_MASK
}

/// The word an assembly line builds: the 3-bit code shifted to its field,
/// combined with the operand masked to the 5-bit data field.
pub open spec fn spec_encode_word(code: u8, operand: i32) -> i32 {
    ((((code as u32) << OPCODE_SHIFT) | ((operand as u32) & DATA_MASK))) as i32
}

/// The opcode field is 3 bits wide and the data field 5 bits wide.
pub broadcast proof fn lemma_word_fields_in_range(w: i32)
    ensures
        #[trigger] word_opcode_field(w) < 8,
        #[trigger] word_data_field(w) < 32,
{
    let u = w as u32;
    assert((u >> 13u32) & 7u32 < 8 && u & 0x1fu32 < 32) by (bit_vector);
}

/// Extract the opcode and data fields of a word.
pub fn split_word(w: i32) -> (r: (u8, i32))
    ensures
        r.0 == word_opcode_field(w),
        r.1 == word_data_field(w),
        r.0 < 8,
        0 <= r.1 < 32,
{
    proof {
        lemma_word_fields_in_range(w);
    }
    let u = #[verifier::truncate] (w as u32);
    let code = ((u >> OPCODE_SHIFT) & OPCODE_MASK) as u8;
    let data = (u & DATA_MASK) as i32;
    (code, data)
}

/// Build the word for an instruction line from a 3-bit code and an operand.
pub fn encode_word(code: u8, operand: i32) -> (w: i32)
    requires
        code < 8,
    ensures
        w == spec_encode_word(code, operand),
        word_opcode_field(w) == code,
        word_data_field(w) == (operand as u32) & DATA_MASK,
{
    let op_u = #[verifier::truncate] (operand as u32);
    let u = ((code as u32) << OPCODE_SHIFT) | (op_u & DATA_MASK);
    proof {
        let c = code as u32;
        assert(((c << 13u32) | (op_u & 0x1fu32)) < 0x8000_0000) by (bit_vector)
            requires
                c < 8,
        ;
        assert((((((c << 13u32) | (op_u & 0x1fu32)) as i32) as u32) >> 13u32) & 7u32 == c)
            by (bit_vector)
            requires
                c < 8,
        ;
        assert(((((c << 13u32) | (op_u & 0x1fu32)) as i32) as u32) & 0x1fu32 == op_u & 0x1fu32)
            by (bit_vector);
    }
    u as i32
}

/// The numeric weight of a character read as a binary digit: '1' weighs 1,
/// anything else 0.
pub open spec fn bit_of_char(c: char) -> nat {
    if c == '1' {
        1
    } else {
        0
    }
}

/// The character for a one-bit value.
pub open spec fn char_of_bit(b: nat) -> char {
    if b == 1 {
        '1'
    } else {
        '0'
    }
}

/// A well-formed textual word: exactly 32 characters, each '0' or '1',
/// least significant bit first (the historical writing order).
pub open spec fn valid_bits(s: Seq<char>) -> bool {
    &&& s.len() == 32
    &&& forall|i: int| 0 <= i < s.len() ==> s[i] == '0' || s[i] == '1'
}

/// The unsigned value of a bit string in the historical order: the
/// character at position `k` contributes `2^k`.
pub open spec fn bits_value(s: Seq<char>) -> nat
    decreases s.len(),
{
    if s.len() == 0 {
        0
    } else {
        bit_of_char(s[0]) + 2 * bits_value(s.skip(1))
    }
}

/// The word a well-formed 32-character bit string denotes: its unsigned
/// value reinterpreted as a 32-bit signed word (two's complement).
pub open spec fn word_of_bits(s: Seq<char>) -> i32 {
    ((bits_value(s) as u32) as i32)
}

/// The historical rendering of the low `n` bits of an unsigned value.
pub open spec fn render_bits(u: nat, n: nat) -> Seq<char> {
    Seq::new(n, |k: int| char_of_bit((u / pow2(k as nat)) % 2))
}

/// The historical (least-significant-first) 32-character rendering of a
/// word.
pub open spec fn word_bits_seq(w: i32) -> Seq<char> {
    render_bits((w as u32) as nat, 32)
}

/// A bit string's value is bounded by two to the power of its length.
proof fn lemma_bits_value_bound(s: Seq<char>)
    ensures
        bits_value(s) < pow2(s.len()),
    decreases s.len(),
{
    if s.len() == 0 {
        lemma2_to64();
    } else {
        lemma_bits_value_bound(s.skip(1));
        lemma_pow2_adds(1, (s.len() - 1) as nat);
        lemma2_to64();
    }
}

/// Bit `k` of a bit string's value is the bit its character at `k` wrote.
proof fn lemma_bits_value_bit(s: Seq<char>, k: int)
    requires
        0 <= k < s.len(),
    ensures
        (bits_value(s) / pow2(k as nat)) % 2 == bit_of_char(s[k]),
    decreases k,
{
    let v = bits_value(s) as int;
    let rest = bits_value(s.skip(1)) as int;
    let b0 = bit_of_char(s[0]) as int;
    assert(v == 2 * rest + b0);
    if k == 0 {
        lemma2_to64();
        assert(pow2(0) == 1);
        lemma_fundamental_div_mod_converse_mod(v, 2, rest, b0);
        assert(v / pow2(0) as int == v) by {
            assert(v / 1int == v);
        }
    } else {
        lemma_bits_value_bit(s.skip(1), k - 1);
        assert(s.skip(1)[k - 1] == s[k]);
        lemma_fundamental_div_mod_converse_div(v, 2, rest, b0);
        assert(v / 2 == rest);
        lemma_pow2_pos((k - 1) as nat);
        lemma_div_denominator(v, 2, pow2((k - 1) as nat) as int);
        lemma_pow2_adds(1, (k - 1) as nat);
        lemma2_to64();
        assert(pow2(k as nat) == 2 * pow2((k - 1) as nat));
        assert(v / pow2(k as nat) as int == rest / pow2((k - 1) as nat) as int);
    }
}

/// Rendering `n` bits of a value below `2^n` and reading them back
/// returns the value.
proof fn lemma_render_bits_value(u: nat, n: nat)
    requires
        u < pow2(n),
    ensures
        bits_value(render_bits(u, n)) == u,
    decreases n,
{
    let s = render_bits(u, n);
    if n == 0 {
        lemma2_to64();
        assert(u == 0);
    } else {
        lemma_fundamental_div_mod(u as int, 2);
        let u2 = u / 2;
        assert(u == 2 * u2 + u % 2);
        // The tail of the rendering is the rendering of the halved value.
        assert(s.skip(1) =~= render_bits(u2, (n - 1) as nat)) by {
            assert forall|k: int| 0 <= k < n - 1 implies s.skip(1)[k] == char_of_bit(
                (u2 / pow2(k as nat)) % 2,
            ) by {
                lemma_pow2_pos(k as nat);
                lemma_div_denominator(u as int, 2, pow2(k as nat) as int);
                lemma_pow2_adds(1, k as nat);
                lemma2_to64();
                assert(pow2((k + 1) as nat) == 2 * pow2(k as nat));
                assert(u / pow2((k + 1) as nat) == u2 / pow2(k as nat));
            }
        }
        // The halved value fits the shorter rendering.
        assert(u2 < pow2((n - 1) as nat)) by {
            lemma_pow2_adds(1, (n - 1) as nat);
            lemma2_to64();
            assert(pow2(n) == 2 * pow2((n - 1) as nat));
            lemma_fundamental_div_mod_converse_div(
                (2 * pow2((n - 1) as nat)) as int,
                2,
                pow2((n - 1) as nat) as int,
                0,
            );
            lemma_div_is_ordered(u as int, (2 * pow2((n - 1) as nat)) as int, 2);
        }
        lemma_render_bits_value(u2, (n - 1) as nat);
        lemma2_to64();
        assert(pow2(0) == 1);
        assert(u / pow2(0) == u);
        assert(bit_of_char(s[0]) == u % 2);
        assert(bits_value(s) == bit_of_char(s[0]) + 2 * bits_value(s.skip(1)));
    }
}

/// Reinterpreting a word as unsigned and back is the identity.
proof fn lemma_word_cast_round_trip(w: i32)
    by (bit_vector)
    ensures
        ((w as u32) as i32) == w,
{
}

/// Reinterpreting an unsigned value as a word and back is the identity.
proof fn lemma_unsigned_cast_round_trip(u: u32)
    by (bit_vector)
    ensures
        ((u as i32) as u32) == u,
{
}

/// Round trip, text first: a well-formed bit string, read as a word and
/// rendered again, reproduces itself character for character.
pub proof fn lemma_bits_round_trip(s: Seq<char>)
    requires
        valid_bits(s),
    ensures
        word_bits_seq(word_of_bits(s)) == s,
{
    let v = bits_value(s);
    lemma_bits_value_bound(s);
    lemma2_to64();
    assert(pow2(32) == 0x1_0000_0000);
    let w = word_of_bits(s);
    lemma_unsigned_cast_round_trip(v as u32);
    assert((w as u32) as nat == v);
    assert(word_bits_seq(w) =~= s) by {
        assert forall|k: int| 0 <= k < 32 implies word_bits_seq(w)[k] == s[k] by {
            lemma_bits_value_bit(s, k);
        }
    }
}

/// Round trip, word first: rendering a word gives a well-formed bit
/// string that reads back as the same word.
pub proof fn lemma_word_round_trip(w: i32)
    ensures
        valid_bits(word_bits_seq(w)),
        word_of_bits(word_bits_seq(w)) == w,
{
    let u = (w as u32) as nat;
    lemma2_to64();
    assert(pow2(32) == 0x1_0000_0000);
    lemma_render_bits_value(u, 32);
    lemma_word_cast_round_trip(w);
}

/// Read a 32-character bit string written least significant bit first
/// into a word, if it is well formed.
pub fn parse_word_bits(chars: &Vec<char>) -> (r: Option<i32>)
    ensures
        r matches Some(w) ==> valid_bits(chars@) && w == word_of_bits(chars@),
        r is None ==> !valid_bits(chars@),
{
    if chars.len() != 32 {
        return None;
    }
    let ghost s = chars@;
    let mut acc: u32 = 0;
    let mut j: usize = 32;
    proof {
        assert(s.skip(32) =~= Seq::<char>::empty());
        lemma2_to64();
    }
    while j > 0
        invariant
            j <= 32,
            s.len() == 32,
            s == chars@,
            acc == bits_value(s.skip(j as int)),
            acc < pow2((32 - j) as nat),
            forall|i: int| j <= i < 32 ==> s[i] == '0' || s[i] == '1',
        decreases j,
    {
        j = j - 1;
        let c = chars[j];
        if c != '0' && c != '1' {
            return None;
        }
        let b: u32 = if c == '1' {
            1
        } else {
            0
        };
        proof {
            assert(s.skip(j as int).skip(1) =~= s.skip(j + 1));
            assert(s.skip(j as int)[0] == s[j as int]);
            assert(bits_value(s.skip(j as int)) == bit_of_char(s[j as int]) + 2 * bits_value(
                s.skip(j + 1),
            ));
            lemma_pow2_adds(1, (31 - j) as nat);
            lemma2_to64();
            assert(pow2((32 - j) as nat) == 2 * pow2((31 - j) as nat));
            vstd::arithmetic::power2::lemma_pow2_strictly_increases((31 - j) as nat, 32);
        }
        acc = 2 * acc + b;
    }
    proof {
        assert(s.skip(0) =~= s);
    }
    let w = #[verifier::truncate] (acc as i32);
    Some(w)
}

/// Render a word as its historical 32-character bit string, least
/// significant bit first.
pub fn word_bit_string(w: i32) -> (s: String)
    ensures
        s@ == word_bits_seq(w),
        valid_bits(s@),
{
    proof {
        lemma_word_round_trip(w);
        reveal_strlit("0");
        reveal_strlit("1");
        lemma2_to64();
    }
    let u0 = #[verifier::truncate] (w as u32);
    let ghost un = u0 as nat;
    let mut s = String::new();
    let mut u = u0;
    let mut k: usize = 0;
    proof {
        assert(un / pow2(0) == un);
    }
    while k < 32
        invariant
            k <= 32,
            un == (w as u32) as nat,
            u == un / pow2(k as nat),
            s@ =~= word_bits_seq(w).take(k as int),
        decreases 32 - k,
    {
        proof {
            reveal_strlit("0");
            reveal_strlit("1");
        }
        if u % 2 == 1 {
            s.append("1");
        } else {
            s.append("0");
        }
        proof {
            assert(word_bits_seq(w).take(k as int).push(
                char_of_bit((un / pow2(k as nat)) % 2),
            ) =~= word_bits_seq(w).take(k + 1));
            lemma_pow2_pos(k as nat);
            lemma_div_denominator(un as int, pow2(k as nat) as int, 2);
            lemma_pow2_adds(k as nat, 1);
            lemma2_to64();
            assert(pow2((k + 1) as nat) == pow2(k as nat) * 2);
            assert(un / pow2((k + 1) as nat) == (un / pow2(k as nat)) / 2);
        }
        u = u / 2;
        k = k + 1;
    }
    proof {
        assert(word_bits_seq(w).take(32) =~= word_bits_seq(w));
    }
    s
}

} // verus!
