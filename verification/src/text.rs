//! Character-level utilities shared by the two program loaders: comment
//! stripping, whitespace trimming, tokenizing, and decimal integer
//! parsing. Each executable function is proved against a spec function
//! over sequences of characters, and the loaders' contracts are stated
//! over those spec functions.

use vstd::prelude::*;
use vstd::string::StrSliceExecFns;

verus! {

/// ASCII whitespace, the token separator of the loader formats.
pub open spec fn is_space_char(c: char) -> bool {
    c == ' ' || c == '\t' || c == '\n' || c == '\r' || c == '\u{000c}'
}

/// Decide ASCII whitespace.
pub fn is_space(c: char) -> (r: bool)
    ensures
        r == is_space_char(c),
{
    c == ' ' || c == '\t' || c == '\n' || c == '\r' || c == '\u{000c}'
}

/// The characters of a line before its first ';', the part the loaders
/// read.
pub open spec fn strip_comment(s: Seq<char>) -> Seq<char>
    decreases s.len(),
{
    if s.len() == 0 {
        s
    } else if s[0] == ';' {
        Seq::empty()
    } else {
        seq![s[0]] + strip_comment(s.skip(1))
    }
}

/// The prefix before the first ';' is what `strip_comment` keeps.
proof fn lemma_strip_comment_take(s: Seq<char>, i: int)
    requires
        0 <= i <= s.len(),
        forall|j: int| 0 <= j < i ==> s[j] != ';',
        i < s.len() ==> s[i] == ';',
    ensures
        strip_comment(s) == s.take(i),
    decreases s.len(),
{
    if s.len() == 0 {
        assert(s.take(0) =~= s);
    } else if i == 0 {
        assert(s[0] == ';');
        assert(s.take(0) =~= Seq::<char>::empty());
    } else {
        lemma_strip_comment_take(s.skip(1), i - 1);
        assert(seq![s[0]] + s.skip(1).take(i - 1) =~= s.take(i));
    }
}

/// Drop everything from the first ';' on.
pub fn strip_comment_chars(chars: &Vec<char>) -> (r: Vec<char>)
    ensures
        r@ == strip_comment(chars@),
{
    let mut r: Vec<char> = Vec::new();
    let mut i: usize = 0;
    while i < chars.len()
        invariant
            i <= chars@.len(),
            r@ =~= chars@.take(i as int),
            forall|j: int| 0 <= j < i ==> chars@[j] != ';',
        decreases chars@.len() - i,
    {
        let c = chars[i];
        if c == ';' {
            proof {
                lemma_strip_comment_take(chars@, i as int);
            }
            return r;
        }
        r.push(c);
        i = i + 1;
    }
    proof {
        lemma_strip_comment_take(chars@, chars@.len() as int);
    }
    r
}

/// The sequence without its leading ASCII whitespace.
pub open spec fn trim_start_spec(s: Seq<char>) -> Seq<char>
    decreases s.len(),
{
    if s.len() == 0 {
        s
    } else if is_space_char(s[0]) {
        trim_start_spec(s.skip(1))
    } else {
        s
    }
}

/// The sequence without its trailing ASCII whitespace.
pub open spec fn trim_end_spec(s: Seq<char>) -> Seq<char>
    decreases s.len(),
{
    if s.len() == 0 {
        s
    } else if is_space_char(s[s.len() - 1]) {
        trim_end_spec(s.take(s.len() - 1))
    } else {
        s
    }
}

/// The sequence without leading and trailing ASCII whitespace.
pub open spec fn trim_spec(s: Seq<char>) -> Seq<char> {
    trim_end_spec(trim_start_spec(s))
}

/// Copy a range of a character vector.
pub fn subrange_chars(chars: &Vec<char>, from: usize, to: usize) -> (r: Vec<char>)
    requires
        from <= to <= chars@.len(),
    ensures
        r@ == chars@.subrange(from as int, to as int),
{
    let mut r: Vec<char> = Vec::new();
    let mut i: usize = from;
    while i < to
        invariant
            from <= i <= to <= chars@.len(),
            r@ =~= chars@.subrange(from as int, i as int),
        decreases to - i,
    {
        r.push(chars[i]);
        i = i + 1;
    }
    r
}

/// Trim leading and trailing ASCII whitespace.
pub fn trim_chars(chars: &Vec<char>) -> (r: Vec<char>)
    ensures
        r@ == trim_spec(chars@),
{
    let ghost s = chars@;
    let mut a: usize = 0;
    proof {
        assert(s.skip(0) =~= s);
    }
    while a < chars.len() && is_space(chars[a])
        invariant
            a <= s.len(),
            s == chars@,
            trim_start_spec(s) == trim_start_spec(s.skip(a as int)),
        decreases s.len() - a,
    {
        proof {
            assert(s.skip(a as int)[0] == s[a as int]);
            assert(s.skip(a as int).skip(1) =~= s.skip(a + 1));
        }
        a = a + 1;
    }
    proof {
        if a == s.len() {
            assert(s.skip(a as int) =~= Seq::<char>::empty());
        }
        assert(trim_start_spec(s) == s.skip(a as int));
    }
    let ghost t = s.skip(a as int);
    let mut b: usize = chars.len();
    proof {
        assert(t.take(t.len() as int) =~= t);
    }
    while b > a && is_space(chars[b - 1])
        invariant
            a <= b <= s.len(),
            s == chars@,
            t == s.skip(a as int),
            trim_end_spec(t) == trim_end_spec(t.take(b - a as int)),
        decreases b,
    {
        proof {
            let u = t.take(b - a as int);
            assert(u[u.len() - 1] == s[b - 1]);
            assert(u.take(u.len() - 1) =~= t.take(b - 1 - a as int));
        }
        b = b - 1;
    }
    proof {
        let u = t.take(b - a as int);
        if b > a {
            assert(u[u.len() - 1] == s[b - 1]);
        }
        assert(trim_end_spec(t) == u);
        assert(u =~= s.subrange(a as int, b as int));
    }
    subrange_chars(chars, a, b)
}

/// The whitespace-separated tokens of a line, collected left to right:
/// `cur` is the token being read and `acc` the tokens already read.
pub open spec fn split_tokens_rec(s: Seq<char>, cur: Seq<char>, acc: Seq<Seq<char>>) -> Seq<
    Seq<char>,
>
    decreases s.len(),
{
    if s.len() == 0 {
        if cur.len() == 0 {
            acc
        } else {
            acc.push(cur)
        }
    } else if is_space_char(s[0]) {
        if cur.len() == 0 {
            split_tokens_rec(s.skip(1), cur, acc)
        } else {
            split_tokens_rec(s.skip(1), Seq::empty(), acc.push(cur))
        }
    } else {
        split_tokens_rec(s.skip(1), cur.push(s[0]), acc)
    }
}

/// The whitespace-separated tokens of a line.
pub open spec fn split_tokens(s: Seq<char>) -> Seq<Seq<char>> {
    split_tokens_rec(s, Seq::empty(), Seq::empty())
}

/// Split a line into its whitespace-separated tokens.
pub fn tokenize(chars: &Vec<char>) -> (tokens: Vec<Vec<char>>)
    ensures
        tokens.deep_view() == split_tokens(chars@),
{
    let ghost s = chars@;
    let mut tokens: Vec<Vec<char>> = Vec::new();
    let mut cur: Vec<char> = Vec::new();
    let mut i: usize = 0;
    proof {
        assert(s.skip(0) =~= s);
        assert(tokens.deep_view() =~= Seq::<Seq<char>>::empty());
        assert(cur@ =~= Seq::<char>::empty());
    }
    while i < chars.len()
        invariant
            i <= s.len(),
            s == chars@,
            split_tokens(s) == split_tokens_rec(s.skip(i as int), cur@, tokens.deep_view()),
        decreases s.len() - i,
    {
        let c = chars[i];
        proof {
            assert(s.skip(i as int)[0] == s[i as int]);
            assert(s.skip(i as int).skip(1) =~= s.skip(i + 1));
        }
        if is_space(c) {
            if cur.len() > 0 {
                let ghost prev = tokens.deep_view();
                let ghost cur_view = cur@;
                tokens.push(cur);
                cur = Vec::new();
                proof {
                    assert(tokens.deep_view() =~~= prev.push(cur_view));
                }
            }
        } else {
            cur.push(c);
        }
        i = i + 1;
    }
    proof {
        assert(s.skip(i as int) =~= Seq::<char>::empty());
    }
    if cur.len() > 0 {
        let ghost prev = tokens.deep_view();
        let ghost cur_view = cur@;
        tokens.push(cur);
        proof {
            assert(tokens.deep_view() =~~= prev.push(cur_view));
        }
    }
    tokens
}

/// A decimal digit.
pub open spec fn is_digit_char(c: char) -> bool {
    '0' <= c && c <= '9'
}

/// The value of a decimal digit.
pub open spec fn digit_of(c: char) -> nat {
    ((c as u32) - ('0' as u32)) as nat
}

/// A non-empty, all-digit character sequence.
pub open spec fn all_digits(s: Seq<char>) -> bool {
    &&& s.len() > 0
    &&& forall|i: int| 0 <= i < s.len() ==> is_digit_char(s[i])
}

/// The value of a decimal digit string, most significant digit first.
pub open spec fn dec_value(s: Seq<char>) -> nat
    decreases s.len(),
{
    if s.len() == 0 {
        0
    } else {
        dec_value(s.take(s.len() - 1)) * 10 + digit_of(s[s.len() - 1])
    }
}

/// What a 32-bit signed decimal literal denotes: an optional sign, then
/// one or more digits, with the value in range; anything else is
/// rejected. This is what the loaders accept as an index or operand.
pub open spec fn parse_i32_spec(s: Seq<char>) -> Option<i32> {
    let neg = s.len() > 0 && s[0] == '-';
    let ds = if s.len() > 0 && (s[0] == '-' || s[0] == '+') {
        s.skip(1)
    } else {
        s
    };
    if !all_digits(ds) {
        None
    } else if neg {
        if dec_value(ds) <= 0x8000_0000 {
            Some((-(dec_value(ds) as int)) as i32)
        } else {
            None
        }
    } else {
        if dec_value(ds) <= 0x7fff_ffff {
            Some(dec_value(ds) as i32)
        } else {
            None
        }
    }
}

/// A digit string is worth at least any of its prefixes.
proof fn lemma_dec_value_prefix(s: Seq<char>, m: int)
    requires
        0 <= m <= s.len(),
    ensures
        dec_value(s.take(m)) <= dec_value(s),
    decreases s.len(),
{
    if m == s.len() {
        assert(s.take(m) =~= s);
    } else {
        let p = s.take(s.len() - 1);
        lemma_dec_value_prefix(p, m);
        assert(p.take(m) =~= s.take(m));
        assert(dec_value(p) <= dec_value(p) * 10 + digit_of(s[s.len() - 1]));
    }
}

/// Parse a decimal 32-bit signed integer, exactly as `parse_i32_spec`
/// describes.
pub fn parse_i32(chars: &Vec<char>) -> (r: Option<i32>)
    ensures
        r == parse_i32_spec(chars@),
{
    let ghost s = chars@;
    let n = chars.len();
    if n == 0 {
        return None;
    }
    let c0 = chars[0];
    let neg = c0 == '-';
    let start: usize = if c0 == '-' || c0 == '+' {
        1
    } else {
        0
    };
    let ghost ds = if start == 1 {
        s.skip(1)
    } else {
        s
    };
    if start == n {
        // A bare sign has no digits.
        proof {
            assert(ds.len() == 0);
        }
        return None;
    }
    let mut acc: u64 = 0;
    let mut i: usize = start;
    proof {
        assert(ds.take(0) =~= Seq::<char>::empty());
    }
    while i < n
        invariant
            start <= i <= n,
            n == s.len(),
            n > 0,
            s == chars@,
            ds == if start == 1 {
                s.skip(1)
            } else {
                s
            },
            start == 0 || start == 1,
            (start == 1) == (s[0] == '-' || s[0] == '+'),
            neg == (s[0] == '-'),
            acc == dec_value(ds.take(i - start as int)),
            acc <= 0x8000_0000,
            forall|j: int| 0 <= j < i - start ==> is_digit_char(ds[j]),
        decreases n - i,
    {
        let c = chars[i];
        proof {
            assert(ds[i - start as int] == s[i as int]);
        }
        if c < '0' || c > '9' {
            proof {
                assert(!is_digit_char(ds[i - start as int]));
            }
            return None;
        }
        let d: u64 = (c as u32 - '0' as u32) as u64;
        proof {
            let p = ds.take(i + 1 - start as int);
            assert(p.take(p.len() - 1) =~= ds.take(i - start as int));
            assert(p[p.len() - 1] == ds[i - start as int]);
            assert(dec_value(p) == acc * 10 + digit_of(ds[i - start as int]));
        }
        acc = acc * 10 + d;
        i = i + 1;
        if acc > 0x8000_0000 {
            // Any longer digit string is worth at least this much, so the
            // value cannot fit a 32-bit signed integer either way.
            proof {
                lemma_dec_value_prefix(ds, i - start as int);
                assert(dec_value(ds) >= acc);
            }
            return None;
        }
    }
    proof {
        assert(ds.take(i - start as int) =~= ds);
        assert(all_digits(ds));
    }
    if neg {
        if acc == 0x8000_0000 {
            Some(i32::MIN)
        } else {
            Some(-(acc as i32))
        }
    } else {
        if acc > 0x7fff_ffff {
            None
        } else {
            Some(acc as i32)
        }
    }
}

/// Compare a token against a string literal, character for character.
pub fn chars_eq_str(chars: &Vec<char>, s: &str) -> (r: bool)
    ensures
        r == (chars@ == s@),
{
    let n = s.unicode_len();
    if chars.len() != n {
        return false;
    }
    let mut i: usize = 0;
    while i < n
        invariant
            i <= n,
            n == s@.len(),
            n == chars@.len(),
            forall|j: int| 0 <= j < i ==> chars@[j] == s@[j],
        decreases n - i,
    {
        if chars[i] != s.get_char(i) {
            return false;
        }
        i = i + 1;
    }
    proof {
        assert(chars@ =~= s@);
    }
    true
}

/// The characters of a string slice, as a vector.
pub fn str_chars(s: &str) -> (v: Vec<char>)
    ensures
        v@ == s@,
{
    let n = s.unicode_len();
    let mut v: Vec<char> = Vec::new();
    let mut i: usize = 0;
    while i < n
        invariant
            i <= n,
            n == s@.len(),
            v@ =~= s@.take(i as int),
        decreases n - i,
    {
        v.push(s.get_char(i));
        i = i + 1;
    }
    proof {
        assert(s@.take(n as int) =~= s@);
    }
    v
}

} // verus!
