//! The main memory of the machine: a fixed array of 32 words, the
//! loaders that fill it from the two textual program formats, and the
//! bit-level instruction decoder.

use crate::opcode::{opcode_code, opcode_of_code, parse_opcode_spec, Opcode};
use crate::text::{
    parse_i32, parse_i32_spec, split_tokens, str_chars, strip_comment, strip_comment_chars,
    tokenize, trim_chars, trim_spec,
};
use crate::word::{
    encode_word, parse_word_bits, spec_encode_word, split_word, valid_bits, word_data_field,
    word_of_bits, word_opcode_field,
};
use vstd::prelude::*;

verus! {

/// Number of words in the store.
pub const STORE_WORDS: i32 = 32;

/// A fatal error met while loading a program: construction of the store
/// aborts entirely, and the variant names the offending input line.
#[derive(Debug, Clone, Copy, PartialEq, Eq, Structural)]
pub enum LoadError {
    /// An assembly line with fewer than two tokens.
    MissingTokens { line: usize },
    /// A snapshot line without the ':' separator.
    MissingColon { line: usize },
    /// An index or operand that does not parse as a 32-bit integer.
    BadInteger { line: usize },
    /// An index that breaks the strictly contiguous order, with the
    /// index the line should have carried.
    NonContiguous { line: usize, expected: i32 },
    /// An index outside the store.
    IndexOutOfRange { line: usize, index: i32 },
    /// A mnemonic that is none of the nine known ones.
    UnknownMnemonic { line: usize },
    /// A binary word of the wrong length.
    WrongWordLength { line: usize, expected_len: usize, actual_len: usize },
    /// A binary word with a character other than '0' or '1'.
    BadWord { line: usize },
    /// A raw-word injection with other than exactly 32 entries.
    WrongStoreSize { expected_len: usize, actual_len: usize },
}

/// A failed memory access at execution time, naming the attempted
/// address. Distinct from load-time errors: it fires during a run.
#[derive(Debug, Clone, Copy, PartialEq, Eq, Structural)]
pub struct AccessError {
    pub address: i32,
}

/// Main memory of the machine: an ordered, fixed-size sequence of words,
/// indexed 0 to 31. Created all zero or filled in full by a loader;
/// thereafter mutated only one word at a time; never resized.
#[derive(Debug)]
pub struct Store {
    pub words: Vec<i32>,
    pub size: i32,
}

impl View for Store {
    type V = Seq<i32>;

    open spec fn view(&self) -> Seq<i32> {
        self.words@
    }
}

/// The all-zero store contents.
pub open spec fn zero_store() -> Seq<i32> {
    Seq::new(32, |i: int| 0i32)
}

/// What an instruction word decodes to: the opcode bound to its 3-bit
/// opcode field, and its 5-bit data field.
pub open spec fn spec_decode_word(w: i32) -> (Opcode, i32) {
    (opcode_of_code(word_opcode_field(w)), word_data_field(w) as i32)
}

impl Store {
    /// Well-formed store: exactly 32 words, and the declared size agrees.
    pub open spec fn wf(&self) -> bool {
        &&& self.words@.len() == 32
        &&& self.size == 32
    }

    /// A new store with every word zero.
    pub fn new() -> (s: Store)
        ensures
            s.wf(),
            s@ == zero_store(),
    {
        let mut words: Vec<i32> = Vec::new();
        let mut i: usize = 0;
        while i < 32
            invariant
                i <= 32,
                words@.len() == i,
                forall|j: int| 0 <= j < i ==> words@[j] == 0i32,
            decreases 32 - i,
        {
            words.push(0);
            i = i + 1;
        }
        proof {
            assert(words@ =~= zero_store());
        }
        Store { words, size: STORE_WORDS }
    }

    /// The word at an address. An address outside the store is a fatal
    /// access error for the machine, so it is excluded here; the decoder
    /// turns it into an `AccessError` instead.
    pub fn get(&self, index: i32) -> (w: i32)
        requires
            self.wf(),
            0 <= index < 32,
        ensures
            w == self@[index as int],
    {
        self.words[index as usize]
    }

    /// Replace the word at an address.
    pub fn set(&mut self, index: i32, value: i32)
        requires
            old(self).wf(),
            0 <= index < 32,
        ensures
            final(self).wf(),
            final(self)@ == old(self)@.update(index as int, value),
    {
        self.words[index as usize] = value;
    }

    /// Inject 32 raw words directly; fails unless the input has exactly
    /// 32 entries.
    pub fn from_raw_words(words: Vec<i32>) -> (r: Result<Store, LoadError>)
        ensures
            words@.len() == 32 ==> (r matches Ok(s) && s@ == words@ && s.wf()),
            words@.len() != 32 ==> r == Err::<Store, LoadError>(
                LoadError::WrongStoreSize { expected_len: 32, actual_len: words@.len() as usize },
            ),
    {
        if words.len() != 32 {
            return Err(LoadError::WrongStoreSize { expected_len: 32, actual_len: words.len() });
        }
        Ok(Store { words, size: STORE_WORDS })
    }

    /// Extract the opcode and data from the word at the given address:
    /// the low 5 bits are the data, bits 13 to 15 the opcode. This is the
    /// sole bridge between raw memory and executable semantics. An
    /// address outside the store is reported, not executed.
    pub fn decode_instruction(&self, address: i32) -> (r: Result<(Opcode, i32), AccessError>)
        requires
            self.wf(),
        ensures
            match r {
                Ok(pair) => {
                    &&& 0 <= address < 32
                    &&& pair == spec_decode_word(self@[address as int])
                    &&& !(pair.0 is NUM)
                    &&& 0 <= pair.1 < 32
                },
                Err(e) => !(0 <= address < 32) && e == (AccessError { address }),
            },
    {
        if address < 0 || address >= self.size {
            return Err(AccessError { address });
        }
        let word = self.words[address as usize];
        let (code, data) = split_word(word);
        let opcode = Opcode::decode(code);
        Ok((opcode, data))
    }
}

/// The position of the first occurrence of a character, or the length if
/// it does not occur.
pub open spec fn find_char_pos(s: Seq<char>, c: char) -> int
    decreases s.len(),
{
    if s.len() == 0 {
        0
    } else if s[0] == c {
        0
    } else {
        1 + find_char_pos(s.skip(1), c)
    }
}

/// `find_char_pos` is the unique position with no occurrence before it
/// and an occurrence (or the end) at it.
proof fn lemma_find_char_pos(s: Seq<char>, c: char, i: int)
    requires
        0 <= i <= s.len(),
        forall|j: int| 0 <= j < i ==> s[j] != c,
        i < s.len() ==> s[i] == c,
    ensures
        find_char_pos(s, c) == i,
    decreases s.len(),
{
    if s.len() != 0 && i != 0 {
        lemma_find_char_pos(s.skip(1), c, i - 1);
    }
}

/// Find the first ':' of a line, or its length if there is none.
fn find_colon(chars: &Vec<char>) -> (i: usize)
    ensures
        i == find_char_pos(chars@, ':'),
        i <= chars@.len(),
        i < chars@.len() ==> chars@[i as int] == ':',
        forall|j: int| 0 <= j < i ==> chars@[j] != ':',
{
    let mut i: usize = 0;
    while i < chars.len()
        invariant
            i <= chars@.len(),
            forall|j: int| 0 <= j < i ==> chars@[j] != ':',
        decreases chars@.len() - i,
    {
        if chars[i] == ':' {
            proof {
                lemma_find_char_pos(chars@, ':', i as int);
            }
            return i;
        }
        i = i + 1;
    }
    proof {
        lemma_find_char_pos(chars@, ':', chars@.len() as int);
    }
    i
}

/// A token vector's deep view indexes to the view of each token.
proof fn lemma_token_view(toks: &Vec<Vec<char>>, j: int)
    requires
        0 <= j < toks@.len(),
    ensures
        toks.deep_view()[j] == toks@[j]@,
{
    assert(toks@[j].deep_view() =~= toks@[j]@);
}

/// A line vector's deep view indexes to the view of each line.
proof fn lemma_line_view(lines: &Vec<String>, j: int)
    requires
        0 <= j < lines@.len(),
    ensures
        lines.deep_view()[j] == lines@[j]@,
{
}

/// What one assembly line contributes, given its line number and the
/// index of the previous real line: nothing for a blank or comment-only
/// line, the word to place and its index for an instruction line, or the
/// load error the line provokes. `last` starts at 0, and index 0 alone
/// is exempt from the `last + 1` contiguity rule.
pub open spec fn spec_asm_line(line: Seq<char>, line_no: usize, last: i32) -> Result<
    Option<(i32, i32)>,
    LoadError,
> {
    let toks = split_tokens(strip_comment(line));
    if toks.len() == 0 {
        Ok(None)
    } else if toks.len() < 2 {
        Err(LoadError::MissingTokens { line: line_no })
    } else {
        match parse_i32_spec(toks[0]) {
            None => Err(LoadError::BadInteger { line: line_no }),
            Some(index) => {
                let operand_opt = if toks.len() >= 3 {
                    parse_i32_spec(toks[2])
                } else {
                    Some(0i32)
                };
                match operand_opt {
                    None => Err(LoadError::BadInteger { line: line_no }),
                    Some(operand) => {
                        if index > 0 && index != last + 1 {
                            Err(
                                LoadError::NonContiguous {
                                    line: line_no,
                                    expected: (last + 1) as i32,
                                },
                            )
                        } else if index < 0 || index >= 32 {
                            Err(LoadError::IndexOutOfRange { line: line_no, index })
                        } else {
                            match parse_opcode_spec(toks[1]) {
                                Err(_) => Err(LoadError::UnknownMnemonic { line: line_no }),
                                Ok(op) => {
                                    let w = if op is NUM {
                                        operand
                                    } else {
                                        spec_encode_word(opcode_code(op), operand)
                                    };
                                    Ok(Some((index, w)))
                                },
                            }
                        }
                    },
                }
            },
        }
    }
}

/// The assembly loader's fold over the remaining lines, carrying the
/// words placed so far and the index of the previous real line.
pub open spec fn spec_load_assembly_from(
    lines: Seq<Seq<char>>,
    i: int,
    words: Seq<i32>,
    last: i32,
) -> Result<Seq<i32>, LoadError>
    decreases lines.len() - i,
{
    if i < 0 || i >= lines.len() {
        Ok(words)
    } else {
        match spec_asm_line(lines[i], i as usize, last) {
            Err(e) => Err(e),
            Ok(None) => spec_load_assembly_from(lines, i + 1, words, last),
            Ok(Some(entry)) => spec_load_assembly_from(
                lines,
                i + 1,
                words.update(entry.0 as int, entry.1),
                entry.0,
            ),
        }
    }
}

/// What the assembly format denotes: the 32 words the lines build, or the
/// first load error.
pub open spec fn spec_load_assembly(lines: Seq<Seq<char>>) -> Result<Seq<i32>, LoadError> {
    spec_load_assembly_from(lines, 0, zero_store(), 0)
}

/// What one snapshot line contributes, in the same fashion as
/// `spec_asm_line`.
pub open spec fn spec_snp_line(line: Seq<char>, line_no: usize, last: i32) -> Result<
    Option<(i32, i32)>,
    LoadError,
> {
    let t = trim_spec(strip_comment(line));
    if t.len() == 0 {
        Ok(None)
    } else {
        let cpos = find_char_pos(t, ':');
        if cpos >= t.len() {
            Err(LoadError::MissingColon { line: line_no })
        } else {
            match parse_i32_spec(t.take(cpos)) {
                None => Err(LoadError::BadInteger { line: line_no }),
                Some(index) => {
                    if index > 0 && index != last + 1 {
                        Err(LoadError::NonContiguous { line: line_no, expected: (last + 1) as i32 })
                    } else if index < 0 || index >= 32 {
                        Err(LoadError::IndexOutOfRange { line: line_no, index })
                    } else {
                        let wtxt = trim_spec(t.skip(cpos + 1));
                        if wtxt.len() != 32 {
                            Err(
                                LoadError::WrongWordLength {
                                    line: line_no,
                                    expected_len: 32,
                                    actual_len: wtxt.len() as usize,
                                },
                            )
                        } else if !valid_bits(wtxt) {
                            Err(LoadError::BadWord { line: line_no })
                        } else {
                            Ok(Some((index, word_of_bits(wtxt))))
                        }
                    }
                },
            }
        }
    }
}

/// The snapshot loader's fold over the remaining lines.
pub open spec fn spec_load_snapshot_from(
    lines: Seq<Seq<char>>,
    i: int,
    words: Seq<i32>,
    last: i32,
) -> Result<Seq<i32>, LoadError>
    decreases lines.len() - i,
{
    if i < 0 || i >= lines.len() {
        Ok(words)
    } else {
        match spec_snp_line(lines[i], i as usize, last) {
            Err(e) => Err(e),
            Ok(None) => spec_load_snapshot_from(lines, i + 1, words, last),
            Ok(Some(entry)) => spec_load_snapshot_from(
                lines,
                i + 1,
                words.update(entry.0 as int, entry.1),
                entry.0,
            ),
        }
    }
}

/// What the snapshot format denotes: the 32 words the lines build, or the
/// first load error.
pub open spec fn spec_load_snapshot(lines: Seq<Seq<char>>) -> Result<Seq<i32>, LoadError> {
    spec_load_snapshot_from(lines, 0, zero_store(), 0)
}

/// The raw-word fold behind `from_bit_strings`: entry `i` of the input is
/// the bit string of word `i`.
pub open spec fn spec_bit_strings_from(lines: Seq<Seq<char>>, i: int, words: Seq<i32>) -> Result<
    Seq<i32>,
    LoadError,
>
    decreases lines.len() - i,
{
    if i < 0 || i >= lines.len() {
        Ok(words)
    } else {
        let s = lines[i];
        if s.len() != 32 {
            Err(
                LoadError::WrongWordLength {
                    line: i as usize,
                    expected_len: 32,
                    actual_len: s.len() as usize,
                },
            )
        } else if !valid_bits(s) {
            Err(LoadError::BadWord { line: i as usize })
        } else {
            spec_bit_strings_from(lines, i + 1, words.update(i, word_of_bits(s)))
        }
    }
}

/// What a vector of 32 historical bit strings denotes, one word each.
pub open spec fn spec_from_bit_strings(lines: Seq<Seq<char>>) -> Result<Seq<i32>, LoadError> {
    if lines.len() != 32 {
        Err(LoadError::WrongStoreSize { expected_len: 32, actual_len: lines.len() as usize })
    } else {
        spec_bit_strings_from(lines, 0, zero_store())
    }
}

impl Store {
    /// Build a store from a line-oriented assembly listing. Each real
    /// line is `<index> <MNEMONIC> [<operand>]`; ';' starts a comment and
    /// blank lines are skipped. Indices must be strictly contiguous
    /// (index 0 alone escapes the check) and below 32. A `NUM` line
    /// stores its operand verbatim; any other line stores the encoded
    /// instruction word. The first offending line aborts the whole load.
    pub fn load_assembly(lines: &Vec<String>) -> (r: Result<Store, LoadError>)
        ensures
            match r {
                Ok(s) => s.wf() && spec_load_assembly(lines.deep_view()) == Ok::<
                    Seq<i32>,
                    LoadError,
                >(s@),
                Err(e) => spec_load_assembly(lines.deep_view()) == Err::<Seq<i32>, LoadError>(e),
            },
    {
        let ghost dv = lines.deep_view();
        let mut store = Store::new();
        let mut last: i32 = 0;
        let mut i: usize = 0;
        while i < lines.len()
            invariant
                i <= lines@.len(),
                dv == lines.deep_view(),
                dv.len() == lines@.len(),
                store.wf(),
                0 <= last < 32,
                spec_load_assembly(dv) == spec_load_assembly_from(dv, i as int, store@, last),
            decreases lines@.len() - i,
        {
            proof {
                lemma_line_view(lines, i as int);
            }
            let line_chars = str_chars(lines[i].as_str());
            let stripped = strip_comment_chars(&line_chars);
            let toks = tokenize(&stripped);
            let ghost tv = toks.deep_view();
            proof {
                assert(tv == split_tokens(strip_comment(dv[i as int])));
            }
            if toks.len() == 0 {
                i = i + 1;
                continue;
            }
            if toks.len() < 2 {
                return Err(LoadError::MissingTokens { line: i });
            }
            proof {
                lemma_token_view(&toks, 0);
                lemma_token_view(&toks, 1);
                if toks@.len() >= 3 {
                    lemma_token_view(&toks, 2);
                }
            }
            let index: i32 = match parse_i32(&toks[0]) {
                Some(v) => v,
                None => {
                    return Err(LoadError::BadInteger { line: i });
                },
            };
            let operand: i32 = if toks.len() >= 3 {
                match parse_i32(&toks[2]) {
                    Some(v) => v,
                    None => {
                        return Err(LoadError::BadInteger { line: i });
                    },
                }
            } else {
                0
            };
            if index > 0 && index != last + 1 {
                return Err(LoadError::NonContiguous { line: i, expected: last + 1 });
            }
            if index < 0 || index >= STORE_WORDS {
                return Err(LoadError::IndexOutOfRange { line: i, index });
            }
            let opcode = match Opcode::parse_token(&toks[1]) {
                Ok(op) => op,
                Err(_) => {
                    return Err(LoadError::UnknownMnemonic { line: i });
                },
            };
            let w: i32 = match opcode {
                Opcode::NUM => operand,
                _ => encode_word(opcode.code(), operand),
            };
            store.set(index, w);
            last = index;
            i = i + 1;
        }
        Ok(store)
    }

    /// Build a store from a line-oriented snapshot listing. Each real
    /// line is `<index>: <32-character binary word>`; ';' starts a
    /// comment and blank lines are skipped. The word is written in the
    /// historical order, least significant bit first. Index rules are
    /// those of the assembly format; the first offending line aborts the
    /// whole load.
    pub fn load_snapshot(lines: &Vec<String>) -> (r: Result<Store, LoadError>)
        ensures
            match r {
                Ok(s) => s.wf() && spec_load_snapshot(lines.deep_view()) == Ok::<
                    Seq<i32>,
                    LoadError,
                >(s@),
                Err(e) => spec_load_snapshot(lines.deep_view()) == Err::<Seq<i32>, LoadError>(e),
            },
    {
        let ghost dv = lines.deep_view();
        let mut store = Store::new();
        let mut last: i32 = 0;
        let mut i: usize = 0;
        while i < lines.len()
            invariant
                i <= lines@.len(),
                dv == lines.deep_view(),
                dv.len() == lines@.len(),
                store.wf(),
                0 <= last < 32,
                spec_load_snapshot(dv) == spec_load_snapshot_from(dv, i as int, store@, last),
            decreases lines@.len() - i,
        {
            proof {
                lemma_line_view(lines, i as int);
            }
            let line_chars = str_chars(lines[i].as_str());
            let stripped = strip_comment_chars(&line_chars);
            let t = trim_chars(&stripped);
            let ghost tl = t@;
            proof {
                assert(tl == trim_spec(strip_comment(dv[i as int])));
            }
            if t.len() == 0 {
                i = i + 1;
                continue;
            }
            let cpos = find_colon(&t);
            if cpos == t.len() {
                return Err(LoadError::MissingColon { line: i });
            }
            let index_part = crate::text::subrange_chars(&t, 0, cpos);
            proof {
                assert(index_part@ =~= tl.take(cpos as int));
            }
            let index: i32 = match parse_i32(&index_part) {
                Some(v) => v,
                None => {
                    return Err(LoadError::BadInteger { line: i });
                },
            };
            if index > 0 && index != last + 1 {
                return Err(LoadError::NonContiguous { line: i, expected: last + 1 });
            }
            if index < 0 || index >= STORE_WORDS {
                return Err(LoadError::IndexOutOfRange { line: i, index });
            }
            let word_part = crate::text::subrange_chars(&t, cpos + 1, t.len());
            proof {
                assert(word_part@ =~= tl.skip(cpos + 1));
            }
            let wtxt = trim_chars(&word_part);
            if wtxt.len() != 32 {
                return Err(
                    LoadError::WrongWordLength { line: i, expected_len: 32, actual_len: wtxt.len() },
                );
            }
            let w: i32 = match parse_word_bits(&wtxt) {
                Some(v) => v,
                None => {
                    return Err(LoadError::BadWord { line: i });
                },
            };
            store.set(index, w);
            last = index;
            i = i + 1;
        }
        Ok(store)
    }

    /// Build a store from exactly 32 historical bit strings, entry `i`
    /// giving word `i`. This is the direct-injection path used by tests.
    pub fn from_bit_strings(lines: &Vec<String>) -> (r: Result<Store, LoadError>)
        ensures
            match r {
                Ok(s) => s.wf() && spec_from_bit_strings(lines.deep_view()) == Ok::<
                    Seq<i32>,
                    LoadError,
                >(s@),
                Err(e) => spec_from_bit_strings(lines.deep_view()) == Err::<Seq<i32>, LoadError>(e),
            },
    {
        let ghost dv = lines.deep_view();
        if lines.len() != 32 {
            return Err(LoadError::WrongStoreSize { expected_len: 32, actual_len: lines.len() });
        }
        let mut store = Store::new();
        let mut i: usize = 0;
        while i < 32
            invariant
                i <= 32,
                dv == lines.deep_view(),
                dv.len() == 32,
                lines@.len() == 32,
                store.wf(),
                spec_from_bit_strings(dv) == spec_bit_strings_from(dv, i as int, store@),
            decreases 32 - i,
        {
            proof {
                lemma_line_view(lines, i as int);
            }
            let line_chars = str_chars(lines[i].as_str());
            if line_chars.len() != 32 {
                return Err(
                    LoadError::WrongWordLength {
                        line: i,
                        expected_len: 32,
                        actual_len: line_chars.len(),
                    },
                );
            }
            let w: i32 = match parse_word_bits(&line_chars) {
                Some(v) => v,
                None => {
                    return Err(LoadError::BadWord { line: i });
                },
            };
            store.set(i as i32, w);
            i = i + 1;
        }
        Ok(store)
    }
}

/// Law: decoding is idempotent. The decoded pair is a pure function of
/// the stored word, so decoding the same unchanged word at the same
/// address twice — even through two stores holding equal contents —
/// yields the same (opcode, operand) pair.
pub proof fn lemma_decode_idempotent(s1: Store, s2: Store, address: i32)
    requires
        s1@ == s2@,
        0 <= address < s1@.len(),
    ensures
        spec_decode_word(s1@[address as int]) == spec_decode_word(s2@[address as int]),
{
}

impl PartialEq for Store {
    /// Two stores are equal iff their word sequences are equal
    /// element-wise and their declared sizes match.
    fn eq(&self, other: &Self) -> (r: bool) {
        if self.size != other.size {
            return false;
        }
        if self.words.len() != other.words.len() {
            proof {
                assert(self.words@ != other.words@);
            }
            return false;
        }
        let n = self.words.len();
        let mut i: usize = 0;
        while i < n
            invariant
                i <= n,
                n == self.words@.len(),
                n == other.words@.len(),
                forall|j: int| 0 <= j < i ==> self.words@[j] == other.words@[j],
            decreases n - i,
        {
            if self.words[i] != other.words[i] {
                return false;
            }
            i = i + 1;
        }
        proof {
            assert(self.words@ =~= other.words@);
        }
        true
    }
}

impl vstd::std_specs::cmp::PartialEqSpecImpl for Store {
    open spec fn obeys_eq_spec() -> bool {
        true
    }

    open spec fn eq_spec(&self, other: &Store) -> bool {
        self.words@ == other.words@ && self.size == other.size
    }
}

} // verus!
