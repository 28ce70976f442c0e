//! The execution engine: accumulator, program counter, store and halted
//! flag, with the fetch-decode-execute cycle and run-to-completion
//! control.
//!
//! The whole machine step is captured by the spec function `spec_step`:
//! `instruction_cycle` is proved to perform exactly one such step, and
//! `run` to iterate it until the machine halts or the cycle budget is
//! spent.

use crate::opcode::Opcode;
use crate::store::{
    spec_decode_word, spec_load_assembly, spec_load_snapshot, zero_store, LoadError, Store,
};
use crate::word::lemma_word_fields_in_range;
use vstd::pervasive::unreached;
use vstd::prelude::*;

verus! {

/// The machine's state as mathematics: the accumulator, the program
/// counter, the 32 stored words, and the halted flag.
pub ghost struct SimState {
    pub a: i32,
    pub ci: i32,
    pub words: Seq<i32>,
    pub halted: bool,
}

/// A well-formed machine state: the store holds exactly 32 words.
pub open spec fn wf_state(s: SimState) -> bool {
    s.words.len() == 32
}

/// Negation with silent two's-complement wraparound: the machine has no
/// overflow trap, so negating the minimum word yields itself.
pub open spec fn wrap_neg(x: i32) -> i32 {
    if x == i32::MIN {
        i32::MIN
    } else {
        (-x) as i32
    }
}

/// Negate a word, wrapping silently on overflow.
pub fn neg_wrapped(x: i32) -> (r: i32)
    ensures
        r == wrap_neg(x),
{
    if x == i32::MIN {
        i32::MIN
    } else {
        -x
    }
}

/// The program counter after a fetch: one more, reduced modulo the store
/// size. A counter that walks off the end of memory re-enters at address
/// 0 by design; the result is always a store address.
pub open spec fn spec_next_ci(ci: i32) -> i32 {
    (((ci + 1) % 32) as i32)
}

/// The fetch phase of a cycle: advance the program counter; nothing else
/// changes.
pub open spec fn spec_fetch(s: SimState) -> SimState {
    SimState { ci: spec_next_ci(s.ci), ..s }
}

/// The execute phase of a cycle, on the state left by the fetch. `data`
/// is the instruction's 5-bit field, so it is always a store address.
/// `NUM` never reaches execution: the 3-bit opcode field has no code for
/// it.
pub open spec fn spec_execute(s: SimState, op: Opcode, data: i32) -> SimState {
    match op {
        Opcode::JMP => SimState { ci: s.words[data as int], ..s },
        Opcode::JRP => SimState { ci: s.ci.wrapping_add(s.words[data as int]), ..s },
        Opcode::LDN => SimState { a: wrap_neg(s.words[data as int]), ..s },
        Opcode::STO => SimState { words: s.words.update(data as int, s.a), ..s },
        Opcode::SUB => SimState { a: s.a.wrapping_add(wrap_neg(s.words[data as int])), ..s },
        Opcode::SUB2 => SimState { a: s.a.wrapping_add(wrap_neg(s.words[data as int])), ..s },
        Opcode::CMP => if s.a < 0 {
            SimState { ci: s.ci.wrapping_add(1), ..s }
        } else {
            s
        },
        Opcode::STP => SimState { halted: true, ..s },
        Opcode::NUM => s,
    }
}

/// One whole machine cycle: advance the program counter, decode the word
/// it now addresses, and execute the instruction.
pub open spec fn spec_step(s: SimState) -> SimState {
    let f = spec_fetch(s);
    let inst = spec_decode_word(f.words[f.ci as int]);
    spec_execute(f, inst.0, inst.1)
}

/// The state after stepping the machine until it halts or `max` cycles
/// have run.
pub open spec fn spec_run(s: SimState, max: nat) -> SimState
    decreases max,
{
    if max == 0 || s.halted {
        s
    } else {
        spec_run(spec_step(s), (max - 1) as nat)
    }
}

/// How many cycles the machine actually executes out of a budget of
/// `max`: the halting cycle is counted, nothing after it runs.
pub open spec fn spec_run_count(s: SimState, max: nat) -> nat
    decreases max,
{
    if max == 0 || s.halted {
        0
    } else {
        1 + spec_run_count(spec_step(s), (max - 1) as nat)
    }
}

/// Which textual program format a source uses.
#[derive(Debug, Clone, Copy, PartialEq, Eq, Structural)]
pub enum SourceFormat {
    Assembly,
    Snapshot,
}

/// What loading a source in a given format denotes.
pub open spec fn spec_load(format: SourceFormat, lines: Seq<Seq<char>>) -> Result<
    Seq<i32>,
    LoadError,
> {
    match format {
        SourceFormat::Assembly => spec_load_assembly(lines),
        SourceFormat::Snapshot => spec_load_snapshot(lines),
    }
}

/// The machine: a single accumulator, a program counter kept within the
/// store by wraparound, an exclusively owned store, and a flag set only
/// by `STP` (or a decode failure).
pub struct Simulator {
    /// Accumulator, the only register of the machine
    pub a: i32,
    /// Program counter: the address of the instruction being executed
    pub ci: i32,
    /// The main memory: 32 words of 32 bits
    pub store: Store,
    /// Set when the STP instruction is executed
    pub stop_flag: bool,
}

impl View for Simulator {
    type V = SimState;

    open spec fn view(&self) -> SimState {
        SimState { a: self.a, ci: self.ci, words: self.store@, halted: self.stop_flag }
    }
}

impl Simulator {
    /// Well-formed simulator: its store is well formed.
    pub open spec fn wf(&self) -> bool {
        self.store.wf()
    }

    /// A fresh machine: everything zero, running.
    pub fn new() -> (s: Simulator)
        ensures
            s.wf(),
            s@ == (SimState { a: 0, ci: 0, words: zero_store(), halted: false }),
    {
        Simulator { a: 0, ci: 0, store: Store::new(), stop_flag: false }
    }

    /// A machine about to run a loaded store.
    pub fn from_store(store: Store) -> (s: Simulator)
        requires
            store.wf(),
        ensures
            s.wf(),
            s@ == (SimState { a: 0, ci: 0, words: store@, halted: false }),
    {
        Simulator { a: 0, ci: 0, store, stop_flag: false }
    }

    /// A machine loaded from program source lines in the given format.
    pub fn from_lines(format: SourceFormat, lines: &Vec<String>) -> (r: Result<
        Simulator,
        LoadError,
    >)
        ensures
            match r {
                Ok(sim) => {
                    &&& sim.wf()
                    &&& spec_load(format, lines.deep_view()) == Ok::<Seq<i32>, LoadError>(
                        sim@.words,
                    )
                    &&& sim@.a == 0
                    &&& sim@.ci == 0
                    &&& !sim@.halted
                },
                Err(e) => spec_load(format, lines.deep_view()) == Err::<Seq<i32>, LoadError>(e),
            },
    {
        let store = match format {
            SourceFormat::Assembly => Store::load_assembly(lines),
            SourceFormat::Snapshot => Store::load_snapshot(lines),
        };
        match store {
            Ok(s) => Ok(Simulator::from_store(s)),
            Err(e) => Err(e),
        }
    }

    /// Modify the state of the machine according to the given
    /// instruction. `data` is a 5-bit field, so it is always a store
    /// address; `NUM` never reaches execution.
    pub fn _execute(&mut self, command: Opcode, data: i32)
        requires
            old(self).wf(),
            !(command is NUM),
            0 <= data < 32,
        ensures
            final(self).wf(),
            final(self)@ == spec_execute(old(self)@, command, data),
    {
        match command {
            Opcode::JMP => {
                // Indirect jump: the addressed word's content becomes
                // the new program counter.
                self.ci = self.store.get(data);
            },
            Opcode::JRP => {
                // Relative jump by the addressed word's value.
                self.ci = self.ci.wrapping_add(self.store.get(data));
            },
            Opcode::LDN => {
                // Load negative; overflow wraps silently, no trap.
                self.a = neg_wrapped(self.store.get(data));
            },
            Opcode::STO => {
                self.store.set(data, self.a);
            },
            Opcode::SUB | Opcode::SUB2 => {
                // Subtract; overflow wraps silently, no trap.
                self.a = self.a.wrapping_add(neg_wrapped(self.store.get(data)));
            },
            Opcode::CMP => {
                // Skip the next instruction if the accumulator is
                // negative.
                if self.a < 0 {
                    self.ci = self.ci.wrapping_add(1);
                }
            },
            Opcode::STP => {
                self.stop_flag = true;
            },
            Opcode::NUM => unreached(),
        }
    }

    /// Run the next instruction: advance the program counter with
    /// wraparound, decode the word it addresses, and execute it. The
    /// wrapped counter is always a store address, so the decode failure
    /// path, which would halt the machine, is proved unreachable.
    pub fn instruction_cycle(&mut self)
        requires
            old(self).wf(),
        ensures
            final(self).wf(),
            final(self)@ == spec_step(old(self)@),
    {
        // Fetch: one more, reduced modulo the store size.
        let u = #[verifier::truncate] (self.ci as u32);
        let nu = u.wrapping_add(1);
        let next = (nu % 32) as i32;
        proof {
            let c = self.ci;
            assert(c >= 0 ==> (c as u32) == c) by (bit_vector);
            assert(c < 0 ==> (c as u32) == c + 0x1_0000_0000) by (bit_vector);
            if c < 0 && u != u32::MAX {
                vstd::arithmetic::div_mod::lemma_mod_multiples_vanish(
                    0x800_0000,
                    c + 1,
                    32,
                );
                assert(32 * 0x800_0000 + (c + 1) == u + 1);
            }
            assert(next == spec_next_ci(c));
        }
        self.ci = next;

        // Decode the addressed word.
        match self.store.decode_instruction(self.ci) {
            Ok(inst) => {
                // Execute.
                self._execute(inst.0, inst.1);
            },
            Err(_) => {
                // A failed decode is terminal: the machine halts and the
                // failure is surfaced to the caller. The counter was just
                // wrapped into the store, so this cannot happen here.
                self.stop_flag = true;
            },
        }
    }

    /// Run the machine until `STP` is executed or the given number of
    /// cycles is reached, and return the number of cycles executed. The
    /// halted flag is cleared first; no partial cycles run, and nothing
    /// runs past the first `STP`.
    pub fn run(&mut self, max_cycles: u32) -> (cycles: u32)
        requires
            old(self).wf(),
        ensures
            final(self).wf(),
            final(self)@ == spec_run(
                SimState { halted: false, ..old(self)@ },
                max_cycles as nat,
            ),
            cycles == spec_run_count(
                SimState { halted: false, ..old(self)@ },
                max_cycles as nat,
            ),
    {
        let mut cycles: u32 = 0;
        self.stop_flag = false;
        let ghost start = self@;
        proof {
            assert(start == SimState { halted: false, ..old(self)@ });
        }
        while cycles < max_cycles && !self.stop_flag
            invariant
                self.wf(),
                cycles <= max_cycles,
                spec_run(start, max_cycles as nat) == spec_run(
                    self@,
                    (max_cycles - cycles) as nat,
                ),
                spec_run_count(start, max_cycles as nat) == cycles + spec_run_count(
                    self@,
                    (max_cycles - cycles) as nat,
                ),
            decreases max_cycles - cycles,
        {
            self.instruction_cycle();
            cycles = cycles + 1;
        }
        cycles
    }
}

/// Law: every cycle first advances the program counter to
/// `(pc + 1) mod 32` and decodes the word at that address, whatever the
/// instruction turns out to be; only then does the execute phase act,
/// with `CMP`'s extra skip and `JMP`/`JRP`'s rewrite applied on top of
/// the base advance. Instructions other than those leave the counter at
/// the fetched address.
pub proof fn lemma_fetch_advances(s: SimState)
    requires
        wf_state(s),
    ensures
        spec_fetch(s).ci == (s.ci + 1) % 32,
        0 <= spec_fetch(s).ci < 32,
        spec_fetch(s).a == s.a,
        spec_fetch(s).words == s.words,
        spec_fetch(s).halted == s.halted,
        spec_step(s) == spec_execute(
            spec_fetch(s),
            spec_decode_word(s.words[spec_fetch(s).ci as int]).0,
            spec_decode_word(s.words[spec_fetch(s).ci as int]).1,
        ),
        ({
            let op = spec_decode_word(s.words[spec_fetch(s).ci as int]).0;
            !(op is JMP) && !(op is JRP) && !(op is CMP) ==> spec_step(s).ci == spec_fetch(s).ci
        }),
{
}

/// Law: a program counter standing at the last store address advances to
/// address 0 on the next fetch; the wraparound is a machine feature, not
/// an error.
pub proof fn lemma_ci_wraps_at_end(s: SimState)
    requires
        s.ci == 31,
    ensures
        spec_fetch(s).ci == 0,
{
}

/// Law: when the fetched instruction is `CMP`, the cycle advances the
/// program counter by two in total if the accumulator is negative, and
/// by one if it is not; nothing else changes.
pub proof fn lemma_cmp_skip(s: SimState)
    requires
        wf_state(s),
        spec_decode_word(s.words[spec_fetch(s).ci as int]).0 is CMP,
    ensures
        s.a < 0 ==> spec_step(s).ci == spec_fetch(s).ci + 1,
        s.a >= 0 ==> spec_step(s).ci == spec_fetch(s).ci,
        spec_step(s).a == s.a,
        spec_step(s).words == s.words,
        spec_step(s).halted == s.halted,
{
}

/// Law: when the fetched instruction is `STO` with data field `d`, the
/// cycle sets store word `d` to the accumulator exactly and leaves every
/// other word, the accumulator, and the halted flag unchanged.
pub proof fn lemma_sto_writes_exactly(s: SimState)
    requires
        wf_state(s),
        spec_decode_word(s.words[spec_fetch(s).ci as int]).0 is STO,
    ensures
        ({
            let d = spec_decode_word(s.words[spec_fetch(s).ci as int]).1;
            &&& 0 <= d < 32
            &&& spec_step(s).words == s.words.update(d as int, s.a)
            &&& spec_step(s).words[d as int] == s.a
            &&& forall|j: int| 0 <= j < 32 && j != d ==> spec_step(s).words[j] == s.words[j]
            &&& spec_step(s).a == s.a
            &&& spec_step(s).halted == s.halted
        }),
{
    lemma_word_fields_in_range(s.words[spec_fetch(s).ci as int]);
}

} // verus!
