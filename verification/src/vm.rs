//! The 16-bit virtual machine: segments, machine state, and the step function.

use vstd::prelude::*;
use vstd::string::*;
use crate::alu::{binary, compare, reduce, sign_extend, unary};
use crate::text::{decimal, hex_word, push_decimal, push_hex_word};
use crate::alu::{sign_extend_byte, spec_binary, spec_compare, spec_unary, wrap};

verus! {

/// A memory region of exactly 65536 words, addressed by a 16-bit word.
#[derive(Debug)]
pub struct Segment {
    backing: Box<[u16; 65536]>,
}

impl View for Segment {
    type V = Seq<u16>;

    closed spec fn view(&self) -> Seq<u16> {
        self.backing@
    }
}

/// The contents of a segment that holds `prefix` at its lowest addresses and
/// zeros everywhere else.
pub open spec fn prefix_image(prefix: Seq<u16>) -> Seq<u16> {
    Seq::new(
        65536,
        |i: int|
            if i < prefix.len() {
                prefix[i]
            } else {
                0u16
            },
    )
}

impl Segment {
    /// The word stored at `address`.
    pub open spec fn word(&self, address: u16) -> u16 {
        self@[address as int]
    }

    /// Every segment holds exactly 65536 words.
    pub broadcast proof fn lemma_len(&self)
        ensures
            #[trigger] self@.len() == 65536,
    {
        broadcast use vstd::array::group_array_axioms;

    }

    /// A segment in which every word is zero.
    #[must_use]
    pub fn new_zeroed() -> (segment: Self)
        ensures
            segment@ == prefix_image(Seq::empty()),
    {
        broadcast use vstd::array::group_array_axioms;

        let segment = Self { backing: Box::new([0u16; 65536]) };
        assert(segment@ =~= prefix_image(Seq::empty()));
        segment
    }

    /// A segment that holds `prefix` at addresses `0..prefix.len()` and zeros
    /// above.
    #[must_use]
    pub fn from_prefix(prefix: &[u16]) -> (segment: Self)
        requires
            prefix@.len() <= 65536,
        ensures
            segment@ == prefix_image(prefix@),
    {
        let mut segment = Segment::new_zeroed();
        let mut i: usize = 0;
        while i < prefix.len()
            invariant
                i <= prefix@.len() <= 65536,
                segment@.len() == 65536,
                forall|j: int| 0 <= j < i ==> segment@[j] == prefix@[j],
                forall|j: int| i <= j < 65536 ==> segment@[j] == 0,
            decreases prefix@.len() - i,
        {
            segment.set(i as u16, prefix[i]);
            i = i + 1;
        }
        assert(segment@ =~= prefix_image(prefix@));
        segment
    }

    /// Reads the word at `address`.
    pub fn get(&self, address: u16) -> (word: u16)
        ensures
            word == self.word(address),
    {
        broadcast use vstd::array::group_array_axioms;

        self.backing[address as usize]
    }

    /// Overwrites the word at `address`, leaving every other word as it was.
    pub fn set(&mut self, address: u16, value: u16)
        ensures
            final(self)@ == old(self)@.update(address as int, value),
    {
        broadcast use vstd::array::group_array_axioms;

        self.backing[address as usize] = value;
    }
}

impl Clone for Segment {
    fn clone(&self) -> (copy: Self)
        ensures
            copy@ == self@,
    {
        let mut copy = Segment::new_zeroed();
        let mut i: usize = 0;
        while i < 65536
            invariant
                i <= 65536,
                copy@.len() == 65536,
                self@.len() == 65536,
                forall|j: int| 0 <= j < i ==> copy@[j] == self@[j],
            decreases 65536 - i,
        {
            copy.set(i as u16, self.get(i as u16));
            i = i + 1;
        }
        assert(copy@ =~= self@);
        copy
    }
}

impl PartialEq for Segment {
    fn eq(&self, other: &Self) -> (equal: bool) {
        let mut i: usize = 0;
        while i < 65536
            invariant
                i <= 65536,
                other@.len() == 65536,
                self@.len() == 65536,
                forall|j: int| 0 <= j < i ==> other@[j] == self@[j],
            decreases 65536 - i,
        {
            if self.get(i as u16) != other.get(i as u16) {
                return false;
            }
            i = i + 1;
        }
        assert(other@ =~= self@);
        true
    }
}

impl Eq for Segment {

}

impl vstd::std_specs::cmp::PartialEqSpecImpl for Segment {
    open spec fn obeys_eq_spec() -> bool {
        true
    }

    open spec fn eq_spec(&self, other: &Self) -> bool {
        self@ == other@
    }
}

impl vstd::std_specs::core::IndexSpecImpl<u16> for Segment {
    open spec fn index_req(&self, index: &u16) -> bool {
        true
    }
}

impl std::ops::Index<u16> for Segment {
    type Output = u16;

    fn index(&self, index: u16) -> (word: &u16)
        ensures
            *word == self.word(index),
    {
        broadcast use vstd::array::group_array_axioms;

        &self.backing[index as usize]
    }
}

impl std::ops::IndexMut<u16> for Segment {
    fn index_mut(&mut self, index: u16) -> (slot: &mut u16)
        ensures
            *slot == old(self).word(index),
            final(self)@ == old(self)@.update(index as int, *final(slot)),
    {
        broadcast use vstd::array::group_array_axioms;

        &mut self.backing[index as usize]
    }
}

/// How a run of `repetitions` more words equal to `word` reads: up to three
/// are written out, four or more are elided.
pub open spec fn run_text(word: u16, repetitions: nat) -> Seq<char>
    decreases repetitions,
{
    if repetitions >= 4 {
        ", <elided "@ + decimal(repetitions) + " repetitions>"@
    } else if repetitions == 0 {
        Seq::empty()
    } else {
        run_text(word, (repetitions - 1) as nat) + ", "@ + hex_word(word)
    }
}

/// How the words from index `i` on read, after a word `last` that was
/// followed by `repetitions` more words equal to it.
pub open spec fn words_text(words: Seq<u16>, i: int, last: u16, repetitions: nat) -> Seq<char>
    decreases words.len() - i,
{
    if i >= words.len() {
        run_text(last, repetitions)
    } else if words[i] == last {
        words_text(words, i + 1, last, repetitions + 1)
    } else {
        run_text(last, repetitions) + ", "@ + hex_word(words[i]) + words_text(
            words,
            i + 1,
            words[i],
            0,
        )
    }
}

/// How a segment reads: its words as four hexadecimal digits each, where
/// four or more repetitions of the word before them are elided.
pub open spec fn segment_text(words: Seq<u16>) -> Seq<char> {
    "Segment { backing: ["@ + hex_word(words[0]) + words_text(words, 1, words[0], 0) + "] }"@
}

/// The words that 131072 bytes stand for: each word takes two bytes, the
/// more significant one first.
pub open spec fn words_of_bytes(bytes: Seq<u8>) -> Seq<u16> {
    Seq::new(65536, |i: int| (bytes[2 * i] as int * 0x100 + bytes[2 * i + 1] as int) as u16)
}

/// Appends to `text` how a run of `repetitions` more words equal to
/// `word` reads.
fn push_run(text: &mut String, word: u16, repetitions: usize)
    ensures
        final(text)@ == old(text)@ + run_text(word, repetitions as nat),
{
    if repetitions < 4 {
        let mut i: usize = 0;
        assert(text@ =~= old(text)@ + run_text(word, 0));
        while i < repetitions
            invariant
                i <= repetitions < 4,
                text@ == old(text)@ + run_text(word, i as nat),
            decreases repetitions - i,
        {
            text.append(", ");
            push_hex_word(text, word);
            i = i + 1;
            assert(text@ =~= old(text)@ + run_text(word, i as nat));
        }
    } else {
        text.append(", <elided ");
        push_decimal(text, repetitions as u64);
        text.append(" repetitions>");
        assert(text@ =~= old(text)@ + run_text(word, repetitions as nat));
    }
}

impl Segment {
    /// The segment of a file of exactly 131072 bytes; `None` for any other
    /// length.
    pub fn from_bytes(bytes: &[u8]) -> (segment: Option<Self>)
        ensures
            bytes@.len() != 131072 ==> segment is None,
            bytes@.len() == 131072 ==> segment is Some && segment->0@ == words_of_bytes(bytes@),
    {
        if bytes.len() != 131072 {
            return None;
        }
        let mut segment = Segment::new_zeroed();
        let mut i: usize = 0;
        while i < 65536
            invariant
                i <= 65536,
                bytes@.len() == 131072,
                segment@.len() == 65536,
                forall|j: int|
                    0 <= j < i ==> segment@[j] == (bytes@[2 * j] as int * 0x100 + bytes@[2 * j
                        + 1] as int) as u16,
            decreases 65536 - i,
        {
            let high_byte = bytes[2 * i] as u16 * 0x100;
            let low_byte = bytes[2 * i + 1] as u16;
            segment.set(i as u16, high_byte + low_byte);
            i = i + 1;
        }
        assert(segment@ =~= words_of_bytes(bytes@));
        Some(segment)
    }

    /// How the segment reads when it is printed for a person.
    pub fn debug_string(&self) -> (text: String)
        ensures
            text@ == segment_text(self@),
    {
        proof {
            self.lemma_len();
        }
        let mut text = String::from_str("Segment { backing: [");
        let mut last_word = self.get(0);
        push_hex_word(&mut text, last_word);
        let ghost head = text@;
        let mut repetitions: usize = 0;
        let mut i: usize = 1;
        while i < 65536
            invariant
                1 <= i <= 65536,
                repetitions < i,
                self@.len() == 65536,
                head + words_text(self@, 1, self@[0], 0) == text@ + words_text(
                    self@,
                    i as int,
                    last_word,
                    repetitions as nat,
                ),
            decreases 65536 - i,
        {
            let word = self.get(i as u16);
            if word == last_word {
                repetitions = repetitions + 1;
            } else {
                let ghost before = text@;
                let ghost rest = words_text(self@, i + 1, word, 0);
                push_run(&mut text, last_word, repetitions);
                text.append(", ");
                push_hex_word(&mut text, word);
                assert(text@ + rest =~= before + (run_text(last_word, repetitions as nat) + ", "@
                    + hex_word(word) + rest));
                repetitions = 0;
                last_word = word;
            }
            i = i + 1;
        }
        let ghost before = text@;
        push_run(&mut text, last_word, repetitions);
        text.append("] }");
        assert(text@ =~= before + run_text(last_word, repetitions as nat) + "] }"@);
        assert(text@ =~= segment_text(self@));
        text
    }
}

/// Two segments are equal exactly when they hold the same word at every
/// address.
pub proof fn lemma_segment_equality(a: &Segment, b: &Segment)
    ensures
        (a@ == b@) <==> (forall|address: u16| a.word(address) == b.word(address)),
{
    a.lemma_len();
    b.lemma_len();
    if forall|address: u16| a.word(address) == b.word(address) {
        assert forall|i: int| 0 <= i < 65536 implies a@[i] == b@[i] by {
            assert(a.word(i as u16) == b.word(i as u16));
        }
        assert(a@ =~= b@);
    }
}

/// What one step of the machine reports to its host.
#[derive(Debug, PartialEq, Eq, Clone, Copy, Structural)]
pub enum StepResult {
    /// The instruction was executed; nothing else to report.
    Continue,
    /// The debug-dump instruction was executed; the host may inspect the machine.
    DebugDump,
    /// The word at the program counter encodes no instruction.
    IllegalInstruction(u16),
    /// The machine hands a word to its host.
    Yield(u16),
}

/// The machine as a mathematical value.
#[verifier::ext_equal]
pub struct MachineState {
    pub registers: Seq<u16>,
    pub program_counter: u16,
    pub time: nat,
    pub instructions: Seq<u16>,
    pub data: Seq<u16>,
    pub deterministic_so_far: bool,
    pub dumped_input_memory: bool,
}

/// The four words of a 64-bit counter, most significant word first.
pub open spec fn counter_word(counter: nat, index: int) -> u16 {
    if index == 0 {
        ((counter / 0x1_0000_0000_0000) % 0x1_0000) as u16
    } else if index == 1 {
        ((counter / 0x1_0000_0000) % 0x1_0000) as u16
    } else if index == 2 {
        ((counter / 0x1_0000) % 0x1_0000) as u16
    } else {
        (counter % 0x1_0000) as u16
    }
}

/// Where a relative branch or jump lands: forwards by `2 + offset`, or
/// backwards by `1 + offset`.
pub open spec fn relative_target(program_counter: u16, backwards: bool, offset: u16) -> u16 {
    if backwards {
        wrap(program_counter - (1 + offset))
    } else {
        wrap(program_counter + 2 + offset)
    }
}

impl MachineState {
    /// The state of a machine that has not run yet.
    pub open spec fn initial(instructions: Seq<u16>, data: Seq<u16>) -> Self {
        MachineState {
            registers: Seq::new(16, |i: int| 0u16),
            program_counter: 0,
            time: 0,
            instructions,
            data,
            deterministic_so_far: true,
            dumped_input_memory: false,
        }
    }

    /// Sixteen registers and two full segments.
    pub open spec fn well_formed(self) -> bool {
        &&& self.registers.len() == 16
        &&& self.instructions.len() == 65536
        &&& self.data.len() == 65536
    }

    /// The instruction word that the next step executes.
    pub open spec fn fetch(self) -> u16 {
        self.instructions[self.program_counter as int]
    }

    pub open spec fn write_register(self, index: int, value: u16) -> Self {
        MachineState { registers: self.registers.update(index, value), ..self }
    }

    pub open spec fn write_data(self, address: u16, value: u16) -> Self {
        MachineState { data: self.data.update(address as int, value), ..self }
    }

    /// Registers 0 to 3 take the four given words.
    pub open spec fn write_low_registers(self, r0: u16, r1: u16, r2: u16, r3: u16) -> Self {
        self.write_register(0, r0).write_register(1, r1).write_register(2, r2).write_register(
            3,
            r3,
        )
    }

    /// The end of a successful step that does not jump: the program counter
    /// moves to the next word and the step is counted.
    pub open spec fn proceed(self) -> Self {
        MachineState {
            program_counter: wrap(self.program_counter + 1),
            time: self.time + 1,
            ..self
        }
    }

    /// The end of a successful step that sets the program counter itself.
    pub open spec fn jump(self, target: u16) -> Self {
        MachineState { program_counter: target, time: self.time + 1, ..self }
    }

    /// Whether the next step executes the `rnd` instruction.
    pub open spec fn draws_random(self) -> bool {
        self.fetch() / 0x100 == 0x5E
    }
}

/// Class 1: yield, cpuid, debug-dump and time.
pub open spec fn execute_special(s: MachineState, instruction: u16) -> (MachineState, StepResult) {
    let code = instruction % 0x1000;
    if code == 0x02A {
        (s.proceed(), StepResult::Yield(s.registers[0]))
    } else if code == 0x02B {
        let r0: u16 = if s.registers[0] == 0 {
            0x8000
        } else {
            0
        };
        (s.write_low_registers(r0, 0, 0, 0).proceed(), StepResult::Continue)
    } else if code == 0x02C {
        (s.proceed(), StepResult::DebugDump)
    } else if code == 0x02D {
        (
            s.write_low_registers(
                counter_word(s.time, 0),
                counter_word(s.time, 1),
                counter_word(s.time, 2),
                counter_word(s.time, 3),
            ).proceed(),
            StepResult::Continue,
        )
    } else {
        (s, StepResult::IllegalInstruction(instruction))
    }
}

/// Class 2: store to data, load from data, load from the instructions.
pub open spec fn execute_memory(s: MachineState, instruction: u16) -> (MachineState, StepResult) {
    let command = (instruction / 0x100) % 0x10;
    let address = s.registers[((instruction / 0x10) % 0x10) as int];
    let register = (instruction % 0x10) as int;
    if command == 0 {
        (s.write_data(address, s.registers[register]).proceed(), StepResult::Continue)
    } else if command == 1 {
        (s.write_register(register, s.data[address as int]).proceed(), StepResult::Continue)
    } else if command == 2 {
        (
            s.write_register(register, s.instructions[address as int]).proceed(),
            StepResult::Continue,
        )
    } else {
        (s, StepResult::IllegalInstruction(instruction))
    }
}

/// Class 3: the register takes the sign-extended low byte of the instruction.
pub open spec fn execute_load_low(s: MachineState, instruction: u16) -> (MachineState, StepResult) {
    (
        s.write_register(
            ((instruction / 0x100) % 0x10) as int,
            sign_extend_byte((instruction % 0x100) as int),
        ).proceed(),
        StepResult::Continue,
    )
}

/// Class 4: the high byte of the register is replaced, the low byte stays.
pub open spec fn execute_load_high(s: MachineState, instruction: u16) -> (
    MachineState,
    StepResult,
) {
    let register = ((instruction / 0x100) % 0x10) as int;
    let value = ((instruction % 0x100) * 0x100 + s.registers[register] % 0x100) as u16;
    (s.write_register(register, value).proceed(), StepResult::Continue)
}

/// Class 5: a unary function of the source register goes to the destination.
pub open spec fn execute_unary(s: MachineState, instruction: u16, entropy: u64) -> (
    MachineState,
    StepResult,
) {
    let function = (instruction / 0x100) % 0x10;
    let source = s.registers[((instruction / 0x10) % 0x10) as int];
    let destination = (instruction % 0x10) as int;
    match spec_unary(function, source, entropy) {
        Some(value) => (
            MachineState {
                deterministic_so_far: s.deterministic_so_far && function != 0xE,
                ..s.write_register(destination, value).proceed()
            },
            StepResult::Continue,
        ),
        None => (s, StepResult::IllegalInstruction(instruction)),
    }
}

/// Class 6: a binary function of the source and the destination register
/// goes to the destination.
pub open spec fn execute_binary(s: MachineState, instruction: u16) -> (MachineState, StepResult) {
    let function = (instruction / 0x100) % 0x10;
    let source = s.registers[((instruction / 0x10) % 0x10) as int];
    let destination = (instruction % 0x10) as int;
    match spec_binary(function, source, s.registers[destination]) {
        Some(value) => (s.write_register(destination, value).proceed(), StepResult::Continue),
        None => (s, StepResult::IllegalInstruction(instruction)),
    }
}

/// Class 8: the right register takes 1 or 0, as the selected relation holds
/// between the left and the right register or not. Where both are the same
/// register, the left one is held against zero.
pub open spec fn execute_compare(s: MachineState, instruction: u16) -> (MachineState, StepResult) {
    let flags = (instruction / 0x100) % 0x10;
    let left = ((instruction / 0x10) % 0x10) as int;
    let right = (instruction % 0x10) as int;
    let rhs: u16 = if left == right {
        0
    } else {
        s.registers[right]
    };
    let value: u16 = if spec_compare(flags, s.registers[left], rhs) {
        1
    } else {
        0
    };
    (s.write_register(right, value).proceed(), StepResult::Continue)
}

/// Class 9: a relative jump that is taken where the register is not zero.
pub open spec fn execute_branch(s: MachineState, instruction: u16) -> (MachineState, StepResult) {
    if s.registers[((instruction / 0x100) % 0x10) as int] != 0 {
        (
            s.jump(
                relative_target(
                    s.program_counter,
                    (instruction / 0x80) % 2 == 1,
                    instruction % 0x80,
                ),
            ),
            StepResult::Continue,
        )
    } else {
        (s.proceed(), StepResult::Continue)
    }
}

/// Class 10: a relative jump.
pub open spec fn execute_jump_immediate(s: MachineState, instruction: u16) -> (
    MachineState,
    StepResult,
) {
    (
        s.jump(
            relative_target(s.program_counter, (instruction / 0x800) % 2 == 1, instruction % 0x800),
        ),
        StepResult::Continue,
    )
}

/// Class 11: a jump to a register plus a signed 8-bit offset.
pub open spec fn execute_jump_register(s: MachineState, instruction: u16) -> (
    MachineState,
    StepResult,
) {
    (
        s.jump(
            wrap(
                s.registers[((instruction / 0x100) % 0x10) as int] + sign_extend_byte(
                    (instruction % 0x100) as int,
                ),
            ),
        ),
        StepResult::Continue,
    )
}

/// Class 12: a jump whose high byte comes from the instruction and whose low
/// byte comes from the register.
pub open spec fn execute_jump_register_high(s: MachineState, instruction: u16) -> (
    MachineState,
    StepResult,
) {
    (
        s.jump(
            ((instruction % 0x100) * 0x100 + s.registers[((instruction / 0x100) % 0x10) as int]
                % 0x100) as u16,
        ),
        StepResult::Continue,
    )
}

/// One step of the machine: the word at the program counter is decoded by its
/// highest four bits and executed. `entropy` is what an `rnd` instruction
/// draws; no other instruction reads it.
pub open spec fn spec_step(s: MachineState, entropy: u64) -> (MachineState, StepResult) {
    let instruction = s.fetch();
    let class = instruction / 0x1000;
    if class == 0x1 {
        execute_special(s, instruction)
    } else if class == 0x2 {
        execute_memory(s, instruction)
    } else if class == 0x3 {
        execute_load_low(s, instruction)
    } else if class == 0x4 {
        execute_load_high(s, instruction)
    } else if class == 0x5 {
        execute_unary(s, instruction, entropy)
    } else if class == 0x6 {
        execute_binary(s, instruction)
    } else if class == 0x8 {
        execute_compare(s, instruction)
    } else if class == 0x9 {
        execute_branch(s, instruction)
    } else if class == 0xA {
        execute_jump_immediate(s, instruction)
    } else if class == 0xB {
        execute_jump_register(s, instruction)
    } else if class == 0xC {
        execute_jump_register_high(s, instruction)
    } else {
        (s, StepResult::IllegalInstruction(instruction))
    }
}


/// The value of eight bytes read as one number, first byte most significant.
pub open spec fn big_endian(bytes: Seq<u8>) -> nat
    recommends
        bytes.len() == 8,
{
    (((((((bytes[0] as nat * 0x100 + bytes[1] as nat) * 0x100 + bytes[2] as nat) * 0x100
        + bytes[3] as nat) * 0x100 + bytes[4] as nat) * 0x100 + bytes[5] as nat) * 0x100
        + bytes[6] as nat) * 0x100 + bytes[7] as nat)
}

/// Eight bytes from the random source of the operating system, by
/// `getrandom::fill`. Nothing is claimed of the bytes. Where the source
/// fails no bytes can be given, and the process ends.
#[verifier::external_body]
fn system_entropy() -> (bytes: [u8; 8]) {
    let mut bytes = [0u8; 8];
    getrandom::fill(&mut bytes).expect("Cannot satisfy rnd instruction");
    bytes
}

/// Reads eight bytes as one 64-bit number, first byte most significant.
pub fn entropy_from_bytes(bytes: &[u8; 8]) -> (entropy: u64)
    ensures
        entropy == big_endian(bytes@),
{
    let mut entropy: u64 = bytes[0] as u64;
    entropy = entropy * 0x100 + bytes[1] as u64;
    entropy = entropy * 0x100 + bytes[2] as u64;
    entropy = entropy * 0x100 + bytes[3] as u64;
    entropy = entropy * 0x100 + bytes[4] as u64;
    entropy = entropy * 0x100 + bytes[5] as u64;
    entropy = entropy * 0x100 + bytes[6] as u64;
    entropy = entropy * 0x100 + bytes[7] as u64;
    entropy
}

/// A random word in `0..=upper_bound`: 64 fresh random bits, reduced modulo
/// `upper_bound + 1`.
pub fn random_upto_including(upper_bound: u16) -> (value: u16)
    ensures
        value <= upper_bound,
{
    let bytes = system_entropy();
    reduce(entropy_from_bytes(&bytes), upper_bound)
}


/// A machine: sixteen registers, a program counter, a counter of the steps
/// done, and a segment each of instructions and of data.
#[derive(Debug, Clone)]
pub struct VirtualMachine {
    registers: [u16; 16],
    program_counter: u16,
    time: u64,
    instructions: Segment,
    data: Segment,
    deterministic_so_far: bool,
    dumped_input_memory: bool,
}

impl View for VirtualMachine {
    type V = MachineState;

    closed spec fn view(&self) -> MachineState {
        MachineState {
            registers: self.registers@,
            program_counter: self.program_counter,
            time: self.time as nat,
            instructions: self.instructions@,
            data: self.data@,
            deterministic_so_far: self.deterministic_so_far,
            dumped_input_memory: self.dumped_input_memory,
        }
    }
}

impl VirtualMachine {
    /// The state of every machine has sixteen registers and two full
    /// segments, and its time fits in 64 bits.
    pub proof fn lemma_well_formed(&self)
        ensures
            self@.well_formed(),
            self@.time <= u64::MAX,
    {
        broadcast use vstd::array::group_array_axioms;

        self.instructions.lemma_len();
        self.data.lemma_len();
    }

    /// A machine that has not run yet: registers, program counter and time
    /// are zero.
    #[must_use]
    pub fn new(instructions: Segment, data: Segment) -> (vm: Self)
        ensures
            vm@ == MachineState::initial(instructions@, data@),
    {
        broadcast use vstd::array::group_array_axioms;

        let vm = Self {
            registers: [0u16; 16],
            program_counter: 0,
            time: 0,
            instructions,
            data,
            deterministic_so_far: true,
            dumped_input_memory: false,
        };
        assert(vm@.registers =~= Seq::new(16, |i: int| 0u16));
        vm
    }

    #[must_use]
    pub fn get_registers(&self) -> (registers: &[u16; 16])
        ensures
            registers@ == self@.registers,
    {
        &self.registers
    }

    pub fn set_register(&mut self, index: u16, value: u16)
        requires
            index < 16,
        ensures
            final(self)@ == old(self)@.write_register(index as int, value),
    {
        broadcast use vstd::array::group_array_axioms;

        self.registers[index as usize] = value;
    }

    #[must_use]
    pub fn get_program_counter(&self) -> (program_counter: u16)
        ensures
            program_counter == self@.program_counter,
    {
        self.program_counter
    }

    pub fn set_program_counter(&mut self, program_counter: u16)
        ensures
            final(self)@ == (MachineState { program_counter, ..old(self)@ }),
    {
        self.program_counter = program_counter;
    }

    #[must_use]
    pub fn get_time(&self) -> (time: u64)
        ensures
            time == self@.time,
    {
        self.time
    }

    #[must_use]
    pub fn get_instructions(&self) -> (instructions: &Segment)
        ensures
            instructions@ == self@.instructions,
    {
        &self.instructions
    }

    #[must_use]
    pub fn get_data(&self) -> (data: &Segment)
        ensures
            data@ == self@.data,
    {
        &self.data
    }

    /// The data segment, to be changed in place; the rest of the machine stays.
    #[must_use]
    pub fn get_data_mut(&mut self) -> (data: &mut Segment)
        ensures
            data@ == old(self)@.data,
            final(self)@ == (MachineState { data: final(data)@, ..old(self)@ }),
    {
        &mut self.data
    }

    #[must_use]
    pub fn was_deterministic_so_far(&self) -> (deterministic: bool)
        ensures
            deterministic == self@.deterministic_so_far,
    {
        self.deterministic_so_far
    }

    /// Whether a host has recorded that it dumped the input memory.
    #[must_use]
    pub fn has_dumped_input_memory(&self) -> (dumped: bool)
        ensures
            dumped == self@.dumped_input_memory,
    {
        self.dumped_input_memory
    }

    /// Records that a host dumped the input memory; it is done once only.
    pub fn mark_input_memory_dumped(&mut self)
        ensures
            final(self)@ == (MachineState { dumped_input_memory: true, ..old(self)@ }),
    {
        self.dumped_input_memory = true;
    }

    pub fn set_data_word(&mut self, index: u16, value: u16)
        ensures
            final(self)@ == old(self)@.write_data(index, value),
    {
        self.data.set(index, value);
    }

    /// Sets the registers, the program counter and every data word to zero.
    /// Instructions, time and the two flags stay.
    pub fn reset(&mut self)
        ensures
            final(self)@ == (MachineState {
                registers: Seq::new(16, |i: int| 0u16),
                program_counter: 0,
                data: prefix_image(Seq::empty()),
                ..old(self)@
            }),
    {
        broadcast use vstd::array::group_array_axioms;

        self.registers = [0u16; 16];
        self.program_counter = 0;
        self.data = Segment::new_zeroed();
        assert(self@.registers =~= Seq::new(16, |i: int| 0u16));
    }
}


impl VirtualMachine {
    /// Ends a successful step that does not jump.
    fn proceed(&mut self)
        requires
            old(self)@.time < u64::MAX,
        ensures
            final(self)@ == old(self)@.proceed(),
    {
        self.program_counter = self.program_counter.wrapping_add(1);
        self.time = self.time + 1;
    }

    /// Ends a successful step that sets the program counter itself.
    fn jump(&mut self, target: u16)
        requires
            old(self)@.time < u64::MAX,
        ensures
            final(self)@ == old(self)@.jump(target),
    {
        self.program_counter = target;
        self.time = self.time + 1;
    }

    /// Where a relative branch or jump from the current instruction lands.
    fn relative(&self, backwards: bool, offset: u16) -> (target: u16)
        requires
            offset < 0x800,
        ensures
            target == relative_target(self@.program_counter, backwards, offset),
    {
        if backwards {
            self.program_counter.wrapping_sub(1 + offset)
        } else {
            self.program_counter.wrapping_add(2 + offset)
        }
    }

    fn write_low_registers(&mut self, r0: u16, r1: u16, r2: u16, r3: u16)
        ensures
            final(self)@ == old(self)@.write_low_registers(r0, r1, r2, r3),
    {
        broadcast use vstd::array::group_array_axioms;

        self.registers[0] = r0;
        self.registers[1] = r1;
        self.registers[2] = r2;
        self.registers[3] = r3;
    }

    fn step_special(&mut self, instruction: u16) -> (result: StepResult)
        requires
            old(self)@.time < u64::MAX,
        ensures
            (final(self)@, result) == execute_special(old(self)@, instruction),
    {
        broadcast use vstd::array::group_array_axioms;

        let code = instruction % 0x1000;
        if code == 0x02A {
            let value = self.registers[0];
            self.proceed();
            StepResult::Yield(value)
        } else if code == 0x02B {
            let r0: u16 = if self.registers[0] == 0 {
                0x8000
            } else {
                0
            };
            self.write_low_registers(r0, 0, 0, 0);
            self.proceed();
            StepResult::Continue
        } else if code == 0x02C {
            self.proceed();
            StepResult::DebugDump
        } else if code == 0x02D {
            let time = self.time;
            self.write_low_registers(
                ((time / 0x1_0000_0000_0000) % 0x1_0000) as u16,
                ((time / 0x1_0000_0000) % 0x1_0000) as u16,
                ((time / 0x1_0000) % 0x1_0000) as u16,
                (time % 0x1_0000) as u16,
            );
            self.proceed();
            StepResult::Continue
        } else {
            StepResult::IllegalInstruction(instruction)
        }
    }

    fn step_memory(&mut self, instruction: u16) -> (result: StepResult)
        requires
            old(self)@.time < u64::MAX,
        ensures
            (final(self)@, result) == execute_memory(old(self)@, instruction),
    {
        broadcast use vstd::array::group_array_axioms;

        let command = (instruction / 0x100) % 0x10;
        let address = self.registers[((instruction / 0x10) % 0x10) as usize];
        let register = (instruction % 0x10) as usize;
        if command == 0 {
            self.data.set(address, self.registers[register]);
            self.proceed();
            StepResult::Continue
        } else if command == 1 {
            self.registers[register] = self.data.get(address);
            self.proceed();
            StepResult::Continue
        } else if command == 2 {
            self.registers[register] = self.instructions.get(address);
            self.proceed();
            StepResult::Continue
        } else {
            StepResult::IllegalInstruction(instruction)
        }
    }

    fn step_load_imm_low(&mut self, instruction: u16) -> (result: StepResult)
        requires
            old(self)@.time < u64::MAX,
        ensures
            (final(self)@, result) == execute_load_low(old(self)@, instruction),
    {
        broadcast use vstd::array::group_array_axioms;

        let register = ((instruction / 0x100) % 0x10) as usize;
        self.registers[register] = sign_extend(instruction % 0x100);
        self.proceed();
        StepResult::Continue
    }

    fn step_load_imm_high(&mut self, instruction: u16) -> (result: StepResult)
        requires
            old(self)@.time < u64::MAX,
        ensures
            (final(self)@, result) == execute_load_high(old(self)@, instruction),
    {
        broadcast use vstd::array::group_array_axioms;

        let register = ((instruction / 0x100) % 0x10) as usize;
        self.registers[register] = (instruction % 0x100) * 0x100 + self.registers[register] % 0x100;
        self.proceed();
        StepResult::Continue
    }

    fn step_unary(&mut self, instruction: u16, entropy: u64) -> (result: StepResult)
        requires
            old(self)@.time < u64::MAX,
        ensures
            (final(self)@, result) == execute_unary(old(self)@, instruction, entropy),
    {
        broadcast use vstd::array::group_array_axioms;

        let function = (instruction / 0x100) % 0x10;
        let source = self.registers[((instruction / 0x10) % 0x10) as usize];
        let destination = (instruction % 0x10) as usize;
        match unary(function, source, entropy) {
            Some(value) => {
                if function == 0xE {
                    self.deterministic_so_far = false;
                }
                self.registers[destination] = value;
                self.proceed();
                StepResult::Continue
            },
            None => StepResult::IllegalInstruction(instruction),
        }
    }

    fn step_binary(&mut self, instruction: u16) -> (result: StepResult)
        requires
            old(self)@.time < u64::MAX,
        ensures
            (final(self)@, result) == execute_binary(old(self)@, instruction),
    {
        broadcast use vstd::array::group_array_axioms;

        let function = (instruction / 0x100) % 0x10;
        let source = self.registers[((instruction / 0x10) % 0x10) as usize];
        let destination = (instruction % 0x10) as usize;
        match binary(function, source, self.registers[destination]) {
            Some(value) => {
                self.registers[destination] = value;
                self.proceed();
                StepResult::Continue
            },
            None => StepResult::IllegalInstruction(instruction),
        }
    }

    fn step_compare(&mut self, instruction: u16) -> (result: StepResult)
        requires
            old(self)@.time < u64::MAX,
        ensures
            (final(self)@, result) == execute_compare(old(self)@, instruction),
    {
        broadcast use vstd::array::group_array_axioms;

        let flags = (instruction / 0x100) % 0x10;
        let left = ((instruction / 0x10) % 0x10) as usize;
        let right = (instruction % 0x10) as usize;
        let rhs: u16 = if left == right {
            0
        } else {
            self.registers[right]
        };
        let value: u16 = if compare(flags, self.registers[left], rhs) {
            1
        } else {
            0
        };
        self.registers[right] = value;
        self.proceed();
        StepResult::Continue
    }

    fn step_branch(&mut self, instruction: u16) -> (result: StepResult)
        requires
            old(self)@.time < u64::MAX,
        ensures
            (final(self)@, result) == execute_branch(old(self)@, instruction),
    {
        broadcast use vstd::array::group_array_axioms;

        if self.registers[((instruction / 0x100) % 0x10) as usize] != 0 {
            let target = self.relative((instruction / 0x80) % 2 == 1, instruction % 0x80);
            self.jump(target);
        } else {
            self.proceed();
        }
        StepResult::Continue
    }

    fn step_jump_imm(&mut self, instruction: u16) -> (result: StepResult)
        requires
            old(self)@.time < u64::MAX,
        ensures
            (final(self)@, result) == execute_jump_immediate(old(self)@, instruction),
    {
        let target = self.relative((instruction / 0x800) % 2 == 1, instruction % 0x800);
        self.jump(target);
        StepResult::Continue
    }

    fn step_jump_reg(&mut self, instruction: u16) -> (result: StepResult)
        requires
            old(self)@.time < u64::MAX,
        ensures
            (final(self)@, result) == execute_jump_register(old(self)@, instruction),
    {
        broadcast use vstd::array::group_array_axioms;

        let base = self.registers[((instruction / 0x100) % 0x10) as usize];
        self.jump(base.wrapping_add(sign_extend(instruction % 0x100)));
        StepResult::Continue
    }

    fn step_jump_reg_high(&mut self, instruction: u16) -> (result: StepResult)
        requires
            old(self)@.time < u64::MAX,
        ensures
            (final(self)@, result) == execute_jump_register_high(old(self)@, instruction),
    {
        broadcast use vstd::array::group_array_axioms;

        let low = self.registers[((instruction / 0x100) % 0x10) as usize] % 0x100;
        self.jump((instruction % 0x100) * 0x100 + low);
        StepResult::Continue
    }

    /// Executes one instruction, with `entropy` as the 64 random bits that an
    /// `rnd` instruction draws.
    pub fn step_with(&mut self, entropy: u64) -> (result: StepResult)
        requires
            old(self)@.time < u64::MAX,
        ensures
            (final(self)@, result) == spec_step(old(self)@, entropy),
    {
        let instruction = self.instructions.get(self.program_counter);
        let class = instruction / 0x1000;
        if class == 0x1 {
            self.step_special(instruction)
        } else if class == 0x2 {
            self.step_memory(instruction)
        } else if class == 0x3 {
            self.step_load_imm_low(instruction)
        } else if class == 0x4 {
            self.step_load_imm_high(instruction)
        } else if class == 0x5 {
            self.step_unary(instruction, entropy)
        } else if class == 0x6 {
            self.step_binary(instruction)
        } else if class == 0x8 {
            self.step_compare(instruction)
        } else if class == 0x9 {
            self.step_branch(instruction)
        } else if class == 0xA {
            self.step_jump_imm(instruction)
        } else if class == 0xB {
            self.step_jump_reg(instruction)
        } else if class == 0xC {
            self.step_jump_reg_high(instruction)
        } else {
            StepResult::IllegalInstruction(instruction)
        }
    }

    /// Executes one instruction. Where it is `rnd`, fresh random bits are
    /// drawn for it; every other instruction has one outcome only.
    pub fn step(&mut self) -> (result: StepResult)
        requires
            old(self)@.time < u64::MAX,
        ensures
            exists|entropy: u64| #[trigger] spec_step(old(self)@, entropy) == (final(self)@, result),
            !old(self)@.draws_random() ==> spec_step(old(self)@, 0) == (final(self)@, result),
    {
        let instruction = self.instructions.get(self.program_counter);
        let entropy: u64 = if instruction / 0x100 == 0x5E {
            let bytes = system_entropy();
            entropy_from_bytes(&bytes)
        } else {
            0
        };
        self.step_with(entropy)
    }
}


/// The machine after one step for each element of `entropy`, in order.
pub open spec fn run(s: MachineState, entropy: Seq<u64>) -> MachineState
    decreases entropy.len(),
{
    if entropy.len() == 0 {
        s
    } else {
        spec_step(run(s, entropy.drop_last()), entropy.last()).0
    }
}

/// Whether a host that waits for an answer passes over `result`: a plain
/// step and a debug dump are passed over, a yield and an illegal instruction
/// are not.
pub open spec fn transparent(result: StepResult) -> bool {
    result is Continue || result is DebugDump
}

/// Whether every step of the run reports `Continue` or `DebugDump`.
pub open spec fn quiet(s: MachineState, entropy: Seq<u64>) -> bool
    decreases entropy.len(),
{
    entropy.len() == 0 || (quiet(s, entropy.drop_last()) && transparent(
        spec_step(run(s, entropy.drop_last()), entropy.last()).1,
    ))
}

/// A step that reports an illegal instruction leaves the whole machine as it
/// was: neither time nor program counter move. Every other step adds exactly
/// one to the time.
pub proof fn lemma_step_accounting(s: MachineState, entropy: u64)
    ensures
        spec_step(s, entropy).1 is IllegalInstruction ==> spec_step(s, entropy).0 == s,
        spec_step(s, entropy).1 is IllegalInstruction ==> spec_step(s, entropy).1
            == StepResult::IllegalInstruction(s.fetch()),
        !(spec_step(s, entropy).1 is IllegalInstruction) ==> spec_step(s, entropy).0.time == s.time
            + 1,
{
}

/// A step keeps the machine well formed and never touches the instructions'
/// length or the dump latch.
pub proof fn lemma_step_well_formed(s: MachineState, entropy: u64)
    requires
        s.well_formed(),
    ensures
        spec_step(s, entropy).0.well_formed(),
        spec_step(s, entropy).0.dumped_input_memory == s.dumped_input_memory,
{
    let instruction = s.fetch();
    assert(0 <= (instruction / 0x100) % 0x10 < 16);
    assert(0 <= (instruction / 0x10) % 0x10 < 16);
    assert(0 <= instruction % 0x10 < 16);
}

/// The `rnd` instruction is the only one that reads the entropy: every other
/// step has the same outcome whatever the entropy.
pub proof fn lemma_step_ignores_entropy(s: MachineState, a: u64, b: u64)
    requires
        !s.draws_random(),
    ensures
        spec_step(s, a) == spec_step(s, b),
{
}

/// What `rnd` writes lies between zero and its source register, whatever the
/// entropy, and the step clears the determinism flag.
pub proof fn lemma_rnd_in_range(s: MachineState, entropy: u64)
    requires
        s.well_formed(),
        s.draws_random(),
    ensures
        spec_step(s, entropy).1 == StepResult::Continue,
        !spec_step(s, entropy).0.deterministic_so_far,
        spec_step(s, entropy).0.registers[(s.fetch() % 0x10) as int] <= s.registers[((s.fetch()
            / 0x10) % 0x10) as int],
{
    let instruction = s.fetch();
    let source = s.registers[((instruction / 0x10) % 0x10) as int];
    assert((instruction / 0x100) % 0x10 == 0xE);
    assert(instruction / 0x1000 == 5);
    vstd::arithmetic::div_mod::lemma_mod_bound(entropy as int, source as int + 1);
}

/// The determinism flag after a step: it stays as it was unless the step
/// executed `rnd`, which clears it.
pub proof fn lemma_step_determinism(s: MachineState, entropy: u64)
    ensures
        spec_step(s, entropy).0.deterministic_so_far == (s.deterministic_so_far
            && !s.draws_random()),
{
    let instruction = s.fetch();
    if instruction / 0x1000 == 5 {
        assert(s.draws_random() <==> (instruction / 0x100) % 0x10 == 0xE);
    }
}

/// After any sequence of steps the determinism flag is set exactly when it was
/// set at the start and none of the steps executed `rnd`.
pub proof fn lemma_run_determinism(s: MachineState, entropy: Seq<u64>)
    ensures
        run(s, entropy).deterministic_so_far == (s.deterministic_so_far && forall|i: int|
            0 <= i < entropy.len() ==> !(#[trigger] run(s, entropy.take(i))).draws_random()),
    decreases entropy.len(),
{
    if entropy.len() == 0 {
    } else {
        let before = entropy.drop_last();
        lemma_run_determinism(s, before);
        lemma_step_determinism(run(s, before), entropy.last());
        assert(entropy.take(entropy.len() - 1) =~= before);
        assert forall|i: int| 0 <= i < before.len() implies before.take(i) == entropy.take(i) by {
            assert(before.take(i) =~= entropy.take(i));
        }
        if forall|i: int| 0 <= i < entropy.len() ==> !(#[trigger] run(s, entropy.take(i))).draws_random() {
            assert forall|i: int| 0 <= i < before.len() implies !(#[trigger] run(
                s,
                before.take(i),
            )).draws_random() by {
                assert(!run(s, entropy.take(i)).draws_random());
            }
            assert(!run(s, entropy.take(entropy.len() - 1)).draws_random());
        }
        if (forall|i: int| 0 <= i < before.len() ==> !(#[trigger] run(s, before.take(i))).draws_random())
            && !run(s, before).draws_random() {
            assert forall|i: int| 0 <= i < entropy.len() implies !(#[trigger] run(
                s,
                entropy.take(i),
            )).draws_random() by {
                if i < before.len() {
                    assert(!run(s, before.take(i)).draws_random());
                }
            }
        }
    }
}

/// Time never runs backwards: a run of `n` steps adds at most `n` to it.
pub proof fn lemma_run_time(s: MachineState, entropy: Seq<u64>)
    ensures
        s.time <= run(s, entropy).time <= s.time + entropy.len(),
    decreases entropy.len(),
{
    if entropy.len() > 0 {
        lemma_run_time(s, entropy.drop_last());
        lemma_step_accounting(run(s, entropy.drop_last()), entropy.last());
    }
}

/// A compare instruction that names one register twice holds the register
/// against zero, not against itself.
pub proof fn lemma_compare_same_register(s: MachineState, instruction: u16)
    requires
        s.well_formed(),
        (instruction / 0x10) % 0x10 == instruction % 0x10,
    ensures
        execute_compare(s, instruction).0.registers[(instruction % 0x10) as int] == (if spec_compare(
            (instruction / 0x100) % 0x10,
            s.registers[(instruction % 0x10) as int],
            0,
        ) {
            1u16
        } else {
            0u16
        }),
{
}

} // verus!
