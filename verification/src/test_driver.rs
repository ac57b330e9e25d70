//! The test-driver environment: a driver program runs a testee program under
//! its control and reports test results.

use vstd::prelude::*;
use vstd::string::*;
use crate::alu::wrap;
use crate::text::{decimal, decimal_len, hex_word, padded_decimal};
use crate::text::{push_decimal, push_hex_word, push_padded_decimal};
use crate::vm::{lemma_step_accounting, lemma_step_well_formed, prefix_image, segment_text, spec_step};
use crate::vm::{MachineState, Segment, StepResult, VirtualMachine};

verus! {

pub const TEST_DRIVER_ID: u16 = 0x0003;

pub const TEST_DRIVER_LAYOUT_VERSION: u16 = 0x0001;

/// The first of the two words that must follow the test results.
pub const MARKER_FIRST: u16 = 0x650D;

/// The second of the two words that must follow the test results.
pub const MARKER_SECOND: u16 = 0x4585;

/// The budget of a testee run unless the driver sets another one.
pub const DEFAULT_TESTEE_LIMIT: u64 = 0x0000_FFFF_FFFF_FFFF;

/// How a run of the testee ended, as the driver reads it in register 0.
#[derive(Debug, PartialEq, Eq, Clone, Copy, Structural)]
pub enum TesteeExecutionResult {
    Yielded,
    Timeout,
    IllegalInstruction,
}

impl TesteeExecutionResult {
    pub open spec fn spec_code(self) -> u16 {
        match self {
            TesteeExecutionResult::Yielded => 0x0000,
            TesteeExecutionResult::Timeout => 0x0001,
            TesteeExecutionResult::IllegalInstruction => 0xFFFF,
        }
    }

    /// The word that stands for this result.
    pub fn code(&self) -> (code: u16)
        ensures
            code == self.spec_code(),
    {
        match self {
            Self::Yielded => 0x0000,
            Self::Timeout => 0x0001,
            Self::IllegalInstruction => 0xFFFF,
        }
    }
}

/// What the driver asks for when it yields.
#[derive(Debug, PartialEq, Eq, Clone, Copy, Structural)]
pub enum DriverCommand {
    ExecuteTestee,
    Done,
    AccessRegisters,
    OverwriteData,
    ReadData,
    ReadInstructions,
    ResetTesteeVM,
    ResetTimeLimit,
    SetProgramCounter,
    Illegal,
}

impl DriverCommand {
    pub open spec fn spec_code(self) -> u16 {
        match self {
            DriverCommand::ExecuteTestee => 0x0001,
            DriverCommand::Done => 0x0002,
            DriverCommand::AccessRegisters => 0x0003,
            DriverCommand::OverwriteData => 0x0004,
            DriverCommand::ReadData => 0x0005,
            DriverCommand::ReadInstructions => 0x0006,
            DriverCommand::ResetTesteeVM => 0x0007,
            DriverCommand::ResetTimeLimit => 0x0008,
            DriverCommand::SetProgramCounter => 0x0009,
            DriverCommand::Illegal => 0xFFFF,
        }
    }

    /// The command that `value` selects; every word but 1 to 9 is illegal.
    pub open spec fn spec_from(value: u16) -> DriverCommand {
        if value == 0x0001 {
            DriverCommand::ExecuteTestee
        } else if value == 0x0002 {
            DriverCommand::Done
        } else if value == 0x0003 {
            DriverCommand::AccessRegisters
        } else if value == 0x0004 {
            DriverCommand::OverwriteData
        } else if value == 0x0005 {
            DriverCommand::ReadData
        } else if value == 0x0006 {
            DriverCommand::ReadInstructions
        } else if value == 0x0007 {
            DriverCommand::ResetTesteeVM
        } else if value == 0x0008 {
            DriverCommand::ResetTimeLimit
        } else if value == 0x0009 {
            DriverCommand::SetProgramCounter
        } else {
            DriverCommand::Illegal
        }
    }

    /// The word that stands for this command.
    pub fn code(&self) -> (code: u16)
        ensures
            code == self.spec_code(),
            Self::spec_from(code) == *self,
    {
        match self {
            Self::ExecuteTestee => 0x0001,
            Self::Done => 0x0002,
            Self::AccessRegisters => 0x0003,
            Self::OverwriteData => 0x0004,
            Self::ReadData => 0x0005,
            Self::ReadInstructions => 0x0006,
            Self::ResetTesteeVM => 0x0007,
            Self::ResetTimeLimit => 0x0008,
            Self::SetProgramCounter => 0x0009,
            Self::Illegal => 0xFFFF,
        }
    }
}

impl vstd::std_specs::convert::FromSpecImpl<u16> for DriverCommand {
    open spec fn obeys_from_spec() -> bool {
        true
    }

    open spec fn from_spec(value: u16) -> Self {
        DriverCommand::spec_from(value)
    }
}

impl From<u16> for DriverCommand {
    fn from(value: u16) -> (command: Self) {
        match value {
            0x0001 => Self::ExecuteTestee,
            0x0002 => Self::Done,
            0x0003 => Self::AccessRegisters,
            0x0004 => Self::OverwriteData,
            0x0005 => Self::ReadData,
            0x0006 => Self::ReadInstructions,
            0x0007 => Self::ResetTesteeVM,
            0x0008 => Self::ResetTimeLimit,
            0x0009 => Self::SetProgramCounter,
            _ => Self::Illegal,
        }
    }
}

/// The result of one test, as the driver reports it.
#[derive(Debug, PartialEq, Eq, Clone, Copy, Structural)]
pub enum IndividualResult {
    Pass,
    Fail,
    FatalError,
    Skip,
    Illegal,
}

impl IndividualResult {
    pub open spec fn spec_code(self) -> u16 {
        match self {
            IndividualResult::Pass => 1,
            IndividualResult::Fail => 2,
            IndividualResult::FatalError => 3,
            IndividualResult::Skip => 4,
            IndividualResult::Illegal => 0xFFFF,
        }
    }

    /// The result that `value` stands for; every word but 1 to 4 is illegal.
    pub open spec fn spec_from(value: u16) -> IndividualResult {
        if value == 1 {
            IndividualResult::Pass
        } else if value == 2 {
            IndividualResult::Fail
        } else if value == 3 {
            IndividualResult::FatalError
        } else if value == 4 {
            IndividualResult::Skip
        } else {
            IndividualResult::Illegal
        }
    }

    /// The word that stands for this result.
    pub fn code(&self) -> (code: u16)
        ensures
            code == self.spec_code(),
            Self::spec_from(code) == *self,
    {
        match self {
            Self::Pass => 1,
            Self::Fail => 2,
            Self::FatalError => 3,
            Self::Skip => 4,
            Self::Illegal => 0xFFFF,
        }
    }
}

impl vstd::std_specs::convert::FromSpecImpl<u16> for IndividualResult {
    open spec fn obeys_from_spec() -> bool {
        true
    }

    open spec fn from_spec(value: u16) -> Self {
        IndividualResult::spec_from(value)
    }
}

impl From<u16> for IndividualResult {
    fn from(value: u16) -> (result: Self) {
        match value {
            1 => Self::Pass,
            2 => Self::Fail,
            3 => Self::FatalError,
            4 => Self::Skip,
            _ => Self::Illegal,
        }
    }
}

/// The rating of a list of results: the worst of them counts. Illegal is
/// worse than a fatal error, that is worse than a failure, that is worse
/// than a pass; skipped tests count only where there is nothing else.
pub open spec fn spec_rating(marker_ok: bool, results: Seq<IndividualResult>) -> IndividualResult {
    if !marker_ok || results.contains(IndividualResult::Illegal) {
        IndividualResult::Illegal
    } else if results.contains(IndividualResult::FatalError) {
        IndividualResult::FatalError
    } else if results.contains(IndividualResult::Fail) {
        IndividualResult::Fail
    } else if results.contains(IndividualResult::Pass) {
        IndividualResult::Pass
    } else {
        IndividualResult::Skip
    }
}

/// What a driver reported when it was done.
#[derive(Debug, PartialEq, Eq, Clone)]
pub struct CompletionData {
    /// Whether the two marker words followed the results.
    pub consistent_marker: bool,
    pub results: Vec<IndividualResult>,
}

impl CompletionData {
    /// No results, and no marker seen.
    pub fn new() -> (data: Self)
        ensures
            !data.consistent_marker,
            data.results@ == Seq::<IndividualResult>::empty(),
    {
        Self { consistent_marker: false, results: Vec::new() }
    }

    /// Whether `wanted` is among the results.
    fn any(&self, wanted: IndividualResult) -> (found: bool)
        ensures
            found == self.results@.contains(wanted),
    {
        let mut i: usize = 0;
        while i < self.results.len()
            invariant
                i <= self.results@.len(),
                forall|j: int| 0 <= j < i ==> self.results@[j] != wanted,
            decreases self.results@.len() - i,
        {
            if self.results[i] == wanted {
                return true;
            }
            i = i + 1;
        }
        false
    }

    /// The one rating that stands for all the results.
    pub fn overall_rating(&self) -> (rating: IndividualResult)
        ensures
            rating == spec_rating(self.consistent_marker, self.results@),
    {
        if !self.consistent_marker {
            return IndividualResult::Illegal;
        }
        if self.any(IndividualResult::Illegal) {
            return IndividualResult::Illegal;
        }
        if self.any(IndividualResult::FatalError) {
            return IndividualResult::FatalError;
        }
        if self.any(IndividualResult::Fail) {
            return IndividualResult::Fail;
        }
        if self.any(IndividualResult::Pass) {
            return IndividualResult::Pass;
        }
        IndividualResult::Skip
    }
}

/// How a test session ended.
#[derive(Debug, PartialEq, Eq, Clone)]
pub enum TestResult {
    IllegalInstruction(u16),
    IllegalYield(u16),
    Timeout,
    Completed(CompletionData),
}

/// A test result as a mathematical value.
pub enum TestOutcome {
    IllegalInstruction(u16),
    IllegalYield(u16),
    Timeout,
    Completed { marker_ok: bool, results: Seq<IndividualResult> },
}

impl View for TestResult {
    type V = TestOutcome;

    open spec fn view(&self) -> TestOutcome {
        match self {
            TestResult::IllegalInstruction(instruction) => TestOutcome::IllegalInstruction(
                *instruction,
            ),
            TestResult::IllegalYield(value) => TestOutcome::IllegalYield(*value),
            TestResult::Timeout => TestOutcome::Timeout,
            TestResult::Completed(data) => TestOutcome::Completed {
                marker_ok: data.consistent_marker,
                results: data.results@,
            },
        }
    }
}

impl TestOutcome {
    /// A session was good when it was completed with the marker in place and
    /// either reported no test at all or is rated as passed.
    pub open spec fn good(self) -> bool {
        self matches TestOutcome::Completed { marker_ok, results } && marker_ok && (results.len()
            == 0 || spec_rating(marker_ok, results) == IndividualResult::Pass)
    }
}

impl TestResult {
    pub fn is_good(&self) -> (good: bool)
        ensures
            good == self@.good(),
    {
        if let TestResult::Completed(data) = self {
            data.consistent_marker && (data.results.len() == 0 || IndividualResult::Pass
                == data.overall_rating())
        } else {
            false
        }
    }
}


/// The target after `count` words were copied into it from the source: the
/// word at `src + i` goes to `dst + i` for each `i` below `count`, and both
/// addresses wrap around at the end of their segment.
pub open spec fn copy_words(source: Seq<u16>, target: Seq<u16>, src: u16, dst: u16, count: int) -> Seq<
    u16,
> {
    Seq::new(
        target.len(),
        |a: int|
            if wrap(a - dst) < count {
                source[wrap(src + wrap(a - dst)) as int]
            } else {
                target[a]
            },
    )
}

/// Copies `count` words from `source` to `target`.
fn copy_segment_words(source: &Segment, target: &mut Segment, src: u16, dst: u16, count: u16)
    ensures
        final(target)@ == copy_words(source@, old(target)@, src, dst, count as int),
{
    proof {
        source.lemma_len();
        target.lemma_len();
    }
    let mut i: u16 = 0;
    assert(target@ =~= copy_words(source@, old(target)@, src, dst, 0));
    while i < count
        invariant
            i <= count,
            source@.len() == 65536,
            target@.len() == 65536,
            old(target)@.len() == 65536,
            target@ == copy_words(source@, old(target)@, src, dst, i as int),
        decreases count - i,
    {
        let ghost before = target@;
        target.set(dst.wrapping_add(i), source.get(src.wrapping_add(i)));
        assert(target@ =~= copy_words(source@, old(target)@, src, dst, i + 1)) by {
            assert forall|a: int| 0 <= a < 65536 implies target@[a] == copy_words(
                source@,
                old(target)@,
                src,
                dst,
                i + 1,
            )[a] by {
                assert(before[a] == copy_words(source@, old(target)@, src, dst, i as int)[a]);
            }
        }
        i = i + 1;
    }
}

/// Whether bit number `i` of `word` is set.
pub open spec fn bit(word: u16, i: u16) -> bool {
    (word >> i) & 1 == 1
}

/// The two machines of a test session and its counters.
#[derive(Debug)]
pub struct TestDriverData {
    vm_driver: VirtualMachine,
    vm_testee: VirtualMachine,
    driver_insns: u64,
    testee_insns: u64,
    testee_limit: u64,
    testee_remaining: u64,
}

/// A test session as a mathematical value. While `testee_remaining` is not
/// zero the testee runs; else the driver does.
#[verifier::ext_equal]
pub struct SessionState {
    pub driver: MachineState,
    pub testee: MachineState,
    pub driver_insns: nat,
    pub testee_insns: nat,
    pub testee_limit: u64,
    pub testee_remaining: u64,
}

impl SessionState {
    /// A session before its first step. The driver finds the identity of the
    /// environment and the version of the layout at the highest addresses of
    /// its data; the testee's data is all zero.
    pub open spec fn initial(driver_instructions: Seq<u16>, testee_instructions: Seq<u16>) -> Self {
        SessionState {
            driver: MachineState::initial(
                driver_instructions,
                prefix_image(Seq::empty()).update(0xFFFF, TEST_DRIVER_ID).update(
                    0xFFFE,
                    TEST_DRIVER_LAYOUT_VERSION,
                ),
            ),
            testee: MachineState::initial(testee_instructions, prefix_image(Seq::empty())),
            driver_insns: 0,
            testee_insns: 0,
            testee_limit: DEFAULT_TESTEE_LIMIT,
            testee_remaining: 0,
        }
    }

    /// Both machines are well formed, neither has made more steps than were
    /// counted for it, and the counters fit in 64 bits together.
    pub open spec fn well_formed(self) -> bool {
        &&& self.driver.well_formed()
        &&& self.testee.well_formed()
        &&& self.driver.time <= self.driver_insns
        &&& self.testee.time <= self.testee_insns
        &&& self.driver_insns + self.testee_insns <= u64::MAX
    }

    /// The steps counted so far, of both machines.
    pub open spec fn spent(self) -> nat {
        self.driver_insns + self.testee_insns
    }

    /// The driver starts the testee: it will read a timeout in its registers
    /// unless the testee stops before its budget is used up.
    pub open spec fn execute_testee(self) -> Self {
        SessionState {
            driver: self.driver.write_register(
                0,
                TesteeExecutionResult::Timeout.spec_code(),
            ).write_register(1, 0),
            testee_remaining: self.testee_limit,
            ..self
        }
    }

    /// What the driver reports when it is done: as many results as its
    /// register 1 says, read from the start of its data, and whether the two
    /// marker words follow them. More than 65534 results leave no room for
    /// the marker and are not read.
    pub open spec fn done(self) -> TestOutcome {
        let count = self.driver.registers[1];
        if count > 65534 {
            TestOutcome::Completed { marker_ok: false, results: Seq::empty() }
        } else {
            TestOutcome::Completed {
                marker_ok: self.driver.data[count as int] == MARKER_FIRST && self.driver.data[count
                    + 1] == MARKER_SECOND,
                results: Seq::new(
                    count as nat,
                    |i: int| IndividualResult::spec_from(self.driver.data[i]),
                ),
            }
        }
    }

    /// The first `count` registers of the testee are exchanged with the
    /// driver's data from `offset` on; the address wraps around at the end
    /// of the segment. Register `i` of the testee takes the driver's word
    /// at `offset + i` where bit `i` of `bitset` is set. Where it is not
    /// set, the driver's word at `offset + i` takes register `i` of the
    /// testee. Everything else stays.
    pub open spec fn access_registers(self, bitset: u16, offset: u16, count: int) -> Self {
        SessionState {
            testee: MachineState {
                registers: Seq::new(
                    self.testee.registers.len(),
                    |i: int|
                        if i < count && bit(bitset, i as u16) {
                            self.driver.data[wrap(offset + i) as int]
                        } else {
                            self.testee.registers[i]
                        },
                ),
                ..self.testee
            },
            driver: MachineState {
                data: Seq::new(
                    self.driver.data.len(),
                    |a: int|
                        if wrap(a - offset) < count && !bit(bitset, wrap(a - offset)) {
                            self.testee.registers[wrap(a - offset) as int]
                        } else {
                            self.driver.data[a]
                        },
                ),
                ..self.driver
            },
            ..self
        }
    }

    /// The session after the driver yielded `command`, and the result where
    /// that ends the session.
    pub open spec fn command(self, command: u16) -> (SessionState, Option<TestOutcome>) {
        let r1 = self.driver.registers[1];
        let r2 = self.driver.registers[2];
        let r3 = self.driver.registers[3];
        match DriverCommand::spec_from(command) {
            DriverCommand::ExecuteTestee => (self.execute_testee(), None),
            DriverCommand::Done => (self, Some(self.done())),
            DriverCommand::AccessRegisters => (self.access_registers(r1, r2, 16), None),
            DriverCommand::OverwriteData => (
                SessionState {
                    testee: MachineState {
                        data: copy_words(self.driver.data, self.testee.data, r2, r1, r3 as int),
                        ..self.testee
                    },
                    ..self
                },
                None,
            ),
            DriverCommand::ReadData => (
                SessionState {
                    driver: MachineState {
                        data: copy_words(self.testee.data, self.driver.data, r2, r1, r3 as int),
                        ..self.driver
                    },
                    ..self
                },
                None,
            ),
            DriverCommand::ReadInstructions => (
                SessionState {
                    driver: MachineState {
                        data: copy_words(
                            self.testee.instructions,
                            self.driver.data,
                            r2,
                            r1,
                            r3 as int,
                        ),
                        ..self.driver
                    },
                    ..self
                },
                None,
            ),
            DriverCommand::ResetTesteeVM => (
                SessionState {
                    testee: MachineState {
                        registers: Seq::new(16, |i: int| 0u16),
                        program_counter: 0,
                        data: prefix_image(Seq::empty()),
                        ..self.testee
                    },
                    ..self
                },
                None,
            ),
            DriverCommand::ResetTimeLimit => (
                SessionState {
                    testee_limit: (r1 as u64 * 0x1_0000_0000 + r2 as u64 * 0x1_0000
                        + r3 as u64) as u64,
                    ..self
                },
                None,
            ),
            DriverCommand::SetProgramCounter => (
                SessionState {
                    testee: MachineState { program_counter: r1, ..self.testee },
                    ..self
                },
                None,
            ),
            DriverCommand::Illegal => (self, Some(TestOutcome::IllegalYield(command))),
        }
    }

    #[verifier::opaque]
    /// One step of the session. While the testee has budget left it makes
    /// the step; a step that is not passed over ends its run, and the driver
    /// reads in its registers 0 and 1 how. Else the driver makes the step:
    /// an illegal instruction ends the session, and a yield is a command.
    pub open spec fn step(self, entropy: u64) -> (SessionState, Option<TestOutcome>) {
        if self.testee_remaining > 0 {
            let stepped = spec_step(self.testee, entropy);
            let counted = SessionState {
                testee: stepped.0,
                testee_insns: self.testee_insns + 1,
                testee_remaining: (self.testee_remaining - 1) as u64,
                ..self
            };
            (
                match stepped.1 {
                    StepResult::Continue | StepResult::DebugDump => counted,
                    StepResult::IllegalInstruction(instruction) => SessionState {
                        driver: self.driver.write_register(
                            0,
                            TesteeExecutionResult::IllegalInstruction.spec_code(),
                        ).write_register(1, instruction),
                        testee_remaining: 0,
                        ..counted
                    },
                    StepResult::Yield(value) => SessionState {
                        driver: self.driver.write_register(
                            0,
                            TesteeExecutionResult::Yielded.spec_code(),
                        ).write_register(1, value),
                        testee_remaining: 0,
                        ..counted
                    },
                },
                None,
            )
        } else {
            let stepped = spec_step(self.driver, entropy);
            let counted = SessionState {
                driver: stepped.0,
                driver_insns: self.driver_insns + 1,
                ..self
            };
            match stepped.1 {
                StepResult::Continue | StepResult::DebugDump => (counted, None),
                StepResult::IllegalInstruction(instruction) => (
                    counted,
                    Some(TestOutcome::IllegalInstruction(instruction)),
                ),
                StepResult::Yield(command) => counted.command(command),
            }
        }
    }
}

/// The view of a result that may be missing.
pub open spec fn outcome_of(result: Option<TestResult>) -> Option<TestOutcome> {
    match result {
        Some(result) => Some(result@),
        None => None,
    }
}

/// Whether `n` steps in a row, none of which ends the session, can take it
/// from `pre` to `post`.
pub open spec fn session_reaches(pre: SessionState, post: SessionState, n: nat) -> bool
    decreases n,
{
    if n == 0 {
        pre == post
    } else {
        exists|middle: SessionState, entropy: u64|
            session_reaches(pre, middle, (n - 1) as nat) && #[trigger] middle.step(entropy) == (
                post,
                None::<TestOutcome>,
            )
    }
}

/// Whether a session that starts in `pre` can end in `post` with `outcome`
/// under the budget `total_budget`. It ends with a timeout where steps that
/// do not end it have used up the budget. Else its last step, made while
/// budget was left, gave the outcome.
pub open spec fn concluded(
    pre: SessionState,
    total_budget: u64,
    post: SessionState,
    outcome: TestOutcome,
) -> bool {
    if outcome is Timeout {
        &&& post.spent() >= total_budget
        &&& post.spent() >= pre.spent()
        &&& session_reaches(pre, post, (post.spent() - pre.spent()) as nat)
    } else {
        exists|last: SessionState, entropy: u64|
            session_reaches(pre, last, (post.spent() - 1 - pre.spent()) as nat) && last.spent()
                < total_budget && #[trigger] last.step(entropy) == (post, Some(outcome))
    }
}

impl View for TestDriverData {
    type V = SessionState;

    closed spec fn view(&self) -> SessionState {
        SessionState {
            driver: self.vm_driver@,
            testee: self.vm_testee@,
            driver_insns: self.driver_insns as nat,
            testee_insns: self.testee_insns as nat,
            testee_limit: self.testee_limit,
            testee_remaining: self.testee_remaining,
        }
    }
}


impl TestDriverData {
    /// A session with the two programs, before its first step.
    pub fn new(driver_instructions: Segment, testee_instructions: Segment) -> (session: Self)
        ensures
            session@ == SessionState::initial(driver_instructions@, testee_instructions@),
            session@.well_formed(),
    {
        let mut driver_data = Segment::new_zeroed();
        let testee_data = Segment::new_zeroed();
        driver_data.set(0xFFFF, TEST_DRIVER_ID);
        driver_data.set(0xFFFE, TEST_DRIVER_LAYOUT_VERSION);
        let vm_driver = VirtualMachine::new(driver_instructions, driver_data);
        let vm_testee = VirtualMachine::new(testee_instructions, testee_data);
        proof {
            vm_driver.lemma_well_formed();
            vm_testee.lemma_well_formed();
        }
        Self {
            vm_driver,
            vm_testee,
            driver_insns: 0,
            testee_insns: 0,
            testee_limit: DEFAULT_TESTEE_LIMIT,
            testee_remaining: 0,
        }
    }

    /// The steps that were counted for the driver.
    pub fn get_driver_insns(&self) -> (driver_insns: u64)
        ensures
            driver_insns == self@.driver_insns,
    {
        self.driver_insns
    }

    /// The steps that were counted for the testee.
    pub fn get_testee_insns(&self) -> (testee_insns: u64)
        ensures
            testee_insns == self@.testee_insns,
    {
        self.testee_insns
    }

    pub fn get_driver_vm(&self) -> (vm: &VirtualMachine)
        ensures
            vm@ == self@.driver,
    {
        &self.vm_driver
    }

    pub fn get_testee_vm(&self) -> (vm: &VirtualMachine)
        ensures
            vm@ == self@.testee,
    {
        &self.vm_testee
    }

    /// Makes one step of the session: of the testee while it has budget
    /// left, else of the driver. Exactly one of the two counters grows by
    /// one. The result is `Some` where the step ends the session.
    pub fn do_step(&mut self) -> (result: Option<TestResult>)
        requires
            old(self)@.well_formed(),
            old(self)@.spent() < u64::MAX,
        ensures
            final(self)@.well_formed(),
            exists|entropy: u64| #[trigger]
                old(self)@.step(entropy) == (final(self)@, outcome_of(result)),
            final(self)@.spent() == old(self)@.spent() + 1,
            (final(self)@.driver_insns == old(self)@.driver_insns + 1) != (final(self)@.testee_insns
                == old(self)@.testee_insns + 1),
    {
        proof {
            reveal(SessionState::step);
            self.vm_driver.lemma_well_formed();
            self.vm_testee.lemma_well_formed();
        }
        if self.testee_remaining > 0 {
            let ghost before = self.vm_testee@;
            self.testee_remaining = self.testee_remaining - 1;
            self.testee_insns = self.testee_insns + 1;
            let stepped = self.vm_testee.step();
            let ghost drawn = choose|e: u64| spec_step(before, e) == (self.vm_testee@, stepped);
            proof {
                lemma_step_accounting(before, drawn);
                self.vm_testee.lemma_well_formed();
            }
            match stepped {
                StepResult::Continue | StepResult::DebugDump => {},
                StepResult::IllegalInstruction(insn) => {
                    self.testee_remaining = 0;
                    self.vm_driver.set_register(0, TesteeExecutionResult::IllegalInstruction.code());
                    self.vm_driver.set_register(1, insn);
                },
                StepResult::Yield(yield_value) => {
                    self.testee_remaining = 0;
                    self.vm_driver.set_register(0, TesteeExecutionResult::Yielded.code());
                    self.vm_driver.set_register(1, yield_value);
                },
            }
            proof {
                self.vm_driver.lemma_well_formed();
                assert(old(self)@.step(drawn) == (self@, None::<TestOutcome>));
            }
            None
        } else {
            let ghost before = self.vm_driver@;
            self.driver_insns = self.driver_insns + 1;
            let stepped = self.vm_driver.step();
            let ghost drawn = choose|e: u64| spec_step(before, e) == (self.vm_driver@, stepped);
            proof {
                lemma_step_accounting(before, drawn);
                self.vm_driver.lemma_well_formed();
            }
            let result = match stepped {
                StepResult::Continue | StepResult::DebugDump => None,
                StepResult::IllegalInstruction(insn) => Some(TestResult::IllegalInstruction(insn)),
                StepResult::Yield(cmd) => {
                    proof {
                        lemma_command_accounting(self@, cmd);
                    }
                    self.handle_driver_yield(cmd)
                },
            };
            proof {
                self.vm_driver.lemma_well_formed();
                self.vm_testee.lemma_well_formed();
                assert(old(self)@.step(drawn) == (self@, outcome_of(result)));
            }
            result
        }
    }

    /// Carries out what the driver asked for by yielding `command`. The
    /// counters and the time of both machines stay.
    pub fn handle_driver_yield(&mut self, command: u16) -> (result: Option<TestResult>)
        ensures
            (final(self)@, outcome_of(result)) == old(self)@.command(command),
    {
        match DriverCommand::from(command) {
            DriverCommand::ExecuteTestee => self.handle_execute_testee(),
            DriverCommand::Done => {
                return Some(self.handle_done());
            },
            DriverCommand::AccessRegisters => self.handle_access_registers(),
            DriverCommand::OverwriteData => self.handle_overwrite_data(),
            DriverCommand::ReadData => self.handle_read_data(),
            DriverCommand::ReadInstructions => self.handle_read_instructions(),
            DriverCommand::ResetTesteeVM => self.handle_reset_testee_vm(),
            DriverCommand::ResetTimeLimit => self.handle_reset_time_limit(),
            DriverCommand::SetProgramCounter => self.handle_set_program_counter(),
            DriverCommand::Illegal => {
                return Some(TestResult::IllegalYield(command));
            },
        }
        None
    }

    fn handle_execute_testee(&mut self)
        ensures
            final(self)@ == old(self)@.execute_testee(),
    {
        self.vm_driver.set_register(0, TesteeExecutionResult::Timeout.code());
        self.vm_driver.set_register(1, 0x0000);
        self.testee_remaining = self.testee_limit;
    }

    fn handle_done(&self) -> (result: TestResult)
        ensures
            result@ == self@.done(),
    {
        broadcast use vstd::array::group_array_axioms;

        let expected_tests = self.vm_driver.get_registers()[1];
        let mut completion_data = CompletionData::new();
        if expected_tests > 65534 {
            return TestResult::Completed(completion_data);
        }
        let data_segment = self.vm_driver.get_data();
        proof {
            data_segment.lemma_len();
        }
        let mut i: u16 = 0;
        while i < expected_tests
            invariant
                i <= expected_tests,
                data_segment@ == self@.driver.data,
                !completion_data.consistent_marker,
                completion_data.results@.len() == i,
                forall|j: int|
                    0 <= j < i ==> completion_data.results@[j] == IndividualResult::spec_from(
                        data_segment@[j],
                    ),
            decreases expected_tests - i,
        {
            let r = IndividualResult::from(data_segment.get(i));
            completion_data.results.push(r);
            i = i + 1;
        }
        let marker0 = data_segment.get(expected_tests);
        let marker1 = data_segment.get(expected_tests + 1);
        completion_data.consistent_marker = marker0 == MARKER_FIRST && marker1 == MARKER_SECOND;
        assert(completion_data.results@ =~= Seq::new(
            expected_tests as nat,
            |i: int| IndividualResult::spec_from(self@.driver.data[i]),
        ));
        TestResult::Completed(completion_data)
    }

    fn handle_access_registers(&mut self)
        ensures
            final(self)@ == old(self)@.access_registers(
                old(self)@.driver.registers[1],
                old(self)@.driver.registers[2],
                16,
            ),
    {
        broadcast use vstd::array::group_array_axioms;

        let write_bitset = self.vm_driver.get_registers()[1];
        let driver_offset = self.vm_driver.get_registers()[2];
        proof {
            self.vm_driver.lemma_well_formed();
            self.vm_testee.lemma_well_formed();
            assert(self@ =~~= old(self)@.access_registers(write_bitset, driver_offset, 0));
        }
        let mut i: u16 = 0;
        while i < 16
            invariant
                i <= 16,
                old(self)@.driver.well_formed(),
                old(self)@.testee.well_formed(),
                self@ == old(self)@.access_registers(write_bitset, driver_offset, i as int),
            decreases 16 - i,
        {
            let should_write_to_testee = (write_bitset >> i) & 1 == 1;
            let offset = driver_offset.wrapping_add(i);
            if should_write_to_testee {
                let word = self.vm_driver.get_data().get(offset);
                self.vm_testee.set_register(i, word);
            } else {
                let word = self.vm_testee.get_registers()[i as usize];
                self.vm_driver.set_data_word(offset, word);
            }
            i = i + 1;
            assert(self@ =~~= old(self)@.access_registers(write_bitset, driver_offset, i as int));
        }
    }

    fn handle_overwrite_data(&mut self)
        ensures
            (final(self)@, None::<TestOutcome>) == old(self)@.command(
                DriverCommand::OverwriteData.spec_code(),
            ),
    {
        broadcast use vstd::array::group_array_axioms;

        let dst_offset = self.vm_driver.get_registers()[1];
        let src_offset = self.vm_driver.get_registers()[2];
        let num_words = self.vm_driver.get_registers()[3];
        copy_segment_words(
            self.vm_driver.get_data(),
            self.vm_testee.get_data_mut(),
            src_offset,
            dst_offset,
            num_words,
        );
    }

    fn handle_read_data(&mut self)
        ensures
            (final(self)@, None::<TestOutcome>) == old(self)@.command(
                DriverCommand::ReadData.spec_code(),
            ),
    {
        broadcast use vstd::array::group_array_axioms;

        let dst_offset = self.vm_driver.get_registers()[1];
        let src_offset = self.vm_driver.get_registers()[2];
        let num_words = self.vm_driver.get_registers()[3];
        copy_segment_words(
            self.vm_testee.get_data(),
            self.vm_driver.get_data_mut(),
            src_offset,
            dst_offset,
            num_words,
        );
    }

    fn handle_read_instructions(&mut self)
        ensures
            (final(self)@, None::<TestOutcome>) == old(self)@.command(
                DriverCommand::ReadInstructions.spec_code(),
            ),
    {
        broadcast use vstd::array::group_array_axioms;

        let dst_offset = self.vm_driver.get_registers()[1];
        let src_offset = self.vm_driver.get_registers()[2];
        let num_words = self.vm_driver.get_registers()[3];
        copy_segment_words(
            self.vm_testee.get_instructions(),
            self.vm_driver.get_data_mut(),
            src_offset,
            dst_offset,
            num_words,
        );
    }

    fn handle_reset_testee_vm(&mut self)
        ensures
            (final(self)@, None::<TestOutcome>) == old(self)@.command(
                DriverCommand::ResetTesteeVM.spec_code(),
            ),
    {
        self.vm_testee.reset();
    }

    fn handle_reset_time_limit(&mut self)
        ensures
            (final(self)@, None::<TestOutcome>) == old(self)@.command(
                DriverCommand::ResetTimeLimit.spec_code(),
            ),
    {
        broadcast use vstd::array::group_array_axioms;

        let regs = self.vm_driver.get_registers();
        self.testee_limit = regs[1] as u64 * 0x1_0000_0000 + regs[2] as u64 * 0x1_0000
            + regs[3] as u64;
    }

    fn handle_set_program_counter(&mut self)
        ensures
            (final(self)@, None::<TestOutcome>) == old(self)@.command(
                DriverCommand::SetProgramCounter.spec_code(),
            ),
    {
        broadcast use vstd::array::group_array_axioms;

        let new_pc = self.vm_driver.get_registers()[1];
        self.vm_testee.set_program_counter(new_pc);
    }

    /// Makes steps until one of them ends the session, or until
    /// `total_budget` steps are counted, which ends it with a timeout.
    pub fn conclude(&mut self, total_budget: u64) -> (result: TestResult)
        requires
            old(self)@.well_formed(),
        ensures
            final(self)@.well_formed(),
            old(self)@.spent() <= total_budget ==> final(self)@.spent() <= total_budget,
            old(self)@.spent() >= total_budget ==> final(self)@ == old(self)@ && result@ is Timeout,
            concluded(old(self)@, total_budget, final(self)@, result@),
    {
        while self.driver_insns + self.testee_insns < total_budget
            invariant
                self@.well_formed(),
                self@.spent() >= old(self)@.spent(),
                old(self)@.spent() <= total_budget ==> self@.spent() <= total_budget,
                old(self)@.spent() >= total_budget ==> self@ == old(self)@,
                session_reaches(old(self)@, self@, (self@.spent() - old(self)@.spent()) as nat),
            decreases total_budget - self@.spent(),
        {
            let ghost before = self@;
            let stepped = self.do_step();
            let ghost drawn = choose|entropy: u64| #[trigger]
                before.step(entropy) == (self@, outcome_of(stepped));
            if let Some(result) = stepped {
                proof {
                    assert(before.step(drawn) == (self@, Some(result@)));
                    if result@ is Timeout {
                        lemma_step_never_times_out(before, drawn);
                    }
                }
                return result;
            }
            proof {
                assert(session_reaches(
                    old(self)@,
                    before,
                    (self@.spent() - 1 - old(self)@.spent()) as nat,
                ) && before.step(drawn) == (self@, None::<TestOutcome>));
            }
        }
        TestResult::Timeout
    }
}

/// Every step of a session is counted once: either for the driver or for
/// the testee, never for both. The session stays well formed.
pub proof fn lemma_session_step(s: SessionState, entropy: u64)
    requires
        s.well_formed(),
        s.spent() < u64::MAX,
    ensures
        s.step(entropy).0.well_formed(),
        s.step(entropy).0.spent() == s.spent() + 1,
        s.testee_remaining > 0 ==> s.step(entropy).0.testee_insns == s.testee_insns + 1
            && s.step(entropy).0.driver_insns == s.driver_insns,
        s.testee_remaining == 0 ==> s.step(entropy).0.driver_insns == s.driver_insns + 1
            && s.step(entropy).0.testee_insns == s.testee_insns,
{
    reveal(SessionState::step);
    if s.testee_remaining > 0 {
        lemma_step_accounting(s.testee, entropy);
        lemma_step_well_formed(s.testee, entropy);
    } else {
        lemma_step_accounting(s.driver, entropy);
        lemma_step_well_formed(s.driver, entropy);
        let counted = SessionState {
            driver: spec_step(s.driver, entropy).0,
            driver_insns: s.driver_insns + 1,
            ..s
        };
        if let StepResult::Yield(command) = spec_step(s.driver, entropy).1 {
            lemma_command_accounting(counted, command);
        }
    }
}

/// No step of a session ends it with a timeout: that is for the budget.
pub proof fn lemma_step_never_times_out(s: SessionState, entropy: u64)
    ensures
        s.step(entropy).1 != Some(TestOutcome::Timeout),
{
    reveal(SessionState::step);
}

/// A command is no step: it leaves the counters and the time of both
/// machines as they were, and the session well formed.
pub proof fn lemma_command_accounting(s: SessionState, command: u16)
    requires
        s.well_formed(),
    ensures
        s.command(command).0.well_formed(),
        s.command(command).0.driver.time == s.driver.time,
        s.command(command).0.testee.time == s.testee.time,
        s.command(command).0.driver_insns == s.driver_insns,
        s.command(command).0.testee_insns == s.testee_insns,
{
}


impl IndividualResult {
    /// The words that describe this result.
    pub open spec fn description(self) -> Seq<char> {
        match self {
            IndividualResult::Pass => "PASS (test was successful)"@,
            IndividualResult::Fail => "FAIL (execution successful, result negative)"@,
            IndividualResult::FatalError => "FATAL (execution of the specific test failed)"@,
            IndividualResult::Skip => "SKIP (test was not executed)"@,
            IndividualResult::Illegal => "ILLEGAL (unknown; could not interpret value)"@,
        }
    }

    /// The words that describe this result, as one string slice.
    pub fn as_str(&self) -> (text: &'static str)
        ensures
            text@ == self.description(),
    {
        match self {
            Self::Pass => "PASS (test was successful)",
            Self::Fail => "FAIL (execution successful, result negative)",
            Self::FatalError => "FATAL (execution of the specific test failed)",
            Self::Skip => "SKIP (test was not executed)",
            Self::Illegal => "ILLEGAL (unknown; could not interpret value)",
        }
    }

    /// The words that describe this result.
    pub fn to_string(&self) -> (text: String)
        ensures
            text@ == self.description(),
    {
        String::from_str(self.as_str())
    }
}

/// The line of the report for the test number `index`, counted from zero,
/// of `count` tests. Both numbers are as wide as the count is.
pub open spec fn report_line(index: nat, count: nat, result: IndividualResult) -> Seq<char> {
    " --["@ + padded_decimal(index + 1, decimal(count).len()) + "/"@ + padded_decimal(
        count,
        decimal(count).len(),
    ) + "]--: "@ + result.description() + "\n"@
}

/// The lines of the report for the first `upto` results.
pub open spec fn report_lines(results: Seq<IndividualResult>, upto: nat) -> Seq<char>
    decreases upto,
{
    if upto == 0 {
        Seq::empty()
    } else {
        report_lines(results, (upto - 1) as nat) + report_line(
            (upto - 1) as nat,
            results.len(),
            results[upto - 1],
        )
    }
}

/// The report of a completed session: a headline with the number of tests,
/// which also says where the marker was missing, and a line for each test.
pub open spec fn report(marker_ok: bool, results: Seq<IndividualResult>) -> Seq<char> {
    "Completed "@ + decimal(results.len()) + " tests."@ + (if marker_ok {
        Seq::empty()
    } else {
        " (FATAL: Inconsistent test count!)"@
    }) + "\n"@ + report_lines(results, results.len())
}

impl CompletionData {
    /// The report of the session, one line for each test.
    pub fn to_string(&self) -> (text: String)
        ensures
            text@ == report(self.consistent_marker, self.results@),
    {
        let count = self.results.len();
        let mut text = String::from_str("Completed ");
        push_decimal(&mut text, count as u64);
        text.append(" tests.");
        if !self.consistent_marker {
            text.append(" (FATAL: Inconsistent test count!)");
        }
        text.append("\n");
        let ghost headline = text@;
        let width = decimal_len(count as u64);
        let mut i: usize = 0;
        assert(text@ =~= headline + report_lines(self.results@, 0));
        while i < count
            invariant
                i <= count,
                count == self.results@.len(),
                width == decimal(count as nat).len(),
                text@ == headline + report_lines(self.results@, i as nat),
            decreases count - i,
        {
            let ghost before = text@;
            text.append(" --[");
            push_padded_decimal(&mut text, (i + 1) as u64, width);
            text.append("/");
            push_padded_decimal(&mut text, count as u64, width);
            text.append("]--: ");
            text.append(self.results[i].as_str());
            text.append("\n");
            i = i + 1;
            assert(text@ =~= before + report_line(
                (i - 1) as nat,
                count as nat,
                self.results@[i - 1],
            ));
            assert(text@ =~= headline + report_lines(self.results@, i as nat));
        }
        assert(text@ =~= report(self.consistent_marker, self.results@));
        text
    }
}

impl TestOutcome {
    /// How the end of a session reads.
    pub open spec fn text(self) -> Seq<char> {
        match self {
            TestOutcome::IllegalInstruction(instruction) => {
                "Attempted to execute illegal instruction: 0x"@ + hex_word(instruction) + "\n"@
            },
            TestOutcome::IllegalYield(value) => {
                "Attempted to execute illegal yield/command: "@ + decimal(value as nat) + "\n"@
            },
            TestOutcome::Timeout => "Timeout\n"@,
            TestOutcome::Completed { marker_ok, results } => report(marker_ok, results),
        }
    }
}

impl TestResult {
    /// How the end of the session reads.
    pub fn to_string(&self) -> (text: String)
        ensures
            text@ == self@.text(),
    {
        match self {
            Self::IllegalInstruction(insn) => {
                let mut text = String::from_str("Attempted to execute illegal instruction: 0x");
                push_hex_word(&mut text, *insn);
                text.append("\n");
                text
            },
            Self::IllegalYield(value) => {
                let mut text = String::from_str("Attempted to execute illegal yield/command: ");
                push_decimal(&mut text, *value as u64);
                text.append("\n");
                text
            },
            Self::Timeout => String::from_str("Timeout\n"),
            Self::Completed(completion_data) => completion_data.to_string(),
        }
    }
}


/// The first `upto` registers as decimal numbers with commas between them.
pub open spec fn register_list(registers: Seq<u16>, upto: nat) -> Seq<char>
    decreases upto,
{
    if upto == 0 {
        Seq::empty()
    } else if upto == 1 {
        decimal(registers[0] as nat)
    } else {
        register_list(registers, (upto - 1) as nat) + ", "@ + decimal(registers[upto - 1] as nat)
    }
}

/// How the registers of a machine read: decimal numbers in square brackets.
pub open spec fn registers_text(registers: Seq<u16>) -> Seq<char> {
    "["@ + register_list(registers, 16) + "]"@
}

/// What is told of a session at its end: where the two machines stand,
/// their registers and their data, and the result.
pub open spec fn session_text(session: SessionState, outcome: TestOutcome) -> Seq<char> {
    "Final program counter: "@ + hex_word(session.driver.program_counter) + "@driver, "@ + hex_word(
        session.testee.program_counter,
    ) + "@testee\nDebug dump:\n Testee Registers "@ + registers_text(session.testee.registers)
        + "\n Testee "@ + segment_text(session.testee.data) + "\n Driver Registers "@
        + registers_text(session.driver.registers) + "\n Driver "@ + segment_text(
        session.driver.data,
    ) + "\n"@ + outcome.text() + "\n"@
}

/// Appends to `text` how the registers read.
fn push_registers(text: &mut String, registers: &[u16; 16])
    ensures
        final(text)@ == old(text)@ + registers_text(registers@),
{
    broadcast use vstd::array::group_array_axioms;

    text.append("[");
    let ghost head = text@;
    let mut i: usize = 0;
    assert(text@ =~= head + register_list(registers@, 0));
    while i < 16
        invariant
            i <= 16,
            text@ == head + register_list(registers@, i as nat),
        decreases 16 - i,
    {
        if i > 0 {
            text.append(", ");
        }
        push_decimal(text, registers[i] as u64);
        i = i + 1;
        assert(text@ =~= head + register_list(registers@, i as nat));
    }
    text.append("]");
    assert(text@ =~= old(text)@ + registers_text(registers@));
}

impl TestDriverData {
    /// What is told of the session once it has ended with `result`.
    pub fn format_report(&self, result: &TestResult) -> (text: String)
        ensures
            text@ == session_text(self@, result@),
    {
        let mut text = String::from_str("Final program counter: ");
        push_hex_word(&mut text, self.vm_driver.get_program_counter());
        text.append("@driver, ");
        push_hex_word(&mut text, self.vm_testee.get_program_counter());
        text.append("@testee\nDebug dump:\n Testee Registers ");
        push_registers(&mut text, self.vm_testee.get_registers());
        text.append("\n Testee ");
        let testee_data = self.vm_testee.get_data().debug_string();
        text.append(testee_data.as_str());
        text.append("\n Driver Registers ");
        push_registers(&mut text, self.vm_driver.get_registers());
        text.append("\n Driver ");
        let driver_data = self.vm_driver.get_data().debug_string();
        text.append(driver_data.as_str());
        text.append("\n");
        let ending = result.to_string();
        text.append(ending.as_str());
        text.append("\n");
        assert(text@ =~= session_text(self@, result@));
        text
    }
}

/// Runs the driver program with its testee until the session ends or
/// `total_budget` steps are counted. Returns what is told of the session,
/// and whether it was good.
pub fn run_tests(
    driver_instructions: &Segment,
    testee_instructions: &Segment,
    total_budget: u64,
) -> (told: (String, bool))
    ensures
        exists|session: SessionState, outcome: TestOutcome|
            {
                &&& #[trigger] concluded(
                    SessionState::initial(driver_instructions@, testee_instructions@),
                    total_budget,
                    session,
                    outcome,
                )
                &&& session.spent() <= total_budget
                &&& told.0@ == session_text(session, outcome)
                &&& told.1 == outcome.good()
            },
{
    let mut test_driver_data = TestDriverData::new(
        driver_instructions.clone(),
        testee_instructions.clone(),
    );
    let result = test_driver_data.conclude(total_budget);
    let text = test_driver_data.format_report(&result);
    let good = result.is_good();
    assert(concluded(
        SessionState::initial(driver_instructions@, testee_instructions@),
        total_budget,
        test_driver_data@,
        result@,
    ));
    (text, good)
}

} // verus!
