//! The workspace's toy register machine: 16 registers of 32 bits
//! (register 0 is the instruction pointer), 4096 bytes of memory, and
//! an instruction set of eight opcodes.  Output instructions write to a
//! caller-supplied byte sink.
//!
//! Every step of the machine is specified by the pure function
//! [`step_model`]; the executable stepper is proved to follow it
//! exactly, with the one proviso that the byte sink may refuse a write,
//! in which case the registers and memory still advance as the model
//! says and the sink holds a proper prefix of the modelled output.

use vstd::prelude::*;

verus! {

/// Bytes of machine memory.
pub const MEMORY_SIZE: usize = 4096;

/// Number of registers.
pub const NREGS: usize = 16;

/// The register used as instruction pointer.
pub const IP: usize = 0;

/// Why a machine step failed.
#[derive(Clone, Copy, Debug, PartialEq, Eq, Structural)]
pub enum MachineError {
    /// A register operand is not in `0..16`.
    RegisterDoesntExist,
    /// The output sink refused a byte.
    ErrWritingToFd,
    /// The opcode is not one the machine knows.
    NoEquivalentOpcode,
    /// The instruction pointer or the instruction's operands fall
    /// outside memory.
    NoEquivalentInstrAddress,
    /// A store would run past the end of memory.
    StoreReachEndOfMemory,
    /// A load would run past the end of memory.
    LoadReachEndOfMemory,
}

/// The abstract machine state: register file and memory.
#[verifier::ext_equal]
pub struct MachineModel {
    pub regs: Seq<u32>,
    pub mem: Seq<u8>,
}

/// A well-formed machine state.
pub open spec fn model_wf(m: MachineModel) -> bool {
    &&& m.regs.len() == NREGS
    &&& m.mem.len() == MEMORY_SIZE
}

/// What one machine step does: the next state, the bytes the step
/// writes to the sink, and the step's verdict (`Ok(true)` halt,
/// `Ok(false)` continue, or an error).
#[verifier::ext_equal]
pub struct StepEffect {
    pub next: MachineModel,
    pub out: Seq<u8>,
    pub result: Result<bool, MachineError>,
}

/// Bytes each opcode occupies, operands included.
pub open spec fn instr_size(op: u8) -> int {
    if op == 1 {
        4
    } else if op == 2 {
        3
    } else if op == 3 {
        3
    } else if op == 4 {
        4
    } else if op == 5 {
        4
    } else if op == 6 {
        2
    } else if op == 7 {
        1
    } else if op == 8 {
        2
    } else {
        1
    }
}

/// Byte `k` of the little-endian encoding of `v`.
pub open spec fn le_byte(v: u32, k: int) -> u8 {
    if k == 0 {
        (v as int % 256) as u8
    } else if k == 1 {
        (v as int / 256 % 256) as u8
    } else if k == 2 {
        (v as int / 65536 % 256) as u8
    } else {
        (v as int / 16777216 % 256) as u8
    }
}

/// The little-endian 32-bit word stored at `adr`.
pub open spec fn word_at(mem: Seq<u8>, adr: int) -> u32
    recommends
        0 <= adr,
        adr + 4 <= mem.len(),
{
    (mem[adr] + 256 * (mem[adr + 1] as int) + 65536 * (mem[adr + 2] as int) + 16777216 * (mem[adr
        + 3] as int)) as u32
}

/// The 16-bit immediate `(low, high)` sign-extended to 32 bits.
pub open spec fn imm_value(low: u8, high: u8) -> u32 {
    let x = low + 256 * (high as int);
    if x >= 32768 {
        (x + 0xFFFF0000) as u32
    } else {
        x as u32
    }
}

/// `a - b` wrapping around 2^32.
pub open spec fn wrap_sub(a: u32, b: u32) -> u32 {
    if a - b < 0 {
        (a - b + 0x1_0000_0000) as u32
    } else {
        (a - b) as u32
    }
}

/// `v` reinterpreted as a signed 32-bit value.
pub open spec fn as_i32(v: u32) -> int {
    if v >= 0x8000_0000 {
        v - 0x1_0000_0000
    } else {
        v as int
    }
}

/// The UTF-8 encoding of the char with code point `c` (one byte below
/// 128, two bytes above, as formatting a `char` made from a byte
/// writes it).
pub open spec fn utf8_of(c: u8) -> Seq<u8> {
    if c < 128 {
        seq![c]
    } else {
        seq![(192 + c / 64) as u8, (128 + c % 64) as u8]
    }
}

/// The decimal digits of `n`, most significant first, as ASCII bytes.
pub open spec fn dec_digits(n: int) -> Seq<u8>
    recommends
        n >= 0,
    decreases n,
{
    if n < 10 {
        seq![(48 + n) as u8]
    } else {
        dec_digits(n / 10).push((48 + n % 10) as u8)
    }
}

/// The ASCII rendering of the signed value `v`: a minus sign and then
/// the decimal digits of its magnitude.
pub open spec fn int_digits(v: int) -> Seq<u8> {
    if v < 0 {
        seq![45u8] + dec_digits(-v)
    } else {
        dec_digits(v)
    }
}

/// The sink wrote some but not all of `intended`: `post` extends `pre`
/// by a proper prefix of it.
pub open spec fn partial_write(pre: Seq<u8>, post: Seq<u8>, intended: Seq<u8>) -> bool {
    exists|k: int| 0 <= k < intended.len() && post == pre + intended.subrange(0, k)
}

/// One machine step from state `m`, on the assumption that every
/// output byte is accepted by the sink.
///
/// The step decodes the opcode at the instruction pointer, advances the
/// pointer by the instruction's size, and executes it.  An instruction
/// pointer outside memory, or an instruction whose operand bytes would
/// run past the end of memory, is an addressing error and leaves the
/// state unchanged.
pub open spec fn step_model(m: MachineModel) -> StepEffect
    recommends
        model_wf(m),
{
    let ip = m.regs[0] as int;
    if ip >= MEMORY_SIZE || ip + instr_size(m.mem[ip]) > MEMORY_SIZE {
        StepEffect { next: m, out: Seq::empty(), result: Err(MachineError::NoEquivalentInstrAddress) }
    } else {
        let op = m.mem[ip];
        let regs1 = m.regs.update(0, (ip + instr_size(op)) as u32);
        let m1 = MachineModel { regs: regs1, ..m };
        if op == 1 {
            let a = m.mem[ip + 1];
            let b = m.mem[ip + 2];
            let c = m.mem[ip + 3];
            if a > 15 || b > 15 || c > 15 {
                StepEffect { next: m1, out: Seq::empty(), result: Err(MachineError::RegisterDoesntExist) }
            } else if regs1[c as int] != 0 {
                StepEffect {
                    next: MachineModel { regs: regs1.update(a as int, regs1[b as int]), ..m },
                    out: Seq::empty(),
                    result: Ok(false),
                }
            } else {
                StepEffect { next: m1, out: Seq::empty(), result: Ok(false) }
            }
        } else if op == 2 {
            let a = m.mem[ip + 1];
            let b = m.mem[ip + 2];
            if a > 15 || b > 15 {
                StepEffect { next: m1, out: Seq::empty(), result: Err(MachineError::RegisterDoesntExist) }
            } else {
                let adr = regs1[a as int] as int;
                if adr > MEMORY_SIZE - 4 {
                    StepEffect {
                        next: m1,
                        out: Seq::empty(),
                        result: Err(MachineError::StoreReachEndOfMemory),
                    }
                } else {
                    let v = regs1[b as int];
                    StepEffect {
                        next: MachineModel {
                            regs: regs1,
                            mem: m.mem.update(adr, le_byte(v, 0)).update(adr + 1, le_byte(v, 1))
                                .update(adr + 2, le_byte(v, 2)).update(adr + 3, le_byte(v, 3)),
                        },
                        out: Seq::empty(),
                        result: Ok(false),
                    }
                }
            }
        } else if op == 3 {
            let a = m.mem[ip + 1];
            let b = m.mem[ip + 2];
            if a > 15 || b > 15 {
                StepEffect { next: m1, out: Seq::empty(), result: Err(MachineError::RegisterDoesntExist) }
            } else {
                let adr = regs1[b as int] as int;
                if adr > MEMORY_SIZE - 4 {
                    StepEffect {
                        next: m1,
                        out: Seq::empty(),
                        result: Err(MachineError::LoadReachEndOfMemory),
                    }
                } else {
                    StepEffect {
                        next: MachineModel {
                            regs: regs1.update(a as int, word_at(m.mem, adr)),
                            ..m
                        },
                        out: Seq::empty(),
                        result: Ok(false),
                    }
                }
            }
        } else if op == 4 {
            let a = m.mem[ip + 1];
            let low = m.mem[ip + 2];
            let high = m.mem[ip + 3];
            if a > 15 {
                StepEffect { next: m1, out: Seq::empty(), result: Err(MachineError::RegisterDoesntExist) }
            } else {
                StepEffect {
                    next: MachineModel { regs: regs1.update(a as int, imm_value(low, high)), ..m },
                    out: Seq::empty(),
                    result: Ok(false),
                }
            }
        } else if op == 5 {
            let a = m.mem[ip + 1];
            let b = m.mem[ip + 2];
            let c = m.mem[ip + 3];
            if a > 15 || b > 15 || c > 15 {
                StepEffect { next: m1, out: Seq::empty(), result: Err(MachineError::RegisterDoesntExist) }
            } else {
                StepEffect {
                    next: MachineModel {
                        regs: regs1.update(a as int, wrap_sub(regs1[b as int], regs1[c as int])),
                        ..m
                    },
                    out: Seq::empty(),
                    result: Ok(false),
                }
            }
        } else if op == 6 {
            let a = m.mem[ip + 1];
            if a > 15 {
                StepEffect { next: m1, out: Seq::empty(), result: Err(MachineError::RegisterDoesntExist) }
            } else {
                StepEffect { next: m1, out: utf8_of(le_byte(regs1[a as int], 0)), result: Ok(false) }
            }
        } else if op == 7 {
            StepEffect { next: m1, out: Seq::empty(), result: Ok(true) }
        } else if op == 8 {
            let a = m.mem[ip + 1];
            if a > 15 {
                StepEffect { next: m1, out: Seq::empty(), result: Err(MachineError::RegisterDoesntExist) }
            } else {
                StepEffect { next: m1, out: int_digits(as_i32(regs1[a as int])), result: Ok(false) }
            }
        } else {
            StepEffect { next: m1, out: Seq::empty(), result: Err(MachineError::NoEquivalentOpcode) }
        }
    }
}

/// The effect of running at most `n` steps: the state and output
/// reached, and `Some` verdict if the run ended (by the exit
/// instruction or an error) within those steps.
#[verifier::ext_equal]
pub struct RunEffect {
    pub state: MachineModel,
    pub out: Seq<u8>,
    pub outcome: Option<Result<(), MachineError>>,
}

/// Run [`step_model`] up to `n` times, stopping at the exit
/// instruction or at the first error.
pub open spec fn run_model(m: MachineModel, n: nat) -> RunEffect
    decreases n,
{
    if n == 0 {
        RunEffect { state: m, out: Seq::empty(), outcome: None }
    } else {
        let eff = step_model(m);
        match eff.result {
            Ok(true) => RunEffect { state: eff.next, out: eff.out, outcome: Some(Ok(())) },
            Ok(false) => {
                let rest = run_model(eff.next, (n - 1) as nat);
                RunEffect { state: rest.state, out: eff.out + rest.out, outcome: rest.outcome }
            },
            Err(e) => RunEffect { state: eff.next, out: eff.out, outcome: Some(Err(e)) },
        }
    }
}

/// A run that has not ended after `n` steps continues with one more
/// step of [`step_model`].
proof fn lemma_run_extend(m: MachineModel, n: nat)
    requires
        run_model(m, n).outcome is None,
    ensures
        run_model(m, n + 1).state == step_model(run_model(m, n).state).next,
        run_model(m, n + 1).out == run_model(m, n).out + step_model(run_model(m, n).state).out,
        run_model(m, n + 1).outcome == (match step_model(run_model(m, n).state).result {
            Ok(true) => Some(Ok::<(), MachineError>(())),
            Ok(false) => None::<Result<(), MachineError>>,
            Err(e) => Some(Err::<(), MachineError>(e)),
        }),
    decreases n,
{
    let eff = step_model(m);
    if n == 0 {
        assert(Seq::<u8>::empty() + eff.out =~= eff.out);
        match eff.result {
            Ok(true) => {},
            Ok(false) => {
                assert(run_model(eff.next, 0).out =~= Seq::<u8>::empty());
                assert(eff.out + Seq::<u8>::empty() =~= eff.out);
            },
            Err(_) => {},
        }
    } else {
        match eff.result {
            Ok(false) => {
                lemma_run_extend(eff.next, (n - 1) as nat);
                let rest = run_model(eff.next, (n - 1) as nat);
                let next_step = step_model(rest.state);
                assert(eff.out + (rest.out + next_step.out) =~= (eff.out + rest.out) + next_step.out);
            },
            _ => {},
        }
    }
}

/// A byte sink for the machine's output instructions.  The firmware
/// plugs in whatever transport it has; [`BufferPort`] is the in-memory
/// implementation.
pub trait OutputPort {
    /// The bytes the sink has accepted so far.
    spec fn stream(&self) -> Seq<u8>;

    /// Offer one byte to the sink.  The sink may refuse it — a full
    /// pipe — in which case it keeps its stream unchanged.
    fn write_byte(&mut self, byte: u8) -> (result: Result<(), ()>)
        ensures
            result is Ok ==> final(self).stream() == old(self).stream().push(byte),
            result is Err ==> final(self).stream() == old(self).stream(),
    ;
}

/// An in-memory byte sink, optionally bounded; a bounded port refuses
/// bytes once full, the way a full pipe would.
pub struct BufferPort {
    data: Vec<u8>,
    limit: Option<usize>,
}

impl OutputPort for BufferPort {
    closed spec fn stream(&self) -> Seq<u8> {
        self.data@
    }

    fn write_byte(&mut self, byte: u8) -> (result: Result<(), ()>) {
        match self.limit {
            Some(limit) => {
                if self.data.len() >= limit {
                    Err(())
                } else {
                    self.data.push(byte);
                    Ok(())
                }
            },
            None => {
                self.data.push(byte);
                Ok(())
            },
        }
    }
}

impl BufferPort {
    /// An empty, unbounded sink.
    pub fn new() -> (result: Self)
        ensures
            result.stream() == Seq::<u8>::empty(),
    {
        BufferPort { data: Vec::new(), limit: None }
    }

    /// An empty sink that accepts at most `limit` bytes.
    pub fn with_limit(limit: usize) -> (result: Self)
        ensures
            result.stream() == Seq::<u8>::empty(),
    {
        BufferPort { data: Vec::new(), limit: Some(limit) }
    }

    /// The bytes accepted so far.
    pub fn bytes(&self) -> (result: &Vec<u8>)
        ensures
            result@ == self.stream(),
    {
        &self.data
    }
}

/// Write the UTF-8 encoding of the char with code point `c`.
fn write_utf8<T: OutputPort>(fd: &mut T, c: u8) -> (result: Result<(), ()>)
    ensures
        result is Ok ==> final(fd).stream() == old(fd).stream() + utf8_of(c),
        result is Err ==> partial_write(old(fd).stream(), final(fd).stream(), utf8_of(c)),
{
    if c < 128 {
        match fd.write_byte(c) {
            Ok(_) => {
                proof {
                    assert(final(fd).stream() =~= old(fd).stream() + utf8_of(c));
                }
                Ok(())
            },
            Err(_) => {
                proof {
                    assert(final(fd).stream() =~= old(fd).stream() + utf8_of(c).subrange(0, 0));
                }
                Err(())
            },
        }
    } else {
        match fd.write_byte(192 + c / 64) {
            Ok(_) => {},
            Err(_) => {
                proof {
                    assert(final(fd).stream() =~= old(fd).stream() + utf8_of(c).subrange(0, 0));
                }
                return Err(());
            },
        }
        match fd.write_byte(128 + c % 64) {
            Ok(_) => {
                proof {
                    assert(final(fd).stream() =~= old(fd).stream() + utf8_of(c));
                }
                Ok(())
            },
            Err(_) => {
                proof {
                    assert(final(fd).stream() =~= old(fd).stream() + utf8_of(c).subrange(0, 1));
                }
                Err(())
            },
        }
    }
}

/// Write the decimal digits of `n`, most significant first.
fn write_unsigned_dec<T: OutputPort>(fd: &mut T, n: u32) -> (result: Result<(), ()>)
    ensures
        result is Ok ==> final(fd).stream() == old(fd).stream() + dec_digits(n as int),
        result is Err ==> partial_write(old(fd).stream(), final(fd).stream(), dec_digits(n as int)),
    decreases n,
{
    let ghost digits = dec_digits(n as int);
    if n >= 10 {
        let ghost lead = dec_digits(n as int / 10);
        match write_unsigned_dec(fd, n / 10) {
            Ok(_) => {},
            Err(_) => {
                proof {
                    let k = choose|k: int|
                        0 <= k < lead.len() && final(fd).stream() == old(fd).stream()
                            + lead.subrange(0, k);
                    assert(digits.subrange(0, k) =~= lead.subrange(0, k));
                    assert(partial_write(old(fd).stream(), final(fd).stream(), digits));
                }
                return Err(());
            },
        }
    }
    match fd.write_byte(48 + (n % 10) as u8) {
        Ok(_) => {
            proof {
                assert(final(fd).stream() =~= old(fd).stream() + digits);
            }
            Ok(())
        },
        Err(_) => {
            proof {
                if n >= 10 {
                    let ghost lead = dec_digits(n as int / 10);
                    assert(digits.subrange(0, digits.len() - 1) =~= lead);
                    assert(final(fd).stream() == old(fd).stream() + digits.subrange(
                        0,
                        digits.len() - 1,
                    ));
                } else {
                    assert(final(fd).stream() =~= old(fd).stream() + digits.subrange(0, 0));
                }
                assert(partial_write(old(fd).stream(), final(fd).stream(), digits));
            }
            Err(())
        },
    }
}

/// Write the signed decimal rendering of `value`.
fn write_signed_dec<T: OutputPort>(fd: &mut T, value: u32) -> (result: Result<(), ()>)
    ensures
        result is Ok ==> final(fd).stream() == old(fd).stream() + int_digits(as_i32(value)),
        result is Err ==> partial_write(
            old(fd).stream(),
            final(fd).stream(),
            int_digits(as_i32(value)),
        ),
{
    let ghost rendered = int_digits(as_i32(value));
    if value >= 0x8000_0000 {
        match fd.write_byte(45) {
            Ok(_) => {},
            Err(_) => {
                proof {
                    assert(final(fd).stream() =~= old(fd).stream() + rendered.subrange(0, 0));
                }
                return Err(());
            },
        }
        let magnitude: u32 = (0xFFFF_FFFFu32 - value) + 1;
        proof {
            assert(magnitude as int == -as_i32(value));
        }
        match write_unsigned_dec(fd, magnitude) {
            Ok(_) => {
                proof {
                    assert(final(fd).stream() =~= old(fd).stream() + rendered);
                }
                Ok(())
            },
            Err(_) => {
                proof {
                    let mid = old(fd).stream().push(45u8);
                    let mag_digits = dec_digits(magnitude as int);
                    let k = choose|k: int|
                        0 <= k < mag_digits.len() && final(fd).stream() == mid + mag_digits.subrange(
                            0,
                            k,
                        );
                    assert(rendered.subrange(0, k + 1) =~= mid.subrange(
                        old(fd).stream().len() as int,
                        mid.len() as int,
                    ) + mag_digits.subrange(0, k));
                    assert(final(fd).stream() =~= old(fd).stream() + rendered.subrange(0, k + 1));
                    assert(partial_write(old(fd).stream(), final(fd).stream(), rendered));
                }
                Err(())
            },
        }
    } else {
        write_unsigned_dec(fd, value)
    }
}

/// The register machine.
pub struct Machine {
    regs: Vec<u32>,
    mem: Vec<u8>,
}

impl View for Machine {
    type V = MachineModel;

    closed spec fn view(&self) -> MachineModel {
        MachineModel { regs: self.regs@, mem: self.mem@ }
    }
}

impl Machine {
    /// A well-formed machine has 16 registers and 4096 bytes of memory.
    pub open spec fn wf(&self) -> bool {
        model_wf(self@)
    }

    /// A machine in its reset state: all registers zero, `program`
    /// copied to the start of memory and the rest zero-filled.
    pub fn new(program: &[u8]) -> (result: Self)
        requires
            program@.len() <= MEMORY_SIZE,
        ensures
            result.wf(),
            result@.regs == Seq::new(NREGS as nat, |i: int| 0u32),
            result@.mem == program@ + Seq::new((MEMORY_SIZE - program@.len()) as nat, |i: int| 0u8),
    {
        let regs: Vec<u32> = vec![0u32; NREGS];
        let mut mem: Vec<u8> = vec![0u8; MEMORY_SIZE];
        let mut i: usize = 0;
        while i < program.len()
            invariant
                program@.len() <= MEMORY_SIZE,
                i <= program@.len(),
                mem@.len() == MEMORY_SIZE,
                forall|k: int| 0 <= k < i ==> mem@[k] == program@[k],
                forall|k: int| i <= k < MEMORY_SIZE ==> mem@[k] == 0u8,
            decreases program@.len() - i,
        {
            mem[i] = program[i];
            i = i + 1;
        }
        let result = Machine { regs, mem };
        proof {
            assert(result@.regs =~= Seq::new(NREGS as nat, |i: int| 0u32));
            assert(result@.mem =~= program@ + Seq::new(
                (MEMORY_SIZE - program@.len()) as nat,
                |i: int| 0u8,
            ));
        }
        result
    }

    /// The machine's registers.
    pub fn regs(&self) -> (result: &[u32])
        ensures
            result@ == self@.regs,
    {
        self.regs.as_slice()
    }

    /// The machine's memory.
    pub fn memory(&self) -> (result: &[u8])
        ensures
            result@ == self@.mem,
    {
        self.mem.as_slice()
    }

    /// Set register `reg` to `value`; registers beyond the register
    /// file do not exist.
    pub fn set_reg(&mut self, reg: usize, value: u32) -> (result: Result<(), MachineError>)
        requires
            old(self).wf(),
        ensures
            final(self).wf(),
            reg < NREGS ==> result == Ok::<(), MachineError>(()) && final(self)@ == (MachineModel {
                regs: old(self)@.regs.update(reg as int, value),
                ..old(self)@
            }),
            reg >= NREGS ==> result == Err::<(), MachineError>(MachineError::RegisterDoesntExist)
                && final(self)@ == old(self)@,
    {
        if reg > 15 {
            return Err(MachineError::RegisterDoesntExist);
        }
        self.regs[reg] = value;
        proof {
            assert(final(self)@ =~~= MachineModel {
                regs: old(self)@.regs.update(reg as int, value),
                ..old(self)@
            });
        }
        Ok(())
    }

    /// Run the machine until the program exits, an error happens, or
    /// `max_steps` instructions have been executed, writing output to
    /// `fd`.
    ///
    /// `Ok(true)` means the program exited; `Ok(false)` means the step
    /// budget ran out first.  Whatever the outcome, the machine ends in
    /// the state [`run_model`] reaches in some number of steps within
    /// the budget, with the sink extended by that run's output — or by
    /// a prefix of it when the verdict is `Err(ErrWritingToFd)`.
    pub fn run_on<T: OutputPort>(&mut self, fd: &mut T, max_steps: usize) -> (result: Result<
        bool,
        MachineError,
    >)
        requires
            old(self).wf(),
        ensures
            final(self).wf(),
            result == Ok::<bool, MachineError>(true) ==> exists|n: nat|
                #![trigger run_model(old(self)@, n)]
                1 <= n <= max_steps && run_model(old(self)@, n).outcome == Some(
                    Ok::<(), MachineError>(()),
                ) && final(self)@ == run_model(old(self)@, n).state && final(fd).stream() == old(
                    fd,
                ).stream() + run_model(old(self)@, n).out,
            result == Ok::<bool, MachineError>(false) ==> run_model(
                old(self)@,
                max_steps as nat,
            ).outcome is None && final(self)@ == run_model(old(self)@, max_steps as nat).state
                && final(fd).stream() == old(fd).stream() + run_model(
                old(self)@,
                max_steps as nat,
            ).out,
            result is Err && result != Err::<bool, MachineError>(MachineError::ErrWritingToFd)
                ==> exists|n: nat|
                #![trigger run_model(old(self)@, n)]
                1 <= n <= max_steps && run_model(old(self)@, n).outcome == Some(
                    Err::<(), MachineError>(result->Err_0),
                ) && final(self)@ == run_model(old(self)@, n).state && final(fd).stream() == old(
                    fd,
                ).stream() + run_model(old(self)@, n).out,
            result == Err::<bool, MachineError>(MachineError::ErrWritingToFd) ==> exists|n: nat|
                #![trigger run_model(old(self)@, n)]
                1 <= n <= max_steps && final(self)@ == run_model(old(self)@, n).state && old(
                    fd,
                ).stream().is_prefix_of(final(fd).stream()) && final(fd).stream().is_prefix_of(
                    old(fd).stream() + run_model(old(self)@, n).out,
                ),
    {
        let ghost start = old(self)@;
        proof {
            assert(old(fd).stream() + Seq::<u8>::empty() =~= old(fd).stream());
        }
        let mut steps: usize = 0;
        while steps < max_steps
            invariant
                self.wf(),
                steps <= max_steps,
                start == old(self)@,
                run_model(start, steps as nat).outcome is None,
                self@ == run_model(start, steps as nat).state,
                fd.stream() == old(fd).stream() + run_model(start, steps as nat).out,
            decreases max_steps - steps,
        {
            let ghost pre = run_model(start, steps as nat);
            let ghost eff = step_model(pre.state);
            let stepped = self.step_on(fd);
            proof {
                lemma_run_extend(start, steps as nat);
            }
            match stepped {
                Ok(false) => {
                    steps = steps + 1;
                },
                Ok(true) => {
                    proof {
                        assert(run_model(start, steps as nat + 1).outcome == Some(
                            Ok::<(), MachineError>(()),
                        ));
                    }
                    return Ok(true);
                },
                Err(MachineError::ErrWritingToFd) => {
                    proof {
                        let n = steps as nat + 1;
                        if eff.result == Ok::<bool, MachineError>(false) {
                            let k = choose|k: int|
                                0 <= k < eff.out.len() && fd.stream() == (old(fd).stream()
                                    + pre.out) + eff.out.subrange(0, k);
                            assert(run_model(start, n).out == pre.out + eff.out);
                            assert(fd.stream() =~= (old(fd).stream() + run_model(start, n).out)
                                .subrange(
                                0,
                                old(fd).stream().len() + pre.out.len() + k,
                            ));
                            assert(old(fd).stream() =~= fd.stream().subrange(
                                0,
                                old(fd).stream().len() as int,
                            ));
                        } else {
                            assert(stepped == eff.result);
                            assert(false);
                        }
                    }
                    return Err(MachineError::ErrWritingToFd);
                },
                Err(other) => {
                    proof {
                        assert(stepped == eff.result);
                        assert(run_model(start, steps as nat + 1).outcome == Some(
                            Err::<(), MachineError>(other),
                        ));
                    }
                    return Err(other);
                },
            }
        }
        Ok(false)
    }

    /// Execute the instruction at the instruction pointer: decode it,
    /// advance the pointer by its size, and perform it, writing any
    /// output to `fd`.
    ///
    /// The registers and memory always end up exactly where
    /// [`step_model`] puts them.  So does the verdict and the sink,
    /// unless the sink refused a byte: then the verdict is
    /// `Err(ErrWritingToFd)` and the sink holds a proper prefix of the
    /// modelled output.
    pub fn step_on<T: OutputPort>(&mut self, fd: &mut T) -> (result: Result<bool, MachineError>)
        requires
            old(self).wf(),
        ensures
            final(self).wf(),
            final(self)@ == step_model(old(self)@).next,
            result != Err::<bool, MachineError>(MachineError::ErrWritingToFd) ==> result
                == step_model(old(self)@).result && final(fd).stream() == old(fd).stream()
                + step_model(old(self)@).out,
            result == Err::<bool, MachineError>(MachineError::ErrWritingToFd) ==> step_model(
                old(self)@,
            ).result == Ok::<bool, MachineError>(false) && partial_write(
                old(fd).stream(),
                final(fd).stream(),
                step_model(old(self)@).out,
            ),
    {
        let ghost eff = step_model(old(self)@);
        let ip: usize = self.regs[IP] as usize;
        if ip >= MEMORY_SIZE {
            return Err(MachineError::NoEquivalentInstrAddress);
        }
        let op: u8 = self.mem[ip];
        let size: usize = if op == 1 {
            4
        } else if op == 2 {
            3
        } else if op == 3 {
            3
        } else if op == 4 {
            4
        } else if op == 5 {
            4
        } else if op == 6 {
            2
        } else if op == 7 {
            1
        } else if op == 8 {
            2
        } else {
            1
        };
        proof {
            assert(size == instr_size(op));
        }
        if ip + size > MEMORY_SIZE {
            return Err(MachineError::NoEquivalentInstrAddress);
        }
        self.regs[IP] = (ip + size) as u32;
        if op == 1 {
            let a = self.mem[ip + 1];
            let b = self.mem[ip + 2];
            let c = self.mem[ip + 3];
            if a > 15 || b > 15 || c > 15 {
                proof {
                    assert(final(self)@ =~~= eff.next);
                }
                return Err(MachineError::RegisterDoesntExist);
            }
            if self.regs[c as usize] != 0 {
                let v = self.regs[b as usize];
                self.regs[a as usize] = v;
            }
            proof {
                assert(final(self)@ =~~= eff.next);
            }
            Ok(false)
        } else if op == 2 {
            let a = self.mem[ip + 1];
            let b = self.mem[ip + 2];
            if a > 15 || b > 15 {
                proof {
                    assert(final(self)@ =~~= eff.next);
                }
                return Err(MachineError::RegisterDoesntExist);
            }
            let adr: usize = self.regs[a as usize] as usize;
            if adr > MEMORY_SIZE - 4 {
                proof {
                    assert(final(self)@ =~~= eff.next);
                }
                return Err(MachineError::StoreReachEndOfMemory);
            }
            let v: u32 = self.regs[b as usize];
            self.mem[adr] = (v % 256) as u8;
            self.mem[adr + 1] = (v / 256 % 256) as u8;
            self.mem[adr + 2] = (v / 65536 % 256) as u8;
            self.mem[adr + 3] = (v / 16777216 % 256) as u8;
            proof {
                assert(final(self)@ =~~= eff.next);
            }
            Ok(false)
        } else if op == 3 {
            let a = self.mem[ip + 1];
            let b = self.mem[ip + 2];
            if a > 15 || b > 15 {
                proof {
                    assert(final(self)@ =~~= eff.next);
                }
                return Err(MachineError::RegisterDoesntExist);
            }
            let adr: usize = self.regs[b as usize] as usize;
            if adr > MEMORY_SIZE - 4 {
                proof {
                    assert(final(self)@ =~~= eff.next);
                }
                return Err(MachineError::LoadReachEndOfMemory);
            }
            let value: u32 = self.mem[adr] as u32 + 256 * (self.mem[adr + 1] as u32) + 65536 * (
            self.mem[adr + 2] as u32) + 16777216 * (self.mem[adr + 3] as u32);
            self.regs[a as usize] = value;
            proof {
                assert(final(self)@ =~~= eff.next);
            }
            Ok(false)
        } else if op == 4 {
            let a = self.mem[ip + 1];
            let low = self.mem[ip + 2];
            let high = self.mem[ip + 3];
            if a > 15 {
                proof {
                    assert(final(self)@ =~~= eff.next);
                }
                return Err(MachineError::RegisterDoesntExist);
            }
            let wide: u32 = low as u32 + 256 * (high as u32);
            let value: u32 = if wide >= 32768 {
                wide + 0xFFFF0000
            } else {
                wide
            };
            self.regs[a as usize] = value;
            proof {
                assert(final(self)@ =~~= eff.next);
            }
            Ok(false)
        } else if op == 5 {
            let a = self.mem[ip + 1];
            let b = self.mem[ip + 2];
            let c = self.mem[ip + 3];
            if a > 15 || b > 15 || c > 15 {
                proof {
                    assert(final(self)@ =~~= eff.next);
                }
                return Err(MachineError::RegisterDoesntExist);
            }
            let value = self.regs[b as usize].wrapping_sub(self.regs[c as usize]);
            self.regs[a as usize] = value;
            proof {
                assert(final(self)@ =~~= eff.next);
            }
            Ok(false)
        } else if op == 6 {
            let a = self.mem[ip + 1];
            if a > 15 {
                proof {
                    assert(final(self)@ =~~= eff.next);
                }
                return Err(MachineError::RegisterDoesntExist);
            }
            let low: u8 = (self.regs[a as usize] % 256) as u8;
            proof {
                assert(final(self)@ =~~= eff.next);
            }
            match write_utf8(fd, low) {
                Ok(_) => Ok(false),
                Err(_) => Err(MachineError::ErrWritingToFd),
            }
        } else if op == 7 {
            proof {
                assert(final(self)@ =~~= eff.next);
            }
            Ok(true)
        } else if op == 8 {
            let a = self.mem[ip + 1];
            if a > 15 {
                proof {
                    assert(final(self)@ =~~= eff.next);
                }
                return Err(MachineError::RegisterDoesntExist);
            }
            let value: u32 = self.regs[a as usize];
            proof {
                assert(final(self)@ =~~= eff.next);
            }
            match write_signed_dec(fd, value) {
                Ok(_) => Ok(false),
                Err(_) => Err(MachineError::ErrWritingToFd),
            }
        } else {
            proof {
                assert(final(self)@ =~~= eff.next);
            }
            Err(MachineError::NoEquivalentOpcode)
        }
    }
}

} // verus!
