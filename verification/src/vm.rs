//! The execution engine: a register machine over one untyped bank of 64-bit
//! cells, interpreting instructions in three numeric domains (double-precision
//! float, signed and unsigned 64-bit integer) with label-addressed control
//! flow and indexed input/output channels.
//!
//! The machine exposes a single operation, `tick`, which executes exactly one
//! instruction. Every invariant violation is a fatal fault, returned as a
//! `Fault`; the machine never recovers from one. What a step does is pinned
//! down by `step_rel`, a relation between the state before and after: it is a
//! relation rather than a function only because input channels are free to
//! hand back any value or run dry, and `tick` states what holds of the step
//! whatever they did.
use crate::common::{Sink, Source};
use crate::float_bits;
use crate::program::Program;
use core::cmp::Ordering;
use std::collections::HashMap;
use vstd::prelude::*;
use vstd::wrapping::{i64_specs, u64_specs};

verus! {

broadcast use vstd::std_specs::hash::group_hash_axioms;

/// An operand reference. Registers and channels are addressed by index with
/// no declared upper bound; constants carry their value, a float constant as
/// the bit pattern of the double it denotes.
#[derive(Clone, Copy, Debug, PartialEq, Eq, Structural)]
pub enum Param {
    Register(u64),
    FConstant(u64),
    IConstant(i64),
    UConstant(u64),
    Input(u64),
    Output(u64),
}

/// An instruction. The general order of operands is (sources.., destination);
/// jump targets are label names resolved only when the jump executes.
#[derive(Debug, PartialEq)]
pub enum Command {
    IAdd(Param, Param, Param),
    ISub(Param, Param, Param),
    IMul(Param, Param, Param),
    IDiv(Param, Param, Param),
    ICmp(Param, Param),
    UAdd(Param, Param, Param),
    USub(Param, Param, Param),
    UMul(Param, Param, Param),
    UDiv(Param, Param, Param),
    UCmp(Param, Param),
    FAdd(Param, Param, Param),
    FSub(Param, Param, Param),
    FMul(Param, Param, Param),
    FDiv(Param, Param, Param),
    FCmp(Param, Param),
    Load(Param, Param),
    Jump(String),
    JFNeg(Param, String),
    JINeg(Param, String),
    JGre(String),
    JLess(String),
    JEq(String),
    JNeq(String),
}

impl Clone for Command {
    fn clone(&self) -> (r: Command)
        ensures
            r == *self,
    {
        match self {
            Command::IAdd(a, b, t) => Command::IAdd(*a, *b, *t),
            Command::ISub(a, b, t) => Command::ISub(*a, *b, *t),
            Command::IMul(a, b, t) => Command::IMul(*a, *b, *t),
            Command::IDiv(a, b, t) => Command::IDiv(*a, *b, *t),
            Command::ICmp(a, b) => Command::ICmp(*a, *b),
            Command::UAdd(a, b, t) => Command::UAdd(*a, *b, *t),
            Command::USub(a, b, t) => Command::USub(*a, *b, *t),
            Command::UMul(a, b, t) => Command::UMul(*a, *b, *t),
            Command::UDiv(a, b, t) => Command::UDiv(*a, *b, *t),
            Command::UCmp(a, b) => Command::UCmp(*a, *b),
            Command::FAdd(a, b, t) => Command::FAdd(*a, *b, *t),
            Command::FSub(a, b, t) => Command::FSub(*a, *b, *t),
            Command::FMul(a, b, t) => Command::FMul(*a, *b, *t),
            Command::FDiv(a, b, t) => Command::FDiv(*a, *b, *t),
            Command::FCmp(a, b) => Command::FCmp(*a, *b),
            Command::Load(w, t) => Command::Load(*w, *t),
            Command::Jump(l) => Command::Jump(l.clone()),
            Command::JFNeg(p, l) => Command::JFNeg(*p, l.clone()),
            Command::JINeg(p, l) => Command::JINeg(*p, l.clone()),
            Command::JGre(l) => Command::JGre(l.clone()),
            Command::JLess(l) => Command::JLess(l.clone()),
            Command::JEq(l) => Command::JEq(l.clone()),
            Command::JNeq(l) => Command::JNeq(l.clone()),
        }
    }
}

/// The ways a step can abort the run. There is no recovery: a fault ends
/// the machine's useful life, and the caller decides what to do with it.
#[derive(Clone, Copy, Debug, PartialEq, Eq, Structural)]
pub enum Fault {
    /// The program counter was at or past the end of the program.
    ProgramCounterOverflow,
    /// A float read met a bit pattern decoding to NaN.
    NanLoaded,
    /// A float read met a bit pattern decoding to an infinity.
    InfinityLoaded,
    /// Division by zero, in any of the three domains.
    DivisionByZero,
    /// An operand kind that cannot serve as a source in the domain asked of it.
    InvalidSource,
    /// A destination operand that is neither a register nor an output channel.
    InvalidDestination,
    /// A jump to a label the program's table does not hold.
    UnknownLabel,
    /// A flag-conditional jump before any compare instruction has run.
    CompareMissing,
    /// An input channel signalled permanent exhaustion.
    InputExhausted,
    /// A channel index past the end of the attached channel list.
    MissingChannel,
}

/// The four arithmetic operations each domain offers.
#[derive(Clone, Copy, Debug, PartialEq, Eq, Structural)]
pub enum ArithOp {
    Add,
    Sub,
    Mul,
    Div,
}

/// The mutable run state one step acts on: the sparse register bank, the
/// program counter and the comparison flag. Channel contents are outside
/// the model; the step relation quantifies over what they hand back.
pub ghost struct MachineState {
    pub regs: Map<u64, u64>,
    pub pc: u64,
    pub flag: Option<Ordering>,
}

/// A register read: unset registers read as zero.
pub open spec fn reg_val(regs: Map<u64, u64>, r: u64) -> u64 {
    if regs.contains_key(r) {
        regs[r]
    } else {
        0
    }
}

/// A raw word reinterpreted as a two's-complement signed value.
pub open spec fn i64_of_word(w: u64) -> i64 {
    if w < 0x8000_0000_0000_0000 {
        w as i64
    } else {
        (w - 0x1_0000_0000_0000_0000) as i64
    }
}

/// A two's-complement signed value's raw word.
pub open spec fn word_of_i64(v: i64) -> u64 {
    if v >= 0 {
        v as u64
    } else {
        (v + 0x1_0000_0000_0000_0000) as u64
    }
}

/// Truncated (round-toward-zero) integer division.
pub open spec fn trunc_div(x: int, d: int) -> int {
    let q = (vstd::math::abs(x) / vstd::math::abs(d)) as int;
    if (x < 0) != (d < 0) {
        -q
    } else {
        q
    }
}

/// The unsigned result of an arithmetic operation: add, sub and mul wrap
/// modulo 2^64; div (with a nonzero divisor) truncates.
pub open spec fn unsigned_result(op: ArithOp, a: u64, b: u64) -> u64 {
    match op {
        ArithOp::Add => u64_specs::wrapping_add(a, b),
        ArithOp::Sub => u64_specs::wrapping_sub(a, b),
        ArithOp::Mul => u64_specs::wrapping_mul(a, b),
        ArithOp::Div => (a as int / b as int) as u64,
    }
}

/// The signed result: add, sub and mul wrap modulo 2^64; div truncates
/// toward zero, and the one overflowing case, MIN / -1, wraps back to MIN.
pub open spec fn signed_result(op: ArithOp, a: i64, b: i64) -> i64 {
    match op {
        ArithOp::Add => i64_specs::wrapping_add(a, b),
        ArithOp::Sub => i64_specs::wrapping_sub(a, b),
        ArithOp::Mul => i64_specs::wrapping_mul(a, b),
        ArithOp::Div => if a == i64::MIN && b == -1 {
            i64::MIN
        } else {
            trunc_div(a as int, b as int) as i64
        },
    }
}

/// The float result of an arithmetic operation, on and to bit patterns.
pub open spec fn float_result(op: ArithOp, a: u64, b: u64) -> u64 {
    match op {
        ArithOp::Add => float_bits::f64_sum_bits(a, b),
        ArithOp::Sub => float_bits::f64_difference_bits(a, b),
        ArithOp::Mul => float_bits::f64_product_bits(a, b),
        ArithOp::Div => float_bits::f64_quotient_bits(a, b),
    }
}

/// The three-way order of two mathematical integers.
pub open spec fn order_of(a: int, b: int) -> Ordering {
    if a < b {
        Ordering::Less
    } else if a == b {
        Ordering::Equal
    } else {
        Ordering::Greater
    }
}

/// A float read of a raw word: NaN and the infinities are fatal, anything
/// else is handed on unchanged.
pub open spec fn float_read(b: u64) -> Result<u64, Fault> {
    if float_bits::spec_is_nan(b) {
        Err(Fault::NanLoaded)
    } else if float_bits::spec_is_infinity(b) {
        Err(Fault::InfinityLoaded)
    } else {
        Ok(b)
    }
}

/// The outcomes resolving an operand in the unsigned domain may have.
/// Register and constant reads are exact; an input channel may hand back
/// any value or be exhausted.
pub open spec fn resolves_unsigned(
    regs: Map<u64, u64>,
    n_inputs: nat,
    p: Param,
    o: Result<u64, Fault>,
) -> bool {
    match p {
        Param::Register(r) => o == Ok::<u64, Fault>(reg_val(regs, r)),
        Param::UConstant(v) => o == Ok::<u64, Fault>(v),
        Param::IConstant(v) => o == Ok::<u64, Fault>(word_of_i64(v)),
        Param::FConstant(b) => o == Ok::<u64, Fault>(float_bits::to_u64_cast(b)),
        Param::Input(c) => if c < n_inputs {
            o is Ok || o == Err::<u64, Fault>(Fault::InputExhausted)
        } else {
            o == Err::<u64, Fault>(Fault::MissingChannel)
        },
        Param::Output(_) => o == Err::<u64, Fault>(Fault::InvalidSource),
    }
}

/// The outcomes resolving an operand in the signed domain may have: raw
/// words are reinterpreted as two's-complement.
pub open spec fn resolves_signed(
    regs: Map<u64, u64>,
    n_inputs: nat,
    p: Param,
    o: Result<i64, Fault>,
) -> bool {
    match p {
        Param::Register(r) => o == Ok::<i64, Fault>(i64_of_word(reg_val(regs, r))),
        Param::UConstant(v) => o == Ok::<i64, Fault>(i64_of_word(v)),
        Param::IConstant(v) => o == Ok::<i64, Fault>(v),
        Param::FConstant(b) => o == Ok::<i64, Fault>(float_bits::to_i64_cast(b)),
        Param::Input(c) => if c < n_inputs {
            o is Ok || o == Err::<i64, Fault>(Fault::InputExhausted)
        } else {
            o == Err::<i64, Fault>(Fault::MissingChannel)
        },
        Param::Output(_) => o == Err::<i64, Fault>(Fault::InvalidSource),
    }
}

/// The outcomes resolving an operand in the float domain may have: raw
/// words from registers or channels are validated against NaN and the
/// infinities, integer constants are converted to the nearest double.
pub open spec fn resolves_float(
    regs: Map<u64, u64>,
    n_inputs: nat,
    p: Param,
    o: Result<u64, Fault>,
) -> bool {
    match p {
        Param::Register(r) => o == float_read(reg_val(regs, r)),
        Param::FConstant(b) => o == float_read(b),
        Param::IConstant(v) => o == Ok::<u64, Fault>(float_bits::f64_of_i64_bits(v)),
        Param::UConstant(v) => o == Ok::<u64, Fault>(float_bits::f64_of_u64_bits(v)),
        Param::Input(c) => if c < n_inputs {
            match o {
                Ok(b) => float_bits::spec_is_finite(b),
                Err(f) => f == Fault::InputExhausted || f == Fault::NanLoaded || f
                    == Fault::InfinityLoaded,
            }
        } else {
            o == Err::<u64, Fault>(Fault::MissingChannel)
        },
        Param::Output(_) => o == Err::<u64, Fault>(Fault::InvalidSource),
    }
}

/// Operand resolution for the float negative-test jump: registers,
/// channels and float constants are all validated float reads, anything
/// else is invalid.
pub open spec fn resolves_float_test(
    regs: Map<u64, u64>,
    n_inputs: nat,
    p: Param,
    o: Result<u64, Fault>,
) -> bool {
    match p {
        Param::Register(r) => o == float_read(reg_val(regs, r)),
        Param::FConstant(b) => o == float_read(b),
        Param::Input(c) => if c < n_inputs {
            match o {
                Ok(b) => float_bits::spec_is_finite(b),
                Err(f) => f == Fault::InputExhausted || f == Fault::NanLoaded || f
                    == Fault::InfinityLoaded,
            }
        } else {
            o == Err::<u64, Fault>(Fault::MissingChannel)
        },
        _ => o == Err::<u64, Fault>(Fault::InvalidSource),
    }
}

/// Operand resolution for the signed negative-test jump: registers and
/// channels are reinterpreted raw words, a signed constant is taken
/// verbatim, anything else is invalid.
pub open spec fn resolves_signed_test(
    regs: Map<u64, u64>,
    n_inputs: nat,
    p: Param,
    o: Result<i64, Fault>,
) -> bool {
    match p {
        Param::Register(r) => o == Ok::<i64, Fault>(i64_of_word(reg_val(regs, r))),
        Param::IConstant(v) => o == Ok::<i64, Fault>(v),
        Param::Input(c) => if c < n_inputs {
            o is Ok || o == Err::<i64, Fault>(Fault::InputExhausted)
        } else {
            o == Err::<i64, Fault>(Fault::MissingChannel)
        },
        _ => o == Err::<i64, Fault>(Fault::InvalidSource),
    }
}

/// The operand names this input channel.
pub open spec fn names_input(p: Param, j: int) -> bool {
    match p {
        Param::Input(c) => j == c,
        _ => false,
    }
}

/// The operand names this output channel.
pub open spec fn names_output(p: Param, j: int) -> bool {
    match p {
        Param::Output(c) => j == c,
        _ => false,
    }
}

/// The instruction holds an operand naming this input channel: only those
/// channels can a step consume from.
pub open spec fn cmd_names_input(c: Command, j: int) -> bool {
    match c {
        Command::IAdd(a, b, _) => names_input(a, j) || names_input(b, j),
        Command::ISub(a, b, _) => names_input(a, j) || names_input(b, j),
        Command::IMul(a, b, _) => names_input(a, j) || names_input(b, j),
        Command::IDiv(a, b, _) => names_input(a, j) || names_input(b, j),
        Command::UAdd(a, b, _) => names_input(a, j) || names_input(b, j),
        Command::USub(a, b, _) => names_input(a, j) || names_input(b, j),
        Command::UMul(a, b, _) => names_input(a, j) || names_input(b, j),
        Command::UDiv(a, b, _) => names_input(a, j) || names_input(b, j),
        Command::FAdd(a, b, _) => names_input(a, j) || names_input(b, j),
        Command::FSub(a, b, _) => names_input(a, j) || names_input(b, j),
        Command::FMul(a, b, _) => names_input(a, j) || names_input(b, j),
        Command::FDiv(a, b, _) => names_input(a, j) || names_input(b, j),
        Command::ICmp(a, b) => names_input(a, j) || names_input(b, j),
        Command::UCmp(a, b) => names_input(a, j) || names_input(b, j),
        Command::FCmp(a, b) => names_input(a, j) || names_input(b, j),
        Command::Load(w, _) => names_input(w, j),
        Command::JFNeg(p, _) => names_input(p, j),
        Command::JINeg(p, _) => names_input(p, j),
        _ => false,
    }
}

/// The instruction holds a destination naming this output channel: only
/// those channels can a step hand a word to.
pub open spec fn cmd_names_output(c: Command, j: int) -> bool {
    match c {
        Command::IAdd(_, _, t) => names_output(t, j),
        Command::ISub(_, _, t) => names_output(t, j),
        Command::IMul(_, _, t) => names_output(t, j),
        Command::IDiv(_, _, t) => names_output(t, j),
        Command::UAdd(_, _, t) => names_output(t, j),
        Command::USub(_, _, t) => names_output(t, j),
        Command::UMul(_, _, t) => names_output(t, j),
        Command::UDiv(_, _, t) => names_output(t, j),
        Command::FAdd(_, _, t) => names_output(t, j),
        Command::FSub(_, _, t) => names_output(t, j),
        Command::FMul(_, _, t) => names_output(t, j),
        Command::FDiv(_, _, t) => names_output(t, j),
        Command::Load(_, t) => names_output(t, j),
        _ => false,
    }
}

/// Storing a word: into a register it lands in the bank, into an output
/// channel it leaves the bank untouched, anywhere else is fatal.
pub open spec fn stores(
    regs: Map<u64, u64>,
    n_outputs: nat,
    v: u64,
    into: Param,
    regs2: Map<u64, u64>,
    o: Result<(), Fault>,
) -> bool {
    match into {
        Param::Register(r) => regs2 == regs.insert(r, v) && o == Ok::<(), Fault>(()),
        Param::Output(c) => regs2 == regs && if c < n_outputs {
            o == Ok::<(), Fault>(())
        } else {
            o == Err::<(), Fault>(Fault::MissingChannel)
        },
        _ => regs2 == regs && o == Err::<(), Fault>(Fault::InvalidDestination),
    }
}

/// One unsigned arithmetic instruction: resolve both sources in order,
/// fail on a zero divisor, store the wrapped result.
pub open spec fn unsigned_arith_rel(
    regs: Map<u64, u64>,
    n_inputs: nat,
    n_outputs: nat,
    op: ArithOp,
    a: Param,
    b: Param,
    into: Param,
    regs2: Map<u64, u64>,
    r: Result<(), Fault>,
) -> bool {
    exists|oa: Result<u64, Fault>|
        #[trigger] resolves_unsigned(regs, n_inputs, a, oa) && match oa {
            Err(f) => regs2 == regs && r == Err::<(), Fault>(f),
            Ok(va) => exists|ob: Result<u64, Fault>|
                #[trigger] resolves_unsigned(regs, n_inputs, b, ob) && match ob {
                    Err(f) => regs2 == regs && r == Err::<(), Fault>(f),
                    Ok(vb) => if op == ArithOp::Div && vb == 0 {
                        regs2 == regs && r == Err::<(), Fault>(Fault::DivisionByZero)
                    } else {
                        stores(regs, n_outputs, unsigned_result(op, va, vb), into, regs2, r)
                    },
                },
        }
}

/// One signed arithmetic instruction.
pub open spec fn signed_arith_rel(
    regs: Map<u64, u64>,
    n_inputs: nat,
    n_outputs: nat,
    op: ArithOp,
    a: Param,
    b: Param,
    into: Param,
    regs2: Map<u64, u64>,
    r: Result<(), Fault>,
) -> bool {
    exists|oa: Result<i64, Fault>|
        #[trigger] resolves_signed(regs, n_inputs, a, oa) && match oa {
            Err(f) => regs2 == regs && r == Err::<(), Fault>(f),
            Ok(va) => exists|ob: Result<i64, Fault>|
                #[trigger] resolves_signed(regs, n_inputs, b, ob) && match ob {
                    Err(f) => regs2 == regs && r == Err::<(), Fault>(f),
                    Ok(vb) => if op == ArithOp::Div && vb == 0 {
                        regs2 == regs && r == Err::<(), Fault>(Fault::DivisionByZero)
                    } else {
                        stores(
                            regs,
                            n_outputs,
                            word_of_i64(signed_result(op, va, vb)),
                            into,
                            regs2,
                            r,
                        )
                    },
                },
        }
}

/// One float arithmetic instruction: both sources are validated float
/// reads, a divisor of either zero is fatal, and the rounded result's bit
/// pattern is stored raw.
pub open spec fn float_arith_rel(
    regs: Map<u64, u64>,
    n_inputs: nat,
    n_outputs: nat,
    op: ArithOp,
    a: Param,
    b: Param,
    into: Param,
    regs2: Map<u64, u64>,
    r: Result<(), Fault>,
) -> bool {
    exists|oa: Result<u64, Fault>|
        #[trigger] resolves_float(regs, n_inputs, a, oa) && match oa {
            Err(f) => regs2 == regs && r == Err::<(), Fault>(f),
            Ok(va) => exists|ob: Result<u64, Fault>|
                #[trigger] resolves_float(regs, n_inputs, b, ob) && match ob {
                    Err(f) => regs2 == regs && r == Err::<(), Fault>(f),
                    Ok(vb) => if op == ArithOp::Div && float_bits::spec_is_zero(vb) {
                        regs2 == regs && r == Err::<(), Fault>(Fault::DivisionByZero)
                    } else {
                        stores(regs, n_outputs, float_result(op, va, vb), into, regs2, r)
                    },
                },
        }
}

/// One unsigned compare: both sources resolve, and the flag takes their
/// three-way order.
pub open spec fn unsigned_compare_rel(
    regs: Map<u64, u64>,
    n_inputs: nat,
    a: Param,
    b: Param,
    flag: Option<Ordering>,
    flag2: Option<Ordering>,
    r: Result<(), Fault>,
) -> bool {
    exists|oa: Result<u64, Fault>|
        #[trigger] resolves_unsigned(regs, n_inputs, a, oa) && match oa {
            Err(f) => flag2 == flag && r == Err::<(), Fault>(f),
            Ok(va) => exists|ob: Result<u64, Fault>|
                #[trigger] resolves_unsigned(regs, n_inputs, b, ob) && match ob {
                    Err(f) => flag2 == flag && r == Err::<(), Fault>(f),
                    Ok(vb) => flag2 == Some(order_of(va as int, vb as int)) && r == Ok::<
                        (),
                        Fault,
                    >(()),
                },
        }
}

/// One signed compare.
pub open spec fn signed_compare_rel(
    regs: Map<u64, u64>,
    n_inputs: nat,
    a: Param,
    b: Param,
    flag: Option<Ordering>,
    flag2: Option<Ordering>,
    r: Result<(), Fault>,
) -> bool {
    exists|oa: Result<i64, Fault>|
        #[trigger] resolves_signed(regs, n_inputs, a, oa) && match oa {
            Err(f) => flag2 == flag && r == Err::<(), Fault>(f),
            Ok(va) => exists|ob: Result<i64, Fault>|
                #[trigger] resolves_signed(regs, n_inputs, b, ob) && match ob {
                    Err(f) => flag2 == flag && r == Err::<(), Fault>(f),
                    Ok(vb) => flag2 == Some(order_of(va as int, vb as int)) && r == Ok::<
                        (),
                        Fault,
                    >(()),
                },
        }
}

/// One float compare: both sources are validated reads, so they are finite
/// and always ordered; the flag takes the order of the modeled values.
pub open spec fn float_compare_rel(
    regs: Map<u64, u64>,
    n_inputs: nat,
    a: Param,
    b: Param,
    flag: Option<Ordering>,
    flag2: Option<Ordering>,
    r: Result<(), Fault>,
) -> bool {
    exists|oa: Result<u64, Fault>|
        #[trigger] resolves_float(regs, n_inputs, a, oa) && match oa {
            Err(f) => flag2 == flag && r == Err::<(), Fault>(f),
            Ok(va) => exists|ob: Result<u64, Fault>|
                #[trigger] resolves_float(regs, n_inputs, b, ob) && match ob {
                    Err(f) => flag2 == flag && r == Err::<(), Fault>(f),
                    Ok(vb) => flag2 == Some(
                        order_of(float_bits::scaled_val(va), float_bits::scaled_val(vb)),
                    ) && r == Ok::<(), Fault>(()),
                },
        }
}

/// One load: constants store their own bit pattern, registers and input
/// channels are read as raw words; the word lands verbatim in the
/// destination.
pub open spec fn load_rel(
    regs: Map<u64, u64>,
    n_inputs: nat,
    n_outputs: nat,
    what: Param,
    into: Param,
    regs2: Map<u64, u64>,
    r: Result<(), Fault>,
) -> bool {
    match what {
        Param::FConstant(b) => stores(regs, n_outputs, b, into, regs2, r),
        Param::IConstant(v) => stores(regs, n_outputs, word_of_i64(v), into, regs2, r),
        Param::UConstant(v) => stores(regs, n_outputs, v, into, regs2, r),
        Param::Register(rr) => stores(regs, n_outputs, reg_val(regs, rr), into, regs2, r),
        Param::Input(_) => exists|o: Result<u64, Fault>|
            #[trigger] resolves_unsigned(regs, n_inputs, what, o) && match o {
                Err(f) => regs2 == regs && r == Err::<(), Fault>(f),
                Ok(v) => stores(regs, n_outputs, v, into, regs2, r),
            },
        Param::Output(_) => regs2 == regs && r == Err::<(), Fault>(Fault::InvalidSource),
    }
}

/// An unconditional transfer: the label resolves to its address, or the
/// step faults and control falls through to where it would have gone.
pub open spec fn jump_rel(
    labels: Map<Seq<char>, u64>,
    l: Seq<char>,
    pc_fall: u64,
    pc2: u64,
    r: Result<(), Fault>,
) -> bool {
    if labels.contains_key(l) {
        pc2 == labels[l] && r == Ok::<(), Fault>(())
    } else {
        pc2 == pc_fall && r == Err::<(), Fault>(Fault::UnknownLabel)
    }
}

/// A flag-conditional jump matching one specific order: before any compare
/// it is fatal; on a match it transfers, otherwise it falls through.
pub open spec fn flag_jump_rel(
    labels: Map<Seq<char>, u64>,
    l: Seq<char>,
    flag: Option<Ordering>,
    want: Ordering,
    pc_fall: u64,
    pc2: u64,
    r: Result<(), Fault>,
) -> bool {
    match flag {
        None => pc2 == pc_fall && r == Err::<(), Fault>(Fault::CompareMissing),
        Some(o) => if o == want {
            jump_rel(labels, l, pc_fall, pc2, r)
        } else {
            pc2 == pc_fall && r == Ok::<(), Fault>(())
        },
    }
}

/// The not-equal conditional jump: it matches any set flag but Equal.
pub open spec fn flag_jump_not_equal_rel(
    labels: Map<Seq<char>, u64>,
    l: Seq<char>,
    flag: Option<Ordering>,
    pc_fall: u64,
    pc2: u64,
    r: Result<(), Fault>,
) -> bool {
    match flag {
        None => pc2 == pc_fall && r == Err::<(), Fault>(Fault::CompareMissing),
        Some(o) => if o == Ordering::Equal {
            pc2 == pc_fall && r == Ok::<(), Fault>(())
        } else {
            jump_rel(labels, l, pc_fall, pc2, r)
        },
    }
}

/// The float negative-test jump: its operand resolves in the float domain
/// (a validated read, so NaN and infinite patterns are fatal here too), and
/// the jump is taken exactly when the value is strictly below zero. The
/// comparison flag plays no part.
pub open spec fn float_neg_jump_rel(
    regs: Map<u64, u64>,
    n_inputs: nat,
    labels: Map<Seq<char>, u64>,
    p: Param,
    l: Seq<char>,
    pc_fall: u64,
    pc2: u64,
    r: Result<(), Fault>,
) -> bool {
    exists|o: Result<u64, Fault>|
        #[trigger] resolves_float_test(regs, n_inputs, p, o) && match o {
            Err(f) => pc2 == pc_fall && r == Err::<(), Fault>(f),
            Ok(b) => if float_bits::spec_is_below_zero(b) {
                jump_rel(labels, l, pc_fall, pc2, r)
            } else {
                pc2 == pc_fall && r == Ok::<(), Fault>(())
            },
        }
}

/// The signed negative-test jump.
pub open spec fn signed_neg_jump_rel(
    regs: Map<u64, u64>,
    n_inputs: nat,
    labels: Map<Seq<char>, u64>,
    p: Param,
    l: Seq<char>,
    pc_fall: u64,
    pc2: u64,
    r: Result<(), Fault>,
) -> bool {
    exists|o: Result<i64, Fault>|
        #[trigger] resolves_signed_test(regs, n_inputs, p, o) && match o {
            Err(f) => pc2 == pc_fall && r == Err::<(), Fault>(f),
            Ok(v) => if v < 0 {
                jump_rel(labels, l, pc_fall, pc2, r)
            } else {
                pc2 == pc_fall && r == Ok::<(), Fault>(())
            },
        }
}

/// What one step does: with the counter at or past the end nothing moves
/// and the step faults; otherwise the counter first advances past the
/// current instruction, and the instruction then acts as its relation says,
/// a taken jump overwriting the advanced counter.
pub open spec fn step_rel(
    prog: Seq<Command>,
    labels: Map<Seq<char>, u64>,
    n_inputs: nat,
    n_outputs: nat,
    pre: MachineState,
    post: MachineState,
    r: Result<(), Fault>,
) -> bool {
    if pre.pc as int >= prog.len() {
        post == pre && r == Err::<(), Fault>(Fault::ProgramCounterOverflow)
    } else {
        let pc1 = (pre.pc + 1) as u64;
        match prog[pre.pc as int] {
            Command::UAdd(a, b, t) => post.pc == pc1 && post.flag == pre.flag
                && unsigned_arith_rel(
                pre.regs,
                n_inputs,
                n_outputs,
                ArithOp::Add,
                a,
                b,
                t,
                post.regs,
                r,
            ),
            Command::USub(a, b, t) => post.pc == pc1 && post.flag == pre.flag
                && unsigned_arith_rel(
                pre.regs,
                n_inputs,
                n_outputs,
                ArithOp::Sub,
                a,
                b,
                t,
                post.regs,
                r,
            ),
            Command::UMul(a, b, t) => post.pc == pc1 && post.flag == pre.flag
                && unsigned_arith_rel(
                pre.regs,
                n_inputs,
                n_outputs,
                ArithOp::Mul,
                a,
                b,
                t,
                post.regs,
                r,
            ),
            Command::UDiv(a, b, t) => post.pc == pc1 && post.flag == pre.flag
                && unsigned_arith_rel(
                pre.regs,
                n_inputs,
                n_outputs,
                ArithOp::Div,
                a,
                b,
                t,
                post.regs,
                r,
            ),
            Command::IAdd(a, b, t) => post.pc == pc1 && post.flag == pre.flag && signed_arith_rel(
                pre.regs,
                n_inputs,
                n_outputs,
                ArithOp::Add,
                a,
                b,
                t,
                post.regs,
                r,
            ),
            Command::ISub(a, b, t) => post.pc == pc1 && post.flag == pre.flag && signed_arith_rel(
                pre.regs,
                n_inputs,
                n_outputs,
                ArithOp::Sub,
                a,
                b,
                t,
                post.regs,
                r,
            ),
            Command::IMul(a, b, t) => post.pc == pc1 && post.flag == pre.flag && signed_arith_rel(
                pre.regs,
                n_inputs,
                n_outputs,
                ArithOp::Mul,
                a,
                b,
                t,
                post.regs,
                r,
            ),
            Command::IDiv(a, b, t) => post.pc == pc1 && post.flag == pre.flag && signed_arith_rel(
                pre.regs,
                n_inputs,
                n_outputs,
                ArithOp::Div,
                a,
                b,
                t,
                post.regs,
                r,
            ),
            Command::FAdd(a, b, t) => post.pc == pc1 && post.flag == pre.flag && float_arith_rel(
                pre.regs,
                n_inputs,
                n_outputs,
                ArithOp::Add,
                a,
                b,
                t,
                post.regs,
                r,
            ),
            Command::FSub(a, b, t) => post.pc == pc1 && post.flag == pre.flag && float_arith_rel(
                pre.regs,
                n_inputs,
                n_outputs,
                ArithOp::Sub,
                a,
                b,
                t,
                post.regs,
                r,
            ),
            Command::FMul(a, b, t) => post.pc == pc1 && post.flag == pre.flag && float_arith_rel(
                pre.regs,
                n_inputs,
                n_outputs,
                ArithOp::Mul,
                a,
                b,
                t,
                post.regs,
                r,
            ),
            Command::FDiv(a, b, t) => post.pc == pc1 && post.flag == pre.flag && float_arith_rel(
                pre.regs,
                n_inputs,
                n_outputs,
                ArithOp::Div,
                a,
                b,
                t,
                post.regs,
                r,
            ),
            Command::UCmp(a, b) => post.pc == pc1 && post.regs == pre.regs
                && unsigned_compare_rel(pre.regs, n_inputs, a, b, pre.flag, post.flag, r),
            Command::ICmp(a, b) => post.pc == pc1 && post.regs == pre.regs && signed_compare_rel(
                pre.regs,
                n_inputs,
                a,
                b,
                pre.flag,
                post.flag,
                r,
            ),
            Command::FCmp(a, b) => post.pc == pc1 && post.regs == pre.regs && float_compare_rel(
                pre.regs,
                n_inputs,
                a,
                b,
                pre.flag,
                post.flag,
                r,
            ),
            Command::Load(w, t) => post.pc == pc1 && post.flag == pre.flag && load_rel(
                pre.regs,
                n_inputs,
                n_outputs,
                w,
                t,
                post.regs,
                r,
            ),
            Command::Jump(l) => post.regs == pre.regs && post.flag == pre.flag && jump_rel(
                labels,
                l@,
                pc1,
                post.pc,
                r,
            ),
            Command::JFNeg(p, l) => post.regs == pre.regs && post.flag == pre.flag
                && float_neg_jump_rel(pre.regs, n_inputs, labels, p, l@, pc1, post.pc, r),
            Command::JINeg(p, l) => post.regs == pre.regs && post.flag == pre.flag
                && signed_neg_jump_rel(pre.regs, n_inputs, labels, p, l@, pc1, post.pc, r),
            Command::JGre(l) => post.regs == pre.regs && post.flag == pre.flag && flag_jump_rel(
                labels,
                l@,
                pre.flag,
                Ordering::Greater,
                pc1,
                post.pc,
                r,
            ),
            Command::JLess(l) => post.regs == pre.regs && post.flag == pre.flag && flag_jump_rel(
                labels,
                l@,
                pre.flag,
                Ordering::Less,
                pc1,
                post.pc,
                r,
            ),
            Command::JEq(l) => post.regs == pre.regs && post.flag == pre.flag && flag_jump_rel(
                labels,
                l@,
                pre.flag,
                Ordering::Equal,
                pc1,
                post.pc,
                r,
            ),
            Command::JNeq(l) => post.regs == pre.regs && post.flag == pre.flag
                && flag_jump_not_equal_rel(labels, l@, pre.flag, pc1, post.pc, r),
        }
    }
}


/// A raw word reinterpreted as a two's-complement signed value, computed
/// without leaving either type's range.
pub fn word_to_i64(w: u64) -> (v: i64)
    ensures
        v == i64_of_word(w),
{
    if w < 0x8000_0000_0000_0000 {
        w as i64
    } else {
        (w - 0x8000_0000_0000_0000) as i64 + i64::MIN
    }
}

/// A two's-complement signed value's raw word.
pub fn i64_to_word(v: i64) -> (w: u64)
    ensures
        w == word_of_i64(v),
{
    if v >= 0 {
        v as u64
    } else {
        (v - i64::MIN) as u64 + 0x8000_0000_0000_0000
    }
}

/// The execution engine: an assembled program, this instance's own register
/// bank, program counter and comparison flag, and the channels attached at
/// construction. A program is immutable and may back any number of machines;
/// each machine's run state is exclusively its own.
pub struct MooMachine<I: Source<u64>, O: Sink<u64>> {
    compare: Option<Ordering>,
    program: Program,
    registers: HashMap<u64, u64>,
    program_counter: u64,
    input: Vec<I>,
    output: Vec<O>,
}

impl<I: Source<u64>, O: Sink<u64>> MooMachine<I, O> {
    /// The mutable run state one step acts on.
    pub closed spec fn state(&self) -> MachineState {
        MachineState { regs: self.registers@, pc: self.program_counter, flag: self.compare }
    }

    /// The program's instructions.
    pub closed spec fn commands(&self) -> Seq<Command> {
        self.program.commands()
    }

    /// The program's label table.
    pub closed spec fn labels(&self) -> Map<Seq<char>, u64> {
        self.program.label_map()
    }

    /// How many input channels are attached.
    pub closed spec fn input_count(&self) -> nat {
        self.input@.len()
    }

    /// How many output channels are attached.
    pub closed spec fn output_count(&self) -> nat {
        self.output@.len()
    }

    /// The attached input channels, in index order.
    pub closed spec fn inputs(&self) -> Seq<I> {
        self.input@
    }

    /// The attached output channels, in index order.
    pub closed spec fn outputs(&self) -> Seq<O> {
        self.output@
    }

    /// The instruction a step at this state would execute consumes from
    /// this input channel.
    pub open spec fn step_may_read_input(pre: Self, j: int) -> bool {
        (pre.state().pc as int) < pre.commands().len() && cmd_names_input(
            pre.commands()[pre.state().pc as int],
            j,
        )
    }

    /// The instruction a step at this state would execute hands a word to
    /// this output channel.
    pub open spec fn step_may_write_output(pre: Self, j: int) -> bool {
        (pre.state().pc as int) < pre.commands().len() && cmd_names_output(
            pre.commands()[pre.state().pc as int],
            j,
        )
    }

    /// A step leaves every channel alone but those the executed instruction
    /// names: at most the resolved indices change.
    pub open spec fn keeps_untouched_channels(pre: Self, post: Self) -> bool {
        &&& forall|j: int|
            0 <= j < pre.input_count() && !Self::step_may_read_input(pre, j) ==> post.inputs()[j]
                == pre.inputs()[j]
        &&& forall|j: int|
            0 <= j < pre.output_count() && !Self::step_may_write_output(pre, j)
                ==> post.outputs()[j] == pre.outputs()[j]
    }

    /// What every step leaves alone: the program and the shape of the
    /// channel lists.
    pub open spec fn keeps_frame(pre: Self, post: Self) -> bool {
        post.commands() == pre.commands() && post.labels() == pre.labels() && post.input_count()
            == pre.input_count() && post.output_count() == pre.output_count()
    }

    pub fn new(program: Program, input: Vec<I>, output: Vec<O>) -> (m: Self)
        ensures
            m.commands() == program.commands(),
            m.labels() == program.label_map(),
            m.input_count() == input@.len(),
            m.output_count() == output@.len(),
            m.state() == (MachineState {
                regs: Map::<u64, u64>::empty(),
                pc: 0u64,
                flag: None::<Ordering>,
            }),
    {
        MooMachine {
            compare: None,
            program,
            registers: HashMap::new(),
            program_counter: 0,
            input,
            output,
        }
    }

    /// The current program counter.
    pub fn pc(&self) -> (v: u64)
        ensures
            v == self.state().pc,
    {
        self.program_counter
    }

    /// The raw word a register holds, or None where it was never written.
    pub fn register(&self, r: u64) -> (v: Option<u64>)
        ensures
            v == if self.state().regs.contains_key(r) {
                Some(self.state().regs[r])
            } else {
                None::<u64>
            },
    {
        match self.registers.get(&r) {
            Some(w) => Some(*w),
            None => None,
        }
    }

    /// The comparison flag: unset until the first compare instruction runs.
    pub fn flag(&self) -> (v: Option<Ordering>)
        ensures
            v == self.state().flag,
    {
        self.compare
    }

    /// A register read: unset registers read as zero.
    fn read_register(&self, r: u64) -> (v: u64)
        ensures
            v == reg_val(self.state().regs, r),
    {
        match self.registers.get(&r) {
            Some(w) => *w,
            None => 0,
        }
    }

    /// One value taken from an input channel.
    fn take_input(&mut self, c: u64) -> (r: Result<u64, Fault>)
        ensures
            Self::keeps_frame(*old(self), *final(self)),
            final(self).state() == old(self).state(),
            final(self).outputs() == old(self).outputs(),
            forall|j: int|
                0 <= j < old(self).input_count() && j != c ==> final(self).inputs()[j] == old(self).inputs()[j],
            if c < old(self).input_count() {
                r is Ok || r == Err::<u64, Fault>(Fault::InputExhausted)
            } else {
                r == Err::<u64, Fault>(Fault::MissingChannel)
            },
    {
        if c < self.input.len() as u64 {
            let idx = c as usize;
            let mut ch = self.input.remove(idx);
            let got = ch.take();
            self.input.insert(idx, ch);
            match got {
                Some(v) => Ok(v),
                None => Err(Fault::InputExhausted),
            }
        } else {
            Err(Fault::MissingChannel)
        }
    }

    /// One value handed to an output channel.
    fn put_output(&mut self, c: u64, v: u64) -> (r: Result<(), Fault>)
        ensures
            Self::keeps_frame(*old(self), *final(self)),
            final(self).state() == old(self).state(),
            final(self).inputs() == old(self).inputs(),
            forall|j: int|
                0 <= j < old(self).output_count() && j != c ==> final(self).outputs()[j] == old(self).outputs()[j],
            if c < old(self).output_count() {
                r == Ok::<(), Fault>(())
            } else {
                r == Err::<(), Fault>(Fault::MissingChannel)
            },
    {
        if c < self.output.len() as u64 {
            let idx = c as usize;
            let mut ch = self.output.remove(idx);
            ch.put(v);
            self.output.insert(idx, ch);
            Ok(())
        } else {
            Err(Fault::MissingChannel)
        }
    }

    /// An operand resolved in the unsigned domain.
    fn get_unsigned_integer(&mut self, param: Param) -> (r: Result<u64, Fault>)
        ensures
            Self::keeps_frame(*old(self), *final(self)),
            final(self).state() == old(self).state(),
            final(self).outputs() == old(self).outputs(),
            forall|j: int|
                0 <= j < old(self).input_count() && !names_input(param, j) ==> final(self).inputs()[j] == old(self).inputs()[j],
            resolves_unsigned(old(self).state().regs, old(self).input_count(), param, r),
    {
        match param {
            Param::Register(rr) => Ok(self.read_register(rr)),
            Param::UConstant(v) => Ok(v),
            Param::IConstant(v) => Ok(i64_to_word(v)),
            Param::FConstant(b) => Ok(float_bits::float_to_u64(b)),
            Param::Input(c) => self.take_input(c),
            Param::Output(_) => Err(Fault::InvalidSource),
        }
    }

    /// An operand resolved in the signed domain.
    fn get_signed_integer(&mut self, param: Param) -> (r: Result<i64, Fault>)
        ensures
            Self::keeps_frame(*old(self), *final(self)),
            final(self).state() == old(self).state(),
            final(self).outputs() == old(self).outputs(),
            forall|j: int|
                0 <= j < old(self).input_count() && !names_input(param, j) ==> final(self).inputs()[j] == old(self).inputs()[j],
            resolves_signed(old(self).state().regs, old(self).input_count(), param, r),
    {
        match param {
            Param::Register(rr) => Ok(word_to_i64(self.read_register(rr))),
            Param::UConstant(v) => Ok(word_to_i64(v)),
            Param::IConstant(v) => Ok(v),
            Param::FConstant(b) => Ok(float_bits::float_to_i64(b)),
            Param::Input(c) => match self.take_input(c) {
                Ok(v) => Ok(word_to_i64(v)),
                Err(f) => Err(f),
            },
            Param::Output(_) => Err(Fault::InvalidSource),
        }
    }

    /// A raw word checked as a float read.
    fn check_float(b: u64) -> (r: Result<u64, Fault>)
        ensures
            r == float_read(b),
            r is Ok ==> float_bits::spec_is_finite(b),
    {
        if float_bits::is_nan(b) {
            Err(Fault::NanLoaded)
        } else if float_bits::is_infinity(b) {
            Err(Fault::InfinityLoaded)
        } else {
            Ok(b)
        }
    }

    /// An operand resolved in the float domain; any value handed on is a
    /// finite double's bit pattern.
    fn get_float(&mut self, param: Param) -> (r: Result<u64, Fault>)
        ensures
            Self::keeps_frame(*old(self), *final(self)),
            final(self).state() == old(self).state(),
            final(self).outputs() == old(self).outputs(),
            forall|j: int|
                0 <= j < old(self).input_count() && !names_input(param, j) ==> final(self).inputs()[j] == old(self).inputs()[j],
            resolves_float(old(self).state().regs, old(self).input_count(), param, r),
            r matches Ok(b) ==> float_bits::spec_is_finite(b),
    {
        match param {
            Param::Register(rr) => {
                let b = self.read_register(rr);
                Self::check_float(b)
            },
            Param::FConstant(b) => Self::check_float(b),
            Param::IConstant(v) => Ok(float_bits::float_of_i64(v)),
            Param::UConstant(v) => Ok(float_bits::float_of_u64(v)),
            Param::Input(c) => match self.take_input(c) {
                Ok(v) => Self::check_float(v),
                Err(f) => Err(f),
            },
            Param::Output(_) => Err(Fault::InvalidSource),
        }
    }

    /// The operand of the float negative-test jump: registers, channels and
    /// float constants are all validated float reads.
    fn get_float_test_value(&mut self, param: Param) -> (r: Result<u64, Fault>)
        ensures
            Self::keeps_frame(*old(self), *final(self)),
            final(self).state() == old(self).state(),
            final(self).outputs() == old(self).outputs(),
            forall|j: int|
                0 <= j < old(self).input_count() && !names_input(param, j) ==> final(self).inputs()[j] == old(self).inputs()[j],
            resolves_float_test(old(self).state().regs, old(self).input_count(), param, r),
    {
        match param {
            Param::Register(rr) => {
                let b = self.read_register(rr);
                Self::check_float(b)
            },
            Param::FConstant(b) => Self::check_float(b),
            Param::Input(c) => match self.take_input(c) {
                Ok(v) => Self::check_float(v),
                Err(f) => Err(f),
            },
            _ => Err(Fault::InvalidSource),
        }
    }

    /// The operand of the signed negative-test jump.
    fn get_signed_test_value(&mut self, param: Param) -> (r: Result<i64, Fault>)
        ensures
            Self::keeps_frame(*old(self), *final(self)),
            final(self).state() == old(self).state(),
            final(self).outputs() == old(self).outputs(),
            forall|j: int|
                0 <= j < old(self).input_count() && !names_input(param, j) ==> final(self).inputs()[j] == old(self).inputs()[j],
            resolves_signed_test(old(self).state().regs, old(self).input_count(), param, r),
    {
        match param {
            Param::Register(rr) => Ok(word_to_i64(self.read_register(rr))),
            Param::IConstant(v) => Ok(v),
            Param::Input(c) => match self.take_input(c) {
                Ok(v) => Ok(word_to_i64(v)),
                Err(f) => Err(f),
            },
            _ => Err(Fault::InvalidSource),
        }
    }

    /// One raw word stored into a destination operand.
    fn store_word(&mut self, what: u64, into: Param) -> (r: Result<(), Fault>)
        ensures
            Self::keeps_frame(*old(self), *final(self)),
            final(self).state().pc == old(self).state().pc,
            final(self).state().flag == old(self).state().flag,
            final(self).inputs() == old(self).inputs(),
            forall|j: int|
                0 <= j < old(self).output_count() && !names_output(into, j) ==> final(self).outputs()[j] == old(self).outputs()[j],
            stores(
                old(self).state().regs,
                old(self).output_count(),
                what,
                into,
                final(self).state().regs,
                r,
            ),
    {
        match into {
            Param::Register(rr) => {
                self.registers.insert(rr, what);
                Ok(())
            },
            Param::Output(c) => self.put_output(c, what),
            _ => Err(Fault::InvalidDestination),
        }
    }

    /// One unsigned arithmetic instruction.
    fn unsigned_integer_op(&mut self, op: ArithOp, a: Param, b: Param, into: Param) -> (r: Result<
        (),
        Fault,
    >)
        ensures
            Self::keeps_frame(*old(self), *final(self)),
            final(self).state().pc == old(self).state().pc,
            final(self).state().flag == old(self).state().flag,
            forall|j: int|
                0 <= j < old(self).input_count() && !names_input(a, j) && !names_input(b, j)
                    ==> final(self).inputs()[j] == old(self).inputs()[j],
            forall|j: int|
                0 <= j < old(self).output_count() && !names_output(into, j) ==> final(self).outputs()[j] == old(self).outputs()[j],
            unsigned_arith_rel(
                old(self).state().regs,
                old(self).input_count(),
                old(self).output_count(),
                op,
                a,
                b,
                into,
                final(self).state().regs,
                r,
            ),
    {
        let va = match self.get_unsigned_integer(a) {
            Ok(v) => v,
            Err(f) => {
                return Err(f);
            },
        };
        let vb = match self.get_unsigned_integer(b) {
            Ok(v) => v,
            Err(f) => {
                return Err(f);
            },
        };
        if matches!(op, ArithOp::Div) && vb == 0 {
            return Err(Fault::DivisionByZero);
        }
        let v = match op {
            ArithOp::Add => va.wrapping_add(vb),
            ArithOp::Sub => va.wrapping_sub(vb),
            ArithOp::Mul => va.wrapping_mul(vb),
            ArithOp::Div => va / vb,
        };
        self.store_word(v, into)
    }

    /// One signed arithmetic instruction. The division runs on magnitudes
    /// in the unsigned domain, which realizes truncation toward zero and
    /// lets the one overflowing case, MIN / -1, wrap back to MIN.
    fn signed_integer_op(&mut self, op: ArithOp, a: Param, b: Param, into: Param) -> (r: Result<
        (),
        Fault,
    >)
        ensures
            Self::keeps_frame(*old(self), *final(self)),
            final(self).state().pc == old(self).state().pc,
            final(self).state().flag == old(self).state().flag,
            forall|j: int|
                0 <= j < old(self).input_count() && !names_input(a, j) && !names_input(b, j)
                    ==> final(self).inputs()[j] == old(self).inputs()[j],
            forall|j: int|
                0 <= j < old(self).output_count() && !names_output(into, j) ==> final(self).outputs()[j] == old(self).outputs()[j],
            signed_arith_rel(
                old(self).state().regs,
                old(self).input_count(),
                old(self).output_count(),
                op,
                a,
                b,
                into,
                final(self).state().regs,
                r,
            ),
    {
        let va = match self.get_signed_integer(a) {
            Ok(v) => v,
            Err(f) => {
                return Err(f);
            },
        };
        let vb = match self.get_signed_integer(b) {
            Ok(v) => v,
            Err(f) => {
                return Err(f);
            },
        };
        if matches!(op, ArithOp::Div) && vb == 0 {
            return Err(Fault::DivisionByZero);
        }
        let v: u64 = match op {
            ArithOp::Add => i64_to_word(va.wrapping_add(vb)),
            ArithOp::Sub => i64_to_word(va.wrapping_sub(vb)),
            ArithOp::Mul => i64_to_word(va.wrapping_mul(vb)),
            ArithOp::Div => {
                let ma = Self::magnitude_of(va);
                let mb = Self::magnitude_of(vb);
                let q = ma / mb;
                proof {
                    // The quotient of the magnitudes is at most |va| <= 2^63,
                    // so applying the sign can at worst wrap onto MIN itself.
                    vstd::arithmetic::div_mod::lemma_div_nonincreasing(ma as int, mb as int);
                    assert(q <= 0x8000_0000_0000_0000);
                    if q == 0x8000_0000_0000_0000 {
                        // A quotient of exactly 2^63 forces |va| = 2^63 and
                        // |vb| = 1, so va is MIN and vb is 1 or -1.
                        vstd::arithmetic::div_mod::lemma_fundamental_div_mod(
                            ma as int,
                            mb as int,
                        );
                        assert(mb == 1 && ma == 0x8000_0000_0000_0000) by (nonlinear_arith)
                            requires
                                ma as int == (mb as int) * ((ma as int) / (mb as int)) + (
                                ma as int) % (mb as int),
                                q == ma / mb,
                                q == 0x8000_0000_0000_0000,
                                1 <= mb,
                                ma <= 0x8000_0000_0000_0000,
                                0 <= (ma as int) % (mb as int),
                        ;
                    }
                }
                let signed_q = if (va < 0) == (vb < 0) {
                    q
                } else {
                    (0 as u64).wrapping_sub(q)
                };
                proof {
                    assert(q == vstd::math::abs(va as int) / vstd::math::abs(vb as int));
                    vstd::arithmetic::div_mod::lemma_div_basics(ma as int);
                    if va == i64::MIN && vb == -1 {
                        assert(signed_q == word_of_i64(i64::MIN));
                    } else if q == 0x8000_0000_0000_0000 {
                        // |va| = 2^63 and |vb| = 1 with the wrapping pair
                        // excluded leaves va = MIN and vb = 1: signs differ.
                        assert(va == i64::MIN && vb == 1);
                        assert(signed_q == word_of_i64(signed_result(op, va, vb)));
                    } else {
                        assert(trunc_div(va as int, vb as int) == if (va < 0) != (vb < 0) {
                            -(q as int)
                        } else {
                            q as int
                        });
                        assert(signed_q == word_of_i64(signed_result(op, va, vb)));
                    }
                }
                signed_q
            },
        };
        proof {
            assert(v == word_of_i64(signed_result(op, va, vb)));
        }
        self.store_word(v, into)
    }

    /// A signed value's magnitude as an unsigned word.
    fn magnitude_of(v: i64) -> (m: u64)
        ensures
            m == vstd::math::abs(v as int),
    {
        if v == i64::MIN {
            0x8000_0000_0000_0000
        } else if v < 0 {
            (-v) as u64
        } else {
            v as u64
        }
    }

    /// One float arithmetic instruction.
    fn float_op(&mut self, op: ArithOp, a: Param, b: Param, into: Param) -> (r: Result<(), Fault>)
        ensures
            Self::keeps_frame(*old(self), *final(self)),
            final(self).state().pc == old(self).state().pc,
            final(self).state().flag == old(self).state().flag,
            forall|j: int|
                0 <= j < old(self).input_count() && !names_input(a, j) && !names_input(b, j)
                    ==> final(self).inputs()[j] == old(self).inputs()[j],
            forall|j: int|
                0 <= j < old(self).output_count() && !names_output(into, j) ==> final(self).outputs()[j] == old(self).outputs()[j],
            float_arith_rel(
                old(self).state().regs,
                old(self).input_count(),
                old(self).output_count(),
                op,
                a,
                b,
                into,
                final(self).state().regs,
                r,
            ),
    {
        let va = match self.get_float(a) {
            Ok(v) => v,
            Err(f) => {
                return Err(f);
            },
        };
        let vb = match self.get_float(b) {
            Ok(v) => v,
            Err(f) => {
                return Err(f);
            },
        };
        if matches!(op, ArithOp::Div) && float_bits::is_zero(vb) {
            return Err(Fault::DivisionByZero);
        }
        let v = match op {
            ArithOp::Add => float_bits::float_sum(va, vb),
            ArithOp::Sub => float_bits::float_difference(va, vb),
            ArithOp::Mul => float_bits::float_product(va, vb),
            ArithOp::Div => float_bits::float_quotient(va, vb),
        };
        self.store_word(v, into)
    }

    /// One unsigned compare: the flag takes the operands' three-way order.
    fn unsigned_integer_compare(&mut self, a: Param, b: Param) -> (r: Result<(), Fault>)
        ensures
            Self::keeps_frame(*old(self), *final(self)),
            final(self).state().pc == old(self).state().pc,
            final(self).state().regs == old(self).state().regs,
            final(self).outputs() == old(self).outputs(),
            forall|j: int|
                0 <= j < old(self).input_count() && !names_input(a, j) && !names_input(b, j)
                    ==> final(self).inputs()[j] == old(self).inputs()[j],
            unsigned_compare_rel(
                old(self).state().regs,
                old(self).input_count(),
                a,
                b,
                old(self).state().flag,
                final(self).state().flag,
                r,
            ),
    {
        let va = match self.get_unsigned_integer(a) {
            Ok(v) => v,
            Err(f) => {
                return Err(f);
            },
        };
        let vb = match self.get_unsigned_integer(b) {
            Ok(v) => v,
            Err(f) => {
                return Err(f);
            },
        };
        self.compare = Some(
            if va < vb {
                Ordering::Less
            } else if va == vb {
                Ordering::Equal
            } else {
                Ordering::Greater
            },
        );
        Ok(())
    }

    /// One signed compare.
    fn signed_integer_compare(&mut self, a: Param, b: Param) -> (r: Result<(), Fault>)
        ensures
            Self::keeps_frame(*old(self), *final(self)),
            final(self).state().pc == old(self).state().pc,
            final(self).state().regs == old(self).state().regs,
            final(self).outputs() == old(self).outputs(),
            forall|j: int|
                0 <= j < old(self).input_count() && !names_input(a, j) && !names_input(b, j)
                    ==> final(self).inputs()[j] == old(self).inputs()[j],
            signed_compare_rel(
                old(self).state().regs,
                old(self).input_count(),
                a,
                b,
                old(self).state().flag,
                final(self).state().flag,
                r,
            ),
    {
        let va = match self.get_signed_integer(a) {
            Ok(v) => v,
            Err(f) => {
                return Err(f);
            },
        };
        let vb = match self.get_signed_integer(b) {
            Ok(v) => v,
            Err(f) => {
                return Err(f);
            },
        };
        self.compare = Some(
            if va < vb {
                Ordering::Less
            } else if va == vb {
                Ordering::Equal
            } else {
                Ordering::Greater
            },
        );
        Ok(())
    }

    /// One float compare: both operands are validated reads, so they are
    /// finite and always ordered; NaN can never reach the comparison.
    fn float_compare(&mut self, a: Param, b: Param) -> (r: Result<(), Fault>)
        ensures
            Self::keeps_frame(*old(self), *final(self)),
            final(self).state().pc == old(self).state().pc,
            final(self).state().regs == old(self).state().regs,
            final(self).outputs() == old(self).outputs(),
            forall|j: int|
                0 <= j < old(self).input_count() && !names_input(a, j) && !names_input(b, j)
                    ==> final(self).inputs()[j] == old(self).inputs()[j],
            float_compare_rel(
                old(self).state().regs,
                old(self).input_count(),
                a,
                b,
                old(self).state().flag,
                final(self).state().flag,
                r,
            ),
    {
        let va = match self.get_float(a) {
            Ok(v) => v,
            Err(f) => {
                return Err(f);
            },
        };
        let vb = match self.get_float(b) {
            Ok(v) => v,
            Err(f) => {
                return Err(f);
            },
        };
        self.compare = Some(float_bits::float_compare(va, vb));
        Ok(())
    }

    /// An unconditional transfer to a label's address.
    fn jump(&mut self, label: &String) -> (r: Result<(), Fault>)
        ensures
            Self::keeps_frame(*old(self), *final(self)),
            final(self).state().regs == old(self).state().regs,
            final(self).state().flag == old(self).state().flag,
            final(self).inputs() == old(self).inputs(),
            final(self).outputs() == old(self).outputs(),
            jump_rel(
                old(self).labels(),
                label@,
                old(self).state().pc,
                final(self).state().pc,
                r,
            ),
    {
        match self.program.get_address(label.as_str()) {
            Some(addr) => {
                self.program_counter = addr;
                Ok(())
            },
            None => Err(Fault::UnknownLabel),
        }
    }

    /// Execute exactly one instruction at the current program counter, or
    /// abort the run with a fault. The counter first advances past the
    /// instruction; a taken jump then overwrites it. What the step did to
    /// the registers, counter and flag is pinned down by `step_rel`.
    pub fn tick(&mut self) -> (r: Result<(), Fault>)
        ensures
            Self::keeps_frame(*old(self), *final(self)),
            Self::keeps_untouched_channels(*old(self), *final(self)),
            step_rel(
                old(self).commands(),
                old(self).labels(),
                old(self).input_count(),
                old(self).output_count(),
                old(self).state(),
                final(self).state(),
                r,
            ),
    {
        let pc = self.program_counter;
        if pc >= self.program.len() as u64 {
            return Err(Fault::ProgramCounterOverflow);
        }
        self.program_counter = pc + 1;
        let cmd = self.program.command_at(pc as usize).clone();
        match cmd {
            Command::UAdd(a, b, t) => self.unsigned_integer_op(ArithOp::Add, a, b, t),
            Command::USub(a, b, t) => self.unsigned_integer_op(ArithOp::Sub, a, b, t),
            Command::UMul(a, b, t) => self.unsigned_integer_op(ArithOp::Mul, a, b, t),
            Command::UDiv(a, b, t) => self.unsigned_integer_op(ArithOp::Div, a, b, t),
            Command::IAdd(a, b, t) => self.signed_integer_op(ArithOp::Add, a, b, t),
            Command::ISub(a, b, t) => self.signed_integer_op(ArithOp::Sub, a, b, t),
            Command::IMul(a, b, t) => self.signed_integer_op(ArithOp::Mul, a, b, t),
            Command::IDiv(a, b, t) => self.signed_integer_op(ArithOp::Div, a, b, t),
            Command::FAdd(a, b, t) => self.float_op(ArithOp::Add, a, b, t),
            Command::FSub(a, b, t) => self.float_op(ArithOp::Sub, a, b, t),
            Command::FMul(a, b, t) => self.float_op(ArithOp::Mul, a, b, t),
            Command::FDiv(a, b, t) => self.float_op(ArithOp::Div, a, b, t),
            Command::UCmp(a, b) => self.unsigned_integer_compare(a, b),
            Command::ICmp(a, b) => self.signed_integer_compare(a, b),
            Command::FCmp(a, b) => self.float_compare(a, b),
            Command::Load(w, t) => self.load(w, t),
            Command::Jump(l) => self.jump(&l),
            Command::JFNeg(p, l) => {
                let b = match self.get_float_test_value(p) {
                    Ok(b) => b,
                    Err(f) => {
                        return Err(f);
                    },
                };
                if float_bits::is_below_zero(b) {
                    self.jump(&l)
                } else {
                    Ok(())
                }
            },
            Command::JINeg(p, l) => {
                let v = match self.get_signed_test_value(p) {
                    Ok(v) => v,
                    Err(f) => {
                        return Err(f);
                    },
                };
                if v < 0 {
                    self.jump(&l)
                } else {
                    Ok(())
                }
            },
            Command::JGre(l) => self.jump_if(&l, Ordering::Greater),
            Command::JLess(l) => self.jump_if(&l, Ordering::Less),
            Command::JEq(l) => self.jump_if(&l, Ordering::Equal),
            Command::JNeq(l) => self.jump_if_not_equal(&l),
        }
    }

    /// One load: the source read raw (constants as their own bit pattern),
    /// the word stored verbatim.
    fn load(&mut self, what: Param, into: Param) -> (r: Result<(), Fault>)
        ensures
            Self::keeps_frame(*old(self), *final(self)),
            final(self).state().pc == old(self).state().pc,
            final(self).state().flag == old(self).state().flag,
            forall|j: int|
                0 <= j < old(self).input_count() && !names_input(what, j) ==> final(self).inputs()[j] == old(self).inputs()[j],
            forall|j: int|
                0 <= j < old(self).output_count() && !names_output(into, j) ==> final(self).outputs()[j] == old(self).outputs()[j],
            load_rel(
                old(self).state().regs,
                old(self).input_count(),
                old(self).output_count(),
                what,
                into,
                final(self).state().regs,
                r,
            ),
    {
        match what {
            Param::FConstant(b) => self.store_word(b, into),
            Param::IConstant(v) => self.store_word(i64_to_word(v), into),
            Param::UConstant(v) => self.store_word(v, into),
            Param::Register(rr) => {
                let v = self.read_register(rr);
                self.store_word(v, into)
            },
            Param::Input(_) => {
                let v = match self.get_unsigned_integer(what) {
                    Ok(v) => v,
                    Err(f) => {
                        return Err(f);
                    },
                };
                self.store_word(v, into)
            },
            Param::Output(_) => Err(Fault::InvalidSource),
        }
    }

    /// A flag-conditional jump matching one specific order.
    fn jump_if(&mut self, label: &String, want: Ordering) -> (r: Result<(), Fault>)
        ensures
            Self::keeps_frame(*old(self), *final(self)),
            final(self).state().regs == old(self).state().regs,
            final(self).state().flag == old(self).state().flag,
            final(self).inputs() == old(self).inputs(),
            final(self).outputs() == old(self).outputs(),
            flag_jump_rel(
                old(self).labels(),
                label@,
                old(self).state().flag,
                want,
                old(self).state().pc,
                final(self).state().pc,
                r,
            ),
    {
        match self.compare {
            Some(o) => {
                let taken = match (o, want) {
                    (Ordering::Less, Ordering::Less) => true,
                    (Ordering::Equal, Ordering::Equal) => true,
                    (Ordering::Greater, Ordering::Greater) => true,
                    _ => false,
                };
                if taken {
                    self.jump(label)
                } else {
                    Ok(())
                }
            },
            None => Err(Fault::CompareMissing),
        }
    }

    /// The not-equal conditional jump: any set flag but Equal matches.
    fn jump_if_not_equal(&mut self, label: &String) -> (r: Result<(), Fault>)
        ensures
            Self::keeps_frame(*old(self), *final(self)),
            final(self).state().regs == old(self).state().regs,
            final(self).state().flag == old(self).state().flag,
            final(self).inputs() == old(self).inputs(),
            final(self).outputs() == old(self).outputs(),
            flag_jump_not_equal_rel(
                old(self).labels(),
                label@,
                old(self).state().flag,
                old(self).state().pc,
                final(self).state().pc,
                r,
            ),
    {
        match self.compare {
            Some(Ordering::Equal) => Ok(()),
            Some(_) => self.jump(label),
            None => Err(Fault::CompareMissing),
        }
    }
}


/// Stepping with the program counter at or past the end of the program
/// always aborts, and mutates nothing: not a register, not the flag, not
/// the counter itself.
pub proof fn lemma_overflow_step_mutates_nothing(
    prog: Seq<Command>,
    labels: Map<Seq<char>, u64>,
    n_inputs: nat,
    n_outputs: nat,
    pre: MachineState,
    post: MachineState,
    r: Result<(), Fault>,
)
    requires
        pre.pc as int >= prog.len(),
        step_rel(prog, labels, n_inputs, n_outputs, pre, post, r),
    ensures
        post == pre,
        r == Err::<(), Fault>(Fault::ProgramCounterOverflow),
{
}

/// The wrapping law, first half: one step of an unsigned add of two
/// constants into a register succeeds and stores their sum modulo 2^64.
pub proof fn lemma_unsigned_add_wraps(
    prog: Seq<Command>,
    labels: Map<Seq<char>, u64>,
    n_inputs: nat,
    n_outputs: nat,
    pre: MachineState,
    post: MachineState,
    r: Result<(), Fault>,
    a: u64,
    b: u64,
    d: u64,
)
    requires
        pre.pc < u64::MAX,
        (pre.pc as int) < prog.len(),
        prog[pre.pc as int] == Command::UAdd(
            Param::UConstant(a),
            Param::UConstant(b),
            Param::Register(d),
        ),
        step_rel(prog, labels, n_inputs, n_outputs, pre, post, r),
    ensures
        r == Ok::<(), Fault>(()),
        post.regs == pre.regs.insert(d, (((a + b) as int) % 0x1_0000_0000_0000_0000) as u64),
        post.pc == pre.pc + 1,
        post.flag == pre.flag,
{
    assert(u64_specs::wrapping_add(a, b) == (((a + b) as int) % 0x1_0000_0000_0000_0000) as u64)
        by (nonlinear_arith);
}

/// The wrapping law, second half: one step of an unsigned division by the
/// constant zero aborts with a division fault and stores nothing.
pub proof fn lemma_unsigned_div_zero_faults(
    prog: Seq<Command>,
    labels: Map<Seq<char>, u64>,
    n_inputs: nat,
    n_outputs: nat,
    pre: MachineState,
    post: MachineState,
    r: Result<(), Fault>,
    a: u64,
    d: u64,
)
    requires
        pre.pc < u64::MAX,
        (pre.pc as int) < prog.len(),
        prog[pre.pc as int] == Command::UDiv(
            Param::UConstant(a),
            Param::UConstant(0),
            Param::Register(d),
        ),
        step_rel(prog, labels, n_inputs, n_outputs, pre, post, r),
    ensures
        r == Err::<(), Fault>(Fault::DivisionByZero),
        post.regs == pre.regs,
        post.flag == pre.flag,
        post.pc == pre.pc + 1,
{
}

/// A signed compare of two constants succeeds and sets the flag to their
/// three-way order, leaving the registers alone.
pub proof fn lemma_signed_compare_sets_flag(
    prog: Seq<Command>,
    labels: Map<Seq<char>, u64>,
    n_inputs: nat,
    n_outputs: nat,
    pre: MachineState,
    post: MachineState,
    r: Result<(), Fault>,
    x: i64,
    y: i64,
)
    requires
        pre.pc < u64::MAX,
        (pre.pc as int) < prog.len(),
        prog[pre.pc as int] == Command::ICmp(Param::IConstant(x), Param::IConstant(y)),
        step_rel(prog, labels, n_inputs, n_outputs, pre, post, r),
    ensures
        r == Ok::<(), Fault>(()),
        post.flag == Some(order_of(x as int, y as int)),
        post.regs == pre.regs,
        post.pc == pre.pc + 1,
{
}

/// The branch law, taken half: with the flag holding Less and the label
/// known, a jless step transfers control to the label's address.
pub proof fn lemma_jless_taken(
    prog: Seq<Command>,
    labels: Map<Seq<char>, u64>,
    n_inputs: nat,
    n_outputs: nat,
    pre: MachineState,
    post: MachineState,
    r: Result<(), Fault>,
    lbl: String,
)
    requires
        (pre.pc as int) < prog.len(),
        prog[pre.pc as int] == Command::JLess(lbl),
        pre.flag == Some(Ordering::Less),
        labels.contains_key(lbl@),
        step_rel(prog, labels, n_inputs, n_outputs, pre, post, r),
    ensures
        r == Ok::<(), Fault>(()),
        post.pc == labels[lbl@],
        post.regs == pre.regs,
        post.flag == pre.flag,
{
}

/// The branch law, untaken half: with the flag holding Less, a jgre step
/// does not transfer control; execution falls through.
pub proof fn lemma_jgre_not_taken(
    prog: Seq<Command>,
    labels: Map<Seq<char>, u64>,
    n_inputs: nat,
    n_outputs: nat,
    pre: MachineState,
    post: MachineState,
    r: Result<(), Fault>,
    lbl: String,
)
    requires
        pre.pc < u64::MAX,
        (pre.pc as int) < prog.len(),
        prog[pre.pc as int] == Command::JGre(lbl),
        pre.flag == Some(Ordering::Less),
        step_rel(prog, labels, n_inputs, n_outputs, pre, post, r),
    ensures
        r == Ok::<(), Fault>(()),
        post.pc == pre.pc + 1,
        post.regs == pre.regs,
        post.flag == pre.flag,
{
}

/// The branch law in full: for signed x < y, a compare of x and y followed
/// by a conditional jump transfers control to the label's address under
/// jless and falls through under jgre.
pub proof fn lemma_branch_law(
    prog: Seq<Command>,
    labels: Map<Seq<char>, u64>,
    n_inputs: nat,
    n_outputs: nat,
    s0: MachineState,
    s1: MachineState,
    s2: MachineState,
    r1: Result<(), Fault>,
    r2: Result<(), Fault>,
    x: i64,
    y: i64,
    lbl: String,
)
    requires
        x < y,
        s0.pc < u64::MAX - 1,
        s0.pc as int + 1 < prog.len(),
        prog[s0.pc as int] == Command::ICmp(Param::IConstant(x), Param::IConstant(y)),
        prog[s0.pc as int + 1] == Command::JLess(lbl) || prog[s0.pc as int + 1]
            == Command::JGre(lbl),
        labels.contains_key(lbl@),
        step_rel(prog, labels, n_inputs, n_outputs, s0, s1, r1),
        step_rel(prog, labels, n_inputs, n_outputs, s1, s2, r2),
    ensures
        r1 == Ok::<(), Fault>(()),
        r2 == Ok::<(), Fault>(()),
        prog[s0.pc as int + 1] == Command::JLess(lbl) ==> s2.pc == labels[lbl@],
        prog[s0.pc as int + 1] == Command::JGre(lbl) ==> s2.pc == s0.pc + 2,
        s2.regs == s0.regs,
{
    lemma_signed_compare_sets_flag(prog, labels, n_inputs, n_outputs, s0, s1, r1, x, y);
    if prog[s0.pc as int + 1] == Command::JLess(lbl) {
        lemma_jless_taken(prog, labels, n_inputs, n_outputs, s1, s2, r2, lbl);
    } else {
        lemma_jgre_not_taken(prog, labels, n_inputs, n_outputs, s1, s2, r2, lbl);
    }
}

} // verus!
