//! Compiled chunks: instruction stream, constants pool, upvalue captures.
//!
//! A chunk's code is a byte vector of whole instructions, each an opcode
//! followed by 1 to 3 operand bytes. Operands are 8-bit: registers occupy
//! `[0, MAX_REGISTERS)` and constant-pool indices `[MAX_REGISTERS, 256)`.
//! Jump displacements are signed 8-bit offsets measured from the
//! displacement byte itself; they are first emitted as placeholders and
//! backpatched in place. Ghost state records instruction starts and every
//! finalized jump site, so a well-formed chunk carries the proof that every
//! backpatched jump lands inside the code and on an instruction boundary.

use vstd::prelude::*;
use crate::error::{error_str, HissyError};

verus! {

/// The instruction set. Exact byte values are given by [`instr_byte`] and are
/// stable within a program file format version.
#[derive(Clone, Copy, PartialEq, Eq, Structural, Debug)]
pub enum InstrType {
    Cpy,
    GetUp,
    SetUp,
    Add,
    Sub,
    Mul,
    Div,
    Mod,
    Pow,
    Leq,
    Geq,
    Lth,
    Gth,
    Eq,
    Neq,
    And,
    Or,
    Not,
    Neg,
    Call,
    Func,
    Jmp,
    Jif,
    Log,
    Ret,
}

/// The opcode byte of an instruction.
pub open spec fn spec_instr_byte(op: InstrType) -> u8 {
    match op {
        InstrType::Cpy => 0,
        InstrType::GetUp => 1,
        InstrType::SetUp => 2,
        InstrType::Add => 3,
        InstrType::Sub => 4,
        InstrType::Mul => 5,
        InstrType::Div => 6,
        InstrType::Mod => 7,
        InstrType::Pow => 8,
        InstrType::Leq => 9,
        InstrType::Geq => 10,
        InstrType::Lth => 11,
        InstrType::Gth => 12,
        InstrType::Eq => 13,
        InstrType::Neq => 14,
        InstrType::And => 15,
        InstrType::Or => 16,
        InstrType::Not => 17,
        InstrType::Neg => 18,
        InstrType::Call => 19,
        InstrType::Func => 20,
        InstrType::Jmp => 21,
        InstrType::Jif => 22,
        InstrType::Log => 23,
        InstrType::Ret => 24,
    }
}

/// The opcode byte of an instruction.
#[verifier::when_used_as_spec(spec_instr_byte)]
pub fn instr_byte(op: InstrType) -> (b: u8)
    ensures
        b == spec_instr_byte(op),
{
    match op {
        InstrType::Cpy => 0,
        InstrType::GetUp => 1,
        InstrType::SetUp => 2,
        InstrType::Add => 3,
        InstrType::Sub => 4,
        InstrType::Mul => 5,
        InstrType::Div => 6,
        InstrType::Mod => 7,
        InstrType::Pow => 8,
        InstrType::Leq => 9,
        InstrType::Geq => 10,
        InstrType::Lth => 11,
        InstrType::Gth => 12,
        InstrType::Eq => 13,
        InstrType::Neq => 14,
        InstrType::And => 15,
        InstrType::Or => 16,
        InstrType::Not => 17,
        InstrType::Neg => 18,
        InstrType::Call => 19,
        InstrType::Func => 20,
        InstrType::Jmp => 21,
        InstrType::Jif => 22,
        InstrType::Log => 23,
        InstrType::Ret => 24,
    }
}

/// The instruction with the given opcode byte, if any.
pub fn instr_from_byte(b: u8) -> (r: Option<InstrType>)
    ensures
        b <= 24 ==> (r matches Some(op) && spec_instr_byte(op) == b),
        b > 24 ==> r is None,
{
    match b {
        0 => Some(InstrType::Cpy),
        1 => Some(InstrType::GetUp),
        2 => Some(InstrType::SetUp),
        3 => Some(InstrType::Add),
        4 => Some(InstrType::Sub),
        5 => Some(InstrType::Mul),
        6 => Some(InstrType::Div),
        7 => Some(InstrType::Mod),
        8 => Some(InstrType::Pow),
        9 => Some(InstrType::Leq),
        10 => Some(InstrType::Geq),
        11 => Some(InstrType::Lth),
        12 => Some(InstrType::Gth),
        13 => Some(InstrType::Eq),
        14 => Some(InstrType::Neq),
        15 => Some(InstrType::And),
        16 => Some(InstrType::Or),
        17 => Some(InstrType::Not),
        18 => Some(InstrType::Neg),
        19 => Some(InstrType::Call),
        20 => Some(InstrType::Func),
        21 => Some(InstrType::Jmp),
        22 => Some(InstrType::Jif),
        23 => Some(InstrType::Log),
        24 => Some(InstrType::Ret),
        _ => None,
    }
}

/// A constants-pool entry. Reals carry their raw IEEE-754 bit pattern, so
/// pool deduplication compares NaNs bitwise, as specified.
pub enum ChunkConstant {
    Nil,
    Bool(bool),
    Int(i32),
    Real(u64),
    Str(String),
    Function(u8),
}

/// Structural equality of pool entries, the pool's deduplication relation.
pub open spec fn cc_eq(a: ChunkConstant, b: ChunkConstant) -> bool {
    match (a, b) {
        (ChunkConstant::Nil, ChunkConstant::Nil) => true,
        (ChunkConstant::Bool(x), ChunkConstant::Bool(y)) => x == y,
        (ChunkConstant::Int(x), ChunkConstant::Int(y)) => x == y,
        (ChunkConstant::Real(x), ChunkConstant::Real(y)) => x == y,
        (ChunkConstant::Str(x), ChunkConstant::Str(y)) => x@ == y@,
        (ChunkConstant::Function(x), ChunkConstant::Function(y)) => x == y,
        _ => false,
    }
}

/// Decides [`cc_eq`] on two pool entries.
pub fn constant_eq(a: &ChunkConstant, b: &ChunkConstant) -> (r: bool)
    ensures
        r == cc_eq(*a, *b),
{
    match (a, b) {
        (ChunkConstant::Nil, ChunkConstant::Nil) => true,
        (ChunkConstant::Bool(x), ChunkConstant::Bool(y)) => x == y,
        (ChunkConstant::Int(x), ChunkConstant::Int(y)) => x == y,
        (ChunkConstant::Real(x), ChunkConstant::Real(y)) => x == y,
        (ChunkConstant::Str(x), ChunkConstant::Str(y)) => x.eq(y),
        (ChunkConstant::Function(x), ChunkConstant::Function(y)) => x == y,
        _ => false,
    }
}

/// Optional per-chunk debug metadata.
pub struct DebugInfo {
    /// The function's name (`<main>` for the top level, `<func>` when
    /// anonymous and unhinted).
    pub name: String,
    /// The name captured by each upvalue slot.
    pub upvalue_names: Vec<String>,
    /// Ordered pairs of (instruction offset, source line).
    pub line_numbers: Vec<(usize, u16)>,
}

/// A compiled function body.
pub struct Chunk {
    /// Encoded instruction stream.
    pub code: Vec<u8>,
    /// Deduplicated constants pool, addressed by operands at or above
    /// `MAX_REGISTERS`.
    pub constants: Vec<ChunkConstant>,
    /// For each upvalue slot, the encoded operand in the parent chunk that
    /// supplies its initial value: a local register below `MAX_REGISTERS`,
    /// or a parent upvalue slot offset by `MAX_REGISTERS`.
    pub upvalues: Vec<u8>,
    /// Watermark: the maximum number of registers live at any point.
    pub nb_registers: u16,
    /// Debug metadata (meaningful when compiled with debug info).
    pub debug_info: DebugInfo,
    /// Ghost: offsets at which instructions start.
    pub starts: Ghost<Seq<int>>,
    /// Ghost: offsets of displacement bytes whose jump has been finalized.
    pub jump_sites: Ghost<Seq<int>>,
    /// Ghost: the register-allocation state of this chunk's compilation at
    /// close; `nb_registers` records its watermark.
    pub closed_regs: Ghost<crate::registers::ChunkRegisters>,
    /// Ghost: the context's upvalue list at close; the chunk's capture
    /// vector holds exactly its encoded operands, in order.
    pub closed_upvalues: Ghost<Seq<crate::context::UpvalueBinding>>,
}

impl Chunk {
    /// Whether `t` is an instruction boundary: the start of an emitted
    /// instruction, or the current end of code.
    pub open spec fn boundary(self, t: int) -> bool {
        self.starts@.contains(t) || t == self.code@.len()
    }

    /// The target of the finalized jump whose displacement byte is at `s`.
    pub open spec fn jump_target(self, s: int) -> int {
        s + (self.code@[s] as i8)
    }

    /// A finalized jump site is in range and its displacement lands inside
    /// the code, on an instruction boundary.
    pub open spec fn jump_site_ok(self, s: int) -> bool {
        &&& 0 <= s < self.code@.len()
        &&& 0 <= self.jump_target(s) <= self.code@.len()
        &&& self.boundary(self.jump_target(s))
    }

    /// Chunk well-formedness: instruction starts lie inside the code, every
    /// finalized jump is sound, and the pool and watermark respect their
    /// caps.
    pub open spec fn wf(self) -> bool {
        &&& forall|i: int|
            0 <= i < self.starts@.len() ==> 0 <= #[trigger] self.starts@[i] < self.code@.len()
        &&& forall|i: int|
            0 <= i < self.jump_sites@.len() ==> self.jump_site_ok(#[trigger] self.jump_sites@[i])
        &&& self.constants@.len() <= 128
        &&& self.nb_registers <= 128
        &&& forall|i: int, j: int|
            0 <= i < j < self.debug_info.line_numbers@.len()
                ==> self.debug_info.line_numbers@[i].0 <= self.debug_info.line_numbers@[j].0
        &&& forall|i: int|
            0 <= i < self.debug_info.line_numbers@.len() ==> (#[trigger] self.debug_info.line_numbers@[i]).0 <= self.code@.len()
    }

    /// A fresh, empty chunk.
    pub fn new() -> (c: Chunk)
        ensures
            c.wf(),
            c.code@.len() == 0,
            c.constants@.len() == 0,
            c.upvalues@.len() == 0,
            c.nb_registers == 0,
            c.starts@.len() == 0,
            c.jump_sites@.len() == 0,
            c.debug_info.name@.len() == 0,
            c.debug_info.upvalue_names@.len() == 0,
            c.debug_info.line_numbers@.len() == 0,
    {
        Chunk {
            code: Vec::new(),
            constants: Vec::new(),
            upvalues: Vec::new(),
            nb_registers: 0,
            debug_info: DebugInfo {
                name: String::new(),
                upvalue_names: Vec::new(),
                line_numbers: Vec::new(),
            },
            starts: Ghost(Seq::empty()),
            jump_sites: Ghost(Seq::empty()),
            closed_regs: Ghost(crate::registers::ChunkRegisters { required: 0, used: 0, local_cnt: 0 }),
            closed_upvalues: Ghost(Seq::empty()),
        }
    }

    /// Current length of the instruction stream.
    pub fn code_len(&self) -> (n: usize)
        ensures
            n == self.code@.len(),
    {
        self.code.len()
    }

    /// What every append-only emission guarantees besides the new bytes.
    pub open spec fn emit_frame(c0: Chunk, c1: Chunk) -> bool {
        &&& c1.starts@ == c0.starts@.push(c0.code@.len() as int)
        &&& c1.jump_sites@ == c0.jump_sites@
        &&& c1.constants@ == c0.constants@
        &&& c1.upvalues@ == c0.upvalues@
        &&& c1.nb_registers == c0.nb_registers
        &&& c1.debug_info == c0.debug_info
        &&& chunk_extends(c0, c1)
        &&& c1.wf()
    }

    proof fn lemma_emit_frame(c0: Chunk, c1: Chunk)
        requires
            c0.wf(),
            c1.code@.subrange(0, c0.code@.len() as int) == c0.code@,
            c1.code@.len() > c0.code@.len(),
            c1.starts@ == c0.starts@.push(c0.code@.len() as int),
            c1.jump_sites@ == c0.jump_sites@,
            c1.constants@ == c0.constants@,
            c1.upvalues@ == c0.upvalues@,
            c1.nb_registers == c0.nb_registers,
            c1.debug_info == c0.debug_info,
        ensures
            Chunk::emit_frame(c0, c1),
    {
        let n0 = c0.code@.len() as int;
        assert forall|t: int| c0.boundary(t) implies #[trigger] c1.boundary(t) by {
            if c0.starts@.contains(t) {
                let i = choose|i: int| 0 <= i < c0.starts@.len() && c0.starts@[i] == t;
                assert(c1.starts@[i] == t);
            } else {
                assert(c1.starts@[c0.starts@.len() as int] == n0);
            }
        }
        assert forall|i: int| 0 <= i < c1.starts@.len() implies 0 <= #[trigger] c1.starts@[i]
            < c1.code@.len() by {
            if i < c0.starts@.len() {
                assert(c0.starts@[i] == c1.starts@[i]);
            }
        }
        assert forall|i: int| 0 <= i < c1.jump_sites@.len() implies c1.jump_site_ok(
            #[trigger] c1.jump_sites@[i],
        ) by {
            let s = c0.jump_sites@[i];
            assert(c0.jump_site_ok(s));
            assert(c1.code@.subrange(0, c0.code@.len() as int)[s] == c0.code@[s]);
            assert(c1.code@[s] == c0.code@[s]);
            assert(c1.boundary(c0.jump_target(s)));
        }
        assert(c0.jump_sites@.is_prefix_of(c1.jump_sites@)) by {
            assert(c1.jump_sites@.subrange(0, c0.jump_sites@.len() as int) =~= c0.jump_sites@);
        }
        assert(c0.constants@.is_prefix_of(c1.constants@)) by {
            assert(c1.constants@.subrange(0, c0.constants@.len() as int) =~= c0.constants@);
        }
    }

    /// Appends a whole instruction with one operand byte.
    pub fn emit_instr1(&mut self, op: InstrType, a: u8)
        requires
            old(self).wf(),
        ensures
            final(self).code@ == old(self).code@ + seq![spec_instr_byte(op), a],
            Chunk::emit_frame(*old(self), *final(self)),
    {
        let ghost c0 = *self;
        self.code.push(instr_byte(op));
        self.code.push(a);
        proof {
            self.starts@ = c0.starts@.push(c0.code@.len() as int);
            assert(self.code@ =~= c0.code@ + seq![spec_instr_byte(op), a]);
            assert(self.code@.subrange(0, c0.code@.len() as int) =~= c0.code@);
            Chunk::lemma_emit_frame(c0, *self);
        }
    }

    /// Appends a whole instruction with two operand bytes.
    pub fn emit_instr2(&mut self, op: InstrType, a: u8, b: u8)
        requires
            old(self).wf(),
        ensures
            final(self).code@ == old(self).code@ + seq![spec_instr_byte(op), a, b],
            Chunk::emit_frame(*old(self), *final(self)),
    {
        let ghost c0 = *self;
        self.code.push(instr_byte(op));
        self.code.push(a);
        self.code.push(b);
        proof {
            self.starts@ = c0.starts@.push(c0.code@.len() as int);
            assert(self.code@ =~= c0.code@ + seq![spec_instr_byte(op), a, b]);
            assert(self.code@.subrange(0, c0.code@.len() as int) =~= c0.code@);
            Chunk::lemma_emit_frame(c0, *self);
        }
    }

    /// Appends a whole instruction with three operand bytes.
    pub fn emit_instr3(&mut self, op: InstrType, a: u8, b: u8, c: u8)
        requires
            old(self).wf(),
        ensures
            final(self).code@ == old(self).code@ + seq![spec_instr_byte(op), a, b, c],
            Chunk::emit_frame(*old(self), *final(self)),
    {
        let ghost c0 = *self;
        self.code.push(instr_byte(op));
        self.code.push(a);
        self.code.push(b);
        self.code.push(c);
        proof {
            self.starts@ = c0.starts@.push(c0.code@.len() as int);
            assert(self.code@ =~= c0.code@ + seq![spec_instr_byte(op), a, b, c]);
            assert(self.code@.subrange(0, c0.code@.len() as int) =~= c0.code@);
            Chunk::lemma_emit_frame(c0, *self);
        }
    }

    /// Emits `Jif placeholder, cond` and returns the offset of the
    /// placeholder displacement byte, to be backpatched later.
    pub fn emit_jif(&mut self, cond: u8) -> (site: usize)
        requires
            old(self).wf(),
        ensures
            final(self).code@ == old(self).code@ + seq![spec_instr_byte(InstrType::Jif), 0u8, cond],
            Chunk::emit_frame(*old(self), *final(self)),
            site == old(self).code@.len() + 1,
    {
        self.emit_instr2(InstrType::Jif, 0, cond);
        self.code.len() - 2
    }

    /// Emits `Jmp placeholder` and returns the offset of the placeholder
    /// displacement byte, to be backpatched later.
    pub fn emit_jmp_placeholder(&mut self) -> (site: usize)
        requires
            old(self).wf(),
        ensures
            final(self).code@ == old(self).code@ + seq![spec_instr_byte(InstrType::Jmp), 0u8],
            Chunk::emit_frame(*old(self), *final(self)),
            site == old(self).code@.len() + 1,
    {
        self.emit_instr1(InstrType::Jmp, 0);
        self.code.len() - 1
    }
}

proof fn lemma_u8_as_i8(v: u8)
    ensures
        v < 128 ==> (v as i8) == v as int,
        v >= 128 ==> (v as i8) == v - 256,
{
    assert(v < 128 ==> (v as i8) == v as int) by (bit_vector);
    assert(v >= 128 ==> (v as i8) == v as int - 256) by (bit_vector);
}

impl Chunk {
    /// Backpatches the placeholder displacement byte at `add` so that the
    /// jump lands at the current end of code. Fails with "Jump too large"
    /// exactly when the displacement does not fit in a signed byte.
    pub fn fill_in_jump_from(&mut self, add: usize) -> (r: Result<(), HissyError>)
        requires
            old(self).wf(),
            add < old(self).code@.len(),
            !old(self).jump_sites@.contains(add as int),
        ensures
            old(self).code@.len() - add <= 127 <==> r is Ok,
            r matches Err(e) ==> e.kind == crate::error::ErrorType::Compilation && e.message@
                == "Jump too large"@ && e.line == 0,
            r is Ok ==> {
                &&& final(self).code@ == old(self).code@.update(
                    add as int,
                    (old(self).code@.len() - add) as u8,
                )
                &&& final(self).jump_sites@ == old(self).jump_sites@.push(add as int)
                &&& final(self).jump_target(add as int) == old(self).code@.len()
                &&& final(self).starts@ == old(self).starts@
                &&& final(self).constants@ == old(self).constants@
                &&& final(self).upvalues@ == old(self).upvalues@
                &&& final(self).nb_registers == old(self).nb_registers
                &&& final(self).debug_info == old(self).debug_info
                &&& final(self).code@.len() == old(self).code@.len()
                &&& final(self).wf()
                &&& chunk_extends_from(*old(self), *final(self), add as int)
            },
            r is Err ==> *final(self) == *old(self),
    {
        let ghost c0 = *self;
        let to = self.code.len();
        let diff = to - add;
        if diff > 127 {
            return Err(error_str("Jump too large"));
        }
        let rel: u8 = diff as u8;
        self.code[add] = rel;
        proof {
            self.jump_sites@ = c0.jump_sites@.push(add as int);
            lemma_u8_as_i8(rel);
            assert(self.jump_site_ok(add as int));
            assert forall|t: int| c0.boundary(t) implies #[trigger] self.boundary(t) by {}
            assert forall|i: int| 0 <= i < self.jump_sites@.len() implies self.jump_site_ok(
                #[trigger] self.jump_sites@[i],
            ) by {
                if i < c0.jump_sites@.len() {
                    let s = c0.jump_sites@[i];
                    assert(c0.jump_site_ok(s));
                    assert(s != add as int);
                    assert(self.code@[s] == c0.code@[s]);
                }
            }
            assert(c0.jump_sites@.is_prefix_of(self.jump_sites@)) by {
                assert(self.jump_sites@.subrange(0, c0.jump_sites@.len() as int)
                    =~= c0.jump_sites@);
            }
            assert(c0.constants@.is_prefix_of(self.constants@)) by {
                assert(self.constants@.subrange(0, c0.constants@.len() as int)
                    =~= c0.constants@);
            }
        }
        Ok(())
    }

    /// Emits a whole `Jmp` whose displacement is final at emission, landing
    /// backward at `add` (used to close loops). Fails with "Jump too large"
    /// exactly when the displacement does not fit in a signed byte.
    pub fn emit_jump_to(&mut self, add: usize) -> (r: Result<(), HissyError>)
        requires
            old(self).wf(),
            old(self).boundary(add as int),
            add <= old(self).code@.len(),
        ensures
            old(self).code@.len() - add <= 127 <==> r is Ok,
            r matches Err(e) ==> e.kind == crate::error::ErrorType::Compilation && e.message@
                == "Jump too large"@ && e.line == 0,
            r is Ok ==> {
                &&& final(self).code@ == old(self).code@ + seq![
                    spec_instr_byte(InstrType::Jmp),
                    (255 - (old(self).code@.len() - add)) as u8,
                ]
                &&& final(self).jump_sites@ == old(self).jump_sites@.push(
                    old(self).code@.len() as int + 1,
                )
                &&& final(self).starts@ == old(self).starts@.push(old(self).code@.len() as int)
                &&& final(self).constants@ == old(self).constants@
                &&& final(self).upvalues@ == old(self).upvalues@
                &&& final(self).nb_registers == old(self).nb_registers
                &&& final(self).debug_info == old(self).debug_info
                &&& final(self).wf()
                &&& chunk_extends(*old(self), *final(self))
            },
            r is Err ==> *final(self) == *old(self),
    {
        let ghost c0 = *self;
        let from = self.code.len();
        let back = from - add;
        if back > 127 {
            return Err(error_str("Jump too large"));
        }
        let rel: u8 = (255 - back) as u8;
        self.emit_instr1(InstrType::Jmp, rel);
        let ghost c1 = *self;
        proof {
            let site = c0.code@.len() as int + 1;
            self.jump_sites@ = c0.jump_sites@.push(site);
            lemma_u8_as_i8(rel);
            assert(self.code@ == c1.code@ && self.starts@ == c1.starts@);
            assert(self.code@[site] == rel);
            assert(self.jump_target(site) == add as int);
            assert(c0.boundary(add as int) ==> c1.boundary(add as int));
            assert(self.boundary(add as int));
            assert(self.jump_site_ok(site));
            assert forall|i: int| 0 <= i < self.jump_sites@.len() implies self.jump_site_ok(
                #[trigger] self.jump_sites@[i],
            ) by {
                if i < c0.jump_sites@.len() {
                    assert(self.jump_sites@[i] == c1.jump_sites@[i]);
                    assert(c1.jump_site_ok(c1.jump_sites@[i]));
                }
            }
            assert(c0.jump_sites@.is_prefix_of(self.jump_sites@)) by {
                assert(self.jump_sites@.subrange(0, c0.jump_sites@.len() as int)
                    =~= c0.jump_sites@);
            }
            assert forall|t: int| c0.boundary(t) implies #[trigger] self.boundary(t) by {
                assert(c1.boundary(t));
            }
        }
        Ok(())
    }

    /// Interns `c` in the constants pool by structural equality and returns
    /// its operand encoding `MAX_REGISTERS + index`; two semantically equal
    /// literals share one slot. Fails exactly when `c` is new and the pool
    /// is full.
    pub fn compile_constant(&mut self, c: ChunkConstant) -> (r: Result<u8, HissyError>)
        requires
            old(self).wf(),
        ensures
            final(self).code@ == old(self).code@,
            final(self).starts@ == old(self).starts@,
            final(self).jump_sites@ == old(self).jump_sites@,
            final(self).upvalues@ == old(self).upvalues@,
            final(self).nb_registers == old(self).nb_registers,
            final(self).debug_info == old(self).debug_info,
            final(self).wf(),
            chunk_extends(*old(self), *final(self)),
            r matches Err(e) ==> e.kind == crate::error::ErrorType::Compilation && e.message@
                == "Too many constants in chunk"@ && e.line == 0,
            r is Err <==> ((forall|j: int|
                0 <= j < old(self).constants@.len() ==> !cc_eq(
                    #[trigger] old(self).constants@[j],
                    c,
                )) && old(self).constants@.len() >= 128),
            r is Err ==> final(self).constants@ == old(self).constants@,
            r matches Ok(op) ==> {
                &&& 128 <= op
                &&& op - 128 < final(self).constants@.len()
                &&& cc_eq(final(self).constants@[op - 128], c)
                &&& forall|j: int| 0 <= j < op - 128 ==> !cc_eq(#[trigger] final(self).constants@[j], c)
                &&& ((final(self).constants@ == old(self).constants@ && op - 128 < old(
                    self,
                ).constants@.len()) || (final(self).constants@ == old(self).constants@.push(c)
                    && op - 128 == old(self).constants@.len()))
            },
    {
        let ghost c0 = *self;
        let n = self.constants.len();
        let mut i: usize = 0;
        while i < n
            invariant
                n == self.constants@.len(),
                n <= 128,
                i <= n,
                *self == c0,
                c0.wf(),
                forall|j: int| 0 <= j < i ==> !cc_eq(#[trigger] self.constants@[j], c),
            decreases n - i,
        {
            if constant_eq(&self.constants[i], &c) {
                proof {
                    lemma_chunk_extends_refl(*self);
                }
                return Ok(128 + i as u8);
            }
            i = i + 1;
        }
        if n >= 128 {
            proof {
                lemma_chunk_extends_refl(*self);
            }
            return Err(error_str("Too many constants in chunk"));
        }
        self.constants.push(c);
        proof {
            assert(c0.jump_sites@.is_prefix_of(self.jump_sites@)) by {
                assert(self.jump_sites@.subrange(0, c0.jump_sites@.len() as int)
                    =~= c0.jump_sites@);
            }
            assert(c0.constants@.is_prefix_of(self.constants@)) by {
                assert(self.constants@.subrange(0, c0.constants@.len() as int) =~= c0.constants@);
            }
        }
        Ok(128 + n as u8)
    }

    /// Records that the statement starting at code offset `pos` came from
    /// source line `line`.
    pub fn push_line(&mut self, pos: usize, line: u16)
        requires
            old(self).wf(),
            pos == old(self).code@.len(),
        ensures
            final(self).wf(),
            *final(self) == (Chunk {
                debug_info: DebugInfo {
                    line_numbers: final(self).debug_info.line_numbers,
                    ..old(self).debug_info
                },
                ..*old(self)
            }),
            final(self).debug_info.line_numbers@ == old(self).debug_info.line_numbers@.push(
                (pos, line),
            ),
            chunk_extends(*old(self), *final(self)),
    {
        self.debug_info.line_numbers.push((pos, line));
        proof {
            lemma_chunk_extends_refl(Chunk { debug_info: old(self).debug_info, ..*self });
            let ln0 = old(self).debug_info.line_numbers@;
            assert(ln0.is_prefix_of(self.debug_info.line_numbers@)) by {
                assert(self.debug_info.line_numbers@.subrange(0, ln0.len() as int) =~= ln0);
            }
            assert(chunk_extends(*old(self), *self));
        }
    }

    /// Records the chunk's register watermark once compilation of its body
    /// is done.
    pub fn set_nb_registers(&mut self, n: u16)
        requires
            old(self).wf(),
            n <= 128,
        ensures
            final(self).wf(),
            *final(self) == (Chunk { nb_registers: n, ..*old(self) }),
    {
        self.nb_registers = n;
    }

    /// Appends one upvalue capture operand.
    pub fn push_upvalue(&mut self, reg: u8)
        requires
            old(self).wf(),
        ensures
            final(self).wf(),
            *final(self) == (Chunk { upvalues: final(self).upvalues, ..*old(self) }),
            final(self).upvalues@ == old(self).upvalues@.push(reg),
    {
        self.upvalues.push(reg);
    }

    /// Appends one upvalue name to the debug metadata.
    pub fn push_upvalue_name(&mut self, name: String)
        requires
            old(self).wf(),
        ensures
            final(self).wf(),
            *final(self) == (Chunk {
                debug_info: DebugInfo {
                    upvalue_names: final(self).debug_info.upvalue_names,
                    ..old(self).debug_info
                },
                ..*old(self)
            }),
            final(self).debug_info.upvalue_names@ == old(self).debug_info.upvalue_names@.push(
                name,
            ),
    {
        self.debug_info.upvalue_names.push(name);
    }

    /// Records the closing compilation state (ghost): the allocator whose
    /// watermark `nb_registers` holds, and the upvalue list the capture
    /// vector was taken from.
    pub fn record_close(
        &mut self,
        regs: Ghost<crate::registers::ChunkRegisters>,
        upvs: Ghost<Seq<crate::context::UpvalueBinding>>,
    )
        requires
            old(self).wf(),
        ensures
            final(self).wf(),
            *final(self) == (Chunk { closed_regs: regs, closed_upvalues: upvs, ..*old(self) }),
    {
        proof {
            self.closed_regs@ = regs@;
            self.closed_upvalues@ = upvs@;
        }
    }

    /// Sets the chunk's debug name.
    pub fn set_name(&mut self, name: String)
        requires
            old(self).wf(),
        ensures
            final(self).wf(),
            *final(self) == (Chunk {
                debug_info: DebugInfo { name: name, ..old(self).debug_info },
                ..*old(self)
            }),
    {
        self.debug_info.name = name;
    }
}

/// `c1` is `c0` grown by appending instructions, interning constants and
/// finalizing jumps: the code and pool are extended, boundaries persist, and
/// any newly finalized jump site lies at or above `floor`.
pub open spec fn chunk_extends_from(c0: Chunk, c1: Chunk, floor: int) -> bool {
    &&& c0.code@.len() <= c1.code@.len()
    &&& forall|t: int| c0.boundary(t) ==> #[trigger] c1.boundary(t)
    &&& c0.jump_sites@.is_prefix_of(c1.jump_sites@)
    &&& forall|i: int|
        c0.jump_sites@.len() <= i < c1.jump_sites@.len() ==> #[trigger] c1.jump_sites@[i] >= floor
    &&& c0.constants@.is_prefix_of(c1.constants@)
    &&& c1.upvalues@ == c0.upvalues@
    &&& c1.nb_registers == c0.nb_registers
    &&& c1.debug_info.name@ == c0.debug_info.name@
    &&& c1.debug_info.upvalue_names@ == c0.debug_info.upvalue_names@
    &&& c0.debug_info.line_numbers@.is_prefix_of(c1.debug_info.line_numbers@)
}

/// [`chunk_extends_from`] with the floor at `c0`'s end of code: every newly
/// finalized jump site lies in the appended code.
pub open spec fn chunk_extends(c0: Chunk, c1: Chunk) -> bool {
    chunk_extends_from(c0, c1, c0.code@.len() as int)
}

/// A chunk extension tolerates lowering the floor.
pub proof fn lemma_chunk_extends_weaken(c0: Chunk, c1: Chunk, f: int, g: int)
    requires
        chunk_extends_from(c0, c1, f),
        g <= f,
    ensures
        chunk_extends_from(c0, c1, g),
{
}

/// [`chunk_extends_from`] is transitive at a fixed floor.
pub proof fn lemma_chunk_extends_from_trans(c0: Chunk, c1: Chunk, c2: Chunk, f: int)
    requires
        chunk_extends_from(c0, c1, f),
        chunk_extends_from(c1, c2, f),
    ensures
        chunk_extends_from(c0, c2, f),
{
    assert(c0.jump_sites@.is_prefix_of(c2.jump_sites@)) by {
        assert(c2.jump_sites@.subrange(0, c0.jump_sites@.len() as int) =~= c0.jump_sites@);
    }
    assert(c0.constants@.is_prefix_of(c2.constants@)) by {
        assert(c2.constants@.subrange(0, c0.constants@.len() as int) =~= c0.constants@);
    }
    assert(c0.debug_info.line_numbers@.is_prefix_of(c2.debug_info.line_numbers@)) by {
        assert(c2.debug_info.line_numbers@.subrange(
            0,
            c0.debug_info.line_numbers@.len() as int,
        ) =~= c0.debug_info.line_numbers@);
    }
    assert forall|i: int| c0.jump_sites@.len() <= i < c2.jump_sites@.len() implies #[trigger] c2.jump_sites@[i] >= f by {
        if i < c1.jump_sites@.len() {
            assert(c2.jump_sites@[i] == c1.jump_sites@[i]);
        }
    }
}

/// [`chunk_extends`] is reflexive.
pub proof fn lemma_chunk_extends_refl(c: Chunk)
    ensures
        chunk_extends(c, c),
{
    assert(c.jump_sites@.is_prefix_of(c.jump_sites@)) by {
        assert(c.jump_sites@.subrange(0, c.jump_sites@.len() as int) =~= c.jump_sites@);
    }
    assert(c.constants@.is_prefix_of(c.constants@)) by {
        assert(c.constants@.subrange(0, c.constants@.len() as int) =~= c.constants@);
    }
    let ln = c.debug_info.line_numbers@;
    assert(ln.is_prefix_of(ln)) by {
        assert(ln.subrange(0, ln.len() as int) =~= ln);
    }
}

/// [`chunk_extends`] is transitive.
pub proof fn lemma_chunk_extends_trans(c0: Chunk, c1: Chunk, c2: Chunk)
    requires
        chunk_extends(c0, c1),
        chunk_extends(c1, c2),
    ensures
        chunk_extends(c0, c2),
{
    lemma_chunk_extends_weaken(c1, c2, c1.code@.len() as int, c0.code@.len() as int);
    lemma_chunk_extends_from_trans(c0, c1, c2, c0.code@.len() as int);
}

} // verus!
