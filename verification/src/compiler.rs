//! The single-pass bytecode compiler.
//!
//! A [`Compiler`] walks the abstract syntax tree with a stack of chunk
//! contexts (one per function being compiled) and a matching stack of open
//! chunks. Expressions compile into a destination register; statements keep
//! the temporary region drained, so that entering and leaving a block
//! restores the register allocator exactly; free identifiers materialize
//! upvalue slots in every chunk between their use and their defining local.

use vstd::prelude::*;
use vstd::string::StringExecFns;
use crate::ast::{
    block_size, branches_size, cond_size, expr_size, exprs_size, lemma_block_size_elem,
    lemma_branches_size_elem, lemma_exprs_size_elem, stat_size, BinOp, Block, Cond, Expr,
    Positioned, Stat, UnaOp,
};
use crate::chunk::{
    chunk_extends, chunk_extends_from, lemma_chunk_extends_from_trans, lemma_chunk_extends_refl,
    lemma_chunk_extends_trans, lemma_chunk_extends_weaken, spec_instr_byte, Chunk, ChunkConstant,
    InstrType,
};
use crate::context::{
    blocks_view, find_in_block, find_local, find_upvalue, flat, lemma_chunk_binding_local,
    lemma_find_upvalue_push, Binding, ChunkContext, Context, LocalBinding, UpvalueBinding,
};
use crate::error::{error, error_str, ErrorType, HissyError};
use crate::registers::MAX_REGISTERS;

verus! {

/// A compiled program: an ordered list of chunks, chunk 0 being the
/// top-level `<main>` chunk.
pub struct Program {
    /// Whether debug metadata was recorded.
    pub debug_info: bool,
    /// The chunks, indexed by the 8-bit chunk id used in `Func`
    /// instructions.
    pub chunks: Vec<Chunk>,
}

/// The open-chunk stack: all chunks ever entered, by id, plus the stack of
/// ids still open; the innermost open chunk receives all emissions.
pub struct ChunkManager {
    pub chunks: Vec<Chunk>,
    pub stack: Vec<usize>,
}

impl ChunkManager {
    /// Index of the chunk currently receiving emissions.
    pub open spec fn cur_idx(self) -> int {
        self.stack@.last() as int
    }

    /// The chunk currently receiving emissions.
    pub open spec fn cur(self) -> Chunk {
        self.chunks@[self.cur_idx()]
    }

    /// Manager well-formedness: open ids index real chunks, from the
    /// outside in, and every chunk is well-formed.
    pub open spec fn wf(self) -> bool {
        &&& forall|i: int|
            0 <= i < self.stack@.len() ==> (#[trigger] self.stack@[i]) < self.chunks@.len()
        &&& forall|i: int, j: int|
            0 <= i < j < self.stack@.len() ==> self.stack@[i] < self.stack@[j]
        &&& forall|i: int| 0 <= i < self.chunks@.len() ==> (#[trigger] self.chunks@[i]).wf()
    }

    /// An empty manager.
    pub fn new() -> (m: ChunkManager)
        ensures
            m.wf(),
            m.chunks@.len() == 0,
            m.stack@.len() == 0,
    {
        ChunkManager { chunks: Vec::new(), stack: Vec::new() }
    }

    /// The index of the current chunk.
    fn cur_index(&self) -> (i: usize)
        requires
            self.wf(),
            self.stack@.len() > 0,
        ensures
            i == self.cur_idx(),
            i < self.chunks@.len(),
    {
        let n = self.stack.len();
        self.stack[n - 1]
    }

    /// Opens a fresh chunk and makes it current; its id is its index.
    pub fn enter(&mut self) -> (idx: usize)
        requires
            old(self).wf(),
        ensures
            final(self).wf(),
            idx == old(self).chunks@.len(),
            final(self).chunks@ == old(self).chunks@.push(final(self).cur()),
            final(self).stack@ == old(self).stack@.push(idx),
            final(self).cur().code@.len() == 0,
            final(self).cur().constants@.len() == 0,
            final(self).cur().upvalues@.len() == 0,
            final(self).cur().nb_registers == 0,
            final(self).cur().jump_sites@.len() == 0,
            final(self).cur().starts@.len() == 0,
            final(self).cur().debug_info.name@.len() == 0,
            final(self).cur().debug_info.upvalue_names@.len() == 0,
            final(self).cur().debug_info.line_numbers@.len() == 0,
            final(self).cur().wf(),
    {
        let idx = self.chunks.len();
        self.chunks.push(Chunk::new());
        self.stack.push(idx);
        idx
    }

    /// Closes the current chunk (it stays in place, immutable from now on)
    /// and resumes its parent.
    pub fn leave(&mut self)
        requires
            old(self).wf(),
            old(self).stack@.len() > 0,
        ensures
            final(self).wf(),
            final(self).chunks@ == old(self).chunks@,
            final(self).stack@ == old(self).stack@.drop_last(),
    {
        self.stack.pop().unwrap();
    }

    /// Hands out the finished chunks.
    pub fn finish(self) -> (r: Vec<Chunk>)
        ensures
            r == self.chunks,
    {
        self.chunks
    }
}

/// `m1` is `m0` with the same open-chunk stack, the current chunk extended,
/// other existing chunks untouched, and possibly new (closed) chunks
/// appended.
pub open spec fn mgr_extends(m0: ChunkManager, m1: ChunkManager) -> bool {
    &&& m0.stack@.len() > 0
    &&& m1.stack@ == m0.stack@
    &&& m1.chunks@.len() >= m0.chunks@.len()
    &&& forall|i: int|
        0 <= i < m0.chunks@.len() && i != m0.cur_idx() ==> m1.chunks@[i] == m0.chunks@[i]
    &&& chunk_extends(m0.cur(), m1.cur())
}

/// [`mgr_extends`] is reflexive.
pub proof fn lemma_mgr_extends_refl(m: ChunkManager)
    requires
        m.stack@.len() > 0,
    ensures
        mgr_extends(m, m),
{
    lemma_chunk_extends_refl(m.cur());
}

/// [`mgr_extends`] is transitive.
pub proof fn lemma_mgr_extends_trans(m0: ChunkManager, m1: ChunkManager, m2: ChunkManager)
    requires
        mgr_extends(m0, m1),
        mgr_extends(m1, m2),
    ensures
        mgr_extends(m0, m2),
{
    lemma_chunk_extends_trans(m0.cur(), m1.cur(), m2.cur());
}

/// What any compilation step preserves of one chunk context: blocks
/// untouched, upvalues only appended; registers untouched in enclosing
/// chunks, and in the current chunk the local prefix is kept and the
/// watermark only rises.
pub open spec fn ctx_frame(c0: ChunkContext, c1: ChunkContext, is_cur: bool) -> bool {
    &&& c1.blocks@ == c0.blocks@
    &&& c0.upvalues@.is_prefix_of(c1.upvalues@)
    &&& if is_cur {
        c1.regs.required >= c0.regs.required && c1.regs.local_cnt == c0.regs.local_cnt
    } else {
        c1.regs == c0.regs
    }
}

/// The two compiler states are indistinguishable: every stack and chunk
/// has the same view.
pub open spec fn state_eq(s0: Compiler, s1: Compiler) -> bool {
    &&& s1.debug_info == s0.debug_info
    &&& s1.ctx.stack@ == s0.ctx.stack@
    &&& s1.chunk.stack@ == s0.chunk.stack@
    &&& s1.chunk.chunks@ == s0.chunk.chunks@
}

/// The 1:1 map from binary operators to instructions.
pub open spec fn binop_instr(op: BinOp) -> InstrType {
    match op {
        BinOp::Plus => InstrType::Add,
        BinOp::Minus => InstrType::Sub,
        BinOp::Times => InstrType::Mul,
        BinOp::Divides => InstrType::Div,
        BinOp::Modulo => InstrType::Mod,
        BinOp::Power => InstrType::Pow,
        BinOp::LEq => InstrType::Leq,
        BinOp::GEq => InstrType::Geq,
        BinOp::Less => InstrType::Lth,
        BinOp::Greater => InstrType::Gth,
        BinOp::Equal => InstrType::Eq,
        BinOp::NEq => InstrType::Neq,
        BinOp::And => InstrType::And,
        BinOp::Or => InstrType::Or,
    }
}

/// The 1:1 map from unary operators to instructions.
pub open spec fn unaop_instr(op: UnaOp) -> InstrType {
    match op {
        UnaOp::Not => InstrType::Not,
        UnaOp::Minus => InstrType::Neg,
    }
}

/// Whether an expression is a literal form.
pub open spec fn is_literal(e: Expr) -> bool {
    match e {
        Expr::Nil => true,
        Expr::Bool(_) => true,
        Expr::Int(_) => true,
        Expr::Real(_) => true,
        Expr::Str(_) => true,
        _ => false,
    }
}

/// The pool entry a literal interns.
pub open spec fn literal_constant(e: Expr) -> ChunkConstant {
    match e {
        Expr::Bool(b) => ChunkConstant::Bool(b),
        Expr::Int(i) => ChunkConstant::Int(i),
        Expr::Real(x) => ChunkConstant::Real(x),
        Expr::Str(s) => ChunkConstant::Str(s),
        _ => ChunkConstant::Nil,
    }
}

/// `cc` is interned at pool index `i` of `c`: it is the first entry there
/// structurally equal to `cc`.
pub open spec fn interned(c: Chunk, i: int, cc: ChunkConstant) -> bool {
    &&& 0 <= i < c.constants@.len()
    &&& crate::chunk::cc_eq(c.constants@[i], cc)
    &&& forall|j: int| 0 <= j < i ==> !crate::chunk::cc_eq(#[trigger] c.constants@[j], cc)
}

/// Interning survives pool growth: the entry and everything before it are
/// unchanged.
pub proof fn lemma_interned_prefix(c0: Chunk, c1: Chunk, i: int, cc: ChunkConstant)
    requires
        c0.constants@.is_prefix_of(c1.constants@),
        interned(c0, i, cc),
    ensures
        interned(c1, i, cc),
{
    assert forall|j: int| 0 <= j <= i implies c1.constants@[j] == c0.constants@[j] by {
        assert(c1.constants@.subrange(0, c0.constants@.len() as int)[j] == c1.constants@[j]);
    }
}

/// The operand byte of a one-operand statement instruction, for the source
/// forms whose register the contract can name: a literal's interned pool
/// operand, or a local identifier's register.
pub open spec fn stat_operand_ok(s0: Compiler, c1: Chunk, e: Expr, b: u8) -> bool {
    &&& (is_literal(e) ==> b >= MAX_REGISTERS && interned(c1, b - MAX_REGISTERS, literal_constant(e)))
    &&& (e matches Expr::Id(nm) ==> (s0.cur_ctx().chunk_binding(nm@) matches Some(
        Binding::Local(l),
    ) ==> b == l))
}

/// What each expression form emits into the current chunk, per the
/// statement of expression compilation: literals intern a pool operand and
/// emit nothing (a trailing `Cpy` only when a destination is supplied);
/// identifiers come straight from their local register or through `GetUp`;
/// operators, calls and function literals each end in their one
/// instruction, whose final operand byte is the result register.
/// What a literal emits: nothing without a destination (the result is its
/// interned pool operand); one `Cpy` from the pool operand otherwise.
pub open spec fn literal_emitted(
    s0: Compiler,
    s1: Compiler,
    cc: ChunkConstant,
    dest: Option<u8>,
    reg: u8,
) -> bool {
    let c0 = s0.chunk.cur();
    let c1 = s1.chunk.cur();
    let n = c1.code@.len() as int;
    match dest {
        None => {
            &&& c1.code@ == c0.code@
            &&& reg >= MAX_REGISTERS
            &&& interned(c1, reg - MAX_REGISTERS, cc)
        },
        Some(d) => {
            let k = c1.code@[n - 2];
            &&& c1.code@ == c0.code@ + seq![spec_instr_byte(InstrType::Cpy), k, d]
            &&& k >= MAX_REGISTERS
            &&& interned(c1, k - MAX_REGISTERS, cc)
        },
    }
}

/// What an identifier emits: a bound local comes straight from its register
/// (one `Cpy` when a destination is supplied); anything else resolves to an
/// upvalue slot of the current chunk, read with `GetUp`.
pub open spec fn id_emitted(
    s0: Compiler,
    s1: Compiler,
    name: Seq<char>,
    dest: Option<u8>,
    reg: u8,
) -> bool {
    let c0 = s0.chunk.cur();
    let c1 = s1.chunk.cur();
    &&& (s0.cur_ctx().chunk_binding(name) matches Some(Binding::Local(l)) ==> match dest {
        None => c1.code@ == c0.code@ && reg == l,
        Some(d) => c1.code@ == c0.code@ + seq![spec_instr_byte(InstrType::Cpy), l, d],
    })
    &&& (!(s0.cur_ctx().chunk_binding(name) matches Some(Binding::Local(_))) ==> ({
        &&& s1.cur_ctx().chunk_binding(name) matches Some(Binding::Upvalue(u))
        &&& c1.code@ == c0.code@ + seq![spec_instr_byte(InstrType::GetUp), u, reg]
    }))
}

pub open spec fn expr_emitted(s0: Compiler, s1: Compiler, e: Expr, dest: Option<u8>, reg: u8) -> bool {
    let c0 = s0.chunk.cur();
    let c1 = s1.chunk.cur();
    let n = c1.code@.len() as int;
    &&& (is_literal(e) ==> literal_emitted(s0, s1, literal_constant(e), dest, reg))
    &&& (e matches Expr::Id(s) ==> id_emitted(s0, s1, s@, dest, reg))
    &&& (e matches Expr::BinOp(op, e1, e2) ==> ({
        &&& n >= c0.code@.len() + 4
        &&& c1.code@[n - 4] == spec_instr_byte(binop_instr(op))
        &&& c1.code@[n - 1] == reg
        &&& (is_literal(*e1) ==> c1.code@[n - 3] >= MAX_REGISTERS && interned(
            c1,
            c1.code@[n - 3] - MAX_REGISTERS,
            literal_constant(*e1),
        ))
        &&& (is_literal(*e2) ==> c1.code@[n - 2] >= MAX_REGISTERS && interned(
            c1,
            c1.code@[n - 2] - MAX_REGISTERS,
            literal_constant(*e2),
        ))
        &&& (*e1 matches Expr::Id(nm1) ==> (s0.cur_ctx().chunk_binding(nm1@) matches Some(
            Binding::Local(l1),
        ) ==> c1.code@[n - 3] == l1))
        &&& (*e2 matches Expr::Id(nm2) ==> (s0.cur_ctx().chunk_binding(nm2@) matches Some(
            Binding::Local(l2),
        ) ==> c1.code@[n - 2] == l2))
    }))
    &&& (e matches Expr::UnaOp(op, _) ==> n >= c0.code@.len() + 3 && c1.code@[n - 3]
        == spec_instr_byte(unaop_instr(op)) && c1.code@[n - 1] == reg)
    &&& (e matches Expr::Call(_, args) ==> n >= c0.code@.len() + 4 && c1.code@[n - 4]
        == spec_instr_byte(InstrType::Call) && c1.code@[n - 1] == reg && (c1.code@[n - 2] as int)
        + args@.len() <= MAX_REGISTERS)
    &&& (e matches Expr::Function(_, _) ==> n >= c0.code@.len() + 3 && c1.code@[n - 3]
        == spec_instr_byte(InstrType::Func) && c1.code@[n - 1] == reg)
}

/// A struct holding state necessary to compilation.
pub struct Compiler {
    /// Whether to record debug metadata (names, line numbers).
    pub debug_info: bool,
    /// The stack of chunk contexts.
    pub ctx: Context,
    /// The stack of open chunks.
    pub chunk: ChunkManager,
}

impl Compiler {
    /// How many chunks are open.
    pub open spec fn depth(self) -> int {
        self.ctx.stack@.len() as int
    }

    /// The innermost chunk context.
    pub open spec fn cur_ctx(self) -> ChunkContext {
        self.ctx.stack@.last()
    }

    /// Compiler well-formedness: context and chunk stacks stay in step and
    /// each side is well-formed.
    pub open spec fn wf(self) -> bool {
        &&& self.ctx.stack@.len() == self.chunk.stack@.len()
        &&& forall|j: int|
            0 <= j < self.ctx.stack@.len() ==> (#[trigger] self.ctx.stack@[j]).wf()
        &&& self.chunk.wf()
    }

    /// What every successful compilation step preserves: the stacks keep
    /// their shape, blocks are untouched, upvalues only grow, enclosing
    /// registers are untouched, and the current chunk only extends.
    pub open spec fn frame(s0: Compiler, s1: Compiler) -> bool {
        &&& s1.debug_info == s0.debug_info
        &&& s0.ctx.stack@.len() > 0
        &&& s1.ctx.stack@.len() == s0.ctx.stack@.len()
        &&& forall|j: int|
            0 <= j < s0.ctx.stack@.len() ==> ctx_frame(
                #[trigger] s0.ctx.stack@[j],
                s1.ctx.stack@[j],
                j == s0.ctx.stack@.len() - 1,
            )
        &&& s1.ctx.stack@[0].upvalues@ == s0.ctx.stack@[0].upvalues@
        &&& mgr_extends(s0.chunk, s1.chunk)
    }
}

/// [`Compiler::frame`] is reflexive.
pub proof fn lemma_frame_refl(s: Compiler)
    requires
        s.ctx.stack@.len() > 0,
        s.chunk.stack@.len() > 0,
    ensures
        Compiler::frame(s, s),
{
    lemma_mgr_extends_refl(s.chunk);
    assert forall|j: int| 0 <= j < s.ctx.stack@.len() implies ctx_frame(
        #[trigger] s.ctx.stack@[j],
        s.ctx.stack@[j],
        j == s.ctx.stack@.len() - 1,
    ) by {
        let u = s.ctx.stack@[j].upvalues@;
        assert(u.subrange(0, u.len() as int) =~= u);
    }
}

/// An unchanged context stack together with an extended chunk manager is a
/// valid compilation frame.
proof fn lemma_frame_ctx_eq(s0: Compiler, s1: Compiler)
    requires
        s1.ctx == s0.ctx,
        s1.debug_info == s0.debug_info,
        s0.ctx.stack@.len() > 0,
        mgr_extends(s0.chunk, s1.chunk),
    ensures
        Compiler::frame(s0, s1),
{
    assert forall|j: int| 0 <= j < s0.ctx.stack@.len() implies ctx_frame(
        #[trigger] s0.ctx.stack@[j],
        s1.ctx.stack@[j],
        j == s0.ctx.stack@.len() - 1,
    ) by {
        let u = s0.ctx.stack@[j].upvalues@;
        assert(u.subrange(0, u.len() as int) =~= u);
    }
}

/// A change to the current context only, preserving its blocks, upvalues,
/// local count and watermark monotonicity, is a valid compilation frame.
proof fn lemma_frame_cur_regs(s0: Compiler, s1: Compiler)
    requires
        s1.debug_info == s0.debug_info,
        s0.ctx.stack@.len() > 0,
        s1.ctx.stack@.len() == s0.ctx.stack@.len(),
        s1.chunk == s0.chunk,
        s0.chunk.stack@.len() > 0,
        s1.ctx.stack@ == s0.ctx.stack@.update(s0.ctx.stack@.len() - 1, s1.ctx.stack@.last()),
        s1.cur_ctx().blocks@ == s0.cur_ctx().blocks@,
        s1.cur_ctx().upvalues@ == s0.cur_ctx().upvalues@,
        s1.cur_ctx().regs.required >= s0.cur_ctx().regs.required,
        s1.cur_ctx().regs.local_cnt == s0.cur_ctx().regs.local_cnt,
    ensures
        Compiler::frame(s0, s1),
{
    lemma_mgr_extends_refl(s0.chunk);
    assert forall|j: int| 0 <= j < s0.ctx.stack@.len() implies ctx_frame(
        #[trigger] s0.ctx.stack@[j],
        s1.ctx.stack@[j],
        j == s0.ctx.stack@.len() - 1,
    ) by {
        let u = s0.ctx.stack@[j].upvalues@;
        if j < s0.ctx.stack@.len() - 1 {
            assert(s1.ctx.stack@[j] == s0.ctx.stack@[j]);
        }
        assert(s1.ctx.stack@[j].upvalues@ == u);
        assert(u.subrange(0, u.len() as int) =~= u);
    }
}

impl Compiler {
    /// Current length of the current chunk's code.
    fn cur_code_len(&self) -> (n: usize)
        requires
            self.wf(),
            self.depth() >= 1,
        ensures
            n == self.chunk.cur().code@.len(),
    {
        let i = self.chunk.cur_index();
        self.chunk.chunks[i].code_len()
    }

    /// `used` of the current chunk's register allocator.
    fn cur_used(&self) -> (n: u16)
        requires
            self.wf(),
            self.depth() >= 1,
        ensures
            n == self.cur_ctx().regs.used,
    {
        let k = self.ctx.stack.len();
        self.ctx.stack[k - 1].regs.used
    }

    /// Emits a whole two-operand instruction into the current chunk.
    fn emit2(&mut self, op: InstrType, a: u8, b: u8)
        requires
            old(self).wf(),
            old(self).depth() >= 1,
        ensures
            final(self).wf(),
            Compiler::frame(*old(self), *final(self)),
            final(self).ctx == old(self).ctx,
            final(self).chunk.chunks@.len() == old(self).chunk.chunks@.len(),
            final(self).chunk.cur().code@ == old(self).chunk.cur().code@ + seq![
                spec_instr_byte(op),
                a,
                b,
            ],
            final(self).chunk.cur().jump_sites@ == old(self).chunk.cur().jump_sites@,
            final(self).chunk.cur().constants@ == old(self).chunk.cur().constants@,
    {
        let i = self.chunk.cur_index();
        self.chunk.chunks[i].emit_instr2(op, a, b);
        proof {
            lemma_frame_ctx_eq(*old(self), *self);
        }
    }

    /// Emits a whole three-operand instruction into the current chunk.
    fn emit3(&mut self, op: InstrType, a: u8, b: u8, c: u8)
        requires
            old(self).wf(),
            old(self).depth() >= 1,
        ensures
            final(self).wf(),
            Compiler::frame(*old(self), *final(self)),
            final(self).ctx == old(self).ctx,
            final(self).chunk.chunks@.len() == old(self).chunk.chunks@.len(),
            final(self).chunk.cur().code@ == old(self).chunk.cur().code@ + seq![
                spec_instr_byte(op),
                a,
                b,
                c,
            ],
            final(self).chunk.cur().jump_sites@ == old(self).chunk.cur().jump_sites@,
            final(self).chunk.cur().constants@ == old(self).chunk.cur().constants@,
    {
        let i = self.chunk.cur_index();
        self.chunk.chunks[i].emit_instr3(op, a, b, c);
        proof {
            lemma_frame_ctx_eq(*old(self), *self);
        }
    }

    /// Emits `Jif placeholder, cond` into the current chunk; returns the
    /// placeholder offset.
    fn emit_jif(&mut self, cond: u8) -> (site: usize)
        requires
            old(self).wf(),
            old(self).depth() >= 1,
        ensures
            final(self).wf(),
            Compiler::frame(*old(self), *final(self)),
            final(self).ctx == old(self).ctx,
            final(self).chunk.chunks@.len() == old(self).chunk.chunks@.len(),
            site == old(self).chunk.cur().code@.len() + 1,
            final(self).chunk.cur().code@.len() == old(self).chunk.cur().code@.len() + 3,
            final(self).chunk.cur().jump_sites@ == old(self).chunk.cur().jump_sites@,
    {
        let i = self.chunk.cur_index();
        let site = self.chunk.chunks[i].emit_jif(cond);
        proof {
            lemma_frame_ctx_eq(*old(self), *self);
        }
        site
    }

    /// Emits `Jmp placeholder` into the current chunk; returns the
    /// placeholder offset.
    fn emit_jmp_placeholder(&mut self) -> (site: usize)
        requires
            old(self).wf(),
            old(self).depth() >= 1,
        ensures
            final(self).wf(),
            Compiler::frame(*old(self), *final(self)),
            final(self).ctx == old(self).ctx,
            final(self).chunk.chunks@.len() == old(self).chunk.chunks@.len(),
            site == old(self).chunk.cur().code@.len() + 1,
            final(self).chunk.cur().code@.len() == old(self).chunk.cur().code@.len() + 2,
            final(self).chunk.cur().jump_sites@ == old(self).chunk.cur().jump_sites@,
    {
        let i = self.chunk.cur_index();
        let site = self.chunk.chunks[i].emit_jmp_placeholder();
        proof {
            lemma_frame_ctx_eq(*old(self), *self);
        }
        site
    }

    /// Emits a backward `Jmp` landing at boundary `add` of the current
    /// chunk.
    fn emit_jump_to(&mut self, add: usize) -> (r: Result<(), HissyError>)
        requires
            old(self).wf(),
            old(self).depth() >= 1,
            old(self).chunk.cur().boundary(add as int),
            add <= old(self).chunk.cur().code@.len(),
        ensures
            final(self).wf(),
            r is Ok ==> {
                &&& Compiler::frame(*old(self), *final(self))
                &&& final(self).ctx == old(self).ctx
                &&& final(self).chunk.chunks@.len() == old(self).chunk.chunks@.len()
                &&& final(self).chunk.cur().code@.len() == old(self).chunk.cur().code@.len() + 2
                &&& final(self).chunk.cur().code@[final(self).chunk.cur().code@.len() - 2]
                    == spec_instr_byte(InstrType::Jmp)
            },
            r is Err ==> state_eq(*old(self), *final(self)),
            r matches Err(e) ==> e.kind == ErrorType::Compilation && e.message@
                == "Jump too large"@ && e.line == 0,
    {
        let i = self.chunk.cur_index();
        let r = self.chunk.chunks[i].emit_jump_to(add);
        match r {
            Ok(_) => {
                proof {
                    lemma_frame_ctx_eq(*old(self), *self);
                }
                Ok(())
            },
            Err(e) => {
                proof {
                    assert(self.chunk.chunks@ =~= old(self).chunk.chunks@);
                }
                Err(e)
            },
        }
    }

    /// Backpatches the placeholder at `site` of the current chunk to land
    /// at the current end of code.
    fn fill_in_jump_from(&mut self, site: usize) -> (r: Result<(), HissyError>)
        requires
            old(self).wf(),
            old(self).depth() >= 1,
            site < old(self).chunk.cur().code@.len(),
            !old(self).chunk.cur().jump_sites@.contains(site as int),
        ensures
            final(self).wf(),
            r is Ok ==> {
                &&& final(self).ctx == old(self).ctx
                &&& final(self).debug_info == old(self).debug_info
                &&& final(self).chunk.stack@ == old(self).chunk.stack@
                &&& final(self).chunk.chunks@.len() == old(self).chunk.chunks@.len()
                &&& forall|i: int|
                    0 <= i < old(self).chunk.chunks@.len() && i != old(self).chunk.cur_idx()
                        ==> final(self).chunk.chunks@[i] == old(self).chunk.chunks@[i]
                &&& chunk_extends_from(
                    old(self).chunk.cur(),
                    final(self).chunk.cur(),
                    site as int,
                )
                &&& final(self).chunk.cur().code@.len() == old(self).chunk.cur().code@.len()
                &&& final(self).chunk.cur().jump_sites@ == old(self).chunk.cur().jump_sites@.push(site as int)
                &&& (forall|b: int|
                    0 <= b < old(self).chunk.cur().code@.len() && b != site ==> final(self).chunk.cur().code@[b] == old(self).chunk.cur().code@[b])
            },
            r is Err ==> state_eq(*old(self), *final(self)),
            r matches Err(e) ==> e.kind == ErrorType::Compilation && e.message@
                == "Jump too large"@ && e.line == 0,
    {
        let i = self.chunk.cur_index();
        let r = self.chunk.chunks[i].fill_in_jump_from(site);
        match r {
            Ok(_) => Ok(()),
            Err(e) => {
                proof {
                    assert(self.chunk.chunks@ =~= old(self).chunk.chunks@);
                }
                Err(e)
            },
        }
    }

    /// Interns a constant in the current chunk's pool.
    fn constant(&mut self, c: ChunkConstant) -> (r: Result<u8, HissyError>)
        requires
            old(self).wf(),
            old(self).depth() >= 1,
        ensures
            final(self).wf(),
            Compiler::frame(*old(self), *final(self)),
            final(self).ctx == old(self).ctx,
            final(self).chunk.chunks@.len() == old(self).chunk.chunks@.len(),
            final(self).chunk.cur().code@ == old(self).chunk.cur().code@,
            final(self).chunk.cur().starts@ == old(self).chunk.cur().starts@,
            final(self).chunk.cur().jump_sites@ == old(self).chunk.cur().jump_sites@,
            r matches Ok(op) ==> op >= 128 && interned(final(self).chunk.cur(), op - 128, c),
            r is Err <==> ((forall|j: int|
                0 <= j < old(self).chunk.cur().constants@.len() ==> !crate::chunk::cc_eq(
                    #[trigger] old(self).chunk.cur().constants@[j],
                    c,
                )) && old(self).chunk.cur().constants@.len() >= 128),
            r matches Err(e) ==> e.kind == ErrorType::Compilation && e.message@
                == "Too many constants in chunk"@ && e.line == 0,
    {
        let i = self.chunk.cur_index();
        let r = self.chunk.chunks[i].compile_constant(c);
        proof {
            lemma_frame_ctx_eq(*old(self), *self);
        }
        r
    }

    /// Returns `dest` if supplied, else allocates a fresh register in the
    /// current chunk.
    fn target_reg(&mut self, dest: Option<u8>) -> (r: Result<u8, HissyError>)
        requires
            old(self).wf(),
            old(self).depth() >= 1,
        ensures
            final(self).wf(),
            Compiler::frame(*old(self), *final(self)),
            final(self).chunk == old(self).chunk,
            final(self).depth() == old(self).depth(),
            forall|j: int|
                0 <= j < old(self).depth() - 1 ==> final(self).ctx.stack@[j] == old(self).ctx.stack@[j],
            final(self).cur_ctx().blocks@ == old(self).cur_ctx().blocks@,
            final(self).cur_ctx().upvalues@ == old(self).cur_ctx().upvalues@,
            final(self).cur_ctx().regs.local_cnt == old(self).cur_ctx().regs.local_cnt,
            dest matches Some(d) ==> r == Ok::<u8, HissyError>(d) && *final(self) == *old(self),
            dest is None && old(self).cur_ctx().regs.used < MAX_REGISTERS ==> {
                &&& r matches Ok(reg)
                &&& reg as int == old(self).cur_ctx().regs.used
                &&& final(self).cur_ctx().regs.used == old(self).cur_ctx().regs.used + 1
            },
            dest is None && old(self).cur_ctx().regs.used >= MAX_REGISTERS ==> r is Err,
            r is Err ==> state_eq(*old(self), *final(self)),
            r matches Err(e) ==> e.kind == ErrorType::Compilation && e.message@
                == "Cannot compile: Too many registers required"@ && e.line == 0,
    {
        match dest {
            Some(d) => {
                proof {
                    lemma_frame_refl(*old(self));
                }
                Ok(d)
            },
            None => {
                let k = self.ctx.stack.len();
                let r = self.ctx.stack[k - 1].regs.new_reg();
                proof {
                    if old(self).cur_ctx().regs.used >= MAX_REGISTERS {
                        assert(self.ctx.stack@ =~= old(self).ctx.stack@);
                        lemma_frame_refl(*old(self));
                        assert(Compiler::frame(*old(self), *self));
                    } else {
                        lemma_frame_cur_regs(*old(self), *self);
                    }
                }
                r
            },
        }
    }

    /// Frees `r` in the current chunk if it is a temporary register
    /// operand.
    fn free_temp_reg(&mut self, r: u8)
        requires
            old(self).wf(),
            old(self).depth() >= 1,
            r < MAX_REGISTERS && r as int >= old(self).cur_ctx().regs.local_cnt ==> r as int + 1
                == old(self).cur_ctx().regs.used,
        ensures
            final(self).wf(),
            Compiler::frame(*old(self), *final(self)),
            final(self).chunk == old(self).chunk,
            final(self).depth() == old(self).depth(),
            forall|j: int|
                0 <= j < old(self).depth() - 1 ==> final(self).ctx.stack@[j] == old(self).ctx.stack@[j],
            final(self).cur_ctx().blocks@ == old(self).cur_ctx().blocks@,
            final(self).cur_ctx().upvalues@ == old(self).cur_ctx().upvalues@,
            final(self).cur_ctx().regs.local_cnt == old(self).cur_ctx().regs.local_cnt,
            final(self).cur_ctx().regs.required == old(self).cur_ctx().regs.required,
            r < MAX_REGISTERS && r as int >= old(self).cur_ctx().regs.local_cnt ==> final(self).cur_ctx().regs.used == old(self).cur_ctx().regs.used - 1,
            !(r < MAX_REGISTERS && r as int >= old(self).cur_ctx().regs.local_cnt) ==> state_eq(
                *old(self),
                *final(self),
            ) && final(self).cur_ctx().regs == old(self).cur_ctx().regs,
    {
        let k = self.ctx.stack.len();
        self.ctx.stack[k - 1].regs.free_temp_reg(r);
        proof {
            if r < MAX_REGISTERS && r as int >= old(self).cur_ctx().regs.local_cnt {
                lemma_frame_cur_regs(*old(self), *self);
            } else {
                assert(self.ctx.stack@ =~= old(self).ctx.stack@);
                lemma_frame_refl(*old(self));
                assert(Compiler::frame(*old(self), *self));
            }
        }
    }

    /// Frees the window `[start, start + n)` in the current chunk if it is
    /// temporary.
    fn free_temp_range(&mut self, start: u8, n: u16)
        requires
            old(self).wf(),
            old(self).depth() >= 1,
            start as int >= old(self).cur_ctx().regs.local_cnt ==> start as int + n == old(self).cur_ctx().regs.used,
        ensures
            final(self).wf(),
            Compiler::frame(*old(self), *final(self)),
            final(self).chunk == old(self).chunk,
            final(self).depth() == old(self).depth(),
            forall|j: int|
                0 <= j < old(self).depth() - 1 ==> final(self).ctx.stack@[j] == old(self).ctx.stack@[j],
            final(self).cur_ctx().blocks@ == old(self).cur_ctx().blocks@,
            final(self).cur_ctx().upvalues@ == old(self).cur_ctx().upvalues@,
            final(self).cur_ctx().regs.local_cnt == old(self).cur_ctx().regs.local_cnt,
            final(self).cur_ctx().regs.required == old(self).cur_ctx().regs.required,
            start as int >= old(self).cur_ctx().regs.local_cnt ==> final(self).cur_ctx().regs.used
                == start,
            (start as int) < old(self).cur_ctx().regs.local_cnt ==> state_eq(
                *old(self),
                *final(self),
            ) && final(self).cur_ctx().regs == old(self).cur_ctx().regs,
    {
        let k = self.ctx.stack.len();
        self.ctx.stack[k - 1].regs.free_temp_range(start, n);
        proof {
            if start as int >= old(self).cur_ctx().regs.local_cnt {
                lemma_frame_cur_regs(*old(self), *self);
            } else {
                assert(self.ctx.stack@ =~= old(self).ctx.stack@);
                lemma_frame_refl(*old(self));
                assert(Compiler::frame(*old(self), *self));
            }
        }
    }
}

impl Compiler {
    /// Creates a new `Compiler` object.
    pub fn new(debug_info: bool) -> (c: Compiler)
        ensures
            c.wf(),
            c.depth() == 0,
            c.chunk.chunks@.len() == 0,
            c.debug_info == debug_info,
    {
        Compiler { debug_info, ctx: Context::new(), chunk: ChunkManager::new() }
    }


    /// Materializes one upvalue slot for `id` in every chunk context above
    /// index `i - 1` (the innermost enclosing chunk that binds `id`), each
    /// slot capturing the adjacent outer chunk's binding, encoded.
    #[verifier::rlimit(100)]
    fn materialize_upvalues(&mut self, id: &String, i: usize, b0: Binding) -> (r: Result<
        Binding,
        HissyError,
    >)
        requires
            old(self).wf(),
            1 <= i < old(self).depth(),
            old(self).ctx.stack@[i - 1].chunk_binding(id@) == Some(b0),
            forall|j: int|
                i <= j < old(self).depth() - 1 ==> (#[trigger] old(self).ctx.stack@[j]).chunk_binding(id@) is None,
            old(self).cur_ctx().chunk_binding(id@) is None,
            b0 matches Binding::Local(reg) ==> reg < MAX_REGISTERS,
            b0 matches Binding::Upvalue(u) ==> (u as int) < old(self).ctx.stack@[i
                - 1].upvalues@.len(),
        ensures
            final(self).wf(),
            final(self).depth() == old(self).depth(),
            final(self).debug_info == old(self).debug_info,
            final(self).chunk == old(self).chunk,
            final(self).ctx.stack@[0].upvalues@ == old(self).ctx.stack@[0].upvalues@,
            forall|j: int|
                0 <= j < old(self).depth() ==> {
                    &&& (#[trigger] final(self).ctx.stack@[j]).blocks@ == old(self).ctx.stack@[j].blocks@
                    &&& final(self).ctx.stack@[j].regs == old(self).ctx.stack@[j].regs
                    &&& old(self).ctx.stack@[j].upvalues@.is_prefix_of(
                        final(self).ctx.stack@[j].upvalues@,
                    )
                },
            r matches Err(e) ==> e.kind == ErrorType::Compilation && e.message@
                == "Too many upvalues in chunk"@ && e.line == 0,
            r is Err ==> (exists|k2: int|
                0 <= k2 < old(self).depth() && (#[trigger] old(self).ctx.stack@[k2]).upvalues@.len() >= 128),
            r matches Ok(b) ==> ({
                let k = i - 1;
                &&& final(self).cur_ctx().chunk_binding(id@) == Some(b)
                &&& (b matches Binding::Upvalue(u) ==> (u as int) < final(self).cur_ctx().upvalues@.len())
                &&& b is Upvalue
                &&& forall|j: int|
                    k < j < old(self).depth() ==> find_upvalue(
                        (#[trigger] final(self).ctx.stack@[j]).upvalues@,
                        id@,
                    ) is Some
                &&& forall|j: int|
                    k < j < old(self).depth() ==> ({
                        let u1 = (#[trigger] final(self).ctx.stack@[j]).upvalues@;
                        &&& u1.len() == old(self).ctx.stack@[j].upvalues@.len() + 1
                        &&& u1.last().name@ == id@
                        &&& ({
                            &&& final(self).ctx.stack@[j - 1].chunk_binding(id@) matches Some(bb)
                            &&& u1.last().reg == bb.spec_encoded()
                        })
                    })
            }),
    {
        let ghost s0 = *old(self);
        let n = self.ctx.stack.len();

        let ghost k = i - 1;
        proof {
            lemma_chunk_binding_local(s0.ctx.stack@[k], id@);
        }
        // Materialize an upvalue in every chunk inside the defining one.
        let mut b = b0;
        let mut j = i;
        while j < n
            invariant
                s0 == *old(self),
                self.wf(),
                s0.wf(),
                self.debug_info == s0.debug_info,
                self.chunk == s0.chunk,
                n == s0.ctx.stack@.len(),
                n == self.ctx.stack@.len(),
                k == i - 1,
                1 <= i <= j <= n,
                forall|j2: int|
                    0 <= j2 < n && !(i <= j2 < j) ==> self.ctx.stack@[j2] == s0.ctx.stack@[j2],
                forall|j2: int|
                    0 <= j2 < n ==> {
                        &&& (#[trigger] self.ctx.stack@[j2]).blocks@ == s0.ctx.stack@[j2].blocks@
                        &&& self.ctx.stack@[j2].regs == s0.ctx.stack@[j2].regs
                        &&& s0.ctx.stack@[j2].upvalues@.is_prefix_of(
                            self.ctx.stack@[j2].upvalues@,
                        )
                    },
                forall|j2: int|
                    i <= j2 < n - 1 ==> (#[trigger] s0.ctx.stack@[j2]).chunk_binding(id@) is None,
                s0.ctx.stack@[n - 1].chunk_binding(id@) is None,
                s0.ctx.stack@[k].chunk_binding(id@) == Some(b0),
                j >= 1,
                self.ctx.stack@[j - 1].chunk_binding(id@) == Some(b),
                b matches Binding::Local(reg) ==> reg < MAX_REGISTERS,
                b matches Binding::Upvalue(u) ==> (u as int) < self.ctx.stack@[j
                    - 1].upvalues@.len(),
                forall|j2: int|
                    k < j2 < j ==> find_upvalue(
                        (#[trigger] self.ctx.stack@[j2]).upvalues@,
                        id@,
                    ) is Some,
                forall|j2: int|
                    k < j2 < j ==> (#[trigger] self.ctx.stack@[j2]).upvalues@.len()
                        == s0.ctx.stack@[j2].upvalues@.len() + 1,
                forall|j2: int|
                    k < j2 < j ==> (#[trigger] self.ctx.stack@[j2]).upvalues@.last().name@ == id@,
                forall|j2: int|
                    k < j2 < j ==> ({
                        &&& self.ctx.stack@[j2 - 1].chunk_binding(id@) matches Some(bb)
                        &&& (#[trigger] self.ctx.stack@[j2]).upvalues@.last().reg
                            == bb.spec_encoded()
                    }),
            decreases n - j,
        {
            let enc: u8 = match &b {
                Binding::Local(r) => *r,
                Binding::Upvalue(u) => {
                    if *u >= MAX_REGISTERS {
                        proof {
                            // The slot index is bounded by the adjacent
                            // chunk's upvalue count, which therefore already
                            // exceeds the encodable range.
                            assert(s0.ctx.stack@[k].chunk_binding(id@) is Some);
                            if j == i {
                                assert(self.ctx.stack@[j - 1] == s0.ctx.stack@[j - 1]);
                                assert(s0.ctx.stack@[j - 1].upvalues@.len() >= 128);
                            } else {
                                assert(self.ctx.stack@[j - 1].upvalues@.len() == s0.ctx.stack@[j
                                    - 1].upvalues@.len() + 1);
                                assert(s0.ctx.stack@[j - 1].upvalues@.len() >= 128);
                            }
                        }
                        return Err(error_str("Too many upvalues in chunk"));
                    }
                    *u + MAX_REGISTERS
                },
            };
            let ghost pre = *self;
            let upv = match self.ctx.stack[j].make_upvalue(id.clone(), enc) {
                Ok(u) => u,
                Err(e) => {
                    proof {
                        assert(self.ctx.stack@ =~= pre.ctx.stack@);
                        assert(s0.ctx.stack@[k].chunk_binding(id@) is Some);
                        assert(self.ctx.stack@[j as int] == s0.ctx.stack@[j as int]);
                        assert(s0.ctx.stack@[j as int].upvalues@.len() >= 128);
                    }
                    return Err(e);
                },
            };
            proof {
                let c_old = pre.ctx.stack@[j as int];
                let c_new = self.ctx.stack@[j as int];
                assert(c_new.upvalues@ == c_old.upvalues@.push(c_new.upvalues@.last()));
                assert(c_new.upvalues@.last().name@ == id@);
                lemma_find_upvalue_push(c_old.upvalues@, c_new.upvalues@.last(), id@);
                // Resolution in the freshly extended chunk: no local, the
                // new upvalue slot.
                assert(s0.ctx.stack@[j as int].chunk_binding(id@) is None);
                assert(find_upvalue(c_old.upvalues@, id@) is None);
                assert(blocks_view(c_new.blocks) == blocks_view(c_old.blocks));
                assert(find_upvalue(c_new.upvalues@, id@) == Some(c_old.upvalues@.len() as int));
                assert(c_new.chunk_binding(id@) == Some(Binding::Upvalue(upv)));
                assert forall|j2: int| 0 <= j2 < n implies {
                    &&& (#[trigger] self.ctx.stack@[j2]).blocks@ == s0.ctx.stack@[j2].blocks@
                    &&& self.ctx.stack@[j2].regs == s0.ctx.stack@[j2].regs
                    &&& s0.ctx.stack@[j2].upvalues@.is_prefix_of(self.ctx.stack@[j2].upvalues@)
                } by {
                    let u0 = s0.ctx.stack@[j2].upvalues@;
                    let u1 = pre.ctx.stack@[j2].upvalues@;
                    let u2 = self.ctx.stack@[j2].upvalues@;
                    assert(u0.is_prefix_of(u1));
                    if j2 == j {
                        assert(u2 == u1.push(u2.last()));
                        assert(u2.subrange(0, u0.len() as int) =~= u0);
                    } else {
                        assert(u2 == u1);
                    }
                }
                assert forall|j2: int| k < j2 < j + 1 implies find_upvalue(
                    (#[trigger] self.ctx.stack@[j2]).upvalues@,
                    id@,
                ) is Some by {
                    if j2 < j {
                        assert(self.ctx.stack@[j2] == pre.ctx.stack@[j2]);
                    }
                }
                // The new slot captures the adjacent outer chunk's binding,
                // encoded: a local register as itself, an upvalue slot
                // offset by the register-space split.
                assert(c_new.upvalues@.last().reg == enc);
                assert(enc == b.spec_encoded());
                assert(self.ctx.stack@[j - 1].chunk_binding(id@) == Some(b));
                assert forall|j2: int| k < j2 < j + 1 implies ({
                    &&& self.ctx.stack@[j2 - 1].chunk_binding(id@) matches Some(bb)
                    &&& (#[trigger] self.ctx.stack@[j2]).upvalues@.last().reg
                        == bb.spec_encoded()
                }) by {
                    if j2 < j {
                        assert(self.ctx.stack@[j2] == pre.ctx.stack@[j2]);
                        if j2 - 1 != j {
                            assert(self.ctx.stack@[j2 - 1] == pre.ctx.stack@[j2 - 1]);
                        }
                    }
                }
            }
            b = Binding::Upvalue(upv);
            j = j + 1;
        }
        proof {
            assert(self.ctx.stack@[n - 1].chunk_binding(id@) == Some(b));
            assert(s0.cur_ctx().chunk_binding(id@) is None);
            assert(b matches Binding::Upvalue(u) ==> (u as int) < self.cur_ctx().upvalues@.len());
            assert(0 <= k < s0.depth() - 1 && s0.ctx.stack@[k].chunk_binding(id@) is Some
                && forall|j2: int|
                k < j2 < s0.depth() ==> find_upvalue(
                    (#[trigger] self.ctx.stack@[j2]).upvalues@,
                    id@,
                ) is Some);
        }
        Ok(b)
    }

    /// Resolves `id`: a local or existing upvalue of the innermost chunk if
    /// it has one; otherwise the innermost enclosing chunk binding `id` is
    /// found and an upvalue slot for `id` is materialized in every chunk
    /// strictly inside it, each capturing the adjacent outer chunk's
    /// binding. Returns `None` exactly when no chunk binds `id`.
    #[verifier::rlimit(100)]
    pub fn get_binding(&mut self, id: &String) -> (r: Result<Option<Binding>, HissyError>)
        requires
            old(self).wf(),
            old(self).depth() >= 1,
        ensures
            final(self).wf(),
            final(self).depth() == old(self).depth(),
            final(self).debug_info == old(self).debug_info,
            final(self).chunk == old(self).chunk,
            final(self).ctx.stack@[0].upvalues@ == old(self).ctx.stack@[0].upvalues@,
            forall|j: int|
                0 <= j < old(self).depth() ==> {
                    &&& (#[trigger] final(self).ctx.stack@[j]).blocks@ == old(self).ctx.stack@[j].blocks@
                    &&& final(self).ctx.stack@[j].regs == old(self).ctx.stack@[j].regs
                    &&& old(self).ctx.stack@[j].upvalues@.is_prefix_of(
                        final(self).ctx.stack@[j].upvalues@,
                    )
                },
            r matches Err(e) ==> e.kind == ErrorType::Compilation && e.message@
                == "Too many upvalues in chunk"@ && e.line == 0,
            r is Err ==> (exists|k: int|
                0 <= k < old(self).depth() && (#[trigger] old(self).ctx.stack@[k]).chunk_binding(
                    id@,
                ) is Some),
            r is Err ==> (exists|k: int|
                0 <= k < old(self).depth() && (#[trigger] old(self).ctx.stack@[k]).upvalues@.len()
                    >= 128),
            r matches Ok(b_opt) ==> match b_opt {
                None => final(self).ctx.stack@ == old(self).ctx.stack@ && (forall|j: int|
                    0 <= j < old(self).depth() ==> (#[trigger] old(self).ctx.stack@[j]).chunk_binding(id@) is None),
                Some(b) => {
                    &&& final(self).cur_ctx().chunk_binding(id@) == Some(b)
                    &&& (b matches Binding::Local(reg) ==> (reg as int) < final(self).cur_ctx().regs.local_cnt)
                    &&& (b matches Binding::Upvalue(u) ==> (u as int) < final(self).cur_ctx().upvalues@.len())
                    &&& (old(self).cur_ctx().chunk_binding(id@) matches Some(b0) ==> b == b0
                        && final(self).ctx.stack@ == old(self).ctx.stack@)
                    &&& (old(self).cur_ctx().chunk_binding(id@) is None ==> exists|k: int|
                        {
                            &&& 0 <= k < old(self).depth() - 1
                            &&& (#[trigger] old(self).ctx.stack@[k]).chunk_binding(id@) is Some
                            &&& forall|j: int|
                                k < j < old(self).depth() - 1 ==> (#[trigger] old(
                                    self,
                                ).ctx.stack@[j]).chunk_binding(id@) is None
                            &&& forall|j: int|
                                k < j < old(self).depth() ==> find_upvalue(
                                    (#[trigger] final(self).ctx.stack@[j]).upvalues@,
                                    id@,
                                ) is Some
                            &&& forall|j: int|
                                k < j < old(self).depth() ==> ({
                                    let u1 = (#[trigger] final(self).ctx.stack@[j]).upvalues@;
                                    &&& u1.len() == old(self).ctx.stack@[j].upvalues@.len() + 1
                                    &&& u1.last().name@ == id@
                                    &&& ({
                                        &&& final(self).ctx.stack@[j - 1].chunk_binding(id@)
                                            matches Some(bb)
                                        &&& u1.last().reg == bb.spec_encoded()
                                    })
                                })
                        })
                },
            },
    {
        let ghost s0 = *old(self);
        let n = self.ctx.stack.len();
        let found0 = self.ctx.stack[n - 1].find_chunk_binding(id);
        proof {
            lemma_chunk_binding_local(self.ctx.stack@[n - 1], id@);
            assert forall|j: int| 0 <= j < s0.depth() implies {
                let u = (#[trigger] s0.ctx.stack@[j]).upvalues@;
                u.is_prefix_of(u)
            } by {
                let u = s0.ctx.stack@[j].upvalues@;
                assert(u.subrange(0, u.len() as int) =~= u);
            }
        }
        if let Some(b) = found0 {
            return Ok(Some(b));
        }
        // The innermost chunk has no binding; look outward for one.
        let mut i: usize = n - 1;
        let mut binding: Option<Binding> = None;
        while i > 0 && binding.is_none()
            invariant
                s0 == *old(self),
                *self == s0,
                s0.wf(),
                n == s0.ctx.stack@.len(),
                1 <= n,
                i <= n - 1,
                s0.ctx.stack@[n - 1].chunk_binding(id@) is None,
                binding is None ==> forall|j: int|
                    i <= j < n - 1 ==> (#[trigger] s0.ctx.stack@[j]).chunk_binding(id@) is None,
                binding matches Some(b0) ==> i >= 1 && s0.ctx.stack@[i - 1].chunk_binding(id@)
                    == Some(b0) && (forall|j: int|
                    i <= j < n - 1 ==> (#[trigger] s0.ctx.stack@[j]).chunk_binding(id@) is None),
                binding matches Some(b0) ==> match b0 {
                    Binding::Local(reg) => reg < MAX_REGISTERS,
                    Binding::Upvalue(u) => i >= 1 && (u as int) < s0.ctx.stack@[i
                        - 1].upvalues@.len(),
                },
            decreases i, (if binding is None { 1int } else { 0int }),
        {
            let f = self.ctx.stack[i - 1].find_chunk_binding(id);
            match f {
                Some(b0) => { binding = Some(b0); },
                None => { i = i - 1; },
            }
        }
        let b0 = match binding {
            None => {
                return Ok(None);
            },
            Some(b0) => b0,
        };
        let b = self.materialize_upvalues(id, i, b0)?;
        proof {
            let k = i - 1;
            assert(0 <= k < s0.depth() - 1 && s0.ctx.stack@[k as int].chunk_binding(id@) is Some);
        }
        Ok(Some(b))
    }
}

impl Compiler {
    /// Emits a whole one-operand instruction into the current chunk.
    fn emit1(&mut self, op: InstrType, a: u8)
        requires
            old(self).wf(),
            old(self).depth() >= 1,
        ensures
            final(self).wf(),
            Compiler::frame(*old(self), *final(self)),
            final(self).ctx == old(self).ctx,
            final(self).chunk.chunks@.len() == old(self).chunk.chunks@.len(),
            final(self).chunk.cur().code@ == old(self).chunk.cur().code@ + seq![
                spec_instr_byte(op),
                a,
            ],
            final(self).chunk.cur().jump_sites@ == old(self).chunk.cur().jump_sites@,
    {
        let i = self.chunk.cur_index();
        self.chunk.chunks[i].emit_instr1(op, a);
        proof {
            lemma_frame_ctx_eq(*old(self), *self);
        }
    }

    /// Allocates a window of `n` consecutive registers in the current
    /// chunk.
    fn alloc_range(&mut self, n: u16) -> (r: Result<u8, HissyError>)
        requires
            old(self).wf(),
            old(self).depth() >= 1,
        ensures
            final(self).wf(),
            Compiler::frame(*old(self), *final(self)),
            final(self).chunk == old(self).chunk,
            final(self).depth() == old(self).depth(),
            forall|j: int|
                0 <= j < old(self).depth() - 1 ==> final(self).ctx.stack@[j] == old(self).ctx.stack@[j],
            final(self).cur_ctx().blocks@ == old(self).cur_ctx().blocks@,
            final(self).cur_ctx().upvalues@ == old(self).cur_ctx().upvalues@,
            final(self).cur_ctx().regs.local_cnt == old(self).cur_ctx().regs.local_cnt,
            old(self).cur_ctx().regs.used + n <= MAX_REGISTERS ==> {
                &&& r matches Ok(start)
                &&& start as int == old(self).cur_ctx().regs.used
                &&& final(self).cur_ctx().regs.used == old(self).cur_ctx().regs.used + n
            },
            old(self).cur_ctx().regs.used + n > MAX_REGISTERS ==> r is Err,
            r is Err ==> state_eq(*old(self), *final(self)) && final(self).cur_ctx().regs == old(self).cur_ctx().regs,
            r matches Err(e) ==> e.kind == ErrorType::Compilation && e.message@
                == "Cannot compile: Too many registers required"@ && e.line == 0,
    {
        let k = self.ctx.stack.len();
        let r = self.ctx.stack[k - 1].regs.new_reg_range(n);
        proof {
            if old(self).cur_ctx().regs.used + n > MAX_REGISTERS {
                assert(self.ctx.stack@ =~= old(self).ctx.stack@);
                lemma_frame_refl(*old(self));
                assert(Compiler::frame(*old(self), *self));
            } else {
                lemma_frame_cur_regs(*old(self), *self);
            }
        }
        r
    }

    /// Records a line-number pair on the current chunk.
    fn push_line_cur(&mut self, pos: usize, line: u16)
        requires
            old(self).wf(),
            old(self).depth() >= 1,
            pos == old(self).chunk.cur().code@.len(),
        ensures
            final(self).wf(),
            Compiler::frame(*old(self), *final(self)),
            final(self).ctx == old(self).ctx,
            final(self).chunk.chunks@.len() == old(self).chunk.chunks@.len(),
            final(self).chunk.cur().code@ == old(self).chunk.cur().code@,
            final(self).chunk.cur().starts@ == old(self).chunk.cur().starts@,
            final(self).chunk.cur().jump_sites@ == old(self).chunk.cur().jump_sites@,
            final(self).chunk.cur().debug_info.line_numbers@ == old(self).chunk.cur().debug_info.line_numbers@.push((pos, line)),
    {
        let i = self.chunk.cur_index();
        self.chunk.chunks[i].push_line(pos, line);
        proof {
            lemma_frame_ctx_eq(*old(self), *self);
        }
    }

    /// Sets the current chunk's debug name.
    fn set_cur_name(&mut self, name: String)
        requires
            old(self).wf(),
            old(self).depth() >= 1,
        ensures
            final(self).wf(),
            final(self).ctx == old(self).ctx,
            final(self).debug_info == old(self).debug_info,
            final(self).chunk.stack@ == old(self).chunk.stack@,
            final(self).chunk.chunks@.len() == old(self).chunk.chunks@.len(),
            forall|i: int|
                0 <= i < old(self).chunk.chunks@.len() && i != old(self).chunk.cur_idx() ==> final(self).chunk.chunks@[i] == old(self).chunk.chunks@[i],
            final(self).chunk.cur() == (Chunk {
                debug_info: crate::chunk::DebugInfo {
                    name: name,
                    ..old(self).chunk.cur().debug_info
                },
                ..old(self).chunk.cur()
            }),
    {
        let i = self.chunk.cur_index();
        self.chunk.chunks[i].set_name(name);
    }

    /// Records the current chunk's register watermark.
    fn set_cur_nb_registers(&mut self, n: u16)
        requires
            old(self).wf(),
            old(self).depth() >= 1,
            n <= 128,
        ensures
            final(self).wf(),
            final(self).ctx == old(self).ctx,
            final(self).debug_info == old(self).debug_info,
            final(self).chunk.stack@ == old(self).chunk.stack@,
            final(self).chunk.chunks@.len() == old(self).chunk.chunks@.len(),
            forall|i: int|
                0 <= i < old(self).chunk.chunks@.len() && i != old(self).chunk.cur_idx() ==> final(self).chunk.chunks@[i] == old(self).chunk.chunks@[i],
            final(self).chunk.cur() == (Chunk { nb_registers: n, ..old(self).chunk.cur() }),
    {
        let i = self.chunk.cur_index();
        self.chunk.chunks[i].set_nb_registers(n);
    }

    /// Appends one upvalue capture operand to the current chunk.
    fn push_cur_upvalue(&mut self, reg: u8)
        requires
            old(self).wf(),
            old(self).depth() >= 1,
        ensures
            final(self).wf(),
            final(self).ctx == old(self).ctx,
            final(self).debug_info == old(self).debug_info,
            final(self).chunk.stack@ == old(self).chunk.stack@,
            final(self).chunk.chunks@.len() == old(self).chunk.chunks@.len(),
            forall|i: int|
                0 <= i < old(self).chunk.chunks@.len() && i != old(self).chunk.cur_idx() ==> final(self).chunk.chunks@[i] == old(self).chunk.chunks@[i],
            final(self).chunk.cur() == (Chunk {
                upvalues: final(self).chunk.cur().upvalues,
                ..old(self).chunk.cur()
            }),
            final(self).chunk.cur().upvalues@ == old(self).chunk.cur().upvalues@.push(reg),
    {
        let i = self.chunk.cur_index();
        self.chunk.chunks[i].push_upvalue(reg);
    }

    /// Appends one upvalue name to the current chunk's debug metadata.
    fn push_cur_upvalue_name(&mut self, name: String)
        requires
            old(self).wf(),
            old(self).depth() >= 1,
        ensures
            final(self).wf(),
            final(self).ctx == old(self).ctx,
            final(self).debug_info == old(self).debug_info,
            final(self).chunk.stack@ == old(self).chunk.stack@,
            final(self).chunk.chunks@.len() == old(self).chunk.chunks@.len(),
            forall|i: int|
                0 <= i < old(self).chunk.chunks@.len() && i != old(self).chunk.cur_idx() ==> final(self).chunk.chunks@[i] == old(self).chunk.chunks@[i],
            final(self).chunk.cur() == (Chunk {
                debug_info: crate::chunk::DebugInfo {
                    upvalue_names: final(self).chunk.cur().debug_info.upvalue_names,
                    ..old(self).chunk.cur().debug_info
                },
                ..old(self).chunk.cur()
            }),
            final(self).chunk.cur().upvalues@ == old(self).chunk.cur().upvalues@,
            final(self).chunk.cur().debug_info.upvalue_names@ == old(self).chunk.cur().debug_info.upvalue_names@.push(name),
    {
        let i = self.chunk.cur_index();
        self.chunk.chunks[i].push_upvalue_name(name);
    }

    /// Opens a lexical block in the current chunk context.
    fn ctx_enter_block(&mut self)
        requires
            old(self).wf(),
            old(self).depth() >= 1,
        ensures
            final(self).wf(),
            final(self).debug_info == old(self).debug_info,
            final(self).chunk == old(self).chunk,
            final(self).depth() == old(self).depth(),
            forall|j: int|
                0 <= j < old(self).depth() - 1 ==> final(self).ctx.stack@[j] == old(self).ctx.stack@[j],
            final(self).cur_ctx().regs == old(self).cur_ctx().regs,
            final(self).cur_ctx().upvalues@ == old(self).cur_ctx().upvalues@,
            final(self).cur_ctx().blocks@.len() == old(self).cur_ctx().blocks@.len() + 1,
            final(self).cur_ctx().blocks@.drop_last() == old(self).cur_ctx().blocks@,
            final(self).cur_ctx().blocks@.last()@ == Seq::<LocalBinding>::empty(),
            final(self).cur_ctx().locals() == old(self).cur_ctx().locals(),
    {
        let k = self.ctx.stack.len();
        self.ctx.stack[k - 1].enter_block();
    }

    /// Closes the innermost lexical block of the current chunk context,
    /// freeing its registers from the top down.
    fn ctx_leave_block(&mut self)
        requires
            old(self).wf(),
            old(self).depth() >= 1,
            old(self).cur_ctx().blocks@.len() > 0,
            old(self).cur_ctx().regs.used == old(self).cur_ctx().regs.local_cnt,
        ensures
            final(self).wf(),
            final(self).debug_info == old(self).debug_info,
            final(self).chunk == old(self).chunk,
            final(self).depth() == old(self).depth(),
            forall|j: int|
                0 <= j < old(self).depth() - 1 ==> final(self).ctx.stack@[j] == old(self).ctx.stack@[j],
            final(self).cur_ctx().upvalues@ == old(self).cur_ctx().upvalues@,
            final(self).cur_ctx().blocks@ == old(self).cur_ctx().blocks@.drop_last(),
            final(self).cur_ctx().regs.used == old(self).cur_ctx().regs.used - blocks_view(
                old(self).cur_ctx().blocks,
            ).last().len(),
            final(self).cur_ctx().regs.local_cnt == final(self).cur_ctx().regs.used,
            final(self).cur_ctx().regs.required == old(self).cur_ctx().regs.required,
    {
        let k = self.ctx.stack.len();
        self.ctx.stack[k - 1].leave_block();
    }

    /// Binds `id` to `reg` as a fresh local of the innermost block of the
    /// current chunk context.
    fn make_local_cur(&mut self, id: String, reg: u8)
        requires
            old(self).wf(),
            old(self).depth() >= 1,
            old(self).cur_ctx().blocks@.len() > 0,
            reg as int == old(self).cur_ctx().regs.local_cnt,
            old(self).cur_ctx().regs.local_cnt < old(self).cur_ctx().regs.used,
        ensures
            final(self).wf(),
            final(self).debug_info == old(self).debug_info,
            final(self).chunk == old(self).chunk,
            final(self).depth() == old(self).depth(),
            forall|j: int|
                0 <= j < old(self).depth() - 1 ==> final(self).ctx.stack@[j] == old(self).ctx.stack@[j],
            final(self).cur_ctx().upvalues@ == old(self).cur_ctx().upvalues@,
            final(self).cur_ctx().regs.used == old(self).cur_ctx().regs.used,
            final(self).cur_ctx().regs.required == old(self).cur_ctx().regs.required,
            final(self).cur_ctx().regs.local_cnt == old(self).cur_ctx().regs.local_cnt + 1,
            final(self).cur_ctx().blocks@.len() == old(self).cur_ctx().blocks@.len(),
            final(self).cur_ctx().blocks@.drop_last() == old(self).cur_ctx().blocks@.drop_last(),
            find_in_block(blocks_view(final(self).cur_ctx().blocks).last(), id@) == Some(reg),
    {
        let k = self.ctx.stack.len();
        self.ctx.stack[k - 1].make_local(id, reg);
    }

    /// Looks `id` up in the innermost block of the current chunk context.
    fn cur_find_block_local(&self, id: &String) -> (r: Option<u8>)
        requires
            self.wf(),
            self.depth() >= 1,
            self.cur_ctx().blocks@.len() > 0,
        ensures
            r == find_in_block(blocks_view(self.cur_ctx().blocks).last(), id@),
    {
        let k = self.ctx.stack.len();
        self.ctx.stack[k - 1].find_block_local(id)
    }
}

/// Binding resolution leaves a valid compilation frame: nothing is emitted
/// and only upvalue lists grow.
proof fn lemma_frame_from_resolution(s0: Compiler, s1: Compiler)
    requires
        s0.ctx.stack@.len() > 0,
        s0.chunk.stack@.len() > 0,
        s1.ctx.stack@.len() == s0.ctx.stack@.len(),
        s1.debug_info == s0.debug_info,
        s1.chunk == s0.chunk,
        s1.ctx.stack@[0].upvalues@ == s0.ctx.stack@[0].upvalues@,
        forall|j: int|
            0 <= j < s0.ctx.stack@.len() ==> {
                &&& (#[trigger] s1.ctx.stack@[j]).blocks@ == s0.ctx.stack@[j].blocks@
                &&& s1.ctx.stack@[j].regs == s0.ctx.stack@[j].regs
                &&& s0.ctx.stack@[j].upvalues@.is_prefix_of(s1.ctx.stack@[j].upvalues@)
            },
    ensures
        Compiler::frame(s0, s1),
{
    lemma_mgr_extends_refl(s0.chunk);
}

/// What a successful expression compilation guarantees about registers: a
/// supplied destination is honored with `used` unchanged; otherwise the
/// result is an existing local, a constant operand, or one fresh temporary
/// on top.
pub open spec fn expr_post(s0: Compiler, s1: Compiler, dest: Option<u8>, reg: u8) -> bool {
    &&& Compiler::frame(s0, s1)
    &&& (dest matches Some(d) ==> reg == d && s1.cur_ctx().regs.used == s0.cur_ctx().regs.used)
    &&& (dest is None ==> {
        ||| (s1.cur_ctx().regs.used == s0.cur_ctx().regs.used && (reg >= MAX_REGISTERS || (
        reg as int) < s0.cur_ctx().regs.local_cnt))
        ||| (s1.cur_ctx().regs.used == s0.cur_ctx().regs.used + 1 && reg as int
            == s0.cur_ctx().regs.used && reg < MAX_REGISTERS)
    })
    &&& (s1.chunk.chunks@.len() == s0.chunk.chunks@.len() || s1.chunk.chunks@.len() <= 256)
}

/// What a successful statement compilation guarantees: enclosing contexts
/// untouched, the enclosing blocks of the current chunk untouched (only the
/// innermost block may gain locals), the temporary region drained, the
/// current chunk extended.
pub open spec fn stat_post(s0: Compiler, s1: Compiler) -> bool {
    &&& s1.debug_info == s0.debug_info
    &&& s0.ctx.stack@.len() > 0
    &&& s1.ctx.stack@.len() == s0.ctx.stack@.len()
    &&& forall|j: int|
        0 <= j < s0.ctx.stack@.len() - 1 ==> ctx_frame(
            #[trigger] s0.ctx.stack@[j],
            s1.ctx.stack@[j],
            false,
        )
    &&& s1.cur_ctx().blocks@.len() == s0.cur_ctx().blocks@.len()
    &&& s1.cur_ctx().blocks@.drop_last() == s0.cur_ctx().blocks@.drop_last()
    &&& s0.cur_ctx().upvalues@.is_prefix_of(s1.cur_ctx().upvalues@)
    &&& s1.ctx.stack@[0].upvalues@ == s0.ctx.stack@[0].upvalues@
    &&& s1.cur_ctx().regs.required >= s0.cur_ctx().regs.required
    &&& s1.cur_ctx().regs.used == s1.cur_ctx().regs.local_cnt
    &&& mgr_extends(s0.chunk, s1.chunk)
    &&& (s1.chunk.chunks@.len() == s0.chunk.chunks@.len() || s1.chunk.chunks@.len() <= 256)
}

/// [`Compiler::frame`] is transitive.
pub proof fn lemma_frame_trans(s0: Compiler, s1: Compiler, s2: Compiler)
    requires
        Compiler::frame(s0, s1),
        Compiler::frame(s1, s2),
    ensures
        Compiler::frame(s0, s2),
{
    lemma_mgr_extends_trans(s0.chunk, s1.chunk, s2.chunk);
    assert forall|j: int| 0 <= j < s0.ctx.stack@.len() implies ctx_frame(
        #[trigger] s0.ctx.stack@[j],
        s2.ctx.stack@[j],
        j == s0.ctx.stack@.len() - 1,
    ) by {
        assert(ctx_frame(s0.ctx.stack@[j], s1.ctx.stack@[j], j == s0.ctx.stack@.len() - 1));
        assert(ctx_frame(s1.ctx.stack@[j], s2.ctx.stack@[j], j == s0.ctx.stack@.len() - 1));
        let u0 = s0.ctx.stack@[j].upvalues@;
        let u1 = s1.ctx.stack@[j].upvalues@;
        let u2 = s2.ctx.stack@[j].upvalues@;
        assert(u2.subrange(0, u0.len() as int) =~= u0);
    }
}

impl Compiler {
    /// Compiles the computation of `expr` (into `dest` if given) and
    /// returns the final operand. When no `dest` is given the result may be
    /// an existing local, a constant-pool operand, or one fresh temporary;
    /// callers that need exclusive ownership must supply `dest`.
    /// Interns a literal's pool entry and hands back its operand; with a
    /// destination supplied, additionally emits the `Cpy` into it.
    #[verifier::rlimit(50)]
    fn literal_operand(&mut self, cc: ChunkConstant, dest: Option<u8>) -> (r: Result<
        u8,
        HissyError,
    >)
        requires
            old(self).wf(),
            old(self).depth() >= 1,
        ensures
            final(self).wf(),
            r matches Ok(reg) ==> expr_post(*old(self), *final(self), dest, reg)
                && literal_emitted(*old(self), *final(self), cc, dest, reg),
            r is Err <==> ((forall|j: int|
                0 <= j < old(self).chunk.cur().constants@.len() ==> !crate::chunk::cc_eq(
                    #[trigger] old(self).chunk.cur().constants@[j],
                    cc,
                )) && old(self).chunk.cur().constants@.len() >= 128),
            r matches Err(e) ==> e.kind == ErrorType::Compilation && e.message@
                == "Too many constants in chunk"@ && e.line == 0,
    {
        let ghost s0 = *old(self);
        let op = self.constant(cc)?;
        match dest {
            None => Ok(op),
            Some(d) => {
                let ghost s1 = *self;
                self.emit2(InstrType::Cpy, op, d);
                proof {
                    lemma_frame_trans(s0, s1, *self);
                    let cd = self.chunk.cur().code@;
                    assert(cd[cd.len() - 2] == op);
                }
                Ok(d)
            },
        }
    }

    /// Resolves an identifier and produces its value: straight from a local
    /// register, or through a `GetUp` on the (possibly just materialized)
    /// upvalue slot. An identifier bound nowhere is a compile error.
    #[verifier::rlimit(80)]
    fn identifier_operand(&mut self, id: &String, dest: Option<u8>) -> (r: Result<
        u8,
        HissyError,
    >)
        requires
            old(self).wf(),
            old(self).depth() >= 1,
        ensures
            final(self).wf(),
            r matches Ok(reg) ==> expr_post(*old(self), *final(self), dest, reg) && id_emitted(
                *old(self),
                *final(self),
                id@,
                dest,
                reg,
            ),
            r matches Err(e) ==> e.kind == ErrorType::Compilation,
            (forall|j: int|
                0 <= j < old(self).depth() ==> (#[trigger] old(self).ctx.stack@[j]).chunk_binding(
                    id@,
                ) is None) ==> (r matches Err(e) && e.message@
                == "Referencing undefined binding '"@ + id@ + "'"@ && e.line == 0),
    {
        let ghost s0 = *old(self);
        let b_opt = self.get_binding(id)?;
        proof {
            lemma_frame_from_resolution(s0, *self);
        }
        let ghost sg = *self;
        match b_opt {
            None => {
                Err(
                    error(
                        String::from_str("Referencing undefined binding '").concat(
                            id.as_str(),
                        ).concat("'"),
                    ),
                )
            },
            Some(Binding::Local(l)) => {
                proof {
                    // The blocks are untouched, so the local was already
                    // the resolution before the call.
                    assert(blocks_view(sg.cur_ctx().blocks) == blocks_view(s0.cur_ctx().blocks));
                    assert(find_local(blocks_view(sg.cur_ctx().blocks), id@) == Some(l));
                    assert(s0.cur_ctx().chunk_binding(id@) == Some(Binding::Local(l)));
                }
                match dest {
                    None => Ok(l),
                    Some(d) => {
                        let ghost s1 = *self;
                        self.emit2(InstrType::Cpy, l, d);
                        proof {
                            lemma_frame_trans(s0, s1, *self);
                        }
                        Ok(d)
                    },
                }
            },
            Some(Binding::Upvalue(upv)) => {
                let ghost s1 = *self;
                let r2 = self.target_reg(dest)?;
                proof {
                    lemma_frame_trans(s0, s1, *self);
                }
                let ghost s2 = *self;
                self.emit2(InstrType::GetUp, upv, r2);
                proof {
                    lemma_frame_trans(s0, s2, *self);
                    assert(self.cur_ctx().blocks@ == sg.cur_ctx().blocks@);
                    assert(self.cur_ctx().upvalues@ == sg.cur_ctx().upvalues@);
                    assert(blocks_view(self.cur_ctx().blocks) == blocks_view(sg.cur_ctx().blocks));
                    assert(self.cur_ctx().chunk_binding(id@) == sg.cur_ctx().chunk_binding(id@));
                    assert(self.cur_ctx().chunk_binding(id@) == Some(Binding::Upvalue(upv)));
                }
                Ok(r2)
            },
        }
    }

    /// Allocates or adopts the destination and emits one two-operand
    /// instruction ending in it.
    #[verifier::rlimit(50)]
    fn emit_result2(&mut self, op2: InstrType, a: u8, dest: Option<u8>) -> (r: Result<
        u8,
        HissyError,
    >)
        requires
            old(self).wf(),
            old(self).depth() >= 1,
        ensures
            final(self).wf(),
            r matches Ok(reg) ==> {
                &&& Compiler::frame(*old(self), *final(self))
                &&& final(self).chunk.chunks@.len() == old(self).chunk.chunks@.len()
                &&& final(self).chunk.cur().code@ == old(self).chunk.cur().code@ + seq![
                    spec_instr_byte(op2),
                    a,
                    reg,
                ]
                &&& final(self).cur_ctx().blocks@ == old(self).cur_ctx().blocks@
                &&& final(self).cur_ctx().upvalues@ == old(self).cur_ctx().upvalues@
                &&& (dest matches Some(d) ==> reg == d && final(self).cur_ctx().regs.used == old(self).cur_ctx().regs.used)
                &&& (dest is None ==> final(self).cur_ctx().regs.used == old(self).cur_ctx().regs.used + 1 && reg as int == old(self).cur_ctx().regs.used && reg
                    < MAX_REGISTERS)
            },
            r matches Err(e) ==> e.kind == ErrorType::Compilation && e.message@
                == "Cannot compile: Too many registers required"@ && e.line == 0,
    {
        let ghost s0 = *old(self);
        let reg = self.target_reg(dest)?;
        let ghost s1 = *self;
        self.emit2(op2, a, reg);
        proof {
            lemma_frame_trans(s0, s1, *self);
        }
        Ok(reg)
    }

    /// Frees the two operand temporaries in reverse order, then allocates
    /// or adopts the destination and emits the binary instruction.
    #[verifier::rlimit(50)]
    fn finish_binop(&mut self, op2: InstrType, r1: u8, r2: u8, dest: Option<u8>) -> (r: Result<
        u8,
        HissyError,
    >)
        requires
            old(self).wf(),
            old(self).depth() >= 1,
            r2 < MAX_REGISTERS && r2 as int >= old(self).cur_ctx().regs.local_cnt ==> r2 as int
                + 1 == old(self).cur_ctx().regs.used,
            r1 < MAX_REGISTERS && r1 as int >= old(self).cur_ctx().regs.local_cnt ==> r1 as int
                + 1 == (if r2 < MAX_REGISTERS && r2 as int >= old(self).cur_ctx().regs.local_cnt {
                old(self).cur_ctx().regs.used - 1
            } else {
                old(self).cur_ctx().regs.used as int
            }),
        ensures
            final(self).wf(),
            r matches Ok(reg) ==> ({
                let drop2: int = if r2 < MAX_REGISTERS && r2 as int >= old(self).cur_ctx().regs.local_cnt {
                    1
                } else {
                    0
                };
                let drop1: int = if r1 < MAX_REGISTERS && r1 as int >= old(self).cur_ctx().regs.local_cnt {
                    1
                } else {
                    0
                };
                &&& Compiler::frame(*old(self), *final(self))
                &&& final(self).chunk.chunks@.len() == old(self).chunk.chunks@.len()
                &&& final(self).chunk.cur().code@ == old(self).chunk.cur().code@ + seq![
                    spec_instr_byte(op2),
                    r1,
                    r2,
                    reg,
                ]
                &&& (dest matches Some(d) ==> reg == d && final(self).cur_ctx().regs.used == old(self).cur_ctx().regs.used - drop2 - drop1)
                &&& (dest is None ==> final(self).cur_ctx().regs.used == old(self).cur_ctx().regs.used - drop2 - drop1 + 1 && reg as int == old(self).cur_ctx().regs.used - drop2 - drop1 && reg < MAX_REGISTERS)
            }),
            r matches Err(e) ==> e.kind == ErrorType::Compilation && e.message@
                == "Cannot compile: Too many registers required"@ && e.line == 0,
    {
        let ghost s0 = *old(self);
        self.free_temp_reg(r2);
        let ghost s1 = *self;
        self.free_temp_reg(r1);
        let ghost s2 = *self;
        proof {
            lemma_frame_trans(s0, s1, *self);
        }
        let reg = self.target_reg(dest)?;
        let ghost s3 = *self;
        proof {
            lemma_frame_trans(s0, s2, *self);
        }
        self.emit3(op2, r1, r2, reg);
        proof {
            lemma_frame_trans(s0, s3, *self);
        }
        Ok(reg)
    }

    /// Frees the argument window and the callee temporary, then allocates
    /// or adopts the destination and emits the `Call`.
    #[verifier::rlimit(50)]
    fn finish_call(&mut self, func: u8, arg_range: u8, n16: u16, dest: Option<u8>) -> (r: Result<
        u8,
        HissyError,
    >)
        requires
            old(self).wf(),
            old(self).depth() >= 1,
            arg_range as int >= old(self).cur_ctx().regs.local_cnt,
            arg_range as int + n16 == old(self).cur_ctx().regs.used,
            func < MAX_REGISTERS && func as int >= old(self).cur_ctx().regs.local_cnt ==> func
                as int + 1 == arg_range as int,
        ensures
            final(self).wf(),
            r matches Ok(reg) ==> ({
                let dropf: int = if func < MAX_REGISTERS && func as int >= old(self).cur_ctx().regs.local_cnt {
                    1
                } else {
                    0
                };
                &&& Compiler::frame(*old(self), *final(self))
                &&& final(self).chunk.chunks@.len() == old(self).chunk.chunks@.len()
                &&& final(self).chunk.cur().code@ == old(self).chunk.cur().code@ + seq![
                    spec_instr_byte(InstrType::Call),
                    func,
                    arg_range,
                    reg,
                ]
                &&& (dest matches Some(d) ==> reg == d && final(self).cur_ctx().regs.used
                    == arg_range - dropf)
                &&& (dest is None ==> final(self).cur_ctx().regs.used == arg_range - dropf + 1
                    && reg as int == arg_range - dropf && reg < MAX_REGISTERS)
            }),
            r matches Err(e) ==> e.kind == ErrorType::Compilation && e.message@
                == "Cannot compile: Too many registers required"@ && e.line == 0,
    {
        let ghost s0 = *old(self);
        self.free_temp_range(arg_range, n16);
        let ghost s1 = *self;
        self.free_temp_reg(func);
        let ghost s2 = *self;
        proof {
            lemma_frame_trans(s0, s1, *self);
        }
        let reg = self.target_reg(dest)?;
        let ghost s3 = *self;
        proof {
            lemma_frame_trans(s0, s2, *self);
        }
        self.emit3(InstrType::Call, func, arg_range, reg);
        proof {
            lemma_frame_trans(s0, s3, *self);
        }
        Ok(reg)
    }

    #[verifier::rlimit(100)]
    pub fn compile_expr(&mut self, expr: &Expr, dest: Option<u8>, name: Option<&String>) -> (r: Result<
        u8,
        HissyError,
    >)
        requires
            old(self).wf(),
            old(self).depth() >= 1,
        ensures
            final(self).wf(),
            r matches Ok(reg) ==> expr_post(*old(self), *final(self), dest, reg) && expr_emitted(
                *old(self),
                *final(self),
                *expr,
                dest,
                reg,
            ),
            r matches Err(e2) ==> e2.kind == ErrorType::Compilation,
            is_literal(*expr) ==> (r is Err <==> ((forall|j: int|
                0 <= j < old(self).chunk.cur().constants@.len() ==> !crate::chunk::cc_eq(
                    #[trigger] old(self).chunk.cur().constants@[j],
                    literal_constant(*expr),
                )) && old(self).chunk.cur().constants@.len() >= 128)),
            expr matches Expr::Id(s) ==> ((forall|j: int|
                0 <= j < old(self).depth() ==> (#[trigger] old(self).ctx.stack@[j]).chunk_binding(
                    s@,
                ) is None) ==> (r matches Err(e2) && e2.message@
                == "Referencing undefined binding '"@ + s@ + "'"@ && e2.line == 0)),
        decreases expr_size(*expr), 0nat,
    {
        let ghost s0 = *old(self);
        let reg: u8 = match expr {
            Expr::Nil => self.literal_operand(ChunkConstant::Nil, dest)?,
            Expr::Bool(b) => self.literal_operand(ChunkConstant::Bool(*b), dest)?,
            Expr::Int(i) => self.literal_operand(ChunkConstant::Int(*i), dest)?,
            Expr::Real(x) => self.literal_operand(ChunkConstant::Real(*x), dest)?,
            Expr::Str(st) => self.literal_operand(ChunkConstant::Str(st.clone()), dest)?,
            Expr::Id(id) => self.identifier_operand(id, dest)?,
            Expr::BinOp(op, e1, e2) => {
                proof {
                    assert(expr_size(*expr) == 1 + expr_size(**e1) + expr_size(**e2));
                }
                let r1 = self.compile_expr(&**e1, None, None)?;
                let ghost s1 = *self;
                let r2 = self.compile_expr(&**e2, None, None)?;
                let ghost s2 = *self;
                proof {
                    lemma_frame_trans(s0, s1, *self);
                }
                let instr = match op {
                    BinOp::Plus => InstrType::Add,
                    BinOp::Minus => InstrType::Sub,
                    BinOp::Times => InstrType::Mul,
                    BinOp::Divides => InstrType::Div,
                    BinOp::Modulo => InstrType::Mod,
                    BinOp::Power => InstrType::Pow,
                    BinOp::LEq => InstrType::Leq,
                    BinOp::GEq => InstrType::Geq,
                    BinOp::Less => InstrType::Lth,
                    BinOp::Greater => InstrType::Gth,
                    BinOp::Equal => InstrType::Eq,
                    BinOp::NEq => InstrType::Neq,
                    BinOp::And => InstrType::And,
                    BinOp::Or => InstrType::Or,
                };
                let r3 = self.finish_binop(instr, r1, r2, dest)?;
                proof {
                    lemma_frame_trans(s0, s2, *self);
                    assert(instr == binop_instr(*op));
                    let cd = self.chunk.cur().code@;
                    assert(cd[cd.len() - 4] == spec_instr_byte(instr));
                    assert(cd[cd.len() - 3] == r1);
                    assert(cd[cd.len() - 2] == r2);
                    assert(cd[cd.len() - 1] == r3);
                    // Operand classification: literal operands keep their
                    // interned pool slots; a local identifier keeps its
                    // register, the blocks being untouched throughout.
                    if is_literal(**e1) {
                        lemma_interned_prefix(
                            s1.chunk.cur(),
                            s2.chunk.cur(),
                            r1 - MAX_REGISTERS,
                            literal_constant(**e1),
                        );
                        lemma_interned_prefix(
                            s2.chunk.cur(),
                            self.chunk.cur(),
                            r1 - MAX_REGISTERS,
                            literal_constant(**e1),
                        );
                    }
                    if is_literal(**e2) {
                        lemma_interned_prefix(
                            s2.chunk.cur(),
                            self.chunk.cur(),
                            r2 - MAX_REGISTERS,
                            literal_constant(**e2),
                        );
                    }
                    assert(s1.cur_ctx().blocks@ == s0.cur_ctx().blocks@);
                    assert(blocks_view(s1.cur_ctx().blocks) == blocks_view(s0.cur_ctx().blocks));
                    let ghost ee2 = **e2;
                    match ee2 {
                        Expr::Id(nm2) => {
                            match s0.cur_ctx().chunk_binding(nm2@) {
                                Some(Binding::Local(l2)) => {
                                    assert(find_local(blocks_view(s0.cur_ctx().blocks), nm2@)
                                        == Some(l2));
                                    assert(s1.cur_ctx().chunk_binding(nm2@) == Some(
                                        Binding::Local(l2),
                                    ));
                                },
                                _ => {},
                            }
                        },
                        _ => {},
                    }
                }
                r3
            },
            Expr::UnaOp(op, e) => {
                proof {
                    assert(expr_size(*expr) == 1 + expr_size(**e));
                }
                let r1 = self.compile_expr(&**e, dest, None)?;
                let ghost s1 = *self;
                if dest.is_none() {
                    self.free_temp_reg(r1);
                }
                let ghost s2 = *self;
                proof {
                    if dest is None {
                        lemma_frame_trans(s0, s1, *self);
                    }
                }
                let instr = match op {
                    UnaOp::Not => InstrType::Not,
                    UnaOp::Minus => InstrType::Neg,
                };
                let r2 = self.emit_result2(instr, r1, dest)?;
                proof {
                    lemma_frame_trans(s0, s2, *self);
                    assert(instr == unaop_instr(*op));
                    let cd = self.chunk.cur().code@;
                    assert(cd[cd.len() - 3] == spec_instr_byte(instr));
                    assert(cd[cd.len() - 1] == r2);
                }
                r2
            },
            Expr::Call(f, args) => {
                proof {
                    assert(expr_size(*expr) == 1 + expr_size(**f) + exprs_size(args@));
                }
                let func = self.compile_expr(&**f, None, None)?;
                let ghost s1 = *self;
                if args.len() > 65535 {
                    return Err(error_str("Too many function arguments"));
                }
                let n_args = args.len();
                let n16: u16 = n_args as u16;
                let arg_range = self.alloc_range(n16)?;
                proof {
                    lemma_frame_trans(s0, s1, *self);
                }
                let ghost s2 = *self;
                let mut ai: usize = 0;
                while ai < n_args
                    invariant
                        s0 == *old(self),
                        s0.wf(),
                        s0.depth() >= 1,
                        self.wf(),
                        n_args == args@.len(),
                        n16 == n_args,
                        ai <= n_args,
                        Compiler::frame(s0, *self),
                        Compiler::frame(s2, *self),
                        self.depth() == s0.depth(),
                        arg_range as int + n16 <= MAX_REGISTERS,
                        self.cur_ctx().regs.used == arg_range as int + n16,
                        arg_range as int >= self.cur_ctx().regs.local_cnt,
                        self.chunk.chunks@.len() == s0.chunk.chunks@.len()
                            || self.chunk.chunks@.len() <= 256,
                        exprs_size(args@) < expr_size(*expr),
                    decreases n_args - ai,
                {
                    proof {
                        lemma_exprs_size_elem(args@, ai as int);
                    }
                    let rout = arg_range + ai as u8;
                    let ghost sp = *self;
                    self.compile_expr(&args[ai], Some(rout), None)?;
                    proof {
                        lemma_frame_trans(s0, sp, *self);
                        lemma_frame_trans(s2, sp, *self);
                    }
                    ai = ai + 1;
                }
                let ghost s3 = *self;
                let r3 = self.finish_call(func, arg_range, n16, dest)?;
                proof {
                    lemma_frame_trans(s0, s3, *self);
                    let cd = self.chunk.cur().code@;
                    assert(cd[cd.len() - 4] == spec_instr_byte(InstrType::Call));
                    assert(cd[cd.len() - 2] == arg_range);
                    assert(cd[cd.len() - 1] == r3);
                }
                r3
            },
            Expr::Function(params, bl) => {
                proof {
                    assert(expr_size(*expr) == 1 + block_size(bl@));
                }
                let fname = match name {
                    Some(s) => s.clone(),
                    None => String::from_str("<func>"),
                };
                let new_chunk = self.compile_chunk(fname, bl, params)?;
                let ghost s1 = *self;
                let r2 = self.emit_result2(InstrType::Func, new_chunk, dest)?;
                proof {
                    lemma_frame_trans(s0, s1, *self);
                    let cd = self.chunk.cur().code@;
                    assert(cd[cd.len() - 3] == spec_instr_byte(InstrType::Func));
                    assert(cd[cd.len() - 1] == r2);
                }
                r2
            },
        };
        Ok(reg)
    }

    /// Compiles one statement. The temporary region is drained on entry and
    /// again on exit; only the innermost block may gain locals.
    #[verifier::rlimit(100)]
    pub fn compile_stat(&mut self, st: &Stat) -> (r: Result<(), HissyError>)
        requires
            old(self).wf(),
            old(self).depth() >= 1,
            old(self).cur_ctx().blocks@.len() > 0,
            old(self).cur_ctx().regs.used == old(self).cur_ctx().regs.local_cnt,
        ensures
            final(self).wf(),
            r is Ok ==> stat_post(*old(self), *final(self)),
            r is Ok ==> ({
                let c1 = final(self).chunk.cur();
                let n = c1.code@.len() as int;
                &&& (st matches Stat::Log(e) ==> n >= 2 && c1.code@[n - 2] == spec_instr_byte(
                    InstrType::Log,
                ) && stat_operand_ok(*old(self), c1, *e, c1.code@[n - 1]))
                &&& (st matches Stat::Return(e) ==> n >= 2 && c1.code@[n - 2] == spec_instr_byte(
                    InstrType::Ret,
                ) && stat_operand_ok(*old(self), c1, *e, c1.code@[n - 1]))
                &&& (st matches Stat::While(_, _) ==> n >= 2 && c1.code@[n - 2]
                    == spec_instr_byte(InstrType::Jmp))
            }),
            st matches Stat::Let(id2, _) ==> (r is Ok ==> ({
                let b0 = blocks_view(old(self).cur_ctx().blocks).last();
                let b1 = blocks_view(final(self).cur_ctx().blocks).last();
                &&& (find_in_block(b0, id2@) matches Some(r0) ==> find_in_block(b1, id2@)
                    == Some(r0) && final(self).cur_ctx().blocks@ == old(self).cur_ctx().blocks@)
                &&& (find_in_block(b0, id2@) is None ==> find_in_block(b1, id2@) == Some(
                    (old(self).cur_ctx().regs.local_cnt) as u8,
                ) && final(self).cur_ctx().regs.local_cnt == old(self).cur_ctx().regs.local_cnt
                    + 1)
            })),
            r matches Err(e) ==> e.kind == ErrorType::Compilation,
        decreases stat_size(*st), 0nat,
    {
        let ghost s0 = *old(self);
        proof {
            lemma_frame_refl(s0);
        }
        match st {
            Stat::ExprStat(e) => {
                proof {
                    assert(stat_size(*st) == 1 + expr_size(*e));
                }
                let r1 = self.compile_expr(e, None, None)?;
                let ghost s1 = *self;
                self.free_temp_reg(r1);
                proof {
                    lemma_frame_trans(s0, s1, *self);
                }
            },
            Stat::Let(id, e) => {
                proof {
                    assert(stat_size(*st) == 1 + expr_size(*e));
                }
                let existing = self.cur_find_block_local(id);
                match existing {
                    Some(r0) => {
                        // Rebinding within the block: compile straight into
                        // the already-bound register.
                        self.compile_expr(e, Some(r0), Some(id))?;
                    },
                    None => {
                        let r1 = self.target_reg(None)?;
                        let ghost s1 = *self;
                        self.compile_expr(e, Some(r1), Some(id))?;
                        proof {
                            lemma_frame_trans(s0, s1, *self);
                        }
                        let ghost s2 = *self;
                        self.make_local_cur(id.clone(), r1);
                        proof {
                            lemma_mgr_extends_trans(s0.chunk, s2.chunk, self.chunk);
                            assert forall|j: int| 0 <= j < s0.ctx.stack@.len() - 1 implies
                                ctx_frame(
                                #[trigger] s0.ctx.stack@[j],
                                self.ctx.stack@[j],
                                false,
                            ) by {
                                assert(ctx_frame(s0.ctx.stack@[j], s2.ctx.stack@[j], false));
                                assert(self.ctx.stack@[j] == s2.ctx.stack@[j]);
                            }
                            let u0 = s0.cur_ctx().upvalues@;
                            let u2 = self.cur_ctx().upvalues@;
                            assert(u2.subrange(0, u0.len() as int) =~= u0);
                        }
                    },
                }
            },
            Stat::Assign(id, e) => {
                proof {
                    assert(stat_size(*st) == 1 + expr_size(*e));
                }
                let b_opt = self.get_binding(id)?;
                proof {
                    lemma_frame_from_resolution(s0, *self);
                }
                match b_opt {
                    None => {
                        return Err(
                            error(
                                String::from_str("Referencing undefined binding '").concat(
                                    id.as_str(),
                                ).concat("'"),
                            ),
                        );
                    },
                    Some(Binding::Local(l)) => {
                        let ghost s1 = *self;
                        self.compile_expr(e, Some(l), None)?;
                        proof {
                            lemma_frame_trans(s0, s1, *self);
                        }
                    },
                    Some(Binding::Upvalue(upv)) => {
                        let ghost s1 = *self;
                        let r1 = self.compile_expr(e, None, None)?;
                        proof {
                            lemma_frame_trans(s0, s1, *self);
                        }
                        let ghost s2 = *self;
                        self.free_temp_reg(r1);
                        proof {
                            lemma_frame_trans(s0, s2, *self);
                        }
                        let ghost s3 = *self;
                        self.emit2(InstrType::SetUp, upv, r1);
                        proof {
                            lemma_frame_trans(s0, s3, *self);
                        }
                    },
                }
            },
            Stat::Log(e) => {
                proof {
                    assert(stat_size(*st) == 1 + expr_size(*e));
                }
                let r1 = self.compile_expr(e, None, None)?;
                let ghost s1 = *self;
                self.free_temp_reg(r1);
                proof {
                    lemma_frame_trans(s0, s1, *self);
                }
                let ghost s2 = *self;
                self.emit1(InstrType::Log, r1);
                proof {
                    lemma_frame_trans(s0, s2, *self);
                    let cd = self.chunk.cur().code@;
                    assert(cd[cd.len() - 2] == spec_instr_byte(InstrType::Log));
                    assert(cd[cd.len() - 1] == r1);
                    if is_literal(*e) {
                        lemma_interned_prefix(
                            s1.chunk.cur(),
                            self.chunk.cur(),
                            r1 - MAX_REGISTERS,
                            literal_constant(*e),
                        );
                    }
                }
            },
            Stat::Return(e) => {
                proof {
                    assert(stat_size(*st) == 1 + expr_size(*e));
                }
                let r1 = self.compile_expr(e, None, None)?;
                let ghost s1 = *self;
                self.free_temp_reg(r1);
                proof {
                    lemma_frame_trans(s0, s1, *self);
                }
                let ghost s2 = *self;
                self.emit1(InstrType::Ret, r1);
                proof {
                    lemma_frame_trans(s0, s2, *self);
                    let cd = self.chunk.cur().code@;
                    assert(cd[cd.len() - 2] == spec_instr_byte(InstrType::Ret));
                    assert(cd[cd.len() - 1] == r1);
                    if is_literal(*e) {
                        lemma_interned_prefix(
                            s1.chunk.cur(),
                            self.chunk.cur(),
                            r1 - MAX_REGISTERS,
                            literal_constant(*e),
                        );
                    }
                }
            },
            Stat::While(e, bl) => {
                proof {
                    assert(stat_size(*st) == 1 + expr_size(*e) + block_size(bl@));
                }
                let begin = self.cur_code_len();
                let cond_reg = self.compile_expr(e, None, None)?;
                let ghost s1 = *self;
                self.free_temp_reg(cond_reg);
                proof {
                    lemma_frame_trans(s0, s1, *self);
                }
                let ghost s2 = *self;
                let placeholder = self.emit_jif(cond_reg);
                proof {
                    lemma_frame_trans(s0, s2, *self);
                }
                let ghost s3 = *self;
                self.compile_block(bl)?;
                proof {
                    lemma_frame_trans(s0, s3, *self);
                }
                let ghost s4 = *self;
                proof {
                    // `begin` was the end of code when recorded, hence a
                    // boundary, and boundaries persist.
                    assert(s0.chunk.cur().boundary(begin as int));
                    assert(self.chunk.cur().boundary(begin as int));
                }
                self.emit_jump_to(begin)?;
                proof {
                    lemma_frame_trans(s0, s4, *self);
                }
                let ghost s5 = *self;
                proof {
                    lemma_chunk_extends_trans(s3.chunk.cur(), s4.chunk.cur(), self.chunk.cur());
                    // The Jif placeholder is below everything emitted since,
                    // and no finalized jump site can equal it: older sites
                    // sit before it, newer ones after.
                    assert(placeholder < self.chunk.cur().code@.len());
                    assert forall|q: int| 0 <= q < self.chunk.cur().jump_sites@.len() implies
                        self.chunk.cur().jump_sites@[q] != placeholder as int by {
                        if q < s3.chunk.cur().jump_sites@.len() {
                            assert(s3.chunk.cur().jump_sites@[q] == self.chunk.cur().jump_sites@[
                                q
                            ]);
                            if q < s2.chunk.cur().jump_sites@.len() {
                                assert(s2.chunk.cur().jump_site_ok(s2.chunk.cur().jump_sites@[q]));
                            } else {
                                assert(s3.chunk.cur().jump_sites@[q] >= s2.chunk.cur().code@.len());
                            }
                        } else {
                            assert(self.chunk.cur().jump_sites@[q] >= s3.chunk.cur().code@.len());
                        }
                    }
                }
                self.fill_in_jump_from(placeholder)?;
                proof {
                    let floor = s0.chunk.cur().code@.len() as int;
                    assert(placeholder as int >= floor);
                    lemma_chunk_extends_weaken(
                        s5.chunk.cur(),
                        self.chunk.cur(),
                        placeholder as int,
                        floor,
                    );
                    lemma_chunk_extends_from_trans(
                        s0.chunk.cur(),
                        s5.chunk.cur(),
                        self.chunk.cur(),
                        floor,
                    );
                    assert(self.chunk.stack@ == s0.chunk.stack@);
                    assert forall|i: int|
                        0 <= i < s0.chunk.chunks@.len() && i != s0.chunk.cur_idx() implies
                        self.chunk.chunks@[i] == s0.chunk.chunks@[i] by {
                        assert(s5.chunk.chunks@[i] == s0.chunk.chunks@[i]);
                    }
                    assert(mgr_extends(s0.chunk, self.chunk));
                    assert forall|j: int| 0 <= j < s0.ctx.stack@.len() implies ctx_frame(
                        #[trigger] s0.ctx.stack@[j],
                        self.ctx.stack@[j],
                        j == s0.ctx.stack@.len() - 1,
                    ) by {
                        assert(self.ctx.stack@[j] == s5.ctx.stack@[j]);
                        assert(ctx_frame(
                            s0.ctx.stack@[j],
                            s5.ctx.stack@[j],
                            j == s0.ctx.stack@.len() - 1,
                        ));
                    }
                    assert(Compiler::frame(s0, *self));
                    // The backpatch rewrote only the Jif placeholder, which
                    // sits below the closing backward jump.
                    let cd = self.chunk.cur().code@;
                    assert((placeholder as int) < cd.len() - 2);
                    assert(cd[cd.len() - 2] == s5.chunk.cur().code@[cd.len() - 2]);
                    assert(cd[cd.len() - 2] == spec_instr_byte(InstrType::Jmp));
                }
            },
            Stat::Cond(branches) => {
                proof {
                    assert(stat_size(*st) == 1 + branches_size(branches@));
                }
                let nb = branches.len();
                if nb == 0 {
                    return Ok(());
                }
                let last_branch = nb - 1;
                let mut end_jmps: Vec<usize> = Vec::new();
                let mut bi: usize = 0;
                while bi < nb
                    invariant
                        s0 == *old(self),
                        s0.wf(),
                        s0.depth() >= 1,
                        s0.cur_ctx().blocks@.len() > 0,
                        s0.cur_ctx().regs.used == s0.cur_ctx().regs.local_cnt,
                        self.wf(),
                        nb == branches@.len(),
                        last_branch == nb - 1,
                        bi <= nb,
                        Compiler::frame(s0, *self),
                        self.depth() == s0.depth(),
                        self.cur_ctx().regs.used == self.cur_ctx().regs.local_cnt,
                        self.chunk.chunks@.len() == s0.chunk.chunks@.len()
                            || self.chunk.chunks@.len() <= 256,
                        branches_size(branches@) < stat_size(*st),
                        forall|q: int|
                            0 <= q < end_jmps@.len() ==> (#[trigger] end_jmps@[q]) < self.chunk.cur().code@.len(),
                        forall|q: int|
                            0 <= q < end_jmps@.len() ==> !self.chunk.cur().jump_sites@.contains(
                                (#[trigger] end_jmps@[q]) as int,
                            ),
                        forall|q1: int, q2: int|
                            0 <= q1 < q2 < end_jmps@.len() ==> end_jmps@[q1] < end_jmps@[q2],
                        forall|q: int|
                            0 <= q < end_jmps@.len() ==> (#[trigger] end_jmps@[q]) as int
                                >= s0.chunk.cur().code@.len(),
                    decreases nb - bi,
                {
                    let ghost sb = *self;
                    proof {
                        lemma_branches_size_elem(branches@, bi as int);
                    }
                    match &branches[bi] {
                        (Cond::If(e), bl) => {
                            proof {
                                assert(cond_size(branches@[bi as int].0) == 1 + expr_size(*e));
                            }
                            let cond_reg = self.compile_expr(e, None, None)?;
                            let ghost t1 = *self;
                            proof {
                                lemma_frame_trans(s0, sb, *self);
                            }
                            self.free_temp_reg(cond_reg);
                            let ghost t2 = *self;
                            proof {
                                lemma_frame_trans(sb, t1, *self);
                                lemma_frame_trans(s0, t1, *self);
                            }
                            let site = self.emit_jif(cond_reg);
                            let ghost t3 = *self;
                            proof {
                                lemma_frame_trans(sb, t2, *self);
                                lemma_frame_trans(s0, t2, *self);
                            }
                            self.compile_block(bl)?;
                            let ghost t4 = *self;
                            proof {
                                lemma_frame_trans(sb, t3, *self);
                                lemma_frame_trans(s0, t3, *self);
                            }
                            let ghost ej0 = end_jmps@;
                            if bi != last_branch {
                                let site2 = self.emit_jmp_placeholder();
                                proof {
                                    lemma_frame_trans(sb, t4, *self);
                                    lemma_frame_trans(s0, t4, *self);
                                }
                                end_jmps.push(site2);
                            }
                            let ghost t5 = *self;
                            proof {
                                assert(site < self.chunk.cur().code@.len());
                                assert forall|q: int|
                                    0 <= q < self.chunk.cur().jump_sites@.len() implies
                                    self.chunk.cur().jump_sites@[q] != site as int by {
                                    if q < t3.chunk.cur().jump_sites@.len() {
                                        assert(t3.chunk.cur().jump_sites@[q] == self.chunk.cur().jump_sites@[q]);
                                        if q < t2.chunk.cur().jump_sites@.len() {
                                            assert(t2.chunk.cur().jump_site_ok(
                                                t2.chunk.cur().jump_sites@[q],
                                            ));
                                        } else {
                                            assert(t3.chunk.cur().jump_sites@[q]
                                                >= t2.chunk.cur().code@.len());
                                        }
                                    } else {
                                        assert(self.chunk.cur().jump_sites@[q]
                                            >= t3.chunk.cur().code@.len());
                                    }
                                }
                            }
                            self.fill_in_jump_from(site)?;
                            proof {
                                let floor = s0.chunk.cur().code@.len() as int;
                                assert(site as int >= floor);
                                lemma_chunk_extends_weaken(
                                    t5.chunk.cur(),
                                    self.chunk.cur(),
                                    site as int,
                                    floor,
                                );
                                lemma_chunk_extends_from_trans(
                                    s0.chunk.cur(),
                                    t5.chunk.cur(),
                                    self.chunk.cur(),
                                    floor,
                                );
                                assert(self.chunk.stack@ == s0.chunk.stack@);
                                assert forall|i: int|
                                    0 <= i < s0.chunk.chunks@.len() && i != s0.chunk.cur_idx() implies
                                    self.chunk.chunks@[i] == s0.chunk.chunks@[i] by {
                                    assert(t5.chunk.chunks@[i] == s0.chunk.chunks@[i]);
                                }
                                assert(mgr_extends(s0.chunk, self.chunk));
                                assert forall|j: int| 0 <= j < s0.ctx.stack@.len() implies
                                    ctx_frame(
                                    #[trigger] s0.ctx.stack@[j],
                                    self.ctx.stack@[j],
                                    j == s0.ctx.stack@.len() - 1,
                                ) by {
                                    assert(self.ctx.stack@[j] == t5.ctx.stack@[j]);
                                    assert(ctx_frame(
                                        s0.ctx.stack@[j],
                                        t5.ctx.stack@[j],
                                        j == s0.ctx.stack@.len() - 1,
                                    ));
                                }
                                assert(Compiler::frame(s0, *self));
                                assert forall|q2: int| 0 <= q2 < end_jmps@.len() implies
                                    !self.chunk.cur().jump_sites@.contains(
                                    (#[trigger] end_jmps@[q2]) as int,
                                ) by {
                                    let sq2 = end_jmps@[q2] as int;
                                    if self.chunk.cur().jump_sites@.contains(sq2) {
                                        let w = choose|w: int|
                                            0 <= w < self.chunk.cur().jump_sites@.len()
                                                && self.chunk.cur().jump_sites@[w] == sq2;
                                        if q2 < ej0.len() {
                                            // An older placeholder: below
                                            // everything this branch added.
                                            assert(sq2 < sb.chunk.cur().code@.len());
                                            if w < sb.chunk.cur().jump_sites@.len() {
                                                assert(sb.chunk.cur().jump_sites@[w] == sq2);
                                            } else if w < t5.chunk.cur().jump_sites@.len() {
                                                assert(t5.chunk.cur().jump_sites@[w]
                                                    >= sb.chunk.cur().code@.len());
                                            } else {
                                                assert(self.chunk.cur().jump_sites@[w]
                                                    == site as int);
                                                assert(site as int >= sb.chunk.cur().code@.len());
                                            }
                                        } else {
                                            // The placeholder pushed just
                                            // now: above every site so far.
                                            assert(sq2 == t4.chunk.cur().code@.len() + 1);
                                            if w < t5.chunk.cur().jump_sites@.len() {
                                                assert(t5.chunk.cur().jump_sites@[w]
                                                    == t4.chunk.cur().jump_sites@[w]);
                                                assert(t4.chunk.cur().jump_site_ok(
                                                    t4.chunk.cur().jump_sites@[w],
                                                ));
                                            } else {
                                                assert(self.chunk.cur().jump_sites@[w]
                                                    == site as int);
                                                assert((site as int)
                                                    < t3.chunk.cur().code@.len());
                                            }
                                        }
                                    }
                                }
                            }
                        },
                        (Cond::Else, bl) => {
                            self.compile_block(bl)?;
                            proof {
                                lemma_frame_trans(s0, sb, *self);
                                assert forall|q: int| 0 <= q < end_jmps@.len() implies
                                    !self.chunk.cur().jump_sites@.contains(
                                    (#[trigger] end_jmps@[q]) as int,
                                ) by {
                                    let sq = end_jmps@[q] as int;
                                    if self.chunk.cur().jump_sites@.contains(sq) {
                                        let w = choose|w: int|
                                            0 <= w < self.chunk.cur().jump_sites@.len()
                                                && self.chunk.cur().jump_sites@[w] == sq;
                                        if w < sb.chunk.cur().jump_sites@.len() {
                                            assert(sb.chunk.cur().jump_sites@[w] == sq);
                                        } else {
                                            assert(self.chunk.cur().jump_sites@[w]
                                                >= sb.chunk.cur().code@.len());
                                        }
                                    }
                                }
                            }
                        },
                    }
                    bi = bi + 1;
                }
                // Backpatch every end-of-branch jump to land here.
                let ne = end_jmps.len();
                let mut q: usize = 0;
                while q < ne
                    invariant
                        s0 == *old(self),
                        s0.wf(),
                        s0.depth() >= 1,
                        s0.cur_ctx().blocks@.len() > 0,
                        s0.cur_ctx().regs.used == s0.cur_ctx().regs.local_cnt,
                        self.wf(),
                        ne == end_jmps@.len(),
                        q <= ne,
                        Compiler::frame(s0, *self),
                        self.depth() == s0.depth(),
                        self.cur_ctx().regs.used == self.cur_ctx().regs.local_cnt,
                        self.chunk.chunks@.len() == s0.chunk.chunks@.len()
                            || self.chunk.chunks@.len() <= 256,
                        forall|w: int|
                            q <= w < ne ==> (#[trigger] end_jmps@[w]) < self.chunk.cur().code@.len(),
                        forall|w: int|
                            q <= w < ne ==> !self.chunk.cur().jump_sites@.contains(
                                (#[trigger] end_jmps@[w]) as int,
                            ),
                        forall|w1: int, w2: int|
                            0 <= w1 < w2 < ne ==> end_jmps@[w1] < end_jmps@[w2],
                        forall|w: int|
                            0 <= w < ne ==> (#[trigger] end_jmps@[w]) as int >= s0.chunk.cur().code@.len(),
                    decreases ne - q,
                {
                    let ghost sq = *self;
                    let site = end_jmps[q];
                    self.fill_in_jump_from(site)?;
                    proof {
                        let floor = s0.chunk.cur().code@.len() as int;
                        lemma_chunk_extends_weaken(
                            sq.chunk.cur(),
                            self.chunk.cur(),
                            site as int,
                            floor,
                        );
                        lemma_chunk_extends_from_trans(
                            s0.chunk.cur(),
                            sq.chunk.cur(),
                            self.chunk.cur(),
                            floor,
                        );
                        assert(self.chunk.stack@ == s0.chunk.stack@);
                        assert forall|i: int|
                            0 <= i < s0.chunk.chunks@.len() && i != s0.chunk.cur_idx() implies
                            self.chunk.chunks@[i] == s0.chunk.chunks@[i] by {
                            assert(sq.chunk.chunks@[i] == s0.chunk.chunks@[i]);
                        }
                        assert(mgr_extends(s0.chunk, self.chunk));
                        assert forall|j: int| 0 <= j < s0.ctx.stack@.len() implies ctx_frame(
                            #[trigger] s0.ctx.stack@[j],
                            self.ctx.stack@[j],
                            j == s0.ctx.stack@.len() - 1,
                        ) by {
                            assert(self.ctx.stack@[j] == sq.ctx.stack@[j]);
                            assert(ctx_frame(
                                s0.ctx.stack@[j],
                                sq.ctx.stack@[j],
                                j == s0.ctx.stack@.len() - 1,
                            ));
                        }
                        assert(Compiler::frame(s0, *self));
                        assert forall|w: int| q + 1 <= w < ne implies
                            !self.chunk.cur().jump_sites@.contains(
                            (#[trigger] end_jmps@[w]) as int,
                        ) by {
                            let sw = end_jmps@[w] as int;
                            if self.chunk.cur().jump_sites@.contains(sw) {
                                let x = choose|x: int|
                                    0 <= x < self.chunk.cur().jump_sites@.len()
                                        && self.chunk.cur().jump_sites@[x] == sw;
                                if x < sq.chunk.cur().jump_sites@.len() {
                                    assert(sq.chunk.cur().jump_sites@[x] == sw);
                                } else {
                                    assert(self.chunk.cur().jump_sites@[x] == site as int);
                                    assert(end_jmps@[q as int] < end_jmps@[w]);
                                }
                            }
                        }
                    }
                    q = q + 1;
                }
            },
        }
        Ok(())
    }

    /// Compiles the statements of one lexical block. On success, `used` is
    /// restored exactly: every register the block's statements bound or
    /// borrowed has been freed.
    pub fn compile_block(&mut self, stats: &Block) -> (r: Result<(), HissyError>)
        requires
            old(self).wf(),
            old(self).depth() >= 1,
            old(self).cur_ctx().regs.used == old(self).cur_ctx().regs.local_cnt,
        ensures
            final(self).wf(),
            r is Ok ==> {
                &&& Compiler::frame(*old(self), *final(self))
                &&& final(self).cur_ctx().regs.used == old(self).cur_ctx().regs.used
                &&& (final(self).chunk.chunks@.len() == old(self).chunk.chunks@.len() || final(self).chunk.chunks@.len() <= 256)
            },
            r is Ok ==> forall|i: int| 0 <= i < stats@.len() ==> (#[trigger] stats@[i]).line
                <= 65535,
            r is Ok && old(self).debug_info ==> final(self).chunk.cur().debug_info.line_numbers@.len()
                >= old(self).chunk.cur().debug_info.line_numbers@.len() + stats@.len(),
            r matches Err(e) ==> e.kind == ErrorType::Compilation,
            r matches Err(e) ==> exists|i: int|
                0 <= i < stats@.len() && (((#[trigger] stats@[i]).line > 65535 && e.line == 0
                    && e.message@ == "Line number too large"@) || (stats@[i].line <= 65535 && (
                e.line == stats@[i].line || e.line != 0))),
        decreases block_size(stats@), 1nat,
    {
        let ghost s0 = *old(self);
        self.ctx_enter_block();
        let ghost s1 = *self;
        let n = stats.len();
        let mut si: usize = 0;
        while si < n
            invariant
                s0 == *old(self),
                s0.wf(),
                s0.depth() >= 1,
                s0.cur_ctx().regs.used == s0.cur_ctx().regs.local_cnt,
                self.wf(),
                n == stats@.len(),
                si <= n,
                self.debug_info == s0.debug_info,
                self.depth() == s0.depth(),
                forall|j: int|
                    0 <= j < s0.ctx.stack@.len() - 1 ==> ctx_frame(
                        #[trigger] s0.ctx.stack@[j],
                        self.ctx.stack@[j],
                        false,
                    ),
                self.cur_ctx().blocks@.len() == s0.cur_ctx().blocks@.len() + 1,
                self.cur_ctx().blocks@.drop_last() == s0.cur_ctx().blocks@,
                s0.cur_ctx().upvalues@.is_prefix_of(self.cur_ctx().upvalues@),
                self.ctx.stack@[0].upvalues@ == s0.ctx.stack@[0].upvalues@,
                self.cur_ctx().regs.required >= s0.cur_ctx().regs.required,
                self.cur_ctx().regs.used == self.cur_ctx().regs.local_cnt,
                mgr_extends(s0.chunk, self.chunk),
                self.chunk.chunks@.len() == s0.chunk.chunks@.len() || self.chunk.chunks@.len()
                    <= 256,
                forall|j: int| 0 <= j < si ==> (#[trigger] stats@[j]).line <= 65535,
                self.debug_info ==> self.chunk.cur().debug_info.line_numbers@.len()
                    >= s0.chunk.cur().debug_info.line_numbers@.len() + si,
            decreases n - si,
        {
            proof {
                lemma_block_size_elem(stats@, si as int);
            }
            let st = &stats[si];
            let line_u32 = st.line;
            if line_u32 > 65535 {
                proof {
                    assert(stats@[si as int].line > 65535);
                }
                return Err(error_str("Line number too large"));
            }
            let line = line_u32 as u16;
            let ghost sa = *self;
            if self.debug_info {
                let pos = self.cur_code_len();
                self.push_line_cur(pos, line);
                proof {
                    lemma_mgr_extends_trans(s0.chunk, sa.chunk, self.chunk);
                }
            }
            let ghost sb = *self;
            let res = self.compile_stat(&st.stat);
            match res {
                Ok(_) => {},
                Err(e) => {
                    // A compile error raised during a statement is tagged
                    // with the statement's source line; errors already
                    // carrying a line pass through unchanged.
                    let e2 = if e.line == 0 && matches!(e.kind, ErrorType::Compilation) {
                        HissyError { kind: ErrorType::Compilation, message: e.message, line }
                    } else {
                        e
                    };
                    proof {
                        assert(stats@[si as int].line <= 65535);
                        assert(e2.line == stats@[si as int].line || e2.line != 0);
                    }
                    return Err(e2);
                },
            }
            proof {
                assert(stat_post(sb, *self));
                lemma_mgr_extends_trans(s0.chunk, sb.chunk, self.chunk);
                assert forall|j: int| 0 <= j < s0.ctx.stack@.len() - 1 implies ctx_frame(
                    #[trigger] s0.ctx.stack@[j],
                    self.ctx.stack@[j],
                    false,
                ) by {
                    assert(ctx_frame(sb.ctx.stack@[j], self.ctx.stack@[j], false));
                    let u0 = s0.ctx.stack@[j].upvalues@;
                    let u2 = self.ctx.stack@[j].upvalues@;
                    assert(u2.subrange(0, u0.len() as int) =~= u0);
                }
                let u0 = s0.cur_ctx().upvalues@;
                let u2 = self.cur_ctx().upvalues@;
                assert(u2.subrange(0, u0.len() as int) =~= u0);
            }
            si = si + 1;
        }
        let ghost s2 = *self;
        self.ctx_leave_block();
        proof {
            assert(blocks_view(s2.cur_ctx().blocks).drop_last() =~= blocks_view(
                s0.cur_ctx().blocks,
            ));
            assert(blocks_view(s2.cur_ctx().blocks).last() =~= s2.cur_ctx().blocks@.last()@);
            assert(self.cur_ctx().blocks@ == s0.cur_ctx().blocks@);
            // Register balance: the locals below the block are exactly the
            // registers in use on entry.
            assert(flat(blocks_view(self.cur_ctx().blocks)).len() == s0.cur_ctx().locals().len());
            assert(self.cur_ctx().regs.used == s0.cur_ctx().regs.used);
            lemma_mgr_extends_trans(s0.chunk, s2.chunk, self.chunk);
            assert forall|j: int| 0 <= j < s0.ctx.stack@.len() implies ctx_frame(
                #[trigger] s0.ctx.stack@[j],
                self.ctx.stack@[j],
                j == s0.ctx.stack@.len() - 1,
            ) by {
                if j < s0.ctx.stack@.len() - 1 {
                    assert(ctx_frame(s0.ctx.stack@[j], s2.ctx.stack@[j], false));
                    assert(self.ctx.stack@[j] == s2.ctx.stack@[j]);
                } else {
                    let u0 = s0.cur_ctx().upvalues@;
                    let u2 = self.cur_ctx().upvalues@;
                    assert(u2 == s2.cur_ctx().upvalues@);
                    assert(u0.is_prefix_of(u2));
                }
            }
        }
        Ok(())
    }

    /// Compiles a function body into a fresh chunk: its parameters become
    /// the first locals, its body is compiled, and the chunk records its
    /// register watermark and its upvalue capture operands. Returns the
    /// 8-bit chunk id.
    pub fn compile_chunk(&mut self, name: String, ast: &Block, args: &Vec<String>) -> (r: Result<
        u8,
        HissyError,
    >)
        requires
            old(self).wf(),
        ensures
            final(self).wf(),
            r matches Ok(id) ==> {
                &&& final(self).depth() == old(self).depth()
                &&& id as int == old(self).chunk.chunks@.len()
                &&& (id as int) < final(self).chunk.chunks@.len()
                &&& final(self).chunk.chunks@.len() <= 256
                &&& final(self).chunk.stack@ == old(self).chunk.stack@
                &&& (old(self).depth() >= 1 ==> Compiler::frame(*old(self), *final(self)) && final(self).cur_ctx().regs == old(self).cur_ctx().regs && final(self).chunk.chunks@.len()
                    > old(self).chunk.cur_idx())
                &&& (old(self).depth() == 0 ==> final(self).ctx.stack@ == old(self).ctx.stack@
                    && final(self).chunk.chunks@[id as int].upvalues@.len() == 0
                    && final(self).debug_info == old(self).debug_info)
                &&& ({
                    let c = final(self).chunk.chunks@[id as int];
                    &&& c.nb_registers == c.closed_regs@.required
                    &&& c.closed_regs@.wf()
                    &&& c.upvalues@.len() == c.closed_upvalues@.len()
                    &&& c.closed_upvalues@.len() <= 256
                    &&& (forall|i: int|
                        0 <= i < c.upvalues@.len() ==> c.upvalues@[i] == c.closed_upvalues@[i].reg)
                    &&& (old(self).debug_info ==> c.debug_info.name@ == name@)
                    &&& (old(self).debug_info ==> c.debug_info.upvalue_names@.len()
                        == c.closed_upvalues@.len() && (forall|i: int|
                        0 <= i < c.debug_info.upvalue_names@.len()
                            ==> (#[trigger] c.debug_info.upvalue_names@[i])@
                            == c.closed_upvalues@[i].name@))
                })
                &&& old(self).chunk.chunks@.len() <= 255
                &&& (forall|i: int| 0 <= i < ast@.len() ==> (#[trigger] ast@[i]).line <= 65535)
            },
            r matches Err(e) ==> e.kind == ErrorType::Compilation,
        decreases block_size(ast@), 2nat,
    {
        let ghost s0 = *old(self);
        let ghost gname = name@;
        let chunk_id = self.chunk.enter();
        self.ctx.enter();
        proof {
            assert forall|j: int| 0 <= j < s0.ctx.stack@.len() implies self.ctx.stack@[j]
                == #[trigger] s0.ctx.stack@[j] by {
                assert(self.ctx.stack@.drop_last()[j] == s0.ctx.stack@[j]);
            }
            assert forall|j: int| 0 <= j < self.ctx.stack@.len() implies (
            #[trigger] self.ctx.stack@[j]).wf() by {
                if j < s0.ctx.stack@.len() {
                    assert(self.ctx.stack@[j] == s0.ctx.stack@[j]);
                }
            }
            assert(self.wf());
        }
        if self.debug_info {
            self.set_cur_name(name);
        }
        self.ctx_enter_block();
        let ghost sa = *self;
        proof {
            assert(sa.chunk.cur().upvalues@.len() == 0);
            assert(sa.cur_ctx().upvalues@.len() == 0);
        }
        let n_args = args.len();
        let mut ai: usize = 0;
        while ai < n_args
            invariant
                s0 == *old(self),
                s0.wf(),
                sa.wf(),
                self.wf(),
                n_args == args@.len(),
                ai <= n_args,
                self.depth() == s0.depth() + 1,
                self.chunk == sa.chunk,
                sa.chunk.stack@ == s0.chunk.stack@.push(s0.chunk.chunks@.len() as usize),
                sa.chunk.chunks@.len() == s0.chunk.chunks@.len() + 1,
                forall|i: int|
                    0 <= i < s0.chunk.chunks@.len() ==> sa.chunk.chunks@[i]
                        == #[trigger] s0.chunk.chunks@[i],
                sa.chunk.cur().upvalues@.len() == 0,
                sa.chunk.cur().code@.len() == 0,
                sa.chunk.cur().debug_info.upvalue_names@.len() == 0,
                s0.debug_info ==> sa.chunk.cur().debug_info.name@ == gname,
                forall|j: int|
                    0 <= j < s0.ctx.stack@.len() ==> self.ctx.stack@[j] == #[trigger] s0.ctx.stack@[j],
                self.cur_ctx().upvalues@.len() == 0,
                self.cur_ctx().blocks@.len() == 1,
                self.cur_ctx().regs.used == ai,
                self.cur_ctx().regs.local_cnt == ai,
                self.debug_info == s0.debug_info,
            decreases n_args - ai,
        {
            let r1 = self.target_reg(None)?;
            self.make_local_cur(args[ai].clone(), r1);
            ai = ai + 1;
        }
        let ghost sb = *self;
        self.compile_block(ast)?;
        let ghost s2 = *self;
        proof {
            // The fresh chunk gained code but no upvalue operands; the
            // context's outer entries kept their registers and blocks.
            assert(Compiler::frame(sb, s2));
            assert(s2.chunk.cur().upvalues@ == sb.chunk.cur().upvalues@);
            assert(s2.chunk.cur().upvalues@.len() == 0);
            assert(s0.depth() == 0 ==> s2.cur_ctx().upvalues@ == sb.cur_ctx().upvalues@);
            assert(s0.debug_info ==> s2.chunk.cur().debug_info.name@ == gname);
        }
        self.ctx_leave_block();
        let ghost s3 = *self;
        let k = self.ctx.stack.len();
        let required = self.ctx.stack[k - 1].regs.required;
        self.set_cur_nb_registers(required);
        let ghost s4 = *self;
        proof {
            assert(s4.chunk.cur().upvalues@.len() == 0);
            assert(s4.ctx.stack@ == s3.ctx.stack@);
        }
        // Copy the upvalue capture operands (and names, for debug) out of
        // the context into the chunk.
        let nup = self.ctx.stack[k - 1].upvalues.len();
        let mut ui: usize = 0;
        while ui < nup
            invariant
                s0 == *old(self),
                s0.wf(),
                s4.wf(),
                self.wf(),
                k == self.ctx.stack@.len(),
                k >= 1,
                k == s0.ctx.stack@.len() + 1,
                nup == self.cur_ctx().upvalues@.len(),
                ui <= nup,
                self.depth() == s0.depth() + 1,
                self.chunk.stack@ == s4.chunk.stack@,
                self.chunk.chunks@.len() == s4.chunk.chunks@.len(),
                forall|i: int|
                    0 <= i < s4.chunk.chunks@.len() && i != s4.chunk.cur_idx()
                        ==> self.chunk.chunks@[i] == #[trigger] s4.chunk.chunks@[i],
                self.ctx.stack@ == s4.ctx.stack@,
                self.chunk.cur().upvalues@.len() == ui,
                forall|i2: int|
                    0 <= i2 < ui ==> self.chunk.cur().upvalues@[i2] == (
                    #[trigger] self.cur_ctx().upvalues@[i2]).reg,
                self.chunk.cur().nb_registers == self.cur_ctx().regs.required,
                s0.debug_info ==> self.chunk.cur().debug_info.name@ == gname,
                s0.debug_info ==> self.chunk.cur().debug_info.upvalue_names@.len() == ui,
                s0.debug_info ==> forall|i2: int|
                    0 <= i2 < ui ==> (#[trigger] self.chunk.cur().debug_info.upvalue_names@[i2])@
                        == self.cur_ctx().upvalues@[i2].name@,
                self.debug_info == s0.debug_info,
                s4.chunk.stack@.len() == k,
            decreases nup - ui,
        {
            let r1 = self.ctx.stack[k - 1].upvalues[ui].reg;
            self.push_cur_upvalue(r1);
            let ghost sm = *self;
            if self.debug_info {
                let ghost entry = self.ctx.stack@[k - 1].upvalues@[ui as int];
                let nm = self.ctx.stack[k - 1].upvalues[ui].name.clone();
                proof {
                    assert(nm@ == entry.name@);
                }
                let ghost gnm = nm@;
                self.push_cur_upvalue_name(nm);
                proof {
                    assert(self.chunk.cur().debug_info.upvalue_names@ == sm.chunk.cur().debug_info.upvalue_names@.push(
                        self.chunk.cur().debug_info.upvalue_names@.last(),
                    ));
                    assert(self.chunk.cur().debug_info.upvalue_names@.last()@ == gnm);
                    assert(self.chunk.cur().debug_info.upvalue_names@.last()@
                        == self.cur_ctx().upvalues@[ui as int].name@);
                }
            }
            ui = ui + 1;
        }
        let gi = self.chunk.cur_index();
        self.chunk.chunks[gi].record_close(
            Ghost(self.ctx.stack@[k - 1].regs),
            Ghost(self.ctx.stack@[k - 1].upvalues@),
        );
        let ghost s5 = *self;
        proof {
            assert(s0.depth() == 0 ==> nup == 0);
            assert(s0.depth() == 0 ==> s5.chunk.cur().upvalues@.len() == 0);
            assert(s5.chunk.cur().nb_registers == s5.chunk.cur().closed_regs@.required);
            assert(s5.chunk.cur().upvalues@.len() == s5.chunk.cur().closed_upvalues@.len());
        }
        self.ctx.leave();
        self.chunk.leave();
        if chunk_id > 255 {
            return Err(error_str("Too many chunks"));
        }
        proof {
            let idc = chunk_id as int;
            assert(self.chunk.stack@ =~= s0.chunk.stack@);
            assert(self.ctx.stack@.len() == s0.ctx.stack@.len());
            assert(self.chunk.chunks@[idc] == s5.chunk.cur());
            // Existing chunks other than the one just closed are untouched.
            assert forall|i: int| 0 <= i < s0.chunk.chunks@.len() implies self.chunk.chunks@[i]
                == #[trigger] s0.chunk.chunks@[i] by {
                assert(i != idc);
                assert(s4.chunk.chunks@[i] == s2.chunk.chunks@[i]);
                assert(s2.chunk.chunks@[i] == sb.chunk.chunks@[i]);
            }
            if s0.depth() >= 1 {
                assert(s0.chunk.stack@.len() > 0);
                assert(s0.chunk.cur_idx() < s0.chunk.chunks@.len());
                assert(self.chunk.chunks@[s0.chunk.cur_idx()] == s0.chunk.cur());
                lemma_chunk_extends_refl(s0.chunk.cur());
                assert(mgr_extends(s0.chunk, self.chunk));
                assert forall|j: int| 0 <= j < s0.ctx.stack@.len() implies ctx_frame(
                    #[trigger] s0.ctx.stack@[j],
                    self.ctx.stack@[j],
                    j == s0.ctx.stack@.len() - 1,
                ) by {
                    assert(self.ctx.stack@[j] == s2.ctx.stack@[j]);
                    assert(sb.ctx.stack@[j] == s0.ctx.stack@[j]);
                    assert(ctx_frame(sb.ctx.stack@[j], s2.ctx.stack@[j], false));
                }
                assert(self.ctx.stack@[0].upvalues@ == s0.ctx.stack@[0].upvalues@);
                assert(Compiler::frame(s0, *self));
                assert(self.cur_ctx().regs == s0.cur_ctx().regs);
            }
            if s0.depth() == 0 {
                assert(self.ctx.stack@ =~= s0.ctx.stack@);
            }
        }
        Ok(chunk_id as u8)
    }

    /// Compiles a whole program: the top-level statements become chunk 0,
    /// the `<main>` chunk, with no parameters and no upvalues; nested
    /// functions become further chunks. Every chunk of the result is
    /// well-formed: in particular every backpatched jump lands inside its
    /// chunk's code, on an instruction boundary.
    pub fn compile_program(self, ast: &Block) -> (r: Result<Program, HissyError>)
        requires
            self.wf(),
            self.depth() == 0,
            self.chunk.chunks@.len() == 0,
        ensures
            r matches Ok(p) ==> {
                &&& 1 <= p.chunks@.len() <= 256
                &&& (forall|i: int| 0 <= i < p.chunks@.len() ==> (#[trigger] p.chunks@[i]).wf())
                &&& p.chunks@[0].upvalues@.len() == 0
                &&& p.debug_info == self.debug_info
                &&& (self.debug_info ==> p.chunks@[0].debug_info.name@ == "<main>"@)
                &&& p.chunks@[0].nb_registers == p.chunks@[0].closed_regs@.required
                &&& (forall|i: int| 0 <= i < ast@.len() ==> (#[trigger] ast@[i]).line <= 65535)
            },
            r matches Err(e) ==> e.kind == ErrorType::Compilation,
    {
        let mut me = self;
        let no_args: Vec<String> = Vec::new();
        me.compile_chunk(String::from_str("<main>"), ast, &no_args)?;
        let debug_info = me.debug_info;
        let chunks = me.chunk.finish();
        Ok(Program { debug_info, chunks })
    }
}

} // verus!
