//! Binding resolution state: block-scoped locals and per-chunk upvalues.
//!
//! Each chunk under compilation keeps a stack of lexical blocks, each an
//! ordered list of name-to-register bindings, together with its register
//! allocator and its upvalue list. The central invariant ties them together:
//! the bindings of all blocks, flattened in order, occupy exactly the
//! registers `0 .. local_cnt`, in order. Leaving a block therefore frees its
//! registers from the top down, restoring `used` exactly.

use vstd::prelude::*;
use crate::error::{error_str, HissyError};
use crate::registers::{ChunkRegisters, MAX_REGISTERS};

verus! {

/// One name-to-register binding inside a block.
pub struct LocalBinding {
    pub name: String,
    pub reg: u8,
}

/// One upvalue slot: the captured name and the encoded operand in the parent
/// chunk supplying its value.
pub struct UpvalueBinding {
    pub name: String,
    pub reg: u8,
}

/// How an identifier resolves inside a chunk.
pub enum Binding {
    Local(u8),
    Upvalue(u8),
}

impl Binding {
    /// The 8-bit encoding used in upvalue capture tables: a local register
    /// below `MAX_REGISTERS`, or an upvalue slot offset by `MAX_REGISTERS`.
    pub open spec fn spec_encoded(self) -> u8 {
        match self {
            Binding::Local(reg) => reg,
            Binding::Upvalue(upv) => (upv + MAX_REGISTERS) as u8,
        }
    }

    /// Encodes this binding for a capture table. Only upvalue slots below
    /// `MAX_REGISTERS` are encodable.
    pub fn encoded(&self) -> (r: u8)
        requires
            self matches Binding::Upvalue(upv) ==> upv < MAX_REGISTERS,
        ensures
            r == self.spec_encoded(),
    {
        match self {
            Binding::Local(reg) => *reg,
            Binding::Upvalue(upv) => upv + MAX_REGISTERS,
        }
    }
}

/// The blocks of a chunk as a sequence of binding sequences.
pub open spec fn blocks_view(blocks: Vec<Vec<LocalBinding>>) -> Seq<Seq<LocalBinding>> {
    blocks@.map_values(|b: Vec<LocalBinding>| b@)
}

/// All bindings of a block stack, flattened in order.
pub open spec fn flat(blocks: Seq<Seq<LocalBinding>>) -> Seq<LocalBinding>
    decreases blocks.len(),
{
    if blocks.len() == 0 {
        Seq::empty()
    } else {
        flat(blocks.drop_last()) + blocks.last()
    }
}

/// The binding of `name` in one block: the most recently added entry wins.
pub open spec fn find_in_block(b: Seq<LocalBinding>, name: Seq<char>) -> Option<u8>
    decreases b.len(),
{
    if b.len() == 0 {
        None
    } else if b.last().name@ == name {
        Some(b.last().reg)
    } else {
        find_in_block(b.drop_last(), name)
    }
}

/// The local binding of `name` in a block stack, innermost block first.
pub open spec fn find_local(blocks: Seq<Seq<LocalBinding>>, name: Seq<char>) -> Option<u8>
    decreases blocks.len(),
{
    if blocks.len() == 0 {
        None
    } else {
        match find_in_block(blocks.last(), name) {
            Some(r) => Some(r),
            None => find_local(blocks.drop_last(), name),
        }
    }
}

/// The first upvalue slot capturing `name`, if any.
pub open spec fn find_upvalue(upvs: Seq<UpvalueBinding>, name: Seq<char>) -> Option<int>
    decreases upvs.len(),
{
    if upvs.len() == 0 {
        None
    } else if upvs[0].name@ == name {
        Some(0)
    } else {
        match find_upvalue(upvs.drop_first(), name) {
            Some(i) => Some(i + 1),
            None => None,
        }
    }
}

/// Appending an upvalue keeps every existing capture at its slot; a fresh
/// name lands in the new slot.
pub proof fn lemma_find_upvalue_push(upvs: Seq<UpvalueBinding>, x: UpvalueBinding, name: Seq<char>)
    ensures
        find_upvalue(upvs.push(x), name) == match find_upvalue(upvs, name) {
            Some(i) => Some(i),
            None => if x.name@ == name {
                Some(upvs.len() as int)
            } else {
                None::<int>
            },
        },
    decreases upvs.len(),
{
    if upvs.len() == 0 {
        assert(upvs.push(x).drop_first() =~= Seq::<UpvalueBinding>::empty().push(x).drop_first());
        assert(upvs.push(x).drop_first() =~= upvs);
    } else {
        lemma_find_upvalue_push(upvs.drop_first(), x, name);
        assert(upvs.push(x).drop_first() =~= upvs.drop_first().push(x));
    }
}

/// Compilation state of one chunk: registers, blocks, upvalues.
pub struct ChunkContext {
    pub regs: ChunkRegisters,
    pub blocks: Vec<Vec<LocalBinding>>,
    pub upvalues: Vec<UpvalueBinding>,
}

impl ChunkContext {
    /// All local bindings, flattened in block order.
    pub open spec fn locals(self) -> Seq<LocalBinding> {
        flat(blocks_view(self.blocks))
    }

    /// The resolution of `name` in this chunk: a local if any block binds
    /// it, else an existing upvalue slot.
    pub open spec fn chunk_binding(self, name: Seq<char>) -> Option<Binding> {
        match find_local(blocks_view(self.blocks), name) {
            Some(r) => Some(Binding::Local(r)),
            None => match find_upvalue(self.upvalues@, name) {
                Some(i) => Some(Binding::Upvalue(i as u8)),
                None => None,
            },
        }
    }

    /// Context well-formedness: the flattened bindings occupy exactly the
    /// registers `0 .. local_cnt` in order, and the upvalue list respects
    /// its cap.
    pub open spec fn wf(self) -> bool {
        &&& self.regs.wf()
        &&& self.locals().len() == self.regs.local_cnt
        &&& forall|i: int| 0 <= i < self.locals().len() ==> (#[trigger] self.locals()[i]).reg == i
        &&& self.upvalues@.len() <= 256
    }

    /// A fresh context with no blocks, no upvalues, no registers in use.
    pub fn new() -> (c: ChunkContext)
        ensures
            c.wf(),
            c.blocks@.len() == 0,
            c.upvalues@.len() == 0,
            c.regs.used == 0,
            c.regs.local_cnt == 0,
            c.regs.required == 0,
    {
        let c = ChunkContext {
            regs: ChunkRegisters::new(),
            blocks: Vec::new(),
            upvalues: Vec::new(),
        };
        proof {
            assert(blocks_view(c.blocks) =~= Seq::<Seq<LocalBinding>>::empty());
        }
        c
    }

    /// Opens a new innermost block.
    pub fn enter_block(&mut self)
        requires
            old(self).wf(),
        ensures
            final(self).wf(),
            blocks_view(final(self).blocks) == blocks_view(old(self).blocks).push(
                Seq::<LocalBinding>::empty(),
            ),
            final(self).blocks@.len() == old(self).blocks@.len() + 1,
            final(self).blocks@.drop_last() == old(self).blocks@,
            final(self).blocks@.last()@ == Seq::<LocalBinding>::empty(),
            final(self).regs == old(self).regs,
            final(self).upvalues@ == old(self).upvalues@,
            final(self).locals() == old(self).locals(),
    {
        self.blocks.push(Vec::new());
        proof {
            assert(self.blocks@.drop_last() =~= old(self).blocks@);
        }
        proof {
            assert(blocks_view(self.blocks) =~= blocks_view(old(self).blocks).push(
                Seq::<LocalBinding>::empty(),
            ));
            assert(blocks_view(self.blocks).drop_last() =~= blocks_view(old(self).blocks));
            assert(self.locals() =~= old(self).locals());
        }
    }

    /// Closes the innermost block, freeing each of its registers in
    /// descending order; `used` drops back by exactly the block's bindings.
    pub fn leave_block(&mut self)
        requires
            old(self).wf(),
            old(self).blocks@.len() > 0,
            old(self).regs.used == old(self).regs.local_cnt,
        ensures
            final(self).wf(),
            blocks_view(final(self).blocks) == blocks_view(old(self).blocks).drop_last(),
            final(self).upvalues@ == old(self).upvalues@,
            final(self).regs.used == old(self).regs.used - blocks_view(
                old(self).blocks,
            ).last().len(),
            final(self).regs.local_cnt == final(self).regs.used,
            final(self).regs.required == old(self).regs.required,
            final(self).regs.used == final(self).locals().len(),
            final(self).blocks@ == old(self).blocks@.drop_last(),
    {
        let ghost c0 = *self;
        let blk = self.blocks.pop().unwrap();
        let ghost start = c0.regs.local_cnt - blk@.len();
        proof {
            assert(self.blocks@ =~= c0.blocks@.drop_last());
            assert(blocks_view(self.blocks) =~= blocks_view(c0.blocks).drop_last());
            assert(c0.locals() == flat(blocks_view(c0.blocks).drop_last()) + blk@);
            assert(self.locals().len() + blk@.len() == c0.regs.local_cnt);
        }
        let mut j = blk.len();
        while j > 0
            invariant
                j <= blk@.len(),
                self.blocks@ == c0.blocks@.drop_last(),
                blocks_view(self.blocks) == blocks_view(c0.blocks).drop_last(),
                self.upvalues@ == c0.upvalues@,
                self.regs.required == c0.regs.required,
                self.regs.wf(),
                start == c0.regs.local_cnt - blk@.len(),
                start == self.locals().len(),
                self.regs.used == start + j,
                self.regs.local_cnt == if j == blk@.len() {
                    c0.regs.local_cnt as int
                } else {
                    start + j
                },
                c0.wf(),
                c0.locals() == flat(blocks_view(c0.blocks).drop_last()) + blk@,
                blocks_view(c0.blocks).len() > 0,
            decreases j,
        {
            j = j - 1;
            let reg = blk[j].reg;
            proof {
                assert(c0.locals()[start + j] == blk@[j as int]);
                assert(blk@[j as int].reg == start + j);
            }
            self.regs.free_reg(reg);
        }
        proof {
            assert forall|i: int| 0 <= i < self.locals().len() implies (
            #[trigger] self.locals()[i]).reg == i by {
                assert(c0.locals()[i] == self.locals()[i]);
            }
        }
    }

    /// Looks `id` up in one block; the most recently added binding wins.
    fn find_in_block_exec(b: &Vec<LocalBinding>, id: &String) -> (r: Option<u8>)
        ensures
            r == find_in_block(b@, id@),
    {
        let mut i = b.len();
        proof {
            assert(b@.subrange(0, b@.len() as int) =~= b@);
        }
        while i > 0
            invariant
                i <= b@.len(),
                find_in_block(b@, id@) == find_in_block(b@.subrange(0, i as int), id@),
            decreases i,
        {
            i = i - 1;
            let ghost upto = b@.subrange(0, i + 1);
            proof {
                assert(upto.last() == b@[i as int]);
                assert(upto.drop_last() =~= b@.subrange(0, i as int));
            }
            if b[i].name.eq(id) {
                return Some(b[i].reg);
            }
        }
        proof {
            assert(b@.subrange(0, 0) =~= Seq::<LocalBinding>::empty());
        }
        None
    }

    /// Looks `id` up in the innermost block only.
    pub fn find_block_local(&self, id: &String) -> (r: Option<u8>)
        requires
            self.blocks@.len() > 0,
        ensures
            r == find_in_block(blocks_view(self.blocks).last(), id@),
    {
        let n = self.blocks.len();
        ChunkContext::find_in_block_exec(&self.blocks[n - 1], id)
    }

    /// Resolves `id` within this chunk: the block stack inside-out, then the
    /// existing upvalue list.
    pub fn find_chunk_binding(&self, id: &String) -> (r: Option<Binding>)
        requires
            self.wf(),
        ensures
            r == self.chunk_binding(id@),
            r matches Some(b) ==> match b {
                Binding::Local(reg) => reg < MAX_REGISTERS,
                Binding::Upvalue(u) => (u as int) < self.upvalues@.len(),
            },
    {
        let ghost bv = blocks_view(self.blocks);
        let mut k = self.blocks.len();
        proof {
            assert(bv.subrange(0, bv.len() as int) =~= bv);
        }
        while k > 0
            invariant
                k <= self.blocks@.len(),
                bv == blocks_view(self.blocks),
                self.wf(),
                find_local(bv, id@) == find_local(bv.subrange(0, k as int), id@),
            decreases k,
        {
            k = k - 1;
            let ghost upto = bv.subrange(0, k + 1);
            proof {
                assert(upto.last() == bv[k as int]);
                assert(upto.drop_last() =~= bv.subrange(0, k as int));
            }
            let found = ChunkContext::find_in_block_exec(&self.blocks[k], id);
            if let Some(reg) = found {
                proof {
                    lemma_find_local_reg_bound(bv, id@, *self);
                }
                return Some(Binding::Local(reg));
            }
        }
        proof {
            assert(bv.subrange(0, 0) =~= Seq::<Seq<LocalBinding>>::empty());
            assert(find_local(bv, id@) is None);
        }
        let n = self.upvalues.len();
        let mut i: usize = 0;
        while i < n
            invariant
                i <= n,
                n == self.upvalues@.len(),
                self.wf(),
                find_local(blocks_view(self.blocks), id@) is None,
                forall|j: int| 0 <= j < i ==> (#[trigger] self.upvalues@[j]).name@ != id@,
            decreases n - i,
        {
            if self.upvalues[i].name.eq(id) {
                proof {
                    lemma_find_upvalue_skip(self.upvalues@, i as int, id@);
                    assert(self.upvalues@.subrange(i as int, n as int)[0] == self.upvalues@[
                        i as int
                    ]);
                }
                return Some(Binding::Upvalue(i as u8));
            }
            i = i + 1;
        }
        proof {
            lemma_find_upvalue_skip(self.upvalues@, n as int, id@);
            assert(self.upvalues@.subrange(n as int, n as int) =~= Seq::<UpvalueBinding>::empty());
        }
        None
    }

    /// Binds `id` to `reg` in the innermost block and promotes `reg` to a
    /// local. The register must be the one just allocated on top of a
    /// drained temporary region.
    pub fn make_local(&mut self, id: String, reg: u8)
        requires
            old(self).wf(),
            old(self).blocks@.len() > 0,
            reg as u16 == old(self).regs.local_cnt,
            old(self).regs.local_cnt < old(self).regs.used,
        ensures
            final(self).wf(),
            blocks_view(final(self).blocks) == blocks_view(old(self).blocks).update(
                blocks_view(old(self).blocks).len() - 1,
                blocks_view(old(self).blocks).last().push(
                    LocalBinding { name: final(self).locals().last().name, reg: reg },
                ),
            ),
            final(self).locals().last().name@ == id@,
            final(self).upvalues@ == old(self).upvalues@,
            final(self).regs.used == old(self).regs.used,
            final(self).regs.required == old(self).regs.required,
            final(self).regs.local_cnt == old(self).regs.local_cnt + 1,
            blocks_view(final(self).blocks).len() == blocks_view(old(self).blocks).len(),
            forall|name: Seq<char>|
                name != id@ ==> #[trigger] find_in_block(
                    blocks_view(final(self).blocks).last(),
                    name,
                ) == find_in_block(blocks_view(old(self).blocks).last(), name),
            find_in_block(blocks_view(final(self).blocks).last(), id@) == Some(reg),
            final(self).blocks@.len() == old(self).blocks@.len(),
            final(self).blocks@.drop_last() == old(self).blocks@.drop_last(),
            final(self).blocks@.last()@ == old(self).blocks@.last()@.push(
                final(self).blocks@.last()@.last(),
            ),
            final(self).blocks@.last()@.last().name@ == id@,
            final(self).blocks@.last()@.last().reg == reg,
            final(self).locals() == old(self).locals().push(final(self).blocks@.last()@.last()),
    {
        let ghost c0 = *self;
        let mut blk = self.blocks.pop().unwrap();
        blk.push(LocalBinding { name: id, reg });
        self.blocks.push(blk);
        self.regs.make_local(reg);
        proof {
            let bv0 = blocks_view(c0.blocks);
            let bv1 = blocks_view(self.blocks);
            let entry = self.locals().last();
            assert(bv1 =~= bv0.update(bv0.len() - 1, bv0.last().push(
                LocalBinding { name: entry.name, reg: reg },
            )));
            assert(bv1.drop_last() =~= bv0.drop_last());
            assert(self.locals() =~= c0.locals().push(bv1.last().last()));
            assert(bv1.last().drop_last() =~= bv0.last());
            assert forall|i: int| 0 <= i < self.locals().len() implies (
            #[trigger] self.locals()[i]).reg == i by {
                if i < c0.locals().len() {
                    assert(self.locals()[i] == c0.locals()[i]);
                }
            }
            assert(self.blocks@.drop_last() =~= c0.blocks@.drop_last());
        }
    }

    /// Appends an upvalue slot capturing `id` from the encoded parent
    /// operand `reg`. Fails exactly when the chunk already has 256 upvalues.
    pub fn make_upvalue(&mut self, id: String, reg: u8) -> (r: Result<u8, HissyError>)
        requires
            old(self).wf(),
        ensures
            final(self).wf(),
            final(self).blocks@ == old(self).blocks@,
            final(self).regs == old(self).regs,
            old(self).upvalues@.len() < 256 <==> r is Ok,
            r matches Err(e) ==> e.kind == crate::error::ErrorType::Compilation && e.message@
                == "Too many upvalues in chunk"@ && e.line == 0,
            r matches Ok(u) ==> {
                &&& u == old(self).upvalues@.len()
                &&& final(self).upvalues@.len() == old(self).upvalues@.len() + 1
                &&& final(self).upvalues@ == old(self).upvalues@.push(
                    UpvalueBinding { name: final(self).upvalues@.last().name, reg: reg },
                )
                &&& final(self).upvalues@.last().name@ == id@
            },
            r is Err ==> *final(self) == *old(self),
    {
        if self.upvalues.len() >= 256 {
            return Err(error_str("Too many upvalues in chunk"));
        }
        let upv = self.upvalues.len() as u8;
        self.upvalues.push(UpvalueBinding { name: id, reg });
        Ok(upv)
    }
}

/// A resolution to a local names one of the registers `0 .. local_cnt`.
pub proof fn lemma_chunk_binding_local(c: ChunkContext, name: Seq<char>)
    requires
        c.wf(),
    ensures
        c.chunk_binding(name) matches Some(b) ==> (b matches Binding::Local(reg) ==> (reg as int)
            < c.regs.local_cnt),
{
    if c.chunk_binding(name) matches Some(Binding::Local(reg)) {
        lemma_find_local_in_flat(blocks_view(c.blocks), name);
        if find_local(blocks_view(c.blocks), name) is Some {
            let r2 = find_local(blocks_view(c.blocks), name)->Some_0;
            let i = choose|i: int| 0 <= i < c.locals().len() && c.locals()[i].reg == r2;
            assert(c.locals()[i].reg == i);
        }
    }
}

/// A local binding found by [`find_local`] names a register below the local
/// count, hence below `MAX_REGISTERS`.
proof fn lemma_find_local_reg_bound(blocks: Seq<Seq<LocalBinding>>, name: Seq<char>, c: ChunkContext)
    requires
        c.wf(),
        blocks == blocks_view(c.blocks),
    ensures
        find_local(blocks, name) matches Some(reg) ==> reg < MAX_REGISTERS,
{
    if find_local(blocks, name) is Some {
        let reg = find_local(blocks, name)->Some_0;
        lemma_find_local_in_flat(blocks, name);
        let i = choose|i: int| 0 <= i < flat(blocks).len() && flat(blocks)[i].reg == reg;
        assert(c.locals()[i].reg == i);
    }
}

/// A register found by [`find_in_block`] occurs in the block.
proof fn lemma_find_in_block_member(b: Seq<LocalBinding>, name: Seq<char>)
    ensures
        find_in_block(b, name) matches Some(reg) ==> exists|i: int|
            0 <= i < b.len() && b[i].reg == reg,
    decreases b.len(),
{
    if b.len() > 0 && b.last().name@ != name {
        lemma_find_in_block_member(b.drop_last(), name);
        if find_in_block(b, name) is Some {
            let reg = find_in_block(b, name)->Some_0;
            let i = choose|i: int| 0 <= i < b.drop_last().len() && b.drop_last()[i].reg == reg;
            assert(b[i].reg == reg);
        }
    }
}

/// A register found by [`find_local`] occurs in the flattened bindings.
proof fn lemma_find_local_in_flat(blocks: Seq<Seq<LocalBinding>>, name: Seq<char>)
    ensures
        find_local(blocks, name) matches Some(reg) ==> exists|i: int|
            0 <= i < flat(blocks).len() && flat(blocks)[i].reg == reg,
    decreases blocks.len(),
{
    if blocks.len() > 0 && find_local(blocks, name) is Some {
        let reg = find_local(blocks, name)->Some_0;
        if find_in_block(blocks.last(), name) is Some {
            lemma_find_in_block_member(blocks.last(), name);
            let i = choose|i: int|
                0 <= i < blocks.last().len() && blocks.last()[i].reg == reg;
            assert(flat(blocks)[flat(blocks.drop_last()).len() + i].reg == reg);
        } else {
            lemma_find_local_in_flat(blocks.drop_last(), name);
            let i = choose|i: int|
                0 <= i < flat(blocks.drop_last()).len() && flat(blocks.drop_last())[i].reg == reg;
            assert(flat(blocks)[i].reg == reg);
        }
    }
}

/// Skipping a prefix of non-matching upvalues shifts [`find_upvalue`] by the
/// prefix length.
proof fn lemma_find_upvalue_skip(upvs: Seq<UpvalueBinding>, i: int, name: Seq<char>)
    requires
        0 <= i <= upvs.len(),
        forall|j: int| 0 <= j < i ==> (#[trigger] upvs[j]).name@ != name,
    ensures
        find_upvalue(upvs, name) == match find_upvalue(upvs.subrange(i, upvs.len() as int), name) {
            Some(k) => Some(k + i),
            None => None::<int>,
        },
    decreases i,
{
    if i == 0 {
        assert(upvs.subrange(0, upvs.len() as int) =~= upvs);
    } else {
        assert(upvs[0].name@ != name);
        lemma_find_upvalue_skip(upvs.drop_first(), i - 1, name);
        assert(upvs.drop_first().subrange(i - 1, upvs.drop_first().len() as int) =~= upvs.subrange(
            i,
            upvs.len() as int,
        ));
    }
}

/// The stack of chunk contexts, innermost chunk last.
pub struct Context {
    pub stack: Vec<ChunkContext>,
}

impl Context {
    /// An empty context stack.
    pub fn new() -> (c: Context)
        ensures
            c.stack@.len() == 0,
    {
        Context { stack: Vec::new() }
    }

    /// Pushes a fresh chunk context (entering a nested function).
    pub fn enter(&mut self)
        ensures
            final(self).stack@.len() == old(self).stack@.len() + 1,
            final(self).stack@.drop_last() == old(self).stack@,
            final(self).stack@.last().wf(),
            final(self).stack@.last().blocks@.len() == 0,
            final(self).stack@.last().upvalues@.len() == 0,
            final(self).stack@.last().regs.used == 0,
            final(self).stack@.last().regs.local_cnt == 0,
            final(self).stack@.last().regs.required == 0,
    {
        self.stack.push(ChunkContext::new());
        proof {
            assert(final(self).stack@.drop_last() =~= old(self).stack@);
        }
    }

    /// Pops the innermost chunk context (leaving a nested function).
    pub fn leave(&mut self)
        requires
            old(self).stack@.len() > 0,
        ensures
            final(self).stack@ == old(self).stack@.drop_last(),
    {
        self.stack.pop().unwrap();
    }
}

} // verus!
