//! Per-chunk register allocation.
//!
//! Registers form a single 8-bit operand space split at [`MAX_REGISTERS`]:
//! operands below it are registers, operands at or above it are constant-pool
//! indices. Within a chunk, registers are partitioned at any point into a
//! prefix of locals `[0, local_cnt)` and a suffix of temporaries
//! `[local_cnt, used)`; temporaries are freed in strict LIFO order, and
//! `required` records the high-water mark of `used`.

use vstd::prelude::*;
use crate::error::{error_str, HissyError};

verus! {

/// The operand-space split between registers and constants.
pub const MAX_REGISTERS: u8 = 128;

/// Register-allocation state of one chunk under compilation.
pub struct ChunkRegisters {
    /// High-water mark: the maximum `used` observed so far.
    pub required: u16,
    /// Number of currently allocated registers (locals plus temporaries).
    pub used: u16,
    /// Number of registers currently bound as block locals.
    pub local_cnt: u16,
}

impl ChunkRegisters {
    /// Allocation state well-formedness: locals form a prefix of the used
    /// registers, and the watermark never exceeds the register space.
    pub open spec fn wf(self) -> bool {
        &&& self.local_cnt <= self.used
        &&& self.used <= self.required
        &&& self.required <= MAX_REGISTERS
    }

    /// Creates an empty allocation state.
    pub fn new() -> (r: ChunkRegisters)
        ensures
            r.required == 0,
            r.used == 0,
            r.local_cnt == 0,
            r.wf(),
    {
        ChunkRegisters { required: 0, used: 0, local_cnt: 0 }
    }

    /// Allocates the next free register, bumping the watermark.
    /// Succeeds exactly when a register is still free.
    pub fn new_reg(&mut self) -> (r: Result<u8, HissyError>)
        requires
            old(self).wf(),
        ensures
            final(self).wf(),
            old(self).used < MAX_REGISTERS ==> {
                &&& r is Ok
                &&& r->Ok_0 == old(self).used
                &&& final(self).used == old(self).used + 1
                &&& final(self).required == if old(self).used + 1 > old(self).required {
                    old(self).used + 1
                } else {
                    old(self).required as int
                }
                &&& final(self).local_cnt == old(self).local_cnt
            },
            old(self).used >= MAX_REGISTERS ==> r is Err && *final(self) == *old(self),
            r matches Err(e) ==> e.kind == crate::error::ErrorType::Compilation && e.message@
                == "Cannot compile: Too many registers required"@ && e.line == 0,
    {
        if self.used >= MAX_REGISTERS as u16 {
            return Err(error_str("Cannot compile: Too many registers required"));
        }
        let new_reg: u8 = self.used as u8;
        self.used = self.used + 1;
        if self.used > self.required {
            self.required = self.used;
        }
        Ok(new_reg)
    }

    /// Allocates `n` consecutive registers (a call-argument window) and
    /// returns the first. Succeeds exactly when the window fits.
    pub fn new_reg_range(&mut self, n: u16) -> (r: Result<u8, HissyError>)
        requires
            old(self).wf(),
        ensures
            final(self).wf(),
            old(self).used + n <= MAX_REGISTERS ==> {
                &&& r is Ok
                &&& r->Ok_0 == old(self).used
                &&& final(self).used == old(self).used + n
                &&& final(self).required == if old(self).used + n > old(self).required {
                    old(self).used + n
                } else {
                    old(self).required as int
                }
                &&& final(self).local_cnt == old(self).local_cnt
            },
            old(self).used + n > MAX_REGISTERS ==> r is Err && *final(self) == *old(self),
            r matches Err(e) ==> e.kind == crate::error::ErrorType::Compilation && e.message@
                == "Cannot compile: Too many registers required"@ && e.line == 0,
    {
        if n > MAX_REGISTERS as u16 || self.used + n > MAX_REGISTERS as u16 {
            return Err(error_str("Cannot compile: Too many registers required"));
        }
        let range_start: u8 = self.used as u8;
        self.used = self.used + n;
        if self.used > self.required {
            self.required = self.used;
        }
        Ok(range_start)
    }

    /// Promotes the most recently allocated register to a block local.
    /// Locals are always made at the bottom of the temporary region.
    pub fn make_local(&mut self, i: u8)
        requires
            old(self).wf(),
            i as u16 == old(self).local_cnt,
            old(self).local_cnt < old(self).used,
        ensures
            final(self).wf(),
            final(self).local_cnt == old(self).local_cnt + 1,
            final(self).used == old(self).used,
            final(self).required == old(self).required,
    {
        self.local_cnt = self.local_cnt + 1;
    }

    /// Frees the topmost allocated register, truncating the local prefix
    /// if it was a local.
    pub fn free_reg(&mut self, i: u8)
        requires
            old(self).wf(),
            old(self).used > 0,
            i as u16 == old(self).used - 1,
        ensures
            final(self).wf(),
            final(self).used == old(self).used - 1,
            final(self).local_cnt == if old(self).local_cnt > old(self).used - 1 {
                old(self).used - 1
            } else {
                old(self).local_cnt as int
            },
            final(self).required == old(self).required,
    {
        self.used = self.used - 1;
        if self.local_cnt > self.used {
            self.local_cnt = self.used;
        }
    }

    /// Frees the topmost `n` registers at once.
    pub fn free_reg_range(&mut self, start: u8, n: u16)
        requires
            old(self).wf(),
            start as u16 + n == old(self).used,
        ensures
            final(self).wf(),
            final(self).used == start as u16,
            final(self).local_cnt == if old(self).local_cnt > start as u16 {
                start as int
            } else {
                old(self).local_cnt as int
            },
            final(self).required == old(self).required,
    {
        self.used = self.used - n;
        if self.local_cnt > self.used {
            self.local_cnt = self.used;
        }
    }

    /// Frees `i` only if it is a temporary register operand: a register
    /// (not a constant-pool operand) above the local prefix.
    pub fn free_temp_reg(&mut self, i: u8)
        requires
            old(self).wf(),
            i < MAX_REGISTERS && i as u16 >= old(self).local_cnt ==> i as u16 + 1 == old(
                self,
            ).used,
        ensures
            final(self).wf(),
            i < MAX_REGISTERS && i as u16 >= old(self).local_cnt ==> final(self).used == old(
                self,
            ).used - 1,
            !(i < MAX_REGISTERS && i as u16 >= old(self).local_cnt) ==> *final(self) == *old(
                self,
            ),
            final(self).local_cnt == old(self).local_cnt,
            final(self).required == old(self).required,
    {
        if i < MAX_REGISTERS && i as u16 >= self.local_cnt {
            self.free_reg(i);
        }
    }

    /// Frees the window `[start, start + n)` only if it lies in the
    /// temporary region.
    pub fn free_temp_range(&mut self, start: u8, n: u16)
        requires
            old(self).wf(),
            start as u16 >= old(self).local_cnt ==> start as u16 + n == old(self).used,
        ensures
            final(self).wf(),
            start as u16 >= old(self).local_cnt ==> final(self).used == start as u16,
            (start as u16) < old(self).local_cnt ==> *final(self) == *old(self),
            final(self).local_cnt == old(self).local_cnt,
            final(self).required == old(self).required,
    {
        if start as u16 >= self.local_cnt {
            self.free_reg_range(start, n);
        }
    }
}

} // verus!
