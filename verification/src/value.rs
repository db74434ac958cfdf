//! NaN-boxed runtime values and their rooting discipline.
//!
//! A [`Value`] is a 64-bit word encoding six variants over IEEE-754 doubles:
//! bit patterns at or below the tag floor are reals; above it, a 3-bit tag
//! selects nil, bool, int, heap-root or heap-ref, with the payload in the low
//! 48 bits. A heap pointer is carried as a plain 48-bit address; the object's
//! wrapper keeps a root count so that copies of rooting values and their drops
//! balance out, which is what the tracing collector relies on.

use vstd::prelude::*;

verus! {

/// Bit patterns at or below this floor are real numbers ("fat" NaNs above it
/// are forbidden as inputs).
pub const TAG_MIN: u64 = 0xfff8000000000000;

/// First bit pattern of the Nil tag.
pub const NIL_BASE: u64 = 0xfff9000000000000;

/// First bit pattern of the Bool tag.
pub const BOOL_BASE: u64 = 0xfffa000000000000;

/// First bit pattern of the Int tag.
pub const INT_BASE: u64 = 0xfffb000000000000;

/// First bit pattern of the Root tag.
pub const ROOT_BASE: u64 = 0xfffc000000000000;

/// First bit pattern of the Ref tag.
pub const REF_BASE: u64 = 0xfffd000000000000;

/// One past the last valid bit pattern.
pub const TAG_END: u64 = 0xfffe000000000000;

/// Exclusive bound on pointer payloads: pointers must fit in 48 bits.
pub const POINTER_MAX: u64 = 0x1000000000000;

/// The variant of a [`Value`].
#[derive(Clone, Copy, PartialEq, Eq, Structural, Debug)]
pub enum ValueType {
    Real,
    Nil,
    Bool,
    Int,
    Root,
    Ref,
}

/// Mathematical model of a [`Value`]: the decoded variant and payload.
/// A real is modeled by its raw bit pattern.
pub enum ValueModel {
    Real(u64),
    Nil,
    Bool(bool),
    Int(i32),
    Root(u64),
    Ref(u64),
}

/// Whether `bits` is a valid encoding: a real at or below the tag floor, or a
/// tagged word whose payload fits its variant.
pub open spec fn bits_wf(bits: u64) -> bool {
    ||| bits <= TAG_MIN
    ||| bits == NIL_BASE
    ||| bits == BOOL_BASE
    ||| bits == BOOL_BASE + 1
    ||| INT_BASE <= bits < INT_BASE + 0x100000000
    ||| ROOT_BASE <= bits < ROOT_BASE + POINTER_MAX
    ||| REF_BASE <= bits < REF_BASE + POINTER_MAX
}

/// Decodes a bit pattern into its model.
pub open spec fn decode(bits: u64) -> ValueModel {
    if bits <= TAG_MIN {
        ValueModel::Real(bits)
    } else if bits < BOOL_BASE {
        ValueModel::Nil
    } else if bits < INT_BASE {
        ValueModel::Bool(bits == BOOL_BASE + 1)
    } else if bits < ROOT_BASE {
        ValueModel::Int(((bits - INT_BASE) as u32) as i32)
    } else if bits < REF_BASE {
        ValueModel::Root((bits - ROOT_BASE) as u64)
    } else {
        ValueModel::Ref((bits - REF_BASE) as u64)
    }
}

/// The encoding of an integer value.
pub open spec fn int_bits(i: i32) -> u64 {
    (INT_BASE + (i as u32) as u64) as u64
}

/// The encoding of a boolean value.
pub open spec fn bool_bits(b: bool) -> u64 {
    if b {
        (BOOL_BASE + 1) as u64
    } else {
        BOOL_BASE
    }
}

/// The variant tag of a model.
pub open spec fn type_of(m: ValueModel) -> ValueType {
    match m {
        ValueModel::Real(_) => ValueType::Real,
        ValueModel::Nil => ValueType::Nil,
        ValueModel::Bool(_) => ValueType::Bool,
        ValueModel::Int(_) => ValueType::Int,
        ValueModel::Root(_) => ValueType::Root,
        ValueModel::Ref(_) => ValueType::Ref,
    }
}

/// Whether a model refers to a heap object.
pub open spec fn is_heap(m: ValueModel) -> bool {
    m is Root || m is Ref
}

/// What a copy of a value is: copying a heap reference always yields a Root
/// (so copies participate in rooting); anything else is a bitwise copy.
pub open spec fn copy_model(m: ValueModel) -> ValueModel {
    match m {
        ValueModel::Root(p) => ValueModel::Root(p),
        ValueModel::Ref(p) => ValueModel::Root(p),
        _ => m,
    }
}

/// How dropping a value changes its referent's root count: only dropping a
/// Root un-signals the wrapper.
pub open spec fn drop_delta(m: ValueModel) -> int {
    if m is Root {
        -1
    } else {
        0
    }
}

proof fn lemma_i32_u32_round_trip(i: i32)
    ensures
        ((i as u32) as i32) == i,
{
    assert(((i as u32) as i32) == i) by (bit_vector);
}

/// Model of a garbage-collected heap object's wrapper: the part of its header
/// that values interact with. The collector treats an object with a positive
/// root count as a member of the root set.
pub struct GCWrapper {
    /// How many Root values currently reference this object.
    pub root_count: u64,
    /// Set by the tracer when the object is reached.
    pub marked: bool,
}

impl GCWrapper {
    /// A fresh, unrooted, unmarked wrapper.
    pub fn new() -> (w: GCWrapper)
        ensures
            w.root_count == 0,
            !w.marked,
    {
        GCWrapper { root_count: 0, marked: false }
    }

    /// Signals that one more Root value references this object.
    pub fn signal_root(&mut self)
        requires
            old(self).root_count < u64::MAX,
        ensures
            final(self).root_count == old(self).root_count + 1,
            final(self).marked == old(self).marked,
    {
        self.root_count = self.root_count + 1;
    }

    /// Signals that one Root value referencing this object went away.
    pub fn signal_unroot(&mut self)
        requires
            old(self).root_count > 0,
        ensures
            final(self).root_count == old(self).root_count - 1,
            final(self).marked == old(self).marked,
    {
        self.root_count = self.root_count - 1;
    }

    /// Marks the object as reached by the tracer.
    pub fn mark(&mut self)
        ensures
            final(self).marked,
            final(self).root_count == old(self).root_count,
    {
        self.marked = true;
    }
}

/// An 8-byte tagged value. See the module documentation for the encoding.
pub struct Value {
    bits: u64,
}

impl View for Value {
    type V = ValueModel;

    closed spec fn view(&self) -> ValueModel {
        decode(self.bits)
    }
}

impl Value {
    /// Validity: the stored bits are a well-formed encoding.
    pub closed spec fn wf(self) -> bool {
        bits_wf(self.bits)
    }

    /// The nil value.
    pub fn nil() -> (v: Value)
        ensures
            v@ == ValueModel::Nil,
            v.wf(),
    {
        Value { bits: NIL_BASE }
    }

    /// Encodes an integer.
    pub fn from_int(i: i32) -> (v: Value)
        ensures
            v@ == ValueModel::Int(i),
            v.wf(),
    {
        proof {
            lemma_i32_u32_round_trip(i);
        }
        let payload: u32 = #[verifier::truncate] (i as u32);
        Value { bits: INT_BASE + payload as u64 }
    }

    /// Encodes a boolean.
    pub fn from_bool(b: bool) -> (v: Value)
        ensures
            v@ == ValueModel::Bool(b),
            v.wf(),
    {
        if b {
            Value { bits: BOOL_BASE + 1 }
        } else {
            Value { bits: BOOL_BASE }
        }
    }

    /// Encodes a real number given by its raw IEEE-754 bit pattern.
    /// "Fat" NaNs (patterns above the tag floor) are forbidden.
    pub fn from_real_bits(bits: u64) -> (v: Value)
        requires
            bits <= TAG_MIN,
        ensures
            v@ == ValueModel::Real(bits),
            v.wf(),
    {
        Value { bits }
    }

    /// Builds a Root or Ref over a 48-bit heap address; building a Root
    /// signals the object's wrapper.
    pub fn from_pointer(pointer: u64, root: bool, wrapper: &mut GCWrapper) -> (v: Value)
        requires
            pointer < POINTER_MAX,
            root ==> old(wrapper).root_count < u64::MAX,
        ensures
            v.wf(),
            root ==> v@ == ValueModel::Root(pointer) && final(wrapper).root_count == old(wrapper).root_count + 1,
            !root ==> v@ == ValueModel::Ref(pointer) && *final(wrapper) == *old(wrapper),
            final(wrapper).marked == old(wrapper).marked,
    {
        if root {
            wrapper.signal_root();
            Value { bits: ROOT_BASE + pointer }
        } else {
            Value { bits: REF_BASE + pointer }
        }
    }

    /// Returns the variant of this value.
    pub fn get_type(&self) -> (t: ValueType)
        requires
            self.wf(),
        ensures
            t == type_of(self@),
    {
        if self.bits <= TAG_MIN {
            ValueType::Real
        } else if self.bits < BOOL_BASE {
            ValueType::Nil
        } else if self.bits < INT_BASE {
            ValueType::Bool
        } else if self.bits < ROOT_BASE {
            ValueType::Int
        } else if self.bits < REF_BASE {
            ValueType::Root
        } else {
            ValueType::Ref
        }
    }

    /// Whether this value is nil.
    pub fn is_nil(&self) -> (r: bool)
        requires
            self.wf(),
        ensures
            r == (self@ is Nil),
    {
        self.bits >= NIL_BASE && self.bits < BOOL_BASE
    }

    /// Variant-checked accessor for integers.
    pub fn try_as_int(&self) -> (r: Result<i32, &'static str>)
        requires
            self.wf(),
        ensures
            self@ matches ValueModel::Int(i) ==> r == Ok::<i32, &'static str>(i),
            !(self@ is Int) ==> r is Err,
    {
        if self.bits >= INT_BASE && self.bits < ROOT_BASE {
            Ok(#[verifier::truncate] ((self.bits - INT_BASE) as u32 as i32))
        } else {
            Err("Value is not an integer")
        }
    }

    /// Variant-checked accessor for reals, as a raw bit pattern.
    pub fn try_as_real(&self) -> (r: Result<u64, &'static str>)
        requires
            self.wf(),
        ensures
            self@ matches ValueModel::Real(bits) ==> r == Ok::<u64, &'static str>(bits),
            !(self@ is Real) ==> r is Err,
    {
        if self.bits <= TAG_MIN {
            Ok(self.bits)
        } else {
            Err("Value is not a real")
        }
    }

    /// Variant-checked accessor for booleans.
    pub fn try_as_bool(&self) -> (r: Result<bool, &'static str>)
        requires
            self.wf(),
        ensures
            self@ matches ValueModel::Bool(b) ==> r == Ok::<bool, &'static str>(b),
            !(self@ is Bool) ==> r is Err,
    {
        if self.bits == BOOL_BASE {
            Ok(false)
        } else if self.bits == BOOL_BASE + 1 {
            Ok(true)
        } else {
            Err("Value is not a boolean")
        }
    }

    /// Variant-checked accessor for heap addresses (Root or Ref).
    pub fn try_as_pointer(&self) -> (r: Option<u64>)
        requires
            self.wf(),
        ensures
            self@ matches ValueModel::Root(p) ==> r == Some(p),
            self@ matches ValueModel::Ref(p) ==> r == Some(p),
            !is_heap(self@) ==> r is None,
    {
        if self.bits >= ROOT_BASE && self.bits < REF_BASE {
            Some(self.bits - ROOT_BASE)
        } else if self.bits >= REF_BASE {
            Some(self.bits - REF_BASE)
        } else {
            None
        }
    }

    /// Copies this value. A copy of a heap reference is a fresh Root (never a
    /// bare Ref), so the copy signals the wrapper; anything else is bitwise.
    pub fn copy(&self, wrapper: &mut GCWrapper) -> (v: Value)
        requires
            self.wf(),
            is_heap(self@) ==> old(wrapper).root_count < u64::MAX,
        ensures
            v.wf(),
            v@ == copy_model(self@),
            is_heap(self@) ==> final(wrapper).root_count == old(wrapper).root_count + 1,
            !is_heap(self@) ==> *final(wrapper) == *old(wrapper),
            final(wrapper).marked == old(wrapper).marked,
    {
        if self.bits >= ROOT_BASE && self.bits < REF_BASE {
            Value::from_pointer(self.bits - ROOT_BASE, true, wrapper)
        } else if self.bits >= REF_BASE {
            Value::from_pointer(self.bits - REF_BASE, true, wrapper)
        } else {
            Value { bits: self.bits }
        }
    }

    /// Drops this value: if it is a Root, un-signals the wrapper.
    pub fn drop_value(self, wrapper: &mut GCWrapper)
        requires
            self.wf(),
            self@ is Root ==> old(wrapper).root_count > 0,
        ensures
            final(wrapper).root_count == old(wrapper).root_count + drop_delta(self@),
            final(wrapper).marked == old(wrapper).marked,
    {
        if self.bits >= ROOT_BASE && self.bits < REF_BASE {
            wrapper.signal_unroot();
        }
    }

    /// In-place demotion of Root to Ref, un-signalling the wrapper;
    /// idempotent on non-Root values.
    pub fn unroot(&mut self, wrapper: &mut GCWrapper)
        requires
            old(self).wf(),
            old(self)@ is Root ==> old(wrapper).root_count > 0,
        ensures
            final(self).wf(),
            old(self)@ matches ValueModel::Root(p) ==> final(self)@ == ValueModel::Ref(p) && final(wrapper).root_count == old(wrapper).root_count - 1,
            !(old(self)@ is Root) ==> *final(self) == *old(self) && *final(wrapper) == *old(wrapper),
            final(wrapper).marked == old(wrapper).marked,
    {
        if self.bits >= ROOT_BASE && self.bits < REF_BASE {
            self.bits = REF_BASE + (self.bits - ROOT_BASE);
            wrapper.signal_unroot();
        }
    }

    /// Marks the referent if this value is a heap reference
    /// (used by the tracer).
    pub fn mark(&self, wrapper: &mut GCWrapper)
        requires
            self.wf(),
        ensures
            is_heap(self@) ==> final(wrapper).marked && final(wrapper).root_count == old(wrapper).root_count,
            !is_heap(self@) ==> *final(wrapper) == *old(wrapper),
    {
        if self.bits >= ROOT_BASE {
            wrapper.mark();
        }
    }
}

/// The character of one decimal digit.
pub open spec fn digit_char(d: nat) -> char {
    if d == 0 {
        '0'
    } else if d == 1 {
        '1'
    } else if d == 2 {
        '2'
    } else if d == 3 {
        '3'
    } else if d == 4 {
        '4'
    } else if d == 5 {
        '5'
    } else if d == 6 {
        '6'
    } else if d == 7 {
        '7'
    } else if d == 8 {
        '8'
    } else {
        '9'
    }
}

/// The decimal digits of a natural number, most significant first.
pub open spec fn dec_digits(n: nat) -> Seq<char>
    decreases n,
{
    if n < 10 {
        seq![digit_char(n)]
    } else {
        dec_digits(n / 10).push(digit_char(n % 10))
    }
}

/// The signed decimal text of an integer.
pub open spec fn int_decimal(i: int) -> Seq<char> {
    if i < 0 {
        seq!['-'] + dec_digits((-i) as nat)
    } else {
        dec_digits(i as nat)
    }
}

/// One decimal digit as text.
fn digit_str(d: u32) -> (r: &'static str)
    requires
        d < 10,
    ensures
        r@ == seq![digit_char(d as nat)],
{
    proof {
        reveal_strlit("0");
        reveal_strlit("1");
        reveal_strlit("2");
        reveal_strlit("3");
        reveal_strlit("4");
        reveal_strlit("5");
        reveal_strlit("6");
        reveal_strlit("7");
        reveal_strlit("8");
        reveal_strlit("9");
    }
    let r = match d {
        0 => "0",
        1 => "1",
        2 => "2",
        3 => "3",
        4 => "4",
        5 => "5",
        6 => "6",
        7 => "7",
        8 => "8",
        _ => "9",
    };
    proof {
        assert(r@ =~= seq![digit_char(d as nat)]);
    }
    r
}

/// The decimal text of a natural number.
fn dec_string(n: u32) -> (r: String)
    ensures
        r@ == dec_digits(n as nat),
    decreases n,
{
    if n < 10 {
        String::from_str(digit_str(n))
    } else {
        proof {
            assert(n / 10 < n) by (nonlinear_arith)
                requires
                    n >= 10,
            ;
        }
        let s = dec_string(n / 10);
        let r = s.concat(digit_str(n % 10));
        proof {
            assert(r@ =~= dec_digits(n as nat));
        }
        r
    }
}

/// The signed decimal text of an integer.
fn int_string(i: i32) -> (r: String)
    ensures
        r@ == int_decimal(i as int),
{
    if i >= 0 {
        dec_string(i as u32)
    } else {
        let mag: u32 = if i == i32::MIN {
            0x8000_0000u32
        } else {
            (-i) as u32
        };
        proof {
            assert(mag as int == -(i as int));
        }
        let r = String::from_str("-").concat(dec_string(mag).as_str());
        proof {
            reveal_strlit("-");
            assert(r@ =~= int_decimal(i as int));
        }
        r
    }
}

impl Value {
    /// Canonical text of a non-real, non-heap value: "nil", "true" or
    /// "false", or the signed decimal of an Int. Reals need shortest
    /// round-trip decimal formatting and heap values their wrapper's debug
    /// text, both outside this library.
    pub fn repr_basic(&self) -> (r: Option<String>)
        requires
            self.wf(),
        ensures
            self@ is Nil ==> (r matches Some(s) && s@ == "nil"@),
            self@ matches ValueModel::Bool(b) ==> (r matches Some(s) && s@ == (if b {
                "true"@
            } else {
                "false"@
            })),
            self@ matches ValueModel::Int(i) ==> (r matches Some(s) && s@ == int_decimal(i as int)),
            self@ is Real || is_heap(self@) ==> r is None,
    {
        match self.get_type() {
            ValueType::Nil => Some(String::from_str("nil")),
            ValueType::Bool => match self.try_as_bool() {
                Ok(b) => {
                    if b {
                        Some(String::from_str("true"))
                    } else {
                        Some(String::from_str("false"))
                    }
                },
                Err(_) => None,
            },
            ValueType::Int => match self.try_as_int() {
                Ok(i) => Some(int_string(i)),
                Err(_) => None,
            },
            _ => None,
        }
    }
}

/// Value round-trip law: decoding the encoding of an integer, a boolean, or a
/// real bit pattern at or below the tag floor (finite doubles and quiet NaNs
/// included, signed zeros and infinities bitwise preserved) gives back exactly
/// the encoded value.
pub proof fn lemma_value_round_trip(i: i32, b: bool, rbits: u64)
    requires
        rbits <= TAG_MIN,
    ensures
        decode(int_bits(i)) == ValueModel::Int(i),
        decode(bool_bits(b)) == ValueModel::Bool(b),
        decode(rbits) == ValueModel::Real(rbits),
{
    lemma_i32_u32_round_trip(i);
}

/// Rooting law: a copy of any heap value is a Root, so dropping the copy
/// un-signals the wrapper exactly once; dropping both a Root and its copy
/// reduces the root count by two.
pub proof fn lemma_rooting(m: ValueModel)
    ensures
        is_heap(m) ==> drop_delta(copy_model(m)) == -1,
        m is Root ==> drop_delta(copy_model(m)) + drop_delta(m) == -2,
{
}

} // verus!
