use core::marker::PhantomData;
use vstd::prelude::*;

verus! {

/// Target architecture of a session.
#[derive(Clone, Copy, Debug, PartialEq, Eq, Structural)]
pub enum Arch {
    Xr17032,
}

/// Target operating environment of a session.
#[derive(Clone, Copy, Debug, PartialEq, Eq, Structural)]
pub enum System {
    Freestanding,
}

/// Calling convention of a function signature.
#[derive(Clone, Copy, Debug, PartialEq, Eq, Structural)]
pub enum CallConv {
    Jackal,
}

/// Linkage classification of a symbol.
#[derive(Clone, Copy, Debug, PartialEq, Eq, Structural)]
pub enum SymbolBinding {
    Local,
    Global,
    SharedExport,
    SharedImport,
}

/// Type descriptor of a parameter or a return value.
#[derive(Clone, Copy, Debug, PartialEq, Eq, Hash, Structural)]
pub enum Ty {
    Void,
    Bool,
    I8,
    I16,
    I32,
    I64,
    Ptr,
}

/// One entry of a signature's parameter or return list.
#[derive(Clone, Copy, Debug, PartialEq, Eq, Hash, Structural)]
pub struct FuncParam {
    pub ty: Ty,
}

/// Two-operand arithmetic and logic operations.
#[derive(Clone, Copy, Debug, PartialEq, Eq, Structural)]
pub enum BinOp {
    Add,
    Sub,
    Mul,
    And,
    Or,
    Xor,
}

/// A literal value.
#[derive(Clone, Copy, Debug, PartialEq, Eq, Structural)]
pub enum Const {
    Bool(bool),
    U8(u8),
    U16(u16),
    U32(u32),
    U64(u64),
}

/// What an instruction record is.
///
/// `Bookend(b)` is the sentinel that closes the instruction list of block
/// `b`; `Jump(b)` names its target block and `Call(f)` its callee function,
/// both by arena index. Value operands are kept apart, as the record's inputs.
#[derive(Clone, Copy, Debug, PartialEq, Eq, Structural)]
pub enum InstKind {
    Bookend(usize),
    Param(u16),
    Const(Const),
    BinOp(BinOp),
    Return,
    Jump(usize),
    Call(usize),
}

/// Failures of the build operations.
#[derive(Clone, Copy, Debug, PartialEq, Eq, Structural)]
pub enum BuildError {
    /// A symbol name, parameter list or return list is longer than 65535.
    LengthOverflow,
    /// A function was given a symbol bound `SharedImport`.
    InvalidBinding,
    /// A parameter index is not below the declared parameter count.
    IndexOutOfBounds,
    /// The number of supplied values differs from the declared count.
    ArityMismatch,
    /// A handle does not name a live record of this session, or an operand
    /// belongs to another function.
    ForeignHandle,
}

/// Largest length of a symbol name in bytes, and of a parameter or return list.
pub const MAX_LEN: usize = 65535;

/// A scope marker. Its lifetime parameter is invariant, so markers made by
/// two different calls of [`InvariantOn::new`] never unify.
#[derive(Debug)]
pub struct InvariantOn<'brand> {
    marker: PhantomData<&'brand mut &'brand ()>,
}

impl<'brand> Clone for InvariantOn<'brand> {
    fn clone(&self) -> (r: Self)
        ensures
            r == *self,
    {
        *self
    }
}

impl<'brand> Copy for InvariantOn<'brand> {
}

impl<'brand> InvariantOn<'brand> {
    /// A marker of the brand that the caller's scope fixes.
    pub(crate) fn fresh() -> (r: InvariantOn<'brand>) {
        InvariantOn { marker: PhantomData }
    }

    /// Runs `f` with a marker of a fresh brand and returns what `f` returns.
    pub fn new<F, R>(f: F) -> (r: R) where F: for<'a> FnOnce(InvariantOn<'a>) -> R
        requires
            forall|m: InvariantOn| #[trigger] f.requires((m,)),
        ensures
            exists|m: InvariantOn| #[trigger] f.ensures((m,), r),
    {
        let marker = InvariantOn { marker: PhantomData };
        f(marker)
    }
}

} // verus!
