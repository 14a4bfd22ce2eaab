use crate::sig::SigView;
use crate::types::{Arch, InstKind, SymbolBinding, System};
use vstd::prelude::*;

verus! {

/// A registered symbol.
pub struct SymbolView {
    pub name: Seq<char>,
    pub binding: SymbolBinding,
}

/// A built function: its symbol, its signature, its entry block and its
/// parameter instructions, all by arena index.
pub struct FuncView {
    pub symbol: usize,
    pub sig: SigView,
    pub entry: usize,
    pub params: Seq<usize>,
}

/// A block: the function it belongs to and its instructions in order,
/// without the closing bookend.
pub struct BlockView {
    pub func: usize,
    pub body: Seq<usize>,
}

/// An instruction record: what it is, its value operands and the block
/// whose list holds it.
pub struct InstView {
    pub kind: InstKind,
    pub inputs: Seq<usize>,
    pub block: usize,
}

/// The contents of a session. Every record is named by its index in the
/// sequence that holds it.
pub struct ModuleView {
    pub arch: Arch,
    pub system: System,
    pub symbols: Seq<SymbolView>,
    pub funcs: Seq<FuncView>,
    pub blocks: Seq<BlockView>,
    pub insts: Seq<InstView>,
}

impl ModuleView {
    /// A session that holds nothing yet.
    pub open spec fn empty(arch: Arch, system: System) -> ModuleView {
        ModuleView {
            arch,
            system,
            symbols: Seq::empty(),
            funcs: Seq::empty(),
            blocks: Seq::empty(),
            insts: Seq::empty(),
        }
    }

    /// The session after registering a symbol.
    pub open spec fn with_symbol(self, name: Seq<char>, binding: SymbolBinding) -> ModuleView {
        ModuleView { symbols: self.symbols.push(SymbolView { name, binding }), ..self }
    }

    /// The session after adding an empty block to function `func`; the
    /// block's bookend is the next instruction record.
    pub open spec fn with_block(self, func: usize) -> ModuleView {
        let b = self.blocks.len() as usize;
        ModuleView {
            blocks: self.blocks.push(BlockView { func, body: Seq::empty() }),
            insts: self.insts.push(InstView { kind: InstKind::Bookend(b), inputs: Seq::empty(), block: b }),
            ..self
        }
    }

    /// The session after appending an instruction to the end of block `b`.
    pub open spec fn with_inst(self, b: usize, kind: InstKind, inputs: Seq<usize>) -> ModuleView {
        let id = self.insts.len() as usize;
        ModuleView {
            blocks: self.blocks.update(
                b as int,
                BlockView { body: self.blocks[b as int].body.push(id), ..self.blocks[b as int] },
            ),
            insts: self.insts.push(InstView { kind, inputs, block: b }),
            ..self
        }
    }

    /// The indices that the parameters of a function get when its entry
    /// block's bookend is record `bookend`: the records right after it.
    pub open spec fn param_ids(bookend: nat, n: nat) -> Seq<usize> {
        Seq::new(n, |k: int| (bookend + 1 + k) as usize)
    }

    /// The session after building a function of `symbol` and `sig`: a new
    /// entry block whose list holds one parameter instruction per declared
    /// parameter.
    pub open spec fn with_func(self, symbol: usize, sig: SigView) -> ModuleView {
        let f = self.funcs.len() as usize;
        let b = self.blocks.len() as usize;
        let params = Self::param_ids(self.insts.len(), sig.params.len());
        ModuleView {
            funcs: self.funcs.push(FuncView { symbol, sig, entry: b, params }),
            blocks: self.blocks.push(BlockView { func: f, body: params }),
            insts: self.insts.push(
                InstView { kind: InstKind::Bookend(b), inputs: Seq::empty(), block: b },
            ).add(
                Seq::new(
                    sig.params.len(),
                    |k: int| InstView { kind: InstKind::Param(k as u16), inputs: Seq::empty(), block: b },
                ),
            ),
            ..self
        }
    }

    /// The function that holds instruction `i`.
    pub open spec fn func_of(self, i: int) -> int {
        self.blocks[self.insts[i].block as int].func as int
    }

    /// Record `x` is a value of function `f`: an instruction, not a bookend,
    /// in one of `f`'s blocks.
    pub open spec fn value_in(self, x: usize, f: int) -> bool {
        &&& x < self.insts.len()
        &&& self.insts[x as int].block < self.blocks.len()
        &&& !(self.insts[x as int].kind is Bookend)
        &&& self.func_of(x as int) == f
    }

    /// Every record of `xs` is a value of function `f`.
    pub open spec fn values_in(self, xs: Seq<usize>, f: int) -> bool {
        forall|j: int| 0 <= j < xs.len() ==> self.value_in(#[trigger] xs[j], f)
    }

    /// Block `b` may take an instruction of this kind with these operands:
    /// a value kind whose operands and target belong to `b`'s function.
    pub open spec fn may_append(self, b: usize, kind: InstKind, inputs: Seq<usize>) -> bool {
        let f = self.blocks[b as int].func;
        &&& b < self.blocks.len()
        &&& !(kind is Bookend)
        &&& self.values_in(inputs, f as int)
        &&& (kind is Jump ==> kind->Jump_0 < self.blocks.len() && self.blocks[kind->Jump_0 as int].func == f)
        &&& (kind is Call ==> kind->Call_0 < self.funcs.len())
    }

    /// `later` keeps every record of `self` and may add more: instructions
    /// keep what they are, their operands and their block; blocks keep
    /// their function and may only gain instructions.
    pub open spec fn grows_to(self, later: ModuleView) -> bool {
        &&& later.arch == self.arch
        &&& later.system == self.system
        &&& self.symbols.len() <= later.symbols.len()
        &&& self.funcs.len() <= later.funcs.len()
        &&& self.blocks.len() <= later.blocks.len()
        &&& self.insts.len() <= later.insts.len()
        &&& forall|s: int| 0 <= s < self.symbols.len() ==> #[trigger] later.symbols[s] == self.symbols[s]
        &&& forall|f: int| 0 <= f < self.funcs.len() ==> #[trigger] later.funcs[f] == self.funcs[f]
        &&& forall|b: int|
            0 <= b < self.blocks.len() ==> {
                &&& #[trigger] later.blocks[b].func == self.blocks[b].func
                &&& self.blocks[b].body.is_prefix_of(later.blocks[b].body)
            }
        &&& forall|i: int| 0 <= i < self.insts.len() ==> #[trigger] later.insts[i] == self.insts[i]
    }

    /// A value of a function stays one as the session grows.
    pub proof fn lemma_values_grow(self, later: ModuleView, xs: Seq<usize>, f: int)
        requires
            self.grows_to(later),
            self.values_in(xs, f),
        ensures
            later.values_in(xs, f),
    {
        assert forall|j: int| 0 <= j < xs.len() implies later.value_in(#[trigger] xs[j], f) by {
            assert(self.value_in(xs[j], f));
            assert(later.insts[xs[j] as int] == self.insts[xs[j] as int]);
            assert(later.blocks[self.insts[xs[j] as int].block as int].func == self.blocks[self.insts[xs[j] as int].block as int].func);
        }
    }
}

} // verus!
