use crate::sig::SigView;
use crate::types::{InstKind, SymbolBinding};
use crate::view::ModuleView;
use vstd::prelude::*;

verus! {

/// A function built from a signature with `N` parameters has exactly `N`
/// parameter instructions: the `k`-th is `Param(k)`, a value of the new
/// function, and they open its entry block in order.
pub proof fn lemma_built_function_params(v: ModuleView, symbol: usize, sig: SigView)
    requires
        v.insts.len() + sig.params.len() < usize::MAX,
        v.blocks.len() < usize::MAX,
        v.funcs.len() < usize::MAX,
    ensures
        ({
            let w = v.with_func(symbol, sig);
            let f = v.funcs.len() as int;
            &&& w.funcs[f].sig == sig
            &&& w.funcs[f].params.len() == sig.params.len()
            &&& w.blocks[w.funcs[f].entry as int].body == w.funcs[f].params
            &&& w.values_in(w.funcs[f].params, f)
            &&& forall|k: int|
                0 <= k < sig.params.len() ==> #[trigger] w.insts[w.funcs[f].params[k] as int].kind
                    == InstKind::Param(k as u16)
        }),
{
    let w = v.with_func(symbol, sig);
    let f = v.funcs.len() as int;
    let params = w.funcs[f].params;
    let e = v.insts.len() as int;
    let fresh = Seq::new(
        sig.params.len(),
        |k: int| crate::view::InstView { kind: InstKind::Param(k as u16), inputs: Seq::empty(), block: v.blocks.len() as usize },
    );
    assert(w.insts == v.insts.push(w.insts[e]) + fresh);
    assert forall|j: int| 0 <= j < params.len() implies w.insts[#[trigger] params[j] as int] == fresh[j] by {
        assert(params[j] == e + 1 + j);
    }
    assert(w.blocks[v.blocks.len() as int].func == f);
    assert forall|j: int| 0 <= j < params.len() implies w.value_in(#[trigger] params[j], f) by {
        assert(w.insts[params[j] as int] == fresh[j]);
    }
    assert forall|k: int| 0 <= k < sig.params.len() implies #[trigger] w.insts[params[k] as int].kind
        == InstKind::Param(k as u16) by {
        assert(w.insts[params[k] as int] == fresh[k]);
    }
}

/// No build step drops or changes a record that the session already
/// holds: every symbol, function and instruction stays as it was, and
/// every block keeps its function and its instructions, so every handle
/// made before the step still names the same record after it.
pub proof fn lemma_build_steps_grow(
    v: ModuleView,
    name: Seq<char>,
    binding: SymbolBinding,
    symbol: usize,
    sig: SigView,
    func: usize,
    b: usize,
    kind: InstKind,
    inputs: Seq<usize>,
)
    requires
        b < v.blocks.len(),
    ensures
        v.grows_to(v.with_symbol(name, binding)),
        v.grows_to(v.with_func(symbol, sig)),
        v.grows_to(v.with_block(func)),
        v.grows_to(v.with_inst(b, kind, inputs)),
{
    let a = v.with_func(symbol, sig);
    let c = v.with_block(func);
    let d = v.with_inst(b, kind, inputs);
    assert forall|bb: int| 0 <= bb < v.blocks.len() implies v.blocks[bb].body.is_prefix_of(a.blocks[bb].body) by {
        assert(v.blocks[bb].body =~= a.blocks[bb].body.subrange(0, v.blocks[bb].body.len() as int));
    }
    assert forall|bb: int| 0 <= bb < v.blocks.len() implies v.blocks[bb].body.is_prefix_of(c.blocks[bb].body) by {
        assert(v.blocks[bb].body =~= c.blocks[bb].body.subrange(0, v.blocks[bb].body.len() as int));
    }
    assert forall|bb: int| 0 <= bb < v.blocks.len() implies v.blocks[bb].body.is_prefix_of(d.blocks[bb].body) by {
        assert(v.blocks[bb].body =~= d.blocks[bb].body.subrange(0, v.blocks[bb].body.len() as int));
    }
    assert forall|i: int| 0 <= i < v.insts.len() implies #[trigger] a.insts[i] == v.insts[i] by {
        assert(a.insts[i] == v.insts.push(a.insts[v.insts.len() as int])[i]);
    }
}

} // verus!
