use crate::arena::Arena;
use crate::emit::{join_trimmed, joined, texts, trim_text, trimmed};
use crate::sig::FuncSig;
use crate::types::{Arch, BinOp, BuildError, Const, InstKind, InvariantOn, SymbolBinding, System, MAX_LEN};
use crate::view::ModuleView;
use vstd::prelude::*;

verus! {

/// One IR-building session: it owns the record pools of every symbol,
/// function, block and instruction built in it.
///
/// A session exists only inside the closure given to [`Module::new`], and
/// its brand `'m` is fresh for that call, so no handle of it can reach
/// another session.
pub struct Module<'m> {
    arena: Arena,
    brand: InvariantOn<'m>,
}

/// A symbol registered in session `'m`.
#[derive(Debug)]
pub struct Symbol<'m> {
    index: usize,
    binding: SymbolBinding,
    brand: InvariantOn<'m>,
}

/// A reference to a function of session `'m`, valid for the whole session.
#[derive(Debug)]
pub struct FuncRef<'m> {
    index: usize,
    brand: InvariantOn<'m>,
}

/// A function of session `'m` opened for editing in the scope `'f`.
#[derive(Debug)]
pub struct Func<'m, 'f> {
    index: usize,
    entry: usize,
    module_brand: InvariantOn<'m>,
    func_brand: InvariantOn<'f>,
}

/// A block of the function being edited in scope `'f`.
#[derive(Debug)]
pub struct Block<'m, 'f> {
    index: usize,
    func: usize,
    module_brand: InvariantOn<'m>,
    func_brand: InvariantOn<'f>,
}

/// An instruction of the function being edited in scope `'f`.
#[derive(Debug)]
pub struct InstRef<'f> {
    index: usize,
    func_brand: InvariantOn<'f>,
}

impl<'m> Clone for FuncRef<'m> {
    fn clone(&self) -> (r: Self)
        ensures
            r == *self,
    {
        *self
    }
}

impl<'m> Copy for FuncRef<'m> {
}

impl<'m, 'f> Clone for Func<'m, 'f> {
    fn clone(&self) -> (r: Self)
        ensures
            r == *self,
    {
        *self
    }
}

impl<'m, 'f> Copy for Func<'m, 'f> {
}

impl<'m, 'f> Clone for Block<'m, 'f> {
    fn clone(&self) -> (r: Self)
        ensures
            r == *self,
    {
        *self
    }
}

impl<'m, 'f> Copy for Block<'m, 'f> {
}

impl<'f> Clone for InstRef<'f> {
    fn clone(&self) -> (r: Self)
        ensures
            r == *self,
    {
        *self
    }
}

impl<'f> Copy for InstRef<'f> {
}

impl<'m> Symbol<'m> {
    /// The symbol's index in the session's symbol pool.
    pub closed spec fn id(&self) -> usize {
        self.index
    }

    /// The symbol's binding.
    pub closed spec fn bound(&self) -> SymbolBinding {
        self.binding
    }

    pub fn binding(&self) -> (r: SymbolBinding)
        ensures
            r == self.bound(),
    {
        self.binding
    }
}

impl<'m> FuncRef<'m> {
    /// The function's index in the session's function pool.
    pub closed spec fn id(&self) -> usize {
        self.index
    }
}

impl<'f> InstRef<'f> {
    /// The instruction's index in the session's instruction pool.
    pub closed spec fn id(&self) -> usize {
        self.index
    }
}

/// The pool indices of a sequence of instruction handles.
pub open spec fn ids<'f>(xs: Seq<InstRef<'f>>) -> Seq<usize> {
    xs.map_values(|x: InstRef<'f>| x.id())
}

impl<'m, 'f> Func<'m, 'f> {
    /// The function's index in the session's function pool.
    pub closed spec fn id(&self) -> usize {
        self.index
    }

    /// The index of the function's entry block.
    pub closed spec fn entry_id(&self) -> usize {
        self.entry
    }

    /// The handle names a function of `v` and its entry block.
    pub open spec fn valid_in(&self, v: ModuleView) -> bool {
        self.id() < v.funcs.len() && v.funcs[self.id() as int].entry == self.entry_id()
    }
}

impl<'m, 'f> Block<'m, 'f> {
    /// The block's index in the session's block pool.
    pub closed spec fn id(&self) -> usize {
        self.index
    }

    /// The index of the function the block belongs to.
    pub closed spec fn func_id(&self) -> usize {
        self.func
    }

    /// The handle names a block of `v` that belongs to its function.
    pub open spec fn valid_in(&self, v: ModuleView) -> bool {
        self.id() < v.blocks.len() && v.blocks[self.id() as int].func == self.func_id()
    }
}

impl<'m> View for Module<'m> {
    type V = ModuleView;

    closed spec fn view(&self) -> ModuleView {
        self.arena@
    }
}

impl<'m> Module<'m> {
    #[verifier::type_invariant]
    closed spec fn inv(self) -> bool {
        self.arena.wf()
    }

    /// Takes the pools out, leaving empty ones; the caller puts them back.
    fn take_arena(&mut self) -> (a: Arena)
        ensures
            a.wf(),
            a@ == old(self)@,
            final(self).brand == old(self).brand,
    {
        proof {
            use_type_invariant(&*self);
        }
        let mut a = Arena::new(self.arena.arch, self.arena.system);
        core::mem::swap(&mut a, &mut self.arena);
        a
    }

    /// Opens a session for `arch` and `system`, runs `f` on it and returns
    /// what `f` returns. The session cannot outlive the call.
    pub fn new<F, R>(arch: Arch, system: System, f: F) -> (r: R) where
        F: for<'b> FnOnce(Module<'b>) -> R,
        requires
            forall|m: Module| #[trigger] f.requires((m,)),
        ensures
            exists|m: Module| m@ == ModuleView::empty(arch, system) && #[trigger] f.ensures((m,), r),
    {
        let module = Module { arena: Arena::new(arch, system), brand: InvariantOn::fresh() };
        f(module)
    }

    /// `outs[i]` is what `emit` returned for `refs[i]`, a reference to the
    /// `i`-th function of `m`, for every function of `m`.
    pub open spec fn emitted<E: Fn(&Module<'m>, FuncRef<'m>) -> String>(
        m: &Module<'m>,
        emit: E,
        refs: Seq<FuncRef<'m>>,
        outs: Seq<String>,
    ) -> bool {
        &&& outs.len() == m@.funcs.len()
        &&& refs.len() == m@.funcs.len()
        &&& forall|i: int|
            0 <= i < outs.len() ==> refs[i].id() == i && #[trigger] emit.ensures((m, refs[i]), outs[i])
    }

    /// Ends the session: hands each function, in the order they were built,
    /// to the code generator `emit`, which lowers it and returns its text,
    /// and returns the texts concatenated in that order, without the
    /// leading and trailing white space of the whole. No handle of the
    /// session outlives this call.
    pub fn codegen<E>(self, emit: E) -> (r: String) where E: Fn(&Module<'m>, FuncRef<'m>) -> String
        requires
            forall|m: &Module<'m>, g: FuncRef<'m>| #[trigger] emit.requires((m, g)),
        ensures
            exists|outs: Seq<String>, refs: Seq<FuncRef<'m>>|
                #[trigger] Self::emitted(&self, emit, refs, outs) && r@ == trimmed(joined(texts(outs))),
    {
        let m: &Module<'m> = &self;
        let n = m.arena.func_count();
        let mut outs: Vec<String> = Vec::new();
        let ghost mut refs: Seq<FuncRef<'m>> = Seq::empty();
        let mut i: usize = 0;
        while i < n
            invariant
                n == m@.funcs.len(),
                m == &self,
                i <= n,
                outs@.len() == i,
                refs.len() == i,
                forall|m: &Module<'m>, g: FuncRef<'m>| #[trigger] emit.requires((m, g)),
                forall|k: int| 0 <= k < i ==> #[trigger] refs[k].id() == k,
                forall|k: int| 0 <= k < i ==> #[trigger] emit.ensures((m, refs[k]), outs@[k]),
            decreases n - i,
        {
            let g = FuncRef { index: i, brand: m.brand };
            let out = emit(m, g);
            let ghost prev = outs@;
            let ghost prev_refs = refs;
            outs.push(out);
            proof {
                refs = refs.push(g);
                assert forall|k: int| 0 <= k <= i implies #[trigger] emit.ensures((m, refs[k]), outs@[k]) by {
                    if k < i {
                        assert(emit.ensures((m, prev_refs[k]), prev[k]));
                        assert(outs@[k] == prev[k]);
                        assert(refs[k] == prev_refs[k]);
                    }
                }
            }
            i = i + 1;
        }
        let r = join_trimmed(outs.as_slice());
        proof {
            assert(Self::emitted(m, emit, refs, outs@));
        }
        r
    }

    /// The name of the symbol that function `f` was built with. Fails with
    /// `ForeignHandle` when the session holds no such function.
    pub fn func_name(&self, f: FuncRef<'m>) -> (r: Result<&str, BuildError>)
        ensures
            f.id() >= self@.funcs.len() ==> r == Err::<&str, BuildError>(BuildError::ForeignHandle),
            f.id() < self@.funcs.len() ==> r is Ok && r->Ok_0@ == self@.symbols[self@.funcs[f.id() as int].symbol as int].name,
    {
        proof {
            use_type_invariant(self);
            self.arena.lemma_blocks();
        }
        if f.index >= self.arena.func_count() {
            return Err(BuildError::ForeignHandle);
        }
        Ok(self.arena.symbol_name(self.arena.func_symbol(f.index)))
    }

    /// The session's architecture.
    pub fn arch(&self) -> (r: Arch)
        ensures
            r == self@.arch,
    {
        self.arena.arch
    }

    /// The session's operating environment.
    pub fn system(&self) -> (r: System)
        ensures
            r == self@.system,
    {
        self.arena.system
    }

    /// Registers a symbol named `name` with `binding`. Fails with
    /// `LengthOverflow`, registering nothing, when `name` is longer than
    /// 65535 bytes.
    pub fn create_symbol(&mut self, name: &str, binding: SymbolBinding) -> (r: Result<
        Symbol<'m>,
        BuildError,
    >)
        ensures
            name.len() > MAX_LEN <==> r is Err,
            r is Err ==> r == Err::<Symbol<'m>, BuildError>(BuildError::LengthOverflow),
            r is Err ==> final(self)@ == old(self)@,
            r is Ok ==> {
                &&& final(self)@ == old(self)@.with_symbol(name@, binding)
                &&& r->Ok_0.id() == old(self)@.symbols.len()
                &&& r->Ok_0.bound() == binding
            },
    {
        if name.len() > MAX_LEN {
            return Err(BuildError::LengthOverflow);
        }
        let owned = name.to_owned();
        let mut arena = self.take_arena();
        let index = arena.add_symbol(owned, binding);
        self.arena = arena;
        Ok(Symbol { index, binding, brand: self.brand })
    }

    /// Builds a function of `symbol` and `sig` and runs `f` on the session
    /// and a handle to the function, in an edit scope of its own.
    ///
    /// A symbol bound `SharedImport` fails with `InvalidBinding`, and a
    /// symbol that the session does not hold with `ForeignHandle`; then
    /// nothing is built and `f` is not run. Otherwise the session first gets
    /// the function, its entry block and its parameter instructions.
    pub fn create_func<F, R>(&mut self, symbol: Symbol<'m>, sig: FuncSig, f: F) -> (r: Result<
        R,
        BuildError,
    >) where F: for<'f> FnOnce(&mut Module<'m>, Func<'m, 'f>) -> R
        requires
            forall|m: &mut Module<'m>, g: Func<'m, '_>| #[trigger] f.requires((m, g)),
        ensures
            symbol.bound() == SymbolBinding::SharedImport ==> r == Err::<R, BuildError>(
                BuildError::InvalidBinding,
            ),
            symbol.bound() != SymbolBinding::SharedImport && symbol.id() >= old(self)@.symbols.len()
                ==> r == Err::<R, BuildError>(BuildError::ForeignHandle),
            r is Err ==> final(self)@ == old(self)@,
            symbol.bound() != SymbolBinding::SharedImport && symbol.id() < old(self)@.symbols.len()
                ==> r is Ok && exists|m: &mut Module<'m>, g: Func<'m, '_>|
                {
                    &&& (*m)@ == old(self)@.with_func(symbol.id(), sig@)
                    &&& g.id() == old(self)@.funcs.len()
                    &&& g.entry_id() == old(self)@.blocks.len()
                    &&& #[trigger] f.ensures((m, g), r->Ok_0)
                },
    {
        match symbol.binding {
            SymbolBinding::SharedImport => {
                return Err(BuildError::InvalidBinding);
            },
            _ => {},
        }
        proof {
            use_type_invariant(&*self);
        }
        if symbol.index >= self.arena.symbol_count() {
            return Err(BuildError::ForeignHandle);
        }
        let entry = self.arena.block_count();
        let mut arena = self.take_arena();
        let index = arena.add_func(symbol.index, sig);
        self.arena = arena;
        let func = Func {
            index,
            entry,
            module_brand: self.brand,
            func_brand: InvariantOn::fresh(),
        };
        let ghost pre = *self;
        let v = f(self, func);
        let r = Ok(v);
        proof {
            assert(r->Ok_0 == v);
            assert(exists|m: &mut Module<'m>, g: Func<'m, '_>|
                {
                    &&& *m == pre
                    &&& g == func
                    &&& #[trigger] f.ensures((m, g), r->Ok_0)
                });
        }
        r
    }

    /// Reopens the function that `func_ref` names for editing and runs `f`
    /// on the session and a handle to it, in an edit scope of its own.
    /// Fails with `ForeignHandle`, without running `f`, when the session
    /// holds no such function.
    pub fn edit_func<F, R>(&mut self, func_ref: FuncRef<'m>, f: F) -> (r: Result<R, BuildError>) where
        F: for<'f> FnOnce(&mut Module<'m>, Func<'m, 'f>) -> R,
        requires
            forall|m: &mut Module<'m>, g: Func<'m, '_>| #[trigger] f.requires((m, g)),
        ensures
            func_ref.id() >= old(self)@.funcs.len() <==> r is Err,
            r is Err ==> r == Err::<R, BuildError>(BuildError::ForeignHandle),
            r is Err ==> final(self)@ == old(self)@,
            r is Ok ==> exists|m: &mut Module<'m>, g: Func<'m, '_>|
                {
                    &&& *m == *old(self)
                    &&& g.id() == func_ref.id()
                    &&& g.entry_id() == old(self)@.funcs[func_ref.id() as int].entry
                    &&& #[trigger] f.ensures((m, g), r->Ok_0)
                },
    {
        proof {
            use_type_invariant(&*self);
        }
        if func_ref.index >= self.arena.func_count() {
            return Err(BuildError::ForeignHandle);
        }
        let func = Func {
            index: func_ref.index,
            entry: self.arena.func_entry(func_ref.index),
            module_brand: self.brand,
            func_brand: InvariantOn::fresh(),
        };
        let ghost pre = *self;
        let v = f(self, func);
        let r = Ok(v);
        proof {
            assert(r->Ok_0 == v);
            assert(exists|m: &mut Module<'m>, g: Func<'m, '_>|
                {
                    &&& *m == pre
                    &&& g == func
                    &&& #[trigger] f.ensures((m, g), r->Ok_0)
                });
        }
        r
    }

    /// Whether record `x` is a value of function `f`. Finds the record's
    /// block by walking to its bookend, as the block list is laid out.
    fn is_value(&self, x: usize, f: usize) -> (r: bool)
        ensures
            r == self@.value_in(x, f as int),
    {
        proof {
            use_type_invariant(self);
            self.arena.lemma_blocks();
        }
        if x >= self.arena.inst_count() {
            return false;
        }
        match self.arena.inst_kind(x) {
            InstKind::Bookend(_) => false,
            _ => {
                let b = self.arena.find_block(x);
                self.arena.block_func(b) == f
            },
        }
    }

    /// The indices of `xs` when every one names a value of function `f`.
    fn values_of<'f>(&self, xs: &[InstRef<'f>], f: usize) -> (r: Option<Vec<usize>>)
        ensures
            r is Some <==> self@.values_in(ids(xs@), f as int),
            r is Some ==> r->Some_0@ == ids(xs@),
    {
        let ghost all = ids(xs@);
        let mut out: Vec<usize> = Vec::new();
        let mut j: usize = 0;
        while j < xs.len()
            invariant
                j <= xs@.len(),
                all == ids(xs@),
                out@ == all.subrange(0, j as int),
                forall|k: int| 0 <= k < j ==> self@.value_in(#[trigger] all[k], f as int),
            decreases xs@.len() - j,
        {
            let x = xs[j].index;
            if !self.is_value(x, f) {
                proof {
                    assert(all[j as int] == x);
                }
                return None;
            }
            out.push(x);
            j = j + 1;
            proof {
                assert(out@ =~= all.subrange(0, j as int));
            }
        }
        proof {
            assert(out@ =~= all);
        }
        Some(out)
    }

    /// Whether `b` names a block of this session and of its function.
    fn has_block<'f>(&self, b: Block<'m, 'f>) -> (r: bool)
        ensures
            r == b.valid_in(self@),
    {
        b.index < self.arena.block_count() && self.arena.block_func(b.index) == b.func
    }

    /// Whether `g` names a function of this session and its entry block.
    fn has_func<'f>(&self, g: Func<'m, 'f>) -> (r: bool)
        ensures
            r == g.valid_in(self@),
    {
        g.index < self.arena.func_count() && self.arena.func_entry(g.index) == g.entry
    }

    /// Appends a record to the end of block `b`.
    fn append(&mut self, b: usize, kind: InstKind, inputs: Vec<usize>) -> (x: usize)
        requires
            old(self)@.may_append(b, kind, inputs@),
        ensures
            final(self)@ == old(self)@.with_inst(b, kind, inputs@),
            x == old(self)@.insts.len(),
    {
        let mut arena = self.take_arena();
        let x = arena.append_inst(b, kind, inputs);
        self.arena = arena;
        x
    }

    /// Handles for the records `xs`.
    fn handles<'f>(&self, xs: &Vec<usize>) -> (r: Vec<InstRef<'f>>)
        ensures
            ids(r@) == xs@,
    {
        let mut r: Vec<InstRef<'f>> = Vec::new();
        let mut j: usize = 0;
        while j < xs.len()
            invariant
                j <= xs@.len(),
                r@.len() == j,
                ids(r@) == xs@.subrange(0, j as int),
            decreases xs@.len() - j,
        {
            let ghost prev = r@;
            r.push(InstRef { index: xs[j], func_brand: InvariantOn::fresh() });
            proof {
                assert forall|k: int| 0 <= k <= j implies #[trigger] ids(r@)[k] == xs@[k] by {
                    if k < j {
                        assert(r@[k] == prev[k]);
                        assert(ids(prev)[k] == xs@.subrange(0, j as int)[k]);
                    }
                }
                assert(ids(r@) =~= xs@.subrange(0, j + 1));
            }
            j = j + 1;
        }
        proof {
            assert(ids(r@) =~= xs@);
        }
        r
    }
}

impl<'m, 'f> Func<'m, 'f> {
    /// The function's entry block.
    pub fn entry_block(self) -> (r: Block<'m, 'f>)
        ensures
            r.id() == self.entry_id(),
            r.func_id() == self.id(),
    {
        Block {
            index: self.entry,
            func: self.index,
            module_brand: self.module_brand,
            func_brand: self.func_brand,
        }
    }

    /// Adds an empty block to the function. Fails with `ForeignHandle`,
    /// adding nothing, when the handle names no function of `module`.
    pub fn create_block(self, module: &mut Module<'m>) -> (r: Result<Block<'m, 'f>, BuildError>)
        ensures
            !self.valid_in(old(module)@) ==> r == Err::<Block<'m, 'f>, BuildError>(BuildError::ForeignHandle),
            r is Err ==> final(module)@ == old(module)@,
            self.valid_in(old(module)@) ==> {
                &&& r is Ok
                &&& final(module)@ == old(module)@.with_block(self.id())
                &&& r->Ok_0.id() == old(module)@.blocks.len()
                &&& r->Ok_0.func_id() == self.id()
            },
    {
        if !module.has_func(self) {
            return Err(BuildError::ForeignHandle);
        }
        let mut arena = module.take_arena();
        let index = arena.add_block(self.index);
        module.arena = arena;
        Ok(Block { index, func: self.index, module_brand: self.module_brand, func_brand: self.func_brand })
    }

    /// The instruction of parameter `index`. Fails with `IndexOutOfBounds`
    /// when `index` is not below the declared parameter count, and with
    /// `ForeignHandle` when the handle names no function of `module`.
    pub fn get_param(self, module: &Module<'m>, index: u16) -> (r: Result<InstRef<'f>, BuildError>)
        ensures
            !self.valid_in(module@) ==> r == Err::<InstRef<'f>, BuildError>(BuildError::ForeignHandle),
            self.valid_in(module@) && index >= module@.funcs[self.id() as int].sig.params.len()
                ==> r == Err::<InstRef<'f>, BuildError>(BuildError::IndexOutOfBounds),
            self.valid_in(module@) && index < module@.funcs[self.id() as int].sig.params.len() ==> {
                &&& r is Ok
                &&& r->Ok_0.id() == module@.funcs[self.id() as int].params[index as int]
                &&& module@.value_in(r->Ok_0.id(), self.id() as int)
            },
    {
        proof {
            use_type_invariant(module);
        }
        if !module.has_func(self) {
            return Err(BuildError::ForeignHandle);
        }
        proof {
            module.arena.lemma_func(self.index as int);
        }
        let params = module.arena.func_params(self.index);
        if index as usize >= params.len() {
            return Err(BuildError::IndexOutOfBounds);
        }
        Ok(InstRef { index: params[index as usize], func_brand: self.func_brand })
    }

    /// The function's IR as text: hands the function to the printer `print`
    /// and returns what it printed without leading and trailing white space.
    pub fn ir_text<P>(self, module: &Module<'m>, print: P) -> (r: String) where
        P: Fn(&Module<'m>, FuncRef<'m>) -> String,
        requires
            forall|m: &Module<'m>, g: FuncRef<'m>| #[trigger] print.requires((m, g)),
        ensures
            exists|out: String|
                #[trigger] print.ensures((module, self.get_ref_spec()), out) && r@ == trimmed(out@),
    {
        let out = print(module, self.get_ref());
        trim_text(out.as_str())
    }

    /// The reference that [`Func::get_ref`] returns.
    pub closed spec fn get_ref_spec(self) -> FuncRef<'m> {
        FuncRef { index: self.index, brand: self.module_brand }
    }

    /// A reference to the function that stays valid for the whole session.
    pub fn get_ref(self) -> (r: FuncRef<'m>)
        ensures
            r == self.get_ref_spec(),
            r.id() == self.id(),
    {
        FuncRef { index: self.index, brand: self.module_brand }
    }
}

impl<'m, 'f> Block<'m, 'f> {
    /// Appends a constant. Fails with `ForeignHandle`, appending nothing,
    /// when the handle names no block of `module`.
    pub fn push_const(self, module: &mut Module<'m>, value: Const) -> (r: Result<InstRef<'f>, BuildError>)
        ensures
            !self.valid_in(old(module)@) ==> r == Err::<InstRef<'f>, BuildError>(BuildError::ForeignHandle),
            r is Err ==> final(module)@ == old(module)@,
            self.valid_in(old(module)@) ==> {
                &&& r is Ok
                &&& final(module)@ == old(module)@.with_inst(self.id(), InstKind::Const(value), Seq::empty())
                &&& r->Ok_0.id() == old(module)@.insts.len()
            },
    {
        if !module.has_block(self) {
            return Err(BuildError::ForeignHandle);
        }
        let inputs: Vec<usize> = Vec::new();
        proof {
            assert(old(module)@.values_in(inputs@, self.func as int));
            assert(inputs@ =~= Seq::<usize>::empty());
        }
        let index = module.append(self.index, InstKind::Const(value), inputs);
        Ok(InstRef { index, func_brand: self.func_brand })
    }

    /// Appends `op` applied to `a` and `b`. Fails with `ForeignHandle`,
    /// appending nothing, when the handle names no block of `module` or an
    /// operand is no value of the block's function.
    pub fn push_binop(self, module: &mut Module<'m>, op: BinOp, a: InstRef<'f>, b: InstRef<'f>) -> (r:
        Result<InstRef<'f>, BuildError>)
        ensures
            !(self.valid_in(old(module)@) && old(module)@.value_in(a.id(), self.func_id() as int)
                && old(module)@.value_in(b.id(), self.func_id() as int)) ==> r == Err::<
                InstRef<'f>,
                BuildError,
            >(BuildError::ForeignHandle),
            r is Err ==> final(module)@ == old(module)@,
            self.valid_in(old(module)@) && old(module)@.value_in(a.id(), self.func_id() as int)
                && old(module)@.value_in(b.id(), self.func_id() as int) ==> {
                &&& r is Ok
                &&& final(module)@ == old(module)@.with_inst(self.id(), InstKind::BinOp(op), seq![a.id(), b.id()])
                &&& r->Ok_0.id() == old(module)@.insts.len()
            },
    {
        if !module.has_block(self) || !module.is_value(a.index, self.func) || !module.is_value(b.index, self.func) {
            return Err(BuildError::ForeignHandle);
        }
        let mut inputs: Vec<usize> = Vec::new();
        inputs.push(a.index);
        inputs.push(b.index);
        proof {
            assert(inputs@ =~= seq![a.index, b.index]);
            assert(old(module)@.values_in(inputs@, self.func as int));
        }
        let index = module.append(self.index, InstKind::BinOp(op), inputs);
        Ok(InstRef { index, func_brand: self.func_brand })
    }

    /// Appends a return of `values`.
    ///
    /// Fails with `ArityMismatch` when the number of values differs from
    /// the function's declared return count, and with `ForeignHandle` when
    /// the handle names no block of `module` or a value is no value of the
    /// block's function; then nothing is appended.
    pub fn push_return(self, module: &mut Module<'m>, values: &[InstRef<'f>]) -> (r: Result<
        InstRef<'f>,
        BuildError,
    >)
        ensures
            !self.valid_in(old(module)@) ==> r == Err::<InstRef<'f>, BuildError>(BuildError::ForeignHandle),
            self.valid_in(old(module)@) && values@.len() != old(module)@.funcs[self.func_id() as int].sig.results.len()
                ==> r == Err::<InstRef<'f>, BuildError>(BuildError::ArityMismatch),
            self.valid_in(old(module)@) && values@.len() == old(module)@.funcs[self.func_id() as int].sig.results.len()
                && !old(module)@.values_in(ids(values@), self.func_id() as int) ==> r == Err::<
                InstRef<'f>,
                BuildError,
            >(BuildError::ForeignHandle),
            r is Err ==> final(module)@ == old(module)@,
            self.valid_in(old(module)@) && values@.len() == old(module)@.funcs[self.func_id() as int].sig.results.len()
                && old(module)@.values_in(ids(values@), self.func_id() as int) ==> {
                &&& r is Ok
                &&& final(module)@ == old(module)@.with_inst(self.id(), InstKind::Return, ids(values@))
                &&& r->Ok_0.id() == old(module)@.insts.len()
            },
    {
        proof {
            use_type_invariant(&*module);
            module.arena.lemma_blocks();
        }
        if !module.has_block(self) {
            return Err(BuildError::ForeignHandle);
        }
        if values.len() != module.arena.func_sig(self.func).results().len() {
            return Err(BuildError::ArityMismatch);
        }
        let inputs = match module.values_of(values, self.func) {
            Some(inputs) => inputs,
            None => {
                return Err(BuildError::ForeignHandle);
            },
        };
        let index = module.append(self.index, InstKind::Return, inputs);
        Ok(InstRef { index, func_brand: self.func_brand })
    }

    /// Appends a jump to `target`. Fails with `ForeignHandle`, appending
    /// nothing, when either handle names no block of `module` or the two
    /// blocks belong to different functions.
    pub fn push_jump(self, module: &mut Module<'m>, target: Block<'m, 'f>) -> (r: Result<InstRef<'f>, BuildError>)
        ensures
            !(self.valid_in(old(module)@) && target.valid_in(old(module)@) && target.func_id() == self.func_id())
                ==> r == Err::<InstRef<'f>, BuildError>(BuildError::ForeignHandle),
            r is Err ==> final(module)@ == old(module)@,
            self.valid_in(old(module)@) && target.valid_in(old(module)@) && target.func_id() == self.func_id() ==> {
                &&& r is Ok
                &&& final(module)@ == old(module)@.with_inst(self.id(), InstKind::Jump(target.id()), Seq::empty())
                &&& r->Ok_0.id() == old(module)@.insts.len()
            },
    {
        if !module.has_block(self) || !module.has_block(target) || target.func != self.func {
            return Err(BuildError::ForeignHandle);
        }
        let inputs: Vec<usize> = Vec::new();
        proof {
            assert(old(module)@.values_in(inputs@, self.func as int));
            assert(inputs@ =~= Seq::<usize>::empty());
        }
        let index = module.append(self.index, InstKind::Jump(target.index), inputs);
        Ok(InstRef { index, func_brand: self.func_brand })
    }

    /// Appends a direct call of `callee` with `args`.
    ///
    /// Fails with `ForeignHandle` when the handle names no block of
    /// `module`, `callee` no function of it, or an argument is no value of
    /// the block's function, and with `ArityMismatch` when the number of
    /// arguments differs from the callee's declared parameter count; then
    /// nothing is appended.
    pub fn push_direct_call(self, module: &mut Module<'m>, callee: FuncRef<'m>, args: &[InstRef<'f>]) -> (r:
        Result<InstRef<'f>, BuildError>)
        ensures
            !(self.valid_in(old(module)@) && callee.id() < old(module)@.funcs.len()) ==> r == Err::<
                InstRef<'f>,
                BuildError,
            >(BuildError::ForeignHandle),
            self.valid_in(old(module)@) && callee.id() < old(module)@.funcs.len() && args@.len()
                != old(module)@.funcs[callee.id() as int].sig.params.len() ==> r == Err::<
                InstRef<'f>,
                BuildError,
            >(BuildError::ArityMismatch),
            self.valid_in(old(module)@) && callee.id() < old(module)@.funcs.len() && args@.len()
                == old(module)@.funcs[callee.id() as int].sig.params.len() && !old(module)@.values_in(
                ids(args@),
                self.func_id() as int,
            ) ==> r == Err::<InstRef<'f>, BuildError>(BuildError::ForeignHandle),
            r is Err ==> final(module)@ == old(module)@,
            self.valid_in(old(module)@) && callee.id() < old(module)@.funcs.len() && args@.len()
                == old(module)@.funcs[callee.id() as int].sig.params.len() && old(module)@.values_in(
                ids(args@),
                self.func_id() as int,
            ) ==> {
                &&& r is Ok
                &&& final(module)@ == old(module)@.with_inst(self.id(), InstKind::Call(callee.id()), ids(args@))
                &&& r->Ok_0.id() == old(module)@.insts.len()
            },
    {
        if !module.has_block(self) || callee.index >= module.arena.func_count() {
            return Err(BuildError::ForeignHandle);
        }
        if args.len() != module.arena.func_sig(callee.index).params().len() {
            return Err(BuildError::ArityMismatch);
        }
        let inputs = match module.values_of(args, self.func) {
            Some(inputs) => inputs,
            None => {
                return Err(BuildError::ForeignHandle);
            },
        };
        let index = module.append(self.index, InstKind::Call(callee.index), inputs);
        Ok(InstRef { index, func_brand: self.func_brand })
    }

    /// The block's instructions in order. Fails with `ForeignHandle` when
    /// the handle names no block of `module`.
    pub fn instructions(self, module: &Module<'m>) -> (r: Result<Vec<InstRef<'f>>, BuildError>)
        ensures
            !self.valid_in(module@) ==> r == Err::<Vec<InstRef<'f>>, BuildError>(BuildError::ForeignHandle),
            self.valid_in(module@) ==> r is Ok && ids(r->Ok_0@) == module@.blocks[self.id() as int].body,
    {
        proof {
            use_type_invariant(module);
        }
        if !module.has_block(self) {
            return Err(BuildError::ForeignHandle);
        }
        let body = module.arena.body_of(self.index);
        Ok(module.handles(&body))
    }
}

impl<'f> InstRef<'f> {
    /// The instruction's value operands. Fails with `ForeignHandle` when
    /// the handle names no record of `module`.
    pub fn inputs<'m>(self, module: &Module<'m>) -> (r: Result<Vec<InstRef<'f>>, BuildError>)
        ensures
            self.id() >= module@.insts.len() ==> r == Err::<Vec<InstRef<'f>>, BuildError>(BuildError::ForeignHandle),
            self.id() < module@.insts.len() ==> r is Ok && ids(r->Ok_0@) == module@.insts[self.id() as int].inputs,
    {
        if self.index >= module.arena.inst_count() {
            return Err(BuildError::ForeignHandle);
        }
        Ok(module.handles(module.arena.inst_inputs(self.index)))
    }

    /// What the instruction is. Fails with `ForeignHandle` when the handle
    /// names no record of `module`.
    pub fn kind<'m>(self, module: &Module<'m>) -> (r: Result<InstKind, BuildError>)
        ensures
            self.id() >= module@.insts.len() ==> r == Err::<InstKind, BuildError>(BuildError::ForeignHandle),
            self.id() < module@.insts.len() ==> r == Ok::<InstKind, BuildError>(module@.insts[self.id() as int].kind),
    {
        if self.index >= module.arena.inst_count() {
            return Err(BuildError::ForeignHandle);
        }
        Ok(module.arena.inst_kind(self.index))
    }

    /// The block that holds the instruction, found by walking forward to
    /// the block's bookend. Fails with `ForeignHandle` when the handle
    /// names no record of `module`.
    pub fn find_block<'m>(self, module: &Module<'m>) -> (r: Result<Block<'m, 'f>, BuildError>)
        ensures
            self.id() >= module@.insts.len() ==> r == Err::<Block<'m, 'f>, BuildError>(BuildError::ForeignHandle),
            self.id() < module@.insts.len() ==> {
                &&& r is Ok
                &&& r->Ok_0.id() == module@.insts[self.id() as int].block
                &&& r->Ok_0.valid_in(module@)
            },
    {
        proof {
            use_type_invariant(module);
            module.arena.lemma_blocks();
        }
        if self.index >= module.arena.inst_count() {
            return Err(BuildError::ForeignHandle);
        }
        let b = module.arena.find_block(self.index);
        Ok(Block { index: b, func: module.arena.block_func(b), module_brand: module.brand, func_brand: self.func_brand })
    }
}

} // verus!
