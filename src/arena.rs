use crate::sig::FuncSig;
use crate::types::{Arch, InstKind, SymbolBinding, System};
use crate::view::{BlockView, FuncView, InstView, ModuleView, SymbolView};
use vstd::prelude::*;

verus! {

pub(crate) struct SymbolEntry {
    pub(crate) name: String,
    pub(crate) binding: SymbolBinding,
}

pub(crate) struct FuncEntry {
    pub(crate) symbol: usize,
    pub(crate) sig: FuncSig,
    pub(crate) entry: usize,
    pub(crate) params: Vec<usize>,
}

pub(crate) struct BlockEntry {
    pub(crate) func: usize,
    pub(crate) bookend: usize,
}

/// An instruction record. The records of one block form a ring through
/// `next` and `prev`, closed by the block's bookend.
pub(crate) struct InstEntry {
    pub(crate) kind: InstKind,
    pub(crate) inputs: Vec<usize>,
    pub(crate) prev: usize,
    pub(crate) next: usize,
}

/// The record pools of one session.
///
/// `bodies[b]` lists the records of block `b` in order, without its
/// bookend; `homes[i]` is the block whose ring holds record `i`, and
/// `slots[i]` its position in that ring (the bookend is last).
pub(crate) struct Arena {
    pub(crate) arch: Arch,
    pub(crate) system: System,
    pub(crate) symbols: Vec<SymbolEntry>,
    pub(crate) funcs: Vec<FuncEntry>,
    pub(crate) blocks: Vec<BlockEntry>,
    pub(crate) insts: Vec<InstEntry>,
    pub(crate) bodies: Ghost<Seq<Seq<usize>>>,
    pub(crate) homes: Ghost<Seq<usize>>,
    pub(crate) slots: Ghost<Seq<int>>,
}

/// The ring position after `k`.
pub(crate) open spec fn succ(r: Seq<usize>, k: int) -> usize {
    if k + 1 < r.len() {
        r[k + 1]
    } else {
        r[0]
    }
}

/// The ring position before `k`.
pub(crate) open spec fn pred(r: Seq<usize>, k: int) -> usize {
    if k == 0 {
        r[r.len() - 1]
    } else {
        r[k - 1]
    }
}

impl View for Arena {
    type V = ModuleView;

    closed spec fn view(&self) -> ModuleView {
        ModuleView {
            arch: self.arch,
            system: self.system,
            symbols: self.symbols@.map_values(
                |e: SymbolEntry| SymbolView { name: e.name@, binding: e.binding },
            ),
            funcs: self.funcs@.map_values(
                |e: FuncEntry| FuncView { symbol: e.symbol, sig: e.sig@, entry: e.entry, params: e.params@ },
            ),
            blocks: Seq::new(
                self.blocks@.len(),
                |b: int| BlockView { func: self.blocks@[b].func, body: self.bodies@[b] },
            ),
            insts: Seq::new(
                self.insts@.len(),
                |i: int|
                    InstView {
                        kind: self.insts@[i].kind,
                        inputs: self.insts@[i].inputs@,
                        block: self.homes@[i],
                    },
            ),
        }
    }
}

impl Arena {
    /// Block `b`'s ring: its records in order, then its bookend.
    pub(crate) closed spec fn ring(&self, b: int) -> Seq<usize> {
        self.bodies@[b].push(self.blocks@[b].bookend)
    }

    /// Slot `k` of block `b`'s ring holds a record that knows its block and
    /// slot and links to its neighbours; only the last slot is a bookend.
    pub(crate) closed spec fn slot_ok(&self, b: int, k: int) -> bool {
        let r = self.ring(b);
        let i = r[k] as int;
        &&& 0 <= i < self.insts@.len()
        &&& self.homes@[i] == b
        &&& self.slots@[i] == k
        &&& self.insts@[i].next == succ(r, k)
        &&& self.insts@[i].prev == pred(r, k)
        &&& (k < r.len() - 1 ==> !(self.insts@[i].kind is Bookend))
    }

    /// Block `b` belongs to a function, its bookend names it, and its ring
    /// is linked slot by slot.
    pub(crate) closed spec fn block_ok(&self, b: int) -> bool {
        let bookend = self.blocks@[b].bookend as int;
        &&& self.blocks@[b].func < self.funcs@.len()
        &&& 0 <= bookend < self.insts@.len()
        &&& self.insts@[bookend].kind == InstKind::Bookend(b as usize)
        &&& forall|k: int| 0 <= k < self.ring(b).len() ==> #[trigger] self.slot_ok(b, k)
    }

    /// Record `x` is parameter `k`, held by block `entry`.
    pub(crate) closed spec fn param_ok(&self, entry: usize, x: usize, k: int) -> bool {
        &&& x < self.insts@.len()
        &&& self.insts@[x as int].kind == InstKind::Param(k as u16)
        &&& self.homes@[x as int] == entry
    }

    /// Function `f` has a registered symbol, an entry block of its own and
    /// one parameter record per declared parameter.
    pub(crate) closed spec fn func_ok(&self, f: int) -> bool {
        let e = self.funcs@[f];
        &&& e.symbol < self.symbols@.len()
        &&& e.entry < self.blocks@.len()
        &&& self.blocks@[e.entry as int].func == f
        &&& FuncSig::fits(e.sig@)
        &&& e.params@.len() == e.sig@.params.len()
        &&& forall|k: int| 0 <= k < e.params@.len() ==> #[trigger] self.param_ok(e.entry, e.params@[k], k)
    }

    /// What the kind of record `i` names is a record of the right function.
    pub(crate) closed spec fn target_ok(&self, i: int) -> bool {
        let h = self.homes@[i] as int;
        match self.insts@[i].kind {
            InstKind::Bookend(b) => b == h,
            InstKind::Jump(t) => t < self.blocks@.len() && self.blocks@[t as int].func
                == self.blocks@[h].func,
            InstKind::Call(c) => c < self.funcs@.len(),
            _ => true,
        }
    }

    /// Record `i` sits in the ring of its block, and its operands and
    /// target belong to that block's function.
    pub(crate) closed spec fn inst_ok(&self, i: int) -> bool {
        let h = self.homes@[i] as int;
        &&& 0 <= h < self.blocks@.len()
        &&& 0 <= self.slots@[i] < self.ring(h).len()
        &&& self.ring(h)[self.slots@[i]] == i
        &&& self@.values_in(self.insts@[i].inputs@, self.blocks@[h].func as int)
        &&& self.target_ok(i)
    }

    /// Every function, block and record is well formed.
    pub(crate) closed spec fn wf(&self) -> bool {
        &&& self.bodies@.len() == self.blocks@.len()
        &&& self.homes@.len() == self.insts@.len()
        &&& self.slots@.len() == self.insts@.len()
        &&& forall|f: int| 0 <= f < self.funcs@.len() ==> #[trigger] self.func_ok(f)
        &&& forall|b: int| 0 <= b < self.blocks@.len() ==> #[trigger] self.block_ok(b)
        &&& forall|i: int| 0 <= i < self.insts@.len() ==> #[trigger] self.inst_ok(i)
    }

    pub(crate) fn new(arch: Arch, system: System) -> (r: Arena)
        ensures
            r.wf(),
            r@ == ModuleView::empty(arch, system),
    {
        let r = Arena {
            arch,
            system,
            symbols: Vec::new(),
            funcs: Vec::new(),
            blocks: Vec::new(),
            insts: Vec::new(),
            bodies: Ghost(Seq::empty()),
            homes: Ghost(Seq::empty()),
            slots: Ghost(Seq::empty()),
        };
        assert(r@.symbols =~= Seq::empty());
        assert(r@.funcs =~= Seq::empty());
        assert(r@.blocks =~= Seq::empty());
        assert(r@.insts =~= Seq::empty());
        r
    }

    pub(crate) fn add_symbol(&mut self, name: String, binding: SymbolBinding) -> (r: usize)
        requires
            old(self).wf(),
        ensures
            final(self).wf(),
            final(self)@ == old(self)@.with_symbol(name@, binding),
            r == old(self)@.symbols.len(),
    {
        let r = self.symbols.len();
        let ghost name_view = name@;
        self.symbols.push(SymbolEntry { name, binding });
        proof {
            assert(self@.symbols =~= old(self)@.symbols.push(SymbolView { name: name_view, binding }));
            assert(self@.funcs =~= old(self)@.funcs);
            assert(self@.blocks =~= old(self)@.blocks);
            assert(self@.insts =~= old(self)@.insts);
            assert forall|f: int| 0 <= f < self.funcs@.len() implies #[trigger] self.func_ok(f) by {
                assert(old(self).func_ok(f));
                let e = self.funcs@[f];
                assert forall|k: int| 0 <= k < e.params@.len() implies #[trigger] self.param_ok(e.entry, e.params@[k], k) by {
                    assert(old(self).param_ok(e.entry, e.params@[k], k));
                }
            }
            assert forall|b: int| 0 <= b < self.blocks@.len() implies #[trigger] self.block_ok(b) by {
                assert(old(self).block_ok(b));
                assert(self.ring(b) == old(self).ring(b));
                assert forall|k: int| 0 <= k < self.ring(b).len() implies #[trigger] self.slot_ok(b, k) by {
                    assert(old(self).slot_ok(b, k));
                }
            }
            assert forall|i: int| 0 <= i < self.insts@.len() implies #[trigger] self.inst_ok(i) by {
                assert(old(self).inst_ok(i));
                let h = self.homes@[i] as int;
                assert(self.ring(h) == old(self).ring(h));
                assert(old(self).target_ok(i));
            }
        }
        r
    }

    /// A record of `old_a` stays well placed in `new_a` when the session
    /// only grew, the record kept its kind, operands and block, and it still
    /// sits at its slot of its block's ring.
    proof fn lemma_inst_ok_kept(old_a: &Arena, new_a: &Arena, i: int)
        requires
            old_a.wf(),
            old_a@.grows_to(new_a@),
            0 <= i < old_a.insts@.len(),
            new_a.homes@[i] == old_a.homes@[i],
            0 <= new_a.slots@[i] < new_a.ring(old_a.homes@[i] as int).len(),
            new_a.ring(old_a.homes@[i] as int)[new_a.slots@[i]] == i,
            new_a.insts@[i].kind == old_a.insts@[i].kind,
            new_a.insts@[i].inputs@ == old_a.insts@[i].inputs@,
            new_a.blocks@.len() >= old_a.blocks@.len(),
            new_a.funcs@.len() >= old_a.funcs@.len(),
            forall|b: int| 0 <= b < old_a.blocks@.len() ==> #[trigger] new_a.blocks@[b].func == old_a.blocks@[b].func,
        ensures
            new_a.inst_ok(i),
    {
        assert(old_a.inst_ok(i));
        assert(old_a.target_ok(i));
        old_a@.lemma_values_grow(new_a@, old_a.insts@[i].inputs@, old_a.blocks@[old_a.homes@[i] as int].func as int);
    }

    pub(crate) fn add_block(&mut self, func: usize) -> (b: usize)
        requires
            old(self).wf(),
            func < old(self)@.funcs.len(),
        ensures
            final(self).wf(),
            final(self)@ == old(self)@.with_block(func),
            b == old(self)@.blocks.len(),
    {
        let b = self.blocks.len();
        let e = self.insts.len();
        self.insts.push(InstEntry { kind: InstKind::Bookend(b), inputs: Vec::new(), prev: e, next: e });
        self.blocks.push(BlockEntry { func, bookend: e });
        self.bodies = Ghost(self.bodies@.push(Seq::empty()));
        self.homes = Ghost(self.homes@.push(b));
        self.slots = Ghost(self.slots@.push(0));
        proof {
            let ov = old(self)@;
            assert(self@.symbols =~= ov.with_block(func).symbols);
            assert(self@.funcs =~= ov.with_block(func).funcs);
            assert(self@.blocks =~= ov.with_block(func).blocks);
            assert(self@.insts =~= ov.with_block(func).insts);
            assert(ov.grows_to(self@)) by {
                assert forall|bb: int| 0 <= bb < ov.blocks.len() implies ov.blocks[bb].body.is_prefix_of(self@.blocks[bb].body) by {
                    assert(ov.blocks[bb].body =~= self@.blocks[bb].body.subrange(0, ov.blocks[bb].body.len() as int));
                }
            }
            assert forall|f: int| 0 <= f < self.funcs@.len() implies #[trigger] self.func_ok(f) by {
                assert(old(self).func_ok(f));
                let fe = self.funcs@[f];
                assert forall|k: int| 0 <= k < fe.params@.len() implies #[trigger] self.param_ok(fe.entry, fe.params@[k], k) by {
                    assert(old(self).param_ok(fe.entry, fe.params@[k], k));
                }
            }
            assert forall|bb: int| 0 <= bb < self.blocks@.len() implies #[trigger] self.block_ok(bb) by {
                if bb < b {
                    assert(old(self).block_ok(bb));
                    assert(self.ring(bb) == old(self).ring(bb));
                    assert forall|k: int| 0 <= k < self.ring(bb).len() implies #[trigger] self.slot_ok(bb, k) by {
                        assert(old(self).slot_ok(bb, k));
                    }
                } else {
                    assert(self.ring(bb) =~= seq![e]);
                    assert(self.slot_ok(bb, 0));
                }
            }
            assert forall|i: int| 0 <= i < self.insts@.len() implies #[trigger] self.inst_ok(i) by {
                if i < e {
                    assert(old(self).inst_ok(i));
                    assert(self.ring(self.homes@[i] as int) == old(self).ring(self.homes@[i] as int));
                    Self::lemma_inst_ok_kept(old(self), self, i);
                } else {
                    assert(self.ring(b as int) =~= seq![e]);
                    assert(self@.values_in(self.insts@[i].inputs@, func as int));
                    assert(self.target_ok(i));
                }
            }
        }
        b
    }

    /// Inserts a new record right before block `b`'s bookend.
    pub(crate) fn append_inst(&mut self, b: usize, kind: InstKind, inputs: Vec<usize>) -> (x: usize)
        requires
            old(self).wf(),
            old(self)@.may_append(b, kind, inputs@),
        ensures
            final(self).wf(),
            final(self)@ == old(self)@.with_inst(b, kind, inputs@),
            x == old(self)@.insts.len(),
    {
        proof {
            assert(self.block_ok(b as int));
        }
        let x = self.insts.len();
        let bk = self.blocks[b].bookend;
        let last = self.insts[bk].prev;
        let ghost n = self.bodies@[b as int].len();
        let ghost inputs_view = inputs@;
        proof {
            assert(self.slot_ok(b as int, n as int));
            assert(self.ring(b as int)[n as int] == bk);
            if n > 0 {
                assert(self.slot_ok(b as int, n - 1));
            }
        }
        self.insts.push(InstEntry { kind, inputs, prev: last, next: bk });
        self.insts[last].next = x;
        self.insts[bk].prev = x;
        self.bodies = Ghost(self.bodies@.update(b as int, self.bodies@[b as int].push(x)));
        self.homes = Ghost(self.homes@.push(b));
        self.slots = Ghost(self.slots@.update(bk as int, (n + 1) as int).push(n as int));
        proof {
            let o = old(self);
            let ov = o@;
            let r = o.ring(b as int);
            let nr = self.ring(b as int);
            assert(nr =~= o.bodies@[b as int].push(x).push(bk));
            assert(self@.symbols =~= ov.with_inst(b, kind, inputs_view).symbols);
            assert(self@.funcs =~= ov.with_inst(b, kind, inputs_view).funcs);
            assert(self@.blocks =~= ov.with_inst(b, kind, inputs_view).blocks);
            assert(self@.insts =~= ov.with_inst(b, kind, inputs_view).insts);
            assert(ov.grows_to(self@)) by {
                assert forall|bb: int| 0 <= bb < ov.blocks.len() implies ov.blocks[bb].body.is_prefix_of(self@.blocks[bb].body) by {
                    assert(ov.blocks[bb].body =~= self@.blocks[bb].body.subrange(0, ov.blocks[bb].body.len() as int));
                }
            }
            assert forall|f: int| 0 <= f < self.funcs@.len() implies #[trigger] self.func_ok(f) by {
                assert(o.func_ok(f));
                let fe = self.funcs@[f];
                assert forall|k: int| 0 <= k < fe.params@.len() implies #[trigger] self.param_ok(fe.entry, fe.params@[k], k) by {
                    assert(o.param_ok(fe.entry, fe.params@[k], k));
                }
            }
            assert forall|bb: int| 0 <= bb < self.blocks@.len() implies #[trigger] self.block_ok(bb) by {
                assert(o.block_ok(bb));
                if bb != b {
                    assert(self.ring(bb) == o.ring(bb));
                    assert forall|k: int| 0 <= k < self.ring(bb).len() implies #[trigger] self.slot_ok(bb, k) by {
                        assert(o.slot_ok(bb, k));
                    }
                } else {
                    assert forall|k: int| 0 <= k < nr.len() implies #[trigger] self.slot_ok(bb, k) by {
                        if k < n {
                            assert(o.slot_ok(bb, k));
                            if k + 1 < n {
                                assert(o.slot_ok(bb, k + 1));
                            }
                        } else if k == n + 1 {
                            assert(o.slot_ok(bb, n as int));
                        }
                    }
                }
            }
            assert forall|i: int| 0 <= i < self.insts@.len() implies #[trigger] self.inst_ok(i) by {
                if i < x {
                    assert(o.inst_ok(i));
                    let h = o.homes@[i] as int;
                    if h != b {
                        assert(self.ring(h) == o.ring(h));
                    } else {
                        assert(r[o.slots@[i]] == i);
                        if i == bk {
                            assert(o.slot_ok(b as int, n as int));
                        } else {
                            assert(o.slot_ok(b as int, o.slots@[i]));
                        }
                    }
                    Self::lemma_inst_ok_kept(o, self, i);
                } else {
                    ov.lemma_values_grow(self@, inputs_view, ov.blocks[b as int].func as int);
                    assert(self.target_ok(i));
                }
            }
        }
        x
    }

    /// The record that parameter `k` of `n` gets, the entry block's bookend
    /// being record `e`. Indices are formed by wrapping addition: they are
    /// exact once the records are in the pool, whose length fits `usize`.
    spec fn param_entry_ok(entry: InstEntry, e: usize, n: usize, k: int) -> bool {
        &&& entry.kind == InstKind::Param(k as u16)
        &&& entry.inputs@.len() == 0
        &&& entry.prev == (if k == 0 { e } else { e.wrapping_add(k as usize) })
        &&& entry.next == (if k + 1 == n { e } else { e.wrapping_add((k + 2) as usize) })
    }

    /// Adds a function of `symbol` and `sig`, with an entry block that holds
    /// one parameter record per declared parameter.
    pub(crate) fn add_func(&mut self, symbol: usize, sig: FuncSig) -> (f: usize)
        requires
            old(self).wf(),
            symbol < old(self)@.symbols.len(),
        ensures
            final(self).wf(),
            final(self)@ == old(self)@.with_func(symbol, sig@),
            f == old(self)@.funcs.len(),
    {
        proof {
            use_type_invariant(&sig);
        }
        let f = self.funcs.len();
        let b = self.blocks.len();
        let e = self.insts.len();
        let n = sig.params().len();
        let ghost sig_view = sig@;
        assert(n <= crate::types::MAX_LEN);
        let mut fresh: Vec<InstEntry> = Vec::new();
        fresh.push(
            InstEntry {
                kind: InstKind::Bookend(b),
                inputs: Vec::new(),
                prev: e.wrapping_add(n),
                next: if n == 0 { e } else { e.wrapping_add(1) },
            },
        );
        let mut params: Vec<usize> = Vec::new();
        let mut k: usize = 0;
        while k < n
            invariant
                k <= n,
                n <= crate::types::MAX_LEN,
                fresh@.len() == k + 1,
                fresh@[0].kind == InstKind::Bookend(b),
                fresh@[0].inputs@.len() == 0,
                fresh@[0].prev == e.wrapping_add(n),
                fresh@[0].next == (if n == 0 { e } else { e.wrapping_add(1) }),
                forall|j: int| 1 <= j <= k ==> Self::param_entry_ok(#[trigger] fresh@[j], e, n, j - 1),
                params@.len() == k,
                forall|j: int| 0 <= j < k ==> #[trigger] params@[j] == e.wrapping_add((j + 1) as usize),
            decreases n - k,
        {
            let prev = if k == 0 { e } else { e.wrapping_add(k) };
            let next = if k + 1 == n { e } else { e.wrapping_add(k + 2) };
            fresh.push(InstEntry { kind: InstKind::Param(k as u16), inputs: Vec::new(), prev, next });
            params.push(e.wrapping_add(k + 1));
            proof {
                assert(Self::param_entry_ok(fresh@[k + 1], e, n, k as int));
                assert(forall|j: int| 1 <= j <= k + 1 ==> Self::param_entry_ok(#[trigger] fresh@[j], e, n, j - 1));
            }
            k = k + 1;
        }
        let ghost fresh_view = fresh@;
        self.insts.append(&mut fresh);
        let total = self.insts.len();
        proof {
            assert(total == e + n + 1);
            assert forall|x: int| 0 <= x <= n + 1 implies #[trigger] e.wrapping_add(x as usize) == e + x by {
            }
            assert(params@ =~= ModuleView::param_ids(e as nat, n as nat));
        }
        let ghost param_view = params@;
        self.blocks.push(BlockEntry { func: f, bookend: e });
        self.funcs.push(FuncEntry { symbol, sig, entry: b, params });
        self.bodies = Ghost(self.bodies@.push(param_view));
        self.homes = Ghost(self.homes@.add(Seq::new((n + 1) as nat, |j: int| b)));
        self.slots = Ghost(self.slots@.push(n as int).add(Seq::new(n as nat, |j: int| j)));
        proof {
            let o = old(self);
            let ov = o@;
            let nv = ov.with_func(symbol, sig_view);
            let nr = self.ring(b as int);
            assert(nr =~= param_view.push(e));
            assert(self.insts@ =~= o.insts@ + fresh_view);
            assert(self@.symbols =~= nv.symbols);
            assert(self@.funcs =~= nv.funcs);
            assert(self@.blocks =~= nv.blocks);
            assert forall|i: int| 0 <= i < self@.insts.len() implies #[trigger] self@.insts[i] == nv.insts[i] by {
                if i < e {
                    assert(self.insts@[i] == o.insts@[i]);
                    assert(self.homes@[i] == o.homes@[i]);
                } else {
                    if i > e {
                        assert(Self::param_entry_ok(fresh_view[i - e], e, n, i - e - 1));
                    }
                    assert(self.insts@[i].inputs@ =~= Seq::<usize>::empty());
                }
            }
            assert(self@.insts =~= nv.insts);
            assert(ov.grows_to(self@)) by {
                assert forall|bb: int| 0 <= bb < ov.blocks.len() implies ov.blocks[bb].body.is_prefix_of(self@.blocks[bb].body) by {
                    assert(ov.blocks[bb].body =~= self@.blocks[bb].body.subrange(0, ov.blocks[bb].body.len() as int));
                }
            }
            assert forall|ff: int| 0 <= ff < self.funcs@.len() implies #[trigger] self.func_ok(ff) by {
                if ff < f {
                    assert(o.func_ok(ff));
                    let fe = self.funcs@[ff];
                    assert forall|j: int| 0 <= j < fe.params@.len() implies #[trigger] self.param_ok(fe.entry, fe.params@[j], j) by {
                        assert(o.param_ok(fe.entry, fe.params@[j], j));
                    }
                } else {
                    let fe = self.funcs@[ff];
                    assert forall|j: int| 0 <= j < fe.params@.len() implies #[trigger] self.param_ok(fe.entry, fe.params@[j], j) by {
                        assert(Self::param_entry_ok(fresh_view[j + 1], e, n, j));
                    }
                }
            }
            assert forall|bb: int| 0 <= bb < self.blocks@.len() implies #[trigger] self.block_ok(bb) by {
                if bb < b {
                    assert(o.block_ok(bb));
                    assert(self.ring(bb) == o.ring(bb));
                    assert forall|j: int| 0 <= j < self.ring(bb).len() implies #[trigger] self.slot_ok(bb, j) by {
                        assert(o.slot_ok(bb, j));
                    }
                } else {
                    assert forall|j: int| 0 <= j < nr.len() implies #[trigger] self.slot_ok(bb, j) by {
                        if j < n {
                            assert(Self::param_entry_ok(fresh_view[j + 1], e, n, j));
                        }
                    }
                }
            }
            assert forall|i: int| 0 <= i < self.insts@.len() implies #[trigger] self.inst_ok(i) by {
                if i < e {
                    assert(o.inst_ok(i));
                    assert(self.ring(self.homes@[i] as int) == o.ring(self.homes@[i] as int));
                    Self::lemma_inst_ok_kept(o, self, i);
                } else {
                    if i > e {
                        assert(Self::param_entry_ok(fresh_view[i - e], e, n, i - e - 1));
                    }
                    assert(self@.values_in(self.insts@[i].inputs@, f as int));
                    assert(self.target_ok(i));
                }
            }
        }
        f
    }

    /// The block that holds record `x`: follows `next` from `x` until it
    /// reaches a bookend, and reads the block from the bookend's payload.
    pub(crate) fn find_block(&self, x: usize) -> (b: usize)
        requires
            self.wf(),
            x < self@.insts.len(),
        ensures
            b == self@.insts[x as int].block,
    {
        proof {
            assert(self.inst_ok(x as int));
        }
        let ghost h = self.homes@[x as int] as int;
        let ghost mut k: int = self.slots@[x as int];
        proof {
            assert(self.block_ok(h));
        }
        let mut cur = x;
        loop
            invariant
                self.wf(),
                x < self@.insts.len(),
                0 <= h < self.blocks@.len(),
                h == self.homes@[x as int],
                self.block_ok(h),
                0 <= k < self.ring(h).len(),
                cur == self.ring(h)[k],
            decreases self.ring(h).len() - k,
        {
            proof {
                assert(self.slot_ok(h, k));
            }
            match self.insts[cur].kind {
                InstKind::Bookend(b) => {
                    proof {
                        assert(k == self.ring(h).len() - 1);
                        assert(self.homes@.len() == self.insts@.len());
                    }
                    return b;
                },
                _ => {
                    cur = self.insts[cur].next;
                    proof {
                        k = k + 1;
                    }
                },
            }
        }
    }

    /// The records of block `b` in order, read by following `next` from the
    /// bookend round to it again.
    pub(crate) fn body_of(&self, b: usize) -> (r: Vec<usize>)
        requires
            self.wf(),
            b < self@.blocks.len(),
        ensures
            r@ == self@.blocks[b as int].body,
    {
        proof {
            assert(self.block_ok(b as int));
        }
        let ghost ring = self.ring(b as int);
        let ghost body = self.bodies@[b as int];
        let bk = self.blocks[b].bookend;
        proof {
            assert(self.slot_ok(b as int, body.len() as int));
        }
        let mut cur = self.insts[bk].next;
        let mut r: Vec<usize> = Vec::new();
        while cur != bk
            invariant
                self.wf(),
                self.block_ok(b as int),
                ring == self.ring(b as int),
                body == self.bodies@[b as int],
                bk == ring[body.len() as int],
                r@.len() <= body.len(),
                r@ == body.subrange(0, r@.len() as int),
                cur == ring[r@.len() as int],
            decreases body.len() - r@.len(),
        {
            proof {
                assert(self.slot_ok(b as int, r@.len() as int));
                assert(self.slot_ok(b as int, body.len() as int));
            }
            r.push(cur);
            cur = self.insts[cur].next;
            proof {
                assert(r@ =~= body.subrange(0, r@.len() as int));
            }
        }
        proof {
            if r@.len() < body.len() {
                assert(self.slot_ok(b as int, r@.len() as int));
                assert(self.slot_ok(b as int, body.len() as int));
            }
            assert(r@ =~= body);
        }
        r
    }

    pub(crate) fn symbol_count(&self) -> (r: usize)
        ensures
            r == self@.symbols.len(),
    {
        self.symbols.len()
    }

    pub(crate) fn func_count(&self) -> (r: usize)
        ensures
            r == self@.funcs.len(),
    {
        self.funcs.len()
    }

    pub(crate) fn block_count(&self) -> (r: usize)
        ensures
            r == self@.blocks.len(),
    {
        self.blocks.len()
    }

    pub(crate) fn inst_count(&self) -> (r: usize)
        ensures
            r == self@.insts.len(),
    {
        self.insts.len()
    }

    pub(crate) fn symbol_name(&self, s: usize) -> (r: &str)
        requires
            s < self@.symbols.len(),
        ensures
            r@ == self@.symbols[s as int].name,
    {
        self.symbols[s].name.as_str()
    }

    pub(crate) fn func_symbol(&self, f: usize) -> (r: usize)
        requires
            f < self@.funcs.len(),
        ensures
            r == self@.funcs[f as int].symbol,
    {
        self.funcs[f].symbol
    }

    pub(crate) fn func_entry(&self, f: usize) -> (r: usize)
        requires
            f < self@.funcs.len(),
        ensures
            r == self@.funcs[f as int].entry,
    {
        self.funcs[f].entry
    }

    pub(crate) fn func_sig(&self, f: usize) -> (r: &FuncSig)
        requires
            f < self@.funcs.len(),
        ensures
            r@ == self@.funcs[f as int].sig,
    {
        &self.funcs[f].sig
    }

    pub(crate) fn func_params(&self, f: usize) -> (r: &Vec<usize>)
        requires
            f < self@.funcs.len(),
        ensures
            r@ == self@.funcs[f as int].params,
    {
        &self.funcs[f].params
    }

    pub(crate) fn block_func(&self, b: usize) -> (r: usize)
        requires
            b < self@.blocks.len(),
        ensures
            r == self@.blocks[b as int].func,
    {
        self.blocks[b].func
    }

    pub(crate) fn inst_kind(&self, x: usize) -> (r: InstKind)
        requires
            x < self@.insts.len(),
        ensures
            r == self@.insts[x as int].kind,
    {
        self.insts[x].kind
    }

    pub(crate) fn inst_inputs(&self, x: usize) -> (r: &Vec<usize>)
        requires
            x < self@.insts.len(),
        ensures
            r@ == self@.insts[x as int].inputs,
    {
        &self.insts[x].inputs
    }

    /// What a well-formed arena guarantees of function `f`, its entry block
    /// and its parameters, and of every record's block and function.
    pub(crate) proof fn lemma_func(&self, f: int)
        requires
            self.wf(),
            0 <= f < self@.funcs.len(),
        ensures
            self@.funcs[f].entry < self@.blocks.len(),
            self@.blocks[self@.funcs[f].entry as int].func == f,
            self@.funcs[f].params.len() == self@.funcs[f].sig.params.len(),
            self@.values_in(self@.funcs[f].params, f),
    {
        assert(self.func_ok(f));
        let e = self.funcs@[f];
        assert forall|k: int| 0 <= k < e.params@.len() implies self@.value_in(#[trigger] e.params@[k], f) by {
            assert(self.param_ok(e.entry, e.params@[k], k));
            assert(self.inst_ok(e.params@[k] as int));
        }
    }

    /// In a well-formed arena every function's symbol, every block's
    /// function and every record's block exist.
    pub(crate) proof fn lemma_blocks(&self)
        requires
            self.wf(),
        ensures
            forall|f: int| 0 <= f < self@.funcs.len() ==> #[trigger] self@.funcs[f].symbol < self@.symbols.len(),
            forall|b: int| 0 <= b < self@.blocks.len() ==> #[trigger] self@.blocks[b].func < self@.funcs.len(),
            forall|i: int| 0 <= i < self@.insts.len() ==> #[trigger] self@.insts[i].block < self@.blocks.len(),
    {
        assert forall|f: int| 0 <= f < self@.funcs.len() implies #[trigger] self@.funcs[f].symbol < self@.symbols.len() by {
            assert(self.func_ok(f));
        }
        assert forall|b: int| 0 <= b < self@.blocks.len() implies #[trigger] self@.blocks[b].func < self@.funcs.len() by {
            assert(self.block_ok(b));
        }
        assert forall|i: int| 0 <= i < self@.insts.len() implies #[trigger] self@.insts[i].block < self@.blocks.len() by {
            assert(self.inst_ok(i));
        }
    }
}

} // verus!
