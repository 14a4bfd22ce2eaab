use iron_rs::{
    Arch, BinOp, BuildError, CallConv, Const, FuncParam, FuncSig, InstKind, InvariantOn, Module, SymbolBinding,
    System, Ty,
};

fn i32_param() -> FuncParam {
    FuncParam { ty: Ty::I32 }
}

fn sig(params: usize, results: usize) -> FuncSig {
    FuncSig::new(CallConv::Jackal, &vec![i32_param(); params], &vec![i32_param(); results]).unwrap()
}

#[test]
fn marker_scope_returns_the_result() {
    assert_eq!(InvariantOn::new(|_marker| 5u32), 5);
}

#[test]
fn session_returns_the_result_and_knows_its_target() {
    let r = Module::new(Arch::Xr17032, System::Freestanding, |module| (module.arch(), module.system()));
    assert_eq!(r, (Arch::Xr17032, System::Freestanding));
}

#[test]
fn symbol_too_long() {
    Module::new(Arch::Xr17032, System::Freestanding, |mut module| {
        let r = module.create_symbol(&"a".repeat(0x1_0000), SymbolBinding::Global);
        assert_eq!(r.err(), Some(BuildError::LengthOverflow));
    });
}

#[test]
fn symbol_name_length_counts_bytes() {
    Module::new(Arch::Xr17032, System::Freestanding, |mut module| {
        assert!(module.create_symbol(&"a".repeat(65535), SymbolBinding::Local).is_ok());
        assert!(module.create_symbol("", SymbolBinding::Global).is_ok());
        let r = module.create_symbol(&"\u{e9}".repeat(32768), SymbolBinding::Local);
        assert_eq!(r.err(), Some(BuildError::LengthOverflow));
        let r = module.create_symbol(&"\u{e9}".repeat(32767), SymbolBinding::SharedExport);
        assert_eq!(r.unwrap().binding(), SymbolBinding::SharedExport);
    });
}

#[test]
fn shared_import_function() {
    Module::new(Arch::Xr17032, System::Freestanding, |mut module| {
        let symbol = module.create_symbol("oopsie", SymbolBinding::SharedImport).unwrap();
        let r = module.create_func(symbol, sig(0, 0), |_m, _func| panic!("the edit scope must not run"));
        assert_eq!(r.err(), Some(BuildError::InvalidBinding));
    });
}

#[test]
fn shared_import_rejected_for_every_signature() {
    Module::new(Arch::Xr17032, System::Freestanding, |mut module| {
        for (params, results) in [(0, 0), (1, 1), (3, 0), (0, 2)] {
            let symbol = module.create_symbol("import", SymbolBinding::SharedImport).unwrap();
            let r = module.create_func(symbol, sig(params, results), |_m, _func| ());
            assert_eq!(r.err(), Some(BuildError::InvalidBinding));
        }
    });
}

#[test]
fn other_bindings_build_functions() {
    Module::new(Arch::Xr17032, System::Freestanding, |mut module| {
        for binding in [SymbolBinding::Local, SymbolBinding::Global, SymbolBinding::SharedExport] {
            let symbol = module.create_symbol("f", binding).unwrap();
            let r = module.create_func(symbol, sig(0, 0), |_m, _func| 7u8);
            assert_eq!(r, Ok(7));
        }
    });
}

#[test]
fn out_of_bounds_param() {
    Module::new(Arch::Xr17032, System::Freestanding, |mut module| {
        let symbol = module.create_symbol("out_of_bounds", SymbolBinding::Global).unwrap();
        module
            .create_func(symbol, sig(0, 0), |m, func| {
                assert_eq!(func.get_param(m, 0).err(), Some(BuildError::IndexOutOfBounds));
            })
            .unwrap();
    });
}

#[test]
fn params_exist_exactly_below_the_count() {
    Module::new(Arch::Xr17032, System::Freestanding, |mut module| {
        let symbol = module.create_symbol("three", SymbolBinding::Global).unwrap();
        module
            .create_func(symbol, sig(3, 0), |m, func| {
                for i in 0..3u16 {
                    let p = func.get_param(m, i).unwrap();
                    assert_eq!(p.kind(m), Ok(InstKind::Param(i)));
                }
                for i in [3u16, 4, 65535] {
                    assert_eq!(func.get_param(m, i).err(), Some(BuildError::IndexOutOfBounds));
                }
                let body = func.entry_block().instructions(m).unwrap();
                assert_eq!(body.len(), 3);
            })
            .unwrap();
    });
}

#[test]
fn incorrect_number_of_return_values() {
    Module::new(Arch::Xr17032, System::Freestanding, |mut module| {
        let symbol = module.create_symbol("wrong_return_len", SymbolBinding::Global).unwrap();
        module
            .create_func(symbol, sig(1, 1), |m, func| {
                let entry = func.entry_block();
                assert_eq!(entry.push_return(m, &[]).err(), Some(BuildError::ArityMismatch));
                assert_eq!(entry.instructions(m).unwrap().len(), 1);
            })
            .unwrap();
    });
}

#[test]
fn return_arity_must_match_for_every_count() {
    Module::new(Arch::Xr17032, System::Freestanding, |mut module| {
        for declared in 0..4usize {
            let symbol = module.create_symbol("ret", SymbolBinding::Local).unwrap();
            module
                .create_func(symbol, sig(1, declared), |m, func| {
                    let p = func.get_param(m, 0).unwrap();
                    let entry = func.entry_block();
                    for supplied in 0..6usize {
                        let values = vec![p; supplied];
                        let r = entry.push_return(m, &values);
                        if supplied == declared {
                            let ret = r.unwrap();
                            assert_eq!(ret.inputs(m).unwrap().len(), declared);
                        } else {
                            assert_eq!(r.err(), Some(BuildError::ArityMismatch));
                        }
                    }
                })
                .unwrap();
        }
    });
}

#[test]
fn identity_function_graph() {
    Module::new(Arch::Xr17032, System::Freestanding, |mut module| {
        let symbol = module.create_symbol("id", SymbolBinding::Global).unwrap();
        let _unnamed = module.create_symbol("", SymbolBinding::Global).unwrap();
        module
            .create_func(symbol, sig(1, 1), |m, func| {
                let param = func.get_param(m, 0).unwrap();
                let entry = func.entry_block();
                let ret = entry.push_return(m, &[param]).unwrap();
                assert_eq!(ret.kind(m), Ok(InstKind::Return));
                let inputs = ret.inputs(m).unwrap();
                assert_eq!(inputs.len(), 1);
                assert_eq!(inputs[0].kind(m), Ok(InstKind::Param(0)));
                let kinds: Vec<InstKind> = entry.instructions(m).unwrap().iter().map(|i| i.kind(m).unwrap()).collect();
                assert_eq!(kinds, vec![InstKind::Param(0), InstKind::Return]);
            })
            .unwrap();
    });
}

#[test]
fn binop_const_graph() {
    Module::new(Arch::Xr17032, System::Freestanding, |mut module| {
        let symbol = module.create_symbol("binop_const_test", SymbolBinding::Global).unwrap();
        module
            .create_func(symbol, sig(0, 1), |m, func| {
                let entry = func.entry_block();
                let const42 = entry.push_const(m, Const::U32(42)).unwrap();
                let const1337 = entry.push_const(m, Const::U32(1337)).unwrap();
                let const1_000_000 = entry.push_const(m, Const::U32(1_000_000)).unwrap();
                let const_neg_1 = entry.push_const(m, Const::U32(u32::MAX)).unwrap();
                let add1 = entry.push_binop(m, BinOp::Add, const42, const1337).unwrap();
                let add2 = entry.push_binop(m, BinOp::Add, const1_000_000, const_neg_1).unwrap();
                let sub = entry.push_binop(m, BinOp::Sub, add1, add2).unwrap();
                entry.push_return(m, &[sub]).unwrap();

                let kinds: Vec<InstKind> = entry.instructions(m).unwrap().iter().map(|i| i.kind(m).unwrap()).collect();
                assert_eq!(
                    kinds,
                    vec![
                        InstKind::Const(Const::U32(42)),
                        InstKind::Const(Const::U32(1337)),
                        InstKind::Const(Const::U32(1_000_000)),
                        InstKind::Const(Const::U32(4294967295)),
                        InstKind::BinOp(BinOp::Add),
                        InstKind::BinOp(BinOp::Add),
                        InstKind::BinOp(BinOp::Sub),
                        InstKind::Return,
                    ]
                );
                let operands: Vec<InstKind> = add2.inputs(m).unwrap().iter().map(|i| i.kind(m).unwrap()).collect();
                assert_eq!(operands, vec![InstKind::Const(Const::U32(1_000_000)), InstKind::Const(Const::U32(4294967295))]);
                let operands: Vec<InstKind> = sub.inputs(m).unwrap().iter().map(|i| i.kind(m).unwrap()).collect();
                assert_eq!(operands, vec![InstKind::BinOp(BinOp::Add), InstKind::BinOp(BinOp::Add)]);
            })
            .unwrap();
    });
}

#[test]
fn self_jump_graph() {
    Module::new(Arch::Xr17032, System::Freestanding, |mut module| {
        let symbol = module.create_symbol("infinite_loop", SymbolBinding::Global).unwrap();
        module
            .create_func(symbol, sig(0, 0), |m, func| {
                let entry = func.entry_block();
                let jump = entry.push_jump(m, entry).unwrap();
                let target = jump.kind(m).unwrap();
                let home = jump.find_block(m).unwrap();
                assert_eq!(home.instructions(m).unwrap().len(), 1);
                assert!(matches!(target, InstKind::Jump(_)));
                assert!(jump.inputs(m).unwrap().is_empty());
            })
            .unwrap();
    });
}

#[test]
fn two_block_loop_graph() {
    Module::new(Arch::Xr17032, System::Freestanding, |mut module| {
        let symbol = module.create_symbol("infinite_loop2", SymbolBinding::Global).unwrap();
        module
            .create_func(symbol, sig(0, 0), |m, func| {
                let b1 = func.entry_block();
                let b2 = func.create_block(m).unwrap();
                assert!(b2.instructions(m).unwrap().is_empty());
                let j1 = b1.push_jump(m, b2).unwrap();
                let j2 = b2.push_jump(m, b1).unwrap();
                assert_ne!(j1.kind(m), j2.kind(m));
                assert_eq!(j1.find_block(m).unwrap().instructions(m).unwrap().len(), 1);
                assert_eq!(j2.find_block(m).unwrap().instructions(m).unwrap()[0].kind(m), j2.kind(m));
            })
            .unwrap();
    });
}

#[test]
fn instructions_land_in_their_own_block() {
    Module::new(Arch::Xr17032, System::Freestanding, |mut module| {
        let symbol = module.create_symbol("blocks", SymbolBinding::Local).unwrap();
        module
            .create_func(symbol, sig(2, 1), |m, func| {
                let entry = func.entry_block();
                let side = func.create_block(m).unwrap();
                let a = func.get_param(m, 0).unwrap();
                let b = func.get_param(m, 1).unwrap();
                let sum = side.push_binop(m, BinOp::Mul, a, b).unwrap();
                side.push_return(m, &[sum]).unwrap();
                entry.push_jump(m, side).unwrap();
                let kinds: Vec<InstKind> = side.instructions(m).unwrap().iter().map(|i| i.kind(m).unwrap()).collect();
                assert_eq!(kinds, vec![InstKind::BinOp(BinOp::Mul), InstKind::Return]);
                assert_eq!(entry.instructions(m).unwrap().len(), 3);
                assert_eq!(sum.find_block(m).unwrap().instructions(m).unwrap().len(), 2);
                assert_eq!(a.find_block(m).unwrap().instructions(m).unwrap().len(), 3);
            })
            .unwrap();
    });
}

#[test]
fn direct_call_between_functions() {
    Module::new(Arch::Xr17032, System::Freestanding, |mut module| {
        let first = module.create_symbol("callee", SymbolBinding::Local).unwrap();
        let callee = module
            .create_func(first, sig(1, 1), |m, func| {
                let p = func.get_param(m, 0).unwrap();
                func.entry_block().push_return(m, &[p]).unwrap();
                func.get_ref()
            })
            .unwrap();
        let second = module.create_symbol("caller", SymbolBinding::Global).unwrap();
        module
            .create_func(second, sig(0, 1), |m, func| {
                let entry = func.entry_block();
                let seven = entry.push_const(m, Const::U64(7)).unwrap();
                assert_eq!(entry.push_direct_call(m, callee, &[]).err(), Some(BuildError::ArityMismatch));
                assert_eq!(entry.push_direct_call(m, callee, &[seven, seven]).err(), Some(BuildError::ArityMismatch));
                let call = entry.push_direct_call(m, callee, &[seven]).unwrap();
                assert_eq!(call.kind(m), Ok(InstKind::Call(0)));
                assert_eq!(call.inputs(m).unwrap()[0].kind(m), Ok(InstKind::Const(Const::U64(7))));
                entry.push_return(m, &[call]).unwrap();
            })
            .unwrap();
    });
}

#[test]
fn edit_function_later_through_its_reference() {
    Module::new(Arch::Xr17032, System::Freestanding, |mut module| {
        let symbol = module.create_symbol("later", SymbolBinding::Global).unwrap();
        let fref = module.create_func(symbol, sig(0, 1), |_m, func| func.get_ref()).unwrap();
        let count = module
            .edit_func(fref, |m, func| {
                let entry = func.entry_block();
                let c = entry.push_const(m, Const::Bool(true)).unwrap();
                entry.push_return(m, &[c]).unwrap();
                entry.instructions(m).unwrap().len()
            })
            .unwrap();
        assert_eq!(count, 2);
        assert_eq!(module.func_name(fref), Ok("later"));
    });
}
