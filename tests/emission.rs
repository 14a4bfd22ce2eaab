use iron_rs::{join_trimmed, Arch, CallConv, FuncParam, FuncRef, FuncSig, Module, SymbolBinding, System, Ty};

#[test]
fn joins_in_order_and_trims_the_whole() {
    let parts = vec![String::from("\n  first:\n"), String::from("    ret\n"), String::from("second:  \n\n")];
    assert_eq!(join_trimmed(&parts), "first:\n    ret\nsecond:");
}

#[test]
fn joining_nothing_gives_nothing() {
    assert_eq!(join_trimmed(&[]), "");
    assert_eq!(join_trimmed(&[String::from(" \t\r\n ")]), "");
}

#[test]
fn trims_unicode_white_space() {
    let parts = vec![String::from("\u{3000}\u{a0}x"), String::from("y\u{2028}\u{85}")];
    assert_eq!(join_trimmed(&parts), "xy");
}

#[test]
fn keeps_inner_white_space() {
    let parts = vec![String::from(" a "), String::from(" b ")];
    assert_eq!(join_trimmed(&parts), "a  b");
}

#[test]
fn codegen_visits_functions_in_build_order() {
    let code = Module::new(Arch::Xr17032, System::Freestanding, |mut module| {
        for name in ["alpha", "beta", "gamma"] {
            let symbol = module.create_symbol(name, SymbolBinding::Global).unwrap();
            let sig = FuncSig::new(CallConv::Jackal, &[], &[]).unwrap();
            module
                .create_func(symbol, sig, |m, func| {
                    let entry = func.entry_block();
                    entry.push_jump(m, entry).unwrap();
                })
                .unwrap();
        }
        module.codegen(|m: &Module, f: FuncRef| format!("\n{}:\n", m.func_name(f).unwrap()))
    });
    assert_eq!(code, "alpha:\n\nbeta:\n\ngamma:");
}

#[test]
fn codegen_of_an_empty_session() {
    let code = Module::new(Arch::Xr17032, System::Freestanding, |module| {
        module.codegen(|_m: &Module, _f: FuncRef| String::from("never"))
    });
    assert_eq!(code, "");
}

#[test]
fn codegen_hands_over_the_built_graph() {
    let code = Module::new(Arch::Xr17032, System::Freestanding, |mut module| {
        let symbol = module.create_symbol("id", SymbolBinding::Global).unwrap();
        let sig = FuncSig::new(CallConv::Jackal, &[FuncParam { ty: Ty::I32 }], &[FuncParam { ty: Ty::I32 }]).unwrap();
        module
            .create_func(symbol, sig, |m, func| {
                let param = func.get_param(m, 0).unwrap();
                func.entry_block().push_return(m, &[param]).unwrap();
            })
            .unwrap();
        module.codegen(|m: &Module, f: FuncRef| {
            let name = m.func_name(f).unwrap();
            format!("  {name}: {:?} {:?}  ", m.arch(), m.system())
        })
    });
    assert_eq!(code, "id: Xr17032 Freestanding");
}

#[test]
fn ir_text_is_the_trimmed_printer_output() {
    let text = Module::new(Arch::Xr17032, System::Freestanding, |mut module| {
        let symbol = module.create_symbol("shown", SymbolBinding::Local).unwrap();
        let sig = FuncSig::new(CallConv::Jackal, &[], &[]).unwrap();
        module
            .create_func(symbol, sig, |m, func| {
                func.entry_block().push_jump(m, func.entry_block()).unwrap();
                func.ir_text(m, |mm: &Module, f: FuncRef| format!("\n  fn {}() {{}}\t\n", mm.func_name(f).unwrap()))
            })
            .unwrap()
    });
    assert_eq!(text, "fn shown() {}");
}
