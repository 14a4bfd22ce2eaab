use iron_rs::{BuildError, CallConv, FuncParam, FuncSig, Ty};

fn param(ty: Ty) -> FuncParam {
    FuncParam { ty }
}

#[test]
fn signature_keeps_its_lists() {
    let sig = FuncSig::new(CallConv::Jackal, &[param(Ty::I32), param(Ty::Ptr)], &[param(Ty::I64)]).unwrap();
    assert_eq!(sig.call_conv(), CallConv::Jackal);
    assert_eq!(sig.params(), &[param(Ty::I32), param(Ty::Ptr)]);
    assert_eq!(sig.results(), &[param(Ty::I64)]);
}

#[test]
fn signature_with_empty_lists() {
    let sig = FuncSig::new(CallConv::Jackal, &[], &[]).unwrap();
    assert!(sig.params().is_empty());
    assert!(sig.results().is_empty());
}

#[test]
fn signature_lists_at_the_limit() {
    let many = vec![param(Ty::I8); 65535];
    let sig = FuncSig::new(CallConv::Jackal, &many, &many).unwrap();
    assert_eq!(sig.params().len(), 65535);
    assert_eq!(sig.results().len(), 65535);
}

#[test]
fn signature_parameter_list_over_the_limit() {
    let many = vec![param(Ty::I8); 65536];
    assert_eq!(FuncSig::new(CallConv::Jackal, &many, &[]).err(), Some(BuildError::LengthOverflow));
}

#[test]
fn signature_result_list_over_the_limit() {
    let many = vec![param(Ty::Bool); 65536];
    assert_eq!(FuncSig::new(CallConv::Jackal, &[], &many).err(), Some(BuildError::LengthOverflow));
}

#[test]
fn clone_outlives_its_source() {
    let source = FuncSig::new(CallConv::Jackal, &[param(Ty::I32), param(Ty::I16)], &[param(Ty::Bool)]).unwrap();
    let copy = source.clone();
    drop(source);
    assert_eq!(copy.params(), &[param(Ty::I32), param(Ty::I16)]);
    assert_eq!(copy.results(), &[param(Ty::Bool)]);
    let second = copy.clone();
    drop(copy);
    assert_eq!(second.params(), &[param(Ty::I32), param(Ty::I16)]);
    assert_eq!(second.results(), &[param(Ty::Bool)]);
}
