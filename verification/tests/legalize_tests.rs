use yksir::legalize::{
    legalize, shift_count_overflows, split_shift_by_64, split_value, AbiFamily, CallPlan,
    Legalization, OverflowSource, ResultPassing, Routine, ShiftDir, SplitPlan, WideBinOp,
};

#[test]
fn unchecked_multiply_is_always_legalized() {
    for &abi in &[AbiFamily::StructReturn, AbiFamily::RegisterPair] {
        for &signed in &[false, true] {
            let r = legalize(WideBinOp::Mul, false, signed, abi, None);
            assert_ne!(r, Legalization::NoRewrite);
            match r {
                Legalization::RuntimeCall(plan) => {
                    assert_eq!(plan.routine, Routine::Mul3);
                    assert_eq!(plan.routine.symbol(), "__multi3");
                    assert!(!plan.returns_pair);
                    assert_eq!(plan.operands_by_ref, abi == AbiFamily::StructReturn);
                    assert_eq!(
                        plan.result,
                        if abi == AbiFamily::StructReturn {
                            ResultPassing::OutPtr
                        } else {
                            ResultPassing::Direct
                        }
                    );
                }
                other => panic!("expected a runtime call, got {:?}", other),
            }
        }
    }
}

#[test]
fn bitwise_and_comparisons_need_no_rewrite() {
    let ops = [
        WideBinOp::BitAnd,
        WideBinOp::BitOr,
        WideBinOp::BitXor,
        WideBinOp::CmpLt,
        WideBinOp::CmpLe,
        WideBinOp::CmpEq,
        WideBinOp::CmpGe,
        WideBinOp::CmpGt,
        WideBinOp::CmpNe,
    ];
    for &op in &ops {
        assert_eq!(
            legalize(op, false, true, AbiFamily::StructReturn, None),
            Legalization::NoRewrite
        );
    }
    assert_eq!(
        legalize(WideBinOp::Add, false, false, AbiFamily::RegisterPair, None),
        Legalization::NoRewrite
    );
    assert_eq!(
        legalize(WideBinOp::Sub, false, true, AbiFamily::StructReturn, None),
        Legalization::NoRewrite
    );
}

#[test]
fn checked_ops_call_overflow_reporting_routines() {
    let cases = [
        (WideBinOp::Add, false, Routine::AddOvfU, "__rust_u128_addo"),
        (WideBinOp::Add, true, Routine::AddOvfI, "__rust_i128_addo"),
        (WideBinOp::Sub, false, Routine::SubOvfU, "__rust_u128_subo"),
        (WideBinOp::Sub, true, Routine::SubOvfI, "__rust_i128_subo"),
        (WideBinOp::Mul, false, Routine::MulOvfU, "__rust_u128_mulo"),
        (WideBinOp::Mul, true, Routine::MulOvfI, "__rust_i128_mulo"),
    ];
    for &(op, signed, routine, symbol) in &cases {
        for &abi in &[AbiFamily::StructReturn, AbiFamily::RegisterPair] {
            match legalize(op, true, signed, abi, None) {
                Legalization::RuntimeCall(plan) => {
                    assert_eq!(plan.routine, routine);
                    assert_eq!(plan.routine.symbol(), symbol);
                    assert!(plan.returns_pair);
                    assert_eq!(plan.overflow, OverflowSource::FromRoutine);
                    assert_eq!(plan.result, ResultPassing::OutPtr);
                    assert_eq!(plan.operands_by_ref, abi == AbiFamily::StructReturn);
                }
                other => panic!("expected a runtime call, got {:?}", other),
            }
        }
    }
}

#[test]
fn division_and_remainder_always_call() {
    let cases = [
        (WideBinOp::Div, false, "__udivti3"),
        (WideBinOp::Div, true, "__divti3"),
        (WideBinOp::Rem, false, "__umodti3"),
        (WideBinOp::Rem, true, "__modti3"),
    ];
    for &(op, signed, symbol) in &cases {
        match legalize(op, false, signed, AbiFamily::StructReturn, None) {
            Legalization::RuntimeCall(plan) => {
                assert_eq!(plan.routine.symbol(), symbol);
                assert!(plan.operands_by_ref);
                assert_eq!(plan.result, ResultPassing::OutPtr);
                assert!(!plan.returns_pair);
            }
            other => panic!("expected a runtime call, got {:?}", other),
        }
        match legalize(op, false, signed, AbiFamily::RegisterPair, None) {
            Legalization::RuntimeCall(plan) => {
                assert!(!plan.operands_by_ref);
                assert_eq!(plan.result, ResultPassing::PackedPairViaStack);
            }
            other => panic!("expected a runtime call, got {:?}", other),
        }
    }
}

#[test]
fn shifts_call_with_truncated_count() {
    let cases = [
        (WideBinOp::Shl, false, "__ashlti3"),
        (WideBinOp::Shl, true, "__ashlti3"),
        (WideBinOp::Shr, false, "__lshrti3"),
        (WideBinOp::Shr, true, "__ashrti3"),
    ];
    for &(op, signed, symbol) in &cases {
        match legalize(op, false, signed, AbiFamily::RegisterPair, Some(3)) {
            Legalization::RuntimeCall(plan) => {
                assert_eq!(plan.routine.symbol(), symbol);
                assert!(plan.truncate_count);
                assert!(!plan.returns_pair);
                assert_eq!(plan.result, ResultPassing::Direct);
            }
            other => panic!("expected a runtime call, got {:?}", other),
        }
    }
}

#[test]
fn checked_shift_unsupported_under_struct_return() {
    assert_eq!(
        legalize(WideBinOp::Shl, true, false, AbiFamily::StructReturn, None),
        Legalization::Unsupported
    );
    assert_eq!(
        legalize(WideBinOp::Shr, true, true, AbiFamily::StructReturn, Some(3)),
        Legalization::Unsupported
    );
    match legalize(WideBinOp::Shr, true, false, AbiFamily::RegisterPair, None) {
        Legalization::RuntimeCall(plan) => {
            assert!(plan.returns_pair);
            assert_eq!(plan.overflow, OverflowSource::FromCountCheck);
        }
        other => panic!("expected a runtime call, got {:?}", other),
    }
}

#[test]
fn constant_64_shift_takes_fast_path_on_every_target() {
    for &abi in &[AbiFamily::StructReturn, AbiFamily::RegisterPair] {
        for &checked in &[false, true] {
            for &signed in &[false, true] {
                assert_eq!(
                    legalize(WideBinOp::Shr, checked, signed, abi, Some(64)),
                    Legalization::ShiftSplit(SplitPlan {
                        dir: ShiftDir::Right,
                        signed,
                        checked,
                    })
                );
                assert_eq!(
                    legalize(WideBinOp::Shl, checked, signed, abi, Some(64)),
                    Legalization::ShiftSplit(SplitPlan {
                        dir: ShiftDir::Left,
                        signed,
                        checked,
                    })
                );
            }
        }
    }
}

#[test]
fn shift_by_64_splits_value_into_halves() {
    let v: u128 = 0x1122_3344_5566_7788_99aa_bbcc_ddee_ff00;
    // unsigned right shift: (high_64(v), 0)
    assert_eq!(
        split_shift_by_64(v, ShiftDir::Right, false),
        0x1122_3344_5566_7788u128
    );
    // left shift: (0, low_64(v))
    assert_eq!(
        split_shift_by_64(v, ShiftDir::Left, false),
        0x99aa_bbcc_ddee_ff00_0000_0000_0000_0000u128
    );
    assert_eq!(split_shift_by_64(v, ShiftDir::Right, false), v >> 64);
    assert_eq!(split_shift_by_64(v, ShiftDir::Left, true), v << 64);
}

#[test]
fn signed_shift_by_64_extends_the_sign() {
    let negative: u128 = 0xffff_ffff_ffff_fffe_0000_0000_0000_0001;
    let r = split_shift_by_64(negative, ShiftDir::Right, true);
    assert_eq!(r, 0xffff_ffff_ffff_ffff_ffff_ffff_ffff_fffeu128);
    assert_eq!(r as i128, (negative as i128) >> 64);
    let positive: u128 = 0x0123_4567_89ab_cdef_0000_0000_0000_0000;
    assert_eq!(
        split_shift_by_64(positive, ShiftDir::Right, true),
        positive >> 64
    );
}

#[test]
fn shift_count_overflow_checks_both_halves() {
    assert!(!shift_count_overflows(0));
    assert!(!shift_count_overflows(127));
    assert!(shift_count_overflows(128));
    assert!(shift_count_overflows(1u128 << 64));
    assert!(shift_count_overflows(u128::MAX));
}

#[test]
fn split_value_returns_low_and_high_words() {
    let v: u128 = 0xdead_beef_0000_0001_0000_0000_cafe_f00d;
    let (lo, hi) = split_value(v);
    assert_eq!(lo, 0x0000_0000_cafe_f00d);
    assert_eq!(hi, 0xdead_beef_0000_0001);
}

#[test]
fn call_plan_is_plain_data() {
    let plan = CallPlan {
        routine: Routine::DivU,
        operands_by_ref: false,
        result: ResultPassing::Direct,
        returns_pair: false,
        overflow: OverflowSource::NotChecked,
        truncate_count: false,
    };
    assert_eq!(plan, plan.clone());
}
