use yksir::builder::SirBuilder;
use yksir::encode::{encode_sir, EncodeError};
use yksir::ir::{ExtraInfo, InstData, IntCondition, IrBlock, IrFunction, IrInst, MachineType};
use yksir::pack::{
    preallocate_clif_types, Body, CallOperand, Constant, LocalDecl, Operand, PackBinOp, PackTy,
    Place, Rvalue, Statement, Terminator, TyRef, TypeTable, UIntConst, UIntWidth,
};

fn inst(ident: u32, data: InstData, ctrl: MachineType) -> IrInst {
    IrInst {
        ident,
        data,
        ctrl_type: ctrl,
        desc: String::from("inst"),
    }
}

fn fresh_table(hash: u64) -> TypeTable {
    let mut t = TypeTable {
        crate_hash: hash,
        entries: Vec::new(),
    };
    preallocate_clif_types(&mut t);
    t
}

fn ret_inst(ident: u32) -> IrInst {
    inst(ident, InstData::Ret { args: vec![] }, MachineType::I64)
}

#[test]
fn preallocated_prefix_holds_the_five_widths() {
    let t = fresh_table(9);
    assert_eq!(t.crate_hash, 9);
    assert_eq!(
        t.entries,
        vec![
            PackTy::UnsignedInt(UIntWidth::W8),
            PackTy::UnsignedInt(UIntWidth::W16),
            PackTy::UnsignedInt(UIntWidth::W32),
            PackTy::UnsignedInt(UIntWidth::W64),
            PackTy::UnsignedInt(UIntWidth::W128),
        ]
    );
}

#[test]
fn stack_slot_entries_are_appended_not_reused() {
    let mut t = fresh_table(3);
    let r1 = yksir::pack::pack_ty_for_stack_slot(&mut t, 16);
    let r2 = yksir::pack::pack_ty_for_stack_slot(&mut t, 16);
    assert_eq!(r1, TyRef { hash: 3, index: 5 });
    assert_eq!(r2, TyRef { hash: 3, index: 6 });
    assert_eq!(t.entries[5], PackTy::OpaqueStruct { size: 16, align: 8 });
    assert_eq!(t.entries[5], t.entries[6]);
}

#[test]
fn one_slot_constant_and_return() {
    let mut types = fresh_table(7);
    let func = IrFunction {
        value_types: vec![MachineType::I64],
        stack_slot_sizes: vec![16],
        blocks: vec![IrBlock {
            params: vec![],
            insts: vec![
                inst(0, InstData::IntConst { result: 0, imm: 5 }, MachineType::I64),
                ret_inst(1),
            ],
        }],
    };
    let extra = ExtraInfo::default();
    let body = encode_sir(&mut types, "sym", &func, &extra).unwrap();
    assert_eq!(body.symbol_name, "sym");
    assert_eq!(body.flags, 0);
    assert_eq!(body.trace_inputs_local, None);
    // local 0 is the return slot, local 1 the stack slot, local 2 the constant's value
    assert_eq!(body.local_decls.len(), 3);
    assert_eq!(
        body.local_decls[0],
        LocalDecl { ty: TyRef { hash: 7, index: 3 } }
    );
    assert_eq!(
        body.local_decls[1],
        LocalDecl { ty: TyRef { hash: 7, index: 5 } }
    );
    assert_eq!(
        body.local_decls[2],
        LocalDecl { ty: TyRef { hash: 7, index: 3 } }
    );
    assert_eq!(types.entries.len(), 6);
    assert_eq!(types.entries[5], PackTy::OpaqueStruct { size: 16, align: 8 });
    assert_eq!(body.blocks.len(), 1);
    let b0 = &body.blocks[0];
    assert_eq!(b0.stmts.len(), 2);
    assert_eq!(
        b0.stmts[0],
        Statement::Assign(
            Place { local: 2 },
            Rvalue::Use(Operand::Constant(Constant::UInt(UIntConst::U64(5))))
        )
    );
    assert_eq!(
        b0.stmts[1],
        Statement::Assign(
            Place { local: 0 },
            Rvalue::Use(Operand::Constant(Constant::UInt(UIntConst::U64(0))))
        )
    );
    assert_eq!(b0.term, Terminator::Return);
}

#[test]
fn jump_eliminates_block_parameters_with_copies() {
    let mut types = fresh_table(1);
    let func = IrFunction {
        value_types: vec![
            MachineType::I64,
            MachineType::I64,
            MachineType::I64,
            MachineType::I64,
        ],
        stack_slot_sizes: vec![],
        blocks: vec![
            IrBlock {
                params: vec![],
                insts: vec![inst(
                    0,
                    InstData::Jump { destination: 1, args: vec![0, 1] },
                    MachineType::I64,
                )],
            },
            IrBlock {
                params: vec![2, 3],
                insts: vec![ret_inst(1)],
            },
        ],
    };
    let extra = ExtraInfo::default();
    let body = encode_sir(&mut types, "jumper", &func, &extra).unwrap();
    assert_eq!(body.blocks.len(), 2);
    let b0 = &body.blocks[0];
    // exactly two assignments (parameter := argument), in parameter order
    assert_eq!(b0.stmts.len(), 2);
    assert_eq!(
        b0.stmts[0],
        Statement::Assign(
            Place { local: 1 },
            Rvalue::Use(Operand::Place(Place { local: 2 }))
        )
    );
    assert_eq!(
        b0.stmts[1],
        Statement::Assign(
            Place { local: 3 },
            Rvalue::Use(Operand::Place(Place { local: 4 }))
        )
    );
    assert_eq!(b0.term, Terminator::Goto { target: 1 });
    // the destination block is finalized too
    assert_eq!(body.blocks[1].term, Terminator::Return);
}

#[test]
fn unsupported_comparator_degrades_to_placeholder_operator() {
    let mut types = fresh_table(1);
    let func = IrFunction {
        value_types: vec![MachineType::I64, MachineType::I64, MachineType::B1],
        stack_slot_sizes: vec![],
        blocks: vec![IrBlock {
            params: vec![],
            insts: vec![
                inst(
                    0,
                    InstData::IntCompare {
                        result: 2,
                        cond: IntCondition::SignedGreaterThan,
                        lhs: 0,
                        rhs: 1,
                    },
                    MachineType::B1,
                ),
                ret_inst(1),
            ],
        }],
    };
    let extra = ExtraInfo::default();
    let body = encode_sir(&mut types, "cmp", &func, &extra).unwrap();
    let b0 = &body.blocks[0];
    assert_eq!(
        b0.stmts[0],
        Statement::Assign(
            Place { local: 1 },
            Rvalue::BinaryOp(
                PackBinOp::BitXor,
                Operand::Place(Place { local: 2 }),
                Operand::Place(Place { local: 3 })
            )
        )
    );
}

#[test]
fn true_comparators_keep_their_semantics() {
    let mut types = fresh_table(1);
    let func = IrFunction {
        value_types: vec![
            MachineType::I64,
            MachineType::I64,
            MachineType::B1,
            MachineType::B1,
        ],
        stack_slot_sizes: vec![],
        blocks: vec![IrBlock {
            params: vec![],
            insts: vec![
                inst(
                    0,
                    InstData::IntCompare {
                        result: 2,
                        cond: IntCondition::Equal,
                        lhs: 0,
                        rhs: 1,
                    },
                    MachineType::B1,
                ),
                inst(
                    1,
                    InstData::IntCompare {
                        result: 3,
                        cond: IntCondition::UnsignedLessThan,
                        lhs: 0,
                        rhs: 1,
                    },
                    MachineType::B1,
                ),
                ret_inst(2),
            ],
        }],
    };
    let extra = ExtraInfo::default();
    let body = encode_sir(&mut types, "cmp2", &func, &extra).unwrap();
    let b0 = &body.blocks[0];
    match &b0.stmts[0] {
        Statement::Assign(_, Rvalue::BinaryOp(op, _, _)) => assert_eq!(*op, PackBinOp::CmpEq),
        other => panic!("unexpected statement {:?}", other),
    }
    match &b0.stmts[1] {
        Statement::Assign(_, Rvalue::BinaryOp(op, _, _)) => assert_eq!(*op, PackBinOp::CmpLt),
        other => panic!("unexpected statement {:?}", other),
    }
}

#[test]
fn zero_argument_call_gets_continuation_and_placeholder_result() {
    let mut types = fresh_table(1);
    let func = IrFunction {
        value_types: vec![MachineType::I64],
        stack_slot_sizes: vec![],
        blocks: vec![IrBlock {
            params: vec![],
            insts: vec![
                inst(
                    0,
                    InstData::DirectCall { callee: 4, args: vec![], results: vec![0] },
                    MachineType::I64,
                ),
                ret_inst(1),
            ],
        }],
    };
    let extra = ExtraInfo {
        sw_trace_insts: vec![],
        func_names: vec![(4, String::from("callee_sym"))],
        trace_head: false,
        trace_tail: false,
    };
    let body = encode_sir(&mut types, "caller", &func, &extra).unwrap();
    assert_eq!(body.blocks.len(), 2);
    assert_eq!(
        body.blocks[0].term,
        Terminator::Call {
            operand: CallOperand::Sym(String::from("callee_sym")),
            args: vec![],
            destination: Some((Place { local: 1 }, 1)),
        }
    );
    let cont = &body.blocks[1];
    assert_eq!(
        cont.stmts[0],
        Statement::Assign(
            Place { local: 1 },
            Rvalue::Use(Operand::Constant(Constant::UInt(UIntConst::U64(0))))
        )
    );
    assert_eq!(cont.term, Terminator::Return);
}

#[test]
fn unresolvable_callee_becomes_unknown() {
    let mut types = fresh_table(1);
    let func = IrFunction {
        value_types: vec![],
        stack_slot_sizes: vec![],
        blocks: vec![IrBlock {
            params: vec![],
            insts: vec![
                inst(
                    0,
                    InstData::DirectCall { callee: 9, args: vec![], results: vec![] },
                    MachineType::I64,
                ),
                ret_inst(1),
            ],
        }],
    };
    let extra = ExtraInfo::default();
    let body = encode_sir(&mut types, "caller2", &func, &extra).unwrap();
    match &body.blocks[0].term {
        Terminator::Call { operand, .. } => assert_eq!(*operand, CallOperand::Unknown),
        other => panic!("unexpected terminator {:?}", other),
    }
}

#[test]
fn call_with_arguments_degrades() {
    let mut types = fresh_table(1);
    let func = IrFunction {
        value_types: vec![MachineType::I64],
        stack_slot_sizes: vec![],
        blocks: vec![IrBlock {
            params: vec![],
            insts: vec![
                IrInst {
                    ident: 0,
                    data: InstData::DirectCall { callee: 4, args: vec![0], results: vec![] },
                    ctrl_type: MachineType::I64,
                    desc: String::from("call fn4(v0)"),
                },
                ret_inst(1),
            ],
        }],
    };
    let extra = ExtraInfo::default();
    let body = encode_sir(&mut types, "caller3", &func, &extra).unwrap();
    assert_eq!(body.blocks.len(), 1);
    assert_eq!(
        body.blocks[0].stmts[0],
        Statement::Unimplemented(String::from("call fn4(v0)"))
    );
}

#[test]
fn zero_test_branch_becomes_switch_and_skips_the_rest() {
    let mut types = fresh_table(1);
    let func = IrFunction {
        value_types: vec![MachineType::I64],
        stack_slot_sizes: vec![],
        blocks: vec![IrBlock {
            params: vec![],
            insts: vec![
                inst(
                    0,
                    InstData::BranchIfZero { arg: 0, destination: 0 },
                    MachineType::I64,
                ),
                inst(1, InstData::Other, MachineType::I64),
            ],
        }],
    };
    let extra = ExtraInfo::default();
    let body = encode_sir(&mut types, "brz", &func, &extra).unwrap();
    let b0 = &body.blocks[0];
    // nothing after the branch is translated
    assert_eq!(b0.stmts.len(), 0);
    assert_eq!(
        b0.term,
        Terminator::SwitchInt {
            discr: Place { local: 1 },
            values: vec![0u128],
            targets: vec![0],
            otherwise: 0,
        }
    );
}

#[test]
fn widening_copies_become_plain_copies() {
    let mut types = fresh_table(1);
    let func = IrFunction {
        value_types: vec![MachineType::B1, MachineType::I8, MachineType::I64],
        stack_slot_sizes: vec![],
        blocks: vec![IrBlock {
            params: vec![],
            insts: vec![
                inst(0, InstData::BoolToInt { result: 1, arg: 0 }, MachineType::I8),
                inst(1, InstData::ZeroExtend { result: 2, arg: 1 }, MachineType::I64),
                ret_inst(2),
            ],
        }],
    };
    let extra = ExtraInfo::default();
    let body = encode_sir(&mut types, "widen", &func, &extra).unwrap();
    let b0 = &body.blocks[0];
    assert_eq!(
        b0.stmts[0],
        Statement::Assign(
            Place { local: 1 },
            Rvalue::Use(Operand::Place(Place { local: 2 }))
        )
    );
    assert_eq!(
        b0.stmts[1],
        Statement::Assign(
            Place { local: 3 },
            Rvalue::Use(Operand::Place(Place { local: 1 }))
        )
    );
}

#[test]
fn boolean_constant_is_assigned() {
    let mut types = fresh_table(1);
    let func = IrFunction {
        value_types: vec![MachineType::B1],
        stack_slot_sizes: vec![],
        blocks: vec![IrBlock {
            params: vec![],
            insts: vec![
                inst(0, InstData::BoolConst { result: 0, imm: true }, MachineType::B1),
                ret_inst(1),
            ],
        }],
    };
    let extra = ExtraInfo::default();
    let body = encode_sir(&mut types, "bconst", &func, &extra).unwrap();
    assert_eq!(
        body.blocks[0].stmts[0],
        Statement::Assign(
            Place { local: 1 },
            Rvalue::Use(Operand::Constant(Constant::Bool(true)))
        )
    );
}

#[test]
fn float_instruction_degrades_but_encoding_succeeds() {
    let mut types = fresh_table(1);
    let func = IrFunction {
        value_types: vec![MachineType::Float, MachineType::I8],
        stack_slot_sizes: vec![],
        blocks: vec![IrBlock {
            params: vec![],
            insts: vec![
                IrInst {
                    ident: 0,
                    data: InstData::BoolToInt { result: 1, arg: 0 },
                    ctrl_type: MachineType::I8,
                    desc: String::from("bint v1, v0"),
                },
                ret_inst(1),
            ],
        }],
    };
    let extra = ExtraInfo::default();
    let body = encode_sir(&mut types, "degrade", &func, &extra).unwrap();
    assert_eq!(
        body.blocks[0].stmts[0],
        Statement::Unimplemented(String::from("bint v1, v0"))
    );
}

#[test]
fn skip_listed_instrumentation_is_elided() {
    let mut types = fresh_table(1);
    let func = IrFunction {
        value_types: vec![],
        stack_slot_sizes: vec![],
        blocks: vec![IrBlock {
            params: vec![],
            insts: vec![inst(7, InstData::Other, MachineType::I64), ret_inst(8)],
        }],
    };
    let extra = ExtraInfo {
        sw_trace_insts: vec![7],
        func_names: vec![],
        trace_head: false,
        trace_tail: false,
    };
    let body = encode_sir(&mut types, "skipper", &func, &extra).unwrap();
    // only the return-slot placeholder remains
    assert_eq!(body.blocks[0].stmts.len(), 1);
    assert_eq!(body.blocks[0].term, Terminator::Return);
}

#[test]
fn trace_marks_set_the_flag_bits() {
    let mut types = fresh_table(1);
    let func = IrFunction {
        value_types: vec![],
        stack_slot_sizes: vec![],
        blocks: vec![IrBlock { params: vec![], insts: vec![ret_inst(0)] }],
    };
    let extra = ExtraInfo {
        sw_trace_insts: vec![],
        func_names: vec![],
        trace_head: true,
        trace_tail: true,
    };
    let body = encode_sir(&mut types, "marked", &func, &extra).unwrap();
    assert_eq!(
        body.flags,
        yksir::pack::FLAG_TRACE_HEAD | yksir::pack::FLAG_TRACE_TAIL
    );
    let extra2 = ExtraInfo {
        sw_trace_insts: vec![],
        func_names: vec![],
        trace_head: true,
        trace_tail: false,
    };
    let body2 = encode_sir(&mut types, "marked2", &func, &extra2).unwrap();
    assert_eq!(body2.flags, yksir::pack::FLAG_TRACE_HEAD);
}

#[test]
fn empty_function_still_has_the_return_slot() {
    let mut types = fresh_table(2);
    let func = IrFunction {
        value_types: vec![],
        stack_slot_sizes: vec![],
        blocks: vec![],
    };
    let extra = ExtraInfo::default();
    let body = encode_sir(&mut types, "empty", &func, &extra).unwrap();
    assert_eq!(body.local_decls.len(), 1);
    assert_eq!(
        body.local_decls[0],
        LocalDecl { ty: TyRef { hash: 2, index: 3 } }
    );
    assert_eq!(body.blocks.len(), 0);
}

#[test]
fn unmappable_value_type_aborts_encoding() {
    let mut types = fresh_table(1);
    let func = IrFunction {
        value_types: vec![MachineType::Other, MachineType::I64, MachineType::B1],
        stack_slot_sizes: vec![],
        blocks: vec![IrBlock {
            params: vec![],
            insts: vec![
                inst(
                    0,
                    InstData::IntCompare {
                        result: 2,
                        cond: IntCondition::Equal,
                        lhs: 0,
                        rhs: 1,
                    },
                    MachineType::B1,
                ),
                ret_inst(1),
            ],
        }],
    };
    let extra = ExtraInfo::default();
    assert_eq!(
        encode_sir(&mut types, "bad_local", &func, &extra),
        Err(EncodeError::UnsupportedLocalType)
    );
}

#[test]
fn double_width_constant_aborts_encoding() {
    let mut types = fresh_table(1);
    let func = IrFunction {
        value_types: vec![MachineType::I128],
        stack_slot_sizes: vec![],
        blocks: vec![IrBlock {
            params: vec![],
            insts: vec![
                inst(0, InstData::IntConst { result: 0, imm: 1 }, MachineType::I128),
                ret_inst(1),
            ],
        }],
    };
    let extra = ExtraInfo::default();
    assert_eq!(
        encode_sir(&mut types, "bad_const", &func, &extra),
        Err(EncodeError::UnsupportedConstantType)
    );
}

#[test]
fn statement_after_terminator_needs_an_open_block() {
    let mut types = fresh_table(1);
    let func = IrFunction {
        value_types: vec![],
        stack_slot_sizes: vec![],
        blocks: vec![IrBlock {
            params: vec![],
            insts: vec![ret_inst(0), inst(1, InstData::Other, MachineType::I64)],
        }],
    };
    let extra = ExtraInfo::default();
    assert_eq!(
        encode_sir(&mut types, "late_stmt", &func, &extra),
        Err(EncodeError::NoOpenBlock)
    );
}

#[test]
fn unterminated_block_is_left_open_and_rejected() {
    let mut types = fresh_table(1);
    let func = IrFunction {
        value_types: vec![],
        stack_slot_sizes: vec![],
        blocks: vec![IrBlock { params: vec![], insts: vec![] }],
    };
    let extra = ExtraInfo::default();
    assert_eq!(
        encode_sir(&mut types, "open_block", &func, &extra),
        Err(EncodeError::BlockLeftOpen)
    );
}

#[test]
fn unmapped_terminator_degrades_and_ends_the_block() {
    let mut types = fresh_table(1);
    let func = IrFunction {
        value_types: vec![],
        stack_slot_sizes: vec![],
        blocks: vec![IrBlock {
            params: vec![],
            insts: vec![IrInst {
                ident: 0,
                data: InstData::OtherTerminator,
                ctrl_type: MachineType::I64,
                desc: String::from("trapz v0"),
            }],
        }],
    };
    let extra = ExtraInfo::default();
    let body = encode_sir(&mut types, "trap", &func, &extra).unwrap();
    assert_eq!(
        body.blocks[0].term,
        Terminator::Unimplemented(String::from("trapz v0"))
    );
}

#[test]
fn referencing_a_value_twice_reuses_its_local() {
    let types = fresh_table(1);
    let mut b = SirBuilder {
        body: Body {
            symbol_name: String::from("x"),
            flags: 0,
            trace_inputs_local: None,
            local_decls: vec![],
            blocks: vec![],
        },
        current_block: None,
        block_map: vec![],
        value_map: vec![0, 0],
    };
    let l1 = b.local_for_value(&types, 0, MachineType::I64).unwrap();
    let decls = b.body.local_decls.len();
    let l2 = b.local_for_value(&types, 0, MachineType::I32).unwrap();
    assert_eq!(l1, l2);
    assert_eq!(b.body.local_decls.len(), decls);
    let l3 = b.local_for_value(&types, 1, MachineType::I32).unwrap();
    assert_ne!(l1, l3);
}

#[test]
fn builder_opens_fills_and_finalizes_blocks() {
    let mut b = SirBuilder {
        body: Body {
            symbol_name: String::from("drive"),
            flags: 0,
            trace_inputs_local: None,
            local_decls: vec![],
            blocks: vec![],
        },
        current_block: None,
        block_map: vec![],
        value_map: vec![],
    };
    let b0 = b.create_block();
    let b1 = b.create_block();
    assert_eq!((b0, b1), (0, 1));
    b.block_map.push(b0 + 1);
    b.block_map.push(b1 + 1);
    assert_eq!(b.bb_for_block(1), 1);
    b.switch_to_clif_block(0);
    b.add_stmt(Statement::Unimplemented(String::from("nop")));
    b.terminate_block(Terminator::Goto { target: 1 });
    b.switch_to_block(1);
    b.terminate_block(Terminator::Return);
    let body = b.finalize();
    assert_eq!(body.blocks[0].stmts.len(), 1);
    assert_eq!(body.blocks[0].term, Terminator::Goto { target: 1 });
    assert_eq!(body.blocks[1].term, Terminator::Return);
}

#[test]
fn default_context_is_empty() {
    let extra = ExtraInfo::default();
    assert!(extra.sw_trace_insts.is_empty());
    assert!(extra.func_names.is_empty());
    assert!(!extra.trace_head);
    assert!(!extra.trace_tail);
}

#[test]
fn stack_slot_locals_precede_value_locals() {
    let mut types = fresh_table(5);
    let func = IrFunction {
        value_types: vec![MachineType::I32],
        stack_slot_sizes: vec![8, 24],
        blocks: vec![IrBlock {
            params: vec![],
            insts: vec![
                inst(0, InstData::IntConst { result: 0, imm: 1 }, MachineType::I32),
                ret_inst(1),
            ],
        }],
    };
    let extra = ExtraInfo::default();
    let body = encode_sir(&mut types, "slots", &func, &extra).unwrap();
    assert_eq!(body.local_decls.len(), 4);
    // return slot, then both stack slots in declaration order, then the value
    assert_eq!(body.local_decls[0].ty, TyRef { hash: 5, index: 3 });
    assert_eq!(body.local_decls[1].ty, TyRef { hash: 5, index: 5 });
    assert_eq!(body.local_decls[2].ty, TyRef { hash: 5, index: 6 });
    assert_eq!(body.local_decls[3].ty, TyRef { hash: 5, index: 2 });
    assert_eq!(types.entries[5], PackTy::OpaqueStruct { size: 8, align: 8 });
    assert_eq!(types.entries[6], PackTy::OpaqueStruct { size: 24, align: 8 });
    // every block is finalized
    for blk in &body.blocks {
        assert_ne!(blk.term, Terminator::Unreachable);
    }
}

#[test]
fn integer_constants_truncate_to_their_width() {
    let mut types = fresh_table(1);
    let func = IrFunction {
        value_types: vec![MachineType::I8, MachineType::I16, MachineType::I32],
        stack_slot_sizes: vec![],
        blocks: vec![IrBlock {
            params: vec![],
            insts: vec![
                inst(0, InstData::IntConst { result: 0, imm: -1 }, MachineType::I8),
                inst(1, InstData::IntConst { result: 1, imm: 0x1_0005 }, MachineType::I16),
                inst(2, InstData::IntConst { result: 2, imm: 12 }, MachineType::I32),
                ret_inst(3),
            ],
        }],
    };
    let extra = ExtraInfo::default();
    let body = encode_sir(&mut types, "trunc", &func, &extra).unwrap();
    let got: Vec<&Statement> = body.blocks[0].stmts.iter().collect();
    assert_eq!(
        *got[0],
        Statement::Assign(
            Place { local: 1 },
            Rvalue::Use(Operand::Constant(Constant::UInt(UIntConst::U8(255))))
        )
    );
    assert_eq!(
        *got[1],
        Statement::Assign(
            Place { local: 2 },
            Rvalue::Use(Operand::Constant(Constant::UInt(UIntConst::U16(5))))
        )
    );
    assert_eq!(
        *got[2],
        Statement::Assign(
            Place { local: 3 },
            Rvalue::Use(Operand::Constant(Constant::UInt(UIntConst::U32(12))))
        )
    );
}

#[test]
fn type_table_is_threaded_through_a_compilation_unit() {
    let mut types = fresh_table(11);
    let func = IrFunction {
        value_types: vec![],
        stack_slot_sizes: vec![32],
        blocks: vec![IrBlock { params: vec![], insts: vec![ret_inst(0)] }],
    };
    let extra = ExtraInfo::default();
    let first = encode_sir(&mut types, "first", &func, &extra).unwrap();
    let second = encode_sir(&mut types, "second", &func, &extra).unwrap();
    // the table grows append-only across functions; each body references its
    // own slot entry
    assert_eq!(types.entries.len(), 7);
    assert_eq!(first.local_decls[1].ty, TyRef { hash: 11, index: 5 });
    assert_eq!(second.local_decls[1].ty, TyRef { hash: 11, index: 6 });
    assert_eq!(types.entries[5], types.entries[6]);
}

#[test]
fn nop_emits_nothing() {
    let mut types = fresh_table(1);
    let func = IrFunction {
        value_types: vec![],
        stack_slot_sizes: vec![],
        blocks: vec![IrBlock {
            params: vec![],
            insts: vec![inst(0, InstData::Nop, MachineType::I64), ret_inst(1)],
        }],
    };
    let extra = ExtraInfo::default();
    let body = encode_sir(&mut types, "noop", &func, &extra).unwrap();
    // only the return-slot placeholder remains before the terminator
    assert_eq!(body.blocks[0].stmts.len(), 1);
}

#[test]
fn jump_without_parameters_is_a_bare_goto() {
    let mut types = fresh_table(1);
    let func = IrFunction {
        value_types: vec![],
        stack_slot_sizes: vec![],
        blocks: vec![
            IrBlock {
                params: vec![],
                insts: vec![inst(
                    0,
                    InstData::Jump { destination: 1, args: vec![] },
                    MachineType::I64,
                )],
            },
            IrBlock { params: vec![], insts: vec![ret_inst(1)] },
        ],
    };
    let extra = ExtraInfo::default();
    let body = encode_sir(&mut types, "goto", &func, &extra).unwrap();
    assert_eq!(body.blocks[0].stmts.len(), 0);
    assert_eq!(body.blocks[0].term, Terminator::Goto { target: 1 });
    assert_eq!(body.local_decls.len(), 1);
}
