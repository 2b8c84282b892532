use std::collections::HashMap;

use mini_compiler::{IRGenerator, IROp, RegAllocError, IR, REGISTER_COUNT};

fn ir(op: IROp, lhs: Option<usize>, rhs: Option<usize>) -> IR {
    IR::new(op, lhs, rhs)
}

/// `((a*b)+(c*d))*((e*f)+(g*h))` stored into a fresh slot; with `kills`, the
/// right operand of each product is killed right after the product.
fn products_ir(kills: bool) -> Vec<IR> {
    let mut v = vec![ir(IROp::BpOffset, Some(100), Some(72))];
    let load = |v: &mut Vec<IR>, r: usize, off: usize| {
        v.push(ir(IROp::BpOffset, Some(r), Some(off)));
        v.push(ir(IROp::Load, Some(r), Some(r)));
    };
    let mut product = |v: &mut Vec<IR>, a: usize, b: usize| {
        load(v, a, 8 * (a + 1));
        load(v, b, 8 * (b + 1));
        v.push(ir(IROp::Mul, Some(a), Some(b)));
        if kills {
            v.push(ir(IROp::Kill, Some(b), None));
        }
    };
    product(&mut v, 0, 1);
    product(&mut v, 2, 3);
    v.push(ir(IROp::Add, Some(0), Some(2)));
    product(&mut v, 4, 5);
    product(&mut v, 6, 7);
    v.push(ir(IROp::Add, Some(4), Some(6)));
    v.push(ir(IROp::Mul, Some(0), Some(4)));
    v.push(ir(IROp::Store, Some(100), Some(0)));
    v
}

#[test]
fn reg_alloc_test_assignment() {
    // The IR stream for "int a = 3; int b = 2; int c = a * b; return c;",
    // with a fresh virtual register for each value.
    let mut ir_generator = IRGenerator::new(vec![
        ir(IROp::BpOffset, Some(0), Some(8)),
        ir(IROp::Imm, Some(1), Some(3)),
        ir(IROp::Store, Some(0), Some(1)),
        ir(IROp::Kill, Some(0), None),
        ir(IROp::Kill, Some(1), None),
        ir(IROp::BpOffset, Some(2), Some(16)),
        ir(IROp::Imm, Some(3), Some(2)),
        ir(IROp::Store, Some(2), Some(3)),
        ir(IROp::Kill, Some(2), None),
        ir(IROp::Kill, Some(3), None),
        ir(IROp::BpOffset, Some(4), Some(24)),
        ir(IROp::BpOffset, Some(5), Some(8)),
        ir(IROp::Load, Some(5), Some(5)),
        ir(IROp::BpOffset, Some(6), Some(16)),
        ir(IROp::Load, Some(6), Some(6)),
        ir(IROp::Mul, Some(5), Some(6)),
        ir(IROp::Kill, Some(6), None),
        ir(IROp::Store, Some(4), Some(5)),
        ir(IROp::Kill, Some(4), None),
        ir(IROp::Kill, Some(5), None),
        ir(IROp::BpOffset, Some(7), Some(24)),
        ir(IROp::Load, Some(7), Some(7)),
        ir(IROp::Return, Some(7), None),
    ]);
    assert_eq!(ir_generator.reg_alloc(), Ok(()));

    let ir_vec = vec![
        IR::new(IROp::BpOffset, Some(0), Some(8)),
        IR::new(IROp::Imm, Some(1), Some(3)),
        IR::new(IROp::Store, Some(0), Some(1)),
        IR::new(IROp::Kill, Some(0), None),
        IR::new(IROp::Kill, Some(1), None),
        IR::new(IROp::BpOffset, Some(0), Some(16)),
        IR::new(IROp::Imm, Some(1), Some(2)),
        IR::new(IROp::Store, Some(0), Some(1)),
        IR::new(IROp::Kill, Some(0), None),
        IR::new(IROp::Kill, Some(1), None),
        IR::new(IROp::BpOffset, Some(0), Some(24)),
        IR::new(IROp::BpOffset, Some(1), Some(8)),
        IR::new(IROp::Load, Some(1), Some(1)),
        IR::new(IROp::BpOffset, Some(2), Some(16)),
        IR::new(IROp::Load, Some(2), Some(2)),
        IR::new(IROp::Mul, Some(1), Some(2)),
        IR::new(IROp::Kill, Some(2), None),
        IR::new(IROp::Store, Some(0), Some(1)),
        IR::new(IROp::Kill, Some(0), None),
        IR::new(IROp::Kill, Some(1), None),
        IR::new(IROp::BpOffset, Some(0), Some(24)),
        IR::new(IROp::Load, Some(0), Some(0)),
        IR::new(IROp::Return, Some(0), None),
    ];
    assert_eq!(ir_generator.ir_vec, ir_vec)
}

#[test]
fn sticky_binding_survives_other_allocations() {
    let mut g = IRGenerator::new(vec![
        ir(IROp::Imm, Some(40), Some(1)),
        ir(IROp::Imm, Some(41), Some(2)),
        ir(IROp::Add, Some(40), Some(41)),
        ir(IROp::Kill, Some(41), None),
        ir(IROp::Return, Some(40), None),
        ir(IROp::Kill, Some(40), None),
    ]);
    assert_eq!(g.reg_alloc(), Ok(()));
    let regs: Vec<Option<usize>> = g.ir_vec.iter().map(|i| i.lhs).collect();
    assert_eq!(regs, vec![Some(0), Some(1), Some(0), Some(1), Some(0), Some(0)]);
    assert_eq!(g.ir_vec[2].rhs, Some(1));
}

#[test]
fn killed_register_is_reused() {
    let mut g = IRGenerator::new(vec![
        ir(IROp::Imm, Some(10), Some(1)),
        ir(IROp::Imm, Some(11), Some(2)),
        ir(IROp::Kill, Some(10), None),
        ir(IROp::Imm, Some(12), Some(3)),
        ir(IROp::Imm, Some(13), Some(4)),
    ]);
    assert_eq!(g.reg_alloc(), Ok(()));
    let regs: Vec<Option<usize>> = g.ir_vec.iter().map(|i| i.lhs).collect();
    assert_eq!(regs, vec![Some(0), Some(1), Some(0), Some(0), Some(2)]);
}

#[test]
fn pass_through_instructions_are_unchanged() {
    let mut g = IRGenerator::new(vec![
        ir(IROp::Label, Some(7), None),
        ir(IROp::Cond, Some(9), Some(5)),
        ir(IROp::Jmp, Some(7), None),
    ]);
    assert_eq!(g.reg_alloc(), Ok(()));
    assert_eq!(
        g.ir_vec,
        vec![ir(IROp::Label, Some(7), None), ir(IROp::Cond, Some(0), Some(5)), ir(IROp::Jmp, Some(7), None)]
    );
}

#[test]
fn products_without_kills_exhaust_registers() {
    assert_eq!(REGISTER_COUNT, 8);
    let input = products_ir(false);
    let mut g = IRGenerator::new(input.clone());
    let mut bound = HashMap::new();
    bound.insert(100, 0);
    for v in 0..7 {
        bound.insert(v, v + 1);
    }
    assert_eq!(g.reg_alloc(), Err(RegAllocError::OutOfRegisters(7, bound)));
    assert_eq!(g.ir_vec, input);
}

#[test]
fn products_with_kills_fit() {
    let mut g = IRGenerator::new(products_ir(true));
    assert_eq!(g.reg_alloc(), Ok(()));
    assert!(g.ir_vec.iter().all(|i| i.lhs.map_or(true, |r| r < REGISTER_COUNT)));
}

#[test]
fn nine_live_registers_do_not_fit() {
    let input: Vec<IR> = (0..9).map(|v| ir(IROp::Imm, Some(v), Some(v))).collect();
    let mut g = IRGenerator::new(input);
    let bound: HashMap<usize, usize> = (0..8).map(|v| (v, v)).collect();
    assert_eq!(g.reg_alloc(), Err(RegAllocError::OutOfRegisters(8, bound)));
    let input: Vec<IR> = (0..8).map(|v| ir(IROp::Imm, Some(v), Some(v))).collect();
    let mut g = IRGenerator::new(input);
    assert_eq!(g.reg_alloc(), Ok(()));
}
