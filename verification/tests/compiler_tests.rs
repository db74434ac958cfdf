//! Unit tests for register allocation, the constants pool, binding
//! resolution and compile errors.

use hissy::ast::{BinOp, Block, Expr, Positioned, Stat};
use hissy::chunk::{instr_byte, instr_from_byte, ChunkConstant, InstrType};
use hissy::{ChunkRegisters, Compiler, ErrorType, HissyError, Program, MAX_REGISTERS};

fn st(stat: Stat, line: u32) -> Positioned {
    Positioned { stat, line }
}

fn compile(block: Block) -> Result<Program, HissyError> {
    Compiler::new(true).compile_program(&block)
}

fn compile_err(block: Block) -> HissyError {
    match compile(block) {
        Err(e) => e,
        Ok(_) => panic!("expected a compile error"),
    }
}

#[test]
fn registers_allocate_in_order() {
    let mut r = ChunkRegisters::new();
    assert_eq!(r.new_reg(), Ok(0));
    assert_eq!(r.new_reg(), Ok(1));
    assert_eq!(r.new_reg(), Ok(2));
    assert_eq!(r.used, 3);
    assert_eq!(r.required, 3);
    r.free_reg(2);
    r.free_reg(1);
    assert_eq!(r.used, 1);
    // The watermark never decreases.
    assert_eq!(r.required, 3);
    assert_eq!(r.new_reg(), Ok(1));
    assert_eq!(r.required, 3);
}

#[test]
fn registers_range_is_contiguous() {
    let mut r = ChunkRegisters::new();
    assert_eq!(r.new_reg(), Ok(0));
    assert_eq!(r.new_reg_range(4), Ok(1));
    assert_eq!(r.used, 5);
    assert_eq!(r.required, 5);
    r.free_reg_range(1, 4);
    assert_eq!(r.used, 1);
}

#[test]
fn registers_overflow_is_an_error() {
    let mut r = ChunkRegisters::new();
    for i in 0..MAX_REGISTERS as u16 {
        assert_eq!(r.new_reg(), Ok(i as u8));
    }
    assert!(r.new_reg().is_err());
    assert!(r.new_reg_range(1).is_err());
    assert_eq!(r.used, 128);
}

#[test]
fn registers_temps_spare_locals_and_constants() {
    let mut r = ChunkRegisters::new();
    let l = r.new_reg().unwrap();
    r.make_local(l);
    let t = r.new_reg().unwrap();
    // A constant operand is not a register and is never freed.
    r.free_temp_reg(200);
    assert_eq!(r.used, 2);
    // A temporary on top is freed...
    r.free_temp_reg(t);
    assert_eq!(r.used, 1);
    // ...but a local is not.
    r.free_temp_reg(l);
    assert_eq!(r.used, 1);
    assert_eq!(r.local_cnt, 1);
}

#[test]
fn opcodes_round_trip() {
    for b in 0u8..=24 {
        let op = instr_from_byte(b).expect("opcode");
        assert_eq!(instr_byte(op), b);
    }
    assert!(instr_from_byte(25).is_none());
    assert_eq!(instr_byte(InstrType::Cpy), 0);
    assert_eq!(instr_byte(InstrType::Ret), 24);
}

#[test]
fn constants_are_deduplicated() {
    // Two textually distinct but equal literals share one pool slot.
    let block = vec![
        st(Stat::Log(Expr::Int(5)), 1),
        st(Stat::Log(Expr::Int(5)), 2),
        st(Stat::Log(Expr::Str(String::from("a"))), 3),
        st(Stat::Log(Expr::Str(String::from("a"))), 4),
        st(Stat::Log(Expr::Real(f64::NAN.to_bits())), 5),
        st(Stat::Log(Expr::Real(f64::NAN.to_bits())), 6),
    ];
    let p = compile(block).unwrap();
    let main = &p.chunks[0];
    // One Int, one Str, one Real: bit-identical NaNs share a slot.
    assert_eq!(main.constants.len(), 3);
    assert!(matches!(main.constants[0], ChunkConstant::Int(5)));
    match &main.constants[2] {
        ChunkConstant::Real(bits) => assert!(f64::from_bits(*bits).is_nan()),
        _ => panic!("unexpected constant variant"),
    }
}

#[test]
fn undefined_binding_is_an_error() {
    let block = vec![st(Stat::Log(Expr::Id(String::from("y"))), 7)];
    let e = compile_err(block);
    assert!(matches!(e.kind, ErrorType::Compilation));
    assert_eq!(e.message, "Referencing undefined binding 'y'");
    // The error carries the statement's source line.
    assert_eq!(e.line, 7);
}

#[test]
fn undefined_assignment_is_an_error() {
    let block = vec![st(Stat::Assign(String::from("z"), Expr::Int(1)), 3)];
    let e = compile_err(block);
    assert_eq!(e.message, "Referencing undefined binding 'z'");
    assert_eq!(e.line, 3);
}

#[test]
fn line_number_too_large_is_an_error() {
    let block = vec![st(Stat::Log(Expr::Int(1)), 70000)];
    let e = compile_err(block);
    assert_eq!(e.message, "Line number too large");
    assert_eq!(e.line, 0);
}

#[test]
fn too_many_registers_is_an_error() {
    let mut block = Vec::new();
    for i in 0..129 {
        block.push(st(Stat::Let(format!("v{}", i), Expr::Int(i)), 1));
    }
    let e = compile_err(block);
    assert_eq!(e.message, "Cannot compile: Too many registers required");
}

#[test]
fn too_many_constants_is_an_error() {
    let mut block = Vec::new();
    for i in 0..129 {
        block.push(st(Stat::Log(Expr::Int(1000 + i)), 1));
    }
    let e = compile_err(block);
    assert_eq!(e.message, "Too many constants in chunk");
}

#[test]
fn too_many_chunks_is_an_error() {
    // Chunk 0 is <main>; 256 function literals overflow the 8-bit id space.
    let mut block = Vec::new();
    for _ in 0..256 {
        block.push(st(Stat::ExprStat(Expr::Function(Vec::new(), Vec::new())), 1));
    }
    let e = compile_err(block);
    assert_eq!(e.message, "Too many chunks");
}

#[test]
fn jump_too_large_is_an_error() {
    // A conditional whose branch body emits more than 127 bytes cannot be
    // backpatched with a signed 8-bit displacement.
    let mut body = Vec::new();
    for _ in 0..70 {
        body.push(st(Stat::Log(Expr::Int(1)), 1));
    }
    let block = vec![st(
        Stat::Cond(vec![(hissy::ast::Cond::If(Expr::Bool(true)), body)]),
        1,
    )];
    let e = compile_err(block);
    assert_eq!(e.message, "Jump too large");
}

#[test]
fn literal_needs_no_instruction() {
    // `let x = 1` emits one whole Cpy from the pool into the local.
    let block = vec![st(Stat::Let(String::from("x"), Expr::Int(1)), 1)];
    let p = compile(block).unwrap();
    let main = &p.chunks[0];
    assert_eq!(main.code, vec![instr_byte(InstrType::Cpy), 128, 0]);
    assert_eq!(main.nb_registers, 1);
}

#[test]
fn binop_emits_operands_then_destination() {
    // `log 1 + 2`: Add k(1), k(2) -> r0; Log r0.
    let block = vec![st(
        Stat::Log(Expr::BinOp(
            BinOp::Plus,
            Box::new(Expr::Int(1)),
            Box::new(Expr::Int(2)),
        )),
        1,
    )];
    let p = compile(block).unwrap();
    let main = &p.chunks[0];
    assert_eq!(
        main.code,
        vec![
            instr_byte(InstrType::Add),
            128,
            129,
            0,
            instr_byte(InstrType::Log),
            0
        ]
    );
    assert_eq!(main.nb_registers, 1);
}

#[test]
fn upvalues_materialize_through_intermediate_chunks() {
    // let mk = fn(x) { return fn() { return fn() { return x } } }
    // The identifier x is referenced two function levels below its
    // defining local: both intermediate chunks must list it.
    let innermost = Expr::Function(
        Vec::new(),
        vec![st(Stat::Return(Expr::Id(String::from("x"))), 1)],
    );
    let middle = Expr::Function(Vec::new(), vec![st(Stat::Return(innermost), 1)]);
    let outer = Expr::Function(vec![String::from("x")], vec![st(Stat::Return(middle), 1)]);
    let block = vec![st(Stat::Let(String::from("mk"), outer), 1)];
    let p = compile(block).unwrap();
    assert_eq!(p.chunks.len(), 4);
    // <main> has no upvalues.
    assert_eq!(p.chunks[0].upvalues, Vec::<u8>::new());
    // fn(x): x is its local 0, captured by nothing at this level.
    assert_eq!(p.chunks[1].upvalues, Vec::<u8>::new());
    // middle fn: captures parent local register 0.
    assert_eq!(p.chunks[2].upvalues, vec![0]);
    // innermost fn: captures the middle chunk's upvalue slot 0, encoded
    // offset by MAX_REGISTERS.
    assert_eq!(p.chunks[3].upvalues, vec![128]);
    assert_eq!(p.chunks[2].debug_info.upvalue_names, vec![String::from("x")]);
    assert_eq!(p.chunks[3].debug_info.upvalue_names, vec![String::from("x")]);
}

fn two_locals_block() -> Block {
    vec![
        st(Stat::Let(String::from("a"), Expr::Int(1)), 1),
        st(Stat::Let(String::from("b"), Expr::Int(2)), 1),
    ]
}

#[test]
fn block_locals_are_freed_on_exit() {
    // Locals of an inner block die with it: both loop bodies can use the
    // same registers, and main's watermark stays small.
    let block = vec![
        st(Stat::While(Expr::Bool(false), two_locals_block()), 1),
        st(Stat::While(Expr::Bool(false), two_locals_block()), 2),
        st(Stat::Let(String::from("c"), Expr::Int(3)), 3),
    ];
    let p = compile(block).unwrap();
    assert_eq!(p.chunks[0].nb_registers, 2);
}

fn instr_size(op: InstrType) -> usize {
    match op {
        InstrType::Jmp | InstrType::Log | InstrType::Ret => 2,
        InstrType::Cpy
        | InstrType::GetUp
        | InstrType::SetUp
        | InstrType::Not
        | InstrType::Neg
        | InstrType::Func
        | InstrType::Jif => 3,
        InstrType::Call => 4,
        _ => 4,  // binary operators
    }
}

#[test]
fn jumps_land_on_instruction_boundaries() {
    // Walk the emitted code of a program with both forward (conditional)
    // and backward (loop) jumps: every displacement, added to the offset
    // of its displacement byte, must land on an instruction start or at
    // the end of code.
    let loop_body = vec![
        st(
            Stat::Assign(
                String::from("i"),
                Expr::BinOp(
                    BinOp::Plus,
                    Box::new(Expr::Id(String::from("i"))),
                    Box::new(Expr::Int(1)),
                ),
            ),
            2,
        ),
        st(
            Stat::Cond(vec![
                (
                    hissy::ast::Cond::If(Expr::BinOp(
                        BinOp::Equal,
                        Box::new(Expr::Id(String::from("i"))),
                        Box::new(Expr::Int(2)),
                    )),
                    vec![st(Stat::Log(Expr::Id(String::from("i"))), 3)],
                ),
                (hissy::ast::Cond::Else, vec![st(Stat::Log(Expr::Int(0)), 4)]),
            ]),
            3,
        ),
    ];
    let block = vec![
        st(Stat::Let(String::from("i"), Expr::Int(0)), 1),
        st(
            Stat::While(
                Expr::BinOp(
                    BinOp::Less,
                    Box::new(Expr::Id(String::from("i"))),
                    Box::new(Expr::Int(3)),
                ),
                loop_body,
            ),
            2,
        ),
    ];
    let p = compile(block).unwrap();
    for chunk in &p.chunks {
        let code = &chunk.code;
        let mut starts = Vec::new();
        let mut jump_sites = Vec::new();
        let mut pc = 0usize;
        while pc < code.len() {
            starts.push(pc);
            let op = instr_from_byte(code[pc]).expect("valid opcode");
            if matches!(op, InstrType::Jmp | InstrType::Jif) {
                jump_sites.push(pc + 1);
            }
            pc += instr_size(op);
        }
        assert_eq!(pc, code.len(), "whole instructions only");
        assert!(!jump_sites.is_empty());
        for site in jump_sites {
            let target = (site as isize + code[site] as i8 as isize) as usize;
            assert!(
                target == code.len() || starts.contains(&target),
                "jump target off an instruction boundary"
            );
        }
    }
}
