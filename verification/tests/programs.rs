//! End-to-end scenarios: programs are compiled and their bytecode is run by
//! a small reference interpreter, checking the sequence of `Log` outputs.

use hissy::ast::{BinOp, Block, Cond, Expr, Positioned, Stat, UnaOp};
use hissy::chunk::{instr_from_byte, ChunkConstant, InstrType};
use hissy::{Compiler, Program};

fn st(stat: Stat, line: u32) -> Positioned {
    Positioned { stat, line }
}

fn id(s: &str) -> Expr {
    Expr::Id(String::from(s))
}

fn binop(op: BinOp, a: Expr, b: Expr) -> Expr {
    Expr::BinOp(op, Box::new(a), Box::new(b))
}

#[derive(Clone, Debug, PartialEq)]
enum V {
    Nil,
    Bool(bool),
    Int(i32),
    Real(f64),
    Str(String),
    Func(u8, Vec<V>),
}

fn constant_value(c: &ChunkConstant) -> V {
    match c {
        ChunkConstant::Nil => V::Nil,
        ChunkConstant::Bool(b) => V::Bool(*b),
        ChunkConstant::Int(i) => V::Int(*i),
        ChunkConstant::Real(bits) => V::Real(f64::from_bits(*bits)),
        ChunkConstant::Str(s) => V::Str(s.clone()),
        ChunkConstant::Function(i) => V::Func(*i, Vec::new()),
    }
}

fn repr(v: &V) -> String {
    match v {
        V::Nil => String::from("nil"),
        V::Bool(b) => b.to_string(),
        V::Int(i) => i.to_string(),
        V::Real(r) => {
            if r.is_finite() {
                let mut buf = dtoa::Buffer::new();
                String::from(buf.format_finite(*r))
            } else {
                format!("{}", r)
            }
        },
        V::Str(s) => s.clone(),
        V::Func(i, _) => format!("<function {}>", i),
    }
}

fn as_int(v: &V) -> i32 {
    match v {
        V::Int(i) => *i,
        _ => panic!("expected an integer"),
    }
}

fn as_bool(v: &V) -> bool {
    match v {
        V::Bool(b) => *b,
        _ => panic!("expected a boolean"),
    }
}

/// Runs one chunk to completion; returns the value of its `Ret`, or nil.
fn run_chunk(p: &Program, idx: usize, args: Vec<V>, upvals: Vec<V>, out: &mut Vec<String>) -> V {
    let ch = &p.chunks[idx];
    let mut regs: Vec<V> = vec![V::Nil; 128];
    for (i, a) in args.into_iter().enumerate() {
        regs[i] = a;
    }
    let mut ups = upvals;
    let code = &ch.code;
    let fetch = |regs: &Vec<V>, op: u8| -> V {
        if op < 128 {
            regs[op as usize].clone()
        } else {
            constant_value(&ch.constants[(op - 128) as usize])
        }
    };
    let mut pc: usize = 0;
    while pc < code.len() {
        let op = instr_from_byte(code[pc]).expect("valid opcode");
        match op {
            InstrType::Cpy => {
                regs[code[pc + 2] as usize] = fetch(&regs, code[pc + 1]);
                pc += 3;
            },
            InstrType::GetUp => {
                regs[code[pc + 2] as usize] = ups[code[pc + 1] as usize].clone();
                pc += 3;
            },
            InstrType::SetUp => {
                ups[code[pc + 1] as usize] = fetch(&regs, code[pc + 2]);
                pc += 3;
            },
            InstrType::Not => {
                regs[code[pc + 2] as usize] = V::Bool(!as_bool(&fetch(&regs, code[pc + 1])));
                pc += 3;
            },
            InstrType::Neg => {
                regs[code[pc + 2] as usize] = V::Int(-as_int(&fetch(&regs, code[pc + 1])));
                pc += 3;
            },
            InstrType::Jmp => {
                let disp = code[pc + 1] as i8 as isize;
                pc = ((pc + 1) as isize + disp) as usize;
            },
            InstrType::Jif => {
                let cond = as_bool(&fetch(&regs, code[pc + 2]));
                if !cond {
                    let disp = code[pc + 1] as i8 as isize;
                    pc = ((pc + 1) as isize + disp) as usize;
                } else {
                    pc += 3;
                }
            },
            InstrType::Log => {
                out.push(repr(&fetch(&regs, code[pc + 1])));
                pc += 2;
            },
            InstrType::Ret => {
                return fetch(&regs, code[pc + 1]);
            },
            InstrType::Func => {
                let target = code[pc + 1] as usize;
                let mut captured = Vec::new();
                for enc in &p.chunks[target].upvalues {
                    if *enc < 128 {
                        captured.push(regs[*enc as usize].clone());
                    } else {
                        captured.push(ups[(*enc - 128) as usize].clone());
                    }
                }
                regs[code[pc + 2] as usize] = V::Func(target as u8, captured);
                pc += 3;
            },
            InstrType::Call => {
                let callee = fetch(&regs, code[pc + 1]);
                let start = code[pc + 2] as usize;
                let dest = code[pc + 3] as usize;
                match callee {
                    V::Func(target, captured) => {
                        let args: Vec<V> = regs[start..].to_vec();
                        let r = run_chunk(p, target as usize, args, captured, out);
                        regs[dest] = r;
                    },
                    _ => panic!("call of a non-function value"),
                }
                pc += 4;
            },
            _ => {
                // Binary arithmetic and comparisons.
                let a = fetch(&regs, code[pc + 1]);
                let b = fetch(&regs, code[pc + 2]);
                let r = match op {
                    InstrType::Add => V::Int(as_int(&a) + as_int(&b)),
                    InstrType::Sub => V::Int(as_int(&a) - as_int(&b)),
                    InstrType::Mul => V::Int(as_int(&a) * as_int(&b)),
                    InstrType::Div => V::Int(as_int(&a) / as_int(&b)),
                    InstrType::Mod => V::Int(as_int(&a) % as_int(&b)),
                    InstrType::Pow => V::Int(as_int(&a).pow(as_int(&b) as u32)),
                    InstrType::Leq => V::Bool(as_int(&a) <= as_int(&b)),
                    InstrType::Geq => V::Bool(as_int(&a) >= as_int(&b)),
                    InstrType::Lth => V::Bool(as_int(&a) < as_int(&b)),
                    InstrType::Gth => V::Bool(as_int(&a) > as_int(&b)),
                    InstrType::Eq => V::Bool(a == b),
                    InstrType::Neq => V::Bool(a != b),
                    InstrType::And => V::Bool(as_bool(&a) && as_bool(&b)),
                    InstrType::Or => V::Bool(as_bool(&a) || as_bool(&b)),
                    _ => unreachable!(),
                };
                regs[code[pc + 3] as usize] = r;
                pc += 4;
            },
        }
    }
    V::Nil
}

fn run(block: Block) -> Vec<String> {
    let p = Compiler::new(true).compile_program(&block).expect("program compiles");
    let mut out = Vec::new();
    run_chunk(&p, 0, Vec::new(), Vec::new(), &mut out);
    out
}

#[test]
fn scenario_addition() {
    // let x = 1 + 2 log x
    let block = vec![
        st(
            Stat::Let(
                String::from("x"),
                binop(BinOp::Plus, Expr::Int(1), Expr::Int(2)),
            ),
            1,
        ),
        st(Stat::Log(id("x")), 2),
    ];
    assert_eq!(run(block), vec!["3"]);
}

#[test]
fn scenario_conditional() {
    // let x = 2 if x > 1 { log "big" } else { log "small" }
    let block = vec![
        st(Stat::Let(String::from("x"), Expr::Int(2)), 1),
        st(
            Stat::Cond(vec![
                (
                    Cond::If(binop(BinOp::Greater, id("x"), Expr::Int(1))),
                    vec![st(Stat::Log(Expr::Str(String::from("big"))), 2)],
                ),
                (
                    Cond::Else,
                    vec![st(Stat::Log(Expr::Str(String::from("small"))), 2)],
                ),
            ]),
            2,
        ),
    ];
    assert_eq!(run(block), vec!["big"]);
}

#[test]
fn scenario_conditional_else_taken() {
    let block = vec![
        st(Stat::Let(String::from("x"), Expr::Int(0)), 1),
        st(
            Stat::Cond(vec![
                (
                    Cond::If(binop(BinOp::Greater, id("x"), Expr::Int(1))),
                    vec![st(Stat::Log(Expr::Str(String::from("big"))), 2)],
                ),
                (
                    Cond::Else,
                    vec![st(Stat::Log(Expr::Str(String::from("small"))), 2)],
                ),
            ]),
            2,
        ),
    ];
    assert_eq!(run(block), vec!["small"]);
}

#[test]
fn scenario_while_loop() {
    // let i = 0 while i < 3 { log i set i = i + 1 }
    let block = vec![
        st(Stat::Let(String::from("i"), Expr::Int(0)), 1),
        st(
            Stat::While(
                binop(BinOp::Less, id("i"), Expr::Int(3)),
                vec![
                    st(Stat::Log(id("i")), 2),
                    st(
                        Stat::Assign(
                            String::from("i"),
                            binop(BinOp::Plus, id("i"), Expr::Int(1)),
                        ),
                        3,
                    ),
                ],
            ),
            2,
        ),
    ];
    assert_eq!(run(block), vec!["0", "1", "2"]);
}

#[test]
fn scenario_closure_capture() {
    // let mk = fn(x) { return fn() { return x } } let f = mk(42) log f()
    let inner = Expr::Function(Vec::new(), vec![st(Stat::Return(id("x")), 1)]);
    let mk = Expr::Function(vec![String::from("x")], vec![st(Stat::Return(inner), 1)]);
    let block = vec![
        st(Stat::Let(String::from("mk"), mk), 1),
        st(
            Stat::Let(
                String::from("f"),
                Expr::Call(Box::new(id("mk")), vec![Expr::Int(42)]),
            ),
            2,
        ),
        st(Stat::Log(Expr::Call(Box::new(id("f")), Vec::new())), 3),
    ];
    assert_eq!(run(block), vec!["42"]);
}

#[test]
fn scenario_rebinding() {
    // let a = 1 let a = a + 10 log a
    let block = vec![
        st(Stat::Let(String::from("a"), Expr::Int(1)), 1),
        st(
            Stat::Let(
                String::from("a"),
                binop(BinOp::Plus, id("a"), Expr::Int(10)),
            ),
            2,
        ),
        st(Stat::Log(id("a")), 3),
    ];
    assert_eq!(run(block), vec!["11"]);
}

#[test]
fn scenario_real_round_trip() {
    // let s = "π = " log s log 3.141592653589793
    let block = vec![
        st(
            Stat::Let(String::from("s"), Expr::Str(String::from("\u{3c0} = "))),
            1,
        ),
        st(Stat::Log(id("s")), 2),
        st(Stat::Log(Expr::Real(3.141592653589793f64.to_bits())), 3),
    ];
    assert_eq!(run(block), vec!["\u{3c0} = ", "3.141592653589793"]);
}

#[test]
fn scenario_unary_and_logic() {
    // let x = -5 if !(x > 0) && true { log x }
    let neg = Expr::UnaOp(UnaOp::Minus, Box::new(Expr::Int(5)));
    let cond = binop(
        BinOp::And,
        Expr::UnaOp(
            UnaOp::Not,
            Box::new(binop(BinOp::Greater, id("x"), Expr::Int(0))),
        ),
        Expr::Bool(true),
    );
    let block = vec![
        st(Stat::Let(String::from("x"), neg), 1),
        st(
            Stat::Cond(vec![(Cond::If(cond), vec![st(Stat::Log(id("x")), 2)])]),
            2,
        ),
    ];
    assert_eq!(run(block), vec!["-5"]);
}

#[test]
fn scenario_set_through_upvalue() {
    // A nested function assigns to a captured variable; its own view of
    // the capture changes.
    // let f = fn(x) { set x = x + 1 return x } log f(41)
    let body = vec![
        st(
            Stat::Assign(String::from("x"), binop(BinOp::Plus, id("x"), Expr::Int(1))),
            1,
        ),
        st(Stat::Return(id("x")), 1),
    ];
    let f = Expr::Function(vec![String::from("x")], body);
    let block = vec![
        st(Stat::Let(String::from("f"), f), 1),
        st(
            Stat::Log(Expr::Call(Box::new(id("f")), vec![Expr::Int(41)])),
            2,
        ),
    ];
    assert_eq!(run(block), vec!["42"]);
}
