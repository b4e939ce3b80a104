use node_jit::emit::emit;
use node_jit::frontend::{parse_program, BinOp, CompileError, Expr, Stmt};
use node_jit::graph::{IndexGraph, NodeDesc};
use node_jit::ir::{build_module, CalleeRef, FnSig, Inst, IrModule, Term};

fn desc(name: &str, ins: &[&str], outs: &[&str]) -> NodeDesc {
    NodeDesc {
        name: name.to_string(),
        inputs: ins.iter().map(|s| s.to_string()).collect(),
        outputs: outs.iter().map(|s| s.to_string()).collect(),
    }
}

fn host_sigs() -> Vec<FnSig> {
    vec![
        FnSig { name: b"add".to_vec(), n_params: 2, n_rets: 1 },
        FnSig { name: b"mul".to_vec(), n_params: 2, n_rets: 1 },
    ]
}

fn host_call(idx: usize, args: &[f64]) -> Vec<f64> {
    match idx {
        0 => vec![args[0] + args[1]],
        1 => vec![args[0] * args[1]],
        _ => panic!("no such host symbol"),
    }
}

fn run_func(m: &IrModule, fi: usize, args: &[f64]) -> Vec<f64> {
    let f = &m.funcs[fi];
    let mut vals = vec![0.0f64; f.n_vals];
    let mut vars = vec![0.0f64; f.n_vars];
    for (i, a) in args.iter().enumerate() {
        vars[i] = *a;
    }
    let mut blk = 0usize;
    loop {
        let b = &f.blocks[blk];
        for inst in b.insts.iter() {
            match inst {
                Inst::Const { dst, lit } => {
                    let text = std::str::from_utf8(lit).unwrap();
                    vals[*dst] = text.parse::<f64>().unwrap();
                }
                Inst::Bin { dst, op, a, b: b2 } => {
                    let x = vals[*a];
                    let y = vals[*b2];
                    vals[*dst] = match op {
                        BinOp::Add => x + y,
                        BinOp::Sub => x - y,
                        BinOp::Mul => x * y,
                        BinOp::Div => x / y,
                        BinOp::Eq => (x == y) as i32 as f64,
                        BinOp::Ne => (x != y) as i32 as f64,
                        BinOp::Lt => (x < y) as i32 as f64,
                        BinOp::Le => (x <= y) as i32 as f64,
                        BinOp::Gt => (x > y) as i32 as f64,
                        BinOp::Ge => (x >= y) as i32 as f64,
                    };
                }
                Inst::Call { dsts, callee, args: cargs } => {
                    let argv: Vec<f64> = cargs.iter().map(|v| vals[*v]).collect();
                    let outs = match callee {
                        CalleeRef::Local(j) => run_func(m, *j, &argv),
                        CalleeRef::Host(h) => host_call(*h, &argv),
                    };
                    for (d, o) in dsts.iter().zip(outs.iter()) {
                        vals[*d] = *o;
                    }
                }
                Inst::UseVar { dst, var } => {
                    vals[*dst] = vars[*var];
                }
                Inst::DefVar { var, val } => {
                    vars[*var] = vals[*val];
                }
            }
        }
        match &b.term {
            Term::Jump { target } => blk = *target,
            Term::Branch { cond, then_blk, else_blk } => {
                blk = if vals[*cond] != 0.0 { *then_blk } else { *else_blk };
            }
            Term::Ret { vals: rv } => {
                return rv.iter().map(|v| vals[*v]).collect();
            }
        }
    }
}

fn run_named(m: &IrModule, name: &[u8], args: &[f64]) -> Vec<f64> {
    let fi = m.funcs.iter().position(|f| f.name.as_slice() == name).unwrap();
    run_func(m, fi, args)
}

#[test]
fn emission_is_deterministic_and_exact() {
    let mut g = IndexGraph::new();
    g.add_node(&desc("add", &["a", "b"], &["sum"])); // sockets 0,1 in; 2 out
    g.add_node(&desc("mul", &["x", "y"], &["product"])); // sockets 3,4 in; 5 out
    assert_eq!(g.connect(2, 3), Ok(()));
    let once = emit(&g).unwrap();
    let twice = emit(&g).unwrap();
    assert_eq!(once, twice);
    let expected = "fn graph(p0, p1, p4) -> (v5) {\n    v2 = add(p0, p1);\n    v5 = mul(v2, p4);\n}\n";
    assert_eq!(String::from_utf8(once).unwrap(), expected);
}

#[test]
fn round_trip_graph_to_ir_matches_arithmetic() {
    let mut g = IndexGraph::new();
    g.add_node(&desc("add", &["a", "b"], &["sum"]));
    g.add_node(&desc("mul", &["x", "y"], &["product"]));
    assert_eq!(g.connect(2, 3), Ok(()));
    let src = emit(&g).unwrap();
    let prog = parse_program(&src).unwrap();
    assert_eq!(prog.funcs.len(), 1);
    assert_eq!(prog.funcs[0].name, b"graph".to_vec());
    assert_eq!(prog.funcs[0].params.len(), 3);
    let module = build_module(&prog, &host_sigs()).unwrap();
    // Free parameters in socket order: add.a, add.b, mul.y.
    let p0 = 3.0f64;
    let p1_const = 4.0f64;
    let p2 = 5.0f64;
    let out = run_named(&module, b"graph", &[p0, p1_const, p2]);
    assert_eq!(out, vec![(p0 + p1_const) * p2]);
}

#[test]
fn emitted_text_parses_after_disconnect_and_rewire() {
    let mut g = IndexGraph::new();
    g.add_node(&desc("add", &["a", "b"], &["sum"]));
    g.add_node(&desc("mul", &["x", "y"], &["product"]));
    assert_eq!(g.connect(2, 3), Ok(()));
    g.disconnect(3);
    assert_eq!(g.connect(2, 4), Ok(()));
    let src = emit(&g).unwrap();
    let expected = "fn graph(p0, p1, p3) -> (v5) {\n    v2 = add(p0, p1);\n    v5 = mul(p3, v2);\n}\n";
    assert_eq!(String::from_utf8(src.clone()).unwrap(), expected);
    let prog = parse_program(&src).unwrap();
    let module = build_module(&prog, &host_sigs()).unwrap();
    let out = run_named(&module, b"graph", &[2.0, 3.0, 10.0]);
    assert_eq!(out, vec![10.0 * (2.0 + 3.0)]);
}

#[test]
fn parser_reports_position_of_fault() {
    let src = b"fn f(a) -> (r) {\n    r = a + ;\n}\n".to_vec();
    match parse_program(&src) {
        Err(CompileError::SyntaxError { line, col, .. }) => {
            assert_eq!(line, 2);
            assert_eq!(col, 13);
        }
        other => panic!("expected a syntax error, got {:?}", other),
    }
}

#[test]
fn lexer_rejects_stray_byte() {
    let src = b"fn f() -> (r) { r = 1 # 2; }".to_vec();
    match parse_program(&src) {
        Err(CompileError::SyntaxError { found, .. }) => {
            assert_eq!(found, vec![b'#']);
        }
        other => panic!("expected a syntax error, got {:?}", other),
    }
}

#[test]
fn parser_accepts_control_flow() {
    let src = b"fn f(a) -> (r) {\n    r = 0;\n    while a > 0 {\n        r = r + a;\n        a = a - 1;\n    }\n    if r == 6 {\n        r = r * 10;\n    } else {\n        r = 0 - 1;\n    }\n}\n"
        .to_vec();
    let prog = parse_program(&src).unwrap();
    assert_eq!(prog.funcs[0].body.len(), 3);
    match &prog.funcs[0].body[1] {
        Stmt::While { .. } => {}
        other => panic!("expected a loop, got {:?}", other),
    }
    let module = build_module(&prog, &host_sigs()).unwrap();
    // Sums 3+2+1 = 6, then the branch multiplies by 10.
    let out = run_named(&module, b"f", &[3.0]);
    assert_eq!(out, vec![60.0]);
    // The other branch.
    let out2 = run_named(&module, b"f", &[2.0]);
    assert_eq!(out2, vec![-1.0]);
}

#[test]
fn builder_rejects_unknown_identifier() {
    let src = b"fn f(a) -> (r) { r = a + missing; }".to_vec();
    let prog = parse_program(&src).unwrap();
    match build_module(&prog, &host_sigs()) {
        Err(CompileError::UnknownIdentifier { name }) => {
            assert_eq!(name, b"missing".to_vec());
        }
        other => panic!("expected an unknown identifier, got {:?}", other),
    }
}

#[test]
fn builder_rejects_arity_mismatch() {
    let src = b"fn f(a) -> (r) { r = add(a); }".to_vec();
    let prog = parse_program(&src).unwrap();
    match build_module(&prog, &host_sigs()) {
        Err(CompileError::TypeMismatch { callee, expected, found }) => {
            assert_eq!(callee, b"add".to_vec());
            assert_eq!(expected, 2);
            assert_eq!(found, 1);
        }
        other => panic!("expected an arity mismatch, got {:?}", other),
    }
}

#[test]
fn builder_rejects_undefined_function() {
    let src = b"fn f(a) -> (r) { r = nosuch(a); }".to_vec();
    let prog = parse_program(&src).unwrap();
    match build_module(&prog, &host_sigs()) {
        Err(CompileError::UndefinedFunction { name }) => {
            assert_eq!(name, b"nosuch".to_vec());
        }
        other => panic!("expected an undefined function, got {:?}", other),
    }
}

#[test]
fn module_functions_call_each_other() {
    let src = b"fn double(a) -> (r) { r = a * 2; }\nfn f(a) -> (r) { r = double(a) + 1; }\n"
        .to_vec();
    let prog = parse_program(&src).unwrap();
    let module = build_module(&prog, &host_sigs()).unwrap();
    let out = run_named(&module, b"f", &[21.0]);
    assert_eq!(out, vec![43.0]);
}

#[test]
fn multi_return_bindings_round_trip() {
    let src = b"fn two(a) -> (x, y) { x = a + 1; y = a - 1; }\nfn f(a) -> (r) { p, q = two(a); r = p * q; }\n"
        .to_vec();
    let prog = parse_program(&src).unwrap();
    let module = build_module(&prog, &host_sigs()).unwrap();
    let out = run_named(&module, b"f", &[5.0]);
    assert_eq!(out, vec![24.0]);
}

#[test]
fn expression_grammar_precedence() {
    let src = b"fn f(a, b) -> (r) { r = a + b * 2; }".to_vec();
    let prog = parse_program(&src).unwrap();
    match &prog.funcs[0].body[0] {
        Stmt::Assign { value: Expr::Bin { op, .. }, .. } => {
            assert!(matches!(op, BinOp::Add));
        }
        other => panic!("expected a sum at the top, got {:?}", other),
    }
    let module = build_module(&prog, &host_sigs()).unwrap();
    let out = run_named(&module, b"f", &[1.0, 3.0]);
    assert_eq!(out, vec![7.0]);
}
