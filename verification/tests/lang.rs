use ccp::lang::{self, CompileError, Expected, Instr, Op, Reg, Type};
use ccp::serialize::{self, Msg};

#[test]
fn compile_simple_chain() {
    let (bin, sc) = lang::compile(b"(x (add 1 2 3))").expect("compile");
    assert_eq!(
        bin.0,
        vec![
            Instr {
                op: Op::Add,
                res: Reg::Tmp(0),
                left: Reg::Const(1),
                right: Reg::Const(2),
            },
            Instr { op: Op::Add, res: Reg::Tmp(1), left: Reg::Tmp(0), right: Reg::Const(3) },
            Instr {
                op: Op::Bind,
                res: Reg::Perm(0, Type::Num),
                left: Reg::Tmp(1),
                right: Reg::Const(0),
            },
        ],
    );
    assert_eq!(sc.get(b"x"), Some(Reg::Perm(0, Type::Num)));
}

#[test]
fn compile_scope_declaration_order() {
    let (_, sc) = lang::compile(b"(a 1) (b ack) (c (max a b))").expect("compile");
    assert_eq!(sc.get(b"a"), Some(Reg::Perm(0, Type::Num)));
    assert_eq!(sc.get(b"b"), Some(Reg::Perm(1, Type::Num)));
    assert_eq!(sc.get(b"c"), Some(Reg::Perm(2, Type::Num)));
    assert_eq!(sc.get(b"ack"), None);
    assert_eq!(sc.len(), 3);
}

#[test]
fn compile_self_reference_folds() {
    let (bin, sc) = lang::compile(b"(acked (add acked ack))").expect("compile");
    assert_eq!(sc.get(b"acked"), Some(Reg::Perm(0, Type::Num)));
    assert_eq!(
        bin.0,
        vec![
            Instr {
                op: Op::Add,
                res: Reg::Tmp(0),
                left: Reg::Perm(0, Type::Num),
                right: Reg::Implicit(0, Type::Num),
            },
            Instr {
                op: Op::Bind,
                res: Reg::Perm(0, Type::Num),
                left: Reg::Tmp(0),
                right: Reg::Const(0),
            },
        ],
    );
}

#[test]
fn compile_deterministic() {
    let src = b"(acked (add acked ack)) (lost loss) (peak (max peak rtt))";
    let (bin1, sc1) = lang::compile(src).expect("compile");
    let (bin2, sc2) = lang::compile(src).expect("compile");
    assert_eq!(bin1.0, bin2.0);
    let m1 = Msg::Fld(ccp::serialize::install_fold::Msg {
        sid: 1,
        num_instrs: bin1.0.len() as u32,
        instrs: bin1,
    });
    let m2 = Msg::Fld(ccp::serialize::install_fold::Msg {
        sid: 1,
        num_instrs: bin2.0.len() as u32,
        instrs: bin2,
    });
    assert_eq!(
        serialize::serialize(&m1).expect("serialize"),
        serialize::serialize(&m2).expect("serialize"),
    );
    for name in [&b"acked"[..], b"lost", b"peak", b"missing"] {
        assert_eq!(sc1.get(name), sc2.get(name));
    }
}

#[test]
fn compile_unknown_identifier() {
    assert_eq!(
        lang::compile(b"(x foo)").unwrap_err(),
        CompileError::UnknownIdentifier { pos: 3 },
    );
}

#[test]
fn compile_type_mismatch() {
    assert_eq!(
        lang::compile(b"(x timeout)").unwrap_err(),
        CompileError::TypeMismatch { op: Op::Bind, got: Type::Bool, expected: Type::Num },
    );
    assert_eq!(
        lang::compile(b"(x (add timeout 1))").unwrap_err(),
        CompileError::TypeMismatch { op: Op::Add, got: Type::Bool, expected: Type::Num },
    );
}

#[test]
fn compile_parse_errors() {
    assert_eq!(
        lang::compile(b"x").unwrap_err(),
        CompileError::ParseError { pos: 0, expected: Expected::Decl },
    );
    assert_eq!(
        lang::compile(b"(x 1) ?").unwrap_err(),
        CompileError::ParseError { pos: 6, expected: Expected::Token },
    );
    assert_eq!(
        lang::compile(b"(x (frob 1 2))").unwrap_err(),
        CompileError::ParseError { pos: 4, expected: Expected::OpName },
    );
    assert_eq!(
        lang::compile(b"(x 99999999999)").unwrap_err(),
        CompileError::ParseError { pos: 3, expected: Expected::Number },
    );
}

#[test]
fn compile_duplicate_declaration() {
    assert_eq!(
        lang::compile(b"(x 1) (x 2)").unwrap_err(),
        CompileError::ParseError { pos: 7, expected: Expected::FreshIdent },
    );
}

#[test]
fn compile_too_many_permanents() {
    let mut src = String::new();
    for i in 0..17 {
        src.push_str(&format!("(p{} 1) ", i));
    }
    assert_eq!(
        lang::compile(src.as_bytes()).unwrap_err(),
        CompileError::TooManyPermanents,
    );
}

#[test]
fn compile_empty_source_empty_program() {
    let (bin, sc) = lang::compile(b"  ").expect("compile");
    assert_eq!(bin.0, vec![]);
    assert_eq!(sc.len(), 0);
}

#[test]
fn compiled_registers_all_serialize() {
    // Every register a successful compile emits survives the wire.
    let (bin, _) = lang::compile(b"(a (add ack rtt cwnd rate loss)) (b (min a 4294967295))")
        .expect("compile");
    let n = bin.0.len() as u32;
    let m = Msg::Fld(ccp::serialize::install_fold::Msg { sid: 2, num_instrs: n, instrs: bin });
    let buf = serialize::serialize(&m).expect("serialize");
    match Msg::from_buf(&buf).expect("decode") {
        Msg::Fld(m2) => assert_eq!(m2.num_instrs, n),
        _ => panic!("wrong variant"),
    }
}
