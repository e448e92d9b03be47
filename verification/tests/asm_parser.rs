use stalker::cmp::{ArgDiff, InstDiff, MemDiff};
use stalker::inst::{Arg, Inst};
use stalker::parser::AsmParser;

fn args(i: &Inst) -> &Vec<Arg> {
    i.args.as_ref().unwrap()
}

#[test]
fn test_parser() {
    let insts = vec![
        "jmp 0x4cd04",
        "cmp qword [rbp - 8], 0xc",
        "movzx eax, byte [rax]",
        "mov rbp, rsp",
        "call sym.imp.printf",
        "ret",
        "ret;",
        "sub rdx, qword fs:[rdi + 0x28]",
        "orr x1, xzr, x26, lsl 1",
        "ldr w8, 0xfffffffffff06a20",
    ];
    let texts = vec![
        "jmp 0x4cd04",
        "cmp qword [rbp + -8], 0xc",
        "movzx eax, byte [rax]",
        "mov rbp, rsp",
        "call sym.imp.printf",
        "ret",
        "ret",
        "sub rdx, qword fs:[rdi + 40]",
        "orr x1, xzr, x26, lsl 1",
        "ldr w8, 0xfffffffffff06a20",
    ];
    for (i, t) in insts.iter().zip(texts.iter()) {
        let ast = AsmParser::parse(i).unwrap();
        println!("ASM: {}  ", i);
        println!("FMT: {}", ast.to_string());
        println!("AST: {:?}", ast);
        println!();
        assert_eq!(ast.to_string(), *t);
    }

    let insts = vec!["pop rax;test eax, eax;", "push rcx; and esi, 0xff0000"];
    let ops = vec![vec!["pop", "test"], vec!["push", "and"]];
    for (i, o) in insts.iter().zip(ops.iter()) {
        let ast = AsmParser::parse_many(i).unwrap();
        println!("ASM: {}  ", i);
        println!("AST: {:?}", ast);
        println!();
        assert_eq!(ast.len(), 2);
        assert_eq!(ast[0].op, o[0]);
        assert_eq!(ast[1].op, o[1]);
    }
}

#[test]
fn parser_operand_kinds() {
    let i = AsmParser::parse("cmp qword [rbp - 8], 0xc").unwrap();
    assert_eq!(i.op, "cmp");
    let a = args(&i);
    assert_eq!(a.len(), 2);
    match &a[0] {
        Arg::Mem(m) => {
            assert_eq!(m.len.as_deref(), Some("qword"));
            assert_eq!(m.sel, None);
            assert_eq!(m.value.reg.as_deref(), Some("rbp"));
            assert_eq!(m.value.shft, Some(-8));
        }
        _ => panic!("expected a memory operand"),
    }
    assert!(matches!(a[1], Arg::Imm(12)));

    let i = AsmParser::parse("sub rdx, qword fs:[rdi + 0x28]").unwrap();
    match &args(&i)[1] {
        Arg::Mem(m) => {
            assert_eq!(m.len.as_deref(), Some("qword"));
            assert_eq!(m.sel.as_deref(), Some("fs"));
            assert_eq!(m.value.reg.as_deref(), Some("rdi"));
            assert_eq!(m.value.shft, Some(0x28));
        }
        _ => panic!("expected a memory operand"),
    }

    let i = AsmParser::parse("orr x1, xzr, x26, lsl 1").unwrap();
    let a = args(&i);
    assert_eq!(a.len(), 4);
    assert!(matches!(&a[0], Arg::Reg(r) if r == "x1"));
    assert!(matches!(&a[2], Arg::Reg(r) if r == "x26"));
    assert!(matches!(&a[3], Arg::Expr(o, x) if o == "lsl" && x == "1"));

    let i = AsmParser::parse("call sym.imp.printf").unwrap();
    assert!(matches!(&args(&i)[0], Arg::Sym(s) if s == "sym.imp.printf"));

    let i = AsmParser::parse("ldr w8, 0xfffffffffff06a20").unwrap();
    assert!(matches!(args(&i)[1], Arg::Imm(-1021408)));

    let i = AsmParser::parse("ret;").unwrap();
    assert!(i.args.is_none());

    let i = AsmParser::parse("movzx eax, byte [rax]").unwrap();
    match &args(&i)[1] {
        Arg::Mem(m) => {
            assert_eq!(m.value.reg.as_deref(), Some("rax"));
            assert_eq!(m.value.shft, None);
        }
        _ => panic!("expected a memory operand"),
    }
}

fn msg<T>(r: Result<T, stalker::error::Error>) -> String {
    match r {
        Err(stalker::error::Error::Parse(m)) => m,
        _ => panic!("expected a parse error"),
    }
}

#[test]
fn parser_rejects() {
    assert!(AsmParser::parse("").is_err());
    assert!(AsmParser::parse(" ret").is_err());
    assert!(AsmParser::parse("mov eax, ").is_err());
    assert!(AsmParser::parse("ret rax foo!").is_ok());
    assert!(AsmParser::parse_many("").is_err());
    assert_eq!(msg(AsmParser::parse("!x")), "Parsing Error: Error { input: \"!x\", code: AlphaNumeric }");
    assert_eq!(msg(AsmParser::parse("")), "Parsing Error: Error { input: \"\", code: AlphaNumeric }");
    assert_eq!(msg(AsmParser::parse("ab-c")), "Parsing Error: Error { input: \"-c\", code: Tag }");
    assert_eq!(msg(AsmParser::parse("mov eax, ")), "Parsing Error: Error { input: \", \", code: Tag }");
    assert_eq!(msg(AsmParser::parse("mov 12ab")), "Parsing Error: Error { input: \"ab\", code: Tag }");
    assert_eq!(msg(AsmParser::parse_many(" !")), "Parsing Error: Error { input: \"!\", code: AlphaNumeric }");
    assert_eq!(msg(AsmParser::parse_many("a\"b")), "Parsing Error: Error { input: \"\\\"b\", code: Tag }");
}

#[test]
fn parser_numbers() {
    // a decimal too large for 64 bits is not a number: the digits read as a register
    let i = AsmParser::parse("push 99999999999999999999").unwrap();
    assert!(matches!(&args(&i)[0], Arg::Reg(s) if s == "99999999999999999999"));
    let i = AsmParser::parse("push 9223372036854775807").unwrap();
    assert!(matches!(args(&i)[0], Arg::Imm(9223372036854775807)));
    // `0x` without digits reads as the number 0 followed by text, which ends nothing
    assert!(AsmParser::parse("push 0x").is_err());
    let i = AsmParser::parse("push [0x]").unwrap();
    assert!(matches!(&args(&i)[0], Arg::Sym(s) if s == "[0x]"));
    // hexadecimal up to 128 signed bits is truncated to 64
    let i = AsmParser::parse("push 0x10000000000000001").unwrap();
    assert!(matches!(args(&i)[0], Arg::Imm(1)));
    let i = AsmParser::parse("push [0x10]").unwrap();
    match &args(&i)[0] {
        Arg::Mem(m) => {
            assert_eq!(m.value.reg, None);
            assert_eq!(m.value.shft, Some(16));
            assert_eq!(args(&i)[0].to_string(), "[10]");
        }
        _ => panic!("expected a memory operand"),
    }
}

#[test]
fn test_diff() {
    let insts = vec![
        ("jmp 0x4cd04", "jmp 0x4cd01"),
        ("cmp qword [rbp - 0], 0xc", "cmp qword [rbp - 8], 0xc"),
        ("cmp qword [rbp - 8], 0xd", "cmp qword [rbp - 8], 0xc"),
        ("cmp qword [rbp - 8], 0xc", "cmp [rbp - 8], 0xc"),
        ("movzx eax, byte [rax]", "movzx eax, [rax]"),
        ("mov rbp, rsp", "mov rax, rsp"),
        ("call sym.imp.printf", "call 0x00"),
        ("ret", "nop"),
    ];
    let mut diffs = vec![];
    for (a, b) in insts {
        let (ia, ib) = (AsmParser::parse(a).unwrap(), AsmParser::parse(b).unwrap());
        let d = ia.diff(&ib);
        println!("{:?}", d);
        diffs.push(d);
    }
    assert!(matches!(diffs[0], InstDiff::Arg(0, Some(ArgDiff::Imm))));
    assert!(matches!(
        diffs[1],
        InstDiff::Arg(0, Some(ArgDiff::Mem(MemDiff::Shift(Some(0), Some(-8)))))
    ));
    assert!(matches!(diffs[2], InstDiff::Arg(1, Some(ArgDiff::Imm))));
    assert!(matches!(
        &diffs[3],
        InstDiff::Arg(0, Some(ArgDiff::Mem(MemDiff::Len(Some(l), None)))) if l == "qword"
    ));
    assert!(matches!(
        &diffs[4],
        InstDiff::Arg(1, Some(ArgDiff::Mem(MemDiff::Len(Some(l), None)))) if l == "byte"
    ));
    assert!(matches!(diffs[5], InstDiff::Arg(0, Some(ArgDiff::Reg))));
    assert!(matches!(diffs[6], InstDiff::Arg(0, Some(ArgDiff::Imm))));
    assert!(matches!(&diffs[7], InstDiff::Op(a, b) if a == "ret" && b == "nop"));
}

#[test]
fn diff_same_and_lengths() {
    let a = AsmParser::parse("mov rbp, rsp").unwrap();
    let b = AsmParser::parse("mov rbp, rsp").unwrap();
    assert!(matches!(a.diff(&b), InstDiff::Same));
    let c = AsmParser::parse("mov rbp").unwrap();
    assert!(matches!(a.diff(&c), InstDiff::Arg(1, None)));
    let r = AsmParser::parse("ret").unwrap();
    let r2 = AsmParser::parse("ret;").unwrap();
    assert!(matches!(r.diff(&r2), InstDiff::Arg(0, None)));
    let i = AsmParser::parse("mov eax, 1").unwrap();
    let j = AsmParser::parse("mov 1, 1").unwrap();
    assert!(matches!(i.diff(&j), InstDiff::Arg(0, Some(ArgDiff::Type))));
}

#[test]
fn printed_instructions_read_back() {
    let texts = [
        "jmp 0x4cd04",
        "movzx eax, byte [rax]",
        "mov rbp, rsp",
        "ret",
        "ldr w8, 0xfffffffffff06a20",
        "sub rdx, qword fs:[rdi + 40]",
        "mov eax, fs:[rbx]",
        "add rsp, 0x0",
    ];
    for t in texts {
        let i = AsmParser::parse(t).unwrap();
        let printed = i.to_string();
        assert_eq!(printed, t);
        let again = AsmParser::parse(&printed).unwrap();
        assert_eq!(format!("{:?}", again), format!("{:?}", i));
        let many = AsmParser::parse_many(&printed).unwrap();
        assert_eq!(many.len(), 1);
    }
}
