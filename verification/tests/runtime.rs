use rjvm::class::{class, load_class};
use rjvm::classruntime::{class_runtime, copy_value, Printed, ReferenceType, Varubals};
use rjvm::error::{ClassError, ExecError};
use rjvm::javafunctionsrs::{execute_internel_function, try_execute_internel_function};
use rjvm::old_main::{omain, try_omain, RunError};

fn u16be(v: u16) -> Vec<u8> {
    v.to_be_bytes().to_vec()
}

fn u32be(v: u32) -> Vec<u8> {
    v.to_be_bytes().to_vec()
}

fn utf8(s: &str) -> Vec<u8> {
    let mut out = vec![1u8];
    out.extend(u16be(s.len() as u16));
    out.extend(s.as_bytes());
    out
}

fn entry2(tag: u8, a: u16) -> Vec<u8> {
    let mut out = vec![tag];
    out.extend(u16be(a));
    out
}

fn entry4(tag: u8, a: u16, b: u16) -> Vec<u8> {
    let mut out = vec![tag];
    out.extend(u16be(a));
    out.extend(u16be(b));
    out
}

fn pool() -> Vec<Vec<u8>> {
    vec![
        utf8("Hello"),                    // 1
        entry2(7, 1),                     // 2
        utf8("java/lang/Object"),         // 3
        entry2(7, 3),                     // 4
        utf8("<init>"),                   // 5
        utf8("()V"),                      // 6
        entry4(12, 5, 6),                 // 7
        entry4(10, 4, 7),                 // 8 Object.<init>
        utf8("Code"),                     // 9
        utf8("main"),                     // 10
        utf8("([Ljava/lang/String;)V"),   // 11
        utf8("java/lang/System"),         // 12
        entry2(7, 12),                    // 13
        utf8("out"),                      // 14
        utf8("Ljava/io/PrintStream;"),    // 15
        entry4(12, 14, 15),               // 16
        entry4(9, 13, 16),                // 17 System.out
        utf8("Hi"),                       // 18
        entry2(8, 18),                    // 19 "Hi"
        utf8("java/io/PrintStream"),      // 20
        entry2(7, 20),                    // 21
        utf8("println"),                  // 22
        utf8("(I)V"),                     // 23
        entry4(12, 22, 23),               // 24
        entry4(10, 21, 24),               // 25 PrintStream.println
        utf8("add"),                      // 26
        utf8("LineNumberTable"),          // 27
        entry2(8, 2),                     // 28 String pointing at a Class entry
        entry2(7, 6),                     // 29 Class (not a string)
    ]
}

fn method(name: u16, attrs: &[Vec<u8>]) -> Vec<u8> {
    let mut out = u16be(1);
    out.extend(u16be(name));
    out.extend(u16be(6));
    out.extend(u16be(attrs.len() as u16));
    for a in attrs {
        out.extend(a);
    }
    out
}

fn class_with(methods: &[Vec<u8>]) -> Vec<u8> {
    let mut out = u32be(0xCAFEBABE);
    out.extend(u16be(0));
    out.extend(u16be(52));
    let p = pool();
    out.extend(u16be(p.len() as u16 + 1));
    for e in &p {
        out.extend(e);
    }
    out.extend(u16be(0x21));
    out.extend(u16be(2));
    out.extend(u16be(4));
    out.extend(u16be(0));
    out.extend(u16be(0));
    out.extend(u16be(methods.len() as u16));
    for m in methods {
        out.extend(m);
    }
    out.extend(u16be(0));
    out
}

/// A Code attribute for a method with one attribute: the parser reads as many nested
/// attributes as the method has attributes, so the nested list holds one (an empty
/// line-number table).
fn code_with_nested(code: &[u8]) -> Vec<u8> {
    let mut body = u16be(2);
    body.extend(u16be(4));
    body.extend(u32be(code.len() as u32));
    body.extend(code);
    body.extend(u16be(0));
    body.extend(u16be(1));
    // nested LineNumberTable with no entries
    body.extend(u16be(27));
    body.extend(u32be(2));
    body.extend(u16be(0));
    let mut out = u16be(9);
    out.extend(u32be(body.len() as u32));
    out.extend(body);
    out
}

fn load(methods: &[Vec<u8>]) -> class {
    load_class(class_with(methods))
}

fn run_one(code: &[u8]) -> (Result<(), ExecError>, rjvm::classruntime::frame) {
    let mut rt = class_runtime::new(load(&[method(26, &[code_with_nested(code)])]));
    let mut f = rt.frames()[0].clone();
    let r = rt.try_exec(&mut f);
    (r, f)
}

fn as_int(v: &Varubals) -> Option<i32> {
    match v {
        Varubals::Int(i) => Some(*i),
        _ => None,
    }
}

#[test]
fn frames_are_made_one_per_method() {
    let c = load(&[
        method(5, &[code_with_nested(&[42, 177])]),
        method(26, &[code_with_nested(&[4, 177])]),
    ]);
    let rt = class_runtime::new(c);
    assert_eq!(rt.frames().len(), 2);
    let f = &rt.frames()[0];
    assert_eq!(f.name(), "<init>");
    assert_eq!(f.bytecode(), &vec![42u8, 177]);
    assert_eq!(f.local_varuble_array().len(), 256);
    assert!(matches!(f.local_varuble_array()[0], Varubals::Reference(ReferenceType::Constpool(2))));
    assert!(matches!(f.local_varuble_array()[255], Varubals::Null));
    assert!(f.operand_stack().is_empty());
    assert_eq!(rt.frames()[1].name(), "add");
    assert_eq!(rt.class().this_class, 2);
}

#[test]
fn frame_takes_the_last_code_attribute() {
    // With two attributes per method, nested lists hold two attributes each.
    let nested = |code: &[u8]| {
        let mut body = u16be(1);
        body.extend(u16be(1));
        body.extend(u32be(code.len() as u32));
        body.extend(code);
        body.extend(u16be(0));
        body.extend(u16be(2));
        for _ in 0..2 {
            body.extend(u16be(27));
            body.extend(u32be(2));
            body.extend(u16be(0));
        }
        let mut out = u16be(9);
        out.extend(u32be(body.len() as u32));
        out.extend(body);
        out
    };
    let c = load(&[method(26, &[nested(&[3, 177]), nested(&[4, 177])])]);
    let rt = class_runtime::new(c);
    assert_eq!(rt.frames()[0].bytecode(), &vec![4u8, 177]);
}

#[test]
fn method_without_code_has_empty_bytecode() {
    let mut lnt = u16be(27);
    lnt.extend(u32be(2));
    lnt.extend(u16be(0));
    let rt = class_runtime::new(load(&[method(26, &[lnt])]));
    assert!(rt.frames()[0].bytecode().is_empty());
}

#[test]
fn new_refuses_bad_method_names() {
    let rt = class_runtime::try_new(load(&[method(2, &[])]));
    assert_eq!(rt.unwrap_err(), ExecError::MethodNameNotUtf8(2));
    let rt = class_runtime::try_new(load(&[method(0, &[])]));
    assert_eq!(rt.unwrap_err(), ExecError::BadConstantIndex(0));
}

#[test]
fn exec_adds_and_stores() {
    // iconst_2 iconst_3 iadd istore_1 iload_1 bipush 7 iadd istore 4 return
    let (r, f) = run_one(&[5, 6, 96, 60, 27, 16, 7, 96, 54, 4, 177]);
    assert_eq!(r, Ok(()));
    assert_eq!(as_int(&f.local_varuble_array()[1]), Some(5));
    assert_eq!(as_int(&f.local_varuble_array()[4]), Some(12));
    assert!(f.operand_stack().is_empty());
    assert_eq!(f.local_varuble_array().len(), 256);
    assert_eq!(f.name(), "add");
    assert_eq!(f.bytecode(), &vec![5u8, 6, 96, 60, 27, 16, 7, 96, 54, 4, 177]);
}

#[test]
fn exec_loads_and_stores_slots() {
    // iconst_0 istore_2 iconst_1 istore_3 iload_2 iload_3 aload_0 return
    let (r, f) = run_one(&[3, 61, 4, 62, 28, 29, 42, 177]);
    assert_eq!(r, Ok(()));
    let s = f.operand_stack();
    assert_eq!(s.len(), 3);
    assert_eq!(as_int(&s[0]), Some(0));
    assert_eq!(as_int(&s[1]), Some(1));
    assert!(matches!(s[2], Varubals::Reference(ReferenceType::Constpool(2))));
}

#[test]
fn exec_bipush_is_unsigned() {
    let (r, f) = run_one(&[16, 200, 177]);
    assert_eq!(r, Ok(()));
    assert_eq!(as_int(&f.operand_stack()[0]), Some(200));
}

#[test]
fn exec_ldc_and_getstatic() {
    let (r, f) = run_one(&[18, 19, 178, 0, 17, 177]);
    assert_eq!(r, Ok(()));
    let s = f.operand_stack();
    assert!(matches!(&s[0], Varubals::String(t) if t == "Hi"));
    match &s[1] {
        Varubals::Class(c, n, t) => {
            assert_eq!(c, "java/lang/System");
            assert_eq!(n, "out");
            assert_eq!(t, "Ljava/io/PrintStream;");
        }
        _ => panic!("expected a class value"),
    }
}

#[test]
fn exec_getstatic_of_non_field_pushes_empty_names() {
    let (r, f) = run_one(&[178, 0, 1, 177]);
    assert_eq!(r, Ok(()));
    assert!(matches!(&f.operand_stack()[0], Varubals::Class(a, b, c) if a.is_empty() && b.is_empty() && c.is_empty()));
}

#[test]
fn exec_ldc_of_string_to_non_utf8_pushes_nothing() {
    let (r, f) = run_one(&[18, 28, 177]);
    assert_eq!(r, Ok(()));
    assert!(f.operand_stack().is_empty());
}

#[test]
fn exec_errors() {
    assert_eq!(run_one(&[18, 29, 177]).0, Err(ExecError::UnsupportedConstant));
    assert_eq!(run_one(&[18, 0]).0, Err(ExecError::BadConstantIndex(0)));
    assert_eq!(run_one(&[18, 99]).0, Err(ExecError::BadConstantIndex(99)));
    assert_eq!(run_one(&[183, 0, 8]).0, Err(ExecError::InternalFunctionUnimplemented));
    assert_eq!(run_one(&[183, 0, 7]).0, Err(ExecError::ExpectedMethodRef));
    assert_eq!(run_one(&[96]).0, Err(ExecError::EmptyStack));
    assert_eq!(run_one(&[4, 96]).0, Err(ExecError::EmptyStack));
    assert_eq!(run_one(&[60]).0, Err(ExecError::EmptyStack));
    assert_eq!(run_one(&[255]).0, Err(ExecError::UnknownOpcode(255)));
    assert_eq!(run_one(&[16]).0, Err(ExecError::UnexpectedEnd));
    assert_eq!(run_one(&[178, 0]).0, Err(ExecError::UnexpectedEnd));
    // As many instructions run as the code has bytes: bipush takes two bytes, so two
    // instructions in three bytes leave the third one reading past the end, unless a
    // return comes first.
    assert_eq!(run_one(&[16, 1, 4]).0, Err(ExecError::UnexpectedEnd));
    assert_eq!(run_one(&[16, 1, 177]).0, Ok(()));
}

#[test]
fn exec_iadd_overflow_is_refused() {
    // bipush 255, istore_1, then double slot 1 again and again: the 24th doubling
    // passes i32::MAX.
    let mut code = vec![16u8, 255, 60];
    for _ in 0..23 {
        code.extend([27u8, 27, 96, 60]);
    }
    code.push(177);
    let (r, f) = run_one(&code);
    assert_eq!(r, Ok(()));
    assert_eq!(as_int(&f.local_varuble_array()[1]), Some(255 << 23));
    code.pop();
    code.extend([27u8, 27, 96, 60, 177]);
    let (r, f) = run_one(&code);
    assert_eq!(r, Err(ExecError::IntOverflow));
    assert!(f.operand_stack().is_empty());
}

#[test]
fn exec_iadd_of_non_ints_drops_them() {
    let (r, f) = run_one(&[18, 19, 4, 96, 177]);
    assert_eq!(r, Ok(()));
    assert!(f.operand_stack().is_empty());
}

#[test]
fn exec_stops_after_length_instructions() {
    // three one-byte instructions and no return
    let (r, f) = run_one(&[4, 5, 6]);
    assert_eq!(r, Ok(()));
    assert_eq!(f.operand_stack().len(), 3);
}

#[test]
fn run_method_runs_matching_frames_on_copies() {
    let c = load(&[
        method(26, &[code_with_nested(&[4, 60, 177])]),
        method(5, &[code_with_nested(&[42, 183, 0, 8, 177])]),
    ]);
    let mut rt = class_runtime::new(c);
    assert_eq!(rt.try_run_method("add".to_string()), Ok(()));
    rt.run_method("add".to_string());
    assert!(matches!(rt.frames()[0].local_varuble_array()[1], Varubals::Null));
    assert_eq!(rt.try_run_method("<init>".to_string()), Err(ExecError::InternalFunctionUnimplemented));
    assert_eq!(rt.try_run_method("nothing".to_string()), Ok(()));
    rt.run_method("nothing".to_string());
}

#[test]
fn internal_functions() {
    let mut stack = vec![Varubals::String("x".to_string())];
    assert!(matches!(
        execute_internel_function("java/lang/Object", "<init>", "()V", &mut stack),
        None
    ));
    assert_eq!(stack.len(), 1);
    match execute_internel_function("java/io/PrintStream", "println", "", &mut stack) {
        Some(Printed::Text(t)) => assert_eq!(t, "x"),
        _ => panic!("expected a printed line"),
    }
    assert!(stack.is_empty());
    assert_eq!(
        try_execute_internel_function("java/io/PrintStream", "println", "", &mut stack).unwrap_err(),
        ExecError::EmptyStack
    );
    let mut stack = vec![Varubals::Null];
    assert_eq!(
        try_execute_internel_function("java/io/PrintStream", "println", "", &mut stack).unwrap_err(),
        ExecError::CantPrint
    );
    assert!(stack.is_empty());
    assert_eq!(
        try_execute_internel_function("java/io/PrintStream", "print", "", &mut stack).unwrap_err(),
        ExecError::UnsupportedMethod
    );
    assert_eq!(
        try_execute_internel_function("java/lang/Object", "hashCode", "", &mut stack).unwrap_err(),
        ExecError::UnsupportedMethod
    );
    assert_eq!(
        try_execute_internel_function("java/lang/Math", "abs", "", &mut stack).unwrap_err(),
        ExecError::UnsupportedClass
    );
}

#[test]
fn copy_value_copies() {
    let v = Varubals::Class("a".to_string(), "b".to_string(), "c".to_string());
    assert!(matches!(copy_value(&v), Varubals::Class(a, b, c) if a == "a" && b == "b" && c == "c"));
}

#[test]
fn omain_prints_hello() {
    let init = method(5, &[code_with_nested(&[42, 183, 0, 8, 177])]);
    let main = method(10, &[code_with_nested(&[178, 0, 17, 18, 19, 182, 0, 25, 177])]);
    let add = method(26, &[code_with_nested(&[96])]);
    let run = try_omain(class_with(&[init, add, main]));
    assert_eq!(run.result, Ok(()));
    assert_eq!(run.printed.len(), 1);
    assert!(matches!(&run.printed[0], Printed::Text(t) if t == "Hi"));
}

#[test]
fn omain_prints_ints_and_reports_errors() {
    let main = method(10, &[code_with_nested(&[178, 0, 17, 16, 42, 182, 0, 25, 96, 177])]);
    let run = try_omain(class_with(&[main]));
    assert!(matches!(run.printed[..], [Printed::Int(42)]));
    assert_eq!(run.result, Err(RunError::Exec(ExecError::EmptyStack)));

    let run = try_omain(vec![0, 1, 2, 3]);
    assert!(run.printed.is_empty());
    assert_eq!(run.result, Err(RunError::Class(ClassError::BadMagic)));

    let mut lnt = u16be(27);
    lnt.extend(u32be(2));
    lnt.extend(u16be(0));
    let run = try_omain(class_with(&[method(10, &[lnt])]));
    assert_eq!(run.result, Err(RunError::Exec(ExecError::UnsupportedAttribute)));

    let run = try_omain(class_with(&[method(0, &[])]));
    assert_eq!(run.result, Err(RunError::Exec(ExecError::BadConstantIndex(0))));
}

#[test]
fn omain_starts_with_null_in_slot_zero() {
    // aload_0 then println: slot 0 holds Null in the older runner, which cannot print it
    let main = method(10, &[code_with_nested(&[42, 182, 0, 25, 177])]);
    let run = try_omain(class_with(&[main]));
    assert_eq!(run.result, Err(RunError::Exec(ExecError::CantPrint)));
}

#[test]
fn cloned_runtime_keeps_frames() {
    let rt = class_runtime::new(load(&[method(26, &[code_with_nested(&[4, 177])])]));
    let copy = rt.clone();
    assert_eq!(format!("{:?}", rt), format!("{:?}", copy));
    let v = Varubals::Int(3).clone();
    assert_eq!(as_int(&v), Some(3));
}

#[test]
fn omain_returns_the_printed_lines() {
    let main = method(10, &[code_with_nested(&[178, 0, 17, 16, 7, 182, 0, 25, 177])]);
    let printed = omain(class_with(&[main]));
    assert!(matches!(printed[..], [Printed::Int(7)]));
}

#[test]
fn exec_runs_a_frame_that_succeeds() {
    let mut rt = class_runtime::new(load(&[method(26, &[code_with_nested(&[4, 5, 96, 177])])]));
    let mut f = rt.frames()[0].clone();
    rt.exec(&mut f);
    assert_eq!(as_int(&f.operand_stack()[0]), Some(3));
}
