use vstd::prelude::*;
use crate::classruntime::{
    Varubals, ValueView, Printed, PrintedView, copy_value, push_value, pop_value, set_value,
};
use crate::constpool::{ConstantPoolTags, ConstantView, cp_entry};
use crate::error::ExecError;
use crate::javafunctionsrs::{try_execute_internel_function, spec_internel_function};
use crate::reader::{u8_at, u16_at, read_be_u8, read_be_u16};

verus! {

/// The state of a run of bytecode: local variables, operand stack, the position of the
/// next instruction, and the lines printed so far.
pub struct Machine {
    pub locals: Seq<ValueView>,
    pub stack: Seq<ValueView>,
    pub pc: int,
    pub printed: Seq<PrintedView>,
}

/// Builds a machine state.
pub open spec fn mach(
    locals: Seq<ValueView>,
    stack: Seq<ValueView>,
    printed: Seq<PrintedView>,
    pc: int,
) -> Machine {
    Machine { locals, stack, pc, printed }
}

/// What one instruction does: go on with the next, return from the method, or stop
/// with an error (in the state reached when it stopped).
pub enum StepView {
    Next(Machine),
    Return(Machine),
    Fail(Machine, ExecError),
}

/// `m` with operand stack `stack`.
pub open spec fn with_stack(m: Machine, stack: Seq<ValueView>) -> Machine {
    Machine { locals: m.locals, stack, pc: m.pc, printed: m.printed }
}

/// `m` with `v` pushed, going on at `pc`.
pub open spec fn push_next(m: Machine, v: ValueView, pc: int) -> StepView {
    StepView::Next(Machine { locals: m.locals, stack: m.stack.push(v), pc, printed: m.printed })
}

/// The text of a `Utf8` entry; empty for any other entry.
pub open spec fn utf8_or_empty(e: ConstantView) -> Seq<char> {
    match e {
        ConstantView::Utf8(_, s) => s,
        _ => Seq::empty(),
    }
}

/// The class name, member name and member type that a field or method reference with
/// class index `a` and name-and-type index `b` leads to. A name is empty where the
/// entries are not of the expected kinds; an index that names no entry is an error.
pub open spec fn spec_member_names(cp: Seq<ConstantView>, a: u16, b: u16) -> Result<
    (Seq<char>, Seq<char>, Seq<char>),
    ExecError,
> {
    match cp_entry(cp, a as int) {
        None => Err(ExecError::BadConstantIndex(a)),
        Some(ce) => {
            let class_name: Result<Seq<char>, ExecError> = match ce {
                ConstantView::Class(u) => match cp_entry(cp, u as int) {
                    None => Err(ExecError::BadConstantIndex(u)),
                    Some(e) => Ok(utf8_or_empty(e)),
                },
                _ => Ok(Seq::empty()),
            };
            match class_name {
                Err(e) => Err(e),
                Ok(cn) => match cp_entry(cp, b as int) {
                    None => Err(ExecError::BadConstantIndex(b)),
                    Some(ConstantView::NameAndType(u, j)) => match (
                        cp_entry(cp, u as int),
                        cp_entry(cp, j as int),
                    ) {
                        (Some(e1), Some(e2)) => Ok((cn, utf8_or_empty(e1), utf8_or_empty(e2))),
                        (None, _) => Err(ExecError::BadConstantIndex(u)),
                        (_, None) => Err(ExecError::BadConstantIndex(j)),
                    },
                    Some(_) => Ok((cn, Seq::empty(), Seq::empty())),
                },
            }
        },
    }
}

/// `ldc`: pushes the text of the `String` constant that the one-byte operand names.
pub open spec fn spec_ldc(cp: Seq<ConstantView>, code: Seq<u8>, m: Machine) -> StepView {
    match u8_at(code, m.pc + 1) {
        None => StepView::Fail(m, ExecError::UnexpectedEnd),
        Some(index) => match cp_entry(cp, index as int) {
            None => StepView::Fail(m, ExecError::BadConstantIndex(index as u16)),
            Some(ConstantView::String(u)) => match cp_entry(cp, u as int) {
                None => StepView::Fail(m, ExecError::BadConstantIndex(u)),
                Some(ConstantView::Utf8(_, data)) => push_next(m, ValueView::String(data), m.pc + 2),
                Some(_) => StepView::Next(
                    Machine { locals: m.locals, stack: m.stack, pc: m.pc + 2, printed: m.printed },
                ),
            },
            Some(_) => StepView::Fail(m, ExecError::UnsupportedConstant),
        },
    }
}

/// `getstatic`: pushes the names of the field that the two-byte operand names.
pub open spec fn spec_getstatic(cp: Seq<ConstantView>, code: Seq<u8>, m: Machine) -> StepView {
    match u16_at(code, m.pc + 1) {
        None => StepView::Fail(m, ExecError::UnexpectedEnd),
        Some(index) => match cp_entry(cp, index as int) {
            None => StepView::Fail(m, ExecError::BadConstantIndex(index)),
            Some(ConstantView::Fieldref(a, b)) => match spec_member_names(cp, a, b) {
                Err(e) => StepView::Fail(m, e),
                Ok((c, n, t)) => push_next(m, ValueView::Class(c, n, t), m.pc + 3),
            },
            Some(_) => push_next(
                m,
                ValueView::Class(Seq::empty(), Seq::empty(), Seq::empty()),
                m.pc + 3,
            ),
        },
    }
}

/// `invokevirtual` and `invokespecial`: look up the method that the two-byte operand
/// names; the class runtime (`legacy` false) stops there, the older runner (`legacy`
/// true) carries out the built-in method.
pub open spec fn spec_invoke(cp: Seq<ConstantView>, code: Seq<u8>, m: Machine, legacy: bool) -> StepView {
    match u16_at(code, m.pc + 1) {
        None => StepView::Fail(m, ExecError::UnexpectedEnd),
        Some(index) => match cp_entry(cp, index as int) {
            None => StepView::Fail(m, ExecError::BadConstantIndex(index)),
            Some(ConstantView::Methodref(a, b)) => match spec_member_names(cp, a, b) {
                Err(e) => StepView::Fail(m, e),
                Ok((c, n, _)) => if !legacy {
                    StepView::Fail(m, ExecError::InternalFunctionUnimplemented)
                } else {
                    let (s2, res) = spec_internel_function(c, n, m.stack);
                    match res {
                        Err(e) => StepView::Fail(with_stack(m, s2), e),
                        Ok(None) => StepView::Next(
                            Machine { locals: m.locals, stack: s2, pc: m.pc + 3, printed: m.printed },
                        ),
                        Ok(Some(p)) => StepView::Next(
                            Machine {
                                locals: m.locals,
                                stack: s2,
                                pc: m.pc + 3,
                                printed: m.printed.push(p),
                            },
                        ),
                    }
                },
            },
            Some(_) => StepView::Fail(m, ExecError::ExpectedMethodRef),
        },
    }
}

/// `iadd`: takes two values; when both are ints, pushes their sum (which must fit in
/// an int).
pub open spec fn spec_iadd(m: Machine) -> StepView {
    if m.stack.len() == 0 {
        StepView::Fail(m, ExecError::EmptyStack)
    } else {
        let v1 = m.stack.last();
        let s1 = m.stack.drop_last();
        if s1.len() == 0 {
            StepView::Fail(with_stack(m, s1), ExecError::EmptyStack)
        } else {
            let v2 = s1.last();
            let s2 = s1.drop_last();
            match (v1, v2) {
                (ValueView::Int(a), ValueView::Int(b)) => if i32::MIN <= a + b <= i32::MAX {
                    push_next(with_stack(m, s2), ValueView::Int((a + b) as i32), m.pc + 1)
                } else {
                    StepView::Fail(with_stack(m, s2), ExecError::IntOverflow)
                },
                _ => StepView::Next(
                    Machine { locals: m.locals, stack: s2, pc: m.pc + 1, printed: m.printed },
                ),
            }
        }
    }
}

/// A store into local slot `k`: takes the top value and puts it into the slot.
pub open spec fn spec_store(m: Machine, k: int, pc: int) -> StepView {
    if m.stack.len() == 0 {
        StepView::Fail(m, ExecError::EmptyStack)
    } else {
        let v = m.stack.last();
        let s1 = m.stack.drop_last();
        if 0 <= k < m.locals.len() {
            StepView::Next(Machine { locals: m.locals.update(k, v), stack: s1, pc, printed: m.printed })
        } else {
            StepView::Fail(with_stack(m, s1), ExecError::BadLocalIndex)
        }
    }
}

/// A load from local slot `k`: pushes the slot's value.
pub open spec fn spec_load(m: Machine, k: int) -> StepView {
    if 0 <= k < m.locals.len() {
        push_next(m, m.locals[k], m.pc + 1)
    } else {
        StepView::Fail(m, ExecError::BadLocalIndex)
    }
}

/// One instruction at `m.pc` of `code`, with constant pool `cp`.
pub open spec fn spec_step(cp: Seq<ConstantView>, code: Seq<u8>, m: Machine, legacy: bool) -> StepView {
    match u8_at(code, m.pc) {
        None => StepView::Fail(m, ExecError::UnexpectedEnd),
        Some(op) => if op == 18 {
            spec_ldc(cp, code, m)
        } else if op == 178 {
            spec_getstatic(cp, code, m)
        } else if op == 177 {
            StepView::Return(m)
        } else if op == 183 || op == 182 {
            spec_invoke(cp, code, m, legacy)
        } else if op == 96 {
            spec_iadd(m)
        } else if op == 60 {
            spec_store(m, 1, m.pc + 1)
        } else if op == 61 {
            spec_store(m, 2, m.pc + 1)
        } else if op == 62 {
            spec_store(m, 3, m.pc + 1)
        } else if op == 27 {
            spec_load(m, 1)
        } else if op == 29 {
            spec_load(m, 3)
        } else if op == 28 {
            spec_load(m, 2)
        } else if op == 42 {
            spec_load(m, 0)
        } else if op == 5 {
            push_next(m, ValueView::Int(2), m.pc + 1)
        } else if op == 6 {
            push_next(m, ValueView::Int(3), m.pc + 1)
        } else if op == 3 {
            push_next(m, ValueView::Int(0), m.pc + 1)
        } else if op == 4 {
            push_next(m, ValueView::Int(1), m.pc + 1)
        } else if op == 16 {
            match u8_at(code, m.pc + 1) {
                None => StepView::Fail(m, ExecError::UnexpectedEnd),
                Some(b) => push_next(m, ValueView::Int(b as i32), m.pc + 2),
            }
        } else if op == 54 {
            match u8_at(code, m.pc + 1) {
                None => StepView::Fail(m, ExecError::UnexpectedEnd),
                Some(index) => spec_store(m, index as int, m.pc + 2),
            }
        } else {
            StepView::Fail(m, ExecError::UnknownOpcode(op))
        },
    }
}

/// At most `fuel` instructions run from `m`: the state where the run ended, and
/// whether it ended without error. A return instruction, or running out of fuel, ends
/// it without error.
pub open spec fn spec_run(
    cp: Seq<ConstantView>,
    code: Seq<u8>,
    m: Machine,
    fuel: nat,
    legacy: bool,
) -> (Machine, Result<(), ExecError>)
    decreases fuel,
{
    if fuel == 0 {
        (m, Ok(()))
    } else {
        match spec_step(cp, code, m, legacy) {
            StepView::Next(m2) => spec_run(cp, code, m2, (fuel - 1) as nat, legacy),
            StepView::Return(m2) => (m2, Ok(())),
            StepView::Fail(m2, e) => (m2, Err(e)),
        }
    }
}

/// A run of a whole method body: as many instructions at most as the code has bytes,
/// from its start.
pub open spec fn spec_run_code(
    cp: Seq<ConstantView>,
    code: Seq<u8>,
    locals: Seq<ValueView>,
    stack: Seq<ValueView>,
    printed: Seq<PrintedView>,
    legacy: bool,
) -> (Machine, Result<(), ExecError>) {
    spec_run(cp, code, mach(locals, stack, printed, 0), code.len(), legacy)
}

/// What an instruction did, as the interpreter reports it.
pub enum StepOutcome {
    Next(usize),
    Return,
    Fail(ExecError),
}

/// The value of what an instruction did, with `m` the state it left.
pub open spec fn outcome_view(r: StepOutcome, m: Machine) -> StepView {
    match r {
        StepOutcome::Next(pc) => StepView::Next(
            Machine { locals: m.locals, stack: m.stack, pc: pc as int, printed: m.printed },
        ),
        StepOutcome::Return => StepView::Return(m),
        StepOutcome::Fail(e) => StepView::Fail(m, e),
    }
}

/// The entry that a one-based constant-pool index names, if any.
pub(crate) fn cp_lookup(cp: &Vec<ConstantPoolTags>, index: u16) -> (r: Option<&ConstantPoolTags>)
    ensures
        match r {
            Some(e) => cp_entry(cp.deep_view(), index as int) == Some(e.deep_view()),
            None => cp_entry(cp.deep_view(), index as int) is None,
        },
{
    if index == 0 || index as usize > cp.len() {
        None
    } else {
        let e = &cp[index as usize - 1];
        assert(cp.deep_view()[index - 1] == e.deep_view());
        Some(e)
    }
}

/// The text of a `Utf8` entry; empty for any other entry.
fn text_of(e: &ConstantPoolTags) -> (r: String)
    ensures
        r@ == utf8_or_empty(e.deep_view()),
{
    match e {
        ConstantPoolTags::Utf8(_, s) => s.clone(),
        _ => String::new(),
    }
}

/// The names that a field or method reference leads to.
fn member_names(cp: &Vec<ConstantPoolTags>, a: u16, b: u16) -> (r: Result<
    (String, String, String),
    ExecError,
>)
    ensures
        match r {
            Ok((c, n, t)) => spec_member_names(cp.deep_view(), a, b) == Ok::<
                (Seq<char>, Seq<char>, Seq<char>),
                ExecError,
            >((c@, n@, t@)),
            Err(e) => spec_member_names(cp.deep_view(), a, b) == Err::<
                (Seq<char>, Seq<char>, Seq<char>),
                ExecError,
            >(e),
        },
{
    let class_entry = match cp_lookup(cp, a) {
        Some(e) => e,
        None => return Err(ExecError::BadConstantIndex(a)),
    };
    let class_name = match class_entry {
        ConstantPoolTags::Class(u) => match cp_lookup(cp, *u) {
            None => return Err(ExecError::BadConstantIndex(*u)),
            Some(e) => text_of(e),
        },
        _ => String::new(),
    };
    let name_and_type = match cp_lookup(cp, b) {
        Some(e) => e,
        None => return Err(ExecError::BadConstantIndex(b)),
    };
    match name_and_type {
        ConstantPoolTags::NameAndType(u, j) => {
            let e1 = match cp_lookup(cp, *u) {
                Some(e) => e,
                None => return Err(ExecError::BadConstantIndex(*u)),
            };
            let e2 = match cp_lookup(cp, *j) {
                Some(e) => e,
                None => return Err(ExecError::BadConstantIndex(*j)),
            };
            Ok((class_name, text_of(e1), text_of(e2)))
        },
        _ => Ok((class_name, String::new(), String::new())),
    }
}


/// `ldc` at `pc`.
fn op_ldc(
    cp: &Vec<ConstantPoolTags>,
    code: &[u8],
    locals: &mut Vec<Varubals>,
    stack: &mut Vec<Varubals>,
    printed: &mut Vec<Printed>,
    pc: usize,
) -> (r: StepOutcome)
    requires
        pc < code@.len(),
    ensures
        outcome_view(
            r,
            mach(final(locals).deep_view(), final(stack).deep_view(), final(printed).deep_view(), pc as int),
        ) == spec_ldc(
            cp.deep_view(),
            code@,
            mach(old(locals).deep_view(), old(stack).deep_view(), old(printed).deep_view(), pc as int),
        ),
{
    assert(code@.len() == code.len());
    let index = match read_be_u8(code, pc + 1) {
        Some(i) => i,
        None => return StepOutcome::Fail(ExecError::UnexpectedEnd),
    };
    let entry = match cp_lookup(cp, index as u16) {
        Some(e) => e,
        None => return StepOutcome::Fail(ExecError::BadConstantIndex(index as u16)),
    };
    match entry {
        ConstantPoolTags::String(utf8_index) => match cp_lookup(cp, *utf8_index) {
            None => StepOutcome::Fail(ExecError::BadConstantIndex(*utf8_index)),
            Some(ConstantPoolTags::Utf8(_, data)) => {
                push_value(stack, Varubals::String(data.clone()));
                StepOutcome::Next(pc + 2)
            },
            Some(_) => StepOutcome::Next(pc + 2),
        },
        _ => StepOutcome::Fail(ExecError::UnsupportedConstant),
    }
}

/// `getstatic` at `pc`.
fn op_getstatic(
    cp: &Vec<ConstantPoolTags>,
    code: &[u8],
    locals: &mut Vec<Varubals>,
    stack: &mut Vec<Varubals>,
    printed: &mut Vec<Printed>,
    pc: usize,
) -> (r: StepOutcome)
    requires
        pc < code@.len(),
    ensures
        outcome_view(
            r,
            mach(final(locals).deep_view(), final(stack).deep_view(), final(printed).deep_view(), pc as int),
        ) == spec_getstatic(
            cp.deep_view(),
            code@,
            mach(old(locals).deep_view(), old(stack).deep_view(), old(printed).deep_view(), pc as int),
        ),
{
    assert(code@.len() == code.len());
    let index = match read_be_u16(code, pc + 1) {
        Some(i) => i,
        None => return StepOutcome::Fail(ExecError::UnexpectedEnd),
    };
    let entry = match cp_lookup(cp, index) {
        Some(e) => e,
        None => return StepOutcome::Fail(ExecError::BadConstantIndex(index)),
    };
    match entry {
        ConstantPoolTags::Fieldref(a, b) => match member_names(cp, *a, *b) {
            Err(e) => StepOutcome::Fail(e),
            Ok((c, n, t)) => {
                push_value(stack, Varubals::Class(c, n, t));
                StepOutcome::Next(pc + 3)
            },
        },
        _ => {
            push_value(stack, Varubals::Class(String::new(), String::new(), String::new()));
            StepOutcome::Next(pc + 3)
        },
    }
}

/// `invokevirtual` or `invokespecial` at `pc`.
fn op_invoke(
    cp: &Vec<ConstantPoolTags>,
    code: &[u8],
    locals: &mut Vec<Varubals>,
    stack: &mut Vec<Varubals>,
    printed: &mut Vec<Printed>,
    pc: usize,
    legacy: bool,
) -> (r: StepOutcome)
    requires
        pc < code@.len(),
    ensures
        outcome_view(
            r,
            mach(final(locals).deep_view(), final(stack).deep_view(), final(printed).deep_view(), pc as int),
        ) == spec_invoke(
            cp.deep_view(),
            code@,
            mach(old(locals).deep_view(), old(stack).deep_view(), old(printed).deep_view(), pc as int),
            legacy,
        ),
{
    assert(code@.len() == code.len());
    let index = match read_be_u16(code, pc + 1) {
        Some(i) => i,
        None => return StepOutcome::Fail(ExecError::UnexpectedEnd),
    };
    let entry = match cp_lookup(cp, index) {
        Some(e) => e,
        None => return StepOutcome::Fail(ExecError::BadConstantIndex(index)),
    };
    match entry {
        ConstantPoolTags::Methodref(a, b) => {
            let (c, n, t) = match member_names(cp, *a, *b) {
                Err(e) => return StepOutcome::Fail(e),
                Ok(names) => names,
            };
            if !legacy {
                return StepOutcome::Fail(ExecError::InternalFunctionUnimplemented);
            }
            match try_execute_internel_function(c.as_str(), n.as_str(), t.as_str(), stack) {
                Err(e) => StepOutcome::Fail(e),
                Ok(None) => StepOutcome::Next(pc + 3),
                Ok(Some(line)) => {
                    let ghost before = printed.deep_view();
                    let ghost lv = line.deep_view();
                    printed.push(line);
                    assert(printed.deep_view() =~= before.push(lv));
                    StepOutcome::Next(pc + 3)
                },
            }
        },
        _ => StepOutcome::Fail(ExecError::ExpectedMethodRef),
    }
}

/// `iadd` at `pc`.
fn op_iadd(
    locals: &mut Vec<Varubals>,
    stack: &mut Vec<Varubals>,
    printed: &mut Vec<Printed>,
    pc: usize,
) -> (r: StepOutcome)
    requires
        pc < usize::MAX,
    ensures
        outcome_view(
            r,
            mach(final(locals).deep_view(), final(stack).deep_view(), final(printed).deep_view(), pc as int),
        ) == spec_iadd(
            mach(old(locals).deep_view(), old(stack).deep_view(), old(printed).deep_view(), pc as int),
        ),
{
    let value1 = match pop_value(stack) {
        Some(v) => v,
        None => return StepOutcome::Fail(ExecError::EmptyStack),
    };
    let value2 = match pop_value(stack) {
        Some(v) => v,
        None => return StepOutcome::Fail(ExecError::EmptyStack),
    };
    match (value1, value2) {
        (Varubals::Int(a), Varubals::Int(b)) => match a.checked_add(b) {
            Some(sum) => {
                push_value(stack, Varubals::Int(sum));
                StepOutcome::Next(pc + 1)
            },
            None => StepOutcome::Fail(ExecError::IntOverflow),
        },
        _ => StepOutcome::Next(pc + 1),
    }
}

/// A store into slot `k`, going on at `next`.
fn op_store(
    locals: &mut Vec<Varubals>,
    stack: &mut Vec<Varubals>,
    printed: &mut Vec<Printed>,
    pc: usize,
    k: usize,
    next: usize,
) -> (r: StepOutcome)
    ensures
        outcome_view(
            r,
            mach(final(locals).deep_view(), final(stack).deep_view(), final(printed).deep_view(), pc as int),
        ) == spec_store(
            mach(old(locals).deep_view(), old(stack).deep_view(), old(printed).deep_view(), pc as int),
            k as int,
            next as int,
        ),
{
    let v = match pop_value(stack) {
        Some(v) => v,
        None => return StepOutcome::Fail(ExecError::EmptyStack),
    };
    if k < locals.len() {
        set_value(locals, k, v);
        StepOutcome::Next(next)
    } else {
        StepOutcome::Fail(ExecError::BadLocalIndex)
    }
}

/// A load from slot `k`.
fn op_load(
    locals: &mut Vec<Varubals>,
    stack: &mut Vec<Varubals>,
    printed: &mut Vec<Printed>,
    pc: usize,
    k: usize,
) -> (r: StepOutcome)
    requires
        pc < usize::MAX,
    ensures
        outcome_view(
            r,
            mach(final(locals).deep_view(), final(stack).deep_view(), final(printed).deep_view(), pc as int),
        ) == spec_load(
            mach(old(locals).deep_view(), old(stack).deep_view(), old(printed).deep_view(), pc as int),
            k as int,
        ),
{
    if k < locals.len() {
        let v = copy_value(&locals[k]);
        push_value(stack, v);
        StepOutcome::Next(pc + 1)
    } else {
        StepOutcome::Fail(ExecError::BadLocalIndex)
    }
}

/// A push of the int `i`.
fn op_push_int(
    locals: &mut Vec<Varubals>,
    stack: &mut Vec<Varubals>,
    printed: &mut Vec<Printed>,
    pc: usize,
    i: i32,
    next: usize,
) -> (r: StepOutcome)
    ensures
        outcome_view(
            r,
            mach(final(locals).deep_view(), final(stack).deep_view(), final(printed).deep_view(), pc as int),
        ) == push_next(
            mach(old(locals).deep_view(), old(stack).deep_view(), old(printed).deep_view(), pc as int),
            ValueView::Int(i),
            next as int,
        ),
{
    push_value(stack, Varubals::Int(i));
    StepOutcome::Next(next)
}

/// Runs the instruction at `pc` of `code`.
fn step(
    cp: &Vec<ConstantPoolTags>,
    code: &[u8],
    locals: &mut Vec<Varubals>,
    stack: &mut Vec<Varubals>,
    printed: &mut Vec<Printed>,
    pc: usize,
    legacy: bool,
) -> (r: StepOutcome)
    ensures
        outcome_view(
            r,
            mach(final(locals).deep_view(), final(stack).deep_view(), final(printed).deep_view(), pc as int),
        ) == spec_step(
            cp.deep_view(),
            code@,
            mach(old(locals).deep_view(), old(stack).deep_view(), old(printed).deep_view(), pc as int),
            legacy,
        ),
        r matches StepOutcome::Next(p) ==> p <= code@.len(),
{
    assert(code@.len() == code.len());
    let op = match read_be_u8(code, pc) {
        Some(o) => o,
        None => return StepOutcome::Fail(ExecError::UnexpectedEnd),
    };
    if op == 18 {
        op_ldc(cp, code, locals, stack, printed, pc)
    } else if op == 178 {
        op_getstatic(cp, code, locals, stack, printed, pc)
    } else if op == 177 {
        StepOutcome::Return
    } else if op == 183 || op == 182 {
        op_invoke(cp, code, locals, stack, printed, pc, legacy)
    } else if op == 96 {
        op_iadd(locals, stack, printed, pc)
    } else if op == 60 {
        op_store(locals, stack, printed, pc, 1, pc + 1)
    } else if op == 61 {
        op_store(locals, stack, printed, pc, 2, pc + 1)
    } else if op == 62 {
        op_store(locals, stack, printed, pc, 3, pc + 1)
    } else if op == 27 {
        op_load(locals, stack, printed, pc, 1)
    } else if op == 29 {
        op_load(locals, stack, printed, pc, 3)
    } else if op == 28 {
        op_load(locals, stack, printed, pc, 2)
    } else if op == 42 {
        op_load(locals, stack, printed, pc, 0)
    } else if op == 5 {
        op_push_int(locals, stack, printed, pc, 2, pc + 1)
    } else if op == 6 {
        op_push_int(locals, stack, printed, pc, 3, pc + 1)
    } else if op == 3 {
        op_push_int(locals, stack, printed, pc, 0, pc + 1)
    } else if op == 4 {
        op_push_int(locals, stack, printed, pc, 1, pc + 1)
    } else if op == 16 {
        match read_be_u8(code, pc + 1) {
            None => StepOutcome::Fail(ExecError::UnexpectedEnd),
            Some(byte) => op_push_int(locals, stack, printed, pc, byte as i32, pc + 2),
        }
    } else if op == 54 {
        match read_be_u8(code, pc + 1) {
            None => StepOutcome::Fail(ExecError::UnexpectedEnd),
            Some(index) => op_store(locals, stack, printed, pc, index as usize, pc + 2),
        }
    } else {
        StepOutcome::Fail(ExecError::UnknownOpcode(op))
    }
}

/// Runs `code` from its start, one instruction after another, for at most as many
/// instructions as the code has bytes; stops early at a return instruction or at an
/// error. `legacy` chooses how invoke instructions are carried out (see `spec_invoke`).
pub(crate) fn run_code(
    cp: &Vec<ConstantPoolTags>,
    code: &[u8],
    locals: &mut Vec<Varubals>,
    stack: &mut Vec<Varubals>,
    printed: &mut Vec<Printed>,
    legacy: bool,
) -> (r: Result<(), ExecError>)
    ensures
        ({
            let (m, res) = spec_run_code(
                cp.deep_view(),
                code@,
                old(locals).deep_view(),
                old(stack).deep_view(),
                old(printed).deep_view(),
                legacy,
            );
            &&& final(locals).deep_view() == m.locals
            &&& final(stack).deep_view() == m.stack
            &&& final(printed).deep_view() == m.printed
            &&& r == res
        }),
{
    let ghost cpv = cp.deep_view();
    let ghost m0 = mach(locals.deep_view(), stack.deep_view(), printed.deep_view(), 0);
    let length = code.len();
    let mut pc: usize = 0;
    let mut i: usize = 0;
    while i < length
        invariant
            length == code@.len(),
            i <= length,
            pc <= length,
            cpv == cp.deep_view(),
            m0 == mach(old(locals).deep_view(), old(stack).deep_view(), old(printed).deep_view(), 0),
            spec_run(cpv, code@, m0, length as nat, legacy) == spec_run(
                cpv,
                code@,
                mach(locals.deep_view(), stack.deep_view(), printed.deep_view(), pc as int),
                (length - i) as nat,
                legacy,
            ),
        decreases length - i,
    {
        match step(cp, code, locals, stack, printed, pc, legacy) {
            StepOutcome::Next(p) => {
                pc = p;
            },
            StepOutcome::Return => {
                return Ok(());
            },
            StepOutcome::Fail(e) => {
                return Err(e);
            },
        }
        i = i + 1;
    }
    Ok(())
}


/// The state that an instruction leaves, whether it goes on, returns or fails.
pub open spec fn step_state(v: StepView) -> Machine {
    match v {
        StepView::Next(m) => m,
        StepView::Return(m) => m,
        StepView::Fail(m, _) => m,
    }
}

/// No instruction changes how many local variable slots there are.
pub proof fn lemma_step_keeps_locals_len(cp: Seq<ConstantView>, code: Seq<u8>, m: Machine, legacy: bool)
    ensures
        step_state(spec_step(cp, code, m, legacy)).locals.len() == m.locals.len(),
{
}

/// Running bytecode never changes how many local variable slots there are.
pub proof fn lemma_run_keeps_locals_len(
    cp: Seq<ConstantView>,
    code: Seq<u8>,
    m: Machine,
    fuel: nat,
    legacy: bool,
)
    ensures
        spec_run(cp, code, m, fuel, legacy).0.locals.len() == m.locals.len(),
    decreases fuel,
{
    if fuel > 0 {
        lemma_step_keeps_locals_len(cp, code, m, legacy);
        if let StepView::Next(m2) = spec_step(cp, code, m, legacy) {
            lemma_run_keeps_locals_len(cp, code, m2, (fuel - 1) as nat, legacy);
        }
    }
}

/// The class runtime (`legacy` false) never prints: a run leaves the printed lines as
/// they were.
pub proof fn lemma_runtime_never_prints(cp: Seq<ConstantView>, code: Seq<u8>, m: Machine, fuel: nat)
    ensures
        spec_run(cp, code, m, fuel, false).0.printed == m.printed,
    decreases fuel,
{
    if fuel > 0 {
        if let StepView::Next(m2) = spec_step(cp, code, m, false) {
            lemma_runtime_never_prints(cp, code, m2, (fuel - 1) as nat);
        }
    }
}

/// Printing only adds lines: the lines printed before a run stay, in order, at the
/// start of those printed after it.
pub proof fn lemma_run_only_appends_printed(
    cp: Seq<ConstantView>,
    code: Seq<u8>,
    m: Machine,
    fuel: nat,
    legacy: bool,
)
    ensures
        m.printed.is_prefix_of(spec_run(cp, code, m, fuel, legacy).0.printed),
    decreases fuel,
{
    if fuel > 0 {
        let v = spec_step(cp, code, m, legacy);
        assert(m.printed.is_prefix_of(step_state(v).printed)) by {
            let p2 = step_state(v).printed;
            assert(p2 == m.printed || exists|x: PrintedView| p2 == m.printed.push(x));
            if p2 != m.printed {
                let x = choose|x: PrintedView| p2 == m.printed.push(x);
                assert(p2 == m.printed.push(x));
                assert(p2.subrange(0, m.printed.len() as int) =~= m.printed);
            }
        }
        if let StepView::Next(m2) = v {
            lemma_run_only_appends_printed(cp, code, m2, (fuel - 1) as nat, legacy);
        }
    }
}

/// The class runtime and the older runner carry out every instruction alike, except
/// the invoke instructions (opcodes 182 and 183).
pub proof fn lemma_runners_agree_off_invoke(cp: Seq<ConstantView>, code: Seq<u8>, m: Machine)
    requires
        u8_at(code, m.pc) != Some(182u8),
        u8_at(code, m.pc) != Some(183u8),
    ensures
        spec_step(cp, code, m, true) == spec_step(cp, code, m, false),
{
}


/// The store and load instructions for local slots 1 to 3: `istore_k` (opcode
/// `59 + k`) takes the top value and leaves it in slot `k`, changing nothing else;
/// `iload_k` (opcode `26 + k`) pushes the value of slot `k`. Both go on at the next
/// byte.
pub proof fn lemma_local_slot_instructions(
    cp: Seq<ConstantView>,
    code: Seq<u8>,
    m: Machine,
    legacy: bool,
    k: int,
)
    requires
        1 <= k <= 3,
        k < m.locals.len(),
    ensures
        u8_at(code, m.pc) == Some((59 + k) as u8) && m.stack.len() > 0 ==> spec_step(
            cp,
            code,
            m,
            legacy,
        ) == StepView::Next(
            Machine {
                locals: m.locals.update(k, m.stack.last()),
                stack: m.stack.drop_last(),
                pc: m.pc + 1,
                printed: m.printed,
            },
        ),
        u8_at(code, m.pc) == Some((26 + k) as u8) ==> spec_step(cp, code, m, legacy)
            == StepView::Next(
            Machine {
                locals: m.locals,
                stack: m.stack.push(m.locals[k]),
                pc: m.pc + 1,
                printed: m.printed,
            },
        ),
{
}

/// `istore n` (opcode 54 with one operand byte `n`) takes the top value and leaves it
/// in slot `n`, changing nothing else, and goes on two bytes later.
pub proof fn lemma_istore_instruction(cp: Seq<ConstantView>, code: Seq<u8>, m: Machine, legacy: bool)
    requires
        u8_at(code, m.pc) == Some(54u8),
        u8_at(code, m.pc + 1) is Some,
        (u8_at(code, m.pc + 1)->Some_0 as int) < m.locals.len(),
        m.stack.len() > 0,
    ensures
        spec_step(cp, code, m, legacy) == StepView::Next(
            Machine {
                locals: m.locals.update(u8_at(code, m.pc + 1)->Some_0 as int, m.stack.last()),
                stack: m.stack.drop_last(),
                pc: m.pc + 2,
                printed: m.printed,
            },
        ),
{
}

/// Storing into a slot and loading from it again gives back the stored value: after
/// `istore_k; iload_k` the stack is as it was, and slot `k` holds its top value.
pub proof fn lemma_store_then_load(
    cp: Seq<ConstantView>,
    code: Seq<u8>,
    m: Machine,
    legacy: bool,
    k: int,
)
    requires
        1 <= k <= 3,
        k < m.locals.len(),
        m.stack.len() > 0,
        u8_at(code, m.pc) == Some((59 + k) as u8),
        u8_at(code, m.pc + 1) == Some((26 + k) as u8),
    ensures
        ({
            let m1 = step_state(spec_step(cp, code, m, legacy));
            let m2 = step_state(spec_step(cp, code, m1, legacy));
            &&& spec_step(cp, code, m1, legacy) is Next
            &&& m2.stack == m.stack
            &&& m2.locals[k] == m.stack.last()
            &&& m2.pc == m.pc + 2
        }),
{
    lemma_local_slot_instructions(cp, code, m, legacy, k);
    let m1 = step_state(spec_step(cp, code, m, legacy));
    lemma_local_slot_instructions(cp, code, m1, legacy, k);
    assert(m.stack.drop_last().push(m.stack.last()) =~= m.stack);
}

/// `m` with the lines `pre` printed before its own.
pub open spec fn after_lines(m: Machine, pre: Seq<PrintedView>) -> Machine {
    Machine { locals: m.locals, stack: m.stack, pc: m.pc, printed: pre + m.printed }
}

/// What an instruction did, with the lines `pre` printed before those of its state.
pub open spec fn step_after_lines(v: StepView, pre: Seq<PrintedView>) -> StepView {
    match v {
        StepView::Next(m) => StepView::Next(after_lines(m, pre)),
        StepView::Return(m) => StepView::Return(after_lines(m, pre)),
        StepView::Fail(m, e) => StepView::Fail(after_lines(m, pre), e),
    }
}

/// An instruction does not read the lines printed before it: with more lines printed
/// earlier it does the same, and what it prints comes after them.
pub proof fn lemma_step_ignores_earlier_lines(
    cp: Seq<ConstantView>,
    code: Seq<u8>,
    m: Machine,
    pre: Seq<PrintedView>,
    legacy: bool,
)
    ensures
        spec_step(cp, code, after_lines(m, pre), legacy) == step_after_lines(
            spec_step(cp, code, m, legacy),
            pre,
        ),
{
    if let StepView::Next(m2) = spec_step(cp, code, m, legacy) {
        assert forall|x: PrintedView| (pre + m.printed).push(x) == pre + m.printed.push(x) by {
            assert((pre + m.printed).push(x) =~= pre + m.printed.push(x));
        }
    }
}

/// A run does not read the lines printed before it: with more lines printed earlier
/// it ends the same way, and the lines it prints come after them.
pub proof fn lemma_run_ignores_earlier_lines(
    cp: Seq<ConstantView>,
    code: Seq<u8>,
    m: Machine,
    pre: Seq<PrintedView>,
    fuel: nat,
    legacy: bool,
)
    ensures
        spec_run(cp, code, after_lines(m, pre), fuel, legacy) == (
            after_lines(spec_run(cp, code, m, fuel, legacy).0, pre),
            spec_run(cp, code, m, fuel, legacy).1,
        ),
    decreases fuel,
{
    if fuel > 0 {
        lemma_step_ignores_earlier_lines(cp, code, m, pre, legacy);
        if let StepView::Next(m2) = spec_step(cp, code, m, legacy) {
            lemma_run_ignores_earlier_lines(cp, code, m2, pre, (fuel - 1) as nat, legacy);
        }
    }
}

} // verus!
