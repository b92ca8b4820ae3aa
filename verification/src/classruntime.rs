use vstd::prelude::*;
use crate::attributes::{Attribute, AttributeInfo, AttributeView, AttributeInfoView, attribute_view, attributes_view};
use crate::class::{class, ClassView};
use crate::constpool::{ConstantPoolTags, ConstantView, cp_entry};
use crate::error::ExecError;
use crate::interp::{cp_lookup, run_code, spec_run_code, lemma_run_keeps_locals_len};
use crate::method::{method_info, MethodView};
use crate::reader::copy_bytes;

verus! {

/// A value on the operand stack or in a local variable slot.
#[derive(Debug)]
pub enum Varubals {
    Boolean,
    Byte,
    Char,
    Short,
    Int(i32),
    Float,
    Reference(ReferenceType),
    ReturnAddress,
    /// Class name, member name, member type of a static field.
    Class(String, String, String),
    String(String),
    Null,
}

/// What a reference points at.
#[derive(Debug, Copy, Clone, PartialEq, Eq, Structural)]
pub enum ReferenceType {
    /// A constant-pool index.
    Constpool(u16),
}

/// A value, with its texts as characters.
pub enum ValueView {
    Boolean,
    Byte,
    Char,
    Short,
    Int(i32),
    Float,
    Reference(ReferenceType),
    ReturnAddress,
    Class(Seq<char>, Seq<char>, Seq<char>),
    String(Seq<char>),
    Null,
}

impl DeepView for Varubals {
    type V = ValueView;

    open spec fn deep_view(&self) -> ValueView {
        match self {
            Varubals::Boolean => ValueView::Boolean,
            Varubals::Byte => ValueView::Byte,
            Varubals::Char => ValueView::Char,
            Varubals::Short => ValueView::Short,
            Varubals::Int(i) => ValueView::Int(*i),
            Varubals::Float => ValueView::Float,
            Varubals::Reference(r) => ValueView::Reference(*r),
            Varubals::ReturnAddress => ValueView::ReturnAddress,
            Varubals::Class(a, b, c) => ValueView::Class(a@, b@, c@),
            Varubals::String(s) => ValueView::String(s@),
            Varubals::Null => ValueView::Null,
        }
    }
}

/// A line that a run prints.
#[derive(Debug, Clone)]
pub enum Printed {
    Text(String),
    Int(i32),
}

/// A printed line, with its text as characters.
pub enum PrintedView {
    Text(Seq<char>),
    Int(i32),
}

impl DeepView for Printed {
    type V = PrintedView;

    open spec fn deep_view(&self) -> PrintedView {
        match self {
            Printed::Text(s) => PrintedView::Text(s@),
            Printed::Int(i) => PrintedView::Int(*i),
        }
    }
}

/// A copy of a value.
pub fn copy_value(v: &Varubals) -> (r: Varubals)
    ensures
        r.deep_view() == v.deep_view(),
{
    match v {
        Varubals::Boolean => Varubals::Boolean,
        Varubals::Byte => Varubals::Byte,
        Varubals::Char => Varubals::Char,
        Varubals::Short => Varubals::Short,
        Varubals::Int(i) => Varubals::Int(*i),
        Varubals::Float => Varubals::Float,
        Varubals::Reference(r) => Varubals::Reference(*r),
        Varubals::ReturnAddress => Varubals::ReturnAddress,
        Varubals::Class(a, b, c) => Varubals::Class(a.clone(), b.clone(), c.clone()),
        Varubals::String(s) => Varubals::String(s.clone()),
        Varubals::Null => Varubals::Null,
    }
}

/// A copy of a sequence of values.
pub fn copy_values(v: &Vec<Varubals>) -> (r: Vec<Varubals>)
    ensures
        r.deep_view() == v.deep_view(),
{
    let mut out: Vec<Varubals> = Vec::new();
    let mut i: usize = 0;
    while i < v.len()
        invariant
            i <= v@.len(),
            out.deep_view() =~= v.deep_view().take(i as int),
        decreases v@.len() - i,
    {
        let ghost before = out.deep_view();
        out.push(copy_value(&v[i]));
        assert(out.deep_view() =~= before.push(v.deep_view()[i as int]));
        assert(v.deep_view().take(i + 1) =~= v.deep_view().take(i as int).push(
            v.deep_view()[i as int],
        ));
        i = i + 1;
    }
    assert(v.deep_view().take(v@.len() as int) =~= v.deep_view());
    out
}

/// Puts `v` on top of `stack`.
pub(crate) fn push_value(stack: &mut Vec<Varubals>, v: Varubals)
    ensures
        final(stack).deep_view() == old(stack).deep_view().push(v.deep_view()),
{
    let ghost before = stack.deep_view();
    stack.push(v);
    assert(stack.deep_view() =~= before.push(v.deep_view()));
}

/// Takes the top value off `stack`, if there is one.
pub(crate) fn pop_value(stack: &mut Vec<Varubals>) -> (r: Option<Varubals>)
    ensures
        match r {
            Some(v) => old(stack).deep_view().len() > 0 && v.deep_view() == old(
                stack,
            ).deep_view().last() && final(stack).deep_view() == old(stack).deep_view().drop_last(),
            None => old(stack).deep_view().len() == 0 && final(stack).deep_view() == old(
                stack,
            ).deep_view(),
        },
{
    let ghost before = stack.deep_view();
    let r = stack.pop();
    assert(stack.deep_view() =~= (if before.len() > 0 {
        before.drop_last()
    } else {
        before
    }));
    r
}

/// Puts `v` into slot `k` of `locals`.
pub(crate) fn set_value(locals: &mut Vec<Varubals>, k: usize, v: Varubals)
    requires
        k < old(locals)@.len(),
    ensures
        final(locals).deep_view() == old(locals).deep_view().update(k as int, v.deep_view()),
{
    let ghost before = locals.deep_view();
    locals.set(k, v);
    assert(locals.deep_view() =~= before.update(k as int, v.deep_view()));
}


/// A method ready to run: its name, 256 local variable slots, an operand stack and its
/// bytecode.
#[derive(Debug)]
pub struct frame {
    name: String,
    local_varuble_array: Vec<Varubals>,
    operand_stack: Vec<Varubals>,
    bytecode: Vec<u8>,
}

/// What a frame holds, as mathematical values.
pub struct FrameView {
    pub name: Seq<char>,
    pub locals: Seq<ValueView>,
    pub stack: Seq<ValueView>,
    pub bytecode: Seq<u8>,
}

impl DeepView for frame {
    type V = FrameView;

    closed spec fn deep_view(&self) -> FrameView {
        FrameView {
            name: self.name@,
            locals: self.local_varuble_array.deep_view(),
            stack: self.operand_stack.deep_view(),
            bytecode: self.bytecode@,
        }
    }
}

impl frame {
    /// The method's name.
    pub fn name(&self) -> (r: &String)
        ensures
            r@ == self.deep_view().name,
    {
        &self.name
    }

    /// The local variable slots.
    pub fn local_varuble_array(&self) -> (r: &Vec<Varubals>)
        ensures
            r.deep_view() == self.deep_view().locals,
    {
        &self.local_varuble_array
    }

    /// The operand stack, bottom first.
    pub fn operand_stack(&self) -> (r: &Vec<Varubals>)
        ensures
            r.deep_view() == self.deep_view().stack,
    {
        &self.operand_stack
    }

    /// The bytecode.
    pub fn bytecode(&self) -> (r: &Vec<u8>)
        ensures
            r@ == self.deep_view().bytecode,
    {
        &self.bytecode
    }
}

/// A class with a frame for each of its methods.
#[derive(Debug)]
pub struct class_runtime {
    class: class,
    pc: usize,
    frames: Vec<frame>,
}

impl class_runtime {
    /// The class.
    pub closed spec fn class_view(&self) -> ClassView {
        self.class.deep_view()
    }

    /// The frames, one per method, in the order of the methods.
    pub closed spec fn frames_view(&self) -> Seq<FrameView> {
        self.frames.deep_view()
    }

    /// The program counter field.
    pub closed spec fn pc_value(&self) -> usize {
        self.pc
    }
}

/// The local variable slots of a fresh frame: 256 slots, the first holding a reference
/// to the class (by its constant-pool index `this_class`), the others `Null`.
pub open spec fn initial_locals(this_class: u16) -> Seq<ValueView> {
    Seq::new(
        256,
        |i: int|
            if i == 0 {
                ValueView::Reference(ReferenceType::Constpool(this_class))
            } else {
                ValueView::Null
            },
    )
}

/// The code of the last `Code` attribute among `attrs`; empty if there is none.
pub open spec fn last_code(attrs: Seq<AttributeView>) -> Seq<u8>
    decreases attrs.len(),
{
    if attrs.len() == 0 {
        Seq::empty()
    } else {
        match attrs.last().info {
            AttributeInfoView::Code(_, _, _, code, _, _, _) => code,
            _ => last_code(attrs.drop_last()),
        }
    }
}

/// The frame made for method `m` of a class with constant pool `cp` and this-class
/// index `this_class`: named by the `Utf8` entry at the method's name index.
pub open spec fn spec_gen_frame(cp: Seq<ConstantView>, this_class: u16, m: MethodView) -> Result<
    FrameView,
    ExecError,
> {
    match cp_entry(cp, m.name_index as int) {
        None => Err(ExecError::BadConstantIndex(m.name_index)),
        Some(ConstantView::Utf8(_, name)) => Ok(
            FrameView {
                name,
                locals: initial_locals(this_class),
                stack: Seq::empty(),
                bytecode: last_code(m.attributes),
            },
        ),
        Some(_) => Err(ExecError::MethodNameNotUtf8(m.name_index)),
    }
}

/// The frames made for the methods `ms`, in order; the first error if any.
pub open spec fn spec_gen_frames_of(cp: Seq<ConstantView>, this_class: u16, ms: Seq<MethodView>) -> Result<
    Seq<FrameView>,
    ExecError,
>
    decreases ms.len(),
{
    if ms.len() == 0 {
        Ok(Seq::empty())
    } else {
        match spec_gen_frame(cp, this_class, ms[0]) {
            Err(e) => Err(e),
            Ok(f) => match spec_gen_frames_of(cp, this_class, ms.drop_first()) {
                Err(e) => Err(e),
                Ok(rest) => Ok(seq![f] + rest),
            },
        }
    }
}

/// The frames made for the methods of class `c`.
pub open spec fn spec_gen_frames(c: ClassView) -> Result<Seq<FrameView>, ExecError> {
    spec_gen_frames_of(c.constant_pool, c.this_class, c.methods)
}

/// A run of frame `f` with constant pool `cp`: the frame afterwards (same name and
/// bytecode) and whether the run ended without error.
pub open spec fn spec_exec_frame(cp: Seq<ConstantView>, f: FrameView) -> (FrameView, Result<(), ExecError>) {
    let (m, r) = spec_run_code(cp, f.bytecode, f.locals, f.stack, Seq::empty(), false);
    (FrameView { name: f.name, locals: m.locals, stack: m.stack, bytecode: f.bytecode }, r)
}

/// A run of each frame among `frames` named `name`, in order, each on a copy; the
/// first error if any.
pub open spec fn spec_run_frames(cp: Seq<ConstantView>, frames: Seq<FrameView>, name: Seq<char>) -> Result<
    (),
    ExecError,
>
    decreases frames.len(),
{
    if frames.len() == 0 {
        Ok(())
    } else if frames[0].name == name {
        match spec_exec_frame(cp, frames[0]).1 {
            Err(e) => Err(e),
            Ok(_) => spec_run_frames(cp, frames.drop_first(), name),
        }
    } else {
        spec_run_frames(cp, frames.drop_first(), name)
    }
}

/// The values of a sequence of attributes line up with the attributes.
pub proof fn lemma_attributes_view(s: Seq<Attribute>)
    ensures
        attributes_view(s).len() == s.len(),
        forall|i: int| 0 <= i < s.len() ==> attributes_view(s)[i] == attribute_view(#[trigger] s[i]),
    decreases s.len(),
{
    if s.len() > 0 {
        lemma_attributes_view(s.drop_last());
        assert forall|i: int| 0 <= i < s.len() implies attributes_view(s)[i] == attribute_view(
            #[trigger] s[i],
        ) by {
            if i < s.len() - 1 {
                assert(s.drop_last()[i] == s[i]);
            }
        }
    }
}

/// The local variable slots of a fresh frame.
fn make_locals(this_class: u16) -> (r: Vec<Varubals>)
    ensures
        r.deep_view() == initial_locals(this_class),
{
    let mut locals: Vec<Varubals> = Vec::new();
    locals.push(Varubals::Reference(ReferenceType::Constpool(this_class)));
    let mut i: usize = 1;
    while i < 256
        invariant
            1 <= i <= 256,
            locals.deep_view() =~= initial_locals(this_class).take(i as int),
        decreases 256 - i,
    {
        let ghost before = locals.deep_view();
        locals.push(Varubals::Null);
        assert(locals.deep_view() =~= before.push(ValueView::Null));
        assert(initial_locals(this_class).take(i + 1) =~= initial_locals(this_class).take(
            i as int,
        ).push(ValueView::Null));
        i = i + 1;
    }
    assert(initial_locals(this_class).take(256) =~= initial_locals(this_class));
    locals
}

/// The frame for method `m`.
fn gen_frame(cp: &Vec<ConstantPoolTags>, this_class: u16, m: &method_info) -> (r: Result<
    frame,
    ExecError,
>)
    ensures
        match r {
            Ok(f) => spec_gen_frame(cp.deep_view(), this_class, m.deep_view()) == Ok::<
                FrameView,
                ExecError,
            >(f.deep_view()),
            Err(e) => spec_gen_frame(cp.deep_view(), this_class, m.deep_view()) == Err::<
                FrameView,
                ExecError,
            >(e),
        },
{
    let name = match cp_lookup(cp, m.name_index) {
        None => return Err(ExecError::BadConstantIndex(m.name_index)),
        Some(ConstantPoolTags::Utf8(_, data)) => data.clone(),
        Some(_) => return Err(ExecError::MethodNameNotUtf8(m.name_index)),
    };
    let ghost av = attributes_view(m.attributes@);
    proof {
        lemma_attributes_view(m.attributes@);
    }
    let mut bytes: Vec<u8> = Vec::new();
    let mut i: usize = 0;
    while i < m.attributes.len()
        invariant
            i <= m.attributes@.len(),
            av == attributes_view(m.attributes@),
            av.len() == m.attributes@.len(),
            forall|k: int| 0 <= k < m.attributes@.len() ==> av[k] == attribute_view(#[trigger] m.attributes@[k]),
            bytes@ == last_code(av.take(i as int)),
        decreases m.attributes@.len() - i,
    {
        assert(av.take(i + 1).drop_last() =~= av.take(i as int));
        assert(av.take(i + 1).last() == attribute_view(m.attributes@[i as int]));
        match &m.attributes[i].info {
            AttributeInfo::Code(_, _, _, code, _, _, _) => {
                bytes = match copy_bytes(code.as_slice(), 0, code.len()) {
                    Some(b) => b,
                    None => Vec::new(),
                };
                assert(bytes@ =~= code@);
            },
            _ => {},
        }
        i = i + 1;
    }
    assert(av.take(m.attributes@.len() as int) =~= av);
    let local_varuble_array = make_locals(this_class);
    let operand_stack: Vec<Varubals> = Vec::new();
    let f = frame { name, local_varuble_array, operand_stack, bytecode: bytes };
    assert(f.deep_view().stack =~= Seq::<ValueView>::empty());
    Ok(f)
}

/// The frames for the methods of `class`, one per method, in order; refuses, with the
/// reason, a class with a method whose name index names no `Utf8` constant.
pub fn try_gen_frames(class: &class) -> (r: Result<Vec<frame>, ExecError>)
    ensures
        match r {
            Ok(fs) => spec_gen_frames(class.deep_view()) == Ok::<Seq<FrameView>, ExecError>(
                fs.deep_view(),
            ),
            Err(e) => spec_gen_frames(class.deep_view()) == Err::<Seq<FrameView>, ExecError>(e),
        },
{
    let ghost cv = class.deep_view();
    let mut frames: Vec<frame> = Vec::new();
    let mut i: usize = 0;
    assert(cv.methods.skip(0) =~= cv.methods);
    proof {
        match spec_gen_frames(cv) {
            Err(_) => {},
            Ok(all) => {
                assert(frames.deep_view() + all =~= all);
            },
        }
    }
    while i < class.methods.len()
        invariant
            i <= class.methods@.len(),
            cv == class.deep_view(),
            spec_gen_frames(cv) == (match spec_gen_frames_of(
                cv.constant_pool,
                cv.this_class,
                cv.methods.skip(i as int),
            ) {
                Err(e) => Err(e),
                Ok(rest) => Ok(frames.deep_view() + rest),
            }),
        decreases class.methods@.len() - i,
    {
        assert(cv.methods.skip(i as int)[0] == class.methods@[i as int].deep_view());
        assert(cv.methods.skip(i as int).drop_first() =~= cv.methods.skip(i + 1));
        match gen_frame(&class.constant_pool, class.this_class, &class.methods[i]) {
            Err(e) => {
                return Err(e);
            },
            Ok(f) => {
                let ghost before = frames.deep_view();
                let ghost fv = f.deep_view();
                frames.push(f);
                assert(frames.deep_view() =~= before.push(fv));
                proof {
                    match spec_gen_frames_of(cv.constant_pool, cv.this_class, cv.methods.skip(i + 1)) {
                        Err(_) => {},
                        Ok(rest) => {
                            assert(before + (seq![fv] + rest) =~= before.push(fv) + rest);
                        },
                    }
                }
            },
        }
        i = i + 1;
    }
    assert(cv.methods.skip(i as int) =~= Seq::<MethodView>::empty());
    assert(frames.deep_view() + Seq::<FrameView>::empty() =~= frames.deep_view());
    Ok(frames)
}


/// A copy of a frame.
fn copy_frame(f: &frame) -> (r: frame)
    ensures
        r.deep_view() == f.deep_view(),
{
    let bytecode = match copy_bytes(f.bytecode.as_slice(), 0, f.bytecode.len()) {
        Some(b) => b,
        None => Vec::new(),
    };
    assert(bytecode@ =~= f.bytecode@);
    frame {
        name: f.name.clone(),
        local_varuble_array: copy_values(&f.local_varuble_array),
        operand_stack: copy_values(&f.operand_stack),
        bytecode,
    }
}

impl class_runtime {
    /// A runtime for class `x`, with a frame for each of its methods and a program
    /// counter of zero; refuses, with the reason, a class with a method whose name
    /// index names no `Utf8` constant.
    pub fn try_new(x: class) -> (r: Result<Self, ExecError>)
        ensures
            match r {
                Ok(rt) => spec_gen_frames(x.deep_view()) == Ok::<Seq<FrameView>, ExecError>(
                    rt.frames_view(),
                ) && rt.class_view() == x.deep_view() && rt.pc_value() == 0,
                Err(e) => spec_gen_frames(x.deep_view()) == Err::<Seq<FrameView>, ExecError>(e),
            },
    {
        let frames = match try_gen_frames(&x) {
            Ok(f) => f,
            Err(e) => return Err(e),
        };
        Ok(class_runtime { class: x, pc: 0, frames })
    }

    /// A runtime for class `x`, with a frame for each of its methods and a program
    /// counter of zero. Every method's name index must name a `Utf8` constant
    /// (`try_new` checks it).
    pub fn new(x: class) -> (r: Self)
        requires
            spec_gen_frames(x.deep_view()) is Ok,
        ensures
            spec_gen_frames(x.deep_view()) == Ok::<Seq<FrameView>, ExecError>(r.frames_view()),
            r.class_view() == x.deep_view(),
            r.pc_value() == 0,
    {
        let frames = gen_frames(&x);
        class_runtime { class: x, pc: 0, frames }
    }

    /// The class.
    pub fn class(&self) -> (r: &class)
        ensures
            r.deep_view() == self.class_view(),
    {
        &self.class
    }

    /// The frames, one per method.
    pub fn frames(&self) -> (r: &Vec<frame>)
        ensures
            r.deep_view() == self.frames_view(),
    {
        &self.frames
    }

    /// Runs, each on a copy, every frame named `name`, in order, and stops at the first
    /// error, which it returns. The runtime itself is left as it was.
    pub fn try_run_method(&mut self, name: String) -> (r: Result<(), ExecError>)
        ensures
            *final(self) == *old(self),
            r == spec_run_frames(old(self).class_view().constant_pool, old(self).frames_view(), name@),
    {
        let ghost cp = self.class_view().constant_pool;
        let ghost fs = self.frames_view();
        let ghost me = *self;
        let mut i: usize = 0;
        assert(fs.skip(0) =~= fs);
        while i < self.frames.len()
            invariant
                *self == me,
                fs == self.frames_view(),
                cp == self.class_view().constant_pool,
                me == *old(self),
                i <= fs.len(),
                spec_run_frames(cp, fs, name@) == spec_run_frames(cp, fs.skip(i as int), name@),
            decreases fs.len() - i,
        {
            assert(fs.skip(i as int)[0] == fs[i as int]);
            assert(fs.skip(i as int).drop_first() =~= fs.skip(i + 1));
            assert(self.frames.deep_view()[i as int] == self.frames@[i as int].deep_view());
            if self.frames[i].name == name {
                let mut current_frame = copy_frame(&self.frames[i]);
                match self.try_exec(&mut current_frame) {
                    Err(e) => {
                        return Err(e);
                    },
                    Ok(()) => {},
                }
            }
            i = i + 1;
        }
        assert(fs.skip(i as int) =~= Seq::<FrameView>::empty());
        Ok(())
    }

    /// Runs the bytecode of frame `f` from its start with this class's constant pool,
    /// for at most as many instructions as the code has bytes: until a return
    /// instruction, the end of that count, or an error, which it returns (the frame is
    /// then left as the error found it). The runtime itself is left as it was.
    pub fn try_exec(&mut self, f: &mut frame) -> (r: Result<(), ExecError>)
        ensures
            *final(self) == *old(self),
            (final(f).deep_view(), r) == spec_exec_frame(
                old(self).class_view().constant_pool,
                old(f).deep_view(),
            ),
    {
        let mut printed: Vec<Printed> = Vec::new();
        assert(printed.deep_view() =~= Seq::<PrintedView>::empty());
        run_code(
            &self.class.constant_pool,
            f.bytecode.as_slice(),
            &mut f.local_varuble_array,
            &mut f.operand_stack,
            &mut printed,
            false,
        )
    }
}


/// The frames for the methods of `class`, one per method, in order. Every method's
/// name index must name a `Utf8` constant (`try_gen_frames` checks it).
pub fn gen_frames(class: &class) -> (r: Vec<frame>)
    requires
        spec_gen_frames(class.deep_view()) is Ok,
    ensures
        spec_gen_frames(class.deep_view()) == Ok::<Seq<FrameView>, ExecError>(r.deep_view()),
{
    match try_gen_frames(class) {
        Ok(fs) => fs,
        Err(_) => Vec::new(),
    }
}

impl class_runtime {
    /// Runs, each on a copy, every frame named `name`, in order. Each of those runs
    /// must succeed (`try_run_method` reports the first that does not). The runtime
    /// itself is left as it was.
    pub fn run_method(&mut self, name: String)
        requires
            spec_run_frames(old(self).class_view().constant_pool, old(self).frames_view(), name@)
                is Ok,
        ensures
            *final(self) == *old(self),
    {
        match self.try_run_method(name) {
            Ok(()) => {},
            Err(_) => {},
        }
    }

    /// Runs the bytecode of frame `f` from its start with this class's constant pool,
    /// for at most as many instructions as the code has bytes, until a return
    /// instruction or the end of that count. The run must succeed (`try_exec` reports
    /// an error instead): every instruction reached is one that is carried out, with
    /// the values, constants and bytes it needs. The runtime itself is left as it was.
    pub fn exec(&mut self, f: &mut frame)
        requires
            spec_exec_frame(old(self).class_view().constant_pool, old(f).deep_view()).1 is Ok,
        ensures
            *final(self) == *old(self),
            final(f).deep_view() == spec_exec_frame(
                old(self).class_view().constant_pool,
                old(f).deep_view(),
            ).0,
    {
        match self.try_exec(f) {
            Ok(()) => {},
            Err(_) => {},
        }
    }
}

/// The frames made for a class: one per method, in the order of the methods, each with
/// 256 local slots whose first holds a reference to the class and the others `Null`,
/// an empty operand stack, and the code of the method's last `Code` attribute.
pub proof fn lemma_gen_frames_shape(c: ClassView)
    ensures
        spec_gen_frames(c) matches Ok(fs) ==> {
            &&& fs.len() == c.methods.len()
            &&& forall|i: int|
                0 <= i < fs.len() ==> {
                    &&& (#[trigger] fs[i]).locals.len() == 256
                    &&& fs[i].locals[0] == ValueView::Reference(ReferenceType::Constpool(c.this_class))
                    &&& forall|k: int| 1 <= k < 256 ==> fs[i].locals[k] == ValueView::Null
                    &&& fs[i].stack.len() == 0
                    &&& fs[i].bytecode == last_code(c.methods[i].attributes)
                    &&& cp_entry(c.constant_pool, c.methods[i].name_index as int) matches Some(
                        ConstantView::Utf8(_, name),
                    ) && name == fs[i].name
                }
        },
{
    lemma_gen_frames_of_shape(c.constant_pool, c.this_class, c.methods);
}

/// See `lemma_gen_frames_shape`.
proof fn lemma_gen_frames_of_shape(cp: Seq<ConstantView>, this_class: u16, ms: Seq<MethodView>)
    ensures
        spec_gen_frames_of(cp, this_class, ms) matches Ok(fs) ==> {
            &&& fs.len() == ms.len()
            &&& forall|i: int|
                0 <= i < fs.len() ==> spec_gen_frame(cp, this_class, ms[i]) == Ok::<FrameView, ExecError>(#[trigger] fs[i])
        },
    decreases ms.len(),
{
    if ms.len() > 0 {
        lemma_gen_frames_of_shape(cp, this_class, ms.drop_first());
        if let Ok(fs) = spec_gen_frames_of(cp, this_class, ms) {
            assert forall|i: int| 0 <= i < fs.len() implies spec_gen_frame(cp, this_class, ms[i]) == Ok::<FrameView, ExecError>(#[trigger] fs[i]) by {
                if i > 0 {
                    assert(ms.drop_first()[i - 1] == ms[i]);
                }
            }
        }
    }
}


/// Running a frame keeps its name, its bytecode and its number of local slots.
pub proof fn lemma_exec_frame_keeps_shape(cp: Seq<ConstantView>, f: FrameView)
    ensures
        spec_exec_frame(cp, f).0.name == f.name,
        spec_exec_frame(cp, f).0.bytecode == f.bytecode,
        spec_exec_frame(cp, f).0.locals.len() == f.locals.len(),
{
    lemma_run_keeps_locals_len(
        cp,
        f.bytecode,
        crate::interp::mach(f.locals, f.stack, Seq::empty(), 0),
        f.bytecode.len(),
        false,
    );
}


impl Clone for Varubals {
    /// A copy with the same value.
    fn clone(&self) -> (r: Self)
        ensures
            r.deep_view() == self.deep_view(),
    {
        copy_value(self)
    }
}

impl Clone for frame {
    /// A copy with the same value.
    fn clone(&self) -> (r: Self)
        ensures
            r.deep_view() == self.deep_view(),
    {
        copy_frame(self)
    }
}

impl Clone for class_runtime {
    /// A copy with the same class, program counter and frames.
    fn clone(&self) -> (r: Self)
        ensures
            r.class_view() == self.class_view(),
            r.frames_view() == self.frames_view(),
            r.pc_value() == self.pc_value(),
    {
        let mut frames: Vec<frame> = Vec::new();
        let mut i: usize = 0;
        while i < self.frames.len()
            invariant
                i <= self.frames@.len(),
                frames.deep_view() =~= self.frames.deep_view().take(i as int),
            decreases self.frames@.len() - i,
        {
            let ghost before = frames.deep_view();
            frames.push(copy_frame(&self.frames[i]));
            assert(frames.deep_view() =~= before.push(self.frames.deep_view()[i as int]));
            assert(self.frames.deep_view().take(i + 1) =~= self.frames.deep_view().take(
                i as int,
            ).push(self.frames.deep_view()[i as int]));
            i = i + 1;
        }
        assert(self.frames.deep_view().take(self.frames@.len() as int) =~= self.frames.deep_view());
        class_runtime { class: self.class.clone(), pc: self.pc, frames }
    }
}

} // verus!
