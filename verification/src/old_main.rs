use vstd::prelude::*;
pub use crate::classruntime::{Varubals, ReferenceType};
use crate::attributes::{AttributeInfo, AttributeInfoView, AttributeView, attribute_view, attributes_view};
use crate::class::{try_load_class, spec_load_class};
use crate::classruntime::{Printed, PrintedView, ValueView, lemma_attributes_view};
use crate::constpool::{ConstantPoolTags, ConstantView, cp_entry};
use crate::error::{ClassError, ExecError};
use crate::interp::{cp_lookup, run_code, spec_run_code, mach, after_lines, lemma_run_ignores_earlier_lines};
use crate::method::{method_info, MethodView};
use crate::reader::text_is;

verus! {

/// Why the older runner stopped: the class file was refused, or a run failed.
#[derive(Debug, Clone, Copy, PartialEq, Eq, Structural)]
pub enum RunError {
    Class(ClassError),
    Exec(ExecError),
}

/// What the older runner did: the lines it printed, in order, and how it ended.
#[derive(Debug)]
pub struct LegacyRun {
    pub printed: Vec<Printed>,
    pub result: Result<(), RunError>,
}

/// The local variable slots with which the older runner starts a method: 256 `Null`
/// slots, then one more holding a reference to the class.
pub open spec fn legacy_locals(this_class: u16) -> Seq<ValueView> {
    Seq::new(
        257,
        |i: int|
            if i == 256 {
                ValueView::Reference(ReferenceType::Constpool(this_class))
            } else {
                ValueView::Null
            },
    )
}

/// The older runner on the attributes `attrs` of a method, in order, having printed
/// `printed` so far: each `Code` attribute's bytecode runs with fresh local slots and
/// an empty operand stack, with built-in calls carried out; any other attribute is an
/// error. The lines printed, and the first error if any.
pub open spec fn spec_legacy_attrs(
    cp: Seq<ConstantView>,
    this_class: u16,
    attrs: Seq<AttributeView>,
    printed: Seq<PrintedView>,
) -> (Seq<PrintedView>, Result<(), ExecError>)
    decreases attrs.len(),
{
    if attrs.len() == 0 {
        (printed, Ok(()))
    } else {
        match attrs[0].info {
            AttributeInfoView::Code(_, _, _, code, _, _, _) => {
                let (m, r) = spec_run_code(
                    cp,
                    code,
                    legacy_locals(this_class),
                    Seq::empty(),
                    printed,
                    true,
                );
                match r {
                    Err(e) => (m.printed, Err(e)),
                    Ok(_) => spec_legacy_attrs(cp, this_class, attrs.drop_first(), m.printed),
                }
            },
            _ => (printed, Err(ExecError::UnsupportedAttribute)),
        }
    }
}

/// Whether the older runner passes over a method whose name entry is `e`: it runs only
/// methods named `<init>` or `main`, and those whose name entry is not a `Utf8` one.
pub open spec fn legacy_skips(e: ConstantView) -> bool {
    match e {
        ConstantView::Utf8(_, name) => name != "<init>"@ && name != "main"@,
        _ => false,
    }
}

/// The older runner on method `m`.
pub open spec fn spec_legacy_method(
    cp: Seq<ConstantView>,
    this_class: u16,
    m: MethodView,
    printed: Seq<PrintedView>,
) -> (Seq<PrintedView>, Result<(), ExecError>) {
    match cp_entry(cp, m.name_index as int) {
        None => (printed, Err(ExecError::BadConstantIndex(m.name_index))),
        Some(e) => if legacy_skips(e) {
            (printed, Ok(()))
        } else {
            spec_legacy_attrs(cp, this_class, m.attributes, printed)
        },
    }
}

/// The older runner on the methods `ms`, in order.
pub open spec fn spec_legacy_methods(
    cp: Seq<ConstantView>,
    this_class: u16,
    ms: Seq<MethodView>,
    printed: Seq<PrintedView>,
) -> (Seq<PrintedView>, Result<(), ExecError>)
    decreases ms.len(),
{
    if ms.len() == 0 {
        (printed, Ok(()))
    } else {
        let (p, r) = spec_legacy_method(cp, this_class, ms[0], printed);
        match r {
            Err(e) => (p, Err(e)),
            Ok(_) => spec_legacy_methods(cp, this_class, ms.drop_first(), p),
        }
    }
}

/// The older runner on the bytes of a class file: it loads the class, then runs its
/// methods named `<init>` or `main`. The lines printed and how it ended.
pub open spec fn spec_omain(s: Seq<u8>) -> (Seq<PrintedView>, Result<(), RunError>) {
    match spec_load_class(s) {
        Err(e) => (Seq::empty(), Err(RunError::Class(e))),
        Ok(c) => {
            let (p, r) = spec_legacy_methods(c.constant_pool, c.this_class, c.methods, Seq::empty());
            (
                p,
                match r {
                    Ok(_) => Ok(()),
                    Err(e) => Err(RunError::Exec(e)),
                },
            )
        },
    }
}

/// The older runner on a method's attributes does not read the lines printed before:
/// with more lines printed earlier it ends the same way, and prints the same lines
/// after them.
pub proof fn lemma_legacy_attrs_ignore_earlier_lines(
    cp: Seq<ConstantView>,
    this_class: u16,
    attrs: Seq<AttributeView>,
    pre: Seq<PrintedView>,
    printed: Seq<PrintedView>,
)
    ensures
        spec_legacy_attrs(cp, this_class, attrs, pre + printed) == (
            pre + spec_legacy_attrs(cp, this_class, attrs, printed).0,
            spec_legacy_attrs(cp, this_class, attrs, printed).1,
        ),
    decreases attrs.len(),
{
    if attrs.len() > 0 {
        if let AttributeInfoView::Code(_, _, _, code, _, _, _) = attrs[0].info {
            let m0 = mach(legacy_locals(this_class), Seq::empty(), printed, 0);
            assert(mach(legacy_locals(this_class), Seq::empty(), pre + printed, 0) == after_lines(
                m0,
                pre,
            ));
            lemma_run_ignores_earlier_lines(cp, code, m0, pre, code.len(), true);
            let m = spec_run_code(cp, code, legacy_locals(this_class), Seq::empty(), printed, true).0;
            lemma_legacy_attrs_ignore_earlier_lines(cp, this_class, attrs.drop_first(), pre, m.printed);
        }
    }
}

/// See `lemma_legacy_attrs_ignore_earlier_lines`: the same holds of one method.
pub proof fn lemma_legacy_method_ignores_earlier_lines(
    cp: Seq<ConstantView>,
    this_class: u16,
    m: MethodView,
    pre: Seq<PrintedView>,
    printed: Seq<PrintedView>,
)
    ensures
        spec_legacy_method(cp, this_class, m, pre + printed) == (
            pre + spec_legacy_method(cp, this_class, m, printed).0,
            spec_legacy_method(cp, this_class, m, printed).1,
        ),
{
    lemma_legacy_attrs_ignore_earlier_lines(cp, this_class, m.attributes, pre, printed);
}

/// The older runner picks methods by name: a method whose name entry is the text
/// `<init>` or `main` has each of its `Code` attributes run, exactly as the runner on
/// its attributes does; a method with any other text as its name is passed over,
/// printing nothing and failing in nothing; a name index that names no entry is an
/// error.
pub proof fn lemma_legacy_method_by_name(
    cp: Seq<ConstantView>,
    this_class: u16,
    m: MethodView,
    printed: Seq<PrintedView>,
)
    ensures
        cp_entry(cp, m.name_index as int) matches Some(ConstantView::Utf8(_, name)) ==> {
            &&& (name == "<init>"@ || name == "main"@) ==> spec_legacy_method(
                cp,
                this_class,
                m,
                printed,
            ) == spec_legacy_attrs(cp, this_class, m.attributes, printed)
            &&& (name != "<init>"@ && name != "main"@) ==> spec_legacy_method(
                cp,
                this_class,
                m,
                printed,
            ) == (printed, Ok::<(), ExecError>(()))
        },
        cp_entry(cp, m.name_index as int) is None ==> spec_legacy_method(cp, this_class, m, printed)
            == (printed, Err::<(), ExecError>(ExecError::BadConstantIndex(m.name_index))),
{
}

/// The older runner goes through the methods in order, on the lines printed so far:
/// running one more method after `ms` runs `ms`, then, if they all succeeded, that
/// method on the lines they left.
proof fn lemma_legacy_methods_push(
    cp: Seq<ConstantView>,
    this_class: u16,
    ms: Seq<MethodView>,
    m: MethodView,
    printed: Seq<PrintedView>,
)
    ensures
        spec_legacy_methods(cp, this_class, ms.push(m), printed) == (match spec_legacy_methods(
            cp,
            this_class,
            ms,
            printed,
        ) {
            (q, Ok(_)) => spec_legacy_method(cp, this_class, m, q),
            (q, Err(e)) => (q, Err(e)),
        }),
    decreases ms.len(),
{
    if ms.len() == 0 {
        let (p, r) = spec_legacy_method(cp, this_class, m, printed);
        assert(ms.push(m)[0] == m);
        assert(ms.push(m).drop_first() =~= Seq::<MethodView>::empty());
        assert(spec_legacy_methods(cp, this_class, Seq::empty(), p) == (p, Ok::<(), ExecError>(())));
        if r is Ok {
            let unit: () = r->Ok_0;
            assert(r == Ok::<(), ExecError>(unit));
        }
    } else {
        assert(ms.push(m)[0] == ms[0]);
        assert(ms.push(m).drop_first() =~= ms.drop_first().push(m));
        let (p, r) = spec_legacy_method(cp, this_class, ms[0], printed);
        if r is Ok {
            lemma_legacy_methods_push(cp, this_class, ms.drop_first(), m, p);
        }
    }
}

/// The lines that the older runner prints for a class are those of its methods, one
/// method after another in method order: for methods `ms` and one more method `m`, the
/// lines are those of `ms` followed by those that `m` prints on its own, and the run
/// ends as `m`'s does, unless `ms` already failed, in which case `m` is not run.
pub proof fn lemma_legacy_methods_in_order(
    cp: Seq<ConstantView>,
    this_class: u16,
    ms: Seq<MethodView>,
    m: MethodView,
)
    ensures
        spec_legacy_methods(cp, this_class, ms.push(m), Seq::empty()) == (match spec_legacy_methods(
            cp,
            this_class,
            ms,
            Seq::empty(),
        ) {
            (q, Ok(_)) => (
                q + spec_legacy_method(cp, this_class, m, Seq::empty()).0,
                spec_legacy_method(cp, this_class, m, Seq::empty()).1,
            ),
            (q, Err(e)) => (q, Err(e)),
        }),
{
    lemma_legacy_methods_push(cp, this_class, ms, m, Seq::empty());
    let q = spec_legacy_methods(cp, this_class, ms, Seq::empty()).0;
    lemma_legacy_method_ignores_earlier_lines(cp, this_class, m, q, Seq::empty());
    assert(q + Seq::<PrintedView>::empty() =~= q);
}

/// The local variable slots with which the older runner starts a method.
fn make_legacy_locals(this_class: u16) -> (r: Vec<Varubals>)
    ensures
        r.deep_view() == legacy_locals(this_class),
{
    let mut locals: Vec<Varubals> = Vec::new();
    let mut i: usize = 0;
    while i < 256
        invariant
            i <= 256,
            locals.deep_view() =~= legacy_locals(this_class).take(i as int),
        decreases 256 - i,
    {
        let ghost before = locals.deep_view();
        locals.push(Varubals::Null);
        assert(locals.deep_view() =~= before.push(ValueView::Null));
        assert(legacy_locals(this_class).take(i + 1) =~= legacy_locals(this_class).take(
            i as int,
        ).push(ValueView::Null));
        i = i + 1;
    }
    let ghost before = locals.deep_view();
    let r = Varubals::Reference(ReferenceType::Constpool(this_class));
    locals.push(r);
    assert(locals.deep_view() =~= before.push(r.deep_view()));
    assert(legacy_locals(this_class) =~= legacy_locals(this_class).take(256).push(
        r.deep_view(),
    ));
    locals
}

/// The older runner on method `m`, adding to `printed` what it prints.
fn run_legacy_method(
    cp: &Vec<ConstantPoolTags>,
    this_class: u16,
    m: &method_info,
    printed: &mut Vec<Printed>,
) -> (r: Result<(), ExecError>)
    ensures
        (final(printed).deep_view(), r) == spec_legacy_method(
            cp.deep_view(),
            this_class,
            m.deep_view(),
            old(printed).deep_view(),
        ),
{
    let ghost cpv = cp.deep_view();
    match cp_lookup(cp, m.name_index) {
        None => {
            return Err(ExecError::BadConstantIndex(m.name_index));
        },
        Some(ConstantPoolTags::Utf8(_, data)) => {
            if !text_is(data.as_str(), "<init>") && !text_is(data.as_str(), "main") {
                return Ok(());
            }
        },
        Some(_) => {},
    }
    let ghost av = attributes_view(m.attributes@);
    let ghost p0 = printed.deep_view();
    proof {
        lemma_attributes_view(m.attributes@);
    }
    let mut i: usize = 0;
    assert(av.skip(0) =~= av);
    while i < m.attributes.len()
        invariant
            i <= m.attributes@.len(),
            cpv == cp.deep_view(),
            p0 == old(printed).deep_view(),
            spec_legacy_method(cpv, this_class, m.deep_view(), p0) == spec_legacy_attrs(
                cpv,
                this_class,
                av,
                p0,
            ),
            av == attributes_view(m.attributes@),
            av.len() == m.attributes@.len(),
            forall|k: int| 0 <= k < m.attributes@.len() ==> av[k] == attribute_view(#[trigger] m.attributes@[k]),
            spec_legacy_attrs(cpv, this_class, av, p0) == spec_legacy_attrs(
                cpv,
                this_class,
                av.skip(i as int),
                printed.deep_view(),
            ),
        decreases m.attributes@.len() - i,
    {
        assert(av.skip(i as int)[0] == attribute_view(m.attributes@[i as int]));
        assert(av.skip(i as int).drop_first() =~= av.skip(i + 1));
        match &m.attributes[i].info {
            AttributeInfo::Code(_, _, _, code, _, _, _) => {
                let mut locals = make_legacy_locals(this_class);
                let mut stack: Vec<Varubals> = Vec::new();
                assert(stack.deep_view() =~= Seq::<ValueView>::empty());
                match run_code(cp, code.as_slice(), &mut locals, &mut stack, printed, true) {
                    Err(e) => {
                        return Err(e);
                    },
                    Ok(()) => {},
                }
            },
            _ => {
                return Err(ExecError::UnsupportedAttribute);
            },
        }
        i = i + 1;
    }
    assert(av.skip(i as int) =~= Seq::<AttributeView>::empty());
    Ok(())
}

/// The older runner on the methods `methods` of a class with constant pool `cp` and
/// this-class index `this_class`, in order, adding to `printed` what they print.
fn run_legacy_methods(
    cp: &Vec<ConstantPoolTags>,
    this_class: u16,
    methods: &Vec<method_info>,
    printed: &mut Vec<Printed>,
) -> (r: Result<(), ExecError>)
    ensures
        (final(printed).deep_view(), r) == spec_legacy_methods(
            cp.deep_view(),
            this_class,
            methods.deep_view(),
            old(printed).deep_view(),
        ),
{
    let ghost cpv = cp.deep_view();
    let ghost ms = methods.deep_view();
    let ghost p0 = printed.deep_view();
    let mut i: usize = 0;
    assert(ms.skip(0) =~= ms);
    while i < methods.len()
        invariant
            i <= ms.len(),
            cpv == cp.deep_view(),
            ms == methods.deep_view(),
            p0 == old(printed).deep_view(),
            spec_legacy_methods(cpv, this_class, ms, p0) == spec_legacy_methods(
                cpv,
                this_class,
                ms.skip(i as int),
                printed.deep_view(),
            ),
        decreases ms.len() - i,
    {
        assert(ms.skip(i as int)[0] == methods@[i as int].deep_view());
        assert(ms.skip(i as int).drop_first() =~= ms.skip(i + 1));
        match run_legacy_method(cp, this_class, &methods[i], printed) {
            Err(e) => {
                return Err(e);
            },
            Ok(()) => {},
        }
        i = i + 1;
    }
    assert(ms.skip(i as int) =~= Seq::<MethodView>::empty());
    Ok(())
}

/// The older runner on the bytes of a class file: loads the class, then runs its
/// methods named `<init>` or `main` in order (see `spec_omain`), with calls of built-in
/// methods carried out. Returns the lines to print, in order, and how it ended: a
/// class that does not load, or a run that fails, is reported instead of taken.
pub fn try_omain(classfile: Vec<u8>) -> (r: LegacyRun)
    ensures
        (r.printed.deep_view(), r.result) == spec_omain(classfile@),
{
    let mut printed: Vec<Printed> = Vec::new();
    assert(printed.deep_view() =~= Seq::<PrintedView>::empty());
    let c = match try_load_class(classfile) {
        Ok(c) => c,
        Err(e) => {
            return LegacyRun { printed, result: Err(RunError::Class(e)) };
        },
    };
    match run_legacy_methods(&c.constant_pool, c.this_class, &c.methods, &mut printed) {
        Err(e) => LegacyRun { printed, result: Err(RunError::Exec(e)) },
        Ok(()) => LegacyRun { printed, result: Ok(()) },
    }
}

/// The older runner on the bytes of a class file: loads the class, then runs its
/// methods named `<init>` or `main` in order (see `spec_omain`), with calls of built-in
/// methods carried out, and returns the lines to print, in order. The class must load
/// and its runs must succeed (`try_omain` reports where they do not).
pub fn omain(classfile: Vec<u8>) -> (r: Vec<Printed>)
    requires
        spec_omain(classfile@).1 is Ok,
    ensures
        r.deep_view() == spec_omain(classfile@).0,
{
    let run = try_omain(classfile);
    run.printed
}

} // verus!
