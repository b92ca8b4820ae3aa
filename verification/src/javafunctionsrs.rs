use vstd::prelude::*;
use crate::classruntime::{Varubals, ValueView, Printed, PrintedView, pop_value};
use crate::error::ExecError;
use crate::reader::text_is;

verus! {

/// What a call of the built-in method `class.name` does to the operand stack `stack`:
/// the stack afterwards and the line printed, if any. `java/lang/Object.<init>` does
/// nothing; `java/io/PrintStream.println` takes the top value and prints it if it is
/// a string or an int; other methods and classes are refused.
pub open spec fn spec_internel_function(class: Seq<char>, name: Seq<char>, stack: Seq<ValueView>) -> (
    Seq<ValueView>,
    Result<Option<PrintedView>, ExecError>,
) {
    if class == "java/lang/Object"@ {
        if name == "<init>"@ {
            (stack, Ok(None))
        } else {
            (stack, Err(ExecError::UnsupportedMethod))
        }
    } else if class == "java/io/PrintStream"@ {
        if name == "println"@ {
            if stack.len() == 0 {
                (stack, Err(ExecError::EmptyStack))
            } else {
                let rest = stack.drop_last();
                match stack.last() {
                    ValueView::String(g) => (rest, Ok(Some(PrintedView::Text(g)))),
                    ValueView::Int(g) => (rest, Ok(Some(PrintedView::Int(g)))),
                    _ => (rest, Err(ExecError::CantPrint)),
                }
            }
        } else {
            (stack, Err(ExecError::UnsupportedMethod))
        }
    } else {
        (stack, Err(ExecError::UnsupportedClass))
    }
}

/// The value of the outcome of a built-in call.
pub open spec fn call_result_view(r: Result<Option<Printed>, ExecError>) -> Result<
    Option<PrintedView>,
    ExecError,
> {
    match r {
        Ok(Some(p)) => Ok(Some(p.deep_view())),
        Ok(None) => Ok(None),
        Err(e) => Err(e),
    }
}

/// Carries out a call of the built-in method `class.name` on the operand stack
/// `local_stack`, and returns the line that it prints, if any (the caller prints it);
/// refuses, with the reason, a call that `execute_internel_function` does not take.
pub fn try_execute_internel_function(
    class: &str,
    name: &str,
    _tpye: &str,
    local_stack: &mut Vec<Varubals>,
) -> (r: Result<Option<Printed>, ExecError>)
    ensures
        (final(local_stack).deep_view(), call_result_view(r)) == spec_internel_function(
            class@,
            name@,
            old(local_stack).deep_view(),
        ),
{
    if text_is(class, "java/lang/Object") {
        if text_is(name, "<init>") {
            Ok(None)
        } else {
            Err(ExecError::UnsupportedMethod)
        }
    } else if text_is(class, "java/io/PrintStream") {
        if text_is(name, "println") {
            match pop_value(local_stack) {
                None => Err(ExecError::EmptyStack),
                Some(value) => match value {
                    Varubals::String(g) => Ok(Some(Printed::Text(g))),
                    Varubals::Int(g) => Ok(Some(Printed::Int(g))),
                    _ => Err(ExecError::CantPrint),
                },
            }
        } else {
            Err(ExecError::UnsupportedMethod)
        }
    } else {
        Err(ExecError::UnsupportedClass)
    }
}

/// Carries out a call of the built-in method `class.name` on the operand stack
/// `local_stack`, and returns the line that it prints, if any (the caller prints it).
/// The call must be one that is carried out (`try_execute_internel_function` checks
/// it): `java/lang/Object.<init>`, or `java/io/PrintStream.println` with a string or
/// an int on top of the stack.
pub fn execute_internel_function(
    class: &str,
    name: &str,
    _tpye: &str,
    local_stack: &mut Vec<Varubals>,
) -> (r: Option<Printed>)
    requires
        spec_internel_function(class@, name@, old(local_stack).deep_view()).1 is Ok,
    ensures
        (final(local_stack).deep_view(), Ok::<Option<PrintedView>, ExecError>(
            match r {
                Some(p) => Some(p.deep_view()),
                None => None,
            },
        )) == spec_internel_function(class@, name@, old(local_stack).deep_view()),
{
    match try_execute_internel_function(class, name, _tpye, local_stack) {
        Ok(line) => line,
        Err(_) => None,
    }
}

} // verus!
