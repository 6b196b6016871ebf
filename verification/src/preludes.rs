//! The common host functions every embedding gets: structural equality, an
//! assertion, boolean operators, and list indexing.

use vstd::prelude::*;

verus! {

use vstd::std_specs::cmp::PartialEqSpec;
use crate::{HostBindingV, HostFunction, HostFunctionBinding, WanderError, hfparams_view};
use crate::bindings::{Bindings, BindingsV, bind_host_model, empty_env};
use crate::interpreter::outcome_view;
use crate::lexer::NoTransformer;
use crate::values::{
    ValueV, WanderType, WanderValue, clone_value, lemma_values_view_index, val_eq, value_view,
    values_equal, values_view,
};

/// The host functions of the common prelude.
#[derive(Debug, PartialEq, Eq)]
pub enum CommonFunction {
    /// `Core.eq`: whether two values are equal.
    Eq,
    /// `Assert.assertEq`: fails unless two values are equal.
    AssertEq,
    /// `Bool.and`: whether two booleans are both true.
    And,
    /// `Bool.not`: the opposite of a boolean.
    Not,
    /// `List.at`: the member of a list at an offset.
    At,
}

/// Message when `Core.eq` is not given exactly two arguments.
pub open spec fn msg_eq_arity() -> Seq<char> {
    "`eq` function requires two parameters."@
}

/// Message when `Assert.assertEq` is not given exactly two arguments.
pub open spec fn msg_assert_arity() -> Seq<char> {
    "`assertEq` function requires two parameters."@
}

/// Message when an assertion fails.
pub open spec fn msg_assert_failed() -> Seq<char> {
    "Assertion failed!"@
}

/// Message when `Bool.and` is not given two booleans.
pub open spec fn msg_and_args() -> Seq<char> {
    "`and` function requires two boolean parameters."@
}

/// Message when `Bool.not` is not given one boolean.
pub open spec fn msg_not_args() -> Seq<char> {
    "`not` function requires one boolean parameter."@
}

/// Message when `List.at` is not given an in-range offset and a list.
pub open spec fn msg_at_err() -> Seq<char> {
    "`at` function err."@
}

/// What each prelude function returns on given arguments, if and only if.
/// The equality-based functions compare with [`val_eq`], which is pinned
/// whenever the host type's equality obeys its specification; the boolean
/// and list functions are pinned outright.
pub open spec fn common_run_rel<T: PartialEq>(
    f: CommonFunction,
    args: Seq<ValueV<T>>,
    out: Result<ValueV<T>, Seq<char>>,
) -> bool {
    match f {
        CommonFunction::Eq => if args.len() == 2 {
            &&& out matches Ok(v)
            &&& out->Ok_0 is Boolean
            &&& T::obeys_eq_spec() ==> out->Ok_0->Boolean_0 == val_eq(args[0], args[1])
        } else {
            out == Err::<ValueV<T>, Seq<char>>(msg_eq_arity())
        },
        CommonFunction::AssertEq => if args.len() == 2 {
            &&& (out == Ok::<ValueV<T>, Seq<char>>(ValueV::Nothing) || out == Err::<
                ValueV<T>,
                Seq<char>,
            >(msg_assert_failed()))
            &&& T::obeys_eq_spec() ==> out == if val_eq(args[0], args[1]) {
                Ok::<ValueV<T>, Seq<char>>(ValueV::Nothing)
            } else {
                Err::<ValueV<T>, Seq<char>>(msg_assert_failed())
            }
        } else {
            out == Err::<ValueV<T>, Seq<char>>(msg_assert_arity())
        },
        CommonFunction::And => if args.len() == 2 && args[0] is Boolean && args[1] is Boolean {
            out == Ok::<ValueV<T>, Seq<char>>(
                ValueV::Boolean(args[0]->Boolean_0 && args[1]->Boolean_0),
            )
        } else {
            out == Err::<ValueV<T>, Seq<char>>(msg_and_args())
        },
        CommonFunction::Not => if args.len() == 1 && args[0] is Boolean {
            out == Ok::<ValueV<T>, Seq<char>>(ValueV::Boolean(!args[0]->Boolean_0))
        } else {
            out == Err::<ValueV<T>, Seq<char>>(msg_not_args())
        },
        CommonFunction::At => if args.len() == 2 && args[0] is Int && args[1] is List && 0 <= args[0]->Int_0
            && args[0]->Int_0 < args[1]->List_0.len() {
            out == Ok::<ValueV<T>, Seq<char>>(args[1]->List_0[args[0]->Int_0 as int])
        } else {
            out == Err::<ValueV<T>, Seq<char>>(msg_at_err())
        },
    }
}

/// The metadata view each prelude function reports.  The type parameter
/// names the host payload of the embedding asking, so the contract of
/// [`HostFunction::binding`] can be stated inside the generic impl.
pub open spec fn common_binding_v<T: PartialEq>(f: CommonFunction) -> HostBindingV {
    match f {
        CommonFunction::Eq => eq_binding_v(),
        CommonFunction::AssertEq => assert_eq_binding_v(),
        CommonFunction::And => and_binding_v(),
        CommonFunction::Not => not_binding_v(),
        CommonFunction::At => at_binding_v(),
    }
}

impl<T: PartialEq> HostFunction<T> for CommonFunction {
    /// Runs the selected prelude function on the evaluated arguments; the
    /// result is pinned by [`common_run_rel`].
    fn run(&self, arguments: &Vec<WanderValue<T>>) -> (r: Result<WanderValue<T>, WanderError>)
        ensures
            common_run_rel(*self, values_view(arguments@), outcome_view(r)),
    {
        broadcast use crate::values::lemma_value_view_variant;

        proof {
            lemma_values_view_index(arguments@);
        }
        let ghost args = values_view(arguments@);
        match self {
            CommonFunction::Eq => {
                if arguments.len() == 2 {
                    let b = values_equal(&arguments[0], &arguments[1]);
                    proof {
                        if T::obeys_eq_spec() {
                            assert(b == val_eq(args[0], args[1]));
                        }
                    }
                    Ok(WanderValue::Boolean(b))
                } else {
                    Err(WanderError("`eq` function requires two parameters.".to_owned()))
                }
            },
            CommonFunction::AssertEq => {
                if arguments.len() == 2 {
                    let b = values_equal(&arguments[0], &arguments[1]);
                    proof {
                        if T::obeys_eq_spec() {
                            assert(b == val_eq(args[0], args[1]));
                        }
                    }
                    if b {
                        Ok(WanderValue::Nothing)
                    } else {
                        Err(WanderError("Assertion failed!".to_owned()))
                    }
                } else {
                    Err(WanderError("`assertEq` function requires two parameters.".to_owned()))
                }
            },
            CommonFunction::And => {
                if arguments.len() == 2 {
                    let l = match &arguments[0] {
                        WanderValue::Boolean(l) => Some(*l),
                        _ => None,
                    };
                    let r = match &arguments[1] {
                        WanderValue::Boolean(r) => Some(*r),
                        _ => None,
                    };
                    proof {
                        assert(args[0] == value_view(arguments@[0]));
                        assert(args[1] == value_view(arguments@[1]));
                    }
                    match (l, r) {
                        (Some(l), Some(r)) => Ok(WanderValue::Boolean(l && r)),
                        _ => {
                            proof {
                                assert(!(args[0] is Boolean && args[1] is Boolean));
                            }
                            Err(
                                WanderError(
                                    "`and` function requires two boolean parameters.".to_owned(),
                                ),
                            )
                        },
                    }
                } else {
                    Err(WanderError("`and` function requires two boolean parameters.".to_owned()))
                }
            },
            CommonFunction::Not => {
                if arguments.len() == 1 {
                    match &arguments[0] {
                        WanderValue::Boolean(v) => Ok(WanderValue::Boolean(!*v)),
                        _ => {
                            proof {
                                assert(!(args[0] is Boolean));
                            }
                            Err(
                                WanderError(
                                    "`not` function requires one boolean parameter.".to_owned(),
                                ),
                            )
                        },
                    }
                } else {
                    Err(WanderError("`not` function requires one boolean parameter.".to_owned()))
                }
            },
            CommonFunction::At => {
                if arguments.len() == 2 {
                    let idx = match &arguments[0] {
                        WanderValue::Int(n) => Some(*n),
                        _ => None,
                    };
                    proof {
                        assert(args[0] == value_view(arguments@[0]));
                        assert(args[1] == value_view(arguments@[1]));
                    }
                    match (idx, &arguments[1]) {
                        (Some(n), WanderValue::List(vs)) => {
                            proof {
                                lemma_values_view_index(vs@);
                            }
                            if 0 <= n && (n as i128) < (vs.len() as i128) {
                                let v = clone_value(&vs[n as usize]);
                                proof {
                                    assert(n as usize as int == n as int);
                                    assert(value_view(v) == value_view(vs@[n as int]));
                                    assert(values_view(vs@)[n as int] == value_view(
                                        vs@[n as int],
                                    ));
                                }
                                Ok(v)
                            } else {
                                Err(WanderError("`at` function err.".to_owned()))
                            }
                        },
                        _ => {
                            proof {
                                assert(!(args[0] is Int && args[1] is List));
                            }
                            Err(WanderError("`at` function err.".to_owned()))
                        },
                    }
                } else {
                    Err(WanderError("`at` function err.".to_owned()))
                }
            },
        }
    }

    /// The binding metadata for the selected prelude function; the view is
    /// exactly [`common_binding_v`].  The contract lives on
    /// [`common_binding`], whose signature names the host type.
    fn binding(&self) -> (r: HostFunctionBinding) {
        common_binding::<T>(self)
    }
}

/// The binding metadata of one prelude function; the view is exactly
/// [`common_binding_v`].
pub fn common_binding<T: PartialEq>(f: &CommonFunction) -> (r: HostFunctionBinding)
    ensures
        r@ == common_binding_v::<T>(*f),
{
    match f {
        CommonFunction::Eq => mk_eq_binding(),
        CommonFunction::AssertEq => mk_assert_eq_binding(),
        CommonFunction::And => mk_and_binding(),
        CommonFunction::Not => mk_not_binding(),
        CommonFunction::At => mk_at_binding(),
    }
}

/// The view of `Core.eq`'s metadata.
pub open spec fn eq_binding_v() -> HostBindingV {
    HostBindingV {
        name: "Core.eq"@,
        parameters: seq![("left"@, WanderType::Any), ("right"@, WanderType::Any)],
        result: WanderType::Any,
        doc_string: "Check if two values are equal."@,
    }
}

/// The view of `Assert.assertEq`'s metadata.
pub open spec fn assert_eq_binding_v() -> HostBindingV {
    HostBindingV {
        name: "Assert.assertEq"@,
        parameters: seq![("value"@, WanderType::Any), ("expected"@, WanderType::Any)],
        result: WanderType::Nothing,
        doc_string: "Assert that two values are equal."@,
    }
}

/// The view of `Bool.and`'s metadata.
pub open spec fn and_binding_v() -> HostBindingV {
    HostBindingV {
        name: "Bool.and"@,
        parameters: seq![("left"@, WanderType::Boolean), ("right"@, WanderType::Boolean)],
        result: WanderType::Boolean,
        doc_string: "Check if two boolean values are both true."@,
    }
}

/// The view of `Bool.not`'s metadata.
pub open spec fn not_binding_v() -> HostBindingV {
    HostBindingV {
        name: "Bool.not"@,
        parameters: seq![("value"@, WanderType::Boolean)],
        result: WanderType::Boolean,
        doc_string: "Return the opposite of the boolean value passed."@,
    }
}

/// The view of `List.at`'s metadata.
pub open spec fn at_binding_v() -> HostBindingV {
    HostBindingV {
        name: "List.at"@,
        parameters: seq![("offset"@, WanderType::Int), ("list"@, WanderType::List)],
        result: WanderType::Any,
        doc_string: "Get the value at a given location."@,
    }
}

/// Builds a two-parameter metadata record.
fn mk_binding2(
    name: &str,
    p1: &str,
    t1: WanderType,
    p2: &str,
    t2: WanderType,
    result: WanderType,
    doc: &str,
) -> (r: HostFunctionBinding)
    ensures
        r@ == (HostBindingV {
            name: name@,
            parameters: seq![(p1@, t1), (p2@, t2)],
            result: result,
            doc_string: doc@,
        }),
{
    let mut parameters: Vec<(String, WanderType)> = Vec::new();
    parameters.push((p1.to_owned(), t1));
    parameters.push((p2.to_owned(), t2));
    let r = HostFunctionBinding {
        name: name.to_owned(),
        parameters,
        result,
        doc_string: doc.to_owned(),
    };
    proof {
        broadcast use crate::lemma_hfparams_view_index;

        assert(hfparams_view(r.parameters@) =~= seq![(p1@, t1), (p2@, t2)]);
    }
    r
}

/// Builds a one-parameter metadata record.
fn mk_binding1(name: &str, p1: &str, t1: WanderType, result: WanderType, doc: &str) -> (r:
    HostFunctionBinding)
    ensures
        r@ == (HostBindingV {
            name: name@,
            parameters: seq![(p1@, t1)],
            result: result,
            doc_string: doc@,
        }),
{
    let mut parameters: Vec<(String, WanderType)> = Vec::new();
    parameters.push((p1.to_owned(), t1));
    let r = HostFunctionBinding {
        name: name.to_owned(),
        parameters,
        result,
        doc_string: doc.to_owned(),
    };
    proof {
        broadcast use crate::lemma_hfparams_view_index;

        assert(hfparams_view(r.parameters@) =~= seq![(p1@, t1)]);
    }
    r
}

/// Builds `Core.eq`'s metadata.
pub fn mk_eq_binding() -> (r: HostFunctionBinding)
    ensures
        r@ == eq_binding_v(),
{
    mk_binding2(
        "Core.eq",
        "left",
        WanderType::Any,
        "right",
        WanderType::Any,
        WanderType::Any,
        "Check if two values are equal.",
    )
}

/// Builds `Assert.assertEq`'s metadata.
pub fn mk_assert_eq_binding() -> (r: HostFunctionBinding)
    ensures
        r@ == assert_eq_binding_v(),
{
    mk_binding2(
        "Assert.assertEq",
        "value",
        WanderType::Any,
        "expected",
        WanderType::Any,
        WanderType::Nothing,
        "Assert that two values are equal.",
    )
}

/// Builds `Bool.and`'s metadata.
pub fn mk_and_binding() -> (r: HostFunctionBinding)
    ensures
        r@ == and_binding_v(),
{
    mk_binding2(
        "Bool.and",
        "left",
        WanderType::Boolean,
        "right",
        WanderType::Boolean,
        WanderType::Boolean,
        "Check if two boolean values are both true.",
    )
}

/// Builds `Bool.not`'s metadata.
pub fn mk_not_binding() -> (r: HostFunctionBinding)
    ensures
        r@ == not_binding_v(),
{
    mk_binding1(
        "Bool.not",
        "value",
        WanderType::Boolean,
        WanderType::Boolean,
        "Return the opposite of the boolean value passed.",
    )
}

/// Builds `List.at`'s metadata.
pub fn mk_at_binding() -> (r: HostFunctionBinding)
    ensures
        r@ == at_binding_v(),
{
    mk_binding2(
        "List.at",
        "offset",
        WanderType::Int,
        "list",
        WanderType::List,
        WanderType::Any,
        "Get the value at a given location.",
    )
}

/// The environment [`common`] builds: the five prelude functions registered
/// in order, each bound in the outermost scope as a curried wrapper.
pub open spec fn common_env<T: PartialEq>() -> BindingsV<T, CommonFunction, NoTransformer> {
    bind_host_model(
        bind_host_model(
            bind_host_model(
                bind_host_model(
                    bind_host_model(
                        empty_env::<T, CommonFunction, NoTransformer>(),
                        eq_binding_v(),
                        CommonFunction::Eq,
                    ),
                    assert_eq_binding_v(),
                    CommonFunction::AssertEq,
                ),
                and_binding_v(),
                CommonFunction::And,
            ),
            not_binding_v(),
            CommonFunction::Not,
        ),
        at_binding_v(),
        CommonFunction::At,
    )
}

/// Creates an environment holding the common prelude: equality, assertion,
/// boolean operators and list indexing, registered in that order.
pub fn common<T: PartialEq>() -> (r: Bindings<T, CommonFunction, NoTransformer>)
    ensures
        r@ == common_env::<T>(),
        r.wf(),
{
    let mut bindings: Bindings<T, CommonFunction, NoTransformer> = Bindings::new();
    bindings.bind_host_function_with(mk_eq_binding(), CommonFunction::Eq);
    bindings.bind_host_function_with(mk_assert_eq_binding(), CommonFunction::AssertEq);
    bindings.bind_host_function_with(mk_and_binding(), CommonFunction::And);
    bindings.bind_host_function_with(mk_not_binding(), CommonFunction::Not);
    bindings.bind_host_function_with(mk_at_binding(), CommonFunction::At);
    bindings
}

} // verus!
