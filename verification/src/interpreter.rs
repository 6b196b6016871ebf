//! The normalised expression tree and the tree-walking evaluator.
//!
//! An [`Expression`] is an [`crate::parser::Element`] with groupings and
//! forward markers resolved into explicit applications.  Evaluation walks an
//! expression against a [`crate::bindings::Bindings`] environment and is
//! pinned by the big-step relation [`eval_rel`]: the relation determines
//! every outcome except what registered host functions and token
//! transformers return, which the library treats as arbitrary.

use vstd::prelude::*;

verus! {

use vstd::std_specs::cmp::PartialEqSpec;
use vstd::string::StringExecFns;
use crate::WanderError;
use crate::bindings::{
    Bindings, BindingsV, env_bind, env_lookup, host_lookup, pop_scope, push_scope,
};
use crate::lexer::{is_escape_char, lex_err_msg, LexErr};
use crate::parser::{Element, ElementV, clone_element, clone_tag, element_view, opt_view};
use crate::values::{
    ValueV, WanderValue, clone_value, clone_values, lemma_values_view_index,
    lemma_vfields_view_index, val_eq, value_view, values_equal, values_view, vfields_view,
};

/// The post-translation syntax tree the evaluator walks: the same shape as
/// an element, with groupings and pipes resolved into applications.
#[derive(Debug, PartialEq, Eq)]
pub enum Expression {
    /// A boolean literal.
    Boolean(bool),
    /// An integer literal.
    Int(i64),
    /// A string literal, escapes still intact; evaluation unescapes it.
    String(String),
    /// The nothing literal.
    Nothing,
    /// A name, possibly dotted.
    Name(String),
    /// A name together with a type tag.
    TaggedName(String, Box<Expression>),
    /// A direct reference to a registered host function; evaluating it reads
    /// the declared parameters from the scopes and invokes the function.
    HostFunction(String),
    /// `let` declarations and a body.
    Let(Vec<(String, Option<Expression>, Expression)>, Box<Expression>),
    /// A flat application sequence, consumed left to right with currying.
    Application(Vec<Expression>),
    /// `if cond then a else b end`.
    Conditional(Box<Expression>, Box<Expression>, Box<Expression>),
    /// A single-parameter lambda; the body stays an unevaluated element.
    Lambda(String, Option<String>, Option<String>, Box<Element>),
    /// A tuple literal.
    Tuple(Vec<Expression>),
    /// A list literal.
    List(Vec<Expression>),
    /// A set literal.
    SetOf(Vec<Expression>),
    /// A record literal.
    Record(Vec<(String, Expression)>),
}

/// The mathematical view of an [`Expression`].
pub enum ExprV {
    /// View of `Expression::Boolean`.
    Boolean(bool),
    /// View of `Expression::Int`.
    Int(i64),
    /// View of `Expression::String`.
    String(Seq<char>),
    /// View of `Expression::Nothing`.
    Nothing,
    /// View of `Expression::Name`.
    Name(Seq<char>),
    /// View of `Expression::TaggedName`.
    TaggedName(Seq<char>, Box<ExprV>),
    /// View of `Expression::HostFunction`.
    HostFunction(Seq<char>),
    /// View of `Expression::Let`.
    Let(Seq<(Seq<char>, Option<ExprV>, ExprV)>, Box<ExprV>),
    /// View of `Expression::Application`.
    Application(Seq<ExprV>),
    /// View of `Expression::Conditional`.
    Conditional(Box<ExprV>, Box<ExprV>, Box<ExprV>),
    /// View of `Expression::Lambda`.
    Lambda(Seq<char>, Option<Seq<char>>, Option<Seq<char>>, Box<ElementV>),
    /// View of `Expression::Tuple`.
    Tuple(Seq<ExprV>),
    /// View of `Expression::List`.
    List(Seq<ExprV>),
    /// View of `Expression::SetOf`.
    SetOf(Seq<ExprV>),
    /// View of `Expression::Record`.
    Record(Seq<(Seq<char>, ExprV)>),
}

/// View of an optional tag expression.
pub open spec fn opt_expr_view(o: Option<Expression>) -> Option<ExprV>
    decreases o,
{
    match o {
        Some(e) => Some(expr_view(e)),
        None => None,
    }
}

/// The view of one expression.
pub open spec fn expr_view(e: Expression) -> ExprV
    decreases e,
{
    match e {
        Expression::Boolean(b) => ExprV::Boolean(b),
        Expression::Int(n) => ExprV::Int(n),
        Expression::String(s) => ExprV::String(s@),
        Expression::Nothing => ExprV::Nothing,
        Expression::Name(s) => ExprV::Name(s@),
        Expression::TaggedName(s, t) => ExprV::TaggedName(s@, Box::new(expr_view(*t))),
        Expression::HostFunction(s) => ExprV::HostFunction(s@),
        Expression::Let(ds, b) => ExprV::Let(xdecls_view(ds@), Box::new(expr_view(*b))),
        Expression::Application(es) => ExprV::Application(exprs_view(es@)),
        Expression::Conditional(c, t, e2) => ExprV::Conditional(
            Box::new(expr_view(*c)),
            Box::new(expr_view(*t)),
            Box::new(expr_view(*e2)),
        ),
        Expression::Lambda(p, i, o, b) => ExprV::Lambda(
            p@,
            opt_view(i),
            opt_view(o),
            Box::new(element_view(*b)),
        ),
        Expression::Tuple(es) => ExprV::Tuple(exprs_view(es@)),
        Expression::List(es) => ExprV::List(exprs_view(es@)),
        Expression::SetOf(es) => ExprV::SetOf(exprs_view(es@)),
        Expression::Record(fs) => ExprV::Record(xfields_view(fs@)),
    }
}

/// The views of a sequence of expressions.
pub open spec fn exprs_view(es: Seq<Expression>) -> Seq<ExprV>
    decreases es,
{
    if es.len() == 0 {
        Seq::empty()
    } else {
        exprs_view(es.drop_last()).push(expr_view(es.last()))
    }
}

/// The views of a sequence of `let` declarations.
pub open spec fn xdecls_view(ds: Seq<(String, Option<Expression>, Expression)>) -> Seq<
    (Seq<char>, Option<ExprV>, ExprV),
>
    decreases ds,
{
    if ds.len() == 0 {
        Seq::empty()
    } else {
        xdecls_view(ds.drop_last()).push(
            (ds.last().0@, opt_expr_view(ds.last().1), expr_view(ds.last().2)),
        )
    }
}

/// The views of a sequence of record fields.
pub open spec fn xfields_view(fs: Seq<(String, Expression)>) -> Seq<(Seq<char>, ExprV)>
    decreases fs,
{
    if fs.len() == 0 {
        Seq::empty()
    } else {
        xfields_view(fs.drop_last()).push((fs.last().0@, expr_view(fs.last().1)))
    }
}

impl View for Expression {
    type V = ExprV;

    open spec fn view(&self) -> ExprV {
        expr_view(*self)
    }
}

/// Indexing into the view of an expression sequence.
pub broadcast proof fn lemma_exprs_view_index(es: Seq<Expression>)
    ensures
        (#[trigger] exprs_view(es)).len() == es.len(),
        forall|i: int| 0 <= i < es.len() ==> exprs_view(es)[i] == expr_view(es[i]),
    decreases es,
{
    if es.len() > 0 {
        lemma_exprs_view_index(es.drop_last());
    }
}

/// Indexing into the view of a declaration sequence.
pub broadcast proof fn lemma_xdecls_view_index(ds: Seq<(String, Option<Expression>, Expression)>)
    ensures
        (#[trigger] xdecls_view(ds)).len() == ds.len(),
        forall|i: int|
            0 <= i < ds.len() ==> xdecls_view(ds)[i] == (
                ds[i].0@,
                opt_expr_view(ds[i].1),
                expr_view(ds[i].2),
            ),
    decreases ds,
{
    if ds.len() > 0 {
        lemma_xdecls_view_index(ds.drop_last());
    }
}

/// Indexing into the view of a field sequence.
pub broadcast proof fn lemma_xfields_view_index(fs: Seq<(String, Expression)>)
    ensures
        (#[trigger] xfields_view(fs)).len() == fs.len(),
        forall|i: int|
            0 <= i < fs.len() ==> xfields_view(fs)[i] == (fs[i].0@, expr_view(fs[i].1)),
    decreases fs,
{
    if fs.len() > 0 {
        lemma_xfields_view_index(fs.drop_last());
    }
}

// ---------------------------------------------------------------------------
// Sizes: the termination measure for application
// ---------------------------------------------------------------------------

/// The structural size of an expression view; always at least one.
pub open spec fn x_size(e: ExprV) -> nat
    decreases e,
{
    1 + match e {
        ExprV::TaggedName(_s, t) => x_size(*t),
        ExprV::Let(ds, b) => xdecls_size(ds) + x_size(*b),
        ExprV::Application(es) => xs_size(es),
        ExprV::Conditional(c, t, e2) => x_size(*c) + x_size(*t) + x_size(*e2),
        ExprV::Tuple(es) => xs_size(es),
        ExprV::List(es) => xs_size(es),
        ExprV::SetOf(es) => xs_size(es),
        ExprV::Record(fs) => xfields_size(fs),
        _ => 0nat,
    }
}

/// The total size of an expression sequence.
pub open spec fn xs_size(es: Seq<ExprV>) -> nat
    decreases es,
{
    if es.len() == 0 {
        0nat
    } else {
        x_size(es[0]) + xs_size(es.drop_first())
    }
}

/// The total size of a declaration sequence.
pub open spec fn xdecls_size(ds: Seq<(Seq<char>, Option<ExprV>, ExprV)>) -> nat
    decreases ds,
{
    if ds.len() == 0 {
        0nat
    } else {
        1 + x_size(ds[0].2) + xdecls_size(ds.drop_first())
    }
}

/// The total size of a field sequence.
pub open spec fn xfields_size(fs: Seq<(Seq<char>, ExprV)>) -> nat
    decreases fs,
{
    if fs.len() == 0 {
        0nat
    } else {
        1 + x_size(fs[0].1) + xfields_size(fs.drop_first())
    }
}

// ---------------------------------------------------------------------------
// Argument queues
// ---------------------------------------------------------------------------

/// One pending argument in an application: an already-computed value, or an
/// expression still to evaluate.
pub enum Arg<'a, T> {
    /// A computed value.
    Value(WanderValue<T>),
    /// An expression still to evaluate.
    Expr(&'a Expression),
}

/// The mathematical view of a pending argument.
pub enum ArgM<T> {
    /// View of `Arg::Value`.
    Val(ValueV<T>),
    /// View of `Arg::Expr`.
    Expr(ExprV),
}

/// The view of one pending argument.
pub open spec fn arg_view<T>(a: Arg<T>) -> ArgM<T> {
    match a {
        Arg::Value(v) => ArgM::Val(value_view(v)),
        Arg::Expr(e) => ArgM::Expr(expr_view(*e)),
    }
}

/// The views of an argument queue.
pub open spec fn args_view<T>(q: Seq<Arg<T>>) -> Seq<ArgM<T>>
    decreases q,
{
    if q.len() == 0 {
        Seq::empty()
    } else {
        args_view(q.drop_last()).push(arg_view(q.last()))
    }
}

/// Indexing into the view of an argument queue.
pub broadcast proof fn lemma_args_view_index<T>(q: Seq<Arg<T>>)
    ensures
        (#[trigger] args_view(q)).len() == q.len(),
        forall|i: int| 0 <= i < q.len() ==> args_view(q)[i] == arg_view(q[i]),
    decreases q,
{
    if q.len() > 0 {
        lemma_args_view_index(q.drop_last());
    }
}

/// The size of one pending argument.
pub open spec fn argm_size<T>(a: ArgM<T>) -> nat {
    match a {
        ArgM::Val(_) => 1nat,
        ArgM::Expr(e) => x_size(e),
    }
}

/// The total size of an argument queue: the application measure.
pub open spec fn q_size<T>(q: Seq<ArgM<T>>) -> nat
    decreases q,
{
    if q.len() == 0 {
        0nat
    } else {
        argm_size(q[0]) + q_size(q.drop_first())
    }
}

/// Queue sizes add over concatenation.
pub proof fn lemma_q_size_concat<T>(a: Seq<ArgM<T>>, b: Seq<ArgM<T>>)
    ensures
        q_size(a + b) == q_size(a) + q_size(b),
    decreases a,
{
    if a.len() == 0 {
        assert(a + b =~= b);
    } else {
        assert((a + b).drop_first() =~= a.drop_first() + b);
        assert((a + b)[0] == a[0]);
        lemma_q_size_concat(a.drop_first(), b);
    }
}

/// A sequence of expressions as pending arguments.
pub open spec fn exprs_to_args<T>(es: Seq<ExprV>) -> Seq<ArgM<T>>
    decreases es,
{
    if es.len() == 0 {
        Seq::empty()
    } else {
        seq![ArgM::Expr(es[0])] + exprs_to_args(es.drop_first())
    }
}

/// The size of an expression sequence as an argument queue.
pub proof fn lemma_exprs_to_args_size<T>(es: Seq<ExprV>)
    ensures
        q_size(exprs_to_args::<T>(es)) == xs_size(es),
        exprs_to_args::<T>(es).len() == es.len(),
        forall|i: int| 0 <= i < es.len() ==> exprs_to_args::<T>(es)[i] == ArgM::<T>::Expr(es[i]),
    decreases es,
{
    if es.len() > 0 {
        lemma_exprs_to_args_size::<T>(es.drop_first());
        assert(exprs_to_args::<T>(es).drop_first() =~= exprs_to_args::<T>(es.drop_first()));
    }
}

// ---------------------------------------------------------------------------
// Auxiliary evaluation specifications
// ---------------------------------------------------------------------------

/// The characters an escape letter stands for.
pub open spec fn unescape_letter(c: char) -> char {
    if c == 'n' {
        '\n'
    } else if c == 't' {
        '\t'
    } else if c == 'r' {
        '\r'
    } else {
        c
    }
}

/// Unescapes the raw body of a string literal from position `i` on; a
/// backslash outside the fixed escape table is an error.
pub open spec fn unescape_from(s: Seq<char>, i: int) -> Option<Seq<char>>
    decreases s.len() - i,
{
    if i < 0 || i >= s.len() {
        Some(Seq::empty())
    } else if s[i] == '\\' {
        if i + 1 < s.len() && is_escape_char(s[i + 1]) {
            match unescape_from(s, i + 2) {
                Some(rest) => Some(seq![unescape_letter(s[i + 1])] + rest),
                None => None,
            }
        } else {
            None
        }
    } else {
        match unescape_from(s, i + 1) {
            Some(rest) => Some(seq![s[i]] + rest),
            None => None,
        }
    }
}

/// The first position at or after `i` holding a dot.
pub open spec fn dot_end(n: Seq<char>, i: int) -> int
    decreases n.len() - i,
{
    if 0 <= i && i < n.len() && n[i] != '.' {
        dot_end(n, i + 1)
    } else {
        i
    }
}

/// Splits a dotted name into its segments, from position `i` on.
pub open spec fn split_from(n: Seq<char>, i: int) -> Seq<Seq<char>>
    decreases n.len() - i,
{
    let j = dot_end(n, i);
    if i <= j && j < n.len() {
        seq![n.subrange(i, j)] + split_from(n, j + 1)
    } else if i <= j {
        seq![n.subrange(i, n.len() as int)]
    } else {
        Seq::empty()
    }
}

/// The segments of a dotted name.
pub open spec fn split_dots(n: Seq<char>) -> Seq<Seq<char>> {
    split_from(n, 0)
}

/// Looks a field up in a record: the latest entry wins.
pub open spec fn rfields_lookup<T>(fs: Seq<(Seq<char>, ValueV<T>)>, n: Seq<char>) -> Option<
    ValueV<T>,
>
    decreases fs,
{
    if fs.len() == 0 {
        None
    } else if fs.last().0 == n {
        Some(fs.last().1)
    } else {
        rfields_lookup(fs.drop_last(), n)
    }
}

/// Walks the remaining segments of a dotted name through nested records.
pub open spec fn walk_fields<T>(
    v: ValueV<T>,
    parts: Seq<Seq<char>>,
    i: int,
    full: Seq<char>,
) -> Result<ValueV<T>, Seq<char>>
    decreases parts.len() - i,
{
    if i < 0 || i >= parts.len() {
        Ok(v)
    } else {
        match v {
            ValueV::Record(fs) => match rfields_lookup(fs, parts[i]) {
                Some(v2) => walk_fields(v2, parts, i + 1, full),
                None => Err(msg_missing_field(parts[i])),
            },
            _ => Err(msg_not_record(full)),
        }
    }
}

/// Reads the declared parameters of a host function from the scopes, in
/// order.
pub open spec fn host_args<T>(
    params: Seq<(Seq<char>, crate::values::WanderType)>,
    scopes: Seq<Seq<(Seq<char>, ValueV<T>)>>,
) -> Result<Seq<ValueV<T>>, Seq<char>>
    decreases params,
{
    if params.len() == 0 {
        Ok(Seq::empty())
    } else {
        match env_lookup(scopes, params[0].0) {
            None => Err(msg_host_arg(params[0].0)),
            Some(v) => match host_args(params.drop_first(), scopes) {
                Err(m) => Err(m),
                Ok(vs) => Ok(seq![v] + vs),
            },
        }
    }
}

/// Removes later duplicates: keeps the first occurrence of each value, by
/// [`val_eq`].
pub open spec fn dedup_vals<T: PartialEq>(vs: Seq<ValueV<T>>) -> Seq<ValueV<T>>
    decreases vs,
{
    if vs.len() == 0 {
        Seq::empty()
    } else {
        let rest = dedup_vals(vs.drop_last());
        if exists|k: int| 0 <= k < rest.len() && val_eq(rest[k], vs.last()) {
            rest
        } else {
            rest.push(vs.last())
        }
    }
}

/// Inserts a field into collapsed record fields: an existing name is
/// overwritten in place, a new one is appended.
pub open spec fn record_insert<T>(
    acc: Seq<(Seq<char>, ValueV<T>)>,
    name: Seq<char>,
    v: ValueV<T>,
) -> Seq<(Seq<char>, ValueV<T>)>
    decreases acc,
{
    if acc.len() == 0 {
        seq![(name, v)]
    } else if acc[0].0 == name {
        seq![(name, v)] + acc.drop_first()
    } else {
        seq![acc[0]] + record_insert(acc.drop_first(), name, v)
    }
}

/// Collapses evaluated record fields: names unique, last write wins, first
/// positions kept.
pub open spec fn record_collapse<T>(fs: Seq<(Seq<char>, ValueV<T>)>) -> Seq<(Seq<char>, ValueV<T>)>
    decreases fs,
{
    if fs.len() == 0 {
        Seq::empty()
    } else {
        record_insert(record_collapse(fs.drop_last()), fs.last().0, fs.last().1)
    }
}

// ---------------------------------------------------------------------------
// Error messages
// ---------------------------------------------------------------------------

/// Message when a conditional guard is not a boolean.
pub open spec fn msg_guard() -> Seq<char> {
    "conditional guard is not a boolean value"@
}

/// Message when a non-function value is applied, or a saturated function is
/// given further arguments.
pub open spec fn msg_invalid_call() -> Seq<char> {
    "invalid function call"@
}

/// Message when the application recursion budget runs out.
pub open spec fn msg_fuel() -> Seq<char> {
    "recursion budget exhausted"@
}

/// Message for an unresolvable name.
pub open spec fn msg_unbound(n: Seq<char>) -> Seq<char> {
    "could not resolve name: "@ + n
}

/// Message for a record field that is absent.
pub open spec fn msg_missing_field(f: Seq<char>) -> Seq<char> {
    "record has no field: "@ + f
}

/// Message for field access into a value that is not a record.
pub open spec fn msg_not_record(n: Seq<char>) -> Seq<char> {
    "cannot access a field of a value that is not a record: "@ + n
}

/// Message for a host function reference that is not registered.
pub open spec fn msg_host_missing(n: Seq<char>) -> Seq<char> {
    "host function is not registered: "@ + n
}

/// Message for a host function parameter that is not bound.
pub open spec fn msg_host_arg(p: Seq<char>) -> Seq<char> {
    "could not read host function argument: "@ + p
}

/// The view of an evaluation outcome.
pub open spec fn outcome_view<T>(r: Result<WanderValue<T>, WanderError>) -> Result<
    ValueV<T>,
    Seq<char>,
> {
    match r {
        Ok(v) => Ok(value_view(v)),
        Err(e) => Err(e.0@),
    }
}

// ---------------------------------------------------------------------------
// The big-step evaluation relation
// ---------------------------------------------------------------------------

/// One host invocation: the registered function's declared parameters are
/// read from the scopes in order; a missing parameter is that error; else
/// the outcome is exactly some result its `run` can return on those
/// arguments — for a host function whose `run` carries an `ensures` (such as
/// the common prelude's), this pins the outcome.
pub open spec fn host_invoke_rel<T: PartialEq, F: crate::HostFunction<T>, X>(
    bv: crate::HostBindingV,
    f: F,
    env: BindingsV<T, F, X>,
    out: Result<ValueV<T>, Seq<char>>,
) -> bool {
    match host_args(bv.parameters, env.scopes) {
        Err(m) => out == Err::<ValueV<T>, Seq<char>>(m),
        Ok(vs) => exists|argv: Vec<WanderValue<T>>, rr: Result<WanderValue<T>, WanderError>|
            {
                &&& #[trigger] rel_witness(argv, rr)
                &&& values_view(argv@) == vs
                &&& call_ensures(F::run, (&f, &argv), rr)
                &&& out == outcome_view(rr)
            },
    }
}

/// Name resolution: the scope stack innermost first, then the host function
/// table (which invokes the function), then dotted-field projection into a
/// bound record.
pub open spec fn name_rel<T: PartialEq, F: crate::HostFunction<T>, X>(
    n: Seq<char>,
    env: BindingsV<T, F, X>,
    out: Result<ValueV<T>, Seq<char>>,
) -> bool {
    match env_lookup(env.scopes, n) {
        Some(v) => out == Ok::<ValueV<T>, Seq<char>>(v),
        None => match host_lookup(env.hosts, n) {
            Some(p) => host_invoke_rel(p.0, p.1, env, out),
            None => {
                let parts = split_dots(n);
                match env_lookup(env.scopes, parts[0]) {
                    None => out == Err::<ValueV<T>, Seq<char>>(msg_unbound(n)),
                    Some(v) => out == walk_fields(v, parts, 1, n),
                }
            },
        },
    }
}

/// Direct host function reference: the function registered under the name
/// is invoked as [`host_invoke_rel`] says.
pub open spec fn host_call_rel<T: PartialEq, F: crate::HostFunction<T>, X>(
    n: Seq<char>,
    env: BindingsV<T, F, X>,
    out: Result<ValueV<T>, Seq<char>>,
) -> bool {
    match host_lookup(env.hosts, n) {
        None => out == Err::<ValueV<T>, Seq<char>>(msg_host_missing(n)),
        Some(p) => host_invoke_rel(p.0, p.1, env, out),
    }
}

/// Every expression has positive size.
pub proof fn lemma_x_size_pos(e: ExprV)
    ensures
        x_size(e) >= 1,
{
    match e {
        ExprV::Boolean(_) => {},
        ExprV::Int(_) => {},
        ExprV::String(_) => {},
        ExprV::Nothing => {},
        ExprV::Name(_) => {},
        ExprV::TaggedName(_, _) => {},
        ExprV::HostFunction(_) => {},
        ExprV::Let(_, _) => {},
        ExprV::Application(_) => {},
        ExprV::Conditional(_, _, _) => {},
        ExprV::Lambda(_, _, _, _) => {},
        ExprV::Tuple(_) => {},
        ExprV::List(_) => {},
        ExprV::SetOf(_) => {},
        ExprV::Record(_) => {},
    }
}

/// A nonempty expression sequence splits its size at the first element.
pub proof fn lemma_xs_size_first(items: Seq<ExprV>)
    requires
        items.len() > 0,
    ensures
        xs_size(items) == x_size(items[0]) + xs_size(items.drop_first()),
        x_size(items[0]) >= 1,
{
    lemma_x_size_pos(items[0]);
}

/// One query of the big-step evaluation relation: which judgement is being
/// asked, with its inputs and its outcome.
pub enum Q<T> {
    /// Evaluate one expression to an outcome.
    Eval(ExprV, Result<ValueV<T>, Seq<char>>),
    /// Evaluate a sequence of expressions, fail-fast.
    EvalSeq(Seq<ExprV>, Result<Seq<ValueV<T>>, Seq<char>>),
    /// Evaluate record fields in order.
    Flds(Seq<(Seq<char>, ExprV)>, Result<Seq<(Seq<char>, ValueV<T>)>, Seq<char>>),
    /// Evaluate `let` declarations in order, binding each.
    Decls(Seq<(Seq<char>, Option<ExprV>, ExprV)>, Result<(), Seq<char>>),
    /// Evaluate one pending argument, possibly splicing further arguments.
    /// An argument application whose head is not a function is read as a
    /// parenthesised argument list — `f (a b)` supplies `a` and `b` as two
    /// arguments of `f` — which nested `let` scripts rely on; an argument
    /// application with a lambda head is an ordinary nested call.
    AnArg(ArgM<T>, Result<(ValueV<T>, Seq<ArgM<T>>), Seq<char>>),
    /// Run the currying application loop.
    Apply(ValueV<T>, Seq<ArgM<T>>, Result<ValueV<T>, Seq<char>>),
    /// The `let` rule proper.
    LetQ(Seq<(Seq<char>, Option<ExprV>, ExprV)>, ExprV, Result<ValueV<T>, Seq<char>>),
    /// The conditional rule proper.
    CondQ(ExprV, ExprV, ExprV, Result<ValueV<T>, Seq<char>>),
    /// The application rule proper, for two or more terms.
    CallQ(Seq<ExprV>, Result<ValueV<T>, Seq<char>>),
    /// The collection rules (list, tuple, set).
    Coll(Seq<ExprV>, CollectionKind, Result<ValueV<T>, Seq<char>>),
    /// The record rule proper.
    RecQ(Seq<(Seq<char>, ExprV)>, Result<ValueV<T>, Seq<char>>),
}

/// Which collection an element sequence builds.
pub enum CollectionKind {
    /// A list.
    List,
    /// A tuple.
    Tuple,
    /// A set.
    SetOf,
}

/// The structural size of a query, for termination of the relation.
pub open spec fn q_measure<T>(q: Q<T>) -> nat {
    match q {
        Q::Eval(e, _) => x_size(e),
        Q::EvalSeq(items, _) => xs_size(items),
        Q::Flds(fs, _) => xfields_size(fs),
        Q::Decls(ds, _) => xdecls_size(ds),
        Q::AnArg(a, _) => argm_size(a),
        Q::Apply(_, qq, _) => q_size(qq),
        Q::LetQ(ds, b, _) => xdecls_size(ds) + x_size(b),
        Q::CondQ(c, t, el, _) => x_size(c) + x_size(t) + x_size(el),
        Q::CallQ(items, _) => xs_size(items),
        Q::Coll(items, _, _) => xs_size(items),
        Q::RecQ(fs, _) => xfields_size(fs),
    }
}

/// The tie-break rank of a query, for termination of the relation.
pub open spec fn q_rank<T>(q: Q<T>) -> int {
    match q {
        Q::Eval(_, _) => 1int,
        Q::EvalSeq(_, _) => 2int,
        Q::Flds(_, _) => 2int,
        Q::Decls(_, _) => 2int,
        Q::AnArg(_, _) => 2int,
        Q::Apply(_, _, _) => 5int,
        Q::LetQ(_, _, _) => 3int,
        Q::CondQ(_, _, _, _) => 3int,
        Q::CallQ(_, _) => 4int,
        Q::Coll(_, _, _) => 3int,
        Q::RecQ(_, _) => 3int,
    }
}

/// A trivially true marker naming the witnesses of an existential step of
/// the relation; introduction proofs instantiate it.
pub open spec fn rel_witness<A, B>(a: A, b: B) -> bool {
    true
}

/// A trivially true marker naming one witness.
pub open spec fn rel_witness_one<A>(a: A) -> bool {
    true
}

/// The big-step evaluation relation.  `rel(q, env, fuel, env2)` holds when
/// the judgement `q` can be derived: its outcome can be produced in `env`,
/// leaving `env2`.  The relation determines every outcome except what
/// registered host functions return, which it leaves unconstrained.  `fuel`
/// bounds the nesting depth of function application.
#[verifier::opaque]
pub open spec fn rel<T: PartialEq, F: crate::HostFunction<T>, X>(
    q: Q<T>,
    env: BindingsV<T, F, X>,
    fuel: nat,
    env2: BindingsV<T, F, X>,
) -> bool
    decreases fuel, q_measure(q), q_rank(q),
    via rel_decreases::<T, F, X>
{
    match q {
        Q::Eval(e, out) => match e {
            ExprV::Boolean(b) => out == Ok::<ValueV<T>, Seq<char>>(ValueV::Boolean(b)) && env2
                == env,
            ExprV::Int(n) => out == Ok::<ValueV<T>, Seq<char>>(ValueV::Int(n)) && env2 == env,
            ExprV::Nothing => out == Ok::<ValueV<T>, Seq<char>>(ValueV::Nothing) && env2 == env,
            ExprV::String(s) => env2 == env && (match unescape_from(s, 0) {
                Some(u) => out == Ok::<ValueV<T>, Seq<char>>(ValueV::String(u)),
                None => out == Err::<ValueV<T>, Seq<char>>(lex_err_msg(LexErr::InvalidEscape)),
            }),
            ExprV::Name(n) => name_rel(n, env, out) && env2 == env,
            ExprV::TaggedName(n, _t) => name_rel(n, env, out) && env2 == env,
            ExprV::HostFunction(n) => host_call_rel(n, env, out) && env2 == env,
            ExprV::Lambda(p, i, o, b) => out == Ok::<ValueV<T>, Seq<char>>(
                ValueV::Lambda(p, i, o, b),
            ) && env2 == env,
            ExprV::Let(ds, b) => rel(Q::LetQ(ds, *b, out), env, fuel, env2),
            ExprV::Conditional(c, t, el) => rel(Q::CondQ(*c, *t, *el, out), env, fuel, env2),
            ExprV::Application(items) => if items.len() == 0 {
                out == Err::<ValueV<T>, Seq<char>>(msg_invalid_call()) && env2 == env
            } else if items.len() == 1 {
                rel(Q::Eval(items[0], out), env, fuel, env2)
            } else {
                rel(Q::CallQ(items, out), env, fuel, env2)
            },
            ExprV::List(items) => rel(Q::Coll(items, CollectionKind::List, out), env, fuel, env2),
            ExprV::Tuple(items) => rel(Q::Coll(items, CollectionKind::Tuple, out), env, fuel, env2),
            ExprV::SetOf(items) => rel(Q::Coll(items, CollectionKind::SetOf, out), env, fuel, env2),
            ExprV::Record(fs) => rel(Q::RecQ(fs, out), env, fuel, env2),
        },
        Q::LetQ(ds, b, out) => exists|dout: Result<(), Seq<char>>, denv: BindingsV<T, F, X>|
            {
                &&& #[trigger] rel_witness(dout, denv)
                &&& rel(Q::Decls(ds, dout), push_scope(env), fuel, denv)
                &&& match dout {
                    Err(m) => out == Err::<ValueV<T>, Seq<char>>(m) && env2 == pop_scope(denv),
                    Ok(_) => exists|bout: Result<ValueV<T>, Seq<char>>, benv: BindingsV<T, F, X>|
                        {
                            &&& #[trigger] rel_witness(bout, benv)
                            &&& rel(Q::Eval(b, bout), denv, fuel, benv)
                            &&& out == bout
                            &&& env2 == pop_scope(benv)
                        },
                }
            },
        Q::CondQ(c, t, el, out) => exists|
            cout: Result<ValueV<T>, Seq<char>>,
            cenv: BindingsV<T, F, X>,
        |
            {
                &&& #[trigger] rel_witness(cout, cenv)
                &&& rel(Q::Eval(c, cout), env, fuel, cenv)
                &&& match cout {
                    Err(m) => out == Err::<ValueV<T>, Seq<char>>(m) && env2 == cenv,
                    Ok(v) => if v == ValueV::<T>::Boolean(true) {
                        rel(Q::Eval(t, out), cenv, fuel, env2)
                    } else if v == ValueV::<T>::Boolean(false) {
                        rel(Q::Eval(el, out), cenv, fuel, env2)
                    } else {
                        out == Err::<ValueV<T>, Seq<char>>(msg_guard()) && env2 == cenv
                    },
                }
            },
        Q::CallQ(items, out) => items.len() >= 2 && exists|
            hout: Result<ValueV<T>, Seq<char>>,
            henv: BindingsV<T, F, X>,
        |
            {
                &&& #[trigger] rel_witness(hout, henv)
                &&& rel(Q::Eval(items[0], hout), env, fuel, henv)
                &&& match hout {
                    Err(m) => out == Err::<ValueV<T>, Seq<char>>(m) && env2 == henv,
                    Ok(v) => rel(
                        Q::Apply(v, exprs_to_args(items.drop_first()), out),
                        henv,
                        fuel,
                        env2,
                    ),
                }
            },
        Q::Coll(items, kind, out) => exists|
            sout: Result<Seq<ValueV<T>>, Seq<char>>,
            senv: BindingsV<T, F, X>,
        |
            {
                &&& #[trigger] rel_witness(sout, senv)
                &&& rel(Q::EvalSeq(items, sout), env, fuel, senv)
                &&& env2 == senv
                &&& match sout {
                    Err(m) => out == Err::<ValueV<T>, Seq<char>>(m),
                    Ok(vs) => match kind {
                        CollectionKind::List => out == Ok::<ValueV<T>, Seq<char>>(
                            ValueV::List(vs),
                        ),
                        CollectionKind::Tuple => out == Ok::<ValueV<T>, Seq<char>>(
                            ValueV::Tuple(vs),
                        ),
                        CollectionKind::SetOf => exists|ds: Seq<ValueV<T>>|
                            #[trigger] rel_witness_one(ds) && out == Ok::<ValueV<T>, Seq<char>>(
                                ValueV::SetOf(ds),
                            ) && (T::obeys_eq_spec() ==> ds == dedup_vals(vs)),
                    },
                }
            },
        Q::RecQ(fs, out) => exists|
            fout: Result<Seq<(Seq<char>, ValueV<T>)>, Seq<char>>,
            fenv: BindingsV<T, F, X>,
        |
            {
                &&& #[trigger] rel_witness(fout, fenv)
                &&& rel(Q::Flds(fs, fout), env, fuel, fenv)
                &&& env2 == fenv
                &&& match fout {
                    Err(m) => out == Err::<ValueV<T>, Seq<char>>(m),
                    Ok(vs) => out == Ok::<ValueV<T>, Seq<char>>(
                        ValueV::Record(record_collapse(vs)),
                    ),
                }
            },
        Q::EvalSeq(items, out) => if items.len() == 0 {
            out == Ok::<Seq<ValueV<T>>, Seq<char>>(Seq::empty()) && env2 == env
        } else {
            exists|hout: Result<ValueV<T>, Seq<char>>, henv: BindingsV<T, F, X>|
                {
                    &&& #[trigger] rel_witness(hout, henv)
                    &&& rel(Q::Eval(items[0], hout), env, fuel, henv)
                    &&& match hout {
                        Err(m) => out == Err::<Seq<ValueV<T>>, Seq<char>>(m) && env2 == henv,
                        Ok(v) => exists|
                            rout: Result<Seq<ValueV<T>>, Seq<char>>,
                            renv: BindingsV<T, F, X>,
                        |
                            {
                                &&& #[trigger] rel_witness(rout, renv)
                                &&& rel(Q::EvalSeq(items.drop_first(), rout), henv, fuel, renv)
                                &&& env2 == renv
                                &&& out == (match rout {
                                    Ok(vs) => Ok::<Seq<ValueV<T>>, Seq<char>>(seq![v] + vs),
                                    Err(m) => Err::<Seq<ValueV<T>>, Seq<char>>(m),
                                })
                            },
                    }
                }
        },
        Q::Flds(fs, out) => if fs.len() == 0 {
            out == Ok::<Seq<(Seq<char>, ValueV<T>)>, Seq<char>>(Seq::empty()) && env2 == env
        } else {
            exists|hout: Result<ValueV<T>, Seq<char>>, henv: BindingsV<T, F, X>|
                {
                    &&& #[trigger] rel_witness(hout, henv)
                    &&& rel(Q::Eval(fs[0].1, hout), env, fuel, henv)
                    &&& match hout {
                        Err(m) => out == Err::<Seq<(Seq<char>, ValueV<T>)>, Seq<char>>(m) && env2
                            == henv,
                        Ok(v) => exists|
                            rout: Result<Seq<(Seq<char>, ValueV<T>)>, Seq<char>>,
                            renv: BindingsV<T, F, X>,
                        |
                            {
                                &&& #[trigger] rel_witness(rout, renv)
                                &&& rel(Q::Flds(fs.drop_first(), rout), henv, fuel, renv)
                                &&& env2 == renv
                                &&& out == (match rout {
                                    Ok(vs) => Ok::<Seq<(Seq<char>, ValueV<T>)>, Seq<char>>(
                                        seq![(fs[0].0, v)] + vs,
                                    ),
                                    Err(m) => Err::<Seq<(Seq<char>, ValueV<T>)>, Seq<char>>(m),
                                })
                            },
                    }
                }
        },
        Q::Decls(ds, out) => if ds.len() == 0 {
            out == Ok::<(), Seq<char>>(()) && env2 == env
        } else {
            exists|hout: Result<ValueV<T>, Seq<char>>, henv: BindingsV<T, F, X>|
                {
                    &&& #[trigger] rel_witness(hout, henv)
                    &&& rel(Q::Eval(ds[0].2, hout), env, fuel, henv)
                    &&& match hout {
                        Err(m) => out == Err::<(), Seq<char>>(m) && env2 == henv,
                        Ok(v) => rel(
                            Q::Decls(ds.drop_first(), out),
                            env_bind(henv, ds[0].0, v),
                            fuel,
                            env2,
                        ),
                    }
                }
        },
        Q::AnArg(a, out) => match a {
            ArgM::Val(v) => out == Ok::<(ValueV<T>, Seq<ArgM<T>>), Seq<char>>((v, Seq::empty()))
                && env2 == env,
            ArgM::Expr(e) => if e matches ExprV::Application(items) && items.len() >= 2 {
                let items = e->Application_0;
                exists|hout: Result<ValueV<T>, Seq<char>>, henv: BindingsV<T, F, X>|
                    {
                        &&& #[trigger] rel_witness(hout, henv)
                        &&& rel(Q::Eval(items[0], hout), env, fuel, henv)
                        &&& match hout {
                            Err(m) => out == Err::<(ValueV<T>, Seq<ArgM<T>>), Seq<char>>(m) && env2
                                == henv,
                            Ok(v0) => if v0 is Lambda {
                                exists|
                                    wout: Result<ValueV<T>, Seq<char>>,
                                    wenv: BindingsV<T, F, X>,
                                |
                                    {
                                        &&& #[trigger] rel_witness(wout, wenv)
                                        &&& rel(
                                            Q::Apply(v0, exprs_to_args(items.drop_first()), wout),
                                            henv,
                                            fuel,
                                            wenv,
                                        )
                                        &&& env2 == wenv
                                        &&& out == (match wout {
                                            Ok(v) => Ok::<(ValueV<T>, Seq<ArgM<T>>), Seq<char>>(
                                                (v, Seq::empty()),
                                            ),
                                            Err(m) => Err::<
                                                (ValueV<T>, Seq<ArgM<T>>),
                                                Seq<char>,
                                            >(m),
                                        })
                                    }
                            } else {
                                out == Ok::<(ValueV<T>, Seq<ArgM<T>>), Seq<char>>(
                                    (v0, exprs_to_args(items.drop_first())),
                                ) && env2 == henv
                            },
                        }
                    }
            } else {
                exists|hout: Result<ValueV<T>, Seq<char>>, henv: BindingsV<T, F, X>|
                    {
                        &&& #[trigger] rel_witness(hout, henv)
                        &&& rel(Q::Eval(e, hout), env, fuel, henv)
                        &&& env2 == henv
                        &&& out == (match hout {
                            Ok(v) => Ok::<(ValueV<T>, Seq<ArgM<T>>), Seq<char>>(
                                (v, Seq::empty()),
                            ),
                            Err(m) => Err::<(ValueV<T>, Seq<ArgM<T>>), Seq<char>>(m),
                        })
                    }
            },
        },
        Q::Apply(v, qq, out) => if qq.len() == 0 {
            out == Ok::<ValueV<T>, Seq<char>>(v) && env2 == env
        } else if !(v is Lambda) {
            out == Err::<ValueV<T>, Seq<char>>(msg_invalid_call()) && env2 == env
        } else {
            exists|
                aout: Result<(ValueV<T>, Seq<ArgM<T>>), Seq<char>>,
                aenv: BindingsV<T, F, X>,
            |
                {
                    &&& #[trigger] rel_witness(aout, aenv)
                    &&& rel(Q::AnArg(qq[0], aout), env, fuel, aenv)
                    &&& match aout {
                        Err(m) => out == Err::<ValueV<T>, Seq<char>>(m) && env2 == aenv,
                        Ok(p) => {
                            let env_b = env_bind(aenv, v->Lambda_0, p.0);
                            &&& q_size(p.1) < argm_size(qq[0])
                            &&& match crate::translation::express_model(*v->Lambda_3) {
                                Err(m) => out == Err::<ValueV<T>, Seq<char>>(m) && env2 == env_b,
                                Ok(bexpr) => if fuel == 0 {
                                    out == Err::<ValueV<T>, Seq<char>>(msg_fuel()) && env2 == env_b
                                } else {
                                    exists|
                                        bout: Result<ValueV<T>, Seq<char>>,
                                        benv: BindingsV<T, F, X>,
                                    |
                                        {
                                            &&& #[trigger] rel_witness(bout, benv)
                                            &&& rel(
                                                Q::Eval(bexpr, bout),
                                                env_b,
                                                (fuel - 1) as nat,
                                                benv,
                                            )
                                            &&& match bout {
                                                Err(m) => out == Err::<ValueV<T>, Seq<char>>(m)
                                                    && env2 == benv,
                                                Ok(v2) => rel(
                                                    Q::Apply(v2, p.1 + qq.drop_first(), out),
                                                    benv,
                                                    fuel,
                                                    env2,
                                                ),
                                            }
                                        }
                                },
                            }
                        },
                    }
                }
        },
    }
}

#[via_fn]
proof fn rel_decreases<T: PartialEq, F: crate::HostFunction<T>, X>(
    q: Q<T>,
    env: BindingsV<T, F, X>,
    fuel: nat,
    env2: BindingsV<T, F, X>,
) {
    match q {
        Q::Eval(e, _) => match e {
            ExprV::Application(items) => {
                if items.len() > 0 {
                    lemma_xs_size_first(items);
                }
            },
            ExprV::Let(ds, b) => {
                lemma_x_size_pos(*b);
            },
            _ => {},
        },
        Q::LetQ(ds, b, _) => {
            lemma_x_size_pos(b);
        },
        Q::CondQ(c, t, el, _) => {
            lemma_x_size_pos(c);
            lemma_x_size_pos(t);
            lemma_x_size_pos(el);
        },
        Q::CallQ(items, _) => {
            if items.len() > 0 {
                lemma_xs_size_first(items);
            }
            lemma_exprs_to_args_size::<T>(items.drop_first());
        },
        Q::EvalSeq(items, _) => {
            if items.len() > 0 {
                lemma_xs_size_first(items);
            }
        },
        Q::Flds(fs, _) => {
            if fs.len() > 0 {
                lemma_x_size_pos(fs[0].1);
            }
        },
        Q::Decls(ds, _) => {
            if ds.len() > 0 {
                lemma_x_size_pos(ds[0].2);
            }
        },
        Q::AnArg(a, _) => match a {
            ArgM::Expr(e) => match e {
                ExprV::Application(items) => {
                    if items.len() > 0 {
                        lemma_xs_size_first(items);
                    }
                    lemma_exprs_to_args_size::<T>(items.drop_first());
                },
                _ => {},
            },
            _ => {},
        },
        Q::Apply(v, qq, _) => {
            if qq.len() > 0 {
                assert(q_size(qq) == argm_size(qq[0]) + q_size(qq.drop_first()));
                assert forall|extra: Seq<ArgM<T>>|
                    q_size(extra) < argm_size(qq[0]) implies q_size(
                    #[trigger] (extra + qq.drop_first()),
                ) < q_size(qq) by {
                    lemma_q_size_concat(extra, qq.drop_first());
                }
            }
        },
        _ => {},
    }
}

/// Evaluating one expression: see [`rel`].
pub open spec fn eval_rel<T: PartialEq, F: crate::HostFunction<T>, X>(
    e: ExprV,
    env: BindingsV<T, F, X>,
    fuel: nat,
    out: Result<ValueV<T>, Seq<char>>,
    env2: BindingsV<T, F, X>,
) -> bool {
    rel(Q::Eval(e, out), env, fuel, env2)
}

/// Evaluating a sequence of expressions: see [`rel`].
pub open spec fn seq_rel<T: PartialEq, F: crate::HostFunction<T>, X>(
    items: Seq<ExprV>,
    env: BindingsV<T, F, X>,
    fuel: nat,
    out: Result<Seq<ValueV<T>>, Seq<char>>,
    env2: BindingsV<T, F, X>,
) -> bool {
    rel(Q::EvalSeq(items, out), env, fuel, env2)
}

/// Evaluating record fields: see [`rel`].
pub open spec fn fields_rel<T: PartialEq, F: crate::HostFunction<T>, X>(
    fs: Seq<(Seq<char>, ExprV)>,
    env: BindingsV<T, F, X>,
    fuel: nat,
    out: Result<Seq<(Seq<char>, ValueV<T>)>, Seq<char>>,
    env2: BindingsV<T, F, X>,
) -> bool {
    rel(Q::Flds(fs, out), env, fuel, env2)
}

/// Evaluating `let` declarations: see [`rel`].
pub open spec fn decls_rel<T: PartialEq, F: crate::HostFunction<T>, X>(
    ds: Seq<(Seq<char>, Option<ExprV>, ExprV)>,
    env: BindingsV<T, F, X>,
    fuel: nat,
    out: Result<(), Seq<char>>,
    env2: BindingsV<T, F, X>,
) -> bool {
    rel(Q::Decls(ds, out), env, fuel, env2)
}

/// Evaluating one pending argument: see [`rel`].
pub open spec fn arg_rel<T: PartialEq, F: crate::HostFunction<T>, X>(
    a: ArgM<T>,
    env: BindingsV<T, F, X>,
    fuel: nat,
    out: Result<(ValueV<T>, Seq<ArgM<T>>), Seq<char>>,
    env2: BindingsV<T, F, X>,
) -> bool {
    rel(Q::AnArg(a, out), env, fuel, env2)
}

/// The currying application loop: see [`rel`].
pub open spec fn apply_rel<T: PartialEq, F: crate::HostFunction<T>, X>(
    v: ValueV<T>,
    q: Seq<ArgM<T>>,
    env: BindingsV<T, F, X>,
    fuel: nat,
    out: Result<ValueV<T>, Seq<char>>,
    env2: BindingsV<T, F, X>,
) -> bool {
    rel(Q::Apply(v, q, out), env, fuel, env2)
}

// ---------------------------------------------------------------------------
// The executable evaluator
// ---------------------------------------------------------------------------

/// The application recursion budget: how deeply function application may
/// nest before evaluation reports an error instead of exhausting the native
/// stack.
pub const EVAL_FUEL: u64 = 2048;

/// The view of an argument-evaluation outcome.
pub open spec fn argout_view<T>(r: Result<(WanderValue<T>, Vec<Arg<T>>), WanderError>) -> Result<
    (ValueV<T>, Seq<ArgM<T>>),
    Seq<char>,
> {
    match r {
        Ok(p) => Ok((value_view(p.0), args_view(p.1@))),
        Err(e) => Err(e.0@),
    }
}

/// Argument-queue views distribute over concatenation.
proof fn lemma_args_view_concat<T>(a: Seq<Arg<T>>, b: Seq<Arg<T>>)
    ensures
        args_view(a + b) == args_view(a) + args_view(b),
    decreases b,
{
    if b.len() == 0 {
        assert(a + b =~= a);
        assert(args_view(a) + args_view(b) =~= args_view(a));
    } else {
        assert((a + b).drop_last() =~= a + b.drop_last());
        lemma_args_view_concat(a, b.drop_last());
        assert((a + b).last() == b.last());
        assert(args_view(a + b) =~= args_view(a) + args_view(b));
    }
}

/// Unescapes the raw body of a string literal; the result is exactly
/// [`unescape_from`] on the view, and a backslash outside the escape table
/// reports the invalid-escape message.
pub fn unescape_string(value: &str) -> (r: Result<String, WanderError>)
    ensures
        match r {
            Ok(u) => unescape_from(value@, 0) == Some(u@),
            Err(e) => unescape_from(value@, 0) is None && e.0@ == lex_err_msg(
                LexErr::InvalidEscape,
            ),
        },
{
    let cs = crate::lexer::str_chars(value);
    let mut out = String::new();
    let mut pos: usize = 0;
    while pos < cs.len()
        invariant
            cs@ == value@,
            pos <= cs@.len(),
            match unescape_from(cs@, pos as int) {
                Some(rest) => unescape_from(cs@, 0) == Some(out@ + rest),
                None => unescape_from(cs@, 0) is None,
            },
        decreases cs@.len() - pos,
    {
        let c = cs[pos];
        if c == '\\' {
            if pos + 1 < cs.len() && crate::lexer::ch_is_escape(cs[pos + 1]) {
                let e = cs[pos + 1];
                let u: char = if e == 'n' {
                    '\n'
                } else if e == 't' {
                    '\t'
                } else if e == 'r' {
                    '\r'
                } else {
                    e
                };
                assert(u == unescape_letter(cs@[pos + 1]));
                let ghost old_out = out@;
                crate::lexer::push_char(&mut out, u);
                proof {
                    if unescape_from(cs@, pos + 2) is Some {
                        assert(old_out + (seq![unescape_letter(cs@[pos + 1])] + unescape_from(
                            cs@,
                            pos + 2,
                        ).unwrap()) =~= out@ + unescape_from(cs@, pos + 2).unwrap());
                    }
                }
                pos = pos + 2;
            } else {
                return Err(
                    WanderError("invalid escape sequence in string literal".to_owned()),
                );
            }
        } else {
            let ghost old_out = out@;
            crate::lexer::push_char(&mut out, c);
            proof {
                if unescape_from(cs@, pos + 1) is Some {
                    assert(old_out + (seq![cs@[pos as int]] + unescape_from(
                        cs@,
                        pos + 1,
                    ).unwrap()) =~= out@ + unescape_from(cs@, pos + 1).unwrap());
                }
            }
            pos = pos + 1;
        }
    }
    proof {
        assert(out@ + Seq::<char>::empty() =~= out@);
    }
    Ok(out)
}

/// Splits a dotted name into its segments; the result is exactly
/// [`split_dots`] on the view.
fn split_name(name: &String) -> (r: Vec<String>)
    ensures
        string_views(r@) == split_dots(name@),
{
    let cs = crate::lexer::str_chars(name.as_str());
    let mut out: Vec<String> = Vec::new();
    let mut pos: usize = 0;
    proof {
        assert(string_views(out@) + split_from(cs@, 0) =~= split_from(cs@, 0));
    }
    loop
        invariant
            pos <= cs@.len(),
            cs@ == name@,
            split_dots(name@) == string_views(out@) + split_from(cs@, pos as int),
        decreases cs@.len() - pos,
    {
        let mut j: usize = pos;
        while j < cs.len() && cs[j] != '.'
            invariant
                pos <= j <= cs@.len(),
                dot_end(cs@, pos as int) == dot_end(cs@, j as int),
            decreases cs@.len() - j,
        {
            j = j + 1;
        }
        assert(j == dot_end(cs@, pos as int));
        let seg = crate::lexer::chars_to_string(&cs, pos, j);
        let ghost old_out = out@;
        out.push(seg);
        proof {
            lemma_string_views_push(old_out, out@.last());
        }
        if j < cs.len() {
            proof {
                assert(string_views(out@) + split_from(cs@, j + 1) =~= string_views(old_out)
                    + split_from(cs@, pos as int));
            }
            pos = j + 1;
        } else {
            proof {
                assert(cs@.subrange(pos as int, cs@.len() as int) == cs@.subrange(
                    pos as int,
                    j as int,
                ));
                assert(split_from(cs@, pos as int) =~= seq![
                    cs@.subrange(pos as int, cs@.len() as int),
                ]);
                assert(string_views(out@) =~= string_views(old_out) + split_from(
                    cs@,
                    pos as int,
                ));
            }
            return out;
        }
    }
}

/// The views of a vector of strings.
pub open spec fn string_views(ss: Seq<String>) -> Seq<Seq<char>>
    decreases ss,
{
    if ss.len() == 0 {
        Seq::empty()
    } else {
        string_views(ss.drop_last()).push(ss.last()@)
    }
}

/// Pushing a string extends the views.
proof fn lemma_string_views_push(ss: Seq<String>, s: String)
    ensures
        string_views(ss.push(s)) == string_views(ss).push(s@),
        string_views(ss).len() == ss.len(),
    decreases ss,
{
    assert(ss.push(s).drop_last() =~= ss);
    if ss.len() > 0 {
        lemma_string_views_push(ss.drop_last(), ss.last());
    }
}

/// Indexing into string views.
proof fn lemma_string_views_index(ss: Seq<String>)
    ensures
        string_views(ss).len() == ss.len(),
        forall|i: int| 0 <= i < ss.len() ==> string_views(ss)[i] == ss[i]@,
    decreases ss,
{
    if ss.len() > 0 {
        lemma_string_views_index(ss.drop_last());
    }
}

/// A dot scan stays within the name.
proof fn lemma_dot_end_range(n: Seq<char>, i: int)
    requires
        0 <= i <= n.len(),
    ensures
        i <= dot_end(n, i) <= n.len(),
    decreases n.len() - i,
{
    if i < n.len() && n[i] != '.' {
        lemma_dot_end_range(n, i + 1);
    }
}

/// Reads the latest entry of a record under a field name.
fn rfield_get<T>(fs: &Vec<(String, WanderValue<T>)>, name: &String) -> (r: Option<WanderValue<T>>)
    ensures
        match r {
            Some(v) => rfields_lookup(vfields_view(fs@), name@) == Some(value_view(v)),
            None => rfields_lookup(vfields_view(fs@), name@) is None,
        },
{
    proof {
        lemma_vfields_view_index(fs@);
        assert(fs@.subrange(0, fs@.len() as int) =~= fs@);
    }
    let mut i: usize = fs.len();
    while i > 0
        invariant
            i <= fs@.len(),
            rfields_lookup(vfields_view(fs@), name@) == rfields_lookup(
                vfields_view(fs@.subrange(0, i as int)),
                name@,
            ),
        decreases i,
    {
        proof {
            lemma_vfields_view_index(fs@);
            lemma_vfields_view_index(fs@.subrange(0, i as int));
            lemma_vfields_view_index(fs@.subrange(0, i - 1));
            assert(vfields_view(fs@.subrange(0, i as int)).drop_last() =~= vfields_view(
                fs@.subrange(0, i - 1),
            ));
        }
        if fs[i - 1].0.eq(name) {
            return Some(clone_value(&fs[i - 1].1));
        }
        i = i - 1;
    }
    proof {
        assert(vfields_view(fs@.subrange(0, 0)) =~= Seq::<(Seq<char>, ValueV<T>)>::empty());
    }
    None
}

/// Walks the remaining segments of a dotted name through nested records.
fn walk_record<T>(v: WanderValue<T>, parts: &Vec<String>, idx: usize, full: &String) -> (r: Result<
    WanderValue<T>,
    WanderError,
>)
    requires
        idx <= parts@.len(),
    ensures
        outcome_view(r) == walk_fields(value_view(v), string_views(parts@), idx as int, full@),
    decreases parts@.len() - idx,
{
    proof {
        lemma_string_views_index(parts@);
    }
    if idx >= parts.len() {
        return Ok(v);
    }
    match v {
        WanderValue::Record(fs) => {
            match rfield_get(&fs, &parts[idx]) {
                Some(v2) => walk_record(v2, parts, idx + 1, full),
                None => {
                    let mut m = String::new();
                    m.append("record has no field: ");
                    m.append(parts[idx].as_str());
                    proof {
                        assert(m@ =~= msg_missing_field(string_views(parts@)[idx as int]));
                    }
                    Err(WanderError(m))
                },
            }
        },
        other => {
            proof {
                broadcast use crate::values::lemma_value_view_variant;

                assert(!(value_view(other) is Record));
            }
            let mut m = String::new();
            m.append("cannot access a field of a value that is not a record: ");
            m.append(full.as_str());
            proof {
                assert(m@ =~= msg_not_record(full@));
            }
            Err(WanderError(m))
        },
    }
}

/// Reads the declared parameters of a host function from the scopes.
fn gather_host_args<T, F, X>(
    params: &Vec<(String, crate::values::WanderType)>,
    env: &Bindings<T, F, X>,
    idx: usize,
) -> (r: Result<Vec<WanderValue<T>>, WanderError>)
    requires
        idx <= params@.len(),
    ensures
        match r {
            Ok(vs) => host_args(crate::hfparams_view(params@).skip(idx as int), env@.scopes)
                == Ok::<Seq<ValueV<T>>, Seq<char>>(values_view(vs@)),
            Err(e) => host_args(crate::hfparams_view(params@).skip(idx as int), env@.scopes)
                == Err::<Seq<ValueV<T>>, Seq<char>>(e.0@),
        },
    decreases params@.len() - idx,
{
    broadcast use crate::lemma_hfparams_view_index;

    let ghost tail = crate::hfparams_view(params@).skip(idx as int);
    if idx >= params.len() {
        proof {
            assert(tail =~= Seq::<(Seq<char>, crate::values::WanderType)>::empty());
            assert(values_view(Seq::<WanderValue<T>>::empty()) =~= Seq::<ValueV<T>>::empty());
        }
        return Ok(Vec::new());
    }
    proof {
        assert(tail[0] == (params@[idx as int].0@, params@[idx as int].1));
        assert(tail.drop_first() =~= crate::hfparams_view(params@).skip(idx + 1));
    }
    match env.read(&params[idx].0) {
        None => {
            let mut m = String::new();
            m.append("could not read host function argument: ");
            m.append(params[idx].0.as_str());
            proof {
                assert(m@ =~= msg_host_arg(params@[idx as int].0@));
            }
            Err(WanderError(m))
        },
        Some(v) => {
            match gather_host_args(params, env, idx + 1) {
                Err(e) => Err(e),
                Ok(mut vs) => {
                    let ghost old_vs = vs@;
                    vs.insert(0, v);
                    proof {
                        lemma_values_view_index(vs@);
                        lemma_values_view_index(old_vs);
                        assert(vs@.drop_first() =~= old_vs);
                        assert(values_view(vs@) =~= seq![value_view(vs@[0])] + values_view(
                            old_vs,
                        ));
                    }
                    Ok(vs)
                },
            }
        },
    }
}

/// Invokes a registered host function directly: its declared parameters are
/// read from the scopes and passed along.  The result is whatever the host
/// function returned; [`host_call_rel`] pins only the failure cases.
pub fn handle_host_function<T: PartialEq, F: crate::HostFunction<T>, X>(
    name: &String,
    env: &Bindings<T, F, X>,
) -> (r: Result<WanderValue<T>, WanderError>)
    ensures
        host_call_rel(name@, env@, outcome_view(r)),
{
    let binding = match env.read_host_binding(name) {
        Some(b) => b,
        None => {
            let mut m = String::new();
            m.append("host function is not registered: ");
            m.append(name.as_str());
            proof {
                assert(m@ =~= msg_host_missing(name@));
            }
            return Err(WanderError(m));
        },
    };
    let args = match gather_host_args(&binding.parameters, env, 0) {
        Ok(vs) => vs,
        Err(e) => {
            proof {
                assert(crate::hfparams_view(binding.parameters@).skip(0) =~= crate::hfparams_view(
                    binding.parameters@,
                ));
            }
            return Err(e);
        },
    };
    proof {
        assert(crate::hfparams_view(binding.parameters@).skip(0) =~= crate::hfparams_view(
            binding.parameters@,
        ));
    }
    let f = match env.read_host_function(name) {
        Some(f) => f,
        None => {
            proof {
                assert(false);
            }
            return Err(WanderError(String::new()));
        },
    };
    let r = f.run(&args);
    proof {
        assert(rel_witness(args, r));
        assert(host_lookup(env@.hosts, name@) == Some((binding@, *f)));
        assert(call_ensures(F::run, (f, &args), r));
    }
    r
}

/// Resolves a name: the scope stack innermost first, then the host function
/// table (which invokes the function — chiefly for zero-parameter functions,
/// since a function with parameters normally resolves through the curried
/// wrapper bound in the outermost scope), then dotted-field projection into
/// a bound record.
pub fn read_name<T: PartialEq, F: crate::HostFunction<T>, X>(
    name: &String,
    env: &Bindings<T, F, X>,
) -> (r: Result<WanderValue<T>, WanderError>)
    ensures
        name_rel(name@, env@, outcome_view(r)),
{
    match env.read(name) {
        Some(v) => Ok(v),
        None => {
            match env.read_host_binding(name) {
                Some(_) => handle_host_function(name, env),
                None => read_field(name, env),
            }
        },
    }
}

/// Resolves a tagged name; the tag is descriptive only.
pub fn read_tagged_name<T: PartialEq, F: crate::HostFunction<T>, X>(
    name: &String,
    env: &Bindings<T, F, X>,
) -> (r: Result<WanderValue<T>, WanderError>)
    ensures
        name_rel(name@, env@, outcome_view(r)),
{
    read_name(name, env)
}

/// Resolves a dotted name by projecting fields out of a bound record,
/// distinguishing an unbound base, a non-record base, and a missing field.
pub fn read_field<T: PartialEq, F: crate::HostFunction<T>, X>(name: &String, env: &Bindings<T, F, X>) -> (r: Result<
    WanderValue<T>,
    WanderError,
>)
    requires
        env_lookup(env@.scopes, name@) is None,
        host_lookup(env@.hosts, name@) is None,
    ensures
        name_rel(name@, env@, outcome_view(r)),
{
    let parts = split_name(name);
    proof {
        lemma_string_views_index(parts@);
        assert(split_dots(name@).len() >= 1) by {
            lemma_dot_end_range(name@, 0);
        }
        assert(parts@.len() >= 1);
    }
    match env.read(&parts[0]) {
        None => {
            let mut m = String::new();
            m.append("could not resolve name: ");
            m.append(name.as_str());
            proof {
                assert(m@ =~= msg_unbound(name@));
            }
            Err(WanderError(m))
        },
        Some(v) => walk_record(v, &parts, 1, name),
    }
}

/// Drops later duplicates from evaluated set members.  When the host type's
/// equality obeys its specification, the result is exactly [`dedup_vals`].
fn dedup_values<T: PartialEq>(vs: Vec<WanderValue<T>>) -> (r: Vec<WanderValue<T>>)
    ensures
        T::obeys_eq_spec() ==> values_view(r@) == dedup_vals(values_view(vs@)),
{
    let mut out: Vec<WanderValue<T>> = Vec::new();
    let mut i: usize = 0;
    while i < vs.len()
        invariant
            i <= vs@.len(),
            T::obeys_eq_spec() ==> values_view(out@) == dedup_vals(
                values_view(vs@.subrange(0, i as int)),
            ),
        decreases vs@.len() - i,
    {
        proof {
            lemma_values_view_index(vs@);
            lemma_values_view_index(vs@.subrange(0, i as int));
            lemma_values_view_index(vs@.subrange(0, i + 1));
            assert(vs@.subrange(0, i + 1).drop_last() =~= vs@.subrange(0, i as int));
            assert(values_view(vs@.subrange(0, i + 1)).drop_last() =~= values_view(
                vs@.subrange(0, i as int),
            ));
        }
        let v = clone_value(&vs[i]);
        let present = contains_value(&out, &v);
        if !present {
            let ghost old_out = out@;
            out.push(v);
            proof {
                lemma_values_view_index(out@);
                lemma_values_view_index(old_out);
                assert(values_view(out@) =~= values_view(old_out).push(
                    value_view(vs@[i as int]),
                ));
            }
        }
        i = i + 1;
    }
    proof {
        assert(vs@.subrange(0, vs@.len() as int) =~= vs@);
    }
    out
}

/// Whether a value equal (by [`values_equal`]) to `v` is already present.
fn contains_value<T: PartialEq>(out: &Vec<WanderValue<T>>, v: &WanderValue<T>) -> (r: bool)
    ensures
        T::obeys_eq_spec() ==> r == exists|k: int|
            0 <= k < values_view(out@).len() && val_eq(values_view(out@)[k], value_view(*v)),
{
    proof {
        lemma_values_view_index(out@);
    }
    let mut i: usize = 0;
    while i < out.len()
        invariant
            i <= out@.len(),
            T::obeys_eq_spec() ==> forall|k: int|
                0 <= k < i ==> !val_eq(#[trigger] values_view(out@)[k], value_view(*v)),
        decreases out@.len() - i,
    {
        proof {
            lemma_values_view_index(out@);
        }
        if values_equal(&out[i], v) {
            proof {
                if T::obeys_eq_spec() {
                    assert(val_eq(values_view(out@)[i as int], value_view(*v)));
                }
            }
            return true;
        }
        i = i + 1;
    }
    false
}

/// `record_insert` with the first match replaced in place.
proof fn lemma_record_insert_update<T>(
    acc: Seq<(Seq<char>, ValueV<T>)>,
    n: Seq<char>,
    v: ValueV<T>,
    j: int,
)
    requires
        0 <= j < acc.len(),
        acc[j].0 == n,
        forall|k: int| 0 <= k < j ==> (#[trigger] acc[k]).0 != n,
    ensures
        record_insert(acc, n, v) == acc.update(j, (n, v)),
    decreases j,
{
    if j == 0 {
        assert(record_insert(acc, n, v) =~= acc.update(0, (n, v)));
    } else {
        lemma_record_insert_update(acc.drop_first(), n, v, j - 1);
        assert(acc.drop_first().update(j - 1, (n, v)) =~= acc.update(j, (n, v)).drop_first());
        assert(record_insert(acc, n, v) =~= acc.update(j, (n, v)));
    }
}

/// `record_insert` with no match appends.
proof fn lemma_record_insert_append<T>(acc: Seq<(Seq<char>, ValueV<T>)>, n: Seq<char>, v: ValueV<T>)
    requires
        forall|k: int| 0 <= k < acc.len() ==> (#[trigger] acc[k]).0 != n,
    ensures
        record_insert(acc, n, v) == acc.push((n, v)),
    decreases acc,
{
    if acc.len() == 0 {
        assert(record_insert(acc, n, v) =~= acc.push((n, v)));
    } else {
        assert(forall|k: int|
            0 <= k < acc.drop_first().len() ==> (#[trigger] acc.drop_first()[k]).0 != n);
        lemma_record_insert_append(acc.drop_first(), n, v);
        assert(acc.drop_first().push((n, v)) =~= acc.push((n, v)).drop_first());
        assert(record_insert(acc, n, v) =~= acc.push((n, v)));
    }
}

/// Inserts one evaluated field: an existing name is overwritten in place, a
/// new one appended.
fn record_insert_exec<T>(out: &mut Vec<(String, WanderValue<T>)>, name: String, v: WanderValue<T>)
    ensures
        vfields_view(final(out)@) == record_insert(vfields_view(old(out)@), name@, value_view(v)),
{
    proof {
        lemma_vfields_view_index(out@);
    }
    let mut i: usize = 0;
    while i < out.len()
        invariant
            i <= out@.len(),
            out@ == old(out)@,
            forall|k: int| 0 <= k < i ==> (#[trigger] vfields_view(out@)[k]).0 != name@,
        decreases out@.len() - i,
    {
        proof {
            lemma_vfields_view_index(out@);
        }
        if out[i].0.eq(&name) {
            let ghost old_view = vfields_view(out@);
            let ghost j = i as int;
            out.set(i, (name, v));
            proof {
                lemma_vfields_view_index(out@);
                lemma_vfields_view_index(old(out)@);
                lemma_record_insert_update(old_view, out@[j].0@, value_view(out@[j].1), j);
                assert(vfields_view(out@) =~= old_view.update(
                    j,
                    (out@[j].0@, value_view(out@[j].1)),
                ));
            }
            return ;
        }
        i = i + 1;
    }
    let ghost old_view = vfields_view(out@);
    let ghost nv = (name@, value_view(v));
    out.push((name, v));
    proof {
        lemma_vfields_view_index(out@);
        lemma_vfields_view_index(old(out)@);
        lemma_record_insert_append(old_view, nv.0, nv.1);
        assert(vfields_view(out@) =~= old_view.push(nv));
    }
}

/// Evaluates an expression against an environment with the default
/// application budget.  The outcome and the final environment stand in
/// [`eval_rel`] to the inputs: evaluation is fully determined except for
/// what host functions return.
pub fn eval<T: PartialEq, F: crate::HostFunction<T>, X>(
    expression: &Expression,
    bindings: &mut Bindings<T, F, X>,
) -> (r: Result<WanderValue<T>, WanderError>)
    requires
        old(bindings).wf(),
    ensures
        eval_rel(
            expr_view(*expression),
            old(bindings)@,
            EVAL_FUEL as nat,
            outcome_view(r),
            final(bindings)@,
        ),
        final(bindings).wf(),
{
    eval_fueled(expression, bindings, EVAL_FUEL)
}

/// Evaluates an expression with an explicit application budget.
fn eval_fueled<T: PartialEq, F: crate::HostFunction<T>, X>(
    e: &Expression,
    env: &mut Bindings<T, F, X>,
    fuel: u64,
) -> (r: Result<WanderValue<T>, WanderError>)
    requires
        old(env).wf(),
    ensures
        eval_rel(expr_view(*e), old(env)@, fuel as nat, outcome_view(r), final(env)@),
        final(env).wf(),
    decreases fuel, x_size(expr_view(*e)), 1int,
{
    proof {
        reveal_with_fuel(rel, 2);
    }
    match e {
        Expression::Boolean(b) => Ok(WanderValue::Boolean(*b)),
        Expression::Int(n) => Ok(WanderValue::Int(*n)),
        Expression::Nothing => Ok(WanderValue::Nothing),
        Expression::String(s) => match unescape_string(s.as_str()) {
            Ok(u) => Ok(WanderValue::String(u)),
            Err(err) => Err(err),
        },
        Expression::Name(n) => read_name(n, env),
        Expression::TaggedName(n, _t) => read_tagged_name(n, env),
        Expression::HostFunction(n) => handle_host_function(n, env),
        Expression::Lambda(p, i, o, b) => Ok(handle_lambda(p, i, o, b)),
        Expression::Let(ds, b) => {
            proof {
                lemma_x_size_pos(expr_view(*e));
            }
            handle_let(ds, b, env, fuel)
        },
        Expression::Conditional(c, t, el) => handle_conditional(c, t, el, env, fuel),
        Expression::Application(items) => handle_function_call(items, env, fuel),
        Expression::List(items) => handle_list(items, env, fuel),
        Expression::Tuple(items) => handle_tuple(items, env, fuel),
        Expression::SetOf(items) => handle_set(items, env, fuel),
        Expression::Record(fs) => handle_record(fs, env, fuel),
    }
}

/// Builds a lambda value from a lambda expression; nothing is bound yet.
pub fn handle_lambda<T>(
    p: &String,
    i: &Option<String>,
    o: &Option<String>,
    b: &Box<Element>,
) -> (r: WanderValue<T>)
    ensures
        value_view(r) == ValueV::<T>::Lambda(
            p@,
            opt_view(*i),
            opt_view(*o),
            Box::new(element_view(**b)),
        ),
{
    WanderValue::Lambda(p.clone(), clone_tag(i), clone_tag(o), Box::new(clone_element(b)))
}

/// Evaluates a `let`: a fresh scope, the declarations in order, the body,
/// and the scope popped again on every path.
fn handle_let<T: PartialEq, F: crate::HostFunction<T>, X>(
    ds: &Vec<(String, Option<Expression>, Expression)>,
    b: &Box<Expression>,
    env: &mut Bindings<T, F, X>,
    fuel: u64,
) -> (r: Result<WanderValue<T>, WanderError>)
    requires
        old(env).wf(),
    ensures
        eval_rel(
            ExprV::Let(xdecls_view(ds@), Box::new(expr_view(**b))),
            old(env)@,
            fuel as nat,
            outcome_view(r),
            final(env)@,
        ),
        final(env).wf(),
    decreases fuel, 1nat + xdecls_size(xdecls_view(ds@)) + x_size(expr_view(**b)), 0int,
{
    let ghost e = ExprV::Let(xdecls_view(ds@), Box::new(expr_view(**b)));
    env.add_scope();
    proof {
        assert(env@ == push_scope(old(env)@));
        assert(xdecls_view(ds@).skip(0) =~= xdecls_view(ds@));
    }
    match eval_decls_from(ds, 0, env, fuel) {
        Err(err) => {
            let ghost denv = env@;
            env.remove_scope();
            proof {
                lemma_rel_let(
                    xdecls_view(ds@),
                    expr_view(**b),
                    old(env)@,
                    fuel as nat,
                    Err::<(), Seq<char>>(err.0@),
                    denv,
                    arbitrary(),
                    arbitrary(),
                    Err::<ValueV<T>, Seq<char>>(err.0@),
                    env@,
                );
            }
            Err(err)
        },
        Ok(_) => {
            let ghost denv = env@;
            let r = eval_fueled(b, env, fuel);
            let ghost benv = env@;
            env.remove_scope();
            proof {
                lemma_rel_let(
                    xdecls_view(ds@),
                    expr_view(**b),
                    old(env)@,
                    fuel as nat,
                    Ok::<(), Seq<char>>(()),
                    denv,
                    outcome_view(r),
                    benv,
                    outcome_view(r),
                    env@,
                );
            }
            r
        },
    }
}

/// Evaluates the declarations of a `let` from `idx` on, binding each into
/// the innermost scope.
fn eval_decls_from<T: PartialEq, F: crate::HostFunction<T>, X>(
    ds: &Vec<(String, Option<Expression>, Expression)>,
    idx: usize,
    env: &mut Bindings<T, F, X>,
    fuel: u64,
) -> (r: Result<(), WanderError>)
    requires
        old(env).wf(),
        idx <= ds@.len(),
    ensures
        decls_rel(
            xdecls_view(ds@).skip(idx as int),
            old(env)@,
            fuel as nat,
            match r {
                Ok(_) => Ok::<(), Seq<char>>(()),
                Err(ref err) => Err::<(), Seq<char>>(err.0@),
            },
            final(env)@,
        ),
        final(env).wf(),
    decreases fuel, xdecls_size(xdecls_view(ds@).skip(idx as int)), 2int,
{
    broadcast use lemma_xdecls_view_index;

    let ghost tail = xdecls_view(ds@).skip(idx as int);
    if idx >= ds.len() {
        proof {
            reveal_with_fuel(rel, 1);
            assert(tail =~= Seq::<(Seq<char>, Option<ExprV>, ExprV)>::empty());
        }
        return Ok(());
    }
    proof {
        assert(tail[0] == xdecls_view(ds@)[idx as int]);
        assert(tail.drop_first() =~= xdecls_view(ds@).skip(idx + 1));
        lemma_x_size_pos(expr_view(ds@[idx as int].2));
    }
    match eval_fueled(&ds[idx].2, env, fuel) {
        Err(err) => {
            proof {
                lemma_decls_rel_cons(
                    tail,
                    old(env)@,
                    fuel as nat,
                    Err::<ValueV<T>, Seq<char>>(err.0@),
                    env@,
                    Err::<(), Seq<char>>(err.0@),
                    env@,
                );
            }
            Err(err)
        },
        Ok(v) => {
            let ghost venv = env@;
            let ghost vv = value_view(v);
            env.bind(ds[idx].0.clone(), v);
            proof {
                assert(env@ == env_bind(venv, ds@[idx as int].0@, vv));
            }
            let r = eval_decls_from(ds, idx + 1, env, fuel);
            proof {
                lemma_decls_rel_cons(
                    tail,
                    old(env)@,
                    fuel as nat,
                    Ok::<ValueV<T>, Seq<char>>(vv),
                    venv,
                    match r {
                        Ok(_) => Ok::<(), Seq<char>>(()),
                        Err(ref err2) => Err::<(), Seq<char>>(err2.0@),
                    },
                    env@,
                );
            }
            r
        },
    }
}

/// Evaluates a conditional: the guard must reduce to a boolean, and exactly
/// one branch is evaluated.
fn handle_conditional<T: PartialEq, F: crate::HostFunction<T>, X>(
    c: &Box<Expression>,
    t: &Box<Expression>,
    el: &Box<Expression>,
    env: &mut Bindings<T, F, X>,
    fuel: u64,
) -> (r: Result<WanderValue<T>, WanderError>)
    requires
        old(env).wf(),
    ensures
        eval_rel(
            ExprV::Conditional(
                Box::new(expr_view(**c)),
                Box::new(expr_view(**t)),
                Box::new(expr_view(**el)),
            ),
            old(env)@,
            fuel as nat,
            outcome_view(r),
            final(env)@,
        ),
        final(env).wf(),
    decreases fuel, 1nat + x_size(expr_view(**c)) + x_size(expr_view(**t)) + x_size(
        expr_view(**el),
    ), 0int,
{
    let ghost e = ExprV::Conditional(
        Box::new(expr_view(**c)),
        Box::new(expr_view(**t)),
        Box::new(expr_view(**el)),
    );
    let cond = eval_fueled(c, env, fuel);
    let ghost cenv = env@;
    match cond {
        Err(err) => {
            proof {
                lemma_rel_conditional(
                    expr_view(**c),
                    expr_view(**t),
                    expr_view(**el),
                    old(env)@,
                    fuel as nat,
                    Err::<ValueV<T>, Seq<char>>(err.0@),
                    cenv,
                    Err::<ValueV<T>, Seq<char>>(err.0@),
                    cenv,
                );
            }
            Err(err)
        },
        Ok(v) => {
            let is_true = match &v {
                WanderValue::Boolean(bv) => Some(*bv),
                _ => None,
            };
            match is_true {
                Some(true) => {
                    let r = eval_fueled(t, env, fuel);
                    proof {
                        assert(value_view(v) == ValueV::<T>::Boolean(true));
                        lemma_rel_conditional(
                            expr_view(**c),
                            expr_view(**t),
                            expr_view(**el),
                            old(env)@,
                            fuel as nat,
                            Ok::<ValueV<T>, Seq<char>>(value_view(v)),
                            cenv,
                            outcome_view(r),
                            env@,
                        );
                    }
                    r
                },
                Some(false) => {
                    let r = eval_fueled(el, env, fuel);
                    proof {
                        assert(value_view(v) == ValueV::<T>::Boolean(false));
                        lemma_rel_conditional(
                            expr_view(**c),
                            expr_view(**t),
                            expr_view(**el),
                            old(env)@,
                            fuel as nat,
                            Ok::<ValueV<T>, Seq<char>>(value_view(v)),
                            cenv,
                            outcome_view(r),
                            env@,
                        );
                    }
                    r
                },
                None => {
                    proof {
                        broadcast use crate::values::lemma_value_view_variant;

                        assert(!(value_view(v) is Boolean));
                        assert(value_view(v) != ValueV::<T>::Boolean(true));
                        assert(value_view(v) != ValueV::<T>::Boolean(false));
                        lemma_rel_conditional(
                            expr_view(**c),
                            expr_view(**t),
                            expr_view(**el),
                            old(env)@,
                            fuel as nat,
                            Ok::<ValueV<T>, Seq<char>>(value_view(v)),
                            cenv,
                            Err::<ValueV<T>, Seq<char>>(msg_guard()),
                            cenv,
                        );
                    }
                    Err(WanderError("conditional guard is not a boolean value".to_owned()))
                },
            }
        },
    }
}

/// Evaluates a sequence of expressions in order, from `idx` on.
fn eval_seq_from<T: PartialEq, F: crate::HostFunction<T>, X>(
    items: &Vec<Expression>,
    idx: usize,
    env: &mut Bindings<T, F, X>,
    fuel: u64,
) -> (r: Result<Vec<WanderValue<T>>, WanderError>)
    requires
        old(env).wf(),
        idx <= items@.len(),
    ensures
        seq_rel(
            exprs_view(items@).skip(idx as int),
            old(env)@,
            fuel as nat,
            match r {
                Ok(ref vs) => Ok::<Seq<ValueV<T>>, Seq<char>>(values_view(vs@)),
                Err(ref err) => Err::<Seq<ValueV<T>>, Seq<char>>(err.0@),
            },
            final(env)@,
        ),
        final(env).wf(),
    decreases fuel, xs_size(exprs_view(items@).skip(idx as int)), 2int,
{
    broadcast use lemma_exprs_view_index;

    let ghost tail = exprs_view(items@).skip(idx as int);
    if idx >= items.len() {
        proof {
            reveal_with_fuel(rel, 1);
            assert(tail =~= Seq::<ExprV>::empty());
            assert(values_view(Seq::<WanderValue<T>>::empty()) =~= Seq::<ValueV<T>>::empty());
        }
        return Ok(Vec::new());
    }
    proof {
        assert(tail[0] == expr_view(items@[idx as int]));
        assert(tail.drop_first() =~= exprs_view(items@).skip(idx + 1));
        lemma_xs_size_first(tail);
    }
    match eval_fueled(&items[idx], env, fuel) {
        Err(err) => {
            proof {
                lemma_seq_rel_cons(
                    tail,
                    old(env)@,
                    fuel as nat,
                    Err::<ValueV<T>, Seq<char>>(err.0@),
                    env@,
                    arbitrary(),
                    arbitrary(),
                    Err::<Seq<ValueV<T>>, Seq<char>>(err.0@),
                    env@,
                );
            }
            Err(err)
        },
        Ok(v) => {
            let ghost venv = env@;
            let ghost vv = value_view(v);
            match eval_seq_from(items, idx + 1, env, fuel) {
                Err(err) => {
                    proof {
                        lemma_seq_rel_cons(
                            tail,
                            old(env)@,
                            fuel as nat,
                            Ok::<ValueV<T>, Seq<char>>(vv),
                            venv,
                            Err::<Seq<ValueV<T>>, Seq<char>>(err.0@),
                            env@,
                            Err::<Seq<ValueV<T>>, Seq<char>>(err.0@),
                            env@,
                        );
                    }
                    Err(err)
                },
                Ok(mut vs) => {
                    let ghost old_vs = vs@;
                    vs.insert(0, v);
                    proof {
                        lemma_values_view_index(vs@);
                        lemma_values_view_index(old_vs);
                        assert(vs@.drop_first() =~= old_vs);
                        assert(values_view(vs@) =~= seq![vv] + values_view(old_vs));
                        lemma_seq_rel_cons(
                            tail,
                            old(env)@,
                            fuel as nat,
                            Ok::<ValueV<T>, Seq<char>>(vv),
                            venv,
                            Ok::<Seq<ValueV<T>>, Seq<char>>(values_view(old_vs)),
                            env@,
                            Ok::<Seq<ValueV<T>>, Seq<char>>(values_view(vs@)),
                            env@,
                        );
                    }
                    Ok(vs)
                },
            }
        },
    }
}

/// Evaluates a list literal.
fn handle_list<T: PartialEq, F: crate::HostFunction<T>, X>(
    items: &Vec<Expression>,
    env: &mut Bindings<T, F, X>,
    fuel: u64,
) -> (r: Result<WanderValue<T>, WanderError>)
    requires
        old(env).wf(),
    ensures
        eval_rel(
            ExprV::List(exprs_view(items@)),
            old(env)@,
            fuel as nat,
            outcome_view(r),
            final(env)@,
        ),
        final(env).wf(),
    decreases fuel, 1nat + xs_size(exprs_view(items@)), 0int,
{
    proof {
        assert(exprs_view(items@).skip(0) =~= exprs_view(items@));
    }
    match eval_seq_from(items, 0, env, fuel) {
        Err(err) => {
            proof {
                lemma_rel_list(
                    exprs_view(items@),
                    old(env)@,
                    fuel as nat,
                    Err::<Seq<ValueV<T>>, Seq<char>>(err.0@),
                    env@,
                    Err::<ValueV<T>, Seq<char>>(err.0@),
                );
            }
            Err(err)
        },
        Ok(vs) => {
            let ghost vsv = values_view(vs@);
            let r = WanderValue::List(vs);
            proof {
                lemma_rel_list(
                    exprs_view(items@),
                    old(env)@,
                    fuel as nat,
                    Ok::<Seq<ValueV<T>>, Seq<char>>(vsv),
                    env@,
                    Ok::<ValueV<T>, Seq<char>>(value_view(r)),
                );
            }
            Ok(r)
        },
    }
}

/// Evaluates a tuple literal.
fn handle_tuple<T: PartialEq, F: crate::HostFunction<T>, X>(
    items: &Vec<Expression>,
    env: &mut Bindings<T, F, X>,
    fuel: u64,
) -> (r: Result<WanderValue<T>, WanderError>)
    requires
        old(env).wf(),
    ensures
        eval_rel(
            ExprV::Tuple(exprs_view(items@)),
            old(env)@,
            fuel as nat,
            outcome_view(r),
            final(env)@,
        ),
        final(env).wf(),
    decreases fuel, 1nat + xs_size(exprs_view(items@)), 0int,
{
    proof {
        assert(exprs_view(items@).skip(0) =~= exprs_view(items@));
    }
    match eval_seq_from(items, 0, env, fuel) {
        Err(err) => {
            proof {
                lemma_rel_tuple(
                    exprs_view(items@),
                    old(env)@,
                    fuel as nat,
                    Err::<Seq<ValueV<T>>, Seq<char>>(err.0@),
                    env@,
                    Err::<ValueV<T>, Seq<char>>(err.0@),
                );
            }
            Err(err)
        },
        Ok(vs) => {
            let ghost vsv = values_view(vs@);
            let r = WanderValue::Tuple(vs);
            proof {
                lemma_rel_tuple(
                    exprs_view(items@),
                    old(env)@,
                    fuel as nat,
                    Ok::<Seq<ValueV<T>>, Seq<char>>(vsv),
                    env@,
                    Ok::<ValueV<T>, Seq<char>>(value_view(r)),
                );
            }
            Ok(r)
        },
    }
}

/// Evaluates a set literal: members in order, later duplicates dropped.
fn handle_set<T: PartialEq, F: crate::HostFunction<T>, X>(
    items: &Vec<Expression>,
    env: &mut Bindings<T, F, X>,
    fuel: u64,
) -> (r: Result<WanderValue<T>, WanderError>)
    requires
        old(env).wf(),
    ensures
        eval_rel(
            ExprV::SetOf(exprs_view(items@)),
            old(env)@,
            fuel as nat,
            outcome_view(r),
            final(env)@,
        ),
        final(env).wf(),
    decreases fuel, 1nat + xs_size(exprs_view(items@)), 0int,
{
    proof {
        assert(exprs_view(items@).skip(0) =~= exprs_view(items@));
    }
    match eval_seq_from(items, 0, env, fuel) {
        Err(err) => {
            proof {
                lemma_rel_setof(
                    exprs_view(items@),
                    old(env)@,
                    fuel as nat,
                    Err::<Seq<ValueV<T>>, Seq<char>>(err.0@),
                    env@,
                    arbitrary(),
                    Err::<ValueV<T>, Seq<char>>(err.0@),
                );
            }
            Err(err)
        },
        Ok(vs) => {
            let ghost vsv = values_view(vs@);
            let ds = dedup_values(vs);
            let ghost dsv = values_view(ds@);
            let r = WanderValue::SetOf(ds);
            proof {
                lemma_rel_setof(
                    exprs_view(items@),
                    old(env)@,
                    fuel as nat,
                    Ok::<Seq<ValueV<T>>, Seq<char>>(vsv),
                    env@,
                    dsv,
                    Ok::<ValueV<T>, Seq<char>>(value_view(r)),
                );
            }
            Ok(r)
        },
    }
}

/// Evaluates record fields in order, from `idx` on.
fn eval_fields_from<T: PartialEq, F: crate::HostFunction<T>, X>(
    fs: &Vec<(String, Expression)>,
    idx: usize,
    env: &mut Bindings<T, F, X>,
    fuel: u64,
) -> (r: Result<Vec<(String, WanderValue<T>)>, WanderError>)
    requires
        old(env).wf(),
        idx <= fs@.len(),
    ensures
        fields_rel(
            xfields_view(fs@).skip(idx as int),
            old(env)@,
            fuel as nat,
            match r {
                Ok(ref vs) => Ok::<Seq<(Seq<char>, ValueV<T>)>, Seq<char>>(vfields_view(vs@)),
                Err(ref err) => Err::<Seq<(Seq<char>, ValueV<T>)>, Seq<char>>(err.0@),
            },
            final(env)@,
        ),
        final(env).wf(),
    decreases fuel, xfields_size(xfields_view(fs@).skip(idx as int)), 2int,
{
    broadcast use lemma_xfields_view_index;

    let ghost tail = xfields_view(fs@).skip(idx as int);
    if idx >= fs.len() {
        let empty_fields: Vec<(String, WanderValue<T>)> = Vec::new();
        proof {
            reveal_with_fuel(rel, 1);
            assert(tail =~= Seq::<(Seq<char>, ExprV)>::empty());
            assert(vfields_view(empty_fields@) =~= Seq::<(Seq<char>, ValueV<T>)>::empty());
        }
        return Ok(empty_fields);
    }
    proof {
        assert(tail[0] == xfields_view(fs@)[idx as int]);
        assert(tail.drop_first() =~= xfields_view(fs@).skip(idx + 1));
        lemma_x_size_pos(tail[0].1);
    }
    match eval_fueled(&fs[idx].1, env, fuel) {
        Err(err) => {
            proof {
                lemma_fields_rel_cons(
                    tail,
                    old(env)@,
                    fuel as nat,
                    Err::<ValueV<T>, Seq<char>>(err.0@),
                    env@,
                    arbitrary(),
                    arbitrary(),
                    Err::<Seq<(Seq<char>, ValueV<T>)>, Seq<char>>(err.0@),
                    env@,
                );
            }
            Err(err)
        },
        Ok(v) => {
            let ghost venv = env@;
            let ghost vv = value_view(v);
            let entry = (fs[idx].0.clone(), v);
            match eval_fields_from(fs, idx + 1, env, fuel) {
                Err(err) => {
                    proof {
                        lemma_fields_rel_cons(
                            tail,
                            old(env)@,
                            fuel as nat,
                            Ok::<ValueV<T>, Seq<char>>(vv),
                            venv,
                            Err::<Seq<(Seq<char>, ValueV<T>)>, Seq<char>>(err.0@),
                            env@,
                            Err::<Seq<(Seq<char>, ValueV<T>)>, Seq<char>>(err.0@),
                            env@,
                        );
                    }
                    Err(err)
                },
                Ok(mut vs) => {
                    let ghost old_vs = vs@;
                    vs.insert(0, entry);
                    proof {
                        lemma_vfields_view_index(vs@);
                        lemma_vfields_view_index(old_vs);
                        assert(vs@.drop_first() =~= old_vs);
                        assert(vfields_view(vs@) =~= seq![(tail[0].0, vv)] + vfields_view(
                            old_vs,
                        ));
                        lemma_fields_rel_cons(
                            tail,
                            old(env)@,
                            fuel as nat,
                            Ok::<ValueV<T>, Seq<char>>(vv),
                            venv,
                            Ok::<Seq<(Seq<char>, ValueV<T>)>, Seq<char>>(vfields_view(old_vs)),
                            env@,
                            Ok::<Seq<(Seq<char>, ValueV<T>)>, Seq<char>>(vfields_view(vs@)),
                            env@,
                        );
                    }
                    Ok(vs)
                },
            }
        },
    }
}

/// Evaluates a record literal: all fields in order, then collapsed with the
/// last write winning.
fn handle_record<T: PartialEq, F: crate::HostFunction<T>, X>(
    fs: &Vec<(String, Expression)>,
    env: &mut Bindings<T, F, X>,
    fuel: u64,
) -> (r: Result<WanderValue<T>, WanderError>)
    requires
        old(env).wf(),
    ensures
        eval_rel(
            ExprV::Record(xfields_view(fs@)),
            old(env)@,
            fuel as nat,
            outcome_view(r),
            final(env)@,
        ),
        final(env).wf(),
    decreases fuel, 1nat + xfields_size(xfields_view(fs@)), 0int,
{
    proof {
        assert(xfields_view(fs@).skip(0) =~= xfields_view(fs@));
    }
    match eval_fields_from(fs, 0, env, fuel) {
        Err(err) => {
            proof {
                lemma_rel_record(
                    xfields_view(fs@),
                    old(env)@,
                    fuel as nat,
                    Err::<Seq<(Seq<char>, ValueV<T>)>, Seq<char>>(err.0@),
                    env@,
                    Err::<ValueV<T>, Seq<char>>(err.0@),
                );
            }
            Err(err)
        },
        Ok(vs) => {
            let ghost vsv = vfields_view(vs@);
            let collapsed = collapse_record(vs);
            let r = WanderValue::Record(collapsed);
            proof {
                lemma_rel_record(
                    xfields_view(fs@),
                    old(env)@,
                    fuel as nat,
                    Ok::<Seq<(Seq<char>, ValueV<T>)>, Seq<char>>(vsv),
                    env@,
                    Ok::<ValueV<T>, Seq<char>>(value_view(r)),
                );
            }
            Ok(r)
        },
    }
}

/// Evaluates an application: the head expression, then the currying loop
/// over the remaining terms.
fn handle_function_call<T: PartialEq, F: crate::HostFunction<T>, X>(
    items: &Vec<Expression>,
    env: &mut Bindings<T, F, X>,
    fuel: u64,
) -> (r: Result<WanderValue<T>, WanderError>)
    requires
        old(env).wf(),
    ensures
        eval_rel(
            ExprV::Application(exprs_view(items@)),
            old(env)@,
            fuel as nat,
            outcome_view(r),
            final(env)@,
        ),
        final(env).wf(),
    decreases fuel, 1nat + xs_size(exprs_view(items@)), 0int,
{
    broadcast use lemma_exprs_view_index;

    let ghost e = ExprV::Application(exprs_view(items@));
    proof {
        reveal_with_fuel(rel, 2);
    }
    if items.len() == 0 {
        return Err(WanderError("invalid function call".to_owned()));
    }
    proof {
        lemma_xs_size_first(exprs_view(items@));
    }
    if items.len() == 1 {
        let r = eval_fueled(&items[0], env, fuel);
        proof {
            assert(exprs_view(items@)[0] == expr_view(items@[0]));
        }
        return r;
    }
    let head = eval_fueled(&items[0], env, fuel);
    let ghost henv = env@;
    match head {
        Err(err) => {
            proof {
                lemma_rel_application(
                    exprs_view(items@),
                    old(env)@,
                    fuel as nat,
                    Err::<ValueV<T>, Seq<char>>(err.0@),
                    henv,
                    Err::<ValueV<T>, Seq<char>>(err.0@),
                    henv,
                );
            }
            Err(err)
        },
        Ok(v) => {
            let ghost vv = value_view(v);
            let q = collect_args(items, 1);
            proof {
                lemma_xs_size_first(exprs_view(items@));
                lemma_exprs_to_args_size::<T>(exprs_view(items@).drop_first());
                assert(exprs_view(items@).skip(1) =~= exprs_view(items@).drop_first());
            }
            let r = apply(v, q, env, fuel);
            proof {
                lemma_rel_application(
                    exprs_view(items@),
                    old(env)@,
                    fuel as nat,
                    Ok::<ValueV<T>, Seq<char>>(vv),
                    henv,
                    outcome_view(r),
                    env@,
                );
            }
            r
        },
    }
}

/// Gathers the terms of an application after the head as pending arguments.
fn collect_args<'a, T>(items: &'a Vec<Expression>, from: usize) -> (q: Vec<Arg<'a, T>>)
    requires
        1 <= from <= items@.len(),
    ensures
        args_view(q@) == exprs_to_args::<T>(exprs_view(items@).skip(from as int)),
{
    broadcast use lemma_exprs_view_index;

    let ghost target = exprs_to_args::<T>(exprs_view(items@).skip(from as int));
    proof {
        lemma_exprs_to_args_size::<T>(exprs_view(items@).skip(from as int));
        assert(exprs_view(items@).skip(from as int).len() == items@.len() - from);
    }
    let mut q: Vec<Arg<'a, T>> = Vec::new();
    let mut k: usize = from;
    while k < items.len()
        invariant
            from <= k <= items@.len(),
            q@.len() == k - from,
            target == exprs_to_args::<T>(exprs_view(items@).skip(from as int)),
            target.len() == items@.len() - from,
            forall|j: int|
                0 <= j < k - from ==> arg_view(#[trigger] q@[j]) == ArgM::<T>::Expr(
                    exprs_view(items@)[j + from],
                ),
        decreases items@.len() - k,
    {
        let arg: Arg<'a, T> = Arg::Expr(&items[k]);
        proof {
            assert(arg_view(arg) == ArgM::<T>::Expr(expr_view(items@[k as int])));
        }
        let ghost old_q = q@;
        q.push(arg);
        proof {
            lemma_exprs_view_index(items@);
            assert(forall|j: int| 0 <= j < old_q.len() ==> q@[j] == old_q[j]);
            assert(q@[k - from] == arg);
            assert(exprs_view(items@)[k as int] == expr_view(items@[k as int]));
            assert(arg_view(q@[k - from]) == ArgM::<T>::Expr(exprs_view(items@)[k as int]));
        }
        k = k + 1;
    }
    proof {
        lemma_args_view_index(q@);
        lemma_exprs_to_args_size::<T>(exprs_view(items@).skip(from as int));
        assert forall|j: int| 0 <= j < q@.len() implies args_view(q@)[j] == target[j] by {
            assert(target[j] == ArgM::<T>::Expr(exprs_view(items@).skip(from as int)[j]));
            assert(exprs_view(items@).skip(from as int)[j] == exprs_view(items@)[j + from]);
        }
        assert(args_view(q@) =~= target);
    }
    q
}

/// The currying application loop: binds pending arguments to lambda
/// parameters in the current scope, evaluating bodies as it goes.
fn apply<'a, T: PartialEq, F: crate::HostFunction<T>, X>(
    v: WanderValue<T>,
    args: Vec<Arg<'a, T>>,
    env: &mut Bindings<T, F, X>,
    fuel: u64,
) -> (r: Result<WanderValue<T>, WanderError>)
    requires
        old(env).wf(),
    ensures
        apply_rel(
            value_view(v),
            args_view(args@),
            old(env)@,
            fuel as nat,
            outcome_view(r),
            final(env)@,
        ),
        final(env).wf(),
    decreases fuel, q_size(args_view(args@)), 3int,
{
    broadcast use lemma_args_view_index;
    broadcast use crate::values::lemma_value_view_variant;

    if args.len() == 0 {
        proof {
            reveal_with_fuel(rel, 1);
            assert(args_view(args@) =~= Seq::<ArgM<T>>::empty());
        }
        return Ok(v);
    }
    let (p, i, o, body) = match v {
        WanderValue::Lambda(p, i, o, body) => (p, i, o, body),
        other => {
            proof {
                reveal_with_fuel(rel, 1);
                assert(!(value_view(other) is Lambda));
            }
            return Err(WanderError("invalid function call".to_owned()));
        },
    };
    let ghost vv = ValueV::<T>::Lambda(p@, opt_view(i), opt_view(o), Box::new(element_view(*body)));
    let ghost q_full = args_view(args@);
    let mut rest = args;
    let a0 = rest.remove(0);
    proof {
        lemma_args_view_index(rest@);
        assert(q_full.len() == rest@.len() + 1);
        assert(q_full[0] == arg_view(a0));
        assert forall|j: int| 0 <= j < rest@.len() implies args_view(rest@)[j] == q_full[j
            + 1] by {
            assert(args_view(rest@)[j] == arg_view(rest@[j]));
        }
        assert(q_full.drop_first() =~= args_view(rest@));
    }
    match eval_arg(a0, env, fuel) {
        Err(err) => {
            proof {
                lemma_apply_rel_step(
                    vv,
                    q_full,
                    old(env)@,
                    fuel as nat,
                    Err::<(ValueV<T>, Seq<ArgM<T>>), Seq<char>>(err.0@),
                    env@,
                    arbitrary(),
                    arbitrary(),
                    Err::<ValueV<T>, Seq<char>>(err.0@),
                    env@,
                );
            }
            Err(err)
        },
        Ok((argv, extra)) => {
            let ghost aenv = env@;
            let ghost argvv = value_view(argv);
            let ghost extrav = args_view(extra@);
            env.bind(p, argv);
            let ghost benv_bound = env@;
            match crate::translation::express(&body) {
                Err(err) => {
                    proof {
                        lemma_apply_rel_step(
                            vv,
                            q_full,
                            old(env)@,
                            fuel as nat,
                            Ok::<(ValueV<T>, Seq<ArgM<T>>), Seq<char>>((argvv, extrav)),
                            aenv,
                            arbitrary(),
                            arbitrary(),
                            Err::<ValueV<T>, Seq<char>>(err.0@),
                            env@,
                        );
                    }
                    Err(err)
                },
                Ok(bexpr) => {
                    if fuel == 0 {
                        proof {
                            lemma_apply_rel_step(
                                vv,
                                q_full,
                                old(env)@,
                                fuel as nat,
                                Ok::<(ValueV<T>, Seq<ArgM<T>>), Seq<char>>((argvv, extrav)),
                                aenv,
                                arbitrary(),
                                arbitrary(),
                                Err::<ValueV<T>, Seq<char>>(msg_fuel()),
                                env@,
                            );
                        }
                        return Err(WanderError("recursion budget exhausted".to_owned()));
                    }
                    let b = eval_fueled(&bexpr, env, fuel - 1);
                    match b {
                        Err(err) => {
                            proof {
                                lemma_apply_rel_step(
                                    vv,
                                    q_full,
                                    old(env)@,
                                    fuel as nat,
                                    Ok::<(ValueV<T>, Seq<ArgM<T>>), Seq<char>>((argvv, extrav)),
                                    aenv,
                                    Err::<ValueV<T>, Seq<char>>(err.0@),
                                    env@,
                                    Err::<ValueV<T>, Seq<char>>(err.0@),
                                    env@,
                                );
                            }
                            Err(err)
                        },
                        Ok(v2) => {
                            let ghost v2v = value_view(v2);
                            let ghost beval_env = env@;
                            let mut combined = extra;
                            let ghost c0 = combined@;
                            let ghost r0 = rest@;
                            combined.append(&mut rest);
                            proof {
                                assert(combined@ == c0 + r0);
                                lemma_args_view_concat(c0, r0);
                                lemma_q_size_concat(extrav, args_view(r0));
                            }
                            let r = apply(v2, combined, env, fuel);
                            proof {
                                lemma_apply_rel_step(
                                    vv,
                                    q_full,
                                    old(env)@,
                                    fuel as nat,
                                    Ok::<(ValueV<T>, Seq<ArgM<T>>), Seq<char>>((argvv, extrav)),
                                    aenv,
                                    Ok::<ValueV<T>, Seq<char>>(v2v),
                                    beval_env,
                                    outcome_view(r),
                                    env@,
                                );
                            }
                            r
                        },
                    }
                },
            }
        },
    }
}

/// Evaluates one pending argument.  An argument application with a lambda
/// head is an ordinary nested call; one with a non-lambda head is read as a
/// parenthesised argument list, yielding its head value and splicing the
/// remaining terms as further pending arguments — so `f (a b)` supplies two
/// arguments to `f`, the call-style grouping nested `let` scripts use.
fn eval_arg<'a, T: PartialEq, F: crate::HostFunction<T>, X>(
    a: Arg<'a, T>,
    env: &mut Bindings<T, F, X>,
    fuel: u64,
) -> (r: Result<(WanderValue<T>, Vec<Arg<'a, T>>), WanderError>)
    requires
        old(env).wf(),
    ensures
        arg_rel(arg_view(a), old(env)@, fuel as nat, argout_view(r), final(env)@),
        r matches Ok(p) ==> q_size(args_view(p.1@)) < argm_size(arg_view(a)),
        final(env).wf(),
    decreases fuel, argm_size(arg_view(a)), 2int,
{
    broadcast use crate::values::lemma_value_view_variant;
    broadcast use lemma_exprs_view_index;

    match a {
        Arg::Value(v) => {
            let out: Vec<Arg<'a, T>> = Vec::new();
            proof {
                reveal_with_fuel(rel, 1);
                assert(args_view(out@) =~= Seq::<ArgM<T>>::empty());
            }
            Ok((v, out))
        },
        Arg::Expr(e) => {
            let is_app2 = match e {
                Expression::Application(items) => items.len() >= 2,
                _ => false,
            };
            if is_app2 {
                let items = match e {
                    Expression::Application(items) => items,
                    _ => {
                        proof {
                            assert(false);
                        }
                        return Err(WanderError(String::new()));
                    },
                };
                let ghost itemsv = exprs_view(items@);
                proof {
                    lemma_xs_size_first(itemsv);
                    lemma_exprs_to_args_size::<T>(itemsv.drop_first());
                }
                let head = eval_fueled(&items[0], env, fuel);
                let ghost henv = env@;
                match head {
                    Err(err) => {
                        proof {
                            lemma_arg_rel_app(
                                itemsv,
                                old(env)@,
                                fuel as nat,
                                Err::<ValueV<T>, Seq<char>>(err.0@),
                                henv,
                                arbitrary(),
                                arbitrary(),
                                Err::<(ValueV<T>, Seq<ArgM<T>>), Seq<char>>(err.0@),
                                henv,
                            );
                        }
                        Err(err)
                    },
                    Ok(v0) => {
                        let ghost v0v = value_view(v0);
                        let is_lambda = match &v0 {
                            WanderValue::Lambda(_, _, _, _) => true,
                            _ => false,
                        };
                        let q = collect_args(items, 1);
                        proof {
                            assert(exprs_view(items@).skip(1) =~= itemsv.drop_first());
                        }
                        if is_lambda {
                            let w = apply(v0, q, env, fuel);
                            match w {
                                Ok(wv) => {
                                    let out: Vec<Arg<'a, T>> = Vec::new();
                                    proof {
                                        assert(args_view(out@) =~= Seq::<ArgM<T>>::empty());
                                        lemma_arg_rel_app(
                                            itemsv,
                                            old(env)@,
                                            fuel as nat,
                                            Ok::<ValueV<T>, Seq<char>>(v0v),
                                            henv,
                                            Ok::<ValueV<T>, Seq<char>>(value_view(wv)),
                                            env@,
                                            Ok::<(ValueV<T>, Seq<ArgM<T>>), Seq<char>>(
                                                (value_view(wv), Seq::empty()),
                                            ),
                                            env@,
                                        );
                                    }
                                    Ok((wv, out))
                                },
                                Err(err) => {
                                    proof {
                                        lemma_arg_rel_app(
                                            itemsv,
                                            old(env)@,
                                            fuel as nat,
                                            Ok::<ValueV<T>, Seq<char>>(v0v),
                                            henv,
                                            Err::<ValueV<T>, Seq<char>>(err.0@),
                                            env@,
                                            Err::<(ValueV<T>, Seq<ArgM<T>>), Seq<char>>(err.0@),
                                            env@,
                                        );
                                    }
                                    Err(err)
                                },
                            }
                        } else {
                            proof {
                                assert(!(v0v is Lambda));
                                lemma_arg_rel_app(
                                    itemsv,
                                    old(env)@,
                                    fuel as nat,
                                    Ok::<ValueV<T>, Seq<char>>(v0v),
                                    henv,
                                    arbitrary(),
                                    arbitrary(),
                                    Ok::<(ValueV<T>, Seq<ArgM<T>>), Seq<char>>(
                                        (v0v, exprs_to_args(itemsv.drop_first())),
                                    ),
                                    henv,
                                );
                            }
                            Ok((v0, q))
                        }
                    },
                }
            } else {
                proof {
                    match expr_view(*e) {
                        ExprV::Application(itemsv) => {
                            assert(itemsv.len() == e->Application_0@.len());
                        },
                        _ => {},
                    }
                    lemma_x_size_pos(expr_view(*e));
                }
                let r0 = eval_fueled(e, env, fuel);
                match r0 {
                    Ok(v) => {
                        let out: Vec<Arg<'a, T>> = Vec::new();
                        proof {
                            assert(args_view(out@) =~= Seq::<ArgM<T>>::empty());
                            lemma_arg_rel_plain(
                                expr_view(*e),
                                old(env)@,
                                fuel as nat,
                                Ok::<ValueV<T>, Seq<char>>(value_view(v)),
                                env@,
                                Ok::<(ValueV<T>, Seq<ArgM<T>>), Seq<char>>(
                                    (value_view(v), Seq::empty()),
                                ),
                            );
                        }
                        Ok((v, out))
                    },
                    Err(err) => {
                        proof {
                            lemma_arg_rel_plain(
                                expr_view(*e),
                                old(env)@,
                                fuel as nat,
                                Err::<ValueV<T>, Seq<char>>(err.0@),
                                env@,
                                Err::<(ValueV<T>, Seq<ArgM<T>>), Seq<char>>(err.0@),
                            );
                        }
                        Err(err)
                    },
                }
            }
        },
    }
}

/// Collapses evaluated record fields: names unique, last write wins.
fn collapse_record<T>(fs: Vec<(String, WanderValue<T>)>) -> (r: Vec<(String, WanderValue<T>)>)
    ensures
        vfields_view(r@) == record_collapse(vfields_view(fs@)),
{
    let mut out: Vec<(String, WanderValue<T>)> = Vec::new();
    proof {
        assert(vfields_view(fs@.subrange(0, 0)) =~= Seq::<(Seq<char>, ValueV<T>)>::empty());
        assert(vfields_view(out@) =~= Seq::<(Seq<char>, ValueV<T>)>::empty());
    }
    let mut i2: usize = 0;
    while i2 < fs.len()
        invariant
            i2 <= fs@.len(),
            vfields_view(out@) == record_collapse(vfields_view(fs@.subrange(0, i2 as int))),
        decreases fs@.len() - i2,
    {
        proof {
            lemma_vfields_view_index(fs@);
            lemma_vfields_view_index(fs@.subrange(0, i2 as int));
            assert(fs@.subrange(0, i2 + 1).drop_last() =~= fs@.subrange(0, i2 as int));
            lemma_vfields_view_index(fs@.subrange(0, i2 + 1));
            assert(vfields_view(fs@.subrange(0, i2 + 1)).drop_last() =~= vfields_view(
                fs@.subrange(0, i2 as int),
            ));
        }
        let name = fs[i2].0.clone();
        let v = clone_value(&fs[i2].1);
        record_insert_exec(&mut out, name, v);
        i2 = i2 + 1;
    }
    proof {
        assert(fs@.subrange(0, fs@.len() as int) =~= fs@);
    }
    out
}

} // verus!

verus! {

// ---------------------------------------------------------------------------
// Introduction lemmas for the evaluation relation
// ---------------------------------------------------------------------------
// Each lemma packages one rule of the relation: the executable evaluator
// calls it with the concrete intermediate outcomes as witnesses.

/// Introduces the `let` rule.
#[verifier::rlimit(100)]
#[verifier::spinoff_prover]
pub proof fn lemma_rel_let<T: PartialEq, F: crate::HostFunction<T>, X>(
    ds: Seq<(Seq<char>, Option<ExprV>, ExprV)>,
    b: ExprV,
    env: BindingsV<T, F, X>,
    fuel: nat,
    dout: Result<(), Seq<char>>,
    denv: BindingsV<T, F, X>,
    bout: Result<ValueV<T>, Seq<char>>,
    benv: BindingsV<T, F, X>,
    out: Result<ValueV<T>, Seq<char>>,
    env2: BindingsV<T, F, X>,
)
    requires
        decls_rel(ds, push_scope(env), fuel, dout, denv),
        dout matches Err(m) ==> out == Err::<ValueV<T>, Seq<char>>(m) && env2 == pop_scope(denv),
        dout is Ok ==> eval_rel(b, denv, fuel, bout, benv) && out == bout && env2 == pop_scope(
            benv,
        ),
    ensures
        eval_rel(ExprV::Let(ds, Box::new(b)), env, fuel, out, env2),
{
    reveal_with_fuel(rel, 2);
    assert(rel_witness(dout, denv));
    assert(rel(Q::Decls(ds, dout), push_scope(env), fuel, denv));
    match dout {
        Ok(_) => {
            assert(rel_witness(bout, benv));
            assert(rel(Q::Eval(b, bout), denv, fuel, benv));
        },
        Err(_) => {},
    }
}

/// Introduces the conditional rule.
#[verifier::rlimit(100)]
#[verifier::spinoff_prover]
pub proof fn lemma_rel_conditional<T: PartialEq, F: crate::HostFunction<T>, X>(
    c: ExprV,
    t: ExprV,
    el: ExprV,
    env: BindingsV<T, F, X>,
    fuel: nat,
    cout: Result<ValueV<T>, Seq<char>>,
    cenv: BindingsV<T, F, X>,
    out: Result<ValueV<T>, Seq<char>>,
    env2: BindingsV<T, F, X>,
)
    requires
        eval_rel(c, env, fuel, cout, cenv),
        match cout {
            Err(m) => out == Err::<ValueV<T>, Seq<char>>(m) && env2 == cenv,
            Ok(v) => if v == ValueV::<T>::Boolean(true) {
                eval_rel(t, cenv, fuel, out, env2)
            } else if v == ValueV::<T>::Boolean(false) {
                eval_rel(el, cenv, fuel, out, env2)
            } else {
                out == Err::<ValueV<T>, Seq<char>>(msg_guard()) && env2 == cenv
            },
        },
    ensures
        eval_rel(
            ExprV::Conditional(Box::new(c), Box::new(t), Box::new(el)),
            env,
            fuel,
            out,
            env2,
        ),
{
    reveal_with_fuel(rel, 2);
    assert(rel_witness(cout, cenv));
    assert(rel(Q::Eval(c, cout), env, fuel, cenv));
}

/// Introduces the application rule for two or more terms.
#[verifier::rlimit(100)]
#[verifier::spinoff_prover]
pub proof fn lemma_rel_application<T: PartialEq, F: crate::HostFunction<T>, X>(
    items: Seq<ExprV>,
    env: BindingsV<T, F, X>,
    fuel: nat,
    hout: Result<ValueV<T>, Seq<char>>,
    henv: BindingsV<T, F, X>,
    out: Result<ValueV<T>, Seq<char>>,
    env2: BindingsV<T, F, X>,
)
    requires
        items.len() >= 2,
        eval_rel(items[0], env, fuel, hout, henv),
        match hout {
            Err(m) => out == Err::<ValueV<T>, Seq<char>>(m) && env2 == henv,
            Ok(v) => apply_rel(v, exprs_to_args(items.drop_first()), henv, fuel, out, env2),
        },
    ensures
        eval_rel(ExprV::Application(items), env, fuel, out, env2),
{
    reveal_with_fuel(rel, 2);
    assert(rel_witness(hout, henv));
    assert(rel(Q::Eval(items[0], hout), env, fuel, henv));
    match hout {
        Ok(v) => {
            assert(rel(
                Q::Apply(v, exprs_to_args(items.drop_first()), out),
                henv,
                fuel,
                env2,
            ));
        },
        Err(_) => {},
    }
}

/// Introduces the list rule.
#[verifier::rlimit(100)]
#[verifier::spinoff_prover]
pub proof fn lemma_rel_list<T: PartialEq, F: crate::HostFunction<T>, X>(
    items: Seq<ExprV>,
    env: BindingsV<T, F, X>,
    fuel: nat,
    sout: Result<Seq<ValueV<T>>, Seq<char>>,
    senv: BindingsV<T, F, X>,
    out: Result<ValueV<T>, Seq<char>>,
)
    requires
        seq_rel(items, env, fuel, sout, senv),
        match sout {
            Err(m) => out == Err::<ValueV<T>, Seq<char>>(m),
            Ok(vs) => out == Ok::<ValueV<T>, Seq<char>>(ValueV::List(vs)),
        },
    ensures
        eval_rel(ExprV::List(items), env, fuel, out, senv),
{
    reveal_with_fuel(rel, 2);
    assert(rel_witness(sout, senv));
    assert(rel(Q::EvalSeq(items, sout), env, fuel, senv));
}

/// Introduces the tuple rule.
#[verifier::rlimit(100)]
#[verifier::spinoff_prover]
pub proof fn lemma_rel_tuple<T: PartialEq, F: crate::HostFunction<T>, X>(
    items: Seq<ExprV>,
    env: BindingsV<T, F, X>,
    fuel: nat,
    sout: Result<Seq<ValueV<T>>, Seq<char>>,
    senv: BindingsV<T, F, X>,
    out: Result<ValueV<T>, Seq<char>>,
)
    requires
        seq_rel(items, env, fuel, sout, senv),
        match sout {
            Err(m) => out == Err::<ValueV<T>, Seq<char>>(m),
            Ok(vs) => out == Ok::<ValueV<T>, Seq<char>>(ValueV::Tuple(vs)),
        },
    ensures
        eval_rel(ExprV::Tuple(items), env, fuel, out, senv),
{
    reveal_with_fuel(rel, 2);
    assert(rel_witness(sout, senv));
    assert(rel(Q::EvalSeq(items, sout), env, fuel, senv));
}

/// Introduces the set rule.
#[verifier::rlimit(100)]
#[verifier::spinoff_prover]
pub proof fn lemma_rel_setof<T: PartialEq, F: crate::HostFunction<T>, X>(
    items: Seq<ExprV>,
    env: BindingsV<T, F, X>,
    fuel: nat,
    sout: Result<Seq<ValueV<T>>, Seq<char>>,
    senv: BindingsV<T, F, X>,
    dsw: Seq<ValueV<T>>,
    out: Result<ValueV<T>, Seq<char>>,
)
    requires
        seq_rel(items, env, fuel, sout, senv),
        match sout {
            Err(m) => out == Err::<ValueV<T>, Seq<char>>(m),
            Ok(vs) => out == Ok::<ValueV<T>, Seq<char>>(ValueV::SetOf(dsw)) && (
            T::obeys_eq_spec() ==> dsw == dedup_vals(vs)),
        },
    ensures
        eval_rel(ExprV::SetOf(items), env, fuel, out, senv),
{
    reveal_with_fuel(rel, 2);
    assert(rel_witness(sout, senv));
    assert(rel_witness_one(dsw));
    assert(rel(Q::EvalSeq(items, sout), env, fuel, senv));
    match sout {
        Ok(vs) => {
            assert(out == Ok::<ValueV<T>, Seq<char>>(ValueV::SetOf(dsw)) && (T::obeys_eq_spec()
                ==> dsw == dedup_vals(vs)));
        },
        Err(_) => {},
    }
}

/// Introduces the record rule.
#[verifier::rlimit(100)]
#[verifier::spinoff_prover]
pub proof fn lemma_rel_record<T: PartialEq, F: crate::HostFunction<T>, X>(
    fs: Seq<(Seq<char>, ExprV)>,
    env: BindingsV<T, F, X>,
    fuel: nat,
    fout: Result<Seq<(Seq<char>, ValueV<T>)>, Seq<char>>,
    fenv: BindingsV<T, F, X>,
    out: Result<ValueV<T>, Seq<char>>,
)
    requires
        fields_rel(fs, env, fuel, fout, fenv),
        match fout {
            Err(m) => out == Err::<ValueV<T>, Seq<char>>(m),
            Ok(vs) => out == Ok::<ValueV<T>, Seq<char>>(ValueV::Record(record_collapse(vs))),
        },
    ensures
        eval_rel(ExprV::Record(fs), env, fuel, out, fenv),
{
    reveal_with_fuel(rel, 2);
    assert(rel_witness(fout, fenv));
    assert(rel(Q::Flds(fs, fout), env, fuel, fenv));
}

/// Introduces one step of sequence evaluation.
#[verifier::rlimit(100)]
#[verifier::spinoff_prover]
pub proof fn lemma_seq_rel_cons<T: PartialEq, F: crate::HostFunction<T>, X>(
    items: Seq<ExprV>,
    env: BindingsV<T, F, X>,
    fuel: nat,
    hout: Result<ValueV<T>, Seq<char>>,
    henv: BindingsV<T, F, X>,
    rout: Result<Seq<ValueV<T>>, Seq<char>>,
    renv: BindingsV<T, F, X>,
    out: Result<Seq<ValueV<T>>, Seq<char>>,
    env2: BindingsV<T, F, X>,
)
    requires
        items.len() > 0,
        eval_rel(items[0], env, fuel, hout, henv),
        match hout {
            Err(m) => out == Err::<Seq<ValueV<T>>, Seq<char>>(m) && env2 == henv,
            Ok(v) => seq_rel(items.drop_first(), henv, fuel, rout, renv) && env2 == renv && out
                == (match rout {
                Ok(vs) => Ok::<Seq<ValueV<T>>, Seq<char>>(seq![v] + vs),
                Err(m) => Err::<Seq<ValueV<T>>, Seq<char>>(m),
            }),
        },
    ensures
        seq_rel(items, env, fuel, out, env2),
{
    reveal_with_fuel(rel, 1);
    assert(rel_witness(hout, henv));
    assert(rel(Q::Eval(items[0], hout), env, fuel, henv));
    match hout {
        Ok(_) => {
            assert(rel_witness(rout, renv));
            assert(rel(Q::EvalSeq(items.drop_first(), rout), henv, fuel, renv));
        },
        Err(_) => {},
    }
}

/// Introduces one step of field evaluation.
#[verifier::rlimit(100)]
#[verifier::spinoff_prover]
pub proof fn lemma_fields_rel_cons<T: PartialEq, F: crate::HostFunction<T>, X>(
    fs: Seq<(Seq<char>, ExprV)>,
    env: BindingsV<T, F, X>,
    fuel: nat,
    hout: Result<ValueV<T>, Seq<char>>,
    henv: BindingsV<T, F, X>,
    rout: Result<Seq<(Seq<char>, ValueV<T>)>, Seq<char>>,
    renv: BindingsV<T, F, X>,
    out: Result<Seq<(Seq<char>, ValueV<T>)>, Seq<char>>,
    env2: BindingsV<T, F, X>,
)
    requires
        fs.len() > 0,
        eval_rel(fs[0].1, env, fuel, hout, henv),
        match hout {
            Err(m) => out == Err::<Seq<(Seq<char>, ValueV<T>)>, Seq<char>>(m) && env2 == henv,
            Ok(v) => fields_rel(fs.drop_first(), henv, fuel, rout, renv) && env2 == renv && out
                == (match rout {
                Ok(vs) => Ok::<Seq<(Seq<char>, ValueV<T>)>, Seq<char>>(seq![(fs[0].0, v)] + vs),
                Err(m) => Err::<Seq<(Seq<char>, ValueV<T>)>, Seq<char>>(m),
            }),
        },
    ensures
        fields_rel(fs, env, fuel, out, env2),
{
    reveal_with_fuel(rel, 1);
    assert(rel_witness(hout, henv));
    assert(rel(Q::Eval(fs[0].1, hout), env, fuel, henv));
    match hout {
        Ok(_) => {
            assert(rel_witness(rout, renv));
            assert(rel(Q::Flds(fs.drop_first(), rout), henv, fuel, renv));
        },
        Err(_) => {},
    }
}

/// Introduces one step of declaration evaluation.
#[verifier::rlimit(100)]
#[verifier::spinoff_prover]
pub proof fn lemma_decls_rel_cons<T: PartialEq, F: crate::HostFunction<T>, X>(
    ds: Seq<(Seq<char>, Option<ExprV>, ExprV)>,
    env: BindingsV<T, F, X>,
    fuel: nat,
    hout: Result<ValueV<T>, Seq<char>>,
    henv: BindingsV<T, F, X>,
    out: Result<(), Seq<char>>,
    env2: BindingsV<T, F, X>,
)
    requires
        ds.len() > 0,
        eval_rel(ds[0].2, env, fuel, hout, henv),
        match hout {
            Err(m) => out == Err::<(), Seq<char>>(m) && env2 == henv,
            Ok(v) => decls_rel(ds.drop_first(), env_bind(henv, ds[0].0, v), fuel, out, env2),
        },
    ensures
        decls_rel(ds, env, fuel, out, env2),
{
    reveal_with_fuel(rel, 1);
    assert(rel_witness(hout, henv));
    assert(rel(Q::Eval(ds[0].2, hout), env, fuel, henv));
    match hout {
        Ok(v) => {
            assert(rel(Q::Decls(ds.drop_first(), out), env_bind(henv, ds[0].0, v), fuel, env2));
        },
        Err(_) => {},
    }
}

/// Introduces the argument rule for an application argument.
#[verifier::rlimit(100)]
#[verifier::spinoff_prover]
pub proof fn lemma_arg_rel_app<T: PartialEq, F: crate::HostFunction<T>, X>(
    items: Seq<ExprV>,
    env: BindingsV<T, F, X>,
    fuel: nat,
    hout: Result<ValueV<T>, Seq<char>>,
    henv: BindingsV<T, F, X>,
    wout: Result<ValueV<T>, Seq<char>>,
    wenv: BindingsV<T, F, X>,
    out: Result<(ValueV<T>, Seq<ArgM<T>>), Seq<char>>,
    env2: BindingsV<T, F, X>,
)
    requires
        items.len() >= 2,
        eval_rel(items[0], env, fuel, hout, henv),
        match hout {
            Err(m) => out == Err::<(ValueV<T>, Seq<ArgM<T>>), Seq<char>>(m) && env2 == henv,
            Ok(v0) => if v0 is Lambda {
                apply_rel(v0, exprs_to_args(items.drop_first()), henv, fuel, wout, wenv) && env2
                    == wenv && out == (match wout {
                    Ok(v) => Ok::<(ValueV<T>, Seq<ArgM<T>>), Seq<char>>((v, Seq::empty())),
                    Err(m) => Err::<(ValueV<T>, Seq<ArgM<T>>), Seq<char>>(m),
                })
            } else {
                out == Ok::<(ValueV<T>, Seq<ArgM<T>>), Seq<char>>(
                    (v0, exprs_to_args(items.drop_first())),
                ) && env2 == henv
            },
        },
    ensures
        arg_rel(ArgM::Expr(ExprV::Application(items)), env, fuel, out, env2),
{
    reveal_with_fuel(rel, 1);
    assert(rel_witness(hout, henv));
    assert(rel(Q::Eval(items[0], hout), env, fuel, henv));
    match hout {
        Ok(v0) => {
            if v0 is Lambda {
                assert(rel_witness(wout, wenv));
                assert(rel(
                    Q::Apply(v0, exprs_to_args(items.drop_first()), wout),
                    henv,
                    fuel,
                    wenv,
                ));
            }
        },
        Err(_) => {},
    }
}

/// Introduces the argument rule for a plain argument expression.
#[verifier::rlimit(100)]
#[verifier::spinoff_prover]
pub proof fn lemma_arg_rel_plain<T: PartialEq, F: crate::HostFunction<T>, X>(
    e: ExprV,
    env: BindingsV<T, F, X>,
    fuel: nat,
    hout: Result<ValueV<T>, Seq<char>>,
    henv: BindingsV<T, F, X>,
    out: Result<(ValueV<T>, Seq<ArgM<T>>), Seq<char>>,
)
    requires
        !(e matches ExprV::Application(items) && items.len() >= 2),
        eval_rel(e, env, fuel, hout, henv),
        out == (match hout {
            Ok(v) => Ok::<(ValueV<T>, Seq<ArgM<T>>), Seq<char>>((v, Seq::empty())),
            Err(m) => Err::<(ValueV<T>, Seq<ArgM<T>>), Seq<char>>(m),
        }),
    ensures
        arg_rel(ArgM::Expr(e), env, fuel, out, henv),
{
    reveal_with_fuel(rel, 1);
    assert(rel_witness(hout, henv));
    assert(rel(Q::Eval(e, hout), env, fuel, henv));
    match e {
        ExprV::Application(items) => {
            assert(items.len() < 2);
        },
        _ => {},
    }
}

/// Introduces one step of the application loop.
#[verifier::rlimit(100)]
#[verifier::spinoff_prover]
pub proof fn lemma_apply_rel_step<T: PartialEq, F: crate::HostFunction<T>, X>(
    v: ValueV<T>,
    q: Seq<ArgM<T>>,
    env: BindingsV<T, F, X>,
    fuel: nat,
    aout: Result<(ValueV<T>, Seq<ArgM<T>>), Seq<char>>,
    aenv: BindingsV<T, F, X>,
    bout: Result<ValueV<T>, Seq<char>>,
    benv: BindingsV<T, F, X>,
    out: Result<ValueV<T>, Seq<char>>,
    env2: BindingsV<T, F, X>,
)
    requires
        q.len() > 0,
        v is Lambda,
        arg_rel(q[0], env, fuel, aout, aenv),
        match aout {
            Err(m) => out == Err::<ValueV<T>, Seq<char>>(m) && env2 == aenv,
            Ok(p) => {
                let env_b = env_bind(aenv, v->Lambda_0, p.0);
                &&& q_size(p.1) < argm_size(q[0])
                &&& match crate::translation::express_model(*v->Lambda_3) {
                    Err(m) => out == Err::<ValueV<T>, Seq<char>>(m) && env2 == env_b,
                    Ok(bexpr) => if fuel == 0 {
                        out == Err::<ValueV<T>, Seq<char>>(msg_fuel()) && env2 == env_b
                    } else {
                        eval_rel(bexpr, env_b, (fuel - 1) as nat, bout, benv) && match bout {
                            Err(m) => out == Err::<ValueV<T>, Seq<char>>(m) && env2 == benv,
                            Ok(v2) => apply_rel(v2, p.1 + q.drop_first(), benv, fuel, out, env2),
                        }
                    },
                }
            },
        },
    ensures
        apply_rel(v, q, env, fuel, out, env2),
{
    reveal_with_fuel(rel, 1);
    assert(rel_witness(aout, aenv));
    assert(rel(Q::AnArg(q[0], aout), env, fuel, aenv));
    match aout {
        Ok(p) => {
            let env_b = env_bind(aenv, v->Lambda_0, p.0);
            match crate::translation::express_model(*v->Lambda_3) {
                Ok(bexpr) => {
                    if fuel > 0 {
                        assert(rel_witness(bout, benv));
                        assert(rel(Q::Eval(bexpr, bout), env_b, (fuel - 1) as nat, benv));
                        match bout {
                            Ok(v2) => {
                                assert(rel(
                                    Q::Apply(v2, p.1 + q.drop_first(), out),
                                    benv,
                                    fuel,
                                    env2,
                                ));
                            },
                            Err(_) => {},
                        }
                    }
                },
                Err(_) => {},
            }
        },
        Err(_) => {},
    }
}

} // verus!
