//! Translation: parsed elements to evaluator expressions.
//!
//! [`translate`] first resolves forward (pipe) markers in a top-level
//! grouping — each `a >> b` appends the terms collected so far as trailing
//! arguments of the grouping after the marker — and then applies [`express`],
//! the structural homomorphism from elements to expressions that turns
//! groupings into applications.  Both steps are pinned by specification
//! functions over the views.

use vstd::prelude::*;

verus! {

use crate::WanderError;
use crate::interpreter::{
    Expression, ExprV, expr_view, exprs_view, lemma_exprs_view_index, lemma_xdecls_view_index,
    lemma_xfields_view_index, xdecls_view, xfields_view, opt_expr_view,
};
use crate::parser::{
    Element, ElementV, clone_element, clone_elements, clone_tag, element_view, elements_view,
    lemma_elements_view_index, opt_view,
};

/// The message for a forward marker with nothing usable after it.
pub open spec fn pipe_err_msg() -> Seq<char> {
    "invalid pipe: a forward marker must be followed by a grouping"@
}

/// The message for a forward marker that survives into expression building;
/// it can only come from a hand-built element tree, never from the parser
/// and pipe resolution.
pub open spec fn stray_pipe_msg() -> Seq<char> {
    "cannot express a stray forward marker"@
}

/// Resolves forward markers in a grouping's items, left to right: on a
/// marker, the grouping after it absorbs everything collected so far as
/// trailing arguments.  `acc` holds the terms collected so far.
pub open spec fn process_pipes_model(items: Seq<ElementV>, i: int, acc: Seq<ElementV>) -> Result<
    Seq<ElementV>,
    Seq<char>,
>
    decreases items.len() - i,
{
    if i < 0 || i >= items.len() {
        Ok(acc)
    } else if items[i] is Pipe {
        if i + 1 < items.len() && items[i + 1] is Grouping {
            process_pipes_model(
                items,
                i + 2,
                seq![ElementV::Grouping(items[i + 1]->Grouping_0 + acc)],
            )
        } else {
            Err(pipe_err_msg())
        }
    } else {
        process_pipes_model(items, i + 1, acc.push(items[i]))
    }
}

/// Pipe resolution on a whole element: a grouping has its items resolved;
/// any other element passes through unchanged.
pub open spec fn pipes_model(e: ElementV) -> Result<ElementV, Seq<char>> {
    match e {
        ElementV::Grouping(items) => match process_pipes_model(items, 0, Seq::empty()) {
            Ok(items2) => Ok(ElementV::Grouping(items2)),
            Err(m) => Err(m),
        },
        _ => Ok(e),
    }
}

/// The structural homomorphism from elements to expressions.  A grouping of
/// one item collapses to that item's expression; a grouping of several
/// becomes an application.  A surviving forward marker is an error.
pub open spec fn express_model(e: ElementV) -> Result<ExprV, Seq<char>>
    decreases e, 1int,
{
    match e {
        ElementV::Boolean(b) => Ok(ExprV::Boolean(b)),
        ElementV::Int(n) => Ok(ExprV::Int(n)),
        ElementV::String(s) => Ok(ExprV::String(s)),
        ElementV::Nothing => Ok(ExprV::Nothing),
        ElementV::Pipe => Err(stray_pipe_msg()),
        ElementV::Name(n) => Ok(ExprV::Name(n)),
        ElementV::TaggedName(n, t) => match express_model(*t) {
            Ok(tx) => Ok(ExprV::TaggedName(n, Box::new(tx))),
            Err(m) => Err(m),
        },
        ElementV::HostFunction(n) => Ok(ExprV::HostFunction(n)),
        ElementV::Let(ds, b) => match express_decls_model(ds) {
            Err(m) => Err(m),
            Ok(dxs) => match express_model(*b) {
                Err(m) => Err(m),
                Ok(bx) => Ok(ExprV::Let(dxs, Box::new(bx))),
            },
        },
        ElementV::Grouping(items) => match express_seq_model(items) {
            Err(m) => Err(m),
            Ok(xs) => if xs.len() == 1 {
                Ok(xs[0])
            } else {
                Ok(ExprV::Application(xs))
            },
        },
        ElementV::Conditional(c, t, e2) => match express_model(*c) {
            Err(m) => Err(m),
            Ok(cx) => match express_model(*t) {
                Err(m) => Err(m),
                Ok(tx) => match express_model(*e2) {
                    Err(m) => Err(m),
                    Ok(ex) => Ok(ExprV::Conditional(Box::new(cx), Box::new(tx), Box::new(ex))),
                },
            },
        },
        ElementV::Lambda(p, i, o, b) => Ok(ExprV::Lambda(p, i, o, b)),
        ElementV::Tuple(items) => match express_seq_model(items) {
            Err(m) => Err(m),
            Ok(xs) => Ok(ExprV::Tuple(xs)),
        },
        ElementV::List(items) => match express_seq_model(items) {
            Err(m) => Err(m),
            Ok(xs) => Ok(ExprV::List(xs)),
        },
        ElementV::SetOf(items) => match express_seq_model(items) {
            Err(m) => Err(m),
            Ok(xs) => Ok(ExprV::SetOf(xs)),
        },
        ElementV::Record(fs) => match express_fields_model(fs) {
            Err(m) => Err(m),
            Ok(xs) => Ok(ExprV::Record(xs)),
        },
    }
}

/// Expresses each element of a sequence, failing fast.
pub open spec fn express_seq_model(items: Seq<ElementV>) -> Result<Seq<ExprV>, Seq<char>>
    decreases items, 0int,
{
    if items.len() == 0 {
        Ok(Seq::empty())
    } else {
        match express_model(items[0]) {
            Err(m) => Err(m),
            Ok(x) => match express_seq_model(items.drop_first()) {
                Err(m) => Err(m),
                Ok(xs) => Ok(seq![x] + xs),
            },
        }
    }
}

/// Expresses each declaration of a `let`; a type tag becomes a name
/// expression.
pub open spec fn express_decls_model(ds: Seq<(Seq<char>, Option<Seq<char>>, ElementV)>) -> Result<
    Seq<(Seq<char>, Option<ExprV>, ExprV)>,
    Seq<char>,
>
    decreases ds, 0int,
{
    if ds.len() == 0 {
        Ok(Seq::empty())
    } else {
        let tag = match ds[0].1 {
            Some(n) => Some(ExprV::Name(n)),
            None => None,
        };
        match express_model(ds[0].2) {
            Err(m) => Err(m),
            Ok(x) => match express_decls_model(ds.drop_first()) {
                Err(m) => Err(m),
                Ok(xs) => Ok(seq![(ds[0].0, tag, x)] + xs),
            },
        }
    }
}

/// Expresses each field of a record.
pub open spec fn express_fields_model(fs: Seq<(Seq<char>, ElementV)>) -> Result<
    Seq<(Seq<char>, ExprV)>,
    Seq<char>,
>
    decreases fs, 0int,
{
    if fs.len() == 0 {
        Ok(Seq::empty())
    } else {
        match express_model(fs[0].1) {
            Err(m) => Err(m),
            Ok(x) => match express_fields_model(fs.drop_first()) {
                Err(m) => Err(m),
                Ok(xs) => Ok(seq![(fs[0].0, x)] + xs),
            },
        }
    }
}

/// The whole translation: pipe resolution, then expression building.
pub open spec fn translate_model(e: ElementV) -> Result<ExprV, Seq<char>> {
    match pipes_model(e) {
        Err(m) => Err(m),
        Ok(e2) => express_model(e2),
    }
}

// ---------------------------------------------------------------------------
// Executable translation
// ---------------------------------------------------------------------------

/// Resolves forward markers in an element; the result is exactly
/// [`pipes_model`] on the view.
pub fn process_pipes(element: &Element) -> (r: Result<Element, WanderError>)
    ensures
        match r {
            Ok(e) => pipes_model(element_view(*element)) == Ok::<ElementV, Seq<char>>(
                element_view(e),
            ),
            Err(err) => pipes_model(element_view(*element)) == Err::<ElementV, Seq<char>>(err.0@),
        },
{
    match element {
        Element::Grouping(items) => {
            match process_pipe_items(items) {
                Ok(acc) => Ok(Element::Grouping(acc)),
                Err(e) => Err(e),
            }
        },
        _ => Ok(clone_element(element)),
    }
}

/// Resolves forward markers in a grouping's item list.
fn process_pipe_items(items: &Vec<Element>) -> (r: Result<Vec<Element>, WanderError>)
    ensures
        match r {
            Ok(acc) => process_pipes_model(elements_view(items@), 0, Seq::empty()) == Ok::<
                Seq<ElementV>,
                Seq<char>,
            >(elements_view(acc@)),
            Err(err) => process_pipes_model(elements_view(items@), 0, Seq::empty()) == Err::<
                Seq<ElementV>,
                Seq<char>,
            >(err.0@),
        },
{
    broadcast use lemma_elements_view_index;

    let ghost itemsv = elements_view(items@);
    let mut acc: Vec<Element> = Vec::new();
    let mut i: usize = 0;
    while i < items.len()
        invariant
            i <= items@.len(),
            itemsv == elements_view(items@),
            itemsv.len() == items@.len(),
            process_pipes_model(itemsv, 0, Seq::empty()) == process_pipes_model(
                itemsv,
                i as int,
                elements_view(acc@),
            ),
        decreases items@.len() - i,
    {
        proof {
            lemma_elements_view_index(items@);
            lemma_elements_view_index(acc@);
        }
        let is_pipe = match &items[i] {
            Element::Pipe => true,
            _ => false,
        };
        if is_pipe {
            if i + 1 < items.len() {
                let next_items = match &items[i + 1] {
                    Element::Grouping(next_items) => Some(next_items),
                    _ => None,
                };
                match next_items {
                    Some(next_items) => {
                        let mut combined = clone_elements(next_items);
                        let mut old_acc = acc;
                        let ghost old_accv = elements_view(old_acc@);
                        let ghost a0 = old_acc@;
                        let ghost c0 = combined@;
                        combined.append(&mut old_acc);
                        proof {
                            assert(combined@ == c0 + a0);
                            lemma_elements_view_concat(c0, a0);
                            assert(elements_view(combined@) == elements_view(c0) + old_accv);
                            assert(itemsv[i as int] is Pipe);
                            assert(itemsv[i as int + 1] == element_view(items@[i + 1]));
                            assert(itemsv[i as int + 1]->Grouping_0 == elements_view(
                                next_items@,
                            ));
                        }
                        let mut new_acc: Vec<Element> = Vec::new();
                        new_acc.push(Element::Grouping(combined));
                        proof {
                            assert(new_acc@.drop_last() =~= Seq::<Element>::empty());
                            assert(elements_view(Seq::<Element>::empty()) == Seq::<
                                ElementV,
                            >::empty());
                            assert(elements_view(new_acc@) =~= seq![
                                element_view(new_acc@.last()),
                            ]);
                        }
                        acc = new_acc;
                        i = i + 2;
                    },
                    None => {
                        proof {
                            broadcast use crate::parser::lemma_element_view_variant;

                            assert(itemsv[i as int] is Pipe);
                            assert(!(itemsv[i as int + 1] is Grouping));
                            assert(process_pipes_model(itemsv, i as int, elements_view(acc@))
                                == Err::<Seq<ElementV>, Seq<char>>(pipe_err_msg()));
                        }
                        return Err(
                            WanderError(
                                "invalid pipe: a forward marker must be followed by a grouping".to_owned(),
                            ),
                        );
                    },
                }
            } else {
                proof {
                    assert(itemsv[i as int] is Pipe);
                    assert(process_pipes_model(itemsv, i as int, elements_view(acc@)) == Err::<
                        Seq<ElementV>,
                        Seq<char>,
                    >(pipe_err_msg()));
                }
                return Err(
                    WanderError(
                        "invalid pipe: a forward marker must be followed by a grouping".to_owned(),
                    ),
                );
            }
        } else {
            let c = clone_element(&items[i]);
            let ghost old_accv = elements_view(acc@);
            acc.push(c);
            proof {
                lemma_elements_view_index(acc@);
                assert(elements_view(acc@) =~= old_accv.push(element_view(items@[i as int])));
            }
            i = i + 1;
        }
    }
    Ok(acc)
}

/// Element views distribute over concatenation.
proof fn lemma_elements_view_concat(a: Seq<Element>, b: Seq<Element>)
    ensures
        elements_view(a + b) == elements_view(a) + elements_view(b),
    decreases b,
{
    if b.len() == 0 {
        assert(a + b =~= a);
        assert(elements_view(a) + elements_view(b) =~= elements_view(a));
    } else {
        assert((a + b).drop_last() =~= a + b.drop_last());
        lemma_elements_view_concat(a, b.drop_last());
        assert((a + b).last() == b.last());
        assert(elements_view(a + b) =~= elements_view(a) + elements_view(b));
    }
}

/// Expresses an optional tag name as an optional name expression.
pub fn express_optional_name(name: &Option<String>) -> (r: Result<Option<Expression>, WanderError>)
    ensures
        r matches Ok(t) && opt_expr_view(t) == (match opt_view(*name) {
            Some(n) => Some(ExprV::Name(n)),
            None => None::<ExprV>,
        }),
{
    match name {
        Some(n) => Ok(Some(Expression::Name(n.clone()))),
        None => Ok(None),
    }
}

/// Builds the expression for one element; the result is exactly
/// [`express_model`] on the view.
pub fn express(element: &Element) -> (r: Result<Expression, WanderError>)
    ensures
        match r {
            Ok(x) => express_model(element_view(*element)) == Ok::<ExprV, Seq<char>>(expr_view(x)),
            Err(err) => express_model(element_view(*element)) == Err::<ExprV, Seq<char>>(err.0@),
        },
    decreases *element, 0int, 1int,
{
    match element {
        Element::Boolean(b) => Ok(Expression::Boolean(*b)),
        Element::Int(n) => Ok(Expression::Int(*n)),
        Element::String(s) => Ok(Expression::String(s.clone())),
        Element::Nothing => Ok(Expression::Nothing),
        Element::Pipe => Err(WanderError("cannot express a stray forward marker".to_owned())),
        Element::Name(n) => Ok(Expression::Name(n.clone())),
        Element::TaggedName(n, t) => match express(t) {
            Ok(tx) => Ok(Expression::TaggedName(n.clone(), Box::new(tx))),
            Err(e) => Err(e),
        },
        Element::HostFunction(n) => Ok(Expression::HostFunction(n.clone())),
        Element::Let(ds, b) => match express_decls(ds) {
            Err(e) => Err(e),
            Ok(dxs) => match express(b) {
                Err(e) => Err(e),
                Ok(bx) => Ok(Expression::Let(dxs, Box::new(bx))),
            },
        },
        Element::Grouping(items) => match express_list(items) {
            Err(e) => Err(e),
            Ok(mut xs) => {
                proof {
                    lemma_exprs_view_index(xs@);
                }
                if xs.len() == 1 {
                    let ghost orig = xs@;
                    let x = xs.pop().unwrap();
                    proof {
                        lemma_exprs_view_index(orig);
                        assert(orig[0] == x);
                        assert(exprs_view(orig)[0] == expr_view(x));
                    }
                    Ok(x)
                } else {
                    Ok(Expression::Application(xs))
                }
            },
        },
        Element::Conditional(c, t, e2) => match express(c) {
            Err(e) => Err(e),
            Ok(cx) => match express(t) {
                Err(e) => Err(e),
                Ok(tx) => match express(e2) {
                    Err(e) => Err(e),
                    Ok(ex) => Ok(
                        Expression::Conditional(Box::new(cx), Box::new(tx), Box::new(ex)),
                    ),
                },
            },
        },
        Element::Lambda(p, i, o, b) => Ok(
            Expression::Lambda(p.clone(), clone_tag(i), clone_tag(o), Box::new(clone_element(b))),
        ),
        Element::Tuple(items) => match express_list(items) {
            Err(e) => Err(e),
            Ok(xs) => Ok(Expression::Tuple(xs)),
        },
        Element::List(items) => match express_list(items) {
            Err(e) => Err(e),
            Ok(xs) => Ok(Expression::List(xs)),
        },
        Element::SetOf(items) => match express_list(items) {
            Err(e) => Err(e),
            Ok(xs) => Ok(Expression::SetOf(xs)),
        },
        Element::Record(fs) => match express_fields(fs) {
            Err(e) => Err(e),
            Ok(xs) => Ok(Expression::Record(xs)),
        },
    }
}

/// Expresses each element of a vector, failing fast.
fn express_list(items: &Vec<Element>) -> (r: Result<Vec<Expression>, WanderError>)
    ensures
        match r {
            Ok(xs) => express_seq_model(elements_view(items@)) == Ok::<Seq<ExprV>, Seq<char>>(
                exprs_view(xs@),
            ),
            Err(err) => express_seq_model(elements_view(items@)) == Err::<Seq<ExprV>, Seq<char>>(
                err.0@,
            ),
        },
    decreases *items, items@.len() + 1, 0int,
{
    proof {
        assert(elements_view(items@).skip(0) =~= elements_view(items@));
    }
    express_list_from(items, 0)
}

/// Expresses the elements of a vector from `idx` on.
fn express_list_from(items: &Vec<Element>, idx: usize) -> (r: Result<Vec<Expression>, WanderError>)
    requires
        idx <= items@.len(),
    ensures
        match r {
            Ok(xs) => express_seq_model(elements_view(items@).skip(idx as int)) == Ok::<
                Seq<ExprV>,
                Seq<char>,
            >(exprs_view(xs@)),
            Err(err) => express_seq_model(elements_view(items@).skip(idx as int)) == Err::<
                Seq<ExprV>,
                Seq<char>,
            >(err.0@),
        },
    decreases *items, items@.len() - idx, 0int,
{
    broadcast use lemma_elements_view_index;
    broadcast use lemma_exprs_view_index;

    let ghost tail = elements_view(items@).skip(idx as int);
    if idx >= items.len() {
        proof {
            assert(tail =~= Seq::<ElementV>::empty());
        }
        Ok(Vec::new())
    } else {
        proof {
            assert(decreases_to!(*items => items@[idx as int]));
            assert(tail[0] == element_view(items@[idx as int]));
            assert(tail.drop_first() =~= elements_view(items@).skip(idx + 1));
        }
        match express(&items[idx]) {
            Err(e) => Err(e),
            Ok(x) => match express_list_from(items, idx + 1) {
                Err(e) => Err(e),
                Ok(mut xs) => {
                    let ghost old_xs = xs@;
                    xs.insert(0, x);
                    proof {
                        assert(xs@ =~= seq![xs@[0]] + old_xs);
                        assert(xs@.drop_first() =~= old_xs);
                        lemma_exprs_view_first(xs@);
                        assert(exprs_view(xs@) == seq![expr_view(x)] + exprs_view(old_xs));
                    }
                    Ok(xs)
                },
            },
        }
    }
}

/// An expression sequence's view, split at its first entry.
proof fn lemma_exprs_view_first(es: Seq<Expression>)
    requires
        es.len() > 0,
    ensures
        exprs_view(es) == seq![expr_view(es[0])] + exprs_view(es.drop_first()),
{
    broadcast use lemma_exprs_view_index;

    assert(exprs_view(es) =~= seq![expr_view(es[0])] + exprs_view(es.drop_first()));
}

/// Expresses each declaration of a `let`, failing fast.
fn express_decls(ds: &Vec<(String, Option<String>, Element)>) -> (r: Result<
    Vec<(String, Option<Expression>, Expression)>,
    WanderError,
>)
    ensures
        match r {
            Ok(xs) => express_decls_model(crate::parser::decls_view(ds@)) == Ok::<
                Seq<(Seq<char>, Option<ExprV>, ExprV)>,
                Seq<char>,
            >(xdecls_view(xs@)),
            Err(err) => express_decls_model(crate::parser::decls_view(ds@)) == Err::<
                Seq<(Seq<char>, Option<ExprV>, ExprV)>,
                Seq<char>,
            >(err.0@),
        },
    decreases *ds, ds@.len() + 1, 0int,
{
    proof {
        assert(crate::parser::decls_view(ds@).skip(0) =~= crate::parser::decls_view(ds@));
    }
    express_decls_from(ds, 0)
}

/// Expresses the declarations from `idx` on.
fn express_decls_from(ds: &Vec<(String, Option<String>, Element)>, idx: usize) -> (r: Result<
    Vec<(String, Option<Expression>, Expression)>,
    WanderError,
>)
    requires
        idx <= ds@.len(),
    ensures
        match r {
            Ok(xs) => express_decls_model(crate::parser::decls_view(ds@).skip(idx as int)) == Ok::<
                Seq<(Seq<char>, Option<ExprV>, ExprV)>,
                Seq<char>,
            >(xdecls_view(xs@)),
            Err(err) => express_decls_model(crate::parser::decls_view(ds@).skip(idx as int))
                == Err::<Seq<(Seq<char>, Option<ExprV>, ExprV)>, Seq<char>>(err.0@),
        },
    decreases *ds, ds@.len() - idx, 0int,
{
    broadcast use crate::parser::lemma_decls_view_index;
    broadcast use lemma_xdecls_view_index;

    let ghost tail = crate::parser::decls_view(ds@).skip(idx as int);
    if idx >= ds.len() {
        proof {
            assert(tail =~= Seq::<(Seq<char>, Option<Seq<char>>, ElementV)>::empty());
        }
        Ok(Vec::new())
    } else {
        proof {
            assert(decreases_to!(*ds => ds@[idx as int].2));
            assert(tail[0] == (ds@[idx as int].0@, opt_view(ds@[idx as int].1), element_view(
                ds@[idx as int].2,
            )));
            assert(tail.drop_first() =~= crate::parser::decls_view(ds@).skip(idx + 1));
        }
        let d = &ds[idx];
        let tag = match express_optional_name(&d.1) {
            Ok(t) => t,
            Err(e) => {
                return Err(e);
            },
        };
        match express(&d.2) {
            Err(e) => Err(e),
            Ok(x) => match express_decls_from(ds, idx + 1) {
                Err(e) => Err(e),
                Ok(mut xs) => {
                    let entry = (d.0.clone(), tag, x);
                    let ghost entryv = (entry.0@, opt_expr_view(entry.1), expr_view(entry.2));
                    let ghost old_xs = xs@;
                    xs.insert(0, entry);
                    proof {
                        assert(xs@ =~= seq![xs@[0]] + old_xs);
                        assert(xs@.drop_first() =~= old_xs);
                        lemma_xdecls_view_first(xs@);
                        assert(xdecls_view(xs@) == seq![entryv] + xdecls_view(old_xs));
                    }
                    Ok(xs)
                },
            },
        }
    }
}

/// A declaration sequence's view, split at its first entry.
proof fn lemma_xdecls_view_first(ds: Seq<(String, Option<Expression>, Expression)>)
    requires
        ds.len() > 0,
    ensures
        xdecls_view(ds) == seq![(ds[0].0@, opt_expr_view(ds[0].1), expr_view(ds[0].2))]
            + xdecls_view(ds.drop_first()),
{
    broadcast use lemma_xdecls_view_index;

    assert(xdecls_view(ds) =~= seq![(ds[0].0@, opt_expr_view(ds[0].1), expr_view(ds[0].2))]
        + xdecls_view(ds.drop_first()));
}

/// Expresses each field of a record, failing fast.
fn express_fields(fs: &Vec<(String, Element)>) -> (r: Result<
    Vec<(String, Expression)>,
    WanderError,
>)
    ensures
        match r {
            Ok(xs) => express_fields_model(crate::parser::fields_view(fs@)) == Ok::<
                Seq<(Seq<char>, ExprV)>,
                Seq<char>,
            >(xfields_view(xs@)),
            Err(err) => express_fields_model(crate::parser::fields_view(fs@)) == Err::<
                Seq<(Seq<char>, ExprV)>,
                Seq<char>,
            >(err.0@),
        },
    decreases *fs, fs@.len() + 1, 0int,
{
    proof {
        assert(crate::parser::fields_view(fs@).skip(0) =~= crate::parser::fields_view(fs@));
    }
    express_fields_from(fs, 0)
}

/// Expresses the fields from `idx` on.
fn express_fields_from(fs: &Vec<(String, Element)>, idx: usize) -> (r: Result<
    Vec<(String, Expression)>,
    WanderError,
>)
    requires
        idx <= fs@.len(),
    ensures
        match r {
            Ok(xs) => express_fields_model(crate::parser::fields_view(fs@).skip(idx as int))
                == Ok::<Seq<(Seq<char>, ExprV)>, Seq<char>>(xfields_view(xs@)),
            Err(err) => express_fields_model(crate::parser::fields_view(fs@).skip(idx as int))
                == Err::<Seq<(Seq<char>, ExprV)>, Seq<char>>(err.0@),
        },
    decreases *fs, fs@.len() - idx, 0int,
{
    broadcast use crate::parser::lemma_fields_view_index;
    broadcast use lemma_xfields_view_index;

    let ghost tail = crate::parser::fields_view(fs@).skip(idx as int);
    if idx >= fs.len() {
        proof {
            assert(tail =~= Seq::<(Seq<char>, ElementV)>::empty());
        }
        Ok(Vec::new())
    } else {
        proof {
            assert(decreases_to!(*fs => fs@[idx as int].1));
            assert(tail[0] == (fs@[idx as int].0@, element_view(fs@[idx as int].1)));
            assert(tail.drop_first() =~= crate::parser::fields_view(fs@).skip(idx + 1));
        }
        match express(&fs[idx].1) {
            Err(e) => Err(e),
            Ok(x) => match express_fields_from(fs, idx + 1) {
                Err(e) => Err(e),
                Ok(mut xs) => {
                    let entry = (fs[idx].0.clone(), x);
                    let ghost entryv = (entry.0@, expr_view(entry.1));
                    let ghost old_xs = xs@;
                    xs.insert(0, entry);
                    proof {
                        assert(xs@ =~= seq![xs@[0]] + old_xs);
                        assert(xs@.drop_first() =~= old_xs);
                        lemma_xfields_view_first(xs@);
                        assert(xfields_view(xs@) == seq![entryv] + xfields_view(old_xs));
                    }
                    Ok(xs)
                },
            },
        }
    }
}

/// A field sequence's view, split at its first entry.
proof fn lemma_xfields_view_first(fs: Seq<(String, Expression)>)
    requires
        fs.len() > 0,
    ensures
        xfields_view(fs) == seq![(fs[0].0@, expr_view(fs[0].1))] + xfields_view(fs.drop_first()),
{
    broadcast use lemma_xfields_view_index;

    assert(xfields_view(fs) =~= seq![(fs[0].0@, expr_view(fs[0].1))] + xfields_view(
        fs.drop_first(),
    ));
}

/// Translates a parsed element into an expression: pipe resolution, then
/// expression building.  The result is exactly [`translate_model`] on the
/// view.
pub fn translate(element: Element) -> (r: Result<Expression, WanderError>)
    ensures
        match r {
            Ok(x) => translate_model(element_view(element)) == Ok::<ExprV, Seq<char>>(
                expr_view(x),
            ),
            Err(err) => translate_model(element_view(element)) == Err::<ExprV, Seq<char>>(err.0@),
        },
{
    match process_pipes(&element) {
        Err(e) => Err(e),
        Ok(e2) => express(&e2),
    }
}

} // verus!
