//! An embeddable expression-language interpreter.
//!
//! Source text runs through a fixed pipeline: the lexer turns text into
//! tokens, registered token transformers may rewrite the token stream, the
//! recursive-descent parser produces a tree of [`parser::Element`]s, the
//! translator normalises that tree into [`interpreter::Expression`]s, and the
//! evaluator walks the expressions against a [`bindings::Bindings`]
//! environment, producing a [`WanderValue`] or an error.  Each stage carries a
//! mathematical model as a specification, and the executable code is verified
//! against it.

use vstd::prelude::*;

pub mod bindings;
pub mod interpreter;
pub mod laws;
pub mod lexer;
pub mod parser;
pub mod preludes;
pub mod translation;
pub mod values;

pub use values::{HostValue, WanderType, WanderValue, write_integer, write_string, write_value};

verus! {

use crate::values::clone_type;

/// An error that occurs while running a script.
///
/// The library uses a single flat error kind; the payload is a
/// human-readable message.  The contracts of the pipeline stages pin the
/// message text for each error category.
#[derive(Debug, PartialEq, Eq)]
pub struct WanderError(pub String);

/// A dummy host payload type for embeddings that do not need one.
#[derive(Debug, Clone, Copy)]
pub struct NoHostType {}

impl PartialEq for NoHostType {
    /// All values of the dummy type are equal.
    fn eq(&self, _other: &NoHostType) -> (r: bool)
        ensures
            r,
    {
        true
    }
}

impl vstd::std_specs::cmp::PartialEqSpecImpl for NoHostType {
    open spec fn obeys_eq_spec() -> bool {
        true
    }

    open spec fn eq_spec(&self, _other: &NoHostType) -> bool {
        true
    }
}

impl Eq for NoHostType {

}

/// Metadata for a host function: its qualified (dotted) name, its ordered
/// parameter names with descriptive types, its result type, and its
/// documentation.  Created once at registration and used for lookup and
/// arity handling.
#[derive(Debug)]
pub struct HostFunctionBinding {
    /// Name used to bind this host function, namespaces included.
    pub name: String,
    /// The names and descriptive types of the parameters.
    pub parameters: Vec<(String, WanderType)>,
    /// The descriptive type of the result.
    pub result: WanderType,
    /// The documentation for this host function; text or Markdown.
    pub doc_string: String,
}

/// The mathematical view of a [`HostFunctionBinding`].
pub struct HostBindingV {
    /// View of the qualified name.
    pub name: Seq<char>,
    /// Views of the parameter names with their descriptive types.
    pub parameters: Seq<(Seq<char>, WanderType)>,
    /// The descriptive result type.
    pub result: WanderType,
    /// View of the documentation string.
    pub doc_string: Seq<char>,
}

/// The views of a host-function parameter list.
pub open spec fn hfparams_view(ps: Seq<(String, WanderType)>) -> Seq<(Seq<char>, WanderType)>
    decreases ps,
{
    if ps.len() == 0 {
        Seq::empty()
    } else {
        hfparams_view(ps.drop_last()).push((ps.last().0@, ps.last().1))
    }
}

/// Indexing into the view of a host-function parameter list.
pub broadcast proof fn lemma_hfparams_view_index(ps: Seq<(String, WanderType)>)
    ensures
        (#[trigger] hfparams_view(ps)).len() == ps.len(),
        forall|i: int| 0 <= i < ps.len() ==> hfparams_view(ps)[i] == (ps[i].0@, ps[i].1),
    decreases ps,
{
    if ps.len() > 0 {
        lemma_hfparams_view_index(ps.drop_last());
    }
}

impl View for HostFunctionBinding {
    type V = HostBindingV;

    open spec fn view(&self) -> HostBindingV {
        HostBindingV {
            name: self.name@,
            parameters: hfparams_view(self.parameters@),
            result: self.result,
            doc_string: self.doc_string@,
        }
    }
}

/// Clones host-function metadata; the copy has the same view.
pub fn clone_binding(b: &HostFunctionBinding) -> (r: HostFunctionBinding)
    ensures
        r@ == b@,
{
    let mut params: Vec<(String, WanderType)> = Vec::new();
    let mut i: usize = 0;
    while i < b.parameters.len()
        invariant
            i <= b.parameters@.len(),
            params@.len() == i,
            forall|k: int|
                0 <= k < i ==> #[trigger] params@[k].0@ == b.parameters@[k].0@ && params@[k].1
                    == b.parameters@[k].1,
        decreases b.parameters@.len() - i,
    {
        let p = &b.parameters[i];
        let c = (p.0.clone(), clone_type(&p.1));
        let ghost old_params = params@;
        params.push(c);
        proof {
            assert(forall|k: int| 0 <= k < i ==> old_params.push(c)[k] == old_params[k]);
        }
        i = i + 1;
    }
    let r = HostFunctionBinding {
        name: b.name.clone(),
        parameters: params,
        result: clone_type(&b.result),
        doc_string: b.doc_string.clone(),
    };
    proof {
        broadcast use lemma_hfparams_view_index;

        assert(hfparams_view(r.parameters@) =~= hfparams_view(b.parameters@));
    }
    r
}

impl Clone for HostFunctionBinding {
    /// Clones the metadata; the copy has the same view.
    fn clone(&self) -> (r: Self)
        ensures
            r@ == self@,
    {
        clone_binding(self)
    }
}

/// A function exported from the hosting application, callable from script
/// text by its qualified dotted name.  The trait itself promises nothing
/// about what `run` returns; evaluation treats every outcome the
/// implementation's own contract allows as possible, so an implementation
/// with an exact `ensures` (such as the common prelude's) pins the results
/// of the scripts that call it.
pub trait HostFunction<T>: Sized {
    /// Called when the host function is invoked from a script, with the
    /// evaluated arguments in order.
    fn run(&self, arguments: &Vec<WanderValue<T>>) -> Result<WanderValue<T>, WanderError>;

    /// The binding information for this host function.
    fn binding(&self) -> HostFunctionBinding;
}

/// The pipeline from a (possibly transformed) token stream on: parse,
/// translate, then evaluate with the default application budget; each
/// stage's error stops the pipeline with that stage's message.
pub open spec fn pipeline_after_tokens<T: PartialEq, F: crate::HostFunction<T>, X>(
    tvs: Seq<crate::lexer::TokenV>,
    env: crate::bindings::BindingsV<T, F, X>,
    out: Result<crate::values::ValueV<T>, Seq<char>>,
    env2: crate::bindings::BindingsV<T, F, X>,
) -> bool {
    match crate::parser::parse_model(tvs) {
        Err(m) => out == Err::<crate::values::ValueV<T>, Seq<char>>(m) && env2 == env,
        Ok(el) => match crate::translation::translate_model(el) {
            Err(m) => out == Err::<crate::values::ValueV<T>, Seq<char>>(m) && env2 == env,
            Ok(ex) => crate::interpreter::eval_rel(
                ex,
                env,
                crate::interpreter::EVAL_FUEL as nat,
                out,
                env2,
            ),
        },
    }
}

/// The whole pipeline on one script with no transformers in play: lex and
/// filter, parse, translate, then evaluate.  This relation pins [`run`] when
/// no token transformers are registered; with transformers, see the chained
/// clause on [`run`] itself.
pub open spec fn run_rel<T: PartialEq, F: crate::HostFunction<T>, X>(
    cs: Seq<char>,
    env: crate::bindings::BindingsV<T, F, X>,
    out: Result<crate::values::ValueV<T>, Seq<char>>,
    env2: crate::bindings::BindingsV<T, F, X>,
) -> bool {
    match crate::lexer::lex_filtered(cs) {
        Err(k) => out == Err::<crate::values::ValueV<T>, Seq<char>>(
            crate::lexer::lex_err_msg(k),
        ) && env2 == env,
        Ok(tvs) => pipeline_after_tokens(tvs, env, out, env2),
    }
}

/// Runs a script against an environment: the single blocking entry point.
/// With no token transformers registered, the outcome and the final
/// environment are exactly what [`run_rel`] derives; registered transformers
/// may rewrite the token stream first, and the library does not constrain
/// what they produce.
pub fn run<T: PartialEq, F: HostFunction<T>, X: crate::lexer::TokenTransformer>(
    script: &str,
    bindings: &mut crate::bindings::Bindings<T, F, X>,
) -> (r: Result<WanderValue<T>, WanderError>)
    requires
        old(bindings).wf(),
    ensures
        old(bindings)@.transformers.len() == 0 ==> run_rel(
            script@,
            old(bindings)@,
            crate::interpreter::outcome_view(r),
            final(bindings)@,
        ),
        match crate::lexer::lex_filtered(script@) {
            Err(k) => crate::interpreter::outcome_view(r) == Err::<
                crate::values::ValueV<T>,
                Seq<char>,
            >(crate::lexer::lex_err_msg(k)) && final(bindings)@ == old(bindings)@,
            Ok(tvs) => exists|
                start: Vec<crate::lexer::Token>,
                tr: Result<Vec<crate::lexer::Token>, WanderError>,
            |
                {
                    &&& #[trigger] crate::interpreter::rel_witness(start, tr)
                    &&& crate::lexer::token_views(start@) == tvs
                    &&& crate::lexer::transform_steps(old(bindings)@.transformers, 0, start, tr)
                    &&& match tr {
                        Err(e) => crate::interpreter::outcome_view(r) == Err::<
                            crate::values::ValueV<T>,
                            Seq<char>,
                        >(e.0@) && final(bindings)@ == old(bindings)@,
                        Ok(ts2) => pipeline_after_tokens(
                            crate::lexer::token_views(ts2@),
                            old(bindings)@,
                            crate::interpreter::outcome_view(r),
                            final(bindings)@,
                        ),
                    }
                },
        },
        final(bindings).wf(),
{
    let tokens = match crate::lexer::tokenize_and_filter(script) {
        Ok(ts) => ts,
        Err(e) => {
            return Err(e);
        },
    };
    let transformed = crate::lexer::transform(&tokens, bindings);
    proof {
        let start = choose|start: Vec<crate::lexer::Token>|
            {
                &&& #[trigger] crate::lexer::chain_witness(start)
                &&& crate::lexer::token_views(start@) == crate::lexer::token_views(tokens@)
                &&& crate::lexer::transform_steps(bindings@.transformers, 0, start, transformed)
            };
        assert(crate::interpreter::rel_witness(start, transformed));
    }
    let tokens = match transformed {
        Ok(ts) => ts,
        Err(e) => {
            return Err(e);
        },
    };
    let element = match crate::parser::parse(tokens) {
        Ok(el) => el,
        Err(e) => {
            return Err(e);
        },
    };
    let expression = match crate::translation::translate(element) {
        Ok(ex) => ex,
        Err(e) => {
            return Err(e);
        },
    };
    crate::interpreter::eval(&expression, bindings)
}

/// What the pipeline computed for a script, stage by stage, for tooling and
/// debugging; nothing is evaluated.
#[derive(Debug)]
pub struct Introspection {
    /// All tokens, whitespace and comments included; empty when the script
    /// does not lex.
    pub tokens_ws: Vec<crate::lexer::Token>,
    /// The tokens with whitespace and comments stripped; empty when the
    /// script does not lex.
    pub tokens: Vec<crate::lexer::Token>,
    /// The tokens after the registered transformers ran.
    pub tokens_transformed: Vec<crate::lexer::Token>,
    /// The parsed element.
    pub element: crate::parser::Element,
    /// The translated expression.
    pub expression: crate::interpreter::Expression,
}

/// Runs the pipeline up to translation without evaluating, for inspection.
/// A script that does not lex yields empty token lists, and a transformer
/// rejection yields an empty transformed list; a parse or translation
/// failure is reported as the error.  The token fields are pinned through
/// the transformer chain, and the element and expression fields are pinned
/// against the transformed tokens.
pub fn introspect<T: PartialEq, F: HostFunction<T>, X: crate::lexer::TokenTransformer>(
    script: &str,
    bindings: &crate::bindings::Bindings<T, F, X>,
) -> (r: Result<Introspection, WanderError>)
    ensures
        r matches Ok(ins) ==> {
            &&& match crate::lexer::lex_from(script@, 0) {
                Ok(tvs) => crate::lexer::token_views(ins.tokens_ws@) == tvs,
                Err(_) => ins.tokens_ws@.len() == 0,
            }
            &&& match crate::lexer::lex_filtered(script@) {
                Ok(tvs) => crate::lexer::token_views(ins.tokens@) == tvs,
                Err(_) => ins.tokens@.len() == 0,
            }
            &&& exists|
                start: Vec<crate::lexer::Token>,
                tr: Result<Vec<crate::lexer::Token>, WanderError>,
            |
                {
                    &&& #[trigger] crate::interpreter::rel_witness(start, tr)
                    &&& crate::lexer::token_views(start@) == crate::lexer::token_views(
                        ins.tokens@,
                    )
                    &&& crate::lexer::transform_steps(bindings@.transformers, 0, start, tr)
                    &&& match tr {
                        Ok(ts2) => crate::lexer::token_views(ins.tokens_transformed@)
                            == crate::lexer::token_views(ts2@),
                        Err(_) => ins.tokens_transformed@.len() == 0,
                    }
                }
            &&& crate::parser::parse_model(crate::lexer::token_views(ins.tokens_transformed@))
                == Ok::<crate::parser::ElementV, Seq<char>>(
                crate::parser::element_view(ins.element),
            )
            &&& crate::translation::translate_model(crate::parser::element_view(ins.element))
                == Ok::<crate::interpreter::ExprV, Seq<char>>(
                crate::interpreter::expr_view(ins.expression),
            )
        },
        bindings@.transformers.len() == 0 ==> match r {
            Ok(_) => true,
            Err(e) => {
                let tvs = match crate::lexer::lex_filtered(script@) {
                    Ok(tvs) => tvs,
                    Err(_) => Seq::empty(),
                };
                match crate::parser::parse_model(tvs) {
                    Err(m) => e.0@ == m,
                    Ok(el) => crate::translation::translate_model(el) == Err::<
                        crate::interpreter::ExprV,
                        Seq<char>,
                    >(e.0@),
                }
            },
        },
{
    let tokens_ws = match crate::lexer::tokenize(script) {
        Ok(ts) => ts,
        Err(_) => Vec::new(),
    };
    let tokens = match crate::lexer::tokenize_and_filter(script) {
        Ok(ts) => ts,
        Err(_) => Vec::new(),
    };
    let transformed = crate::lexer::transform(&tokens, bindings);
    proof {
        let start = choose|start: Vec<crate::lexer::Token>|
            {
                &&& #[trigger] crate::lexer::chain_witness(start)
                &&& crate::lexer::token_views(start@) == crate::lexer::token_views(tokens@)
                &&& crate::lexer::transform_steps(bindings@.transformers, 0, start, transformed)
            };
        assert(crate::interpreter::rel_witness(start, transformed));
        if crate::lexer::lex_from(script@, 0) is Err {
            assert(crate::lexer::lex_filtered(script@) is Err);
        }
        if bindings@.transformers.len() == 0 && crate::lexer::lex_filtered(script@) is Err {
            assert(crate::lexer::token_views(tokens@) =~= Seq::<crate::lexer::TokenV>::empty());
        }
    }
    let tokens_transformed = match transformed {
        Ok(ts) => ts,
        Err(_) => Vec::new(),
    };
    let element = match crate::parser::parse(crate::lexer::clone_tokens(&tokens_transformed)) {
        Ok(el) => el,
        Err(e) => {
            return Err(e);
        },
    };
    let expression = match crate::translation::translate(crate::parser::clone_element(&element)) {
        Ok(ex) => ex,
        Err(e) => {
            return Err(e);
        },
    };
    Ok(
        Introspection {
            tokens_ws,
            tokens,
            tokens_transformed,
            element,
            expression,
        },
    )
}

} // verus!
