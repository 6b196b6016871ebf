//! Recursive-descent parsing: tokens to a tree of [`Element`]s.
//!
//! Each grammar production is an attempt function over an explicit
//! position-indexed cursor: it either consumes tokens and returns an element
//! together with the new position, or consumes nothing and reports no match,
//! so failed alternatives never leak partial consumption.  The ordered list
//! of alternatives encodes precedence.
//!
//! Every executable production mirrors a specification function over the
//! token views (`p_boolean`, `p_element`, ...), and [`parse`] is pinned to
//! [`parse_model`].

use vstd::prelude::*;

verus! {

use crate::WanderError;
use crate::lexer::{Token, TokenV, token_views};

/// A parsed syntax node, before translation into an expression.
#[derive(Debug, PartialEq, Eq)]
pub enum Element {
    /// A boolean literal.
    Boolean(bool),
    /// An integer literal.
    Int(i64),
    /// A string literal; the payload is the raw source text, escapes intact.
    String(String),
    /// The nothing literal.
    Nothing,
    /// A forward (pipe) marker, resolved by the translator.
    Pipe,
    /// A name, possibly dotted.
    Name(String),
    /// A name together with a type tag.
    TaggedName(String, Box<Element>),
    /// A direct reference to a registered host function.
    HostFunction(String),
    /// `let` declarations and a body; each declaration is a name, an
    /// optional type tag, and the bound element.
    Let(Vec<(String, Option<String>, Element)>, Box<Element>),
    /// Juxtaposed terms awaiting application resolution.
    Grouping(Vec<Element>),
    /// `if cond then a else b end`.
    Conditional(Box<Element>, Box<Element>, Box<Element>),
    /// A single-parameter lambda: parameter name, optional input and output
    /// type tags, and the unevaluated body.
    Lambda(String, Option<String>, Option<String>, Box<Element>),
    /// A tuple literal.
    Tuple(Vec<Element>),
    /// A list literal.
    List(Vec<Element>),
    /// A set literal; members in source order, deduplicated at evaluation.
    SetOf(Vec<Element>),
    /// A record literal; fields in source order, duplicate names resolved at
    /// evaluation (last write wins).
    Record(Vec<(String, Element)>),
}

/// The mathematical view of an [`Element`].
pub enum ElementV {
    /// View of `Element::Boolean`.
    Boolean(bool),
    /// View of `Element::Int`.
    Int(i64),
    /// View of `Element::String`.
    String(Seq<char>),
    /// View of `Element::Nothing`.
    Nothing,
    /// View of `Element::Pipe`.
    Pipe,
    /// View of `Element::Name`.
    Name(Seq<char>),
    /// View of `Element::TaggedName`.
    TaggedName(Seq<char>, Box<ElementV>),
    /// View of `Element::HostFunction`.
    HostFunction(Seq<char>),
    /// View of `Element::Let`.
    Let(Seq<(Seq<char>, Option<Seq<char>>, ElementV)>, Box<ElementV>),
    /// View of `Element::Grouping`.
    Grouping(Seq<ElementV>),
    /// View of `Element::Conditional`.
    Conditional(Box<ElementV>, Box<ElementV>, Box<ElementV>),
    /// View of `Element::Lambda`.
    Lambda(Seq<char>, Option<Seq<char>>, Option<Seq<char>>, Box<ElementV>),
    /// View of `Element::Tuple`.
    Tuple(Seq<ElementV>),
    /// View of `Element::List`.
    List(Seq<ElementV>),
    /// View of `Element::SetOf`.
    SetOf(Seq<ElementV>),
    /// View of `Element::Record`.
    Record(Seq<(Seq<char>, ElementV)>),
}

/// View of an optional type tag.
pub open spec fn opt_view(o: Option<String>) -> Option<Seq<char>> {
    match o {
        Some(s) => Some(s@),
        None => None,
    }
}

/// The view of one element.
pub open spec fn element_view(e: Element) -> ElementV
    decreases e,
{
    match e {
        Element::Boolean(b) => ElementV::Boolean(b),
        Element::Int(n) => ElementV::Int(n),
        Element::String(s) => ElementV::String(s@),
        Element::Nothing => ElementV::Nothing,
        Element::Pipe => ElementV::Pipe,
        Element::Name(s) => ElementV::Name(s@),
        Element::TaggedName(s, t) => ElementV::TaggedName(s@, Box::new(element_view(*t))),
        Element::HostFunction(s) => ElementV::HostFunction(s@),
        Element::Let(ds, b) => ElementV::Let(decls_view(ds@), Box::new(element_view(*b))),
        Element::Grouping(es) => ElementV::Grouping(elements_view(es@)),
        Element::Conditional(c, t, e2) => ElementV::Conditional(
            Box::new(element_view(*c)),
            Box::new(element_view(*t)),
            Box::new(element_view(*e2)),
        ),
        Element::Lambda(p, i, o, b) => ElementV::Lambda(
            p@,
            opt_view(i),
            opt_view(o),
            Box::new(element_view(*b)),
        ),
        Element::Tuple(es) => ElementV::Tuple(elements_view(es@)),
        Element::List(es) => ElementV::List(elements_view(es@)),
        Element::SetOf(es) => ElementV::SetOf(elements_view(es@)),
        Element::Record(fs) => ElementV::Record(fields_view(fs@)),
    }
}

/// The views of a sequence of elements.
pub open spec fn elements_view(es: Seq<Element>) -> Seq<ElementV>
    decreases es,
{
    if es.len() == 0 {
        Seq::empty()
    } else {
        elements_view(es.drop_last()).push(element_view(es.last()))
    }
}

/// The views of a sequence of `let` declarations.
pub open spec fn decls_view(ds: Seq<(String, Option<String>, Element)>) -> Seq<
    (Seq<char>, Option<Seq<char>>, ElementV),
>
    decreases ds,
{
    if ds.len() == 0 {
        Seq::empty()
    } else {
        decls_view(ds.drop_last()).push(
            (ds.last().0@, opt_view(ds.last().1), element_view(ds.last().2)),
        )
    }
}

/// The views of a sequence of record fields.
pub open spec fn fields_view(fs: Seq<(String, Element)>) -> Seq<(Seq<char>, ElementV)>
    decreases fs,
{
    if fs.len() == 0 {
        Seq::empty()
    } else {
        fields_view(fs.drop_last()).push((fs.last().0@, element_view(fs.last().1)))
    }
}

impl View for Element {
    type V = ElementV;

    open spec fn view(&self) -> ElementV {
        element_view(*self)
    }
}

/// Indexing into the view of an element sequence.
pub broadcast proof fn lemma_elements_view_index(es: Seq<Element>)
    ensures
        (#[trigger] elements_view(es)).len() == es.len(),
        forall|i: int| 0 <= i < es.len() ==> elements_view(es)[i] == element_view(es[i]),
    decreases es,
{
    if es.len() > 0 {
        lemma_elements_view_index(es.drop_last());
    }
}

/// Indexing into the view of a declaration sequence.
pub broadcast proof fn lemma_decls_view_index(ds: Seq<(String, Option<String>, Element)>)
    ensures
        (#[trigger] decls_view(ds)).len() == ds.len(),
        forall|i: int|
            0 <= i < ds.len() ==> decls_view(ds)[i] == (
                ds[i].0@,
                opt_view(ds[i].1),
                element_view(ds[i].2),
            ),
    decreases ds,
{
    if ds.len() > 0 {
        lemma_decls_view_index(ds.drop_last());
    }
}

/// Indexing into the view of a record-field sequence.
pub broadcast proof fn lemma_fields_view_index(fs: Seq<(String, Element)>)
    ensures
        (#[trigger] fields_view(fs)).len() == fs.len(),
        forall|i: int|
            0 <= i < fs.len() ==> fields_view(fs)[i] == (fs[i].0@, element_view(fs[i].1)),
    decreases fs,
{
    if fs.len() > 0 {
        lemma_fields_view_index(fs.drop_last());
    }
}

/// Indexing into the views of a token sequence.
pub broadcast proof fn lemma_token_views_index(ts: Seq<Token>)
    ensures
        (#[trigger] token_views(ts)).len() == ts.len(),
        forall|i: int| 0 <= i < ts.len() ==> token_views(ts)[i] == ts[i]@,
{
}

// ---------------------------------------------------------------------------
// Grammar specification
// ---------------------------------------------------------------------------
// Each specification production takes the token views and a position and
// yields the parsed element together with the position after it, or `None`
// when the production does not match at that position.  A production that
// reports a match always advances.

/// Matches one boolean literal token.
pub open spec fn p_boolean(ts: Seq<TokenV>, i: int) -> Option<(ElementV, int)> {
    if 0 <= i < ts.len() && ts[i] is Boolean {
        Some((ElementV::Boolean(ts[i]->Boolean_0), i + 1))
    } else {
        None
    }
}

/// Matches one integer literal token.
pub open spec fn p_int(ts: Seq<TokenV>, i: int) -> Option<(ElementV, int)> {
    if 0 <= i < ts.len() && ts[i] is Int {
        Some((ElementV::Int(ts[i]->Int_0), i + 1))
    } else {
        None
    }
}

/// Matches one string literal token.
pub open spec fn p_string(ts: Seq<TokenV>, i: int) -> Option<(ElementV, int)> {
    if 0 <= i < ts.len() && ts[i] is String {
        Some((ElementV::String(ts[i]->String_0), i + 1))
    } else {
        None
    }
}

/// Matches the nothing literal, spelled `nothing` or `?`.
pub open spec fn p_nothing(ts: Seq<TokenV>, i: int) -> Option<(ElementV, int)> {
    if 0 <= i < ts.len() && (ts[i] is Nothing || ts[i] is QuestionMark) {
        Some((ElementV::Nothing, i + 1))
    } else {
        None
    }
}

/// Matches one forward (pipe) token.
pub open spec fn p_pipe(ts: Seq<TokenV>, i: int) -> Option<(ElementV, int)> {
    if 0 <= i < ts.len() && ts[i] is Pipe {
        Some((ElementV::Pipe, i + 1))
    } else {
        None
    }
}

/// Matches one name token.
pub open spec fn p_name(ts: Seq<TokenV>, i: int) -> Option<(ElementV, int)> {
    if 0 <= i < ts.len() && ts[i] is Name {
        Some((ElementV::Name(ts[i]->Name_0), i + 1))
    } else {
        None
    }
}

/// An optional `: Name` type tag; `None` in the first slot means no tag was
/// present, and the whole production fails (second slot `false`) on a colon
/// that is not followed by a name.
pub open spec fn p_tag(ts: Seq<TokenV>, i: int) -> Option<(Option<Seq<char>>, int)> {
    if 0 <= i < ts.len() && ts[i] is Colon {
        if i + 1 < ts.len() && ts[i + 1] is Name {
            Some((Some(ts[i + 1]->Name_0), i + 2))
        } else {
            None
        }
    } else {
        Some((None, i))
    }
}

/// One `val name [: tag] = element` declaration.
pub open spec fn p_val_binding(ts: Seq<TokenV>, i: int) -> Option<
    ((Seq<char>, Option<Seq<char>>, ElementV), int),
>
    decreases ts.len() - i, 0int,
{
    if 0 <= i && i + 1 < ts.len() && ts[i] is Val && ts[i + 1] is Name {
        let nm = ts[i + 1]->Name_0;
        match p_tag(ts, i + 2) {
            None => None,
            Some((tag, j)) => if j < ts.len() && ts[j] is EqualSign {
                match p_element(ts, j + 1) {
                    Some((body, k)) => if j + 1 < k {
                        Some(((nm, tag, body), k))
                    } else {
                        None
                    },
                    None => None,
                }
            } else {
                None
            },
        }
    } else {
        None
    }
}

/// Zero or more `val` declarations.
pub open spec fn p_val_bindings(ts: Seq<TokenV>, i: int) -> (Seq<
    (Seq<char>, Option<Seq<char>>, ElementV),
>, int)
    decreases ts.len() - i, 1int,
{
    match p_val_binding(ts, i) {
        Some((d, j)) => if i < j <= ts.len() {
            let (rest, k) = p_val_bindings(ts, j);
            (seq![d] + rest, k)
        } else {
            (Seq::empty(), i)
        },
        None => (Seq::empty(), i),
    }
}

/// `let` with declarations, and `in body end` where present; a missing
/// `in ... end` degenerates to a `Nothing` body without consuming further
/// tokens.
pub open spec fn p_let_scope(ts: Seq<TokenV>, i: int) -> Option<(ElementV, int)>
    decreases ts.len() - i, 0int,
{
    if 0 <= i < ts.len() && ts[i] is Let {
        let (decls, j) = p_val_bindings(ts, i + 1);
        if i < j && j < ts.len() && ts[j] is In {
            let (body, k) = match p_element(ts, j + 1) {
                Some((b, k0)) => (b, k0),
                None => (ElementV::Nothing, j + 1),
            };
            if j < k && k < ts.len() && ts[k] is End {
                Some((ElementV::Let(decls, Box::new(body)), k + 1))
            } else {
                None
            }
        } else if i < j {
            Some((ElementV::Let(decls, Box::new(ElementV::Nothing)), j))
        } else {
            None
        }
    } else {
        None
    }
}

/// `if cond then a else b end`; all four keywords are mandatory.
pub open spec fn p_conditional(ts: Seq<TokenV>, i: int) -> Option<(ElementV, int)>
    decreases ts.len() - i, 0int,
{
    if 0 <= i < ts.len() && ts[i] is If {
        match p_element(ts, i + 1) {
            Some((cond, j)) => if i + 1 < j && j < ts.len() && ts[j] is Then {
                match p_element(ts, j + 1) {
                    Some((thn, k)) => if j + 1 < k && k < ts.len() && ts[k] is Else {
                        match p_element(ts, k + 1) {
                            Some((els, m)) => if k + 1 < m && m < ts.len() && ts[m] is End {
                                Some(
                                    (
                                        ElementV::Conditional(
                                            Box::new(cond),
                                            Box::new(thn),
                                            Box::new(els),
                                        ),
                                        m + 1,
                                    ),
                                )
                            } else {
                                None
                            },
                            None => None,
                        }
                    } else {
                        None
                    },
                    None => None,
                }
            } else {
                None
            },
            None => None,
        }
    } else {
        None
    }
}

/// One or more lambda parameters, each a name with an optional type tag.
pub open spec fn p_lambda_params(ts: Seq<TokenV>, i: int) -> Option<(Seq<
    (Seq<char>, Option<Seq<char>>),
>, int)>
    decreases ts.len() - i, 0int,
{
    if 0 <= i < ts.len() && ts[i] is Name {
        let nm = ts[i]->Name_0;
        match p_tag(ts, i + 1) {
            None => None,
            Some((tag, j)) => if i < j && j <= ts.len() {
                match p_lambda_params(ts, j) {
                    Some((rest, k)) => Some((seq![(nm, tag)] + rest, k)),
                    None => Some((seq![(nm, tag)], j)),
                }
            } else {
                None
            },
        }
    } else {
        None
    }
}

/// Desugars a parameter list into nested single-parameter lambdas,
/// right to left.
pub open spec fn lambda_chain(params: Seq<(Seq<char>, Option<Seq<char>>)>, body: ElementV) -> ElementV
    decreases params.len(),
{
    if params.len() == 0 {
        body
    } else {
        ElementV::Lambda(
            params[0].0,
            params[0].1,
            None,
            Box::new(lambda_chain(params.drop_first(), body)),
        )
    }
}

/// `\params -> body`, desugared into nested single-parameter lambdas.
pub open spec fn p_lambda(ts: Seq<TokenV>, i: int) -> Option<(ElementV, int)>
    decreases ts.len() - i, 0int,
{
    if 0 <= i < ts.len() && ts[i] is Lambda {
        match p_lambda_params(ts, i + 1) {
            None => None,
            Some((params, j)) => if i < j && j < ts.len() && ts[j] is Arrow {
                match p_element(ts, j + 1) {
                    Some((body, k)) => if j + 1 < k {
                        Some((lambda_chain(params, body), k))
                    } else {
                        None
                    },
                    None => None,
                }
            } else {
                None
            },
        }
    } else {
        None
    }
}

/// Zero or more inner elements, for groupings and bracketed collections.
pub open spec fn p_inner_items(ts: Seq<TokenV>, i: int) -> (Seq<ElementV>, int)
    decreases ts.len() - i, 3int,
{
    match p_element_inner(ts, i) {
        Some((e, j)) => if i < j <= ts.len() {
            let (rest, k) = p_inner_items(ts, j);
            (seq![e] + rest, k)
        } else {
            (Seq::empty(), i)
        },
        None => (Seq::empty(), i),
    }
}

/// One or more juxtaposed inner elements.
pub open spec fn p_grouping(ts: Seq<TokenV>, i: int) -> Option<(ElementV, int)>
    decreases ts.len() - i, 4int,
{
    let (items, j) = p_inner_items(ts, i);
    if items.len() == 0 {
        None
    } else {
        Some((ElementV::Grouping(items), j))
    }
}

/// `( ... )`: a grouped sub-application.
pub open spec fn p_grouped_application(ts: Seq<TokenV>, i: int) -> Option<(ElementV, int)>
    decreases ts.len() - i, 0int,
{
    if 0 <= i < ts.len() && ts[i] is OpenParen {
        let (items, j) = p_inner_items(ts, i + 1);
        if i < j && j < ts.len() && ts[j] is CloseParen {
            Some((ElementV::Grouping(items), j + 1))
        } else {
            None
        }
    } else {
        None
    }
}

/// One or more `name : element` record fields.
pub open spec fn p_record_fields(ts: Seq<TokenV>, i: int) -> (Seq<(Seq<char>, ElementV)>, int)
    decreases ts.len() - i, 0int,
{
    if 0 <= i && i + 1 < ts.len() && ts[i] is Name && ts[i + 1] is Colon {
        match p_element_inner(ts, i + 2) {
            Some((v, j)) => if i + 2 < j <= ts.len() {
                let (rest, k) = p_record_fields(ts, j);
                (seq![(ts[i]->Name_0, v)] + rest, k)
            } else {
                (Seq::empty(), i)
            },
            None => (Seq::empty(), i),
        }
    } else {
        (Seq::empty(), i)
    }
}

/// A record literal: `( name: value ... )` with at least one field — an
/// empty `()` stays a grouping — or `{ name: value ... }`, possibly empty.
pub open spec fn p_record(ts: Seq<TokenV>, i: int) -> Option<(ElementV, int)>
    decreases ts.len() - i, 0int,
{
    if 0 <= i < ts.len() && ts[i] is OpenParen {
        let (fields, j) = p_record_fields(ts, i + 1);
        if fields.len() > 0 && i < j && j < ts.len() && ts[j] is CloseParen {
            Some((ElementV::Record(fields), j + 1))
        } else {
            None
        }
    } else if 0 <= i < ts.len() && ts[i] is OpenBrace {
        let (fields, j) = p_record_fields(ts, i + 1);
        if i < j && j < ts.len() && ts[j] is CloseBrace {
            Some((ElementV::Record(fields), j + 1))
        } else {
            None
        }
    } else {
        None
    }
}

/// `[ ... ]`: a list literal.
pub open spec fn p_list(ts: Seq<TokenV>, i: int) -> Option<(ElementV, int)>
    decreases ts.len() - i, 0int,
{
    if 0 <= i < ts.len() && ts[i] is OpenSquare {
        let (items, j) = p_inner_items(ts, i + 1);
        if i < j && j < ts.len() && ts[j] is CloseSquare {
            Some((ElementV::List(items), j + 1))
        } else {
            None
        }
    } else {
        None
    }
}

/// `'( ... )`: a tuple literal.
pub open spec fn p_tuple(ts: Seq<TokenV>, i: int) -> Option<(ElementV, int)>
    decreases ts.len() - i, 0int,
{
    if 0 <= i && i + 1 < ts.len() && ts[i] is SingleQuote && ts[i + 1] is OpenParen {
        let (items, j) = p_inner_items(ts, i + 2);
        if i + 1 < j && j < ts.len() && ts[j] is CloseParen {
            Some((ElementV::Tuple(items), j + 1))
        } else {
            None
        }
    } else {
        None
    }
}

/// `#( ... )`: a set literal.
pub open spec fn p_set(ts: Seq<TokenV>, i: int) -> Option<(ElementV, int)>
    decreases ts.len() - i, 0int,
{
    if 0 <= i && i + 1 < ts.len() && ts[i] is Hash && ts[i + 1] is OpenParen {
        let (items, j) = p_inner_items(ts, i + 2);
        if i + 1 < j && j < ts.len() && ts[j] is CloseParen {
            Some((ElementV::SetOf(items), j + 1))
        } else {
            None
        }
    } else {
        None
    }
}

/// One inner element: the ordered alternatives tried inside groupings and
/// collections.  Bracketed forms come before bare names, and records before
/// grouped applications, so the alternatives stay unambiguous.
pub open spec fn p_element_inner(ts: Seq<TokenV>, i: int) -> Option<(ElementV, int)>
    decreases ts.len() - i, 2int,
{
    if p_tuple(ts, i) is Some {
        p_tuple(ts, i)
    } else if p_set(ts, i) is Some {
        p_set(ts, i)
    } else if p_record(ts, i) is Some {
        p_record(ts, i)
    } else if p_name(ts, i) is Some {
        p_name(ts, i)
    } else if p_boolean(ts, i) is Some {
        p_boolean(ts, i)
    } else if p_nothing(ts, i) is Some {
        p_nothing(ts, i)
    } else if p_int(ts, i) is Some {
        p_int(ts, i)
    } else if p_string(ts, i) is Some {
        p_string(ts, i)
    } else if p_let_scope(ts, i) is Some {
        p_let_scope(ts, i)
    } else if p_grouped_application(ts, i) is Some {
        p_grouped_application(ts, i)
    } else if p_conditional(ts, i) is Some {
        p_conditional(ts, i)
    } else if p_lambda(ts, i) is Some {
        p_lambda(ts, i)
    } else {
        p_list(ts, i)
    }
}

/// One top-level element: a pipe marker, a `let` scope, or a grouping of
/// juxtaposed terms.
pub open spec fn p_element(ts: Seq<TokenV>, i: int) -> Option<(ElementV, int)>
    decreases ts.len() - i, 5int,
{
    if p_pipe(ts, i) is Some {
        p_pipe(ts, i)
    } else if p_let_scope(ts, i) is Some {
        p_let_scope(ts, i)
    } else {
        p_grouping(ts, i)
    }
}

/// All top-level elements; the whole token sequence must be consumed.
pub open spec fn p_elements(ts: Seq<TokenV>, i: int) -> Option<(Seq<ElementV>, int)>
    decreases ts.len() - i, 6int,
{
    if i >= ts.len() {
        Some((Seq::empty(), i))
    } else {
        match p_element(ts, i) {
            None => None,
            Some((e, j)) => if i < j && j <= ts.len() {
                match p_elements(ts, j) {
                    None => None,
                    Some((rest, k)) => Some((seq![e] + rest, k)),
                }
            } else {
                None
            },
        }
    }
}

/// A short name for each token kind, used in the parse error message to
/// point at the offending remaining tokens.
pub open spec fn token_kind_name(t: TokenV) -> Seq<char> {
    match t {
        TokenV::Boolean(_) => "a boolean literal"@,
        TokenV::Int(_) => "an integer literal"@,
        TokenV::String(_) => "a string literal"@,
        TokenV::Name(_) => "a name"@,
        TokenV::Let => "the keyword `let`"@,
        TokenV::In => "the keyword `in`"@,
        TokenV::End => "the keyword `end`"@,
        TokenV::If => "the keyword `if`"@,
        TokenV::Then => "the keyword `then`"@,
        TokenV::Else => "the keyword `else`"@,
        TokenV::Val => "the keyword `val`"@,
        TokenV::Lambda => "a lambda marker"@,
        TokenV::Arrow => "an arrow"@,
        TokenV::Pipe => "a forward operator"@,
        TokenV::OpenParen => "an opening parenthesis"@,
        TokenV::CloseParen => "a closing parenthesis"@,
        TokenV::OpenSquare => "an opening bracket"@,
        TokenV::CloseSquare => "a closing bracket"@,
        TokenV::OpenBrace => "an opening brace"@,
        TokenV::CloseBrace => "a closing brace"@,
        TokenV::Colon => "a colon"@,
        TokenV::EqualSign => "an equals sign"@,
        TokenV::Hash => "a hash"@,
        TokenV::SingleQuote => "a quote"@,
        TokenV::QuestionMark => "a question mark"@,
        TokenV::Nothing => "the keyword `nothing`"@,
        TokenV::Whitespace => "whitespace"@,
        TokenV::Comment => "a comment"@,
    }
}

/// The message reported when no production matches, naming where the
/// remaining tokens begin.
pub open spec fn parse_err_msg(ts: Seq<TokenV>) -> Seq<char> {
    "no grammar production matched the remaining script, beginning at "@ + if ts.len() == 0 {
        "the end of the script"@
    } else {
        token_kind_name(ts[0])
    }
}

/// The parser's defining specification: the element a token sequence parses
/// to.  A single top-level element stands alone; several are wrapped in a
/// grouping.
pub open spec fn parse_model(ts: Seq<TokenV>) -> Result<ElementV, Seq<char>> {
    match p_elements(ts, 0) {
        Some((values, _k)) => if values.len() == 1 {
            Ok(values[0])
        } else {
            Ok(ElementV::Grouping(values))
        },
        None => Err(parse_err_msg(ts)),
    }
}

// ---------------------------------------------------------------------------
// Executable parser
// ---------------------------------------------------------------------------

/// The relation between an executable attempt's result and its
/// specification production: a match mirrors the element and advances; a
/// failure leaves the position unchanged.
pub open spec fn production_matches(
    ts: Seq<Token>,
    pos: int,
    r: (Option<Element>, usize),
    m: Option<(ElementV, int)>,
) -> bool {
    match r.0 {
        Some(e) => m == Some((element_view(e), r.1 as int)) && pos < r.1 <= ts.len(),
        None => m is None && r.1 == pos,
    }
}

/// Attempts one boolean literal.
fn boolean(ts: &Vec<Token>, pos: usize) -> (r: (Option<Element>, usize))
    requires
        pos <= ts@.len(),
    ensures
        production_matches(ts@, pos as int, r, p_boolean(token_views(ts@), pos as int)),
{
    broadcast use lemma_token_views_index;

    if pos < ts.len() {
        match &ts[pos] {
            Token::Boolean(b) => (Some(Element::Boolean(*b)), pos + 1),
            _ => (None, pos),
        }
    } else {
        (None, pos)
    }
}

/// Attempts one integer literal.
fn integer(ts: &Vec<Token>, pos: usize) -> (r: (Option<Element>, usize))
    requires
        pos <= ts@.len(),
    ensures
        production_matches(ts@, pos as int, r, p_int(token_views(ts@), pos as int)),
{
    broadcast use lemma_token_views_index;

    if pos < ts.len() {
        match &ts[pos] {
            Token::Int(n) => (Some(Element::Int(*n)), pos + 1),
            _ => (None, pos),
        }
    } else {
        (None, pos)
    }
}

/// Attempts one string literal.
fn string(ts: &Vec<Token>, pos: usize) -> (r: (Option<Element>, usize))
    requires
        pos <= ts@.len(),
    ensures
        production_matches(ts@, pos as int, r, p_string(token_views(ts@), pos as int)),
{
    broadcast use lemma_token_views_index;

    if pos < ts.len() {
        match &ts[pos] {
            Token::String(s) => (Some(Element::String(s.clone())), pos + 1),
            _ => (None, pos),
        }
    } else {
        (None, pos)
    }
}

/// Attempts the nothing literal.
fn nothing(ts: &Vec<Token>, pos: usize) -> (r: (Option<Element>, usize))
    requires
        pos <= ts@.len(),
    ensures
        production_matches(ts@, pos as int, r, p_nothing(token_views(ts@), pos as int)),
{
    broadcast use lemma_token_views_index;

    if pos < ts.len() {
        match &ts[pos] {
            Token::Nothing => (Some(Element::Nothing), pos + 1),
            Token::QuestionMark => (Some(Element::Nothing), pos + 1),
            _ => (None, pos),
        }
    } else {
        (None, pos)
    }
}

/// Attempts one pipe marker.
fn pipe(ts: &Vec<Token>, pos: usize) -> (r: (Option<Element>, usize))
    requires
        pos <= ts@.len(),
    ensures
        production_matches(ts@, pos as int, r, p_pipe(token_views(ts@), pos as int)),
{
    broadcast use lemma_token_views_index;

    if pos < ts.len() {
        match &ts[pos] {
            Token::Pipe => (Some(Element::Pipe), pos + 1),
            _ => (None, pos),
        }
    } else {
        (None, pos)
    }
}

/// Attempts one name.
fn name(ts: &Vec<Token>, pos: usize) -> (r: (Option<Element>, usize))
    requires
        pos <= ts@.len(),
    ensures
        production_matches(ts@, pos as int, r, p_name(token_views(ts@), pos as int)),
{
    broadcast use lemma_token_views_index;

    if pos < ts.len() {
        match &ts[pos] {
            Token::Name(s) => (Some(Element::Name(s.clone())), pos + 1),
            _ => (None, pos),
        }
    } else {
        (None, pos)
    }
}

/// Attempts an optional `: Name` tag; `Err` reports a colon without a name,
/// which fails the enclosing production.
fn tag(ts: &Vec<Token>, pos: usize) -> (r: Result<(Option<String>, usize), ()>)
    requires
        pos <= ts@.len(),
    ensures
        match r {
            Ok((t, j)) => p_tag(token_views(ts@), pos as int) == Some(
                (opt_view(t), j as int),
            ) && pos <= j <= ts@.len(),
            Err(_) => p_tag(token_views(ts@), pos as int) is None,
        },
{
    broadcast use lemma_token_views_index;

    if pos < ts.len() {
        match &ts[pos] {
            Token::Colon => {
                if pos + 1 < ts.len() {
                    match &ts[pos + 1] {
                        Token::Name(s) => Ok((Some(s.clone()), pos + 2)),
                        _ => Err(()),
                    }
                } else {
                    Err(())
                }
            },
            _ => Ok((None, pos)),
        }
    } else {
        Ok((None, pos))
    }
}

/// Attempts one `val` declaration.
fn val_binding(ts: &Vec<Token>, pos: usize) -> (r: (
    Option<(String, Option<String>, Element)>,
    usize,
))
    requires
        pos <= ts@.len(),
    ensures
        match r.0 {
            Some(d) => p_val_binding(token_views(ts@), pos as int) == Some(
                ((d.0@, opt_view(d.1), element_view(d.2)), r.1 as int),
            ) && pos < r.1 <= ts@.len(),
            None => p_val_binding(token_views(ts@), pos as int) is None && r.1 == pos,
        },
    decreases ts@.len() - pos, 0int,
{
    broadcast use lemma_token_views_index;

    if pos < ts.len() && pos + 1 < ts.len() {
        let is_val = match &ts[pos] {
            Token::Val => true,
            _ => false,
        };
        if !is_val {
            return (None, pos);
        }
        let nm = match &ts[pos + 1] {
            Token::Name(s) => s.clone(),
            _ => {
                return (None, pos);
            },
        };
        match tag(ts, pos + 2) {
            Err(_) => (None, pos),
            Ok((t, j)) => {
                if j < ts.len() {
                    let is_eq = match &ts[j] {
                        Token::EqualSign => true,
                        _ => false,
                    };
                    if !is_eq {
                        return (None, pos);
                    }
                    match element(ts, j + 1) {
                        (Some(body), k) => (Some((nm, t, body)), k),
                        (None, _) => (None, pos),
                    }
                } else {
                    (None, pos)
                }
            },
        }
    } else {
        (None, pos)
    }
}

/// Collects zero or more `val` declarations.
fn val_bindings(ts: &Vec<Token>, pos: usize) -> (r: (
    Vec<(String, Option<String>, Element)>,
    usize,
))
    requires
        pos <= ts@.len(),
    ensures
        p_val_bindings(token_views(ts@), pos as int) == (decls_view(r.0@), r.1 as int),
        pos <= r.1 <= ts@.len(),
    decreases ts@.len() - pos, 1int,
{
    broadcast use lemma_decls_view_index;

    match val_binding(ts, pos) {
        (Some(d), j) => {
            let ghost dv = (d.0@, opt_view(d.1), element_view(d.2));
            let (mut rest, k) = val_bindings(ts, j);
            let ghost old_rest = rest@;
            rest.insert(0, d);
            proof {
                assert(rest@ =~= seq![rest@[0]] + old_rest);
                assert(rest@.drop_first() =~= old_rest);
                lemma_decls_view_first(rest@);
                assert(decls_view(rest@) == seq![dv] + decls_view(old_rest));
            }
            (rest, k)
        },
        (None, _) => (Vec::new(), pos),
    }
}

/// A declaration sequence's view, split at its first entry.
proof fn lemma_decls_view_first(ds: Seq<(String, Option<String>, Element)>)
    requires
        ds.len() > 0,
    ensures
        decls_view(ds) == seq![(ds[0].0@, opt_view(ds[0].1), element_view(ds[0].2))] + decls_view(
            ds.drop_first(),
        ),
    decreases ds,
{
    broadcast use lemma_decls_view_index;

    assert(decls_view(ds) =~= seq![(ds[0].0@, opt_view(ds[0].1), element_view(ds[0].2))]
        + decls_view(ds.drop_first()));
}

/// Attempts a `let` scope.
fn let_scope(ts: &Vec<Token>, pos: usize) -> (r: (Option<Element>, usize))
    requires
        pos <= ts@.len(),
    ensures
        production_matches(ts@, pos as int, r, p_let_scope(token_views(ts@), pos as int)),
    decreases ts@.len() - pos, 0int,
{
    broadcast use lemma_token_views_index;

    proof {
        assert(element_view(Element::Nothing) == ElementV::Nothing);
    }
    if pos >= ts.len() {
        return (None, pos);
    }
    let is_let = match &ts[pos] {
        Token::Let => true,
        _ => false,
    };
    if !is_let {
        return (None, pos);
    }
    let (decls, j) = val_bindings(ts, pos + 1);
    let has_in = j < ts.len() && match &ts[j] {
        Token::In => true,
        _ => false,
    };
    if has_in {
        let (body, k) = match element(ts, j + 1) {
            (Some(b), k0) => (b, k0),
            (None, _) => (Element::Nothing, j + 1),
        };
        if k < ts.len() {
            let is_end = match &ts[k] {
                Token::End => true,
                _ => false,
            };
            if is_end {
                (Some(Element::Let(decls, Box::new(body))), k + 1)
            } else {
                (None, pos)
            }
        } else {
            (None, pos)
        }
    } else {
        (Some(Element::Let(decls, Box::new(Element::Nothing))), j)
    }
}

/// Attempts a conditional.
fn conditional(ts: &Vec<Token>, pos: usize) -> (r: (Option<Element>, usize))
    requires
        pos <= ts@.len(),
    ensures
        production_matches(ts@, pos as int, r, p_conditional(token_views(ts@), pos as int)),
    decreases ts@.len() - pos, 0int,
{
    broadcast use lemma_token_views_index;

    if pos >= ts.len() {
        return (None, pos);
    }
    let is_if = match &ts[pos] {
        Token::If => true,
        _ => false,
    };
    if !is_if {
        return (None, pos);
    }
    let (cond, j) = match element(ts, pos + 1) {
        (Some(c), j0) => (c, j0),
        (None, _) => {
            return (None, pos);
        },
    };
    if !(j < ts.len() && match &ts[j] {
        Token::Then => true,
        _ => false,
    }) {
        return (None, pos);
    }
    let (thn, k) = match element(ts, j + 1) {
        (Some(t), k0) => (t, k0),
        (None, _) => {
            return (None, pos);
        },
    };
    if !(k < ts.len() && match &ts[k] {
        Token::Else => true,
        _ => false,
    }) {
        return (None, pos);
    }
    let (els, m) = match element(ts, k + 1) {
        (Some(e), m0) => (e, m0),
        (None, _) => {
            return (None, pos);
        },
    };
    if !(m < ts.len() && match &ts[m] {
        Token::End => true,
        _ => false,
    }) {
        return (None, pos);
    }
    (
        Some(Element::Conditional(Box::new(cond), Box::new(thn), Box::new(els))),
        m + 1,
    )
}

/// Collects one or more lambda parameters.
fn lambda_params(ts: &Vec<Token>, pos: usize) -> (r: Result<
    (Vec<(String, Option<String>)>, usize),
    (),
>)
    requires
        pos <= ts@.len(),
    ensures
        match r {
            Ok((ps, j)) => p_lambda_params(token_views(ts@), pos as int) == Some(
                (params_view(ps@), j as int),
            ) && pos < j <= ts@.len() && ps@.len() > 0,
            Err(_) => p_lambda_params(token_views(ts@), pos as int) is None && pos <= ts@.len(),
        },
    decreases ts@.len() - pos, 0int,
{
    broadcast use lemma_token_views_index;
    broadcast use lemma_params_view_index;

    if pos >= ts.len() {
        return Err(());
    }
    let nm = match &ts[pos] {
        Token::Name(s) => s.clone(),
        _ => {
            return Err(());
        },
    };
    match tag(ts, pos + 1) {
        Err(_) => Err(()),
        Ok((t, j)) => {
            match lambda_params(ts, j) {
                Ok((mut rest, k)) => {
                    let ghost pv = (nm@, opt_view(t));
                    let ghost old_rest = rest@;
                    rest.insert(0, (nm, t));
                    proof {
                        assert(rest@ =~= seq![rest@[0]] + old_rest);
                        assert(rest@.drop_first() =~= old_rest);
                        lemma_params_view_first(rest@);
                        assert(params_view(rest@) == seq![pv] + params_view(old_rest));
                    }
                    Ok((rest, k))
                },
                Err(_) => {
                    let mut ps: Vec<(String, Option<String>)> = Vec::new();
                    ps.push((nm, t));
                    proof {
                        assert(ps@.drop_last() =~= Seq::<(String, Option<String>)>::empty());
                        assert(params_view(ps@.drop_last()) == Seq::<(Seq<char>, Option<Seq<char>>)>::empty());
                        assert(params_view(ps@) =~= seq![(ps@[0].0@, opt_view(ps@[0].1))]);
                    }
                    Ok((ps, j))
                },
            }
        },
    }
}

/// The views of a lambda parameter list.
pub open spec fn params_view(ps: Seq<(String, Option<String>)>) -> Seq<
    (Seq<char>, Option<Seq<char>>),
>
    decreases ps,
{
    if ps.len() == 0 {
        Seq::empty()
    } else {
        params_view(ps.drop_last()).push((ps.last().0@, opt_view(ps.last().1)))
    }
}

/// Indexing into the view of a parameter list.
pub broadcast proof fn lemma_params_view_index(ps: Seq<(String, Option<String>)>)
    ensures
        (#[trigger] params_view(ps)).len() == ps.len(),
        forall|i: int| 0 <= i < ps.len() ==> params_view(ps)[i] == (ps[i].0@, opt_view(ps[i].1)),
    decreases ps,
{
    if ps.len() > 0 {
        lemma_params_view_index(ps.drop_last());
    }
}

/// A parameter list's view, split at its first entry.
proof fn lemma_params_view_first(ps: Seq<(String, Option<String>)>)
    requires
        ps.len() > 0,
    ensures
        params_view(ps) == seq![(ps[0].0@, opt_view(ps[0].1))] + params_view(ps.drop_first()),
{
    broadcast use lemma_params_view_index;

    assert(params_view(ps) =~= seq![(ps[0].0@, opt_view(ps[0].1))] + params_view(ps.drop_first()));
}

/// Builds the nested lambda for a parameter list, right to left.
fn make_lambda(params: &Vec<(String, Option<String>)>, idx: usize, body: Element) -> (r: Element)
    requires
        idx <= params@.len(),
    ensures
        element_view(r) == lambda_chain(params_view(params@).skip(idx as int), element_view(body)),
    decreases params@.len() - idx,
{
    broadcast use lemma_params_view_index;

    if idx >= params.len() {
        proof {
            assert(params_view(params@).skip(idx as int) =~= Seq::empty());
        }
        body
    } else {
        let inner = make_lambda(params, idx + 1, body);
        let p = (params[idx].0.clone(), clone_opt_string(&params[idx].1));
        proof {
            let pv = params_view(params@);
            assert(pv.skip(idx as int).drop_first() =~= pv.skip(idx + 1));
            assert(pv.skip(idx as int)[0] == pv[idx as int]);
        }
        Element::Lambda(p.0, p.1, None, Box::new(inner))
    }
}

/// Clones an optional type tag.
fn clone_opt_string(o: &Option<String>) -> (r: Option<String>)
    ensures
        opt_view(r) == opt_view(*o),
{
    match o {
        Some(s) => Some(s.clone()),
        None => None,
    }
}

/// Attempts a lambda.
fn lambda(ts: &Vec<Token>, pos: usize) -> (r: (Option<Element>, usize))
    requires
        pos <= ts@.len(),
    ensures
        production_matches(ts@, pos as int, r, p_lambda(token_views(ts@), pos as int)),
    decreases ts@.len() - pos, 0int,
{
    broadcast use lemma_token_views_index;

    if pos >= ts.len() {
        return (None, pos);
    }
    let is_lambda = match &ts[pos] {
        Token::Lambda => true,
        _ => false,
    };
    if !is_lambda {
        return (None, pos);
    }
    match lambda_params(ts, pos + 1) {
        Err(_) => (None, pos),
        Ok((params, j)) => {
            if !(j < ts.len() && match &ts[j] {
                Token::Arrow => true,
                _ => false,
            }) {
                return (None, pos);
            }
            match element(ts, j + 1) {
                (Some(body), k) => {
                    let lam = make_lambda(&params, 0, body);
                    proof {
                        assert(params_view(params@).skip(0) =~= params_view(params@));
                    }
                    (Some(lam), k)
                },
                (None, _) => (None, pos),
            }
        },
    }
}

/// Collects zero or more inner elements.
fn inner_items(ts: &Vec<Token>, pos: usize) -> (r: (Vec<Element>, usize))
    requires
        pos <= ts@.len(),
    ensures
        p_inner_items(token_views(ts@), pos as int) == (elements_view(r.0@), r.1 as int),
        pos <= r.1 <= ts@.len(),
        r.0@.len() > 0 ==> pos < r.1,
    decreases ts@.len() - pos, 3int,
{
    match element_inner(ts, pos) {
        (Some(e), j) => {
            let ghost ev = element_view(e);
            let (mut rest, k) = inner_items(ts, j);
            let ghost old_rest = rest@;
            rest.insert(0, e);
            proof {
                assert(rest@ =~= seq![rest@[0]] + old_rest);
                assert(rest@.drop_first() =~= old_rest);
                lemma_elements_view_first(rest@);
                assert(elements_view(rest@) == seq![ev] + elements_view(old_rest));
            }
            (rest, k)
        },
        (None, _) => (Vec::new(), pos),
    }
}

/// An element sequence's view, split at its first entry.
proof fn lemma_elements_view_first(es: Seq<Element>)
    requires
        es.len() > 0,
    ensures
        elements_view(es) == seq![element_view(es[0])] + elements_view(es.drop_first()),
{
    broadcast use lemma_elements_view_index;

    assert(elements_view(es) =~= seq![element_view(es[0])] + elements_view(es.drop_first()));
}

/// Attempts a grouping of one or more juxtaposed inner elements.
fn grouping(ts: &Vec<Token>, pos: usize) -> (r: (Option<Element>, usize))
    requires
        pos <= ts@.len(),
    ensures
        production_matches(ts@, pos as int, r, p_grouping(token_views(ts@), pos as int)),
    decreases ts@.len() - pos, 4int,
{
    let (items, j) = inner_items(ts, pos);
    if items.len() == 0 {
        proof {
            assert(elements_view(items@).len() == 0) by {
                broadcast use lemma_elements_view_index;

            }
        }
        (None, pos)
    } else {
        proof {
            assert(elements_view(items@).len() > 0) by {
                broadcast use lemma_elements_view_index;

            }
            assert(j > pos);
        }
        (Some(Element::Grouping(items)), j)
    }
}

/// Attempts a grouped sub-application.
fn grouped_application(ts: &Vec<Token>, pos: usize) -> (r: (Option<Element>, usize))
    requires
        pos <= ts@.len(),
    ensures
        production_matches(ts@, pos as int, r, p_grouped_application(token_views(ts@), pos as int)),
    decreases ts@.len() - pos, 0int,
{
    broadcast use lemma_token_views_index;

    if pos >= ts.len() {
        return (None, pos);
    }
    let is_open = match &ts[pos] {
        Token::OpenParen => true,
        _ => false,
    };
    if !is_open {
        return (None, pos);
    }
    let (items, j) = inner_items(ts, pos + 1);
    if j < ts.len() && match &ts[j] {
        Token::CloseParen => true,
        _ => false,
    } {
        (Some(Element::Grouping(items)), j + 1)
    } else {
        (None, pos)
    }
}

/// Collects one or more record fields.
fn record_fields(ts: &Vec<Token>, pos: usize) -> (r: (Vec<(String, Element)>, usize))
    requires
        pos <= ts@.len(),
    ensures
        p_record_fields(token_views(ts@), pos as int) == (fields_view(r.0@), r.1 as int),
        pos <= r.1 <= ts@.len(),
        r.0@.len() > 0 ==> pos < r.1,
    decreases ts@.len() - pos, 0int,
{
    broadcast use lemma_token_views_index;

    if pos < ts.len() && pos + 1 < ts.len() {
        let nm = match &ts[pos] {
            Token::Name(s) => {
                match &ts[pos + 1] {
                    Token::Colon => Some(s.clone()),
                    _ => None,
                }
            },
            _ => None,
        };
        match nm {
            Some(nm) => {
                match element_inner(ts, pos + 2) {
                    (Some(v), j) => {
                        let ghost fv = (nm@, element_view(v));
                        let (mut rest, k) = record_fields(ts, j);
                        let ghost old_rest = rest@;
                        rest.insert(0, (nm, v));
                        proof {
                            assert(rest@ =~= seq![rest@[0]] + old_rest);
                            assert(rest@.drop_first() =~= old_rest);
                            lemma_fields_view_first(rest@);
                            assert(fields_view(rest@) == seq![fv] + fields_view(old_rest));
                        }
                        (rest, k)
                    },
                    (None, _) => (Vec::new(), pos),
                }
            },
            None => (Vec::new(), pos),
        }
    } else {
        (Vec::new(), pos)
    }
}

/// A field sequence's view, split at its first entry.
proof fn lemma_fields_view_first(fs: Seq<(String, Element)>)
    requires
        fs.len() > 0,
    ensures
        fields_view(fs) == seq![(fs[0].0@, element_view(fs[0].1))] + fields_view(fs.drop_first()),
{
    broadcast use lemma_fields_view_index;

    assert(fields_view(fs) =~= seq![(fs[0].0@, element_view(fs[0].1))] + fields_view(
        fs.drop_first(),
    ));
}

/// Attempts a record literal.
fn record(ts: &Vec<Token>, pos: usize) -> (r: (Option<Element>, usize))
    requires
        pos <= ts@.len(),
    ensures
        production_matches(ts@, pos as int, r, p_record(token_views(ts@), pos as int)),
    decreases ts@.len() - pos, 0int,
{
    broadcast use lemma_token_views_index;
    broadcast use lemma_fields_view_index;

    if pos >= ts.len() {
        return (None, pos);
    }
    let open_paren = match &ts[pos] {
        Token::OpenParen => true,
        _ => false,
    };
    let open_brace = match &ts[pos] {
        Token::OpenBrace => true,
        _ => false,
    };
    if !(open_paren || open_brace) {
        return (None, pos);
    }
    let (fields, j) = record_fields(ts, pos + 1);
    if open_paren && fields.len() == 0 {
        return (None, pos);
    }
    if j < ts.len() {
        let close_ok = match &ts[j] {
            Token::CloseParen => open_paren,
            Token::CloseBrace => open_brace,
            _ => false,
        };
        if close_ok {
            (Some(Element::Record(fields)), j + 1)
        } else {
            (None, pos)
        }
    } else {
        (None, pos)
    }
}

/// Attempts a list literal.
fn list(ts: &Vec<Token>, pos: usize) -> (r: (Option<Element>, usize))
    requires
        pos <= ts@.len(),
    ensures
        production_matches(ts@, pos as int, r, p_list(token_views(ts@), pos as int)),
    decreases ts@.len() - pos, 0int,
{
    broadcast use lemma_token_views_index;

    if pos >= ts.len() {
        return (None, pos);
    }
    let is_open = match &ts[pos] {
        Token::OpenSquare => true,
        _ => false,
    };
    if !is_open {
        return (None, pos);
    }
    let (items, j) = inner_items(ts, pos + 1);
    if j < ts.len() && match &ts[j] {
        Token::CloseSquare => true,
        _ => false,
    } {
        (Some(Element::List(items)), j + 1)
    } else {
        (None, pos)
    }
}

/// Attempts a tuple literal.
fn tuple(ts: &Vec<Token>, pos: usize) -> (r: (Option<Element>, usize))
    requires
        pos <= ts@.len(),
    ensures
        production_matches(ts@, pos as int, r, p_tuple(token_views(ts@), pos as int)),
    decreases ts@.len() - pos, 0int,
{
    broadcast use lemma_token_views_index;

    if pos < ts.len() && pos + 1 < ts.len() {
        let is_form = match &ts[pos] {
            Token::SingleQuote => match &ts[pos + 1] {
                Token::OpenParen => true,
                _ => false,
            },
            _ => false,
        };
        if !is_form {
            return (None, pos);
        }
        let (items, j) = inner_items(ts, pos + 2);
        if j < ts.len() && match &ts[j] {
            Token::CloseParen => true,
            _ => false,
        } {
            (Some(Element::Tuple(items)), j + 1)
        } else {
            (None, pos)
        }
    } else {
        (None, pos)
    }
}

/// Attempts a set literal.
fn set(ts: &Vec<Token>, pos: usize) -> (r: (Option<Element>, usize))
    requires
        pos <= ts@.len(),
    ensures
        production_matches(ts@, pos as int, r, p_set(token_views(ts@), pos as int)),
    decreases ts@.len() - pos, 0int,
{
    broadcast use lemma_token_views_index;

    if pos < ts.len() && pos + 1 < ts.len() {
        let is_form = match &ts[pos] {
            Token::Hash => match &ts[pos + 1] {
                Token::OpenParen => true,
                _ => false,
            },
            _ => false,
        };
        if !is_form {
            return (None, pos);
        }
        let (items, j) = inner_items(ts, pos + 2);
        if j < ts.len() && match &ts[j] {
            Token::CloseParen => true,
            _ => false,
        } {
            (Some(Element::SetOf(items)), j + 1)
        } else {
            (None, pos)
        }
    } else {
        (None, pos)
    }
}

/// Attempts one inner element, trying the ordered alternatives.
fn element_inner(ts: &Vec<Token>, pos: usize) -> (r: (Option<Element>, usize))
    requires
        pos <= ts@.len(),
    ensures
        production_matches(ts@, pos as int, r, p_element_inner(token_views(ts@), pos as int)),
    decreases ts@.len() - pos, 2int,
{
    let r = tuple(ts, pos);
    if r.0.is_some() {
        return r;
    }
    let r = set(ts, pos);
    if r.0.is_some() {
        return r;
    }
    let r = record(ts, pos);
    if r.0.is_some() {
        return r;
    }
    let r = name(ts, pos);
    if r.0.is_some() {
        return r;
    }
    let r = boolean(ts, pos);
    if r.0.is_some() {
        return r;
    }
    let r = nothing(ts, pos);
    if r.0.is_some() {
        return r;
    }
    let r = integer(ts, pos);
    if r.0.is_some() {
        return r;
    }
    let r = string(ts, pos);
    if r.0.is_some() {
        return r;
    }
    let r = let_scope(ts, pos);
    if r.0.is_some() {
        return r;
    }
    let r = grouped_application(ts, pos);
    if r.0.is_some() {
        return r;
    }
    let r = conditional(ts, pos);
    if r.0.is_some() {
        return r;
    }
    let r = lambda(ts, pos);
    if r.0.is_some() {
        return r;
    }
    list(ts, pos)
}

/// Attempts one top-level element.
fn element(ts: &Vec<Token>, pos: usize) -> (r: (Option<Element>, usize))
    requires
        pos <= ts@.len(),
    ensures
        production_matches(ts@, pos as int, r, p_element(token_views(ts@), pos as int)),
    decreases ts@.len() - pos, 5int,
{
    let r = pipe(ts, pos);
    if r.0.is_some() {
        return r;
    }
    let r = let_scope(ts, pos);
    if r.0.is_some() {
        return r;
    }
    grouping(ts, pos)
}

/// Collects all top-level elements; fails unless the whole token sequence is
/// consumed.
fn elements(ts: &Vec<Token>, pos: usize) -> (r: (Option<Vec<Element>>, usize))
    requires
        pos <= ts@.len(),
    ensures
        match r.0 {
            Some(es) => p_elements(token_views(ts@), pos as int) == Some(
                (elements_view(es@), r.1 as int),
            ) && pos <= r.1 <= ts@.len(),
            None => p_elements(token_views(ts@), pos as int) is None,
        },
    decreases ts@.len() - pos, 6int,
{
    broadcast use lemma_token_views_index;

    if pos >= ts.len() {
        proof {
            assert(elements_view(Seq::<Element>::empty()) =~= Seq::<ElementV>::empty());
        }
        return (Some(Vec::new()), pos);
    }
    match element(ts, pos) {
        (Some(e), j) => {
            match elements(ts, j) {
                (Some(mut rest), k) => {
                    let ghost ev = element_view(e);
                    let ghost old_rest = rest@;
                    rest.insert(0, e);
                    proof {
                        assert(rest@ =~= seq![rest@[0]] + old_rest);
                        assert(rest@.drop_first() =~= old_rest);
                        lemma_elements_view_first(rest@);
                        assert(elements_view(rest@) == seq![ev] + elements_view(old_rest));
                    }
                    (Some(rest), k)
                },
                (None, _) => (None, pos),
            }
        },
        (None, _) => (None, pos),
    }
}

/// Parses a token sequence into a syntax tree.  The result is exactly what
/// [`parse_model`] computes on the views of the tokens: the single top-level
/// element, or a grouping of several, and the fixed parse-error message when
/// no production matches the remaining tokens.
pub fn parse(tokens: Vec<Token>) -> (r: Result<Element, WanderError>)
    ensures
        match r {
            Ok(e) => parse_model(token_views(tokens@)) == Ok::<ElementV, Seq<char>>(
                element_view(e),
            ),
            Err(err) => parse_model(token_views(tokens@)) == Err::<ElementV, Seq<char>>(
                err.0@,
            ),
        },
{
    broadcast use lemma_elements_view_index;

    match elements(&tokens, 0) {
        (Some(mut es), _k) => {
            if es.len() == 1 {
                let e = es.pop().unwrap();
                assert(element_view(e) == elements_view(es@.push(e))[0]);
                Ok(e)
            } else {
                Ok(Element::Grouping(es))
            }
        },
        (None, _) => {
            let mut m = String::new();
            m.append("no grammar production matched the remaining script, beginning at ");
            if tokens.len() == 0 {
                m.append("the end of the script");
            } else {
                let kind = token_kind_text(&tokens[0]);
                m.append(kind.as_str());
            }
            proof {
                broadcast use lemma_token_views_index;

                assert(m@ =~= parse_err_msg(token_views(tokens@)));
            }
            Err(WanderError(m))
        },
    }
}

/// The short name of a token's kind, for error messages.
fn token_kind_text(t: &Token) -> (r: String)
    ensures
        r@ == token_kind_name(t@),
{
    match t {
        Token::Boolean(_) => "a boolean literal".to_owned(),
        Token::Int(_) => "an integer literal".to_owned(),
        Token::String(_) => "a string literal".to_owned(),
        Token::Name(_) => "a name".to_owned(),
        Token::Let => "the keyword `let`".to_owned(),
        Token::In => "the keyword `in`".to_owned(),
        Token::End => "the keyword `end`".to_owned(),
        Token::If => "the keyword `if`".to_owned(),
        Token::Then => "the keyword `then`".to_owned(),
        Token::Else => "the keyword `else`".to_owned(),
        Token::Val => "the keyword `val`".to_owned(),
        Token::Lambda => "a lambda marker".to_owned(),
        Token::Arrow => "an arrow".to_owned(),
        Token::Pipe => "a forward operator".to_owned(),
        Token::OpenParen => "an opening parenthesis".to_owned(),
        Token::CloseParen => "a closing parenthesis".to_owned(),
        Token::OpenSquare => "an opening bracket".to_owned(),
        Token::CloseSquare => "a closing bracket".to_owned(),
        Token::OpenBrace => "an opening brace".to_owned(),
        Token::CloseBrace => "a closing brace".to_owned(),
        Token::Colon => "a colon".to_owned(),
        Token::EqualSign => "an equals sign".to_owned(),
        Token::Hash => "a hash".to_owned(),
        Token::SingleQuote => "a quote".to_owned(),
        Token::QuestionMark => "a question mark".to_owned(),
        Token::Nothing => "the keyword `nothing`".to_owned(),
        Token::Whitespace => "whitespace".to_owned(),
        Token::Comment => "a comment".to_owned(),
    }
}

// ---------------------------------------------------------------------------
// Cloning and structural equality
// ---------------------------------------------------------------------------

/// Clones an optional type tag, preserving its view.
pub fn clone_tag(o: &Option<String>) -> (r: Option<String>)
    ensures
        opt_view(r) == opt_view(*o),
{
    match o {
        Some(s) => Some(s.clone()),
        None => None,
    }
}

/// Clones one element; the copy has the same view.
pub fn clone_element(e: &Element) -> (r: Element)
    ensures
        element_view(r) == element_view(*e),
    decreases *e,
{
    match e {
        Element::Boolean(b) => Element::Boolean(*b),
        Element::Int(n) => Element::Int(*n),
        Element::String(s) => Element::String(s.clone()),
        Element::Nothing => Element::Nothing,
        Element::Pipe => Element::Pipe,
        Element::Name(s) => Element::Name(s.clone()),
        Element::TaggedName(s, t) => Element::TaggedName(s.clone(), Box::new(clone_element(t))),
        Element::HostFunction(s) => Element::HostFunction(s.clone()),
        Element::Let(ds, b) => Element::Let(clone_decls(ds), Box::new(clone_element(b))),
        Element::Grouping(es) => Element::Grouping(clone_elements(es)),
        Element::Conditional(c, t, e2) => Element::Conditional(
            Box::new(clone_element(c)),
            Box::new(clone_element(t)),
            Box::new(clone_element(e2)),
        ),
        Element::Lambda(p, i, o, b) => Element::Lambda(
            p.clone(),
            clone_tag(i),
            clone_tag(o),
            Box::new(clone_element(b)),
        ),
        Element::Tuple(es) => Element::Tuple(clone_elements(es)),
        Element::List(es) => Element::List(clone_elements(es)),
        Element::SetOf(es) => Element::SetOf(clone_elements(es)),
        Element::Record(fs) => Element::Record(clone_fields(fs)),
    }
}

/// Clones a vector of elements, preserving the views pointwise.
pub fn clone_elements(es: &Vec<Element>) -> (r: Vec<Element>)
    ensures
        elements_view(r@) == elements_view(es@),
    decreases *es,
{
    broadcast use lemma_elements_view_index;

    let mut out: Vec<Element> = Vec::new();
    let mut i: usize = 0;
    while i < es.len()
        invariant
            i <= es@.len(),
            out@.len() == i,
            forall|k: int| 0 <= k < i ==> #[trigger] element_view(out@[k]) == element_view(es@[k]),
        decreases es@.len() - i,
    {
        proof {
            assert(decreases_to!(*es => es@[i as int]));
        }
        let c = clone_element(&es[i]);
        let ghost old_out = out@;
        out.push(c);
        proof {
            assert(forall|k: int| 0 <= k < i ==> old_out.push(c)[k] == old_out[k]);
        }
        i = i + 1;
    }
    proof {
        assert(elements_view(out@) =~= elements_view(es@));
    }
    out
}

/// Clones a vector of declarations, preserving the views pointwise.
pub fn clone_decls(ds: &Vec<(String, Option<String>, Element)>) -> (r: Vec<
    (String, Option<String>, Element),
>)
    ensures
        decls_view(r@) == decls_view(ds@),
    decreases *ds,
{
    broadcast use lemma_decls_view_index;

    let mut out: Vec<(String, Option<String>, Element)> = Vec::new();
    let mut i: usize = 0;
    while i < ds.len()
        invariant
            i <= ds@.len(),
            out@.len() == i,
            forall|k: int|
                0 <= k < i ==> #[trigger] out@[k].0@ == ds@[k].0@ && opt_view(out@[k].1)
                    == opt_view(ds@[k].1) && element_view(out@[k].2) == element_view(ds@[k].2),
        decreases ds@.len() - i,
    {
        proof {
            assert(decreases_to!(*ds => ds@[i as int].2));
        }
        let d = &ds[i];
        let c = (d.0.clone(), clone_tag(&d.1), clone_element(&d.2));
        let ghost old_out = out@;
        out.push(c);
        proof {
            assert(forall|k: int| 0 <= k < i ==> old_out.push(c)[k] == old_out[k]);
        }
        i = i + 1;
    }
    proof {
        assert(decls_view(out@) =~= decls_view(ds@));
    }
    out
}

/// Clones a vector of record fields, preserving the views pointwise.
pub fn clone_fields(fs: &Vec<(String, Element)>) -> (r: Vec<(String, Element)>)
    ensures
        fields_view(r@) == fields_view(fs@),
    decreases *fs,
{
    broadcast use lemma_fields_view_index;

    let mut out: Vec<(String, Element)> = Vec::new();
    let mut i: usize = 0;
    while i < fs.len()
        invariant
            i <= fs@.len(),
            out@.len() == i,
            forall|k: int|
                0 <= k < i ==> #[trigger] out@[k].0@ == fs@[k].0@ && element_view(out@[k].1)
                    == element_view(fs@[k].1),
        decreases fs@.len() - i,
    {
        proof {
            assert(decreases_to!(*fs => fs@[i as int].1));
        }
        let f = &fs[i];
        let c = (f.0.clone(), clone_element(&f.1));
        let ghost old_out = out@;
        out.push(c);
        proof {
            assert(forall|k: int| 0 <= k < i ==> old_out.push(c)[k] == old_out[k]);
        }
        i = i + 1;
    }
    proof {
        assert(fields_view(out@) =~= fields_view(fs@));
    }
    out
}

impl Clone for Element {
    /// Clones an element; the copy has the same view.
    fn clone(&self) -> (r: Self)
        ensures
            element_view(r) == element_view(*self),
    {
        clone_element(self)
    }
}

/// Each element variant corresponds to its view's variant.
pub broadcast proof fn lemma_element_view_variant(e: Element)
    ensures
        ((#[trigger] element_view(e)) is Boolean <==> e is Boolean),
        (element_view(e) is Int <==> e is Int),
        (element_view(e) is String <==> e is String),
        (element_view(e) is Nothing <==> e is Nothing),
        (element_view(e) is Pipe <==> e is Pipe),
        (element_view(e) is Name <==> e is Name),
        (element_view(e) is TaggedName <==> e is TaggedName),
        (element_view(e) is HostFunction <==> e is HostFunction),
        (element_view(e) is Let <==> e is Let),
        (element_view(e) is Grouping <==> e is Grouping),
        (element_view(e) is Conditional <==> e is Conditional),
        (element_view(e) is Lambda <==> e is Lambda),
        (element_view(e) is Tuple <==> e is Tuple),
        (element_view(e) is List <==> e is List),
        (element_view(e) is SetOf <==> e is SetOf),
        (element_view(e) is Record <==> e is Record),
{
    match e {
        Element::Boolean(_) => {},
        Element::Int(_) => {},
        Element::String(_) => {},
        Element::Nothing => {},
        Element::Pipe => {},
        Element::Name(_) => {},
        Element::TaggedName(_, _) => {},
        Element::HostFunction(_) => {},
        Element::Let(_, _) => {},
        Element::Grouping(_) => {},
        Element::Conditional(_, _, _) => {},
        Element::Lambda(_, _, _, _) => {},
        Element::Tuple(_) => {},
        Element::List(_) => {},
        Element::SetOf(_) => {},
        Element::Record(_) => {},
    }
}

/// Compares two optional tags by view.
pub fn tag_eq(a: &Option<String>, b: &Option<String>) -> (r: bool)
    ensures
        r == (opt_view(*a) == opt_view(*b)),
{
    match (a, b) {
        (Some(x), Some(y)) => x.eq(y),
        (None, None) => true,
        _ => false,
    }
}

/// Compares two elements by view: structural equality, with strings compared
/// by their characters.
pub fn element_eq(a: &Element, b: &Element) -> (r: bool)
    ensures
        r == (element_view(*a) == element_view(*b)),
    decreases *a,
{
    broadcast use lemma_element_view_variant;

    match a {
        Element::Boolean(x) => match b {
            Element::Boolean(y) => *x == *y,
            _ => false,
        },
        Element::Int(x) => match b {
            Element::Int(y) => *x == *y,
            _ => false,
        },
        Element::String(x) => match b {
            Element::String(y) => x.eq(y),
            _ => false,
        },
        Element::Nothing => match b {
            Element::Nothing => true,
            _ => false,
        },
        Element::Pipe => match b {
            Element::Pipe => true,
            _ => false,
        },
        Element::Name(x) => match b {
            Element::Name(y) => x.eq(y),
            _ => false,
        },
        Element::TaggedName(x, t1) => match b {
            Element::TaggedName(y, t2) => x.eq(y) && element_eq(t1, t2),
            _ => false,
        },
        Element::HostFunction(x) => match b {
            Element::HostFunction(y) => x.eq(y),
            _ => false,
        },
        Element::Let(ds1, b1) => match b {
            Element::Let(ds2, b2) => decls_eq(ds1, ds2) && element_eq(b1, b2),
            _ => false,
        },
        Element::Grouping(es1) => match b {
            Element::Grouping(es2) => elements_eq(es1, es2),
            _ => false,
        },
        Element::Conditional(c1, t1, e1) => match b {
            Element::Conditional(c2, t2, e2) => element_eq(c1, c2) && element_eq(t1, t2)
                && element_eq(e1, e2),
            _ => false,
        },
        Element::Lambda(p1, i1, o1, b1) => match b {
            Element::Lambda(p2, i2, o2, b2) => p1.eq(p2) && tag_eq(i1, i2) && tag_eq(o1, o2)
                && element_eq(b1, b2),
            _ => false,
        },
        Element::Tuple(es1) => match b {
            Element::Tuple(es2) => elements_eq(es1, es2),
            _ => false,
        },
        Element::List(es1) => match b {
            Element::List(es2) => elements_eq(es1, es2),
            _ => false,
        },
        Element::SetOf(es1) => match b {
            Element::SetOf(es2) => elements_eq(es1, es2),
            _ => false,
        },
        Element::Record(fs1) => match b {
            Element::Record(fs2) => fields_eq(fs1, fs2),
            _ => false,
        },
    }
}

/// Compares two element vectors by view, pointwise.
pub fn elements_eq(a: &Vec<Element>, b: &Vec<Element>) -> (r: bool)
    ensures
        r == (elements_view(a@) == elements_view(b@)),
    decreases *a,
{
    broadcast use lemma_elements_view_index;

    if a.len() != b.len() {
        proof {
            assert(elements_view(a@).len() != elements_view(b@).len());
        }
        return false;
    }
    let mut i: usize = 0;
    while i < a.len()
        invariant
            a@.len() == b@.len(),
            i <= a@.len(),
            forall|k: int|
                0 <= k < i ==> #[trigger] element_view(a@[k]) == element_view(b@[k]),
        decreases a@.len() - i,
    {
        proof {
            assert(decreases_to!(*a => a@[i as int]));
        }
        if !element_eq(&a[i], &b[i]) {
            proof {
                lemma_elements_view_index(a@);
                lemma_elements_view_index(b@);
                assert(elements_view(a@)[i as int] != elements_view(b@)[i as int]);
            }
            return false;
        }
        proof {
            lemma_elements_view_index(a@);
            lemma_elements_view_index(b@);
        }
        i = i + 1;
    }
    proof {
        lemma_elements_view_index(a@);
        lemma_elements_view_index(b@);
        assert(elements_view(a@) =~= elements_view(b@));
    }
    true
}

/// Compares two declaration vectors by view, pointwise.
pub fn decls_eq(a: &Vec<(String, Option<String>, Element)>, b: &Vec<
    (String, Option<String>, Element),
>) -> (r: bool)
    ensures
        r == (decls_view(a@) == decls_view(b@)),
    decreases *a,
{
    broadcast use lemma_decls_view_index;

    if a.len() != b.len() {
        proof {
            assert(decls_view(a@).len() != decls_view(b@).len());
        }
        return false;
    }
    let mut i: usize = 0;
    while i < a.len()
        invariant
            a@.len() == b@.len(),
            i <= a@.len(),
            forall|k: int| 0 <= k < i ==> #[trigger] decls_view(a@)[k] == decls_view(b@)[k],
        decreases a@.len() - i,
    {
        proof {
            assert(decreases_to!(*a => a@[i as int].2));
        }
        let ok = a[i].0.eq(&b[i].0) && tag_eq(&a[i].1, &b[i].1) && element_eq(&a[i].2, &b[i].2);
        if !ok {
            proof {
                lemma_decls_view_index(a@);
                lemma_decls_view_index(b@);
                assert(decls_view(a@)[i as int] != decls_view(b@)[i as int]);
            }
            return false;
        }
        proof {
            lemma_decls_view_index(a@);
            lemma_decls_view_index(b@);
        }
        i = i + 1;
    }
    proof {
        lemma_decls_view_index(a@);
        lemma_decls_view_index(b@);
        assert(decls_view(a@) =~= decls_view(b@));
    }
    true
}

/// Compares two field vectors by view, pointwise.
pub fn fields_eq(a: &Vec<(String, Element)>, b: &Vec<(String, Element)>) -> (r: bool)
    ensures
        r == (fields_view(a@) == fields_view(b@)),
    decreases *a,
{
    broadcast use lemma_fields_view_index;

    if a.len() != b.len() {
        proof {
            assert(fields_view(a@).len() != fields_view(b@).len());
        }
        return false;
    }
    let mut i: usize = 0;
    while i < a.len()
        invariant
            a@.len() == b@.len(),
            i <= a@.len(),
            forall|k: int| 0 <= k < i ==> #[trigger] fields_view(a@)[k] == fields_view(b@)[k],
        decreases a@.len() - i,
    {
        proof {
            assert(decreases_to!(*a => a@[i as int].1));
        }
        let ok = a[i].0.eq(&b[i].0) && element_eq(&a[i].1, &b[i].1);
        if !ok {
            proof {
                lemma_fields_view_index(a@);
                lemma_fields_view_index(b@);
                assert(fields_view(a@)[i as int] != fields_view(b@)[i as int]);
            }
            return false;
        }
        proof {
            lemma_fields_view_index(a@);
            lemma_fields_view_index(b@);
        }
        i = i + 1;
    }
    proof {
        lemma_fields_view_index(a@);
        lemma_fields_view_index(b@);
        assert(fields_view(a@) =~= fields_view(b@));
    }
    true
}

} // verus!
