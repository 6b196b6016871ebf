//! Runtime values and their textual rendering.
//!
//! A [`WanderValue`] is the result of evaluating an expression.  The type is
//! generic over an opaque host payload `T`, carried inside [`HostValue`] and
//! never introspected by script code.  Rendering is pinned by the
//! specification functions [`render_value`], [`int_to_dec`] and
//! [`write_string_model`]; primitive literals render to source text that
//! lexes and evaluates back to the same value.

use vstd::prelude::*;

verus! {

use std::rc::Rc;
use vstd::std_specs::cmp::PartialEqSpec;
use vstd::string::StringExecFns;
use crate::parser::{
    Element, ElementV, element_view, clone_element, clone_tag, element_eq, tag_eq, opt_view,
};

/// Types of values allowed in scripts; used as descriptive metadata on host
/// function signatures, never enforced.
#[derive(Debug, PartialEq, Eq)]
pub enum WanderType {
    /// Allow any type.
    Any,
    /// A boolean value.
    Boolean,
    /// A signed 64-bit integer.
    Int,
    /// A string value.
    String,
    /// The nothing value.
    Nothing,
    /// A lambda.
    Lambda,
    /// A list.
    List,
    /// A tuple.
    Tuple,
    /// An optional value.
    Optional(Box<WanderType>),
}

/// Clones a type descriptor; the copy equals the original.
pub fn clone_type(t: &WanderType) -> (r: WanderType)
    ensures
        r == *t,
    decreases *t,
{
    match t {
        WanderType::Any => WanderType::Any,
        WanderType::Boolean => WanderType::Boolean,
        WanderType::Int => WanderType::Int,
        WanderType::String => WanderType::String,
        WanderType::Nothing => WanderType::Nothing,
        WanderType::Lambda => WanderType::Lambda,
        WanderType::List => WanderType::List,
        WanderType::Tuple => WanderType::Tuple,
        WanderType::Optional(inner) => WanderType::Optional(Box::new(clone_type(inner))),
    }
}

impl Clone for WanderType {
    /// Clones a type descriptor; the copy equals the original.
    fn clone(&self) -> (r: Self)
        ensures
            r == *self,
    {
        clone_type(self)
    }
}

/// A value of a type provided by the host application.  Script code can pass
/// it around but never look inside; only host functions can.
#[derive(Debug, PartialEq, Eq)]
pub struct HostValue<T> {
    /// The payload, shared so that values stay cheap to copy.
    pub value: Rc<T>,
}

/// Relies on `Rc::clone`: the copy is a handle to the same allocation and
/// equals the original.
#[verifier::external_body]
fn rc_clone<T>(rc: &Rc<T>) -> (r: Rc<T>)
    ensures
        r == *rc,
{
    Rc::clone(rc)
}

/// A runtime value.
#[derive(Debug, PartialEq, Eq)]
pub enum WanderValue<T> {
    /// A boolean value.
    Boolean(bool),
    /// An integer value.
    Int(i64),
    /// A string value, fully unescaped.
    String(String),
    /// The nothing value.
    Nothing,
    /// A lambda value: parameter name, optional input and output type tags,
    /// and the unevaluated body.  No environment is captured; free names
    /// resolve against the scopes in force when the lambda is applied.
    Lambda(String, Option<String>, Option<String>, Box<Element>),
    /// A list.
    List(Vec<WanderValue<T>>),
    /// A tuple.
    Tuple(Vec<WanderValue<T>>),
    /// A set: members kept in first-occurrence order, no two of them equal.
    SetOf(Vec<WanderValue<T>>),
    /// A record: name-keyed fields, names unique, last write wins.
    Record(Vec<(String, WanderValue<T>)>),
    /// An opaque host payload.
    HostValue(HostValue<T>),
}

/// The mathematical view of a [`WanderValue`].
pub enum ValueV<T> {
    /// View of `WanderValue::Boolean`.
    Boolean(bool),
    /// View of `WanderValue::Int`.
    Int(i64),
    /// View of `WanderValue::String`.
    String(Seq<char>),
    /// View of `WanderValue::Nothing`.
    Nothing,
    /// View of `WanderValue::Lambda`.
    Lambda(Seq<char>, Option<Seq<char>>, Option<Seq<char>>, Box<ElementV>),
    /// View of `WanderValue::List`.
    List(Seq<ValueV<T>>),
    /// View of `WanderValue::Tuple`.
    Tuple(Seq<ValueV<T>>),
    /// View of `WanderValue::SetOf`.
    SetOf(Seq<ValueV<T>>),
    /// View of `WanderValue::Record`.
    Record(Seq<(Seq<char>, ValueV<T>)>),
    /// View of `WanderValue::HostValue`: the payload itself.
    HostValue(T),
}

/// The view of one value.
pub open spec fn value_view<T>(v: WanderValue<T>) -> ValueV<T>
    decreases v,
{
    match v {
        WanderValue::Boolean(b) => ValueV::Boolean(b),
        WanderValue::Int(n) => ValueV::Int(n),
        WanderValue::String(s) => ValueV::String(s@),
        WanderValue::Nothing => ValueV::Nothing,
        WanderValue::Lambda(p, i, o, b) => ValueV::Lambda(
            p@,
            opt_view(i),
            opt_view(o),
            Box::new(element_view(*b)),
        ),
        WanderValue::List(vs) => ValueV::List(values_view(vs@)),
        WanderValue::Tuple(vs) => ValueV::Tuple(values_view(vs@)),
        WanderValue::SetOf(vs) => ValueV::SetOf(values_view(vs@)),
        WanderValue::Record(fs) => ValueV::Record(vfields_view(fs@)),
        WanderValue::HostValue(hv) => ValueV::HostValue(*hv.value),
    }
}

/// The views of a sequence of values.
pub open spec fn values_view<T>(vs: Seq<WanderValue<T>>) -> Seq<ValueV<T>>
    decreases vs,
{
    if vs.len() == 0 {
        Seq::empty()
    } else {
        values_view(vs.drop_last()).push(value_view(vs.last()))
    }
}

/// The views of a sequence of record fields.
pub open spec fn vfields_view<T>(fs: Seq<(String, WanderValue<T>)>) -> Seq<(Seq<char>, ValueV<T>)>
    decreases fs,
{
    if fs.len() == 0 {
        Seq::empty()
    } else {
        vfields_view(fs.drop_last()).push((fs.last().0@, value_view(fs.last().1)))
    }
}

impl<T> View for WanderValue<T> {
    type V = ValueV<T>;

    open spec fn view(&self) -> ValueV<T> {
        value_view(*self)
    }
}

/// Indexing into the view of a value sequence.
pub broadcast proof fn lemma_values_view_index<T>(vs: Seq<WanderValue<T>>)
    ensures
        (#[trigger] values_view(vs)).len() == vs.len(),
        forall|i: int| 0 <= i < vs.len() ==> values_view(vs)[i] == value_view(vs[i]),
    decreases vs,
{
    if vs.len() > 0 {
        lemma_values_view_index(vs.drop_last());
    }
}

/// Indexing into the view of a record-field sequence.
pub broadcast proof fn lemma_vfields_view_index<T>(fs: Seq<(String, WanderValue<T>)>)
    ensures
        (#[trigger] vfields_view(fs)).len() == fs.len(),
        forall|i: int|
            0 <= i < fs.len() ==> vfields_view(fs)[i] == (fs[i].0@, value_view(fs[i].1)),
    decreases fs,
{
    if fs.len() > 0 {
        lemma_vfields_view_index(fs.drop_last());
    }
}

/// Each value variant corresponds to its view's variant.
pub broadcast proof fn lemma_value_view_variant<T>(v: WanderValue<T>)
    ensures
        ((#[trigger] value_view(v)) is Boolean <==> v is Boolean),
        (value_view(v) is Int <==> v is Int),
        (value_view(v) is String <==> v is String),
        (value_view(v) is Nothing <==> v is Nothing),
        (value_view(v) is Lambda <==> v is Lambda),
        (value_view(v) is List <==> v is List),
        (value_view(v) is Tuple <==> v is Tuple),
        (value_view(v) is SetOf <==> v is SetOf),
        (value_view(v) is Record <==> v is Record),
        (value_view(v) is HostValue <==> v is HostValue),
{
    match v {
        WanderValue::Boolean(_) => {},
        WanderValue::Int(_) => {},
        WanderValue::String(_) => {},
        WanderValue::Nothing => {},
        WanderValue::Lambda(_, _, _, _) => {},
        WanderValue::List(_) => {},
        WanderValue::Tuple(_) => {},
        WanderValue::SetOf(_) => {},
        WanderValue::Record(_) => {},
        WanderValue::HostValue(_) => {},
    }
}

/// Clones one value; the copy has the same view.
pub fn clone_value<T>(v: &WanderValue<T>) -> (r: WanderValue<T>)
    ensures
        value_view(r) == value_view(*v),
    decreases *v,
{
    match v {
        WanderValue::Boolean(b) => WanderValue::Boolean(*b),
        WanderValue::Int(n) => WanderValue::Int(*n),
        WanderValue::String(s) => WanderValue::String(s.clone()),
        WanderValue::Nothing => WanderValue::Nothing,
        WanderValue::Lambda(p, i, o, b) => WanderValue::Lambda(
            p.clone(),
            clone_tag(i),
            clone_tag(o),
            Box::new(clone_element(b)),
        ),
        WanderValue::List(vs) => WanderValue::List(clone_values(vs)),
        WanderValue::Tuple(vs) => WanderValue::Tuple(clone_values(vs)),
        WanderValue::SetOf(vs) => WanderValue::SetOf(clone_values(vs)),
        WanderValue::Record(fs) => WanderValue::Record(clone_vfields(fs)),
        WanderValue::HostValue(hv) => WanderValue::HostValue(
            HostValue { value: rc_clone(&hv.value) },
        ),
    }
}

/// Clones a vector of values, preserving the views pointwise.
pub fn clone_values<T>(vs: &Vec<WanderValue<T>>) -> (r: Vec<WanderValue<T>>)
    ensures
        values_view(r@) == values_view(vs@),
    decreases *vs,
{
    let mut out: Vec<WanderValue<T>> = Vec::new();
    let mut i: usize = 0;
    while i < vs.len()
        invariant
            i <= vs@.len(),
            out@.len() == i,
            forall|k: int| 0 <= k < i ==> #[trigger] value_view(out@[k]) == value_view(vs@[k]),
        decreases vs@.len() - i,
    {
        proof {
            assert(decreases_to!(*vs => vs@[i as int]));
        }
        let c = clone_value(&vs[i]);
        let ghost old_out = out@;
        out.push(c);
        proof {
            assert(forall|k: int| 0 <= k < i ==> old_out.push(c)[k] == old_out[k]);
        }
        i = i + 1;
    }
    proof {
        lemma_values_view_index(out@);
        lemma_values_view_index(vs@);
        assert(values_view(out@) =~= values_view(vs@));
    }
    out
}

/// Clones a vector of record fields, preserving the views pointwise.
pub fn clone_vfields<T>(fs: &Vec<(String, WanderValue<T>)>) -> (r: Vec<(String, WanderValue<T>)>)
    ensures
        vfields_view(r@) == vfields_view(fs@),
    decreases *fs,
{
    let mut out: Vec<(String, WanderValue<T>)> = Vec::new();
    let mut i: usize = 0;
    while i < fs.len()
        invariant
            i <= fs@.len(),
            out@.len() == i,
            forall|k: int|
                0 <= k < i ==> #[trigger] out@[k].0@ == fs@[k].0@ && value_view(out@[k].1)
                    == value_view(fs@[k].1),
        decreases fs@.len() - i,
    {
        proof {
            assert(decreases_to!(*fs => fs@[i as int].1));
        }
        let f = &fs[i];
        let c = (f.0.clone(), clone_value(&f.1));
        let ghost old_out = out@;
        out.push(c);
        proof {
            assert(forall|k: int| 0 <= k < i ==> old_out.push(c)[k] == old_out[k]);
        }
        i = i + 1;
    }
    proof {
        lemma_vfields_view_index(out@);
        lemma_vfields_view_index(fs@);
        assert(vfields_view(out@) =~= vfields_view(fs@));
    }
    out
}

impl<T> Clone for WanderValue<T> {
    /// Clones a value; the copy has the same view.
    fn clone(&self) -> (r: Self)
        ensures
            value_view(r) == value_view(*self),
    {
        clone_value(self)
    }
}

// ---------------------------------------------------------------------------
// Value equality
// ---------------------------------------------------------------------------

/// Equality of value views: structural, except that host payloads compare by
/// the host type's own equality specification.
pub open spec fn val_eq<T: PartialEq>(a: ValueV<T>, b: ValueV<T>) -> bool
    decreases a,
{
    match a {
        ValueV::Boolean(x) => b matches ValueV::Boolean(y) && x == y,
        ValueV::Int(x) => b matches ValueV::Int(y) && x == y,
        ValueV::String(x) => b matches ValueV::String(y) && x == y,
        ValueV::Nothing => b is Nothing,
        ValueV::Lambda(p1, i1, o1, b1) => b matches ValueV::Lambda(p2, i2, o2, b2) && p1 == p2 && i1
            == i2 && o1 == o2 && b1 == b2,
        ValueV::List(x) => b matches ValueV::List(y) && vals_eq_seq(x, y),
        ValueV::Tuple(x) => b matches ValueV::Tuple(y) && vals_eq_seq(x, y),
        ValueV::SetOf(x) => b matches ValueV::SetOf(y) && vals_eq_seq(x, y),
        ValueV::Record(x) => b matches ValueV::Record(y) && vfields_eq_seq(x, y),
        ValueV::HostValue(x) => b matches ValueV::HostValue(y) && x.eq_spec(&y),
    }
}

/// Pointwise [`val_eq`] over sequences.
pub open spec fn vals_eq_seq<T: PartialEq>(a: Seq<ValueV<T>>, b: Seq<ValueV<T>>) -> bool
    decreases a,
{
    if a.len() != b.len() {
        false
    } else if a.len() == 0 {
        true
    } else {
        val_eq(a[0], b[0]) && vals_eq_seq(a.drop_first(), b.drop_first())
    }
}

/// Pointwise field equality: names and values.
pub open spec fn vfields_eq_seq<T: PartialEq>(
    a: Seq<(Seq<char>, ValueV<T>)>,
    b: Seq<(Seq<char>, ValueV<T>)>,
) -> bool
    decreases a,
{
    if a.len() != b.len() {
        false
    } else if a.len() == 0 {
        true
    } else {
        a[0].0 == b[0].0 && val_eq(a[0].1, b[0].1) && vfields_eq_seq(a.drop_first(), b.drop_first())
    }
}

/// Compares two values.  When the host type's equality obeys its
/// specification, the result is exactly [`val_eq`] on the views.
pub fn values_equal<T: PartialEq>(a: &WanderValue<T>, b: &WanderValue<T>) -> (r: bool)
    ensures
        T::obeys_eq_spec() ==> r == val_eq(value_view(*a), value_view(*b)),
    decreases *a,
{
    broadcast use lemma_value_view_variant;

    match a {
        WanderValue::Boolean(x) => match b {
            WanderValue::Boolean(y) => *x == *y,
            _ => false,
        },
        WanderValue::Int(x) => match b {
            WanderValue::Int(y) => *x == *y,
            _ => false,
        },
        WanderValue::String(x) => match b {
            WanderValue::String(y) => x.eq(y),
            _ => false,
        },
        WanderValue::Nothing => match b {
            WanderValue::Nothing => true,
            _ => false,
        },
        WanderValue::Lambda(p1, i1, o1, b1) => match b {
            WanderValue::Lambda(p2, i2, o2, b2) => p1.eq(p2) && tag_eq(i1, i2) && tag_eq(o1, o2)
                && element_eq(b1, b2),
            _ => false,
        },
        WanderValue::List(x) => match b {
            WanderValue::List(y) => values_equal_vec(x, y),
            _ => false,
        },
        WanderValue::Tuple(x) => match b {
            WanderValue::Tuple(y) => values_equal_vec(x, y),
            _ => false,
        },
        WanderValue::SetOf(x) => match b {
            WanderValue::SetOf(y) => values_equal_vec(x, y),
            _ => false,
        },
        WanderValue::Record(x) => match b {
            WanderValue::Record(y) => vfields_equal_vec(x, y),
            _ => false,
        },
        WanderValue::HostValue(x) => match b {
            WanderValue::HostValue(y) => (*x.value).eq(&*y.value),
            _ => false,
        },
    }
}

/// One unfolding of pointwise sequence equality.
proof fn lemma_vals_eq_seq_index<T: PartialEq>(a: Seq<ValueV<T>>, b: Seq<ValueV<T>>)
    requires
        a.len() == b.len(),
    ensures
        vals_eq_seq(a, b) <==> forall|k: int| 0 <= k < a.len() ==> #[trigger] val_eq(a[k], b[k]),
    decreases a,
{
    if a.len() > 0 {
        lemma_vals_eq_seq_index(a.drop_first(), b.drop_first());
        assert(forall|k: int|
            0 <= k < a.drop_first().len() ==> (#[trigger] a.drop_first()[k]) == a[k + 1]
                && b.drop_first()[k] == b[k + 1]);
        if val_eq(a[0], b[0]) && vals_eq_seq(a.drop_first(), b.drop_first()) {
            assert forall|k: int| 0 <= k < a.len() implies #[trigger] val_eq(a[k], b[k]) by {
                if k > 0 {
                    assert(val_eq(a.drop_first()[k - 1], b.drop_first()[k - 1]));
                }
            }
        }
        if forall|k: int| 0 <= k < a.len() ==> #[trigger] val_eq(a[k], b[k]) {
            assert forall|k: int|
                0 <= k < a.drop_first().len() implies #[trigger] val_eq(
                a.drop_first()[k],
                b.drop_first()[k],
            ) by {
                assert(val_eq(a[k + 1], b[k + 1]));
            }
        }
    }
}

/// One unfolding of pointwise field equality.
proof fn lemma_vfields_eq_seq_index<T: PartialEq>(
    a: Seq<(Seq<char>, ValueV<T>)>,
    b: Seq<(Seq<char>, ValueV<T>)>,
)
    requires
        a.len() == b.len(),
    ensures
        vfields_eq_seq(a, b) <==> forall|k: int|
            0 <= k < a.len() ==> (#[trigger] a[k]).0 == b[k].0 && val_eq(a[k].1, b[k].1),
    decreases a,
{
    if a.len() > 0 {
        lemma_vfields_eq_seq_index(a.drop_first(), b.drop_first());
        assert(forall|k: int|
            0 <= k < a.drop_first().len() ==> (#[trigger] a.drop_first()[k]) == a[k + 1]
                && b.drop_first()[k] == b[k + 1]);
        if a[0].0 == b[0].0 && val_eq(a[0].1, b[0].1) && vfields_eq_seq(
            a.drop_first(),
            b.drop_first(),
        ) {
            assert forall|k: int| 0 <= k < a.len() implies (#[trigger] a[k]).0 == b[k].0 && val_eq(
                a[k].1,
                b[k].1,
            ) by {
                if k > 0 {
                    assert(a.drop_first()[k - 1].0 == b.drop_first()[k - 1].0 && val_eq(
                        a.drop_first()[k - 1].1,
                        b.drop_first()[k - 1].1,
                    ));
                }
            }
        }
        if forall|k: int| 0 <= k < a.len() ==> (#[trigger] a[k]).0 == b[k].0 && val_eq(
            a[k].1,
            b[k].1,
        ) {
            assert forall|k: int|
                0 <= k < a.drop_first().len() implies (#[trigger] a.drop_first()[k]).0
                == b.drop_first()[k].0 && val_eq(a.drop_first()[k].1, b.drop_first()[k].1) by {
                assert(a[k + 1].0 == b[k + 1].0 && val_eq(a[k + 1].1, b[k + 1].1));
            }
        }
    }
}

/// Compares two value vectors pointwise.
pub fn values_equal_vec<T: PartialEq>(a: &Vec<WanderValue<T>>, b: &Vec<WanderValue<T>>) -> (r: bool)
    ensures
        T::obeys_eq_spec() ==> r == vals_eq_seq(values_view(a@), values_view(b@)),
    decreases *a,
{
    proof {
        lemma_values_view_index(a@);
        lemma_values_view_index(b@);
    }
    if a.len() != b.len() {
        return false;
    }
    let mut i: usize = 0;
    while i < a.len()
        invariant
            a@.len() == b@.len(),
            i <= a@.len(),
            T::obeys_eq_spec() ==> forall|k: int|
                0 <= k < i ==> #[trigger] val_eq(value_view(a@[k]), value_view(b@[k])),
        decreases a@.len() - i,
    {
        proof {
            assert(decreases_to!(*a => a@[i as int]));
        }
        if !values_equal(&a[i], &b[i]) {
            proof {
                if T::obeys_eq_spec() {
                    lemma_values_view_index(a@);
                    lemma_values_view_index(b@);
                    lemma_vals_eq_seq_index(values_view(a@), values_view(b@));
                    assert(!val_eq(values_view(a@)[i as int], values_view(b@)[i as int]));
                }
            }
            return false;
        }
        i = i + 1;
    }
    proof {
        if T::obeys_eq_spec() {
            lemma_values_view_index(a@);
            lemma_values_view_index(b@);
            lemma_vals_eq_seq_index(values_view(a@), values_view(b@));
        }
    }
    true
}

/// Compares two field vectors pointwise.
pub fn vfields_equal_vec<T: PartialEq>(
    a: &Vec<(String, WanderValue<T>)>,
    b: &Vec<(String, WanderValue<T>)>,
) -> (r: bool)
    ensures
        T::obeys_eq_spec() ==> r == vfields_eq_seq(vfields_view(a@), vfields_view(b@)),
    decreases *a,
{
    proof {
        lemma_vfields_view_index(a@);
        lemma_vfields_view_index(b@);
    }
    if a.len() != b.len() {
        return false;
    }
    let mut i: usize = 0;
    while i < a.len()
        invariant
            a@.len() == b@.len(),
            i <= a@.len(),
            T::obeys_eq_spec() ==> forall|k: int|
                0 <= k < i ==> (#[trigger] vfields_view(a@)[k]).0 == vfields_view(b@)[k].0
                    && val_eq(vfields_view(a@)[k].1, vfields_view(b@)[k].1),
        decreases a@.len() - i,
    {
        proof {
            assert(decreases_to!(*a => a@[i as int].1));
            lemma_vfields_view_index(a@);
            lemma_vfields_view_index(b@);
        }
        let ok = a[i].0.eq(&b[i].0) && values_equal(&a[i].1, &b[i].1);
        if !ok {
            proof {
                if T::obeys_eq_spec() {
                    lemma_vfields_eq_seq_index(vfields_view(a@), vfields_view(b@));
                    assert(!((vfields_view(a@)[i as int]).0 == vfields_view(b@)[i as int].0
                        && val_eq(vfields_view(a@)[i as int].1, vfields_view(b@)[i as int].1)));
                }
            }
            return false;
        }
        i = i + 1;
    }
    proof {
        if T::obeys_eq_spec() {
            lemma_vfields_eq_seq_index(vfields_view(a@), vfields_view(b@));
        }
    }
    true
}

// ---------------------------------------------------------------------------
// Rendering
// ---------------------------------------------------------------------------

/// The decimal digit character for `d`.
pub open spec fn digit_char(d: int) -> char {
    if d == 0 {
        '0'
    } else if d == 1 {
        '1'
    } else if d == 2 {
        '2'
    } else if d == 3 {
        '3'
    } else if d == 4 {
        '4'
    } else if d == 5 {
        '5'
    } else if d == 6 {
        '6'
    } else if d == 7 {
        '7'
    } else if d == 8 {
        '8'
    } else {
        '9'
    }
}

/// The decimal digits of a non-negative number, most significant first.
pub open spec fn dec_digits(n: int) -> Seq<char>
    decreases n,
{
    if n < 10 {
        seq![digit_char(n)]
    } else {
        dec_digits(n / 10).push(digit_char(n % 10))
    }
}

/// The canonical decimal rendering of an integer.
pub open spec fn int_to_dec(i: int) -> Seq<char> {
    if i < 0 {
        seq!['-'] + dec_digits(-i)
    } else {
        dec_digits(i)
    }
}

/// Renders a non-negative number in decimal.
fn write_u64(n: u64) -> (r: String)
    ensures
        r@ == dec_digits(n as int),
    decreases n,
{
    let d = n % 10;
    let c: char = match d {
        0 => '0',
        1 => '1',
        2 => '2',
        3 => '3',
        4 => '4',
        5 => '5',
        6 => '6',
        7 => '7',
        8 => '8',
        _ => '9',
    };
    assert(c == digit_char(d as int));
    if n < 10 {
        let mut s = String::new();
        crate::lexer::push_char(&mut s, c);
        proof {
            assert(s@ =~= seq![digit_char(n as int)]);
        }
        s
    } else {
        let mut s = write_u64(n / 10);
        crate::lexer::push_char(&mut s, c);
        s
    }
}

/// Renders an integer in decimal, with a leading `-` when negative.  The
/// result is exactly [`int_to_dec`], which the lexer reads back to the same
/// integer.
pub fn write_integer(integer: &i64) -> (r: String)
    ensures
        r@ == int_to_dec(*integer as int),
{
    let i = *integer;
    if i < 0 {
        let mag: u64 = if i == i64::MIN {
            9223372036854775808u64
        } else {
            (-i) as u64
        };
        assert(mag as int == -(i as int));
        let digits = write_u64(mag);
        let mut s = String::new();
        crate::lexer::push_char(&mut s, '-');
        let r = s.concat(digits.as_str());
        proof {
            assert(r@ =~= seq!['-'] + dec_digits(mag as int));
        }
        r
    } else {
        write_u64(i as u64)
    }
}

/// The escape sequence (or the character itself) a string character renders
/// as.
pub open spec fn escape_char(c: char) -> Seq<char> {
    if c == '\\' {
        seq!['\\', '\\']
    } else if c == '"' {
        seq!['\\', '"']
    } else if c == '\n' {
        seq!['\\', 'n']
    } else if c == '\r' {
        seq!['\\', 'r']
    } else if c == '\t' {
        seq!['\\', 't']
    } else {
        seq![c]
    }
}

/// The escaped body of a string literal.
pub open spec fn escape_str(s: Seq<char>) -> Seq<char>
    decreases s.len(),
{
    if s.len() == 0 {
        Seq::empty()
    } else {
        escape_char(s[0]) + escape_str(s.drop_first())
    }
}

/// A string value rendered as a quoted, escaped literal.
pub open spec fn write_string_model(s: Seq<char>) -> Seq<char> {
    seq!['"'] + escape_str(s) + seq!['"']
}

/// The escaped body grows by appending, character by character.
proof fn lemma_escape_str_push(s: Seq<char>, c: char)
    ensures
        escape_str(s.push(c)) == escape_str(s) + escape_char(c),
    decreases s.len(),
{
    if s.len() == 0 {
        assert(s.push(c).drop_first() =~= Seq::<char>::empty());
        assert(escape_str(Seq::<char>::empty()) =~= Seq::<char>::empty());
        assert(escape_str(s.push(c)) == escape_char(s.push(c)[0]) + escape_str(
            s.push(c).drop_first(),
        ));
        assert(escape_str(s.push(c)) =~= escape_char(c));
        assert(escape_str(s) + escape_char(c) =~= escape_char(c));
    } else {
        assert(s.push(c).drop_first() =~= s.drop_first().push(c));
        lemma_escape_str_push(s.drop_first(), c);
        assert(escape_str(s.push(c)) == escape_char(s[0]) + (escape_str(s.drop_first())
            + escape_char(c)));
        assert(escape_char(s[0]) + (escape_str(s.drop_first()) + escape_char(c)) =~= (escape_char(
            s[0],
        ) + escape_str(s.drop_first())) + escape_char(c));
    }
}

/// Renders a string value as a quoted literal with the fixed escape table:
/// backslash, quote, newline, carriage return and tab are escaped, all other
/// characters pass through.  The result is exactly [`write_string_model`].
pub fn write_string(string: &str) -> (r: String)
    ensures
        r@ == write_string_model(string@),
{
    let cs = crate::lexer::str_chars(string);
    let mut out = String::new();
    crate::lexer::push_char(&mut out, '"');
    let mut i: usize = 0;
    while i < cs.len()
        invariant
            cs@ == string@,
            i <= cs@.len(),
            out@ == seq!['"'] + escape_str(cs@.subrange(0, i as int)),
        decreases cs@.len() - i,
    {
        let c = cs[i];
        let ghost pre = cs@.subrange(0, i as int);
        if c == '\\' {
            crate::lexer::push_char(&mut out, '\\');
            crate::lexer::push_char(&mut out, '\\');
        } else if c == '"' {
            crate::lexer::push_char(&mut out, '\\');
            crate::lexer::push_char(&mut out, '"');
        } else if c == '\n' {
            crate::lexer::push_char(&mut out, '\\');
            crate::lexer::push_char(&mut out, 'n');
        } else if c == '\r' {
            crate::lexer::push_char(&mut out, '\\');
            crate::lexer::push_char(&mut out, 'r');
        } else if c == '\t' {
            crate::lexer::push_char(&mut out, '\\');
            crate::lexer::push_char(&mut out, 't');
        } else {
            crate::lexer::push_char(&mut out, c);
        }
        proof {
            lemma_escape_str_push(pre, c);
            assert(cs@.subrange(0, i + 1 as int) =~= pre.push(c));
            assert(out@ =~= seq!['"'] + escape_str(cs@.subrange(0, i + 1 as int)));
        }
        i = i + 1;
    }
    crate::lexer::push_char(&mut out, '"');
    proof {
        assert(cs@.subrange(0, cs@.len() as int) =~= cs@);
        assert(out@ =~= write_string_model(string@));
    }
    out
}

/// The rendering of one value.
pub open spec fn render_value<T>(v: ValueV<T>) -> Seq<char>
    decreases v, 1int,
{
    match v {
        ValueV::Boolean(b) => if b {
            "true"@
        } else {
            "false"@
        },
        ValueV::Int(n) => int_to_dec(n as int),
        ValueV::String(s) => write_string_model(s),
        ValueV::Nothing => "nothing"@,
        ValueV::Lambda(_p, _i, _o, _b) => "[lambda]"@,
        ValueV::List(vs) => "["@ + render_items(vs) + "]"@,
        ValueV::Tuple(vs) => "'("@ + render_items(vs) + ")"@,
        ValueV::SetOf(vs) => "#("@ + render_items(vs) + ")"@,
        ValueV::Record(fs) => if fs.len() == 0 {
            "{}"@
        } else {
            "("@ + render_fields(fs) + ")"@
        },
        ValueV::HostValue(_t) => "[host value]"@,
    }
}

/// The renderings of a value sequence, separated by single spaces.
pub open spec fn render_items<T>(vs: Seq<ValueV<T>>) -> Seq<char>
    decreases vs, 0int,
{
    if vs.len() == 0 {
        Seq::empty()
    } else if vs.len() == 1 {
        render_value(vs[0])
    } else {
        render_value(vs[0]) + " "@ + render_items(vs.drop_first())
    }
}

/// The renderings of record fields, `name: value`, separated by single
/// spaces.
pub open spec fn render_fields<T>(fs: Seq<(Seq<char>, ValueV<T>)>) -> Seq<char>
    decreases fs, 0int,
{
    if fs.len() == 0 {
        Seq::empty()
    } else if fs.len() == 1 {
        fs[0].0 + ": "@ + render_value(fs[0].1)
    } else {
        fs[0].0 + ": "@ + render_value(fs[0].1) + " "@ + render_fields(fs.drop_first())
    }
}

/// Renders the members of a list, tuple or set between the given brackets.
pub fn write_list_or_tuple_wander_value<T>(
    open_text: &str,
    close_text: &str,
    contents: &Vec<WanderValue<T>>,
) -> (r: String)
    ensures
        r@ == open_text@ + render_items(values_view(contents@)) + close_text@,
    decreases *contents, contents@.len() + 1int,
{
    let mut out = String::new();
    out.append(open_text);
    let body = write_items(contents, 0);
    out.append(body.as_str());
    out.append(close_text);
    proof {
        lemma_values_view_index(contents@);
        assert(values_view(contents@).skip(0) =~= values_view(contents@));
        assert(out@ =~= open_text@ + render_items(values_view(contents@)) + close_text@);
    }
    out
}

/// Renders the members of a value vector from `idx` on.
fn write_items<T>(contents: &Vec<WanderValue<T>>, idx: usize) -> (r: String)
    requires
        idx <= contents@.len(),
    ensures
        r@ == render_items(values_view(contents@).skip(idx as int)),
    decreases *contents, contents@.len() - idx,
{
    proof {
        lemma_values_view_index(contents@);
    }
    let ghost tail = values_view(contents@).skip(idx as int);
    if idx >= contents.len() {
        proof {
            assert(tail =~= Seq::empty());
        }
        String::new()
    } else {
        proof {
            assert(decreases_to!(*contents => contents@[idx as int]));
            assert(tail[0] == value_view(contents@[idx as int]));
        }
        let head = write_value(&contents[idx]);
        if idx + 1 >= contents.len() {
            proof {
                assert(tail.len() == 1);
            }
            head
        } else {
            let mut out = head;
            out.append(" ");
            let rest = write_items(contents, idx + 1);
            out.append(rest.as_str());
            proof {
                assert(values_view(contents@).skip(idx + 1) =~= tail.drop_first());
                assert(out@ =~= render_items(tail));
            }
            out
        }
    }
}

/// Renders the members of a set.
pub fn write_set<T>(contents: &Vec<WanderValue<T>>) -> (r: String)
    ensures
        r@ == "#("@ + render_items(values_view(contents@)) + ")"@,
    decreases *contents, contents@.len() + 2int,
{
    write_list_or_tuple_wander_value("#(", ")", contents)
}

/// Renders the fields of a record.
pub fn write_record<T>(contents: &Vec<(String, WanderValue<T>)>) -> (r: String)
    ensures
        r@ == (if contents@.len() == 0 {
            "{}"@
        } else {
            "("@ + render_fields(vfields_view(contents@)) + ")"@
        }),
    decreases *contents, contents@.len() + 1int,
{
    if contents.len() == 0 {
        return "{}".to_owned();
    }
    let mut out = String::new();
    out.append("(");
    let body = write_field_items(contents, 0);
    out.append(body.as_str());
    out.append(")");
    proof {
        lemma_vfields_view_index(contents@);
        assert(vfields_view(contents@).skip(0) =~= vfields_view(contents@));
        assert(out@ =~= "("@ + render_fields(vfields_view(contents@)) + ")"@);
    }
    out
}

/// Renders the fields of a record from `idx` on.
fn write_field_items<T>(contents: &Vec<(String, WanderValue<T>)>, idx: usize) -> (r: String)
    requires
        idx <= contents@.len(),
    ensures
        r@ == render_fields(vfields_view(contents@).skip(idx as int)),
    decreases *contents, contents@.len() - idx,
{
    proof {
        lemma_vfields_view_index(contents@);
    }
    let ghost tail = vfields_view(contents@).skip(idx as int);
    if idx >= contents.len() {
        proof {
            assert(tail =~= Seq::empty());
        }
        String::new()
    } else {
        proof {
            assert(decreases_to!(*contents => contents@[idx as int].1));
            assert(tail[0] == vfields_view(contents@)[idx as int]);
        }
        let mut out = String::new();
        out.append(contents[idx].0.as_str());
        out.append(": ");
        let v = write_value(&contents[idx].1);
        out.append(v.as_str());
        if idx + 1 >= contents.len() {
            proof {
                assert(tail.len() == 1);
                assert(out@ =~= render_fields(tail));
            }
            out
        } else {
            out.append(" ");
            let rest = write_field_items(contents, idx + 1);
            out.append(rest.as_str());
            proof {
                assert(vfields_view(contents@).skip(idx + 1) =~= tail.drop_first());
                assert(out@ =~= render_fields(tail));
            }
            out
        }
    }
}

/// Renders a value as source-like text: booleans, integers and strings as
/// literals that read back to the same value, `nothing` as its keyword,
/// lists as `[a b]`, tuples as `'(a b)`, sets as `#(a b)`, records as
/// `(name: value ...)`, lambdas and host payloads as fixed placeholders.
/// The result is exactly [`render_value`] on the view.
pub fn write_value<T>(value: &WanderValue<T>) -> (r: String)
    ensures
        r@ == render_value(value_view(*value)),
    decreases *value, 1int,
{
    match value {
        WanderValue::Boolean(b) => if *b {
            "true".to_owned()
        } else {
            "false".to_owned()
        },
        WanderValue::Int(n) => write_integer(n),
        WanderValue::String(s) => write_string(s.as_str()),
        WanderValue::Nothing => "nothing".to_owned(),
        WanderValue::Lambda(_p, _i, _o, _b) => "[lambda]".to_owned(),
        WanderValue::List(vs) => write_list_or_tuple_wander_value("[", "]", vs),
        WanderValue::Tuple(vs) => write_list_or_tuple_wander_value("'(", ")", vs),
        WanderValue::SetOf(vs) => write_set(vs),
        WanderValue::Record(fs) => write_record(fs),
        WanderValue::HostValue(_hv) => "[host value]".to_owned(),
    }
}

} // verus!
