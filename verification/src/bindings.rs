//! The evaluation environment: a stack of lexical scopes plus the host
//! function and token transformer registries.
//!
//! Scopes are pushed and popped in strict LIFO order; name resolution walks
//! the stack innermost first.  The registries are append-only after
//! registration.  Every operation is pinned to a model over
//! [`BindingsV`], the mathematical view of the environment.

use vstd::prelude::*;

verus! {

use crate::{HostBindingV, HostFunction, HostFunctionBinding, clone_binding};
use crate::lexer::TokenTransformer;
use crate::parser::{Element, ElementV};
use crate::values::{ValueV, WanderType, WanderValue, clone_value, value_view, vfields_view,
    lemma_vfields_view_index};
use crate::hfparams_view;

/// The environment a script is executed in: the scope stack (outermost
/// first, innermost last), the host function registry, and the token
/// transformer registry.  `F` is the host function type and `X` the token
/// transformer type the embedding supplies.
pub struct Bindings<T, F, X> {
    token_transformers: Vec<(String, X)>,
    host_functions: Vec<(String, HostFunctionBinding, F)>,
    scopes: Vec<Vec<(String, WanderValue<T>)>>,
}

/// The mathematical view of a [`Bindings`] environment.
pub struct BindingsV<T, F, X> {
    /// Registered token transformers, in registration order.
    pub transformers: Seq<(Seq<char>, X)>,
    /// Registered host functions with their metadata, in registration order.
    pub hosts: Seq<(Seq<char>, HostBindingV, F)>,
    /// The scope stack, outermost first; each scope is a sequence of
    /// name-value entries, later entries shadowing earlier ones.
    pub scopes: Seq<Seq<(Seq<char>, ValueV<T>)>>,
}

/// The views of the scope stack.
pub open spec fn scopes_view<T>(ss: Seq<Vec<(String, WanderValue<T>)>>) -> Seq<
    Seq<(Seq<char>, ValueV<T>)>,
>
    decreases ss,
{
    if ss.len() == 0 {
        Seq::empty()
    } else {
        scopes_view(ss.drop_last()).push(vfields_view(ss.last()@))
    }
}

/// Indexing into the view of the scope stack.
pub broadcast proof fn lemma_scopes_view_index<T>(ss: Seq<Vec<(String, WanderValue<T>)>>)
    ensures
        (#[trigger] scopes_view(ss)).len() == ss.len(),
        forall|i: int| 0 <= i < ss.len() ==> scopes_view(ss)[i] == vfields_view(ss[i]@),
    decreases ss,
{
    if ss.len() > 0 {
        lemma_scopes_view_index(ss.drop_last());
    }
}

/// The views of the host registry.
pub open spec fn hosts_view<F>(hs: Seq<(String, HostFunctionBinding, F)>) -> Seq<
    (Seq<char>, HostBindingV, F),
>
    decreases hs,
{
    if hs.len() == 0 {
        Seq::empty()
    } else {
        hosts_view(hs.drop_last()).push((hs.last().0@, hs.last().1@, hs.last().2))
    }
}

/// Indexing into the view of the host registry.
pub broadcast proof fn lemma_hosts_view_index<F>(hs: Seq<(String, HostFunctionBinding, F)>)
    ensures
        (#[trigger] hosts_view(hs)).len() == hs.len(),
        forall|i: int|
            0 <= i < hs.len() ==> hosts_view(hs)[i] == (hs[i].0@, hs[i].1@, hs[i].2),
    decreases hs,
{
    if hs.len() > 0 {
        lemma_hosts_view_index(hs.drop_last());
    }
}

/// The views of the transformer registry.
pub open spec fn transformers_view<X>(xs: Seq<(String, X)>) -> Seq<(Seq<char>, X)>
    decreases xs,
{
    if xs.len() == 0 {
        Seq::empty()
    } else {
        transformers_view(xs.drop_last()).push((xs.last().0@, xs.last().1))
    }
}

/// Indexing into the view of the transformer registry.
pub broadcast proof fn lemma_transformers_view_index<X>(xs: Seq<(String, X)>)
    ensures
        (#[trigger] transformers_view(xs)).len() == xs.len(),
        forall|i: int| 0 <= i < xs.len() ==> transformers_view(xs)[i] == (xs[i].0@, xs[i].1),
    decreases xs,
{
    if xs.len() > 0 {
        lemma_transformers_view_index(xs.drop_last());
    }
}

impl<T, F, X> View for Bindings<T, F, X> {
    type V = BindingsV<T, F, X>;

    closed spec fn view(&self) -> BindingsV<T, F, X> {
        BindingsV {
            transformers: transformers_view(self.token_transformers@),
            hosts: hosts_view(self.host_functions@),
            scopes: scopes_view(self.scopes@),
        }
    }
}

// ---------------------------------------------------------------------------
// Environment model
// ---------------------------------------------------------------------------

/// The empty environment: one empty scope, no registrations.
pub open spec fn empty_env<T, F, X>() -> BindingsV<T, F, X> {
    BindingsV {
        transformers: Seq::empty(),
        hosts: Seq::empty(),
        scopes: seq![Seq::empty()],
    }
}

/// The environment with a fresh innermost scope.
pub open spec fn push_scope<T, F, X>(env: BindingsV<T, F, X>) -> BindingsV<T, F, X> {
    BindingsV { scopes: env.scopes.push(Seq::empty()), ..env }
}

/// The environment with the innermost scope removed; the outermost scope is
/// never removed.
pub open spec fn pop_scope<T, F, X>(env: BindingsV<T, F, X>) -> BindingsV<T, F, X> {
    if env.scopes.len() > 1 {
        BindingsV { scopes: env.scopes.drop_last(), ..env }
    } else {
        env
    }
}

/// The environment with `name` bound to `v` in the innermost scope.
pub open spec fn env_bind<T, F, X>(
    env: BindingsV<T, F, X>,
    name: Seq<char>,
    v: ValueV<T>,
) -> BindingsV<T, F, X>
    recommends
        env.scopes.len() >= 1,
{
    let last = env.scopes.len() - 1;
    BindingsV { scopes: env.scopes.update(last, env.scopes[last].push((name, v))), ..env }
}

/// Looks a name up in one scope: the latest binding wins.
pub open spec fn scope_lookup<T>(scope: Seq<(Seq<char>, ValueV<T>)>, name: Seq<char>) -> Option<
    ValueV<T>,
>
    decreases scope,
{
    if scope.len() == 0 {
        None
    } else if scope.last().0 == name {
        Some(scope.last().1)
    } else {
        scope_lookup(scope.drop_last(), name)
    }
}

/// Looks a name up in the scope stack, innermost first.
pub open spec fn env_lookup<T>(ss: Seq<Seq<(Seq<char>, ValueV<T>)>>, name: Seq<char>) -> Option<
    ValueV<T>,
>
    decreases ss,
{
    if ss.len() == 0 {
        None
    } else {
        match scope_lookup(ss.last(), name) {
            Some(v) => Some(v),
            None => env_lookup(ss.drop_last(), name),
        }
    }
}

/// Looks a host function up by name: the latest registration wins.
pub open spec fn host_lookup<F>(hs: Seq<(Seq<char>, HostBindingV, F)>, name: Seq<char>) -> Option<
    (HostBindingV, F),
>
    decreases hs,
{
    if hs.len() == 0 {
        None
    } else if hs.last().0 == name {
        Some((hs.last().1, hs.last().2))
    } else {
        host_lookup(hs.drop_last(), name)
    }
}

/// Looks a token transformer up by name: the latest registration wins.
pub open spec fn transformer_lookup<X>(xs: Seq<(Seq<char>, X)>, name: Seq<char>) -> Option<X>
    decreases xs,
{
    if xs.len() == 0 {
        None
    } else if xs.last().0 == name {
        Some(xs.last().1)
    } else {
        transformer_lookup(xs.drop_last(), name)
    }
}

/// The body of the curried wrapper a host function is bound under: nested
/// single-parameter lambdas around a direct host function reference.
pub open spec fn wrapper_body(name: Seq<char>, params: Seq<(Seq<char>, WanderType)>) -> ElementV
    decreases params.len(),
{
    if params.len() == 0 {
        ElementV::HostFunction(name)
    } else {
        ElementV::Lambda(
            params[0].0,
            None,
            None,
            Box::new(wrapper_body(name, params.drop_first())),
        )
    }
}

/// The curried wrapper value bound for a host function with at least one
/// parameter.
pub open spec fn host_wrapper<T>(
    name: Seq<char>,
    params: Seq<(Seq<char>, WanderType)>,
) -> ValueV<T>
    recommends
        params.len() >= 1,
{
    ValueV::Lambda(params[0].0, None, None, Box::new(wrapper_body(name, params.drop_first())))
}

/// The environment after registering a host function with the given
/// metadata: the registry gains the entry, and a function with parameters is
/// additionally bound in the outermost scope under its qualified name as a
/// curried wrapper, so scripts can refer to it like any other value.
pub open spec fn bind_host_model<T, F, X>(
    env: BindingsV<T, F, X>,
    bv: HostBindingV,
    f: F,
) -> BindingsV<T, F, X>
    recommends
        env.scopes.len() >= 1,
{
    let with_host = BindingsV { hosts: env.hosts.push((bv.name, bv, f)), ..env };
    if bv.parameters.len() > 0 {
        BindingsV {
            scopes: with_host.scopes.update(
                0,
                with_host.scopes[0].push((bv.name, host_wrapper::<T>(bv.name, bv.parameters))),
            ),
            ..with_host
        }
    } else {
        with_host
    }
}

// ---------------------------------------------------------------------------
// Executable environment
// ---------------------------------------------------------------------------

impl<T, F, X> Bindings<T, F, X> {
    /// Well-formedness: the scope stack never loses its outermost scope.
    /// [`Bindings::new`] establishes it and every method preserves it.
    pub open spec fn wf(&self) -> bool {
        self@.scopes.len() >= 1
    }

    /// Creates a new, empty environment with one (outermost) scope.
    pub fn new() -> (r: Bindings<T, F, X>)
        ensures
            r@ == empty_env::<T, F, X>(),
            r.wf(),
    {
        let r = Bindings {
            token_transformers: Vec::new(),
            host_functions: Vec::new(),
            scopes: vec![Vec::new()],
        };
        proof {
            assert(r.scopes@.len() == 1);
            assert(r.scopes@.drop_last() =~= Seq::<Vec<(String, WanderValue<T>)>>::empty());
            assert(scopes_view(Seq::<Vec<(String, WanderValue<T>)>>::empty()) =~= Seq::<
                Seq<(Seq<char>, ValueV<T>)>,
            >::empty());
            assert(vfields_view(r.scopes@.last()@) =~= Seq::<(Seq<char>, ValueV<T>)>::empty());
            assert(r@.scopes =~= seq![Seq::<(Seq<char>, ValueV<T>)>::empty()]);
            assert(r@.transformers =~= Seq::<(Seq<char>, X)>::empty());
            assert(r@.hosts =~= Seq::<(Seq<char>, HostBindingV, F)>::empty());
            assert(r@ == empty_env::<T, F, X>());
        }
        r
    }

    /// Pushes a fresh innermost scope.
    pub fn add_scope(&mut self)
        ensures
            final(self)@ == push_scope(old(self)@),
            final(self).wf(),
    {
        let ghost old_scopes = self.scopes@;
        self.scopes.push(Vec::new());
        proof {
            lemma_scopes_view_index(old_scopes);
            lemma_scopes_view_index(self.scopes@);
            assert(self.scopes@.drop_last() =~= old_scopes);
            assert(scopes_view(self.scopes@) =~= scopes_view(old_scopes).push(
                Seq::<(Seq<char>, ValueV<T>)>::empty(),
            ));
        }
    }

    /// Pops the innermost scope.  The outermost scope always stays, so the
    /// host wrappers bound at registration survive.
    pub fn remove_scope(&mut self)
        requires
            old(self).wf(),
        ensures
            final(self)@ == pop_scope(old(self)@),
            final(self).wf(),
    {
        proof {
            lemma_scopes_view_index(self.scopes@);
        }
        if self.scopes.len() > 1 {
            let ghost old_scopes = self.scopes@;
            let _ = self.scopes.pop();
            proof {
                lemma_scopes_view_index(old_scopes);
                lemma_scopes_view_index(self.scopes@);
                assert(self.scopes@ =~= old_scopes.drop_last());
                assert(scopes_view(self.scopes@) =~= scopes_view(old_scopes).drop_last());
            }
        }
    }

    /// How many scopes stand on the stack; at least one.
    pub fn scope_count(&self) -> (r: usize)
        requires
            self.wf(),
        ensures
            r == self@.scopes.len(),
            r >= 1,
    {
        proof {
            lemma_scopes_view_index(self.scopes@);
        }
        self.scopes.len()
    }

    /// Binds a value under a name in the innermost scope, shadowing any
    /// earlier binding of that name.
    pub fn bind(&mut self, name: String, value: WanderValue<T>)
        requires
            old(self).wf(),
        ensures
            final(self)@ == env_bind(old(self)@, name@, value_view(value)),
            final(self).wf(),
    {
        proof {
            lemma_scopes_view_index(self.scopes@);
        }
        let ghost old_scopes = self.scopes@;
        let mut top = self.scopes.pop().unwrap();
        let ghost old_top = top@;
        top.push((name, value));
        proof {
            lemma_vfields_view_index(old_top);
            lemma_vfields_view_index(top@);
            assert(top@.drop_last() =~= old_top);
            assert(vfields_view(top@) =~= vfields_view(old_top).push((name@, value_view(value))));
        }
        self.scopes.push(top);
        proof {
            lemma_scopes_view_index(old_scopes);
            lemma_scopes_view_index(self.scopes@);
            let lv = old_scopes.len() - 1;
            assert(self.scopes@.len() == old_scopes.len());
            assert(forall|k: int|
                0 <= k < lv ==> #[trigger] self.scopes@[k] == old_scopes[k]);
            assert(scopes_view(self.scopes@) =~= scopes_view(old_scopes).update(
                lv,
                scopes_view(old_scopes)[lv].push((name@, value_view(value))),
            ));
        }
    }

    /// Reads the value bound under a name, walking the scope stack innermost
    /// first; the result is exactly what [`env_lookup`] finds.
    pub fn read(&self, name: &String) -> (r: Option<WanderValue<T>>)
        ensures
            match r {
                Some(v) => env_lookup(self@.scopes, name@) == Some(value_view(v)),
                None => env_lookup(self@.scopes, name@) is None,
            },
    {
        proof {
            lemma_scopes_view_index(self.scopes@);
            assert(self@.scopes.subrange(0, self.scopes@.len() as int) =~= self@.scopes);
        }
        let mut i: usize = self.scopes.len();
        while i > 0
            invariant
                i <= self.scopes@.len(),
                env_lookup(self@.scopes, name@) == env_lookup(
                    self@.scopes.subrange(0, i as int),
                    name@,
                ),
                self@.scopes.len() == self.scopes@.len(),
            decreases i,
        {
            proof {
                lemma_scopes_view_index(self.scopes@);
            }
            let found = scope_read(&self.scopes[i - 1], name);
            proof {
                assert(self@.scopes.subrange(0, i as int).last() == self@.scopes[i - 1]);
                assert(self@.scopes.subrange(0, i as int).drop_last() =~= self@.scopes.subrange(
                    0,
                    i - 1,
                ));
            }
            match found {
                Some(v) => {
                    return Some(v);
                },
                None => {
                    i = i - 1;
                },
            }
        }
        proof {
            assert(self@.scopes.subrange(0, 0) =~= Seq::<Seq<(Seq<char>, ValueV<T>)>>::empty());
        }
        None
    }

    /// Registers a host function under explicitly supplied metadata.  The
    /// registry gains the entry; a function with parameters is also bound in
    /// the outermost scope as a curried wrapper, so a script can apply it
    /// and partially apply it like a lambda.
    pub fn bind_host_function_with(&mut self, binding: HostFunctionBinding, function: F)
        requires
            old(self).wf(),
        ensures
            final(self)@ == bind_host_model(old(self)@, binding@, function),
            final(self).wf(),
    {
        proof {
            lemma_scopes_view_index(self.scopes@);
        }
        let name = binding.name.clone();
        let ghost bv = binding@;
        let has_params = binding.parameters.len() > 0;
        let wrapper = if has_params {
            let body = make_wrapper_body(&binding.name, &binding.parameters, 1);
            let first = binding.parameters[0].0.clone();
            proof {
                broadcast use crate::lemma_hfparams_view_index;

                assert(hfparams_view(binding.parameters@).skip(1) =~= bv.parameters.drop_first());
            }
            Some(WanderValue::Lambda(first, None, None, Box::new(body)))
        } else {
            None
        };
        let ghost old_hosts = self.host_functions@;
        self.host_functions.push((name, binding, function));
        proof {
            lemma_hosts_view_index(old_hosts);
            lemma_hosts_view_index(self.host_functions@);
            assert(self.host_functions@.drop_last() =~= old_hosts);
            assert(hosts_view(self.host_functions@) =~= hosts_view(old_hosts).push(
                (bv.name, bv, self.host_functions@.last().2),
            ));
        }
        match wrapper {
            Some(w) => {
                proof {
                    assert(value_view(w) == host_wrapper::<T>(bv.name, bv.parameters));
                }
                let ghost old_scopes = self.scopes@;
                let mut s0 = self.scopes.remove(0);
                let ghost old_s0 = s0@;
                let nm2 = self.host_functions[self.host_functions.len() - 1].0.clone();
                s0.push((nm2, w));
                proof {
                    lemma_vfields_view_index(old_s0);
                    lemma_vfields_view_index(s0@);
                    assert(s0@.drop_last() =~= old_s0);
                    assert(vfields_view(s0@) =~= vfields_view(old_s0).push(
                        (bv.name, host_wrapper::<T>(bv.name, bv.parameters)),
                    ));
                }
                self.scopes.insert(0, s0);
                proof {
                    lemma_scopes_view_index(old_scopes);
                    lemma_scopes_view_index(self.scopes@);
                    assert(forall|k: int|
                        1 <= k < old_scopes.len() ==> #[trigger] self.scopes@[k] == old_scopes[k]);
                    assert(scopes_view(self.scopes@) =~= scopes_view(old_scopes).update(
                        0,
                        scopes_view(old_scopes)[0].push(
                            (bv.name, host_wrapper::<T>(bv.name, bv.parameters)),
                        ),
                    ));
                }
            },
            None => {},
        }
    }

    /// Reads a registered host function by name: the latest registration
    /// under that name.
    pub fn read_host_function(&self, name: &String) -> (r: Option<&F>)
        ensures
            match r {
                Some(f) => host_lookup(self@.hosts, name@) matches Some(p) && p.1 == *f,
                None => host_lookup(self@.hosts, name@) is None,
            },
    {
        match self.host_entry(name) {
            Some(i) => Some(&self.host_functions[i].2),
            None => None,
        }
    }

    /// Reads the metadata of a registered host function by name.
    pub fn read_host_binding(&self, name: &String) -> (r: Option<&HostFunctionBinding>)
        ensures
            match r {
                Some(b) => host_lookup(self@.hosts, name@) matches Some(p) && p.0 == b@,
                None => host_lookup(self@.hosts, name@) is None,
            },
    {
        match self.host_entry(name) {
            Some(i) => Some(&self.host_functions[i].1),
            None => None,
        }
    }

    /// Finds the index of the latest host registration under a name.
    fn host_entry(&self, name: &String) -> (r: Option<usize>)
        ensures
            match r {
                Some(i) => i < self.host_functions@.len() && host_lookup(self@.hosts, name@)
                    == Some(
                    (self.host_functions@[i as int].1@, self.host_functions@[i as int].2),
                ) && self.host_functions@[i as int].0@ == name@,
                None => host_lookup(self@.hosts, name@) is None,
            },
    {
        proof {
            lemma_hosts_view_index(self.host_functions@);
            assert(self.host_functions@.subrange(0, self.host_functions@.len() as int)
                =~= self.host_functions@);
        }
        let mut i: usize = self.host_functions.len();
        while i > 0
            invariant
                i <= self.host_functions@.len(),
                host_lookup(self@.hosts, name@) == host_lookup(
                    hosts_view(self.host_functions@.subrange(0, i as int)),
                    name@,
                ),
            decreases i,
        {
            proof {
                lemma_hosts_view_index(self.host_functions@);
                lemma_hosts_view_index(self.host_functions@.subrange(0, i as int));
                lemma_hosts_view_index(self.host_functions@.subrange(0, i - 1));
                assert(hosts_view(self.host_functions@.subrange(0, i as int)).drop_last()
                    =~= hosts_view(self.host_functions@.subrange(0, i - 1)));
            }
            if self.host_functions[i - 1].0.eq(name) {
                return Some(i - 1);
            }
            i = i - 1;
        }
        proof {
            assert(hosts_view(self.host_functions@.subrange(0, 0)) =~= Seq::<
                (Seq<char>, HostBindingV, F),
            >::empty());
        }
        None
    }

    /// Registers a token transformer under `module.name`.
    pub fn bind_token_transformer(&mut self, module: String, name: String, transformer: X)
        ensures
            final(self)@ == (BindingsV {
                transformers: old(self)@.transformers.push(
                    (module@ + "."@ + name@, transformer),
                ),
                ..old(self)@
            }),
    {
        let full_name = module.concat(".").concat(name.as_str());
        let ghost old_xs = self.token_transformers@;
        self.token_transformers.push((full_name, transformer));
        proof {
            lemma_transformers_view_index(old_xs);
            lemma_transformers_view_index(self.token_transformers@);
            assert(self.token_transformers@.drop_last() =~= old_xs);
            assert(transformers_view(self.token_transformers@) =~= transformers_view(old_xs).push(
                (module@ + "."@ + name@, self.token_transformers@.last().1),
            ));
        }
    }

    /// Reads a registered token transformer by qualified name.
    pub fn read_token_transformer(&self, name: &String) -> (r: Option<&X>)
        ensures
            match r {
                Some(x) => transformer_lookup(self@.transformers, name@) == Some(*x),
                None => transformer_lookup(self@.transformers, name@) is None,
            },
    {
        proof {
            lemma_transformers_view_index(self.token_transformers@);
            assert(self.token_transformers@.subrange(0, self.token_transformers@.len() as int)
                =~= self.token_transformers@);
        }
        let mut i: usize = self.token_transformers.len();
        while i > 0
            invariant
                i <= self.token_transformers@.len(),
                transformer_lookup(self@.transformers, name@) == transformer_lookup(
                    transformers_view(self.token_transformers@.subrange(0, i as int)),
                    name@,
                ),
            decreases i,
        {
            proof {
                lemma_transformers_view_index(self.token_transformers@);
                lemma_transformers_view_index(self.token_transformers@.subrange(0, i as int));
                lemma_transformers_view_index(self.token_transformers@.subrange(0, i - 1));
                assert(transformers_view(self.token_transformers@.subrange(0, i as int)).drop_last()
                    =~= transformers_view(self.token_transformers@.subrange(0, i - 1)));
            }
            if self.token_transformers[i - 1].0.eq(name) {
                return Some(&self.token_transformers[i - 1].1);
            }
            i = i - 1;
        }
        proof {
            assert(transformers_view(self.token_transformers@.subrange(0, 0)) =~= Seq::<
                (Seq<char>, X),
            >::empty());
        }
        None
    }

    /// How many token transformers are registered.
    pub fn transformer_count(&self) -> (r: usize)
        ensures
            r == self@.transformers.len(),
    {
        proof {
            lemma_transformers_view_index(self.token_transformers@);
        }
        self.token_transformers.len()
    }

    /// The transformer at a registration position.
    pub fn transformer_at(&self, i: usize) -> (r: &X)
        requires
            i < self@.transformers.len(),
        ensures
            *r == self@.transformers[i as int].1,
    {
        proof {
            lemma_transformers_view_index(self.token_transformers@);
        }
        &self.token_transformers[i].1
    }

    /// All names the environment can resolve: the registered host function
    /// names and every name bound in any scope, each reported once.
    pub fn bound_names(&self) -> (r: Vec<String>)
        ensures
            forall|n: Seq<char>| name_listed(r@, n) <==> name_bound(self@, n),
            forall|k1: int, k2: int|
                0 <= k1 < k2 < r@.len() ==> (#[trigger] r@[k1])@ != (#[trigger] r@[k2])@,
    {
        proof {
            lemma_hosts_view_index(self.host_functions@);
            lemma_scopes_view_index(self.scopes@);
        }
        let mut out: Vec<String> = Vec::new();
        let mut i: usize = 0;
        while i < self.host_functions.len()
            invariant
                i <= self.host_functions@.len(),
                self@.hosts.len() == self.host_functions@.len(),
                forall|n: Seq<char>|
                    name_listed(out@, n) <==> exists|k: int|
                        0 <= k < i && (#[trigger] self@.hosts[k]).0 == n,
                forall|k1: int, k2: int|
                    0 <= k1 < k2 < out@.len() ==> (#[trigger] out@[k1])@ != (#[trigger] out@[k2])@,
            decreases self.host_functions@.len() - i,
        {
            proof {
                lemma_hosts_view_index(self.host_functions@);
            }
            let nm = &self.host_functions[i].0;
            let ghost nmv = nm@;
            proof {
                assert(self@.hosts[i as int].0 == nmv);
            }
            let present = contains_string(&out, nm);
            let ghost old_out = out@;
            if !present {
                out.push(nm.clone());
            }
            proof {
                if !present {
                    assert(out@ == old_out.push(old_out.push(out@.last()).last()));
                    assert(out@.len() == old_out.len() + 1);
                    assert(forall|k: int| 0 <= k < old_out.len() ==> out@[k] == old_out[k]);
                    assert(out@.last()@ == nmv);
                    assert forall|n: Seq<char>|
                        name_listed(out@, n) <==> (name_listed(old_out, n) || n == nmv) by {
                        if name_listed(out@, n) {
                            let k = choose|k: int| 0 <= k < out@.len() && (#[trigger] out@[k])@ == n;
                            if k < old_out.len() {
                                assert(old_out[k]@ == n);
                            }
                        }
                        if name_listed(old_out, n) {
                            let k = choose|k: int|
                                0 <= k < old_out.len() && (#[trigger] old_out[k])@ == n;
                            assert(out@[k]@ == n);
                        }
                        if n == nmv {
                            assert(out@[old_out.len() as int]@ == n);
                        }
                    }
                    assert forall|k1: int, k2: int|
                        0 <= k1 < k2 < out@.len() implies (#[trigger] out@[k1])@ != (
                    #[trigger] out@[k2])@ by {
                        if k2 == old_out.len() {
                            assert(out@[k1]@ != nmv) by {
                                if out@[k1]@ == nmv {
                                    assert(old_out[k1]@ == nmv);
                                    assert(name_listed(old_out, nmv));
                                }
                            }
                        }
                    }
                }
                assert forall|n: Seq<char>|
                    name_listed(out@, n) <==> exists|k: int|
                        0 <= k < i + 1 && (#[trigger] self@.hosts[k]).0 == n by {
                    if name_listed(out@, n) {
                        if present {
                            let k = choose|k: int|
                                0 <= k < i && (#[trigger] self@.hosts[k]).0 == n;
                            assert(0 <= k < i + 1 && self@.hosts[k].0 == n);
                        } else {
                            if name_listed(old_out, n) {
                                let k = choose|k: int|
                                    0 <= k < i && (#[trigger] self@.hosts[k]).0 == n;
                                assert(0 <= k < i + 1 && self@.hosts[k].0 == n);
                            } else {
                                assert(n == nmv);
                                assert(self@.hosts[i as int].0 == n);
                            }
                        }
                    }
                    if exists|k: int| 0 <= k < i + 1 && (#[trigger] self@.hosts[k]).0 == n {
                        let k = choose|k: int|
                            0 <= k < i + 1 && (#[trigger] self@.hosts[k]).0 == n;
                        if k < i {
                            assert(name_listed(if present { out@ } else { old_out }, n));
                        } else {
                            assert(n == nmv);
                            if present {
                                assert(name_listed(out@, n));
                            }
                        }
                    }
                }
            }
            i = i + 1;
        }
        let mut s: usize = 0;
        while s < self.scopes.len()
            invariant
                s <= self.scopes@.len(),
                self@.scopes.len() == self.scopes@.len(),
                self@.hosts.len() == self.host_functions@.len(),
                forall|n: Seq<char>|
                    name_listed(out@, n) <==> (exists|k: int|
                        0 <= k < self@.hosts.len() && (#[trigger] self@.hosts[k]).0 == n) || (
                    exists|k: int, j: int|
                        0 <= k < s && 0 <= j < self@.scopes[k].len() && (#[trigger] self@.scopes[k][j]).0
                            == n),
                forall|k1: int, k2: int|
                    0 <= k1 < k2 < out@.len() ==> (#[trigger] out@[k1])@ != (#[trigger] out@[k2])@,
            decreases self.scopes@.len() - s,
        {
            proof {
                lemma_scopes_view_index(self.scopes@);
                lemma_vfields_view_index(self.scopes@[s as int]@);
            }
            let scope = &self.scopes[s];
            let mut j: usize = 0;
            while j < scope.len()
                invariant
                    j <= scope@.len(),
                    s < self.scopes@.len(),
                    scope@ == self.scopes@[s as int]@,
                    self@.scopes.len() == self.scopes@.len(),
                    self@.scopes[s as int] == vfields_view(scope@),
                    self@.scopes[s as int].len() == scope@.len(),
                    self@.hosts.len() == self.host_functions@.len(),
                    forall|n: Seq<char>|
                        name_listed(out@, n) <==> (exists|k: int|
                            0 <= k < self@.hosts.len() && (#[trigger] self@.hosts[k]).0 == n) || (
                        exists|k: int, j2: int|
                            0 <= k < s && 0 <= j2 < self@.scopes[k].len() && (#[trigger] self@.scopes[k][j2]).0
                                == n) || (exists|j2: int|
                            0 <= j2 < j && (#[trigger] self@.scopes[s as int][j2]).0 == n),
                    forall|k1: int, k2: int|
                        0 <= k1 < k2 < out@.len() ==> (#[trigger] out@[k1])@ != (#[trigger] out@[k2])@,
                decreases scope@.len() - j,
            {
                proof {
                    lemma_vfields_view_index(scope@);
                }
                let nm = &scope[j].0;
                let ghost nmv = nm@;
                proof {
                    assert(self@.scopes[s as int][j as int].0 == nmv);
                }
                let present = contains_string(&out, nm);
                let ghost old_out = out@;
                if !present {
                    out.push(nm.clone());
                }
                proof {
                    let ghost prev = if present { out@ } else { old_out };
                    if !present {
                        assert(out@.len() == old_out.len() + 1);
                        assert(forall|k: int| 0 <= k < old_out.len() ==> out@[k] == old_out[k]);
                        assert(out@.last()@ == nmv);
                        assert forall|n: Seq<char>|
                            name_listed(out@, n) <==> (name_listed(old_out, n) || n == nmv) by {
                            if name_listed(out@, n) {
                                let k = choose|k: int|
                                    0 <= k < out@.len() && (#[trigger] out@[k])@ == n;
                                if k < old_out.len() {
                                    assert(old_out[k]@ == n);
                                }
                            }
                            if name_listed(old_out, n) {
                                let k = choose|k: int|
                                    0 <= k < old_out.len() && (#[trigger] old_out[k])@ == n;
                                assert(out@[k]@ == n);
                            }
                            if n == nmv {
                                assert(out@[old_out.len() as int]@ == n);
                            }
                        }
                        assert forall|k1: int, k2: int|
                            0 <= k1 < k2 < out@.len() implies (#[trigger] out@[k1])@ != (
                        #[trigger] out@[k2])@ by {
                            if k2 == old_out.len() {
                                assert(out@[k1]@ != nmv) by {
                                    if out@[k1]@ == nmv {
                                        assert(old_out[k1]@ == nmv);
                                        assert(name_listed(old_out, nmv));
                                    }
                                }
                            }
                        }
                    }
                    assert forall|n: Seq<char>|
                        name_listed(out@, n) <==> (exists|k: int|
                            0 <= k < self@.hosts.len() && (#[trigger] self@.hosts[k]).0 == n) || (
                    exists|k: int, j2: int|
                        0 <= k < s && 0 <= j2 < self@.scopes[k].len() && (#[trigger] self@.scopes[k][j2]).0
                            == n) || (exists|j2: int|
                        0 <= j2 < j + 1 && (#[trigger] self@.scopes[s as int][j2]).0 == n) by {
                        if name_listed(out@, n) && !(name_listed(prev, n)) {
                            assert(n == nmv);
                            assert(self@.scopes[s as int][j as int].0 == n);
                        }
                        if name_listed(prev, n) {
                            if present {
                            } else {
                                let k = choose|k: int|
                                    0 <= k < prev.len() && (#[trigger] prev[k])@ == n;
                                assert(out@[k]@ == n);
                            }
                        }
                        if exists|j2: int|
                            0 <= j2 < j + 1 && (#[trigger] self@.scopes[s as int][j2]).0 == n {
                            let j2 = choose|j2: int|
                                0 <= j2 < j + 1 && (#[trigger] self@.scopes[s as int][j2]).0 == n;
                            if j2 == j {
                                assert(n == nmv);
                                if present {
                                    assert(name_listed(out@, n));
                                } else {
                                    assert(out@[old_out.len() as int]@ == n);
                                }
                            }
                        }
                    }
                }
                j = j + 1;
            }
            s = s + 1;
        }
        out
    }

    /// The metadata of every registered host function, in registration
    /// order.
    pub fn environment(&self) -> (r: Vec<HostFunctionBinding>)
        ensures
            r@.len() == self@.hosts.len(),
            forall|i: int| 0 <= i < r@.len() ==> (#[trigger] r@[i])@ == self@.hosts[i].1,
    {
        proof {
            lemma_hosts_view_index(self.host_functions@);
        }
        let mut out: Vec<HostFunctionBinding> = Vec::new();
        let mut i: usize = 0;
        while i < self.host_functions.len()
            invariant
                i <= self.host_functions@.len(),
                self@.hosts.len() == self.host_functions@.len(),
                out@.len() == i,
                forall|k: int| 0 <= k < i ==> (#[trigger] out@[k])@ == self@.hosts[k].1,
            decreases self.host_functions@.len() - i,
        {
            proof {
                lemma_hosts_view_index(self.host_functions@);
            }
            let c = clone_binding(&self.host_functions[i].1);
            let ghost old_out = out@;
            out.push(c);
            proof {
                assert(forall|k: int| 0 <= k < i ==> old_out.push(c)[k] == old_out[k]);
            }
            i = i + 1;
        }
        out
    }
}

/// Whether a name's view occurs in a vector of names.
pub open spec fn name_listed(names: Seq<String>, n: Seq<char>) -> bool {
    exists|k: int| 0 <= k < names.len() && (#[trigger] names[k])@ == n
}

/// Whether the environment can resolve a name: a host function carries it,
/// or some scope binds it.
pub open spec fn name_bound<T, F, X>(env: BindingsV<T, F, X>, n: Seq<char>) -> bool {
    (exists|k: int| 0 <= k < env.hosts.len() && (#[trigger] env.hosts[k]).0 == n) || (exists|
        k: int,
        j: int,
    |
        0 <= k < env.scopes.len() && 0 <= j < env.scopes[k].len() && (#[trigger] env.scopes[k][j]).0
            == n)
}

/// Whether a string with the given view is in the vector.
fn contains_string(v: &Vec<String>, s: &String) -> (r: bool)
    ensures
        r == name_listed(v@, s@),
{
    let mut i: usize = 0;
    while i < v.len()
        invariant
            i <= v@.len(),
            forall|k: int| 0 <= k < i ==> (#[trigger] v@[k])@ != s@,
        decreases v@.len() - i,
    {
        if v[i].eq(s) {
            return true;
        }
        i = i + 1;
    }
    false
}

/// Reads the latest binding of a name in one scope.
fn scope_read<T>(scope: &Vec<(String, WanderValue<T>)>, name: &String) -> (r: Option<
    WanderValue<T>,
>)
    ensures
        match r {
            Some(v) => scope_lookup(vfields_view(scope@), name@) == Some(value_view(v)),
            None => scope_lookup(vfields_view(scope@), name@) is None,
        },
{
    proof {
        lemma_vfields_view_index(scope@);
        assert(scope@.subrange(0, scope@.len() as int) =~= scope@);
    }
    let mut i: usize = scope.len();
    while i > 0
        invariant
            i <= scope@.len(),
            scope_lookup(vfields_view(scope@), name@) == scope_lookup(
                vfields_view(scope@.subrange(0, i as int)),
                name@,
            ),
        decreases i,
    {
        proof {
            lemma_vfields_view_index(scope@);
            lemma_vfields_view_index(scope@.subrange(0, i as int));
            lemma_vfields_view_index(scope@.subrange(0, i - 1));
            assert(vfields_view(scope@.subrange(0, i as int)).drop_last() =~= vfields_view(
                scope@.subrange(0, i - 1),
            ));
        }
        if scope[i - 1].0.eq(name) {
            return Some(clone_value(&scope[i - 1].1));
        }
        i = i - 1;
    }
    proof {
        assert(vfields_view(scope@.subrange(0, 0)) =~= Seq::<(Seq<char>, ValueV<T>)>::empty());
    }
    None
}

/// Builds the wrapper body for a host function's parameters from `idx` on.
fn make_wrapper_body(name: &String, params: &Vec<(String, WanderType)>, idx: usize) -> (r:
    Element)
    requires
        idx <= params@.len(),
    ensures
        crate::parser::element_view(r) == wrapper_body(
            name@,
            hfparams_view(params@).skip(idx as int),
        ),
    decreases params@.len() - idx,
{
    proof {
        broadcast use crate::lemma_hfparams_view_index;

    }
    if idx >= params.len() {
        proof {
            assert(hfparams_view(params@).skip(idx as int) =~= Seq::empty());
        }
        Element::HostFunction(name.clone())
    } else {
        let inner = make_wrapper_body(name, params, idx + 1);
        proof {
            let pv = hfparams_view(params@);
            assert(pv.skip(idx as int).drop_first() =~= pv.skip(idx + 1));
            assert(pv.skip(idx as int)[0] == pv[idx as int]);
        }
        Element::Lambda(params[idx].0.clone(), None, None, Box::new(inner))
    }
}

impl<T, F: HostFunction<T>, X: TokenTransformer> Bindings<T, F, X> {
    /// Registers a host function under the name its own metadata reports.
    pub fn bind_host_function(&mut self, function: F)
        requires
            old(self).wf(),
        ensures
            exists|b: HostFunctionBinding|
                #[trigger] call_ensures(F::binding, (&function,), b) && final(self)@
                    == bind_host_model(old(self)@, b@, function),
            final(self).wf(),
    {
        let b = function.binding();
        self.bind_host_function_with(b, function);
    }
}

} // verus!
