//! Laws of the evaluator, stated against the evaluation relation and proved
//! from the library's own contracts.

use vstd::prelude::*;

verus! {

use vstd::std_specs::cmp::PartialEqSpec;
use crate::bindings::{BindingsV, env_bind, pop_scope, push_scope};
use crate::interpreter::{
    ArgM, ExprV, Q, eval_rel, q_measure, q_rank, rel, rel_witness,
};
use crate::values::ValueV;

/// Scope discipline: evaluation leaves the scope stack exactly as deep as it
/// found it, and never touches the host function or token transformer
/// registries.  Every scope a `let` pushes is popped again on every exit
/// path, so sibling evaluations cannot see each other's declarations.
pub proof fn lemma_scope_discipline<T: PartialEq, F: crate::HostFunction<T>, X>(
    e: ExprV,
    env: BindingsV<T, F, X>,
    fuel: nat,
    out: Result<ValueV<T>, Seq<char>>,
    env2: BindingsV<T, F, X>,
)
    requires
        env.scopes.len() >= 1,
        eval_rel(e, env, fuel, out, env2),
    ensures
        env2.scopes.len() == env.scopes.len(),
        env2.hosts == env.hosts,
        env2.transformers == env.transformers,
{
    lemma_rel_structure(Q::Eval(e, out), env, fuel, env2);
}

/// The induction behind [`lemma_scope_discipline`], over every judgement of
/// the relation.
proof fn lemma_rel_structure<T: PartialEq, F: crate::HostFunction<T>, X>(
    q: Q<T>,
    env: BindingsV<T, F, X>,
    fuel: nat,
    env2: BindingsV<T, F, X>,
)
    requires
        env.scopes.len() >= 1,
        rel(q, env, fuel, env2),
    ensures
        env2.scopes.len() == env.scopes.len(),
        env2.hosts == env.hosts,
        env2.transformers == env.transformers,
    decreases fuel, q_measure(q), q_rank(q),
{
    reveal_with_fuel(rel, 1);
    match q {
        Q::Eval(e, out) => match e {
            ExprV::Let(ds, b) => {
                lemma_rel_structure(Q::LetQ(ds, *b, out), env, fuel, env2);
            },
            ExprV::Conditional(c, t, el) => {
                lemma_rel_structure(Q::CondQ(*c, *t, *el, out), env, fuel, env2);
            },
            ExprV::Application(items) => {
                if items.len() == 1 {
                    crate::interpreter::lemma_xs_size_first(items);
                    lemma_rel_structure(Q::Eval(items[0], out), env, fuel, env2);
                } else if items.len() >= 2 {
                    lemma_rel_structure(Q::CallQ(items, out), env, fuel, env2);
                }
            },
            ExprV::List(items) => {
                lemma_rel_structure(
                    Q::Coll(items, crate::interpreter::CollectionKind::List, out),
                    env,
                    fuel,
                    env2,
                );
            },
            ExprV::Tuple(items) => {
                lemma_rel_structure(
                    Q::Coll(items, crate::interpreter::CollectionKind::Tuple, out),
                    env,
                    fuel,
                    env2,
                );
            },
            ExprV::SetOf(items) => {
                lemma_rel_structure(
                    Q::Coll(items, crate::interpreter::CollectionKind::SetOf, out),
                    env,
                    fuel,
                    env2,
                );
            },
            ExprV::Record(fs) => {
                lemma_rel_structure(Q::RecQ(fs, out), env, fuel, env2);
            },
            _ => {},
        },
        Q::LetQ(ds, b, out) => {
            let (dout, denv) = choose|dout: Result<(), Seq<char>>, denv: BindingsV<T, F, X>|
                {
                    &&& #[trigger] rel_witness(dout, denv)
                    &&& rel(Q::Decls(ds, dout), push_scope(env), fuel, denv)
                    &&& match dout {
                        Err(m) => out == Err::<ValueV<T>, Seq<char>>(m) && env2 == pop_scope(denv),
                        Ok(_) => exists|
                            bout: Result<ValueV<T>, Seq<char>>,
                            benv: BindingsV<T, F, X>,
                        |
                            {
                                &&& #[trigger] rel_witness(bout, benv)
                                &&& rel(Q::Eval(b, bout), denv, fuel, benv)
                                &&& out == bout
                                &&& env2 == pop_scope(benv)
                            },
                    }
                };
            lemma_rel_structure(Q::Decls(ds, dout), push_scope(env), fuel, denv);
            match dout {
                Err(_) => {},
                Ok(_) => {
                    let (bout, benv) = choose|
                        bout: Result<ValueV<T>, Seq<char>>,
                        benv: BindingsV<T, F, X>,
                    |
                        {
                            &&& #[trigger] rel_witness(bout, benv)
                            &&& rel(Q::Eval(b, bout), denv, fuel, benv)
                            &&& out == bout
                            &&& env2 == pop_scope(benv)
                        };
                    lemma_rel_structure(Q::Eval(b, bout), denv, fuel, benv);
                },
            }
        },
        Q::CondQ(c, t, el, out) => {
            let (cout, cenv) = choose|cout: Result<ValueV<T>, Seq<char>>, cenv: BindingsV<T, F, X>|
                {
                    &&& #[trigger] rel_witness(cout, cenv)
                    &&& rel(Q::Eval(c, cout), env, fuel, cenv)
                    &&& match cout {
                        Err(m) => out == Err::<ValueV<T>, Seq<char>>(m) && env2 == cenv,
                        Ok(v) => if v == ValueV::<T>::Boolean(true) {
                            rel(Q::Eval(t, out), cenv, fuel, env2)
                        } else if v == ValueV::<T>::Boolean(false) {
                            rel(Q::Eval(el, out), cenv, fuel, env2)
                        } else {
                            out == Err::<ValueV<T>, Seq<char>>(msg_guard_alias()) && env2 == cenv
                        },
                    }
                };
            lemma_rel_structure(Q::Eval(c, cout), env, fuel, cenv);
            match cout {
                Err(_) => {},
                Ok(v) => {
                    if v == ValueV::<T>::Boolean(true) {
                        lemma_rel_structure(Q::Eval(t, out), cenv, fuel, env2);
                    } else if v == ValueV::<T>::Boolean(false) {
                        lemma_rel_structure(Q::Eval(el, out), cenv, fuel, env2);
                    }
                },
            }
        },
        Q::CallQ(items, out) => {
            if items.len() >= 2 {
                crate::interpreter::lemma_xs_size_first(items);
                crate::interpreter::lemma_exprs_to_args_size::<T>(items.drop_first());
                let (hout, henv) = choose|
                    hout: Result<ValueV<T>, Seq<char>>,
                    henv: BindingsV<T, F, X>,
                |
                    {
                        &&& #[trigger] rel_witness(hout, henv)
                        &&& rel(Q::Eval(items[0], hout), env, fuel, henv)
                        &&& match hout {
                            Err(m) => out == Err::<ValueV<T>, Seq<char>>(m) && env2 == henv,
                            Ok(v) => rel(
                                Q::Apply(v, crate::interpreter::exprs_to_args(items.drop_first()), out),
                                henv,
                                fuel,
                                env2,
                            ),
                        }
                    };
                lemma_rel_structure(Q::Eval(items[0], hout), env, fuel, henv);
                match hout {
                    Err(_) => {},
                    Ok(v) => {
                        lemma_rel_structure(
                            Q::Apply(v, crate::interpreter::exprs_to_args(items.drop_first()), out),
                            henv,
                            fuel,
                            env2,
                        );
                    },
                }
            }
        },
        Q::Coll(items, kind, out) => {
            let (sout, senv) = choose|
                sout: Result<Seq<ValueV<T>>, Seq<char>>,
                senv: BindingsV<T, F, X>,
            |
                #[trigger] rel_witness(sout, senv) && rel(Q::EvalSeq(items, sout), env, fuel, senv)
                    && env2 == senv;
            lemma_rel_structure(Q::EvalSeq(items, sout), env, fuel, senv);
        },
        Q::RecQ(fs, out) => {
            let (fout, fenv) = choose|
                fout: Result<Seq<(Seq<char>, ValueV<T>)>, Seq<char>>,
                fenv: BindingsV<T, F, X>,
            |
                #[trigger] rel_witness(fout, fenv) && rel(Q::Flds(fs, fout), env, fuel, fenv)
                    && env2 == fenv;
            lemma_rel_structure(Q::Flds(fs, fout), env, fuel, fenv);
        },
        Q::EvalSeq(items, out) => {
            if items.len() > 0 {
                crate::interpreter::lemma_xs_size_first(items);
                let (hout, henv) = choose|
                    hout: Result<ValueV<T>, Seq<char>>,
                    henv: BindingsV<T, F, X>,
                |
                    {
                        &&& #[trigger] rel_witness(hout, henv)
                        &&& rel(Q::Eval(items[0], hout), env, fuel, henv)
                        &&& match hout {
                            Err(m) => out == Err::<Seq<ValueV<T>>, Seq<char>>(m) && env2 == henv,
                            Ok(v) => exists|
                                rout: Result<Seq<ValueV<T>>, Seq<char>>,
                                renv: BindingsV<T, F, X>,
                            |
                                {
                                    &&& #[trigger] rel_witness(rout, renv)
                                    &&& rel(Q::EvalSeq(items.drop_first(), rout), henv, fuel, renv)
                                    &&& env2 == renv
                                    &&& out == (match rout {
                                        Ok(vs) => Ok::<Seq<ValueV<T>>, Seq<char>>(seq![v] + vs),
                                        Err(m) => Err::<Seq<ValueV<T>>, Seq<char>>(m),
                                    })
                                },
                        }
                    };
                lemma_rel_structure(Q::Eval(items[0], hout), env, fuel, henv);
                match hout {
                    Err(_) => {},
                    Ok(v) => {
                        let (rout, renv) = choose|
                            rout: Result<Seq<ValueV<T>>, Seq<char>>,
                            renv: BindingsV<T, F, X>,
                        |
                            {
                                &&& #[trigger] rel_witness(rout, renv)
                                &&& rel(Q::EvalSeq(items.drop_first(), rout), henv, fuel, renv)
                                &&& env2 == renv
                                &&& out == (match rout {
                                    Ok(vs) => Ok::<Seq<ValueV<T>>, Seq<char>>(seq![v] + vs),
                                    Err(m) => Err::<Seq<ValueV<T>>, Seq<char>>(m),
                                })
                            };
                        lemma_rel_structure(Q::EvalSeq(items.drop_first(), rout), henv, fuel, renv);
                    },
                }
            }
        },
        Q::Flds(fs, out) => {
            if fs.len() > 0 {
                crate::interpreter::lemma_x_size_pos(fs[0].1);
                let (hout, henv) = choose|
                    hout: Result<ValueV<T>, Seq<char>>,
                    henv: BindingsV<T, F, X>,
                |
                    {
                        &&& #[trigger] rel_witness(hout, henv)
                        &&& rel(Q::Eval(fs[0].1, hout), env, fuel, henv)
                        &&& match hout {
                            Err(m) => out == Err::<Seq<(Seq<char>, ValueV<T>)>, Seq<char>>(m)
                                && env2 == henv,
                            Ok(v) => exists|
                                rout: Result<Seq<(Seq<char>, ValueV<T>)>, Seq<char>>,
                                renv: BindingsV<T, F, X>,
                            |
                                {
                                    &&& #[trigger] rel_witness(rout, renv)
                                    &&& rel(Q::Flds(fs.drop_first(), rout), henv, fuel, renv)
                                    &&& env2 == renv
                                    &&& out == (match rout {
                                        Ok(vs) => Ok::<Seq<(Seq<char>, ValueV<T>)>, Seq<char>>(
                                            seq![(fs[0].0, v)] + vs,
                                        ),
                                        Err(m) => Err::<
                                            Seq<(Seq<char>, ValueV<T>)>,
                                            Seq<char>,
                                        >(m),
                                    })
                                },
                        }
                    };
                lemma_rel_structure(Q::Eval(fs[0].1, hout), env, fuel, henv);
                match hout {
                    Err(_) => {},
                    Ok(v) => {
                        let (rout, renv) = choose|
                            rout: Result<Seq<(Seq<char>, ValueV<T>)>, Seq<char>>,
                            renv: BindingsV<T, F, X>,
                        |
                            {
                                &&& #[trigger] rel_witness(rout, renv)
                                &&& rel(Q::Flds(fs.drop_first(), rout), henv, fuel, renv)
                                &&& env2 == renv
                                &&& out == (match rout {
                                    Ok(vs) => Ok::<Seq<(Seq<char>, ValueV<T>)>, Seq<char>>(
                                        seq![(fs[0].0, v)] + vs,
                                    ),
                                    Err(m) => Err::<Seq<(Seq<char>, ValueV<T>)>, Seq<char>>(m),
                                })
                            };
                        lemma_rel_structure(Q::Flds(fs.drop_first(), rout), henv, fuel, renv);
                    },
                }
            }
        },
        Q::Decls(ds, out) => {
            if ds.len() > 0 {
                crate::interpreter::lemma_x_size_pos(ds[0].2);
                let (hout, henv) = choose|
                    hout: Result<ValueV<T>, Seq<char>>,
                    henv: BindingsV<T, F, X>,
                |
                    {
                        &&& #[trigger] rel_witness(hout, henv)
                        &&& rel(Q::Eval(ds[0].2, hout), env, fuel, henv)
                        &&& match hout {
                            Err(m) => out == Err::<(), Seq<char>>(m) && env2 == henv,
                            Ok(v) => rel(
                                Q::Decls(ds.drop_first(), out),
                                env_bind(henv, ds[0].0, v),
                                fuel,
                                env2,
                            ),
                        }
                    };
                lemma_rel_structure(Q::Eval(ds[0].2, hout), env, fuel, henv);
                match hout {
                    Err(_) => {},
                    Ok(v) => {
                        lemma_rel_structure(
                            Q::Decls(ds.drop_first(), out),
                            env_bind(henv, ds[0].0, v),
                            fuel,
                            env2,
                        );
                    },
                }
            }
        },
        Q::AnArg(a, out) => match a {
            ArgM::Val(_) => {},
            ArgM::Expr(e) => {
                if e matches ExprV::Application(items) && items.len() >= 2 {
                    let items = e->Application_0;
                    crate::interpreter::lemma_xs_size_first(items);
                    crate::interpreter::lemma_exprs_to_args_size::<T>(items.drop_first());
                    let (hout, henv) = choose|
                        hout: Result<ValueV<T>, Seq<char>>,
                        henv: BindingsV<T, F, X>,
                    |
                        {
                            &&& #[trigger] rel_witness(hout, henv)
                            &&& rel(Q::Eval(items[0], hout), env, fuel, henv)
                            &&& match hout {
                                Err(m) => out == Err::<(ValueV<T>, Seq<ArgM<T>>), Seq<char>>(m)
                                    && env2 == henv,
                                Ok(v0) => if v0 is Lambda {
                                    exists|
                                        wout: Result<ValueV<T>, Seq<char>>,
                                        wenv: BindingsV<T, F, X>,
                                    |
                                        {
                                            &&& #[trigger] rel_witness(wout, wenv)
                                            &&& rel(
                                                Q::Apply(
                                                    v0,
                                                    crate::interpreter::exprs_to_args(
                                                        items.drop_first(),
                                                    ),
                                                    wout,
                                                ),
                                                henv,
                                                fuel,
                                                wenv,
                                            )
                                            &&& env2 == wenv
                                            &&& out == (match wout {
                                                Ok(v) => Ok::<
                                                    (ValueV<T>, Seq<ArgM<T>>),
                                                    Seq<char>,
                                                >((v, Seq::empty())),
                                                Err(m) => Err::<
                                                    (ValueV<T>, Seq<ArgM<T>>),
                                                    Seq<char>,
                                                >(m),
                                            })
                                        }
                                } else {
                                    out == Ok::<(ValueV<T>, Seq<ArgM<T>>), Seq<char>>(
                                        (v0, crate::interpreter::exprs_to_args(items.drop_first())),
                                    ) && env2 == henv
                                },
                            }
                        };
                    lemma_rel_structure(Q::Eval(items[0], hout), env, fuel, henv);
                    match hout {
                        Err(_) => {},
                        Ok(v0) => {
                            if v0 is Lambda {
                                let (wout, wenv) = choose|
                                    wout: Result<ValueV<T>, Seq<char>>,
                                    wenv: BindingsV<T, F, X>,
                                |
                                    {
                                        &&& #[trigger] rel_witness(wout, wenv)
                                        &&& rel(
                                            Q::Apply(
                                                v0,
                                                crate::interpreter::exprs_to_args(
                                                    items.drop_first(),
                                                ),
                                                wout,
                                            ),
                                            henv,
                                            fuel,
                                            wenv,
                                        )
                                        &&& env2 == wenv
                                        &&& out == (match wout {
                                            Ok(v) => Ok::<(ValueV<T>, Seq<ArgM<T>>), Seq<char>>(
                                                (v, Seq::empty()),
                                            ),
                                            Err(m) => Err::<
                                                (ValueV<T>, Seq<ArgM<T>>),
                                                Seq<char>,
                                            >(m),
                                        })
                                    };
                                lemma_rel_structure(
                                    Q::Apply(
                                        v0,
                                        crate::interpreter::exprs_to_args(items.drop_first()),
                                        wout,
                                    ),
                                    henv,
                                    fuel,
                                    wenv,
                                );
                            }
                        },
                    }
                } else {
                    crate::interpreter::lemma_x_size_pos(e);
                    let (hout, henv) = choose|
                        hout: Result<ValueV<T>, Seq<char>>,
                        henv: BindingsV<T, F, X>,
                    |
                        {
                            &&& #[trigger] rel_witness(hout, henv)
                            &&& rel(Q::Eval(e, hout), env, fuel, henv)
                            &&& env2 == henv
                            &&& out == (match hout {
                                Ok(v) => Ok::<(ValueV<T>, Seq<ArgM<T>>), Seq<char>>(
                                    (v, Seq::empty()),
                                ),
                                Err(m) => Err::<(ValueV<T>, Seq<ArgM<T>>), Seq<char>>(m),
                            })
                        };
                    lemma_rel_structure(Q::Eval(e, hout), env, fuel, henv);
                }
            },
        },
        Q::Apply(v, qq, out) => {
            if qq.len() > 0 && v is Lambda {
                assert(q_size_alias(qq) == crate::interpreter::argm_size(qq[0])
                    + q_size_alias(qq.drop_first()));
                let (aout, aenv) = choose|
                    aout: Result<(ValueV<T>, Seq<ArgM<T>>), Seq<char>>,
                    aenv: BindingsV<T, F, X>,
                |
                    {
                        &&& #[trigger] rel_witness(aout, aenv)
                        &&& rel(Q::AnArg(qq[0], aout), env, fuel, aenv)
                        &&& match aout {
                            Err(m) => out == Err::<ValueV<T>, Seq<char>>(m) && env2 == aenv,
                            Ok(p) => {
                                let env_b = env_bind(aenv, v->Lambda_0, p.0);
                                &&& q_size_alias(p.1) < crate::interpreter::argm_size(qq[0])
                                &&& match crate::translation::express_model(*v->Lambda_3) {
                                    Err(m) => out == Err::<ValueV<T>, Seq<char>>(m) && env2
                                        == env_b,
                                    Ok(bexpr) => if fuel == 0 {
                                        out == Err::<ValueV<T>, Seq<char>>(
                                            crate::interpreter::msg_fuel(),
                                        ) && env2 == env_b
                                    } else {
                                        exists|
                                            bout: Result<ValueV<T>, Seq<char>>,
                                            benv: BindingsV<T, F, X>,
                                        |
                                            {
                                                &&& #[trigger] rel_witness(bout, benv)
                                                &&& rel(
                                                    Q::Eval(bexpr, bout),
                                                    env_b,
                                                    (fuel - 1) as nat,
                                                    benv,
                                                )
                                                &&& match bout {
                                                    Err(m) => out == Err::<
                                                        ValueV<T>,
                                                        Seq<char>,
                                                    >(m) && env2 == benv,
                                                    Ok(v2) => rel(
                                                        Q::Apply(v2, p.1 + qq.drop_first(), out),
                                                        benv,
                                                        fuel,
                                                        env2,
                                                    ),
                                                }
                                            }
                                    },
                                }
                            },
                        }
                    };
                lemma_rel_structure(Q::AnArg(qq[0], aout), env, fuel, aenv);
                match aout {
                    Err(_) => {},
                    Ok(p) => {
                        let env_b = env_bind(aenv, v->Lambda_0, p.0);
                        match crate::translation::express_model(*v->Lambda_3) {
                            Err(_) => {},
                            Ok(bexpr) => {
                                if fuel > 0 {
                                    let (bout, benv) = choose|
                                        bout: Result<ValueV<T>, Seq<char>>,
                                        benv: BindingsV<T, F, X>,
                                    |
                                        {
                                            &&& #[trigger] rel_witness(bout, benv)
                                            &&& rel(
                                                Q::Eval(bexpr, bout),
                                                env_b,
                                                (fuel - 1) as nat,
                                                benv,
                                            )
                                            &&& match bout {
                                                Err(m) => out == Err::<ValueV<T>, Seq<char>>(m)
                                                    && env2 == benv,
                                                Ok(v2) => rel(
                                                    Q::Apply(v2, p.1 + qq.drop_first(), out),
                                                    benv,
                                                    fuel,
                                                    env2,
                                                ),
                                            }
                                        };
                                    lemma_rel_structure(
                                        Q::Eval(bexpr, bout),
                                        env_b,
                                        (fuel - 1) as nat,
                                        benv,
                                    );
                                    match bout {
                                        Err(_) => {},
                                        Ok(v2) => {
                                            crate::interpreter::lemma_q_size_concat(
                                                p.1,
                                                qq.drop_first(),
                                            );
                                            lemma_rel_structure(
                                                Q::Apply(v2, p.1 + qq.drop_first(), out),
                                                benv,
                                                fuel,
                                                env2,
                                            );
                                        },
                                    }
                                }
                            },
                        }
                    },
                }
            }
        },
    }
}

/// Shorthand used inside the induction.
pub open spec fn q_size_alias<T>(q: Seq<ArgM<T>>) -> nat {
    crate::interpreter::q_size(q)
}

/// Shorthand used inside the induction.
pub open spec fn msg_guard_alias() -> Seq<char> {
    crate::interpreter::msg_guard()
}

/// Short-circuit conditional: with a literally true guard, the conditional
/// derives exactly the outcomes of its `then` branch; the untaken `else`
/// branch contributes nothing, so an erroring expression there is harmless.
pub proof fn lemma_conditional_short_circuit<T: PartialEq, F: crate::HostFunction<T>, X>(
    t: ExprV,
    el: ExprV,
    env: BindingsV<T, F, X>,
    fuel: nat,
    out: Result<ValueV<T>, Seq<char>>,
    env2: BindingsV<T, F, X>,
)
    ensures
        eval_rel(
            ExprV::Conditional(Box::new(ExprV::Boolean(true)), Box::new(t), Box::new(el)),
            env,
            fuel,
            out,
            env2,
        ) <==> eval_rel(t, env, fuel, out, env2),
{
    reveal_with_fuel(rel, 2);
    let c = ExprV::Boolean(true);
    if eval_rel(
        ExprV::Conditional(Box::new(c), Box::new(t), Box::new(el)),
        env,
        fuel,
        out,
        env2,
    ) {
        let (cout, cenv) = choose|cout: Result<ValueV<T>, Seq<char>>, cenv: BindingsV<T, F, X>|
            {
                &&& #[trigger] rel_witness(cout, cenv)
                &&& rel(Q::Eval(c, cout), env, fuel, cenv)
                &&& match cout {
                    Err(m) => out == Err::<ValueV<T>, Seq<char>>(m) && env2 == cenv,
                    Ok(v) => if v == ValueV::<T>::Boolean(true) {
                        rel(Q::Eval(t, out), cenv, fuel, env2)
                    } else if v == ValueV::<T>::Boolean(false) {
                        rel(Q::Eval(el, out), cenv, fuel, env2)
                    } else {
                        out == Err::<ValueV<T>, Seq<char>>(msg_guard_alias()) && env2 == cenv
                    },
                }
            };
        assert(cout == Ok::<ValueV<T>, Seq<char>>(ValueV::Boolean(true)) && cenv == env);
    }
    if eval_rel(t, env, fuel, out, env2) {
        assert(rel_witness(Ok::<ValueV<T>, Seq<char>>(ValueV::<T>::Boolean(true)), env));
        assert(rel(
            Q::Eval(c, Ok::<ValueV<T>, Seq<char>>(ValueV::Boolean(true))),
            env,
            fuel,
            env,
        ));
        assert(rel(Q::Eval(t, out), env, fuel, env2));
        assert(rel(
            Q::CondQ(c, t, el, out),
            env,
            fuel,
            env2,
        ));
    }
}

/// The application loop composes over queue concatenation: applying a value
/// to `q1 ++ q2` derives exactly what applying it to `q1` and then applying
/// the intermediate value to `q2` derives.
pub proof fn lemma_apply_append<T: PartialEq, F: crate::HostFunction<T>, X>(
    v: ValueV<T>,
    q1: Seq<ArgM<T>>,
    q2: Seq<ArgM<T>>,
    env: BindingsV<T, F, X>,
    fuel: nat,
    out: Result<ValueV<T>, Seq<char>>,
    env2: BindingsV<T, F, X>,
)
    ensures
        rel(Q::Apply(v, q1 + q2, out), env, fuel, env2) <==> exists|
            m1: Result<ValueV<T>, Seq<char>>,
            menv: BindingsV<T, F, X>,
        |
            {
                &&& #[trigger] rel_witness(m1, menv)
                &&& rel(Q::Apply(v, q1, m1), env, fuel, menv)
                &&& match m1 {
                    Err(m) => out == Err::<ValueV<T>, Seq<char>>(m) && env2 == menv,
                    Ok(w) => rel(Q::Apply(w, q2, out), menv, fuel, env2),
                }
            },
    decreases fuel, q_size_alias(q1), 0int,
{
    reveal_with_fuel(rel, 1);
    crate::interpreter::lemma_q_size_concat(q1, q2);
    if q1.len() == 0 {
        assert(q1 + q2 =~= q2);
        if rel(Q::Apply(v, q1 + q2, out), env, fuel, env2) {
            assert(rel_witness(Ok::<ValueV<T>, Seq<char>>(v), env));
            assert(rel(Q::Apply(v, q1, Ok::<ValueV<T>, Seq<char>>(v)), env, fuel, env));
        }
    } else {
        assert((q1 + q2).len() > 0);
        assert((q1 + q2)[0] == q1[0]);
        assert(q_size_alias(q1) == crate::interpreter::argm_size(q1[0]) + q_size_alias(
            q1.drop_first(),
        ));
        if !(v is Lambda) {
            if rel(Q::Apply(v, q1 + q2, out), env, fuel, env2) {
                assert(rel_witness(Err::<ValueV<T>, Seq<char>>(
                    crate::interpreter::msg_invalid_call(),
                ), env));
                assert(rel(
                    Q::Apply(v, q1, Err::<ValueV<T>, Seq<char>>(
                        crate::interpreter::msg_invalid_call(),
                    )),
                    env,
                    fuel,
                    env,
                ));
            }
        } else {
            assert((q1 + q2).drop_first() =~= q1.drop_first() + q2);
            // Forward: split a combined derivation.
            if rel(Q::Apply(v, q1 + q2, out), env, fuel, env2) {
                let (aout, aenv) = choose|
                    aout: Result<(ValueV<T>, Seq<ArgM<T>>), Seq<char>>,
                    aenv: BindingsV<T, F, X>,
                |
                    {
                        &&& #[trigger] rel_witness(aout, aenv)
                        &&& rel(Q::AnArg((q1 + q2)[0], aout), env, fuel, aenv)
                        &&& apply_step_tail(v, q1 + q2, fuel, aout, aenv, out, env2)
                    };
                match aout {
                    Err(m) => {
                        assert(rel_witness(Err::<ValueV<T>, Seq<char>>(m), aenv));
                        assert(rel(Q::Apply(v, q1, Err::<ValueV<T>, Seq<char>>(m)), env, fuel, aenv));
                    },
                    Ok(p) => {
                        let env_b = env_bind(aenv, v->Lambda_0, p.0);
                        match crate::translation::express_model(*v->Lambda_3) {
                            Err(m) => {
                                assert(rel_witness(Err::<ValueV<T>, Seq<char>>(m), env_b));
                                assert(rel(
                                    Q::Apply(v, q1, Err::<ValueV<T>, Seq<char>>(m)),
                                    env,
                                    fuel,
                                    env_b,
                                ));
                            },
                            Ok(bexpr) => {
                                if fuel == 0 {
                                    assert(rel_witness(Err::<ValueV<T>, Seq<char>>(
                                        crate::interpreter::msg_fuel(),
                                    ), env_b));
                                    assert(rel(
                                        Q::Apply(v, q1, Err::<ValueV<T>, Seq<char>>(
                                            crate::interpreter::msg_fuel(),
                                        )),
                                        env,
                                        fuel,
                                        env_b,
                                    ));
                                } else {
                                    let (bout, benv) = choose|
                                        bout: Result<ValueV<T>, Seq<char>>,
                                        benv: BindingsV<T, F, X>,
                                    |
                                        {
                                            &&& #[trigger] rel_witness(bout, benv)
                                            &&& rel(
                                                Q::Eval(bexpr, bout),
                                                env_b,
                                                (fuel - 1) as nat,
                                                benv,
                                            )
                                            &&& match bout {
                                                Err(m) => out == Err::<ValueV<T>, Seq<char>>(m)
                                                    && env2 == benv,
                                                Ok(v2) => rel(
                                                    Q::Apply(
                                                        v2,
                                                        p.1 + (q1 + q2).drop_first(),
                                                        out,
                                                    ),
                                                    benv,
                                                    fuel,
                                                    env2,
                                                ),
                                            }
                                        };
                                    match bout {
                                        Err(m) => {
                                            assert(rel_witness(Err::<ValueV<T>, Seq<char>>(m), benv));
                                            assert(rel(
                                                Q::Apply(v, q1, Err::<ValueV<T>, Seq<char>>(m)),
                                                env,
                                                fuel,
                                                benv,
                                            ));
                                        },
                                        Ok(v2) => {
                                            assert(p.1 + (q1 + q2).drop_first() =~= (p.1
                                                + q1.drop_first()) + q2);
                                            crate::interpreter::lemma_q_size_concat(
                                                p.1,
                                                q1.drop_first(),
                                            );
                                            lemma_apply_append(
                                                v2,
                                                p.1 + q1.drop_first(),
                                                q2,
                                                benv,
                                                fuel,
                                                out,
                                                env2,
                                            );
                                            let (m1, menv) = choose|
                                                m1: Result<ValueV<T>, Seq<char>>,
                                                menv: BindingsV<T, F, X>,
                                            |
                                                {
                                                    &&& #[trigger] rel_witness(m1, menv)
                                                    &&& rel(
                                                        Q::Apply(v2, p.1 + q1.drop_first(), m1),
                                                        benv,
                                                        fuel,
                                                        menv,
                                                    )
                                                    &&& match m1 {
                                                        Err(m) => out == Err::<
                                                            ValueV<T>,
                                                            Seq<char>,
                                                        >(m) && env2 == menv,
                                                        Ok(w) => rel(
                                                            Q::Apply(w, q2, out),
                                                            menv,
                                                            fuel,
                                                            env2,
                                                        ),
                                                    }
                                                };
                                            assert(rel(Q::Apply(v, q1, m1), env, fuel, menv));
                                        },
                                    }
                                }
                            },
                        }
                    },
                }
            }
            // Backward: combine a split derivation.
            if exists|m1: Result<ValueV<T>, Seq<char>>, menv: BindingsV<T, F, X>|
                {
                    &&& #[trigger] rel_witness(m1, menv)
                    &&& rel(Q::Apply(v, q1, m1), env, fuel, menv)
                    &&& match m1 {
                        Err(m) => out == Err::<ValueV<T>, Seq<char>>(m) && env2 == menv,
                        Ok(w) => rel(Q::Apply(w, q2, out), menv, fuel, env2),
                    }
                } {
                let (m1, menv) = choose|m1: Result<ValueV<T>, Seq<char>>, menv: BindingsV<T, F, X>|
                    {
                        &&& #[trigger] rel_witness(m1, menv)
                        &&& rel(Q::Apply(v, q1, m1), env, fuel, menv)
                        &&& match m1 {
                            Err(m) => out == Err::<ValueV<T>, Seq<char>>(m) && env2 == menv,
                            Ok(w) => rel(Q::Apply(w, q2, out), menv, fuel, env2),
                        }
                    };
                let (aout, aenv) = choose|
                    aout: Result<(ValueV<T>, Seq<ArgM<T>>), Seq<char>>,
                    aenv: BindingsV<T, F, X>,
                |
                    {
                        &&& #[trigger] rel_witness(aout, aenv)
                        &&& rel(Q::AnArg(q1[0], aout), env, fuel, aenv)
                        &&& apply_step_tail(v, q1, fuel, aout, aenv, m1, menv)
                    };
                assert(rel_witness(aout, aenv));
                match aout {
                    Err(_) => {},
                    Ok(p) => {
                        let env_b = env_bind(aenv, v->Lambda_0, p.0);
                        match crate::translation::express_model(*v->Lambda_3) {
                            Err(_) => {},
                            Ok(bexpr) => {
                                if fuel > 0 {
                                    let (bout, benv) = choose|
                                        bout: Result<ValueV<T>, Seq<char>>,
                                        benv: BindingsV<T, F, X>,
                                    |
                                        {
                                            &&& #[trigger] rel_witness(bout, benv)
                                            &&& rel(
                                                Q::Eval(bexpr, bout),
                                                env_b,
                                                (fuel - 1) as nat,
                                                benv,
                                            )
                                            &&& match bout {
                                                Err(m) => m1 == Err::<ValueV<T>, Seq<char>>(m)
                                                    && menv == benv,
                                                Ok(v2) => rel(
                                                    Q::Apply(v2, p.1 + q1.drop_first(), m1),
                                                    benv,
                                                    fuel,
                                                    menv,
                                                ),
                                            }
                                        };
                                    match bout {
                                        Err(_) => {},
                                        Ok(v2) => {
                                            assert(p.1 + (q1 + q2).drop_first() =~= (p.1
                                                + q1.drop_first()) + q2);
                                            crate::interpreter::lemma_q_size_concat(
                                                p.1,
                                                q1.drop_first(),
                                            );
                                            lemma_apply_append(
                                                v2,
                                                p.1 + q1.drop_first(),
                                                q2,
                                                benv,
                                                fuel,
                                                out,
                                                env2,
                                            );
                                            assert(rel(
                                                Q::Apply(v2, p.1 + (q1 + q2).drop_first(), out),
                                                benv,
                                                fuel,
                                                env2,
                                            ));
                                        },
                                    }
                                }
                            },
                        }
                    },
                }
                assert(rel(Q::Apply(v, q1 + q2, out), env, fuel, env2));
            }
        }
    }
}

/// What the application loop requires after its argument step, shared by the
/// two directions of [`lemma_apply_append`].
pub open spec fn apply_step_tail<T: PartialEq, F: crate::HostFunction<T>, X>(
    v: ValueV<T>,
    q: Seq<ArgM<T>>,
    fuel: nat,
    aout: Result<(ValueV<T>, Seq<ArgM<T>>), Seq<char>>,
    aenv: BindingsV<T, F, X>,
    out: Result<ValueV<T>, Seq<char>>,
    env2: BindingsV<T, F, X>,
) -> bool {
    match aout {
        Err(m) => out == Err::<ValueV<T>, Seq<char>>(m) && env2 == aenv,
        Ok(p) => {
            let env_b = env_bind(aenv, v->Lambda_0, p.0);
            &&& q_size_alias(p.1) < crate::interpreter::argm_size(q[0])
            &&& match crate::translation::express_model(*v->Lambda_3) {
                Err(m) => out == Err::<ValueV<T>, Seq<char>>(m) && env2 == env_b,
                Ok(bexpr) => if fuel == 0 {
                    out == Err::<ValueV<T>, Seq<char>>(crate::interpreter::msg_fuel()) && env2
                        == env_b
                } else {
                    exists|bout: Result<ValueV<T>, Seq<char>>, benv: BindingsV<T, F, X>|
                        {
                            &&& #[trigger] rel_witness(bout, benv)
                            &&& rel(Q::Eval(bexpr, bout), env_b, (fuel - 1) as nat, benv)
                            &&& match bout {
                                Err(m) => out == Err::<ValueV<T>, Seq<char>>(m) && env2 == benv,
                                Ok(v2) => rel(
                                    Q::Apply(v2, p.1 + q.drop_first(), out),
                                    benv,
                                    fuel,
                                    env2,
                                ),
                            }
                        }
                },
            }
        },
    }
}

/// Currying commutes with saturation: applying `f` to `a` and `b` in one
/// application derives exactly the same outcomes as applying `f` to `a`
/// first and the intermediate result to `b`.
pub proof fn lemma_currying_saturation<T: PartialEq, F: crate::HostFunction<T>, X>(
    f: ExprV,
    a: ExprV,
    b: ExprV,
    env: BindingsV<T, F, X>,
    fuel: nat,
    out: Result<ValueV<T>, Seq<char>>,
    env2: BindingsV<T, F, X>,
)
    ensures
        eval_rel(ExprV::Application(seq![f, a, b]), env, fuel, out, env2) <==> eval_rel(
            ExprV::Application(seq![ExprV::Application(seq![f, a]), b]),
            env,
            fuel,
            out,
            env2,
        ),
{
    reveal_with_fuel(rel, 3);
    let fa = seq![f, a];
    let fab = seq![f, a, b];
    let nested = seq![ExprV::Application(fa), b];
    assert(fab[0] == f && nested[0] == ExprV::Application(fa) && fa[0] == f);
    assert(fab.drop_first() =~= seq![a, b]);
    assert(fa.drop_first() =~= seq![a]);
    assert(nested.drop_first() =~= seq![b]);
    let ghost ea: Seq<ArgM<T>> = seq![ArgM::Expr(a)];
    let ghost eb: Seq<ArgM<T>> = seq![ArgM::Expr(b)];
    assert(crate::interpreter::exprs_to_args::<T>(seq![a, b]) =~= ea + eb) by {
        crate::interpreter::lemma_exprs_to_args_size::<T>(seq![a, b]);
    }
    assert(crate::interpreter::exprs_to_args::<T>(seq![a]) =~= ea) by {
        crate::interpreter::lemma_exprs_to_args_size::<T>(seq![a]);
    }
    assert(crate::interpreter::exprs_to_args::<T>(seq![b]) =~= eb) by {
        crate::interpreter::lemma_exprs_to_args_size::<T>(seq![b]);
    }
    if eval_rel(ExprV::Application(fab), env, fuel, out, env2) {
        let (hout, henv) = choose|hout: Result<ValueV<T>, Seq<char>>, henv: BindingsV<T, F, X>|
            {
                &&& #[trigger] rel_witness(hout, henv)
                &&& rel(Q::Eval(fab[0], hout), env, fuel, henv)
                &&& match hout {
                    Err(m) => out == Err::<ValueV<T>, Seq<char>>(m) && env2 == henv,
                    Ok(v) => rel(
                        Q::Apply(v, crate::interpreter::exprs_to_args(fab.drop_first()), out),
                        henv,
                        fuel,
                        env2,
                    ),
                }
            };
        match hout {
            Err(m) => {
                assert(rel(Q::Eval(ExprV::Application(fa), hout), env, fuel, henv)) by {
                    assert(rel(Q::CallQ(fa, hout), env, fuel, henv));
                }
                assert(rel(Q::CallQ(nested, out), env, fuel, env2));
            },
            Ok(v) => {
                lemma_apply_append(v, ea, eb, henv, fuel, out, env2);
                let (m1, menv) = choose|m1: Result<ValueV<T>, Seq<char>>, menv: BindingsV<T, F, X>|
                    {
                        &&& #[trigger] rel_witness(m1, menv)
                        &&& rel(Q::Apply(v, ea, m1), henv, fuel, menv)
                        &&& match m1 {
                            Err(m) => out == Err::<ValueV<T>, Seq<char>>(m) && env2 == menv,
                            Ok(w) => rel(Q::Apply(w, eb, out), menv, fuel, env2),
                        }
                    };
                assert(rel(Q::CallQ(fa, m1), env, fuel, menv));
                assert(rel(Q::Eval(ExprV::Application(fa), m1), env, fuel, menv));
                assert(rel_witness(m1, menv));
                assert(rel(Q::CallQ(nested, out), env, fuel, env2));
            },
        }
        assert(rel(Q::Eval(ExprV::Application(nested), out), env, fuel, env2));
    }
    if eval_rel(ExprV::Application(nested), env, fuel, out, env2) {
        let (h2, henv2) = choose|h2: Result<ValueV<T>, Seq<char>>, henv2: BindingsV<T, F, X>|
            {
                &&& #[trigger] rel_witness(h2, henv2)
                &&& rel(Q::Eval(nested[0], h2), env, fuel, henv2)
                &&& match h2 {
                    Err(m) => out == Err::<ValueV<T>, Seq<char>>(m) && env2 == henv2,
                    Ok(w) => rel(
                        Q::Apply(w, crate::interpreter::exprs_to_args(nested.drop_first()), out),
                        henv2,
                        fuel,
                        env2,
                    ),
                }
            };
        assert(rel(Q::CallQ(fa, h2), env, fuel, henv2));
        let (hout, henv) = choose|hout: Result<ValueV<T>, Seq<char>>, henv: BindingsV<T, F, X>|
            {
                &&& #[trigger] rel_witness(hout, henv)
                &&& rel(Q::Eval(fa[0], hout), env, fuel, henv)
                &&& match hout {
                    Err(m) => h2 == Err::<ValueV<T>, Seq<char>>(m) && henv2 == henv,
                    Ok(v) => rel(
                        Q::Apply(v, crate::interpreter::exprs_to_args(fa.drop_first()), h2),
                        henv,
                        fuel,
                        henv2,
                    ),
                }
            };
        match hout {
            Err(m) => {
                assert(rel(Q::CallQ(fab, out), env, fuel, env2));
            },
            Ok(v) => {
                lemma_apply_append(v, ea, eb, henv, fuel, out, env2);
                assert(match h2 {
                    Err(m) => out == Err::<ValueV<T>, Seq<char>>(m) && env2 == henv2,
                    Ok(w) => rel(Q::Apply(w, eb, out), henv2, fuel, env2),
                });
                assert(rel_witness(h2, henv2));
                assert(rel(Q::Apply(v, ea + eb, out), henv, fuel, env2));
                assert(rel(Q::CallQ(fab, out), env, fuel, env2));
            },
        }
        assert(rel(Q::Eval(ExprV::Application(fab), out), env, fuel, env2));
    }
}

} // verus!

verus! {

use crate::interpreter::{unescape_from, unescape_letter};
use crate::values::{escape_char, escape_str};
use crate::lexer::is_escape_char;

/// Unescaping looks only at the remaining characters.
proof fn lemma_unescape_skip(s: Seq<char>, i: int)
    requires
        0 <= i <= s.len(),
    ensures
        unescape_from(s, i) == unescape_from(s.skip(i), 0),
    decreases s.len() - i,
{
    let t = s.skip(i);
    if i < s.len() {
        assert(t[0] == s[i]);
        if s[i] == '\\' {
            if i + 1 < s.len() && is_escape_char(s[i + 1]) {
                assert(t[1] == s[i + 1]);
                lemma_unescape_skip(s, i + 2);
                assert(s.skip(i + 2) =~= t.skip(2));
                lemma_unescape_skip(t, 2);
            } else {
                assert(unescape_from(s, i) is None);
                assert(unescape_from(t, 0) is None);
            }
        } else {
            lemma_unescape_skip(s, i + 1);
            assert(s.skip(i + 1) =~= t.skip(1));
            lemma_unescape_skip(t, 1);
        }
    } else {
        assert(t =~= Seq::<char>::empty());
    }
}

/// Literal round trip, string leg: the escape table inverts.  Rendering a
/// string value escapes it with [`escape_str`]; evaluating the rendered
/// literal unescapes with [`unescape_from`]; the composition gives the value
/// back exactly, for every string.
pub proof fn lemma_unescape_escape(s: Seq<char>)
    ensures
        unescape_from(escape_str(s), 0) == Some(s),
    decreases s.len(),
{
    let es = escape_str(s);
    if s.len() == 0 {
        assert(es =~= Seq::<char>::empty());
    } else {
        let c = s[0];
        let head = escape_char(c);
        let tail = escape_str(s.drop_first());
        assert(es == head + tail);
        lemma_unescape_escape(s.drop_first());
        if c == '\\' || c == '"' || c == '\n' || c == '\r' || c == '\t' {
            assert(head.len() == 2);
            assert(es[0] == '\\');
            assert(is_escape_char(es[1]));
            assert(unescape_letter(es[1]) == c);
            assert(es.skip(2) =~= tail);
            lemma_unescape_skip(es, 2);
            assert(unescape_from(es, 2) == Some(s.drop_first()));
            assert(unescape_from(es, 0) == Some(seq![c] + s.drop_first()));
            assert(seq![c] + s.drop_first() =~= s);
        } else {
            assert(head =~= seq![c]);
            assert(es[0] == c);
            assert(es[0] != '\\');
            assert(es.skip(1) =~= tail);
            lemma_unescape_skip(es, 1);
            assert(unescape_from(es, 1) == Some(s.drop_first()));
            assert(unescape_from(es, 0) == Some(seq![c] + s.drop_first()));
            assert(seq![c] + s.drop_first() =~= s);
        }
    }
}

} // verus!

verus! {

use crate::lexer::{
    LexErr, TokenV, is_name_char, keyword_or_name, lex_filtered, lex_from, name_end, next_token,
    strip_meta,
};
use crate::parser::{
    ElementV, p_boolean, p_element, p_element_inner, p_elements, p_grouping, p_inner_items,
    p_int, p_lambda, p_let_scope, p_list, p_name, p_nothing, p_pipe, p_record, p_set, p_string,
    p_tuple, p_grouped_application, p_conditional, parse_model,
};
use crate::translation::{express_model, express_seq_model, process_pipes_model, translate_model};
use crate::values::render_value;

/// A rendered boolean lexes to exactly its literal token.
proof fn lemma_lex_boolean<T>(b: bool)
    ensures
        lex_filtered(render_value(ValueV::<T>::Boolean(b))) == Ok::<Seq<TokenV>, LexErr>(
            seq![TokenV::Boolean(b)],
        ),
        render_value(ValueV::<T>::Boolean(b)) == if b {
            "true"@
        } else {
            "false"@
        },
{
    reveal_strlit("true");
    reveal_strlit("false");
    reveal_strlit("let");
    reveal_strlit("in");
    reveal_strlit("end");
    reveal_strlit("if");
    reveal_strlit("then");
    reveal_strlit("else");
    reveal_strlit("val");
    reveal_strlit("nothing");
    let cs = if b {
        "true"@
    } else {
        "false"@
    };
    let n = cs.len() as int;
    assert(n == if b {
        4int
    } else {
        5int
    });
    assert(name_end(cs, n) == n);
    if b {
        assert(is_name_char(cs[3]) && is_name_char(cs[2]) && is_name_char(cs[1]) && is_name_char(
            cs[0],
        ));
        assert(name_end(cs, 3) == 4);
        assert(name_end(cs, 2) == 4);
        assert(name_end(cs, 1) == 4);
        assert(name_end(cs, 0) == 4);
    } else {
        assert(is_name_char(cs[4]) && is_name_char(cs[3]) && is_name_char(cs[2]) && is_name_char(
            cs[1],
        ) && is_name_char(cs[0]));
        assert(name_end(cs, 4) == 5);
        assert(name_end(cs, 3) == 5);
        assert(name_end(cs, 2) == 5);
        assert(name_end(cs, 1) == 5);
        assert(name_end(cs, 0) == 5);
    }
    assert(cs.subrange(0, n) =~= cs);
    assert(keyword_or_name(cs) == TokenV::Boolean(b));
    assert(next_token(cs, 0) == Ok::<(TokenV, int), LexErr>((TokenV::Boolean(b), n)));
    assert(lex_from(cs, n) == Ok::<Seq<TokenV>, LexErr>(Seq::empty()));
    assert(lex_from(cs, 0) == Ok::<Seq<TokenV>, LexErr>(
        seq![TokenV::Boolean(b)] + Seq::empty(),
    ));
    assert(seq![TokenV::Boolean(b)] + Seq::<TokenV>::empty() =~= seq![TokenV::Boolean(b)]);
    let ts = seq![TokenV::Boolean(b)];
    assert(strip_meta(ts.drop_last()) =~= Seq::<TokenV>::empty());
    assert(strip_meta(ts) =~= ts);
}

/// One boolean literal token parses to a grouping of its literal element.
proof fn lemma_parse_boolean(b: bool)
    ensures
        parse_model(seq![TokenV::Boolean(b)]) == Ok::<ElementV, Seq<char>>(
            ElementV::Grouping(seq![ElementV::Boolean(b)]),
        ),
{
    let ts = seq![TokenV::Boolean(b)];
    assert(p_pipe(ts, 0) is None);
    assert(p_let_scope(ts, 0) is None);
    assert(p_tuple(ts, 0) is None);
    assert(p_set(ts, 0) is None);
    assert(p_record(ts, 0) is None);
    assert(p_name(ts, 0) is None);
    assert(p_boolean(ts, 0) == Some((ElementV::Boolean(b), 1int)));
    assert(p_element_inner(ts, 0) == Some((ElementV::Boolean(b), 1int)));
    assert(p_tuple(ts, 1) is None);
    assert(p_set(ts, 1) is None);
    assert(p_record(ts, 1) is None);
    assert(p_name(ts, 1) is None);
    assert(p_boolean(ts, 1) is None);
    assert(p_nothing(ts, 1) is None);
    assert(p_int(ts, 1) is None);
    assert(p_string(ts, 1) is None);
    assert(p_let_scope(ts, 1) is None);
    assert(p_grouped_application(ts, 1) is None);
    assert(p_conditional(ts, 1) is None);
    assert(p_lambda(ts, 1) is None);
    assert(p_list(ts, 1) is None);
    assert(p_element_inner(ts, 1) is None);
    assert(p_inner_items(ts, 1) == (Seq::<ElementV>::empty(), 1int));
    assert(p_inner_items(ts, 0) == (seq![ElementV::Boolean(b)] + Seq::<ElementV>::empty(), 1int));
    assert(seq![ElementV::Boolean(b)] + Seq::<ElementV>::empty() =~= seq![ElementV::Boolean(b)]);
    assert(p_grouping(ts, 0) == Some(
        (ElementV::Grouping(seq![ElementV::Boolean(b)]), 1int),
    ));
    assert(p_element(ts, 0) == Some((ElementV::Grouping(seq![ElementV::Boolean(b)]), 1int)));
    assert(p_elements(ts, 1) == Some((Seq::<ElementV>::empty(), 1int)));
    let g = ElementV::Grouping(seq![ElementV::Boolean(b)]);
    assert(p_elements(ts, 0) == Some((seq![g] + Seq::<ElementV>::empty(), 1int)));
    assert(seq![g] + Seq::<ElementV>::empty() =~= seq![g]);
}

/// A grouping of one boolean literal translates to the literal expression.
proof fn lemma_translate_boolean(b: bool)
    ensures
        translate_model(ElementV::Grouping(seq![ElementV::Boolean(b)])) == Ok::<ExprV, Seq<char>>(
            ExprV::Boolean(b),
        ),
{
    let items = seq![ElementV::Boolean(b)];
    assert(process_pipes_model(items, 1, items) == Ok::<Seq<ElementV>, Seq<char>>(items));
    assert(Seq::<ElementV>::empty().push(items[0]) =~= items);
    assert(process_pipes_model(items, 0, Seq::empty()) == Ok::<Seq<ElementV>, Seq<char>>(items));
    assert(express_seq_model(items.drop_first()) == Ok::<Seq<ExprV>, Seq<char>>(Seq::empty()));
    assert(express_model(items[0]) == Ok::<ExprV, Seq<char>>(ExprV::Boolean(b)));
    assert(express_seq_model(items) == Ok::<Seq<ExprV>, Seq<char>>(
        seq![ExprV::Boolean(b)] + Seq::empty(),
    ));
    assert(seq![ExprV::Boolean(b)] + Seq::<ExprV>::empty() =~= seq![ExprV::Boolean(b)]);
    assert(express_model(ElementV::Grouping(items)) == Ok::<ExprV, Seq<char>>(ExprV::Boolean(b)));
}

/// Literal round trip, boolean leg: rendering a boolean value gives source
/// text that runs back to exactly the same value, leaving the environment
/// untouched.
pub proof fn lemma_boolean_round_trip<T: PartialEq, F: crate::HostFunction<T>, X>(
    b: bool,
    env: BindingsV<T, F, X>,
    out: Result<ValueV<T>, Seq<char>>,
    env2: BindingsV<T, F, X>,
)
    requires
        crate::run_rel(render_value(ValueV::<T>::Boolean(b)), env, out, env2),
    ensures
        out == Ok::<ValueV<T>, Seq<char>>(ValueV::Boolean(b)),
        env2 == env,
{
    lemma_lex_boolean::<T>(b);
    lemma_parse_boolean(b);
    lemma_translate_boolean(b);
    reveal_with_fuel(rel, 1);
}

} // verus!

verus! {

use crate::lexer::{digit_val, digits_end, digits_val, is_digit_char, i64_min_magnitude};
use crate::values::{dec_digits, digit_char, int_to_dec};

/// The digit characters carry their values.
proof fn lemma_digit_char_val(d: int)
    requires
        0 <= d <= 9,
    ensures
        is_digit_char(digit_char(d)),
        digit_val(digit_char(d)) == d,
{
    assert(is_digit_char(digit_char(d)) && digit_val(digit_char(d)) == d) by {
        assert(('0' as u32) == 48 && ('1' as u32) == 49 && ('2' as u32) == 50 && ('3' as u32) == 51
            && ('4' as u32) == 52 && ('5' as u32) == 53 && ('6' as u32) == 54 && ('7' as u32) == 55
            && ('8' as u32) == 56 && ('9' as u32) == 57);
    }
}

} // verus!

verus! {

/// The decimal rendering of a non-negative number is a nonempty run of
/// digits.
proof fn lemma_dec_digits_shape(n: int)
    requires
        n >= 0,
    ensures
        dec_digits(n).len() >= 1,
        forall|k: int| 0 <= k < dec_digits(n).len() ==> is_digit_char(#[trigger] dec_digits(n)[k]),
    decreases n,
{
    if n < 10 {
        lemma_digit_char_val(n);
    } else {
        lemma_dec_digits_shape(n / 10);
        lemma_digit_char_val(n % 10);
        assert(forall|k: int|
            0 <= k < dec_digits(n / 10).len() ==> dec_digits(n)[k] == #[trigger] dec_digits(
                n / 10,
            )[k]);
    }
}

/// A digit-run value ignores characters pushed after it.
proof fn lemma_digits_val_push(s: Seq<char>, c: char, j: int)
    requires
        0 <= j <= s.len(),
    ensures
        digits_val(s.push(c), 0, j) == digits_val(s, 0, j),
    decreases j,
{
    if j > 0 {
        lemma_digits_val_push(s, c, j - 1);
        assert(s.push(c)[j - 1] == s[j - 1]);
    }
}

/// Reading back the decimal rendering of a non-negative number gives the
/// number.
proof fn lemma_digits_val_of_dec(n: int)
    requires
        n >= 0,
    ensures
        digits_val(dec_digits(n), 0, dec_digits(n).len() as int) == n,
    decreases n,
{
    if n < 10 {
        lemma_digit_char_val(n);
        assert(digits_val(dec_digits(n), 0, 1) == digits_val(dec_digits(n), 0, 0) * 10 + digit_val(
            dec_digits(n)[0],
        ));
    } else {
        lemma_digits_val_of_dec(n / 10);
        lemma_digit_char_val(n % 10);
        let s = dec_digits(n / 10);
        let len = s.len() as int;
        lemma_digits_val_push(s, digit_char(n % 10), len);
        assert(dec_digits(n) == s.push(digit_char(n % 10)));
        assert(digits_val(dec_digits(n), 0, len + 1) == digits_val(dec_digits(n), 0, len) * 10
            + digit_val(dec_digits(n)[len]));
        assert(dec_digits(n)[len] == digit_char(n % 10));
        assert(n == (n / 10) * 10 + n % 10) by (nonlinear_arith)
            requires
                n >= 10,
        ;
    }
}

/// A digit run in a sequence of digits ends at the end of the sequence.
proof fn lemma_digits_end_all(cs: Seq<char>, k: int)
    requires
        0 <= k <= cs.len(),
        forall|j: int| k <= j < cs.len() ==> is_digit_char(#[trigger] cs[j]),
    ensures
        digits_end(cs, k) == cs.len(),
    decreases cs.len() - k,
{
    if k < cs.len() {
        assert(is_digit_char(cs[k]));
        lemma_digits_end_all(cs, k + 1);
    }
}

/// A digit-run value is the same in a sequence shifted by a prefix.
proof fn lemma_digits_val_shift(prefix: Seq<char>, s: Seq<char>, a: int, b: int)
    requires
        0 <= a <= b <= s.len(),
    ensures
        digits_val(prefix + s, prefix.len() + a, prefix.len() + b) == digits_val(s, a, b),
    decreases b - a,
{
    if a < b {
        lemma_digits_val_shift(prefix, s, a, b - 1);
        assert((prefix + s)[prefix.len() + b - 1] == s[b - 1]);
    }
}

} // verus!

verus! {

/// A rendered integer lexes to exactly its literal token.
proof fn lemma_lex_integer(i: i64)
    ensures
        lex_filtered(int_to_dec(i as int)) == Ok::<Seq<TokenV>, LexErr>(seq![TokenV::Int(i)]),
{
    let cs = int_to_dec(i as int);
    if i >= 0 {
        let n = i as int;
        lemma_dec_digits_shape(n);
        lemma_digits_val_of_dec(n);
        assert(cs == dec_digits(n));
        assert(is_digit_char(cs[0]));
        lemma_digits_end_all(cs, 1);
        assert(!crate::lexer::is_space_char(cs[0]) && cs[0] != '-' && cs[0] != '"' && cs[0] != '>'
            && cs[0] != '(' && cs[0] != ')');
        assert(digits_end(cs, 0) == cs.len());
        assert(digits_val(cs, 0, cs.len() as int) == n);
        assert(n < i64_min_magnitude());
        assert(next_token(cs, 0) == Ok::<(TokenV, int), LexErr>((TokenV::Int(i), cs.len() as int)));
    } else {
        let m = -(i as int);
        lemma_dec_digits_shape(m);
        lemma_digits_val_of_dec(m);
        let ds = dec_digits(m);
        assert(cs == seq!['-'] + ds);
        assert(cs[0] == '-');
        assert(cs.len() == ds.len() + 1);
        assert(forall|k: int| 1 <= k < cs.len() ==> is_digit_char(#[trigger] cs[k])) by {
            assert(forall|k: int| 1 <= k < cs.len() ==> cs[k] == #[trigger] ds[k - 1]);
        }
        assert(!crate::lexer::is_space_char('-'));
        assert(cs[1] == ds[0]);
        assert(is_digit_char(cs[1]));
        assert(cs[1] != '>' && cs[1] != '-');
        lemma_digits_end_all(cs, 1);
        assert(digits_end(cs, 1) == cs.len());
        lemma_digits_val_shift(seq!['-'], ds, 0, ds.len() as int);
        assert(seq!['-'] + ds =~= cs);
        assert(digits_val(cs, 1, cs.len() as int) == m);
        assert(m <= i64_min_magnitude());
        assert((-m) as i64 == i);
        assert(next_token(cs, 0) == Ok::<(TokenV, int), LexErr>((TokenV::Int(i), cs.len() as int)));
    }
    assert(lex_from(cs, cs.len() as int) == Ok::<Seq<TokenV>, LexErr>(Seq::empty()));
    assert(lex_from(cs, 0) == Ok::<Seq<TokenV>, LexErr>(seq![TokenV::Int(i)] + Seq::empty()));
    assert(seq![TokenV::Int(i)] + Seq::<TokenV>::empty() =~= seq![TokenV::Int(i)]);
    let ts = seq![TokenV::Int(i)];
    assert(strip_meta(ts.drop_last()) =~= Seq::<TokenV>::empty());
    assert(strip_meta(ts) =~= ts);
}

/// One integer literal token parses to a grouping of its literal element.
proof fn lemma_parse_integer(i: i64)
    ensures
        parse_model(seq![TokenV::Int(i)]) == Ok::<ElementV, Seq<char>>(
            ElementV::Grouping(seq![ElementV::Int(i)]),
        ),
{
    let ts = seq![TokenV::Int(i)];
    assert(p_pipe(ts, 0) is None);
    assert(p_let_scope(ts, 0) is None);
    assert(p_tuple(ts, 0) is None);
    assert(p_set(ts, 0) is None);
    assert(p_record(ts, 0) is None);
    assert(p_name(ts, 0) is None);
    assert(p_boolean(ts, 0) is None);
    assert(p_nothing(ts, 0) is None);
    assert(p_int(ts, 0) == Some((ElementV::Int(i), 1int)));
    assert(p_element_inner(ts, 0) == Some((ElementV::Int(i), 1int)));
    assert(p_tuple(ts, 1) is None);
    assert(p_set(ts, 1) is None);
    assert(p_record(ts, 1) is None);
    assert(p_name(ts, 1) is None);
    assert(p_boolean(ts, 1) is None);
    assert(p_nothing(ts, 1) is None);
    assert(p_int(ts, 1) is None);
    assert(p_string(ts, 1) is None);
    assert(p_let_scope(ts, 1) is None);
    assert(p_grouped_application(ts, 1) is None);
    assert(p_conditional(ts, 1) is None);
    assert(p_lambda(ts, 1) is None);
    assert(p_list(ts, 1) is None);
    assert(p_element_inner(ts, 1) is None);
    assert(p_inner_items(ts, 1) == (Seq::<ElementV>::empty(), 1int));
    assert(p_inner_items(ts, 0) == (seq![ElementV::Int(i)] + Seq::<ElementV>::empty(), 1int));
    assert(seq![ElementV::Int(i)] + Seq::<ElementV>::empty() =~= seq![ElementV::Int(i)]);
    assert(p_grouping(ts, 0) == Some((ElementV::Grouping(seq![ElementV::Int(i)]), 1int)));
    assert(p_element(ts, 0) == Some((ElementV::Grouping(seq![ElementV::Int(i)]), 1int)));
    assert(p_elements(ts, 1) == Some((Seq::<ElementV>::empty(), 1int)));
    let g = ElementV::Grouping(seq![ElementV::Int(i)]);
    assert(p_elements(ts, 0) == Some((seq![g] + Seq::<ElementV>::empty(), 1int)));
    assert(seq![g] + Seq::<ElementV>::empty() =~= seq![g]);
}

/// A grouping of one integer literal translates to the literal expression.
proof fn lemma_translate_integer(i: i64)
    ensures
        translate_model(ElementV::Grouping(seq![ElementV::Int(i)])) == Ok::<ExprV, Seq<char>>(
            ExprV::Int(i),
        ),
{
    let items = seq![ElementV::Int(i)];
    assert(process_pipes_model(items, 1, items) == Ok::<Seq<ElementV>, Seq<char>>(items));
    assert(Seq::<ElementV>::empty().push(items[0]) =~= items);
    assert(process_pipes_model(items, 0, Seq::empty()) == Ok::<Seq<ElementV>, Seq<char>>(items));
    assert(express_seq_model(items.drop_first()) == Ok::<Seq<ExprV>, Seq<char>>(Seq::empty()));
    assert(express_model(items[0]) == Ok::<ExprV, Seq<char>>(ExprV::Int(i)));
    assert(express_seq_model(items) == Ok::<Seq<ExprV>, Seq<char>>(
        seq![ExprV::Int(i)] + Seq::empty(),
    ));
    assert(seq![ExprV::Int(i)] + Seq::<ExprV>::empty() =~= seq![ExprV::Int(i)]);
    assert(express_model(ElementV::Grouping(items)) == Ok::<ExprV, Seq<char>>(ExprV::Int(i)));
}

/// Literal round trip, integer leg: rendering an integer value gives source
/// text that runs back to exactly the same value, leaving the environment
/// untouched.
pub proof fn lemma_integer_round_trip<T: PartialEq, F: crate::HostFunction<T>, X>(
    i: i64,
    env: BindingsV<T, F, X>,
    out: Result<ValueV<T>, Seq<char>>,
    env2: BindingsV<T, F, X>,
)
    requires
        crate::run_rel(render_value(ValueV::<T>::Int(i)), env, out, env2),
    ensures
        out == Ok::<ValueV<T>, Seq<char>>(ValueV::Int(i)),
        env2 == env,
{
    assert(render_value(ValueV::<T>::Int(i)) == int_to_dec(i as int));
    lemma_lex_integer(i);
    lemma_parse_integer(i);
    lemma_translate_integer(i);
    reveal_with_fuel(rel, 1);
}

} // verus!

verus! {

use crate::lexer::string_scan;
use crate::values::write_string_model;

/// Scanning an escaped string body reaches exactly the closing quote.
proof fn lemma_string_scan_at(cs: Seq<char>, i: int, s: Seq<char>)
    requires
        0 <= i,
        i + escape_str(s).len() < cs.len(),
        cs.subrange(i, i + escape_str(s).len() as int) == escape_str(s),
        cs[i + escape_str(s).len() as int] == '"',
    ensures
        string_scan(cs, i) == Ok::<int, LexErr>(i + escape_str(s).len() as int),
    decreases s.len(),
{
    let es = escape_str(s);
    if s.len() == 0 {
        assert(es =~= Seq::<char>::empty());
        assert(cs[i] == '"');
    } else {
        let c = s[0];
        let head = escape_char(c);
        let tail = escape_str(s.drop_first());
        assert(es == head + tail);
        assert(forall|k: int| 0 <= k < es.len() ==> cs[i + k] == #[trigger] es[k]) by {
            assert(forall|k: int|
                0 <= k < es.len() ==> cs.subrange(i, i + es.len() as int)[k] == #[trigger] es[k]);
        }
        if c == '\\' || c == '"' || c == '\n' || c == '\r' || c == '\t' {
            assert(head.len() == 2);
            assert(es[0] == head[0] && es[1] == head[1]);
            assert(head[0] == '\\');
            assert(cs[i + 0] == es[0]);
            assert(cs[i + 1] == es[1]);
            assert(cs[i] == '\\');
            assert(is_escape_char(head[1]));
            assert forall|k: int| 0 <= k < tail.len() implies cs[i + 2 + k] == #[trigger] tail[k] by {
                assert(es[2 + k] == tail[k]);
                assert(cs[i + (2 + k)] == es[2 + k]);
            }
            assert(cs.subrange(i + 2, i + 2 + tail.len() as int) =~= tail);
            lemma_string_scan_at(cs, i + 2, s.drop_first());
        } else {
            assert(head =~= seq![c]);
            assert(es[0] == head[0]);
            assert(cs[i + 0] == es[0]);
            assert(cs[i] == c);
            assert(c != '"' && c != '\\');
            assert forall|k: int| 0 <= k < tail.len() implies cs[i + 1 + k] == #[trigger] tail[k] by {
                assert(es[1 + k] == tail[k]);
                assert(cs[i + (1 + k)] == es[1 + k]);
            }
            assert(cs.subrange(i + 1, i + 1 + tail.len() as int) =~= tail);
            lemma_string_scan_at(cs, i + 1, s.drop_first());
        }
    }
}

/// A rendered string lexes to exactly its literal token, carrying the
/// escaped body.
proof fn lemma_lex_string(s: Seq<char>)
    ensures
        lex_filtered(write_string_model(s)) == Ok::<Seq<TokenV>, LexErr>(
            seq![TokenV::String(escape_str(s))],
        ),
{
    let es = escape_str(s);
    let cs = write_string_model(s);
    assert(cs == seq!['"'] + es + seq!['"']);
    assert(cs.len() == es.len() + 2);
    assert(cs[0] == '"');
    assert(cs.subrange(1, 1 + es.len() as int) =~= es);
    assert(cs[1 + es.len() as int] == '"');
    lemma_string_scan_at(cs, 1, s);
    assert(string_scan(cs, 1) == Ok::<int, LexErr>(1 + es.len() as int));
    assert(!crate::lexer::is_space_char('"'));
    assert(!crate::lexer::is_digit_char('"'));
    assert(cs.subrange(1, 1 + es.len() as int) == es);
    assert(next_token(cs, 0) == Ok::<(TokenV, int), LexErr>(
        (TokenV::String(es), cs.len() as int),
    ));
    assert(lex_from(cs, cs.len() as int) == Ok::<Seq<TokenV>, LexErr>(Seq::empty()));
    assert(lex_from(cs, 0) == Ok::<Seq<TokenV>, LexErr>(seq![TokenV::String(es)] + Seq::empty()));
    assert(seq![TokenV::String(es)] + Seq::<TokenV>::empty() =~= seq![TokenV::String(es)]);
    let ts = seq![TokenV::String(es)];
    assert(strip_meta(ts.drop_last()) =~= Seq::<TokenV>::empty());
    assert(strip_meta(ts) =~= ts);
}

/// One string literal token parses to a grouping of its literal element.
proof fn lemma_parse_string(body: Seq<char>)
    ensures
        parse_model(seq![TokenV::String(body)]) == Ok::<ElementV, Seq<char>>(
            ElementV::Grouping(seq![ElementV::String(body)]),
        ),
{
    let ts = seq![TokenV::String(body)];
    assert(p_pipe(ts, 0) is None);
    assert(p_let_scope(ts, 0) is None);
    assert(p_tuple(ts, 0) is None);
    assert(p_set(ts, 0) is None);
    assert(p_record(ts, 0) is None);
    assert(p_name(ts, 0) is None);
    assert(p_boolean(ts, 0) is None);
    assert(p_nothing(ts, 0) is None);
    assert(p_int(ts, 0) is None);
    assert(p_string(ts, 0) == Some((ElementV::String(body), 1int)));
    assert(p_element_inner(ts, 0) == Some((ElementV::String(body), 1int)));
    assert(p_tuple(ts, 1) is None);
    assert(p_set(ts, 1) is None);
    assert(p_record(ts, 1) is None);
    assert(p_name(ts, 1) is None);
    assert(p_boolean(ts, 1) is None);
    assert(p_nothing(ts, 1) is None);
    assert(p_int(ts, 1) is None);
    assert(p_string(ts, 1) is None);
    assert(p_let_scope(ts, 1) is None);
    assert(p_grouped_application(ts, 1) is None);
    assert(p_conditional(ts, 1) is None);
    assert(p_lambda(ts, 1) is None);
    assert(p_list(ts, 1) is None);
    assert(p_element_inner(ts, 1) is None);
    assert(p_inner_items(ts, 1) == (Seq::<ElementV>::empty(), 1int));
    assert(p_inner_items(ts, 0) == (
        seq![ElementV::String(body)] + Seq::<ElementV>::empty(),
        1int,
    ));
    assert(seq![ElementV::String(body)] + Seq::<ElementV>::empty() =~= seq![
        ElementV::String(body),
    ]);
    assert(p_grouping(ts, 0) == Some((ElementV::Grouping(seq![ElementV::String(body)]), 1int)));
    assert(p_element(ts, 0) == Some((ElementV::Grouping(seq![ElementV::String(body)]), 1int)));
    assert(p_elements(ts, 1) == Some((Seq::<ElementV>::empty(), 1int)));
    let g = ElementV::Grouping(seq![ElementV::String(body)]);
    assert(p_elements(ts, 0) == Some((seq![g] + Seq::<ElementV>::empty(), 1int)));
    assert(seq![g] + Seq::<ElementV>::empty() =~= seq![g]);
}

/// A grouping of one string literal translates to the literal expression.
proof fn lemma_translate_string(body: Seq<char>)
    ensures
        translate_model(ElementV::Grouping(seq![ElementV::String(body)])) == Ok::<
            ExprV,
            Seq<char>,
        >(ExprV::String(body)),
{
    let items = seq![ElementV::String(body)];
    assert(process_pipes_model(items, 1, items) == Ok::<Seq<ElementV>, Seq<char>>(items));
    assert(Seq::<ElementV>::empty().push(items[0]) =~= items);
    assert(process_pipes_model(items, 0, Seq::empty()) == Ok::<Seq<ElementV>, Seq<char>>(items));
    assert(express_seq_model(items.drop_first()) == Ok::<Seq<ExprV>, Seq<char>>(Seq::empty()));
    assert(express_model(items[0]) == Ok::<ExprV, Seq<char>>(ExprV::String(body)));
    assert(express_seq_model(items) == Ok::<Seq<ExprV>, Seq<char>>(
        seq![ExprV::String(body)] + Seq::empty(),
    ));
    assert(seq![ExprV::String(body)] + Seq::<ExprV>::empty() =~= seq![ExprV::String(body)]);
    assert(express_model(ElementV::Grouping(items)) == Ok::<ExprV, Seq<char>>(
        ExprV::String(body),
    ));
}

/// Literal round trip, string leg: rendering a string value gives source
/// text that runs back to exactly the same value — the renderer's escapes
/// and evaluation's unescaping invert — leaving the environment untouched.
pub proof fn lemma_string_round_trip<T: PartialEq, F: crate::HostFunction<T>, X>(
    s: Seq<char>,
    env: BindingsV<T, F, X>,
    out: Result<ValueV<T>, Seq<char>>,
    env2: BindingsV<T, F, X>,
)
    requires
        crate::run_rel(render_value(ValueV::<T>::String(s)), env, out, env2),
    ensures
        out == Ok::<ValueV<T>, Seq<char>>(ValueV::String(s)),
        env2 == env,
{
    assert(render_value(ValueV::<T>::String(s)) == write_string_model(s));
    lemma_lex_string(s);
    lemma_parse_string(escape_str(s));
    lemma_translate_string(escape_str(s));
    lemma_unescape_escape(s);
    reveal_with_fuel(rel, 1);
}

} // verus!

verus! {

use crate::bindings::{env_lookup, host_lookup};
use crate::interpreter::{host_args, host_call_rel};
use crate::preludes::{CommonFunction, and_binding_v, common_run_rel};

/// The host gap is closed: invoking the prelude's `Bool.and` with two
/// booleans bound under its parameter names derives exactly their
/// conjunction — the invocation outcome is pinned through the registered
/// function's own contract.
pub proof fn lemma_prelude_and_invocation<T: PartialEq, X>(
    env: BindingsV<T, CommonFunction, X>,
    l: bool,
    r: bool,
    out: Result<ValueV<T>, Seq<char>>,
)
    requires
        host_lookup(env.hosts, "Bool.and"@) == Some((and_binding_v(), CommonFunction::And)),
        env_lookup(env.scopes, "left"@) == Some(ValueV::<T>::Boolean(l)),
        env_lookup(env.scopes, "right"@) == Some(ValueV::<T>::Boolean(r)),
        host_call_rel("Bool.and"@, env, out),
    ensures
        out == Ok::<ValueV<T>, Seq<char>>(ValueV::Boolean(l && r)),
{
    let ps = and_binding_v().parameters;
    assert(ps == seq![("left"@, crate::values::WanderType::Boolean), ("right"@, crate::values::WanderType::Boolean)]);
    assert(ps.drop_first() =~= seq![("right"@, crate::values::WanderType::Boolean)]);
    assert(ps.drop_first().drop_first() =~= Seq::<(Seq<char>, crate::values::WanderType)>::empty());
    assert(host_args(ps.drop_first().drop_first(), env.scopes) == Ok::<Seq<ValueV<T>>, Seq<char>>(
        Seq::empty(),
    ));
    assert(host_args(ps.drop_first(), env.scopes) == Ok::<Seq<ValueV<T>>, Seq<char>>(
        seq![ValueV::<T>::Boolean(r)] + Seq::empty(),
    ));
    let args = seq![ValueV::<T>::Boolean(l)] + (seq![ValueV::<T>::Boolean(r)] + Seq::empty());
    assert(host_args(ps, env.scopes) == Ok::<Seq<ValueV<T>>, Seq<char>>(args));
    assert(args.len() == 2 && args[0] == ValueV::<T>::Boolean(l) && args[1] == ValueV::<T>::Boolean(
        r,
    ));
    let (argv, rr) = choose|argv: Vec<crate::values::WanderValue<T>>, rr: Result<
        crate::values::WanderValue<T>,
        crate::WanderError,
    >|
        {
            &&& #[trigger] rel_witness(argv, rr)
            &&& crate::values::values_view(argv@) == args
            &&& call_ensures(
                <CommonFunction as crate::HostFunction<T>>::run,
                (&CommonFunction::And, &argv),
                rr,
            )
            &&& out == crate::interpreter::outcome_view(rr)
        };
    assert(common_run_rel(
        CommonFunction::And,
        crate::values::values_view(argv@),
        crate::interpreter::outcome_view(rr),
    ));
}

} // verus!
