use vstd::prelude::*;
use std::sync::Arc;
use vstd::string::StringSliceAdditionalSpecFns;
use crate::ast::{AstNode, ParserObject};
use crate::builtins::{builtin_add, builtin_is_equal, builtin_is_ok, builtin_ref, iter_call_args,
    new_with_tag, render_value, take_tagged};
use crate::parser::Parser;
use crate::scope::{
    global_bindings, path_view, scope_model, spec_get, spec_get_function, Scope, ScopeModel,
};
use crate::semantics::{
    args_match, fuel_msg, key_msg, lemma_tail_step, m_apply, m_args_rest, m_call_builtin,
    m_block_rest, m_call_defined, m_call_function, m_captures, m_eval, m_eval_args, m_iter_bytes,
    m_iter_list,
    missing_arg_msg, res_matches, tail_extends, EvalErr, EvalState, Outcome,
};
use crate::value::{
    clone_bytes, clone_bytes_from, clone_value, bytes_eq, CellStore, DefinedFn, FunctionHandle,
    FunctionModel, LenarError, LenarResult, LenarValue, RuntimeHost, ValueModel,
};

verus! {

/// The nesting limit: evaluation this deep fails with an error instead of
/// exhausting the call stack.
pub const DEFAULT_FUEL: u64 = 1048576;

/// A verified copy of a scope path.
fn clone_path(p: &Vec<usize>) -> (r: Vec<usize>)
    ensures
        r@ == p@,
{
    let mut out: Vec<usize> = Vec::new();
    let mut i: usize = 0;
    while i < p.len()
        invariant
            i <= p@.len(),
            out@ == p@.take(i as int),
        decreases p@.len() - i,
    {
        out.push(p[i]);
        i += 1;
        proof {
            assert(out@ =~= p@.take(i as int));
        }
    }
    proof {
        assert(p@.take(p@.len() as int) =~= p@);
    }
    out
}

/// The message of the error raised when the nesting limit is reached.
fn fuel_message() -> (r: String)
    ensures
        r@ == fuel_msg(),
{
    "the nesting limit was reached".to_owned()
}

/// The message of the error raised on a dangling node key.
fn key_message() -> (r: String)
    ensures
        r@ == key_msg(),
{
    "a node key was out of range".to_owned()
}

/// Evaluate the node under `key` in the scope chain named by `scope_path`.
///
/// The contract ties the run to the evaluation model [`m_eval`]: wherever the
/// model is `Done`, the scope tree, the cell store and the result are
/// exactly what it says - literals to their values, a bare identifier to the
/// innermost non-void binding, a definition binding its name and yielding
/// void, a block running its children in order with a dropped scope per
/// child block and its last child's value escaping, a conditional running
/// its body only on the boolean true, a call evaluating arguments left to
/// right and invoking the resolved callable once, a function literal
/// snapshotting its capture list behind fresh cells. Where the model is
/// `Host`, the run has reached the embedding host and nothing further is
/// claimed.
pub fn evaluate_object<H: RuntimeHost>(
    parser: &Arc<Parser>,
    key: usize,
    scope: &mut Scope,
    scope_path: &Vec<usize>,
    cells: &mut CellStore,
    host: &mut H,
    fuel: u64,
) -> (r: LenarResult<LenarValue>)
    ensures
        ({
            let m = m_eval(
                parser.arena(),
                EvalState { scope: scope_model(*old(scope)), cells: old(cells)@ },
                path_view(scope_path@),
                key as int,
                fuel as nat,
            );
            m matches Outcome::Done(st2, res) ==> scope_model(*final(scope)) == st2.scope
                && final(cells)@ == st2.cells && res_matches(r, res)
        }),
    decreases fuel,
{
    let ghost arena = parser.arena();
    let ghost st0 = EvalState { scope: scope_model(*scope), cells: cells@ };
    let ghost pathv = path_view(scope_path@);
    let ghost m0 = m_eval(arena, st0, pathv, key as int, fuel as nat);
    if fuel == 0 {
        return Err(LenarError::WrongValue(fuel_message()));
    }
    let node = match parser.get_object(key) {
        Some(n) => n,
        None => {
            return Err(LenarError::WrongValue(key_message()));
        },
    };
    match node {
        ParserObject::NumberVal { value } => Ok(LenarValue::Usize(*value)),
        ParserObject::StringVal { value } => Ok(LenarValue::Str(value.clone())),
        ParserObject::BytesVal { value } => Ok(LenarValue::Bytes(clone_bytes(value))),
        ParserObject::VarRef { var_name } => {
            let r = scope.get_variable(var_name.as_slice(), scope_path.as_slice());
            proof {
                assert(arena.index(key as int)->VarRef_var_name == var_name@);
            }
            r
        },
        ParserObject::PropertyRef { path } => {
            let r = scope.get_variable_by_path(path, scope_path.as_slice(), host);
            proof {
                assert(crate::scope::segs_view(path@) =~= arena.index(
                    key as int,
                )->PropertyRef_path);
            }
            r
        },
        ParserObject::VarDef { block_value, var_name } => {
            let res = evaluate_object(parser, *block_value, scope, scope_path, cells, host, fuel
                - 1);
            match res {
                Err(e) => Err(e),
                Ok(v) => {
                    scope.define_variable(var_name.as_slice(), scope_path.as_slice(), v);
                    Ok(LenarValue::Void)
                },
            }
        },
        ParserObject::IfDef { condition_block, block_value } => {
            let cond = match evaluate_object(parser, *condition_block, scope, scope_path, cells,
                host, fuel - 1) {
                Err(e) => {
                    return Err(e);
                },
                Ok(c) => c,
            };
            let truthy = match &cond {
                LenarValue::Bool(b) => *b,
                _ => false,
            };
            proof {
                assert(truthy == (cond@ == ValueModel::Bool(true)));
            }
            if truthy {
                evaluate_object(parser, *block_value, scope, scope_path, cells, host, fuel - 1)
            } else {
                Ok(LenarValue::Void)
            }
        },
        ParserObject::FnDef { arguments_block, block_value, capture_value } => {
            // snapshot the capture list: each captured value goes behind a
            // fresh reference cell
            let ghost cap_children = if arena.dom().contains(*capture_value as int) && arena.index(
                *capture_value as int,
            ) is Block {
                arena.index(*capture_value as int)->Block_objects
            } else {
                Seq::<int>::empty()
            };
            let ghost mcap0 = m_captures(arena, st0, pathv, cap_children, 0);
            let mut captures: Vec<(Vec<u8>, LenarValue)> = Vec::new();
            match parser.get_object(*capture_value) {
                Some(ParserObject::Block { objects }) => {
                    proof {
                        assert(cap_children == objects@.map_values(|k: usize| k as int));
                        assert(caps_view(captures@) =~= Seq::<(Seq<u8>, ValueModel)>::empty());
                        match mcap0 {
                            Outcome::Done(st9, res9) => {
                                match res9 {
                                    Ok(t9) => {
                                        assert(Seq::<(Seq<u8>, ValueModel)>::empty() + t9 =~= t9);
                                    },
                                    Err(_) => {},
                                }
                                assert(tail_extends(mcap0, caps_view(captures@), mcap0));
                            },
                            Outcome::Host => {},
                        }
                    }
                    let n = objects.len();
                    let mut i: usize = 0;
                    while i < n
                        invariant
                            n == objects@.len(),
                            fuel > 0,
                            parser.arena() == arena,
                            arena.dom().contains(key as int),
                            arena.index(key as int) is FnDef,
                            cap_children == objects@.map_values(|k: usize| k as int),
                            cap_children.len() == n,
                            i <= n,
                            arena.index(key as int) == (AstNode::FnDef {
                                arguments_block: *arguments_block as int,
                                block_value: *block_value as int,
                                capture_value: *capture_value as int,
                            }),
                            cap_children == (if arena.dom().contains(*capture_value as int)
                                && arena.index(*capture_value as int) is Block {
                                arena.index(*capture_value as int)->Block_objects
                            } else {
                                Seq::<int>::empty()
                            }),
                            st0 == (EvalState {
                                scope: scope_model(*old(scope)),
                                cells: old(cells)@,
                            }),
                            pathv == path_view(scope_path@),
                            m0 == m_eval(arena, st0, pathv, key as int, fuel as nat),
                            mcap0 == m_captures(arena, st0, pathv, cap_children, 0),
                            scope_model(*scope) == st0.scope,
                            (mcap0 matches Outcome::Done(_, _)) ==> tail_extends(
                                m_captures(
                                    arena,
                                    EvalState { scope: st0.scope, cells: cells@ },
                                    pathv,
                                    cap_children,
                                    i as int,
                                ),
                                caps_view(captures@),
                                mcap0,
                            ),
                        decreases n - i,
                    {
                        let cap_key = objects[i];
                        let ghost pre_tail = m_captures(
                            arena,
                            EvalState { scope: st0.scope, cells: cells@ },
                            pathv,
                            cap_children,
                            i as int,
                        );
                        match parser.get_object(cap_key) {
                            Some(ParserObject::VarRef { var_name }) => {
                                let v = match scope.get_variable(
                                    var_name.as_slice(),
                                    scope_path.as_slice(),
                                ) {
                                    Err(e) => {
                                        proof {
                                            match m0 {
                                                Outcome::Done(st2x, res2x) => {
                                                    assert(cap_children[i as int]
                                                        == cap_key as int);
                                                    assert(arena.index(
                                                        cap_key as int,
                                                    )->VarRef_var_name == var_name@);
                                                    assert(pre_tail == Outcome::<
                                                        Seq<(Seq<u8>, ValueModel)>,
                                                    >::Done(
                                                        EvalState {
                                                            scope: st0.scope,
                                                            cells: cells@,
                                                        },
                                                        Err(EvalErr::VarNotFound(var_name@)),
                                                    ));
                                                },
                                                Outcome::Host => {},
                                            }
                                        }
                                        return Err(e);
                                    },
                                    Ok(v) => v,
                                };
                                let ghost pre_caps = captures@;
                                let ghost pre_cells = cells@;
                                let cell = builtin_ref(v, cells);
                                captures.push((clone_bytes(var_name), cell));
                                proof {
                                    assert(caps_view(captures@) =~= caps_view(pre_caps).push(
                                        (var_name@, ValueModel::Ref(pre_cells.len() as int)),
                                    ));
                                    if mcap0 matches Outcome::Done(_, _) {
                                        assert(cap_children[i as int] == cap_key as int);
                                        assert(arena.index(cap_key as int)->VarRef_var_name
                                            == var_name@);
                                        assert(spec_get(st0.scope, pathv, var_name@) == Some(v@));
                                        assert(pre_tail == crate::semantics::cons_outcome(
                                            (var_name@, ValueModel::Ref(pre_cells.len() as int)),
                                            m_captures(
                                                arena,
                                                EvalState { scope: st0.scope, cells: cells@ },
                                                pathv,
                                                cap_children,
                                                i as int + 1,
                                            ),
                                        ));
                                        lemma_tail_step(
                                            m_captures(
                                                arena,
                                                EvalState { scope: st0.scope, cells: cells@ },
                                                pathv,
                                                cap_children,
                                                i as int + 1,
                                            ),
                                            caps_view(pre_caps),
                                            (var_name@, ValueModel::Ref(pre_cells.len() as int)),
                                            mcap0,
                                        );
                                    }
                                }
                            },
                            _ => {},
                        }
                        i += 1;
                    }
                    let r = Ok(
                        LenarValue::Function(
                            FunctionHandle::Defined(
                                DefinedFn {
                                    arguments_block: *arguments_block,
                                    block_value: *block_value,
                                    captures,
                                },
                            ),
                        ),
                    );
                    proof {
                        match m0 {
                            Outcome::Done(st2, res) => {
                                assert(!(mcap0 is Host));
                                assert(i == n && cap_children.len() == n as int);
                                assert(tail_extends(
                                    m_captures(
                                        arena,
                                        EvalState { scope: st0.scope, cells: cells@ },
                                        pathv,
                                        cap_children,
                                        i as int,
                                    ),
                                    caps_view(captures@),
                                    mcap0,
                                ));
                                assert(m_captures(
                                    arena,
                                    EvalState { scope: st0.scope, cells: cells@ },
                                    pathv,
                                    cap_children,
                                    i as int,
                                ) == Outcome::<Seq<(Seq<u8>, ValueModel)>>::Done(
                                    EvalState { scope: st0.scope, cells: cells@ },
                                    Ok(Seq::empty()),
                                ));
                                match mcap0 {
                                    Outcome::Done(stc, rescc) => {
                                        match rescc {
                                            Ok(caps) => {
                                                assert(caps_view(captures@) + Seq::<(
                                                    Seq<u8>,
                                                    ValueModel,
                                                )>::empty() =~= caps_view(captures@));
                                                assert(caps == caps_view(captures@));
                                                assert(r->Ok_0@ is Function);
                                                let mcaps = r->Ok_0@->Function_0->Defined_captures;
                                                assert forall|j: int|
                                                    0 <= j < mcaps.len() implies mcaps[j]
                                                    == caps_view(captures@)[j] by {
                                                    assert(mcaps[j] == (
                                                        captures@[j].0@,
                                                        crate::value::vm(captures@[j].1),
                                                    ));
                                                    assert(caps_view(captures@)[j] == (
                                                        captures@[j].0@,
                                                        captures@[j].1@,
                                                    ));
                                                }
                                                assert(mcaps =~= caps_view(captures@));
                                                assert(r->Ok_0@ =~~= ValueModel::Function(
                                                    FunctionModel::Defined {
                                                        arguments_block: *arguments_block as int,
                                                        block_value: *block_value as int,
                                                        captures: caps_view(captures@),
                                                    },
                                                ));
                                            },
                                            Err(_) => {},
                                        }
                                    },
                                    Outcome::Host => {},
                                }
                            },
                            Outcome::Host => {},
                        }
                    }
                    return r;
                },
                _ => {},
            }
            let r = Ok(
                LenarValue::Function(
                    FunctionHandle::Defined(
                        DefinedFn {
                            arguments_block: *arguments_block,
                            block_value: *block_value,
                            captures,
                        },
                    ),
                ),
            );
            proof {
                assert(cap_children.len() == 0);
                assert(caps_view(captures@) =~= Seq::<(Seq<u8>, ValueModel)>::empty());
                match m0 {
                    Outcome::Done(st2, res) => {
                        assert(mcap0 =~~= Outcome::<Seq<(Seq<u8>, ValueModel)>>::Done(
                            st0,
                            Ok(Seq::empty()),
                        ));
                        assert(r->Ok_0@ is Function);
                        let mcaps = r->Ok_0@->Function_0->Defined_captures;
                        assert forall|j: int| 0 <= j < mcaps.len() implies mcaps[j] == caps_view(
                            captures@,
                        )[j] by {
                            assert(mcaps[j] == (captures@[j].0@, crate::value::vm(captures@[j].1)));
                            assert(caps_view(captures@)[j] == (captures@[j].0@, captures@[j].1@));
                        }
                        assert(mcaps =~= caps_view(captures@));
                        assert(r->Ok_0@ =~~= ValueModel::Function(
                            FunctionModel::Defined {
                                arguments_block: *arguments_block as int,
                                block_value: *block_value as int,
                                captures: caps_view(captures@),
                            },
                        ));
                    },
                    Outcome::Host => {},
                }
            }
            r
        },
        ParserObject::FunctionCall { fn_name, arguments } => {
            if bytes_eq(fn_name.as_slice(), "thread".as_bytes()) {
                // a `thread(...)` call spawns a task: the arguments are
                // evaluated here, in the spawning task, and the host runs
                // the call on a task of its own, handing back a handle id
                proof {
                    assert(arena.index(key as int)->FunctionCall_fn_name == "thread".spec_bytes());
                }
                let args = match eval_args(parser, *arguments, scope, scope_path, cells, host,
                    fuel - 1) {
                    Err(e) => {
                        return Err(e);
                    },
                    Ok(a) => a,
                };
                let id = host.spawn_task(fn_name, args);
                Ok(LenarValue::Usize(id))
            } else {
                proof {
                    assert(arena.index(key as int)->FunctionCall_fn_name == fn_name@);
                }
                let ghost margs = m_eval_args(arena, st0, pathv, *arguments as int, (fuel
                    - 1) as nat);
                proof {
                    match m0 {
                        Outcome::Done(st2x, res2x) => {
                            assert(!(margs is Host));
                        },
                        Outcome::Host => {},
                    }
                }
                let args = match eval_args(parser, *arguments, scope, scope_path, cells, host,
                    fuel - 1) {
                    Err(e) => {
                        return Err(e);
                    },
                    Ok(a) => a,
                };
                let ghost mcf = m_call_function(
                    arena,
                    EvalState { scope: scope_model(*scope), cells: cells@ },
                    pathv,
                    fn_name@,
                    args_view(args@),
                    (fuel - 1) as nat,
                );
                proof {
                    match m0 {
                        Outcome::Done(st2x, res2x) => {
                            assert(m0 == mcf);
                        },
                        Outcome::Host => {},
                    }
                }
                scope.call_function(
                    fn_name.as_slice(),
                    scope_path.as_slice(),
                    args,
                    parser,
                    cells,
                    host,
                    fuel - 1,
                )
            }
        },
        ParserObject::Block { objects } => {
            let ghost children = arena.index(key as int)->Block_objects;
            let n = objects.len();
            if n == 0 {
                return Ok(LenarValue::Void);
            }
            let mut next_scope_id: usize = if scope_path.len() > 0 {
                scope_path[scope_path.len() - 1]
            } else {
                0
            };
            proof {
                assert(children == objects@.map_values(|k: usize| k as int));
                if pathv.len() > 0 {
                    assert(pathv.last() == next_scope_id as int);
                }
            }
            let mut i: usize = 0;
            while i < n
                invariant
                    n == objects@.len(),
                    n > 0,
                    i < n,
                    fuel > 0,
                    parser.arena() == arena,
                    arena.dom().contains(key as int),
                    arena.index(key as int) is Block,
                    children == objects@.map_values(|k: usize| k as int),
                    children.len() == n,
                    st0 == (EvalState { scope: scope_model(*old(scope)), cells: old(cells)@ }),
                    m0 == m_eval(arena, st0, pathv, key as int, fuel as nat),
                    pathv == path_view(scope_path@),
                    (m0 matches Outcome::Done(_, _)) ==> m0 == m_block_rest(
                        arena,
                        EvalState { scope: scope_model(*scope), cells: cells@ },
                        pathv,
                        children,
                        i as int,
                        next_scope_id as int,
                        fuel as nat,
                    ),
                decreases n - i,
            {
                let child_key = objects[i];
                let is_last = i + 1 == n;
                let ghost pre_rest = m_block_rest(
                    arena,
                    EvalState { scope: scope_model(*scope), cells: cells@ },
                    pathv,
                    children,
                    i as int,
                    next_scope_id as int,
                    fuel as nat,
                );
                let child_is_block = match parser.get_object(child_key) {
                    Some(ParserObject::Block { .. }) => true,
                    _ => false,
                };
                proof {
                    assert(child_is_block == (arena.dom().contains(child_key as int)
                        && arena.index(child_key as int) is Block));
                }
                proof {
                    assert(children[i as int] == child_key as int);
                }
                let ghost pre_state = EvalState { scope: scope_model(*scope), cells: cells@ };
                let res: LenarResult<LenarValue> = if child_is_block {
                    if next_scope_id == usize::MAX {
                        proof {
                            match m0 {
                                Outcome::Done(st2x, res2x) => {
                                    assert(pre_rest == Outcome::<ValueModel>::Done(
                                        pre_state,
                                        Err(EvalErr::Wrong(fuel_msg())),
                                    ));
                                },
                                Outcome::Host => {},
                            }
                        }
                        return Err(LenarError::WrongValue(fuel_message()));
                    }
                    next_scope_id += 1;
                    scope.create_scope(scope_path.as_slice(), next_scope_id);
                    let mut sub_path = clone_path(scope_path);
                    sub_path.push(next_scope_id);
                    let ghost entered = EvalState { scope: scope_model(*scope), cells: cells@ };
                    let ghost mc = m_eval(
                        arena,
                        entered,
                        pathv.push(next_scope_id as int),
                        child_key as int,
                        (fuel - 1) as nat,
                    );
                    proof {
                        assert(path_view(sub_path@) =~= pathv.push(next_scope_id as int));
                        assert(entered.scope == crate::scope::spec_create(
                            pre_state.scope,
                            pathv,
                            next_scope_id as int,
                        ));
                        match m0 {
                            Outcome::Done(st2x, res2x) => {
                                assert(!(mc is Host));
                            },
                            Outcome::Host => {},
                        }
                    }
                    let rv = evaluate_object(parser, child_key, scope, &sub_path, cells, host,
                        fuel - 1);
                    let ghost post_child = EvalState { scope: scope_model(*scope), cells: cells@ };
                    scope.drop_scope(scope_path.as_slice(), next_scope_id);
                    proof {
                        match m0 {
                            Outcome::Done(st2x, res2x) => {
                                match mc {
                                    Outcome::Done(stc, resc) => {
                                        assert(post_child.scope == stc.scope && post_child.cells
                                            == stc.cells && res_matches(rv, resc));
                                        assert(scope_model(*scope) == crate::scope::spec_drop(
                                            stc.scope,
                                            pathv,
                                            next_scope_id as int,
                                        ));
                                        assert(pre_rest == (if is_last {
                                            Outcome::<ValueModel>::Done(
                                                EvalState {
                                                    scope: scope_model(*scope),
                                                    cells: cells@,
                                                },
                                                resc,
                                            )
                                        } else {
                                            match resc {
                                                Err(e) => Outcome::<ValueModel>::Done(
                                                    EvalState {
                                                        scope: scope_model(*scope),
                                                        cells: cells@,
                                                    },
                                                    Err(e),
                                                ),
                                                Ok(_) => m_block_rest(
                                                    arena,
                                                    EvalState {
                                                        scope: scope_model(*scope),
                                                        cells: cells@,
                                                    },
                                                    pathv,
                                                    children,
                                                    i as int + 1,
                                                    next_scope_id as int,
                                                    fuel as nat,
                                                ),
                                            }
                                        }));
                                    },
                                    Outcome::Host => {},
                                }
                            },
                            Outcome::Host => {},
                        }
                    }
                    rv
                } else {
                    let ghost mc = m_eval(arena, pre_state, pathv, child_key as int, (fuel
                        - 1) as nat);
                    proof {
                        match m0 {
                            Outcome::Done(st2x, res2x) => {
                                assert(!(mc is Host));
                            },
                            Outcome::Host => {},
                        }
                    }
                    let rv = evaluate_object(parser, child_key, scope, scope_path, cells, host,
                        fuel - 1);
                    proof {
                        match m0 {
                            Outcome::Done(st2x, res2x) => {
                                match mc {
                                    Outcome::Done(stc, resc) => {
                                        assert(scope_model(*scope) == stc.scope && cells@
                                            == stc.cells && res_matches(rv, resc));
                                        assert(pre_rest == (if is_last {
                                            Outcome::<ValueModel>::Done(stc, resc)
                                        } else {
                                            match resc {
                                                Err(e) => Outcome::<ValueModel>::Done(
                                                    stc,
                                                    Err(e),
                                                ),
                                                Ok(_) => m_block_rest(
                                                    arena,
                                                    stc,
                                                    pathv,
                                                    children,
                                                    i as int + 1,
                                                    next_scope_id as int,
                                                    fuel as nat,
                                                ),
                                            }
                                        }));
                                    },
                                    Outcome::Host => {},
                                }
                            },
                            Outcome::Host => {},
                        }
                    }
                    rv
                };
                if is_last {
                    return res;
                }
                match res {
                    Err(e) => {
                        return Err(e);
                    },
                    Ok(_) => {},
                }
                i += 1;
            }
            Ok(LenarValue::Void)
        },
    }
}

/// Evaluate the children of the `arguments` block, left to right, into the
/// call's argument values. Wherever the model [`m_eval_args`] is `Done`, the
/// values, the scope and the cells are exactly what it says; a child's error
/// stops the walk and is the call's error.
fn eval_args<H: RuntimeHost>(
    parser: &Arc<Parser>,
    arguments: usize,
    scope: &mut Scope,
    scope_path: &Vec<usize>,
    cells: &mut CellStore,
    host: &mut H,
    fuel: u64,
) -> (r: LenarResult<Vec<LenarValue>>)
    ensures
        ({
            let m = m_eval_args(
                parser.arena(),
                EvalState { scope: scope_model(*old(scope)), cells: old(cells)@ },
                path_view(scope_path@),
                arguments as int,
                fuel as nat,
            );
            m matches Outcome::Done(st2, res) ==> scope_model(*final(scope)) == st2.scope
                && final(cells)@ == st2.cells && args_match(r, res)
        }),
    decreases fuel,
{
    let ghost arena = parser.arena();
    let ghost st0 = EvalState { scope: scope_model(*scope), cells: cells@ };
    let ghost pathv = path_view(scope_path@);
    let ghost margs0 = m_eval_args(arena, st0, pathv, arguments as int, fuel as nat);
    if fuel == 0 {
        return Err(LenarError::WrongValue(fuel_message()));
    }
    let mut args: Vec<LenarValue> = Vec::new();
    match parser.get_object(arguments) {
        Some(ParserObject::Block { objects }) => {
            let ghost children = arena.index(arguments as int)->Block_objects;
            proof {
                assert(children == objects@.map_values(|k: usize| k as int));
                assert(args_view(args@) =~= Seq::<ValueModel>::empty());
                match margs0 {
                    Outcome::Done(st9, res9) => {
                        match res9 {
                            Ok(t9) => {
                                assert(Seq::<ValueModel>::empty() + t9 =~= t9);
                            },
                            Err(_) => {},
                        }
                        assert(tail_extends(
                            m_args_rest(arena, st0, pathv, children, 0, fuel as nat),
                            args_view(args@),
                            margs0,
                        ));
                    },
                    Outcome::Host => {},
                }
            }
            let n = objects.len();
            let mut i: usize = 0;
            while i < n
                invariant
                    n == objects@.len(),
                    fuel > 0,
                    parser.arena() == arena,
                    arena.dom().contains(arguments as int),
                    arena.index(arguments as int) is Block,
                    children == objects@.map_values(|k: usize| k as int),
                    children.len() == n,
                    i <= n,
                    st0 == (EvalState { scope: scope_model(*old(scope)), cells: old(cells)@ }),
                    pathv == path_view(scope_path@),
                    margs0 == m_eval_args(arena, st0, pathv, arguments as int, fuel as nat),
                    (margs0 matches Outcome::Done(_, _)) ==> tail_extends(
                        m_args_rest(
                            arena,
                            EvalState { scope: scope_model(*scope), cells: cells@ },
                            pathv,
                            children,
                            i as int,
                            fuel as nat,
                        ),
                        args_view(args@),
                        margs0,
                    ),
                decreases n - i,
            {
                let ghost pre_tail = m_args_rest(
                    arena,
                    EvalState { scope: scope_model(*scope), cells: cells@ },
                    pathv,
                    children,
                    i as int,
                    fuel as nat,
                );
                let child_key = objects[i];
                let ghost mc = m_eval(
                    arena,
                    EvalState { scope: scope_model(*scope), cells: cells@ },
                    pathv,
                    child_key as int,
                    (fuel - 1) as nat,
                );
                proof {
                    assert(children[i as int] == child_key as int);
                    match margs0 {
                        Outcome::Done(st9x, res9x) => {
                            assert(!(mc is Host));
                        },
                        Outcome::Host => {},
                    }
                }
                let v = match evaluate_object(parser, child_key, scope, scope_path, cells, host,
                    fuel - 1) {
                    Err(e) => {
                        return Err(e);
                    },
                    Ok(v) => v,
                };
                let ghost pre_args = args@;
                args.push(v);
                proof {
                    assert(args_view(args@) =~= args_view(pre_args).push(v@));
                    if margs0 matches Outcome::Done(_, _) {
                        lemma_tail_step(
                            m_args_rest(
                                arena,
                                EvalState { scope: scope_model(*scope), cells: cells@ },
                                pathv,
                                children,
                                i as int + 1,
                                fuel as nat,
                            ),
                            args_view(pre_args),
                            v@,
                            margs0,
                        );
                    }
                }
                i += 1;
            }
        },
        Some(_) => {
            proof {
                assert(args_view(args@) =~= Seq::<ValueModel>::empty());
            }
        },
        None => {
            return Err(LenarError::WrongValue(key_message()));
        },
    }
    Ok(args)
}

/// The parameter names of a function: the `VarRef` children of its
/// arguments block, in order.
pub open spec fn params_of(arena: Map<int, AstNode>, children: Seq<int>) -> Seq<Seq<u8>>
    decreases children.len(),
{
    if children.len() == 0 {
        Seq::empty()
    } else {
        let rest = params_of(arena, children.drop_first());
        if arena.contains_key(children.first()) && arena[children.first()] is VarRef {
            seq![arena[children.first()]->VarRef_var_name] + rest
        } else {
            rest
        }
    }
}

/// The bindings after the parameters are bound to the leading arguments, in
/// order.
pub open spec fn overlay_params(
    vars: Map<Seq<u8>, ValueModel>,
    params: Seq<Seq<u8>>,
    args: Seq<ValueModel>,
) -> Map<Seq<u8>, ValueModel>
    decreases params.len(),
{
    if params.len() == 0 || args.len() == 0 {
        vars
    } else {
        overlay_params(vars.insert(params.first(), args.first()), params.drop_first(),
            args.drop_first())
    }
}

/// The bindings after the captured values are injected.
pub open spec fn overlay_captures(
    vars: Map<Seq<u8>, ValueModel>,
    caps: Seq<(Seq<u8>, ValueModel)>,
) -> Map<Seq<u8>, ValueModel>
    decreases caps.len(),
{
    if caps.len() == 0 {
        vars
    } else {
        overlay_captures(vars.insert(caps.first().0, caps.first().1), caps.drop_first())
    }
}

/// The argument models of a call.
pub open spec fn args_view(args: Seq<LenarValue>) -> Seq<ValueModel> {
    args.map_values(|v: LenarValue| v@)
}

/// The capture models of a function literal.
pub open spec fn caps_view(caps: Seq<(Vec<u8>, LenarValue)>) -> Seq<(Seq<u8>, ValueModel)> {
    caps.map_values(|c: (Vec<u8>, LenarValue)| (c.0@, c.1@))
}

/// Build the scope a function literal's body runs in: the built-in library,
/// then the parameters bound to the leading arguments in order, then the
/// captured values - and nothing else. The defining call's other locals are
/// not reachable from it. Fails when the arguments run out before the
/// parameters do.
pub fn build_call_scope(parser: &Arc<Parser>, d: &DefinedFn, args: Vec<LenarValue>) -> (r:
    LenarResult<Scope>)
    ensures
        ({
            let arena = parser.arena();
            let params = if arena.dom().contains(d.arguments_block as int) && arena.index(
                d.arguments_block as int,
            ) is Block {
                params_of(arena, arena.index(d.arguments_block as int)->Block_objects)
            } else {
                Seq::empty()
            };
            &&& (r is Ok ==> scope_model(r->Ok_0) == (crate::scope::ScopeModel {
                vars: overlay_captures(
                    overlay_params(global_bindings(Map::empty()), params, args_view(args@)),
                    caps_view(d.captures@),
                ),
                children: Map::empty(),
            }))
            &&& ((r is Err) <==> params.len() > args@.len())
            &&& (r is Err ==> (r matches Err(LenarError::WrongValue(m)) && m@
                == missing_arg_msg()))
        }),
{
    let ghost args0 = args@;
    let ghost arena = parser.arena();
    let mut fscope = Scope::default();
    fscope.setup_globals();
    proof {
        assert(scope_model(fscope).vars =~= global_bindings(Map::empty()));
        assert(scope_model(fscope).children =~= Map::<int, crate::scope::ScopeModel>::empty());
    }
    let mut remaining = args;
    let empty_path: Vec<usize> = Vec::new();
    proof {
        assert(path_view(empty_path@) =~= Seq::<int>::empty());
    }
    let ghost goal_params = if arena.dom().contains(d.arguments_block as int) && arena.index(
        d.arguments_block as int,
    ) is Block {
        params_of(arena, arena.index(d.arguments_block as int)->Block_objects)
    } else {
        Seq::<Seq<u8>>::empty()
    };
    let ghost goal_vars = overlay_params(
        global_bindings(Map::empty()),
        goal_params,
        args_view(args0),
    );
    match parser.get_object(d.arguments_block) {
        Some(ParserObject::Block { objects }) => {
            let ghost all_children = arena.index(d.arguments_block as int)->Block_objects;
            proof {
                assert(all_children == objects@.map_values(|k: usize| k as int));
                assert(all_children.skip(0) =~= all_children);
            }
            let n = objects.len();
            let mut i: usize = 0;
            while i < n
                invariant
                    parser.arena() == arena,
                    n == objects@.len(),
                    all_children == objects@.map_values(|k: usize| k as int),
                    i <= n,
                    path_view(empty_path@) == Seq::<int>::empty(),
                    scope_model(fscope).children =~= Map::<int, crate::scope::ScopeModel>::empty(),
                    overlay_params(
                        scope_model(fscope).vars,
                        params_of(arena, all_children.skip(i as int)),
                        args_view(remaining@),
                    ) == goal_vars,
                    params_of(arena, all_children.skip(i as int)).len() + (args0.len()
                        - remaining@.len()) == goal_params.len(),
                    remaining@.len() <= args0.len(),
                    args0 == args@,
                    goal_params == (if arena.dom().contains(d.arguments_block as int)
                        && arena.index(d.arguments_block as int) is Block {
                        params_of(arena, arena.index(d.arguments_block as int)->Block_objects)
                    } else {
                        Seq::<Seq<u8>>::empty()
                    }),
                decreases n - i,
            {
                let cap_key = objects[i];
                let ghost pre_rest = all_children.skip(i as int);
                proof {
                    assert(pre_rest.first() == cap_key as int);
                    assert(pre_rest.drop_first() =~= all_children.skip(i as int + 1));
                }
                match parser.get_object(cap_key) {
                    Some(ParserObject::VarRef { var_name }) => {
                        if remaining.len() == 0 {
                            proof {
                                let p = params_of(arena, pre_rest);
                                assert(p == seq![arena.index(cap_key as int)->VarRef_var_name]
                                    + params_of(arena, pre_rest.drop_first()));
                                assert(p.len() >= 1);
                                assert(goal_params.len() > args0.len());
                            }
                            return Err(
                                LenarError::WrongValue("an argument is missing".to_owned()),
                            );
                        }
                        let ghost pre_args = remaining@;
                        let ghost pre_vars = scope_model(fscope).vars;
                        let v = remaining.remove(0);
                        let ghost gv = v;
                        fscope.define_variable(var_name.as_slice(), empty_path.as_slice(), v);
                        proof {
                            let p = params_of(arena, pre_rest);
                            assert(p == seq![arena.index(cap_key as int)->VarRef_var_name]
                                + params_of(arena, pre_rest.drop_first()));
                            assert(p.first() == var_name@);
                            assert(p.drop_first() =~= params_of(arena, pre_rest.drop_first()));
                            assert(args_view(pre_args).first() == gv@);
                            assert(args_view(remaining@) =~= args_view(pre_args).drop_first());
                            assert(scope_model(fscope).vars == pre_vars.insert(var_name@, gv@));
                            assert(overlay_params(pre_vars, p, args_view(pre_args))
                                == overlay_params(
                                pre_vars.insert(p.first(), args_view(pre_args).first()),
                                p.drop_first(),
                                args_view(pre_args).drop_first(),
                            ));
                        }
                    },
                    _ => {
                        proof {
                            assert(params_of(arena, pre_rest) == params_of(
                                arena,
                                pre_rest.drop_first(),
                            ));
                        }
                    },
                }
                i += 1;
            }
            proof {
                assert(all_children.skip(n as int).len() == 0);
                assert(params_of(arena, all_children.skip(n as int)).len() == 0);
                assert(scope_model(fscope).vars == goal_vars);
                assert(goal_params.len() <= args0.len());
            }
        },
        _ => {
            proof {
                assert(goal_params.len() == 0);
                assert(scope_model(fscope).vars == goal_vars);
            }
        },
    }
    // inject the captured values
    let ghost goal2 = overlay_captures(goal_vars, caps_view(d.captures@));
    proof {
        assert(d.captures@.skip(0) =~= d.captures@);
    }
    let m = d.captures.len();
    let mut j: usize = 0;
    while j < m
        invariant
            m == d.captures@.len(),
            j <= m,
            path_view(empty_path@) == Seq::<int>::empty(),
            scope_model(fscope).children =~= Map::<int, crate::scope::ScopeModel>::empty(),
            overlay_captures(
                scope_model(fscope).vars,
                caps_view(d.captures@.skip(j as int)),
            ) == goal2,
        decreases m - j,
    {
        let pair = &d.captures[j];
        let ghost pre_vars = scope_model(fscope).vars;
        let ghost pre_rest = caps_view(d.captures@.skip(j as int));
        let cv = clone_value(&pair.1);
        fscope.define_variable(pair.0.as_slice(), empty_path.as_slice(), cv);
        proof {
            assert(d.captures@.skip(j as int).first() == d.captures@[j as int]);
            assert(pre_rest.first() == (d.captures@[j as int].0@, d.captures@[j as int].1@));
            assert(pre_rest.drop_first() =~= caps_view(d.captures@.skip(j as int + 1)));
            assert(scope_model(fscope).vars == pre_vars.insert(
                d.captures@[j as int].0@,
                d.captures@[j as int].1@,
            ));
            assert(overlay_captures(pre_vars, pre_rest) == overlay_captures(
                pre_vars.insert(pre_rest.first().0, pre_rest.first().1),
                pre_rest.drop_first(),
            ));
        }
        j += 1;
    }
    proof {
        assert(caps_view(d.captures@.skip(m as int)).len() == 0);
        assert(scope_model(fscope) =~~= (crate::scope::ScopeModel {
            vars: goal2,
            children: Map::empty(),
        }));
    }
    Ok(fscope)
}

/// Run a function literal: its body evaluates in the scope
/// [`build_call_scope`] makes, against a fresh scope path; the caller's
/// scope is untouched and the cells are shared. Wherever the model
/// [`m_call_defined`] is `Done`, cells and result are what it says.
fn call_defined<H: RuntimeHost>(
    parser: &Arc<Parser>,
    d: &DefinedFn,
    args: Vec<LenarValue>,
    cells: &mut CellStore,
    host: &mut H,
    fuel: u64,
    Ghost(sc): Ghost<ScopeModel>,
) -> (r: LenarResult<LenarValue>)
    ensures
        ({
            let m = m_call_defined(
                parser.arena(),
                EvalState { scope: sc, cells: old(cells)@ },
                d.arguments_block as int,
                d.block_value as int,
                caps_view(d.captures@),
                args_view(args@),
                fuel as nat,
            );
            m matches Outcome::Done(st2, res) ==> st2.scope == sc && st2.cells == final(cells)@
                && res_matches(r, res)
        }),
    decreases fuel,
{
    let ghost arena = parser.arena();
    let ghost m0 = m_call_defined(
        arena,
        EvalState { scope: sc, cells: cells@ },
        d.arguments_block as int,
        d.block_value as int,
        caps_view(d.captures@),
        args_view(args@),
        fuel as nat,
    );
    if fuel == 0 {
        return Err(LenarError::WrongValue(fuel_message()));
    }
    let mut fscope = match build_call_scope(parser, d, args) {
        Err(e) => {
            return Err(e);
        },
        Ok(fs) => fs,
    };
    let empty_path: Vec<usize> = Vec::new();
    let ghost entered = EvalState { scope: scope_model(fscope), cells: cells@ };
    let ghost mc = m_eval(
        arena,
        entered,
        Seq::empty(),
        d.block_value as int,
        (fuel - 1) as nat,
    );
    proof {
        assert(path_view(empty_path@) =~= Seq::<int>::empty());
        match m0 {
            Outcome::Done(st2x, res2x) => {
                assert(!(mc is Host));
            },
            Outcome::Host => {},
        }
    }
    let r = evaluate_object(parser, d.block_value, &mut fscope, &empty_path, cells, host, fuel
        - 1);
    r
}

/// Invoke a callable on evaluated arguments. Wherever the model
/// [`m_apply`] is `Done`, cells and result are what it says; a host
/// function's call is the host's to answer.
pub fn apply_function<H: RuntimeHost>(
    f: &FunctionHandle,
    args: Vec<LenarValue>,
    parser: &Arc<Parser>,
    cells: &mut CellStore,
    host: &mut H,
    fuel: u64,
    Ghost(sc): Ghost<ScopeModel>,
) -> (r: LenarResult<LenarValue>)
    ensures
        ({
            let m = m_apply(
                parser.arena(),
                EvalState { scope: sc, cells: old(cells)@ },
                LenarValue::Function(*f)@->Function_0,
                args_view(args@),
                fuel as nat,
            );
            m matches Outcome::Done(st2, res) ==> st2.scope == sc && st2.cells == final(cells)@
                && res_matches(r, res)
        }),
    decreases fuel,
{
    if fuel == 0 {
        return Err(LenarError::WrongValue(fuel_message()));
    }
    match f {
        FunctionHandle::Builtin(b) => call_builtin(*b, args, parser, cells, host, fuel - 1,
            Ghost(sc)),
        FunctionHandle::Host(name) => host.call_host_function(name, args),
        FunctionHandle::Defined(d) => {
            proof {
                assert(LenarValue::Function(*f)@->Function_0->Defined_captures =~= caps_view(
                    d.captures@,
                ));
            }
            call_defined(parser, d, args, cells, host, fuel - 1, Ghost(sc))
        },
    }
}

/// Run one built-in on evaluated arguments. The pure ones have their exact
/// results stated; the ones that write, sleep, open or join only promise the
/// shape of their answer, since the host decides the rest.
pub fn call_builtin<H: RuntimeHost>(
    b: crate::value::Builtin,
    args: Vec<LenarValue>,
    parser: &Arc<Parser>,
    cells: &mut CellStore,
    host: &mut H,
    fuel: u64,
    Ghost(sc): Ghost<ScopeModel>,
) -> (r: LenarResult<LenarValue>)
    ensures
        ({
            let m = m_call_builtin(
                parser.arena(),
                EvalState { scope: sc, cells: old(cells)@ },
                b,
                args_view(args@),
                fuel as nat,
            );
            m matches Outcome::Done(st2, res) ==> st2.scope == sc && st2.cells == final(cells)@
                && res_matches(r, res)
        }),
        fuel > 0 ==> match b {
            crate::value::Builtin::IsEqual => r is Ok && r->Ok_0@ == ValueModel::Bool(
                args@.len() >= 2 && crate::value::spec_eq(args@[0]@, args@[1]@),
            ) && final(cells)@ == old(cells)@,
            crate::value::Builtin::OkWrap => final(cells)@ == old(cells)@ && if args@.len() > 0 {
                r is Ok && r->Ok_0@ == crate::builtins::spec_make_tag(
                    crate::builtins::ok_tag(),
                    args@[0]@,
                )
            } else {
                r matches Err(LenarError::WrongValue(_))
            },
            crate::value::Builtin::ErrWrap => final(cells)@ == old(cells)@ && if args@.len() > 0 {
                r is Ok && r->Ok_0@ == crate::builtins::spec_make_tag(
                    crate::builtins::err_tag(),
                    args@[0]@,
                )
            } else {
                r matches Err(LenarError::WrongValue(_))
            },
            crate::value::Builtin::IsOk => final(cells)@ == old(cells)@ && if args@.len() > 0 {
                r is Ok && r->Ok_0@ == ValueModel::Bool(crate::builtins::spec_is_ok(args@[0]@))
            } else {
                r matches Err(LenarError::WrongValue(_))
            },
            crate::value::Builtin::Unwrap => final(cells)@ == old(cells)@ && if args@.len() > 0 {
                match args@[0]@ {
                    ValueModel::Enum(es) => match crate::builtins::enum_lookup(
                        es,
                        crate::builtins::ok_tag(),
                    ) {
                        Some(x) => r is Ok && r->Ok_0@ == x,
                        Option::None => r matches Err(LenarError::WrongValue(m)) && m@
                            == crate::builtins::ok_tag(),
                    },
                    _ => r is Ok && r->Ok_0@ == ValueModel::Void,
                }
            } else {
                r matches Err(LenarError::WrongValue(_))
            },
            crate::value::Builtin::UnwrapErr => final(cells)@ == old(cells)@ && if args@.len()
                > 0 {
                match args@[0]@ {
                    ValueModel::Enum(es) => match crate::builtins::enum_lookup(
                        es,
                        crate::builtins::err_tag(),
                    ) {
                        Some(x) => r is Ok && r->Ok_0@ == x,
                        Option::None => r matches Err(LenarError::WrongValue(m)) && m@
                            == crate::builtins::err_tag(),
                    },
                    _ => r is Ok && r->Ok_0@ == ValueModel::Void,
                }
            } else {
                r matches Err(LenarError::WrongValue(_))
            },
            crate::value::Builtin::RefNew => if args@.len() > 0 {
                final(cells)@ == old(cells)@.push(args@[0]@) && r is Ok && r->Ok_0@
                    == ValueModel::Ref(old(cells)@.len() as int)
            } else {
                final(cells)@ == old(cells)@ && (r matches Err(LenarError::WrongValue(_)))
            },
            crate::value::Builtin::Print => r is Ok && r->Ok_0@ == ValueModel::Void,
            crate::value::Builtin::Println => r is Ok && r->Ok_0@ == ValueModel::Void,
            crate::value::Builtin::Sleep => if args@.len() > 0 {
                r is Ok && r->Ok_0@ == ValueModel::Void
            } else {
                r matches Err(LenarError::WrongValue(_))
            },
            crate::value::Builtin::Wait => final(cells)@ == old(cells)@ && if args@.len() == 0 {
                r matches Err(LenarError::WrongValue(_))
            } else if args@[0]@ is Usize {
                (r is Ok && r->Ok_0@ == ValueModel::Void) || (r matches Err(
                    LenarError::WrongValue(_),
                ))
            } else {
                r is Ok && r->Ok_0@ == ValueModel::Void
            },
            crate::value::Builtin::OpenFile => final(cells)@ == old(cells)@ && if args@.len()
                == 0 {
                r matches Err(LenarError::WrongValue(_))
            } else {
                (r is Ok && r->Ok_0@ is Usize) || (r matches Err(LenarError::WrongValue(_)))
            },
            crate::value::Builtin::ToText => final(cells)@ == old(cells)@ && if args@.len()
                == 0 {
                r matches Err(LenarError::WrongValue(_))
            } else if args@[0]@ is Usize {
                (r is Ok && r->Ok_0@ is OwnedBytes) || (r matches Err(LenarError::WrongValue(_)))
            } else {
                r is Ok && r->Ok_0@ == ValueModel::Void
            },
            crate::value::Builtin::Iter => r is Ok ==> r->Ok_0@ == ValueModel::Void,
            crate::value::Builtin::ThreadRun => r is Ok ==> r->Ok_0@ == ValueModel::Void,
            _ => true,
        },
    decreases fuel,
{
    let ghost arena = parser.arena();
    let ghost argm = args_view(args@);
    let ghost m0 = m_call_builtin(
        arena,
        EvalState { scope: sc, cells: cells@ },
        b,
        argm,
        fuel as nat,
    );
    if fuel == 0 {
        return Err(LenarError::WrongValue(fuel_message()));
    }
    let mut rem = args;
    match b {
        crate::value::Builtin::IsEqual => {
            let r = Ok(builtin_is_equal(&rem));
            proof {
                if argm.len() >= 2 {
                    assert(argm[0] == rem@[0]@ && argm[1] == rem@[1]@);
                }
            }
            r
        },
        crate::value::Builtin::ListNew => {
            let r = Ok(LenarValue::List(rem));
            proof {
                assert(r->Ok_0@->List_0 =~= argm);
                assert(r->Ok_0@ =~~= ValueModel::List(argm));
            }
            r
        },
        crate::value::Builtin::OkWrap => {
            if rem.len() == 0 {
                return Err(LenarError::WrongValue(missing_argument_message()));
            }
            let v = rem.remove(0);
            Ok(new_with_tag("Ok", v))
        },
        crate::value::Builtin::ErrWrap => {
            if rem.len() == 0 {
                return Err(LenarError::WrongValue(missing_argument_message()));
            }
            let v = rem.remove(0);
            Ok(new_with_tag("Err", v))
        },
        crate::value::Builtin::IsOk => {
            if rem.len() == 0 {
                return Err(LenarError::WrongValue(missing_argument_message()));
            }
            Ok(builtin_is_ok(&rem[0]))
        },
        crate::value::Builtin::Unwrap => {
            if rem.len() == 0 {
                return Err(LenarError::WrongValue(missing_argument_message()));
            }
            let v = rem.remove(0);
            take_tagged(v, "Ok")
        },
        crate::value::Builtin::UnwrapErr => {
            if rem.len() == 0 {
                return Err(LenarError::WrongValue(missing_argument_message()));
            }
            let v = rem.remove(0);
            take_tagged(v, "Err")
        },
        crate::value::Builtin::RefNew => {
            if rem.len() == 0 {
                return Err(LenarError::WrongValue(missing_argument_message()));
            }
            let v = rem.remove(0);
            Ok(builtin_ref(v, cells))
        },
        crate::value::Builtin::Add => {
            if rem.len() < 2 {
                return Err(LenarError::WrongValue(missing_argument_message()));
            }
            let r = builtin_add(&rem[0], &rem[1], cells);
            proof {
                assert(argm[0] == rem@[0]@ && argm[1] == rem@[1]@);
            }
            r
        },
        crate::value::Builtin::Print => {
            let rendered = render_all(&rem, cells);
            host.write_out(&rendered);
            Ok(LenarValue::Void)
        },
        crate::value::Builtin::Println => {
            let mut rendered = render_all(&rem, cells);
            rendered.push(10);
            host.write_out(&rendered);
            Ok(LenarValue::Void)
        },
        crate::value::Builtin::Sleep => {
            if rem.len() == 0 {
                return Err(LenarError::WrongValue(missing_argument_message()));
            }
            match &rem[0] {
                LenarValue::Usize(ms) => {
                    host.sleep_ms(*ms);
                },
                _ => {},
            }
            Ok(LenarValue::Void)
        },
        crate::value::Builtin::Wait => {
            if rem.len() == 0 {
                return Err(LenarError::WrongValue(missing_argument_message()));
            }
            match &rem[0] {
                LenarValue::Usize(handle) => {
                    if host.join_task(*handle) {
                        Ok(LenarValue::Void)
                    } else {
                        Err(LenarError::WrongValue("a joined task failed".to_owned()))
                    }
                },
                _ => Ok(LenarValue::Void),
            }
        },
        crate::value::Builtin::OpenFile => {
            if rem.len() == 0 {
                return Err(LenarError::WrongValue(missing_argument_message()));
            }
            match rem[0].as_bytes() {
                Some(path) => {
                    let owned = clone_bytes_from(path);
                    match host.open_file(&owned) {
                        Some(rid) => Ok(LenarValue::Usize(rid)),
                        None => Err(LenarError::WrongValue("the file cannot be opened".to_owned())),
                    }
                },
                None => Err(LenarError::WrongValue("openFile needs a path".to_owned())),
            }
        },
        crate::value::Builtin::ToText => {
            if rem.len() == 0 {
                return Err(LenarError::WrongValue(missing_argument_message()));
            }
            match &rem[0] {
                LenarValue::Usize(rid) => {
                    match host.read_to_end(*rid) {
                        Some(buf) => Ok(LenarValue::OwnedBytes(buf)),
                        None => Err(LenarError::WrongValue("the file cannot be read".to_owned())),
                    }
                },
                _ => Ok(LenarValue::Void),
            }
        },
        crate::value::Builtin::ThreadRun => {
            if rem.len() == 0 {
                return Err(LenarError::WrongValue(missing_argument_message()));
            }
            let fun = rem.remove(0);
            match fun {
                LenarValue::Function(fh) => {
                    let ghost ma = m_apply(
                        arena,
                        EvalState { scope: sc, cells: cells@ },
                        argm[0]->Function_0,
                        argm.drop_first(),
                        (fuel - 1) as nat,
                    );
                    proof {
                        assert(args_view(rem@) =~= argm.drop_first());
                        assert(LenarValue::Function(fh)@->Function_0 == argm[0]->Function_0);
                        match m0 {
                            Outcome::Done(st2x, res2x) => {
                                assert(!(ma is Host));
                            },
                            Outcome::Host => {},
                        }
                    }
                    let applied = apply_function(&fh, rem, parser, cells, host, fuel - 1,
                        Ghost(sc));
                    match applied {
                        Err(e) => {
                            return Err(e);
                        },
                        Ok(_) => {},
                    }
                },
                _ => {},
            }
            Ok(LenarValue::Void)
        },
        crate::value::Builtin::Iter => {
            if rem.len() < 2 {
                return Err(LenarError::WrongValue(missing_argument_message()));
            }
            let iterator = rem.remove(0);
            let fun = rem.remove(0);
            let ghost iterm = iterator@;
            let ghost funm = fun@;
            proof {
                assert(iterm == argm[0] && funm == argm[1]);
            }
            match fun {
                LenarValue::Function(fh) => {
                    let ghost fm = funm->Function_0;
                    match iterator {
                        LenarValue::Usize(rid) => {
                            match host.read_to_end(rid) {
                                Some(buf) => {
                                    let ib = iter_bytes(&fh, &buf, parser, cells, host, fuel - 1,
                                        Ghost(sc));
                                    match ib {
                                        Err(e) => {
                                            return Err(e);
                                        },
                                        Ok(_) => {},
                                    }
                                },
                                None => {},
                            }
                        },
                        LenarValue::Bytes(buf) => {
                            let ghost mib = m_iter_bytes(
                                arena,
                                EvalState { scope: sc, cells: cells@ },
                                fm,
                                iterm->Bytes_0,
                                0,
                                (fuel - 1) as nat,
                            );
                            proof {
                                assert(buf@ == iterm->Bytes_0);
                                match m0 {
                                    Outcome::Done(st2x, res2x) => {
                                        assert(!(mib is Host));
                                    },
                                    Outcome::Host => {},
                                }
                            }
                            let ib = iter_bytes(&fh, &buf, parser, cells, host, fuel - 1,
                                Ghost(sc));
                            match ib {
                                Err(e) => {
                                    return Err(e);
                                },
                                Ok(_) => {},
                            }
                        },
                        LenarValue::OwnedBytes(buf) => {
                            let ghost mib = m_iter_bytes(
                                arena,
                                EvalState { scope: sc, cells: cells@ },
                                fm,
                                iterm->OwnedBytes_0,
                                0,
                                (fuel - 1) as nat,
                            );
                            proof {
                                assert(buf@ == iterm->OwnedBytes_0);
                                match m0 {
                                    Outcome::Done(st2x, res2x) => {
                                        assert(!(mib is Host));
                                    },
                                    Outcome::Host => {},
                                }
                            }
                            let ib = iter_bytes(&fh, &buf, parser, cells, host, fuel - 1,
                                Ghost(sc));
                            match ib {
                                Err(e) => {
                                    return Err(e);
                                },
                                Ok(_) => {},
                            }
                        },
                        LenarValue::List(items) => {
                            // the callback sees each element with its index,
                            // in list order
                            let ghost itemsm = iterm->List_0;
                            proof {
                                assert(itemsm.len() == items@.len());
                                assert(forall|k: int|
                                    0 <= k < items@.len() ==> itemsm[k] == (
                                    #[trigger] items@[k])@);
                            }
                            let argvs = iter_call_args(&items);
                            let n = argvs.len();
                            let mut i: usize = 0;
                            while i < n
                                invariant
                                    n == argvs@.len(),
                                    n == itemsm.len(),
                                    i <= n,
                                    fuel > 0,
                                    b == crate::value::Builtin::Iter,
                                    parser.arena() == arena,
                                    argm == args_view(args@),
                                    m0 == m_call_builtin(
                                        arena,
                                        EvalState { scope: sc, cells: old(cells)@ },
                                        b,
                                        argm,
                                        fuel as nat,
                                    ),
                                    iterm == argm[0],
                                    funm == argm[1],
                                    itemsm == iterm->List_0,
                                    iterm is List,
                                    funm is Function,
                                    LenarValue::Function(fh)@->Function_0 == fm,
                                    forall|k: int|
                                        0 <= k < n ==> (#[trigger] argvs@[k])@.len() == 2
                                            && argvs@[k]@[0]@ == itemsm[k] && argvs@[k]@[1]@
                                            == ValueModel::Usize(k),
                                    (m0 matches Outcome::Done(_, _)) ==> m0
                                        == crate::semantics::m_iter_done(
                                        m_iter_list(
                                            arena,
                                            EvalState { scope: sc, cells: cells@ },
                                            fm,
                                            itemsm,
                                            i as int,
                                            fuel as nat,
                                        ),
                                    ),
                                decreases n - i,
                            {
                                let ghost ma = m_apply(
                                    arena,
                                    EvalState { scope: sc, cells: cells@ },
                                    fm,
                                    seq![itemsm[i as int], ValueModel::Usize(i as int)],
                                    (fuel - 1) as nat,
                                );
                                proof {
                                    match m0 {
                                        Outcome::Done(st2x, res2x) => {
                                            assert(!(ma is Host));
                                        },
                                        Outcome::Host => {},
                                    }
                                }
                                let argv = clone_values(&argvs[i]);
                                proof {
                                    assert(args_view(argv@) =~= seq![
                                        itemsm[i as int],
                                        ValueModel::Usize(i as int),
                                    ]);
                                }
                                let applied = apply_function(&fh, argv, parser, cells, host, fuel
                                    - 1, Ghost(sc));
                                match applied {
                                    Err(e) => {
                                        return Err(e);
                                    },
                                    Ok(_) => {},
                                }
                                i += 1;
                            }
                        },
                        _ => {},
                    }
                },
                _ => {},
            }
            Ok(LenarValue::Void)
        },
    }
}

/// A verified copy of an argument vector.
fn clone_values(v: &Vec<LenarValue>) -> (r: Vec<LenarValue>)
    ensures
        r@.len() == v@.len(),
        forall|i: int| 0 <= i < v@.len() ==> (#[trigger] r@[i])@ == v@[i]@,
{
    let mut out: Vec<LenarValue> = Vec::new();
    let mut i: usize = 0;
    while i < v.len()
        invariant
            i <= v@.len(),
            out@.len() == i,
            forall|k: int| 0 <= k < i ==> (#[trigger] out@[k])@ == v@[k]@,
        decreases v@.len() - i,
    {
        out.push(clone_value(&v[i]));
        i += 1;
    }
    out
}

/// Invoke the callback once per byte, in stream order. Wherever the model
/// [`m_iter_bytes`] is `Done`, cells and result are what it says.
fn iter_bytes<H: RuntimeHost>(
    fh: &FunctionHandle,
    buf: &Vec<u8>,
    parser: &Arc<Parser>,
    cells: &mut CellStore,
    host: &mut H,
    fuel: u64,
    Ghost(sc): Ghost<ScopeModel>,
) -> (r: LenarResult<LenarValue>)
    ensures
        ({
            let m = m_iter_bytes(
                parser.arena(),
                EvalState { scope: sc, cells: old(cells)@ },
                LenarValue::Function(*fh)@->Function_0,
                buf@,
                0,
                fuel as nat,
            );
            m matches Outcome::Done(st2, res) ==> st2.scope == sc && st2.cells == final(cells)@
                && res_matches(r, res)
        }),
    decreases fuel,
{
    let ghost arena = parser.arena();
    let ghost fm = LenarValue::Function(*fh)@->Function_0;
    let ghost m0 = m_iter_bytes(
        arena,
        EvalState { scope: sc, cells: cells@ },
        fm,
        buf@,
        0,
        fuel as nat,
    );
    if fuel == 0 {
        return Err(LenarError::WrongValue(fuel_message()));
    }
    let n = buf.len();
    let mut i: usize = 0;
    while i < n
        invariant
            n == buf@.len(),
            i <= n,
            fuel > 0,
            parser.arena() == arena,
            LenarValue::Function(*fh)@->Function_0 == fm,
            m0 == m_iter_bytes(
                arena,
                EvalState { scope: sc, cells: old(cells)@ },
                fm,
                buf@,
                0,
                fuel as nat,
            ),
            (m0 matches Outcome::Done(_, _)) ==> m0 == m_iter_bytes(
                arena,
                EvalState { scope: sc, cells: cells@ },
                fm,
                buf@,
                i as int,
                fuel as nat,
            ),
        decreases n - i,
    {
        let ghost ma = m_apply(
            arena,
            EvalState { scope: sc, cells: cells@ },
            fm,
            seq![ValueModel::Byte(buf@[i as int])],
            (fuel - 1) as nat,
        );
        proof {
            match m0 {
                Outcome::Done(st2x, res2x) => {
                    assert(!(ma is Host));
                },
                Outcome::Host => {},
            }
        }
        let mut argv: Vec<LenarValue> = Vec::new();
        argv.push(LenarValue::Byte(buf[i]));
        proof {
            assert(args_view(argv@) =~= seq![ValueModel::Byte(buf@[i as int])]);
        }
        let applied = apply_function(fh, argv, parser, cells, host, fuel - 1, Ghost(sc));
        match applied {
            Err(e) => {
                return Err(e);
            },
            Ok(_) => {},
        }
        i += 1;
    }
    Ok(LenarValue::Void)
}

/// The rendered bytes of each argument, in order, run together.
fn render_all(args: &Vec<LenarValue>, cells: &CellStore) -> (r: Vec<u8>)
{
    let mut out: Vec<u8> = Vec::new();
    let bound = cells.len();
    let mut i: usize = 0;
    while i < args.len()
        decreases args@.len() - i,
    {
        let piece = render_value(&args[i], cells, bound);
        crate::builtins::append_bytes(&mut out, &piece);
        i += 1;
    }
    out
}

fn missing_argument_message() -> (r: String)
    ensures
        r@ == missing_arg_msg(),
{
    "an argument is missing".to_owned()
}

impl Scope {
    /// Resolve `name` through the scope chain and invoke it on `args`. A
    /// name that resolves to nothing is a `FunctionNotFound` error.
    pub fn call_function<H: RuntimeHost>(
        &self,
        name: &[u8],
        path: &[usize],
        args: Vec<LenarValue>,
        parser: &Arc<Parser>,
        cells: &mut CellStore,
        host: &mut H,
        fuel: u64,
    ) -> (r: LenarResult<LenarValue>)
        ensures
            ({
                let m = m_call_function(
                    parser.arena(),
                    EvalState { scope: scope_model(*self), cells: old(cells)@ },
                    path_view(path@),
                    name@,
                    args_view(args@),
                    fuel as nat,
                );
                m matches Outcome::Done(st2, res) ==> st2.scope == scope_model(*self)
                    && st2.cells == final(cells)@ && res_matches(r, res)
            }),
            (fuel > 0 && spec_get_function(
                scope_model(*self),
                old(cells)@,
                path_view(path@),
                name@,
            ) is None) ==> (r matches Err(LenarError::FunctionNotFound(n)) && n@ == name@),
        decreases fuel,
    {
        if fuel == 0 {
            return Err(LenarError::WrongValue(fuel_message()));
        }
        let f = self.get_function(name, path, cells);
        match f {
            Some(h) => {
                proof {
                    assert(spec_get_function(
                        scope_model(*self),
                        cells@,
                        path_view(path@),
                        name@,
                    ) == Some(LenarValue::Function(h)@->Function_0));
                }
                apply_function(&h, args, parser, cells, host, fuel - 1, Ghost(scope_model(*self)))
            },
            None => Err(LenarError::FunctionNotFound(clone_bytes_from(name))),
        }
    }
}

/// The interpreter's top-level entry points.
pub struct Runtime;

impl Runtime {
    /// Evaluate the parsed program's global block against a caller-provided
    /// scope, cell store and host: one evaluation of the global block, at
    /// the default nesting limit, exactly as the model [`m_eval`] fixes it
    /// wherever the host is not reached.
    pub fn run_with_scope<H: RuntimeHost>(
        scope: &mut Scope,
        parser: &Arc<Parser>,
        cells: &mut CellStore,
        host: &mut H,
    ) -> (r: LenarResult<LenarValue>)
        ensures
            ({
                let m = m_eval(
                    parser.arena(),
                    EvalState { scope: scope_model(*old(scope)), cells: old(cells)@ },
                    Seq::empty(),
                    parser.global(),
                    DEFAULT_FUEL as nat,
                );
                m matches Outcome::Done(st2, res) ==> scope_model(*final(scope)) == st2.scope
                    && final(cells)@ == st2.cells && res_matches(r, res)
            }),
    {
        let global = parser.get_global();
        let empty_path: Vec<usize> = Vec::new();
        proof {
            assert(path_view(empty_path@) =~= Seq::<int>::empty());
        }
        evaluate_object(parser, global, scope, &empty_path, cells, host, DEFAULT_FUEL)
    }

    /// Evaluate the parsed program in a fresh global scope seeded with the
    /// built-in library, and return the exit value the model fixes wherever
    /// the host is not reached.
    pub fn evaluate<H: RuntimeHost>(parser: &Arc<Parser>, host: &mut H) -> (r: LenarResult<
        LenarValue,
    >)
        ensures
            ({
                let m = m_eval(
                    parser.arena(),
                    EvalState {
                        scope: crate::scope::spec_setup_globals(crate::scope::empty_scope_model()),
                        cells: Seq::empty(),
                    },
                    Seq::empty(),
                    parser.global(),
                    DEFAULT_FUEL as nat,
                );
                m matches Outcome::Done(st2, res) ==> res_matches(r, res)
            }),
    {
        let mut scope = Scope::default();
        scope.setup_globals();
        let mut cells = CellStore::new();
        Self::run_with_scope(&mut scope, parser, &mut cells, host)
    }

    /// Parse `code` and run it to completion, discarding the exit value. A
    /// syntax error is fatal to the parse: nothing is evaluated then.
    pub fn run<H: RuntimeHost>(code: &str, host: &mut H) {
        let mut parser = Parser::new("");
        match parser.parse(code) {
            Ok(_) => {
                let parser = parser.wrap();
                let _result = Self::evaluate(&parser, host);
            },
            Err(_) => {},
        }
    }
}

/// The body of a spawned task: a fresh scope seeded with the built-ins, and
/// the named function called with the values the spawning task evaluated. A
/// host's `spawn_task` runs this on its new task.
pub fn run_spawned<H: RuntimeHost>(
    parser: &Arc<Parser>,
    fn_name: &Vec<u8>,
    args: Vec<LenarValue>,
    host: &mut H,
) -> (r: LenarResult<LenarValue>)
    ensures
        ({
            let m = m_call_function(
                parser.arena(),
                EvalState {
                    scope: crate::scope::spec_setup_globals(crate::scope::empty_scope_model()),
                    cells: Seq::empty(),
                },
                Seq::empty(),
                fn_name@,
                args_view(args@),
                DEFAULT_FUEL as nat,
            );
            m matches Outcome::Done(st2, res) ==> res_matches(r, res)
        }),
{
    let mut scope = Scope::default();
    scope.setup_globals();
    let mut cells = CellStore::new();
    let empty_path: Vec<usize> = Vec::new();
    proof {
        assert(path_view(empty_path@) =~= Seq::<int>::empty());
    }
    scope.call_function(
        fn_name.as_slice(),
        empty_path.as_slice(),
        args,
        parser,
        &mut cells,
        host,
        DEFAULT_FUEL,
    )
}

/// The names the built-in library binds.
pub open spec fn builtin_names_set() -> Set<Seq<u8>> {
    set![
        "add".spec_bytes(),
        "ref".spec_bytes(),
        "unwrapErr".spec_bytes(),
        "unwrap".spec_bytes(),
        "Err".spec_bytes(),
        "isOk".spec_bytes(),
        "Ok".spec_bytes(),
        "wait".spec_bytes(),
        "sleep".spec_bytes(),
        "thread".spec_bytes(),
        "list".spec_bytes(),
        "iter".spec_bytes(),
        "toString".spec_bytes(),
        "openFile".spec_bytes(),
        "print".spec_bytes(),
        "println".spec_bytes(),
        "Lenar".spec_bytes(),
        "isEqual".spec_bytes(),
    ]
}

proof fn lemma_global_bindings_other(m: Map<Seq<u8>, ValueModel>, name: Seq<u8>)
    requires
        !builtin_names_set().contains(name),
    ensures
        global_bindings(m).contains_key(name) == m.contains_key(name),
{
}

proof fn lemma_overlay_params_other(
    vars: Map<Seq<u8>, ValueModel>,
    params: Seq<Seq<u8>>,
    args: Seq<ValueModel>,
    name: Seq<u8>,
)
    requires
        forall|i: int| 0 <= i < params.len() ==> params[i] != name,
    ensures
        overlay_params(vars, params, args).contains_key(name) == vars.contains_key(name),
    decreases params.len(),
{
    if params.len() > 0 && args.len() > 0 {
        assert(params.first() == params[0]);
        assert(forall|i: int|
            0 <= i < params.drop_first().len() ==> params.drop_first()[i] == params[i + 1]);
        lemma_overlay_params_other(
            vars.insert(params.first(), args.first()),
            params.drop_first(),
            args.drop_first(),
            name,
        );
    }
}

proof fn lemma_overlay_captures_other(
    vars: Map<Seq<u8>, ValueModel>,
    caps: Seq<(Seq<u8>, ValueModel)>,
    name: Seq<u8>,
)
    requires
        forall|i: int| 0 <= i < caps.len() ==> (#[trigger] caps[i]).0 != name,
    ensures
        overlay_captures(vars, caps).contains_key(name) == vars.contains_key(name),
    decreases caps.len(),
{
    if caps.len() > 0 {
        assert(caps.first() == caps[0]);
        assert(forall|i: int|
            0 <= i < caps.drop_first().len() ==> caps.drop_first()[i] == caps[i + 1]);
        lemma_overlay_captures_other(
            vars.insert(caps.first().0, caps.first().1),
            caps.drop_first(),
            name,
        );
    }
}

/// A function literal's body sees exactly the built-in library, its
/// parameters and its explicit captures: a name that is none of these fails
/// to resolve from the call scope, whatever it was bound to at the defining
/// call's site.
pub proof fn lemma_capture_isolation(
    params: Seq<Seq<u8>>,
    args: Seq<ValueModel>,
    caps: Seq<(Seq<u8>, ValueModel)>,
    name: Seq<u8>,
)
    requires
        !builtin_names_set().contains(name),
        forall|i: int| 0 <= i < params.len() ==> params[i] != name,
        forall|i: int| 0 <= i < caps.len() ==> (#[trigger] caps[i]).0 != name,
    ensures
        spec_get(
            crate::scope::ScopeModel {
                vars: overlay_captures(
                    overlay_params(global_bindings(Map::empty()), params, args),
                    caps,
                ),
                children: Map::empty(),
            },
            Seq::empty(),
            name,
        ) is None,
{
    lemma_global_bindings_other(Map::empty(), name);
    lemma_overlay_params_other(global_bindings(Map::empty()), params, args, name);
    lemma_overlay_captures_other(
        overlay_params(global_bindings(Map::empty()), params, args),
        caps,
        name,
    );
}

} // verus!
