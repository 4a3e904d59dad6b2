use vstd::prelude::*;
use vstd::string::StringSliceAdditionalSpecFns;
use crate::ast::AstNode;
use crate::builtins::{enum_lookup, err_tag, ok_tag, spec_is_ok, spec_make_tag};
use crate::eval::{args_view, caps_view, overlay_captures, overlay_params, params_of};
use crate::scope::{
    global_bindings, spec_define, spec_create, spec_drop, spec_get, spec_get_by_path,
    spec_get_function, PathLookup, ScopeModel,
};
use crate::value::{
    spec_as_int, spec_eq, spec_set_int, Builtin, FunctionModel, LenarError, LenarResult,
    LenarValue, ValueModel,
};

verus! {

// The evaluation model: a fuelled, spec-level interpreter that mirrors the
// executable evaluator step for step. An outcome is `Done` with the state
// and result the run is bound to produce, or `Host` where the run reaches
// the embedding host (a spawned task's id, a joined task's fate, a file, a
// host function or object) - of such a run nothing further is claimed,
// since nothing is assumed of a host.
/// What an evaluator run reads and writes besides its own locals: the scope
/// tree and the store of shared cells.
#[verifier::ext_equal]
pub struct EvalState {
    pub scope: ScopeModel,
    pub cells: Seq<ValueModel>,
}

/// The model of an evaluation error.
#[verifier::ext_equal]
pub enum EvalErr {
    VarNotFound(Seq<u8>),
    FnNotFound(Seq<u8>),
    Wrong(Seq<char>),
}

/// The outcome of a modelled run.
#[verifier::ext_equal]
pub enum Outcome<T> {
    Done(EvalState, Result<T, EvalErr>),
    Host,
}

/// The message of the nesting-limit error.
pub open spec fn fuel_msg() -> Seq<char> {
    "the nesting limit was reached"@
}

/// The message of the dangling-key error.
pub open spec fn key_msg() -> Seq<char> {
    "a node key was out of range"@
}

/// The message of the missing-argument error.
pub open spec fn missing_arg_msg() -> Seq<char> {
    "an argument is missing"@
}

/// The message of the overflowing-add error.
pub open spec fn overflow_msg() -> Seq<char> {
    "the incremented value does not fit"@
}

/// The message of the path-less `openFile` error.
pub open spec fn no_path_msg() -> Seq<char> {
    "openFile needs a path"@
}

/// Whether an executable error is the modelled one.
pub open spec fn err_matches(e: LenarError, m: EvalErr) -> bool {
    match (e, m) {
        (LenarError::VariableNotFound(n), EvalErr::VarNotFound(nm)) => n@ == nm,
        (LenarError::FunctionNotFound(n), EvalErr::FnNotFound(nm)) => n@ == nm,
        (LenarError::WrongValue(s), EvalErr::Wrong(ms)) => s@ == ms,
        _ => false,
    }
}

/// Whether an executable result is the modelled one.
pub open spec fn res_matches(r: LenarResult<LenarValue>, m: Result<ValueModel, EvalErr>) -> bool {
    match (r, m) {
        (Ok(v), Ok(mv)) => v@ == mv,
        (Err(e), Err(me)) => err_matches(e, me),
        _ => false,
    }
}

/// One more collected element in front of a tail outcome.
pub open spec fn cons_outcome<T>(x: T, next: Outcome<Seq<T>>) -> Outcome<Seq<T>> {
    match next {
        Outcome::Host => Outcome::Host,
        Outcome::Done(s, Err(e)) => Outcome::Done(s, Err(e)),
        Outcome::Done(s, Ok(rest)) => Outcome::Done(s, Ok(seq![x] + rest)),
    }
}

/// A collected tail extends a prefix to the whole outcome: same final state,
/// the whole list being the prefix followed by the tail, and errors passed
/// through. A host escape extends nothing.
pub open spec fn tail_extends<T>(tail: Outcome<Seq<T>>, prefix: Seq<T>, whole: Outcome<Seq<T>>) -> bool {
    match (tail, whole) {
        (Outcome::Done(s2, Ok(t)), Outcome::Done(s3, Ok(w))) => s2 == s3 && w == prefix + t,
        (Outcome::Done(s2, Err(e)), Outcome::Done(s3, Err(e2))) => s2 == s3 && e == e2,
        _ => false,
    }
}

/// Collecting one element moves it from the tail to the prefix.
pub proof fn lemma_tail_step<T>(next: Outcome<Seq<T>>, prefix: Seq<T>, x: T, whole: Outcome<Seq<T>>)
    requires
        tail_extends(cons_outcome(x, next), prefix, whole),
    ensures
        tail_extends(next, prefix.push(x), whole),
{
    match next {
        Outcome::Done(s2, res2) => {
            match res2 {
                Ok(rest) => {
                    assert(prefix + (seq![x] + rest) =~= prefix.push(x) + rest);
                },
                Err(_) => {},
            }
        },
        Outcome::Host => {},
    }
}

/// Whether an executable argument list is the modelled one.
pub open spec fn args_match(r: LenarResult<Vec<LenarValue>>, m: Result<Seq<ValueModel>, EvalErr>) -> bool {
    match (r, m) {
        (Ok(vs), Ok(ms)) => args_view(vs@) == ms,
        (Err(e), Err(me)) => err_matches(e, me),
        _ => false,
    }
}

/// Evaluate the node under `key`; the model of `evaluate_object`.
pub open spec fn m_eval(
    arena: Map<int, AstNode>,
    st: EvalState,
    path: Seq<int>,
    key: int,
    fuel: nat,
) -> Outcome<ValueModel>
    decreases fuel, 3int, 0int,
{
    if fuel == 0 {
        Outcome::Done(st, Err(EvalErr::Wrong(fuel_msg())))
    } else if !arena.dom().contains(key) {
        Outcome::Done(st, Err(EvalErr::Wrong(key_msg())))
    } else {
        match arena[key] {
            AstNode::NumberVal { value } => Outcome::Done(st, Ok(ValueModel::Usize(value))),
            AstNode::StringVal { value } => Outcome::Done(st, Ok(ValueModel::Str(value))),
            AstNode::BytesVal { value } => Outcome::Done(st, Ok(ValueModel::Bytes(value))),
            AstNode::VarRef { var_name } => match spec_get(st.scope, path, var_name) {
                Some(v) => Outcome::Done(st, Ok(v)),
                Option::None => Outcome::Done(st, Err(EvalErr::VarNotFound(var_name))),
            },
            AstNode::PropertyRef { path: segs } => match spec_get_by_path(st.scope, path, segs) {
                Some(PathLookup::Found(v)) => Outcome::Done(st, Ok(v)),
                Some(PathLookup::Missing(n)) => Outcome::Done(st, Err(EvalErr::VarNotFound(n))),
                _ => Outcome::Host,
            },
            AstNode::VarDef { block_value, var_name } => match m_eval(
                arena,
                st,
                path,
                block_value,
                (fuel - 1) as nat,
            ) {
                Outcome::Host => Outcome::Host,
                Outcome::Done(st1, Err(e)) => Outcome::Done(st1, Err(e)),
                Outcome::Done(st1, Ok(v)) => Outcome::Done(
                    EvalState {
                        scope: spec_define(st1.scope, path, var_name, v),
                        cells: st1.cells,
                    },
                    Ok(ValueModel::Void),
                ),
            },
            AstNode::IfDef { condition_block, block_value } => match m_eval(
                arena,
                st,
                path,
                condition_block,
                (fuel - 1) as nat,
            ) {
                Outcome::Host => Outcome::Host,
                Outcome::Done(st1, Err(e)) => Outcome::Done(st1, Err(e)),
                Outcome::Done(st1, Ok(v)) => if v == ValueModel::Bool(true) {
                    m_eval(arena, st1, path, block_value, (fuel - 1) as nat)
                } else {
                    Outcome::Done(st1, Ok(ValueModel::Void))
                },
            },
            AstNode::FnDef { arguments_block, block_value, capture_value } => {
                let cap_children = if arena.dom().contains(capture_value) && arena[capture_value]
                    is Block {
                    arena[capture_value]->Block_objects
                } else {
                    Seq::empty()
                };
                match m_captures(arena, st, path, cap_children, 0) {
                    Outcome::Host => Outcome::Host,
                    Outcome::Done(st1, Err(e)) => Outcome::Done(st1, Err(e)),
                    Outcome::Done(st1, Ok(caps)) => Outcome::Done(
                        st1,
                        Ok(
                            ValueModel::Function(
                                FunctionModel::Defined {
                                    arguments_block,
                                    block_value,
                                    captures: caps,
                                },
                            ),
                        ),
                    ),
                }
            },
            AstNode::FunctionCall { fn_name, arguments } => if fn_name == "thread".spec_bytes() {
                match m_eval_args(arena, st, path, arguments, (fuel - 1) as nat) {
                    Outcome::Host => Outcome::Host,
                    Outcome::Done(st1, Err(e)) => Outcome::Done(st1, Err(e)),
                    Outcome::Done(_, Ok(_)) => Outcome::Host,
                }
            } else {
                match m_eval_args(arena, st, path, arguments, (fuel - 1) as nat) {
                    Outcome::Host => Outcome::Host,
                    Outcome::Done(st1, Err(e)) => Outcome::Done(st1, Err(e)),
                    Outcome::Done(st1, Ok(argvs)) => m_call_function(
                        arena,
                        st1,
                        path,
                        fn_name,
                        argvs,
                        (fuel - 1) as nat,
                    ),
                }
            },
            AstNode::Block { objects } => if objects.len() == 0 {
                Outcome::Done(st, Ok(ValueModel::Void))
            } else {
                let sid = if path.len() > 0 {
                    path.last()
                } else {
                    0
                };
                m_block_rest(arena, st, path, objects, 0, sid, fuel)
            },
        }
    }
}

/// The remaining children of a block; the model of the block loop inside
/// `evaluate_object`. A child block runs in a fresh scope that is dropped
/// right afterwards; the last child's result is the block's.
pub open spec fn m_block_rest(
    arena: Map<int, AstNode>,
    st: EvalState,
    path: Seq<int>,
    children: Seq<int>,
    i: int,
    sid: int,
    fuel: nat,
) -> Outcome<ValueModel>
    decreases fuel, 2int, children.len() - i,
{
    if !(0 <= i < children.len()) || fuel == 0 {
        // never reached from `m_eval`
        Outcome::Done(st, Ok(ValueModel::Void))
    } else {
        let child = children[i];
        let is_last = i == children.len() - 1;
        let child_is_block = arena.dom().contains(child) && arena[child] is Block;
        if child_is_block {
            if sid == usize::MAX {
                Outcome::Done(st, Err(EvalErr::Wrong(fuel_msg())))
            } else {
                let sid2 = sid + 1;
                let entered = EvalState {
                    scope: spec_create(st.scope, path, sid2),
                    cells: st.cells,
                };
                match m_eval(arena, entered, path.push(sid2), child, (fuel - 1) as nat) {
                    Outcome::Host => Outcome::Host,
                    Outcome::Done(stc, res) => {
                        let left = EvalState {
                            scope: spec_drop(stc.scope, path, sid2),
                            cells: stc.cells,
                        };
                        if is_last {
                            Outcome::Done(left, res)
                        } else {
                            match res {
                                Err(e) => Outcome::Done(left, Err(e)),
                                Ok(_) => m_block_rest(
                                    arena,
                                    left,
                                    path,
                                    children,
                                    i + 1,
                                    sid2,
                                    fuel,
                                ),
                            }
                        }
                    },
                }
            }
        } else {
            match m_eval(arena, st, path, child, (fuel - 1) as nat) {
                Outcome::Host => Outcome::Host,
                Outcome::Done(st1, res) => if is_last {
                    Outcome::Done(st1, res)
                } else {
                    match res {
                        Err(e) => Outcome::Done(st1, Err(e)),
                        Ok(_) => m_block_rest(arena, st1, path, children, i + 1, sid, fuel),
                    }
                },
            }
        }
    }
}

/// The snapshot of a capture list: each `VarRef` child resolved in the
/// defining chain and put behind a fresh cell; the model of the capture
/// loop inside `evaluate_object`.
pub open spec fn m_captures(
    arena: Map<int, AstNode>,
    st: EvalState,
    path: Seq<int>,
    children: Seq<int>,
    i: int,
) -> Outcome<Seq<(Seq<u8>, ValueModel)>>
    decreases children.len() - i,
{
    if !(0 <= i < children.len()) {
        Outcome::Done(st, Ok(Seq::empty()))
    } else {
        let child = children[i];
        if arena.dom().contains(child) && arena[child] is VarRef {
            let name = arena[child]->VarRef_var_name;
            match spec_get(st.scope, path, name) {
                Option::None => Outcome::Done(st, Err(EvalErr::VarNotFound(name))),
                Some(v) => {
                    let st1 = EvalState { scope: st.scope, cells: st.cells.push(v) };
                    let captured = (name, ValueModel::Ref(st.cells.len() as int));
                    cons_outcome(captured, m_captures(arena, st1, path, children, i + 1))
                },
            }
        } else {
            m_captures(arena, st, path, children, i + 1)
        }
    }
}

/// The evaluated arguments of a call, left to right; the model of
/// `eval_args`.
pub open spec fn m_eval_args(
    arena: Map<int, AstNode>,
    st: EvalState,
    path: Seq<int>,
    args_key: int,
    fuel: nat,
) -> Outcome<Seq<ValueModel>>
    decreases fuel, 3int, 0int,
{
    if fuel == 0 {
        Outcome::Done(st, Err(EvalErr::Wrong(fuel_msg())))
    } else if !arena.dom().contains(args_key) {
        Outcome::Done(st, Err(EvalErr::Wrong(key_msg())))
    } else if arena[args_key] is Block {
        m_args_rest(arena, st, path, arena[args_key]->Block_objects, 0, fuel)
    } else {
        Outcome::Done(st, Ok(Seq::empty()))
    }
}

/// The remaining argument children; the model of the loop in `eval_args`.
pub open spec fn m_args_rest(
    arena: Map<int, AstNode>,
    st: EvalState,
    path: Seq<int>,
    children: Seq<int>,
    i: int,
    fuel: nat,
) -> Outcome<Seq<ValueModel>>
    decreases fuel, 2int, children.len() - i,
{
    if !(0 <= i < children.len()) || fuel == 0 {
        Outcome::Done(st, Ok(Seq::empty()))
    } else {
        match m_eval(arena, st, path, children[i], (fuel - 1) as nat) {
            Outcome::Host => Outcome::Host,
            Outcome::Done(st1, Err(e)) => Outcome::Done(st1, Err(e)),
            Outcome::Done(st1, Ok(v)) => cons_outcome(
                v,
                m_args_rest(arena, st1, path, children, i + 1, fuel),
            ),
        }
    }
}

/// Resolve a name and invoke it; the model of `Scope::call_function`.
pub open spec fn m_call_function(
    arena: Map<int, AstNode>,
    st: EvalState,
    path: Seq<int>,
    name: Seq<u8>,
    args: Seq<ValueModel>,
    fuel: nat,
) -> Outcome<ValueModel>
    decreases fuel, 3int, 0int,
{
    if fuel == 0 {
        Outcome::Done(st, Err(EvalErr::Wrong(fuel_msg())))
    } else {
        match spec_get_function(st.scope, st.cells, path, name) {
            Option::None => Outcome::Done(st, Err(EvalErr::FnNotFound(name))),
            Some(f) => m_apply(arena, st, f, args, (fuel - 1) as nat),
        }
    }
}

/// Invoke a callable on evaluated arguments; the model of `apply_function`.
pub open spec fn m_apply(
    arena: Map<int, AstNode>,
    st: EvalState,
    f: FunctionModel,
    args: Seq<ValueModel>,
    fuel: nat,
) -> Outcome<ValueModel>
    decreases fuel, 3int, 0int,
{
    if fuel == 0 {
        Outcome::Done(st, Err(EvalErr::Wrong(fuel_msg())))
    } else {
        match f {
            FunctionModel::Builtin(b) => m_call_builtin(arena, st, b, args, (fuel - 1) as nat),
            FunctionModel::Host(_) => Outcome::Host,
            FunctionModel::Defined { arguments_block, block_value, captures } => m_call_defined(
                arena,
                st,
                arguments_block,
                block_value,
                captures,
                args,
                (fuel - 1) as nat,
            ),
        }
    }
}

/// Run a function literal: its body in the fresh call scope (built-ins,
/// then parameters, then captures), the cells shared, the caller's scope
/// untouched; the model of `call_defined`.
pub open spec fn m_call_defined(
    arena: Map<int, AstNode>,
    st: EvalState,
    arguments_block: int,
    block_value: int,
    captures: Seq<(Seq<u8>, ValueModel)>,
    args: Seq<ValueModel>,
    fuel: nat,
) -> Outcome<ValueModel>
    decreases fuel, 3int, 0int,
{
    if fuel == 0 {
        Outcome::Done(st, Err(EvalErr::Wrong(fuel_msg())))
    } else {
        let params = if arena.dom().contains(arguments_block) && arena[arguments_block]
            is Block {
            params_of(arena, arena[arguments_block]->Block_objects)
        } else {
            Seq::empty()
        };
        if params.len() > args.len() {
            Outcome::Done(st, Err(EvalErr::Wrong(missing_arg_msg())))
        } else {
            let call_scope = ScopeModel {
                vars: overlay_captures(
                    overlay_params(global_bindings(Map::empty()), params, args),
                    captures,
                ),
                children: Map::empty(),
            };
            match m_eval(
                arena,
                EvalState { scope: call_scope, cells: st.cells },
                Seq::empty(),
                block_value,
                (fuel - 1) as nat,
            ) {
                Outcome::Host => Outcome::Host,
                Outcome::Done(st2, res) => Outcome::Done(
                    EvalState { scope: st.scope, cells: st2.cells },
                    res,
                ),
            }
        }
    }
}

/// Run one built-in; the model of `call_builtin`. The arms that reach the
/// host (a join, a file, a stream over a file) are `Host`; printing and
/// sleeping have fixed results and touch no modelled state.
pub open spec fn m_call_builtin(
    arena: Map<int, AstNode>,
    st: EvalState,
    b: Builtin,
    args: Seq<ValueModel>,
    fuel: nat,
) -> Outcome<ValueModel>
    decreases fuel, 3int, 0int,
{
    if fuel == 0 {
        Outcome::Done(st, Err(EvalErr::Wrong(fuel_msg())))
    } else {
        match b {
            Builtin::IsEqual => Outcome::Done(
                st,
                Ok(ValueModel::Bool(args.len() >= 2 && spec_eq(args[0], args[1]))),
            ),
            Builtin::ListNew => Outcome::Done(st, Ok(ValueModel::List(args))),
            Builtin::OkWrap => if args.len() == 0 {
                Outcome::Done(st, Err(EvalErr::Wrong(missing_arg_msg())))
            } else {
                Outcome::Done(st, Ok(spec_make_tag(ok_tag(), args[0])))
            },
            Builtin::ErrWrap => if args.len() == 0 {
                Outcome::Done(st, Err(EvalErr::Wrong(missing_arg_msg())))
            } else {
                Outcome::Done(st, Ok(spec_make_tag(err_tag(), args[0])))
            },
            Builtin::IsOk => if args.len() == 0 {
                Outcome::Done(st, Err(EvalErr::Wrong(missing_arg_msg())))
            } else {
                Outcome::Done(st, Ok(ValueModel::Bool(spec_is_ok(args[0]))))
            },
            Builtin::Unwrap => if args.len() == 0 {
                Outcome::Done(st, Err(EvalErr::Wrong(missing_arg_msg())))
            } else {
                m_take_tagged(st, args[0], ok_tag())
            },
            Builtin::UnwrapErr => if args.len() == 0 {
                Outcome::Done(st, Err(EvalErr::Wrong(missing_arg_msg())))
            } else {
                m_take_tagged(st, args[0], err_tag())
            },
            Builtin::RefNew => if args.len() == 0 {
                Outcome::Done(st, Err(EvalErr::Wrong(missing_arg_msg())))
            } else {
                Outcome::Done(
                    EvalState { scope: st.scope, cells: st.cells.push(args[0]) },
                    Ok(ValueModel::Ref(st.cells.len() as int)),
                )
            },
            Builtin::Add => if args.len() < 2 {
                Outcome::Done(st, Err(EvalErr::Wrong(missing_arg_msg())))
            } else {
                m_add(st, args[0], args[1])
            },
            Builtin::Print => Outcome::Done(st, Ok(ValueModel::Void)),
            Builtin::Println => Outcome::Done(st, Ok(ValueModel::Void)),
            Builtin::Sleep => if args.len() == 0 {
                Outcome::Done(st, Err(EvalErr::Wrong(missing_arg_msg())))
            } else {
                Outcome::Done(st, Ok(ValueModel::Void))
            },
            Builtin::Wait => if args.len() == 0 {
                Outcome::Done(st, Err(EvalErr::Wrong(missing_arg_msg())))
            } else if args[0] is Usize {
                Outcome::Host
            } else {
                Outcome::Done(st, Ok(ValueModel::Void))
            },
            Builtin::OpenFile => if args.len() == 0 {
                Outcome::Done(st, Err(EvalErr::Wrong(missing_arg_msg())))
            } else if args[0] is Bytes || args[0] is OwnedBytes {
                Outcome::Host
            } else {
                Outcome::Done(st, Err(EvalErr::Wrong(no_path_msg())))
            },
            Builtin::ToText => if args.len() == 0 {
                Outcome::Done(st, Err(EvalErr::Wrong(missing_arg_msg())))
            } else if args[0] is Usize {
                Outcome::Host
            } else {
                Outcome::Done(st, Ok(ValueModel::Void))
            },
            Builtin::ThreadRun => if args.len() == 0 {
                Outcome::Done(st, Err(EvalErr::Wrong(missing_arg_msg())))
            } else if args[0] is Function {
                match m_apply(arena, st, args[0]->Function_0, args.drop_first(), (fuel - 1) as nat) {
                    Outcome::Host => Outcome::Host,
                    Outcome::Done(st2, Err(e)) => Outcome::Done(st2, Err(e)),
                    Outcome::Done(st2, Ok(_)) => Outcome::Done(st2, Ok(ValueModel::Void)),
                }
            } else {
                Outcome::Done(st, Ok(ValueModel::Void))
            },
            Builtin::Iter => if args.len() < 2 {
                Outcome::Done(st, Err(EvalErr::Wrong(missing_arg_msg())))
            } else if args[1] is Function {
                let f = args[1]->Function_0;
                match args[0] {
                    ValueModel::Usize(_) => Outcome::Host,
                    ValueModel::Bytes(bs) => m_iter_done(
                        m_iter_bytes(arena, st, f, bs, 0, (fuel - 1) as nat),
                    ),
                    ValueModel::OwnedBytes(bs) => m_iter_done(
                        m_iter_bytes(arena, st, f, bs, 0, (fuel - 1) as nat),
                    ),
                    ValueModel::List(items) => m_iter_done(
                        m_iter_list(arena, st, f, items, 0, fuel),
                    ),
                    _ => Outcome::Done(st, Ok(ValueModel::Void)),
                }
            } else {
                Outcome::Done(st, Ok(ValueModel::Void))
            },
        }
    }
}

/// A finished iteration yields void; errors and host escapes pass through.
pub open spec fn m_iter_done(o: Outcome<ValueModel>) -> Outcome<ValueModel> {
    match o {
        Outcome::Host => Outcome::Host,
        Outcome::Done(st, Err(e)) => Outcome::Done(st, Err(e)),
        Outcome::Done(st, Ok(_)) => Outcome::Done(st, Ok(ValueModel::Void)),
    }
}

/// Taking a tag out of a value; the model of `take_tagged`.
pub open spec fn m_take_tagged(st: EvalState, v: ValueModel, tag: Seq<char>) -> Outcome<
    ValueModel,
> {
    match v {
        ValueModel::Enum(es) => match enum_lookup(es, tag) {
            Some(x) => Outcome::Done(st, Ok(x)),
            Option::None => Outcome::Done(st, Err(EvalErr::Wrong(tag))),
        },
        _ => Outcome::Done(st, Ok(ValueModel::Void)),
    }
}

/// Adding through a reference cell; the model of `builtin_add`.
pub open spec fn m_add(st: EvalState, value: ValueModel, increment: ValueModel) -> Outcome<
    ValueModel,
> {
    match value {
        ValueModel::Ref(id) => if 0 <= id < st.cells.len() {
            match (
                spec_as_int(st.cells, increment, st.cells.len() as int),
                spec_as_int(st.cells, st.cells[id], st.cells.len() as int),
            ) {
                (Some(m), Some(n)) => if n + m <= usize::MAX {
                    let cells2 = spec_set_int(st.cells, id, n + m);
                    let read = spec_as_int(cells2, cells2[id], cells2.len() as int);
                    Outcome::Done(
                        EvalState { scope: st.scope, cells: cells2 },
                        Ok(
                            match read {
                                Some(k) => ValueModel::Usize(k),
                                Option::None => ValueModel::Void,
                            },
                        ),
                    )
                } else {
                    Outcome::Done(st, Err(EvalErr::Wrong(overflow_msg())))
                },
                _ => Outcome::Done(st, Ok(ValueModel::Void)),
            }
        } else {
            Outcome::Done(st, Ok(ValueModel::Void))
        },
        _ => Outcome::Done(st, Ok(ValueModel::Void)),
    }
}

/// The callback applied to each remaining byte, in stream order; the model
/// of `iter_bytes`.
pub open spec fn m_iter_bytes(
    arena: Map<int, AstNode>,
    st: EvalState,
    f: FunctionModel,
    bytes: Seq<u8>,
    i: int,
    fuel: nat,
) -> Outcome<ValueModel>
    decreases fuel, 3int, bytes.len() - i,
{
    if fuel == 0 {
        Outcome::Done(st, Err(EvalErr::Wrong(fuel_msg())))
    } else if !(0 <= i < bytes.len()) {
        Outcome::Done(st, Ok(ValueModel::Void))
    } else {
        match m_apply(arena, st, f, seq![ValueModel::Byte(bytes[i])], (fuel - 1) as nat) {
            Outcome::Host => Outcome::Host,
            Outcome::Done(st1, Err(e)) => Outcome::Done(st1, Err(e)),
            Outcome::Done(st1, Ok(_)) => m_iter_bytes(arena, st1, f, bytes, i + 1, fuel),
        }
    }
}

/// The callback applied to each remaining element with its index, in list
/// order; the model of the list arm of `iter`.
pub open spec fn m_iter_list(
    arena: Map<int, AstNode>,
    st: EvalState,
    f: FunctionModel,
    items: Seq<ValueModel>,
    i: int,
    fuel: nat,
) -> Outcome<ValueModel>
    decreases fuel, 2int, items.len() - i,
{
    if !(0 <= i < items.len()) || fuel == 0 {
        Outcome::Done(st, Ok(ValueModel::Void))
    } else {
        match m_apply(
            arena,
            st,
            f,
            seq![items[i], ValueModel::Usize(i)],
            (fuel - 1) as nat,
        ) {
            Outcome::Host => Outcome::Host,
            Outcome::Done(st1, Err(e)) => Outcome::Done(st1, Err(e)),
            Outcome::Done(st1, Ok(_)) => m_iter_list(arena, st1, f, items, i + 1, fuel),
        }
    }
}

} // verus!
