use vstd::prelude::*;
use vstd::string::StringSliceAdditionalSpecFns;
use crate::value::{
    clone_value, spec_as_func, Builtin, FunctionHandle, FunctionModel, InstanceHandle,
    InstanceModel, LenarError, LenarResult, LenarValue, ValueModel,
};

verus! {

/// One node of the scope tree: the bindings of a lexical block and its live
/// child scopes, each under an integer scope id. The tree root is the global
/// scope; a path of ids names the chain from the root down to the running
/// block.
pub struct Scope {
    variables: Vec<(Vec<u8>, LenarValue)>,
    scopes: Vec<(usize, Scope)>,
}

/// The model of a scope: its bindings and its children, as maps. A name
/// bound twice counts with its later value, as an overwriting store does.
#[verifier::ext_equal]
pub struct ScopeModel {
    pub vars: Map<Seq<u8>, ValueModel>,
    pub children: Map<int, ScopeModel>,
}

/// The model of a scope with nothing in it.
pub open spec fn empty_scope_model() -> ScopeModel {
    ScopeModel { vars: Map::empty(), children: Map::empty() }
}

/// The bindings of an association list, later entries overriding earlier
/// ones.
pub open spec fn assoc_vars(s: Seq<(Vec<u8>, LenarValue)>) -> Map<Seq<u8>, ValueModel>
    decreases s.len(),
{
    if s.len() == 0 {
        Map::empty()
    } else {
        assoc_vars(s.drop_last()).insert(s.last().0@, s.last().1@)
    }
}

/// The last binding of `name` in an association list, if any.
pub open spec fn var_lookup(s: Seq<(Vec<u8>, LenarValue)>, name: Seq<u8>) -> Option<ValueModel>
    decreases s.len(),
{
    if s.len() == 0 {
        Option::None
    } else if s.last().0@ == name {
        Some(s.last().1@)
    } else {
        var_lookup(s.drop_last(), name)
    }
}

/// The association map agrees with the reverse scan.
proof fn lemma_assoc_is_lookup(s: Seq<(Vec<u8>, LenarValue)>, name: Seq<u8>)
    ensures
        assoc_vars(s).contains_key(name) == (var_lookup(s, name) is Some),
        var_lookup(s, name) is Some ==> assoc_vars(s)[name] == var_lookup(s, name)->Some_0,
    decreases s.len(),
{
    if s.len() > 0 {
        lemma_assoc_is_lookup(s.drop_last(), name);
    }
}

/// The last child stored under `id`, if any.
pub open spec fn child_lookup(s: Seq<(usize, Scope)>, id: int) -> Option<Scope>
    decreases s.len(),
{
    if s.len() == 0 {
        Option::None
    } else if s.last().0 as int == id {
        Some(s.last().1)
    } else {
        child_lookup(s.drop_last(), id)
    }
}

proof fn lemma_child_lookup_is_elem(s: Seq<(usize, Scope)>, id: int)
    requires
        child_lookup(s, id) is Some,
    ensures
        exists|j: int|
            0 <= j < s.len() && #[trigger] s[j].0 as int == id && s[j].1 == child_lookup(
                s,
                id,
            )->Some_0,
    decreases s.len(),
{
    if s.len() > 0 && s.last().0 as int != id {
        lemma_child_lookup_is_elem(s.drop_last(), id);
        let j = choose|j: int|
            0 <= j < s.drop_last().len() && #[trigger] s.drop_last()[j].0 as int == id
                && s.drop_last()[j].1 == child_lookup(s.drop_last(), id)->Some_0;
        assert(s[j] == s.drop_last()[j]);
    }
}

/// The children of a scope node, as a map from id to child model.
pub closed spec fn children_model(s: Seq<(usize, Scope)>) -> Map<int, ScopeModel>
    decreases s,
    via children_model_decreases
{
    Map::new(
        |id: int| child_lookup(s, id) is Some,
        |id: int|
            if child_lookup(s, id) is Some {
                scope_model(child_lookup(s, id)->Some_0)
            } else {
                empty_scope_model()
            },
    )
}

#[via_fn]
proof fn children_model_decreases(s: Seq<(usize, Scope)>) {
    assert forall|id: int| child_lookup(s, id) is Some implies decreases_to!(
        s => child_lookup(s, id)->Some_0,
    ) by {
        lemma_child_lookup_is_elem(s, id);
        let j = choose|j: int|
            0 <= j < s.len() && #[trigger] s[j].0 as int == id && s[j].1 == child_lookup(
                s,
                id,
            )->Some_0;
        assert(decreases_to!(s => s[j]));
        assert(decreases_to!(s[j] => s[j].1));
    }
}

/// The model of a scope node.
pub closed spec fn scope_model(s: Scope) -> ScopeModel
    decreases s,
    via scope_model_decreases
{
    ScopeModel { vars: assoc_vars(s.variables@), children: children_model(s.scopes@) }
}

#[via_fn]
proof fn scope_model_decreases(s: Scope) {
    assert(decreases_to!(s => s.scopes));
    assert(decreases_to!(s.scopes => s.scopes@));
}

/// How `children_model` reads: its keys are the stored ids and its values
/// the children's models.
pub proof fn lemma_children_model(s: Seq<(usize, Scope)>, id: int)
    ensures
        children_model(s).contains_key(id) == (child_lookup(s, id) is Some),
        child_lookup(s, id) is Some ==> children_model(s)[id] == scope_model(
            child_lookup(s, id)->Some_0,
        ),
{
}

/// Writing one child element back in place keeps every other child's model.
proof fn lemma_scopes_update_model(
    s1: Seq<(usize, Scope)>,
    s2: Seq<(usize, Scope)>,
    idx: int,
    id: int,
)
    requires
        0 <= idx < s1.len(),
        s2.len() == s1.len(),
        s1[idx].0 as int == id,
        s2[idx].0 == s1[idx].0,
        forall|k: int| 0 <= k < s1.len() && k != idx ==> s2[k] == s1[k],
        forall|k: int| idx < k < s1.len() ==> #[trigger] s1[k].0 != s1[idx].0,
    ensures
        child_lookup(s2, id) == Some(s2[idx].1),
        forall|id2: int| id2 != id ==> #[trigger] child_lookup(s2, id2) == child_lookup(s1, id2),
    decreases s1.len(),
{
    if idx == s1.len() - 1 {
        assert forall|id2: int| id2 != id implies #[trigger] child_lookup(s2, id2) == child_lookup(
            s1,
            id2,
        ) by {
            assert(s2.drop_last() =~= s1.drop_last());
        }
    } else {
        lemma_scopes_update_model(s1.drop_last(), s2.drop_last(), idx, id);
        assert(s1.drop_last()[idx] == s1[idx]);
        assert(s2.drop_last()[idx] == s2[idx]);
        assert(s2.last() == s1.last());
        assert(s1.last().0 as int != id);
        assert(child_lookup(s2, id) == Some(s2[idx].1));
        assert forall|id2: int| id2 != id implies #[trigger] child_lookup(s2, id2) == child_lookup(
            s1,
            id2,
        ) by {
            if s1.last().0 as int == id2 {
                assert(child_lookup(s2, id2) == Some(s2.last().1));
                assert(child_lookup(s1, id2) == Some(s1.last().1));
            } else {
                assert(child_lookup(s2, id2) == child_lookup(s2.drop_last(), id2));
                assert(child_lookup(s1, id2) == child_lookup(s1.drop_last(), id2));
            }
        }
    }
}

/// Writing one child element back in place updates the children map at its
/// id alone.
proof fn lemma_child_map_update(s1: Seq<(usize, Scope)>, s2: Seq<(usize, Scope)>, idx: int, id: int)
    requires
        0 <= idx < s1.len(),
        s2.len() == s1.len(),
        s1[idx].0 as int == id,
        s2[idx].0 == s1[idx].0,
        forall|k: int| 0 <= k < s1.len() && k != idx ==> s2[k] == s1[k],
        forall|k: int| idx < k < s1.len() ==> #[trigger] s1[k].0 != s1[idx].0,
    ensures
        children_model(s2) =~= children_model(s1).insert(id, scope_model(s2[idx].1)),
{
    lemma_scopes_update_model(s1, s2, idx, id);
}

/// Pushing a child updates the children map at its id alone.
proof fn lemma_child_map_push(s1: Seq<(usize, Scope)>, pair: (usize, Scope))
    ensures
        children_model(s1.push(pair)) =~= children_model(s1).insert(
            pair.0 as int,
            scope_model(pair.1),
        ),
{
    let s2 = s1.push(pair);
    assert(s2.last() == pair);
    assert(s2.drop_last() =~= s1);
}

/// The children sequence without any entry keyed `id`, order kept.
pub open spec fn remove_key(s: Seq<(usize, Scope)>, id: int) -> Seq<(usize, Scope)>
    decreases s.len(),
{
    if s.len() == 0 {
        s
    } else if s.last().0 as int == id {
        remove_key(s.drop_last(), id)
    } else {
        remove_key(s.drop_last(), id).push(s.last())
    }
}

proof fn lemma_remove_key_lookup(s: Seq<(usize, Scope)>, id: int)
    ensures
        forall|id2: int|
            #![auto]
            child_lookup(remove_key(s, id), id2) == if id2 == id {
                Option::<Scope>::None
            } else {
                child_lookup(s, id2)
            },
    decreases s.len(),
{
    if s.len() > 0 {
        lemma_remove_key_lookup(s.drop_last(), id);
        if s.last().0 as int != id {
            assert forall|id2: int|
                #![auto]
                child_lookup(remove_key(s, id), id2) == (if id2 == id {
                    Option::<Scope>::None
                } else {
                    child_lookup(s, id2)
                }) by {
                assert(remove_key(s, id) == remove_key(s.drop_last(), id).push(s.last()));
                assert(remove_key(s, id).last() == s.last());
                assert(remove_key(s, id).drop_last() =~= remove_key(s.drop_last(), id));
                if s.last().0 as int == id2 {
                    assert(child_lookup(remove_key(s, id), id2) == Some(s.last().1));
                    assert(child_lookup(s, id2) == Some(s.last().1));
                } else {
                    assert(child_lookup(remove_key(s, id), id2) == child_lookup(
                        remove_key(s.drop_last(), id),
                        id2,
                    ));
                    assert(child_lookup(s, id2) == child_lookup(s.drop_last(), id2));
                }
            }
        } else {
            assert forall|id2: int|
                #![auto]
                child_lookup(remove_key(s, id), id2) == (if id2 == id {
                    Option::<Scope>::None
                } else {
                    child_lookup(s, id2)
                }) by {
                assert(remove_key(s, id) == remove_key(s.drop_last(), id));
                if id2 != id {
                    assert(child_lookup(s, id2) == child_lookup(s.drop_last(), id2));
                }
            }
        }
    }
}

/// Filtering a key out of the children removes it from the map alone.
proof fn lemma_child_map_remove(s: Seq<(usize, Scope)>, id: int)
    ensures
        children_model(remove_key(s, id)) =~= children_model(s).remove(id),
{
    lemma_remove_key_lookup(s, id);
}

/// The scope path as mathematical integers.
pub open spec fn path_view(p: Seq<usize>) -> Seq<int> {
    p.map_values(|x: usize| x as int)
}

/// The scope a path leads to, if every id on the way exists.
pub open spec fn spec_scope_at(m: ScopeModel, path: Seq<int>) -> Option<ScopeModel>
    decreases path.len(),
{
    if path.len() == 0 {
        Some(m)
    } else if m.children.contains_key(path[0]) {
        spec_scope_at(m.children[path[0]], path.drop_first())
    } else {
        Option::None
    }
}

/// What defining `name` in the scope at `path` does to the tree. A path
/// through a missing child leaves the tree unchanged.
pub open spec fn spec_define(m: ScopeModel, path: Seq<int>, name: Seq<u8>, v: ValueModel) -> ScopeModel
    decreases path.len(),
{
    if path.len() == 0 {
        ScopeModel { vars: m.vars.insert(name, v), children: m.children }
    } else if m.children.contains_key(path[0]) {
        ScopeModel {
            vars: m.vars,
            children: m.children.insert(
                path[0],
                spec_define(m.children[path[0]], path.drop_first(), name, v),
            ),
        }
    } else {
        m
    }
}

/// What creating child `id` under the scope at `path` does: a fresh, empty
/// scope stands there, replacing any previous child of that id.
pub open spec fn spec_create(m: ScopeModel, path: Seq<int>, id: int) -> ScopeModel
    decreases path.len(),
{
    if path.len() == 0 {
        ScopeModel { vars: m.vars, children: m.children.insert(id, empty_scope_model()) }
    } else if m.children.contains_key(path[0]) {
        ScopeModel {
            vars: m.vars,
            children: m.children.insert(
                path[0],
                spec_create(m.children[path[0]], path.drop_first(), id),
            ),
        }
    } else {
        m
    }
}

/// What dropping child `id` under the scope at `path` does: that child, with
/// all its bindings, is gone.
pub open spec fn spec_drop(m: ScopeModel, path: Seq<int>, id: int) -> ScopeModel
    decreases path.len(),
{
    if path.len() == 0 {
        ScopeModel { vars: m.vars, children: m.children.remove(id) }
    } else if m.children.contains_key(path[0]) {
        ScopeModel {
            vars: m.vars,
            children: m.children.insert(
                path[0],
                spec_drop(m.children[path[0]], path.drop_first(), id),
            ),
        }
    } else {
        m
    }
}

/// The value `name` resolves to from the scope chain named by `path`: the
/// innermost scope holding a value other than void wins, and the walk falls
/// back outward.
pub open spec fn spec_get(m: ScopeModel, path: Seq<int>, name: Seq<u8>) -> Option<ValueModel>
    decreases path.len(),
{
    let local = if m.vars.contains_key(name) {
        Some(m.vars[name])
    } else {
        Option::None
    };
    if path.len() > 0 && m.children.contains_key(path[0]) {
        let inner = spec_get(m.children[path[0]], path.drop_first(), name);
        if inner is Some && !(inner->Some_0 is Void) {
            inner
        } else {
            local
        }
    } else {
        local
    }
}

/// The function `name` resolves to from the scope chain named by `path`: the
/// innermost resolution wins; a binding counts when it is a function or a
/// reference chain ending in one.
pub open spec fn spec_get_function(
    m: ScopeModel,
    cells: Seq<ValueModel>,
    path: Seq<int>,
    name: Seq<u8>,
) -> Option<FunctionModel>
    decreases path.len(),
{
    let local = if m.vars.contains_key(name) {
        spec_as_func(cells, m.vars[name], cells.len() as int)
    } else {
        Option::None
    };
    if path.len() > 0 && m.children.contains_key(path[0]) {
        let inner = spec_get_function(m.children[path[0]], cells, path.drop_first(), name);
        if inner is Some {
            inner
        } else {
            local
        }
    } else {
        local
    }
}

impl Scope {
    /// Find the last child stored under `id`.
    fn find_child(&self, id: usize) -> (r: Option<&Scope>)
        ensures
            match r {
                Some(c) => child_lookup(self.scopes@, id as int) == Some(*c),
                None => child_lookup(self.scopes@, id as int) is None,
            },
    {
        proof {
            assert(self.scopes@.take(self.scopes@.len() as int) =~= self.scopes@);
        }
        let mut j: usize = self.scopes.len();
        while j > 0
            invariant
                j <= self.scopes@.len(),
                child_lookup(self.scopes@, id as int) == child_lookup(
                    self.scopes@.take(j as int),
                    id as int,
                ),
            decreases j,
        {
            j -= 1;
            let pair = &self.scopes[j];
            proof {
                assert(self.scopes@.take(j + 1).last() == self.scopes@[j as int]);
                assert(self.scopes@.take(j + 1).drop_last() =~= self.scopes@.take(j as int));
            }
            if pair.0 == id {
                return Some(&pair.1);
            }
        }
        proof {
            assert(self.scopes@.take(0) =~= Seq::<(usize, Scope)>::empty());
        }
        None
    }

    /// Find the index of the last child stored under `id`.
    fn find_child_index(&self, id: usize) -> (r: Option<usize>)
        ensures
            match r {
                Some(idx) => idx < self.scopes@.len() && self.scopes@[idx as int].0 == id
                    && child_lookup(self.scopes@, id as int) == Some(self.scopes@[idx as int].1)
                    && (forall|k: int|
                        idx < k < self.scopes@.len() ==> #[trigger] self.scopes@[k].0 != id),
                None => child_lookup(self.scopes@, id as int) is None,
            },
    {
        proof {
            assert(self.scopes@.take(self.scopes@.len() as int) =~= self.scopes@);
        }
        let mut j: usize = self.scopes.len();
        while j > 0
            invariant
                j <= self.scopes@.len(),
                child_lookup(self.scopes@, id as int) == child_lookup(
                    self.scopes@.take(j as int),
                    id as int,
                ),
                forall|k: int| j <= k < self.scopes@.len() ==> #[trigger] self.scopes@[k].0 != id,
            decreases j,
        {
            j -= 1;
            let pair = &self.scopes[j];
            proof {
                assert(self.scopes@.take(j + 1).last() == self.scopes@[j as int]);
                assert(self.scopes@.take(j + 1).drop_last() =~= self.scopes@.take(j as int));
            }
            if pair.0 == id {
                return Some(j);
            }
        }
        proof {
            assert(self.scopes@.take(0) =~= Seq::<(usize, Scope)>::empty());
        }
        None
    }

    /// Find the last binding of `name` in this scope's own variables.
    fn find_var(&self, name: &[u8]) -> (r: Option<&LenarValue>)
        ensures
            match r {
                Some(v) => assoc_vars(self.variables@).contains_key(name@) && v@ == assoc_vars(
                    self.variables@,
                ).index(name@),
                None => !assoc_vars(self.variables@).contains_key(name@),
            },
    {
        proof {
            lemma_assoc_is_lookup(self.variables@, name@);
            assert(self.variables@.take(self.variables@.len() as int) =~= self.variables@);
        }
        let mut j: usize = self.variables.len();
        while j > 0
            invariant
                j <= self.variables@.len(),
                var_lookup(self.variables@, name@) == var_lookup(
                    self.variables@.take(j as int),
                    name@,
                ),
                assoc_vars(self.variables@).contains_key(name@) == (var_lookup(
                    self.variables@,
                    name@,
                ) is Some),
                var_lookup(self.variables@, name@) is Some ==> assoc_vars(self.variables@).index(
                    name@,
                ) == var_lookup(self.variables@, name@)->Some_0,
            decreases j,
        {
            j -= 1;
            let pair = &self.variables[j];
            proof {
                assert(self.variables@.take(j + 1).last() == self.variables@[j as int]);
                assert(self.variables@.take(j + 1).drop_last() =~= self.variables@.take(j as int));
            }
            if crate::value::bytes_eq(pair.0.as_slice(), name) {
                return Some(&pair.1);
            }
        }
        proof {
            assert(self.variables@.take(0) =~= Seq::<(Vec<u8>, LenarValue)>::empty());
        }
        None
    }

    /// Get the scope a path of ids leads to, if each id on the way exists.
    pub fn get_scope(&self, path: &[usize]) -> (r: Option<&Scope>)
        ensures
            match r {
                Some(sc) => spec_scope_at(scope_model(*self), path_view(path@)) == Some(
                    scope_model(*sc),
                ),
                None => spec_scope_at(scope_model(*self), path_view(path@)) is None,
            },
    {
        proof {
            assert(path_view(path@).skip(0) =~= path_view(path@));
        }
        self.get_scope_at(path, 0)
    }

    fn get_scope_at(&self, path: &[usize], pos: usize) -> (r: Option<&Scope>)
        requires
            pos <= path@.len(),
        ensures
            match r {
                Some(sc) => spec_scope_at(scope_model(*self), path_view(path@).skip(pos as int))
                    == Some(scope_model(*sc)),
                None => spec_scope_at(scope_model(*self), path_view(path@).skip(pos as int))
                    is None,
            },
        decreases path@.len() - pos,
    {
        if pos == path.len() {
            proof {
                assert(path_view(path@).skip(pos as int).len() == 0);
            }
            return Some(self);
        }
        let id = *vstd::slice::slice_index_get(path, pos);
        let child = self.find_child(id);
        proof {
            assert(path_view(path@).skip(pos as int)[0] == id as int);
            assert(path_view(path@).skip(pos as int).drop_first() =~= path_view(path@).skip(
                pos as int + 1,
            ));
            lemma_children_model(self.scopes@, id as int);
        }
        match child {
            Some(c) => c.get_scope_at(path, pos + 1),
            None => None,
        }
    }

    /// Resolve a variable from the scope chain named by `path`: the
    /// innermost scope holding a value other than void wins. An unresolved
    /// name is a `VariableNotFound` error.
    pub fn get_variable(&self, name: &[u8], path: &[usize]) -> (r: LenarResult<LenarValue>)
        ensures
            match spec_get(scope_model(*self), path_view(path@), name@) {
                Some(v) => r is Ok && r->Ok_0@ == v,
                Option::None => r matches Err(LenarError::VariableNotFound(n)) && n@ == name@,
            },
    {
        proof {
            assert(path_view(path@).skip(0) =~= path_view(path@));
        }
        match self.get_variable_at(name, path, 0) {
            Some(v) => Ok(v),
            None => Err(LenarError::VariableNotFound(crate::value::clone_bytes_from(name))),
        }
    }

    fn get_variable_at(&self, name: &[u8], path: &[usize], pos: usize) -> (r: Option<LenarValue>)
        requires
            pos <= path@.len(),
        ensures
            match r {
                Some(v) => spec_get(scope_model(*self), path_view(path@).skip(pos as int), name@)
                    == Some(v@),
                None => spec_get(scope_model(*self), path_view(path@).skip(pos as int), name@)
                    is None,
            },
        decreases path@.len() - pos,
    {
        let ghost rest = path_view(path@).skip(pos as int);
        let inner: Option<LenarValue> = if pos < path.len() {
            let id = *vstd::slice::slice_index_get(path, pos);
            proof {
                assert(rest[0] == id as int);
                assert(rest.drop_first() =~= path_view(path@).skip(pos as int + 1));
                lemma_children_model(self.scopes@, id as int);
            }
            match self.find_child(id) {
                Some(c) => c.get_variable_at(name, path, pos + 1),
                None => None,
            }
        } else {
            None
        };
        let use_inner = match &inner {
            Some(v) => !v.is_void(),
            None => false,
        };
        if use_inner {
            inner
        } else {
            match self.find_var(name) {
                Some(v) => Some(clone_value(v)),
                None => None,
            }
        }
    }

    /// Resolve a function from the scope chain named by `path`. A binding
    /// counts when it is a function or a reference chain ending in one.
    pub fn get_function(
        &self,
        name: &[u8],
        path: &[usize],
        cells: &crate::value::CellStore,
    ) -> (r: Option<FunctionHandle>)
        ensures
            match r {
                Some(f) => spec_get_function(scope_model(*self), cells@, path_view(path@), name@)
                    == Some(LenarValue::Function(f)@->Function_0),
                None => spec_get_function(scope_model(*self), cells@, path_view(path@), name@)
                    is None,
            },
    {
        proof {
            assert(path_view(path@).skip(0) =~= path_view(path@));
        }
        self.get_function_at(name, path, 0, cells)
    }

    fn get_function_at(
        &self,
        name: &[u8],
        path: &[usize],
        pos: usize,
        cells: &crate::value::CellStore,
    ) -> (r: Option<FunctionHandle>)
        requires
            pos <= path@.len(),
        ensures
            match r {
                Some(f) => spec_get_function(
                    scope_model(*self),
                    cells@,
                    path_view(path@).skip(pos as int),
                    name@,
                ) == Some(LenarValue::Function(f)@->Function_0),
                None => spec_get_function(
                    scope_model(*self),
                    cells@,
                    path_view(path@).skip(pos as int),
                    name@,
                ) is None,
            },
        decreases path@.len() - pos,
    {
        let ghost rest = path_view(path@).skip(pos as int);
        let inner: Option<FunctionHandle> = if pos < path.len() {
            let id = *vstd::slice::slice_index_get(path, pos);
            proof {
                assert(rest[0] == id as int);
                assert(rest.drop_first() =~= path_view(path@).skip(pos as int + 1));
                lemma_children_model(self.scopes@, id as int);
            }
            match self.find_child(id) {
                Some(c) => c.get_function_at(name, path, pos + 1, cells),
                None => None,
            }
        } else {
            None
        };
        match inner {
            Some(f) => Some(f),
            None => {
                match self.find_var(name) {
                    Some(v) => v.as_func(cells),
                    None => None,
                }
            },
        }
    }

    /// Define `name` in the scope `scope_path` leads to.
    pub fn define_variable(&mut self, name: &[u8], scope_path: &[usize], value: LenarValue)
        ensures
            scope_model(*final(self)) == spec_define(
                scope_model(*old(self)),
                path_view(scope_path@),
                name@,
                value@,
            ),
    {
        proof {
            assert(path_view(scope_path@).skip(0) =~= path_view(scope_path@));
        }
        self.define_at(name, scope_path, 0, value);
    }

    fn define_at(&mut self, name: &[u8], path: &[usize], pos: usize, value: LenarValue)
        requires
            pos <= path@.len(),
        ensures
            scope_model(*final(self)) == spec_define(
                scope_model(*old(self)),
                path_view(path@).skip(pos as int),
                name@,
                value@,
            ),
        decreases path@.len() - pos,
    {
        let ghost rest = path_view(path@).skip(pos as int);
        if pos == path.len() {
            let key = crate::value::clone_bytes_from(name);
            let ghost gvalue = value;
            self.variables.push((key, value));
            proof {
                assert(self.variables@.last().0@ == name@);
                assert(self.variables@.last().1 == gvalue);
                assert(self.variables@.drop_last() =~= old(self).variables@);
                assert(assoc_vars(self.variables@) =~= assoc_vars(old(self).variables@).insert(
                    name@,
                    gvalue@,
                ));
                assert(scope_model(*self) =~~= spec_define(
                    scope_model(*old(self)),
                    rest,
                    name@,
                    value@,
                ));
            }
            return ;
        }
        let id = *vstd::slice::slice_index_get(path, pos);
        proof {
            assert(rest[0] == id as int);
            assert(rest.drop_first() =~= path_view(path@).skip(pos as int + 1));
            lemma_children_model(self.scopes@, id as int);
        }
        let idx_opt = self.find_child_index(id);
        match idx_opt {
            Some(idx) => {
                let pair = vstd::std_specs::vec::vec_index_mut(&mut self.scopes, idx);
                let child = &mut pair.1;
                child.define_at(name, path, pos + 1, value);
                proof {
                    lemma_child_map_update(
                        old(self).scopes@,
                        self.scopes@,
                        idx as int,
                        id as int,
                    );
                    lemma_children_model(old(self).scopes@, id as int);
                    assert(scope_model(*self) =~~= spec_define(
                        scope_model(*old(self)),
                        rest,
                        name@,
                        value@,
                    ));
                }
            },
            None => {
                proof {
                    assert(scope_model(*self) == spec_define(
                        scope_model(*old(self)),
                        rest,
                        name@,
                        value@,
                    ));
                }
            },
        }
    }

    /// Create a fresh, empty scope under `scope_id` in the scope
    /// `scope_path` leads to.
    pub fn create_scope(&mut self, scope_path: &[usize], scope_id: usize)
        ensures
            scope_model(*final(self)) == spec_create(
                scope_model(*old(self)),
                path_view(scope_path@),
                scope_id as int,
            ),
    {
        proof {
            assert(path_view(scope_path@).skip(0) =~= path_view(scope_path@));
        }
        self.create_at(scope_path, 0, scope_id);
    }

    fn create_at(&mut self, path: &[usize], pos: usize, scope_id: usize)
        requires
            pos <= path@.len(),
        ensures
            scope_model(*final(self)) == spec_create(
                scope_model(*old(self)),
                path_view(path@).skip(pos as int),
                scope_id as int,
            ),
        decreases path@.len() - pos,
    {
        let ghost rest = path_view(path@).skip(pos as int);
        if pos == path.len() {
            let fresh = Scope { variables: Vec::new(), scopes: Vec::new() };
            let ghost gfresh = fresh;
            self.scopes.push((scope_id, fresh));
            proof {
                assert(assoc_vars(gfresh.variables@) =~= Map::<Seq<u8>, ValueModel>::empty());
                assert(children_model(gfresh.scopes@) =~= Map::<int, ScopeModel>::empty());
                assert(scope_model(gfresh) =~~= empty_scope_model());
                lemma_child_map_push(old(self).scopes@, (scope_id, gfresh));
                assert(self.scopes@ =~= old(self).scopes@.push((scope_id, gfresh)));
                assert(scope_model(*self) =~~= spec_create(
                    scope_model(*old(self)),
                    rest,
                    scope_id as int,
                ));
            }
            return ;
        }
        let id = *vstd::slice::slice_index_get(path, pos);
        proof {
            assert(rest[0] == id as int);
            assert(rest.drop_first() =~= path_view(path@).skip(pos as int + 1));
            lemma_children_model(self.scopes@, id as int);
        }
        let idx_opt = self.find_child_index(id);
        match idx_opt {
            Some(idx) => {
                let pair = vstd::std_specs::vec::vec_index_mut(&mut self.scopes, idx);
                let child = &mut pair.1;
                child.create_at(path, pos + 1, scope_id);
                proof {
                    lemma_child_map_update(
                        old(self).scopes@,
                        self.scopes@,
                        idx as int,
                        id as int,
                    );
                    lemma_children_model(old(self).scopes@, id as int);
                    assert(scope_model(*self) =~~= spec_create(
                        scope_model(*old(self)),
                        rest,
                        scope_id as int,
                    ));
                }
            },
            None => {
                proof {
                    assert(scope_model(*self) == spec_create(
                        scope_model(*old(self)),
                        rest,
                        scope_id as int,
                    ));
                }
            },
        }
    }

    /// Drop the scope under `scope_id` in the scope `scope_path` leads to,
    /// with every binding it holds.
    pub fn drop_scope(&mut self, scope_path: &[usize], scope_id: usize)
        ensures
            scope_model(*final(self)) == spec_drop(
                scope_model(*old(self)),
                path_view(scope_path@),
                scope_id as int,
            ),
    {
        proof {
            assert(path_view(scope_path@).skip(0) =~= path_view(scope_path@));
        }
        self.drop_at(scope_path, 0, scope_id);
    }

    fn drop_at(&mut self, path: &[usize], pos: usize, scope_id: usize)
        requires
            pos <= path@.len(),
        ensures
            scope_model(*final(self)) == spec_drop(
                scope_model(*old(self)),
                path_view(path@).skip(pos as int),
                scope_id as int,
            ),
        decreases path@.len() - pos,
    {
        let ghost rest = path_view(path@).skip(pos as int);
        if pos == path.len() {
            self.remove_children_keyed(scope_id);
            proof {
                lemma_child_map_remove(old(self).scopes@, scope_id as int);
                assert(scope_model(*self) =~~= spec_drop(
                    scope_model(*old(self)),
                    rest,
                    scope_id as int,
                ));
            }
            return ;
        }
        let id = *vstd::slice::slice_index_get(path, pos);
        proof {
            assert(rest[0] == id as int);
            assert(rest.drop_first() =~= path_view(path@).skip(pos as int + 1));
            lemma_children_model(self.scopes@, id as int);
        }
        let idx_opt = self.find_child_index(id);
        match idx_opt {
            Some(idx) => {
                let pair = vstd::std_specs::vec::vec_index_mut(&mut self.scopes, idx);
                let child = &mut pair.1;
                child.drop_at(path, pos + 1, scope_id);
                proof {
                    lemma_child_map_update(
                        old(self).scopes@,
                        self.scopes@,
                        idx as int,
                        id as int,
                    );
                    lemma_children_model(old(self).scopes@, id as int);
                    assert(scope_model(*self) =~~= spec_drop(
                        scope_model(*old(self)),
                        rest,
                        scope_id as int,
                    ));
                }
            },
            None => {
                proof {
                    assert(scope_model(*self) == spec_drop(
                        scope_model(*old(self)),
                        rest,
                        scope_id as int,
                    ));
                }
            },
        }
    }

    /// Take out every child stored under `id`, keeping the others in order.
    fn remove_children_keyed(&mut self, id: usize)
        ensures
            final(self).variables@ == old(self).variables@,
            final(self).scopes@ == remove_key(old(self).scopes@, id as int),
    {
        let ghost orig = self.scopes@;
        let n = self.scopes.len();
        let mut tmp: Vec<(usize, Scope)> = Vec::new();
        // First drain the children, newest first.
        loop
            invariant_except_break
                tmp@.len() + self.scopes@.len() == n,
                forall|k: int|
                    0 <= k < self.scopes@.len() ==> #[trigger] self.scopes@[k] == orig[k],
                forall|k: int| 0 <= k < tmp@.len() ==> #[trigger] tmp@[k] == orig[n - 1 - k],
            invariant
                self.variables@ == old(self).variables@,
                orig.len() == n,
            ensures
                self.variables@ == old(self).variables@,
                tmp@.len() == n,
                self.scopes@.len() == 0,
                forall|k: int| 0 <= k < n ==> #[trigger] tmp@[k] == orig[n - 1 - k],
            decreases self.scopes@.len(),
        {
            let popped = self.scopes.pop();
            match popped {
                Some(pair) => {
                    tmp.push(pair);
                },
                None => {
                    break ;
                },
            }
        }
        proof {
            assert(orig.take(0) =~= Seq::<(usize, Scope)>::empty());
            assert(self.scopes@ =~= remove_key(orig.take(0), id as int));
        }
        // Then put the survivors back, oldest first.
        loop
            invariant_except_break
                tmp@.len() <= n,
                forall|k: int| 0 <= k < tmp@.len() ==> #[trigger] tmp@[k] == orig[n - 1 - k],
                self.scopes@ =~= remove_key(orig.take(n - tmp@.len()), id as int),
            invariant
                self.variables@ == old(self).variables@,
                orig.len() == n,
            ensures
                self.variables@ == old(self).variables@,
                self.scopes@ =~= remove_key(orig, id as int),
            decreases tmp@.len(),
        {
            let popped = tmp.pop();
            match popped {
                Some(pair) => {
                    let ghost j = n - tmp@.len() - 1;
                    proof {
                        assert(pair == orig[j]);
                        assert(orig.take(j + 1).last() == orig[j]);
                        assert(orig.take(j + 1).drop_last() =~= orig.take(j));
                    }
                    if pair.0 != id {
                        self.scopes.push(pair);
                    }
                },
                None => {
                    proof {
                        assert(orig.take(n as int) =~= orig);
                    }
                    break ;
                },
            }
        }
    }
}

/// A function value for a built-in.
pub open spec fn bfn(b: Builtin) -> ValueModel {
    ValueModel::Function(FunctionModel::Builtin(b))
}

/// The bindings `setup_globals` adds, in the order they are written.
pub open spec fn global_bindings(vars: Map<Seq<u8>, ValueModel>) -> Map<Seq<u8>, ValueModel> {
    vars.insert("add".spec_bytes(), bfn(Builtin::Add)).insert(
        "ref".spec_bytes(),
        bfn(Builtin::RefNew),
    ).insert("unwrapErr".spec_bytes(), bfn(Builtin::UnwrapErr)).insert(
        "unwrap".spec_bytes(),
        bfn(Builtin::Unwrap),
    ).insert("Err".spec_bytes(), bfn(Builtin::ErrWrap)).insert(
        "isOk".spec_bytes(),
        bfn(Builtin::IsOk),
    ).insert("Ok".spec_bytes(), bfn(Builtin::OkWrap)).insert(
        "wait".spec_bytes(),
        bfn(Builtin::Wait),
    ).insert("sleep".spec_bytes(), bfn(Builtin::Sleep)).insert(
        "thread".spec_bytes(),
        bfn(Builtin::ThreadRun),
    ).insert("list".spec_bytes(), bfn(Builtin::ListNew)).insert(
        "iter".spec_bytes(),
        bfn(Builtin::Iter),
    ).insert("toString".spec_bytes(), bfn(Builtin::ToText)).insert(
        "openFile".spec_bytes(),
        bfn(Builtin::OpenFile),
    ).insert("print".spec_bytes(), bfn(Builtin::Print)).insert(
        "println".spec_bytes(),
        bfn(Builtin::Println),
    ).insert("Lenar".spec_bytes(), ValueModel::Instance(InstanceModel::Lenar)).insert(
        "isEqual".spec_bytes(),
        bfn(Builtin::IsEqual),
    )
}

/// What `setup_globals` does: the built-in bindings are added to the global
/// scope's own variables; nothing else moves.
pub open spec fn spec_setup_globals(m: ScopeModel) -> ScopeModel {
    ScopeModel { vars: global_bindings(m.vars), children: m.children }
}

impl Default for Scope {
    /// A scope with no bindings and no children.
    fn default() -> (r: Scope)
        ensures
            scope_model(r) == empty_scope_model(),
    {
        let r = Scope { variables: Vec::new(), scopes: Vec::new() };
        proof {
            assert(assoc_vars(r.variables@) =~= Map::<Seq<u8>, ValueModel>::empty());
            assert(children_model(r.scopes@) =~= Map::<int, ScopeModel>::empty());
            assert(scope_model(r) =~~= empty_scope_model());
        }
        r
    }
}

impl Scope {
    /// Bind `name` in this scope's own variables.
    fn push_binding(&mut self, name: &str, v: LenarValue)
        ensures
            scope_model(*final(self)) == (ScopeModel {
                vars: scope_model(*old(self)).vars.insert(name.spec_bytes(), v@),
                children: scope_model(*old(self)).children,
            }),
    {
        let key = vstd::slice::slice_to_vec(name.as_bytes());
        let ghost gv = v;
        self.variables.push((key, v));
        proof {
            assert(self.variables@.drop_last() =~= old(self).variables@);
            assert(assoc_vars(self.variables@) =~= assoc_vars(old(self).variables@).insert(
                name.spec_bytes(),
                gv@,
            ));
        }
    }

    /// Register a host-implemented object under `name` in the global scope:
    /// dotted access through it is answered by the host.
    pub fn add_global_instance(&mut self, name: &str)
        ensures
            scope_model(*final(self)) == (ScopeModel {
                vars: scope_model(*old(self)).vars.insert(
                    name.spec_bytes(),
                    ValueModel::Instance(InstanceModel::Host(name.spec_bytes())),
                ),
                children: scope_model(*old(self)).children,
            }),
    {
        let key = vstd::slice::slice_to_vec(name.as_bytes());
        self.push_binding(name, LenarValue::Instance(InstanceHandle::Host(key)));
    }

    /// Register a host-implemented function under `name` in the global
    /// scope: calls to it are answered by the host.
    pub fn add_global_function(&mut self, name: &str)
        ensures
            scope_model(*final(self)) == (ScopeModel {
                vars: scope_model(*old(self)).vars.insert(
                    name.spec_bytes(),
                    ValueModel::Function(FunctionModel::Host(name.spec_bytes())),
                ),
                children: scope_model(*old(self)).children,
            }),
    {
        let key = vstd::slice::slice_to_vec(name.as_bytes());
        self.push_binding(name, LenarValue::Function(FunctionHandle::Host(key)));
    }

    /// Install the built-in library into this scope's own variables.
    pub fn setup_globals(&mut self)
        ensures
            scope_model(*final(self)) == spec_setup_globals(scope_model(*old(self))),
    {
        self.push_binding("add", LenarValue::Function(FunctionHandle::Builtin(Builtin::Add)));
        self.push_binding("ref", LenarValue::Function(FunctionHandle::Builtin(Builtin::RefNew)));
        self.push_binding(
            "unwrapErr",
            LenarValue::Function(FunctionHandle::Builtin(Builtin::UnwrapErr)),
        );
        self.push_binding(
            "unwrap",
            LenarValue::Function(FunctionHandle::Builtin(Builtin::Unwrap)),
        );
        self.push_binding("Err", LenarValue::Function(FunctionHandle::Builtin(Builtin::ErrWrap)));
        self.push_binding("isOk", LenarValue::Function(FunctionHandle::Builtin(Builtin::IsOk)));
        self.push_binding("Ok", LenarValue::Function(FunctionHandle::Builtin(Builtin::OkWrap)));
        self.push_binding("wait", LenarValue::Function(FunctionHandle::Builtin(Builtin::Wait)));
        self.push_binding("sleep", LenarValue::Function(FunctionHandle::Builtin(Builtin::Sleep)));
        self.push_binding(
            "thread",
            LenarValue::Function(FunctionHandle::Builtin(Builtin::ThreadRun)),
        );
        self.push_binding(
            "list",
            LenarValue::Function(FunctionHandle::Builtin(Builtin::ListNew)),
        );
        self.push_binding("iter", LenarValue::Function(FunctionHandle::Builtin(Builtin::Iter)));
        self.push_binding(
            "toString",
            LenarValue::Function(FunctionHandle::Builtin(Builtin::ToText)),
        );
        self.push_binding(
            "openFile",
            LenarValue::Function(FunctionHandle::Builtin(Builtin::OpenFile)),
        );
        self.push_binding("print", LenarValue::Function(FunctionHandle::Builtin(Builtin::Print)));
        self.push_binding(
            "println",
            LenarValue::Function(FunctionHandle::Builtin(Builtin::Println)),
        );
        self.push_binding("Lenar", LenarValue::Instance(InstanceHandle::Lenar));
        self.push_binding(
            "isEqual",
            LenarValue::Function(FunctionHandle::Builtin(Builtin::IsEqual)),
        );
    }
}

// What follows states the scope discipline as laws: a binding made in a
// nested block is visible from inside that block and gone once the block's
// scope is dropped, the enclosing scopes standing as they were.
/// Defining inside a fresh child scope and dropping that scope restores the
/// tree exactly: an outer binding of the same name is back in force.
pub proof fn lemma_scope_shadowing(
    m: ScopeModel,
    path: Seq<int>,
    id: int,
    name: Seq<u8>,
    v: ValueModel,
)
    requires
        spec_scope_at(m, path) is Some,
        !spec_scope_at(m, path)->Some_0.children.contains_key(id),
    ensures
        spec_drop(spec_define(spec_create(m, path, id), path.push(id), name, v), path, id) == m,
    decreases path.len(),
{
    if path.len() == 0 {
        let m1 = spec_create(m, path, id);
        let inner_path = path.push(id);
        assert(inner_path[0] == id);
        assert(inner_path.drop_first() =~= Seq::<int>::empty());
        let m2 = spec_define(m1, inner_path, name, v);
        let m3 = spec_drop(m2, path, id);
        assert(m3.children =~= m.children);
        assert(m3 =~~= m);
    } else {
        let head = path[0];
        let rest = path.drop_first();
        lemma_scope_shadowing(m.children[head], rest, id, name, v);
        let m1 = spec_create(m, path, id);
        let inner_path = path.push(id);
        assert(inner_path[0] == head);
        assert(inner_path.drop_first() =~= rest.push(id));
        let m2 = spec_define(m1, inner_path, name, v);
        let m3 = spec_drop(m2, path, id);
        assert(m1.children[head] == spec_create(m.children[head], rest, id));
        assert(m2.children[head] == spec_define(
            spec_create(m.children[head], rest, id),
            rest.push(id),
            name,
            v,
        ));
        assert(m3.children[head] == spec_drop(
            spec_define(spec_create(m.children[head], rest, id), rest.push(id), name, v),
            rest,
            id,
        ));
        assert(m3.children =~= m.children);
        assert(m3 =~~= m);
    }
}

/// A binding made in the nested scope is what the name resolves to from
/// inside that scope, when the bound value is not void.
pub proof fn lemma_scope_inner_binding(
    m: ScopeModel,
    path: Seq<int>,
    id: int,
    name: Seq<u8>,
    v: ValueModel,
)
    requires
        spec_scope_at(m, path) is Some,
        !(v is Void),
    ensures
        spec_get(
            spec_define(spec_create(m, path, id), path.push(id), name, v),
            path.push(id),
            name,
        ) == Some(v),
    decreases path.len(),
{
    let inner_path = path.push(id);
    let m1 = spec_create(m, path, id);
    let m2 = spec_define(m1, inner_path, name, v);
    if path.len() == 0 {
        assert(inner_path[0] == id);
        assert(inner_path.len() == 1);
        assert(inner_path.drop_first() =~= Seq::<int>::empty());
        assert(m1.children.contains_key(id));
        assert(m1.children[id] == empty_scope_model());
        assert(m2 == spec_define(m1, inner_path, name, v));
        assert(m2.children == m1.children.insert(
            id,
            spec_define(m1.children[id], inner_path.drop_first(), name, v),
        ));
        assert(m2.children.contains_key(id));
        assert(m2.children[id].vars[name] == v);
        assert(spec_get(m2.children[id], inner_path.drop_first(), name) == Some(v));
    } else {
        let head = path[0];
        let rest = path.drop_first();
        lemma_scope_inner_binding(m.children[head], rest, id, name, v);
        assert(inner_path[0] == head);
        assert(inner_path.drop_first() =~= rest.push(id));
        assert(m1.children[head] == spec_create(m.children[head], rest, id));
        assert(m2.children.contains_key(head));
        assert(m2.children[head] == spec_define(
            spec_create(m.children[head], rest, id),
            rest.push(id),
            name,
            v,
        ));
        assert(spec_get(m2.children[head], inner_path.drop_first(), name) == Some(v));
    }
}

/// The nested binding is invisible from the enclosing chain: resolution
/// along the outer path reads as before, whatever the name.
pub proof fn lemma_scope_outer_unchanged(
    m: ScopeModel,
    path: Seq<int>,
    id: int,
    name: Seq<u8>,
    v: ValueModel,
    name2: Seq<u8>,
)
    requires
        spec_scope_at(m, path) is Some,
        !spec_scope_at(m, path)->Some_0.children.contains_key(id),
    ensures
        spec_get(
            spec_define(spec_create(m, path, id), path.push(id), name, v),
            path,
            name2,
        ) == spec_get(m, path, name2),
    decreases path.len(),
{
    if path.len() == 0 {
        let inner_path = path.push(id);
        assert(inner_path[0] == id);
        assert(inner_path.drop_first() =~= Seq::<int>::empty());
    } else {
        let head = path[0];
        let rest = path.drop_first();
        lemma_scope_outer_unchanged(m.children[head], rest, id, name, v, name2);
        let inner_path = path.push(id);
        assert(inner_path[0] == head);
        assert(inner_path.drop_first() =~= rest.push(id));
    }
}

/// How a dotted-path reference resolves against one scope chain: a value
/// (through the built-in `Lenar` object), a missing head name, or a question
/// for the host. `None` stands for an outcome that depends on a host object
/// somewhere along the chain, of which nothing is claimed.
#[verifier::ext_equal]
pub enum PathLookup {
    Found(ValueModel),
    Missing(Seq<u8>),
    AskHost(Seq<u8>, Seq<Seq<u8>>),
}

/// The one property of the built-in `Lenar` object: its version.
pub open spec fn lenar_prop(name: Seq<u8>) -> ValueModel {
    if name == "version".spec_bytes() {
        ValueModel::Str("1.0.0"@)
    } else {
        ValueModel::Void
    }
}

/// How a dotted path resolves: the scope chain is walked innermost-first; a
/// non-void inner result wins; the head segment must name an instance, whose
/// second segment is read as a property.
pub open spec fn spec_get_by_path(m: ScopeModel, path: Seq<int>, segs: Seq<Seq<u8>>) -> Option<
    PathLookup,
>
    decreases path.len(),
{
    let local = if segs.len() == 0 {
        Some(PathLookup::Missing(Seq::empty()))
    } else if m.vars.contains_key(segs[0]) {
        match m.vars[segs[0]] {
            ValueModel::Instance(InstanceModel::Lenar) => Some(
                PathLookup::Found(
                    if segs.len() >= 2 {
                        lenar_prop(segs[1])
                    } else {
                        ValueModel::Void
                    },
                ),
            ),
            ValueModel::Instance(InstanceModel::Host(h)) => Some(PathLookup::AskHost(h, segs)),
            _ => Some(PathLookup::Missing(segs[0])),
        }
    } else {
        Some(PathLookup::Missing(segs[0]))
    };
    if path.len() > 0 && m.children.contains_key(path[0]) {
        match spec_get_by_path(m.children[path[0]], path.drop_first(), segs) {
            Option::None => Option::None,
            Some(PathLookup::Found(v)) => if v is Void {
                local
            } else {
                Some(PathLookup::Found(v))
            },
            Some(PathLookup::Missing(_)) => local,
            Some(PathLookup::AskHost(_, _)) => Option::None,
        }
    } else {
        local
    }
}

/// The models of a path's segments.
pub open spec fn segs_view(segs: Seq<Vec<u8>>) -> Seq<Seq<u8>> {
    segs.map_values(|s: Vec<u8>| s@)
}

impl Scope {
    /// Resolve a dotted-path reference, innermost scope first: the head
    /// segment names an object instance and the next segment one of its
    /// properties. When the head resolves to a host object, the host
    /// answers.
    pub fn get_variable_by_path<H: crate::value::RuntimeHost>(
        &self,
        var_path: &Vec<Vec<u8>>,
        path: &[usize],
        host: &mut H,
    ) -> (r: LenarResult<LenarValue>)
        ensures
            match spec_get_by_path(scope_model(*self), path_view(path@), segs_view(var_path@)) {
                Some(PathLookup::Found(v)) => r is Ok && r->Ok_0@ == v,
                Some(PathLookup::Missing(n)) => r matches Err(LenarError::VariableNotFound(nm))
                    && nm@ == n,
                _ => true,
            },
    {
        proof {
            assert(path_view(path@).skip(0) =~= path_view(path@));
        }
        self.get_by_path_at(var_path, path, 0, host)
    }

    fn get_by_path_at<H: crate::value::RuntimeHost>(
        &self,
        var_path: &Vec<Vec<u8>>,
        path: &[usize],
        pos: usize,
        host: &mut H,
    ) -> (r: LenarResult<LenarValue>)
        requires
            pos <= path@.len(),
        ensures
            match spec_get_by_path(
                scope_model(*self),
                path_view(path@).skip(pos as int),
                segs_view(var_path@),
            ) {
                Some(PathLookup::Found(v)) => r is Ok && r->Ok_0@ == v,
                Some(PathLookup::Missing(n)) => r matches Err(LenarError::VariableNotFound(nm))
                    && nm@ == n,
                _ => true,
            },
        decreases path@.len() - pos,
    {
        let ghost rest = path_view(path@).skip(pos as int);
        let ghost segs = segs_view(var_path@);
        let inner: Option<LenarResult<LenarValue>> = if pos < path.len() {
            let id = *vstd::slice::slice_index_get(path, pos);
            proof {
                assert(rest[0] == id as int);
                assert(rest.drop_first() =~= path_view(path@).skip(pos as int + 1));
                lemma_children_model(self.scopes@, id as int);
            }
            match self.find_child(id) {
                Some(c) => Some(c.get_by_path_at(var_path, path, pos + 1, host)),
                None => None,
            }
        } else {
            None
        };
        let use_inner = match &inner {
            Some(res) => match res {
                Ok(v) => !v.is_void(),
                Err(_) => false,
            },
            None => false,
        };
        if use_inner {
            match inner {
                Some(res) => res,
                None => Err(LenarError::VariableNotFound(Vec::new())),
            }
        } else {
            self.resolve_path_local(var_path, host)
        }
    }

    /// Resolve the head segment against this scope's own variables.
    fn resolve_path_local<H: crate::value::RuntimeHost>(
        &self,
        var_path: &Vec<Vec<u8>>,
        host: &mut H,
    ) -> (r: LenarResult<LenarValue>)
        ensures
            ({
                let segs = segs_view(var_path@);
                let local = if segs.len() == 0 {
                    Some(PathLookup::Missing(Seq::empty()))
                } else if scope_model(*self).vars.contains_key(segs[0]) {
                    match scope_model(*self).vars[segs[0]] {
                        ValueModel::Instance(InstanceModel::Lenar) => Some(
                            PathLookup::Found(
                                if segs.len() >= 2 {
                                    lenar_prop(segs[1])
                                } else {
                                    ValueModel::Void
                                },
                            ),
                        ),
                        ValueModel::Instance(InstanceModel::Host(h)) => Some(
                            PathLookup::AskHost(h, segs),
                        ),
                        _ => Some(PathLookup::Missing(segs[0])),
                    }
                } else {
                    Some(PathLookup::Missing(segs[0]))
                };
                match local {
                    Some(PathLookup::Found(v)) => r is Ok && r->Ok_0@ == v,
                    Some(PathLookup::Missing(n)) => r matches Err(
                        LenarError::VariableNotFound(nm),
                    ) && nm@ == n,
                    _ => true,
                }
            }),
    {
        if var_path.len() == 0 {
            return Err(LenarError::VariableNotFound(Vec::new()));
        }
        let head = &var_path[0];
        match self.find_var(head.as_slice()) {
            Some(v) => {
                match v {
                    LenarValue::Instance(crate::value::InstanceHandle::Lenar) => {
                        if var_path.len() >= 2 {
                            let prop = &var_path[1];
                            if crate::value::bytes_eq(prop.as_slice(), "version".as_bytes()) {
                                Ok(LenarValue::Str("1.0.0".to_owned()))
                            } else {
                                Ok(LenarValue::Void)
                            }
                        } else {
                            Ok(LenarValue::Void)
                        }
                    },
                    LenarValue::Instance(crate::value::InstanceHandle::Host(nm)) => {
                        if var_path.len() >= 2 {
                            Ok(host.host_prop(nm, &var_path[1]))
                        } else {
                            Ok(LenarValue::Void)
                        }
                    },
                    _ => Err(
                        LenarError::VariableNotFound(
                            crate::value::clone_bytes_from(head.as_slice()),
                        ),
                    ),
                }
            },
            None => Err(
                LenarError::VariableNotFound(crate::value::clone_bytes_from(head.as_slice())),
            ),
        }
    }
}

} // verus!
