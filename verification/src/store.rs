use vstd::prelude::*;
use crate::ast::ParserObject;

verus! {

// The AST arena is a `slab::Slab`: an insert-only, key-addressed store whose
// keys stay stable for the arena's lifetime. This library never removes an
// entry, so every slab it builds is "linear": the occupied keys are exactly
// `0 .. slots`, where `slots` is the length of the slab's backing vector.
//
// The two spec functions below name what a slab value holds. `node_map` is
// the partial map from occupied keys to stored nodes; `node_slots` is the
// length of the backing vector (occupied plus vacant entries). The wrapper
// contracts state only what `slab`'s source shows of these quantities.
#[verifier::external_type_specification]
#[verifier::external_body]
#[verifier::reject_recursive_types(T)]
pub struct ExSlab<T>(slab::Slab<T>);

/// The contents of an AST-node slab: occupied keys mapped to their nodes.
pub uninterp spec fn node_map(s: slab::Slab<ParserObject>) -> Map<int, ParserObject>;

/// The length of the slab's backing vector (occupied and vacant slots).
pub uninterp spec fn node_slots(s: slab::Slab<ParserObject>) -> int;

/// A slab in which the occupied keys are exactly `0 .. node_slots`: the shape
/// every slab of this library has, since nothing is ever removed.
pub open spec fn node_slab_linear(s: slab::Slab<ParserObject>) -> bool {
    forall|i: int| node_map(s).dom().contains(i) <==> 0 <= i < node_slots(s)
}

/// Relies on `slab::Slab::new`: the new slab holds nothing and its backing
/// vector is empty.
#[verifier::external_body]
pub(crate) fn node_slab_new() -> (s: slab::Slab<ParserObject>)
    ensures
        node_map(s) =~= Map::empty(),
        node_slots(s) == 0,
{
    slab::Slab::new()
}

/// Relies on `slab::Slab::insert`: the value is stored under a key that was
/// vacant; on a slab with no vacant slot below `node_slots` the key is
/// `node_slots` itself and the backing vector grows by one.
#[verifier::external_body]
pub(crate) fn node_slab_insert(s: &mut slab::Slab<ParserObject>, v: ParserObject) -> (key: usize)
    ensures
        node_map(*final(s)) =~= node_map(*old(s)).insert(key as int, v),
        !node_map(*old(s)).dom().contains(key as int),
        node_slab_linear(*old(s)) ==> key as int == node_slots(*old(s)) && node_slots(*final(s))
            == node_slots(*old(s)) + 1,
{
    s.insert(v)
}

/// Relies on `slab::Slab::get`: returns the entry under `key` when that key
/// is occupied, and `None` otherwise.
#[verifier::external_body]
pub(crate) fn node_slab_get(s: &slab::Slab<ParserObject>, key: usize) -> (r: Option<
    &ParserObject,
>)
    ensures
        match r {
            Some(v) => node_map(*s).dom().contains(key as int) && *v == node_map(*s)[key as int],
            None => !node_map(*s).dom().contains(key as int),
        },
{
    s.get(key)
}

/// Relies on `slab::Slab::get_mut`: hands out the entry under an occupied
/// `key`; writing through it replaces that entry and nothing else.
#[verifier::external_body]
pub(crate) fn node_slab_get_mut(s: &mut slab::Slab<ParserObject>, key: usize) -> (r:
    &mut ParserObject)
    requires
        node_map(*old(s)).dom().contains(key as int),
    ensures
        *r == node_map(*old(s))[key as int],
        node_map(*final(s)) =~= node_map(*old(s)).insert(key as int, *final(r)),
        node_slots(*final(s)) == node_slots(*old(s)),
{
    s.get_mut(key).unwrap()
}

} // verus!
