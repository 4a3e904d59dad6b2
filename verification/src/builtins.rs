use vstd::prelude::*;
use vstd::string::StringSliceAdditionalSpecFns;
use crate::value::{
    clone_value, spec_as_int, spec_eq, spec_set_int, Builtin, CellStore, FunctionModel,
    InstanceModel, LenarEnum, LenarError, LenarResult, LenarValue, ValueModel,
};

verus! {

/// The decimal digits of a non-negative number, most significant first.
pub open spec fn dec_digits(n: int) -> Seq<u8>
    decreases n,
{
    if n < 10 {
        seq![(48 + n) as u8]
    } else {
        dec_digits(n / 10).push((48 + n % 10) as u8)
    }
}

/// Decimal rendering of a number.
pub fn usize_to_dec(n: usize) -> (r: Vec<u8>)
    ensures
        r@ == dec_digits(n as int),
    decreases n,
{
    if n < 10 {
        let mut v: Vec<u8> = Vec::new();
        v.push((48 + n as u8));
        proof {
            assert(v@ =~= dec_digits(n as int));
        }
        v
    } else {
        let mut v = usize_to_dec(n / 10);
        v.push((48 + (n % 10) as u8));
        proof {
            assert(v@ =~= dec_digits(n as int));
        }
        v
    }
}

/// The name a function renders as: a built-in's registered name, a host
/// function's own name, and `Anonymous` for a function literal.
pub open spec fn fn_name_of(f: FunctionModel) -> Seq<u8> {
    match f {
        FunctionModel::Builtin(b) => builtin_name(b),
        FunctionModel::Host(n) => n,
        FunctionModel::Defined { .. } => "Anonymous".spec_bytes(),
    }
}

/// The registered name of each built-in.
pub open spec fn builtin_name(b: Builtin) -> Seq<u8> {
    match b {
        Builtin::Print => "print".spec_bytes(),
        Builtin::Println => "println".spec_bytes(),
        Builtin::IsEqual => "isEqual".spec_bytes(),
        Builtin::ListNew => "list".spec_bytes(),
        Builtin::Iter => "iter".spec_bytes(),
        Builtin::ThreadRun => "thread".spec_bytes(),
        Builtin::Sleep => "sleep".spec_bytes(),
        Builtin::Wait => "wait".spec_bytes(),
        Builtin::OkWrap => "Ok".spec_bytes(),
        Builtin::ErrWrap => "Err".spec_bytes(),
        Builtin::IsOk => "isOk".spec_bytes(),
        Builtin::Unwrap => "unwrap".spec_bytes(),
        Builtin::UnwrapErr => "unwrapErr".spec_bytes(),
        Builtin::RefNew => "ref".spec_bytes(),
        Builtin::Add => "add".spec_bytes(),
        Builtin::ToText => "toString".spec_bytes(),
        Builtin::OpenFile => "openFile".spec_bytes(),
    }
}

/// The textual rendering of a value, as `print` writes it: numbers in
/// decimal, text and bytes as they are, booleans and void as words, lists
/// element by element, functions and instances by name, tagged values as
/// `tag(payload)` lines, and a reference as its current contents.
pub open spec fn spec_render(v: ValueModel, cells: Seq<ValueModel>, bound: int) -> Seq<u8>
    decreases bound, v, 1int,
{
    match v {
        ValueModel::Usize(n) => dec_digits(n),
        ValueModel::Str(s) => vstd::utf8::encode_utf8(s),
        ValueModel::Byte(b) => seq![b],
        ValueModel::Bytes(b) => b,
        ValueModel::OwnedBytes(b) => b,
        ValueModel::Void => "Void".spec_bytes(),
        ValueModel::Bool(b) => if b {
            "true".spec_bytes()
        } else {
            "false".spec_bytes()
        },
        ValueModel::Function(f) => fn_name_of(f),
        ValueModel::Instance(InstanceModel::Lenar) => "Lenar".spec_bytes(),
        ValueModel::Instance(InstanceModel::Host(n)) => n,
        ValueModel::List(items) => spec_render_seq(items, cells, bound),
        ValueModel::Enum(entries) => spec_render_enum(entries, cells, bound),
        ValueModel::Ref(id) => if 0 <= id < bound && id < cells.len() {
            spec_render(cells[id], cells, id)
        } else {
            Seq::empty()
        },
    }
}

/// The renderings of a list's elements, in order, run together.
pub open spec fn spec_render_seq(items: Seq<ValueModel>, cells: Seq<ValueModel>, bound: int) -> Seq<
    u8,
>
    decreases bound, items, 0int,
{
    if items.len() == 0 {
        Seq::empty()
    } else {
        spec_render(items.first(), cells, bound) + spec_render_seq(items.drop_first(), cells, bound)
    }
}

/// The renderings of a tagged value's entries: `tag(payload)`, one line per
/// entry.
pub open spec fn spec_render_enum(
    entries: Seq<(Seq<char>, ValueModel)>,
    cells: Seq<ValueModel>,
    bound: int,
) -> Seq<u8>
    decreases bound, entries, 0int,
{
    if entries.len() == 0 {
        Seq::empty()
    } else {
        let head = vstd::utf8::encode_utf8(entries.first().0) + seq![40u8] + spec_render(
            entries.first().1,
            cells,
            bound,
        ) + seq![41u8];
        if entries.len() == 1 {
            head
        } else {
            head + seq![10u8] + spec_render_enum(entries.drop_first(), cells, bound)
        }
    }
}

/// Append `src` to `dst`.
pub fn append_bytes(dst: &mut Vec<u8>, src: &Vec<u8>)
    ensures
        final(dst)@ == old(dst)@ + src@,
{
    let mut i: usize = 0;
    while i < src.len()
        invariant
            i <= src@.len(),
            dst@ == old(dst)@ + src@.take(i as int),
        decreases src@.len() - i,
    {
        dst.push(src[i]);
        i += 1;
        proof {
            assert(dst@ =~= old(dst)@ + src@.take(i as int));
        }
    }
    proof {
        assert(old(dst)@ + src@.take(src@.len() as int) =~= old(dst)@ + src@);
    }
}

/// Exec rendering; see [`spec_render`]. `bound` caps the reference chains.
pub fn render_value(v: &LenarValue, cells: &CellStore, bound: usize) -> (r: Vec<u8>)
    ensures
        r@ == spec_render(v@, cells@, bound as int),
    decreases bound, *v, 1int,
{
    match v {
        LenarValue::Usize(n) => usize_to_dec(*n),
        LenarValue::Str(s) => vstd::slice::slice_to_vec(s.as_str().as_bytes()),
        LenarValue::Byte(b) => {
            let mut out: Vec<u8> = Vec::new();
            out.push(*b);
            proof {
                assert(out@ =~= seq![*b]);
            }
            out
        },
        LenarValue::Bytes(b) => crate::value::clone_bytes(b),
        LenarValue::OwnedBytes(b) => crate::value::clone_bytes(b),
        LenarValue::Void => vstd::slice::slice_to_vec("Void".as_bytes()),
        LenarValue::Bool(b) => if *b {
            vstd::slice::slice_to_vec("true".as_bytes())
        } else {
            vstd::slice::slice_to_vec("false".as_bytes())
        },
        LenarValue::Function(f) => {
            match f {
                crate::value::FunctionHandle::Builtin(b) => builtin_name_bytes(*b),
                crate::value::FunctionHandle::Host(n) => crate::value::clone_bytes(n),
                crate::value::FunctionHandle::Defined(..) => vstd::slice::slice_to_vec(
                    "Anonymous".as_bytes(),
                ),
            }
        },
        LenarValue::Instance(crate::value::InstanceHandle::Lenar) => vstd::slice::slice_to_vec(
            "Lenar".as_bytes(),
        ),
        LenarValue::Instance(crate::value::InstanceHandle::Host(n)) => crate::value::clone_bytes(
            n,
        ),
        LenarValue::List(items) => {
            let mut out: Vec<u8> = Vec::new();
            let mut i: usize = 0;
            proof {
                assert(Seq::new((items@.len() - 0) as nat, |k: int| vm_at(*items, 0 + k))
                    =~= vm_list(*items));
                assert(out@ + spec_render_seq(vm_list(*items), cells@, bound as int)
                    =~= spec_render_seq(vm_list(*items), cells@, bound as int));
            }
            while i < items.len()
                invariant
                    i <= items@.len(),
                    *v is List,
                    v->List_0 == *items,
                    out@ + spec_render_seq(
                        Seq::new((items@.len() - i) as nat, |k: int| vm_at(*items, i + k)),
                        cells@,
                        bound as int,
                    ) == spec_render_seq(vm_list(*items), cells@, bound as int),
                decreases items@.len() - i,
            {
                proof {
                    assert(decreases_to!(*v => v->List_0));
                    assert(decreases_to!(v->List_0 => v->List_0@));
                    assert(decreases_to!(v->List_0@ => v->List_0@[i as int]));
                    assert(decreases_to!(*v => items@[i as int]));
                }
                let ghost out0 = out@;
                let ghost pre = Seq::new((items@.len() - i) as nat, |k: int| vm_at(*items, i + k));
                let piece = render_value(&items[i], cells, bound);
                append_bytes(&mut out, &piece);
                proof {
                    assert(pre.first() == items@[i as int]@);
                    assert(pre.drop_first() =~= Seq::new(
                        (items@.len() - (i + 1)) as nat,
                        |k: int| vm_at(*items, i + 1 + k),
                    ));
                    assert(spec_render_seq(pre, cells@, bound as int) == spec_render(
                        pre.first(),
                        cells@,
                        bound as int,
                    ) + spec_render_seq(pre.drop_first(), cells@, bound as int));
                    assert(out@ + spec_render_seq(pre.drop_first(), cells@, bound as int)
                        =~= out0 + spec_render_seq(pre, cells@, bound as int));
                }
                i += 1;
            }
            proof {
                assert(Seq::new((items@.len() - i) as nat, |k: int| vm_at(*items, i + k)).len() == 0);
                assert(out@ + Seq::<u8>::empty() =~= out@);
                assert(vm_list(*items) =~= v@->List_0);
            }
            out
        },
        LenarValue::Enum(en) => {
            let mut out: Vec<u8> = Vec::new();
            let mut i: usize = 0;
            proof {
                assert(Seq::new((en.entries@.len() - 0) as nat, |k: int| em_at(*en, 0 + k))
                    =~= vm_entries(*en));
                assert(out@ + spec_render_enum(vm_entries(*en), cells@, bound as int)
                    =~= spec_render_enum(vm_entries(*en), cells@, bound as int));
            }
            while i < en.entries.len()
                invariant
                    i <= en.entries@.len(),
                    *v is Enum,
                    v->Enum_0 == *en,
                    out@ + spec_render_enum(
                        Seq::new((en.entries@.len() - i) as nat, |k: int| em_at(*en, i + k)),
                        cells@,
                        bound as int,
                    ) == spec_render_enum(vm_entries(*en), cells@, bound as int),
                decreases en.entries@.len() - i,
            {
                let pair = &en.entries[i];
                proof {
                    assert(decreases_to!(*v => v->Enum_0));
                    assert(decreases_to!(v->Enum_0 => v->Enum_0.entries));
                    assert(decreases_to!(v->Enum_0.entries => v->Enum_0.entries@));
                    assert(decreases_to!(v->Enum_0.entries@ => v->Enum_0.entries@[i as int]));
                    assert(decreases_to!(v->Enum_0.entries@[i as int] => v->Enum_0.entries@[
                        i as int
                    ].1));
                    assert(decreases_to!(*v => pair.1));
                }
                let ghost out0 = out@;
                let ghost pre = Seq::new(
                    (en.entries@.len() - i) as nat,
                    |k: int| em_at(*en, i + k),
                );
                let tag = vstd::slice::slice_to_vec(pair.0.as_str().as_bytes());
                append_bytes(&mut out, &tag);
                out.push(40);
                let piece = render_value(&pair.1, cells, bound);
                append_bytes(&mut out, &piece);
                out.push(41);
                if i + 1 < en.entries.len() {
                    out.push(10);
                }
                proof {
                    assert(pre.first() == (en.entries@[i as int].0@, en.entries@[i as int].1@));
                    assert(pre.drop_first() =~= Seq::new(
                        (en.entries@.len() - (i + 1)) as nat,
                        |k: int| em_at(*en, i + 1 + k),
                    ));
                    let head = vstd::utf8::encode_utf8(pre.first().0) + seq![40u8] + spec_render(
                        pre.first().1,
                        cells@,
                        bound as int,
                    ) + seq![41u8];
                    if i + 1 < en.entries@.len() {
                        assert(pre.len() > 1);
                        assert(spec_render_enum(pre, cells@, bound as int) == head + seq![10u8]
                            + spec_render_enum(pre.drop_first(), cells@, bound as int));
                        assert(out@ =~= out0 + head + seq![10u8]);
                    } else {
                        assert(pre.len() == 1);
                        assert(spec_render_enum(pre, cells@, bound as int) == head);
                        assert(out@ =~= out0 + head);
                        assert(pre.drop_first().len() == 0);
                    }
                    assert(out@ + spec_render_enum(pre.drop_first(), cells@, bound as int)
                        =~= out0 + spec_render_enum(pre, cells@, bound as int));
                }
                i += 1;
            }
            proof {
                assert(Seq::new((en.entries@.len() - i) as nat, |k: int| em_at(*en, i + k)).len() == 0);
                assert(out@ + Seq::<u8>::empty() =~= out@);
                assert(vm_entries(*en) =~= v@->Enum_0);
            }
            out
        },
        LenarValue::Ref(id) => {
            if *id < bound && *id < cells.len() {
                let inner = cells.get(*id);
                render_value(&inner, cells, *id)
            } else {
                Vec::new()
            }
        },
    }
}

/// The model of one list element; a helper for the rendering loops.
pub open spec fn vm_at(items: Vec<LenarValue>, i: int) -> ValueModel {
    items@[i]@
}

/// The element models of a list.
pub open spec fn vm_list(items: Vec<LenarValue>) -> Seq<ValueModel> {
    Seq::new(items@.len(), |k: int| vm_at(items, k))
}

/// The model of one tagged entry; a helper for the rendering loops.
pub open spec fn em_at(en: LenarEnum, i: int) -> (Seq<char>, ValueModel) {
    (en.entries@[i].0@, en.entries@[i].1@)
}

/// The entry models of a tagged value.
pub open spec fn vm_entries(en: LenarEnum) -> Seq<(Seq<char>, ValueModel)> {
    Seq::new(en.entries@.len(), |k: int| em_at(en, k))
}

/// The exec name of a built-in; see [`builtin_name`].
pub fn builtin_name_bytes(b: Builtin) -> (r: Vec<u8>)
    ensures
        r@ == builtin_name(b),
{
    match b {
        Builtin::Print => vstd::slice::slice_to_vec("print".as_bytes()),
        Builtin::Println => vstd::slice::slice_to_vec("println".as_bytes()),
        Builtin::IsEqual => vstd::slice::slice_to_vec("isEqual".as_bytes()),
        Builtin::ListNew => vstd::slice::slice_to_vec("list".as_bytes()),
        Builtin::Iter => vstd::slice::slice_to_vec("iter".as_bytes()),
        Builtin::ThreadRun => vstd::slice::slice_to_vec("thread".as_bytes()),
        Builtin::Sleep => vstd::slice::slice_to_vec("sleep".as_bytes()),
        Builtin::Wait => vstd::slice::slice_to_vec("wait".as_bytes()),
        Builtin::OkWrap => vstd::slice::slice_to_vec("Ok".as_bytes()),
        Builtin::ErrWrap => vstd::slice::slice_to_vec("Err".as_bytes()),
        Builtin::IsOk => vstd::slice::slice_to_vec("isOk".as_bytes()),
        Builtin::Unwrap => vstd::slice::slice_to_vec("unwrap".as_bytes()),
        Builtin::UnwrapErr => vstd::slice::slice_to_vec("unwrapErr".as_bytes()),
        Builtin::RefNew => vstd::slice::slice_to_vec("ref".as_bytes()),
        Builtin::Add => vstd::slice::slice_to_vec("add".as_bytes()),
        Builtin::ToText => vstd::slice::slice_to_vec("toString".as_bytes()),
        Builtin::OpenFile => vstd::slice::slice_to_vec("openFile".as_bytes()),
    }
}

/// The payload stored under `tag` in a tagged value, later entries winning.
pub open spec fn enum_lookup(entries: Seq<(Seq<char>, ValueModel)>, tag: Seq<char>) -> Option<
    ValueModel,
>
    decreases entries.len(),
{
    if entries.len() == 0 {
        Option::None
    } else if entries.last().0 == tag {
        Some(entries.last().1)
    } else {
        enum_lookup(entries.drop_last(), tag)
    }
}

/// The `Ok` tag.
pub open spec fn ok_tag() -> Seq<char> {
    "Ok"@
}

/// The `Err` tag.
pub open spec fn err_tag() -> Seq<char> {
    "Err"@
}

/// A tagged value with a single entry.
pub open spec fn spec_make_tag(tag: Seq<char>, v: ValueModel) -> ValueModel {
    ValueModel::Enum(seq![(tag, v)])
}

/// What `isOk` answers: the value is tagged and carries an `Ok` entry.
pub open spec fn spec_is_ok(v: ValueModel) -> bool {
    match v {
        ValueModel::Enum(es) => enum_lookup(es, ok_tag()) is Some,
        _ => false,
    }
}

/// Wrapping a payload with `Ok` satisfies `isOk`; wrapping it with `Err`
/// does not; and taking the matching tag out gives the payload back, while
/// the other tag is absent.
pub proof fn lemma_result_tags(x: ValueModel)
    ensures
        spec_is_ok(spec_make_tag(ok_tag(), x)),
        !spec_is_ok(spec_make_tag(err_tag(), x)),
        enum_lookup(seq![(ok_tag(), x)], ok_tag()) == Some(x),
        enum_lookup(seq![(err_tag(), x)], ok_tag()) is None,
        enum_lookup(seq![(err_tag(), x)], err_tag()) == Some(x),
        enum_lookup(seq![(ok_tag(), x)], err_tag()) is None,
{
    reveal_strlit("Ok");
    reveal_strlit("Err");
    assert(ok_tag().len() == 2);
    assert(err_tag().len() == 3);
    assert(ok_tag() != err_tag());
    assert(seq![(ok_tag(), x)].drop_last() =~= Seq::<(Seq<char>, ValueModel)>::empty());
    assert(seq![(err_tag(), x)].drop_last() =~= Seq::<(Seq<char>, ValueModel)>::empty());
    assert(enum_lookup(Seq::<(Seq<char>, ValueModel)>::empty(), ok_tag()) is None);
    assert(enum_lookup(Seq::<(Seq<char>, ValueModel)>::empty(), err_tag()) is None);
    assert(seq![(err_tag(), x)].last() == (err_tag(), x));
    assert(seq![(ok_tag(), x)].last() == (ok_tag(), x));
}

/// Storing through a chain of cells keeps the store's length.
pub proof fn lemma_set_int_len(cs: Seq<ValueModel>, id: int, n: int)
    ensures
        spec_set_int(cs, id, n).len() == cs.len(),
    decreases id,
{
    if 0 <= id < cs.len() {
        match cs[id] {
            ValueModel::Ref(j) => {
                if 0 <= j < id {
                    lemma_set_int_len(cs, j, n);
                }
            },
            _ => {},
        }
    }
}

/// Construct a tagged value, as `Ok(...)` and `Err(...)` do.
pub fn new_with_tag(tag: &str, v: LenarValue) -> (r: LenarValue)
    ensures
        r@ == spec_make_tag(tag@, v@),
{
    let mut entries: Vec<(String, LenarValue)> = Vec::new();
    let ghost gv = v;
    entries.push((tag.to_owned(), v));
    let r = LenarValue::Enum(LenarEnum { entries });
    proof {
        assert(r@->Enum_0 =~= seq![(tag@, gv@)]);
        assert(r@ =~~= spec_make_tag(tag@, gv@));
    }
    r
}

/// Find the index of the last entry under `tag`.
fn enum_find_index(en: &LenarEnum, tag: &str) -> (r: Option<usize>)
    ensures
        match r {
            Some(idx) => idx < en.entries@.len() && en.entries@[idx as int].0@ == tag@
                && enum_lookup(vm_entries(*en), tag@) == Some(en.entries@[idx as int].1@),
            None => enum_lookup(vm_entries(*en), tag@) is None,
        },
{
    proof {
        assert(vm_entries(*en).take(vm_entries(*en).len() as int) =~= vm_entries(*en));
    }
    let mut j: usize = en.entries.len();
    while j > 0
        invariant
            j <= en.entries@.len(),
            enum_lookup(vm_entries(*en), tag@) == enum_lookup(
                vm_entries(*en).take(j as int),
                tag@,
            ),
        decreases j,
    {
        j -= 1;
        let pair = &en.entries[j];
        proof {
            assert(vm_entries(*en).take(j + 1).last() == em_at(*en, j as int));
            assert(vm_entries(*en).take(j + 1).drop_last() =~= vm_entries(*en).take(j as int));
        }
        if crate::value::str_eq(pair.0.as_str(), tag) {
            return Some(j);
        }
    }
    proof {
        assert(vm_entries(*en).take(0) =~= Seq::<(Seq<char>, ValueModel)>::empty());
    }
    None
}

/// What `isOk` computes; see [`spec_is_ok`].
pub fn builtin_is_ok(v: &LenarValue) -> (r: LenarValue)
    ensures
        r@ == ValueModel::Bool(spec_is_ok(v@)),
{
    match v {
        LenarValue::Enum(en) => {
            proof {
                assert(v@->Enum_0 =~= vm_entries(*en));
            }
            match enum_find_index(en, "Ok") {
                Some(_) => LenarValue::Bool(true),
                None => LenarValue::Bool(false),
            }
        },
        _ => LenarValue::Bool(false),
    }
}

/// Take the payload under `tag` out of a tagged value, as `unwrap` and
/// `unwrapErr` do: the payload when the tag is there, a `WrongValue` error
/// naming the missing tag when it is not, and void for a value that is not
/// tagged at all.
pub fn take_tagged(v: LenarValue, tag: &str) -> (r: LenarResult<LenarValue>)
    ensures
        match v@ {
            ValueModel::Enum(es) => match enum_lookup(es, tag@) {
                Some(x) => r is Ok && r->Ok_0@ == x,
                Option::None => r matches Err(LenarError::WrongValue(m)) && m@ == tag@,
            },
            _ => r is Ok && r->Ok_0@ == ValueModel::Void,
        },
{
    match v {
        LenarValue::Enum(mut en) => {
            proof {
                assert(LenarValue::Enum(en)@->Enum_0 =~= vm_entries(en));
            }
            match enum_find_index(&en, tag) {
                Some(idx) => {
                    let pair = en.entries.remove(idx);
                    Ok(pair.1)
                },
                None => Err(LenarError::WrongValue(tag.to_owned())),
            }
        },
        other => {
            proof {
                assert(!(other@ is Enum));
            }
            Ok(LenarValue::Void)
        },
    }
}

/// Allocate a shared mutable cell holding `v`, as `ref(...)` does.
pub fn builtin_ref(v: LenarValue, cells: &mut CellStore) -> (r: LenarValue)
    ensures
        final(cells)@ == old(cells)@.push(v@),
        r@ == ValueModel::Ref(old(cells)@.len() as int),
{
    let id = cells.allocate(v);
    LenarValue::Ref(id)
}

/// Add an integer to the number behind a reference cell, as `add(...)` does:
/// the chain of cells starting at the reference is read, the sum stored back
/// through it, and the new contents returned. A non-reference, a dangling
/// reference, a missing integer on either side, or a sum over `usize::MAX`
/// changes nothing and answers void or an error as stated.
pub fn builtin_add(value: &LenarValue, increment: &LenarValue, cells: &mut CellStore) -> (r:
    LenarResult<LenarValue>)
    ensures
        ({
            let cs = old(cells)@;
            match value@ {
                ValueModel::Ref(id) => if 0 <= id < cs.len() {
                    match (spec_as_int(cs, increment@, cs.len() as int), spec_as_int(
                        cs,
                        cs[id],
                        cs.len() as int,
                    )) {
                        (Some(m), Some(n)) => if n + m <= usize::MAX {
                            &&& final(cells)@ == spec_set_int(cs, id, n + m)
                            &&& r is Ok
                            &&& (r->Ok_0@ == match spec_as_int(
                                final(cells)@,
                                final(cells)@[id],
                                final(cells)@.len() as int,
                            ) {
                                Some(k) => ValueModel::Usize(k),
                                Option::None => ValueModel::Void,
                            })
                        } else {
                            &&& final(cells)@ == cs
                            &&& (r matches Err(LenarError::WrongValue(m)) && m@
                                == "the incremented value does not fit"@)
                        },
                        _ => final(cells)@ == cs && r is Ok && r->Ok_0@ == ValueModel::Void,
                    }
                } else {
                    final(cells)@ == cs && r is Ok && r->Ok_0@ == ValueModel::Void
                },
                _ => final(cells)@ == cs && r is Ok && r->Ok_0@ == ValueModel::Void,
            }
        }),
{
    match value {
        LenarValue::Ref(id) => {
            if *id >= cells.len() {
                return Ok(LenarValue::Void);
            }
            let m = increment.as_integer(cells);
            let content = cells.get(*id);
            let n = content.as_integer(cells);
            match (m, n) {
                (Some(m), Some(n)) => {
                    match n.checked_add(m) {
                        Some(total) => {
                            cells.set_int_at(*id, total);
                            proof {
                                lemma_set_int_len(old(cells)@, *id as int, total as int);
                            }
                            let content2 = cells.get(*id);
                            match content2.as_integer(cells) {
                                Some(k) => Ok(LenarValue::Usize(k)),
                                None => Ok(LenarValue::Void),
                            }
                        },
                        None => Err(
                            LenarError::WrongValue("the incremented value does not fit".to_owned()),
                        ),
                    }
                },
                _ => Ok(LenarValue::Void),
            }
        },
        _ => Ok(LenarValue::Void),
    }
}

/// What `isEqual` answers for an argument list: the structural equality of
/// the first two arguments, and false when fewer than two were given.
pub fn builtin_is_equal(args: &Vec<LenarValue>) -> (r: LenarValue)
    ensures
        r@ == ValueModel::Bool(
            args@.len() >= 2 && spec_eq(args@[0]@, args@[1]@),
        ),
{
    if args.len() >= 2 {
        LenarValue::Bool(crate::value::is_equal(&args[0], &args[1]))
    } else {
        LenarValue::Bool(false)
    }
}

/// The argument vectors `iter` hands to its callback for a list: element and
/// index pairs, in list order.
pub fn iter_call_args(items: &Vec<LenarValue>) -> (r: Vec<Vec<LenarValue>>)
    ensures
        r@.len() == items@.len(),
        forall|i: int|
            0 <= i < items@.len() ==> (#[trigger] r@[i])@.len() == 2 && r@[i]@[0]@ == items@[i]@
                && r@[i]@[1]@ == ValueModel::Usize(i),
{
    let mut out: Vec<Vec<LenarValue>> = Vec::new();
    let mut i: usize = 0;
    while i < items.len()
        invariant
            i <= items@.len(),
            out@.len() == i,
            forall|k: int|
                0 <= k < i ==> (#[trigger] out@[k])@.len() == 2 && out@[k]@[0]@ == items@[k]@
                    && out@[k]@[1]@ == ValueModel::Usize(k),
        decreases items@.len() - i,
    {
        let mut pair: Vec<LenarValue> = Vec::new();
        pair.push(clone_value(&items[i]));
        pair.push(LenarValue::Usize(i));
        out.push(pair);
        i += 1;
    }
    out
}

impl LenarEnum {
    /// A tagged value holding one variant.
    pub fn new_with_variant(variant_name: String, variant_value: LenarValue) -> (r: LenarEnum)
        ensures
            r.entries@.len() == 1,
            r.entries@[0].0@ == variant_name@,
            r.entries@[0].1@ == variant_value@,
    {
        let mut entries: Vec<(String, LenarValue)> = Vec::new();
        entries.push((variant_name, variant_value));
        LenarEnum { entries }
    }

    /// Read the payload under `variant_name` without giving it up.
    pub fn peek_variant(&self, variant_name: &str) -> (r: Option<&LenarValue>)
        ensures
            match r {
                Some(v) => enum_lookup(vm_entries(*self), variant_name@) == Some(v@),
                None => enum_lookup(vm_entries(*self), variant_name@) is None,
            },
    {
        match enum_find_index(self, variant_name) {
            Some(idx) => Some(&self.entries[idx].1),
            None => None,
        }
    }

    /// Take the payload under `variant_name` out, consuming the value.
    pub fn get_variant(self, variant_name: &str) -> (r: Option<LenarValue>)
        ensures
            match r {
                Some(v) => enum_lookup(vm_entries(self), variant_name@) == Some(v@),
                None => enum_lookup(vm_entries(self), variant_name@) is None,
            },
    {
        let mut en = self;
        match enum_find_index(&en, variant_name) {
            Some(idx) => {
                let pair = en.entries.remove(idx);
                Some(pair.1)
            },
            None => None,
        }
    }
}

/// Storing through a chain touches no cell above its start.
proof fn lemma_set_int_frame(cs: Seq<ValueModel>, id: int, n: int)
    ensures
        spec_set_int(cs, id, n).len() == cs.len(),
        forall|k: int| id < k < cs.len() ==> spec_set_int(cs, id, n)[k] == cs[k],
    decreases id,
{
    if 0 <= id < cs.len() {
        match cs[id] {
            ValueModel::Ref(j) => {
                if 0 <= j < id {
                    lemma_set_int_frame(cs, j, n);
                }
            },
            _ => {},
        }
    }
}

/// Reading a reference chain back after storing through it gives the stored
/// number: what `add` writes, every holder of the cell then sees.
pub proof fn lemma_store_then_read(cs: Seq<ValueModel>, id: int, n: int)
    requires
        0 <= id < cs.len(),
        spec_as_int(cs, cs[id], id) is Some,
    ensures
        spec_set_int(cs, id, n).len() == cs.len(),
        spec_as_int(spec_set_int(cs, id, n), spec_set_int(cs, id, n)[id], id) == Some(n),
    decreases id,
{
    lemma_set_int_len(cs, id, n);
    let cs2 = spec_set_int(cs, id, n);
    match cs[id] {
        ValueModel::Usize(_) => {
            assert(cs2[id] == ValueModel::Usize(n));
        },
        ValueModel::Ref(j) => {
            assert(0 <= j < id && j < cs.len());
            lemma_store_then_read(cs, j, n);
            lemma_set_int_frame(cs, j, n);
            assert(cs2[id] == cs[id]);
            assert(spec_as_int(cs2, cs2[id], id) == spec_as_int(cs2, cs2[j], j));
        },
        _ => {},
    }
}

} // verus!
