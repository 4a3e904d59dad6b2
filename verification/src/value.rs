use vstd::prelude::*;

verus! {

/// The evaluation and parse errors. Every failure a program can provoke
/// surfaces as one of these, so a host can report it and carry on.
#[derive(Debug)]
pub enum LenarError {
    /// A bare identifier did not resolve in the scope chain.
    VariableNotFound(Vec<u8>),
    /// A call name did not resolve to a function.
    FunctionNotFound(Vec<u8>),
    /// A wrong argument, a failed host operation, or a mismatched result tag.
    WrongValue(String),
    /// Raised while parsing, e.g. `=` outside a variable definition.
    SyntaxError(String),
}

pub type LenarResult<T> = Result<T, LenarError>;

/// The built-in functions injected into every fresh global scope. The pure
/// ones are computed by the evaluator; the ones that print, touch files,
/// sleep or join tasks go through the host.
#[derive(Clone, Copy)]
pub enum Builtin {
    Print,
    Println,
    IsEqual,
    ListNew,
    Iter,
    ThreadRun,
    Sleep,
    Wait,
    OkWrap,
    ErrWrap,
    IsOk,
    Unwrap,
    UnwrapErr,
    RefNew,
    Add,
    ToText,
    OpenFile,
}

/// A named object exposed through dotted property access: the built-in
/// `Lenar` object, or one the host registered under a name.
pub enum InstanceHandle {
    Lenar,
    Host(Vec<u8>),
}

/// A function defined by a `fn(...)` literal in the program.
pub struct DefinedFn {
    /// The block whose `VarRef` children name the parameters.
    pub arguments_block: usize,
    /// The body block.
    pub block_value: usize,
    /// The values snapshot from the defining scope, each behind a fresh
    /// reference cell.
    pub captures: Vec<(Vec<u8>, LenarValue)>,
}

/// A callable value: a built-in, a host-registered function known by name,
/// or a function literal defined by the program.
pub enum FunctionHandle {
    Builtin(Builtin),
    Host(Vec<u8>),
    Defined(DefinedFn),
}

/// A tagged value: a variant name with a payload. `Ok` and `Err` results are
/// carried this way.
pub struct LenarEnum {
    pub entries: Vec<(String, LenarValue)>,
}

/// A runtime value. `Ref` holds the index of a shared mutable cell in the
/// run's [`CellStore`]; every other variant owns its data.
pub enum LenarValue {
    Usize(usize),
    List(Vec<LenarValue>),
    Str(String),
    Byte(u8),
    Bytes(Vec<u8>),
    OwnedBytes(Vec<u8>),
    Void,
    Bool(bool),
    Instance(InstanceHandle),
    Function(FunctionHandle),
    Enum(LenarEnum),
    Ref(usize),
}

/// The model of an instance handle.
#[verifier::ext_equal]
pub enum InstanceModel {
    Lenar,
    Host(Seq<u8>),
}

/// The model of a callable.
#[verifier::ext_equal]
pub enum FunctionModel {
    Builtin(Builtin),
    Host(Seq<u8>),
    Defined { arguments_block: int, block_value: int, captures: Seq<(Seq<u8>, ValueModel)> },
}

/// The mathematical model of a runtime value: the same shape, with
/// mathematical sequences for the aggregates. Contracts speak of models.
#[verifier::ext_equal]
pub enum ValueModel {
    Usize(int),
    List(Seq<ValueModel>),
    Str(Seq<char>),
    Byte(u8),
    Bytes(Seq<u8>),
    OwnedBytes(Seq<u8>),
    Void,
    Bool(bool),
    Instance(InstanceModel),
    Function(FunctionModel),
    Enum(Seq<(Seq<char>, ValueModel)>),
    Ref(int),
}

/// The model of a value: the same shape, with sequences for aggregates.
pub open spec fn vm(v: LenarValue) -> ValueModel
    decreases v,
    via vm_decreases
{
    match v {
        LenarValue::Usize(n) => ValueModel::Usize(n as int),
        LenarValue::List(x) => ValueModel::List(
            Seq::new(
                x@.len(),
                |i: int|
                    if 0 <= i < x@.len() {
                        vm(x@[i])
                    } else {
                        ValueModel::Void
                    },
            ),
        ),
        LenarValue::Str(s) => ValueModel::Str(s@),
        LenarValue::Byte(b) => ValueModel::Byte(b),
        LenarValue::Bytes(b) => ValueModel::Bytes(b@),
        LenarValue::OwnedBytes(b) => ValueModel::OwnedBytes(b@),
        LenarValue::Void => ValueModel::Void,
        LenarValue::Bool(b) => ValueModel::Bool(b),
        LenarValue::Instance(InstanceHandle::Lenar) => ValueModel::Instance(InstanceModel::Lenar),
        LenarValue::Instance(InstanceHandle::Host(n)) => ValueModel::Instance(
            InstanceModel::Host(n@),
        ),
        LenarValue::Function(h) => ValueModel::Function(
            match h {
                FunctionHandle::Builtin(b) => FunctionModel::Builtin(b),
                FunctionHandle::Host(n) => FunctionModel::Host(n@),
                FunctionHandle::Defined(d) => FunctionModel::Defined {
                    arguments_block: d.arguments_block as int,
                    block_value: d.block_value as int,
                    captures: Seq::new(
                        d.captures@.len(),
                        |i: int|
                            if 0 <= i < d.captures@.len() {
                                (d.captures@[i].0@, vm(d.captures@[i].1))
                            } else {
                                (Seq::empty(), ValueModel::Void)
                            },
                    ),
                },
            },
        ),
        LenarValue::Enum(en) => ValueModel::Enum(
            Seq::new(
                en.entries@.len(),
                |i: int|
                    if 0 <= i < en.entries@.len() {
                        (en.entries@[i].0@, vm(en.entries@[i].1))
                    } else {
                        (Seq::empty(), ValueModel::Void)
                    },
            ),
        ),
        LenarValue::Ref(id) => ValueModel::Ref(id as int),
    }
}

#[via_fn]
proof fn vm_decreases(v: LenarValue) {
    match v {
        LenarValue::List(x) => {
            assert forall|i: int| 0 <= i < x@.len() implies decreases_to!(v => x@[i]) by {
                assert(decreases_to!(v => v->List_0));
                assert(decreases_to!(v->List_0 => v->List_0@));
                assert(decreases_to!(v->List_0@ => v->List_0@[i]));
            }
        },
        LenarValue::Function(FunctionHandle::Defined(d)) => {
            assert forall|i: int| 0 <= i < d.captures@.len() implies decreases_to!(
                v => d.captures@[i].1,
            ) by {
                assert(decreases_to!(v => v->Function_0));
                assert(decreases_to!(v->Function_0 => v->Function_0->Defined_0));
                assert(decreases_to!(v->Function_0->Defined_0
                    => v->Function_0->Defined_0.captures));
                assert(decreases_to!(v->Function_0->Defined_0.captures
                    => v->Function_0->Defined_0.captures@));
                assert(decreases_to!(v->Function_0->Defined_0.captures@
                    => v->Function_0->Defined_0.captures@[i]));
                assert(decreases_to!(v->Function_0->Defined_0.captures@[i]
                    => v->Function_0->Defined_0.captures@[i].1));
            }
        },
        LenarValue::Enum(en) => {
            assert forall|i: int| 0 <= i < en.entries@.len() implies decreases_to!(
                v => en.entries@[i].1,
            ) by {
                assert(decreases_to!(v => v->Enum_0));
                assert(decreases_to!(v->Enum_0 => v->Enum_0.entries));
                assert(decreases_to!(v->Enum_0.entries => v->Enum_0.entries@));
                assert(decreases_to!(v->Enum_0.entries@ => v->Enum_0.entries@[i]));
                assert(decreases_to!(v->Enum_0.entries@[i] => v->Enum_0.entries@[i].1));
            }
        },
        _ => {},
    }
}

impl View for LenarValue {
    type V = ValueModel;

    open spec fn view(&self) -> ValueModel {
        vm(*self)
    }
}

/// Structural equality of two values, the meaning of `isEqual`: numbers,
/// booleans, text, lists and void compare by contents; function and
/// instance handles are never equal, not even to themselves; byte, tagged
/// and reference values never compare equal either.
pub open spec fn spec_eq(a: ValueModel, b: ValueModel) -> bool
    decreases a,
{
    match (a, b) {
        (ValueModel::Usize(x), ValueModel::Usize(y)) => x == y,
        (ValueModel::List(x), ValueModel::List(y)) => x.len() == y.len() && (forall|i: int|
            0 <= i < x.len() ==> spec_eq(x[i], y[i])),
        (ValueModel::Str(x), ValueModel::Str(y)) => x == y,
        (ValueModel::Bytes(x), ValueModel::Bytes(y)) => x == y,
        (ValueModel::OwnedBytes(x), ValueModel::OwnedBytes(y)) => x == y,
        (ValueModel::Bool(x), ValueModel::Bool(y)) => x == y,
        (ValueModel::Void, ValueModel::Void) => true,
        _ => false,
    }
}

/// The values `isEqual` treats structurally: numbers, booleans, text, void,
/// and lists of such values.
pub open spec fn is_plain_data(v: ValueModel) -> bool
    decreases v,
{
    match v {
        ValueModel::Usize(_) => true,
        ValueModel::Str(_) => true,
        ValueModel::Bytes(_) => true,
        ValueModel::OwnedBytes(_) => true,
        ValueModel::Bool(_) => true,
        ValueModel::Void => true,
        ValueModel::List(x) => forall|i: int| 0 <= i < x.len() ==> is_plain_data(#[trigger] x[i]),
        _ => false,
    }
}

/// Structural equality is reflexive on numbers, booleans, text, lists and
/// void.
pub proof fn lemma_is_equal_reflexive(v: ValueModel)
    requires
        is_plain_data(v),
    ensures
        spec_eq(v, v),
    decreases v,
{
    match v {
        ValueModel::List(x) => {
            assert forall|i: int| 0 <= i < x.len() implies spec_eq(x[i], x[i]) by {
                lemma_is_equal_reflexive(x[i]);
            }
        },
        _ => {},
    }
}

/// Structural equality is commutative on every pair of values.
pub proof fn lemma_is_equal_commutative(a: ValueModel, b: ValueModel)
    ensures
        spec_eq(a, b) == spec_eq(b, a),
    decreases a,
{
    match (a, b) {
        (ValueModel::List(x), ValueModel::List(y)) => {
            assert forall|i: int| 0 <= i < x.len() && i < y.len() implies spec_eq(x[i], y[i])
                == spec_eq(y[i], x[i]) by {
                lemma_is_equal_commutative(x[i], y[i]);
            }
        },
        _ => {},
    }
}

/// A function or instance handle is equal to nothing, itself included.
pub proof fn lemma_handles_never_equal(a: ValueModel, b: ValueModel)
    ensures
        a is Function || a is Instance || b is Function || b is Instance ==> !spec_eq(a, b),
{
}

/// A verified deep copy of a byte vector.
pub fn clone_bytes(v: &Vec<u8>) -> (r: Vec<u8>)
    ensures
        r@ == v@,
{
    let mut out: Vec<u8> = Vec::new();
    let mut i: usize = 0;
    while i < v.len()
        invariant
            i <= v@.len(),
            out@ == v@.take(i as int),
        decreases v@.len() - i,
    {
        out.push(v[i]);
        i += 1;
        proof {
            assert(out@ =~= v@.take(i as int));
        }
    }
    proof {
        assert(v@.take(v@.len() as int) =~= v@);
    }
    out
}

/// A verified copy of a byte slice into an owned vector.
pub fn clone_bytes_from(v: &[u8]) -> (r: Vec<u8>)
    ensures
        r@ == v@,
{
    vstd::slice::slice_to_vec(v)
}

/// A verified deep copy of a value. Reference indices are copied as they
/// are: the copy aliases the same cells, as handing a value around must.
pub fn clone_value(v: &LenarValue) -> (r: LenarValue)
    ensures
        r@ == v@,
    decreases *v,
{
    match v {
        LenarValue::Usize(n) => LenarValue::Usize(*n),
        LenarValue::Str(s) => LenarValue::Str(s.clone()),
        LenarValue::Byte(b) => LenarValue::Byte(*b),
        LenarValue::Bytes(b) => LenarValue::Bytes(clone_bytes(b)),
        LenarValue::OwnedBytes(b) => LenarValue::OwnedBytes(clone_bytes(b)),
        LenarValue::Void => LenarValue::Void,
        LenarValue::Bool(b) => LenarValue::Bool(*b),
        LenarValue::Ref(id) => LenarValue::Ref(*id),
        LenarValue::Instance(h) => LenarValue::Instance(
            match h {
                InstanceHandle::Lenar => InstanceHandle::Lenar,
                InstanceHandle::Host(n) => InstanceHandle::Host(clone_bytes(n)),
            },
        ),
        LenarValue::Function(h) => {
            let r = LenarValue::Function(clone_function(h));
            proof {
                assert(r@ =~~= v@);
            }
            r
        },
        LenarValue::Enum(en) => {
            let mut entries: Vec<(String, LenarValue)> = Vec::new();
            let mut i: usize = 0;
            while i < en.entries.len()
                invariant
                    i <= en.entries@.len(),
                    *v is Enum,
                    v->Enum_0 == *en,
                    entries@.len() == i,
                    forall|j: int|
                        0 <= j < i ==> #[trigger] entries@[j].0@ == en.entries@[j].0@
                            && entries@[j].1@ == en.entries@[j].1@,
                decreases en.entries@.len() - i,
            {
                let pair = &en.entries[i];
                proof {
                    assert(decreases_to!(*v => v->Enum_0));
                    assert(decreases_to!(v->Enum_0 => v->Enum_0.entries));
                    assert(decreases_to!(v->Enum_0.entries => v->Enum_0.entries@));
                    assert(decreases_to!(v->Enum_0.entries@ => v->Enum_0.entries@[i as int]));
                    assert(decreases_to!(v->Enum_0.entries@[i as int] => v->Enum_0.entries@[
                        i as int
                    ].1));
                    assert(decreases_to!(*v => pair.1));
                }
                entries.push((pair.0.clone(), clone_value(&pair.1)));
                i += 1;
            }
            let r = LenarValue::Enum(LenarEnum { entries });
            proof {
                assert(r@ is Enum && v@ is Enum);
                assert forall|j: int| 0 <= j < r@->Enum_0.len() implies r@->Enum_0[j]
                    == v@->Enum_0[j] by {
                    assert(entries@[j].0@ == en.entries@[j].0@);
                    assert(entries@[j].1@ == en.entries@[j].1@);
                    assert(r@->Enum_0[j] == (entries@[j].0@, vm(entries@[j].1)));
                    assert(v@->Enum_0[j] == (en.entries@[j].0@, vm(en.entries@[j].1)));
                }
                assert(r@->Enum_0 =~= v@->Enum_0);
                assert(r@ =~~= v@);
            }
            r
        },
        LenarValue::List(items) => {
            let mut out: Vec<LenarValue> = Vec::new();
            let mut i: usize = 0;
            while i < items.len()
                invariant
                    i <= items@.len(),
                    *v is List,
                    v->List_0 == *items,
                    out@.len() == i,
                    forall|j: int| 0 <= j < i ==> #[trigger] out@[j]@ == items@[j]@,
                decreases items@.len() - i,
            {
                proof {
                    assert(decreases_to!(*v => v->List_0));
                    assert(decreases_to!(v->List_0 => v->List_0@));
                    assert(decreases_to!(v->List_0@ => v->List_0@[i as int]));
                    assert(decreases_to!(*v => items@[i as int]));
                }
                out.push(clone_value(&items[i]));
                i += 1;
            }
            let r = LenarValue::List(out);
            proof {
                assert(r@ is List && v@ is List);
                assert forall|j: int| 0 <= j < r@->List_0.len() implies r@->List_0[j]
                    == v@->List_0[j] by {
                    assert(out@[j]@ == items@[j]@);
                    assert(r@->List_0[j] == vm(out@[j]));
                    assert(v@->List_0[j] == vm(items@[j]));
                }
                assert(r@->List_0 =~= v@->List_0);
                assert(r@ =~~= v@);
            }
            r
        },
    }
}

/// A verified deep copy of a function handle.
pub fn clone_function(h: &FunctionHandle) -> (r: FunctionHandle)
    ensures
        LenarValue::Function(r)@ == LenarValue::Function(*h)@,
    decreases *h,
{
    match h {
        FunctionHandle::Builtin(b) => FunctionHandle::Builtin(*b),
        FunctionHandle::Host(n) => FunctionHandle::Host(clone_bytes(n)),
        FunctionHandle::Defined(d) => {
            let mut captures: Vec<(Vec<u8>, LenarValue)> = Vec::new();
            let mut i: usize = 0;
            while i < d.captures.len()
                invariant
                    i <= d.captures@.len(),
                    *h is Defined,
                    h->Defined_0 == *d,
                    captures@.len() == i,
                    forall|j: int|
                        0 <= j < i ==> #[trigger] captures@[j].0@ == d.captures@[j].0@
                            && captures@[j].1@ == d.captures@[j].1@,
                decreases d.captures@.len() - i,
            {
                let pair = &d.captures[i];
                proof {
                    assert(decreases_to!(*h => h->Defined_0));
                    assert(decreases_to!(h->Defined_0 => h->Defined_0.captures));
                    assert(decreases_to!(h->Defined_0.captures => h->Defined_0.captures@));
                    assert(decreases_to!(h->Defined_0.captures@ => h->Defined_0.captures@[
                        i as int
                    ]));
                    assert(decreases_to!(h->Defined_0.captures@[i as int] => h->Defined_0.captures@[
                        i as int
                    ].1));
                    assert(decreases_to!(*h => pair.1));
                }
                captures.push((clone_bytes(&pair.0), clone_value(&pair.1)));
                i += 1;
            }
            let r = FunctionHandle::Defined(
                DefinedFn {
                    arguments_block: d.arguments_block,
                    block_value: d.block_value,
                    captures,
                },
            );
            proof {
                let mr = LenarValue::Function(r)@;
                let mh = LenarValue::Function(*h)@;
                assert(mr is Function && mh is Function);
                assert forall|j: int| 0 <= j < mr->Function_0->Defined_captures.len()
                    implies mr->Function_0->Defined_captures[j]
                    == mh->Function_0->Defined_captures[j] by {
                    assert(captures@[j].0@ == d.captures@[j].0@);
                    assert(captures@[j].1@ == d.captures@[j].1@);
                    assert(mr->Function_0->Defined_captures[j] == (
                        captures@[j].0@,
                        vm(captures@[j].1),
                    ));
                    assert(mh->Function_0->Defined_captures[j] == (
                        d.captures@[j].0@,
                        vm(d.captures@[j].1),
                    ));
                }
                assert(mr->Function_0->Defined_captures =~= mh->Function_0->Defined_captures);
                assert(mr =~~= mh);
            }
            r
        },
    }
}

/// The store of shared mutable cells. A `ref(...)` call allocates a cell and
/// hands out its index; every holder of the index reads and writes the same
/// slot. A cell's contents only ever refer to cells allocated before it, so
/// chains of references always lead downward.
pub struct CellStore {
    cells: Vec<LenarValue>,
}

impl CellStore {
    /// The cell models in allocation order.
    pub closed spec fn view(&self) -> Seq<ValueModel> {
        Seq::new(self.cells@.len(), |i: int| self.cells@[i]@)
    }

    /// An empty store.
    pub fn new() -> (r: CellStore)
        ensures
            r@ == Seq::<ValueModel>::empty(),
    {
        let r = CellStore { cells: Vec::new() };
        proof {
            assert(r@ =~= Seq::<ValueModel>::empty());
        }
        r
    }

    pub fn len(&self) -> (r: usize)
        ensures
            r == self@.len(),
    {
        self.cells.len()
    }

    /// Allocate a fresh cell holding `v` and return its index.
    pub fn allocate(&mut self, v: LenarValue) -> (id: usize)
        ensures
            id as int == old(self)@.len(),
            final(self)@ == old(self)@.push(v@),
    {
        let id = self.cells.len();
        self.cells.push(v);
        proof {
            assert(self@ =~= old(self)@.push(v@));
        }
        id
    }

    /// Read the value held in cell `id`.
    pub fn get(&self, id: usize) -> (r: LenarValue)
        requires
            id < self@.len(),
        ensures
            r@ == self@[id as int],
    {
        clone_value(&self.cells[id])
    }

    /// Replace the value held in cell `id`.
    pub fn put(&mut self, id: usize, v: LenarValue)
        requires
            id < old(self)@.len(),
        ensures
            final(self)@ == old(self)@.update(id as int, v@),
    {
        self.cells[id] = v;
        proof {
            assert(self@ =~= old(self)@.update(id as int, v@));
        }
    }
}

/// Byte-wise equality of two slices.
pub fn bytes_eq(a: &[u8], b: &[u8]) -> (r: bool)
    ensures
        r == (a@ == b@),
{
    if a.len() != b.len() {
        proof {
            assert(a@ != b@);
        }
        return false;
    }
    let mut i: usize = 0;
    while i < a.len()
        invariant
            i <= a@.len(),
            a@.len() == b@.len(),
            forall|j: int| 0 <= j < i ==> a@[j] == b@[j],
        decreases a@.len() - i,
    {
        if *vstd::slice::slice_index_get(a, i) != *vstd::slice::slice_index_get(b, i) {
            return false;
        }
        i += 1;
    }
    proof {
        assert(a@ =~= b@);
    }
    true
}

/// Character-wise equality of two strings, decided on their UTF-8 bytes.
pub fn str_eq(a: &str, b: &str) -> (r: bool)
    ensures
        r == (a@ == b@),
{
    let r = bytes_eq(a.as_bytes(), b.as_bytes());
    proof {
        broadcast use vstd::utf8::encode_utf8_decode_utf8;

        if vstd::string::StringSliceAdditionalSpecFns::spec_bytes(a)
            == vstd::string::StringSliceAdditionalSpecFns::spec_bytes(b) {
            assert(vstd::utf8::decode_utf8(vstd::utf8::encode_utf8(a@)) == a@);
            assert(vstd::utf8::decode_utf8(vstd::utf8::encode_utf8(b@)) == b@);
        }
    }
    r
}

/// Structural equality, the meaning of `isEqual`: see [`spec_eq`].
pub fn is_equal(a: &LenarValue, b: &LenarValue) -> (r: bool)
    ensures
        r == spec_eq(a@, b@),
    decreases *a,
{
    match (a, b) {
        (LenarValue::Usize(x), LenarValue::Usize(y)) => x == y,
        (LenarValue::List(x), LenarValue::List(y)) => {
            if x.len() != y.len() {
                proof {
                    assert(a@->List_0.len() == x@.len());
                    assert(b@->List_0.len() == y@.len());
                }
                return false;
            }
            let mut i: usize = 0;
            while i < x.len()
                invariant
                    i <= x@.len(),
                    x@.len() == y@.len(),
                    *a is List,
                    a->List_0 == *x,
                    *b is List,
                    b->List_0 == *y,
                    forall|j: int| 0 <= j < i ==> spec_eq(#[trigger] x@[j]@, y@[j]@),
                decreases x@.len() - i,
            {
                proof {
                    assert(decreases_to!(*a => a->List_0));
                    assert(decreases_to!(a->List_0 => a->List_0@));
                    assert(decreases_to!(a->List_0@ => a->List_0@[i as int]));
                    assert(decreases_to!(*a => x@[i as int]));
                }
                if !is_equal(&x[i], &y[i]) {
                    proof {
                        assert(a@->List_0[i as int] == vm(x@[i as int]));
                        assert(b@->List_0[i as int] == vm(y@[i as int]));
                        assert(!spec_eq(a@, b@));
                    }
                    return false;
                }
                i += 1;
            }
            proof {
                assert forall|j: int| 0 <= j < a@->List_0.len() implies spec_eq(
                    #[trigger] a@->List_0[j],
                    b@->List_0[j],
                ) by {
                    assert(spec_eq(x@[j]@, y@[j]@));
                    assert(a@->List_0[j] == vm(x@[j]));
                    assert(b@->List_0[j] == vm(y@[j]));
                }
            }
            true
        },
        (LenarValue::Str(x), LenarValue::Str(y)) => str_eq(x.as_str(), y.as_str()),
        (LenarValue::Bytes(x), LenarValue::Bytes(y)) => bytes_eq(x.as_slice(), y.as_slice()),
        (LenarValue::OwnedBytes(x), LenarValue::OwnedBytes(y)) => bytes_eq(
            x.as_slice(),
            y.as_slice(),
        ),
        (LenarValue::Bool(x), LenarValue::Bool(y)) => x == y,
        (LenarValue::Void, LenarValue::Void) => true,
        _ => false,
    }
}

impl LenarValue {
    /// Whether this value is void.
    pub fn is_void(&self) -> (r: bool)
        ensures
            r == (self@ is Void),
    {
        match self {
            LenarValue::Void => true,
            _ => false,
        }
    }

    /// The bytes behind a text value, for `Bytes` and `OwnedBytes`.
    pub fn as_bytes(&self) -> (r: Option<&[u8]>)
        ensures
            match r {
                Some(bs) => (self@ is Bytes && bs@ == self@->Bytes_0) || (self@ is OwnedBytes
                    && bs@ == self@->OwnedBytes_0),
                None => !(self@ is Bytes) && !(self@ is OwnedBytes),
            },
    {
        match self {
            LenarValue::Bytes(v) => Some(v.as_slice()),
            LenarValue::OwnedBytes(v) => Some(v.as_slice()),
            _ => None,
        }
    }
}

/// The integer a value resolves to: a number itself, or the number at the
/// end of a chain of reference cells. `bound` caps the cell indices a chain
/// may pass through, so chains always descend.
pub open spec fn spec_as_int(cells: Seq<ValueModel>, v: ValueModel, bound: int) -> Option<int>
    decreases bound,
{
    match v {
        ValueModel::Usize(n) => Some(n),
        ValueModel::Ref(id) => if 0 <= id < bound && id < cells.len() {
            spec_as_int(cells, cells[id], id)
        } else {
            Option::None
        },
        _ => Option::None,
    }
}

/// The function a value resolves to: a handle itself, or the handle at the
/// end of a chain of reference cells.
pub open spec fn spec_as_func(cells: Seq<ValueModel>, v: ValueModel, bound: int) -> Option<
    FunctionModel,
>
    decreases bound,
{
    match v {
        ValueModel::Function(f) => Some(f),
        ValueModel::Ref(id) => if 0 <= id < bound && id < cells.len() {
            spec_as_func(cells, cells[id], id)
        } else {
            Option::None
        },
        _ => Option::None,
    }
}

/// What storing `n` through cell `id` does: the first non-reference cell at
/// the end of the chain is overwritten when it holds a number, and nothing
/// changes otherwise.
pub open spec fn spec_set_int(cells: Seq<ValueModel>, id: int, n: int) -> Seq<ValueModel>
    decreases id,
{
    if 0 <= id < cells.len() {
        match cells[id] {
            ValueModel::Usize(_) => cells.update(id, ValueModel::Usize(n)),
            ValueModel::Ref(j) => if 0 <= j < id {
                spec_set_int(cells, j, n)
            } else {
                cells
            },
            _ => cells,
        }
    } else {
        cells
    }
}

impl CellStore {
    /// Store `n` through the chain starting at cell `id`.
    pub fn set_int_at(&mut self, id: usize, n: usize)
        requires
            id < old(self)@.len(),
        ensures
            final(self)@ == spec_set_int(old(self)@, id as int, n as int),
    {
        let mut t: usize = id;
        loop
            invariant_except_break
                t < self@.len(),
                self@ == old(self)@,
                spec_set_int(self@, t as int, n as int) == spec_set_int(
                    old(self)@,
                    id as int,
                    n as int,
                ),
            ensures
                self@ == spec_set_int(old(self)@, id as int, n as int),
            decreases t,
        {
            let cur = self.get(t);
            match cur {
                LenarValue::Usize(_) => {
                    self.put(t, LenarValue::Usize(n));
                    break ;
                },
                LenarValue::Ref(j) => {
                    if j < t {
                        t = j;
                    } else {
                        // never reached on a well-formed store
                        break ;
                    }
                },
                _ => {
                    break ;
                },
            }
        }
    }
}

impl LenarValue {
    /// The integer this value resolves to, through reference cells.
    pub fn as_integer(&self, cells: &CellStore) -> (r: Option<usize>)
        ensures
            match r {
                Some(n) => spec_as_int(cells@, self@, cells@.len() as int) == Some(n as int),
                None => spec_as_int(cells@, self@, cells@.len() as int) is None,
            },
    {
        match self {
            LenarValue::Usize(n) => Some(*n),
            LenarValue::Ref(id) => {
                if *id >= cells.len() {
                    return None;
                }
                let mut t: usize = *id;
                let mut res: Option<usize> = None;
                loop
                    invariant_except_break
                        t < cells@.len(),
                        spec_as_int(cells@, cells@[t as int], t as int) == spec_as_int(
                            cells@,
                            self@,
                            cells@.len() as int,
                        ),
                    ensures
                        match res {
                            Some(n) => spec_as_int(cells@, self@, cells@.len() as int) == Some(
                                n as int,
                            ),
                            None => spec_as_int(cells@, self@, cells@.len() as int) is None,
                        },
                    decreases t,
                {
                    let cur = self.probe_cell(cells, t);
                    match cur {
                        LenarValue::Usize(n) => {
                            res = Some(n);
                            break ;
                        },
                        LenarValue::Ref(j) => {
                            if j < t {
                                t = j;
                            } else {
                                res = None;
                                break ;
                            }
                        },
                        _ => {
                            res = None;
                            break ;
                        },
                    }
                }
                res
            },
            _ => None,
        }
    }

    /// Read one cell; a helper for the chain walks.
    fn probe_cell(&self, cells: &CellStore, t: usize) -> (r: LenarValue)
        requires
            t < cells@.len(),
        ensures
            r@ == cells@[t as int],
    {
        cells.get(t)
    }

    /// The function this value resolves to, through reference cells.
    pub fn as_func(&self, cells: &CellStore) -> (r: Option<FunctionHandle>)
        ensures
            match r {
                Some(f) => spec_as_func(cells@, self@, cells@.len() as int) == Some(
                    LenarValue::Function(f)@->Function_0,
                ),
                None => spec_as_func(cells@, self@, cells@.len() as int) is None,
            },
    {
        match self {
            LenarValue::Function(f) => Some(clone_function(f)),
            LenarValue::Ref(id) => {
                if *id >= cells.len() {
                    return None;
                }
                let mut t: usize = *id;
                let mut res: Option<FunctionHandle> = None;
                loop
                    invariant_except_break
                        t < cells@.len(),
                        spec_as_func(cells@, cells@[t as int], t as int) == spec_as_func(
                            cells@,
                            self@,
                            cells@.len() as int,
                        ),
                    ensures
                        match res {
                            Some(f) => spec_as_func(cells@, self@, cells@.len() as int) == Some(
                                LenarValue::Function(f)@->Function_0,
                            ),
                            None => spec_as_func(cells@, self@, cells@.len() as int) is None,
                        },
                    decreases t,
                {
                    let cur = self.probe_cell(cells, t);
                    match cur {
                        LenarValue::Function(f) => {
                            res = Some(f);
                            break ;
                        },
                        LenarValue::Ref(j) => {
                            if j < t {
                                t = j;
                            } else {
                                res = None;
                                break ;
                            }
                        },
                        _ => {
                            res = None;
                            break ;
                        },
                    }
                }
                res
            },
            _ => None,
        }
    }

    /// Set the integer behind this value: a number is replaced in place; a
    /// reference stores through its chain of cells.
    pub fn set_integer(&mut self, integer: usize, cells: &mut CellStore)
        ensures
            match old(self)@ {
                ValueModel::Usize(_) => final(self)@ == ValueModel::Usize(integer as int)
                    && final(cells)@ == old(cells)@,
                ValueModel::Ref(id) => *final(self) == *old(self) && final(cells)@
                    == spec_set_int(old(cells)@, id, integer as int),
                _ => *final(self) == *old(self) && final(cells)@ == old(cells)@,
            },
    {
        match self {
            LenarValue::Usize(n) => {
                *n = integer;
            },
            LenarValue::Ref(id) => {
                let i = *id;
                if i < cells.len() {
                    cells.set_int_at(i, integer);
                }
            },
            _ => {},
        }
    }
}


/// What the library asks of its embedding host. The evaluator computes every
/// value and decision itself; these operations are the narrow edge through
/// which output, files, time and tasks reach the outside. Nothing is assumed
/// of their behaviour: the evaluator's contracts state what holds whatever a
/// host does.
pub trait RuntimeHost {
    /// Write rendered output to the host's sink.
    fn write_out(&mut self, bytes: &Vec<u8>);

    /// Block the calling task for `ms` milliseconds.
    fn sleep_ms(&mut self, ms: usize);

    /// Start a task that calls the function named `fn_name` with the given
    /// argument values, already evaluated by the spawning task; the returned
    /// id names the task for `join_task`.
    fn spawn_task(&mut self, fn_name: &Vec<u8>, arguments: Vec<LenarValue>) -> usize;

    /// Join the task under `handle`; false when the task failed.
    fn join_task(&mut self, handle: usize) -> bool;

    /// Open the file at `path` for reading.
    fn open_file(&mut self, path: &Vec<u8>) -> Option<usize>;

    /// Read the rest of the file under `rid`.
    fn read_to_end(&mut self, rid: usize) -> Option<Vec<u8>>;

    /// Call the host function registered under `name`.
    fn call_host_function(&mut self, name: &Vec<u8>, args: Vec<LenarValue>) -> LenarResult<
        LenarValue,
    >;

    /// Read one property of the host object registered under `name`.
    fn host_prop(&mut self, instance: &Vec<u8>, prop: &Vec<u8>) -> LenarValue;
}

} // verus!
