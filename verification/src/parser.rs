use vstd::prelude::*;
use vstd::string::StringSliceAdditionalSpecFns;
use crate::ast::{spec_add_child, AstNode, ParserObject, ParserObjectKey};
use crate::pstate::{
    empty_block, init_parse_state, let_bytes, map_stack, mk_state, spec_parse, spec_step,
    step_resume, BlockType, ParseState,
};
use crate::scan::{
    count_unexpected_between, lemma_scan_delim, lemma_scan_until, parse_usize_bytes, slice_until,
    slice_until_delimeter, split_path,
};
use crate::store::{
    node_map, node_slab_get, node_slab_get_mut, node_slab_insert, node_slab_linear, node_slab_new,
    node_slots,
};
use crate::value::LenarError;
use std::sync::Arc;

verus! {

/// The parser: a single pass over source text that appends AST nodes to an
/// arena. The arena is insert-only, so keys handed out once stay valid across
/// later, incremental `parse` calls.
pub struct Parser {
    objects: slab::Slab<ParserObject>,
    global_block: ParserObjectKey,
}

/// The arena a fresh parser starts from: the global block alone, under key 0.
pub open spec fn initial_arena() -> Map<int, AstNode> {
    Map::<int, AstNode>::empty().insert(0, empty_block())
}

/// The scanner's abstract state assembled from the parser and the exec
/// loop's locals.
pub open spec fn cur_of(
    p: &Parser,
    stack: Seq<(ParserObjectKey, BlockType)>,
    in_str: bool,
    str_start: usize,
    last_def: bool,
) -> ParseState {
    mk_state(p.arena(), p.next_key(), map_stack(stack), in_str, str_start as int, last_def)
}

proof fn lemma_map_values_insert(m: Map<int, ParserObject>, k: int, v: ParserObject)
    ensures
        m.insert(k, v).map_values(|o: ParserObject| o@) =~= m.map_values(
            |o: ParserObject| o@,
        ).insert(k, v@),
{
}

impl Parser {
    /// The arena as a map from keys to node models.
    pub closed spec fn arena(&self) -> Map<int, AstNode> {
        node_map(self.objects).map_values(|o: ParserObject| o@)
    }

    /// The key the next inserted node will receive.
    pub closed spec fn next_key(&self) -> int {
        node_slots(self.objects)
    }

    /// The key of the global block.
    pub closed spec fn global(&self) -> int {
        self.global_block as int
    }

    /// The arena's keys are exactly `0 .. next_key`.
    pub closed spec fn linear(&self) -> bool {
        node_slab_linear(self.objects)
    }

    /// Well-formedness: linearity, and the global block is a valid key.
    pub open spec fn wf(&self) -> bool {
        &&& self.linear()
        &&& 0 <= self.global() < self.next_key()
    }

    /// The arena's keys are `0 .. next_key`, as a fact on `arena()`.
    pub proof fn lemma_arena_dom(&self)
        requires
            self.linear(),
        ensures
            forall|i: int| self.arena().dom().contains(i) <==> 0 <= i < self.next_key(),
    {
        assert(self.arena().dom() =~= node_map(self.objects).dom());
    }

    /// Insert a node, without recording it anywhere: it gets the next key.
    fn insert_node(&mut self, node: ParserObject) -> (key: ParserObjectKey)
        requires
            old(self).linear(),
        ensures
            final(self).linear(),
            final(self).global() == old(self).global(),
            key as int == old(self).next_key(),
            final(self).next_key() == old(self).next_key() + 1,
            final(self).arena() =~= old(self).arena().insert(key as int, node@),
    {
        let ghost m0 = node_map(self.objects);
        let key = node_slab_insert(&mut self.objects, node);
        proof {
            lemma_map_values_insert(m0, key as int, node);
            assert(node_slab_linear(self.objects));
        }
        key
    }

    /// Record `key` as a child of the block under `parent`.
    fn attach_child(&mut self, parent: ParserObjectKey, key: ParserObjectKey)
        requires
            old(self).linear(),
            (parent as int) < old(self).next_key(),
        ensures
            final(self).linear(),
            final(self).global() == old(self).global(),
            final(self).next_key() == old(self).next_key(),
            final(self).arena() =~= old(self).arena().insert(
                parent as int,
                spec_add_child(old(self).arena()[parent as int], key as int),
            ),
    {
        let ghost m0 = node_map(self.objects);
        let node = node_slab_get_mut(&mut self.objects, parent);
        node.add_object(key);
        proof {
            lemma_map_values_insert(m0, parent as int, *node);
            assert(node_slab_linear(self.objects));
        }
    }

    /// Retrieve the global block's key.
    pub fn get_global(&self) -> (r: ParserObjectKey)
        ensures
            r as int == self.global(),
    {
        self.global_block
    }

    /// Retrieve a node given its `key`.
    pub fn get_object(&self, key: ParserObjectKey) -> (r: Option<&ParserObject>)
        ensures
            match r {
                Some(v) => self.arena().dom().contains(key as int) && v@ == self.arena().index(
                    key as int,
                ),
                None => !self.arena().dom().contains(key as int),
            },
    {
        let r = node_slab_get(&self.objects, key);
        proof {
            assert(self.arena().dom() =~= node_map(self.objects).dom());
        }
        r
    }

    /// Wrap the parser into an [`Arc`], to share it with spawned tasks.
    pub fn wrap(self) -> (r: Arc<Self>)
        ensures
            *r == self,
    {
        Arc::new(self)
    }

    /// Create a parser holding the global block, and parse `code` into it.
    /// A syntax error leaves the nodes read up to that point in the arena.
    pub fn new(code: &str) -> (p: Parser)
        ensures
            p.wf(),
            p.global() == 0,
            ({
                let fin = spec_parse(
                    init_parse_state(initial_arena(), 1, 0),
                    code.spec_bytes(),
                    0,
                );
                p.arena() == fin.nodes && p.next_key() == fin.next_key
            }),
    {
        let mut objects = node_slab_new();
        let ghost m0 = node_map(objects);
        proof {
            assert(node_slab_linear(objects));
        }
        let root = ParserObject::Block { objects: Vec::new() };
        let ghost root_node = root;
        let global_block = node_slab_insert(&mut objects, root);
        let mut p = Parser { objects, global_block };
        proof {
            lemma_map_values_insert(m0, global_block as int, root_node);
            assert(root_node@ =~= empty_block());
            assert(m0.map_values(|o: ParserObject| o@) =~= Map::<int, AstNode>::empty());
            assert(p.arena() =~= initial_arena());
            assert(node_slab_linear(p.objects));
            assert(p.global() == 0);
            assert(p.next_key() == 1);
            assert(p.wf());
        }
        let _ignored = p.parse(code);
        p
    }

    /// Parse `code`, appending its nodes under the global block. May be
    /// called repeatedly: an earlier call's bindings and keys stay valid.
    /// Fails with a syntax error when `=` stands outside a variable
    /// definition or a closing token has no open block left; the nodes read
    /// before the error stay in the arena.
    pub fn parse(&mut self, code: &str) -> (r: Result<(), LenarError>)
        requires
            old(self).wf(),
        ensures
            final(self).wf(),
            final(self).global() == old(self).global(),
            ({
                let fin = spec_parse(
                    init_parse_state(
                        old(self).arena(),
                        old(self).next_key(),
                        old(self).global(),
                    ),
                    code.spec_bytes(),
                    0,
                );
                &&& final(self).arena() == fin.nodes
                &&& final(self).next_key() == fin.next_key
                &&& (r is Ok <==> !fin.failed)
            }),
            r matches Err(e) ==> e is SyntaxError,
    {
        let bytes: &[u8] = code.as_bytes();
        let ghost s = code.spec_bytes();
        let ghost init = init_parse_state(
            old(self).arena(),
            old(self).next_key(),
            old(self).global(),
        );
        let n = bytes.len();
        let mut stack: Vec<(ParserObjectKey, BlockType)> = Vec::new();
        stack.push((self.global_block, BlockType::Generic));
        let mut in_str: bool = false;
        let mut str_start: usize = 0;
        let mut last_def: bool = false;
        let mut i: usize = 0;
        proof {
            assert(stack@.map_values(|p: (ParserObjectKey, BlockType)| (p.0 as int, p.1))
                =~= seq![(old(self).global(), BlockType::Generic)]);
        }
        while i < n
            invariant
                self.linear(),
                self.global() == old(self).global(),
                old(self).wf(),
                i <= n,
                n == s.len(),
                bytes@ == s,
                forall|j: int|
                    0 <= j < stack@.len() ==> (#[trigger] stack@[j].0 as int)
                        < self.next_key(),
                in_str ==> str_start <= i,
                old(self).next_key() <= self.next_key(),
                s == code.spec_bytes(),
                init == init_parse_state(
                    old(self).arena(),
                    old(self).next_key(),
                    old(self).global(),
                ),
                spec_parse(
                    cur_of(self, stack@, in_str, str_start, last_def),
                    s,
                    i as int,
                ) == spec_parse(init, s, 0),
            decreases n - i,
        {
            let ghost pre = cur_of(self, stack@, in_str, str_start, last_def);
            let ghost i0 = i as int;
            let c = *vstd::slice::slice_index_get(bytes, i);
            if !in_str && (c == 32 || c == 10) {
                // whitespace between tokens
                i += 1;
                proof {
                    assert(spec_step(pre, s, i0) == (pre, i0 + 1));
                    step_ok(pre, s, i0, i as int, self, stack@, in_str, str_start, last_def);
                }
            } else if stack.len() == 0 {
                // a stray closing token already popped the global block
                proof {
                    assert(spec_step(pre, s, i0).0 == pre.fail());
                    assert(spec_step(pre, s, i0).1 == i0 + 1);
                    assert(spec_parse(pre.fail(), s, step_resume(s, i0, i0 + 1)) == pre.fail());
                    assert(spec_parse(pre, s, i0) == pre.fail());
                    assert(spec_parse(init, s, 0) == pre.fail());
                    assert(self.arena() == spec_parse(init, s, 0).nodes);
                    assert(self.next_key() == spec_parse(init, s, 0).next_key);
                    assert(spec_parse(init, s, 0).failed);
                    assert(self.wf());
                }
                return Err(
                    LenarError::SyntaxError(unbalanced_message()),
                );
            } else if in_str {
                if c == 34 {
                    // closing quote
                    let content = vstd::slice::slice_to_vec(
                        vstd::slice::slice_subrange(bytes, str_start, i),
                    );
                    let top = stack[stack.len() - 1];
                    let key = self.insert_node(ParserObject::BytesVal { value: content });
                    self.attach_child(top.0, key);
                    in_str = false;
                    last_def = false;
                    i += 1;
                    proof {
                        assert(spec_step(pre, s, i0).0 =~~= cur_of(self, stack@, in_str, str_start, last_def));
                        step_ok(pre, s, i0, i as int, self, stack@, in_str, str_start, last_def);
                    }
                } else {
                    // string content, structural bytes included
                    i += 1;
                    proof {
                        assert(spec_step(pre, s, i0) == (pre, i0 + 1));
                        step_ok(pre, s, i0, i as int, self, stack@, in_str, str_start, last_def);
                    }
                }
            } else if c == 41 {
                // ')'
                let _top = stack.pop();
                last_def = false;
                i += 1;
                proof {
                    assert(stack@.map_values(
                        |p: (ParserObjectKey, BlockType)| (p.0 as int, p.1),
                    ) =~= pre.stack.drop_last());
                    step_ok(pre, s, i0, i as int, self, stack@, in_str, str_start, last_def);
                }
            } else if c == 61 {
                // '='
                if last_def {
                    last_def = false;
                    i += 1;
                    proof {
                        assert(spec_step(pre, s, i0).0 =~~= cur_of(
                            self,
                            stack@,
                            in_str,
                            str_start,
                            last_def,
                        ));
                        step_ok(pre, s, i0, i as int, self, stack@, in_str, str_start, last_def);
                    }
                } else {
                    proof {
                        assert(spec_step(pre, s, i0).0 == pre.fail());
                        assert(spec_step(pre, s, i0).1 == i0 + 1);
                        assert(spec_parse(pre.fail(), s, step_resume(s, i0, i0 + 1))
                            == pre.fail());
                        assert(spec_parse(pre, s, i0) == pre.fail());
                        assert(spec_parse(init, s, 0) == pre.fail());
                        assert(self.arena() == spec_parse(init, s, 0).nodes);
                        assert(self.next_key() == spec_parse(init, s, 0).next_key);
                        assert(spec_parse(init, s, 0).failed);
                        assert(self.wf());
                    }
                    return Err(LenarError::SyntaxError(operator_message()));
                }
            } else if c == 59 {
                // ';'
                let top = stack[stack.len() - 1];
                if top.1 == BlockType::Value {
                    let _top = stack.pop();
                    proof {
                        assert(stack@.map_values(
                            |p: (ParserObjectKey, BlockType)| (p.0 as int, p.1),
                        ) =~= pre.stack.drop_last());
                    }
                }
                last_def = false;
                i += 1;
                proof {
                    assert(spec_step(pre, s, i0).0 =~~= cur_of(
                        self,
                        stack@,
                        in_str,
                        str_start,
                        last_def,
                    ));
                    step_ok(pre, s, i0, i as int, self, stack@, in_str, str_start, last_def);
                }
            } else if c == 34 {
                // opening quote
                in_str = true;
                str_start = i + 1;
                last_def = false;
                i += 1;
                proof {
                    assert(spec_step(pre, s, i0).0 =~~= cur_of(
                        self,
                        stack@,
                        in_str,
                        str_start,
                        last_def,
                    ));
                    step_ok(pre, s, i0, i as int, self, stack@, in_str, str_start, last_def);
                }
            } else if c == 123 {
                // '{'
                let top = stack[stack.len() - 1];
                let key = self.insert_node(ParserObject::Block { objects: Vec::new() });
                self.attach_child(top.0, key);
                stack.push((key, BlockType::Generic));
                last_def = false;
                i += 1;
                proof {
                    assert(stack@.map_values(
                        |p: (ParserObjectKey, BlockType)| (p.0 as int, p.1),
                    ) =~= pre.stack.push((key as int, BlockType::Generic)));
                    assert(spec_step(pre, s, i0).0 =~~= cur_of(self, stack@, in_str, str_start, last_def));
                    step_ok(pre, s, i0, i as int, self, stack@, in_str, str_start, last_def);
                }
            } else if c == 125 {
                // '}'
                let _top = stack.pop();
                proof {
                    assert(stack@.map_values(
                        |p: (ParserObjectKey, BlockType)| (p.0 as int, p.1),
                    ) =~= pre.stack.drop_last());
                }
                if stack.len() > 0 {
                    let under = stack[stack.len() - 1];
                    if under.1 == BlockType::FuncValue {
                        let _under = stack.pop();
                        proof {
                            assert(stack@.map_values(
                                |p: (ParserObjectKey, BlockType)| (p.0 as int, p.1),
                            ) =~= pre.stack.drop_last().drop_last());
                        }
                    }
                }
                last_def = false;
                i += 1;
                proof {
                    assert(spec_step(pre, s, i0).0 =~~= cur_of(
                        self,
                        stack@,
                        in_str,
                        str_start,
                        last_def,
                    ));
                    step_ok(pre, s, i0, i as int, self, stack@, in_str, str_start, last_def);
                }
            } else if c == 91 {
                // '['
                i += 1;
                proof {
                    assert(spec_step(pre, s, i0).0 =~~= cur_of(
                        self,
                        stack@,
                        in_str,
                        str_start,
                        last_def,
                    ));
                    step_ok(pre, s, i0, i as int, self, stack@, in_str, str_start, last_def);
                }
            } else if c == 93 {
                // ']'
                let _top = stack.pop();
                last_def = false;
                i += 1;
                proof {
                    assert(stack@.map_values(
                        |p: (ParserObjectKey, BlockType)| (p.0 as int, p.1),
                    ) =~= pre.stack.drop_last());
                    step_ok(pre, s, i0, i as int, self, stack@, in_str, str_start, last_def);
                }
            } else if starts_with_let(bytes, i) {
                // `let NAME`
                let nstart = if n >= 4 && i <= n - 4 {
                    i + 4
                } else {
                    n
                };
                let (name, nend) = slice_until(32, bytes, nstart);
                proof {
                    lemma_scan_until(s, nstart as int, 32);
                }
                let top = stack[stack.len() - 1];
                let k_value = self.insert_node(ParserObject::Block { objects: Vec::new() });
                let k_def = self.insert_node(ParserObject::VarDef {
                    block_value: k_value,
                    var_name: name,
                });
                self.attach_child(top.0, k_def);
                stack.push((k_value, BlockType::Value));
                last_def = true;
                i = if nend == n {
                    n
                } else {
                    nend + 1
                };
                proof {
                    assert(stack@.map_values(
                        |p: (ParserObjectKey, BlockType)| (p.0 as int, p.1),
                    ) =~= pre.stack.push((k_value as int, BlockType::Value)));
                    assert(spec_step(pre, s, i0).0 =~~= cur_of(self, stack@, in_str, str_start, last_def));
                    step_ok(pre, s, i0, i as int, self, stack@, in_str, str_start, last_def);
                }
            } else if count_unexpected_between(i, 40, bytes) == 0 {
                // a call: NAME(
                let (_rest, nend) = slice_until(40, bytes, i + 1);
                proof {
                    lemma_scan_until(s, i0 + 1, 40);
                }
                let name = vstd::slice::slice_to_vec(
                    vstd::slice::slice_subrange(bytes, i, nend),
                );
                let top = stack[stack.len() - 1];
                if is_pair(&name, 105, 102) {
                    // `if`
                    let k_cond = self.insert_node(ParserObject::Block { objects: Vec::new() });
                    let k_body = self.insert_node(ParserObject::Block { objects: Vec::new() });
                    let k_if = self.insert_node(ParserObject::IfDef {
                        condition_block: k_cond,
                        block_value: k_body,
                    });
                    self.attach_child(top.0, k_if);
                    stack.push((k_body, BlockType::FuncValue));
                    stack.push((k_cond, BlockType::FuncCall));
                    last_def = false;
                    i = if nend == n {
                        n
                    } else {
                        nend + 1
                    };
                    proof {
                        assert(stack@.map_values(
                            |p: (ParserObjectKey, BlockType)| (p.0 as int, p.1),
                        ) =~= pre.stack.push((k_body as int, BlockType::FuncValue)).push(
                            (k_cond as int, BlockType::FuncCall),
                        ));
                        assert(spec_step(pre, s, i0).0 =~~= cur_of(self, stack@, in_str, str_start, last_def));
                        step_ok(pre, s, i0, i as int, self, stack@, in_str, str_start, last_def);
                    }
                } else if is_pair(&name, 102, 110) {
                    // `fn`
                    let k_args = self.insert_node(ParserObject::Block { objects: Vec::new() });
                    let k_body = self.insert_node(ParserObject::Block { objects: Vec::new() });
                    let k_cap = self.insert_node(ParserObject::Block { objects: Vec::new() });
                    let k_fn = self.insert_node(ParserObject::FnDef {
                        arguments_block: k_args,
                        block_value: k_body,
                        capture_value: k_cap,
                    });
                    self.attach_child(top.0, k_fn);
                    stack.push((k_body, BlockType::FuncValue));
                    stack.push((k_cap, BlockType::FuncCapture));
                    stack.push((k_args, BlockType::FuncCall));
                    last_def = false;
                    i = if nend == n {
                        n
                    } else {
                        nend + 1
                    };
                    proof {
                        assert(stack@.map_values(
                            |p: (ParserObjectKey, BlockType)| (p.0 as int, p.1),
                        ) =~= pre.stack.push((k_body as int, BlockType::FuncValue)).push(
                            (k_cap as int, BlockType::FuncCapture),
                        ).push((k_args as int, BlockType::FuncCall)));
                        assert(spec_step(pre, s, i0).0 =~~= cur_of(self, stack@, in_str, str_start, last_def));
                        step_ok(pre, s, i0, i as int, self, stack@, in_str, str_start, last_def);
                    }
                } else {
                    let k_args = self.insert_node(ParserObject::Block { objects: Vec::new() });
                    let k_call = self.insert_node(ParserObject::FunctionCall {
                        fn_name: name,
                        arguments: k_args,
                    });
                    self.attach_child(top.0, k_call);
                    stack.push((k_args, BlockType::FuncCall));
                    last_def = false;
                    i = if nend == n {
                        n
                    } else {
                        nend + 1
                    };
                    proof {
                        assert(stack@.map_values(
                            |p: (ParserObjectKey, BlockType)| (p.0 as int, p.1),
                        ) =~= pre.stack.push((k_args as int, BlockType::FuncCall)));
                        assert(spec_step(pre, s, i0).0 =~~= cur_of(self, stack@, in_str, str_start, last_def));
                        step_ok(pre, s, i0, i as int, self, stack@, in_str, str_start, last_def);
                    }
                }
            } else if count_unexpected_between(i, 46, bytes) == 0 {
                // a property path: NAME.PROP
                let (_rest, tend) = slice_until_delimeter(bytes, i + 1);
                proof {
                    lemma_scan_delim(s, i0 + 1);
                }
                let token = vstd::slice::slice_subrange(bytes, i, tend);
                let path = split_path(token);
                let top = stack[stack.len() - 1];
                let key = self.insert_node(ParserObject::PropertyRef { path });
                self.attach_child(top.0, key);
                last_def = false;
                i = tend;
                proof {
                    assert(spec_step(pre, s, i0).0 =~~= cur_of(self, stack@, in_str, str_start, last_def));
                    step_ok(pre, s, i0, i as int, self, stack@, in_str, str_start, last_def);
                }
            } else if 48 <= c && c <= 57 {
                // a numeric literal
                let (_rest, tend) = slice_until_delimeter(bytes, i + 1);
                proof {
                    lemma_scan_delim(s, i0 + 1);
                }
                let token = vstd::slice::slice_subrange(bytes, i, tend);
                match parse_usize_bytes(token) {
                    Some(value) => {
                        let top = stack[stack.len() - 1];
                        let key = self.insert_node(ParserObject::NumberVal { value });
                        self.attach_child(top.0, key);
                        last_def = false;
                        i = tend;
                        proof {
                            assert(spec_step(pre, s, i0).0 =~~= cur_of(
                                self,
                                stack@,
                                in_str,
                                str_start,
                                last_def,
                            ));
                            step_ok(
                                pre,
                                s,
                                i0,
                                i as int,
                                self,
                                stack@,
                                in_str,
                                str_start,
                                last_def,
                            );
                        }
                    },
                    None => {
                        // a malformed or overflowing number is dropped
                        i = tend;
                        proof {
                            assert(spec_step(pre, s, i0).0 == pre);
                            step_ok(
                                pre,
                                s,
                                i0,
                                i as int,
                                self,
                                stack@,
                                in_str,
                                str_start,
                                last_def,
                            );
                        }
                    },
                }
            } else {
                // a bare identifier reference
                let (_rest, tend) = slice_until_delimeter(bytes, i + 1);
                proof {
                    lemma_scan_delim(s, i0 + 1);
                }
                let token = vstd::slice::slice_to_vec(
                    vstd::slice::slice_subrange(bytes, i, tend),
                );
                let top = stack[stack.len() - 1];
                let key = self.insert_node(ParserObject::VarRef { var_name: token });
                self.attach_child(top.0, key);
                last_def = false;
                i = tend;
                proof {
                    assert(spec_step(pre, s, i0).0 =~~= cur_of(self, stack@, in_str, str_start, last_def));
                    step_ok(pre, s, i0, i as int, self, stack@, in_str, str_start, last_def);
                }
            }
        }
        proof {
            assert(spec_parse(cur_of(self, stack@, in_str, str_start, last_def), s, i as int)
                == cur_of(self, stack@, in_str, str_start, last_def));
        }
        Ok(())
    }
}

/// The keyword check at position `i`: `code` holds at least three more bytes
/// and they read `let`.
fn starts_with_let(code: &[u8], i: usize) -> (r: bool)
    requires
        i < code@.len(),
    ensures
        r == (i + 3 <= code@.len() && code@.subrange(i as int, i + 3) == let_bytes()),
{
    if code.len() >= 3 && i <= code.len() - 3 {
        let r = *vstd::slice::slice_index_get(code, i) == 108 && *vstd::slice::slice_index_get(
            code,
            i + 1,
        ) == 101 && *vstd::slice::slice_index_get(code, i + 2) == 116;
        proof {
            let sub = code@.subrange(i as int, i + 3);
            assert(sub[0] == code@[i as int]);
            assert(sub[1] == code@[i as int + 1]);
            assert(sub[2] == code@[i as int + 2]);
            if r {
                assert(sub =~= let_bytes());
            }
        }
        r
    } else {
        false
    }
}

/// Whether `v` holds exactly the two bytes `a`, `b`.
fn is_pair(v: &Vec<u8>, a: u8, b: u8) -> (r: bool)
    ensures
        r == (v@ == seq![a, b]),
{
    if v.len() == 2 {
        let r = v[0] == a && v[1] == b;
        proof {
            if r {
                assert(v@ =~= seq![a, b]);
            } else {
                assert(seq![a, b][0] == a && seq![a, b][1] == b);
            }
        }
        r
    } else {
        proof {
            assert(seq![a, b].len() == 2);
        }
        false
    }
}

/// The message of the error raised when a closing token has no open block.
fn unbalanced_message() -> String {
    "Syntax error: unbalanced closing token.".to_owned()
}

/// The message of the error raised by a misplaced `=`.
fn operator_message() -> String {
    "Syntax error: Operator '=' is used to define initial values to variables.".to_owned()
}

/// One accepted scanner step keeps the run's outcome: from the state before
/// the step, running to the end gives the same result as from the state
/// after it.
proof fn step_ok(
    pre: ParseState,
    s: Seq<u8>,
    i: int,
    ni: int,
    after: &Parser,
    stack: Seq<(ParserObjectKey, BlockType)>,
    in_str: bool,
    str_start: usize,
    last_def: bool,
)
    requires
        !pre.failed,
        0 <= i < s.len(),
        spec_step(pre, s, i).0 == cur_of(after, stack, in_str, str_start, last_def),
        ni == step_resume(s, i, spec_step(pre, s, i).1),
    ensures
        spec_parse(cur_of(after, stack, in_str, str_start, last_def), s, ni) == spec_parse(
            pre,
            s,
            i,
        ),
{
}

} // verus!
