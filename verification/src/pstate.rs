use vstd::prelude::*;
use crate::ast::{spec_add_child, AstNode};
use crate::scan::{
    clear_to, is_digit_byte, is_skip_byte, scan_delim, scan_until, spec_parse_usize,
    split_on_dot_from,
};

verus! {

/// What kind of nesting level each open block is. The kind decides which
/// closing token pops it: `;` closes a variable's value block, `)` closes an
/// argument list, `}` closes a generic block and additionally pops a pending
/// function-value wrapper.
#[derive(Clone, Copy, PartialEq, Eq, Structural)]
pub enum BlockType {
    Generic,
    FuncCall,
    Value,
    FuncValue,
    FuncCapture,
}

/// The parser's abstract state between two scanning steps: the arena so far,
/// the key the next node will get, the stack of open blocks, the string-mode
/// flag with the literal's start position, whether the token just read was a
/// variable definition (which is what licenses a following `=`), and whether
/// a syntax error has been hit.
#[verifier::ext_equal]
pub struct ParseState {
    pub nodes: Map<int, AstNode>,
    pub next_key: int,
    pub stack: Seq<(int, BlockType)>,
    pub in_str: bool,
    pub str_start: int,
    pub last_def: bool,
    pub failed: bool,
}

impl ParseState {
    pub open spec fn fail(self) -> ParseState {
        ParseState { failed: true, ..self }
    }
}

/// Insert a fresh node under `key` and record that key as a child of
/// `parent`.
pub open spec fn add_node(nodes: Map<int, AstNode>, key: int, node: AstNode, parent: int) -> Map<
    int,
    AstNode,
> {
    let with = nodes.insert(key, node);
    with.insert(parent, spec_add_child(with[parent], key))
}

/// The bytes of the keyword `let`.
pub open spec fn let_bytes() -> Seq<u8> {
    seq![108u8, 101u8, 116u8]
}

/// The bytes of the call name `if`.
pub open spec fn if_bytes() -> Seq<u8> {
    seq![105u8, 102u8]
}

/// The bytes of the call name `fn`.
pub open spec fn fn_bytes() -> Seq<u8> {
    seq![102u8, 110u8]
}

/// An empty block node.
pub open spec fn empty_block() -> AstNode {
    AstNode::Block { objects: Seq::empty() }
}

/// One step of the scanner at position `i`: the state after handling the
/// byte there and the position to resume from.
pub open spec fn spec_step(st: ParseState, s: Seq<u8>, i: int) -> (ParseState, int)
    recommends
        0 <= i < s.len(),
        !st.failed,
{
    let c = s[i];
    if !st.in_str && is_skip_byte(c) {
        // spaces and line breaks are insignificant outside strings
        (st, i + 1)
    } else if st.stack.len() == 0 {
        // a closing token already popped the global block: nothing can follow
        (st.fail(), i + 1)
    } else if st.in_str {
        if c == 34 {
            // closing quote: the bytes between the quotes become a literal
            // node in the current block
            let key = st.next_key;
            let parent = st.stack.last().0;
            (
                ParseState {
                    nodes: add_node(
                        st.nodes,
                        key,
                        AstNode::BytesVal { value: s.subrange(st.str_start, i) },
                        parent,
                    ),
                    next_key: st.next_key + 1,
                    in_str: false,
                    last_def: false,
                    ..st
                },
                i + 1,
            )
        } else {
            // string contents, reserved punctuation included, are literal
            (st, i + 1)
        }
    } else if c == 41 {
        // ')' closes the innermost open block (an argument list)
        (ParseState { stack: st.stack.drop_last(), last_def: false, ..st }, i + 1)
    } else if c == 61 {
        // '=' is only accepted right after `let NAME`
        if st.last_def {
            (ParseState { last_def: false, ..st }, i + 1)
        } else {
            (st.fail(), i + 1)
        }
    } else if c == 59 {
        // ';' ends a statement and closes a variable's value block
        let popped = if st.stack.last().1 == BlockType::Value {
            st.stack.drop_last()
        } else {
            st.stack
        };
        (ParseState { stack: popped, last_def: false, ..st }, i + 1)
    } else if c == 34 {
        // opening quote
        (ParseState { in_str: true, str_start: i + 1, last_def: false, ..st }, i + 1)
    } else if c == 123 {
        // '{' opens a generic block
        let key = st.next_key;
        let parent = st.stack.last().0;
        (
            ParseState {
                nodes: add_node(st.nodes, key, empty_block(), parent),
                next_key: st.next_key + 1,
                stack: st.stack.push((key, BlockType::Generic)),
                last_def: false,
                ..st
            },
            i + 1,
        )
    } else if c == 125 {
        // '}' closes a generic block, and also the pending function-value
        // wrapper under it if there is one
        let popped = st.stack.drop_last();
        let popped2 = if popped.len() > 0 && popped.last().1 == BlockType::FuncValue {
            popped.drop_last()
        } else {
            popped
        };
        (ParseState { stack: popped2, last_def: false, ..st }, i + 1)
    } else if c == 91 {
        // '[' opens a capture list; nothing to record
        (st, i + 1)
    } else if c == 93 {
        // ']' closes a capture list
        (ParseState { stack: st.stack.drop_last(), last_def: false, ..st }, i + 1)
    } else if i + 3 <= s.len() && s.subrange(i, i + 3) == let_bytes() {
        // `let NAME` opens the variable's value block; the name runs to the
        // next space, which is consumed
        let nstart = if i + 4 <= s.len() {
            i + 4
        } else {
            s.len() as int
        };
        let nend = scan_until(s, nstart, 32);
        let name = s.subrange(nstart, nend);
        let k_value = st.next_key;
        let k_def = st.next_key + 1;
        let parent = st.stack.last().0;
        (
            ParseState {
                nodes: add_node(
                    st.nodes.insert(k_value, empty_block()),
                    k_def,
                    AstNode::VarDef { block_value: k_value, var_name: name },
                    parent,
                ),
                next_key: st.next_key + 2,
                stack: st.stack.push((k_value, BlockType::Value)),
                last_def: true,
                ..st
            },
            nend + 1,
        )
    } else if clear_to(s, i, 40) {
        // an identifier directly followed by '(' is a call; `if` and `fn`
        // get their own node shapes
        let nend = scan_until(s, i + 1, 40);
        let name = s.subrange(i, nend);
        let parent = st.stack.last().0;
        if name == if_bytes() {
            let k_cond = st.next_key;
            let k_body = st.next_key + 1;
            let k_if = st.next_key + 2;
            (
                ParseState {
                    nodes: add_node(
                        st.nodes.insert(k_cond, empty_block()).insert(k_body, empty_block()),
                        k_if,
                        AstNode::IfDef { condition_block: k_cond, block_value: k_body },
                        parent,
                    ),
                    next_key: st.next_key + 3,
                    stack: st.stack.push((k_body, BlockType::FuncValue)).push(
                        (k_cond, BlockType::FuncCall),
                    ),
                    last_def: false,
                    ..st
                },
                nend + 1,
            )
        } else if name == fn_bytes() {
            let k_args = st.next_key;
            let k_body = st.next_key + 1;
            let k_cap = st.next_key + 2;
            let k_fn = st.next_key + 3;
            (
                ParseState {
                    nodes: add_node(
                        st.nodes.insert(k_args, empty_block()).insert(k_body, empty_block()).insert(
                            k_cap,
                            empty_block(),
                        ),
                        k_fn,
                        AstNode::FnDef {
                            arguments_block: k_args,
                            block_value: k_body,
                            capture_value: k_cap,
                        },
                        parent,
                    ),
                    next_key: st.next_key + 4,
                    stack: st.stack.push((k_body, BlockType::FuncValue)).push(
                        (k_cap, BlockType::FuncCapture),
                    ).push((k_args, BlockType::FuncCall)),
                    last_def: false,
                    ..st
                },
                nend + 1,
            )
        } else {
            let k_args = st.next_key;
            let k_call = st.next_key + 1;
            (
                ParseState {
                    nodes: add_node(
                        st.nodes.insert(k_args, empty_block()),
                        k_call,
                        AstNode::FunctionCall { fn_name: name, arguments: k_args },
                        parent,
                    ),
                    next_key: st.next_key + 2,
                    stack: st.stack.push((k_args, BlockType::FuncCall)),
                    last_def: false,
                    ..st
                },
                nend + 1,
            )
        }
    } else if clear_to(s, i, 46) {
        // an identifier with a '.' ahead of the next delimiter is a
        // property path
        let tend = scan_delim(s, i + 1);
        let token = s.subrange(i, tend);
        let key = st.next_key;
        let parent = st.stack.last().0;
        (
            ParseState {
                nodes: add_node(
                    st.nodes,
                    key,
                    AstNode::PropertyRef { path: split_on_dot_from(token, 0) },
                    parent,
                ),
                next_key: st.next_key + 1,
                last_def: false,
                ..st
            },
            tend,
        )
    } else if is_digit_byte(c) {
        // a leading digit starts a numeric literal; a malformed or
        // overflowing token is consumed and dropped
        let tend = scan_delim(s, i + 1);
        let token = s.subrange(i, tend);
        match spec_parse_usize(token) {
            Some(v) => {
                let key = st.next_key;
                let parent = st.stack.last().0;
                (
                    ParseState {
                        nodes: add_node(
                            st.nodes,
                            key,
                            AstNode::NumberVal { value: v as int },
                            parent,
                        ),
                        next_key: st.next_key + 1,
                        last_def: false,
                        ..st
                    },
                    tend,
                )
            },
            None => (st, tend),
        }
    } else {
        // anything else is a bare identifier reference
        let tend = scan_delim(s, i + 1);
        let token = s.subrange(i, tend);
        let key = st.next_key;
        let parent = st.stack.last().0;
        (
            ParseState {
                nodes: add_node(st.nodes, key, AstNode::VarRef { var_name: token }, parent),
                next_key: st.next_key + 1,
                last_def: false,
                ..st
            },
            tend,
        )
    }
}

/// Run the scanner from position `i` to the end of the input, or to the
/// first syntax error.
pub open spec fn spec_parse(st: ParseState, s: Seq<u8>, i: int) -> ParseState
    decreases s.len() - i,
{
    if st.failed || i < 0 || i >= s.len() {
        st
    } else {
        let r = spec_step(st, s, i);
        spec_parse(r.0, s, step_resume(s, i, r.1))
    }
}

/// A not-failed state assembled from its parts.
pub open spec fn mk_state(
    nodes: Map<int, AstNode>,
    next_key: int,
    stack: Seq<(int, BlockType)>,
    in_str: bool,
    str_start: int,
    last_def: bool,
) -> ParseState {
    ParseState { nodes, next_key, stack, in_str, str_start, last_def, failed: false }
}

/// The view of the scanner's exec stack: keys widened to `int`.
pub open spec fn map_stack(stack: Seq<(usize, BlockType)>) -> Seq<(int, BlockType)> {
    stack.map_values(|p: (usize, BlockType)| (p.0 as int, p.1))
}

/// Where the scanner resumes after a step: the step's own position, clamped
/// forward past `i` and back to the end of the input.
pub open spec fn step_resume(s: Seq<u8>, i: int, t: int) -> int {
    if t <= i {
        i + 1
    } else if t > s.len() {
        s.len() as int
    } else {
        t
    }
}

/// The state a `parse` call starts from: the arena as it stands, the stack
/// holding only the global block, string mode off.
pub open spec fn init_parse_state(nodes: Map<int, AstNode>, next_key: int, global: int) -> ParseState {
    ParseState {
        nodes,
        next_key,
        stack: seq![(global, BlockType::Generic)],
        in_str: false,
        str_start: 0,
        last_def: false,
        failed: false,
    }
}

} // verus!
