use vstd::prelude::*;

verus! {

/// Key of an AST node inside the arena.
pub type ParserObjectKey = usize;

/// Mathematical model of one AST node: the same shape as [`ParserObject`],
/// with keys as `int`, names as byte sequences and children as `Seq`.
#[verifier::ext_equal]
pub enum AstNode {
    Block { objects: Seq<int> },
    VarDef { block_value: int, var_name: Seq<u8> },
    FnDef { arguments_block: int, block_value: int, capture_value: int },
    IfDef { condition_block: int, block_value: int },
    NumberVal { value: int },
    StringVal { value: Seq<char> },
    BytesVal { value: Seq<u8> },
    FunctionCall { fn_name: Seq<u8>, arguments: int },
    VarRef { var_name: Seq<u8> },
    PropertyRef { path: Seq<Seq<u8>> },
}

/// One node of the abstract syntax tree. Nodes live in the arena and refer to
/// each other through [`ParserObjectKey`]s, never through references. Names
/// are byte strings: the source text is scanned byte by byte.
#[derive(Debug)]
pub enum ParserObject {
    Block { objects: Vec<ParserObjectKey> },
    VarDef { block_value: ParserObjectKey, var_name: Vec<u8> },
    FnDef {
        arguments_block: ParserObjectKey,
        block_value: ParserObjectKey,
        capture_value: ParserObjectKey,
    },
    IfDef { condition_block: ParserObjectKey, block_value: ParserObjectKey },
    NumberVal { value: usize },
    StringVal { value: String },
    BytesVal { value: Vec<u8> },
    FunctionCall { fn_name: Vec<u8>, arguments: ParserObjectKey },
    VarRef { var_name: Vec<u8> },
    PropertyRef { path: Vec<Vec<u8>> },
}

impl View for ParserObject {
    type V = AstNode;

    open spec fn view(&self) -> AstNode {
        match self {
            ParserObject::Block { objects } => AstNode::Block {
                objects: objects@.map_values(|k: ParserObjectKey| k as int),
            },
            ParserObject::VarDef { block_value, var_name } => AstNode::VarDef {
                block_value: *block_value as int,
                var_name: var_name@,
            },
            ParserObject::FnDef { arguments_block, block_value, capture_value } => AstNode::FnDef {
                arguments_block: *arguments_block as int,
                block_value: *block_value as int,
                capture_value: *capture_value as int,
            },
            ParserObject::IfDef { condition_block, block_value } => AstNode::IfDef {
                condition_block: *condition_block as int,
                block_value: *block_value as int,
            },
            ParserObject::NumberVal { value } => AstNode::NumberVal { value: *value as int },
            ParserObject::StringVal { value } => AstNode::StringVal { value: value@ },
            ParserObject::BytesVal { value } => AstNode::BytesVal { value: value@ },
            ParserObject::FunctionCall { fn_name, arguments } => AstNode::FunctionCall {
                fn_name: fn_name@,
                arguments: *arguments as int,
            },
            ParserObject::VarRef { var_name } => AstNode::VarRef { var_name: var_name@ },
            ParserObject::PropertyRef { path } => AstNode::PropertyRef {
                path: path@.map_values(|p: Vec<u8>| p@),
            },
        }
    }
}

/// What [`ParserObject::add_object`] does to a node: a `Block` gains one more
/// child key at the end; every other node is left unchanged.
pub open spec fn spec_add_child(node: AstNode, key: int) -> AstNode {
    match node {
        AstNode::Block { objects } => AstNode::Block { objects: objects.push(key) },
        other => other,
    }
}

impl ParserObject {
    /// Append a child key to a `Block` node; any other node is left as it is.
    pub fn add_object(&mut self, object: ParserObjectKey)
        ensures
            final(self)@ == spec_add_child(old(self)@, object as int),
    {
        match self {
            ParserObject::Block { objects } => {
                objects.push(object);
            },
            _ => {},
        }
        proof {
            assert(self@ =~= spec_add_child(old(self)@, object as int));
        }
    }
}

} // verus!
