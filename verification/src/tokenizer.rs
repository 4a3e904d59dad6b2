use vstd::prelude::*;
use vstd::string::StringSliceAdditionalSpecFns;

verus! {

/// Key of a token inside the tokenizer's arena.
pub type TokenKey = usize;

/// The model of a token: the same shape as [`Token`], with keys as `int`
/// and text as bytes.
#[verifier::ext_equal]
pub enum TokenModel {
    Block { tokens: Seq<int> },
    VarDef { block_value: int },
    StringVal { value: Seq<u8> },
}

/// One token of the simpler, statement-level tokenizer: a block, a variable
/// definition pointing at its value block, or a string literal.
#[derive(Debug)]
pub enum Token {
    Block { tokens: Vec<TokenKey> },
    VarDef { block_value: TokenKey },
    StringVal { value: Vec<u8> },
}

impl View for Token {
    type V = TokenModel;

    open spec fn view(&self) -> TokenModel {
        match self {
            Token::Block { tokens } => TokenModel::Block {
                tokens: tokens@.map_values(|k: TokenKey| k as int),
            },
            Token::VarDef { block_value } => TokenModel::VarDef {
                block_value: *block_value as int,
            },
            Token::StringVal { value } => TokenModel::StringVal { value: value@ },
        }
    }
}

/// What [`Token::add_token`] does to a token: a `Block` gains one more child
/// key at the end; every other token is left unchanged.
pub open spec fn spec_add_token(t: TokenModel, key: int) -> TokenModel {
    match t {
        TokenModel::Block { tokens } => TokenModel::Block { tokens: tokens.push(key) },
        other => other,
    }
}

impl Token {
    /// Append a child key to a `Block` token; any other token is left as it
    /// is.
    pub fn add_token(&mut self, token: TokenKey)
        ensures
            final(self)@ == spec_add_token(old(self)@, token as int),
    {
        match self {
            Token::Block { tokens } => {
                tokens.push(token);
            },
            _ => {},
        }
        proof {
            assert(self@ =~= spec_add_token(old(self)@, token as int));
        }
    }
}

// The token arena is a `slab::Slab`, like the parser's: insert-only, so
// every slab built here keeps its occupied keys at `0 .. slots`.
/// The contents of a token slab: occupied keys mapped to their tokens.
pub uninterp spec fn token_map(s: slab::Slab<Token>) -> Map<int, Token>;

/// The length of the slab's backing vector (occupied and vacant slots).
pub uninterp spec fn token_slots(s: slab::Slab<Token>) -> int;

/// A slab in which the occupied keys are exactly `0 .. token_slots`.
pub open spec fn token_slab_linear(s: slab::Slab<Token>) -> bool {
    forall|i: int| token_map(s).dom().contains(i) <==> 0 <= i < token_slots(s)
}

/// Relies on `slab::Slab::new`: the new slab holds nothing and its backing
/// vector is empty.
#[verifier::external_body]
fn token_slab_new() -> (s: slab::Slab<Token>)
    ensures
        token_map(s) =~= Map::empty(),
        token_slots(s) == 0,
{
    slab::Slab::new()
}

/// Relies on `slab::Slab::insert`: the value is stored under a key that was
/// vacant; on a slab with no vacant slot below `token_slots` the key is
/// `token_slots` itself and the backing vector grows by one.
#[verifier::external_body]
fn token_slab_insert(s: &mut slab::Slab<Token>, v: Token) -> (key: usize)
    ensures
        token_map(*final(s)) =~= token_map(*old(s)).insert(key as int, v),
        !token_map(*old(s)).dom().contains(key as int),
        token_slab_linear(*old(s)) ==> key as int == token_slots(*old(s)) && token_slots(
            *final(s),
        ) == token_slots(*old(s)) + 1,
{
    s.insert(v)
}

/// Relies on `slab::Slab::get`: returns the entry under `key` when that key
/// is occupied, and `None` otherwise.
#[verifier::external_body]
fn token_slab_get(s: &slab::Slab<Token>, key: usize) -> (r: Option<&Token>)
    ensures
        match r {
            Some(v) => token_map(*s).dom().contains(key as int) && *v == token_map(*s)[key as int],
            None => !token_map(*s).dom().contains(key as int),
        },
{
    s.get(key)
}

/// Relies on `slab::Slab::get_mut`: hands out the entry under an occupied
/// `key`; writing through it replaces that entry and nothing else.
#[verifier::external_body]
fn token_slab_get_mut(s: &mut slab::Slab<Token>, key: usize) -> (r: &mut Token)
    requires
        token_map(*old(s)).dom().contains(key as int),
    ensures
        *r == token_map(*old(s))[key as int],
        token_map(*final(s)) =~= token_map(*old(s)).insert(key as int, *final(r)),
        token_slots(*final(s)) == token_slots(*old(s)),
{
    s.get_mut(key).unwrap()
}

/// Insert a token, without recording it anywhere: it gets the next key.
fn insert_tok(s: &mut slab::Slab<Token>, t: Token) -> (key: TokenKey)
    requires
        token_slab_linear(*old(s)),
    ensures
        token_slab_linear(*final(s)),
        key as int == token_slots(*old(s)),
        token_slots(*final(s)) == token_slots(*old(s)) + 1,
        token_map(*final(s)).map_values(|t2: Token| t2@) =~= token_map(*old(s)).map_values(
            |t2: Token| t2@,
        ).insert(key as int, t@),
{
    let ghost m0 = token_map(*s);
    let key = token_slab_insert(s, t);
    proof {
        lemma_token_map_values_insert(m0, key as int, t);
        assert(token_slab_linear(*s));
    }
    key
}

/// Record `key` as a child of the block under `parent`.
fn attach_tok(s: &mut slab::Slab<Token>, parent: TokenKey, key: TokenKey)
    requires
        token_slab_linear(*old(s)),
        (parent as int) < token_slots(*old(s)),
    ensures
        token_slab_linear(*final(s)),
        token_slots(*final(s)) == token_slots(*old(s)),
        token_map(*final(s)).map_values(|t2: Token| t2@) =~= token_map(*old(s)).map_values(
            |t2: Token| t2@,
        ).insert(
            parent as int,
            spec_add_token(
                token_map(*old(s)).map_values(|t2: Token| t2@)[parent as int],
                key as int,
            ),
        ),
{
    let ghost m0 = token_map(*s);
    let node = token_slab_get_mut(s, parent);
    node.add_token(key);
    proof {
        lemma_token_map_values_insert(m0, parent as int, *node);
        assert(token_slab_linear(*s));
    }
}

/// The end of the run of `=` bytes starting at `start`.
fn eq_run_end(code: &[u8], start: usize) -> (r: usize)
    requires
        start <= code@.len(),
    ensures
        r as int == scan_eq_run(code@, start as int),
        start <= r <= code@.len(),
{
    let mut j: usize = start;
    while j < code.len() && *vstd::slice::slice_index_get(code, j) == 61
        invariant
            start <= j <= code@.len(),
            scan_eq_run(code@, start as int) == scan_eq_run(code@, j as int),
        decreases code@.len() - j,
    {
        j += 1;
    }
    j
}

/// The tokenizer's abstract state between two steps: the tokens so far, the
/// key the next token gets, the stack of open blocks, and the string flag.
#[verifier::ext_equal]
pub struct TokState {
    pub tokens: Map<int, TokenModel>,
    pub next_key: int,
    pub stack: Seq<int>,
    pub in_str: bool,
}

/// Insert a fresh token under `key` and record it as a child of `parent`.
pub open spec fn add_tok(tokens: Map<int, TokenModel>, key: int, t: TokenModel, parent: int) -> Map<
    int,
    TokenModel,
> {
    let with = tokens.insert(key, t);
    with.insert(parent, spec_add_token(with[parent], key))
}

/// The bytes of the keyword `var`.
pub open spec fn var_bytes() -> Seq<u8> {
    seq![118u8, 97u8, 114u8]
}

/// One step of the tokenizer at position `i`. The byte there is handled and
/// the position to resume from returned. A step on an empty stack changes
/// nothing and moves on: the scan goes no further once a stray `;` has
/// closed the outermost block.
pub open spec fn tok_step(st: TokState, s: Seq<u8>, i: int) -> (TokState, int) {
    let c = s[i];
    if c == 59 {
        // ';' closes the innermost open block outside strings
        if !st.in_str {
            (TokState { stack: st.stack.drop_last(), ..st }, i + 1)
        } else {
            (st, i + 1)
        }
    } else if c == 34 {
        if st.in_str {
            // closing quote: the bytes from position 1 through the quote
            // itself become a string token in the current block
            let key = st.next_key;
            let parent = st.stack.last();
            (
                TokState {
                    tokens: add_tok(
                        st.tokens,
                        key,
                        TokenModel::StringVal { value: s.subrange(1, i + 1) },
                        parent,
                    ),
                    next_key: st.next_key + 1,
                    in_str: false,
                    ..st
                },
                i + 1,
            )
        } else {
            (TokState { in_str: true, ..st }, i + 1)
        }
    } else if c == 123 && !st.in_str {
        // '{' opens a block
        let key = st.next_key;
        let parent = st.stack.last();
        (
            TokState {
                tokens: add_tok(st.tokens, key, TokenModel::Block { tokens: Seq::empty() }, parent),
                next_key: st.next_key + 1,
                stack: st.stack.push(key),
                ..st
            },
            i + 1,
        )
    } else if c == 125 && !st.in_str {
        // '}' closes a block
        (TokState { stack: st.stack.drop_last(), ..st }, i + 1)
    } else if i + 3 <= s.len() && s.subrange(i, i + 3) == var_bytes() {
        // `var` opens a definition with its value block; the scan then steps
        // over the keyword and any `=` run right after the next byte
        let key_block = st.next_key;
        let key_def = st.next_key + 1;
        let parent = st.stack.last();
        let eq_end = if i + 4 <= s.len() {
            scan_eq_run(s, i + 4)
        } else {
            s.len() as int
        };
        (
            TokState {
                tokens: add_tok(
                    st.tokens.insert(key_block, TokenModel::Block { tokens: Seq::empty() }),
                    key_def,
                    TokenModel::VarDef { block_value: key_block },
                    parent,
                ),
                next_key: st.next_key + 2,
                stack: st.stack.push(key_block),
                ..st
            },
            if i + 4 <= s.len() {
                i + 3 + (eq_end - (i + 4))
            } else {
                i + 3
            },
        )
    } else {
        (st, i + 1)
    }
}

/// The end of the run of `=` bytes starting at `i`.
pub open spec fn scan_eq_run(s: Seq<u8>, i: int) -> int
    decreases s.len() - i,
{
    if i >= s.len() {
        s.len() as int
    } else if s[i] == 61 {
        scan_eq_run(s, i + 1)
    } else {
        i
    }
}

/// Run the tokenizer from position `i` to the end of the input. A step that
/// does not move forward, or a stack that has been emptied, ends the scan.
pub open spec fn tok_run(st: TokState, s: Seq<u8>, i: int) -> TokState
    decreases s.len() - i,
{
    if i < 0 || i >= s.len() || st.stack.len() == 0 {
        st
    } else {
        let r = tok_step(st, s, i);
        let next_i = if r.1 <= i {
            i + 1
        } else if r.1 > s.len() {
            s.len() as int
        } else {
            r.1
        };
        tok_run(r.0, s, next_i)
    }
}

/// The state tokenizing starts from: one empty global block under key 0.
pub open spec fn tok_init() -> TokState {
    TokState {
        tokens: Map::<int, TokenModel>::empty().insert(0, TokenModel::Block { tokens: Seq::empty() }),
        next_key: 1,
        stack: seq![0],
        in_str: false,
    }
}

/// The statement-level tokenizer: one pass over source text producing a
/// token arena keyed by stable integers, with a global block at the root.
#[derive(Debug)]
pub struct Tokenizer {
    tokens: slab::Slab<Token>,
    global_block: TokenKey,
}

impl Tokenizer {
    /// The arena as a map from keys to token models.
    pub closed spec fn arena(&self) -> Map<int, TokenModel> {
        token_map(self.tokens).map_values(|t: Token| t@)
    }

    /// The key of the global block.
    pub closed spec fn global(&self) -> int {
        self.global_block as int
    }

    /// Tokenize `code`: blocks under `{`..`}`, `;` closing the innermost
    /// block, string literals, and `var` definitions.
    pub fn from_str(code: &str) -> (r: Tokenizer)
        ensures
            r.global() == 0,
            r.arena() == tok_run(tok_init(), code.spec_bytes(), 0).tokens,
    {
        let bytes: &[u8] = code.as_bytes();
        let ghost s = code.spec_bytes();
        let mut tokens_map = token_slab_new();
        proof {
            assert(token_slab_linear(tokens_map));
        }
        let root = Token::Block { tokens: Vec::new() };
        let ghost root_tok = root;
        let global_block = token_slab_insert(&mut tokens_map, root);
        proof {
            lemma_token_map_values_insert(Map::empty(), 0, root_tok);
            assert(root_tok@ =~~= (TokenModel::Block { tokens: Seq::empty() }));
            assert(token_map(tokens_map).map_values(|t: Token| t@) =~~= tok_init().tokens);
        }
        let mut block_indexes: Vec<TokenKey> = Vec::new();
        block_indexes.push(global_block);
        let mut in_str: bool = false;
        let mut i: usize = 0;
        let n = bytes.len();
        proof {
            assert(block_indexes@.map_values(|k: TokenKey| k as int) =~= seq![0int]);
        }
        while i < n && block_indexes.len() > 0
            invariant
                token_slab_linear(tokens_map),
                i <= n,
                n == s.len(),
                bytes@ == s,
                forall|j: int|
                    0 <= j < block_indexes@.len() ==> (#[trigger] block_indexes@[j] as int)
                        < token_slots(tokens_map),
                tok_run(
                    TokState {
                        tokens: token_map(tokens_map).map_values(|t: Token| t@),
                        next_key: token_slots(tokens_map),
                        stack: block_indexes@.map_values(|k: TokenKey| k as int),
                        in_str: in_str,
                    },
                    s,
                    i as int,
                ) == tok_run(tok_init(), s, 0),
            decreases n - i,
        {
            let ghost pre = TokState {
                tokens: token_map(tokens_map).map_values(|t: Token| t@),
                next_key: token_slots(tokens_map),
                stack: block_indexes@.map_values(|k: TokenKey| k as int),
                in_str: in_str,
            };
            let ghost i0 = i as int;
            let c = *vstd::slice::slice_index_get(bytes, i);
            if c == 59 {
                if !in_str {
                    let _popped = block_indexes.pop();
                    proof {
                        assert(block_indexes@.map_values(|k: TokenKey| k as int)
                            =~= pre.stack.drop_last());
                    }
                }
                i += 1;
                proof {
                    tok_step_ok(pre, s, i0, i as int, &tokens_map, block_indexes@, in_str);
                }
            } else if c == 34 {
                if in_str {
                    let content = vstd::slice::slice_to_vec(
                        vstd::slice::slice_subrange(bytes, 1, i + 1),
                    );
                    let top = block_indexes[block_indexes.len() - 1];
                    let key = insert_tok(&mut tokens_map, Token::StringVal { value: content });
                    attach_tok(&mut tokens_map, top, key);
                    in_str = false;
                    i += 1;
                    proof {
                        assert(tok_step(pre, s, i0).0 =~~= TokState {
                            tokens: token_map(tokens_map).map_values(|t: Token| t@),
                            next_key: token_slots(tokens_map),
                            stack: block_indexes@.map_values(|k: TokenKey| k as int),
                            in_str: in_str,
                        });
                        tok_step_ok(pre, s, i0, i as int, &tokens_map, block_indexes@, in_str);
                    }
                } else {
                    in_str = true;
                    i += 1;
                    proof {
                        tok_step_ok(pre, s, i0, i as int, &tokens_map, block_indexes@, in_str);
                    }
                }
            } else if c == 123 && !in_str {
                let top = block_indexes[block_indexes.len() - 1];
                let key = insert_tok(&mut tokens_map, Token::Block { tokens: Vec::new() });
                attach_tok(&mut tokens_map, top, key);
                block_indexes.push(key);
                i += 1;
                proof {
                    assert(block_indexes@.map_values(|k: TokenKey| k as int) =~= pre.stack.push(
                        key as int,
                    ));
                    assert(tok_step(pre, s, i0).0 =~~= TokState {
                        tokens: token_map(tokens_map).map_values(|t: Token| t@),
                        next_key: token_slots(tokens_map),
                        stack: block_indexes@.map_values(|k: TokenKey| k as int),
                        in_str: in_str,
                    });
                    tok_step_ok(pre, s, i0, i as int, &tokens_map, block_indexes@, in_str);
                }
            } else if c == 125 && !in_str {
                let _popped = block_indexes.pop();
                i += 1;
                proof {
                    assert(block_indexes@.map_values(|k: TokenKey| k as int)
                        =~= pre.stack.drop_last());
                    tok_step_ok(pre, s, i0, i as int, &tokens_map, block_indexes@, in_str);
                }
            } else if starts_with_var(bytes, i) {
                let top = block_indexes[block_indexes.len() - 1];
                let key_block = insert_tok(&mut tokens_map, Token::Block { tokens: Vec::new() });
                let key_def = insert_tok(&mut tokens_map, Token::VarDef {
                    block_value: key_block,
                });
                attach_tok(&mut tokens_map, top, key_def);
                block_indexes.push(key_block);
                if n - i >= 4 {
                    let eq_end = eq_run_end(bytes, i + 4);
                    i = eq_end - 1;
                } else {
                    i = n;
                }
                proof {
                    assert(block_indexes@.map_values(|k: TokenKey| k as int) =~= pre.stack.push(
                        key_block as int,
                    ));
                    assert(tok_step(pre, s, i0).0 =~~= TokState {
                        tokens: token_map(tokens_map).map_values(|t: Token| t@),
                        next_key: token_slots(tokens_map),
                        stack: block_indexes@.map_values(|k: TokenKey| k as int),
                        in_str: in_str,
                    });
                    tok_step_ok(pre, s, i0, i as int, &tokens_map, block_indexes@, in_str);
                }
            } else {
                i += 1;
                proof {
                    tok_step_ok(pre, s, i0, i as int, &tokens_map, block_indexes@, in_str);
                }
            }
        }
        let r = Tokenizer { tokens: tokens_map, global_block };
        proof {
            assert(tok_run(
                TokState {
                    tokens: r.arena(),
                    next_key: token_slots(r.tokens),
                    stack: block_indexes@.map_values(|k: TokenKey| k as int),
                    in_str: in_str,
                },
                s,
                i as int,
            ) == TokState {
                tokens: r.arena(),
                next_key: token_slots(r.tokens),
                stack: block_indexes@.map_values(|k: TokenKey| k as int),
                in_str: in_str,
            });
        }
        r
    }

    /// Retrieve the global block's key.
    pub fn get_global(&self) -> (r: TokenKey)
        ensures
            r as int == self.global(),
    {
        self.global_block
    }

    /// Retrieve a token given its `key`.
    pub fn get_token(&self, key: TokenKey) -> (r: Option<&Token>)
        ensures
            match r {
                Some(v) => self.arena().dom().contains(key as int) && v@ == self.arena().index(
                    key as int,
                ),
                None => !self.arena().dom().contains(key as int),
            },
    {
        let r = token_slab_get(&self.tokens, key);
        proof {
            assert(self.arena().dom() =~= token_map(self.tokens).dom());
        }
        r
    }
}

/// The keyword check at position `i`: `code` holds at least three more bytes
/// and they read `var`.
fn starts_with_var(code: &[u8], i: usize) -> (r: bool)
    requires
        i < code@.len(),
    ensures
        r == (i + 3 <= code@.len() && code@.subrange(i as int, i + 3) == var_bytes()),
{
    if code.len() >= 3 && i <= code.len() - 3 {
        let r = *vstd::slice::slice_index_get(code, i) == 118 && *vstd::slice::slice_index_get(
            code,
            i + 1,
        ) == 97 && *vstd::slice::slice_index_get(code, i + 2) == 114;
        proof {
            let sub = code@.subrange(i as int, i + 3);
            assert(sub[0] == code@[i as int]);
            assert(sub[1] == code@[i as int + 1]);
            assert(sub[2] == code@[i as int + 2]);
            if r {
                assert(sub =~= var_bytes());
            }
        }
        r
    } else {
        false
    }
}

proof fn lemma_token_map_values_insert(m: Map<int, Token>, k: int, v: Token)
    ensures
        m.insert(k, v).map_values(|t: Token| t@) =~= m.map_values(|t: Token| t@).insert(k, v@),
{
}

/// One accepted tokenizer step keeps the run's outcome.
proof fn tok_step_ok(
    pre: TokState,
    s: Seq<u8>,
    i: int,
    ni: int,
    after: &slab::Slab<Token>,
    stack: Seq<TokenKey>,
    in_str: bool,
)
    requires
        0 <= i < s.len(),
        pre.stack.len() > 0,
        tok_step(pre, s, i).0 == (TokState {
            tokens: token_map(*after).map_values(|t: Token| t@),
            next_key: token_slots(*after),
            stack: stack.map_values(|k: TokenKey| k as int),
            in_str: in_str,
        }),
        ni == ({
            let t = tok_step(pre, s, i).1;
            if t <= i {
                i + 1
            } else if t > s.len() {
                s.len() as int
            } else {
                t
            }
        }),
    ensures
        tok_run(
            TokState {
                tokens: token_map(*after).map_values(|t: Token| t@),
                next_key: token_slots(*after),
                stack: stack.map_values(|k: TokenKey| k as int),
                in_str: in_str,
            },
            s,
            ni,
        ) == tok_run(pre, s, i),
{
}

} // verus!
