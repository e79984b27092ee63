//! Token trees: the tokens of a program grouped by parentheses.
use vstd::prelude::*;

use crate::diagnostics::{diag, SpecDiagnostic};
use crate::parser::lexer::{SpecToken, Token, TokenType};
use crate::position::{Position, SpecPosition};

verus! {

#[derive(Debug)]
pub enum TokenTree {
    Token(Token),
    List(TokenTreeList),
}

#[derive(Debug)]
pub struct TokenTreeList {
    pub position: Position,
    pub items: Vec<TokenTree>,
}

pub enum SpecTokenTree {
    Token(SpecToken),
    List(SpecTokenTreeList),
}

pub struct SpecTokenTreeList {
    pub position: SpecPosition,
    pub items: Seq<SpecTokenTree>,
}

pub open spec fn view_tree(t: TokenTree) -> SpecTokenTree
    decreases t,
{
    match t {
        TokenTree::Token(tok) => SpecTokenTree::Token(tok@),
        TokenTree::List(l) => SpecTokenTree::List(view_list(l)),
    }
}

pub open spec fn view_list(l: TokenTreeList) -> SpecTokenTreeList
    decreases l,
{
    SpecTokenTreeList { position: l.position@, items: view_trees(l.items@) }
}

pub open spec fn view_trees(s: Seq<TokenTree>) -> Seq<SpecTokenTree>
    decreases s,
{
    if s.len() == 0 {
        Seq::empty()
    } else {
        view_trees(s.drop_last()).push(view_tree(s.last()))
    }
}

impl View for TokenTree {
    type V = SpecTokenTree;

    open spec fn view(&self) -> SpecTokenTree {
        view_tree(*self)
    }
}

impl View for TokenTreeList {
    type V = SpecTokenTreeList;

    open spec fn view(&self) -> SpecTokenTreeList {
        view_list(*self)
    }
}

pub proof fn lemma_view_trees_push(s: Seq<TokenTree>, t: TokenTree)
    ensures
        view_trees(s.push(t)) == view_trees(s).push(view_tree(t)),
{
    assert(s.push(t).drop_last() =~= s);
}

pub proof fn lemma_view_trees_index(s: Seq<TokenTree>)
    ensures
        view_trees(s).len() == s.len(),
        forall|i: int| 0 <= i < s.len() ==> #[trigger] view_trees(s)[i] == view_tree(s[i]),
    decreases s.len(),
{
    if s.len() > 0 {
        lemma_view_trees_index(s.drop_last());
    }
}

/// Where a tree starts: its token's position, or its opening parenthesis.
pub open spec fn tree_position(t: SpecTokenTree) -> SpecPosition {
    match t {
        SpecTokenTree::Token(tok) => tok.position,
        SpecTokenTree::List(l) => l.position,
    }
}

impl TokenTree {
    /// Where the tree starts.
    pub fn get_position(&self) -> (r: Position)
        ensures
            r@ == tree_position(self@),
    {
        match self {
            TokenTree::Token(token) => token.position.duplicate(),
            TokenTree::List(list) => {
                assert(view_list(*list).position == list.position@);
                list.position.duplicate()
            },
        }
    }
}

/// Adds `tree` to the innermost open list, or to the finished trees when none is open.
pub open spec fn add_tree(stack: Seq<SpecTokenTreeList>, top: Seq<SpecTokenTree>, tree: SpecTokenTree) -> (
    Seq<SpecTokenTreeList>,
    Seq<SpecTokenTree>,
) {
    if stack.len() == 0 {
        (stack, top.push(tree))
    } else {
        (
            stack.drop_last().push(
                SpecTokenTreeList { position: stack.last().position, items: stack.last().items.push(tree) },
            ),
            top,
        )
    }
}

/// Groups the tokens from index `i` on, with `stack` the lists opened and not yet closed
/// (innermost last) and `top` the trees finished so far. Gives the trees, or the first
/// error: a `)` with no list open, or a `(` still open at the end (the innermost one);
/// and the index reached, which is that of the unmatched `)` in the first case.
pub open spec fn read_trees(
    toks: Seq<SpecToken>,
    i: int,
    stack: Seq<SpecTokenTreeList>,
    top: Seq<SpecTokenTree>,
) -> (Result<Seq<SpecTokenTree>, SpecDiagnostic>, int)
    decreases toks.len() - i,
{
    if i >= toks.len() {
        if stack.len() == 0 {
            (Ok(top), i)
        } else {
            (Err(diag(stack.last().position, "'(' was never closed")), i)
        }
    } else {
        let t = toks[i];
        if t.ty == TokenType::LParen {
            read_trees(toks, i + 1, stack.push(SpecTokenTreeList { position: t.position, items: seq![] }), top)
        } else if t.ty == TokenType::RParen {
            if stack.len() == 0 {
                (Err(diag(t.position, "unmatched ')'")), i)
            } else {
                let (s2, t2) = add_tree(stack.drop_last(), top, SpecTokenTree::List(stack.last()));
                read_trees(toks, i + 1, s2, t2)
            }
        } else {
            let (s2, t2) = add_tree(stack, top, SpecTokenTree::Token(t));
            read_trees(toks, i + 1, s2, t2)
        }
    }
}

/// The tokens of a tree, left to right.
pub open spec fn tree_leaves(t: SpecTokenTree) -> Seq<SpecToken>
    decreases t,
{
    match t {
        SpecTokenTree::Token(tok) => seq![tok],
        SpecTokenTree::List(l) => trees_leaves(l.items),
    }
}

/// The tokens of a sequence of trees, left to right.
pub open spec fn trees_leaves(s: Seq<SpecTokenTree>) -> Seq<SpecToken>
    decreases s,
{
    if s.len() == 0 {
        Seq::empty()
    } else {
        trees_leaves(s.drop_last()) + tree_leaves(s.last())
    }
}

/// The tokens of the lists still open, outermost first.
pub open spec fn stack_leaves(stack: Seq<SpecTokenTreeList>) -> Seq<SpecToken>
    decreases stack.len(),
{
    if stack.len() == 0 {
        Seq::empty()
    } else {
        stack_leaves(stack.drop_last()) + trees_leaves(stack.last().items)
    }
}

/// The tokens of `s` that are no parenthesis, in order.
pub open spec fn plain_tokens(s: Seq<SpecToken>) -> Seq<SpecToken>
    decreases s.len(),
{
    if s.len() == 0 {
        Seq::empty()
    } else {
        let rest = plain_tokens(s.drop_first());
        if s[0].ty == TokenType::LParen || s[0].ty == TokenType::RParen {
            rest
        } else {
            seq![s[0]] + rest
        }
    }
}

proof fn lemma_trees_leaves_push(s: Seq<SpecTokenTree>, t: SpecTokenTree)
    ensures
        trees_leaves(s.push(t)) == trees_leaves(s) + tree_leaves(t),
{
    assert(s.push(t).drop_last() =~= s);
}

proof fn lemma_add_tree_leaves(stack: Seq<SpecTokenTreeList>, top: Seq<SpecTokenTree>, tree: SpecTokenTree)
    ensures
        trees_leaves(add_tree(stack, top, tree).1) + stack_leaves(add_tree(stack, top, tree).0) == trees_leaves(top)
            + stack_leaves(stack) + tree_leaves(tree),
{
    broadcast use crate::text::group_seq_concat;

    if stack.len() == 0 {
        lemma_trees_leaves_push(top, tree);
    } else {
        let last = stack.last();
        let grown = SpecTokenTreeList { position: last.position, items: last.items.push(tree) };
        let s2 = stack.drop_last().push(grown);
        assert(s2.drop_last() =~= stack.drop_last());
        lemma_trees_leaves_push(last.items, tree);
    }
}

proof fn lemma_read_trees_leaves(toks: Seq<SpecToken>, i: int, stack: Seq<SpecTokenTreeList>, top: Seq<SpecTokenTree>)
    requires
        0 <= i <= toks.len(),
    ensures
        read_trees(toks, i, stack, top).0 matches Ok(ts) ==> trees_leaves(ts) == trees_leaves(top) + stack_leaves(
            stack,
        ) + plain_tokens(toks.subrange(i, toks.len() as int)),
    decreases toks.len() - i,
{
    broadcast use crate::text::group_seq_concat;

    let rest = toks.subrange(i, toks.len() as int);
    if i >= toks.len() {
        assert(rest.len() == 0);
    } else {
        let t = toks[i];
        assert(rest.drop_first() =~= toks.subrange(i + 1, toks.len() as int));
        assert(rest[0] == t);
        if t.ty == TokenType::LParen {
            let s1 = stack.push(SpecTokenTreeList { position: t.position, items: seq![] });
            assert(s1.drop_last() =~= stack);
            lemma_read_trees_leaves(toks, i + 1, s1, top);
        } else if t.ty == TokenType::RParen {
            if stack.len() > 0 {
                let (s2, t2) = add_tree(stack.drop_last(), top, SpecTokenTree::List(stack.last()));
                lemma_add_tree_leaves(stack.drop_last(), top, SpecTokenTree::List(stack.last()));
                lemma_read_trees_leaves(toks, i + 1, s2, t2);
            }
        } else {
            let (s2, t2) = add_tree(stack, top, SpecTokenTree::Token(t));
            lemma_add_tree_leaves(stack, top, SpecTokenTree::Token(t));
            lemma_read_trees_leaves(toks, i + 1, s2, t2);
        }
    }
}

/// Grouping tokens into trees loses, adds and reorders nothing: when it succeeds, the
/// tokens of the trees, left to right, are the tokens read that are no parenthesis.
pub proof fn lemma_trees_keep_tokens(toks: Seq<SpecToken>, i: int)
    requires
        0 <= i <= toks.len(),
    ensures
        read_trees(toks, i, seq![], seq![]).0 matches Ok(ts) ==> trees_leaves(ts) == plain_tokens(
            toks.subrange(i, toks.len() as int),
        ),
{
    broadcast use crate::text::group_seq_concat;

    lemma_read_trees_leaves(toks, i, seq![], seq![]);
}

/// The tree reader only moves forward: the index it stops at is at least the one it
/// started from, and it reads every token when it succeeds.
pub proof fn lemma_read_trees_index(toks: Seq<SpecToken>, i: int, stack: Seq<SpecTokenTreeList>, top: Seq<SpecTokenTree>)
    requires
        0 <= i <= toks.len(),
    ensures
        i <= read_trees(toks, i, stack, top).1 <= toks.len(),
        read_trees(toks, i, stack, top).0 is Ok ==> read_trees(toks, i, stack, top).1 == toks.len(),
    decreases toks.len() - i,
{
    if i < toks.len() {
        let t = toks[i];
        if t.ty == TokenType::LParen {
            lemma_read_trees_index(toks, i + 1, stack.push(SpecTokenTreeList { position: t.position, items: seq![] }), top);
        } else if t.ty == TokenType::RParen {
            if stack.len() > 0 {
                let (s2, t2) = add_tree(stack.drop_last(), top, SpecTokenTree::List(stack.last()));
                lemma_read_trees_index(toks, i + 1, s2, t2);
            }
        } else {
            let (s2, t2) = add_tree(stack, top, SpecTokenTree::Token(t));
            lemma_read_trees_index(toks, i + 1, s2, t2);
        }
    }
}

/// The opening parenthesis of a list at `position`, as the lexer makes it.
pub open spec fn open_paren(position: SpecPosition) -> SpecToken {
    SpecToken { ty: TokenType::LParen, value: seq![], position }
}

/// The tokens of a tree in preorder: a list gives its opening parenthesis, then its items.
pub open spec fn tree_preorder(t: SpecTokenTree) -> Seq<SpecToken>
    decreases t,
{
    match t {
        SpecTokenTree::Token(tok) => seq![tok],
        SpecTokenTree::List(l) => seq![open_paren(l.position)] + trees_preorder(l.items),
    }
}

/// The tokens of a sequence of trees in preorder.
pub open spec fn trees_preorder(s: Seq<SpecTokenTree>) -> Seq<SpecToken>
    decreases s,
{
    if s.len() == 0 {
        Seq::empty()
    } else {
        trees_preorder(s.drop_last()) + tree_preorder(s.last())
    }
}

/// The tokens of the lists still open, outermost first, each with its opening parenthesis.
pub open spec fn stack_preorder(stack: Seq<SpecTokenTreeList>) -> Seq<SpecToken>
    decreases stack.len(),
{
    if stack.len() == 0 {
        Seq::empty()
    } else {
        stack_preorder(stack.drop_last()) + (seq![open_paren(stack.last().position)] + trees_preorder(
            stack.last().items,
        ))
    }
}

/// The tokens of `s` but the closing parentheses, in order.
pub open spec fn without_rparens(s: Seq<SpecToken>) -> Seq<SpecToken>
    decreases s.len(),
{
    if s.len() == 0 {
        Seq::empty()
    } else {
        let rest = without_rparens(s.drop_first());
        if s[0].ty == TokenType::RParen {
            rest
        } else {
            seq![s[0]] + rest
        }
    }
}

proof fn lemma_trees_preorder_push(s: Seq<SpecTokenTree>, t: SpecTokenTree)
    ensures
        trees_preorder(s.push(t)) == trees_preorder(s) + tree_preorder(t),
{
    assert(s.push(t).drop_last() =~= s);
}

proof fn lemma_add_tree_preorder(stack: Seq<SpecTokenTreeList>, top: Seq<SpecTokenTree>, tree: SpecTokenTree)
    ensures
        trees_preorder(add_tree(stack, top, tree).1) + stack_preorder(add_tree(stack, top, tree).0)
            == trees_preorder(top) + stack_preorder(stack) + tree_preorder(tree),
{
    broadcast use crate::text::group_seq_concat;

    if stack.len() == 0 {
        lemma_trees_preorder_push(top, tree);
    } else {
        let last = stack.last();
        let grown = SpecTokenTreeList { position: last.position, items: last.items.push(tree) };
        let s2 = stack.drop_last().push(grown);
        assert(s2.drop_last() =~= stack.drop_last());
        lemma_trees_preorder_push(last.items, tree);
    }
}

proof fn lemma_read_trees_preorder(
    toks: Seq<SpecToken>,
    i: int,
    stack: Seq<SpecTokenTreeList>,
    top: Seq<SpecTokenTree>,
)
    requires
        0 <= i <= toks.len(),
        forall|k: int| 0 <= k < toks.len() && (#[trigger] toks[k]).ty == TokenType::LParen ==> toks[k].value.len() == 0,
    ensures
        read_trees(toks, i, stack, top).0 matches Ok(ts) ==> trees_preorder(ts) == trees_preorder(top)
            + stack_preorder(stack) + without_rparens(toks.subrange(i, toks.len() as int)),
    decreases toks.len() - i,
{
    broadcast use crate::text::group_seq_concat;

    let rest = toks.subrange(i, toks.len() as int);
    if i >= toks.len() {
        assert(rest.len() == 0);
    } else {
        let t = toks[i];
        assert(rest.drop_first() =~= toks.subrange(i + 1, toks.len() as int));
        assert(rest[0] == t);
        if t.ty == TokenType::LParen {
            let s1 = stack.push(SpecTokenTreeList { position: t.position, items: seq![] });
            assert(s1.drop_last() =~= stack);
            assert(t.value =~= Seq::<char>::empty());
            assert(t == open_paren(t.position));
            assert(trees_preorder(seq![]) == Seq::<SpecToken>::empty());
            lemma_read_trees_preorder(toks, i + 1, s1, top);
        } else if t.ty == TokenType::RParen {
            if stack.len() > 0 {
                let (s2, t2) = add_tree(stack.drop_last(), top, SpecTokenTree::List(stack.last()));
                lemma_add_tree_preorder(stack.drop_last(), top, SpecTokenTree::List(stack.last()));
                lemma_read_trees_preorder(toks, i + 1, s2, t2);
            }
        } else {
            let (s2, t2) = add_tree(stack, top, SpecTokenTree::Token(t));
            lemma_add_tree_preorder(stack, top, SpecTokenTree::Token(t));
            lemma_read_trees_preorder(toks, i + 1, s2, t2);
        }
    }
}

/// Grouping tokens into trees is undone by reading the trees back in preorder: when
/// grouping succeeds, the trees in preorder, each list giving its opening parenthesis at
/// its position, are the tokens read without their closing parentheses (opening
/// parentheses having no text, as the lexer makes them).
pub proof fn lemma_trees_round_trip(toks: Seq<SpecToken>, i: int)
    requires
        0 <= i <= toks.len(),
        forall|k: int| 0 <= k < toks.len() && (#[trigger] toks[k]).ty == TokenType::LParen ==> toks[k].value.len() == 0,
    ensures
        read_trees(toks, i, seq![], seq![]).0 matches Ok(ts) ==> trees_preorder(ts) == without_rparens(
            toks.subrange(i, toks.len() as int),
        ),
{
    broadcast use crate::text::group_seq_concat;

    lemma_read_trees_preorder(toks, i, seq![], seq![]);
}

} // verus!
