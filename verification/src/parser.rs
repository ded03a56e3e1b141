//! Expression trees and the parser.

use crate::tokenizer::{token_views, Span, Token, TokenView};
use std::rc::Rc;
use vstd::prelude::*;

verus! {

/// A parsed expression: one token, or a bracketed list of expressions.
#[derive(Debug)]
pub enum Expr {
    Token(Token),
    List(Vec<Rc<Expr>>),
}

/// The mathematical value of an [`Expr`].
pub enum ExprView {
    Token(TokenView),
    List(Seq<ExprView>),
}

impl Expr {
    /// The tree that this expression stands for.
    pub open spec fn model(self) -> ExprView
        decreases self,
    {
        match self {
            Expr::Token(t) => ExprView::Token(t@),
            Expr::List(l) => ExprView::List(
                Seq::new(
                    l@.len(),
                    |i: int|
                        if 0 <= i < l@.len() {
                            (*l@[i]).model()
                        } else {
                            arbitrary()
                        },
                ),
            ),
        }
    }
}

impl View for Expr {
    type V = ExprView;

    open spec fn view(&self) -> ExprView {
        self.model()
    }
}

impl Expr {
    /// The expression that is the symbol `name`.
    pub fn symbol(name: &str) -> (r: Rc<Expr>)
        ensures
            r@ == ExprView::Token(TokenView::Symbol(name@)),
    {
        Rc::new(Expr::Token(Token::Symbol(name.to_owned())))
    }

    /// The expression that is the one token `token`.
    pub fn token(token: Token) -> (r: Rc<Expr>)
        ensures
            r@ == ExprView::Token(token@),
    {
        Rc::new(Expr::Token(token))
    }

    /// The expression that is the list of `items`.
    pub fn list(items: Vec<Rc<Expr>>) -> (r: Rc<Expr>)
        ensures
            r@ == ExprView::List(trees(items@)),
    {
        let ghost all = trees(items@);
        let r = Rc::new(Expr::List(items));
        assert(r@->List_0 =~= all);
        r
    }
}

/// The trees that a sequence of expressions stands for.
pub open spec fn trees(exprs: Seq<Rc<Expr>>) -> Seq<ExprView> {
    Seq::new(exprs.len(), |i: int| exprs[i]@)
}


/// Why a list of tokens is no expression.
#[derive(Debug)]
pub enum ParsingError {
    /// The tokens end before the expression does.
    ExpectedToken,
    /// A closing bracket stands where an expression must start.
    UnexpectedRightBracket(Span),
}

/// An expression and the place of the token behind it.
pub struct Parsed {
    pub tree: ExprView,
    pub next: int,
}

/// The expression that starts at the token at `pos`: the list up to the
/// matching bracket where that token opens one, else the token itself.
pub open spec fn parsed_at(tokens: Seq<(TokenView, Span)>, pos: int) -> Result<Parsed, ParsingError>
    decreases tokens.len() - pos, 1nat,
{
    if pos < 0 || pos >= tokens.len() {
        Err(ParsingError::ExpectedToken)
    } else {
        match tokens[pos].0 {
            TokenView::LBracket => parsed_items(tokens, pos + 1, Seq::empty()),
            TokenView::RBracket => Err(ParsingError::UnexpectedRightBracket(tokens[pos].1)),
            token => Ok(Parsed { tree: ExprView::Token(token), next: pos + 1 }),
        }
    }
}

/// The list whose first items are `items` and whose other items start at
/// the token at `pos`, up to the closing bracket.
pub open spec fn parsed_items(tokens: Seq<(TokenView, Span)>, pos: int, items: Seq<ExprView>) -> Result<
    Parsed,
    ParsingError,
>
    decreases tokens.len() - pos, 2nat,
{
    if pos < 0 || pos >= tokens.len() {
        Err(ParsingError::ExpectedToken)
    } else if tokens[pos].0 is RBracket {
        Ok(Parsed { tree: ExprView::List(items), next: pos + 1 })
    } else {
        match parsed_at(tokens, pos) {
            Ok(one) => if pos < one.next <= tokens.len() {
                parsed_items(tokens, one.next, items.push(one.tree))
            } else {
                Err(ParsingError::ExpectedToken)
            },
            Err(e) => Err(e),
        }
    }
}

/// The expression that `tokens` start with.
pub open spec fn program(tokens: Seq<(TokenView, Span)>) -> Result<ExprView, ParsingError> {
    match parsed_at(tokens, 0) {
        Ok(one) => Ok(one.tree),
        Err(e) => Err(e),
    }
}

/// An expression ends behind its start, and not behind the last token.
pub proof fn law_parsed_advances(tokens: Seq<(TokenView, Span)>, pos: int)
    ensures
        parsed_at(tokens, pos) matches Ok(one) ==> pos < one.next <= tokens.len(),
    decreases tokens.len() - pos, 1nat,
{
    if 0 <= pos < tokens.len() && tokens[pos].0 is LBracket {
        lemma_items_advance(tokens, pos + 1, Seq::empty());
    }
}

/// A list ends behind its start, and not behind the last token.
pub proof fn lemma_items_advance(tokens: Seq<(TokenView, Span)>, pos: int, items: Seq<ExprView>)
    ensures
        parsed_items(tokens, pos, items) matches Ok(one) ==> pos < one.next <= tokens.len(),
    decreases tokens.len() - pos, 2nat,
{
    if 0 <= pos < tokens.len() && !(tokens[pos].0 is RBracket) {
        law_parsed_advances(tokens, pos);
        match parsed_at(tokens, pos) {
            Ok(one) => {
                if pos < one.next <= tokens.len() {
                    lemma_items_advance(tokens, one.next, items.push(one.tree));
                }
            },
            Err(_) => {},
        }
    }
}

/// Parses the expression that starts at the token at `pos`, and gives it
/// with the place of the token behind it.
fn parse_recursive(tokens: &Vec<(Token, Span)>, pos: usize) -> (r: Result<
    (Expr, usize),
    ParsingError,
>)
    ensures
        match r {
            Ok((expr, next)) => parsed_at(token_views(tokens@), pos as int) == Ok::<
                Parsed,
                ParsingError,
            >(Parsed { tree: expr@, next: next as int }) && pos < next <= tokens.len(),
            Err(e) => parsed_at(token_views(tokens@), pos as int) == Err::<Parsed, ParsingError>(e),
        },
    decreases tokens.len() - pos,
{
    let ghost views = token_views(tokens@);
    if pos >= tokens.len() {
        return Err(ParsingError::ExpectedToken);
    }
    assert(views[pos as int] == (tokens[pos as int].0@, tokens[pos as int].1));
    match &tokens[pos].0 {
        Token::LBracket => {
            let mut list: Vec<Rc<Expr>> = Vec::new();
            let mut at: usize = pos + 1;
            assert(trees(list@) =~= Seq::<ExprView>::empty());
            loop
                invariant
                    views == token_views(tokens@),
                    pos < at <= tokens.len(),
                    parsed_at(views, pos as int) == parsed_items(views, at as int, trees(list@)),
                decreases tokens.len() - at,
            {
                if at >= tokens.len() {
                    return Err(ParsingError::ExpectedToken);
                }
                assert(views[at as int] == (tokens[at as int].0@, tokens[at as int].1));
                match &tokens[at].0 {
                    Token::RBracket => {
                        let ghost items = trees(list@);
                        let expr = Expr::List(list);
                        assert(expr@->List_0 =~= items);
                        return Ok((expr, at + 1));
                    },
                    _ => {},
                }
                let (expr, next) = parse_recursive(tokens, at)?;
                let ghost before = trees(list@);
                list.push(Rc::new(expr));
                assert(trees(list@) =~= before.push(expr@));
                at = next;
            }
        },
        Token::RBracket => Err(
            ParsingError::UnexpectedRightBracket(
                std::ops::Range { start: tokens[pos].1.start, end: tokens[pos].1.end },
            ),
        ),
        token => Ok((Expr::Token(token.clone()), pos + 1)),
    }
}

/// Parses the expression that `tokens` start with. Tokens behind it are
/// not looked at.
pub fn parse(tokens: Vec<(Token, Span)>) -> (r: Result<Expr, ParsingError>)
    ensures
        match r {
            Ok(expr) => program(token_views(tokens@)) == Ok::<ExprView, ParsingError>(expr@),
            Err(e) => program(token_views(tokens@)) == Err::<ExprView, ParsingError>(e),
        },
{
    match parse_recursive(&tokens, 0) {
        Ok((expr, _)) => Ok(expr),
        Err(e) => Err(e),
    }
}

} // verus!
