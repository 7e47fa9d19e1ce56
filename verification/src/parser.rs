//! The parser: a recursive-descent parser from tokens to a [`Spec`].
//!
//! Grammar:
//!   spec      := item*
//!   item      := sort | relation | law
//!   sort      := "sort" Ident ( "{" field ("," field)* "}" )?
//!   field     := Ident ":" Ident                 // type: "Int" or a sort name
//!   relation  := "forbidden"? "relation" Ident "(" param ("," param)* ")"
//!   param     := Ident ":" Ident
//!   law       := "law" Ident "(" Ident ("," Ident)* ")" "{" clause* "}"
//!   clause    := pred ( "=>" pred )?
//!   pred      := expr op expr
//!   expr      := Int | Ident ( "." Ident )?
//!   op        := "==" | "<=" | "<" | ">=" | ">"
//!
//! Each grammar rule has a specification function over the token models,
//! returning the node's model and the position after it, or the error that
//! stops parsing there; each parsing method is proved to agree with it.
use vstd::prelude::*;
use vstd::string::*;
use crate::ast::{
    Clause, ClauseV, CmpOp, Expr, ExprV, Field, FieldV, Law, LawV, Param, ParamV, Pred, PredV,
    Relation, RelationV, Sort, SortV, Spec, SpecV, Ty, TyV, clauses_view, fields_view, laws_view,
    params_view, relations_view, sorts_view, strings_view,
};
use crate::lexer::{lex, lex_error_message, tokenize, tokens_view, Tok, TokV, Token, TokenV};
use crate::text::{debug_str, int_decimal, nat_decimal, push_i64, push_str, push_usize, str_debug};

verus! {

/// The token kind at `pos`, if any.
pub open spec fn peek(t: Seq<TokenV>, pos: int) -> Option<TokV> {
    if 0 <= pos < t.len() {
        Some(t[pos].tok)
    } else {
        None
    }
}

/// The line of the token at `pos`, or of the last token past the end (0 when there are none).
pub open spec fn line_at(t: Seq<TokenV>, pos: int) -> nat {
    if 0 <= pos < t.len() {
        t[pos].line
    } else if t.len() > 0 {
        t.last().line
    } else {
        0
    }
}

/// Why parsing stopped, with the line it stopped on and the token found there.
#[allow(inconsistent_fields)]
pub enum ParseError {
    ExpectedTok { line: nat, want: TokV, found: Option<TokV> },
    ExpectedName { line: nat, found: Option<TokV> },
    ExpectedItem { line: nat, found: TokV },
    ExpectedOp { line: nat, found: Option<TokV> },
    ExpectedExpr { line: nat, found: Option<TokV> },
}

/// The debug rendering of a token kind.
pub open spec fn tok_debug(t: TokV) -> Seq<char> {
    match t {
        TokV::Sort => "Sort"@,
        TokV::Relation => "Relation"@,
        TokV::Law => "Law"@,
        TokV::Forbidden => "Forbidden"@,
        TokV::Ident(w) => "Ident("@ + str_debug(w) + ")"@,
        TokV::Int(v) => "Int("@ + int_decimal(v as int) + ")"@,
        TokV::LBrace => "LBrace"@,
        TokV::RBrace => "RBrace"@,
        TokV::LParen => "LParen"@,
        TokV::RParen => "RParen"@,
        TokV::Comma => "Comma"@,
        TokV::Dot => "Dot"@,
        TokV::Colon => "Colon"@,
        TokV::EqEq => "EqEq"@,
        TokV::Le => "Le"@,
        TokV::Lt => "Lt"@,
        TokV::Ge => "Ge"@,
        TokV::Gt => "Gt"@,
        TokV::FatArrow => "FatArrow"@,
    }
}

/// The debug rendering of an optional token kind.
pub open spec fn opt_tok_debug(t: Option<TokV>) -> Seq<char> {
    match t {
        Some(k) => "Some("@ + tok_debug(k) + ")"@,
        None => "None"@,
    }
}

/// The message reported for a parse error; it always starts with `line N:`.
pub open spec fn parse_error_message(e: ParseError) -> Seq<char> {
    "line "@ + nat_decimal(parse_error_line(e)) + ": expected "@ + match e {
        ParseError::ExpectedTok { want, found, .. } => tok_debug(want) + ", found "@
            + opt_tok_debug(found),
        ParseError::ExpectedName { found, .. } => "a name, found "@ + opt_tok_debug(found),
        ParseError::ExpectedItem { found, .. } => "`sort`, `relation`, or `law`, found "@
            + tok_debug(found),
        ParseError::ExpectedOp { found, .. } => "a comparison operator, found "@ + opt_tok_debug(
            found,
        ),
        ParseError::ExpectedExpr { found, .. } => "an expression, found "@ + opt_tok_debug(found),
    }
}

/// The line a parse error names.
pub open spec fn parse_error_line(e: ParseError) -> nat {
    match e {
        ParseError::ExpectedTok { line, .. } => line,
        ParseError::ExpectedName { line, .. } => line,
        ParseError::ExpectedItem { line, .. } => line,
        ParseError::ExpectedOp { line, .. } => line,
        ParseError::ExpectedExpr { line, .. } => line,
    }
}

/// Consumes the token `want`.
pub open spec fn spec_expect(t: Seq<TokenV>, pos: int, want: TokV) -> Result<int, ParseError> {
    if peek(t, pos) == Some(want) {
        Ok(pos + 1)
    } else {
        Err(ParseError::ExpectedTok { line: line_at(t, pos), want, found: peek(t, pos) })
    }
}

/// Consumes a name.
pub open spec fn spec_ident(t: Seq<TokenV>, pos: int) -> Result<(Seq<char>, int), ParseError> {
    match peek(t, pos) {
        Some(TokV::Ident(n)) => Ok((n, pos + 1)),
        _ => Err(ParseError::ExpectedName { line: line_at(t, pos), found: peek(t, pos) }),
    }
}

/// The type a field's type name denotes.
pub open spec fn ty_of_name(n: Seq<char>) -> TyV {
    if n == "Int"@ {
        TyV::Int
    } else {
        TyV::Sort(n)
    }
}

/// The fields of a sort body from `pos` up to its closing brace, after `acc`.
pub open spec fn spec_fields(t: Seq<TokenV>, pos: int, acc: Seq<FieldV>) -> Result<
    (Seq<FieldV>, int),
    ParseError,
>
    decreases t.len() - pos,
{
    if pos < 0 || peek(t, pos) == Some(TokV::RBrace) {
        Ok((acc, pos))
    } else {
        match spec_ident(t, pos) {
            Err(e) => Err(e),
            Ok((name, p1)) => match spec_expect(t, p1, TokV::Colon) {
                Err(e) => Err(e),
                Ok(p2) => match spec_ident(t, p2) {
                    Err(e) => Err(e),
                    Ok((ty, p3)) => {
                        let acc2 = acc.push(FieldV { name, ty: ty_of_name(ty) });
                        if peek(t, p3) == Some(TokV::Comma) {
                            spec_fields(t, p3 + 1, acc2)
                        } else {
                            Ok((acc2, p3))
                        }
                    },
                },
            },
        }
    }
}

/// `sort Name` with an optional `{ fields }` body.
pub open spec fn spec_sort(t: Seq<TokenV>, pos: int) -> Result<(SortV, int), ParseError> {
    let line = line_at(t, pos);
    match spec_expect(t, pos, TokV::Sort) {
        Err(e) => Err(e),
        Ok(p1) => match spec_ident(t, p1) {
            Err(e) => Err(e),
            Ok((name, p2)) => if peek(t, p2) == Some(TokV::LBrace) {
                match spec_fields(t, p2 + 1, seq![]) {
                    Err(e) => Err(e),
                    Ok((fields, p3)) => match spec_expect(t, p3, TokV::RBrace) {
                        Err(e) => Err(e),
                        Ok(p4) => Ok((SortV { name, fields, line }, p4)),
                    },
                }
            } else {
                Ok((SortV { name, fields: seq![], line }, p2))
            },
        },
    }
}

/// The parameters of a relation from `pos` up to its closing parenthesis, after `acc`.
pub open spec fn spec_params(t: Seq<TokenV>, pos: int, acc: Seq<ParamV>) -> Result<
    (Seq<ParamV>, int),
    ParseError,
>
    decreases t.len() - pos,
{
    if pos < 0 || peek(t, pos) == Some(TokV::RParen) {
        Ok((acc, pos))
    } else {
        match spec_ident(t, pos) {
            Err(e) => Err(e),
            Ok((name, p1)) => match spec_expect(t, p1, TokV::Colon) {
                Err(e) => Err(e),
                Ok(p2) => match spec_ident(t, p2) {
                    Err(e) => Err(e),
                    Ok((sort, p3)) => {
                        let acc2 = acc.push(ParamV { name, sort });
                        if peek(t, p3) == Some(TokV::Comma) {
                            spec_params(t, p3 + 1, acc2)
                        } else {
                            Ok((acc2, p3))
                        }
                    },
                },
            },
        }
    }
}

/// `forbidden`? `relation Name(params)`.
pub open spec fn spec_relation(t: Seq<TokenV>, pos: int) -> Result<(RelationV, int), ParseError> {
    let line = line_at(t, pos);
    let forbidden = peek(t, pos) == Some(TokV::Forbidden);
    let p0 = if forbidden {
        pos + 1
    } else {
        pos
    };
    match spec_expect(t, p0, TokV::Relation) {
        Err(e) => Err(e),
        Ok(p1) => match spec_ident(t, p1) {
            Err(e) => Err(e),
            Ok((name, p2)) => match spec_expect(t, p2, TokV::LParen) {
                Err(e) => Err(e),
                Ok(p3) => match spec_params(t, p3, seq![]) {
                    Err(e) => Err(e),
                    Ok((params, p4)) => match spec_expect(t, p4, TokV::RParen) {
                        Err(e) => Err(e),
                        Ok(p5) => Ok((RelationV { name, params, line, forbidden }, p5)),
                    },
                },
            },
        },
    }
}

/// The argument names of a law from `pos` up to its closing parenthesis, after `acc`.
pub open spec fn spec_args(t: Seq<TokenV>, pos: int, acc: Seq<Seq<char>>) -> Result<
    (Seq<Seq<char>>, int),
    ParseError,
>
    decreases t.len() - pos,
{
    if pos < 0 || peek(t, pos) == Some(TokV::RParen) {
        Ok((acc, pos))
    } else {
        match spec_ident(t, pos) {
            Err(e) => Err(e),
            Ok((name, p1)) => {
                let acc2 = acc.push(name);
                if peek(t, p1) == Some(TokV::Comma) {
                    spec_args(t, p1 + 1, acc2)
                } else {
                    Ok((acc2, p1))
                }
            },
        }
    }
}

/// An integer literal, a name, or `name.field`.
pub open spec fn spec_expr(t: Seq<TokenV>, pos: int) -> Result<(ExprV, int), ParseError> {
    match peek(t, pos) {
        Some(TokV::Int(v)) => Ok((ExprV::Int(v), pos + 1)),
        Some(TokV::Ident(name)) => if peek(t, pos + 1) == Some(TokV::Dot) {
            match spec_ident(t, pos + 2) {
                Err(e) => Err(e),
                Ok((field, p)) => Ok((ExprV::Field { arg: name, field }, p)),
            }
        } else {
            Ok((ExprV::Arg(name), pos + 1))
        },
        other => Err(ParseError::ExpectedExpr { line: line_at(t, pos), found: other }),
    }
}

/// The comparison operator a token kind denotes, if any.
pub open spec fn op_of(t: TokV) -> Option<CmpOp> {
    match t {
        TokV::EqEq => Some(CmpOp::Eq),
        TokV::Le => Some(CmpOp::Le),
        TokV::Lt => Some(CmpOp::Lt),
        TokV::Ge => Some(CmpOp::Ge),
        TokV::Gt => Some(CmpOp::Gt),
        _ => None,
    }
}

/// A comparison operator.
pub open spec fn spec_op(t: Seq<TokenV>, pos: int) -> Result<(CmpOp, int), ParseError> {
    match peek(t, pos) {
        Some(k) if op_of(k) is Some => Ok((op_of(k)->0, pos + 1)),
        other => Err(ParseError::ExpectedOp { line: line_at(t, pos), found: other }),
    }
}

/// `expr op expr`, tagged with the line of its first token.
pub open spec fn spec_pred(t: Seq<TokenV>, pos: int) -> Result<(PredV, int), ParseError> {
    let line = line_at(t, pos);
    match spec_expr(t, pos) {
        Err(e) => Err(e),
        Ok((lhs, p1)) => match spec_op(t, p1) {
            Err(e) => Err(e),
            Ok((op, p2)) => match spec_expr(t, p2) {
                Err(e) => Err(e),
                Ok((rhs, p3)) => Ok((PredV { lhs, op, rhs, line }, p3)),
            },
        },
    }
}

/// A comparison, optionally followed by `=> comparison`.
pub open spec fn spec_clause(t: Seq<TokenV>, pos: int) -> Result<(ClauseV, int), ParseError> {
    let line = line_at(t, pos);
    match spec_pred(t, pos) {
        Err(e) => Err(e),
        Ok((first, p1)) => if peek(t, p1) == Some(TokV::FatArrow) {
            match spec_pred(t, p1 + 1) {
                Err(e) => Err(e),
                Ok((cons, p2)) => Ok((ClauseV::Implies { ante: first, cons, line }, p2)),
            }
        } else {
            Ok((ClauseV::Compare(first), p1))
        },
    }
}

/// A successful clause consumes at least three tokens.
pub proof fn lemma_clause_advances(t: Seq<TokenV>, pos: int)
    requires
        0 <= pos,
    ensures
        spec_clause(t, pos) matches Ok((_, p)) ==> pos + 3 <= p <= t.len(),
{
}

/// The clauses of a law body from `pos` up to its closing brace, after `acc`.
pub open spec fn spec_clauses(t: Seq<TokenV>, pos: int, acc: Seq<ClauseV>) -> Result<
    (Seq<ClauseV>, int),
    ParseError,
>
    decreases t.len() - pos,
{
    if pos < 0 || peek(t, pos) == Some(TokV::RBrace) {
        Ok((acc, pos))
    } else {
        match spec_clause(t, pos) {
            Err(e) => Err(e),
            Ok((c, p1)) => {
                proof {
                    lemma_clause_advances(t, pos);
                }
                spec_clauses(t, p1, acc.push(c))
            },
        }
    }
}

/// `law Relation(args) { clauses }`.
pub open spec fn spec_law(t: Seq<TokenV>, pos: int) -> Result<(LawV, int), ParseError> {
    let line = line_at(t, pos);
    match spec_expect(t, pos, TokV::Law) {
        Err(e) => Err(e),
        Ok(p1) => match spec_ident(t, p1) {
            Err(e) => Err(e),
            Ok((relation, p2)) => match spec_expect(t, p2, TokV::LParen) {
                Err(e) => Err(e),
                Ok(p3) => match spec_args(t, p3, seq![]) {
                    Err(e) => Err(e),
                    Ok((args, p4)) => match spec_expect(t, p4, TokV::RParen) {
                        Err(e) => Err(e),
                        Ok(p5) => match spec_expect(t, p5, TokV::LBrace) {
                            Err(e) => Err(e),
                            Ok(p6) => match spec_clauses(t, p6, seq![]) {
                                Err(e) => Err(e),
                                Ok((clauses, p7)) => match spec_expect(t, p7, TokV::RBrace) {
                                    Err(e) => Err(e),
                                    Ok(p8) => Ok((LawV { relation, args, clauses, line }, p8)),
                                },
                            },
                        },
                    },
                },
            },
        },
    }
}

/// A successful item consumes at least one token.
pub proof fn lemma_items_advance(t: Seq<TokenV>, pos: int)
    requires
        0 <= pos,
    ensures
        spec_sort(t, pos) matches Ok((_, p)) ==> pos < p <= t.len(),
        spec_relation(t, pos) matches Ok((_, p)) ==> pos < p <= t.len(),
        spec_law(t, pos) matches Ok((_, p)) ==> pos < p <= t.len(),
{
    lemma_fields_bounds(t, pos + 3, seq![]);
    lemma_fields_bounds(t, pos + 2, seq![]);
    lemma_params_bounds(t, pos + 3, seq![]);
    lemma_params_bounds(t, pos + 4, seq![]);
    lemma_args_bounds(t, pos + 3, seq![]);
    if let Ok(p1) = spec_expect(t, pos, TokV::Law) {
        if let Ok((_, p2)) = spec_ident(t, p1) {
            if let Ok(p3) = spec_expect(t, p2, TokV::LParen) {
                if let Ok((_, p4)) = spec_args(t, p3, seq![]) {
                    if let Ok(p5) = spec_expect(t, p4, TokV::RParen) {
                        if let Ok(p6) = spec_expect(t, p5, TokV::LBrace) {
                            lemma_clauses_bounds(t, p6, seq![]);
                        }
                    }
                }
            }
        }
    }
}

pub proof fn lemma_fields_bounds(t: Seq<TokenV>, pos: int, acc: Seq<FieldV>)
    requires
        0 <= pos,
    ensures
        spec_fields(t, pos, acc) matches Ok((_, p)) ==> pos <= p && (pos <= t.len() ==> p <= t.len()),
    decreases t.len() - pos,
{
    if peek(t, pos) == Some(TokV::RBrace) {
    } else if let Ok((name, p1)) = spec_ident(t, pos) {
        if let Ok(p2) = spec_expect(t, p1, TokV::Colon) {
            if let Ok((ty, p3)) = spec_ident(t, p2) {
                if peek(t, p3) == Some(TokV::Comma) {
                    lemma_fields_bounds(t, p3 + 1, acc.push(FieldV { name, ty: ty_of_name(ty) }));
                }
            }
        }
    }
}

pub proof fn lemma_params_bounds(t: Seq<TokenV>, pos: int, acc: Seq<ParamV>)
    requires
        0 <= pos,
    ensures
        spec_params(t, pos, acc) matches Ok((_, p)) ==> pos <= p && (pos <= t.len() ==> p <= t.len()),
    decreases t.len() - pos,
{
    if peek(t, pos) == Some(TokV::RParen) {
    } else if let Ok((name, p1)) = spec_ident(t, pos) {
        if let Ok(p2) = spec_expect(t, p1, TokV::Colon) {
            if let Ok((sort, p3)) = spec_ident(t, p2) {
                if peek(t, p3) == Some(TokV::Comma) {
                    lemma_params_bounds(t, p3 + 1, acc.push(ParamV { name, sort }));
                }
            }
        }
    }
}

pub proof fn lemma_args_bounds(t: Seq<TokenV>, pos: int, acc: Seq<Seq<char>>)
    requires
        0 <= pos,
    ensures
        spec_args(t, pos, acc) matches Ok((_, p)) ==> pos <= p && (pos <= t.len() ==> p <= t.len()),
    decreases t.len() - pos,
{
    if peek(t, pos) == Some(TokV::RParen) {
    } else if let Ok((name, p1)) = spec_ident(t, pos) {
        if peek(t, p1) == Some(TokV::Comma) {
            lemma_args_bounds(t, p1 + 1, acc.push(name));
        }
    }
}

pub proof fn lemma_clauses_bounds(t: Seq<TokenV>, pos: int, acc: Seq<ClauseV>)
    requires
        0 <= pos,
    ensures
        spec_clauses(t, pos, acc) matches Ok((_, p)) ==> pos <= p && (pos <= t.len() ==> p <= t.len()),
    decreases t.len() - pos,
{
    if peek(t, pos) == Some(TokV::RBrace) {
    } else if let Ok((c, p1)) = spec_clause(t, pos) {
        lemma_clause_advances(t, pos);
        lemma_clauses_bounds(t, p1, acc.push(c));
    }
}

/// The items from `pos` to the end of input, added to `acc`.
pub open spec fn spec_items(t: Seq<TokenV>, pos: int, acc: SpecV) -> Result<SpecV, ParseError>
    decreases t.len() - pos,
{
    if pos < 0 {
        Ok(acc)
    } else {
        match peek(t, pos) {
            None => Ok(acc),
            Some(TokV::Sort) => match spec_sort(t, pos) {
                Err(e) => Err(e),
                Ok((s, p)) => {
                    proof {
                        lemma_items_advance(t, pos);
                    }
                    spec_items(t, p, SpecV { sorts: acc.sorts.push(s), ..acc })
                },
            },
            Some(TokV::Relation) | Some(TokV::Forbidden) => match spec_relation(t, pos) {
                Err(e) => Err(e),
                Ok((r, p)) => {
                    proof {
                        lemma_items_advance(t, pos);
                    }
                    spec_items(t, p, SpecV { relations: acc.relations.push(r), ..acc })
                },
            },
            Some(TokV::Law) => match spec_law(t, pos) {
                Err(e) => Err(e),
                Ok((l, p)) => {
                    proof {
                        lemma_items_advance(t, pos);
                    }
                    spec_items(t, p, SpecV { laws: acc.laws.push(l), ..acc })
                },
            },
            Some(other) => Err(ParseError::ExpectedItem { line: line_at(t, pos), found: other }),
        }
    }
}

/// The spec a whole token list parses to.
pub open spec fn spec_parse_tokens(t: Seq<TokenV>) -> Result<SpecV, ParseError> {
    spec_items(t, 0, SpecV { sorts: seq![], relations: seq![], laws: seq![] })
}

/// Why a source text failed to become a spec: lexing or parsing.
pub enum SourceError {
    Lex(crate::lexer::LexError),
    Parse(ParseError),
}

/// The spec a source text denotes, or the first error.
pub open spec fn spec_parse(src: Seq<char>) -> Result<SpecV, SourceError> {
    match lex(src) {
        Err(e) => Err(SourceError::Lex(e)),
        Ok(t) => match spec_parse_tokens(t) {
            Err(e) => Err(SourceError::Parse(e)),
            Ok(s) => Ok(s),
        },
    }
}

/// The message reported for a source error.
pub open spec fn source_error_message(e: SourceError) -> Seq<char> {
    match e {
        SourceError::Lex(l) => lex_error_message(l),
        SourceError::Parse(p) => parse_error_message(p),
    }
}

/// A parser's outcome agrees with its specification: the same node and end
/// position on success, the rendered error on failure.
pub open spec fn agrees<T: View>(r: Result<T, String>, s: Result<(T::V, int), ParseError>, pos: int) -> bool {
    match (r, s) {
        (Ok(v), Ok((sv, p))) => v@ == sv && pos == p,
        (Err(m), Err(e)) => m@ == parse_error_message(e),
        _ => false,
    }
}

/// Whether two tokens have the same model.
fn tok_eq(a: &Tok, b: &Tok) -> (r: bool)
    ensures
        r == (a@ == b@),
{
    match (a, b) {
        (Tok::Sort, Tok::Sort) => true,
        (Tok::Relation, Tok::Relation) => true,
        (Tok::Law, Tok::Law) => true,
        (Tok::Forbidden, Tok::Forbidden) => true,
        (Tok::LBrace, Tok::LBrace) => true,
        (Tok::RBrace, Tok::RBrace) => true,
        (Tok::LParen, Tok::LParen) => true,
        (Tok::RParen, Tok::RParen) => true,
        (Tok::Comma, Tok::Comma) => true,
        (Tok::Dot, Tok::Dot) => true,
        (Tok::Colon, Tok::Colon) => true,
        (Tok::EqEq, Tok::EqEq) => true,
        (Tok::Le, Tok::Le) => true,
        (Tok::Lt, Tok::Lt) => true,
        (Tok::Ge, Tok::Ge) => true,
        (Tok::Gt, Tok::Gt) => true,
        (Tok::FatArrow, Tok::FatArrow) => true,
        (Tok::Ident(x), Tok::Ident(y)) => *x == *y,
        (Tok::Int(x), Tok::Int(y)) => *x == *y,
        _ => false,
    }
}

/// Appends the debug rendering of a token kind.
fn push_tok_debug(m: &mut String, t: &Tok)
    ensures
        final(m)@ == old(m)@ + tok_debug(t@),
{
    match t {
        Tok::Sort => push_str(m, "Sort"),
        Tok::Relation => push_str(m, "Relation"),
        Tok::Law => push_str(m, "Law"),
        Tok::Forbidden => push_str(m, "Forbidden"),
        Tok::Ident(w) => {
            push_str(m, "Ident(");
            let d = debug_str(w.as_str());
            push_str(m, d.as_str());
            push_str(m, ")");
            assert(final(m)@ =~= old(m)@ + tok_debug(t@));
        },
        Tok::Int(v) => {
            push_str(m, "Int(");
            push_i64(m, *v);
            push_str(m, ")");
            assert(final(m)@ =~= old(m)@ + tok_debug(t@));
        },
        Tok::LBrace => push_str(m, "LBrace"),
        Tok::RBrace => push_str(m, "RBrace"),
        Tok::LParen => push_str(m, "LParen"),
        Tok::RParen => push_str(m, "RParen"),
        Tok::Comma => push_str(m, "Comma"),
        Tok::Dot => push_str(m, "Dot"),
        Tok::Colon => push_str(m, "Colon"),
        Tok::EqEq => push_str(m, "EqEq"),
        Tok::Le => push_str(m, "Le"),
        Tok::Lt => push_str(m, "Lt"),
        Tok::Ge => push_str(m, "Ge"),
        Tok::Gt => push_str(m, "Gt"),
        Tok::FatArrow => push_str(m, "FatArrow"),
    }
}

/// Parser state: the tokens and the position of the next one.
struct Parser {
    toks: Vec<Token>,
    pos: usize,
}

impl Parser {
    /// The token models.
    spec fn tv(&self) -> Seq<TokenV> {
        tokens_view(self.toks@)
    }

    fn new(toks: Vec<Token>) -> (p: Self)
        ensures
            p.toks@ == toks@,
            p.pos == 0,
    {
        Parser { toks, pos: 0 }
    }

    /// The current token kind, if any.
    fn peek(&self) -> (r: Option<&Tok>)
        ensures
            r is Some <==> self.pos < self.toks.len(),
            match r {
                Some(t) => peek(self.tv(), self.pos as int) == Some(t@),
                None => peek(self.tv(), self.pos as int) is None,
            },
    {
        if self.pos < self.toks.len() {
            Some(&self.toks[self.pos].tok)
        } else {
            None
        }
    }

    /// Whether the current token is `want`.
    fn peek_is(&self, want: &Tok) -> (b: bool)
        ensures
            b == (peek(self.tv(), self.pos as int) == Some(want@)),
            b ==> self.pos < self.toks.len(),
    {
        match self.peek() {
            Some(t) => tok_eq(t, want),
            None => false,
        }
    }

    /// The line of the current token, or of the last token at the end.
    fn line(&self) -> (l: usize)
        ensures
            l as nat == line_at(self.tv(), self.pos as int),
    {
        if self.pos < self.toks.len() {
            self.toks[self.pos].line
        } else if self.toks.len() > 0 {
            self.toks[self.toks.len() - 1].line
        } else {
            0
        }
    }

    /// Steps past the current token, if any.
    fn bump(&mut self)
        requires
            old(self).pos <= old(self).toks@.len(),
        ensures
            final(self).toks@ == old(self).toks@,
            final(self).pos == if old(self).pos < old(self).toks@.len() {
                old(self).pos + 1
            } else {
                old(self).pos as int
            },
    {
        if self.pos < self.toks.len() {
            self.pos = self.pos + 1;
        }
    }

    /// Appends the debug rendering of the current token, as an option.
    fn push_found(&self, m: &mut String)
        ensures
            final(m)@ == old(m)@ + opt_tok_debug(peek(self.tv(), self.pos as int)),
    {
        match self.peek() {
            Some(t) => {
                push_str(m, "Some(");
                push_tok_debug(m, t);
                push_str(m, ")");
                assert(final(m)@ =~= old(m)@ + opt_tok_debug(peek(self.tv(), self.pos as int)));
            },
            None => push_str(m, "None"),
        }
    }

    /// Starts an error message: `line N: expected `.
    fn start_error(&self) -> (m: String)
        ensures
            m@ == "line "@ + nat_decimal(line_at(self.tv(), self.pos as int)) + ": expected "@,
    {
        let mut m = String::new();
        push_str(&mut m, "line ");
        push_usize(&mut m, self.line());
        push_str(&mut m, ": expected ");
        m
    }

    /// Consumes a token that must be `expected`.
    fn expect(&mut self, expected: Tok) -> (r: Result<(), String>)
        requires
            old(self).pos <= old(self).toks@.len(),
        ensures
            final(self).toks@ == old(self).toks@,
            final(self).pos <= final(self).toks@.len(),
            r is Err ==> final(self).pos == old(self).pos,
            match (r, spec_expect(old(self).tv(), old(self).pos as int, expected@)) {
                (Ok(_), Ok(p)) => final(self).pos == p,
                (Err(m), Err(e)) => m@ == parse_error_message(e),
                _ => false,
            },
    {
        if self.peek_is(&expected) {
            self.pos = self.pos + 1;
            Ok(())
        } else {
            let mut m = self.start_error();
            push_tok_debug(&mut m, &expected);
            push_str(&mut m, ", found ");
            self.push_found(&mut m);
            assert(m@ =~= parse_error_message(
                ParseError::ExpectedTok {
                    line: line_at(self.tv(), self.pos as int),
                    want: expected@,
                    found: peek(self.tv(), self.pos as int),
                },
            ));
            Err(m)
        }
    }

    /// Consumes a name and returns its text.
    fn expect_ident(&mut self) -> (r: Result<String, String>)
        requires
            old(self).pos <= old(self).toks@.len(),
        ensures
            final(self).toks@ == old(self).toks@,
            final(self).pos <= final(self).toks@.len(),
            r is Err ==> final(self).pos == old(self).pos,
            agrees(r, spec_ident(old(self).tv(), old(self).pos as int), final(self).pos as int),
    {
        match self.peek() {
            Some(Tok::Ident(name)) => {
                let name = name.clone();
                self.pos = self.pos + 1;
                Ok(name)
            },
            _ => {
                let mut m = self.start_error();
                push_str(&mut m, "a name, found ");
                self.push_found(&mut m);
                assert(m@ =~= parse_error_message(
                    ParseError::ExpectedName {
                        line: line_at(self.tv(), self.pos as int),
                        found: peek(self.tv(), self.pos as int),
                    },
                ));
                Err(m)
            },
        }
    }

    /// Parses an expression: an integer literal, a name, or `name.field`.
    fn parse_expr(&mut self) -> (r: Result<Expr, String>)
        requires
            old(self).pos <= old(self).toks@.len(),
        ensures
            final(self).toks@ == old(self).toks@,
            final(self).pos <= final(self).toks@.len(),
            agrees(r, spec_expr(old(self).tv(), old(self).pos as int), final(self).pos as int),
    {
        match self.peek() {
            Some(Tok::Int(value)) => {
                let v = *value;
                self.bump();
                Ok(Expr::Int(v))
            },
            Some(Tok::Ident(name)) => {
                let name = name.clone();
                self.bump();
                if self.peek_is(&Tok::Dot) {
                    self.bump();
                    match self.expect_ident() {
                        Ok(field) => Ok(Expr::Field { arg: name, field }),
                        Err(e) => Err(e),
                    }
                } else {
                    Ok(Expr::Arg(name))
                }
            },
            _ => {
                let mut m = self.start_error();
                push_str(&mut m, "an expression, found ");
                self.push_found(&mut m);
                assert(m@ =~= parse_error_message(
                    ParseError::ExpectedExpr {
                        line: line_at(self.tv(), self.pos as int),
                        found: peek(self.tv(), self.pos as int),
                    },
                ));
                Err(m)
            },
        }
    }

    /// Parses a comparison operator.
    fn parse_op(&mut self) -> (r: Result<CmpOp, String>)
        requires
            old(self).pos <= old(self).toks@.len(),
        ensures
            final(self).toks@ == old(self).toks@,
            final(self).pos <= final(self).toks@.len(),
            r is Err ==> final(self).pos == old(self).pos,
            agrees(r, spec_op(old(self).tv(), old(self).pos as int), final(self).pos as int),
    {
        let op = match self.peek() {
            Some(Tok::EqEq) => CmpOp::Eq,
            Some(Tok::Le) => CmpOp::Le,
            Some(Tok::Lt) => CmpOp::Lt,
            Some(Tok::Ge) => CmpOp::Ge,
            Some(Tok::Gt) => CmpOp::Gt,
            _ => {
                let mut m = self.start_error();
                push_str(&mut m, "a comparison operator, found ");
                self.push_found(&mut m);
                assert(m@ =~= parse_error_message(
                    ParseError::ExpectedOp {
                        line: line_at(self.tv(), self.pos as int),
                        found: peek(self.tv(), self.pos as int),
                    },
                ));
                return Err(m);
            },
        };
        self.bump();
        Ok(op)
    }

    /// Parses `expr op expr`.
    fn parse_pred(&mut self) -> (r: Result<Pred, String>)
        requires
            old(self).pos <= old(self).toks@.len(),
        ensures
            final(self).toks@ == old(self).toks@,
            final(self).pos <= final(self).toks@.len(),
            agrees(r, spec_pred(old(self).tv(), old(self).pos as int), final(self).pos as int),
    {
        let line = self.line();
        let lhs = match self.parse_expr() {
            Ok(e) => e,
            Err(m) => return Err(m),
        };
        let op = match self.parse_op() {
            Ok(o) => o,
            Err(m) => return Err(m),
        };
        let rhs = match self.parse_expr() {
            Ok(e) => e,
            Err(m) => return Err(m),
        };
        Ok(Pred { lhs, op, rhs, line })
    }

    /// Parses a comparison, optionally followed by `=> comparison`.
    fn parse_clause(&mut self) -> (r: Result<Clause, String>)
        requires
            old(self).pos <= old(self).toks@.len(),
        ensures
            final(self).toks@ == old(self).toks@,
            final(self).pos <= final(self).toks@.len(),
            agrees(r, spec_clause(old(self).tv(), old(self).pos as int), final(self).pos as int),
    {
        let line = self.line();
        let first = match self.parse_pred() {
            Ok(p) => p,
            Err(m) => return Err(m),
        };
        if self.peek_is(&Tok::FatArrow) {
            self.bump();
            let cons = match self.parse_pred() {
                Ok(p) => p,
                Err(m) => return Err(m),
            };
            Ok(Clause::Implies { ante: first, cons, line })
        } else {
            Ok(Clause::Compare(first))
        }
    }

    /// Parses `sort Name` with an optional `{ fields }` body.
    #[verifier::loop_isolation(false)]
    fn parse_sort(&mut self) -> (r: Result<Sort, String>)
        requires
            old(self).pos <= old(self).toks@.len(),
        ensures
            final(self).toks@ == old(self).toks@,
            final(self).pos <= final(self).toks@.len(),
            agrees(r, spec_sort(old(self).tv(), old(self).pos as int), final(self).pos as int),
    {
        let line = self.line();
        match self.expect(Tok::Sort) {
            Ok(_) => {},
            Err(m) => return Err(m),
        }
        let name = match self.expect_ident() {
            Ok(n) => n,
            Err(m) => return Err(m),
        };
        let mut fields: Vec<Field> = Vec::new();
        if self.peek_is(&Tok::LBrace) {
            self.bump();
            let ghost t = self.tv();
            let ghost p0 = self.pos as int;
            let mut more = true;
            assert(fields_view(fields@) =~= seq![]);
            while more && !self.peek_is(&Tok::RBrace)
                invariant
                    self.toks@ == old(self).toks@,
                    t == self.tv(),
                    self.pos <= self.toks@.len(),
                    p0 <= self.pos,
                    spec_fields(t, p0, seq![]) == if more {
                        spec_fields(t, self.pos as int, fields_view(fields@))
                    } else {
                        Ok((fields_view(fields@), self.pos as int))
                    },
                decreases self.toks@.len() - self.pos,
            {
                let ghost acc = fields_view(fields@);
                let field_name = match self.expect_ident() {
                    Ok(n) => n,
                    Err(m) => return Err(m),
                };
                match self.expect(Tok::Colon) {
                    Ok(_) => {},
                    Err(m) => return Err(m),
                }
                let ty_name = match self.expect_ident() {
                    Ok(n) => n,
                    Err(m) => return Err(m),
                };
                let ty = if ty_name == String::from_str("Int") {
                    Ty::Int
                } else {
                    Ty::Sort(ty_name)
                };
                let field = Field { name: field_name, ty };
                assert(field@.ty == ty_of_name(ty_name@));
                fields.push(field);
                assert(fields_view(fields@) =~= acc.push(field@));
                if self.peek_is(&Tok::Comma) {
                    self.bump();
                } else {
                    more = false;
                }
            }
            match self.expect(Tok::RBrace) {
                Ok(_) => {},
                Err(m) => return Err(m),
            }
        }
        Ok(Sort { name, fields, line })
    }

    /// Parses `forbidden`? `relation Name(params)`.
    #[verifier::loop_isolation(false)]
    fn parse_relation(&mut self) -> (r: Result<Relation, String>)
        requires
            old(self).pos <= old(self).toks@.len(),
        ensures
            final(self).toks@ == old(self).toks@,
            final(self).pos <= final(self).toks@.len(),
            agrees(r, spec_relation(old(self).tv(), old(self).pos as int), final(self).pos as int),
    {
        let line = self.line();
        let forbidden = self.peek_is(&Tok::Forbidden);
        if forbidden {
            self.bump();
        }
        match self.expect(Tok::Relation) {
            Ok(_) => {},
            Err(m) => return Err(m),
        }
        let name = match self.expect_ident() {
            Ok(n) => n,
            Err(m) => return Err(m),
        };
        match self.expect(Tok::LParen) {
            Ok(_) => {},
            Err(m) => return Err(m),
        }
        let mut params: Vec<Param> = Vec::new();
        let ghost t = self.tv();
        let ghost p0 = self.pos as int;
        let mut more = true;
        assert(params_view(params@) =~= seq![]);
        while more && !self.peek_is(&Tok::RParen)
            invariant
                self.toks@ == old(self).toks@,
                t == self.tv(),
                self.pos <= self.toks@.len(),
                p0 <= self.pos,
                spec_params(t, p0, seq![]) == if more {
                    spec_params(t, self.pos as int, params_view(params@))
                } else {
                    Ok((params_view(params@), self.pos as int))
                },
            decreases self.toks@.len() - self.pos,
        {
            let ghost acc = params_view(params@);
            let pname = match self.expect_ident() {
                Ok(n) => n,
                Err(m) => return Err(m),
            };
            match self.expect(Tok::Colon) {
                Ok(_) => {},
                Err(m) => return Err(m),
            }
            let psort = match self.expect_ident() {
                Ok(n) => n,
                Err(m) => return Err(m),
            };
            let param = Param { name: pname, sort: psort };
            params.push(param);
            assert(params_view(params@) =~= acc.push(param@));
            if self.peek_is(&Tok::Comma) {
                self.bump();
            } else {
                more = false;
            }
        }
        match self.expect(Tok::RParen) {
            Ok(_) => {},
            Err(m) => return Err(m),
        }
        Ok(Relation { name, params, line, forbidden })
    }

    /// Parses `law Relation(args) { clauses }`.
    #[verifier::loop_isolation(false)]
    fn parse_law(&mut self) -> (r: Result<Law, String>)
        requires
            old(self).pos <= old(self).toks@.len(),
        ensures
            final(self).toks@ == old(self).toks@,
            final(self).pos <= final(self).toks@.len(),
            agrees(r, spec_law(old(self).tv(), old(self).pos as int), final(self).pos as int),
    {
        let line = self.line();
        match self.expect(Tok::Law) {
            Ok(_) => {},
            Err(m) => return Err(m),
        }
        let relation = match self.expect_ident() {
            Ok(n) => n,
            Err(m) => return Err(m),
        };
        match self.expect(Tok::LParen) {
            Ok(_) => {},
            Err(m) => return Err(m),
        }
        let mut args: Vec<String> = Vec::new();
        let ghost t = self.tv();
        let ghost p0 = self.pos as int;
        let mut more = true;
        assert(strings_view(args@) =~= seq![]);
        while more && !self.peek_is(&Tok::RParen)
            invariant
                self.toks@ == old(self).toks@,
                t == self.tv(),
                self.pos <= self.toks@.len(),
                p0 <= self.pos,
                spec_args(t, p0, seq![]) == if more {
                    spec_args(t, self.pos as int, strings_view(args@))
                } else {
                    Ok((strings_view(args@), self.pos as int))
                },
            decreases self.toks@.len() - self.pos,
        {
            let ghost acc = strings_view(args@);
            let a = match self.expect_ident() {
                Ok(n) => n,
                Err(m) => return Err(m),
            };
            let ghost av = a@;
            args.push(a);
            assert(strings_view(args@) =~= acc.push(av));
            if self.peek_is(&Tok::Comma) {
                self.bump();
            } else {
                more = false;
            }
        }
        match self.expect(Tok::RParen) {
            Ok(_) => {},
            Err(m) => return Err(m),
        }
        match self.expect(Tok::LBrace) {
            Ok(_) => {},
            Err(m) => return Err(m),
        }
        let mut clauses: Vec<Clause> = Vec::new();
        let ghost p1 = self.pos as int;
        assert(clauses_view(clauses@) =~= seq![]);
        while !self.peek_is(&Tok::RBrace)
            invariant
                self.toks@ == old(self).toks@,
                t == self.tv(),
                self.pos <= self.toks@.len(),
                spec_clauses(t, p1, seq![]) == spec_clauses(
                    t,
                    self.pos as int,
                    clauses_view(clauses@),
                ),
            decreases self.toks@.len() - self.pos,
        {
            let ghost acc = clauses_view(clauses@);
            proof {
                lemma_clause_advances(t, self.pos as int);
            }
            let c = match self.parse_clause() {
                Ok(c) => c,
                Err(m) => return Err(m),
            };
            let ghost cv = c@;
            clauses.push(c);
            assert(clauses_view(clauses@) =~= acc.push(cv));
        }
        match self.expect(Tok::RBrace) {
            Ok(_) => {},
            Err(m) => return Err(m),
        }
        Ok(Law { relation, args, clauses, line })
    }

    /// Parses items up to the end of input.
    #[verifier::loop_isolation(false)]
    fn parse_spec(&mut self) -> (r: Result<Spec, String>)
        requires
            old(self).pos == 0,
        ensures
            match (r, spec_parse_tokens(old(self).tv())) {
                (Ok(s), Ok(sv)) => s@ == sv,
                (Err(m), Err(e)) => m@ == parse_error_message(e),
                _ => false,
            },
    {
        let mut spec = Spec { sorts: Vec::new(), relations: Vec::new(), laws: Vec::new() };
        let ghost t = self.tv();
        assert(sorts_view(spec.sorts@) =~= seq![]);
        assert(relations_view(spec.relations@) =~= seq![]);
        assert(laws_view(spec.laws@) =~= seq![]);
        while self.pos < self.toks.len()
            invariant
                self.toks@ == old(self).toks@,
                t == self.tv(),
                self.pos <= self.toks@.len(),
                spec_parse_tokens(t) == spec_items(t, self.pos as int, spec@),
            decreases self.toks@.len() - self.pos,
        {
            let ghost acc = spec@;
            proof {
                lemma_items_advance(t, self.pos as int);
            }
            if self.peek_is(&Tok::Sort) {
                match self.parse_sort() {
                    Ok(s) => {
                        let ghost sv = s@;
                        spec.sorts.push(s);
                        assert(sorts_view(spec.sorts@) =~= acc.sorts.push(sv));
                    },
                    Err(m) => return Err(m),
                }
            } else if self.peek_is(&Tok::Relation) || self.peek_is(&Tok::Forbidden) {
                match self.parse_relation() {
                    Ok(r) => {
                        let ghost rv = r@;
                        spec.relations.push(r);
                        assert(relations_view(spec.relations@) =~= acc.relations.push(rv));
                    },
                    Err(m) => return Err(m),
                }
            } else if self.peek_is(&Tok::Law) {
                match self.parse_law() {
                    Ok(l) => {
                        let ghost lv = l@;
                        spec.laws.push(l);
                        assert(laws_view(spec.laws@) =~= acc.laws.push(lv));
                    },
                    Err(m) => return Err(m),
                }
            } else {
                let mut m = self.start_error();
                push_str(&mut m, "`sort`, `relation`, or `law`, found ");
                push_tok_debug(&mut m, &self.toks[self.pos].tok);
                assert(m@ =~= parse_error_message(
                    ParseError::ExpectedItem {
                        line: line_at(t, self.pos as int),
                        found: t[self.pos as int].tok,
                    },
                ));
                return Err(m);
            }
        }
        Ok(spec)
    }
}

/// Lexes and parses a source string into a [`Spec`].
///
/// Fails with the lexer's message, or with a parse error that names the line
/// it stopped on.
pub fn parse(src: &str) -> (r: Result<Spec, String>)
    requires
        src@.len() < usize::MAX,
    ensures
        match (r, spec_parse(src@)) {
            (Ok(s), Ok(sv)) => s@ == sv,
            (Err(m), Err(e)) => m@ == source_error_message(e),
            _ => false,
        },
{
    let tokens = match tokenize(src) {
        Ok(t) => t,
        Err(m) => return Err(m),
    };
    let mut p = Parser::new(tokens);
    p.parse_spec()
}

/// Every error a source text can produce names a line: its message starts
/// with `line N`.
pub proof fn law_errors_name_a_line(src: Seq<char>)
    ensures
        spec_parse(src) matches Err(e) ==> exists|n: nat, rest: Seq<char>|
            source_error_message(e) == "line "@ + nat_decimal(n) + rest,
{
    if let Err(e) = spec_parse(src) {
        match e {
            SourceError::Lex(l) => match l {
                crate::lexer::LexError::InvalidInt { line, text } => {
                    let rest = ": invalid integer `"@ + text + "`"@;
                    assert(source_error_message(e) == "line "@ + nat_decimal(line) + rest);
                },
                crate::lexer::LexError::Unexpected { line, c } => {
                    let rest = ": unexpected character `"@ + seq![c] + "`"@;
                    assert(source_error_message(e) == "line "@ + nat_decimal(line) + rest);
                },
            },
            SourceError::Parse(p) => {
                let n = parse_error_line(p);
                let rest = parse_error_message(p).subrange(
                    ("line "@ + nat_decimal(n)).len() as int,
                    parse_error_message(p).len() as int,
                );
                assert(parse_error_message(p) =~= "line "@ + nat_decimal(n) + rest);
            },
        }
    }
}

/// A token kind that starts an item: `sort`, `relation`, `law` or `forbidden`.
pub open spec fn is_item_keyword(k: TokV) -> bool {
    k is Sort || k is Relation || k is Law || k is Forbidden
}

/// No token among `t[a..b]` starts an item.
pub open spec fn no_item_keyword(t: Seq<TokenV>, a: int, b: int) -> bool {
    forall|q: int| a <= q < b ==> !is_item_keyword(#[trigger] t[q].tok)
}

/// The lines of the tokens of kind `kw` among `t[..k]`, in order.
pub open spec fn keyword_lines(t: Seq<TokenV>, kw: TokV, k: int) -> Seq<nat>
    decreases k,
{
    if k <= 0 {
        seq![]
    } else if t[k - 1].tok == kw {
        keyword_lines(t, kw, k - 1).push(t[k - 1].line)
    } else {
        keyword_lines(t, kw, k - 1)
    }
}

/// For each `relation` token among `t[..k]`, in order: the line its item
/// starts on and whether `forbidden` comes just before it.
pub open spec fn relation_heads(t: Seq<TokenV>, k: int) -> Seq<(nat, bool)>
    decreases k,
{
    if k <= 0 {
        seq![]
    } else if t[k - 1].tok == TokV::Relation {
        let f = k >= 2 && t[k - 2].tok == TokV::Forbidden;
        relation_heads(t, k - 1).push((if f { t[k - 2].line } else { t[k - 1].line }, f))
    } else {
        relation_heads(t, k - 1)
    }
}

/// The lines of a list of sorts.
pub open spec fn sort_lines(v: Seq<SortV>) -> Seq<nat> {
    v.map_values(|x: SortV| x.line)
}

/// The lines of a list of laws.
pub open spec fn law_lines(v: Seq<LawV>) -> Seq<nat> {
    v.map_values(|x: LawV| x.line)
}

/// The line and the `forbidden` flag of each of a list of relations.
pub open spec fn relation_marks(v: Seq<RelationV>) -> Seq<(nat, bool)> {
    v.map_values(|x: RelationV| (x.line, x.forbidden))
}

proof fn lemma_plain_join(t: Seq<TokenV>, a: int, b: int, c: int)
    requires
        no_item_keyword(t, a, b),
        no_item_keyword(t, b, c),
    ensures
        no_item_keyword(t, a, c),
{
    assert forall|q: int| a <= q < c implies !is_item_keyword(#[trigger] t[q].tok) by {
        if q < b {
            assert(!is_item_keyword(t[q].tok));
        } else {
            assert(!is_item_keyword(t[q].tok));
        }
    }
}

proof fn lemma_fields_plain(t: Seq<TokenV>, pos: int, acc: Seq<FieldV>)
    requires
        0 <= pos,
    ensures
        spec_fields(t, pos, acc) matches Ok((_, p)) ==> no_item_keyword(t, pos, p),
    decreases t.len() - pos,
{
    if peek(t, pos) == Some(TokV::RBrace) {
    } else if let Ok((name, p1)) = spec_ident(t, pos) {
        if let Ok(p2) = spec_expect(t, p1, TokV::Colon) {
            if let Ok((ty, p3)) = spec_ident(t, p2) {
                assert(no_item_keyword(t, pos, p3));
                if peek(t, p3) == Some(TokV::Comma) {
                    lemma_fields_plain(t, p3 + 1, acc.push(FieldV { name, ty: ty_of_name(ty) }));
                    if let Ok((_, p)) = spec_fields(t, pos, acc) {
                        assert(no_item_keyword(t, pos, p3 + 1));
                        lemma_plain_join(t, pos, p3 + 1, p);
                    }
                }
            }
        }
    }
}

proof fn lemma_params_plain(t: Seq<TokenV>, pos: int, acc: Seq<ParamV>)
    requires
        0 <= pos,
    ensures
        spec_params(t, pos, acc) matches Ok((_, p)) ==> no_item_keyword(t, pos, p),
    decreases t.len() - pos,
{
    if peek(t, pos) == Some(TokV::RParen) {
    } else if let Ok((name, p1)) = spec_ident(t, pos) {
        if let Ok(p2) = spec_expect(t, p1, TokV::Colon) {
            if let Ok((sort, p3)) = spec_ident(t, p2) {
                assert(no_item_keyword(t, pos, p3));
                if peek(t, p3) == Some(TokV::Comma) {
                    lemma_params_plain(t, p3 + 1, acc.push(ParamV { name, sort }));
                    if let Ok((_, p)) = spec_params(t, pos, acc) {
                        assert(no_item_keyword(t, pos, p3 + 1));
                        lemma_plain_join(t, pos, p3 + 1, p);
                    }
                }
            }
        }
    }
}

proof fn lemma_args_plain(t: Seq<TokenV>, pos: int, acc: Seq<Seq<char>>)
    requires
        0 <= pos,
    ensures
        spec_args(t, pos, acc) matches Ok((_, p)) ==> no_item_keyword(t, pos, p),
    decreases t.len() - pos,
{
    if peek(t, pos) == Some(TokV::RParen) {
    } else if let Ok((name, p1)) = spec_ident(t, pos) {
        assert(no_item_keyword(t, pos, p1));
        if peek(t, p1) == Some(TokV::Comma) {
            lemma_args_plain(t, p1 + 1, acc.push(name));
            if let Ok((_, p)) = spec_args(t, pos, acc) {
                assert(no_item_keyword(t, pos, p1 + 1));
                lemma_plain_join(t, pos, p1 + 1, p);
            }
        }
    }
}

proof fn lemma_pred_plain(t: Seq<TokenV>, pos: int)
    requires
        0 <= pos,
    ensures
        spec_pred(t, pos) matches Ok((_, p)) ==> no_item_keyword(t, pos, p),
{
    if let Ok((_, p1)) = spec_expr(t, pos) {
        assert(no_item_keyword(t, pos, p1));
        if let Ok((_, p2)) = spec_op(t, p1) {
            if let Ok((_, p3)) = spec_expr(t, p2) {
                assert(no_item_keyword(t, p2, p3));
                lemma_plain_join(t, pos, p1, p2);
                lemma_plain_join(t, pos, p2, p3);
            }
        }
    }
}

proof fn lemma_clauses_plain(t: Seq<TokenV>, pos: int, acc: Seq<ClauseV>)
    requires
        0 <= pos,
    ensures
        spec_clauses(t, pos, acc) matches Ok((_, p)) ==> no_item_keyword(t, pos, p),
    decreases t.len() - pos,
{
    if peek(t, pos) == Some(TokV::RBrace) {
    } else if let Ok((c, p1)) = spec_clause(t, pos) {
        lemma_clause_advances(t, pos);
        lemma_pred_plain(t, pos);
        if let Ok((_, q1)) = spec_pred(t, pos) {
            if peek(t, q1) == Some(TokV::FatArrow) {
                lemma_pred_plain(t, q1 + 1);
                assert(no_item_keyword(t, q1, q1 + 1));
                lemma_plain_join(t, pos, q1, q1 + 1);
                lemma_plain_join(t, pos, q1 + 1, p1);
            }
        }
        assert(no_item_keyword(t, pos, p1));
        lemma_clauses_plain(t, p1, acc.push(c));
        if let Ok((_, p)) = spec_clauses(t, pos, acc) {
            lemma_plain_join(t, pos, p1, p);
        }
    }
}

proof fn lemma_sort_item(t: Seq<TokenV>, pos: int)
    requires
        0 <= pos,
    ensures
        spec_sort(t, pos) matches Ok((so, p)) ==> pos + 1 < p <= t.len() && t[pos].tok == TokV::Sort
            && so.line == t[pos].line && no_item_keyword(t, pos + 1, p),
{
    lemma_items_advance(t, pos);
    lemma_fields_plain(t, pos + 3, seq![]);
    lemma_fields_bounds(t, pos + 3, seq![]);
    if let Ok((so, p)) = spec_sort(t, pos) {
        assert(no_item_keyword(t, pos + 1, pos + 2));
        if peek(t, pos + 2) == Some(TokV::LBrace) {
            let p3 = spec_fields(t, pos + 3, seq![])->Ok_0.1;
            assert(no_item_keyword(t, pos + 2, pos + 3));
            assert(no_item_keyword(t, p3, p3 + 1));
            lemma_plain_join(t, pos + 1, pos + 2, pos + 3);
            lemma_plain_join(t, pos + 1, pos + 3, p3);
            lemma_plain_join(t, pos + 1, p3, p3 + 1);
        }
    }
}

proof fn lemma_relation_item(t: Seq<TokenV>, pos: int)
    requires
        0 <= pos,
    ensures
        spec_relation(t, pos) matches Ok((r, p)) ==> {
            let f = t[pos].tok == TokV::Forbidden;
            let h = if f {
                pos + 1
            } else {
                pos
            };
            &&& h + 1 < p <= t.len()
            &&& t[h].tok == TokV::Relation
            &&& r.forbidden == f
            &&& r.line == t[pos].line
            &&& no_item_keyword(t, h + 1, p)
        },
{
    lemma_items_advance(t, pos);
    if let Ok((r, p)) = spec_relation(t, pos) {
        let f = peek(t, pos) == Some(TokV::Forbidden);
        let h = if f {
            pos + 1
        } else {
            pos
        };
        lemma_params_plain(t, h + 3, seq![]);
        lemma_params_bounds(t, h + 3, seq![]);
        let p4 = spec_params(t, h + 3, seq![])->Ok_0.1;
        assert(no_item_keyword(t, h + 1, h + 3));
        assert(no_item_keyword(t, p4, p4 + 1));
        lemma_plain_join(t, h + 1, h + 3, p4);
        lemma_plain_join(t, h + 1, p4, p4 + 1);
    }
}

proof fn lemma_law_item(t: Seq<TokenV>, pos: int)
    requires
        0 <= pos,
    ensures
        spec_law(t, pos) matches Ok((l, p)) ==> pos + 1 < p <= t.len() && t[pos].tok == TokV::Law
            && l.line == t[pos].line && no_item_keyword(t, pos + 1, p),
{
    lemma_items_advance(t, pos);
    if let Ok((l, p)) = spec_law(t, pos) {
        lemma_args_plain(t, pos + 3, seq![]);
        lemma_args_bounds(t, pos + 3, seq![]);
        let p4 = spec_args(t, pos + 3, seq![])->Ok_0.1;
        lemma_clauses_plain(t, p4 + 2, seq![]);
        lemma_clauses_bounds(t, p4 + 2, seq![]);
        let p7 = spec_clauses(t, p4 + 2, seq![])->Ok_0.1;
        assert(no_item_keyword(t, pos + 1, pos + 3));
        assert(no_item_keyword(t, p4, p4 + 2));
        assert(no_item_keyword(t, p7, p7 + 1));
        lemma_plain_join(t, pos + 1, pos + 3, p4);
        lemma_plain_join(t, pos + 1, p4, p4 + 2);
        lemma_plain_join(t, pos + 1, p4 + 2, p7);
        lemma_plain_join(t, pos + 1, p7, p7 + 1);
    }
}

proof fn lemma_heads_unchanged(t: Seq<TokenV>, a: int, b: int)
    requires
        0 <= a <= b <= t.len(),
        no_item_keyword(t, a, b),
    ensures
        keyword_lines(t, TokV::Sort, b) == keyword_lines(t, TokV::Sort, a),
        keyword_lines(t, TokV::Law, b) == keyword_lines(t, TokV::Law, a),
        relation_heads(t, b) == relation_heads(t, a),
    decreases b - a,
{
    if a < b {
        lemma_heads_unchanged(t, a, b - 1);
        assert(!is_item_keyword(t[b - 1].tok));
    }
}

proof fn lemma_items_heads(t: Seq<TokenV>, pos: int, acc: SpecV)
    requires
        0 <= pos <= t.len(),
        pos == 0 || !is_item_keyword(t[pos - 1].tok),
        sort_lines(acc.sorts) == keyword_lines(t, TokV::Sort, pos),
        law_lines(acc.laws) == keyword_lines(t, TokV::Law, pos),
        relation_marks(acc.relations) == relation_heads(t, pos),
    ensures
        spec_items(t, pos, acc) matches Ok(s) ==> {
            &&& sort_lines(s.sorts) == keyword_lines(t, TokV::Sort, t.len() as int)
            &&& law_lines(s.laws) == keyword_lines(t, TokV::Law, t.len() as int)
            &&& relation_marks(s.relations) == relation_heads(t, t.len() as int)
        },
    decreases t.len() - pos,
{
    if pos < t.len() {
        let k = t[pos].tok;
        if k == TokV::Sort {
            lemma_sort_item(t, pos);
            if let Ok((so, p)) = spec_sort(t, pos) {
                let acc2 = SpecV { sorts: acc.sorts.push(so), ..acc };
                assert(sort_lines(acc2.sorts) =~= sort_lines(acc.sorts).push(so.line));
                lemma_heads_unchanged(t, pos + 1, p);
                assert(!is_item_keyword(t[p - 1].tok));
                lemma_items_heads(t, p, acc2);
            }
        } else if k == TokV::Relation || k == TokV::Forbidden {
            lemma_relation_item(t, pos);
            if let Ok((r, p)) = spec_relation(t, pos) {
                let h = if k == TokV::Forbidden {
                    pos + 1
                } else {
                    pos
                };
                let acc2 = SpecV { relations: acc.relations.push(r), ..acc };
                assert(relation_marks(acc2.relations) =~= relation_marks(acc.relations).push(
                    (r.line, r.forbidden),
                ));
                assert(relation_heads(t, h) == relation_heads(t, pos));
                assert(keyword_lines(t, TokV::Sort, h) == keyword_lines(t, TokV::Sort, pos));
                assert(keyword_lines(t, TokV::Law, h) == keyword_lines(t, TokV::Law, pos));
                lemma_heads_unchanged(t, h + 1, p);
                assert(!is_item_keyword(t[p - 1].tok));
                lemma_items_heads(t, p, acc2);
            }
        } else if k == TokV::Law {
            lemma_law_item(t, pos);
            if let Ok((l, p)) = spec_law(t, pos) {
                let acc2 = SpecV { laws: acc.laws.push(l), ..acc };
                assert(law_lines(acc2.laws) =~= law_lines(acc.laws).push(l.line));
                lemma_heads_unchanged(t, pos + 1, p);
                assert(!is_item_keyword(t[p - 1].tok));
                lemma_items_heads(t, p, acc2);
            }
        }
    }
}

/// A source that parses gives one sort per `sort` token, one relation per
/// `relation` token and one law per `law` token, each list in source order
/// and each item on the line of its keyword; a relation starts on the line of
/// its `forbidden`, and is forbidden exactly when that word precedes it. A
/// source that does not lex is refused with the lexer's error.
pub proof fn law_items_follow_keywords(src: Seq<char>)
    ensures
        spec_parse(src) matches Ok(s) ==> lex(src) matches Ok(t) && {
            &&& sort_lines(s.sorts) == keyword_lines(t, TokV::Sort, t.len() as int)
            &&& relation_marks(s.relations) == relation_heads(t, t.len() as int)
            &&& law_lines(s.laws) == keyword_lines(t, TokV::Law, t.len() as int)
        },
        lex(src) matches Err(e) ==> spec_parse(src) == Err::<SpecV, SourceError>(SourceError::Lex(e)),
{
    if let Ok(t) = lex(src) {
        let acc = SpecV { sorts: seq![], relations: seq![], laws: seq![] };
        assert(sort_lines(acc.sorts) =~= keyword_lines(t, TokV::Sort, 0));
        assert(law_lines(acc.laws) =~= keyword_lines(t, TokV::Law, 0));
        assert(relation_marks(acc.relations) =~= relation_heads(t, 0));
        lemma_items_heads(t, 0, acc);
    }
}

/// Each comparison token parses to the operator of the same spelling: `==`
/// to `Eq`, `<=` to `Le`, `<` to `Lt`, `>=` to `Ge` and `>` to `Gt`, consuming
/// that one token; any other token, or the end, is no operator.
pub proof fn law_operators_keep_their_spelling(t: Seq<TokenV>, pos: int)
    ensures
        peek(t, pos) == Some(TokV::EqEq) ==> spec_op(t, pos) == Ok::<(CmpOp, int), ParseError>((CmpOp::Eq, pos + 1)),
        peek(t, pos) == Some(TokV::Le) ==> spec_op(t, pos) == Ok::<(CmpOp, int), ParseError>((CmpOp::Le, pos + 1)),
        peek(t, pos) == Some(TokV::Lt) ==> spec_op(t, pos) == Ok::<(CmpOp, int), ParseError>((CmpOp::Lt, pos + 1)),
        peek(t, pos) == Some(TokV::Ge) ==> spec_op(t, pos) == Ok::<(CmpOp, int), ParseError>((CmpOp::Ge, pos + 1)),
        peek(t, pos) == Some(TokV::Gt) ==> spec_op(t, pos) == Ok::<(CmpOp, int), ParseError>((CmpOp::Gt, pos + 1)),
        !(peek(t, pos) == Some(TokV::EqEq) || peek(t, pos) == Some(TokV::Le) || peek(t, pos) == Some(
            TokV::Lt,
        ) || peek(t, pos) == Some(TokV::Ge) || peek(t, pos) == Some(TokV::Gt)) ==> spec_op(t, pos) is Err,
{
}

/// A parsed comparison is, in order, the expression at its start, the
/// operator after it and the expression after the operator: its left side is
/// what is written first and its right side what is written last.
pub proof fn law_comparisons_keep_their_sides(t: Seq<TokenV>, pos: int)
    ensures
        spec_pred(t, pos) matches Ok((p, q)) ==> {
            &&& spec_expr(t, pos) matches Ok((lhs, p1)) && lhs == p.lhs
                && spec_op(t, p1) == Ok::<(CmpOp, int), ParseError>((p.op, p1 + 1))
                && spec_expr(t, p1 + 1) == Ok::<(ExprV, int), ParseError>((p.rhs, q))
            &&& p.line == line_at(t, pos)
        },
{
}

/// A clause is the comparison at its start; when `=>` follows that
/// comparison, the clause is the implication whose antecedent is that
/// comparison and whose consequent is the comparison parsed, on its own, from
/// the tokens after `=>`, and it is tagged with the line of its first token.
pub proof fn law_implications_keep_their_parts(t: Seq<TokenV>, pos: int)
    ensures
        spec_pred(t, pos) matches Ok((a, p1)) ==> {
            &&& peek(t, p1) != Some(TokV::FatArrow) ==> spec_clause(t, pos) == Ok::<
                (ClauseV, int),
                ParseError,
            >((ClauseV::Compare(a), p1))
            &&& peek(t, p1) == Some(TokV::FatArrow) ==> match spec_pred(t, p1 + 1) {
                Ok((c, q)) => spec_clause(t, pos) == Ok::<(ClauseV, int), ParseError>(
                    (ClauseV::Implies { ante: a, cons: c, line: line_at(t, pos) }, q),
                ),
                Err(e) => spec_clause(t, pos) == Err::<(ClauseV, int), ParseError>(e),
            }
        },
        spec_pred(t, pos) matches Err(e) ==> spec_clause(t, pos) == Err::<(ClauseV, int), ParseError>(
            e,
        ),
{
}

/// An expression is read as written: an integer literal is that integer, a
/// lone name is that argument, and `name.field` is that field of that
/// argument, the name first and the field second.
pub proof fn law_expressions_parse_as_written(t: Seq<TokenV>, pos: int, v: i64, n: Seq<char>, f: Seq<char>)
    ensures
        peek(t, pos) == Some(TokV::Int(v)) ==> spec_expr(t, pos) == Ok::<(ExprV, int), ParseError>(
            (ExprV::Int(v), pos + 1),
        ),
        peek(t, pos) == Some(TokV::Ident(n)) && peek(t, pos + 1) != Some(TokV::Dot) ==> spec_expr(
            t,
            pos,
        ) == Ok::<(ExprV, int), ParseError>((ExprV::Arg(n), pos + 1)),
        peek(t, pos) == Some(TokV::Ident(n)) && peek(t, pos + 1) == Some(TokV::Dot) && peek(t, pos + 2)
            == Some(TokV::Ident(f)) ==> spec_expr(t, pos) == Ok::<(ExprV, int), ParseError>(
            (ExprV::Field { arg: n, field: f }, pos + 3),
        ),
{
}

} // verus!
