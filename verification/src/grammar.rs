//! What the parser does, stated over values: each function here takes the
//! remaining tokens and the scopes, and gives what the parser's function of the
//! same name produces and where it leaves off, or why it stops.

use vstd::prelude::*;
use crate::loc::{Span, joined};
use crate::lexer::{TokenKind, TokenV, LexemeV, LexErrV, LexResV, kind_text};
use crate::ast::{
    BinaryOp, UnaryOp, ExprV, ExprKindV, LiteralV, TypV, FrameV, can_coerce, last_index, frame_insert,
    empty_frame, binary_v, unary_v, for_v, lemma_last_index, binary_op_symbol, binary_precedence, unary_op_symbol,
};

verus! {

/// A parser error as a value.
pub enum ParseErrV {
    LexerError(LexErrV),
    ExpectedActualMismatch { expected: TokenKind, actual: LexemeV, message: Seq<char> },
    ExpectedGotNone { expected: TokenKind, message: Seq<char> },
    ExpectedIdent { actual: LexemeV, message: Seq<char> },
    ExpectedIdentGotNone { message: Seq<char> },
    InvalidVariableName { span: Span },
    Unexpected { actual: LexemeV },
    UnexpectedGotNone,
    InvalidOtherwise { actual: LexemeV },
    InvalidOtherwiseGotNothing,
}

/// Why the parser gives up on a program that it reads but does not accept
/// (a type error, or an environment it cannot index), as a value.
pub enum AbortV {
    ParameterWithoutType,
    UnsupportedUnary(UnaryOp, TypV),
    UnsupportedBinary(BinaryOp, TypV, TypV),
    ExpectedTypeGot(TokenV),
    ExpectedTypeGotNone,
    ConditionNotBool,
    BranchTypes,
    InnerIfTypes,
    NotAFunction,
    ArgumentCount(nat, nat),
    ArgumentType,
    AssignmentType(TypV, TypV),
    DeclarationType(TypV, TypV),
    MisalignedEnvironment,
}

/// How parsing stops short: an error in the program, a refusal, or (never, as the
/// parser's contracts show) a step that would not consume input.
pub enum FailV {
    Error(ParseErrV),
    Abort(AbortV),
    Stuck,
}

/// The parser's state: the tokens not yet read, and the scopes, innermost last.
pub struct PSt {
    pub rem: Seq<LexResV>,
    pub env: Seq<FrameV>,
}

/// What a parsing step gives: a value and the state after it, or a failure.
pub enum POut<T> {
    Done(T, PSt),
    Fail(FailV),
}

/// `a` has fewer tokens left than `b`.
pub open spec fn fewer(a: PSt, b: PSt) -> bool {
    a.rem.len() < b.rem.len()
}

/// `a` has no more tokens left than `b`.
pub open spec fn no_more(a: PSt, b: PSt) -> bool {
    a.rem.len() <= b.rem.len()
}

/// The state after one token is read.
pub open spec fn advance(s: PSt) -> PSt {
    PSt { rem: s.rem.drop_first(), env: s.env }
}

/// Reads the next token: `None` at the end; a lexer error stops parsing.
pub open spec fn sp_next(s: PSt) -> POut<Option<LexemeV>> {
    if s.rem.len() == 0 {
        POut::Done(None, s)
    } else {
        match s.rem[0] {
            Ok(l) => POut::Done(Some(l), advance(s)),
            Err(e) => POut::Fail(FailV::Error(ParseErrV::LexerError(e))),
        }
    }
}

/// Reads the next token if it is of kind `k`; a lexer error stops parsing.
pub open spec fn sp_matches(s: PSt, k: TokenKind) -> POut<Option<LexemeV>> {
    if s.rem.len() == 0 {
        POut::Done(None, s)
    } else {
        match s.rem[0] {
            Ok(l) => if l.t.kind() == k {
                POut::Done(Some(l), advance(s))
            } else {
                POut::Done(None, s)
            },
            Err(e) => POut::Fail(FailV::Error(ParseErrV::LexerError(e))),
        }
    }
}

/// The kind of the next token, if there is one; a lexer error stops parsing.
pub open spec fn sp_peek_kind(s: PSt) -> POut<Option<TokenKind>> {
    if s.rem.len() == 0 {
        POut::Done(None, s)
    } else {
        match s.rem[0] {
            Ok(l) => POut::Done(Some(l.t.kind()), s),
            Err(e) => POut::Fail(FailV::Error(ParseErrV::LexerError(e))),
        }
    }
}

/// Reads a token that must be of kind `k`.
pub open spec fn sp_consume(s: PSt, k: TokenKind, message: Seq<char>) -> POut<LexemeV> {
    match sp_next(s) {
        POut::Done(None, _) => POut::Fail(FailV::Error(ParseErrV::ExpectedGotNone { expected: k, message })),
        POut::Done(Some(l), s1) => if l.t.kind() == k {
            POut::Done(l, s1)
        } else {
            POut::Fail(FailV::Error(ParseErrV::ExpectedActualMismatch { expected: k, actual: l, message }))
        },
        POut::Fail(f) => POut::Fail(f),
    }
}

/// Reads a token that must be an identifier, giving its name.
pub open spec fn sp_consume_ident(s: PSt, message: Seq<char>) -> POut<Seq<char>> {
    match sp_next(s) {
        POut::Done(None, _) => POut::Fail(FailV::Error(ParseErrV::ExpectedIdentGotNone { message })),
        POut::Done(Some(l), s1) => match l.t {
            TokenV::Ident(name) => POut::Done(name, s1),
            _ => POut::Fail(FailV::Error(ParseErrV::ExpectedIdent { actual: l, message })),
        },
        POut::Fail(f) => POut::Fail(f),
    }
}

/// The type named by a token of kind `k`, if it names one.
pub open spec fn typ_of_kind(k: TokenKind) -> Option<TypV> {
    match k {
        TokenKind::Null => Some(TypV::Null),
        TokenKind::Number => Some(TypV::Number),
        TokenKind::String => Some(TypV::String),
        TokenKind::Bool => Some(TypV::Bool),
        TokenKind::Any => Some(TypV::Any),
        _ => None,
    }
}

/// An optional type annotation `: type`.
pub open spec fn sp_parse_typ(s: PSt) -> POut<Option<TypV>> {
    match sp_matches(s, TokenKind::Colon) {
        POut::Done(None, s1) => POut::Done(None, s1),
        POut::Done(Some(_), s1) => match sp_next(s1) {
            POut::Done(Some(l), s2) => match typ_of_kind(l.t.kind()) {
                Some(t) => POut::Done(Some(t), s2),
                None => POut::Fail(FailV::Abort(AbortV::ExpectedTypeGot(l.t))),
            },
            POut::Done(None, _) => POut::Fail(FailV::Abort(AbortV::ExpectedTypeGotNone)),
            POut::Fail(f) => POut::Fail(f),
        },
        POut::Fail(f) => POut::Fail(f),
    }
}

/// One function parameter: a name and a type annotation, which it must have.
pub open spec fn sp_parameter(s: PSt) -> POut<(Seq<char>, TypV)> {
    match sp_consume_ident(s, "Function parameters may only be idents"@) {
        POut::Done(name, s1) => match sp_parse_typ(s1) {
            POut::Done(Some(t), s2) => POut::Done((name, t), s2),
            POut::Done(None, _) => POut::Fail(FailV::Abort(AbortV::ParameterWithoutType)),
            POut::Fail(f) => POut::Fail(f),
        },
        POut::Fail(f) => POut::Fail(f),
    }
}

/// The parameters after the first: `, parameter` while a comma follows, then `)`.
pub open spec fn sp_params_rest(s: PSt, acc: Seq<(Seq<char>, TypV)>) -> POut<Seq<(Seq<char>, TypV)>>
    decreases s.rem.len(),
{
    match sp_matches(s, TokenKind::Comma) {
        POut::Done(Some(_), s1) => match sp_parameter(s1) {
            POut::Done(p, s2) => if no_more(s2, s1) {
                sp_params_rest(s2, acc.push(p))
            } else {
                POut::Fail(FailV::Stuck)
            },
            POut::Fail(f) => POut::Fail(f),
        },
        POut::Done(None, s1) => match sp_consume(
            s1,
            TokenKind::CloseParen,
            "Unclosed function definition parentheses or missing comma."@,
        ) {
            POut::Done(_, s2) => POut::Done(acc, s2),
            POut::Fail(f) => POut::Fail(f),
        },
        POut::Fail(f) => POut::Fail(f),
    }
}

/// A parameter list after its opening parenthesis, through the closing one.
pub open spec fn sp_consume_parameters(s: PSt) -> POut<Seq<(Seq<char>, TypV)>> {
    match sp_matches(s, TokenKind::CloseParen) {
        POut::Done(Some(_), s1) => POut::Done(seq![], s1),
        POut::Done(None, s1) => match sp_parameter(s1) {
            POut::Done(p, s2) => sp_params_rest(s2, seq![p]),
            POut::Fail(f) => POut::Fail(f),
        },
        POut::Fail(f) => POut::Fail(f),
    }
}

/// The type of `op` applied to an operand of type `t`.
pub open spec fn type_of_unaryop(op: UnaryOp, t: TypV) -> Result<TypV, AbortV> {
    if t == TypV::Any {
        Ok(TypV::Any)
    } else if (op == UnaryOp::Negate || op == UnaryOp::BitNot) && t == TypV::Number {
        Ok(TypV::Number)
    } else if op == UnaryOp::BoolNot && t == TypV::Bool {
        Ok(TypV::Bool)
    } else {
        Err(AbortV::UnsupportedUnary(op, t))
    }
}

/// The type of `l op r`: `any` if either side is; numbers for arithmetic on
/// numbers; strings for adding strings and for a string times a number; booleans
/// for comparing two numbers or two strings.
pub open spec fn type_of_binaryop(l: TypV, op: BinaryOp, r: TypV) -> Result<TypV, AbortV> {
    if l == TypV::Any || r == TypV::Any {
        Ok(TypV::Any)
    } else {
        match op {
            BinaryOp::Add => if l == TypV::Number && r == TypV::Number {
                Ok(TypV::Number)
            } else if l == TypV::String && r == TypV::String {
                Ok(TypV::String)
            } else {
                Err(AbortV::UnsupportedBinary(op, l, r))
            },
            BinaryOp::Multiply => if l == TypV::Number && r == TypV::Number {
                Ok(TypV::Number)
            } else if l == TypV::String && r == TypV::Number {
                Ok(TypV::String)
            } else {
                Err(AbortV::UnsupportedBinary(op, l, r))
            },
            BinaryOp::Subtract | BinaryOp::Divide | BinaryOp::Modulo => if l == TypV::Number && r
                == TypV::Number {
                Ok(TypV::Number)
            } else {
                Err(AbortV::UnsupportedBinary(op, l, r))
            },
            _ => if (l == TypV::Number && r == TypV::Number) || (l == TypV::String && r == TypV::String) {
                Ok(TypV::Bool)
            } else {
                Err(AbortV::UnsupportedBinary(op, l, r))
            },
        }
    }
}

/// The type of a name that no scope declares: the built-in functions, and `any`
/// for every other name.
pub open spec fn type_of_ident(name: Seq<char>) -> TypV {
    if name == "print"@ {
        TypV::Function { params: seq![TypV::Any], ret: Box::new(TypV::Null) }
    } else if name == "substr"@ {
        TypV::Function { params: seq![TypV::String, TypV::Number, TypV::Number], ret: Box::new(TypV::String) }
    } else if name == "len"@ {
        TypV::Function { params: seq![TypV::String], ret: Box::new(TypV::Number) }
    } else if name == "clock"@ || name == "unix_time"@ {
        TypV::Function { params: seq![], ret: Box::new(TypV::Number) }
    } else {
        TypV::Any
    }
}

/// The innermost declaration of `name`, searching the scopes from `depth` scopes
/// out: how many scopes out it is, and its slot.
pub open spec fn find_var_from(env: Seq<FrameV>, name: Seq<char>, depth: nat) -> Option<(nat, nat)>
    decreases env.len() - depth,
{
    if depth >= env.len() {
        None
    } else {
        match last_index(env[env.len() - 1 - depth].names, name) {
            Some(i) => Some((depth, i)),
            None => find_var_from(env, name, depth + 1),
        }
    }
}

/// The innermost declaration of `name`.
pub open spec fn find_var(env: Seq<FrameV>, name: Seq<char>) -> Option<(nat, nat)> {
    find_var_from(env, name, 0)
}

/// An identifier at `span`: a read of the variable it names, with the variable's
/// type, or, when no scope declares it, the name itself, typed as a built-in.
pub open spec fn parse_ident(env: Seq<FrameV>, name: Seq<char>, span: Span) -> (ExprV, TypV) {
    match find_var(env, name) {
        Some((depth, slot)) => (
            ExprV { span, kind: ExprKindV::VarGet { depth, slot } },
            env[env.len() - depth - 1].typs[slot as int],
        ),
        None => (ExprV { span, kind: ExprKindV::Ident(name) }, type_of_ident(name)),
    }
}

/// A literal expression.
pub open spec fn literal(val: LiteralV, span: Span) -> ExprV {
    ExprV { span, kind: ExprKindV::Literal(val) }
}

/// The binary operator that a token of kind `k` stands for among the
/// comparisons (`level` 0), additions (1) or multiplications (2).
pub open spec fn binary_op_of(k: TokenKind, level: nat) -> Option<BinaryOp> {
    if level == 0 {
        match k {
            TokenKind::EqEq => Some(BinaryOp::Equal),
            TokenKind::BangEq => Some(BinaryOp::NotEqual),
            TokenKind::Less => Some(BinaryOp::LessThan),
            TokenKind::LessEq => Some(BinaryOp::LessEq),
            TokenKind::Greater => Some(BinaryOp::GreaterThan),
            TokenKind::GreaterEq => Some(BinaryOp::GreaterEq),
            _ => None,
        }
    } else if level == 1 {
        match k {
            TokenKind::Plus => Some(BinaryOp::Add),
            TokenKind::Minus => Some(BinaryOp::Subtract),
            _ => None,
        }
    } else {
        match k {
            TokenKind::Star => Some(BinaryOp::Multiply),
            TokenKind::Slash => Some(BinaryOp::Divide),
            TokenKind::Percent => Some(BinaryOp::Modulo),
            _ => None,
        }
    }
}

/// The unary operator that a token of kind `k` stands for.
pub open spec fn unary_op_of(k: TokenKind) -> Option<UnaryOp> {
    match k {
        TokenKind::Minus => Some(UnaryOp::Negate),
        TokenKind::Tilde => Some(UnaryOp::BitNot),
        TokenKind::Bang => Some(UnaryOp::BoolNot),
        _ => None,
    }
}

/// The scopes with a new innermost scope `f`.
pub open spec fn push_frame(s: PSt, f: FrameV) -> PSt {
    PSt { rem: s.rem, env: s.env.push(f) }
}

/// The scopes without the innermost one.
pub open spec fn pop_frame(s: PSt) -> PSt {
    PSt { rem: s.rem, env: s.env.drop_last() }
}

/// An expression.
pub open spec fn sp_parse_expr(s: PSt) -> POut<(ExprV, TypV)>
    decreases s.rem.len(), 9nat,
{
    sp_var_set(s)
}

/// An assignment `variable = value`, or a comparison. The assigned value must
/// coerce to the variable's type: the type that reading the variable gives.
pub open spec fn sp_var_set(s: PSt) -> POut<(ExprV, TypV)>
    decreases s.rem.len(), 8nat,
{
    match sp_comparisons(s) {
        POut::Done((left, tl), s1) => if !no_more(s1, s) {
            POut::Fail(FailV::Stuck)
        } else {
            match sp_matches(s1, TokenKind::Eq) {
                POut::Done(None, s2) => POut::Done((left, tl), s2),
                POut::Done(Some(_), s2) => match sp_comparisons(s2) {
                    POut::Done((right, tr), s3) => match left.kind {
                        ExprKindV::VarGet { depth, slot } => if !can_coerce(tr, tl) {
                            POut::Fail(FailV::Abort(AbortV::AssignmentType(tr, tl)))
                        } else {
                            POut::Done(
                                (
                                    ExprV {
                                        kind: ExprKindV::VarSet { value: Box::new(right), depth, slot },
                                        span: joined(left.span, right.span),
                                    },
                                    TypV::Null,
                                ),
                                s3,
                            )
                        },
                        _ => POut::Fail(FailV::Error(ParseErrV::InvalidVariableName { span: left.span })),
                    },
                    POut::Fail(f) => POut::Fail(f),
                },
                POut::Fail(f) => POut::Fail(f),
            }
        },
        POut::Fail(f) => POut::Fail(f),
    }
}

/// At most one comparison between two additions.
pub open spec fn sp_comparisons(s: PSt) -> POut<(ExprV, TypV)>
    decreases s.rem.len(), 7nat, 0nat,
{
    match sp_add_sub(s) {
        POut::Done((left, tl), s1) => if !no_more(s1, s) {
            POut::Fail(FailV::Stuck)
        } else {
            match sp_peek_kind(s1) {
                POut::Done(Some(k), _) => match binary_op_of(k, 0) {
                    Some(op) => match sp_add_sub(advance(s1)) {
                        POut::Done((right, tr), s3) => match type_of_binaryop(tl, op, tr) {
                            Ok(t) => POut::Done((binary_v(left, op, right), t), s3),
                            Err(a) => POut::Fail(FailV::Abort(a)),
                        },
                        POut::Fail(f) => POut::Fail(f),
                    },
                    None => POut::Done((left, tl), s1),
                },
                POut::Done(None, _) => POut::Done((left, tl), s1),
                POut::Fail(f) => POut::Fail(f),
            }
        },
        POut::Fail(f) => POut::Fail(f),
    }
}

/// At most one `+` or `-` between two multiplications.
pub open spec fn sp_add_sub(s: PSt) -> POut<(ExprV, TypV)>
    decreases s.rem.len(), 6nat, 0nat,
{
    match sp_mult_div_mod(s) {
        POut::Done((left, tl), s1) => if !no_more(s1, s) {
            POut::Fail(FailV::Stuck)
        } else {
            match sp_peek_kind(s1) {
                POut::Done(Some(k), _) => match binary_op_of(k, 1) {
                    Some(op) => match sp_mult_div_mod(advance(s1)) {
                        POut::Done((right, tr), s3) => match type_of_binaryop(tl, op, tr) {
                            Ok(t) => POut::Done((binary_v(left, op, right), t), s3),
                            Err(a) => POut::Fail(FailV::Abort(a)),
                        },
                        POut::Fail(f) => POut::Fail(f),
                    },
                    None => POut::Done((left, tl), s1),
                },
                POut::Done(None, _) => POut::Done((left, tl), s1),
                POut::Fail(f) => POut::Fail(f),
            }
        },
        POut::Fail(f) => POut::Fail(f),
    }
}

/// At most one `*`, `/` or `%` between two unary expressions.
pub open spec fn sp_mult_div_mod(s: PSt) -> POut<(ExprV, TypV)>
    decreases s.rem.len(), 5nat, 0nat,
{
    match sp_unary(s) {
        POut::Done((left, tl), s1) => if !no_more(s1, s) {
            POut::Fail(FailV::Stuck)
        } else {
            match sp_peek_kind(s1) {
                POut::Done(Some(k), _) => match binary_op_of(k, 2) {
                    Some(op) => match sp_unary(advance(s1)) {
                        POut::Done((right, tr), s3) => match type_of_binaryop(tl, op, tr) {
                            Ok(t) => POut::Done((binary_v(left, op, right), t), s3),
                            Err(a) => POut::Fail(FailV::Abort(a)),
                        },
                        POut::Fail(f) => POut::Fail(f),
                    },
                    None => POut::Done((left, tl), s1),
                },
                POut::Done(None, _) => POut::Done((left, tl), s1),
                POut::Fail(f) => POut::Fail(f),
            }
        },
        POut::Fail(f) => POut::Fail(f),
    }
}

/// At most one unary operator before a call expression.
pub open spec fn sp_unary(s: PSt) -> POut<(ExprV, TypV)>
    decreases s.rem.len(), 4nat, 2nat,
{
    match sp_peek_kind(s) {
        POut::Done(Some(k), _) => match unary_op_of(k) {
            Some(op) => {
                let l = s.rem[0]->Ok_0;
                let s1 = advance(s);
                match sp_func_call(s1) {
                    POut::Done((right, tr), s2) => match type_of_unaryop(op, tr) {
                        Ok(t) => POut::Done((unary_v(op, l.span, right), t), s2),
                        Err(a) => POut::Fail(FailV::Abort(a)),
                    },
                    POut::Fail(f) => POut::Fail(f),
                }
            },
            None => sp_func_call(s),
        },
        POut::Done(None, _) => sp_func_call(s),
        POut::Fail(f) => POut::Fail(f),
    }
}

/// A basic expression followed by any number of argument lists.
pub open spec fn sp_func_call(s: PSt) -> POut<(ExprV, TypV)>
    decreases s.rem.len(), 3nat, 0nat,
{
    match sp_basic(s) {
        POut::Done((e, t), s1) => if !no_more(s1, s) {
            POut::Fail(FailV::Stuck)
        } else {
            sp_call_suffix(s1, e, t)
        },
        POut::Fail(f) => POut::Fail(f),
    }
}

/// Whether each argument's type coerces to its parameter's type.
pub open spec fn args_coerce(arg_typs: Seq<TypV>, params: Seq<TypV>) -> bool {
    forall|i: int| 0 <= i < arg_typs.len() ==> can_coerce(#[trigger] arg_typs[i], params[i])
}

/// Argument lists after the callee `e` of type `t`: each needs a function type
/// (or `any`), as many arguments as it has parameters, each coercing to its
/// parameter; the call then has the function's return type.
pub open spec fn sp_call_suffix(s: PSt, e: ExprV, t: TypV) -> POut<(ExprV, TypV)>
    decreases s.rem.len(), 1nat, 0nat,
{
    match sp_matches(s, TokenKind::OpenParen) {
        POut::Done(None, s1) => POut::Done((e, t), s1),
        POut::Done(Some(_), s1) => match t {
            TypV::Function { params, ret } => match sp_consume_args(s1) {
                POut::Done((args, arg_typs, close), s2) => if args.len() != params.len() {
                    POut::Fail(FailV::Abort(AbortV::ArgumentCount(params.len(), args.len())))
                } else if !args_coerce(arg_typs, params) {
                    POut::Fail(FailV::Abort(AbortV::ArgumentType))
                } else if !no_more(s2, s1) {
                    POut::Fail(FailV::Stuck)
                } else {
                    sp_call_suffix(
                        s2,
                        ExprV {
                            span: joined(e.span, close),
                            kind: ExprKindV::Call { callee: Box::new(e), args },
                        },
                        *ret,
                    )
                },
                POut::Fail(f) => POut::Fail(f),
            },
            TypV::Any => match sp_consume_args(s1) {
                POut::Done((args, _, close), s2) => if !no_more(s2, s1) {
                    POut::Fail(FailV::Stuck)
                } else {
                    sp_call_suffix(
                        s2,
                        ExprV {
                            span: joined(e.span, close),
                            kind: ExprKindV::Call { callee: Box::new(e), args },
                        },
                        TypV::Any,
                    )
                },
                POut::Fail(f) => POut::Fail(f),
            },
            _ => POut::Fail(FailV::Abort(AbortV::NotAFunction)),
        },
        POut::Fail(f) => POut::Fail(f),
    }
}

/// An argument list after its opening parenthesis, through the closing one: the
/// arguments, their types and the closing parenthesis's span.
pub open spec fn sp_consume_args(s: PSt) -> POut<(Seq<ExprV>, Seq<TypV>, Span)>
    decreases s.rem.len(), 10nat, 0nat,
{
    match sp_matches(s, TokenKind::CloseParen) {
        POut::Done(Some(close), s1) => POut::Done((seq![], seq![], close.span), s1),
        POut::Done(None, s1) => match sp_parse_expr(s1) {
            POut::Done((a, t), s2) => if !no_more(s2, s1) {
                POut::Fail(FailV::Stuck)
            } else {
                sp_args_rest(s2, seq![a], seq![t])
            },
            POut::Fail(f) => POut::Fail(f),
        },
        POut::Fail(f) => POut::Fail(f),
    }
}

/// The arguments after the first: `, expression` while a comma follows, then `)`.
pub open spec fn sp_args_rest(s: PSt, args: Seq<ExprV>, typs: Seq<TypV>) -> POut<(Seq<ExprV>, Seq<TypV>, Span)>
    decreases s.rem.len(), 1nat, 0nat,
{
    match sp_matches(s, TokenKind::Comma) {
        POut::Done(Some(_), s1) => match sp_parse_expr(s1) {
            POut::Done((a, t), s2) => if !no_more(s2, s1) {
                POut::Fail(FailV::Stuck)
            } else {
                sp_args_rest(s2, args.push(a), typs.push(t))
            },
            POut::Fail(f) => POut::Fail(f),
        },
        POut::Done(None, s1) => match sp_consume(
            s1,
            TokenKind::CloseParen,
            "Unclosed function call parentheses or missing comma"@,
        ) {
            POut::Done(close, s2) => POut::Done((args, typs, close.span), s2),
            POut::Fail(f) => POut::Fail(f),
        },
        POut::Fail(f) => POut::Fail(f),
    }
}

/// A basic expression: a parenthesized expression, a literal, an identifier, or a
/// construct that a keyword or an opening bracket begins.
pub open spec fn sp_basic(s: PSt) -> POut<(ExprV, TypV)>
    decreases s.rem.len(), 2nat, 0nat,
{
    match sp_next(s) {
        POut::Done(None, _) => POut::Fail(FailV::Error(ParseErrV::UnexpectedGotNone)),
        POut::Done(Some(l), s1) => {
            let span = l.span;
            match l.t {
                TokenV::StringLit(v) => POut::Done((literal(LiteralV::String(v), span), TypV::String), s1),
                TokenV::NumLit(d) => POut::Done((literal(LiteralV::Number(d), span), TypV::Number), s1),
                TokenV::Ident(name) => POut::Done(parse_ident(s1.env, name, span), s1),
                TokenV::Plain(k) => match k {
                    TokenKind::OpenParen => sp_paren(s1, span),
                    TokenKind::True => POut::Done((literal(LiteralV::Boolean(true), span), TypV::Bool), s1),
                    TokenKind::False => POut::Done((literal(LiteralV::Boolean(false), span), TypV::Bool), s1),
                    TokenKind::Let => sp_decl(s1, span),
                    TokenKind::Fn => sp_func_def(s1, span),
                    TokenKind::If => sp_if(s1, span),
                    TokenKind::OpenBracket => sp_naked_block(s1, span),
                    TokenKind::While => sp_while(s1, span),
                    TokenKind::For => sp_for(s1, span),
                    _ => POut::Fail(FailV::Error(ParseErrV::Unexpected { actual: l })),
                },
            }
        },
        POut::Fail(f) => POut::Fail(f),
    }
}

/// A parenthesized expression after its opening parenthesis at `open`: the inner
/// expression, spanning both parentheses.
pub open spec fn sp_paren(s: PSt, open: Span) -> POut<(ExprV, TypV)>
    decreases s.rem.len(), 10nat, 0nat,
{
    match sp_parse_expr(s) {
        POut::Done((inner, t), s1) => match sp_consume(s1, TokenKind::CloseParen, "unclosed paren block"@) {
            POut::Done(close, s2) => POut::Done((ExprV { kind: inner.kind, span: joined(open, close.span) }, t), s2),
            POut::Fail(f) => POut::Fail(f),
        },
        POut::Fail(f) => POut::Fail(f),
    }
}

/// A declaration `let name [: type] = value` after `let` at `let_span`. The value
/// must coerce to the annotation; the name is declared in the innermost scope with
/// the annotated type, or the value's.
pub open spec fn sp_decl(s: PSt, let_span: Span) -> POut<(ExprV, TypV)>
    decreases s.rem.len(), 10nat, 0nat,
{
    match sp_consume_ident(s, "Expected variable name after let"@) {
        POut::Done(name, s1) => match sp_parse_typ(s1) {
            POut::Done(ann, s2) => match sp_consume(s2, TokenKind::Eq, "Expected '=' after let"@) {
                POut::Done(_, s3) => if !no_more(s3, s) {
                    POut::Fail(FailV::Stuck)
                } else {
                    match sp_parse_expr(s3) {
                        POut::Done((init, it), s4) => {
                            let var = match ann {
                                Some(t) => if can_coerce(it, t) {
                                    Ok(t)
                                } else {
                                    Err(AbortV::DeclarationType(t, it))
                                },
                                None => Ok(it),
                            };
                            match var {
                                Err(a) => POut::Fail(FailV::Abort(a)),
                                Ok(vt) => if s4.env.len() == 0 {
                                    POut::Fail(FailV::Abort(AbortV::MisalignedEnvironment))
                                } else {
                                    let env = s4.env.update(
                                        s4.env.len() - 1,
                                        frame_insert(s4.env.last(), name, vt),
                                    );
                                    POut::Done(
                                        (
                                            ExprV {
                                                span: joined(let_span, init.span),
                                                kind: ExprKindV::Decl { value: Box::new(init) },
                                            },
                                            TypV::Null,
                                        ),
                                        PSt { rem: s4.rem, env },
                                    )
                                },
                            }
                        },
                        POut::Fail(f) => POut::Fail(f),
                    }
                },
                POut::Fail(f) => POut::Fail(f),
            },
            POut::Fail(f) => POut::Fail(f),
        },
        POut::Fail(f) => POut::Fail(f),
    }
}

/// The scope of a function's parameters: each declared at type `any`.
pub open spec fn params_frame(params: Seq<(Seq<char>, TypV)>) -> FrameV
    decreases params.len(),
{
    if params.len() == 0 {
        empty_frame()
    } else {
        frame_insert(params_frame(params.drop_last()), params.last().0, TypV::Any)
    }
}

/// A function definition `fn (parameters) { body }` after `fn` at `fn_span`: the
/// function's type has the annotated parameter types and the body's type.
pub open spec fn sp_func_def(s: PSt, fn_span: Span) -> POut<(ExprV, TypV)>
    decreases s.rem.len(), 10nat, 0nat,
{
    match sp_consume(s, TokenKind::OpenParen, "Function definition requires an opening parentheses."@) {
        POut::Done(_, s1) => match sp_consume_parameters(s1) {
            POut::Done(params, s2) => match sp_consume(
                s2,
                TokenKind::OpenBracket,
                "Function definition requires an opening bracket."@,
            ) {
                POut::Done(_, s3) => if !fewer(s3, s) {
                    POut::Fail(FailV::Stuck)
                } else {
                    match sp_block(s3, params_frame(params)) {
                        POut::Done((body, close, body_typ), s4) => POut::Done(
                            (
                                ExprV {
                                    span: joined(fn_span, close),
                                    kind: ExprKindV::Func { param_count: params.len(), body },
                                },
                                TypV::Function {
                                    params: params.map_values(|p: (Seq<char>, TypV)| p.1),
                                    ret: Box::new(body_typ),
                                },
                            ),
                            s4,
                        ),
                        POut::Fail(f) => POut::Fail(f),
                    }
                },
                POut::Fail(f) => POut::Fail(f),
            },
            POut::Fail(f) => POut::Fail(f),
        },
        POut::Fail(f) => POut::Fail(f),
    }
}

/// A block after its opening bracket, in the new innermost scope `frame`: its
/// expressions, the closing bracket's span and the block's type. A block that
/// ends in `;` gets a trailing `null` and has type `null`; an empty block has no
/// expressions and type `null`.
pub open spec fn sp_block(s: PSt, frame: FrameV) -> POut<(Seq<ExprV>, Span, TypV)>
    decreases s.rem.len(), 10nat, 0nat,
{
    match sp_matches(s, TokenKind::CloseBracket) {
        POut::Done(Some(close), s1) => POut::Done((seq![], close.span, TypV::Null), s1),
        POut::Done(None, s1) => {
            let s2 = push_frame(s1, frame);
            match sp_parse_expr(s2) {
                POut::Done((first, t), s3) => if !no_more(s3, s2) {
                    POut::Fail(FailV::Stuck)
                } else {
                    sp_block_rest(s3, seq![first], t)
                },
                POut::Fail(f) => POut::Fail(f),
            }
        },
        POut::Fail(f) => POut::Fail(f),
    }
}

/// The rest of a block after its first expression.
pub open spec fn sp_block_rest(s: PSt, exprs: Seq<ExprV>, t: TypV) -> POut<(Seq<ExprV>, Span, TypV)>
    decreases s.rem.len(), 1nat, 0nat,
{
    match sp_matches(s, TokenKind::Semi) {
        POut::Done(Some(_), s1) => match sp_matches(s1, TokenKind::CloseBracket) {
            POut::Done(Some(close), s2) => if s2.env.len() == 0 {
                POut::Fail(FailV::Abort(AbortV::MisalignedEnvironment))
            } else {
                POut::Done(
                    (exprs.push(literal(LiteralV::Null, close.span)), close.span, TypV::Null),
                    pop_frame(s2),
                )
            },
            POut::Done(None, s2) => match sp_parse_expr(s2) {
                POut::Done((next, nt), s3) => if !no_more(s3, s2) {
                    POut::Fail(FailV::Stuck)
                } else {
                    sp_block_rest(s3, exprs.push(next), nt)
                },
                POut::Fail(f) => POut::Fail(f),
            },
            POut::Fail(f) => POut::Fail(f),
        },
        POut::Done(None, s1) => match sp_consume(
            s1,
            TokenKind::CloseBracket,
            "Expected '}' after block. Check for a missing semicolon on the previous line"@,
        ) {
            POut::Done(close, s2) => if s2.env.len() == 0 {
                POut::Fail(FailV::Abort(AbortV::MisalignedEnvironment))
            } else {
                POut::Done((exprs, close.span, t), pop_frame(s2))
            },
            POut::Fail(f) => POut::Fail(f),
        },
        POut::Fail(f) => POut::Fail(f),
    }
}

/// A block used as an expression, after its opening bracket at `open`.
pub open spec fn sp_naked_block(s: PSt, open: Span) -> POut<(ExprV, TypV)>
    decreases s.rem.len(), 11nat, 0nat,
{
    match sp_block(s, empty_frame()) {
        POut::Done((body, close, t), s1) => POut::Done(
            (ExprV { span: joined(open, close), kind: ExprKindV::Block(body) }, t),
            s1,
        ),
        POut::Fail(f) => POut::Fail(f),
    }
}

/// An `if` after the keyword at `if_span`: a condition, a block, and optionally
/// `otherwise` with a block or another `if`, whose type must coerce to the first
/// block's. The expression has the first block's type.
pub open spec fn sp_if(s: PSt, if_span: Span) -> POut<(ExprV, TypV)>
    decreases s.rem.len(), 10nat, 0nat,
{
    match sp_parse_expr(s) {
        POut::Done((cond, _), s1) => match sp_consume(s1, TokenKind::OpenBracket, "Expected '{' after if condition"@) {
            POut::Done(_, s2) => if !fewer(s2, s) {
                POut::Fail(FailV::Stuck)
            } else {
                match sp_block(s2, empty_frame()) {
                    POut::Done((then, then_end, then_typ), s3) => if !no_more(s3, s2) {
                        POut::Fail(FailV::Stuck)
                    } else {
                        match sp_matches(s3, TokenKind::Otherwise) {
                            POut::Done(None, s4) => POut::Done(
                                (
                                    ExprV {
                                        kind: ExprKindV::If { cond: Box::new(cond), then, otherwise: None },
                                        span: joined(if_span, then_end),
                                    },
                                    then_typ,
                                ),
                                s4,
                            ),
                            POut::Done(Some(_), s4) => match sp_otherwise(s4, if_span, then_typ) {
                                POut::Done((otherwise, span), s5) => POut::Done(
                                    (
                                        ExprV {
                                            kind: ExprKindV::If {
                                                cond: Box::new(cond),
                                                then,
                                                otherwise: Some(Box::new(otherwise)),
                                            },
                                            span,
                                        },
                                        then_typ,
                                    ),
                                    s5,
                                ),
                                POut::Fail(f) => POut::Fail(f),
                            },
                            POut::Fail(f) => POut::Fail(f),
                        }
                    },
                    POut::Fail(f) => POut::Fail(f),
                }
            },
            POut::Fail(f) => POut::Fail(f),
        },
        POut::Fail(f) => POut::Fail(f),
    }
}

/// What follows `otherwise` in an `if` at `if_span` whose first block has type
/// `then_typ`: the `otherwise` branch and the span of the whole `if`.
pub open spec fn sp_otherwise(s: PSt, if_span: Span, then_typ: TypV) -> POut<(ExprV, Span)>
    decreases s.rem.len(), 10nat, 2nat,
{
    match sp_next(s) {
        POut::Done(Some(l), s1) => if l.t == TokenV::Plain(TokenKind::OpenBracket) {
            sp_otherwise_block(s1, if_span, then_typ, l.span)
        } else if l.t == TokenV::Plain(TokenKind::If) {
            sp_otherwise_if(s1, then_typ, l.span)
        } else {
            POut::Fail(FailV::Error(ParseErrV::InvalidOtherwise { actual: l }))
        },
        POut::Done(None, _) => POut::Fail(FailV::Error(ParseErrV::InvalidOtherwiseGotNothing)),
        POut::Fail(f) => POut::Fail(f),
    }
}

/// A block opened at `open` after `otherwise`, whose type must coerce to
/// `then_typ`; the whole `if` spans from `if_span` to the block's end.
pub open spec fn sp_otherwise_block(s: PSt, if_span: Span, then_typ: TypV, open: Span) -> POut<(ExprV, Span)>
    decreases s.rem.len(), 10nat, 1nat,
{
    match sp_block(s, empty_frame()) {
        POut::Done((body, close, ot), s1) => if !can_coerce(then_typ, ot) {
            POut::Fail(FailV::Abort(AbortV::BranchTypes))
        } else {
            POut::Done(
                (ExprV { kind: ExprKindV::Block(body), span: joined(open, close) }, joined(if_span, close)),
                s1,
            )
        },
        POut::Fail(f) => POut::Fail(f),
    }
}

/// Another `if`, whose keyword is at `inner_span`, after `otherwise`; its type must
/// coerce to `then_typ`, and the whole `if` has the inner one's span.
pub open spec fn sp_otherwise_if(s: PSt, then_typ: TypV, inner_span: Span) -> POut<(ExprV, Span)>
    decreases s.rem.len(), 10nat, 1nat,
{
    match sp_if(s, inner_span) {
        POut::Done((inner, it), s1) => if !can_coerce(then_typ, it) {
            POut::Fail(FailV::Abort(AbortV::InnerIfTypes))
        } else {
            POut::Done((inner, inner.span), s1)
        },
        POut::Fail(f) => POut::Fail(f),
    }
}

/// A `while` after the keyword at `while_span`: a condition that must coerce to
/// `bool`, and a block. The loop has type `null`.
pub open spec fn sp_while(s: PSt, while_span: Span) -> POut<(ExprV, TypV)>
    decreases s.rem.len(), 10nat, 0nat,
{
    match sp_parse_expr(s) {
        POut::Done((cond, ct), s1) => if !can_coerce(ct, TypV::Bool) {
            POut::Fail(FailV::Abort(AbortV::ConditionNotBool))
        } else {
            match sp_consume(s1, TokenKind::OpenBracket, "Expected '{' after while"@) {
                POut::Done(_, s2) => if !fewer(s2, s) {
                    POut::Fail(FailV::Stuck)
                } else {
                    match sp_block(s2, empty_frame()) {
                        POut::Done((body, close, _), s3) => POut::Done(
                            (
                                ExprV {
                                    kind: ExprKindV::While { cond: Box::new(cond), body },
                                    span: joined(while_span, close),
                                },
                                TypV::Null,
                            ),
                            s3,
                        ),
                        POut::Fail(f) => POut::Fail(f),
                    }
                },
                POut::Fail(f) => POut::Fail(f),
            }
        },
        POut::Fail(f) => POut::Fail(f),
    }
}

/// A `for` after the keyword at `for_span`: `init; condition; update { body }`,
/// read as the block `{ init; while condition { { body }; update } }`. The
/// condition must coerce to `bool`. Two new scopes are opened, one before the
/// initializer and one before the update, matching the scopes that the block and
/// each turn of the loop run in; both are closed after the body.
pub open spec fn sp_for(s: PSt, for_span: Span) -> POut<(ExprV, TypV)>
    decreases s.rem.len(), 10nat, 2nat,
{
    match sp_parse_expr(push_frame(s, empty_frame())) {
        POut::Done((init, _), s1) => match sp_consume(s1, TokenKind::Semi, "Expected ';' after for loop init"@) {
            POut::Done(_, s2) => if !fewer(s2, s) {
                POut::Fail(FailV::Stuck)
            } else {
                sp_for_cond(s2, for_span, init)
            },
            POut::Fail(f) => POut::Fail(f),
        },
        POut::Fail(f) => POut::Fail(f),
    }
}

/// The rest of a `for` after its initializer `init` and the `;` that follows it:
/// the condition, which must coerce to `bool`, and its `;`.
pub open spec fn sp_for_cond(s: PSt, for_span: Span, init: ExprV) -> POut<(ExprV, TypV)>
    decreases s.rem.len(), 10nat, 1nat,
{
    match sp_parse_expr(s) {
        POut::Done((cond, ct), s1) => if !can_coerce(ct, TypV::Bool) {
            POut::Fail(FailV::Abort(AbortV::ConditionNotBool))
        } else {
            match sp_consume(s1, TokenKind::Semi, "Expected ';' after for loop condition"@) {
                POut::Done(_, s2) => if !fewer(s2, s) {
                    POut::Fail(FailV::Stuck)
                } else {
                    sp_for_body(s2, for_span, init, cond)
                },
                POut::Fail(f) => POut::Fail(f),
            }
        },
        POut::Fail(f) => POut::Fail(f),
    }
}

/// The rest of a `for` after its condition `cond` and the `;` that follows it: the
/// update, in a new scope, and the body.
pub open spec fn sp_for_body(s: PSt, for_span: Span, init: ExprV, cond: ExprV) -> POut<(ExprV, TypV)>
    decreases s.rem.len(), 10nat, 0nat,
{
    match sp_parse_expr(push_frame(s, empty_frame())) {
        POut::Done((update, _), s1) => match sp_consume(s1, TokenKind::OpenBracket, "Expected '{' after 'for'"@) {
            POut::Done(open, s2) => if !fewer(s2, s) {
                POut::Fail(FailV::Stuck)
            } else {
                match sp_block(s2, empty_frame()) {
                    POut::Done((body, close, _), s3) => if s3.env.len() < 2 {
                        POut::Fail(FailV::Abort(AbortV::MisalignedEnvironment))
                    } else {
                        POut::Done(
                            (
                                for_v(init, cond, update, body, joined(open.span, close), joined(for_span, close)),
                                TypV::Null,
                            ),
                            pop_frame(pop_frame(s3)),
                        )
                    },
                    POut::Fail(f) => POut::Fail(f),
                }
            },
            POut::Fail(f) => POut::Fail(f),
        },
        POut::Fail(f) => POut::Fail(f),
    }
}

/// A program: expressions, each followed by `;`, until no token is left.
pub open spec fn sp_program(s: PSt, acc: Seq<ExprV>) -> POut<Seq<ExprV>>
    decreases s.rem.len(), 10nat, 0nat,
{
    if s.rem.len() == 0 {
        POut::Done(acc, s)
    } else {
        match sp_parse_expr(s) {
            POut::Done((e, _), s1) => match sp_consume(s1, TokenKind::Semi, "Expected ';' after expression"@) {
                POut::Done(_, s2) => if !fewer(s2, s) {
                    POut::Fail(FailV::Stuck)
                } else {
                    sp_program(s2, acc.push(e))
                },
                POut::Fail(f) => POut::Fail(f),
            },
            POut::Fail(f) => POut::Fail(f),
        }
    }
}

/// The scopes a parser starts with: one global scope.
pub open spec fn initial_env() -> Seq<FrameV> {
    seq![empty_frame()]
}

/// The outcome of parsing the whole token stream `tokens` from the start.
pub open spec fn parse_program(tokens: Seq<LexResV>) -> POut<Seq<ExprV>> {
    sp_program(PSt { rem: tokens, env: initial_env() }, seq![])
}


/// A declaration has type `null`.
pub proof fn law_decl_is_null(s: PSt, span: Span)
    ensures
        sp_decl(s, span) matches POut::Done((_, t), _) ==> t == TypV::Null,
{
}

/// A `while` loop has type `null`.
pub proof fn law_while_is_null(s: PSt, span: Span)
    ensures
        sp_while(s, span) matches POut::Done((_, t), _) ==> t == TypV::Null,
{
}

/// An assignment, an expression followed by `=` and a value, has type `null`.
pub proof fn law_assignment_is_null(s: PSt)
    ensures
        (sp_comparisons(s) matches POut::Done(_, s1) && sp_matches(s1, TokenKind::Eq) matches POut::Done(Some(_), _))
            ==> (sp_var_set(s) matches POut::Done((_, t), _) ==> t == TypV::Null),
{
    match sp_comparisons(s) {
        POut::Done(_, s1) => match sp_matches(s1, TokenKind::Eq) {
            POut::Done(Some(_), s2) => {
                assert(sp_var_set(s) matches POut::Done((_, t), _) ==> t == TypV::Null);
            },
            _ => {},
        },
        _ => {},
    }
}

/// A program that parses is read to its last token.
pub proof fn law_program_reads_all(s: PSt, acc: Seq<ExprV>)
    ensures
        sp_program(s, acc) matches POut::Done(_, s2) ==> s2.rem.len() == 0,
    decreases s.rem.len(),
{
    if s.rem.len() > 0 {
        match sp_parse_expr(s) {
            POut::Done((e, _), s1) => match sp_consume(s1, TokenKind::Semi, "Expected ';' after expression"@) {
                POut::Done(_, s2) => if fewer(s2, s) {
                    law_program_reads_all(s2, acc.push(e));
                },
                POut::Fail(_) => {},
            },
            POut::Fail(_) => {},
        }
    }
}


/// A name resolves to its latest declaration in the innermost scope that declares
/// it: a read of that slot, `depth` scopes out, with the type declared there. A name
/// that no scope declares stays a name.
pub proof fn law_name_resolution(env: Seq<FrameV>, name: Seq<char>, span: Span)
    requires
        forall|i: int| 0 <= i < env.len() ==> (#[trigger] env[i]).names.len() == env[i].typs.len(),
    ensures
        match parse_ident(env, name, span).0.kind {
            ExprKindV::VarGet { depth, slot } => {
                let f = env[env.len() - 1 - depth];
                &&& depth < env.len()
                &&& slot < f.names.len()
                &&& f.names[slot as int] == name
                &&& parse_ident(env, name, span).1 == f.typs[slot as int]
                &&& forall|k: int| slot < k < f.names.len() ==> #[trigger] f.names[k] != name
                &&& forall|d: int, k: int|
                    0 <= d < depth && 0 <= k < env[env.len() - 1 - d].names.len() ==> #[trigger] env[env.len() - 1
                        - d].names[k] != name
            },
            ExprKindV::Ident(n) => {
                &&& n == name
                &&& forall|d: int, k: int|
                    0 <= d < env.len() && 0 <= k < env[env.len() - 1 - d].names.len() ==> #[trigger] env[env.len() - 1
                        - d].names[k] != name
            },
            _ => false,
        },
{
    lemma_find_var_from(env, name, 0);
}

proof fn lemma_find_var_from(env: Seq<FrameV>, name: Seq<char>, depth: nat)
    requires
        depth <= env.len(),
    ensures
        match find_var_from(env, name, depth) {
            Some((d, slot)) => {
                let f = env[env.len() - 1 - d];
                &&& depth <= d < env.len()
                &&& last_index(f.names, name) == Some(slot)
                &&& slot < f.names.len()
                &&& f.names[slot as int] == name
                &&& forall|k: int| slot < k < f.names.len() ==> #[trigger] f.names[k] != name
                &&& forall|e: int, k: int|
                    depth <= e < d && 0 <= k < env[env.len() - 1 - e].names.len() ==> #[trigger] env[env.len() - 1
                        - e].names[k] != name
            },
            None => forall|e: int, k: int|
                depth <= e < env.len() && 0 <= k < env[env.len() - 1 - e].names.len() ==> #[trigger] env[env.len()
                    - 1 - e].names[k] != name,
        },
    decreases env.len() - depth,
{
    if depth < env.len() {
        let f = env[env.len() - 1 - depth];
        lemma_last_index(f.names, name);
        match last_index(f.names, name) {
            Some(i) => {},
            None => {
                lemma_find_var_from(env, name, depth + 1);
            },
        }
    }
}


/// An assignment `name = value` is checked against the type that reading `name`
/// gives: it is refused exactly when the value's type does not coerce to it, and
/// otherwise writes to the variable that reading `name` reads.
pub proof fn law_assignment_checks_variable_type(s: PSt, name: Seq<char>, span: Span, eq: LexemeV)
    requires
        s.rem.len() >= 2,
        s.rem[0] == LexResV::Ok(LexemeV { t: TokenV::Ident(name), span }),
        s.rem[1] == LexResV::Ok(eq),
        eq.t == TokenV::Plain(TokenKind::Eq),
        find_var(s.env, name) is Some,
    ensures
        ({
            let (read, typ) = parse_ident(s.env, name, span);
            sp_var_set(s) == match sp_comparisons(advance(advance(s))) {
                POut::Done((value, tv), s3) => if !can_coerce(tv, typ) {
                    POut::Fail(FailV::Abort(AbortV::AssignmentType(tv, typ)))
                } else {
                    POut::Done(
                        (
                            ExprV {
                                kind: ExprKindV::VarSet {
                                    value: Box::new(value),
                                    depth: read.kind->VarGet_depth,
                                    slot: read.kind->VarGet_slot,
                                },
                                span: joined(span, value.span),
                            },
                            TypV::Null,
                        ),
                        s3,
                    )
                },
                POut::Fail(f) => POut::Fail(f),
            }
        }),
{
    let s1 = advance(s);
    let r = parse_ident(s.env, name, span);
    assert(s1.rem[0] == LexResV::Ok(eq));
    assert(sp_basic(s) == POut::Done(r, s1));
    assert(sp_call_suffix(s1, r.0, r.1) == POut::Done(r, s1));
    assert(sp_func_call(s) == POut::Done(r, s1));
    assert(sp_peek_kind(s) == POut::Done(Some(TokenKind::Ident), s));
    assert(sp_unary(s) == POut::Done(r, s1));
    assert(sp_peek_kind(s1) == POut::Done(Some(TokenKind::Eq), s1));
    assert(sp_mult_div_mod(s) == POut::Done(r, s1));
    assert(sp_add_sub(s) == POut::Done(r, s1));
    assert(sp_comparisons(s) == POut::Done(r, s1));
    assert(sp_matches(s1, TokenKind::Eq) == POut::Done(Some(eq), advance(s1)));
}


/// A token stands for a binary operator only when it is written as that operator,
/// and only at the operator's precedence; each binary operator is read from the
/// token that writes it.
pub proof fn law_binary_operator_tokens()
    ensures
        forall|k: TokenKind, level: nat|
            level <= 2 ==> (#[trigger] binary_op_of(k, level) matches Some(op) ==> kind_text(k) == binary_op_symbol(op)
                && binary_precedence(op) == level),
        binary_op_of(TokenKind::Plus, 1) == Some(BinaryOp::Add),
        binary_op_of(TokenKind::Minus, 1) == Some(BinaryOp::Subtract),
        binary_op_of(TokenKind::Star, 2) == Some(BinaryOp::Multiply),
        binary_op_of(TokenKind::Slash, 2) == Some(BinaryOp::Divide),
        binary_op_of(TokenKind::Percent, 2) == Some(BinaryOp::Modulo),
        binary_op_of(TokenKind::EqEq, 0) == Some(BinaryOp::Equal),
        binary_op_of(TokenKind::BangEq, 0) == Some(BinaryOp::NotEqual),
        binary_op_of(TokenKind::Greater, 0) == Some(BinaryOp::GreaterThan),
        binary_op_of(TokenKind::Less, 0) == Some(BinaryOp::LessThan),
        binary_op_of(TokenKind::GreaterEq, 0) == Some(BinaryOp::GreaterEq),
        binary_op_of(TokenKind::LessEq, 0) == Some(BinaryOp::LessEq),
{
    assert forall|k: TokenKind, level: nat|
        level <= 2 implies (#[trigger] binary_op_of(k, level) matches Some(op) ==> kind_text(k) == binary_op_symbol(op)
            && binary_precedence(op) == level) by {
        if level == 0 {
        } else if level == 1 {
        } else {
        }
    }
}

/// A token stands for a unary operator only when it is written as that operator;
/// each unary operator is read from the token that writes it.
pub proof fn law_unary_operator_tokens()
    ensures
        forall|k: TokenKind| #[trigger] unary_op_of(k) matches Some(op) ==> kind_text(k) == unary_op_symbol(op),
        unary_op_of(TokenKind::Minus) == Some(UnaryOp::Negate),
        unary_op_of(TokenKind::Tilde) == Some(UnaryOp::BitNot),
        unary_op_of(TokenKind::Bang) == Some(UnaryOp::BoolNot),
{
}

/// The operand types of binary operators: `any` on either side gives `any`; every
/// comparison compares two numbers or two strings into a boolean; every other
/// operator takes two numbers to a number; `+` also joins two strings and `*`
/// repeats a string a number of times; booleans, `null` and functions are never
/// operands, nor are a number and a string compared.
pub proof fn law_binary_operand_types()
    ensures
        forall|l: TypV, op: BinaryOp, r: TypV|
            (l == TypV::Any || r == TypV::Any) ==> #[trigger] type_of_binaryop(l, op, r) == Ok::<TypV, AbortV>(TypV::Any),
        forall|op: BinaryOp|
            binary_precedence(op) == 0 ==> #[trigger] type_of_binaryop(TypV::Number, op, TypV::Number) == Ok::<
                TypV,
                AbortV,
            >(TypV::Bool) && type_of_binaryop(TypV::String, op, TypV::String) == Ok::<TypV, AbortV>(TypV::Bool),
        forall|op: BinaryOp|
            binary_precedence(op) != 0 ==> #[trigger] type_of_binaryop(TypV::Number, op, TypV::Number) == Ok::<
                TypV,
                AbortV,
            >(TypV::Number),
        type_of_binaryop(TypV::String, BinaryOp::Add, TypV::String) == Ok::<TypV, AbortV>(TypV::String),
        type_of_binaryop(TypV::String, BinaryOp::Multiply, TypV::Number) == Ok::<TypV, AbortV>(TypV::String),
        forall|l: TypV, op: BinaryOp, r: TypV|
            (l == TypV::Bool || l == TypV::Null || l is Function || r == TypV::Bool || r == TypV::Null || r is Function)
                && l != TypV::Any && r != TypV::Any ==> #[trigger] type_of_binaryop(l, op, r) == Err::<TypV, AbortV>(
                AbortV::UnsupportedBinary(op, l, r),
            ),
        forall|op: BinaryOp|
            binary_precedence(op) == 0 ==> #[trigger] type_of_binaryop(TypV::Number, op, TypV::String) is Err
                && type_of_binaryop(TypV::String, op, TypV::Number) is Err,
{
}

/// The operand types of unary operators: `any` gives `any`; negation and bitwise
/// not take a number to a number; boolean not takes a boolean to a boolean; nothing
/// else is taken.
pub proof fn law_unary_operand_types()
    ensures
        forall|op: UnaryOp| #[trigger] type_of_unaryop(op, TypV::Any) == Ok::<TypV, AbortV>(TypV::Any),
        type_of_unaryop(UnaryOp::Negate, TypV::Number) == Ok::<TypV, AbortV>(TypV::Number),
        type_of_unaryop(UnaryOp::BitNot, TypV::Number) == Ok::<TypV, AbortV>(TypV::Number),
        type_of_unaryop(UnaryOp::BoolNot, TypV::Bool) == Ok::<TypV, AbortV>(TypV::Bool),
        forall|op: UnaryOp, t: TypV|
            t != TypV::Any && !(t == TypV::Number && op != UnaryOp::BoolNot) && !(t == TypV::Bool && op == UnaryOp::BoolNot)
                ==> #[trigger] type_of_unaryop(op, t) == Err::<TypV, AbortV>(AbortV::UnsupportedUnary(op, t)),
{
}

/// A function definition that parses has the function type whose parameter types
/// are the annotated ones and whose return type is the type of its body block, read
/// in the scope of its parameters; the definition holds that body and counts the
/// parameters.
pub proof fn law_func_def_type(s: PSt, fn_span: Span)
    ensures
        sp_func_def(s, fn_span) matches POut::Done((e, t), _) ==> {
            &&& sp_consume_parameters(advance(s)) matches POut::Done(params, s2)
            &&& sp_block(advance(s2), params_frame(params)) matches POut::Done((body, _, body_typ), _)
            &&& t == TypV::Function { params: params.map_values(|p: (Seq<char>, TypV)| p.1), ret: Box::new(body_typ) }
            &&& e.kind == ExprKindV::Func { param_count: params.len(), body }
        },
{
}

} // verus!
