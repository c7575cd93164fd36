//! The parser: reads tokens into expressions, resolving each variable to its scope
//! and slot and checking the types of what it reads.

use vstd::prelude::*;
use crate::loc::{Span, joined};
use crate::lexer::{Token, TokenKind, Lexeme, LexerError, LexResV, res_view};
use crate::ast::{
    BinaryOp, UnaryOp, Expr, ExprV, ExprKind, Literal, Typ, TypV, EnvStackFrame, FrameV, str_eq, can_coerce, lemma_typs_view,
    typs_view, lemma_typ_view_function, lemma_typs_view_push, lemma_exprs_view_empty, lemma_exprs_view, lemma_exprs_view_push, exprs_view, empty_frame,
};
use crate::grammar::{ParseErrV, AbortV, FailV, PSt, POut, fewer, no_more, advance, sp_next, sp_matches, sp_peek_kind, sp_consume, sp_consume_ident, typ_of_kind, sp_parse_typ, sp_parameter, sp_params_rest, sp_consume_parameters, type_of_unaryop, type_of_binaryop, type_of_ident, find_var_from, find_var, parse_ident, literal, binary_op_of, unary_op_of, push_frame, pop_frame, sp_parse_expr, sp_var_set, sp_comparisons, sp_add_sub, sp_mult_div_mod, sp_unary, sp_func_call, args_coerce, sp_call_suffix, sp_consume_args, sp_args_rest, sp_basic, sp_paren, sp_decl, params_frame, sp_func_def, sp_block, sp_block_rest, sp_naked_block, sp_if, sp_otherwise, sp_otherwise_block, sp_otherwise_if, sp_while, sp_for, sp_for_cond, sp_for_body, sp_program, initial_env, parse_program};

verus! {

/// What is wrong with a program that the parser reads.
#[derive(Debug)]
pub enum ParserError {
    LexerError(LexerError),
    ExpectedActualMismatch { expected: Token, actual: Lexeme, message: &'static str },
    ExpectedGotNone { expected: Token, message: &'static str },
    ExpectedIdent { actual: Lexeme, message: &'static str },
    ExpectedIdentGotNone { message: &'static str },
    InvalidVariableName { span: Span },
    Unexpected { actual: Lexeme },
    UnexpectedGotNone,
    InvalidOtherwise { actual: Lexeme },
    InvalidOtherwiseGotNothing,
}

impl View for ParserError {
    type V = ParseErrV;

    open spec fn view(&self) -> ParseErrV {
        match self {
            ParserError::LexerError(e) => ParseErrV::LexerError(e@),
            ParserError::ExpectedActualMismatch { expected, actual, message } => ParseErrV::ExpectedActualMismatch {
                expected: expected.spec_kind(),
                actual: actual@,
                message: message@,
            },
            ParserError::ExpectedGotNone { expected, message } => ParseErrV::ExpectedGotNone {
                expected: expected.spec_kind(),
                message: message@,
            },
            ParserError::ExpectedIdent { actual, message } => ParseErrV::ExpectedIdent {
                actual: actual@,
                message: message@,
            },
            ParserError::ExpectedIdentGotNone { message } => ParseErrV::ExpectedIdentGotNone { message: message@ },
            ParserError::InvalidVariableName { span } => ParseErrV::InvalidVariableName { span: *span },
            ParserError::Unexpected { actual } => ParseErrV::Unexpected { actual: actual@ },
            ParserError::UnexpectedGotNone => ParseErrV::UnexpectedGotNone,
            ParserError::InvalidOtherwise { actual } => ParseErrV::InvalidOtherwise { actual: actual@ },
            ParserError::InvalidOtherwiseGotNothing => ParseErrV::InvalidOtherwiseGotNothing,
        }
    }
}

/// Why the parser refuses a program that it reads: a type error, or scopes it
/// cannot index.
#[derive(Debug)]
pub enum Abort {
    /// A function parameter without a type annotation.
    ParameterWithoutType,
    /// A unary operator on an operand of a type it does not take.
    UnsupportedUnary(UnaryOp, Typ),
    /// A binary operator on operands of types it does not take.
    UnsupportedBinary(BinaryOp, Typ, Typ),
    /// A token after `:` that names no type.
    ExpectedTypeGot(Token),
    /// Nothing after `:`.
    ExpectedTypeGotNone,
    /// A loop condition that is not a boolean.
    ConditionNotBool,
    /// An `otherwise` block whose type differs from the first block's.
    BranchTypes,
    /// An `otherwise if` whose type differs from the first block's.
    InnerIfTypes,
    /// A call of something that is not a function.
    NotAFunction,
    /// A call with as many arguments as the second number, of a function with as
    /// many parameters as the first.
    ArgumentCount(usize, usize),
    /// An argument whose type does not coerce to its parameter's.
    ArgumentType,
    /// An assigned value (first type) that does not coerce to the variable's type (second).
    AssignmentType(Typ, Typ),
    /// A declaration's value (second type) that does not coerce to its annotation (first).
    DeclarationType(Typ, Typ),
    /// A scope to close or declare into that is not there.
    MisalignedEnvironment,
}

impl View for Abort {
    type V = AbortV;

    open spec fn view(&self) -> AbortV {
        match self {
            Abort::ParameterWithoutType => AbortV::ParameterWithoutType,
            Abort::UnsupportedUnary(op, t) => AbortV::UnsupportedUnary(*op, t@),
            Abort::UnsupportedBinary(op, l, r) => AbortV::UnsupportedBinary(*op, l@, r@),
            Abort::ExpectedTypeGot(t) => AbortV::ExpectedTypeGot(t@),
            Abort::ExpectedTypeGotNone => AbortV::ExpectedTypeGotNone,
            Abort::ConditionNotBool => AbortV::ConditionNotBool,
            Abort::BranchTypes => AbortV::BranchTypes,
            Abort::InnerIfTypes => AbortV::InnerIfTypes,
            Abort::NotAFunction => AbortV::NotAFunction,
            Abort::ArgumentCount(a, b) => AbortV::ArgumentCount(*a as nat, *b as nat),
            Abort::ArgumentType => AbortV::ArgumentType,
            Abort::AssignmentType(a, b) => AbortV::AssignmentType(a@, b@),
            Abort::DeclarationType(a, b) => AbortV::DeclarationType(a@, b@),
            Abort::MisalignedEnvironment => AbortV::MisalignedEnvironment,
        }
    }
}

/// How parsing stops short: an error in the program, or a refusal.
#[derive(Debug)]
pub enum ParseFault {
    Error(ParserError),
    Abort(Abort),
}

impl View for ParseFault {
    type V = FailV;

    open spec fn view(&self) -> FailV {
        match self {
            ParseFault::Error(e) => FailV::Error(e@),
            ParseFault::Abort(a) => FailV::Abort(a@),
        }
    }
}

/// The values of a list of lexer results, read from last to first.
pub open spec fn reversed_view(v: Seq<Result<Lexeme, LexerError>>) -> Seq<LexResV> {
    Seq::new(v.len(), |i: int| res_view(v[v.len() - 1 - i]))
}

/// The values of the lexer results in order.
pub open spec fn results_view(v: Seq<Result<Lexeme, LexerError>>) -> Seq<LexResV> {
    v.map_values(|x: Result<Lexeme, LexerError>| res_view(x))
}

/// Reads a stream of tokens into expressions.
pub struct Parser {
    stream: Vec<Result<Lexeme, LexerError>>,
    env: Vec<EnvStackFrame>,
}

/// A successful step's value and state, as the grammar states them.
pub open spec fn done<T>(o: POut<T>, v: T, st: PSt) -> bool {
    o == POut::Done(v, st)
}

impl Parser {
    /// The tokens not yet read, in order.
    pub closed spec fn rem(self) -> Seq<LexResV> {
        reversed_view(self.stream@)
    }

    /// The scopes, innermost last.
    pub closed spec fn env_v(self) -> Seq<FrameV> {
        self.env@.map_values(|f: EnvStackFrame| f@)
    }

    /// The parser's state.
    pub open spec fn st(self) -> PSt {
        PSt { rem: self.rem(), env: self.env_v() }
    }

    /// A parser over `stream`, with one empty global scope.
    pub fn new(stream: Vec<Result<Lexeme, LexerError>>) -> (r: Self)
        ensures
            r.st() == (PSt { rem: results_view(stream@), env: initial_env() }),
    {
        let mut input = stream;
        let ghost orig = input@;
        let mut rev: Vec<Result<Lexeme, LexerError>> = Vec::new();
        while input.len() > 0
            invariant
                input@ == orig.take(input@.len() as int),
                input@.len() + rev@.len() == orig.len(),
                forall|j: int| 0 <= j < rev@.len() ==> rev@[j] == orig[orig.len() - 1 - j],
            decreases input@.len(),
        {
            let x = input.pop().unwrap();
            rev.push(x);
            assert(input@ =~= orig.take(input@.len() as int));
        }
        let mut env: Vec<EnvStackFrame> = Vec::new();
        env.push(EnvStackFrame::new());
        let r = Parser { stream: rev, env };
        assert(r.env_v() =~= initial_env());
        assert(r.rem() =~= results_view(orig)) by {
            assert forall|i: int| 0 <= i < orig.len() implies r.rem()[i] == results_view(orig)[i] by {
                assert(rev@[rev@.len() - 1 - i] == orig[i]);
            }
        }
        r
    }

    /// A parser over `stream` for testing; the same as [`Parser::new`].
    pub fn test(stream: Vec<Result<Lexeme, LexerError>>) -> (r: Self)
        ensures
            r.st() == (PSt { rem: results_view(stream@), env: initial_env() }),
    {
        Parser::new(stream)
    }

    /// Reads the next token; see [`sp_next`].
    fn next(&mut self) -> (r: Result<Option<Lexeme>, ParseFault>)
        ensures
            match r {
                Ok(None) => done(sp_next(old(self).st()), None, final(self).st()),
                Ok(Some(l)) => done(sp_next(old(self).st()), Some(l@), final(self).st()),
                Err(f) => sp_next(old(self).st()) == POut::<Option<crate::lexer::LexemeV>>::Fail(f@),
            },
    {
        let ghost before = self.rem();
        match self.stream.pop() {
            None => {
                assert(before.len() == 0);
                Ok(None)
            },
            Some(Ok(l)) => {
                assert(self.rem() =~= before.drop_first());
                assert(self.env_v() =~= old(self).env_v());
                Ok(Some(l))
            },
            Some(Err(e)) => Err(ParseFault::Error(ParserError::LexerError(e))),
        }
    }

    /// The kind of the next token, without reading it; see [`sp_peek_kind`].
    fn peek_kind(&mut self) -> (r: Result<Option<TokenKind>, ParseFault>)
        ensures
            match r {
                Ok(k) => done(sp_peek_kind(old(self).st()), k, final(self).st()),
                Err(f) => sp_peek_kind(old(self).st()) == POut::<Option<TokenKind>>::Fail(f@),
            },
    {
        let ghost before = self.stream@;
        match self.stream.pop() {
            None => Ok(None),
            Some(Ok(l)) => {
                let k = l.t.kind();
                self.stream.push(Ok(l));
                assert(self.stream@ =~= before);
                Ok(Some(k))
            },
            Some(Err(e)) => Err(ParseFault::Error(ParserError::LexerError(e))),
        }
    }

    /// Reads the next token if it is of kind `expected`; see [`sp_matches`].
    fn matches(&mut self, expected: TokenKind) -> (r: Result<Option<Lexeme>, ParseFault>)
        ensures
            match r {
                Ok(None) => done(sp_matches(old(self).st(), expected), None, final(self).st()),
                Ok(Some(l)) => done(sp_matches(old(self).st(), expected), Some(l@), final(self).st()),
                Err(f) => sp_matches(old(self).st(), expected) == POut::<Option<crate::lexer::LexemeV>>::Fail(f@),
            },
    {
        match self.peek_kind() {
            Err(f) => Err(f),
            Ok(None) => Ok(None),
            Ok(Some(k)) => {
                if k == expected {
                    let ghost before = self.rem();
                    let x = self.stream.pop().unwrap();
                    assert(self.rem() =~= before.drop_first());
                    assert(self.env_v() =~= old(self).env_v());
                    match x {
                        Ok(l) => Ok(Some(l)),
                        Err(e) => Err(ParseFault::Error(ParserError::LexerError(e))),
                    }
                } else {
                    Ok(None)
                }
            },
        }
    }

    /// Reads a token that must be of kind `expected`; see [`sp_consume`].
    fn consume(&mut self, expected: TokenKind, message: &'static str) -> (r: Result<Lexeme, ParseFault>)
        requires
            expected.is_plain(),
        ensures
            match r {
                Ok(l) => done(sp_consume(old(self).st(), expected, message@), l@, final(self).st()),
                Err(f) => sp_consume(old(self).st(), expected, message@) == POut::<crate::lexer::LexemeV>::Fail(f@),
            },
    {
        match self.next() {
            Err(f) => Err(f),
            Ok(None) => Err(
                ParseFault::Error(ParserError::ExpectedGotNone { expected: Token::of_kind(expected), message }),
            ),
            Ok(Some(token)) => {
                if token.t.kind() == expected {
                    Ok(token)
                } else {
                    Err(
                        ParseFault::Error(
                            ParserError::ExpectedActualMismatch { expected: Token::of_kind(expected), actual: token, message },
                        ),
                    )
                }
            },
        }
    }

    /// Reads a token that must be an identifier, giving its name; see [`sp_consume_ident`].
    fn consume_ident(&mut self, message: &'static str) -> (r: Result<String, ParseFault>)
        ensures
            match r {
                Ok(name) => done(sp_consume_ident(old(self).st(), message@), name@, final(self).st()),
                Err(f) => sp_consume_ident(old(self).st(), message@) == POut::<Seq<char>>::Fail(f@),
            },
    {
        match self.next() {
            Err(f) => Err(f),
            Ok(None) => Err(ParseFault::Error(ParserError::ExpectedIdentGotNone { message })),
            Ok(Some(actual)) => match actual.t {
                Token::Ident(name) => Ok(name),
                _ => Err(ParseFault::Error(ParserError::ExpectedIdent { actual, message })),
            },
        }
    }

    /// An optional type annotation; see [`sp_parse_typ`].
    fn parse_typ(&mut self) -> (r: Result<Option<Typ>, ParseFault>)
        ensures
            match r {
                Ok(None) => done(sp_parse_typ(old(self).st()), None, final(self).st()),
                Ok(Some(t)) => done(sp_parse_typ(old(self).st()), Some(t@), final(self).st()),
                Err(f) => sp_parse_typ(old(self).st()) == POut::<Option<TypV>>::Fail(f@),
            },
    {
        match self.matches(TokenKind::Colon) {
            Err(f) => Err(f),
            Ok(None) => Ok(None),
            Ok(Some(_)) => match self.next() {
                Err(f) => Err(f),
                Ok(None) => Err(ParseFault::Abort(Abort::ExpectedTypeGotNone)),
                Ok(Some(l)) => match l.t.kind() {
                    TokenKind::Null => Ok(Some(Typ::Null)),
                    TokenKind::Number => Ok(Some(Typ::Number)),
                    TokenKind::String => Ok(Some(Typ::String)),
                    TokenKind::Bool => Ok(Some(Typ::Bool)),
                    TokenKind::Any => Ok(Some(Typ::Any)),
                    _ => Err(ParseFault::Abort(Abort::ExpectedTypeGot(l.t))),
                },
            },
        }
    }

    /// One function parameter; see [`sp_parameter`].
    fn parameter(&mut self) -> (r: Result<(String, Typ), ParseFault>)
        ensures
            match r {
                Ok(p) => done(sp_parameter(old(self).st()), (p.0@, p.1@), final(self).st()),
                Err(f) => sp_parameter(old(self).st()) == POut::<(Seq<char>, TypV)>::Fail(f@),
            },
    {
        match self.consume_ident("Function parameters may only be idents") {
            Err(f) => Err(f),
            Ok(name) => match self.parse_typ() {
                Err(f) => Err(f),
                Ok(None) => Err(ParseFault::Abort(Abort::ParameterWithoutType)),
                Ok(Some(t)) => Ok((name, t)),
            },
        }
    }

    /// A parameter list after its opening parenthesis; see [`sp_consume_parameters`].
    fn consume_parameters(&mut self) -> (r: Result<Vec<(String, Typ)>, ParseFault>)
        ensures
            match r {
                Ok(ps) => done(sp_consume_parameters(old(self).st()), params_view(ps@), final(self).st())
                    && no_more(final(self).st(), old(self).st()),
                Err(f) => sp_consume_parameters(old(self).st()) == POut::<Seq<(Seq<char>, TypV)>>::Fail(f@),
            },
    {
        let mut parameters: Vec<(String, Typ)> = Vec::new();
        match self.matches(TokenKind::CloseParen) {
            Err(f) => {
                return Err(f);
            },
            Ok(Some(_)) => {
                assert(params_view(parameters@) =~= Seq::<(Seq<char>, TypV)>::empty());
                return Ok(parameters);
            },
            Ok(None) => {},
        }
        match self.parameter() {
            Err(f) => {
                return Err(f);
            },
            Ok(p) => {
                parameters.push(p);
            },
        }
        proof {
            lemma_parameter_no_more(old(self).st());
        }
        let ghost target = sp_consume_parameters(old(self).st());
        assert(params_view(parameters@) =~= seq![(parameters@[0].0@, parameters@[0].1@)]);
        loop
            invariant
                target == sp_consume_parameters(old(self).st()),
                target == sp_params_rest(self.st(), params_view(parameters@)),
                no_more(self.st(), old(self).st()),
            decreases self.st().rem.len(),
        {
            let ghost cur = self.st();
            match self.matches(TokenKind::Comma) {
                Err(f) => {
                    return Err(f);
                },
                Ok(Some(_)) => {
                    let ghost s1 = self.st();
                    match self.parameter() {
                        Err(f) => {
                            return Err(f);
                        },
                        Ok(p) => {
                            proof {
                                lemma_parameter_no_more(s1);
                            }
                            let ghost pv = params_view(parameters@);
                            parameters.push(p);
                            assert(params_view(parameters@) =~= pv.push((p.0@, p.1@)));
                        },
                    }
                },
                Ok(None) => {
                    return match self.consume(
                        TokenKind::CloseParen,
                        "Unclosed function definition parentheses or missing comma.",
                    ) {
                        Err(f) => Err(f),
                        Ok(_) => Ok(parameters),
                    };
                },
            }
        }
    }

    /// Whether `op` takes an operand of type `t`; see [`type_of_unaryop`].
    fn unaryop_supported(&self, kind: UnaryOp, typ_right: &Typ) -> (r: bool)
        ensures
            r == (type_of_unaryop(kind, typ_right@) is Ok),
    {
        match typ_right {
            Typ::Any => true,
            Typ::Number => !matches!(kind, UnaryOp::BoolNot),
            Typ::Bool => matches!(kind, UnaryOp::BoolNot),
            _ => false,
        }
    }

    /// The type of `op` applied to an operand of type `t`, which it must take; see
    /// [`type_of_unaryop`].
    fn type_of_unaryop(&self, kind: UnaryOp, typ_right: &Typ) -> (r: Typ)
        requires
            type_of_unaryop(kind, typ_right@) is Ok,
        ensures
            type_of_unaryop(kind, typ_right@) == Ok::<TypV, AbortV>(r@),
    {
        match typ_right {
            Typ::Number => Typ::Number,
            Typ::Bool => Typ::Bool,
            _ => Typ::Any,
        }
    }

    /// Whether `kind` takes operands of types `l` and `r`; see [`type_of_binaryop`].
    fn binaryop_supported(&self, typ_left: &Typ, kind: BinaryOp, typ_right: &Typ) -> (r: bool)
        ensures
            r == (type_of_binaryop(typ_left@, kind, typ_right@) is Ok),
    {
        if matches!(typ_left, Typ::Any) || matches!(typ_right, Typ::Any) {
            return true;
        }
        let ln = matches!(typ_left, Typ::Number);
        let ls = matches!(typ_left, Typ::String);
        let rn = matches!(typ_right, Typ::Number);
        let rs = matches!(typ_right, Typ::String);
        match kind {
            BinaryOp::Add => (ln && rn) || (ls && rs),
            BinaryOp::Multiply => (ln && rn) || (ls && rn),
            BinaryOp::Subtract | BinaryOp::Divide | BinaryOp::Modulo => ln && rn,
            _ => (ln && rn) || (ls && rs),
        }
    }

    /// The type of `l op r`, for operand types that `kind` takes; see [`type_of_binaryop`].
    fn type_of_binaryop(&self, typ_left: &Typ, kind: BinaryOp, typ_right: &Typ) -> (r: Typ)
        requires
            type_of_binaryop(typ_left@, kind, typ_right@) is Ok,
        ensures
            type_of_binaryop(typ_left@, kind, typ_right@) == Ok::<TypV, AbortV>(r@),
    {
        if matches!(typ_left, Typ::Any) || matches!(typ_right, Typ::Any) {
            return Typ::Any;
        }
        match kind {
            BinaryOp::Add | BinaryOp::Multiply => if matches!(typ_left, Typ::Number) {
                Typ::Number
            } else {
                Typ::String
            },
            BinaryOp::Subtract | BinaryOp::Divide | BinaryOp::Modulo => Typ::Number,
            _ => Typ::Bool,
        }
    }

    /// The type of a name that no scope declares; see [`type_of_ident`].
    fn type_of_ident(&self, string: &str) -> (r: Typ)
        ensures
            r@ == type_of_ident(string@),
    {
        if str_eq(string, "print") {
            let mut ps: Vec<Typ> = Vec::new();
            ps.push(Typ::Any);
            proof { lemma_typs_view(ps@); }
            assert(typs_view(ps@) =~= seq![TypV::Any]);
            let r = Typ::Function { params: ps, ret: Box::new(Typ::Null) };
            proof { lemma_typ_view_function(r); }
            r
        } else if str_eq(string, "substr") {
            let mut ps: Vec<Typ> = Vec::new();
            ps.push(Typ::String);
            ps.push(Typ::Number);
            ps.push(Typ::Number);
            proof { lemma_typs_view(ps@); }
            assert(typs_view(ps@) =~= seq![TypV::String, TypV::Number, TypV::Number]);
            let r = Typ::Function { params: ps, ret: Box::new(Typ::String) };
            proof { lemma_typ_view_function(r); }
            r
        } else if str_eq(string, "len") {
            let mut ps: Vec<Typ> = Vec::new();
            ps.push(Typ::String);
            proof { lemma_typs_view(ps@); }
            assert(typs_view(ps@) =~= seq![TypV::String]);
            let r = Typ::Function { params: ps, ret: Box::new(Typ::Number) };
            proof { lemma_typ_view_function(r); }
            r
        } else if str_eq(string, "clock") || str_eq(string, "unix_time") {
            let ps: Vec<Typ> = Vec::new();
            proof { lemma_typs_view(ps@); }
            assert(typs_view(ps@) =~= Seq::<TypV>::empty());
            let r = Typ::Function { params: ps, ret: Box::new(Typ::Number) };
            proof { lemma_typ_view_function(r); }
            r
        } else {
            Typ::Any
        }
    }

    /// An expression; see [`sp_parse_expr`].
    pub fn parse_expr(&mut self) -> (r: Result<(Expr, Typ), ParseFault>)
        ensures
            match r {
                Ok(v) => done(sp_parse_expr(old(self).st()), (v.0@, v.1@), final(self).st()) && no_more(final(self).st(), old(self).st()),
                Err(f) => sp_parse_expr(old(self).st()) == POut::<(ExprV, TypV)>::Fail(f@),
            },
            sp_parse_expr(old(self).st()) != POut::<(ExprV, TypV)>::Fail(FailV::Stuck),
        decreases old(self).st().rem.len(), 9nat, 0nat, 0nat,
    {
        self.parse_var_set()
    }

    /// An assignment or a comparison; see [`sp_var_set`].
    #[verifier::rlimit(80)]
    #[verifier::spinoff_prover]
    fn parse_var_set(&mut self) -> (r: Result<(Expr, Typ), ParseFault>)
        ensures
            match r {
                Ok(v) => done(sp_var_set(old(self).st()), (v.0@, v.1@), final(self).st()) && no_more(final(self).st(), old(self).st()),
                Err(f) => sp_var_set(old(self).st()) == POut::<(ExprV, TypV)>::Fail(f@),
            },
        decreases old(self).st().rem.len(), 8nat, 0nat, 0nat,
    {
        let (left, typ_left) = match self.parse_comparisons() {
            Err(f) => {
                return Err(f);
            },
            Ok(v) => v,
        };
        match self.matches(TokenKind::Eq) {
            Err(f) => {
                return Err(f);
            },
            Ok(None) => {
                return Ok((left, typ_left));
            },
            Ok(Some(_)) => {},
        }
        let (right, typ_right) = match self.parse_comparisons() {
            Err(f) => {
                return Err(f);
            },
            Ok(v) => v,
        };
        let left_span = left.span;
        match left.kind {
            ExprKind::VarGet { slot, depth } => {
                // the variable's type is the one that reading it gave
                if !typ_right.can_coerce(&typ_left) {
                    return Err(ParseFault::Abort(Abort::AssignmentType(typ_right, typ_left)));
                }
                let span = left_span.join(right.span);
                Ok((Expr::var_set(right, depth, slot, span), Typ::Null))
            },
            _ => Err(ParseFault::Error(ParserError::InvalidVariableName { span: left_span })),
        }
    }

    /// At most one operator of this precedence between two operands; see [`sp_comparisons`].
    fn parse_comparisons(&mut self) -> (r: Result<(Expr, Typ), ParseFault>)
        ensures
            match r {
                Ok(v) => done(sp_comparisons(old(self).st()), (v.0@, v.1@), final(self).st()) && no_more(final(self).st(), old(self).st()),
                Err(f) => sp_comparisons(old(self).st()) == POut::<(ExprV, TypV)>::Fail(f@),
            },
        decreases old(self).st().rem.len(), 7nat, 0nat, 0nat,
    {
        let (left, typ_left) = match self.parse_add_subtract() {
            Err(f) => {
                return Err(f);
            },
            Ok(v) => v,
        };
        let k = match self.peek_kind() {
            Err(f) => {
                return Err(f);
            },
            Ok(None) => {
                return Ok((left, typ_left));
            },
            Ok(Some(k)) => k,
        };
        let operation = match k {
            TokenKind::EqEq => BinaryOp::Equal,
            TokenKind::BangEq => BinaryOp::NotEqual,
            TokenKind::Less => BinaryOp::LessThan,
            TokenKind::LessEq => BinaryOp::LessEq,
            TokenKind::Greater => BinaryOp::GreaterThan,
            TokenKind::GreaterEq => BinaryOp::GreaterEq,
            _ => {
                return Ok((left, typ_left));
            },
        };
        assert(binary_op_of(k, 0) == Some(operation));
        match self.next() {
            Err(f) => {
                return Err(f);
            },
            Ok(_) => {},
        }
        let (right, typ_right) = match self.parse_add_subtract() {
            Err(f) => {
                return Err(f);
            },
            Ok(v) => v,
        };
        if !self.binaryop_supported(&typ_left, operation, &typ_right) {
            return Err(ParseFault::Abort(Abort::UnsupportedBinary(operation, typ_left, typ_right)));
        }
        let typ = self.type_of_binaryop(&typ_left, operation, &typ_right);
        Ok((Expr::binary(left, operation, right), typ))
    }

    /// At most one operator of this precedence between two operands; see [`sp_add_sub`].
    fn parse_add_subtract(&mut self) -> (r: Result<(Expr, Typ), ParseFault>)
        ensures
            match r {
                Ok(v) => done(sp_add_sub(old(self).st()), (v.0@, v.1@), final(self).st()) && no_more(final(self).st(), old(self).st()),
                Err(f) => sp_add_sub(old(self).st()) == POut::<(ExprV, TypV)>::Fail(f@),
            },
        decreases old(self).st().rem.len(), 6nat, 0nat, 0nat,
    {
        let (left, typ_left) = match self.parse_mult_div_mod() {
            Err(f) => {
                return Err(f);
            },
            Ok(v) => v,
        };
        let k = match self.peek_kind() {
            Err(f) => {
                return Err(f);
            },
            Ok(None) => {
                return Ok((left, typ_left));
            },
            Ok(Some(k)) => k,
        };
        let operation = match k {
            TokenKind::Plus => BinaryOp::Add,
            TokenKind::Minus => BinaryOp::Subtract,
            _ => {
                return Ok((left, typ_left));
            },
        };
        assert(binary_op_of(k, 1) == Some(operation));
        match self.next() {
            Err(f) => {
                return Err(f);
            },
            Ok(_) => {},
        }
        let (right, typ_right) = match self.parse_mult_div_mod() {
            Err(f) => {
                return Err(f);
            },
            Ok(v) => v,
        };
        if !self.binaryop_supported(&typ_left, operation, &typ_right) {
            return Err(ParseFault::Abort(Abort::UnsupportedBinary(operation, typ_left, typ_right)));
        }
        let typ = self.type_of_binaryop(&typ_left, operation, &typ_right);
        Ok((Expr::binary(left, operation, right), typ))
    }

    /// At most one operator of this precedence between two operands; see [`sp_mult_div_mod`].
    fn parse_mult_div_mod(&mut self) -> (r: Result<(Expr, Typ), ParseFault>)
        ensures
            match r {
                Ok(v) => done(sp_mult_div_mod(old(self).st()), (v.0@, v.1@), final(self).st()) && no_more(final(self).st(), old(self).st()),
                Err(f) => sp_mult_div_mod(old(self).st()) == POut::<(ExprV, TypV)>::Fail(f@),
            },
        decreases old(self).st().rem.len(), 5nat, 0nat, 0nat,
    {
        let (left, typ_left) = match self.parse_unary_op() {
            Err(f) => {
                return Err(f);
            },
            Ok(v) => v,
        };
        let k = match self.peek_kind() {
            Err(f) => {
                return Err(f);
            },
            Ok(None) => {
                return Ok((left, typ_left));
            },
            Ok(Some(k)) => k,
        };
        let operation = match k {
            TokenKind::Star => BinaryOp::Multiply,
            TokenKind::Slash => BinaryOp::Divide,
            TokenKind::Percent => BinaryOp::Modulo,
            _ => {
                return Ok((left, typ_left));
            },
        };
        assert(binary_op_of(k, 2) == Some(operation));
        match self.next() {
            Err(f) => {
                return Err(f);
            },
            Ok(_) => {},
        }
        let (right, typ_right) = match self.parse_unary_op() {
            Err(f) => {
                return Err(f);
            },
            Ok(v) => v,
        };
        if !self.binaryop_supported(&typ_left, operation, &typ_right) {
            return Err(ParseFault::Abort(Abort::UnsupportedBinary(operation, typ_left, typ_right)));
        }
        let typ = self.type_of_binaryop(&typ_left, operation, &typ_right);
        Ok((Expr::binary(left, operation, right), typ))
    }

    /// At most one unary operator before a call expression; see [`sp_unary`].
    fn parse_unary_op(&mut self) -> (r: Result<(Expr, Typ), ParseFault>)
        ensures
            match r {
                Ok(v) => done(sp_unary(old(self).st()), (v.0@, v.1@), final(self).st()) && no_more(final(self).st(), old(self).st()),
                Err(f) => sp_unary(old(self).st()) == POut::<(ExprV, TypV)>::Fail(f@),
            },
        decreases old(self).st().rem.len(), 4nat, 2nat, 0nat,
    {
        let k = match self.peek_kind() {
            Err(f) => {
                return Err(f);
            },
            Ok(None) => {
                return self.parse_func_call();
            },
            Ok(Some(k)) => k,
        };
        let operation = match k {
            TokenKind::Minus => UnaryOp::Negate,
            TokenKind::Tilde => UnaryOp::BitNot,
            TokenKind::Bang => UnaryOp::BoolNot,
            _ => {
                return self.parse_func_call();
            },
        };
        // the token just seen is read; it is there, as `peek_kind` found it
        let lexeme = match self.next() {
            Ok(Some(l)) => l,
            _ => {
                proof {
                    assert(false);
                }
                return Err(ParseFault::Abort(Abort::MisalignedEnvironment));
            },
        };
        let (right, typ_right) = match self.parse_func_call() {
            Err(f) => {
                return Err(f);
            },
            Ok(v) => v,
        };
        if !self.unaryop_supported(operation, &typ_right) {
            return Err(ParseFault::Abort(Abort::UnsupportedUnary(operation, typ_right)));
        }
        let typ = self.type_of_unaryop(operation, &typ_right);
        Ok((Expr::unary(operation, lexeme.span, right), typ))
    }

    /// A basic expression followed by any number of argument lists; see [`sp_func_call`].
    fn parse_func_call(&mut self) -> (r: Result<(Expr, Typ), ParseFault>)
        ensures
            match r {
                Ok(v) => done(sp_func_call(old(self).st()), (v.0@, v.1@), final(self).st()) && no_more(final(self).st(), old(self).st()),
                Err(f) => sp_func_call(old(self).st()) == POut::<(ExprV, TypV)>::Fail(f@),
            },
        decreases old(self).st().rem.len(), 3nat, 0nat, 0nat,
    {
        let (callee, callee_typ) = match self.parse_basic() {
            Err(f) => {
                return Err(f);
            },
            Ok(v) => v,
        };
        self.parse_call_suffix(callee, callee_typ)
    }

    /// Argument lists after the callee `func_call` of type `func_typ`; see [`sp_call_suffix`].
    #[verifier::rlimit(40)]
    fn parse_call_suffix(&mut self, func_call: Expr, func_typ: Typ) -> (r: Result<(Expr, Typ), ParseFault>)
        ensures
            match r {
                Ok(v) => done(sp_call_suffix(old(self).st(), func_call@, func_typ@), (v.0@, v.1@), final(self).st())
                    && no_more(final(self).st(), old(self).st()),
                Err(f) => sp_call_suffix(old(self).st(), func_call@, func_typ@) == POut::<(ExprV, TypV)>::Fail(f@),
            },
        decreases old(self).st().rem.len(), 1nat, 0nat, 0nat,
    {
        match self.matches(TokenKind::OpenParen) {
            Err(f) => {
                return Err(f);
            },
            Ok(None) => {
                return Ok((func_call, func_typ));
            },
            Ok(Some(_)) => {},
        }
        let ghost s1 = self.st();
        assert(fewer(s1, old(self).st()));
        proof {
            lemma_typ_view_function(func_typ);
        }
        match func_typ {
            Typ::Function { params, ret } => {
                let (args, arg_typs, close) = match self.consume_args() {
                    Err(f) => {
                        return Err(f);
                    },
                    Ok(v) => v,
                };
                proof {
                    lemma_typs_view(params@);
                    lemma_exprs_view(args@);
                }
                if params.len() != args.len() {
                    return Err(ParseFault::Abort(Abort::ArgumentCount(params.len(), args.len())));
                }
                proof {
                    lemma_typs_view(arg_typs@);
                }
                if !all_coerce(&arg_typs, &params) {
                    return Err(ParseFault::Abort(Abort::ArgumentType));
                }
                let span = func_call.span.join(close);
                let call = Expr::call(func_call, args, span);
                self.parse_call_suffix(call, *ret)
            },
            Typ::Any => {
                let (args, _arg_typs, close) = match self.consume_args() {
                    Err(f) => {
                        return Err(f);
                    },
                    Ok(v) => v,
                };
                let span = func_call.span.join(close);
                let call = Expr::call(func_call, args, span);
                self.parse_call_suffix(call, Typ::Any)
            },
            _ => Err(ParseFault::Abort(Abort::NotAFunction)),
        }
    }

    /// An argument list after its opening parenthesis; see [`sp_consume_args`].
    fn consume_args(&mut self) -> (r: Result<(Vec<Expr>, Vec<Typ>, Span), ParseFault>)
        ensures
            match r {
                Ok(v) => done(sp_consume_args(old(self).st()), (exprs_view(v.0@), typs_view(v.1@), v.2), final(self).st())
                    && no_more(final(self).st(), old(self).st()) && v.0@.len() == v.1@.len(),
                Err(f) => sp_consume_args(old(self).st()) == POut::<(Seq<ExprV>, Seq<TypV>, Span)>::Fail(f@),
            },
        decreases old(self).st().rem.len(), 10nat, 0nat, 0nat,
    {
        let mut args_vec: Vec<Expr> = Vec::new();
        let mut typs_vec: Vec<Typ> = Vec::new();
        proof {
            lemma_exprs_view_empty(args_vec@);
            lemma_typs_view(typs_vec@);
        }
        match self.matches(TokenKind::CloseParen) {
            Err(f) => {
                return Err(f);
            },
            Ok(Some(close)) => {
                assert(typs_view(typs_vec@) =~= Seq::<TypV>::empty());
                return Ok((args_vec, typs_vec, close.span));
            },
            Ok(None) => {},
        }
        let (a, t) = match self.parse_expr() {
            Err(f) => {
                return Err(f);
            },
            Ok(v) => v,
        };
        proof {
            lemma_exprs_view_push(args_vec@, a);
            lemma_typs_view_push(typs_vec@, t);
        }
        args_vec.push(a);
        typs_vec.push(t);
        let ghost target = sp_consume_args(old(self).st());
        assert(exprs_view(args_vec@) =~= seq![a@]);
        assert(typs_view(typs_vec@) =~= seq![t@]);
        loop
            invariant
                target == sp_consume_args(old(self).st()),
                target == sp_args_rest(self.st(), exprs_view(args_vec@), typs_view(typs_vec@)),
                no_more(self.st(), old(self).st()),
                args_vec@.len() == typs_vec@.len(),
            decreases self.st().rem.len(),
        {
            match self.matches(TokenKind::Comma) {
                Err(f) => {
                    return Err(f);
                },
                Ok(Some(_)) => {
                    let (a, t) = match self.parse_expr() {
            Err(f) => {
                return Err(f);
            },
            Ok(v) => v,
        };
                    proof {
                        lemma_exprs_view_push(args_vec@, a);
                        lemma_typs_view_push(typs_vec@, t);
                    }
                    args_vec.push(a);
                    typs_vec.push(t);
                },
                Ok(None) => {
                    let close = match self.consume(TokenKind::CloseParen, "Unclosed function call parentheses or missing comma") {
            Err(f) => {
                return Err(f);
            },
            Ok(v) => v,
        };
                    return Ok((args_vec, typs_vec, close.span));
                },
            }
        }
    }

    /// A basic expression; see [`sp_basic`].
    #[verifier::rlimit(80)]
    #[verifier::spinoff_prover]
    fn parse_basic(&mut self) -> (r: Result<(Expr, Typ), ParseFault>)
        ensures
            match r {
                Ok(v) => done(sp_basic(old(self).st()), (v.0@, v.1@), final(self).st()) && no_more(final(self).st(), old(self).st()),
                Err(f) => sp_basic(old(self).st()) == POut::<(ExprV, TypV)>::Fail(f@),
            },
        decreases old(self).st().rem.len(), 2nat, 0nat, 0nat,
    {
        let lexeme = match self.next() {
            Err(f) => {
                return Err(f);
            },
            Ok(None) => {
                return Err(ParseFault::Error(ParserError::UnexpectedGotNone));
            },
            Ok(Some(l)) => l,
        };
        let span = lexeme.span;
        match lexeme.t {
            Token::OpenParen => self.parse_paren(span),
            Token::StringLit(string) => Ok((Expr::literal(Literal::String(string), span), Typ::String)),
            Token::NumLit(number) => Ok((Expr::literal(Literal::Number(number), span), Typ::Number)),
            Token::True => Ok((Expr::literal(Literal::Boolean(true), span), Typ::Bool)),
            Token::False => Ok((Expr::literal(Literal::Boolean(false), span), Typ::Bool)),
            Token::Ident(identifier) => Ok(self.parse_ident(identifier, span)),
            Token::Let => self.parse_decl(span),
            Token::Fn => self.parse_func_def(span),
            Token::If => self.parse_if(span),
            Token::OpenBracket => self.parse_naked_block(span),
            Token::While => self.parse_while(span),
            Token::For => self.parse_for(span),
            t => Err(ParseFault::Error(ParserError::Unexpected { actual: Lexeme { t, span } })),
        }
    }

    /// A parenthesized expression after its opening parenthesis; see [`sp_paren`].
    fn parse_paren(&mut self, open: Span) -> (r: Result<(Expr, Typ), ParseFault>)
        ensures
            match r {
                Ok(v) => done(sp_paren(old(self).st(), open), (v.0@, v.1@), final(self).st()) && no_more(final(self).st(), old(self).st()),
                Err(f) => sp_paren(old(self).st(), open) == POut::<(ExprV, TypV)>::Fail(f@),
            },
        decreases old(self).st().rem.len(), 10nat, 0nat, 0nat,
    {
        let (inner_expr, inner_typ) = match self.parse_expr() {
            Err(f) => {
                return Err(f);
            },
            Ok(v) => v,
        };
        let close = match self.consume(TokenKind::CloseParen, "unclosed paren block") {
            Err(f) => {
                return Err(f);
            },
            Ok(v) => v,
        };
        Ok((Expr::with_span(inner_expr, open.join(close.span)), inner_typ))
    }

    /// The innermost declaration of `name`: how many scopes out, and its slot; see [`find_var`].
    fn find_var(&self, name: &str) -> (r: Option<(usize, usize)>)
        ensures
            match r {
                None => find_var(self.env_v(), name@) is None,
                Some((depth, slot)) => {
                    &&& find_var(self.env_v(), name@) == Some((depth as nat, slot as nat))
                    &&& depth < self.env_v().len()
                    &&& slot < self.env_v()[self.env_v().len() - 1 - depth].typs.len()
                },
            },
    {
        let n = self.env.len();
        let mut depth: usize = 0;
        while depth < n
            invariant
                n == self.env_v().len(),
                depth <= n,
                find_var(self.env_v(), name@) == find_var_from(self.env_v(), name@, depth as nat),
            decreases n - depth,
        {
            match self.env[n - 1 - depth].get(name) {
                Some(index) => {
                    return Some((depth, index));
                },
                None => {},
            }
            depth = depth + 1;
        }
        None
    }

    /// An identifier; see [`parse_ident`].
    fn parse_ident(&self, identifier: String, span: Span) -> (r: (Expr, Typ))
        ensures
            (r.0@, r.1@) == parse_ident(self.env_v(), identifier@, span),
    {
        match self.find_var(identifier.as_str()) {
            Some((depth, slot)) => {
                let ident_typ = self.env[self.env.len() - depth - 1].typ_at(slot).duplicate();
                (Expr::var_get(depth, slot, span), ident_typ)
            },
            None => {
                let ident_typ = self.type_of_ident(identifier.as_str());
                (Expr::ident(identifier, span), ident_typ)
            },
        }
    }

    /// A declaration after `let`; see [`sp_decl`].
    #[verifier::rlimit(80)]
    #[verifier::spinoff_prover]
    fn parse_decl(&mut self, let_span: Span) -> (r: Result<(Expr, Typ), ParseFault>)
        ensures
            match r {
                Ok(v) => done(sp_decl(old(self).st(), let_span), (v.0@, v.1@), final(self).st()) && no_more(final(self).st(), old(self).st()),
                Err(f) => sp_decl(old(self).st(), let_span) == POut::<(ExprV, TypV)>::Fail(f@),
            },
        decreases old(self).st().rem.len(), 10nat, 0nat, 0nat,
    {
        let name = match self.consume_ident("Expected variable name after let") {
            Err(f) => {
                return Err(f);
            },
            Ok(v) => v,
        };
        let typ_annotation = match self.parse_typ() {
            Err(f) => {
                return Err(f);
            },
            Ok(v) => v,
        };
        let _eq = match self.consume(TokenKind::Eq, "Expected '=' after let") {
            Err(f) => {
                return Err(f);
            },
            Ok(v) => v,
        };
        let (init, init_typ) = match self.parse_expr() {
            Err(f) => {
                return Err(f);
            },
            Ok(v) => v,
        };
        let var_typ = match typ_annotation {
            Some(t) => {
                if !init_typ.can_coerce(&t) {
                    return Err(ParseFault::Abort(Abort::DeclarationType(t, init_typ)));
                }
                t
            },
            None => init_typ,
        };
        let ghost env_before = self.env_v();
        let mut last = match self.env.pop() {
            None => {
                return Err(ParseFault::Abort(Abort::MisalignedEnvironment));
            },
            Some(f) => f,
        };
        last.insert(name, var_typ);
        self.env.push(last);
        assert(self.env_v() =~= env_before.update(env_before.len() - 1, last@));
        let span = let_span.join(init.span);
        Ok((Expr::decl(init, span), Typ::Null))
    }

    /// A function definition after `fn`; see [`sp_func_def`].
    #[verifier::rlimit(80)]
    #[verifier::spinoff_prover]
    fn parse_func_def(&mut self, fn_span: Span) -> (r: Result<(Expr, Typ), ParseFault>)
        ensures
            match r {
                Ok(v) => done(sp_func_def(old(self).st(), fn_span), (v.0@, v.1@), final(self).st()) && no_more(final(self).st(), old(self).st()),
                Err(f) => sp_func_def(old(self).st(), fn_span) == POut::<(ExprV, TypV)>::Fail(f@),
            },
        decreases old(self).st().rem.len(), 10nat, 0nat, 0nat,
    {
        let _open = match self.consume(TokenKind::OpenParen, "Function definition requires an opening parentheses.") {
            Err(f) => {
                return Err(f);
            },
            Ok(v) => v,
        };
        let params = match self.consume_parameters() {
            Err(f) => {
                return Err(f);
            },
            Ok(v) => v,
        };
        let param_count = params.len();
        let (frame, param_types) = params_scope(&params);
        let ghost s2 = self.st();
        let _open_bracket = match self.consume(TokenKind::OpenBracket, "Function definition requires an opening bracket.") {
            Err(f) => {
                return Err(f);
            },
            Ok(v) => v,
        };
        assert(fewer(self.st(), old(self).st()));
        let (block, close, body_typ) = match self.parse_block(frame) {
            Err(f) => {
                return Err(f);
            },
            Ok(v) => v,
        };
        let typ = Typ::Function { params: param_types, ret: Box::new(body_typ) };
        proof {
            lemma_typ_view_function(typ);
        }
        Ok((Expr::func(param_count, block, fn_span.join(close)), typ))
    }

    /// A block after its opening bracket, in the new scope `frame`; see [`sp_block`].
    #[verifier::rlimit(80)]
    #[verifier::spinoff_prover]
    fn parse_block(&mut self, frame: EnvStackFrame) -> (r: Result<(Vec<Expr>, Span, Typ), ParseFault>)
        ensures
            match r {
                Ok(v) => done(sp_block(old(self).st(), frame@), (exprs_view(v.0@), v.1, v.2@), final(self).st()) && no_more(final(self).st(), old(self).st()),
                Err(f) => sp_block(old(self).st(), frame@) == POut::<(Seq<ExprV>, Span, TypV)>::Fail(f@),
            },
        decreases old(self).st().rem.len(), 10nat, 0nat, 0nat,
    {
        let mut exprs: Vec<Expr> = Vec::new();
        proof {
            lemma_exprs_view_empty(exprs@);
        }
        match self.matches(TokenKind::CloseBracket) {
            Err(f) => {
                return Err(f);
            },
            Ok(Some(close)) => {
                return Ok((exprs, close.span, Typ::Null));
            },
            Ok(None) => {},
        }
        let ghost env_before = self.env_v();
        self.env.push(frame);
        assert(self.env_v() =~= env_before.push(frame@));
        let (first, first_typ) = match self.parse_expr() {
            Err(f) => {
                return Err(f);
            },
            Ok(v) => v,
        };
        proof {
            lemma_exprs_view_push(exprs@, first);
        }
        exprs.push(first);
        let mut typ = first_typ;
        let ghost target = sp_block(old(self).st(), frame@);
        loop
            invariant
                target == sp_block(old(self).st(), frame@),
                target == sp_block_rest(self.st(), exprs_view(exprs@), typ@),
                no_more(self.st(), old(self).st()),
            decreases self.st().rem.len(),
        {
            match self.matches(TokenKind::Semi) {
                Err(f) => {
                    return Err(f);
                },
                Ok(Some(_)) => {
                    match self.matches(TokenKind::CloseBracket) {
                        Err(f) => {
                            return Err(f);
                        },
                        Ok(Some(close)) => {
                            let null = Expr::literal(Literal::Null, close.span);
                            proof {
                                lemma_exprs_view_push(exprs@, null);
                            }
                            exprs.push(null);
                            let ghost env_now = self.env_v();
                            match self.env.pop() {
                                None => {
                                    return Err(ParseFault::Abort(Abort::MisalignedEnvironment));
                                },
                                Some(_) => {},
                            }
                            assert(self.env_v() =~= env_now.drop_last());
                            return Ok((exprs, close.span, Typ::Null));
                        },
                        Ok(None) => {},
                    }
                    let (next, next_typ) = match self.parse_expr() {
            Err(f) => {
                return Err(f);
            },
            Ok(v) => v,
        };
                    proof {
                        lemma_exprs_view_push(exprs@, next);
                    }
                    exprs.push(next);
                    typ = next_typ;
                },
                Ok(None) => {
                    let close = match self.consume(TokenKind::CloseBracket, "Expected '}' after block. Check for a missing semicolon on the previous line") {
            Err(f) => {
                return Err(f);
            },
            Ok(v) => v,
        };
                    let ghost env_now = self.env_v();
                    match self.env.pop() {
                        None => {
                            return Err(ParseFault::Abort(Abort::MisalignedEnvironment));
                        },
                        Some(_) => {},
                    }
                    assert(self.env_v() =~= env_now.drop_last());
                    return Ok((exprs, close.span, typ));
                },
            }
        }
    }

    /// A block used as an expression, after its opening bracket; see [`sp_naked_block`].
    fn parse_naked_block(&mut self, open: Span) -> (r: Result<(Expr, Typ), ParseFault>)
        ensures
            match r {
                Ok(v) => done(sp_naked_block(old(self).st(), open), (v.0@, v.1@), final(self).st()) && no_more(final(self).st(), old(self).st()),
                Err(f) => sp_naked_block(old(self).st(), open) == POut::<(ExprV, TypV)>::Fail(f@),
            },
        decreases old(self).st().rem.len(), 11nat, 0nat, 0nat,
    {
        let (body, close, typ) = match self.parse_block(EnvStackFrame::new()) {
            Err(f) => {
                return Err(f);
            },
            Ok(v) => v,
        };
        Ok((Expr::block(body, open.join(close)), typ))
    }

    /// An `if` after the keyword; see [`sp_if`].
    fn parse_if(&mut self, if_span: Span) -> (r: Result<(Expr, Typ), ParseFault>)
        ensures
            match r {
                Ok(v) => done(sp_if(old(self).st(), if_span), (v.0@, v.1@), final(self).st()) && no_more(final(self).st(), old(self).st()),
                Err(f) => sp_if(old(self).st(), if_span) == POut::<(ExprV, TypV)>::Fail(f@),
            },
        decreases old(self).st().rem.len(), 10nat, 0nat, 0nat,
    {
        let (cond, _cond_typ) = match self.parse_expr() {
            Err(f) => {
                return Err(f);
            },
            Ok(v) => v,
        };
        let _open = match self.consume(TokenKind::OpenBracket, "Expected '{' after if condition") {
            Err(f) => {
                return Err(f);
            },
            Ok(v) => v,
        };
        let (then, then_end, then_typ) = match self.parse_block(EnvStackFrame::new()) {
            Err(f) => {
                return Err(f);
            },
            Ok(v) => v,
        };
        match self.matches(TokenKind::Otherwise) {
            Err(f) => Err(f),
            Ok(None) => Ok((Expr::if_then(cond, then, if_span.join(then_end)), then_typ)),
            Ok(Some(_)) => match self.parse_otherwise(if_span, &then_typ) {
                Err(f) => Err(f),
                Ok((otherwise, span)) => Ok((Expr::if_then_otherwise(cond, then, otherwise, span), then_typ)),
            },
        }
    }

    /// What follows `otherwise`; see [`sp_otherwise`].
    fn parse_otherwise(&mut self, if_span: Span, then_typ: &Typ) -> (r: Result<(Expr, Span), ParseFault>)
        ensures
            match r {
                Ok(v) => done(sp_otherwise(old(self).st(), if_span, then_typ@), (v.0@, v.1), final(self).st())
                    && no_more(final(self).st(), old(self).st()),
                Err(f) => sp_otherwise(old(self).st(), if_span, then_typ@) == POut::<(ExprV, Span)>::Fail(f@),
            },
        decreases old(self).st().rem.len(), 10nat, 2nat, 0nat,
    {
        let lexeme = match self.next() {
            Err(f) => {
                return Err(f);
            },
            Ok(None) => {
                return Err(ParseFault::Error(ParserError::InvalidOtherwiseGotNothing));
            },
            Ok(Some(l)) => l,
        };
        let k = lexeme.t.kind();
        if k == TokenKind::OpenBracket {
            assert(lexeme@.t == crate::lexer::TokenV::Plain(TokenKind::OpenBracket));
            self.parse_otherwise_block(if_span, then_typ, lexeme.span)
        } else if k == TokenKind::If {
            assert(lexeme@.t == crate::lexer::TokenV::Plain(TokenKind::If));
            self.parse_otherwise_if(then_typ, lexeme.span)
        } else {
            Err(ParseFault::Error(ParserError::InvalidOtherwise { actual: lexeme }))
        }
    }

    /// A block after `otherwise`; see [`sp_otherwise_block`].
    #[verifier::rlimit(100)]
    #[verifier::spinoff_prover]
    fn parse_otherwise_block(&mut self, if_span: Span, then_typ: &Typ, open: Span) -> (r: Result<(Expr, Span), ParseFault>)
        ensures
            match r {
                Ok(v) => done(sp_otherwise_block(old(self).st(), if_span, then_typ@, open), (v.0@, v.1), final(self).st())
                    && no_more(final(self).st(), old(self).st()),
                Err(f) => sp_otherwise_block(old(self).st(), if_span, then_typ@, open) == POut::<(ExprV, Span)>::Fail(f@),
            },
        decreases old(self).st().rem.len(), 10nat, 1nat, 0nat,
    {
        let (body, close, otherwise_typ) = match self.parse_block(EnvStackFrame::new()) {
            Err(f) => {
                return Err(f);
            },
            Ok(v) => v,
        };
        let ghost s1 = self.st();
        assert(sp_block(old(self).st(), empty_frame()) == POut::Done((exprs_view(body@), close, otherwise_typ@), s1));
        let ok = then_typ.can_coerce(&otherwise_typ);
        if !ok {
            assert(sp_otherwise_block(old(self).st(), if_span, then_typ@, open) == POut::<(ExprV, Span)>::Fail(FailV::Abort(AbortV::BranchTypes)));
            return Err(ParseFault::Abort(Abort::BranchTypes));
        }
        let e = Expr::block(body, open.join(close));
        let span = if_span.join(close);
        assert(sp_otherwise_block(old(self).st(), if_span, then_typ@, open) == POut::Done((e@, span), s1));
        Ok((e, span))
    }

    /// Another `if` after `otherwise`; see [`sp_otherwise_if`].
    fn parse_otherwise_if(&mut self, then_typ: &Typ, inner_span: Span) -> (r: Result<(Expr, Span), ParseFault>)
        ensures
            match r {
                Ok(v) => done(sp_otherwise_if(old(self).st(), then_typ@, inner_span), (v.0@, v.1), final(self).st())
                    && no_more(final(self).st(), old(self).st()),
                Err(f) => sp_otherwise_if(old(self).st(), then_typ@, inner_span) == POut::<(ExprV, Span)>::Fail(f@),
            },
        decreases old(self).st().rem.len(), 10nat, 1nat, 0nat,
    {
        let (inner, inner_typ) = match self.parse_if(inner_span) {
            Err(f) => {
                return Err(f);
            },
            Ok(v) => v,
        };
        if !then_typ.can_coerce(&inner_typ) {
            return Err(ParseFault::Abort(Abort::InnerIfTypes));
        }
        let span = inner.span;
        Ok((inner, span))
    }

    /// A `while` after the keyword; see [`sp_while`].
    #[verifier::rlimit(80)]
    #[verifier::spinoff_prover]
    fn parse_while(&mut self, while_span: Span) -> (r: Result<(Expr, Typ), ParseFault>)
        ensures
            match r {
                Ok(v) => done(sp_while(old(self).st(), while_span), (v.0@, v.1@), final(self).st()) && no_more(final(self).st(), old(self).st()),
                Err(f) => sp_while(old(self).st(), while_span) == POut::<(ExprV, TypV)>::Fail(f@),
            },
        decreases old(self).st().rem.len(), 10nat, 0nat, 0nat,
    {
        let (cond, cond_typ) = match self.parse_expr() {
            Err(f) => {
                return Err(f);
            },
            Ok(v) => v,
        };
        if !cond_typ.can_coerce(&Typ::Bool) {
            return Err(ParseFault::Abort(Abort::ConditionNotBool));
        }
        let _open = match self.consume(TokenKind::OpenBracket, "Expected '{' after while") {
            Err(f) => {
                return Err(f);
            },
            Ok(v) => v,
        };
        let (body, close, _) = match self.parse_block(EnvStackFrame::new()) {
            Err(f) => {
                return Err(f);
            },
            Ok(v) => v,
        };
        Ok((Expr::while_loop(cond, body, while_span.join(close)), Typ::Null))
    }

    /// A `for` after the keyword; see [`sp_for`].
    fn parse_for(&mut self, for_span: Span) -> (r: Result<(Expr, Typ), ParseFault>)
        ensures
            match r {
                Ok(v) => done(sp_for(old(self).st(), for_span), (v.0@, v.1@), final(self).st()) && no_more(final(self).st(), old(self).st()),
                Err(f) => sp_for(old(self).st(), for_span) == POut::<(ExprV, TypV)>::Fail(f@),
            },
        decreases old(self).st().rem.len(), 10nat, 2nat, 0nat,
    {
        let ghost env0 = self.env_v();
        self.env.push(EnvStackFrame::new());
        assert(self.env_v() =~= env0.push(empty_frame()));
        let (init, _) = match self.parse_expr() {
            Err(f) => {
                return Err(f);
            },
            Ok(v) => v,
        };
        let _semi = match self.consume(TokenKind::Semi, "Expected ';' after for loop init") {
            Err(f) => {
                return Err(f);
            },
            Ok(v) => v,
        };
        assert(fewer(self.st(), old(self).st()));
        self.parse_for_cond(for_span, init)
    }

    /// The rest of a `for` after its initializer; see [`sp_for_cond`].
    fn parse_for_cond(&mut self, for_span: Span, init: Expr) -> (r: Result<(Expr, Typ), ParseFault>)
        ensures
            match r {
                Ok(v) => done(sp_for_cond(old(self).st(), for_span, init@), (v.0@, v.1@), final(self).st())
                    && no_more(final(self).st(), old(self).st()),
                Err(f) => sp_for_cond(old(self).st(), for_span, init@) == POut::<(ExprV, TypV)>::Fail(f@),
            },
        decreases old(self).st().rem.len(), 10nat, 1nat, 0nat,
    {
        let (cond, cond_typ) = match self.parse_expr() {
            Err(f) => {
                return Err(f);
            },
            Ok(v) => v,
        };
        if !cond_typ.can_coerce(&Typ::Bool) {
            return Err(ParseFault::Abort(Abort::ConditionNotBool));
        }
        let _semi = match self.consume(TokenKind::Semi, "Expected ';' after for loop condition") {
            Err(f) => {
                return Err(f);
            },
            Ok(v) => v,
        };
        assert(fewer(self.st(), old(self).st()));
        self.parse_for_body(for_span, init, cond)
    }

    /// The rest of a `for` after its condition; see [`sp_for_body`].
    #[verifier::rlimit(80)]
    #[verifier::spinoff_prover]
    fn parse_for_body(&mut self, for_span: Span, init: Expr, cond: Expr) -> (r: Result<(Expr, Typ), ParseFault>)
        ensures
            match r {
                Ok(v) => done(sp_for_body(old(self).st(), for_span, init@, cond@), (v.0@, v.1@), final(self).st())
                    && no_more(final(self).st(), old(self).st()),
                Err(f) => sp_for_body(old(self).st(), for_span, init@, cond@) == POut::<(ExprV, TypV)>::Fail(f@),
            },
        decreases old(self).st().rem.len(), 10nat, 0nat, 0nat,
    {
        let ghost s0 = old(self).st();
        let ghost env1 = self.env_v();
        self.env.push(EnvStackFrame::new());
        assert(self.env_v() =~= env1.push(empty_frame()));
        assert(self.st() == push_frame(s0, empty_frame()));
        let (update, _) = match self.parse_expr() {
            Err(f) => {
                return Err(f);
            },
            Ok(v) => v,
        };
        let ghost s1 = self.st();
        let open = match self.consume(TokenKind::OpenBracket, "Expected '{' after 'for'") {
            Err(f) => {
                return Err(f);
            },
            Ok(v) => v,
        };
        let ghost s2 = self.st();
        assert(sp_consume(s1, TokenKind::OpenBracket, "Expected '{' after 'for'"@) == POut::Done(open@, s2));
        assert(fewer(s2, s0));
        let (body, close, body_typ) = match self.parse_block(EnvStackFrame::new()) {
            Err(f) => {
                return Err(f);
            },
            Ok(v) => v,
        };
        let ghost s3 = self.st();
        assert(sp_block(s2, empty_frame()) == POut::Done((exprs_view(body@), close, body_typ@), s3));
        match self.close_two_scopes() {
            Err(f) => {
                return Err(f);
            },
            Ok(()) => {},
        }
        let span = for_span.join(close);
        let r = Expr::for_loop(init, cond, update, body, open.span.join(close), span);
        assert(sp_for_body(s0, for_span, init@, cond@) == POut::Done((r@, TypV::Null), self.st()));
        Ok((r, Typ::Null))
    }

    /// Closes the two innermost scopes.
    fn close_two_scopes(&mut self) -> (r: Result<(), ParseFault>)
        ensures
            final(self).st().rem == old(self).st().rem,
            match r {
                Ok(_) => old(self).st().env.len() >= 2 && final(self).st() == pop_frame(pop_frame(old(self).st())),
                Err(f) => old(self).st().env.len() < 2 && f@ == FailV::Abort(AbortV::MisalignedEnvironment),
            },
    {
        let ghost env2 = self.env_v();
        if self.env.len() < 2 {
            return Err(ParseFault::Abort(Abort::MisalignedEnvironment));
        }
        self.env.pop();
        self.env.pop();
        assert(self.env_v() =~= env2.drop_last().drop_last());
        Ok(())
    }

    /// The whole program: expressions, each followed by `;`; see [`parse_program`].
    pub fn parse(&mut self) -> (r: Result<Vec<Expr>, ParseFault>)
        ensures
            match r {
                Ok(v) => sp_program(old(self).st(), seq![]) matches POut::Done(es, _) && es == exprs_view(v@),
                Err(f) => sp_program(old(self).st(), seq![]) == POut::<Seq<ExprV>>::Fail(f@),
            },
            sp_program(old(self).st(), seq![]) != POut::<Seq<ExprV>>::Fail(FailV::Stuck),
    {
        let mut exprs: Vec<Expr> = Vec::new();
        proof {
            lemma_exprs_view_empty(exprs@);
        }
        let ghost target = sp_program(old(self).st(), seq![]);
        loop
            invariant
                target == sp_program(old(self).st(), seq![]),
                target == sp_program(self.st(), exprs_view(exprs@)),
            decreases self.st().rem.len(),
        {
            if self.stream.len() == 0 {
                return Ok(exprs);
            }
            let (exp, _) = match self.parse_expr() {
            Err(f) => {
                return Err(f);
            },
            Ok(v) => v,
        };
            let _semi = match self.consume(TokenKind::Semi, "Expected ';' after expression") {
            Err(f) => {
                return Err(f);
            },
            Ok(v) => v,
        };
            proof {
                lemma_exprs_view_push(exprs@, exp);
            }
            exprs.push(exp);
        }
    }
}



/// Whether each type in `arg_typs` coerces to the type at the same index in `params`.
fn all_coerce(arg_typs: &Vec<Typ>, params: &Vec<Typ>) -> (r: bool)
    requires
        arg_typs@.len() == params@.len(),
    ensures
        r == args_coerce(typs_view(arg_typs@), typs_view(params@)),
{
    proof {
        lemma_typs_view(arg_typs@);
        lemma_typs_view(params@);
    }
    let mut i: usize = 0;
    while i < arg_typs.len()
        invariant
            i <= arg_typs@.len(),
            arg_typs@.len() == params@.len(),
            typs_view(arg_typs@).len() == arg_typs@.len(),
            typs_view(params@).len() == params@.len(),
            forall|j: int| 0 <= j < arg_typs@.len() ==> #[trigger] typs_view(arg_typs@)[j] == arg_typs@[j]@,
            forall|j: int| 0 <= j < params@.len() ==> #[trigger] typs_view(params@)[j] == params@[j]@,
            forall|j: int|
                0 <= j < i ==> can_coerce(#[trigger] typs_view(arg_typs@)[j], typs_view(params@)[j]),
        decreases arg_typs@.len() - i,
    {
        if !arg_typs[i].can_coerce(&params[i]) {
            assert(typs_view(arg_typs@)[i as int] == arg_typs@[i as int]@);
            assert(typs_view(params@)[i as int] == params@[i as int]@);
            assert(!can_coerce(typs_view(arg_typs@)[i as int], typs_view(params@)[i as int]));
            return false;
        }
        i = i + 1;
    }
    true
}


/// The scope of a function's parameters, each declared at type `any`, and the
/// parameters' annotated types; see [`params_frame`].
fn params_scope(params: &Vec<(String, Typ)>) -> (r: (EnvStackFrame, Vec<Typ>))
    ensures
        r.0@ == params_frame(params_view(params@)),
        typs_view(r.1@) == params_view(params@).map_values(|p: (Seq<char>, TypV)| p.1),
{
    let mut frame = EnvStackFrame::new();
    let mut param_types: Vec<Typ> = Vec::new();
    let ghost pv = params_view(params@);
    let mut i: usize = 0;
    proof {
        lemma_typs_view(param_types@);
    }
    assert(pv.take(0) =~= Seq::<(Seq<char>, TypV)>::empty());
    assert(typs_view(param_types@) =~= pv.take(0).map_values(|p: (Seq<char>, TypV)| p.1));
    while i < params.len()
        invariant
            pv == params_view(params@),
            i <= params@.len(),
            frame@ == params_frame(pv.take(i as int)),
            typs_view(param_types@) == pv.take(i as int).map_values(|p: (Seq<char>, TypV)| p.1),
        decreases params@.len() - i,
    {
        let name = params[i].0.clone();
        let typ = params[i].1.duplicate();
        proof {
            lemma_typs_view_push(param_types@, typ);
        }
        frame.insert(name, Typ::Any);
        param_types.push(typ);
        assert(pv.take(i + 1).drop_last() =~= pv.take(i as int));
        assert(pv.take(i + 1).map_values(|p: (Seq<char>, TypV)| p.1) =~= pv.take(i as int).map_values(
            |p: (Seq<char>, TypV)| p.1,
        ).push(pv[i as int].1));
        i = i + 1;
    }
    assert(pv.take(params@.len() as int) =~= pv);
    (frame, param_types)
}

/// The values of a list of parameters.
pub open spec fn params_view(v: Seq<(String, Typ)>) -> Seq<(Seq<char>, TypV)> {
    v.map_values(|p: (String, Typ)| (p.0@, p.1@))
}

/// A parameter consumes input.
proof fn lemma_parameter_no_more(s: PSt)
    ensures
        sp_parameter(s) matches POut::Done(_, s2) ==> fewer(s2, s),
{
}


} // verus!
