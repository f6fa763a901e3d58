use vstd::prelude::*;
use crate::ast::{
    Block, Decl, tab_insert, Expr, SBlock, SDecl, SExpr, SType, TType, OptionalParamInfoList,
    OptionalTypeExprTupleList, bx, expr_v, decl_v, block_v, empty_block, pairs_v, exprs_v, decls_v, targs_v, lemma_call_view, lemma_seq_view, lemma_let_view,
};
use crate::lexer::{Lexer, LexState, lex, measure, eat, is_dig, lemma_lex_progress, lemma_lex_frame};
use crate::ptr::{B, unbox};
use crate::tokens::Token;
use crate::show::{dig, int_str, nat_str};

verus! {

// ---------------------------------------------------------------------------------------------
// Numbers
pub open spec fn digit_val(c: char) -> int {
    (c as int) - ('0' as int)
}

/// The value of a string of decimal digits.
pub open spec fn digits_val(s: Seq<char>) -> int
    decreases s.len(),
{
    if s.len() == 0 {
        0
    } else {
        digits_val(s.drop_last()) * 10 + digit_val(s.last())
    }
}

pub open spec fn all_digits(s: Seq<char>) -> bool {
    forall|i: int| 0 <= i < s.len() ==> is_dig(#[trigger] s[i])
}

/// What `str::parse::<i32>` gives: an optional sign, then at least one decimal digit, of a value
/// within the range of `i32`.
pub open spec fn parse_i32_spec(s: Seq<char>) -> Option<i32> {
    let neg = s.len() > 0 && s[0] == '-';
    let body = if s.len() > 0 && (s[0] == '-' || s[0] == '+') {
        s.drop_first()
    } else {
        s
    };
    if body.len() == 0 || !all_digits(body) {
        None
    } else {
        let v = if neg {
            -digits_val(body)
        } else {
            digits_val(body)
        };
        if i32::MIN <= v <= i32::MAX {
            Some(v as i32)
        } else {
            None
        }
    }
}

proof fn lemma_digits_val_mono(s: Seq<char>, k: int)
    requires
        all_digits(s),
        0 <= k <= s.len(),
    ensures
        0 <= digits_val(s.take(k)) <= digits_val(s),
    decreases s.len() - k,
{
    if k < s.len() {
        lemma_digits_val_mono(s, k + 1);
        assert(s.take(k + 1).drop_last() =~= s.take(k));
        assert(is_dig(s[k]));
    } else {
        assert(s.take(k) =~= s);
        lemma_digits_val_nonneg(s);
    }
}

proof fn lemma_digits_val_nonneg(s: Seq<char>)
    requires
        all_digits(s),
    ensures
        digits_val(s) >= 0,
    decreases s.len(),
{
    if s.len() > 0 {
        assert(all_digits(s.drop_last())) by {
            assert forall|i: int| 0 <= i < s.drop_last().len() implies is_dig(
                #[trigger] s.drop_last()[i],
            ) by {
                assert(s.drop_last()[i] == s[i]);
            }
        }
        lemma_digits_val_nonneg(s.drop_last());
        assert(is_dig(s[s.len() - 1]));
    }
}

proof fn lemma_dig(d: int)
    requires
        0 <= d < 10,
    ensures
        is_dig(dig(d)),
        digit_val(dig(d)) == d,
{
}

/// The decimal text of a natural number is made of digits, and reads back as the number.
proof fn lemma_nat_str_digits(n: nat)
    ensures
        nat_str(n).len() > 0,
        all_digits(nat_str(n)),
        digits_val(nat_str(n)) == n,
    decreases n,
{
    if n < 10 {
        lemma_dig(n as int);
        assert(nat_str(n) =~= seq![dig(n as int)]);
        assert(nat_str(n).drop_last() =~= Seq::<char>::empty());
        assert(digits_val(Seq::<char>::empty()) == 0);
        assert(digits_val(nat_str(n)) == digits_val(nat_str(n).drop_last()) * 10 + digit_val(
            nat_str(n).last(),
        ));
    } else {
        lemma_nat_str_digits(n / 10);
        lemma_dig((n % 10) as int);
        let s = nat_str(n);
        assert(s.drop_last() =~= nat_str(n / 10));
        assert(s.last() == dig((n % 10) as int));
        assert forall|i: int| 0 <= i < s.len() implies is_dig(#[trigger] s[i]) by {
            if i < s.len() - 1 {
                assert(s[i] == nat_str(n / 10)[i]);
            }
        }
        assert((n / 10) * 10 + n % 10 == n) by (nonlinear_arith);
        assert(digits_val(s) == digits_val(s.drop_last()) * 10 + digit_val(s.last()));
        assert(digits_val(s.drop_last()) == n / 10);
    }
}

/// Reading a number back from its decimal text gives the number: every `i32`, written with a
/// minus sign where it is negative, parses to itself.
pub proof fn law_parse_reads_decimal_text(n: i32)
    ensures
        parse_i32_spec(int_str(n as int)) == Some(n),
{
    if n < 0 {
        let m = (-n) as nat;
        lemma_nat_str_digits(m);
        let s = int_str(n as int);
        assert(s == seq!['-'] + nat_str(m));
        assert(s[0] == '-');
        assert(s.drop_first() =~= nat_str(m));
    } else {
        let m = n as nat;
        lemma_nat_str_digits(m);
        let s = nat_str(m);
        assert(is_dig(s[0]));
    }
}

/// Parses a number as `str::parse::<i32>` does.
pub fn parse_i32(s: &String) -> (r: Option<i32>)
    ensures
        r == parse_i32_spec(s@),
{
    let st = s.as_str();
    let n = st.unicode_len();
    let mut start: usize = 0;
    let mut neg = false;
    if n > 0 {
        let c0 = st.get_char(0);
        if c0 == '-' {
            neg = true;
            start = 1;
        } else if c0 == '+' {
            start = 1;
        }
    }
    let ghost body = if s@.len() > 0 && (s@[0] == '-' || s@[0] == '+') {
        s@.drop_first()
    } else {
        s@
    };
    assert(body =~= s@.subrange(start as int, s@.len() as int));
    if start == n {
        return None;
    }
    let mut v: i64 = 0;
    let mut i: usize = start;
    while i < n
        invariant
            start <= i <= n,
            n == s@.len(),
            start < n,
            st@ == s@,
            body == (if s@.len() > 0 && (s@[0] == '-' || s@[0] == '+') {
                s@.drop_first()
            } else {
                s@
            }),
            neg == (s@.len() > 0 && s@[0] == '-'),
            body == s@.subrange(start as int, n as int),
            all_digits(body.take(i - start)),
            v == digits_val(body.take(i - start)),
            0 <= v <= 2147483648,
        decreases n - i,
    {
        let c = st.get_char(i);
        if !('0' <= c && c <= '9') {
            proof {
                assert(body[i - start] == c);
                assert(!is_dig(body[i - start]));
                assert(!all_digits(body));
            }
            return None;
        }
        let d = (c as u32 - '0' as u32) as i64;
        proof {
            assert(body.take(i - start + 1).drop_last() =~= body.take(i - start));
            assert(body.take(i - start + 1).last() == c);
            assert(all_digits(body.take(i - start + 1))) by {
                assert forall|j: int| 0 <= j < body.take(i - start + 1).len() implies is_dig(
                    #[trigger] body.take(i - start + 1)[j],
                ) by {
                    if j < i - start {
                        assert(body.take(i - start + 1)[j] == body.take(i - start)[j]);
                    }
                }
            }
        }
        v = v * 10 + d;
        i = i + 1;
        assert(v == digits_val(body.take(i - start)));
        if v > 2147483648 {
            proof {
                if all_digits(body) {
                    lemma_digits_val_mono(body, i - start);
                }
            }
            return None;
        }
    }
    proof {
        assert(body.take(i - start) =~= body);
    }
    if neg {
        Some((-v) as i32)
    } else if v <= 2147483647 {
        Some(v as i32)
    } else {
        None
    }
}

// ---------------------------------------------------------------------------------------------
// The parser's state
/// The model of the parser: the lexer, the scopes opened so far, the open parentheses, and the
/// expressions and last type of the sequence being read.
pub struct PState {
    pub lex: LexState,
    pub blocks: Seq<SBlock>,
    pub parens: Seq<char>,
    pub seq: Seq<SExpr>,
    pub last: Option<SType>,
}

/// The parser's state after reading the next token; `None` where the lexer gives up.
pub open spec fn gt(ps: PState) -> Option<PState> {
    match lex(ps.lex) {
        Some(l) => Some(PState { lex: l, ..ps }),
        None => None,
    }
}

pub open spec fn tk(ps: PState) -> Token {
    ps.lex.tok
}

/// Input was consumed between `a` and `b`.
pub open spec fn dec(a: PState, b: PState) -> bool {
    0 <= measure(b.lex) < measure(a.lex)
}

/// The type that a type name stands for.
pub open spec fn ty_from_string(s: Seq<char>) -> SType {
    if s == "int"@ {
        SType::Int
    } else if s == "string"@ {
        SType::Str
    } else {
        SType::Custom(s)
    }
}

pub open spec fn is_type_name_tok(t: Token) -> bool {
    t == Token::Int || t == Token::TokString || t == Token::Ident
}

// The functions below state what the parser does, each function after the method of the same
// name. `None` stands for the inputs on which the parser gives up (it panics). Where one of them
// requires that input was consumed before reading an expression (`dec`), that is always so when
// the expression can be read: a token that consumes nothing is the end of input or an unknown
// character, and no expression starts with either.
/// `parse_type_decl`: `type id = ty`.
pub open spec fn p_type_decl(ps: PState, decls: Seq<SDecl>) -> Option<(PState, Seq<SDecl>)> {
    match gt(ps) {
        Some(ps1) if tk(ps1) == Token::Ident => {
            let id = ps1.lex.s;
            match gt(ps1) {
                Some(ps2) if tk(ps2) == Token::Equals => {
                    match gt(ps2) {
                        Some(ps3) => {
                            let t = tk(ps3);
                            if t == Token::Int {
                                Some((ps3, decls.push(SDecl::TypeDec(id, SType::Int))))
                            } else if t == Token::TokString {
                                Some((ps3, decls.push(SDecl::TypeDec(id, SType::Str))))
                            } else if t == Token::Ident {
                                Some((ps3, decls.push(SDecl::TypeDec(id, SType::Custom(ps3.lex.s)))))
                            } else if t == Token::Array {
                                match gt(ps3) {
                                    Some(ps4) if tk(ps4) == Token::Of => {
                                        match gt(ps4) {
                                            Some(ps5) if is_type_name_tok(tk(ps5)) => Some((ps5, decls)),
                                            _ => None,
                                        }
                                    },
                                    _ => None,
                                }
                            } else if t == Token::LeftCurly {
                                Some((ps3, decls))
                            } else {
                                None
                            }
                        },
                        None => None,
                    }
                },
                _ => None,
            }
        },
        _ => None,
    }
}

/// The loop of `parse_function_params_list`.
pub open spec fn p_params_loop(ps: PState, acc: Seq<(Seq<char>, SType)>) -> Option<
    (PState, Seq<(Seq<char>, SType)>),
>
    decreases measure(ps.lex),
{
    match gt(ps) {
        Some(ps1) => {
            let t = tk(ps1);
            if t == Token::Comma {
                if dec(ps, ps1) {
                    p_params_loop(ps1, acc)
                } else {
                    None
                }
            } else if t == Token::RightParen {
                Some((ps1, acc))
            } else if t == Token::Ident {
                let id = ps1.lex.s;
                if exists|i: int| 0 <= i < acc.len() && acc[i].0 == id {
                    None
                } else {
                    match gt(ps1) {
                        Some(ps2) if tk(ps2) == Token::Colon => {
                            match gt(ps2) {
                                Some(ps3) if is_type_name_tok(tk(ps3)) => {
                                    if dec(ps, ps3) {
                                        p_params_loop(ps3, acc.push((id, ty_from_string(ps3.lex.s))))
                                    } else {
                                        None
                                    }
                                },
                                _ => None,
                            }
                        },
                        _ => None,
                    }
                }
            } else {
                None
            }
        },
        None => None,
    }
}

/// `parse_function_params_list`: `( id : ty, ... )`.
pub open spec fn p_params(ps: PState) -> Option<(PState, Option<Seq<(Seq<char>, SType)>>)> {
    match gt(ps) {
        Some(ps1) if tk(ps1) == Token::LeftParen => {
            match p_params_loop(ps1, seq![]) {
                Some((ps2, acc)) => Some(
                    (
                        ps2,
                        if acc.len() == 0 {
                            None
                        } else {
                            Some(acc)
                        },
                    ),
                ),
                None => None,
            }
        },
        _ => None,
    }
}

/// `parse_function_ret_type`: `: ty =` or `=`, and the token after.
pub open spec fn p_ret(ps: PState) -> Option<(PState, SType)> {
    match gt(ps) {
        Some(ps1) => {
            if tk(ps1) == Token::Colon {
                match gt(ps1) {
                    Some(ps2) if is_type_name_tok(tk(ps2)) => {
                        let ty = ty_from_string(ps2.lex.s);
                        match gt(ps2) {
                            Some(ps3) if tk(ps3) == Token::Equals => {
                                match gt(ps3) {
                                    Some(ps4) => Some((ps4, ty)),
                                    None => None,
                                }
                            },
                            _ => None,
                        }
                    },
                    _ => None,
                }
            } else if tk(ps1) == Token::Equals {
                match gt(ps1) {
                    Some(ps2) => Some((ps2, SType::Void)),
                    None => None,
                }
            } else {
                None
            }
        },
        None => None,
    }
}

/// `parse_string_expr`.
pub open spec fn p_string(ps: PState) -> Option<(PState, (SType, SExpr))> {
    Some((ps, (SType::Str, SExpr::Str(ps.lex.s))))
}

/// The binary operator that follows a number or an identifier.
pub open spec fn arith(t: Token, a: SExpr, b: SExpr) -> SExpr {
    if t == Token::Plus {
        SExpr::Add(bx(a), bx(b))
    } else if t == Token::Minus {
        SExpr::Sub(bx(a), bx(b))
    } else if t == Token::Mul {
        SExpr::Mul(bx(a), bx(b))
    } else if t == Token::Div {
        SExpr::Div(bx(a), bx(b))
    } else if t == Token::Equals {
        SExpr::Equals(bx(a), bx(b))
    } else if t == Token::LessThan {
        SExpr::LessThan(bx(a), bx(b))
    } else if t == Token::GreaterThan {
        SExpr::GreaterThan(bx(a), bx(b))
    } else {
        SExpr::NotEquals(bx(a), bx(b))
    }
}

pub open spec fn is_arith_tok(t: Token) -> bool {
    t == Token::Plus || t == Token::Minus || t == Token::Mul || t == Token::Div
}

pub open spec fn is_cmp_tok(t: Token) -> bool {
    t == Token::Equals || t == Token::LessThan || t == Token::GreaterThan || t
        == Token::LessThanGreaterThan
}

/// `expr`: an expression starting at the current token.
pub open spec fn p_expr(ps: PState) -> Option<(PState, (SType, SExpr))>
    decreases measure(ps.lex), 3int,
{
    let t = tk(ps);
    if t == Token::Nil {
        Some((ps, (SType::Nil, SExpr::Nil)))
    } else if t == Token::Number {
        p_num(ps)
    } else if t == Token::Ident {
        p_ident(ps)
    } else if t == Token::TokString {
        p_string(ps)
    } else if t == Token::Let {
        p_let(ps)
    } else if t == Token::LeftParen {
        p_seq(ps)
    } else if t == Token::If {
        p_if(ps)
    } else if t == Token::While {
        p_while(ps)
    } else if t == Token::For {
        p_for(ps)
    } else {
        None
    }
}

/// `get_nxt_and_parse`: the expression that starts at the next token.
pub open spec fn p_gnp(ps: PState) -> Option<(PState, (SType, SExpr))>
    decreases measure(ps.lex), 1int,
{
    match gt(ps) {
        Some(ps1) => if dec(ps, ps1) {
            p_expr(ps1)
        } else {
            None
        },
        None => None,
    }
}

/// `parse_num_expr`: a number, and the operator and operand after it.
pub open spec fn p_num(ps: PState) -> Option<(PState, (SType, SExpr))>
    decreases measure(ps.lex), 2int,
{
    match parse_i32_spec(ps.lex.s) {
        Some(n) => {
            let op1 = SExpr::Num(n);
            match gt(ps) {
                Some(ps1) => {
                    let t = tk(ps1);
                    if is_arith_tok(t) || is_cmp_tok(t) {
                        if dec(ps, ps1) {
                            match p_gnp(ps1) {
                                Some((ps2, (ty, op2))) => {
                                    if is_cmp_tok(t) {
                                        Some((ps2, (SType::Void, arith(t, op1, op2))))
                                    } else if ty == SType::Int {
                                        Some((ps2, (SType::Int, arith(t, op1, op2))))
                                    } else {
                                        None
                                    }
                                },
                                None => None,
                            }
                        } else {
                            None
                        }
                    } else {
                        Some((ps1, (SType::Int, op1)))
                    }
                },
                None => None,
            }
        },
        None => None,
    }
}

/// `parse_ident_expr`: an identifier, a call, or an addition or comparison.
pub open spec fn p_ident(ps: PState) -> Option<(PState, (SType, SExpr))>
    decreases measure(ps.lex), 2int,
{
    let id = ps.lex.s;
    let op1 = SExpr::Id(id);
    match gt(ps) {
        Some(ps1) => {
            let t = tk(ps1);
            if t == Token::LeftParen {
                if dec(ps, ps1) {
                    match p_call_args(ps1) {
                        Some((ps2, args)) => if tk(ps2) != Token::Plus {
                            Some((ps2, (SType::Void, SExpr::Call(id, args))))
                        } else if dec(ps, ps2) {
                            // a call followed by `+` is the left operand of an addition
                            match p_gnp(ps2) {
                                Some((ps3, (_, op2))) => Some(
                                    (ps3, (SType::Int, arith(Token::Plus, SExpr::Call(id, args), op2))),
                                ),
                                None => None,
                            }
                        } else {
                            None
                        },
                        None => None,
                    }
                } else {
                    None
                }
            } else if t == Token::Plus || t == Token::Equals {
                if dec(ps, ps1) {
                    match p_gnp(ps1) {
                        Some((ps2, (_, op2))) => if t == Token::Plus {
                            Some((ps2, (SType::Int, arith(t, op1, op2))))
                        } else {
                            Some((ps2, (SType::Void, arith(t, op1, op2))))
                        },
                        None => None,
                    }
                } else {
                    None
                }
            } else {
                Some((ps1, (SType::Void, op1)))
            }
        },
        None => None,
    }
}

/// A number followed by an operator is the left operand of that operator's node, and the
/// expression after the operator its right operand: `+` an addition, `-` a subtraction, `*` a
/// multiplication, `/` a division, `=`, `<`, `>` and `<>` the comparisons equal, less, greater
/// and not equal. Arithmetic gives an integer, a comparison no value; a number followed by
/// anything else is the number alone.
pub proof fn law_number_operators(ps: PState)
    requires
        tk(ps) == Token::Number,
        p_expr(ps) is Some,
    ensures
        ({
            let r = p_expr(ps).unwrap().1;
            let e = r.1;
            let ps1 = gt(ps).unwrap();
            let t = tk(ps1);
            let l = bx(SExpr::Num(parse_i32_spec(ps.lex.s).unwrap()));
            let rhs = bx((p_gnp(ps1).unwrap().1).1);
            &&& t == Token::Plus ==> e == SExpr::Add(l, rhs) && r.0 == SType::Int
            &&& t == Token::Minus ==> e == SExpr::Sub(l, rhs) && r.0 == SType::Int
            &&& t == Token::Mul ==> e == SExpr::Mul(l, rhs) && r.0 == SType::Int
            &&& t == Token::Div ==> e == SExpr::Div(l, rhs) && r.0 == SType::Int
            &&& t == Token::Equals ==> e == SExpr::Equals(l, rhs) && r.0 == SType::Void
            &&& t == Token::LessThan ==> e == SExpr::LessThan(l, rhs) && r.0 == SType::Void
            &&& t == Token::GreaterThan ==> e == SExpr::GreaterThan(l, rhs) && r.0 == SType::Void
            &&& t == Token::LessThanGreaterThan ==> e == SExpr::NotEquals(l, rhs) && r.0
                == SType::Void
            &&& !(t == Token::Plus || t == Token::Minus || t == Token::Mul || t == Token::Div || t
                == Token::Equals || t == Token::LessThan || t == Token::GreaterThan || t
                == Token::LessThanGreaterThan) ==> e == *l && r.0 == SType::Int
        }),
{
}

/// A name followed by `+` or `=` (and not by a bracket) is the left operand of an addition or
/// an equality, and the expression after the operator its right operand; a name followed by
/// anything else but a bracket is the name alone.
pub proof fn law_name_operators(ps: PState)
    requires
        tk(ps) == Token::Ident,
        p_expr(ps) is Some,
        tk(gt(ps).unwrap()) != Token::LeftParen,
    ensures
        ({
            let r = p_expr(ps).unwrap().1;
            let e = r.1;
            let ps1 = gt(ps).unwrap();
            let t = tk(ps1);
            let l = bx(SExpr::Id(ps.lex.s));
            let rhs = bx((p_gnp(ps1).unwrap().1).1);
            &&& t == Token::Plus ==> e == SExpr::Add(l, rhs) && r.0 == SType::Int
            &&& t == Token::Equals ==> e == SExpr::Equals(l, rhs) && r.0 == SType::Void
            &&& !(t == Token::Plus || t == Token::Equals) ==> e == *l
        }),
{
}

/// The return type of a function: `: int =` gives the integer type, `: string =` the string
/// type, `: t =` for any other name the type named `t`, and a bare `=` no value.
pub proof fn law_return_type_names(ps: PState)
    requires
        p_ret(ps) is Some,
    ensures
        ({
            let ps1 = gt(ps).unwrap();
            let ty = p_ret(ps).unwrap().1;
            &&& tk(ps1) == Token::Equals ==> ty == SType::Void
            &&& tk(ps1) == Token::Colon ==> ({
                let name = gt(ps1).unwrap().lex.s;
                &&& name == "int"@ ==> ty == SType::Int
                &&& name == "string"@ ==> ty == SType::Str
                &&& name != "int"@ && name != "string"@ ==> ty == SType::Custom(name)
            })
        }),
{
    reveal_strlit("int");
    reveal_strlit("string");
    assert("int"@.len() != "string"@.len());
}

/// `type id = int`, `type id = string` and `type id = t` declare `id` as the type named on the
/// right: the integer type, the string type, and the type named `t`.
pub proof fn law_type_decl_names(ps: PState, decls: Seq<SDecl>)
    requires
        p_type_decl(ps, decls) is Some,
    ensures
        ({
            let ps1 = gt(ps).unwrap();
            let ps2 = gt(ps1).unwrap();
            let ps3 = gt(ps2).unwrap();
            let ds = p_type_decl(ps, decls).unwrap().1;
            &&& tk(ps1) == Token::Ident && tk(ps2) == Token::Equals
            &&& tk(ps3) == Token::Int ==> ds == decls.push(SDecl::TypeDec(ps1.lex.s, SType::Int))
            &&& tk(ps3) == Token::TokString ==> ds == decls.push(
                SDecl::TypeDec(ps1.lex.s, SType::Str),
            )
            &&& tk(ps3) == Token::Ident ==> ds == decls.push(
                SDecl::TypeDec(ps1.lex.s, SType::Custom(ps3.lex.s)),
            )
        }),
{
}

/// The loop of `parse_call_args`.
pub open spec fn p_call_loop(ps: PState, acc: Seq<(SType, SExpr)>) -> Option<
    (PState, Seq<(SType, SExpr)>),
>
    decreases measure(ps.lex), 0int,
{
    match gt(ps) {
        Some(ps1) => {
            let t = tk(ps1);
            if t == Token::RightParen {
                Some((ps1, acc))
            } else if t == Token::Number || t == Token::Ident || t == Token::TokString {
                if dec(ps, ps1) {
                    match p_expr(ps1) {
                        Some((ps2, r)) => {
                            let acc2 = acc.push(r);
                            if tk(ps2) == Token::RightParen {
                                Some((ps2, acc2))
                            } else if dec(ps, ps2) {
                                p_call_loop(ps2, acc2)
                            } else {
                                None
                            }
                        },
                        None => None,
                    }
                } else {
                    None
                }
            } else {
                None
            }
        },
        None => None,
    }
}

/// `parse_call_args`: the arguments of a call, and the token after the closing parenthesis.
pub open spec fn p_call_args(ps: PState) -> Option<(PState, Option<Seq<(SType, SExpr)>>)>
    decreases measure(ps.lex), 1int,
{
    match p_call_loop(ps, seq![]) {
        Some((ps1, acc)) => match gt(ps1) {
            Some(ps2) => Some(
                (
                    ps2,
                    if acc.len() == 0 {
                        None
                    } else {
                        Some(acc)
                    },
                ),
            ),
            None => None,
        },
        None => None,
    }
}

/// The loop of a sequence expression: reads expressions up to the closing parenthesis.
pub open spec fn p_seq_loop(ps: PState) -> Option<PState>
    decreases measure(ps.lex), 1int,
{
    match gt(ps) {
        Some(ps1) => {
            let t = tk(ps1);
            if t == Token::RightParen {
                Some(ps1)
            } else if !dec(ps, ps1) {
                None
            } else if t == Token::SemiColon {
                p_seq_loop(ps1)
            } else if t == Token::Eof {
                None
            } else {
                match p_expr(ps1) {
                    Some((ps2, (ty, e))) => {
                        let ps3 = PState { seq: ps2.seq.push(e), last: Some(ty), ..ps2 };
                        if tk(ps3) == Token::RightParen {
                            Some(ps3)
                        } else if dec(ps, ps3) {
                            p_seq_loop(ps3)
                        } else {
                            None
                        }
                    },
                    None => None,
                }
            }
        },
        None => None,
    }
}

/// A sequence expression `( e; e; ... )`, which `expr` reads at an opening parenthesis.
pub open spec fn p_seq(ps: PState) -> Option<(PState, (SType, SExpr))>
    decreases measure(ps.lex), 2int,
{
    let ps1 = PState { parens: ps.parens.push('('), ..ps };
    match p_seq_loop(ps1) {
        Some(ps2) => {
            let ps3 = PState {
                parens: if ps2.parens.len() > 0 {
                    ps2.parens.drop_last()
                } else {
                    ps2.parens
                },
                ..ps2
            };
            if ps3.parens.len() != 0 {
                None
            } else {
                match ps3.last {
                    Some(ty) => Some(
                        (
                            PState { last: None, seq: seq![], ..ps3 },
                            (ty, SExpr::Sequence(Some(ps3.seq))),
                        ),
                    ),
                    None => None,
                }
            }
        },
        None => None,
    }
}

/// Binds a name in the innermost scope.
pub open spec fn bind_in_last(blocks: Seq<SBlock>, id: Seq<char>, ty: SType) -> Seq<SBlock> {
    blocks.update(
        blocks.len() - 1,
        SBlock { syms: tab_insert(blocks.last().syms, id, ty), ..blocks.last() },
    )
}

/// `parse_var_decl`: `var id : int := e` (a string variable is not read).
pub open spec fn p_var_decl(ps: PState, decls: Seq<SDecl>) -> Option<(PState, Seq<SDecl>)>
    decreases measure(ps.lex), 0int,
{
    match gt(ps) {
        Some(ps1) if tk(ps1) == Token::Ident => {
            let id = ps1.lex.s;
            match gt(ps1) {
                Some(ps2) if tk(ps2) == Token::Colon => {
                    match gt(ps2) {
                        Some(ps3) if tk(ps3) == Token::Int => {
                            match gt(ps3) {
                                Some(ps4) if tk(ps4) == Token::ColonEquals => {
                                    if dec(ps, ps4) {
                                        match p_gnp(ps4) {
                                            Some((ps5, (ty, e))) => if ps5.blocks.len() == 0 {
                                                None
                                            } else {
                                                Some(
                                                    (
                                                        PState {
                                                            blocks: bind_in_last(ps5.blocks, id, ty),
                                                            ..ps5
                                                        },
                                                        decls.push(SDecl::VarDec(id, SType::Int, e)),
                                                    ),
                                                )
                                            },
                                            None => None,
                                        }
                                    } else {
                                        None
                                    }
                                },
                                _ => None,
                            }
                        },
                        _ => None,
                    }
                },
                _ => None,
            }
        },
        _ => None,
    }
}

/// `parse_function_decl`: `function id ( params ) : ty = body`.
pub open spec fn p_fun_decl(ps: PState, decls: Seq<SDecl>) -> Option<(PState, Seq<SDecl>)>
    decreases measure(ps.lex), 0int,
{
    match gt(ps) {
        Some(ps1) if tk(ps1) == Token::Ident => {
            let id = ps1.lex.s;
            match p_params(ps1) {
                Some((ps2, fds)) => match p_ret(ps2) {
                    Some((ps3, rt)) => if dec(ps, ps3) {
                        match p_expr(ps3) {
                            Some((ps4, (bt, body))) => Some(
                                (ps4, decls.push(SDecl::FunDec(id, fds, rt, body, bt))),
                            ),
                            None => None,
                        }
                    } else {
                        None
                    },
                    None => None,
                },
                None => None,
            }
        },
        _ => None,
    }
}

/// The loop of `parse_let_expr`: reads declarations up to `in`.
pub open spec fn p_let_loop(ps: PState, decls: Seq<SDecl>) -> Option<(PState, Seq<SDecl>)>
    decreases measure(ps.lex), 1int,
{
    match gt(ps) {
        Some(ps1) => {
            let t = tk(ps1);
            if t == Token::In || t == Token::Eof || t == Token::End {
                Some((ps1, decls))
            } else if !dec(ps, ps1) {
                None
            } else if t == Token::NewLine {
                p_let_loop(ps1, decls)
            } else {
                let r = if t == Token::Type {
                    p_type_decl(ps1, decls)
                } else if t == Token::Var {
                    p_var_decl(ps1, decls)
                } else if t == Token::Function {
                    p_fun_decl(ps1, decls)
                } else {
                    None
                };
                match r {
                    Some((ps2, d2)) => if tk(ps2) == Token::In {
                        Some((ps2, d2))
                    } else if dec(ps, ps2) {
                        p_let_loop(ps2, d2)
                    } else {
                        None
                    },
                    None => None,
                }
            }
        },
        None => None,
    }
}

/// `parse_let_expr`: `let decls in e`; it opens a scope, which stays open.
pub open spec fn p_let(ps: PState) -> Option<(PState, (SType, SExpr))>
    decreases measure(ps.lex), 2int,
{
    let ps0 = PState { blocks: ps.blocks.push(empty_block()), ..ps };
    match p_let_loop(ps0, seq![]) {
        Some((ps1, decls)) => if tk(ps1) == Token::In {
            match gt(ps1) {
                Some(ps2) => if dec(ps, ps2) {
                    match p_expr(ps2) {
                        Some((ps3, (ty, e))) => Some((ps3, (ty, SExpr::Let(decls, Some(bx(e)))))),
                        None => None,
                    }
                } else {
                    None
                },
                None => None,
            }
        } else {
            None
        },
        None => None,
    }
}

/// The token after a condition: the current one where the condition is an int-typed expression
/// or is already followed by `kw`, else the next one.
pub open spec fn after_cond(ps: PState, ty: SType, kw: Token) -> Option<PState> {
    if ty != SType::Int && tk(ps) != kw {
        gt(ps)
    } else {
        Some(ps)
    }
}

/// `parse_if_then_else_expr`: `if c then e` or `if c then e else e`.
pub open spec fn p_if(ps: PState) -> Option<(PState, (SType, SExpr))>
    decreases measure(ps.lex), 2int,
{
    match gt(ps) {
        Some(ps1) => if dec(ps, ps1) {
            match p_expr(ps1) {
                Some((ps2, (cty, c))) => match after_cond(ps2, cty, Token::Then) {
                    Some(ps3) => if tk(ps3) == Token::Then {
                        match gt(ps3) {
                            Some(ps4) => if dec(ps, ps4) {
                                match p_expr(ps4) {
                                    Some((ps5, (_, th))) => if tk(ps5) == Token::Else {
                                        match gt(ps5) {
                                            Some(ps6) => if dec(ps, ps6) {
                                                match p_expr(ps6) {
                                                    Some((ps7, (_, el))) => Some(
                                                        (
                                                            ps7,
                                                            (
                                                                SType::Void,
                                                                SExpr::IfThenElse(bx(c), bx(th), bx(el)),
                                                            ),
                                                        ),
                                                    ),
                                                    None => None,
                                                }
                                            } else {
                                                None
                                            },
                                            None => None,
                                        }
                                    } else {
                                        Some((ps5, (SType::Void, SExpr::IfThen(bx(c), bx(th)))))
                                    },
                                    None => None,
                                }
                            } else {
                                None
                            },
                            None => None,
                        }
                    } else {
                        None
                    },
                    None => None,
                },
                None => None,
            }
        } else {
            None
        },
        None => None,
    }
}

/// `parse_while_expr`: `while c do e`; its type is that of the body.
pub open spec fn p_while(ps: PState) -> Option<(PState, (SType, SExpr))>
    decreases measure(ps.lex), 2int,
{
    match gt(ps) {
        Some(ps1) => if dec(ps, ps1) {
            match p_expr(ps1) {
                Some((ps2, (cty, c))) => match after_cond(ps2, cty, Token::Do) {
                    Some(ps3) => if tk(ps3) == Token::Do {
                        match gt(ps3) {
                            Some(ps4) => if dec(ps, ps4) {
                                match p_expr(ps4) {
                                    Some((ps5, (ty, body))) => Some(
                                        (ps5, (ty, SExpr::While(bx(c), bx(body)))),
                                    ),
                                    None => None,
                                }
                            } else {
                                None
                            },
                            None => None,
                        }
                    } else {
                        None
                    },
                    None => None,
                },
                None => None,
            }
        } else {
            None
        },
        None => None,
    }
}

/// `parse_for_expr`: `for id := e to e do e`.
pub open spec fn p_for(ps: PState) -> Option<(PState, (SType, SExpr))>
    decreases measure(ps.lex), 2int,
{
    match gt(ps) {
        Some(ps1) if tk(ps1) == Token::Ident => {
            let id = ps1.lex.s;
            match gt(ps1) {
                Some(ps2) if tk(ps2) == Token::ColonEquals => {
                    match gt(ps2) {
                        Some(ps3) => if dec(ps, ps3) {
                            match p_expr(ps3) {
                                Some((ps4, (_, from))) => if tk(ps4) == Token::To {
                                    match gt(ps4) {
                                        Some(ps5) => if dec(ps, ps5) {
                                            match p_expr(ps5) {
                                                Some((ps6, (_, to))) => if tk(ps6) == Token::Do {
                                                    match gt(ps6) {
                                                        Some(ps7) => if dec(ps, ps7) {
                                                            match p_expr(ps7) {
                                                                Some((ps8, (_, body))) => Some(
                                                                    (
                                                                        ps8,
                                                                        (
                                                                            SType::Void,
                                                                            SExpr::For(
                                                                                id,
                                                                                bx(from),
                                                                                bx(to),
                                                                                bx(body),
                                                                            ),
                                                                        ),
                                                                    ),
                                                                ),
                                                                None => None,
                                                            }
                                                        } else {
                                                            None
                                                        },
                                                        None => None,
                                                    }
                                                } else {
                                                    None
                                                },
                                                None => None,
                                            }
                                        } else {
                                            None
                                        },
                                        None => None,
                                    }
                                } else {
                                    None
                                },
                                None => None,
                            }
                        } else {
                            None
                        },
                        None => None,
                    }
                },
                _ => None,
            }
        },
        _ => None,
    }
}

/// The tokens at which `program` reads an expression.
pub open spec fn starts_program_expr(t: Token) -> bool {
    t == Token::Nil || t == Token::Number || t == Token::LeftParen || t == Token::Minus || t
        == Token::If || t == Token::While || t == Token::For || t == Token::Break || t == Token::Let
        || t == Token::Function || t == Token::Ident || t == Token::TokString
}

/// `program`: skips semicolons, then reads the main expression into the innermost scope.
pub open spec fn p_program(ps: PState) -> Option<PState>
    decreases measure(ps.lex),
{
    match gt(ps) {
        Some(ps1) => {
            let t = tk(ps1);
            if t == Token::SemiColon {
                if dec(ps, ps1) {
                    p_program(ps1)
                } else {
                    None
                }
            } else if starts_program_expr(t) {
                if dec(ps, ps1) {
                    match p_expr(ps1) {
                        Some((ps2, (_, e))) => if ps2.blocks.len() == 0 {
                            None
                        } else {
                            Some(
                                PState {
                                    blocks: ps2.blocks.update(
                                        ps2.blocks.len() - 1,
                                        SBlock { expr: Some(e), ..ps2.blocks.last() },
                                    ),
                                    ..ps2
                                },
                            )
                        },
                        None => None,
                    }
                } else {
                    None
                }
            } else if t == Token::Eof || t == Token::End {
                Some(ps1)
            } else {
                None
            }
        },
        None => None,
    }
}

/// `parse_block`: reads the first character and the program; exactly one scope must be open at
/// the end. The result is that scope where a main expression was read.
pub open spec fn p_block(ps: PState) -> Option<(PState, Option<SBlock>)> {
    let ps0 = PState { lex: eat(ps.lex), ..ps };
    match p_program(ps0) {
        Some(ps1) => if ps1.blocks.len() != 1 {
            None
        } else {
            let b = ps1.blocks.last();
            Some(
                (
                    PState { blocks: ps1.blocks.drop_last(), ..ps1 },
                    if b.expr is None {
                        None
                    } else {
                        Some(b)
                    },
                ),
            )
        },
        None => None,
    }
}


// ---------------------------------------------------------------------------------------------
// The parser
pub open spec fn blocks_v(v: Seq<Block>) -> Seq<SBlock> {
    Seq::new(v.len(), |i: int| block_v(v[i]))
}

pub open spec fn opt_ty_v(o: Option<TType>) -> Option<SType> {
    match o {
        Some(t) => Some(t@),
        None => None,
    }
}

/// The model of what an expression parse returns: its type and its tree.
pub open spec fn rv(r: (TType, B<Expr>)) -> (SType, SExpr) {
    (r.0@, expr_v(*r.1.ptr))
}

/// A recursive-descent parser over a lexer, with a stack of scopes.
pub struct Parser {
    pub lexer: Lexer,
    block_stack: Vec<Block>,
    paren_stack: Vec<char>,
    seq_expr_list: Vec<B<Expr>>,
    last_expr_type: Option<TType>,
}

impl View for Parser {
    type V = PState;

    closed spec fn view(&self) -> PState {
        PState {
            lex: self.lexer@,
            blocks: blocks_v(self.block_stack@),
            parens: self.paren_stack@,
            seq: exprs_v(self.seq_expr_list@),
            last: opt_ty_v(self.last_expr_type),
        }
    }
}

impl Parser {
    /// The lexer is within its source, and its line count cannot overflow.
    pub closed spec fn wf(&self) -> bool {
        &&& self.lexer.wf()
        &&& self.lexer.line_pos + measure(self.lexer@) < usize::MAX
    }

    /// A parser over `src`, with nothing read yet.
    pub fn new(src: String) -> (p: Parser)
        requires
            vstd::utf8::encode_utf8(src@).len() + 1 < usize::MAX,
        ensures
            p.wf(),
            p@ == (PState {
                lex: LexState {
                    tok: Token::NoToken,
                    next: Token::NoToken,
                    c: '\0',
                    s: Seq::<char>::empty(),
                    src: vstd::utf8::encode_utf8(src@),
                    pos: 0,
                    line: 1,
                },
                blocks: seq![],
                parens: seq![],
                seq: seq![],
                last: None,
            }),
    {
        let p = Parser {
            lexer: Lexer::new(src),
            block_stack: Vec::new(),
            paren_stack: Vec::new(),
            seq_expr_list: Vec::new(),
            last_expr_type: None,
        };
        assert(p@.blocks =~= seq![]);
        assert(p@.seq =~= seq![]);
        p
    }

    fn next_tok(&mut self) -> (t: Token)
        requires
            old(self).wf(),
            gt(old(self)@) is Some,
        ensures
            final(self).wf(),
            final(self)@ == gt(old(self)@)->0,
            t == tk(final(self)@),
            measure(final(self)@.lex) <= measure(old(self)@.lex),
    {
        proof {
            lemma_lex_progress(self.lexer@);
        }
        self.lexer.get_token()
    }

    /// Reads the first character and the first token.
    pub fn start_lexer(&mut self)
        requires
            old(self).wf(),
            lex(eat(old(self)@.lex)) is Some,
        ensures
            final(self).wf(),
            final(self)@ == (PState { lex: lex(eat(old(self)@.lex))->0, ..old(self)@ }),
    {
        proof {
            crate::lexer::lemma_eat(self.lexer@);
        }
        self.lexer.get_char();
        self.next_tok();
    }

    /// The type that a type name stands for.
    pub fn get_ty_from_string(str_: &str) -> (t: TType)
        ensures
            t@ == ty_from_string(str_@),
    {
        let s = str_.to_owned();
        if s == "int".to_owned() {
            TType::TInt32
        } else if s == "string".to_owned() {
            TType::TString
        } else {
            TType::TCustom(s)
        }
    }

    /// Reads `type id = ty` after `type`.
    fn parse_type_decl(&mut self, decls: &mut Vec<Decl>)
        requires
            old(self).wf(),
            p_type_decl(old(self)@, decls_v(old(decls)@)) is Some,
        ensures
            final(self).wf(),
            (final(self)@, decls_v(final(decls)@)) == p_type_decl(
                old(self)@,
                decls_v(old(decls)@),
            )->0,
    {
        let ghost d0 = decls_v(decls@);
        if self.next_tok() == Token::Ident {
            let id = self.lexer.curr_string.clone();
            if self.next_tok() == Token::Equals {
                let t = self.next_tok();
                if t == Token::Int {
                    decls.push(Decl::TypeDec(id, TType::TInt32));
                    assert(decls_v(decls@) =~= d0.push(decl_v(decls@.last())));
                } else if t == Token::TokString {
                    decls.push(Decl::TypeDec(id, TType::TString));
                    assert(decls_v(decls@) =~= d0.push(decl_v(decls@.last())));
                } else if t == Token::Ident {
                    decls.push(Decl::TypeDec(id, TType::TCustom(self.lexer.curr_string.clone())));
                    assert(decls_v(decls@) =~= d0.push(decl_v(decls@.last())));
                } else if t == Token::Array {
                    if self.next_tok() == Token::Of {
                        let t2 = self.next_tok();
                        if t2 == Token::Int || t2 == Token::TokString || t2 == Token::Ident {
                        } else {
                            // "Expected either int, string or type-id": ruled out by the precondition
                            proof {
                                assert(false);
                            }
                        }
                    } else {
                        // "Expected 'of' after 'array'"
                        proof {
                            assert(false);
                        }
                    }
                } else if t == Token::LeftCurly {
                    //rectype
                } else {
                    // "Expected either int, string, type-id, array of, '{' after '='"
                    proof {
                        assert(false);
                    }
                }
            } else {
                // "Expected '=' after type-id"
                proof {
                    assert(false);
                }
            }
        } else {
            // "Expected identifier after 'type'"
            proof {
                assert(false);
            }
        }
    }

    /// Reads `( id : ty, ... )` after the function's name.
    pub fn parse_function_params_list(&mut self) -> (r: OptionalParamInfoList)
        requires
            old(self).wf(),
            p_params(old(self)@) is Some,
        ensures
            final(self).wf(),
            final(self)@ == p_params(old(self)@).unwrap().0,
            crate::ast::opt_pairs_v(r) == p_params(old(self)@).unwrap().1,
    {
        if self.next_tok() == Token::LeftParen {
            let mut field_decs: Vec<(String, TType)> = Vec::new();
            let ghost target = p_params_loop(self@, seq![]);
            assert(pairs_v(field_decs) =~= seq![]);
            loop
                invariant_except_break
                    p_params_loop(self@, pairs_v(field_decs)) == target,
                invariant
                    self.wf(),
                    target is Some,
                ensures
                    self.wf(),
                    (self@, pairs_v(field_decs)) == target->0,
                decreases measure(self.lexer@),
            {
                let ghost ps = self@;
                let t = self.next_tok();
                if t == Token::Comma {
                    continue ;
                } else if t == Token::RightParen {
                    //parameterless function
                    break ;
                } else if t == Token::Eof {
                    // "Unexpected eof encountered. Expected a ')' after field-declaration."
                    proof {
                        assert(false);
                    }
                } else if t == Token::Ident {
                    let id = self.lexer.curr_string.clone();
                    if has_param(&field_decs, &id) {
                        // "parameter '{}' found more than once"
                        proof {
                            assert(false);
                        }
                    }
                    if self.next_tok() == Token::Colon {
                        let t3 = self.next_tok();
                        if t3 == Token::Int || t3 == Token::TokString || t3 == Token::Ident {
                            let ty = Self::get_ty_from_string(self.lexer.curr_string.as_str());
                            let ghost acc = pairs_v(field_decs);
                            field_decs.push((id, ty));
                            assert(pairs_v(field_decs) =~= acc.push(
                                (id@, ty_from_string(self@.lex.s)),
                            ));
                        } else {
                            // "Expected type-id after ':'"
                            proof {
                                assert(false);
                            }
                        }
                    } else {
                        // "Expected ':' after id"
                        proof {
                            assert(false);
                        }
                    }
                } else {
                    // "Expected a ')' or parameter id"
                    proof {
                        assert(false);
                    }
                }
            }
            if field_decs.is_empty() {
                None
            } else {
                Some(field_decs)
            }
        } else {
            // "Expected a '(' after function id"
            proof {
                assert(false);
            }
            None
        }
    }

    /// Reads `: ty =` or `=` after the parameters, and the token after it.
    pub fn parse_function_ret_type(&mut self) -> (t: TType)
        requires
            old(self).wf(),
            p_ret(old(self)@) is Some,
        ensures
            final(self).wf(),
            final(self)@ == p_ret(old(self)@).unwrap().0,
            t@ == p_ret(old(self)@).unwrap().1,
    {
        let t = self.next_tok();
        if t == Token::Colon {
            let t2 = self.next_tok();
            if t2 == Token::Int || t2 == Token::TokString || t2 == Token::Ident {
                let ty = Self::get_ty_from_string(self.lexer.curr_string.as_str());
                if self.next_tok() == Token::Equals {
                    self.next_tok();
                } else {
                    // "Expected '=' after the return type"
                    proof {
                        assert(false);
                    }
                }
                ty
            } else {
                // "Expected a type after ':'"
                proof {
                    assert(false);
                }
                TType::TVoid
            }
        } else if t == Token::Equals {
            self.next_tok();  //eat '='
            TType::TVoid
        } else {
            // "Expected ':' or '=' after the parameter list"
            proof {
                assert(false);
            }
            TType::TVoid
        }
    }
}

/// Whether a parameter named `id` is in the list.
fn has_param(v: &Vec<(String, TType)>, id: &String) -> (r: bool)
    ensures
        r == exists|i: int| 0 <= i < pairs_v(*v).len() && pairs_v(*v)[i].0 == id@,
{
    let mut i: usize = 0;
    while i < v.len()
        invariant
            i <= v@.len(),
            forall|j: int| 0 <= j < i ==> pairs_v(*v)[j].0 != id@,
        decreases v@.len() - i,
    {
        if v[i].0 == *id {
            assert(pairs_v(*v)[i as int].0 == id@);
            return true;
        }
        i = i + 1;
    }
    false
}


impl Parser {
    /// Reads the expression that starts at the current token, and returns its type and tree.
    pub fn expr(&mut self) -> (r: Option<(TType, B<Expr>)>)
        requires
            old(self).wf(),
            p_expr(old(self)@) is Some,
        ensures
            final(self).wf(),
            r is Some,
            final(self)@ == p_expr(old(self)@).unwrap().0,
            rv(r.unwrap()) == p_expr(old(self)@).unwrap().1,
        decreases measure(old(self)@.lex), 3int,
    {
        let t = self.lexer.curr_token;
        if t == Token::Nil {
            Some((TType::TNil, B(Expr::NilExpr)))
        } else if t == Token::Number {
            self.parse_num_expr()
        } else if t == Token::Ident {
            self.parse_ident_expr()
        } else if t == Token::TokString {
            self.parse_string_expr()
        } else if t == Token::Let {
            self.parse_let_expr()
        } else if t == Token::LeftParen {
            //seqexpr
            self.parse_seq_expr()
        } else if t == Token::If {
            self.parse_if_then_else_expr()
        } else if t == Token::While {
            self.parse_while_expr()
        } else if t == Token::For {
            self.parse_for_expr()
        } else {
            // No expression starts with this token.
            proof {
                assert(false);
            }
            None
        }
    }

    fn parse_string_expr(&mut self) -> (r: Option<(TType, B<Expr>)>)
        ensures
            final(self)@ == old(self)@,
            final(self).wf() == old(self).wf(),
            r is Some,
            rv(r.unwrap()) == p_string(old(self)@).unwrap().1,
    {
        Some((TType::TString, B(Expr::StringExpr(self.lexer.curr_string.clone()))))
    }

    /// Reads the next token and the expression that starts there.
    fn get_nxt_and_parse(&mut self) -> (r: (TType, B<Expr>))
        requires
            old(self).wf(),
            p_gnp(old(self)@) is Some,
        ensures
            final(self).wf(),
            final(self)@ == p_gnp(old(self)@).unwrap().0,
            rv(r) == p_gnp(old(self)@).unwrap().1,
        decreases measure(old(self)@.lex), 1int,
    {
        self.next_tok();
        self.expr().unwrap()
    }

    fn parse_num_expr(&mut self) -> (r: Option<(TType, B<Expr>)>)
        requires
            old(self).wf(),
            p_num(old(self)@) is Some,
        ensures
            final(self).wf(),
            r is Some,
            final(self)@ == p_num(old(self)@).unwrap().0,
            rv(r.unwrap()) == p_num(old(self)@).unwrap().1,
        decreases measure(old(self)@.lex), 2int,
    {
        let num = parse_i32(&self.lexer.curr_string).unwrap();
        let op1 = B(Expr::NumExpr(num));
        let t = self.next_tok();
        if t == Token::Plus || t == Token::Minus || t == Token::Mul || t == Token::Div {
            let (ty, op2) = self.get_nxt_and_parse();
            // The operand's type decides whether an arithmetic expression is formed.
            if ty == TType::TInt32 {
                let e = if t == Token::Plus {
                    Expr::AddExpr(op1, op2)
                } else if t == Token::Minus {
                    Expr::SubExpr(op1, op2)
                } else if t == Token::Mul {
                    Expr::MulExpr(op1, op2)
                } else {
                    Expr::DivExpr(op1, op2)
                };
                Some((TType::TInt32, B(e)))
            } else {
                // "Expected i32 as the type of rhs expression"
                proof {
                    assert(false);
                }
                None
            }
        } else if t == Token::Equals || t == Token::LessThan || t == Token::GreaterThan || t
            == Token::LessThanGreaterThan {
            let (_, op2) = self.get_nxt_and_parse();
            let e = if t == Token::Equals {
                Expr::EqualsExpr(op1, op2)
            } else if t == Token::LessThan {
                Expr::LessThanExpr(op1, op2)
            } else if t == Token::GreaterThan {
                Expr::GreaterThanExpr(op1, op2)
            } else {
                Expr::NotEqualsExpr(op1, op2)
            };
            Some((TType::TVoid, B(e)))
        } else {
            Some((TType::TInt32, op1))
        }
    }

    fn parse_ident_expr(&mut self) -> (r: Option<(TType, B<Expr>)>)
        requires
            old(self).wf(),
            p_ident(old(self)@) is Some,
        ensures
            final(self).wf(),
            r is Some,
            final(self)@ == p_ident(old(self)@).unwrap().0,
            rv(r.unwrap()) == p_ident(old(self)@).unwrap().1,
        decreases measure(old(self)@.lex), 2int,
    {
        let id = self.lexer.curr_string.clone();
        let op1 = B(Expr::IdExpr(self.lexer.curr_string.clone()));
        let t = self.next_tok();
        if t == Token::LeftParen {
            //callexpr
            let args_list = self.parse_call_args();
            let e = Expr::CallExpr(id, args_list);
            proof {
                lemma_call_view(e);
            }
            if self.lexer.curr_token == Token::Plus {
                let ghost ps2 = self@;
                let (_, op2) = self.get_nxt_and_parse();
                let call = B(e);
                let sum = Expr::AddExpr(call, op2);
                assert(expr_v(sum) == p_ident(old(self)@).unwrap().1.1);
                Some((TType::TInt32, B(sum)))
            } else {
                assert(expr_v(e) == p_ident(old(self)@).unwrap().1.1);
                Some((TType::TVoid, B(e)))
            }
        } else if t == Token::Plus {
            let ghost ps1 = self@;
            let (_, op2) = self.get_nxt_and_parse();
            assert(expr_v(*op1.ptr) == SExpr::Id(old(self)@.lex.s));
            assert(ps1 == gt(old(self)@)->0);
            assert(expr_v(*op2.ptr) == p_gnp(ps1).unwrap().1.1);
            assert(p_ident(old(self)@).unwrap().1.1 == arith(Token::Plus, SExpr::Id(old(self)@.lex.s), p_gnp(ps1).unwrap().1.1));
            assert(expr_v(Expr::AddExpr(op1, op2)) == p_ident(old(self)@).unwrap().1.1);
            Some((TType::TInt32, B(Expr::AddExpr(op1, op2))))
        } else if t == Token::Equals {
            let (_, op2) = self.get_nxt_and_parse();
            Some((TType::TVoid, B(Expr::EqualsExpr(op1, op2))))
        } else {
            //TVoid because we dont know the type of the identifier yet.
            Some((TType::TVoid, op1))
        }
    }

    fn parse_call_args(&mut self) -> (r: OptionalTypeExprTupleList)
        requires
            old(self).wf(),
            p_call_args(old(self)@) is Some,
        ensures
            final(self).wf(),
            final(self)@ == p_call_args(old(self)@).unwrap().0,
            match r {
                Some(v) => p_call_args(old(self)@).unwrap().1 == Some(targs_v(v@)),
                None => p_call_args(old(self)@).unwrap().1 is None,
            },
        decreases measure(old(self)@.lex), 1int,
    {
        let mut args_list: Vec<(TType, B<Expr>)> = Vec::new();
        let ghost target = p_call_loop(self@, seq![]);
        assert(targs_v(args_list@) =~= seq![]);
        loop
            invariant_except_break
                p_call_loop(self@, targs_v(args_list@)) == target,
                measure(self.lexer@) <= measure(old(self)@.lex),
            invariant
                self.wf(),
                target is Some,
            ensures
                self.wf(),
                (self@, targs_v(args_list@)) == target.unwrap(),
            decreases measure(self.lexer@),
        {
            let ghost ps = self@;
            let t = self.next_tok();
            if t == Token::RightParen {
                break ;
            } else if t == Token::Number || t == Token::Ident || t == Token::TokString {
                let e = self.expr();
                if e.is_some() {
                    let ghost acc = targs_v(args_list@);
                    args_list.push(e.unwrap());
                    assert(targs_v(args_list@) =~= acc.push(rv(e.unwrap())));
                }
            } else {
                // "Invalid expression used as a call argument"
                proof {
                    assert(false);
                }
            }
            if self.lexer.curr_token == Token::RightParen {
                break
            }
        }
        self.next_tok();
        if args_list.is_empty() {
            None
        } else {
            Some(args_list)
        }
    }

    fn parse_seq_expr(&mut self) -> (r: Option<(TType, B<Expr>)>)
        requires
            old(self).wf(),
            p_seq(old(self)@) is Some,
        ensures
            final(self).wf(),
            r is Some,
            final(self)@ == p_seq(old(self)@).unwrap().0,
            rv(r.unwrap()) == p_seq(old(self)@).unwrap().1,
        decreases measure(old(self)@.lex), 2int,
    {
        self.paren_stack.push('(');
        let ghost target = p_seq_loop(self@);
        loop
            invariant_except_break
                p_seq_loop(self@) == target,
                measure(self.lexer@) <= measure(old(self)@.lex),
            invariant
                self.wf(),
                target is Some,
            ensures
                self.wf(),
                self@ == target.unwrap(),
            decreases measure(self.lexer@),
        {
            let ghost ps = self@;
            if self.next_tok() == Token::RightParen {
                break ;
            }
            //Be careful when you set value of self.lexer.curr_token between here and self.expr()
            //since logic in expr() assumes that self.lexer.curr_token will already be set
            if self.lexer.curr_token == Token::SemiColon {
                continue ;
            }
            if self.lexer.curr_token == Token::Eof {
                // "Unexpected eof encountered"
                proof {
                    assert(false);
                }
            }
            let optional_expr = self.expr();
            if optional_expr.is_some() {
                let (ty, e) = optional_expr.unwrap();
                let ghost old_seq = exprs_v(self.seq_expr_list@);
                self.seq_expr_list.push(e);
                self.last_expr_type = Some(ty);
                assert(exprs_v(self.seq_expr_list@) =~= old_seq.push(expr_v(*e.ptr)));
            }
            //check closing paren here because self.expr() above could have curr_token set to it
            if self.lexer.curr_token == Token::RightParen {
                break ;
            }
        }
        self.paren_stack.pop();
        if !self.paren_stack.is_empty() {
            // "Missing ')'"
            proof {
                assert(false);
            }
        }
        let mut last_type: Option<TType> = None;
        std::mem::swap(&mut last_type, &mut self.last_expr_type);
        let mut expr_list: Vec<B<Expr>> = Vec::new();
        std::mem::swap(&mut expr_list, &mut self.seq_expr_list);
        proof {
            assert(exprs_v(self.seq_expr_list@) =~= seq![]);
        }
        let e = Expr::SeqExpr(Some(expr_list));
        proof {
            lemma_seq_view(e);
        }
        Some((last_type.unwrap(), B(e)))
    }
}


impl Parser {
    fn parse_let_expr(&mut self) -> (r: Option<(TType, B<Expr>)>)
        requires
            old(self).wf(),
            p_let(old(self)@) is Some,
        ensures
            final(self).wf(),
            r is Some,
            final(self)@ == p_let(old(self)@).unwrap().0,
            rv(r.unwrap()) == p_let(old(self)@).unwrap().1,
        decreases measure(old(self)@.lex), 2int,
    {
        let b = Block::new();
        //set parent-child relationship
        let ghost bs = self@.blocks;
        self.block_stack.push(b);
        assert(self@.blocks =~= bs.push(empty_block()));
        let mut decls: Vec<Decl> = Vec::new();
        let ghost target = p_let_loop(self@, seq![]);
        assert(decls_v(decls@) =~= seq![]);
        loop
            invariant_except_break
                p_let_loop(self@, decls_v(decls@)) == target,
                measure(self.lexer@) <= measure(old(self)@.lex),
            invariant
                self.wf(),
                target is Some,
            ensures
                self.wf(),
                (self@, decls_v(decls@)) == target.unwrap(),
            decreases measure(self.lexer@),
        {
            let ghost ps = self@;
            let t = self.next_tok();
            if t == Token::Type {
                //typedec
                self.parse_type_decl(&mut decls);
            } else if t == Token::Var {
                //Vardec
                self.parse_var_decl(&mut decls);
            } else if t == Token::Function {
                //functiondec
                self.parse_function_decl(&mut decls);
            } else if t == Token::NewLine {
                continue ;
            } else if t == Token::In || t == Token::Eof || t == Token::End {
                break ;
            } else {
                // "Unexpected token. Expected a declaration or 'in'"
                proof {
                    assert(false);
                }
            }
            //this is needed because a var decl parse can set the curr_token to 'in'
            if self.lexer.curr_token == Token::In {
                break ;
            }
        }
        if self.lexer.curr_token == Token::In {
            self.next_tok();
            let expr = self.expr();
            let (ty, e) = expr.unwrap();
            let le = Expr::LetExpr(decls, Some(e));
            proof {
                lemma_let_view(le);
            }
            Some((ty, B(le)))
        } else {
            // "Expected 'in' after declarations"
            proof {
                assert(false);
            }
            None
        }
    }

    fn parse_var_decl(&mut self, decls: &mut Vec<Decl>)
        requires
            old(self).wf(),
            p_var_decl(old(self)@, decls_v(old(decls)@)) is Some,
        ensures
            final(self).wf(),
            (final(self)@, decls_v(final(decls)@)) == p_var_decl(
                old(self)@,
                decls_v(old(decls)@),
            ).unwrap(),
        decreases measure(old(self)@.lex), 0int,
    {
        let ghost d0 = decls_v(decls@);
        if self.next_tok() == Token::Ident {
            let id = self.lexer.curr_string.clone();
            if self.next_tok() == Token::Colon {
                let t = self.next_tok();
                if t == Token::Int {
                    if self.next_tok() == Token::ColonEquals {
                        //get rhs expr and its type
                        let (ty, expr) = self.get_nxt_and_parse();
                        let ghost bs = self@.blocks;
                        let ghost tyv = ty@;
                        let mut b = self.block_stack.pop().unwrap();
                        b.add_sym(id.clone(), ty);
                        self.block_stack.push(b);
                        assert(self@.blocks =~= bind_in_last(bs, id@, tyv));
                        decls.push(Decl::VarDec(id.clone(), TType::TInt32, expr));
                        assert(decls_v(decls@) =~= d0.push(decl_v(decls@.last())));
                    } else {
                        // "Expected ':='"
                        proof {
                            assert(false);
                        }
                    }
                } else {
                    // a string variable: its initializer is read at ':=', which is no expression,
                    // and other types: "expr : pattern not covered"; both ruled out by the
                    // precondition
                    proof {
                        assert(false);
                    }
                }
            } else {
                // "Expected ':' after identifier"
                proof {
                    assert(false);
                }
            }
        } else {
            // "Expected an identifier"
            proof {
                assert(false);
            }
        }
    }

    pub fn parse_function_decl(&mut self, decls: &mut Vec<Decl>)
        requires
            old(self).wf(),
            p_fun_decl(old(self)@, decls_v(old(decls)@)) is Some,
        ensures
            final(self).wf(),
            (final(self)@, decls_v(final(decls)@)) == p_fun_decl(
                old(self)@,
                decls_v(old(decls)@),
            ).unwrap(),
        decreases measure(old(self)@.lex), 0int,
    {
        let ghost d0 = decls_v(decls@);
        if self.next_tok() == Token::Ident {
            let id = self.lexer.curr_string.clone();
            //parse the parameters list
            let field_decs = self.parse_function_params_list();
            //parse return type
            let ret_type = self.parse_function_ret_type();
            //parse body here
            let e = self.expr();
            let body = e.unwrap();
            //function id ( fieldDec; ) : tyId = exp
            decls.push(Decl::FunDec(id, field_decs, ret_type, body.1, body.0));
            assert(decls_v(decls@) =~= d0.push(decl_v(decls@.last())));
        } else {
            // "Expected an id after 'function'"
            proof {
                assert(false);
            }
        }
    }

    fn parse_while_expr(&mut self) -> (r: Option<(TType, B<Expr>)>)
        requires
            old(self).wf(),
            p_while(old(self)@) is Some,
        ensures
            final(self).wf(),
            r is Some,
            final(self)@ == p_while(old(self)@).unwrap().0,
            rv(r.unwrap()) == p_while(old(self)@).unwrap().1,
        decreases measure(old(self)@.lex), 2int,
    {
        self.next_tok();
        let opt_tup = self.expr().unwrap();
        //Because ident-expr parsing advances to the next token
        //and returns a TVoid, there is an extra check on the
        //curr_token
        if opt_tup.0 != TType::TInt32 && self.lexer.curr_token != Token::Do {
            self.next_tok();
        }
        if self.lexer.curr_token == Token::Do {
            self.next_tok();
            let (ty, body) = self.expr().unwrap();
            Some((ty, B(Expr::WhileExpr(opt_tup.1, body))))
        } else {
            // "Expected 'do' after the while expression"
            proof {
                assert(false);
            }
            None
        }
    }

    fn parse_if_then_else_expr(&mut self) -> (r: Option<(TType, B<Expr>)>)
        requires
            old(self).wf(),
            p_if(old(self)@) is Some,
        ensures
            final(self).wf(),
            r is Some,
            final(self)@ == p_if(old(self)@).unwrap().0,
            rv(r.unwrap()) == p_if(old(self)@).unwrap().1,
        decreases measure(old(self)@.lex), 2int,
    {
        //eat 'if'
        self.next_tok();
        //parse the conditional expr
        let opt_tup = self.expr().unwrap();
        //since only arithmetic expr parsing advances to point to the next token,
        //we do a typecheck in order to determine if we match on the curr_token
        //or call get_token()
        if opt_tup.0 != TType::TInt32 && self.lexer.curr_token != Token::Then {
            self.next_tok();
        }
        if self.lexer.curr_token == Token::Then {
            self.next_tok();  //advance to the next token
            let (_, then_expr) = self.expr().unwrap();
            if self.lexer.curr_token == Token::Else {
                self.next_tok();  //advance to the next token
                let (_, else_body) = self.expr().unwrap();
                return Some(
                    (TType::TVoid, B(Expr::IfThenElseExpr(opt_tup.1, then_expr, else_body))),
                );
            }
            Some((TType::TVoid, B(Expr::IfThenExpr(opt_tup.1, then_expr))))
        } else {
            // "Expected then after the if expression"
            proof {
                assert(false);
            }
            None
        }
    }

    fn parse_for_expr(&mut self) -> (r: Option<(TType, B<Expr>)>)
        requires
            old(self).wf(),
            p_for(old(self)@) is Some,
        ensures
            final(self).wf(),
            r is Some,
            final(self)@ == p_for(old(self)@).unwrap().0,
            rv(r.unwrap()) == p_for(old(self)@).unwrap().1,
        decreases measure(old(self)@.lex), 2int,
    {
        if self.next_tok() == Token::Ident {
            let id = self.lexer.curr_string.clone();
            if self.next_tok() == Token::ColonEquals {
                self.next_tok();
                let (_, id_expr) = self.expr().unwrap();
                if self.lexer.curr_token == Token::To {
                    self.next_tok();
                    let (_, to_expr) = self.expr().unwrap();
                    if self.lexer.curr_token == Token::Do {
                        self.next_tok();
                        let (_, do_expr) = self.expr().unwrap();
                        return Some((TType::TVoid, B(Expr::ForExpr(id, id_expr, to_expr, do_expr))));
                    } else {
                        // "Expected 'do' after expression"
                        proof {
                            assert(false);
                        }
                    }
                } else {
                    // "Expected 'to' after expression"
                    proof {
                        assert(false);
                    }
                }
            } else {
                // "Expected := after ident in a for construct"
                proof {
                    assert(false);
                }
            }
        } else {
            // "Expected an ident after 'for'"
            proof {
                assert(false);
            }
        }
        None
    }
}


impl Parser {
    fn program(&mut self)
        requires
            old(self).wf(),
            p_program(old(self)@) is Some,
        ensures
            final(self).wf(),
            final(self)@ == p_program(old(self)@).unwrap(),
    {
        let ghost target = p_program(self@);
        loop
            invariant
                self.wf(),
                p_program(self@) == target,
                target == p_program(old(self)@),
                target is Some,
            decreases measure(self.lexer@),
        {
            let t = self.next_tok();
            // Semicolons between expressions are skipped.
            if t == Token::SemiColon {
                continue ;
            } else if t == Token::Nil || t == Token::Number || t == Token::LeftParen || t
                == Token::Minus || t == Token::If || t == Token::While || t == Token::For || t
                == Token::Break || t == Token::Let || t == Token::Function || t == Token::Ident
                || t == Token::TokString {
                let expr = Some(self.expr().unwrap().1);
                let ghost bs = self@.blocks;
                let ghost ev = expr_v(*expr.unwrap().ptr);
                let mut b = self.block_stack.pop().unwrap();
                b.expr = expr;
                self.block_stack.push(b);
                assert(self@.blocks =~= bs.update(
                    bs.len() - 1,
                    SBlock { expr: Some(ev), ..bs.last() },
                ));
                // The block holds one expression: parsing ends after it.
                return ;
            } else if t == Token::Eof {
                return ;
            } else if t == Token::End {
                // `end` closes the block.
                return ;
            } else {
                // "Invalid token"
                proof {
                    assert(false);
                }
            }
        }
    }

    /// Reads the first character and the program. The result is the innermost scope, which holds
    /// the main expression, where one was read.
    fn parse_block(&mut self) -> (r: Option<Block>)
        requires
            old(self).wf(),
            p_block(old(self)@) is Some,
        ensures
            final(self).wf(),
            final(self)@ == p_block(old(self)@).unwrap().0,
            match r {
                Some(b) => p_block(old(self)@).unwrap().1 == Some(b@),
                None => p_block(old(self)@).unwrap().1 is None,
            },
    {
        proof {
            crate::lexer::lemma_eat(self.lexer@);
        }
        self.lexer.get_char();
        self.program();  //begin parsing
        if self.block_stack.len() != 1 {
            // "Only parent block should be on the stack when the parsing is finished"
            proof {
                assert(false);
            }
        }
        let ghost bs = self@.blocks;
        let main_block = self.block_stack.pop().unwrap();
        assert(self@.blocks =~= bs.drop_last());
        if main_block.expr.is_none() {
            None
        } else {
            Some(main_block)
        }
    }

    /// Parses the whole source: the result is the scope that holds the main expression, where one
    /// was read.
    pub fn run(&mut self) -> (r: Option<Block>)
        requires
            old(self).wf(),
            p_block(old(self)@) is Some,
        ensures
            final(self).wf(),
            final(self)@ == p_block(old(self)@).unwrap().0,
            match r {
                Some(b) => p_block(old(self)@).unwrap().1 == Some(b@),
                None => p_block(old(self)@).unwrap().1 is None,
            },
    {
        self.parse_block()
    }
}

} // verus!
