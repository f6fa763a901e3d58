use vstd::prelude::*;
use crate::lexer::{LexState, Lexer, eat, lemma_eat, lemma_lex_progress, lex, lex_wf, measure};
use crate::lua::block::{Block, SLuaBlock};
use crate::lua::statements::{
    BreakStatement, GotoStatement, LabelStatement, LuaStatement, SLuaStmt, lstmts_v, scodes,
};
use crate::tokens::Token;

verus! {

/// The statements read from the token after `st` on, added to `acc`, the state of the lexer
/// after the end of the input, and the blocks that `do` left on the block stack, outermost last.
/// `None` where the parser rejects the input (it panics): an unknown token, a malformed label,
/// `goto` without a label, an assignment without `=`, and `end` (which leaves the block stack
/// short).
///
/// Statements are separated by `;` or a new line; a label is written `::name::`, and `goto` and
/// `return` are read as names. `do` opens a new block that takes the statements after it up to
/// the end of the input; that block stays on the block stack, and the block around it ends there.
pub open spec fn lua_stat(st: LexState, acc: Seq<SLuaStmt>) -> Option<
    (LexState, Seq<SLuaStmt>, Seq<SLuaBlock>),
>
    decreases measure(st),
{
    match lex(st) {
        None => None,
        Some(st1) => {
            proof {
                lemma_lex_progress(st);
            }
            match st1.tok {
                Token::Eof => Some((st1, acc, seq![])),
                Token::SemiColon => {
                    proof {
                        assert(measure(st1) < measure(st));
                    }
                    lua_stat(st1, acc)
                },
                Token::NewLine => {
                    proof {
                        assert(measure(st1) < measure(st));
                    }
                    lua_stat(st1, acc)
                },
                Token::Break => lua_stat(st1, acc.push(SLuaStmt::Break(st1.line))),
                Token::Ident => match lua_ident(st1) {
                    Some((st2, stmt)) => {
                        proof {
                            lemma_ident_progress(st1);
                        }
                        match stmt {
                            Some(x) => lua_stat(st2, acc.push(x)),
                            None => lua_stat(st2, acc),
                        }
                    },
                    None => None,
                },
                Token::Colon => match lua_label(st1) {
                    Some((st5, name)) => {
                        proof {
                            lemma_label_progress(st1);
                        }
                        lua_stat(st5, acc.push(SLuaStmt::Label(st5.line, name)))
                    },
                    None => None,
                },
                Token::Do => match lua_stat(st1, seq![]) {
                    Some((st2, inner, left)) => match lex(st2) {
                        Some(st3) => if st3.tok == Token::Eof {
                            Some(
                                (
                                    st3,
                                    acc,
                                    left.push(SLuaBlock { statements: inner, instructions: seq![] }),
                                ),
                            )
                        } else {
                            None
                        },
                        None => None,
                    },
                    None => None,
                },
                _ => None,
            }
        },
    }
}

/// The rest of a statement that starts with a name: `goto label`, `return`, or an assignment
/// `= e t` of an expression of one token `e` and a token `t` after it. The state after it, and
/// the statement that it adds to the block, if any.
pub open spec fn lua_ident(st1: LexState) -> Option<(LexState, Option<SLuaStmt>)> {
    if st1.s == "goto"@ {
        match lex(st1) {
            Some(st2) => if st2.tok == Token::Ident {
                Some((st2, Some(SLuaStmt::Goto(st2.line, st2.s))))
            } else {
                None
            },
            None => None,
        }
    } else if st1.s == "return"@ {
        Some((st1, None))
    } else {
        match lex(st1) {
            Some(st2) => if st2.tok != Token::Equals {
                None
            } else {
                match lex(st2) {
                    Some(st3) => match lex(st3) {
                        Some(st4) => Some((st4, None)),
                        None => None,
                    },
                    None => None,
                }
            },
            None => None,
        }
    }
}

/// Reading the rest of a statement that starts with a name consumes no input that is not there,
/// and counts no more lines than it consumes.
pub proof fn lemma_ident_progress(st1: LexState)
    requires
        lex_wf(st1),
        lua_ident(st1) is Some,
    ensures
        measure(lua_ident(st1).unwrap().0) <= measure(st1),
        measure(lua_ident(st1).unwrap().0) + lua_ident(st1).unwrap().0.line <= measure(st1)
            + st1.line,
        lex_wf(lua_ident(st1).unwrap().0),
{
    if st1.s == "goto"@ {
        lemma_lex_progress(st1);
    } else if st1.s != "return"@ {
        lemma_lex_progress(st1);
        let st2 = lex(st1)->0;
        lemma_lex_progress(st2);
        lemma_lex_progress(lex(st2)->0);
    }
}

/// The rest of a label after its first colon: `:name::`; the state after it and the name.
pub open spec fn lua_label(st1: LexState) -> Option<(LexState, Seq<char>)> {
    match lex(st1) {
        Some(st2) => if st2.tok != Token::Colon {
            None
        } else {
            match lex(st2) {
                Some(st3) => if st3.tok != Token::Ident {
                    None
                } else {
                    match lex(st3) {
                        Some(st4) => if st4.tok != Token::Colon {
                            None
                        } else {
                            match lex(st4) {
                                Some(st5) => if st5.tok != Token::Colon {
                                    None
                                } else {
                                    Some((st5, st3.s))
                                },
                                None => None,
                            }
                        },
                        None => None,
                    }
                },
                None => None,
            }
        },
        None => None,
    }
}

/// Reading a label consumes input and counts no more lines than it consumes.
pub proof fn lemma_label_progress(st1: LexState)
    requires
        lua_label(st1) is Some,
    ensures
        measure(lua_label(st1).unwrap().0) < measure(st1),
        measure(lua_label(st1).unwrap().0) + lua_label(st1).unwrap().0.line <= measure(st1) + st1.line,
        lex_wf(lua_label(st1).unwrap().0),
{
    let st2 = lex(st1)->0;
    let st3 = lex(st2)->0;
    let st4 = lex(st3)->0;
    lemma_lex_progress(st1);
    lemma_lex_progress(st2);
    lemma_lex_progress(st3);
    lemma_lex_progress(st4);
}

/// The block that the parser makes of the input whose lexer state is `st`, before its first
/// character is read.
pub open spec fn lua_block(st: LexState) -> Option<SLuaBlock> {
    match lua_stat(eat(st), seq![]) {
        Some((_, ss, _)) => Some(SLuaBlock { statements: ss, instructions: scodes(ss) }),
        None => None,
    }
}

/// The blocks that `do` leaves on the block stack when the parser reads the input whose lexer
/// state is `st`, outermost last.
pub open spec fn lua_left(st: LexState) -> Seq<SLuaBlock> {
    match lua_stat(eat(st), seq![]) {
        Some((_, _, left)) => left,
        None => seq![],
    }
}

pub open spec fn lblocks_v(v: Seq<Block>) -> Seq<SLuaBlock> {
    Seq::new(v.len(), |i: int| v[i]@)
}

/// The statement parser: the lexer, and the blocks being filled, innermost last.
pub struct Parser {
    pub lexer: Lexer,
    pub block_stack: Vec<Block>,
}

impl Parser {
    /// The lexer is within its source, and its line count cannot overflow.
    pub open spec fn wf(&self) -> bool {
        &&& self.lexer.wf()
        &&& self.lexer.line_pos + measure(self.lexer@) < usize::MAX
    }

    /// A parser over `src`, with nothing read yet.
    pub fn new(src: String) -> (p: Self)
        requires
            vstd::utf8::encode_utf8(src@).len() + 1 < usize::MAX,
        ensures
            p.wf(),
            p.lexer@ == (LexState {
                tok: Token::NoToken,
                next: Token::NoToken,
                c: '\0',
                s: Seq::<char>::empty(),
                src: vstd::utf8::encode_utf8(src@),
                pos: 0,
                line: 1,
            }),
            p.block_stack@.len() == 0,
    {
        Parser { lexer: Lexer::new(src), block_stack: Vec::new() }
    }

    /// Parses the whole input into a block and generates its code.
    pub fn run(&mut self) -> (b: Block)
        requires
            old(self).wf(),
            lua_block(old(self).lexer@) is Some,
        ensures
            b@ == lua_block(old(self).lexer@)->0,
            final(self).block_stack@.subrange(0, old(self).block_stack@.len() as int) == old(
                self,
            ).block_stack@,
            lblocks_v(final(self).block_stack@) == lblocks_v(old(self).block_stack@) + lua_left(
                old(self).lexer@,
            ),
            final(self).lexer@ == lua_stat(eat(old(self).lexer@), seq![]).unwrap().0,
            final(self).wf(),
    {
        self.parse_block()
        //self.block.generate();
    }

    fn parse_block(&mut self) -> (b: Block)
        requires
            old(self).wf(),
            lua_block(old(self).lexer@) is Some,
        ensures
            b@ == lua_block(old(self).lexer@)->0,
            final(self).block_stack@.subrange(0, old(self).block_stack@.len() as int) == old(
                self,
            ).block_stack@,
            lblocks_v(final(self).block_stack@) == lblocks_v(old(self).block_stack@) + lua_left(
                old(self).lexer@,
            ),
            final(self).lexer@ == lua_stat(eat(old(self).lexer@), seq![]).unwrap().0,
            final(self).wf(),
    {
        let b = Block::new();
        self.block_stack.push(b);
        proof {
            lemma_eat(self.lexer@);
        }
        self.lexer.get_char();
        self.stat();
        let ghost n: int = old(self).block_stack@.len() as int;
        let ghost left = lua_stat(eat(old(self).lexer@), seq![]).unwrap().2;
        let mut main_block = self.block_stack.pop().unwrap();
        main_block.generate();
        assert(self.block_stack@.subrange(0, n) =~= old(self).block_stack@);
        assert(lblocks_v(self.block_stack@) =~= lblocks_v(old(self).block_stack@) + left);
        main_block
    }

    /// Reads statements into the innermost block up to the end of the input; a `do` leaves the
    /// blocks it opened below that block.
    fn stat(&mut self)
        requires
            old(self).wf(),
            old(self).block_stack@.len() > 0,
            lua_stat(old(self).lexer@, old(self).block_stack@.last()@.statements) is Some,
        ensures
            final(self).wf(),
            ({
                let (st, ss, left) = lua_stat(
                    old(self).lexer@,
                    old(self).block_stack@.last()@.statements,
                )->0;
                let n = old(self).block_stack@.len() - 1;
                &&& final(self).lexer@ == st
                &&& final(self).block_stack@.len() == n + left.len() + 1
                &&& final(self).block_stack@.last()@.statements == ss
                &&& final(self).block_stack@.subrange(0, n) == old(self).block_stack@.drop_last()
                &&& lblocks_v(final(self).block_stack@).subrange(n, n + left.len()) == left
            }),
            final(self).block_stack@.last()@.instructions == old(
                self,
            ).block_stack@.last()@.instructions,
        decreases measure(old(self).lexer@),
    {
        let ghost goal = lua_stat(self.lexer@, self.block_stack@.last()@.statements);
        let ghost instrs = self.block_stack@.last()@.instructions;
        let mut block = self.block_stack.pop().unwrap();
        loop
            invariant
                self.wf(),
                old(self).block_stack@.len() > 0,
                self.block_stack@ == old(self).block_stack@.drop_last(),
                block@.instructions == instrs,
                instrs == old(self).block_stack@.last()@.instructions,
                goal == lua_stat(old(self).lexer@, old(self).block_stack@.last()@.statements),
                goal is Some,
                lua_stat(self.lexer@, block@.statements) == goal,
                measure(self.lexer@) <= measure(old(self).lexer@),
            decreases measure(self.lexer@),
        {
            let ghost st = self.lexer@;
            let ghost acc = block@.statements;
            proof {
                lemma_lex_progress(st);
            }
            match self.lexer.get_token() {
                Token::SemiColon => {},
                Token::NewLine => {},
                Token::Ident => {
                    proof {
                        lemma_ident_progress(self.lexer@);
                    }
                    match self.ident_stat() {
                        Some(s) => {
                            block.statements.push(s);
                            assert(block@.statements =~= acc.push(s@));
                        },
                        None => {},
                    }
                },
                Token::Colon => {
                    let ghost st1 = self.lexer@;
                    proof {
                        lemma_label_progress(st1);
                    }
                    let name = self.read_label();
                    let s = LabelStatement::new(self.lexer.line_pos, name);
                    block.statements.push(LuaStatement::Label(s));
                    assert(block@.statements =~= acc.push(
                        SLuaStmt::Label(self.lexer@.line, lua_label(st1).unwrap().1),
                    ));
                },
                Token::Break => {
                    let s = BreakStatement::new(self.lexer.line_pos);
                    block.statements.push(LuaStatement::Break(s));
                    assert(block@.statements =~= acc.push(SLuaStmt::Break(self.lexer@.line)));
                },
                Token::Do => {
                    // The new block takes the statements up to the end of the input and stays
                    // on the stack; this block ends at the token after them.
                    let ghost st1 = self.lexer@;
                    let ghost n: int = self.block_stack@.len() as int;
                    self.block_stack.push(Block::new());
                    assert(self.block_stack@.last()@.statements =~= Seq::<SLuaStmt>::empty());
                    self.stat();
                    let ghost inner = lua_stat(st1, seq![])->0;
                    let ghost mid = self.block_stack@;
                    proof {
                        lemma_lex_progress(self.lexer@);
                    }
                    let t = self.lexer.get_token();
                    if t != Token::Eof {
                        // The input has ended, so the token after it is its end again.
                        proof {
                            assert(false);
                        }
                    }
                    self.block_stack.push(block);
                    proof {
                        let left = inner.2;
                        assert(mid.subrange(0, n) =~= old(self).block_stack@.drop_last());
                        assert(self.block_stack@.subrange(0, n) =~= mid.subrange(0, n));
                        assert(lblocks_v(mid).subrange(n, n + left.len()) == left);
                        assert(mid.last()@ == (SLuaBlock { statements: inner.1, instructions: seq![] }));
                        assert(lblocks_v(self.block_stack@).subrange(n, n + left.len() + 1)
                            =~= left.push(SLuaBlock { statements: inner.1, instructions: seq![] })) by {
                            assert forall|i: int| 0 <= i < left.len() implies lblocks_v(
                                self.block_stack@,
                            ).subrange(n, n + left.len() + 1)[i] == left[i] by {
                                assert(lblocks_v(mid).subrange(n, n + left.len())[i] == left[i]);
                                assert(self.block_stack@[n + i] == mid[n + i]);
                            }
                        }
                    }
                    return ;
                },
                Token::Eof => {
                    self.block_stack.push(block);
                    assert(self.block_stack@.subrange(0, old(self).block_stack@.len() - 1)
                        =~= old(self).block_stack@.drop_last());
                    assert(lblocks_v(self.block_stack@).subrange(
                        old(self).block_stack@.len() - 1,
                        old(self).block_stack@.len() - 1,
                    ) =~= Seq::<SLuaBlock>::empty());
                    return ;
                },
                _ => {
                    // "Invalid token"; `end` leaves the block stack short
                    proof {
                        assert(false);
                    }
                },
            }
        }
    }

    /// The rest of a statement that starts with a name; the statement it makes, if any.
    fn ident_stat(&mut self) -> (r: Option<LuaStatement>)
        requires
            old(self).wf(),
            lua_ident(old(self).lexer@) is Some,
        ensures
            final(self).wf(),
            final(self).block_stack == old(self).block_stack,
            lua_ident(old(self).lexer@) == Some(
                (
                    final(self).lexer@,
                    match r {
                        Some(s) => Some(s@),
                        None => None::<SLuaStmt>,
                    },
                ),
            ),
    {
        proof {
            lemma_ident_progress(self.lexer@);
            if lex(self.lexer@) is Some {
                lemma_lex_progress(self.lexer@);
            }
        }
        let goto_kw = "goto".to_owned();
        let return_kw = "return".to_owned();
        if self.lexer.curr_string == goto_kw {
            match self.lexer.get_token() {
                Token::Ident => {
                    let s = GotoStatement::new(self.lexer.line_pos, self.lexer.curr_string.clone());
                    Some(LuaStatement::Goto(s))
                },
                _ => {
                    // "Expected a label"
                    proof {
                        assert(false);
                    }
                    None
                },
            }
        } else if self.lexer.curr_string == return_kw {
            None
        } else {
            //self.varlist();
            match self.lexer.get_token() {
                Token::Equals => {
                    self.exprlist();
                },
                _ => {
                    // "Expected '='"
                    proof {
                        assert(false);
                    }
                },
            }
            None
        }
    }

    /// The rest of a label after its first colon: `:name::`; the label's name.
    fn read_label(&mut self) -> (name: String)
        requires
            old(self).wf(),
            lua_label(old(self).lexer@) is Some,
        ensures
            final(self).wf(),
            final(self).block_stack == old(self).block_stack,
            lua_label(old(self).lexer@) == Some((final(self).lexer@, name@)),
    {
        let ghost st1 = self.lexer@;
        proof {
            lemma_lex_progress(st1);
            lemma_lex_progress(lex(st1)->0);
            lemma_lex_progress(lex(lex(st1)->0)->0);
            lemma_lex_progress(lex(lex(lex(st1)->0)->0)->0);
        }
        if self.lexer.get_token() != Token::Colon {
            // "Expected '::'"
            proof {
                assert(false);
            }
        }
        if self.lexer.get_token() != Token::Ident {
            // "Expected a label"
            proof {
                assert(false);
            }
        }
        let name = self.lexer.curr_string.clone();
        if self.lexer.get_token() != Token::Colon {
            // "Expected '::'"
            proof {
                assert(false);
            }
        }
        if self.lexer.get_token() != Token::Colon {
            // "Expected '::'"
            proof {
                assert(false);
            }
        }
        name
    }

    /// An expression list: an expression and the token after it.
    fn exprlist(&mut self)
        requires
            old(self).wf(),
            lex(old(self).lexer@) is Some,
            lex(lex(old(self).lexer@)->0) is Some,
        ensures
            final(self).wf(),
            final(self).lexer@ == lex(lex(old(self).lexer@)->0)->0,
            final(self).block_stack == old(self).block_stack,
    {
        proof {
            lemma_lex_progress(self.lexer@);
        }
        self.expr();
        proof {
            lemma_lex_progress(self.lexer@);
        }
        match self.lexer.get_token() {
            Token::Ident => {},
            _ => {},
        }
    }

    fn varlist(&mut self) {
    }

    /// An expression; for now a single token.
    fn expr(&mut self)
        requires
            old(self).wf(),
            lex(old(self).lexer@) is Some,
        ensures
            final(self).wf(),
            final(self).lexer@ == lex(old(self).lexer@)->0,
            final(self).block_stack == old(self).block_stack,
    {
        proof {
            lemma_lex_progress(self.lexer@);
        }
        match self.lexer.get_token() {
            Token::Nil => {},
            Token::Number => {},
            Token::Function => {},
            Token::LeftCurly => {},
            _ => {},
        }
    }
}

} // verus!
