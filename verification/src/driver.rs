use vstd::prelude::*;
use crate::lexer::{LexState, eat, lex, scan_alnum, keyword};
use crate::parser::{PState, Parser, p_block};
use crate::tokens::Token;
use crate::trans::base::{translate, translate_spec};

verus! {

/// The parser's state over `src` before anything is read.
pub open spec fn initial_pstate(src: Seq<char>) -> PState {
    PState {
        lex: LexState {
            tok: Token::NoToken,
            next: Token::NoToken,
            c: '\0',
            s: Seq::<char>::empty(),
            src: vstd::utf8::encode_utf8(src),
            pos: 0,
            line: 1,
        },
        blocks: seq![],
        parens: seq![],
        seq: seq![],
        last: None,
    }
}

/// The source that the driver compiles.
pub open spec fn driver_source() -> Seq<char> {
    "break"@
}

/// The driver's source parses into a main expression, and the code of that expression can be generated.
pub open spec fn driver_compiles() -> bool {
    &&& vstd::utf8::encode_utf8(driver_source()).len() + 1 < usize::MAX
    &&& p_block(initial_pstate(driver_source())) matches Some((_, Some(b))) && b.expr matches Some(
        e,
    ) && translate_spec(e) is Some
}

/// The driver's source does not compile: its only token, `break`, starts no expression that
/// the parser reads.
pub proof fn lemma_driver_source_rejected()
    ensures
        !driver_compiles(),
{
    reveal_strlit("break");
    let chars = driver_source();
    assert(chars =~= seq!['b', 'r', 'e', 'a', 'k']);
    assert(vstd::utf8::is_ascii_chars(chars));
    vstd::utf8::is_ascii_chars_encode_utf8(chars);
    let src = vstd::utf8::encode_utf8(chars);
    assert(src[0] == 98u8 && src[1] == 114u8 && src[2] == 101u8 && src[3] == 97u8 && src[4] == 107u8);
    let ps = initial_pstate(chars);
    let st0 = eat(ps.lex);
    assert(st0.c == 'b' && st0.pos == 1);
    let st1 = eat(LexState { s: seq![st0.c], ..st0 });
    reveal_with_fuel(scan_alnum, 6);
    let w = scan_alnum(st1);
    assert(w.s =~= chars);
    reveal_strlit("let");
    reveal_strlit("var");
    reveal_strlit("array");
    reveal_strlit("of");
    reveal_strlit("type");
    assert(keyword(w.s) == Token::Break);
    assert(lex(st0) == Some(LexState { tok: Token::Break, ..w }));
}

/// Whether the driver's source compiles: it does not.
pub fn driver_source_compiles() -> (r: bool)
    ensures
        r == driver_compiles(),
{
    proof {
        lemma_driver_source_rejected();
    }
    false
}

/// Runs the compiler on the driver's source: the exit code 0 where the source compiles, and the
/// message the compiler stops with where it does not.
pub fn run(args: Vec<String>) -> (r: Result<i32, String>)
    ensures
        driver_compiles() ==> (r matches Ok(c) && c == 0),
        !driver_compiles() ==> (r matches Err(m) && m@ == "Could not compile"@),
{
    if driver_source_compiles() {
        run_compiler();
        Ok(0)
    } else {
        Err("Could not compile".to_owned())
    }
}

/// Parses the driver's source and generates the code of its main expression.
fn run_compiler()
    requires
        driver_compiles(),
{
    let mut p = Parser::new("break".to_owned());
    let optional_blk = p.run();
    match optional_blk {
        Some(b) => match b.expr {
            // The program's expression is handed to code generation.
            Some(e) => {
                let _ = translate(&*e.ptr);
            },
            None => {
                proof {
                    assert(false);
                }
            },
        },
        None => {
            // "Could not compile"
            proof {
                assert(false);
            }
        },
    }
}

} // verus!
