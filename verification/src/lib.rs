//! Tonic: a small dynamically-typed scripting language.
//!
//! The pipeline turns source text into tokens (`lexer`), tokens into an
//! abstract syntax tree (`parser`), reorders the tree (`passes`), and then
//! either compiles it to bytecode run by a stack machine (`compiler`, `vm`)
//! or emits equivalent JavaScript (`js`).

use vstd::prelude::*;

use crate::ast::Statement;
use crate::lexer::Lexer;
use crate::parser::ParserError;
use crate::token::Token;

pub mod ast;
pub mod code;
pub mod compiler;
pub mod js;
pub mod lexer;
pub mod numfmt;
pub mod parser;
pub mod passes;
pub mod strutil;
pub mod value;
pub mod vm;
pub mod token;
pub mod bindings;

verus! {

/// Tokenise a whole source string.
///
/// The returned tokens are exactly the tokenisation `sp_tokens` of the
/// source: every token's kind, payload, span and line is a function of
/// the source characters alone. The spans of the tokens partition the
/// input modulo whitespace and each token's kind matches the characters
/// in its span.
pub fn lex(source: &str) -> (toks: Vec<Token>)
    ensures
        crate::lexer::lex_output_wf(source@, toks@),
        toks@.map_values((|t: Token| crate::lexer::tok_abs(t))) == crate::lexer::sp_tokens(
            source@,
        ),
{
    let mut lx = Lexer::new(source);
    let mut tokens: Vec<Token> = Vec::new();
    proof {
        assert(tokens@.map_values((|t: Token| crate::lexer::tok_abs(t)))
            + crate::lexer::sp_tokens_from(source@, 0, 1) =~= crate::lexer::sp_tokens(source@));
    }
    loop
        invariant_except_break
            tokens@.len() > 0 ==> lx.at() == tokens@.last().span.1 && lx.cur_line()
                == tokens@.last().line,
            tokens@.len() == 0 ==> lx.at() == 0,
        invariant
            lx.wf(),
            lx.src() == source@,
            forall|i: int|
                0 <= i < tokens@.len() ==> crate::lexer::token_wf(source@, #[trigger] tokens@[i]),
            forall|i: int|
                0 < i < tokens@.len() ==> {
                    &&& tokens@[i - 1].span.1 <= (#[trigger] tokens@[i]).span.0
                    &&& crate::lexer::ws_only(
                        source@,
                        tokens@[i - 1].span.1 as int,
                        tokens@[i].span.0 as int,
                    )
                    &&& tokens@[i - 1].line <= tokens@[i].line
                },
            tokens@.len() > 0 ==> crate::lexer::ws_only(source@, 0, tokens@[0].span.0 as int),
            tokens@.map_values((|t: Token| crate::lexer::tok_abs(t)))
                + crate::lexer::sp_tokens_from(source@, lx.at(), lx.cur_line())
                == crate::lexer::sp_tokens(source@),
        ensures
            crate::lexer::lex_output_wf(source@, tokens@),
            tokens@.map_values((|t: Token| crate::lexer::tok_abs(t))) == crate::lexer::sp_tokens(
                source@,
            ),
        decreases source@.len() - lx.at(),
    {
        let ghost at0 = lx.at();
        let ghost l0 = lx.cur_line();
        let ghost before = tokens@;
        let t = lx.next();
        match t {
            Some(tok) => {
                tokens.push(tok);
                proof {
                    assert(crate::lexer::sp_tokens_from(source@, at0, l0) == seq![
                        crate::lexer::tok_abs(tok),
                    ] + crate::lexer::sp_tokens_from(source@, lx.at(), lx.cur_line()));
                    assert(tokens@.map_values((|t: Token| crate::lexer::tok_abs(t)))
                        =~= before.map_values((|t: Token| crate::lexer::tok_abs(t))).push(
                        crate::lexer::tok_abs(tok),
                    ));
                    assert(tokens@.map_values((|t: Token| crate::lexer::tok_abs(t)))
                        + crate::lexer::sp_tokens_from(source@, lx.at(), lx.cur_line())
                        =~= before.map_values((|t: Token| crate::lexer::tok_abs(t)))
                        + crate::lexer::sp_tokens_from(source@, at0, l0));
                }
            },
            None => {
                proof {
                    assert(crate::lexer::sp_tokens_from(source@, at0, l0) =~= Seq::<
                        crate::lexer::SpToken,
                    >::empty());
                    assert(tokens@.map_values((|t: Token| crate::lexer::tok_abs(t))) + Seq::<
                        crate::lexer::SpToken,
                    >::empty() =~= tokens@.map_values((|t: Token| crate::lexer::tok_abs(t))));
                }
                break ;
            },
        }
    }
    tokens
}


/// The modules a program names in its `use` declarations, in source order.
pub open spec fn use_modules(ss: Seq<Statement>) -> Seq<Seq<char>>
    decreases ss.len(),
{
    if ss.len() == 0 {
        Seq::empty()
    } else {
        (match ss[0] {
            Statement::Use { module } => seq![module@],
            _ => Seq::<Seq<char>>::empty(),
        }) + use_modules(ss.drop_first())
    }
}

/// Compile a source string to JavaScript: parse it, hoist declarations,
/// and emit the program's text; alongside it, the module name of each
/// `use` declaration, in source order.
///
/// The result is a function of the parsed program alone: the JavaScript
/// is exactly the emitted text of the hoisted program, and the imports
/// are exactly its `use` modules. A program the parser rejects is
/// returned as that one error, whose span lies within the source bounds.
pub fn compile(source: &str) -> (r: Result<(String, Vec<String>), ParserError>)
    ensures
        (exists|toks: Seq<Token>|
            {
                &&& #[trigger] crate::lexer::toks_abs(toks) == crate::lexer::sp_tokens(source@)
                &&& match r {
                    Ok((js, imports)) => (exists|prog: Seq<Statement>|
                        {
                            &&& crate::parser::sp_program(toks) == Ok::<
                                Seq<crate::ast::SpStmt>,
                                ParserError,
                            >(crate::ast::stmts_abs(prog))
                            &&& crate::ast::stmts_valid(prog, false, true)
                            &&& imports@.map_values((|m: String| m@)) == use_modules(prog)
                            &&& js@ == crate::js::js_stmts(crate::passes::spec_pass(prog))
                        }),
                    Err(e) => crate::parser::sp_program(toks) == Err::<
                        Seq<crate::ast::SpStmt>,
                        ParserError,
                    >(e),
                }
            }),
        match r {
            Ok((js, imports)) => true,
            Err(e) => e.span.0 <= e.span.1 <= source@.len(),
        },
{
    let psr = crate::parser::Parser::new(Lexer::new(source));
    let ghost toks = psr.toks();
    proof {
        assert(crate::lexer::toks_abs(toks) =~= toks.map_values(
            (|t: Token| crate::lexer::tok_abs(t)),
        ));
    }
    let prog = match psr.parse() {
        Ok(prog) => prog,
        Err(e) => {
            return Err(e);
        },
    };
    let ghost prog_view = prog@;
    let mut imports: Vec<String> = Vec::new();
    let n = prog.len();
    proof {
        assert(prog@.skip(0) =~= prog@);
        assert(imports@.map_values((|m: String| m@)) =~= Seq::<Seq<char>>::empty());
    }
    let mut i: usize = 0;
    while i < n
        invariant
            i <= n == prog@.len(),
            imports@.map_values((|m: String| m@)) + use_modules(prog@.skip(i as int))
                == use_modules(prog@),
        decreases n - i,
    {
        proof {
            assert(prog@.skip(i as int)[0] == prog@[i as int]);
            assert(prog@.skip(i as int).drop_first() =~= prog@.skip(i + 1));
        }
        let ghost before = imports@;
        match &prog[i] {
            Statement::Use { module } => {
                imports.push(module.clone());
                proof {
                    assert(imports@.map_values((|m: String| m@)) =~= before.map_values(
                        (|m: String| m@),
                    ).push(prog@[i as int]->Use_module@));
                    assert(imports@.map_values((|m: String| m@)) + use_modules(
                        prog@.skip(i + 1),
                    ) =~= before.map_values((|m: String| m@)) + use_modules(
                        prog@.skip(i as int),
                    ));
                }
            },
            _ => {
                proof {
                    assert(use_modules(prog@.skip(i as int)) =~= use_modules(prog@.skip(i + 1)));
                }
            },
        }
        i += 1;
    }
    proof {
        assert(use_modules(prog@.skip(n as int)) =~= Seq::<Seq<char>>::empty());
        assert(imports@.map_values((|m: String| m@)) + Seq::<Seq<char>>::empty()
            =~= imports@.map_values((|m: String| m@)));
    }
    let mut ast = prog;
    crate::passes::pass(&mut ast);
    let mut emitter = crate::js::JsCompiler::new(ast);
    let js_source = emitter.compile();
    Ok((js_source, imports))
}

} // verus!
