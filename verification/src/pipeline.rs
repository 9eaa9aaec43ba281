//! The whole front end, text to tree.
//!
//! Data flows strictly forward: text through the tokenizer, its tokens
//! through the lexer, the lexical items materialized into a sequence, and
//! that sequence through the parser behind a backtracking cursor.  The one
//! exported function runs the chain and returns the single root node, or
//! the first tokenizer or parser error.

use crate::ast::{node_view, Node, NodeV};
use crate::lexer::{
    clamp_after, lemma_lex_step_bounds, spec_lex_step, Lexem, LexemV, Lexer,
};
use crate::parser::{s_parse, ParseError, ParseErrorV, Parser};
use crate::tokenizer::{start_state, st_wf, TokState, Tokenizer, TokenizerError, TokenizerErrorV};
use vstd::prelude::*;

verus! {

/// An error from either stage of the pipeline.
#[derive(Debug, PartialEq)]
pub enum PipelineError {
    Tokenize(TokenizerError),
    Parse(ParseError),
}

pub ghost enum PipelineErrorV {
    Tokenize(TokenizerErrorV),
    Parse(ParseErrorV),
}

impl View for PipelineError {
    type V = PipelineErrorV;

    open spec fn view(&self) -> PipelineErrorV {
        match self {
            PipelineError::Tokenize(e) => PipelineErrorV::Tokenize(e@),
            PipelineError::Parse(e) => PipelineErrorV::Parse(e@),
        }
    }
}

/// All lexical items of the text from a state, in order, or the first
/// tokenizer error.
pub open spec fn spec_lex_all(text: Seq<char>, st: TokState) -> Result<
    Seq<LexemV>,
    TokenizerErrorV,
>
    decreases text.len() - st.pos,
        when 0 <= st.pos <= text.len()
{
    let (out, st2) = spec_lex_step(text, st);
    match out {
        None => Ok(Seq::<LexemV>::empty()),
        Some(Err(e)) => Err(e),
        Some(Ok(l)) => match spec_lex_all(
            text,
            clamp_after(st2, st.pos + 1, text.len() as int),
        ) {
            Ok(rest) => Ok(seq![l] + rest),
            Err(e) => Err(e),
        },
    }
}

/// What the pipeline produces on a text: the root node of the parse, or
/// the first error of either stage.
pub open spec fn spec_pipeline(text: Seq<char>) -> Result<NodeV, PipelineErrorV> {
    match spec_lex_all(text, start_state()) {
        Err(e) => Err(PipelineErrorV::Tokenize(e)),
        Ok(lxs) => match s_parse(lxs, 0) {
            Err(e) => Err(PipelineErrorV::Parse(e)),
            Ok((n, p)) => Ok(n),
        },
    }
}

/// Runs the pipeline on a source text: tokenize, lex, parse.
pub fn parse_to_ast(code: &str) -> (r: Result<Node, PipelineError>)
    requires
        code@.len() < usize::MAX,
    ensures
        match r {
            Ok(n) => spec_pipeline(code@) == Ok::<NodeV, PipelineErrorV>(node_view(&n)),
            Err(e) => spec_pipeline(code@) == Err::<NodeV, PipelineErrorV>(e@),
        },
{
    let ghost text = code@;
    let tokenizer = Tokenizer::new(code);
    let mut lexer = Lexer::new(tokenizer);
    let mut tokens: Vec<Lexem> = Vec::new();
    proof {
        match spec_lex_all(text, start_state()) {
            Ok(rest) => {
                assert(Seq::<LexemV>::empty() + rest =~= rest);
                assert(tokens@.map_values(|l: Lexem| l@) =~= Seq::<LexemV>::empty());
            },
            Err(e) => {},
        }
    }
    loop
        invariant_except_break
            lexer.wf(),
            lexer.text() == text,
            text == code@,
            text.len() < usize::MAX,
            ({
                match spec_lex_all(text, lexer.st()) {
                    Ok(rest) => spec_lex_all(text, start_state()) == Ok::<
                        Seq<LexemV>,
                        TokenizerErrorV,
                    >(tokens@.map_values(|l: Lexem| l@) + rest),
                    Err(e) => spec_lex_all(text, start_state()) == Err::<
                        Seq<LexemV>,
                        TokenizerErrorV,
                    >(e),
                }
            }),
        ensures
            spec_lex_all(text, start_state()) == Ok::<Seq<LexemV>, TokenizerErrorV>(
                tokens@.map_values(|l: Lexem| l@),
            ),
        decreases text.len() - lexer.st().pos,
    {
        let ghost sti = lexer.st();
        let ghost ts0 = tokens@;
        proof {
            lemma_lex_step_bounds(text, sti);
        }
        match lexer.lex() {
            None => {
                proof {
                    assert(tokens@.map_values(|l: Lexem| l@) + Seq::<LexemV>::empty()
                        =~= tokens@.map_values(|l: Lexem| l@));
                }
                break ;
            },
            Some(Err(e)) => {
                return Err(PipelineError::Tokenize(e));
            },
            Some(Ok(l)) => {
                let ghost lv = l@;
                tokens.push(l);
                proof {
                    let (out, st2) = spec_lex_step(text, sti);
                    assert(clamp_after(st2, sti.pos + 1, text.len() as int) == st2);
                    assert(tokens@.map_values(|l: Lexem| l@) =~= ts0.map_values(
                        |l: Lexem| l@,
                    ).push(lv));
                    match spec_lex_all(text, lexer.st()) {
                        Ok(rest) => {
                            assert(ts0.map_values(|l: Lexem| l@) + (seq![lv] + rest)
                                =~= tokens@.map_values(|l: Lexem| l@) + rest);
                        },
                        Err(e) => {},
                    }
                }
            },
        }
    }
    let mut parser = Parser::new(tokens);
    match parser.parse() {
        Ok(ast) => Ok(ast),
        Err(e) => Err(PipelineError::Parse(e)),
    }
}

} // verus!
