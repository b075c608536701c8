//! Running a source from text to printed lines, and the wording of error
//! reports.
use vstd::prelude::*;
use crate::error::{Error, ErrorV};
use crate::interpreter::{exec_from, lines_view, Interpreter};
use crate::parser::{errors_view, program, Parser};
use crate::scanner::{scan, scan_source, tokens_view};
use crate::text::{nat_digits, nat_to_string};
use crate::token::{Token, TokenType};

verus! {

/// `[line N] Error <where> : <message>`
pub open spec fn report_text(line: nat, place: Seq<char>, message: Seq<char>) -> Seq<char> {
    "[line "@ + nat_digits(line) + "] Error "@ + place + " : "@ + message
}

/// Where a syntax error stands: at the end, or at a lexeme.
pub open spec fn place_text(t: Token) -> Seq<char> {
    if t.token_type == TokenType::EOF {
        " at end "@
    } else {
        " at '"@ + t.lexeme@ + "'"@
    }
}

/// What running a source gives: the lines printed and the failures met.
/// A lexical error stops everything; syntax errors stop execution; a
/// runtime error stops execution after the lines printed before it.
/// Syntax errors set `had_error`, a runtime error `had_runtime_error`.
pub open spec fn run_result(
    toks: Seq<Token>,
    printed: Seq<Seq<char>>,
    errors: Seq<ErrorV>,
    before: Runner,
    after: Runner,
) -> bool {
    let (ss, es) = program(toks, 0);
    if es.len() > 0 {
        &&& printed.len() == 0
        &&& errors == es
        &&& after.had_error
        &&& after.had_runtime_error == before.had_runtime_error
    } else {
        let (res, env, out) = exec_from(ss, 0, seq![Map::empty()]);
        &&& printed == out
        &&& after.had_error == before.had_error
        &&& match res {
            Ok(_) => errors.len() == 0 && after.had_runtime_error == before.had_runtime_error,
            Err(e) => errors == seq![e] && after.had_runtime_error,
        }
    }
}

/// Runs sources and remembers whether any failed.
pub struct Runner {
    pub had_error: bool,
    pub had_runtime_error: bool,
}

impl Runner {
    pub fn new() -> (r: Self)
        ensures
            !r.had_error,
            !r.had_runtime_error,
    {
        Runner { had_error: false, had_runtime_error: false }
    }

    /// Scans, parses and executes a source with a fresh interpreter: the
    /// lines printed, and the errors met.
    pub fn run(&mut self, source: String) -> (r: (Vec<String>, Vec<Error>))
        requires
            source@.len() < usize::MAX,
        ensures
            match scan_source(source@) {
                Err(e) => r.0@.len() == 0 && errors_view(r.1@) == seq![e] && final(self).had_error
                    && final(self).had_runtime_error == old(self).had_runtime_error,
                Ok(tv) => exists|toks: Seq<Token>|
                    tokens_view(toks) == tv && run_result(
                        toks,
                        lines_view(r.0@),
                        errors_view(r.1@),
                        *old(self),
                        *final(self),
                    ),
            },
    {
        let tokens = match scan(source) {
            Ok(t) => t,
            Err(e) => {
                self.had_error = true;
                let mut errors: Vec<Error> = Vec::new();
                errors.push(e);
                assert(errors_view(errors@) =~= seq![errors@[0]@]);
                return (Vec::new(), errors);
            },
        };
        let ghost toks = tokens@;
        let parser = Parser::new(tokens);
        let (stmts, errors) = parser.parse_all();
        if errors.len() > 0 {
            self.had_error = true;
            proof {
                let (ss, es) = program(toks, 0);
                assert(errors_view(errors@).len() == errors@.len());
                assert(errors_view(errors@)[0] == errors@[0]@);
            }
            return (Vec::new(), errors);
        }
        let mut interpreter = Interpreter::new();
        let r = interpreter.interpret(&stmts);
        let printed = interpreter.take_output();
        let mut failures: Vec<Error> = Vec::new();
        match r {
            Ok(_) => {},
            Err(e) => {
                self.had_runtime_error = true;
                failures.push(e);
            },
        }
        proof {
            let (ss, es) = program(toks, 0);
            assert(errors_view(errors@).len() == 0);
            assert(es.len() == 0);
            let (res, env, out) = exec_from(ss, 0, seq![Map::empty()]);
            assert(Seq::<Seq<char>>::empty() + out =~= out);
            if failures@.len() > 0 {
                assert(errors_view(failures@) =~= seq![failures@[0]@]);
            } else {
                assert(errors_view(failures@) =~= Seq::<ErrorV>::empty());
            }
            assert(run_result(toks, lines_view(printed@), errors_view(failures@), *old(self), *self));
        }
        (printed, failures)
    }

    /// The report of a syntax error at a token; marks that an error happened.
    pub fn error(&mut self, token_local: &Token, message: &str) -> (r: String)
        ensures
            r@ == report_text(token_local.line as nat, place_text(*token_local), message@),
            final(self).had_error,
            final(self).had_runtime_error == old(self).had_runtime_error,
    {
        if token_local.token_type == TokenType::EOF {
            self.report(token_local.line, " at end ", message)
        } else {
            let mut place = String::from_str(" at '");
            place.append(token_local.lexeme.as_str());
            place.append("'");
            self.report(token_local.line, place.as_str(), message)
        }
    }

    /// Marks that a runtime error happened.
    pub fn runtime_error(&mut self, error: &Error)
        ensures
            final(self).had_runtime_error,
            final(self).had_error == old(self).had_error,
    {
        self.had_runtime_error = true;
    }

    fn report(&mut self, line: usize, place: &str, message: &str) -> (r: String)
        ensures
            r@ == report_text(line as nat, place@, message@),
            final(self).had_error,
            final(self).had_runtime_error == old(self).had_runtime_error,
    {
        self.had_error = true;
        let mut s = String::from_str("[line ");
        s.append(nat_to_string(line as u128).as_str());
        s.append("] Error ");
        s.append(place);
        s.append(" : ");
        s.append(message);
        s
    }
}

} // verus!
