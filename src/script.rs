use vstd::prelude::*;

use crate::errors::{Failure, MakerError, MakerErrorType};
use crate::lexer::{alnum_flags, alpha_flags, lex, scan, LexFailure, TokenSpec};
use crate::nodes::{self, Expression, Loc};
use crate::parser::{parse_tokens, token_views, Parser, TokenView};
use crate::runtime::{eval, result_is, Interpreter, NativeHost, Reply};
use crate::scope::Scope;
use crate::values::{RuntimeValue, Val};

verus! {

/// The tokens of a tokenization as the parser sees them, located in `context`.
pub open spec fn views_of(ts: Seq<TokenSpec>, context: Seq<char>) -> Seq<TokenView> {
    ts.map_values(
        |t: TokenSpec|
            TokenView {
                text: t.text,
                kind: t.kind,
                loc: Loc { start: t.start, end: t.end, line: t.line, context },
            },
    )
}

/// The error a failed tokenization reports.
pub open spec fn lex_failure(f: LexFailure, context: Seq<char>) -> Failure {
    Failure {
        message: f.message,
        error_type: MakerErrorType::LexerError,
        source: None,
        location: Some(Loc { start: f.col, end: f.col, line: f.line, context }),
    }
}

/// The name the message object is bound to.
pub open spec fn message_name() -> Seq<char> {
    seq!['m', 'e', 's', 's', 'a', 'g', 'e']
}

/// The result of running `code` with `message` bound to `message_name()`, where the
/// host answers with `replies`.
pub open spec fn script_outcome(code: Seq<char>, context: Seq<char>, message: Val, replies: Seq<Reply>) -> Result<
    Val,
    Failure,
> {
    match scan(code, alpha_flags(code), alnum_flags(code), 0, 0, 0) {
        Err(f) => Err(lex_failure(f, context)),
        Ok(ts) => match parse_tokens(views_of(ts, context), 0) {
            Err(f) => Err(f),
            Ok(program) => eval(seq![(message_name(), message)], program, replies).result,
        },
    }
}

/// Runs the script `code` against a fresh scope that binds `message`, asking `host`
/// for the capabilities it calls. The result is that of `script_outcome` for the
/// replies the host gave.
pub fn run_script<H: NativeHost>(code: String, context: String, message: RuntimeValue, host: &mut H) -> (r: Result<
    RuntimeValue,
    MakerError,
>)
    ensures
        exists|replies: Seq<Reply>| result_is(r, #[trigger] script_outcome(code@, context@, message.model(), replies)),
{
    let ghost c = code@;
    let ghost ctx = context@;
    let ghost m = message.model();
    let tokens = lex(code, context);
    let tokens = match tokens {
        Ok(tokens) => tokens,
        Err(e) => {
            assert(result_is(Err(e), script_outcome(c, ctx, m, Seq::empty())));
            return Err(e);
        },
    };
    let ghost specs = scan(c, alpha_flags(c), alnum_flags(c), 0, 0, 0)->Ok_0;
    assert(token_views(tokens@) =~= views_of(specs, ctx));
    let mut parser = Parser::new(tokens);
    let block = match parser.parse() {
        Ok(block) => block,
        Err(e) => {
            assert(result_is(Err(e), script_outcome(c, ctx, m, Seq::empty())));
            return Err(e);
        },
    };
    let mut scope = Scope::new();
    let name: String = "message".to_owned();
    proof {
        reveal_strlit("message");
        assert(name@ =~= message_name());
    }
    let _ = scope.declare(&name, message);
    assert(scope.bindings() =~= seq![(message_name(), m)]);
    let mut interpreter = Interpreter::new(scope);
    let program = Expression::Block(block);
    assert(program.model()->Block_nodes =~= nodes::models(block.nodes@));
    let r = interpreter.evaluate(host, &program);
    proof {
        let replies = interpreter.replies@.skip(0);
        assert(result_is(r, script_outcome(c, ctx, m, replies)));
    }
    r
}

} // verus!
