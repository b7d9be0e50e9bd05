use vstd::prelude::*;
use vstd::string::StringSliceAdditionalSpecFns;

use crate::exec::{execute, result_view, run};
use crate::lexer::{lexes_to, tokenize, Spanned};
use crate::parser::{parse, script};
use crate::reporting::Message;

verus! {

/// Lexes, parses and runs a source text. The values printed are appended to
/// `output`. A parse that fails as a whole runs nothing and returns its
/// diagnostic; otherwise the statements run until the first failure, whose
/// diagnostic is returned.
pub fn interpret(source: &str, output: &mut Vec<i64>) -> (r: Result<(), Message>)
    ensures
        exists|t: Seq<Spanned>|
            lexes_to(source.spec_bytes(), t) && (match script(t, 0) {
                Err(m) => final(output)@ == old(output)@ && result_view(r) == Err::<(), _>(m),
                Ok(stmts) => final(output)@ == old(output)@ + run(stmts, Map::empty()).0
                    && result_view(r) == run(stmts, Map::empty()).1,
            }),
{
    let tokens = tokenize(source);
    assert(lexes_to(source.spec_bytes(), tokens@));
    match parse(&tokens) {
        Ok(ast) => execute(ast, output),
        Err(e) => Err(e),
    }
}

} // verus!
