use vstd::prelude::*;

use super::ast::Expr;
use super::token::Token;

verus! {

/// Why a list of tokens is not a program: a token came where a boolean
/// constant was expected.
#[derive(Debug)]
pub enum ParseError {
    UnrecognizedToken { token: ((), Token, ()), expected: Vec<String> },
}

/// The parser of programs of the small language: a program is a list of
/// boolean constants, each of which becomes an expression.
#[derive(Debug)]
pub struct ProgramParser {
    _priv: (),
}

/// Every token is a boolean constant.
pub open spec fn all_bools(ts: Seq<Token>) -> bool {
    forall|i: int| 0 <= i < ts.len() ==> (#[trigger] ts[i]) is BoolConst
}

/// `k` is the first token that is not a boolean constant.
pub open spec fn first_non_bool(ts: Seq<Token>, k: int) -> bool {
    &&& 0 <= k < ts.len()
    &&& !(ts[k] is BoolConst)
    &&& forall|j: int| 0 <= j < k ==> (#[trigger] ts[j]) is BoolConst
}

impl ProgramParser {
    pub fn new() -> (p: ProgramParser) {
        ProgramParser { _priv: () }
    }

    /// Parses a list of tokens: the boolean constants, in order, or the
    /// first token that is not one, with what was expected in its place.
    #[verifier::loop_isolation(false)]
    pub fn parse(&self, tokens: Vec<Token>) -> (r: Result<Vec<Expr>, ParseError>)
        ensures
            r is Ok <==> all_bools(tokens@),
            r matches Ok(v) ==> v@.len() == tokens@.len() && forall|i: int|
                0 <= i < tokens@.len() ==> (#[trigger] v@[i]) == Expr::Bool(tokens@[i]->BoolConst_0),
            r matches Err(ParseError::UnrecognizedToken { token, expected }) ==> exists|k: int|
                first_non_bool(tokens@, k) && token.1 == tokens@[k] && expected@.len() == 1
                    && expected@[0]@ == "\"Bool\""@,
    {
        let ghost ts = tokens@;
        let mut rest = tokens;
        let mut out: Vec<Expr> = Vec::new();
        let n = rest.len();
        for i in 0..n
            invariant
                rest@ == ts.skip(i as int),
                n == ts.len(),
                out@.len() == i,
                forall|j: int| 0 <= j < i ==> (#[trigger] ts[j]) is BoolConst,
                forall|j: int| 0 <= j < i ==> (#[trigger] out@[j]) == Expr::Bool(ts[j]->BoolConst_0),
        {
            assert(rest@[0] == ts[i as int]);
            let t = rest.remove(0);
            assert(rest@ =~= ts.skip(i + 1));
            match t {
                Token::BoolConst(b) => {
                    out.push(Expr::Bool(b));
                },
                other => {
                    let expected = vec![String::from_str("\"Bool\"")];
                    assert(first_non_bool(ts, i as int));
                    return Err(ParseError::UnrecognizedToken { token: ((), other, ()), expected });
                },
            }
        }
        Ok(out)
    }
}

} // verus!
