//! The front end: a source is scanned to its end and the tokens are handed
//! out in order.

use vstd::prelude::*;
use vstd::utf8::encode_utf8;
use crate::scanner::{Scanner, Token, TokenType};

verus! {

/// Where the scanner stands before it scans the token at `index`: at the
/// beginning of the source, or behind the token before.
pub open spec fn position_before(tokens: Seq<Token>, index: int) -> int {
    if index <= 0 {
        0
    } else {
        tokens[index - 1].start + tokens[index - 1].length
    }
}

/// The line that the scanner has counted before it scans the token at
/// `index`: the first, or that of the token before.
pub open spec fn line_before(tokens: Seq<Token>, index: int) -> i32 {
    if index <= 0 {
        1
    } else {
        tokens[index - 1].line
    }
}

/// Scans `source` from its first byte to its end. The tokens come in the
/// order of the source, each scanned from where the one before ended; the
/// last one is `Eof`, and no other is.
pub fn compile(source: String) -> (tokens: Vec<Token>)
    ensures
        tokens@.len() > 0,
        forall|i: int|
            0 <= i < tokens@.len() ==> (#[trigger] tokens@[i]).scanned_from(
                encode_utf8(source@),
                position_before(tokens@, i),
                line_before(tokens@, i),
            ),
        forall|i: int|
            0 <= i < tokens@.len() ==> ((#[trigger] tokens@[i]).ttype == TokenType::Eof <==> i
                == tokens@.len() - 1),
{
    let ghost src = encode_utf8(source@);
    let mut scanner = Scanner::new(source);
    let mut tokens: Vec<Token> = Vec::new();
    loop
        invariant
            src == encode_utf8(source@),
            scanner.bytes() == src,
            scanner.current <= src.len(),
            scanner.current == position_before(tokens@, tokens@.len() as int),
            scanner.line == line_before(tokens@, tokens@.len() as int),
            forall|i: int|
                0 <= i < tokens@.len() ==> (#[trigger] tokens@[i]).scanned_from(
                    src,
                    position_before(tokens@, i),
                    line_before(tokens@, i),
                ),
            forall|i: int| 0 <= i < tokens@.len() ==> (#[trigger] tokens@[i]).ttype != TokenType::Eof,
        decreases src.len() - scanner.current,
    {
        let ghost before = tokens@;
        let ghost position = scanner.current as int;
        let ghost line = scanner.line;
        let token = scanner.scan_token();
        let done = token.ttype == TokenType::Eof;
        tokens.push(token);
        proof {
            assert forall|i: int| 0 <= i < tokens@.len() implies (#[trigger] tokens@[i]).scanned_from(
                src,
                position_before(tokens@, i),
                line_before(tokens@, i),
            ) by {
                if i < before.len() {
                    assert(tokens@[i] == before[i]);
                    assert(position_before(tokens@, i) == position_before(before, i));
                    assert(line_before(tokens@, i) == line_before(before, i));
                } else {
                    assert(tokens@[i] == token);
                    assert(position_before(tokens@, i) == position);
                    assert(line_before(tokens@, i) == line);
                }
            }
        }
        if done {
            return tokens;
        }
    }
}

} // verus!
