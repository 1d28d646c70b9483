//! The grammar of a file of function declarations.
//!
//! ```text
//! file := item* end-of-input
//! item := fn
//! fn   := 'fn' ident '(' (arg (',' arg)* ','?)? ')' ('->' ident)? block
//! arg  := ident ':' ident
//! ```
//!
//! White space may stand before every token and before the end of the input.

use vstd::prelude::*;

use crate::parser::error::{Parsed, SyntaxError, SyntaxErrorKind};
use crate::parser::grammar::{ahead, block_at, byte_at, ident_at, violation};
use crate::parser::lexical::{token_start, CLOSE_PAREN, COLON, COMMA, GREATER, MINUS, OPEN_PAREN};
use crate::syntax::file::FileModel;
use crate::syntax::function::{ArgModel, FnModel};
use crate::syntax::item::ItemModel;

verus! {

/// True when the bytes `f` and `n` stand at `i`.
pub open spec fn fn_word_at(s: Seq<u8>, i: int) -> bool {
    byte_at(s, i, 0x66) && byte_at(s, i + 1, 0x6e)
}

/// True when the bytes `-` and `>` stand at `i`.
pub open spec fn arrow_at(s: Seq<u8>, i: int) -> bool {
    byte_at(s, i, MINUS) && byte_at(s, i + 1, GREATER)
}

/// `arg`, after white space.
pub open spec fn arg_at(s: Seq<u8>, i: int) -> Parsed<ArgModel> {
    match ident_at(s, i) {
        Ok((name, after_name)) => {
            let colon = token_start(s, after_name);
            if byte_at(s, colon, COLON) {
                match ident_at(s, colon + 1) {
                    Ok((ty, next)) => Ok((ArgModel { name, ty }, next)),
                    Err(e) => Err(e),
                }
            } else {
                Err(violation(SyntaxErrorKind::ExpectedColon, s, colon))
            }
        },
        Err(e) => Err(e),
    }
}

/// The parameters after `(`, with those in `done` read so far, up to `)`: a
/// comma stands between two parameters, and one may follow the last.
pub open spec fn args_at(s: Seq<u8>, done: Seq<ArgModel>, i: int) -> Parsed<Seq<ArgModel>>
    decreases s.len() - i,
{
    let at = token_start(s, i);
    if byte_at(s, at, CLOSE_PAREN) {
        Ok((done, at + 1))
    } else {
        match arg_at(s, i) {
            Ok((arg, next)) => {
                let end = token_start(s, next);
                if !ahead(s, i, next) {
                    arbitrary()
                } else if byte_at(s, end, COMMA) {
                    args_at(s, done.push(arg), end + 1)
                } else if byte_at(s, end, CLOSE_PAREN) {
                    Ok((done.push(arg), end + 1))
                } else {
                    Err(violation(SyntaxErrorKind::ExpectedCloseParen, s, end))
                }
            },
            Err(e) => Err(e),
        }
    }
}

/// The return type after the parameters: `->` and a name, or nothing.
pub open spec fn return_type_at(s: Seq<u8>, i: int) -> Parsed<Option<Seq<char>>> {
    let at = token_start(s, i);
    if arrow_at(s, at) {
        match ident_at(s, at + 2) {
            Ok((ty, next)) => Ok((Some(ty), next)),
            Err(e) => Err(e),
        }
    } else {
        Ok((None, i))
    }
}

/// `fn`, after white space.
pub open spec fn fn_at(s: Seq<u8>, i: int) -> Parsed<FnModel> {
    let at = token_start(s, i);
    if !fn_word_at(s, at) {
        Err(violation(SyntaxErrorKind::ExpectedFn, s, at))
    } else {
        match ident_at(s, at + 2) {
            Ok((name, after_name)) => {
                let open = token_start(s, after_name);
                if byte_at(s, open, OPEN_PAREN) {
                    match args_at(s, Seq::empty(), open + 1) {
                        Ok((args, after_args)) => match return_type_at(s, after_args) {
                            Ok((return_type, after_type)) => match block_at(s, after_type) {
                                Ok((body, next)) => Ok(
                                    (FnModel { name, args, return_type, body }, next),
                                ),
                                Err(e) => Err(e),
                            },
                            Err(e) => Err(e),
                        },
                        Err(e) => Err(e),
                    }
                } else {
                    Err(violation(SyntaxErrorKind::ExpectedOpenParen, s, open))
                }
            },
            Err(e) => Err(e),
        }
    }
}

/// `item`, after white space.
pub open spec fn item_at(s: Seq<u8>, i: int) -> Parsed<ItemModel> {
    match fn_at(s, i) {
        Ok((function, next)) => Ok((ItemModel::Fn(function), next)),
        Err(e) => Err(e),
    }
}

/// The items from `i` to the end of the input, after those in `done`.
pub open spec fn items_at(s: Seq<u8>, done: Seq<ItemModel>, i: int) -> Result<
    Seq<ItemModel>,
    SyntaxError,
>
    decreases s.len() - i,
{
    let at = token_start(s, i);
    if at >= s.len() {
        Ok(done)
    } else {
        match item_at(s, i) {
            Ok((item, next)) => {
                if i < next <= s.len() {
                    items_at(s, done.push(item), next)
                } else {
                    arbitrary()
                }
            },
            Err(e) => Err(e),
        }
    }
}

/// `file`: the items that the whole text spells, or the first violation of
/// the grammar.
pub open spec fn file_of(s: Seq<u8>) -> Result<FileModel, SyntaxError> {
    match items_at(s, Seq::empty(), 0) {
        Ok(items) => Ok(FileModel { items }),
        Err(e) => Err(e),
    }
}

} // verus!
