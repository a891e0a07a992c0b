//! The texts of positions and errors.
//!
//! Every error has a one-line message that starts with `#ERROR:`. The
//! message of a formula's error lists its errors in the notation of the
//! language: variant names, fields in brackets, texts quoted.

use vstd::prelude::*;
use vstd::string::StringExecFns;
use super::{lemma_form_error_view, CellError, CellErrorView, Position, PositionView};
use crate::text::{decimal, push_char, push_decimal, quote, quoted};

verus! {

/// Whether the column has a letter: `A` to `Z` for 0 to 25, and on from
/// there `a` to `z` for 32 to 57.
pub open spec fn has_letter(x: int) -> bool {
    0 <= x < 26 || 32 <= x < 58
}

/// The text of a column: its letter, or where it has none the number that
/// is 65 more than the column.
pub open spec fn column_text(x: int) -> Seq<char> {
    if has_letter(x) {
        seq![((x + 65) as u8) as char]
    } else {
        decimal((x + 65) as nat)
    }
}

/// The text of a position: the column, then the row counted from 1.
pub open spec fn position_text(pos: PositionView) -> Seq<char> {
    column_text(pos.x) + decimal((pos.y + 1) as nat)
}

/// A position in the notation of the language.
pub open spec fn position_debug(pos: PositionView) -> Seq<char> {
    "Position { x: "@ + decimal(pos.x as nat) + ", y: "@ + decimal(pos.y as nat) + " }"@
}

/// A variant with one field in the notation of the language: the name of
/// the variant, and in round brackets the field as `inner` writes it.
pub open spec fn tagged(name: Seq<char>, inner: Seq<char>) -> Seq<char> {
    name + "("@ + inner + ")"@
}

/// The number of errors that an error lists, and two more.
pub open spec fn rank(e: CellErrorView) -> nat {
    match e {
        CellErrorView::FormError(list) => list.len() + 2,
        _ => 2,
    }
}

/// An error in the notation of the language.
pub open spec fn debug_of(e: CellErrorView) -> Seq<char>
    decreases e, rank(e),
{
    match e {
        CellErrorView::ParseError => "ParseError"@,
        CellErrorView::TypeMismatch(expected) => tagged("TypeMismatch"@, quoted(expected)),
        CellErrorView::BinaryTypeMismatch => "BinaryTypeMismatch"@,
        CellErrorView::InvalidReference(pos) => "InvalidReference("@ + position_debug(pos) + ")"@,
        CellErrorView::InvalidArgCount(lo, hi, actual) => "InvalidArgCount("@ + decimal(lo as nat)
            + "..="@ + decimal(hi as nat) + ", "@ + decimal(actual as nat) + ")"@,
        CellErrorView::NoOpFound(name) => tagged("NoOpFound"@, quoted(name)),
        CellErrorView::RefError(cause, at) => "RefError("@ + debug_of(*cause) + ", "@
            + position_debug(at) + ")"@,
        CellErrorView::ArgError(index, cause) => "ArgError("@ + decimal(index as nat) + ", "@
            + debug_of(*cause) + ")"@,
        CellErrorView::FormError(list) => "FormError("@ + debug_list(e, list.len()) + ")"@,
        CellErrorView::DivByZero => "DivByZero"@,
        CellErrorView::CircularRef => "CircularRef"@,
    }
}

/// The first `n` errors that `e` lists, in the notation of the language,
/// with a comma and a space between two; the bracket that closes the list
/// is there once all are.
pub open spec fn debug_items(e: CellErrorView, n: nat) -> Seq<char>
    decreases e, n,
{
    if !(e is FormError) || n == 0 || n > e->FormError_0.len() {
        "["@
    } else if n == 1 {
        debug_items(e, 0) + debug_of(e->FormError_0[0])
    } else {
        debug_items(e, (n - 1) as nat) + ", "@ + debug_of(e->FormError_0[n - 1])
    }
}

/// The errors that `e` lists, in the notation of the language, in square
/// brackets.
pub open spec fn debug_list(e: CellErrorView, n: nat) -> Seq<char>
    decreases e, n + 1,
{
    debug_items(e, n) + "]"@
}

/// The message of an error.
pub open spec fn message_of(e: CellErrorView) -> Seq<char>
    decreases e, rank(e),
{
    match e {
        CellErrorView::ParseError => "#ERROR: Malformed formula"@,
        CellErrorView::TypeMismatch(expected) => "#ERROR: Incompatible types, expected "@
            + expected,
        CellErrorView::BinaryTypeMismatch => "#ERROR: Incompatible types"@,
        CellErrorView::InvalidReference(pos) =>
            "#ERROR: This cell references non-existent cell at "@ + position_text(pos),
        CellErrorView::InvalidArgCount(lo, hi, actual) => "#ERROR: This operation takes "@
            + decimal(lo as nat) + "..="@ + decimal(hi as nat) + " args, but "@ + decimal(
            actual as nat,
        ) + " were supplied"@,
        CellErrorView::NoOpFound(name) => "#ERROR: Could not find an operation named "@ + name,
        CellErrorView::RefError(cause, at) => "#ERROR: Referenced cell "@ + position_text(at)
            + " has errors "@ + message_of(*cause),
        CellErrorView::ArgError(index, cause) => message_of(*cause)
            + " [problem with an argument at position: "@ + decimal(index as nat) + "]"@,
        CellErrorView::FormError(list) => "#ERROR: These errors have occurred in this formula: "@
            + debug_list(e, list.len()),
        CellErrorView::DivByZero => "#ERROR: Division by zero"@,
        CellErrorView::CircularRef => "#ERROR: ref error"@,
    }
}

/// Appends a variant with one field in the notation of the language, given
/// the name of the variant and the field as it is to be written.
pub fn write_tagged(out: &mut String, name: &str, inner: &str)
    ensures
        final(out)@ == old(out)@ + tagged(name@, inner@),
{
    out.append(name);
    out.append("(");
    out.append(inner);
    out.append(")");
}

/// Appends the text of a position.
fn write_position(out: &mut String, pos: Position)
    ensures
        final(out)@ == old(out)@ + position_text(pos@),
{
    if pos.x < 26 || (32 <= pos.x && pos.x < 58) {
        push_char(out, ((pos.x + 65) as u8) as char);
    } else {
        push_decimal(out, pos.x as u128 + 65);
    }
    push_decimal(out, pos.y as u128 + 1);
}

/// Appends a position in the notation of the language.
fn write_position_debug(out: &mut String, pos: Position)
    ensures
        final(out)@ == old(out)@ + position_debug(pos@),
{
    out.append("Position { x: ");
    push_decimal(out, pos.x as u128);
    out.append(", y: ");
    push_decimal(out, pos.y as u128);
    out.append(" }");
}

impl Position {
    /// The text of this position: the column, then the row counted from 1.
    pub fn name(&self) -> (r: String)
        ensures
            r@ == position_text(self@),
    {
        let mut out = String::new();
        write_position(&mut out, *self);
        out
    }
}

impl CellError {
    /// The message of this error.
    pub fn message(&self) -> (r: String)
        ensures
            r@ == message_of(self@),
    {
        let mut out = String::new();
        self.write_message(&mut out);
        out
    }

    /// Appends the errors of a formula's error, in square brackets.
    fn write_list(&self, out: &mut String)
        requires
            self is FormError,
        ensures
            final(out)@ == old(out)@ + debug_list(self@, self@->FormError_0.len()),
        decreases self, 0nat,
    {
        proof {
            lemma_form_error_view(*self);
        }
        match self {
            CellError::FormError(list) => {
                out.append("[");
                let mut i: usize = 0;
                while i < list.len()
                    invariant
                        i <= list.len(),
                        *self == CellError::FormError(*list),
                        self@->FormError_0.len() == list@.len(),
                        forall|k: int| 0 <= k < list@.len() ==> self@->FormError_0[k] == (
                        #[trigger] list@[k])@,
                        out@ == old(out)@ + debug_items(self@, i as nat),
                        forall|k: int|
                            0 <= k < list@.len() ==> decreases_to!(self => #[trigger] list@[k]),
                    decreases list.len() - i,
                {
                    if i > 0 {
                        out.append(", ");
                    }
                    list[i].write_debug(out);
                    i += 1;
                }
                out.append("]");
            },
            _ => {},
        }
    }

    /// Appends this error in the notation of the language.
    fn write_debug(&self, out: &mut String)
        ensures
            final(out)@ == old(out)@ + debug_of(self@),
        decreases self, 1nat,
    {
        match self {
            CellError::ParseError => {
                out.append("ParseError");
            },
            CellError::TypeMismatch(expected) => {
                write_tagged(out, "TypeMismatch", quote(expected).as_str());
            },
            CellError::BinaryTypeMismatch => {
                out.append("BinaryTypeMismatch");
            },
            CellError::InvalidReference(pos) => {
                out.append("InvalidReference(");
                write_position_debug(out, *pos);
                out.append(")");
            },
            CellError::InvalidArgCount(range, actual) => {
                out.append("InvalidArgCount(");
                push_decimal(out, *range.start() as u128);
                out.append("..=");
                push_decimal(out, *range.end() as u128);
                out.append(", ");
                push_decimal(out, *actual as u128);
                out.append(")");
            },
            CellError::NoOpFound(name) => {
                write_tagged(out, "NoOpFound", quote(name.as_str()).as_str());
            },
            CellError::RefError(cause, at) => {
                out.append("RefError(");
                (**cause).write_debug(out);
                out.append(", ");
                write_position_debug(out, *at);
                out.append(")");
            },
            CellError::ArgError(index, cause) => {
                out.append("ArgError(");
                push_decimal(out, *index as u128);
                out.append(", ");
                (**cause).write_debug(out);
                out.append(")");
            },
            CellError::FormError(_) => {
                out.append("FormError(");
                self.write_list(out);
                out.append(")");
            },
            CellError::DivByZero => {
                out.append("DivByZero");
            },
            CellError::CircularRef => {
                out.append("CircularRef");
            },
        }
    }

    /// Appends the message of this error.
    fn write_message(&self, out: &mut String)
        ensures
            final(out)@ == old(out)@ + message_of(self@),
        decreases self, 1nat,
    {
        match self {
            CellError::ParseError => {
                out.append("#ERROR: Malformed formula");
            },
            CellError::TypeMismatch(expected) => {
                out.append("#ERROR: Incompatible types, expected ");
                out.append(expected);
            },
            CellError::BinaryTypeMismatch => {
                out.append("#ERROR: Incompatible types");
            },
            CellError::InvalidReference(pos) => {
                out.append("#ERROR: This cell references non-existent cell at ");
                write_position(out, *pos);
            },
            CellError::InvalidArgCount(range, actual) => {
                out.append("#ERROR: This operation takes ");
                push_decimal(out, *range.start() as u128);
                out.append("..=");
                push_decimal(out, *range.end() as u128);
                out.append(" args, but ");
                push_decimal(out, *actual as u128);
                out.append(" were supplied");
            },
            CellError::NoOpFound(name) => {
                out.append("#ERROR: Could not find an operation named ");
                out.append(name.as_str());
            },
            CellError::RefError(cause, at) => {
                out.append("#ERROR: Referenced cell ");
                write_position(out, *at);
                out.append(" has errors ");
                (**cause).write_message(out);
            },
            CellError::ArgError(index, cause) => {
                (**cause).write_message(out);
                out.append(" [problem with an argument at position: ");
                push_decimal(out, *index as u128);
                out.append("]");
            },
            CellError::FormError(_) => {
                out.append("#ERROR: These errors have occurred in this formula: ");
                self.write_list(out);
            },
            CellError::DivByZero => {
                out.append("#ERROR: Division by zero");
            },
            CellError::CircularRef => {
                out.append("#ERROR: ref error");
            },
        }
    }
}

/// The seven characters with which every message starts.
pub open spec fn message_start() -> Seq<char> {
    seq!['#', 'E', 'R', 'R', 'O', 'R', ':']
}

/// Every message starts with `#ERROR:`.
pub proof fn lemma_message_starts(e: CellErrorView)
    ensures
        message_of(e).len() >= 7,
        message_of(e).subrange(0, 7) == message_start(),
    decreases e,
{
    reveal_strlit("#ERROR: Malformed formula");
    reveal_strlit("#ERROR: Incompatible types, expected ");
    reveal_strlit("#ERROR: Incompatible types");
    reveal_strlit("#ERROR: This cell references non-existent cell at ");
    reveal_strlit("#ERROR: This operation takes ");
    reveal_strlit("#ERROR: Could not find an operation named ");
    reveal_strlit("#ERROR: Referenced cell ");
    reveal_strlit("#ERROR: These errors have occurred in this formula: ");
    reveal_strlit("#ERROR: Division by zero");
    reveal_strlit("#ERROR: ref error");
    match e {
        CellErrorView::ArgError(_, cause) => {
            lemma_message_starts(*cause);
        },
        _ => {},
    }
    assert(message_of(e).subrange(0, 7) =~= message_start());
}

} // verus!
