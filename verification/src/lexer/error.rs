use vstd::prelude::*;
use core::ops::Range;
use crate::text::{decimal, push_decimal};

verus! {

/// A stretch of the source that starts no token: its byte range and its text.
#[derive(Debug, PartialEq, Eq, Clone, Default)]
pub struct LexError {
    pub span: Range<usize>,
    pub text: String,
}

/// The one-line description of a lexing error.
pub open spec fn lex_error_message(span: Range<usize>, text: Seq<char>) -> Seq<char> {
    "token inválido `"@ + text + "` em "@ + decimal(span.start as nat) + ".."@ + decimal(
        span.end as nat,
    )
}

impl LexError {
    /// `token inválido `<text>` em <start>..<end>` (what `Display` shows).
    pub fn message(&self) -> (m: String)
        ensures
            m@ == lex_error_message(self.span, self.text@),
    {
        let mut m = String::new();
        m.append("token inválido `");
        m.append(self.text.as_str());
        m.append("` em ");
        push_decimal(&mut m, self.span.start);
        m.append("..");
        push_decimal(&mut m, self.span.end);
        m
    }
}

} // verus!
