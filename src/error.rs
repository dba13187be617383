use vstd::prelude::*;

use crate::text::{decimal, push_decimal};

verus! {

/// Why a template or a set of templates cannot be compiled.
#[derive(Debug, PartialEq)]
pub enum ParseError {
    /// The input does not match the grammar from this byte offset on.
    UnexpectedToken(usize),
    /// A partial names no template: the partial's name and the path of the
    /// template that calls it.
    UnknownPartial(String, String),
    /// A section was opened with the first path and closed with the second.
    SectionMismatch(String, String),
}

impl ParseError {
    /// The descriptive message shown to the user.
    pub open spec fn text(&self) -> Seq<char> {
        match self {
            ParseError::UnexpectedToken(p) => "Unexpected token at position "@ + decimal(
                *p as nat,
            ),
            ParseError::UnknownPartial(n, p) => "Undefined partial `"@ + n@ + "` called in \""@
                + p@ + "\""@,
            ParseError::SectionMismatch(a, b) => "Section `"@ + a@ + "` is closed by `"@ + b@
                + "`"@,
        }
    }

    /// A descriptive message including the offending file path.
    pub fn message(&self) -> (r: String)
        ensures
            r@ == self.text(),
    {
        match self {
            ParseError::UnexpectedToken(p) => {
                let mut r = "Unexpected token at position ".to_owned();
                push_decimal(&mut r, *p);
                r
            },
            ParseError::UnknownPartial(n, p) => {
                let mut r = "Undefined partial `".to_owned();
                r.append(n.as_str());
                r.append("` called in \"");
                r.append(p.as_str());
                r.append("\"");
                r
            },
            ParseError::SectionMismatch(a, b) => {
                let mut r = "Section `".to_owned();
                r.append(a.as_str());
                r.append("` is closed by `");
                r.append(b.as_str());
                r.append("`");
                r
            },
        }
    }
}

} // verus!
