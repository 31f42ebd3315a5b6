//! What an operation reports when it cannot be done.

use crate::text::{joined, strings};
use vstd::prelude::*;

verus! {

#[derive(Clone, Debug)]
pub enum Error {
    /// The request itself is wrong.
    BadArgs(String),
    /// A name in the request refers to nothing; the names that would have worked follow.
    NoMatch { what: String, wanted: String, candidates: Vec<String> },
    /// An external program is missing or failed.
    Tool { tool: String, detail: String },
    /// The operation could not be carried out.
    Op(String),
}

pub enum ErrorView {
    BadArgs(Seq<char>),
    NoMatch { what: Seq<char>, wanted: Seq<char>, candidates: Seq<Seq<char>> },
    Tool { tool: Seq<char>, detail: Seq<char> },
    Op(Seq<char>),
}

impl View for Error {
    type V = ErrorView;

    open spec fn view(&self) -> ErrorView {
        match self {
            Error::BadArgs(detail) => ErrorView::BadArgs(detail@),
            Error::NoMatch { what, wanted, candidates } => ErrorView::NoMatch {
                what: what@,
                wanted: wanted@,
                candidates: strings(candidates@),
            },
            Error::Tool { tool, detail } => ErrorView::Tool { tool: tool@, detail: detail@ },
            Error::Op(detail) => ErrorView::Op(detail@),
        }
    }
}

impl ErrorView {
    /// The kind under which a report files the error.
    pub open spec fn kind(self) -> Seq<char> {
        match self {
            ErrorView::BadArgs(_) => "bad-args"@,
            ErrorView::NoMatch { .. } => "no-match"@,
            ErrorView::Tool { .. } => "tool"@,
            ErrorView::Op(_) => "op"@,
        }
    }

    /// The message a human reads.
    pub open spec fn message(self) -> Seq<char> {
        match self {
            ErrorView::BadArgs(detail) => detail,
            ErrorView::NoMatch { what, wanted, candidates } => {
                let head = "no "@ + what + " matches '"@ + wanted + "'"@;
                if candidates.len() == 0 {
                    head
                } else {
                    head + "; candidates: "@ + crate::text::join(candidates, ", "@)
                }
            },
            ErrorView::Tool { tool, detail } => tool + " unavailable: "@ + detail,
            ErrorView::Op(detail) => detail,
        }
    }
}

impl Error {
    pub fn kind(&self) -> (r: &'static str)
        ensures
            r@ == self@.kind(),
    {
        match self {
            Error::BadArgs(_) => "bad-args",
            Error::NoMatch { .. } => "no-match",
            Error::Tool { .. } => "tool",
            Error::Op(_) => "op",
        }
    }

    pub fn message(&self) -> (r: String)
        ensures
            r@ == self@.message(),
    {
        match self {
            Error::BadArgs(detail) => detail.clone(),
            Error::NoMatch { what, wanted, candidates } => {
                let mut out = "no ".to_owned();
                out.append(what.as_str());
                out.append(" matches '");
                out.append(wanted.as_str());
                out.append("'");
                if candidates.len() > 0 {
                    let list = joined(candidates, ", ");
                    out.append("; candidates: ");
                    out.append(list.as_str());
                }
                out
            },
            Error::Tool { tool, detail } => {
                let mut out = tool.clone();
                out.append(" unavailable: ");
                out.append(detail.as_str());
                out
            },
            Error::Op(detail) => detail.clone(),
        }
    }

    pub fn op(detail: &str) -> (r: Error)
        ensures
            r@ == ErrorView::Op(detail@),
    {
        Error::Op(detail.to_owned())
    }

    pub fn bad_args(detail: &str) -> (r: Error)
        ensures
            r@ == ErrorView::BadArgs(detail@),
    {
        Error::BadArgs(detail.to_owned())
    }

    pub fn tool(tool: &str, detail: &str) -> (r: Error)
        ensures
            r@ == (ErrorView::Tool { tool: tool@, detail: detail@ }),
    {
        Error::Tool { tool: tool.to_owned(), detail: detail.to_owned() }
    }

    pub fn no_match(what: &str, wanted: &str, candidates: Vec<String>) -> (r: Error)
        ensures
            r@ == (ErrorView::NoMatch {
                what: what@,
                wanted: wanted@,
                candidates: strings(candidates@),
            }),
    {
        Error::NoMatch { what: what.to_owned(), wanted: wanted.to_owned(), candidates }
    }
}

} // verus!
