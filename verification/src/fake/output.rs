//! What a stand-in prints and how it exits, and the state write it asks for.

use vstd::prelude::*;

use crate::json::{jv, Json, JsonView};

verus! {

/// One output stream: plain text, or a JSON document followed by a line
/// break, written compactly or pretty-printed.
#[derive(Debug)]
pub enum Printed {
    Text(String),
    Compact(Json),
    Pretty(Json),
}

/// A stream as plain values.
pub enum PrintedView {
    Text(Seq<char>),
    Compact(JsonView),
    Pretty(JsonView),
}

impl Printed {
    pub open spec fn view(&self) -> PrintedView {
        match self {
            Printed::Text(s) => PrintedView::Text(s@),
            Printed::Compact(j) => PrintedView::Compact(jv(*j)),
            Printed::Pretty(j) => PrintedView::Pretty(jv(*j)),
        }
    }
}

/// Nothing printed.
pub open spec fn silent() -> PrintedView {
    PrintedView::Text(Seq::empty())
}

} // verus!
