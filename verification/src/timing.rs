//! The stamp that precedes every line of the event log.

use vstd::prelude::*;

verus! {

/// The text of the current stamp.
pub open spec fn stamp_text() -> Seq<char> {
    Seq::empty()
}

/// `body` behind the bracketed stamp.
pub open spec fn stamped_text(body: Seq<char>) -> Seq<char> {
    "["@ + stamp_text() + "] "@ + body
}

/// The current stamp: the event log keeps its own time, so the stamp is empty.
pub fn current_timestamp() -> (r: String)
    ensures
        r@ == stamp_text(),
{
    String::new()
}

/// `body` behind the bracketed stamp.
pub fn stamped(body: &str) -> (r: String)
    ensures
        r@ == stamped_text(body@),
{
    let mut out: String = "[".to_string();
    out.append(current_timestamp().as_str());
    out.append("] ");
    out.append(body);
    out
}

/// The stamp is empty, so every line begins with empty brackets.
pub proof fn law_lines_begin_with_empty_brackets(body: Seq<char>)
    ensures
        stamped_text(body) == "[] "@ + body,
{
    reveal_strlit("[");
    reveal_strlit("] ");
    reveal_strlit("[] ");
    assert("["@ + stamp_text() + "] "@ =~= "[] "@);
}

} // verus!
