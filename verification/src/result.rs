//! The per-second history a stored result carries. Scoring itself is an
//! outside concern; the session engine only hands its raw timeline on.
use vstd::prelude::*;

verus! {

/// Per-second samples of a finished session: words per minute and error
/// counts, in chronological order.
#[derive(Debug)]
pub struct History {
    pub wpm: Vec<u16>,
    pub err: Vec<u16>,
}

impl History {
    /// An empty history.
    pub fn new() -> (h: History)
        ensures
            h.wpm@ == Seq::<u16>::empty(),
            h.err@ == Seq::<u16>::empty(),
    {
        History { wpm: Vec::new(), err: Vec::new() }
    }
}

} // verus!
