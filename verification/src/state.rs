//! What a session keeps from one run to the next.

use crate::markov::{Chain, ChainView};
use crate::song::Song;
use vstd::prelude::*;

verus! {

/// The graph, the song that plays, and the place of the cursor.
#[derive(Debug)]
pub struct State {
    pub chain: Chain,
    pub current: Option<Song>,
    pub cursor: usize,
}

impl State {
    /// The state of a first session: an empty graph, no song, the cursor at the top.
    pub fn new() -> (state: State)
        ensures
            state.chain.wf(),
            state.chain@ == ChainView::empty(),
            state.current is None,
            state.cursor == 0,
    {
        State { chain: Chain::new(), current: None, cursor: 0 }
    }
}

} // verus!
