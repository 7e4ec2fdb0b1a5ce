//! The decision the main loop takes after each wake-up: quit, re-layout, or
//! just redraw, from the batch of events that arrived together.
use vstd::prelude::*;

verus! {

/// What wakes the main loop.
#[derive(Debug, Clone, Copy, PartialEq, Eq, Structural)]
pub enum Event {
    /// The embedded terminal produced output; redraw.
    Output,
    /// The terminal was resized; recompute the box and resize the PTY.
    Winch,
    /// The embedded program exited (or the PTY hit end of file); quit.
    Exit,
}

/// What to do after a batch of events, besides redrawing.
#[derive(Debug, Clone, Copy, PartialEq, Eq, Structural)]
pub struct Step {
    /// Stop the loop.
    pub quit: bool,
    /// Recompute the box and resize the PTY.
    pub relayout: bool,
}

/// `e` is among `evs`.
pub open spec fn has_event(evs: Seq<Event>, e: Event) -> bool {
    exists|i: int| 0 <= i < evs.len() && evs[i] == e
}

/// Fold a batch of events that arrived together into one step: quit if any
/// of them is an exit, re-layout if any is a resize; output alone only asks
/// for the redraw that every batch gets.
pub fn batch_step(evs: &Vec<Event>) -> (s: Step)
    ensures
        s.quit == has_event(evs@, Event::Exit),
        s.relayout == has_event(evs@, Event::Winch),
        s.quit <==> exists|i: int| 0 <= i < evs@.len() && evs@[i] == Event::Exit,
        s.relayout <==> exists|i: int| 0 <= i < evs@.len() && evs@[i] == Event::Winch,
{
    let mut quit = false;
    let mut relayout = false;
    let mut i: usize = 0;
    while i < evs.len()
        invariant
            i <= evs@.len(),
            quit == has_event(evs@.take(i as int), Event::Exit),
            relayout == has_event(evs@.take(i as int), Event::Winch),
        decreases evs@.len() - i,
    {
        let ghost before = evs@.take(i as int);
        let ghost after = evs@.take(i + 1);
        assert(after =~= before.push(evs@[i as int]));
        assert forall|e: Event| has_event(after, e) == (has_event(before, e) || evs@[i as int] == e) by {
            if has_event(after, e) {
                let j = choose|j: int| 0 <= j < after.len() && after[j] == e;
                if j < before.len() {
                    assert(before[j] == after[j]);
                }
            }
            if has_event(before, e) {
                let j = choose|j: int| 0 <= j < before.len() && before[j] == e;
                assert(after[j] == before[j]);
            }
            if evs@[i as int] == e {
                assert(after[i as int] == e);
            }
        }
        match evs[i] {
            Event::Exit => quit = true,
            Event::Winch => relayout = true,
            Event::Output => {},
        }
        i = i + 1;
    }
    assert(evs@.take(evs@.len() as int) =~= evs@);
    Step { quit, relayout }
}

} // verus!
