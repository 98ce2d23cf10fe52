//! Pending modal messages. The variant constructor queues one popup per
//! synthesis failure; the shell displays them and reports, per displayed
//! popup, whether the user dismissed it.

use vstd::prelude::*;

verus! {

/// A message popup. Commonly used for error messages.
#[derive(Debug, PartialEq, Eq)]
pub struct Popup {
    pub message: String,
}

impl Popup {
    /// Create a new message popup.
    pub fn new(msg: String) -> (r: Popup)
        ensures
            r.message@ == msg@,
    {
        Popup { message: msg }
    }
}

/// The ordered list of pending popups.
pub struct Popups {
    pub popups: Vec<Popup>,
}

impl View for Popups {
    type V = Seq<Seq<char>>;

    open spec fn view(&self) -> Seq<Seq<char>> {
        Seq::new(self.popups@.len(), |i: int| self.popups@[i].message@)
    }
}

/// What one pass of the display loop leaves pending: each popup in turn is
/// either dismissed, the last one swapped into its place (and considered
/// again), or kept and the cursor moves on. `answers` holds the user's
/// dismissal decision for each display, in display order.
pub open spec fn spec_display_step(pending: Seq<Seq<char>>, i: int, answers: Seq<bool>) -> Seq<
    Seq<char>,
>
    decreases answers.len(),
{
    if i >= pending.len() || answers.len() == 0 {
        pending
    } else if answers[0] {
        let swapped = pending.update(i, pending.last()).drop_last();
        spec_display_step(swapped, i, answers.drop_first())
    } else {
        spec_display_step(pending, i + 1, answers.drop_first())
    }
}

impl Popups {
    /// An empty list.
    pub fn new() -> (r: Popups)
        ensures
            r@ == Seq::<Seq<char>>::empty(),
    {
        let r = Popups { popups: Vec::new() };
        proof {
            assert(r@ =~= Seq::<Seq<char>>::empty());
        }
        r
    }

    /// Push a new popup onto the list.
    pub fn add(&mut self, popup: Popup)
        ensures
            final(self)@ == old(self)@.push(popup.message@),
    {
        self.popups.push(popup);
        proof {
            assert(self@ =~= old(self)@.push(self.popups@.last().message@));
        }
    }

    /// Display the contained popups: walk the pending list, removing each
    /// popup the user dismissed by swapping in the last one, and keeping
    /// the rest. `answers` holds one dismissal decision per display, in
    /// display order; a missing answer keeps the popup.
    pub fn display_popups(&mut self, answers: &Vec<bool>)
        ensures
            final(self)@ == spec_display_step(old(self)@, 0, answers@),
    {
        proof {
            assert(answers@.skip(0) =~= answers@);
        }
        let mut i: usize = 0;
        let mut a: usize = 0;
        loop
            invariant
                i <= self.popups.len(),
                a <= answers@.len(),
                spec_display_step(old(self)@, 0, answers@) == spec_display_step(
                    self@,
                    i as int,
                    answers@.skip(a as int),
                ),
            ensures
                self@ == spec_display_step(old(self)@, 0, answers@),
            decreases answers@.len() - a,
        {
            if i >= self.popups.len() || a >= answers.len() {
                proof {
                    assert(answers@.skip(a as int).len() == 0 || i >= self@.len());
                    assert(spec_display_step(self@, i as int, answers@.skip(a as int)) == self@);
                }
                break ;
            }
            let dismissed = answers[a];
            proof {
                assert(answers@.skip(a as int)[0] == answers@[a as int]);
                assert(answers@.skip(a as int).drop_first() =~= answers@.skip(a + 1 as int));
            }
            if dismissed {
                let ghost pre = self@;
                let last = self.popups.len() - 1;
                let moved = self.popups.remove(last);
                if i < self.popups.len() {
                    self.popups.set(i, moved);
                    proof {
                        assert(self@ =~= pre.update(i as int, pre.last()).drop_last());
                    }
                } else {
                    proof {
                        assert(self@ =~= pre.drop_last());
                        assert(pre.update(i as int, pre.last()).drop_last() =~= pre.drop_last());
                    }
                }
            } else {
                i += 1;
            }
            a += 1;
        }
    }
}

} // verus!
