//! A button that every worker of an operator presses before any of them
//! acts on it: the barrier behind the coordinated shutdown of an operator.
//!
//! Pressing a button broadcasts one message to every worker, the pressing
//! worker included. A worker sees all buttons pressed once it has counted as
//! many messages as there are workers.

use std::collections::VecDeque;
use vstd::prelude::*;

verus! {
/// A button that can be used to coordinate an action after all workers have pressed it.
#[derive(Debug)]
pub struct ButtonHandle {
    /// The number of workers.
    peers: usize,
    /// The number of buttons still unpressed among workers.
    buttons_remaining: usize,
    /// A flag indicating whether this worker has pressed its button.
    local_pressed: bool,
    /// The broadcasts that have arrived and are not counted yet.
    puller: VecDeque<bool>,
}

impl ButtonHandle {
    /// The number of workers that take part.
    pub closed spec fn peers(&self) -> nat {
        self.peers as nat
    }

    /// The number of broadcasts that have been counted.
    pub closed spec fn counted(&self) -> int {
        self.peers - self.buttons_remaining
    }

    /// The number of broadcasts that have arrived and are not counted yet.
    pub closed spec fn arrived(&self) -> nat {
        self.puller@.len()
    }

    /// Whether this worker has pressed its button.
    pub closed spec fn is_local_pressed(&self) -> bool {
        self.local_pressed
    }

    /// No more broadcasts have come in than there are workers.
    pub closed spec fn wf(&self) -> bool {
        &&& self.buttons_remaining <= self.peers
        &&& self.puller@.len() <= self.buttons_remaining
    }

    /// Whether a broadcast from every worker has come in.
    pub open spec fn complete(&self) -> bool {
        self.counted() + self.arrived() == self.peers()
    }

    /// A handle in order has taken in at most one broadcast for each worker.
    pub proof fn lemma_bounded(&self)
        requires
            self.wf(),
        ensures
            0 <= self.counted(),
            self.counted() + self.arrived() <= self.peers(),
    {
    }

    /// Returns whether this worker has pressed its button.
    pub fn local_pressed(&self) -> (pressed: bool)
        ensures
            pressed == self.is_local_pressed(),
    {
        self.local_pressed
    }

    /// Whether a broadcast from every worker has come in.
    pub fn is_complete(&self) -> (complete: bool)
        requires
            self.wf(),
        ensures
            complete == self.complete(),
    {
        self.puller.len() == self.buttons_remaining
    }

    /// Records the broadcast of a button that some worker has pressed.
    pub fn deliver(&mut self, pressed: bool)
        requires
            old(self).wf(),
            old(self).counted() + old(self).arrived() < old(self).peers(),
        ensures
            final(self).wf(),
            final(self).arrived() == old(self).arrived() + 1,
            final(self).counted() == old(self).counted(),
            final(self).peers() == old(self).peers(),
            final(self).is_local_pressed() == old(self).is_local_pressed(),
    {
        self.puller.push_back(pressed);
    }

    /// Returns whether all workers have pressed their buttons.
    ///
    /// Counts the broadcasts that have arrived. All buttons are pressed when
    /// as many broadcasts have been counted as there are workers, and not
    /// before.
    pub fn all_pressed(&mut self) -> (all: bool)
        requires
            old(self).wf(),
        ensures
            final(self).wf(),
            all == old(self).complete(),
            final(self).counted() == old(self).counted() + old(self).arrived(),
            final(self).arrived() == 0,
            final(self).peers() == old(self).peers(),
            final(self).is_local_pressed() == old(self).is_local_pressed(),
    {
        loop
            invariant
                self.wf(),
                self.counted() + self.arrived() == old(self).counted() + old(self).arrived(),
                self.peers == old(self).peers,
                self.local_pressed == old(self).local_pressed,
            ensures
                self.arrived() == 0,
            decreases self.puller@.len(),
        {
            match self.puller.pop_front() {
                Some(_) => {
                    self.buttons_remaining -= 1;
                },
                None => {
                    break ;
                },
            }
        }
        self.buttons_remaining == 0
    }
}

/// The button of one worker.
#[derive(Debug)]
pub struct Button {
    /// The number of workers that this button has not broadcast to yet.
    pushers: usize,
}

impl Button {
    /// The number of workers that this button has not broadcast to yet.
    pub closed spec fn unsent(&self) -> nat {
        self.pushers as nat
    }

    /// Presses the button. It is safe to call this function multiple times.
    ///
    /// Marks this worker's button as pressed in `handle` and returns the
    /// number of workers that the message `true` has to be sent to: all of
    /// them at the first press, none afterwards.
    pub fn press(&mut self, handle: &mut ButtonHandle) -> (broadcasts: usize)
        ensures
            broadcasts == old(self).unsent(),
            final(self).unsent() == 0,
            final(handle).is_local_pressed(),
            final(handle).wf() == old(handle).wf(),
            final(handle).peers() == old(handle).peers(),
            final(handle).counted() == old(handle).counted(),
            final(handle).arrived() == old(handle).arrived(),
    {
        let broadcasts = self.pushers;
        self.pushers = 0;
        handle.local_pressed = true;
        broadcasts
    }

    /// Converts this button into a deadman's switch that will automatically press the button when
    /// dropped.
    pub fn press_on_drop(self) -> (switch: PressOnDropButton)
        ensures
            switch.0 == self,
    {
        PressOnDropButton(self)
    }
}

/// A button that is pressed when its holder lets go of it.
#[derive(Debug)]
pub struct PressOnDropButton(pub Button);

impl PressOnDropButton {
    /// Lets go of the button, which presses it.
    pub fn release(self, handle: &mut ButtonHandle) -> (broadcasts: usize)
        ensures
            broadcasts == self.0.unsent(),
            final(handle).is_local_pressed(),
            final(handle).wf() == old(handle).wf(),
            final(handle).peers() == old(handle).peers(),
            final(handle).counted() == old(handle).counted(),
            final(handle).arrived() == old(handle).arrived(),
    {
        let mut button = self.0;
        button.press(handle)
    }
}

/// Creates a new coordinated button for a worker among `peers` workers.
pub fn button(peers: usize) -> (pair: (ButtonHandle, Button))
    ensures
        pair.0.wf(),
        pair.0.peers() == peers,
        pair.0.counted() == 0,
        pair.0.arrived() == 0,
        !pair.0.is_local_pressed(),
        pair.1.unsent() == peers,
{
    let handle = ButtonHandle {
        peers,
        buttons_remaining: peers,
        local_pressed: false,
        puller: VecDeque::new(),
    };
    let token = Button { pushers: peers };
    (handle, token)
}
} // verus!
