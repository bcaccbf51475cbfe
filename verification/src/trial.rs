//! Trying one thing after another, until one is accepted.
use vstd::prelude::*;

verus! {

/// What comes next.
#[derive(Clone, Copy, Debug, PartialEq, Eq, Structural)]
pub enum TrialAction {
    /// Try the current thing.
    Try,
    /// The current thing was accepted.
    Done,
    /// Nothing was accepted.
    Failed,
}

/// Things to try, and the place of the one that is tried.
#[derive(Debug)]
pub struct Trial<T> {
    items: Vec<T>,
    at: usize,
}

pub struct TrialView<T> {
    pub items: Seq<T>,
    pub at: int,
}

impl<T> TrialView<T> {
    /// Whether there is a thing to try.
    pub open spec fn running(self) -> bool {
        0 <= self.at < self.items.len()
    }
}

impl<T> View for Trial<T> {
    type V = TrialView<T>;

    closed spec fn view(&self) -> TrialView<T> {
        TrialView { items: self.items@, at: self.at as int }
    }
}

/// What comes after the current thing was tried: the first that is accepted is the last that is
/// tried.
pub open spec fn trial_step<T>(t: TrialView<T>, accepted: bool) -> (TrialView<T>, TrialAction) {
    if accepted {
        (t, TrialAction::Done)
    } else if t.at + 1 < t.items.len() {
        (TrialView { at: t.at + 1, ..t }, TrialAction::Try)
    } else {
        (t, TrialAction::Failed)
    }
}

impl<T> Trial<T> {
    /// Starts with the first thing.
    pub fn new(items: Vec<T>) -> (r: (Self, TrialAction))
        ensures
            r.0@ == (TrialView { items: items@, at: 0 }),
            r.1 == if items@.len() > 0 {
                TrialAction::Try
            } else {
                TrialAction::Failed
            },
    {
        let action = if items.len() > 0 {
            TrialAction::Try
        } else {
            TrialAction::Failed
        };
        (Trial { items, at: 0 }, action)
    }

    /// The thing that is tried.
    pub fn current(&self) -> (r: &T)
        requires
            self@.running(),
        ensures
            *r == self@.items[self@.at],
    {
        &self.items[self.at]
    }

    /// Takes in whether the current thing was accepted.
    pub fn step(&mut self, accepted: bool) -> (r: TrialAction)
        requires
            old(self)@.running(),
        ensures
            (final(self)@, r) == trial_step(old(self)@, accepted),
            final(self)@.running(),
    {
        let count = self.items.len();
        if accepted {
            TrialAction::Done
        } else if self.at + 1 < count {
            self.at = self.at + 1;
            TrialAction::Try
        } else {
            TrialAction::Failed
        }
    }
}

/// Where a trial ends, given the answers from the current thing on.
pub open spec fn trial_run<T>(t: TrialView<T>, answers: Seq<bool>) -> (TrialView<T>, TrialAction)
    decreases answers.len(),
{
    if answers.len() == 0 {
        (t, TrialAction::Try)
    } else {
        let (u, action) = trial_step(t, answers[0]);
        if action is Try {
            trial_run(u, answers.drop_first())
        } else {
            (u, action)
        }
    }
}

/// A trial ends once every thing has been answered for. It succeeds exactly if some thing is
/// accepted, at the first such thing; else it ends with the last one.
pub proof fn first_accepted_is_the_last_tried<T>(t: TrialView<T>, answers: Seq<bool>)
    requires
        t.running(),
        answers.len() >= t.items.len() - t.at,
    ensures
        ({
            let (u, action) = trial_run(t, answers);
            &&& u.items == t.items
            &&& t.at <= u.at < t.items.len()
            &&& forall|k: int| 0 <= k < u.at - t.at ==> !#[trigger] answers[k]
            &&& action is Done || action is Failed
            &&& action is Done <==> answers[u.at - t.at]
            &&& action is Failed ==> u.at == t.items.len() - 1
        }),
    decreases t.items.len() - t.at,
{
    let (u, action) = trial_step(t, answers[0]);
    if action is Try {
        let rest = answers.drop_first();
        first_accepted_is_the_last_tried(u, rest);
        let end = trial_run(u, rest).0;
        assert forall|k: int| 0 <= k < end.at - t.at implies !#[trigger] answers[k] by {
            if k > 0 {
                assert(rest[k - 1] == answers[k]);
            }
        }
        assert(rest[end.at - u.at] == answers[end.at - t.at]);
    }
}

} // verus!
