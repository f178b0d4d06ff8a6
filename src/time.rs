//! The clock capability: one effect, answered with the current time as text.
use vstd::prelude::*;
use crate::command::{Command, Decode};

verus! {

/// The clock's answer: a timestamp as text.
#[derive(Debug, Clone, PartialEq, Eq)]
pub struct Response(pub String);

/// The clock capability, issuing commands tagged with its own effect.
pub struct Time<Ef: Clone> {
    pub effect: Ef,
}

impl<Ef: Clone> Time<Ef> {
    pub fn new(effect: Ef) -> (r: Self)
        ensures
            r.effect == effect,
    {
        Time { effect }
    }

    /// A command asking the shell for the time, whose response goes to `callback`.
    pub fn get<Ev, F: Fn(Response) -> Ev>(&self, callback: F) -> (r: Command<Ef, Ev, Decode<F>>)
        requires
            forall|resp: Response| callback.requires((resp,)),
        ensures
            cloned(self.effect, r.effect),
            r.resolve == Some(Decode { function: callback }),
            r.wf(),
    {
        Command::new(self.effect.clone(), callback)
    }
}

} // verus!
