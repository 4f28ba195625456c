//! The host's scheduling registrar: where plugins say which of their
//! callbacks the host is to run, and when.

use vstd::prelude::*;

verus! {

/// The phase of the host's schedule in which a hook runs.
#[derive(Clone, Copy, Debug, PartialEq, Eq, Structural)]
pub enum Phase {
    /// Once, when the host starts.
    Startup,
    /// On every pass of the host's update loop.
    Update,
}

/// One entry of the host's schedule: a named callback and its phase.
#[derive(Clone, Copy, Debug, PartialEq, Eq)]
pub struct Hook {
    pub phase: Phase,
    pub name: &'static str,
}

/// Mathematical value of a [`Hook`].
pub struct HookView {
    pub phase: Phase,
    pub name: Seq<char>,
}

impl View for Hook {
    type V = HookView;

    open spec fn view(&self) -> HookView {
        HookView { phase: self.phase, name: self.name@ }
    }
}

/// The host's scheduling registrar: the hooks that plugins have asked for, in
/// the order in which they were registered.
pub struct HostSchedule {
    hooks: Vec<Hook>,
}

impl View for HostSchedule {
    type V = Seq<HookView>;

    closed spec fn view(&self) -> Seq<HookView> {
        Seq::new(self.hooks@.len(), |i: int| self.hooks@[i]@)
    }
}

impl HostSchedule {
    /// A schedule without hooks.
    pub fn new() -> (host: HostSchedule)
        ensures
            host@ == Seq::<HookView>::empty(),
    {
        HostSchedule { hooks: Vec::new() }
    }

    /// Registers the callback `name` to run in `phase`, after all hooks
    /// registered so far.
    pub fn add_systems(&mut self, phase: Phase, name: &'static str)
        ensures
            final(self)@ == old(self)@.push(HookView { phase, name: name@ }),
    {
        self.hooks.push(Hook { phase, name });
    }

    /// Number of registered hooks.
    pub fn len(&self) -> (n: usize)
        ensures
            n == self@.len(),
    {
        self.hooks.len()
    }

    /// The `i`-th registered hook; `None` past the end.
    pub fn get(&self, i: usize) -> (hook: Option<Hook>)
        ensures
            match hook {
                Some(h) => i < self@.len() && h@ == self@[i as int],
                None => i >= self@.len(),
            },
    {
        if i < self.hooks.len() {
            let h = &self.hooks[i];
            Some(Hook { phase: h.phase, name: h.name })
        } else {
            None
        }
    }
}

} // verus!
