//! Builds and configures applications on behalf of the runtime.

use vstd::prelude::*;

verus! {

/// Makes applications: for a new primary, which also publishes seed events,
/// and for replicas, which get to the same state by replay.
///
/// Operator policy (limits, caps) is no part of the replayed state, so it is
/// applied apart, after each restore.
pub trait AppFactory: Sized {
    /// The application.
    type App;

    /// An event of the application.
    type Event;

    /// An empty application without policy.
    fn empty(&self) -> (app: Self::App);

    /// An empty application under the operator's policy. An application that
    /// can size itself for the seed does so here.
    fn empty_for_seed(&self) -> (app: Self::App)
        default_ensures
            exists|blank: Self::App, r: &mut Self::App|
                #![trigger call_ensures(Self::empty, (self,), blank), call_ensures(Self::apply_operator_policy, (self, r), ())]
                {
                    &&& call_ensures(Self::empty, (self,), blank)
                    &&& *r == blank
                    &&& *final(r) == app
                    &&& call_ensures(Self::apply_operator_policy, (self, r), ())
                },
    {
        let mut app: Self::App = self.empty();
        self.apply_operator_policy(&mut app);
        app
    }

    /// Applies the operator's policy again. Without a policy nothing changes.
    fn apply_operator_policy(&self, app: &mut Self::App)
        default_ensures
            *final(app) == *old(app),
    {
    }

    /// The events that a new primary publishes at its start. Without a seed
    /// there are none.
    fn seed_events(&self) -> (events: Vec<Self::Event>)
        default_ensures
            events@ == Seq::<Self::Event>::empty(),
    {
        Vec::new()
    }
}

} // verus!
