//! Explicit per-tick stage ordering.
//!
//! Instead of globally registered ordering constraints, the engine keeps
//! one explicit table of stages per schedule. The fixed post-step table
//! computes pre-spawn hashes before physics runs — so no physics
//! interaction can affect a hash — and updates the prediction history and
//! interpolation state only after physics has synced its results. The
//! render-time table chains visual interpolation, the physics sync and
//! transform propagation.

use vstd::prelude::*;

verus! {

/// The stages run after each fixed simulation step, in order.
#[derive(Debug, Hash, Clone, Copy, PartialEq, Eq, Structural)]
pub enum FixedPostUpdateStage {
    /// Compute the pre-spawn hash of every locally pre-spawned entity,
    /// before any physics stage can mutate its components.
    SetPreSpawnedHash,
    /// Physics: prepare the step.
    PhysicsPrepare,
    /// Physics: advance the simulation.
    PhysicsStepSimulation,
    /// Physics: write results back to the components.
    PhysicsSync,
    /// Push the stepped values into the prediction history.
    UpdateHistory,
    /// Advance the rollback tick.
    IncrementRollbackTick,
    /// Refresh the visual interpolation state from the synced values.
    UpdateVisualInterpolationState,
}

/// The stages run once per rendered frame, in order.
#[derive(Debug, Hash, Clone, Copy, PartialEq, Eq, Structural)]
pub enum PostUpdateStage {
    /// Blend the interpolated entities at the delayed render tick.
    VisualInterpolation,
    /// Physics: sync the blended values so anything reading transforms
    /// this frame sees them.
    PhysicsSync,
    /// Propagate transforms down the hierarchy.
    TransformPropagate,
}

/// The fixed post-step stage table.
pub open spec fn spec_fixed_post_update_order() -> Seq<FixedPostUpdateStage> {
    seq![
        FixedPostUpdateStage::SetPreSpawnedHash,
        FixedPostUpdateStage::PhysicsPrepare,
        FixedPostUpdateStage::PhysicsStepSimulation,
        FixedPostUpdateStage::PhysicsSync,
        FixedPostUpdateStage::UpdateHistory,
        FixedPostUpdateStage::IncrementRollbackTick,
        FixedPostUpdateStage::UpdateVisualInterpolationState,
    ]
}

/// The stage order of one fixed simulation step.
pub fn fixed_post_update_order() -> (r: Vec<FixedPostUpdateStage>)
    ensures
        r@ == spec_fixed_post_update_order(),
{
    let mut v: Vec<FixedPostUpdateStage> = Vec::new();
    v.push(FixedPostUpdateStage::SetPreSpawnedHash);
    v.push(FixedPostUpdateStage::PhysicsPrepare);
    v.push(FixedPostUpdateStage::PhysicsStepSimulation);
    v.push(FixedPostUpdateStage::PhysicsSync);
    v.push(FixedPostUpdateStage::UpdateHistory);
    v.push(FixedPostUpdateStage::IncrementRollbackTick);
    v.push(FixedPostUpdateStage::UpdateVisualInterpolationState);
    proof {
        assert(v@ =~= spec_fixed_post_update_order());
    }
    v
}

/// The pre-spawn hash is computed before any physics stage, and the
/// history and interpolation stages run only after physics has synced.
pub proof fn lemma_fixed_post_update_constraints()
    ensures
        ({
            let s = spec_fixed_post_update_order();
            &&& s[0] == FixedPostUpdateStage::SetPreSpawnedHash
            &&& forall|i: int|
                1 <= i < s.len() ==> #[trigger] s[i] != FixedPostUpdateStage::SetPreSpawnedHash
            &&& s[3] == FixedPostUpdateStage::PhysicsSync
            &&& forall|i: int|
                0 <= i < 4 ==> #[trigger] s[i] != FixedPostUpdateStage::UpdateHistory && s[i]
                    != FixedPostUpdateStage::IncrementRollbackTick && s[i]
                    != FixedPostUpdateStage::UpdateVisualInterpolationState
        }),
{
}

/// The render-time stage table: interpolation, then the physics sync,
/// then transform propagation, as one chain.
pub open spec fn spec_post_update_order() -> Seq<PostUpdateStage> {
    seq![
        PostUpdateStage::VisualInterpolation,
        PostUpdateStage::PhysicsSync,
        PostUpdateStage::TransformPropagate,
    ]
}

/// The stage order of one rendered frame.
pub fn post_update_order() -> (r: Vec<PostUpdateStage>)
    ensures
        r@ == spec_post_update_order(),
{
    let mut v: Vec<PostUpdateStage> = Vec::new();
    v.push(PostUpdateStage::VisualInterpolation);
    v.push(PostUpdateStage::PhysicsSync);
    v.push(PostUpdateStage::TransformPropagate);
    proof {
        assert(v@ =~= spec_post_update_order());
    }
    v
}

} // verus!
