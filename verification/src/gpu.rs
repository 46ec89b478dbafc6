//! Backend selection for batched tween evaluation.
//!
//! A batch runs on the GPU only while it holds GPU resources and has not been
//! forced onto the CPU; pushing a tween whose easing the shader lacks, or a
//! failed GPU dispatch, forces it onto the CPU until the batch is cleared.
use vstd::prelude::*;
use crate::easing::{classic_easing_id, is_classic, EasingKind};

verus! {

/// The backend currently used by a batch.
#[derive(Clone, Copy, Debug, PartialEq, Eq, Structural)]
pub enum GpuBackend {
    /// Deterministic CPU fallback.
    Cpu,
    /// A wgpu device and queue were supplied.
    Gpu,
}

/// Error returned by GPU initialization.
#[derive(Clone, Debug, PartialEq, Eq)]
pub enum GpuBatchError {
    /// No suitable wgpu adapter was found.
    AdapterUnavailable,
    /// Requesting the wgpu device failed.
    RequestDevice(String),
}

/// The state of a batch that decides its backend.
#[derive(Clone, Copy, Debug, PartialEq, Eq)]
pub struct GpuBatchState {
    /// GPU device, queue and pipeline were set up.
    pub has_resources: bool,
    /// The batch has fallen back to the CPU.
    pub force_cpu: bool,
}

/// The backend a batch in state `s` uses.
pub open spec fn backend_of(s: GpuBatchState) -> GpuBackend {
    if s.has_resources && !s.force_cpu {
        GpuBackend::Gpu
    } else {
        GpuBackend::Cpu
    }
}

/// The state after pushing tweens with these easings, in order.
pub open spec fn after_pushes(s: GpuBatchState, easings: Seq<EasingKind>) -> GpuBatchState
    decreases easings.len(),
{
    if easings.len() == 0 {
        s
    } else {
        let t = after_pushes(s, easings.drop_last());
        GpuBatchState { force_cpu: t.force_cpu || !is_classic(easings.last()), ..t }
    }
}

impl GpuBatchState {
    /// A CPU-only batch.
    pub fn new_cpu() -> (s: Self)
        ensures
            !s.has_resources,
            !s.force_cpu,
    {
        GpuBatchState { has_resources: false, force_cpu: false }
    }

    /// A batch whose GPU resources were set up.
    pub fn with_resources() -> (s: Self)
        ensures
            s.has_resources,
            !s.force_cpu,
    {
        GpuBatchState { has_resources: true, force_cpu: false }
    }

    /// Currently active backend.
    pub fn backend(&self) -> (b: GpuBackend)
        ensures
            b == backend_of(*self),
    {
        if self.has_resources && !self.force_cpu {
            GpuBackend::Gpu
        } else {
            GpuBackend::Cpu
        }
    }

    /// Record a pushed tween with the given easing. An easing the shader
    /// lacks forces the CPU.
    pub fn push(&mut self, easing: EasingKind)
        ensures
            *final(self) == after_pushes(*old(self), seq![easing]),
            !is_classic(easing) ==> backend_of(*final(self)) == GpuBackend::Cpu,
    {
        if classic_easing_id(easing).is_none() {
            self.force_cpu = true;
        }
        proof {
            let pushed = seq![easing];
            assert(pushed.drop_last() =~= Seq::<EasingKind>::empty());
            assert(after_pushes(*old(self), pushed.drop_last()) == *old(self));
        }
    }

    /// Whether a tick dispatches to the GPU; a failed dispatch is reported
    /// with [`dispatch_failed`](Self::dispatch_failed) and the tick then
    /// refreshes values on the CPU.
    pub fn dispatches_on_gpu(&self) -> (b: bool)
        ensures
            b <==> backend_of(*self) == GpuBackend::Gpu,
    {
        self.backend() == GpuBackend::Gpu
    }

    /// Record a failed GPU dispatch: the batch stays on the CPU.
    pub fn dispatch_failed(&mut self)
        ensures
            final(self).has_resources == old(self).has_resources,
            final(self).force_cpu,
            backend_of(*final(self)) == GpuBackend::Cpu,
    {
        self.force_cpu = true;
    }

    /// Remove all tweens: the fallback is lifted.
    pub fn clear(&mut self)
        ensures
            final(self).has_resources == old(self).has_resources,
            !final(self).force_cpu,
            backend_of(*final(self)) == (if old(self).has_resources { GpuBackend::Gpu } else {
                GpuBackend::Cpu
            }),
    {
        self.force_cpu = false;
    }
}

/// Once a tween whose easing the shader lacks has been pushed, the batch
/// reports the CPU backend, whatever else is pushed, until it is cleared.
pub proof fn law_unsupported_easing_forces_cpu(s: GpuBatchState, easings: Seq<EasingKind>, i: int)
    requires
        0 <= i < easings.len(),
        !is_classic(easings[i]),
    ensures
        backend_of(after_pushes(s, easings)) == GpuBackend::Cpu,
    decreases easings.len(),
{
    if i < easings.len() - 1 {
        law_unsupported_easing_forces_cpu(s, easings.drop_last(), i);
    }
}

/// A batch without GPU resources never reports the GPU backend.
pub proof fn law_cpu_batch_stays_on_cpu(s: GpuBatchState, easings: Seq<EasingKind>)
    requires
        !s.has_resources,
    ensures
        backend_of(after_pushes(s, easings)) == GpuBackend::Cpu,
        !after_pushes(s, easings).has_resources,
    decreases easings.len(),
{
    if easings.len() > 0 {
        law_cpu_batch_stays_on_cpu(s, easings.drop_last());
    }
}

} // verus!
verus! {

/// Pushing tweens whose easings the shader implements never changes the
/// backend: the state is as before, so a batch on the GPU stays there.
pub proof fn law_supported_easings_keep_backend(s: GpuBatchState, easings: Seq<EasingKind>)
    requires
        forall|i: int| 0 <= i < easings.len() ==> is_classic(#[trigger] easings[i]),
    ensures
        after_pushes(s, easings) == s,
        backend_of(after_pushes(s, easings)) == backend_of(s),
    decreases easings.len(),
{
    if easings.len() > 0 {
        let init = easings.drop_last();
        assert forall|i: int| 0 <= i < init.len() implies is_classic(#[trigger] init[i]) by {
            assert(init[i] == easings[i]);
        }
        law_supported_easings_keep_backend(s, init);
        assert(is_classic(easings[easings.len() - 1]));
    }
}

} // verus!
