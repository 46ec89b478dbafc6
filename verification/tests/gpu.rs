use animato::easing::EasingKind;
use animato::gpu::{GpuBackend, GpuBatchError, GpuBatchState};

#[test]
fn gpu_error_debug_and_equality_are_stable() {
    let adapter = GpuBatchError::AdapterUnavailable;
    let device = GpuBatchError::RequestDevice("lost".to_owned());

    assert_eq!(adapter, GpuBatchError::AdapterUnavailable);
    assert_ne!(adapter, device);
    assert!(format!("{device:?}").contains("lost"));
}

#[test]
fn cpu_batch_reports_cpu_backend() {
    let mut state = GpuBatchState::new_cpu();
    assert_eq!(state.backend(), GpuBackend::Cpu);
    assert!(!state.dispatches_on_gpu());
    state.push(EasingKind::EaseOutCubic);
    assert_eq!(state.backend(), GpuBackend::Cpu);
    state.clear();
    assert_eq!(state.backend(), GpuBackend::Cpu);
}

#[test]
fn unsupported_easing_forces_cpu_until_clear() {
    let mut state = GpuBatchState::with_resources();
    assert_eq!(state.backend(), GpuBackend::Gpu);
    assert!(state.dispatches_on_gpu());
    state.push(EasingKind::EaseOutCubic);
    assert_eq!(state.backend(), GpuBackend::Gpu);
    state.push(EasingKind::Steps);
    assert_eq!(state.backend(), GpuBackend::Cpu);
    state.push(EasingKind::EaseOutCubic);
    assert_eq!(state.backend(), GpuBackend::Cpu);
    state.clear();
    assert_eq!(state.backend(), GpuBackend::Gpu);
}

#[test]
fn failed_dispatch_falls_back_to_cpu() {
    let mut state = GpuBatchState::with_resources();
    state.dispatch_failed();
    assert_eq!(state.backend(), GpuBackend::Cpu);
    assert!(!state.dispatches_on_gpu());
    state.clear();
    assert!(state.dispatches_on_gpu());
}

#[test]
fn unsupported_easing_keeps_cpu_backend() {
    let mut state = GpuBatchState::new_cpu();
    state.push(EasingKind::Steps);
    assert_eq!(state.backend(), GpuBackend::Cpu);
}
