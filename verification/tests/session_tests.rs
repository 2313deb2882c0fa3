use ort_superserve::session::builder::{
    CompiledProviders, HardwareProvider, ProviderKind, ProviderStep, SessionBuilder, UnsupportedProvider,
};

const NONE: CompiledProviders = CompiledProviders { cuda: false, tensorrt: false, xnnpack: false, coreml: false };
const ALL: CompiledProviders = CompiledProviders { cuda: true, tensorrt: true, xnnpack: true, coreml: true };

#[test]
fn plan_uses_configured_threads() {
    let plan = SessionBuilder::plan(4, &vec![ProviderKind::Cpu], &ALL);
    assert_eq!(plan.intra_threads, 4);
    assert_eq!(plan.inter_threads, 1);
    assert!(!plan.parallel_execution);
    assert_eq!(plan.providers, vec![ProviderStep::Keep]);
}

#[test]
fn compiled_hardware_providers_are_registered_with_their_options() {
    let kinds = vec![
        ProviderKind::TensorRT { device_id: 1, fp16: true },
        ProviderKind::Cuda { device_id: 0 },
        ProviderKind::Xnnpack,
        ProviderKind::CoreML,
        ProviderKind::Custom,
        ProviderKind::Cpu,
    ];
    let plan = SessionBuilder::plan(1, &kinds, &ALL);
    assert_eq!(
        plan.providers,
        vec![
            ProviderStep::Register(HardwareProvider::TensorRT { device_id: 1, fp16: true }),
            ProviderStep::Register(HardwareProvider::Cuda { device_id: 0 }),
            ProviderStep::Register(HardwareProvider::Xnnpack),
            ProviderStep::Register(HardwareProvider::CoreML),
            ProviderStep::RunCustom,
            ProviderStep::Keep,
        ]
    );
}

#[test]
fn plan_stops_at_first_unsupported_provider() {
    let kinds = vec![
        ProviderKind::Custom,
        ProviderKind::Cuda { device_id: 0 },
        ProviderKind::Cpu,
        ProviderKind::CoreML,
    ];
    let plan = SessionBuilder::plan(1, &kinds, &NONE);
    assert_eq!(plan.providers, vec![ProviderStep::RunCustom, ProviderStep::Fail(UnsupportedProvider::Cuda)]);
    let only_cuda = CompiledProviders { cuda: true, ..NONE };
    let plan = SessionBuilder::plan(1, &kinds, &only_cuda);
    assert_eq!(
        plan.providers,
        vec![
            ProviderStep::RunCustom,
            ProviderStep::Register(HardwareProvider::Cuda { device_id: 0 }),
            ProviderStep::Keep,
            ProviderStep::Fail(UnsupportedProvider::CoreML),
        ]
    );
}

#[test]
fn device_ids_beyond_i32_are_refused() {
    let step = SessionBuilder::provider_step(&ProviderKind::Cuda { device_id: (i32::MAX as usize) + 1 }, &ALL);
    assert_eq!(step, ProviderStep::Fail(UnsupportedProvider::DeviceOutOfRange));
    assert_eq!(UnsupportedProvider::DeviceOutOfRange.message(), "GPU device id out of range");
}

#[test]
fn unsupported_provider_messages() {
    assert_eq!(
        SessionBuilder::provider_step(&ProviderKind::TensorRT { device_id: 1, fp16: true }, &NONE),
        ProviderStep::Fail(UnsupportedProvider::TensorRT)
    );
    assert_eq!(UnsupportedProvider::Cuda.message(), "CUDA execution provider requested but not compiled with cuda feature");
    assert_eq!(
        UnsupportedProvider::TensorRT.message(),
        "TensorRT execution provider requested but not compiled with tensorrt feature"
    );
    assert_eq!(
        UnsupportedProvider::Xnnpack.message(),
        "XNNPACK execution provider requested but not compiled with xnnpack feature"
    );
    assert_eq!(
        UnsupportedProvider::CoreML.message(),
        "CoreML execution provider requested but not compiled with coreml feature"
    );
}

#[test]
fn empty_provider_list_gives_empty_plan() {
    assert!(SessionBuilder::plan(2, &vec![], &ALL).providers.is_empty());
}
