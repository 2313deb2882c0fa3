//! The settings a session is built with and the handling of execution providers.
//!
//! Every session of the pool gets the same plan: its intra-op thread count,
//! one inter-op thread, sequential execution, and the configured execution
//! providers applied in order. The CPU provider needs nothing; a custom
//! provider runs its callback; a hardware provider (CUDA, TensorRT, XNNPACK,
//! CoreML) is registered when support for it is compiled in, and otherwise
//! the first such provider ends the plan with an error. A registered
//! provider that the machine cannot use is skipped by ONNX Runtime, which
//! then uses the next available one.
use vstd::prelude::*;

verus! {

/// The execution providers a server can be configured with, by kind.
#[derive(Debug, Clone, Copy, PartialEq, Eq, Structural)]
pub enum ProviderKind {
    /// The default ONNX Runtime CPU provider.
    Cpu,
    /// NVIDIA CUDA on the given device.
    Cuda { device_id: usize },
    /// NVIDIA TensorRT on the given device, optionally in FP16.
    TensorRT { device_id: usize, fp16: bool },
    /// XNNPACK.
    Xnnpack,
    /// Apple CoreML.
    CoreML,
    /// A callback that configures the session builder itself.
    Custom,
}

/// Which hardware execution providers support is compiled in for.
#[derive(Debug, Clone, Copy, PartialEq, Eq, Structural)]
pub struct CompiledProviders {
    pub cuda: bool,
    pub tensorrt: bool,
    pub xnnpack: bool,
    pub coreml: bool,
}

/// A hardware execution provider to register with the session, with its options.
#[derive(Debug, Clone, Copy, PartialEq, Eq, Structural)]
pub enum HardwareProvider {
    /// CUDA on the given device.
    Cuda { device_id: i32 },
    /// TensorRT on the given device, optionally in FP16.
    TensorRT { device_id: i32, fp16: bool },
    /// XNNPACK.
    Xnnpack,
    /// CoreML.
    CoreML,
}

/// An execution provider that cannot be applied.
#[derive(Debug, Clone, Copy, PartialEq, Eq, Structural)]
pub enum UnsupportedProvider {
    Cuda,
    TensorRT,
    Xnnpack,
    CoreML,
    /// The device id does not fit the `i32` that ONNX Runtime takes.
    DeviceOutOfRange,
}

impl UnsupportedProvider {
    pub open spec fn spec_message(&self) -> Seq<char> {
        match self {
            UnsupportedProvider::Cuda => "CUDA execution provider requested but not compiled with cuda feature"@,
            UnsupportedProvider::TensorRT => "TensorRT execution provider requested but not compiled with tensorrt feature"@,
            UnsupportedProvider::Xnnpack => "XNNPACK execution provider requested but not compiled with xnnpack feature"@,
            UnsupportedProvider::CoreML => "CoreML execution provider requested but not compiled with coreml feature"@,
            UnsupportedProvider::DeviceOutOfRange => "GPU device id out of range"@,
        }
    }

    /// The error text of building a session with this provider.
    pub fn message(&self) -> (m: String)
        ensures
            m@ == self.spec_message(),
    {
        match self {
            UnsupportedProvider::Cuda => String::from_str(
                "CUDA execution provider requested but not compiled with cuda feature",
            ),
            UnsupportedProvider::TensorRT => String::from_str(
                "TensorRT execution provider requested but not compiled with tensorrt feature",
            ),
            UnsupportedProvider::Xnnpack => String::from_str(
                "XNNPACK execution provider requested but not compiled with xnnpack feature",
            ),
            UnsupportedProvider::CoreML => String::from_str(
                "CoreML execution provider requested but not compiled with coreml feature",
            ),
            UnsupportedProvider::DeviceOutOfRange => String::from_str("GPU device id out of range"),
        }
    }
}

/// What applying one execution provider to the session builder amounts to.
#[derive(Debug, Clone, Copy, PartialEq, Eq, Structural)]
pub enum ProviderStep {
    /// Leave the builder as it is.
    Keep,
    /// Pass the builder through the provider's callback.
    RunCustom,
    /// Register the hardware provider with the builder.
    Register(HardwareProvider),
    /// Stop building with the provider's error.
    Fail(UnsupportedProvider),
}

/// Whether a device id fits the `i32` ONNX Runtime takes.
pub open spec fn device_fits(device_id: usize) -> bool {
    device_id <= i32::MAX
}

/// The step for one provider, given which hardware providers are compiled in.
pub open spec fn provider_step(kind: ProviderKind, compiled: CompiledProviders) -> ProviderStep {
    match kind {
        ProviderKind::Cpu => ProviderStep::Keep,
        ProviderKind::Cuda { device_id } => if !compiled.cuda {
            ProviderStep::Fail(UnsupportedProvider::Cuda)
        } else if !device_fits(device_id) {
            ProviderStep::Fail(UnsupportedProvider::DeviceOutOfRange)
        } else {
            ProviderStep::Register(HardwareProvider::Cuda { device_id: device_id as i32 })
        },
        ProviderKind::TensorRT { device_id, fp16 } => if !compiled.tensorrt {
            ProviderStep::Fail(UnsupportedProvider::TensorRT)
        } else if !device_fits(device_id) {
            ProviderStep::Fail(UnsupportedProvider::DeviceOutOfRange)
        } else {
            ProviderStep::Register(HardwareProvider::TensorRT { device_id: device_id as i32, fp16 })
        },
        ProviderKind::Xnnpack => if compiled.xnnpack {
            ProviderStep::Register(HardwareProvider::Xnnpack)
        } else {
            ProviderStep::Fail(UnsupportedProvider::Xnnpack)
        },
        ProviderKind::CoreML => if compiled.coreml {
            ProviderStep::Register(HardwareProvider::CoreML)
        } else {
            ProviderStep::Fail(UnsupportedProvider::CoreML)
        },
        ProviderKind::Custom => ProviderStep::RunCustom,
    }
}

/// The steps for `kinds` in order, up to and including the first failing one.
pub open spec fn plan_steps(kinds: Seq<ProviderKind>, compiled: CompiledProviders) -> Seq<ProviderStep>
    decreases kinds.len(),
{
    if kinds.len() == 0 {
        Seq::empty()
    } else {
        let earlier = plan_steps(kinds.drop_last(), compiled);
        if earlier.len() > 0 && earlier.last() is Fail {
            earlier
        } else {
            earlier.push(provider_step(kinds.last(), compiled))
        }
    }
}

/// Settings every session of the pool is built with.
#[derive(Debug, PartialEq, Eq)]
pub struct SessionPlan {
    /// Threads used within one operator.
    pub intra_threads: usize,
    /// Threads used across operators.
    pub inter_threads: usize,
    /// Whether operators may run in parallel.
    pub parallel_execution: bool,
    /// What to do for each configured execution provider, in order.
    pub providers: Vec<ProviderStep>,
}

/// Builds the sessions of the pool.
pub struct SessionBuilder;

impl SessionBuilder {
    /// The step for one execution provider.
    pub fn provider_step(kind: &ProviderKind, compiled: &CompiledProviders) -> (step: ProviderStep)
        ensures
            step == provider_step(*kind, *compiled),
    {
        match kind {
            ProviderKind::Cpu => ProviderStep::Keep,
            ProviderKind::Cuda { device_id } => if !compiled.cuda {
                ProviderStep::Fail(UnsupportedProvider::Cuda)
            } else if *device_id > (i32::MAX as usize) {
                ProviderStep::Fail(UnsupportedProvider::DeviceOutOfRange)
            } else {
                ProviderStep::Register(HardwareProvider::Cuda { device_id: *device_id as i32 })
            },
            ProviderKind::TensorRT { device_id, fp16 } => if !compiled.tensorrt {
                ProviderStep::Fail(UnsupportedProvider::TensorRT)
            } else if *device_id > (i32::MAX as usize) {
                ProviderStep::Fail(UnsupportedProvider::DeviceOutOfRange)
            } else {
                ProviderStep::Register(
                    HardwareProvider::TensorRT { device_id: *device_id as i32, fp16: *fp16 },
                )
            },
            ProviderKind::Xnnpack => if compiled.xnnpack {
                ProviderStep::Register(HardwareProvider::Xnnpack)
            } else {
                ProviderStep::Fail(UnsupportedProvider::Xnnpack)
            },
            ProviderKind::CoreML => if compiled.coreml {
                ProviderStep::Register(HardwareProvider::CoreML)
            } else {
                ProviderStep::Fail(UnsupportedProvider::CoreML)
            },
            ProviderKind::Custom => ProviderStep::RunCustom,
        }
    }

    /// The plan for sessions with `threads_per_session` intra-op threads and
    /// the execution providers `providers`, hardware support being as `compiled` says.
    ///
    /// One inter-op thread, sequential execution; the provider steps follow
    /// the providers in order and end at the first one that cannot be applied.
    pub fn plan(threads_per_session: usize, providers: &Vec<ProviderKind>, compiled: &CompiledProviders) -> (p: SessionPlan)
        ensures
            p.intra_threads == threads_per_session,
            p.inter_threads == 1,
            !p.parallel_execution,
            p.providers@ == plan_steps(providers@, *compiled),
    {
        let mut steps: Vec<ProviderStep> = Vec::new();
        let mut stopped = false;
        let mut i: usize = 0;
        while i < providers.len()
            invariant
                i <= providers@.len(),
                steps@ == plan_steps(providers@.take(i as int), *compiled),
                stopped <==> (steps@.len() > 0 && steps@.last() is Fail),
            decreases providers.len() - i,
        {
            assert(providers@.take(i + 1).drop_last() =~= providers@.take(i as int));
            if !stopped {
                let step = Self::provider_step(&providers[i], compiled);
                steps.push(step);
                if let ProviderStep::Fail(_) = step {
                    stopped = true;
                }
            }
            i = i + 1;
        }
        assert(providers@.take(providers@.len() as int) =~= providers@);
        SessionPlan { intra_threads: threads_per_session, inter_threads: 1, parallel_execution: false, providers: steps }
    }
}

/// A plan fails exactly when some provider cannot be applied, and then at the first such one.
pub proof fn lemma_plan_fails_at_first_unsupported(kinds: Seq<ProviderKind>, compiled: CompiledProviders)
    ensures
        plan_steps(kinds, compiled).len() <= kinds.len(),
        forall|i: int|
            0 <= i < plan_steps(kinds, compiled).len() ==> #[trigger] plan_steps(kinds, compiled)[i]
                == provider_step(kinds[i], compiled),
        forall|i: int|
            0 <= i < plan_steps(kinds, compiled).len() - 1 ==> !(#[trigger] plan_steps(
                kinds,
                compiled,
            )[i] is Fail),
        plan_steps(kinds, compiled).len() < kinds.len() ==> plan_steps(kinds, compiled).len() > 0
            && plan_steps(kinds, compiled).last() is Fail,
    decreases kinds.len(),
{
    if kinds.len() > 0 {
        lemma_plan_fails_at_first_unsupported(kinds.drop_last(), compiled);
    }
}

/// With every hardware provider compiled in and device ids in range, no
/// provider fails: each is kept, run through its callback or registered.
pub proof fn lemma_all_compiled_plan_never_fails(kinds: Seq<ProviderKind>)
    requires
        forall|i: int|
            0 <= i < kinds.len() ==> match #[trigger] kinds[i] {
                ProviderKind::Cuda { device_id } => device_fits(device_id),
                ProviderKind::TensorRT { device_id, .. } => device_fits(device_id),
                _ => true,
            },
    ensures
        plan_steps(kinds, CompiledProviders { cuda: true, tensorrt: true, xnnpack: true, coreml: true }).len()
            == kinds.len(),
        forall|i: int|
            0 <= i < kinds.len() ==> !(#[trigger] plan_steps(
                kinds,
                CompiledProviders { cuda: true, tensorrt: true, xnnpack: true, coreml: true },
            )[i] is Fail),
    decreases kinds.len(),
{
    let all = CompiledProviders { cuda: true, tensorrt: true, xnnpack: true, coreml: true };
    if kinds.len() > 0 {
        assert forall|i: int| 0 <= i < kinds.drop_last().len() implies match #[trigger] kinds.drop_last()[i] {
            ProviderKind::Cuda { device_id } => device_fits(device_id),
            ProviderKind::TensorRT { device_id, .. } => device_fits(device_id),
            _ => true,
        } by {
            assert(kinds.drop_last()[i] == kinds[i]);
        }
        lemma_all_compiled_plan_never_fails(kinds.drop_last());
        let last = kinds[kinds.len() - 1];
        assert(!(provider_step(last, all) is Fail));
    }
}

/// Each hardware provider is judged by its own feature flag alone: it is
/// registered when its support is compiled in (CUDA and TensorRT also need a
/// device id that fits an `i32`, and keep it), and it fails with its own
/// error otherwise, whatever the flags of the other providers.
pub proof fn lemma_provider_judged_by_own_flag(
    compiled: CompiledProviders,
    other: CompiledProviders,
    device_id: usize,
    fp16: bool,
)
    ensures
        compiled.coreml ==> provider_step(ProviderKind::CoreML, compiled) == ProviderStep::Register(
            HardwareProvider::CoreML,
        ),
        !compiled.coreml ==> provider_step(ProviderKind::CoreML, compiled) == ProviderStep::Fail(
            UnsupportedProvider::CoreML,
        ),
        compiled.xnnpack ==> provider_step(ProviderKind::Xnnpack, compiled) == ProviderStep::Register(
            HardwareProvider::Xnnpack,
        ),
        !compiled.xnnpack ==> provider_step(ProviderKind::Xnnpack, compiled) == ProviderStep::Fail(
            UnsupportedProvider::Xnnpack,
        ),
        compiled.cuda && device_id <= i32::MAX ==> provider_step(
            ProviderKind::Cuda { device_id },
            compiled,
        ) == ProviderStep::Register(HardwareProvider::Cuda { device_id: device_id as i32 })
            && device_id as i32 == device_id,
        compiled.cuda && device_id > i32::MAX ==> provider_step(
            ProviderKind::Cuda { device_id },
            compiled,
        ) == ProviderStep::Fail(UnsupportedProvider::DeviceOutOfRange),
        !compiled.cuda ==> provider_step(ProviderKind::Cuda { device_id }, compiled)
            == ProviderStep::Fail(UnsupportedProvider::Cuda),
        compiled.tensorrt && device_id <= i32::MAX ==> provider_step(
            ProviderKind::TensorRT { device_id, fp16 },
            compiled,
        ) == ProviderStep::Register(HardwareProvider::TensorRT { device_id: device_id as i32, fp16 })
            && device_id as i32 == device_id,
        compiled.tensorrt && device_id > i32::MAX ==> provider_step(
            ProviderKind::TensorRT { device_id, fp16 },
            compiled,
        ) == ProviderStep::Fail(UnsupportedProvider::DeviceOutOfRange),
        !compiled.tensorrt ==> provider_step(ProviderKind::TensorRT { device_id, fp16 }, compiled)
            == ProviderStep::Fail(UnsupportedProvider::TensorRT),
        compiled.coreml == other.coreml ==> provider_step(ProviderKind::CoreML, compiled)
            == provider_step(ProviderKind::CoreML, other),
        compiled.xnnpack == other.xnnpack ==> provider_step(ProviderKind::Xnnpack, compiled)
            == provider_step(ProviderKind::Xnnpack, other),
        compiled.cuda == other.cuda ==> provider_step(ProviderKind::Cuda { device_id }, compiled)
            == provider_step(ProviderKind::Cuda { device_id }, other),
        compiled.tensorrt == other.tensorrt ==> provider_step(
            ProviderKind::TensorRT { device_id, fp16 },
            compiled,
        ) == provider_step(ProviderKind::TensorRT { device_id, fp16 }, other),
        provider_step(ProviderKind::Cpu, compiled) == ProviderStep::Keep,
        provider_step(ProviderKind::Custom, compiled) == ProviderStep::RunCustom,
{
    if device_id <= i32::MAX {
        assert(device_id as i32 == device_id);
    }
}

} // verus!
