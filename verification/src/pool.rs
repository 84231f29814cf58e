//! Sizing of the worker pool, and the accelerator availability probe. The
//! kernel choice is fixed once per run: with the accelerator requested, both
//! of its runtime libraries and a compatible device must be present, and any
//! missing capability aborts the run before any worker or Work Unit is
//! created — there is no silent fallback to the CPU kernel.

use vstd::prelude::*;

use crate::error::{CapabilityError, ProcessingError};

verus! {

/// Largest number of worker contexts when the accelerator is active: each
/// context pays a fixed per-context accelerator-initialization cost that does
/// not amortize past a small number of concurrent contexts.
pub const GPU_POOL_CAP: usize = 10;

/// Relies on libloading's Library::new: returns whether the named dynamic
/// library could be loaded on this machine. The outcome depends on the
/// machine alone, so nothing is promised of it.
#[verifier::external_body]
fn library_loads(lib_name: &str) -> bool {
    libloading::Library::new(lib_name).is_ok()
}

/// Relies on num_cpus::get: the number of usable logical CPUs, which its
/// documentation promises to always be at least 1.
#[verifier::external_body]
fn usable_cpus() -> (r: usize)
    ensures
        1 <= r,
{
    num_cpus::get()
}

/// Decides the pool size from the probe outcomes alone: with the accelerator
/// off, one Work Unit per usable CPU; with it on, a missing runtime library
/// or a missing device is a capability error, and an available accelerator
/// caps the pool at `GPU_POOL_CAP`.
pub fn pool_size_from_probes(
    on_gpu: bool,
    cudart_ok: bool,
    cublas_ok: bool,
    device_ok: bool,
    cpus: usize,
) -> (r: Result<usize, ProcessingError>)
    requires
        cpus >= 1,
    ensures
        !on_gpu ==> r == Ok::<usize, ProcessingError>(cpus),
        on_gpu && !cudart_ok ==> r == Err::<usize, ProcessingError>(
            ProcessingError::Capability(CapabilityError::LibraryMissing),
        ),
        on_gpu && cudart_ok && !cublas_ok ==> r == Err::<usize, ProcessingError>(
            ProcessingError::Capability(CapabilityError::LibraryMissing),
        ),
        on_gpu && cudart_ok && cublas_ok && !device_ok ==> r == Err::<usize, ProcessingError>(
            ProcessingError::Capability(CapabilityError::NoDevice),
        ),
        on_gpu && cudart_ok && cublas_ok && device_ok ==> r == Ok::<usize, ProcessingError>(
            if cpus <= GPU_POOL_CAP {
                cpus
            } else {
                GPU_POOL_CAP
            },
        ),
{
    if !on_gpu {
        return Ok(cpus);
    }
    if !cudart_ok || !cublas_ok {
        return Err(ProcessingError::Capability(CapabilityError::LibraryMissing));
    }
    if !device_ok {
        return Err(ProcessingError::Capability(CapabilityError::NoDevice));
    }
    if cpus <= GPU_POOL_CAP {
        Ok(cpus)
    } else {
        Ok(GPU_POOL_CAP)
    }
}

/// Runs the two-step availability probe and sizes the pool. The runtime
/// libraries are probed here; whether a compatible device is present is the
/// caller's native device query, handed in as `device_ok`. With the
/// accelerator requested and no device, the result is a capability error
/// whatever the library probes found, so no worker is ever spawned for an
/// unusable accelerator.
pub fn pool_size(on_gpu: bool, device_ok: bool) -> (r: Result<usize, ProcessingError>)
    ensures
        !on_gpu ==> (r matches Ok(n) && n >= 1),
        r matches Ok(n) ==> n >= 1 && (on_gpu ==> n <= GPU_POOL_CAP && device_ok),
        r matches Err(e) ==> on_gpu && (e == ProcessingError::Capability(
            CapabilityError::LibraryMissing,
        ) || e == ProcessingError::Capability(CapabilityError::NoDevice)),
        on_gpu && !device_ok ==> r is Err,
{
    let cpus = usable_cpus();
    if !on_gpu {
        return Ok(cpus);
    }
    let cudart_ok = library_loads("libcudart.so");
    let cublas_ok = library_loads("libcublas.so");
    pool_size_from_probes(on_gpu, cudart_ok, cublas_ok, device_ok, cpus)
}

} // verus!
