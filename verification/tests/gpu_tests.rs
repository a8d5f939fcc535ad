use octaindex3d::error::Error;
use octaindex3d::ids::Route64;
use octaindex3d::performance::gpu::{
    is_cuda_available, is_metal_available, is_rocm_available, is_vulkan_available, GpuBackend, GpuBatchProcessor,
    MetalBackend, RocmBackend,
};

#[test]
fn test_backend_availability() {
    println!("CUDA available: {}", is_cuda_available());
    println!("ROCm available: {}", is_rocm_available());
    println!("Metal available: {}", is_metal_available());
    println!("Vulkan available: {}", is_vulkan_available());

    let has_gpu = is_cuda_available() || is_rocm_available() || is_metal_available() || is_vulkan_available();
    if !has_gpu {
        println!("Warning: No GPU backend available");
    }
}

#[test]
fn test_rocm_availability() {
    let available = is_rocm_available();
    println!("ROCm available: {}", available);

    if available {
        match RocmBackend::new() {
            Ok(backend) => {
                println!("ROCm device: {}", backend.device_name());
                println!("Compute units: {}", backend.compute_units());
                assert!(backend.is_available());
            }
            Err(e) => {
                println!("Could not create ROCm backend: {:?}", e);
            }
        }
    }
}

#[test]
fn test_rocm_batch_neighbors() {
    if !is_rocm_available() {
        println!("ROCm not available, skipping test");
        return;
    }

    let backend = match RocmBackend::new() {
        Ok(b) => b,
        Err(_) => return,
    };

    let routes: Vec<Route64> = (0..100)
        .map(|i| {
            let coord = i * 2;
            Route64::new(0, coord, coord, coord).unwrap()
        })
        .collect();

    match backend.batch_neighbors(&routes) {
        Ok(neighbors) => {
            assert_eq!(neighbors.len(), 1400);
        }
        Err(e) => {
            println!("ROCm batch neighbors failed: {:?}", e);
        }
    }
}

#[test]
fn no_gpu_backend_can_be_opened_in_this_build() {
    assert!(!is_cuda_available() && !is_metal_available() && !is_vulkan_available() && !is_rocm_available());
    assert!(matches!(RocmBackend::new(), Err(Error::InvalidFormat(_))));
    assert!(matches!(MetalBackend::new(), Err(Error::InvalidFormat(_))));
    assert!(matches!(GpuBatchProcessor::new(), Err(Error::InvalidFormat(_))));
}

#[test]
fn test_gpu_processor_creation() {
    match GpuBatchProcessor::new() {
        Ok(processor) => {
            println!("Using GPU backend: {}", processor.backend_name());
            assert!(processor.backend().is_available());
        }
        Err(e) => {
            println!("Could not create GPU processor: {:?}", e);
        }
    }
}
