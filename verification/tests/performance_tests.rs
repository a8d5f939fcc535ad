use octaindex3d::hilbert::hilbert3d_encode;
use octaindex3d::ids::Route64;
use octaindex3d::morton;
use octaindex3d::neighbors::neighbors_route64;
use octaindex3d::performance::arch_optimized::{batch_morton_decode_bmi2, batch_morton_encode_bmi2, batch_with_prefetch, likely, unlikely, ArchInfo};
use octaindex3d::performance::avx512::Avx512Info;
use octaindex3d::performance::batch::{BatchIndexBuilder, BatchNeighborCalculator, BatchResult};
use octaindex3d::performance::fast_neighbors::{
    batch_neighbors_auto, batch_neighbors_fast, batch_neighbors_medium, batch_neighbors_small, neighbors_route64_fast,
    NeighborStream,
};
use octaindex3d::performance::hilbert_batch::{batch_hilbert_decode, batch_hilbert_encode};
use octaindex3d::performance::memory::{AlignedBatchProcessor, AlignedVec, MemoryAccessAnalyzer, NumaInfo, SequentialPrefetcher};
use octaindex3d::performance::morton_batch::{batch_morton_decode, batch_morton_encode};
use octaindex3d::performance::simd::{batch_index64_new, batch_neighbors, batch_neighbors_grouped, simd_name_for};
use octaindex3d::performance::Backend;

#[test]
fn test_batch_index_builder() {
    let builder = BatchIndexBuilder::new();
    let frame_ids = vec![0, 0, 0];
    let dimension_ids = vec![0, 0, 0];
    let lods = vec![5, 5, 5];
    let x_coords = vec![100, 200, 300];
    let y_coords = vec![150, 250, 350];
    let z_coords = vec![200, 300, 400];
    let result = builder.build(&frame_ids, &dimension_ids, &lods, &x_coords, &y_coords, &z_coords);
    assert_eq!(result.len(), 3);
    assert!(!result.has_errors());
}

#[test]
fn batch_index_builder_reports_rejected_positions() {
    let builder = BatchIndexBuilder::new().with_simd(true);
    let result = builder.build(&[0, 0, 0], &[0, 7, 0], &[5, 5, 20], &[1, 2, 3], &[1, 2, 3], &[1, 2, 3]);
    assert_eq!(result.len(), 1);
    assert!(result.has_errors());
    assert_eq!(result.errors.len(), 2);
    assert_eq!(result.errors[0].0, 1);
    assert!(matches!(result.errors[0].1, octaindex3d::error::Error::InvalidScaleTier(_)));
    assert_eq!(result.errors[1].0, 2);
    assert!(matches!(result.errors[1].1, octaindex3d::error::Error::InvalidLOD(_)));
    let empty: BatchResult<u8> = BatchResult::new(Vec::new());
    assert!(empty.is_empty());
}

#[test]
fn test_batch_neighbor_calculator() {
    let calc = BatchNeighborCalculator::new();
    let routes = vec![Route64::new(0, 0, 0, 0).unwrap(), Route64::new(0, 100, 100, 100).unwrap()];
    let neighbors = calc.calculate(&routes);
    assert_eq!(neighbors.len(), 28);
    let grouped = calc.calculate_grouped(&routes);
    assert_eq!(grouped.len(), 2);
    assert_eq!(grouped[0].len(), 14);
    assert_eq!(grouped[1].len(), 14);
}

#[test]
fn test_fast_neighbors() {
    let route = Route64::new(0, 0, 0, 0).unwrap();
    let neighbors = neighbors_route64_fast(route);
    assert_eq!(neighbors.len(), 14);
    for neighbor in &neighbors {
        assert!(neighbor.x() >= -2 && neighbor.x() <= 2);
        assert!(neighbor.y() >= -2 && neighbor.y() <= 2);
        assert!(neighbor.z() >= -2 && neighbor.z() <= 2);
    }
}

#[test]
fn fast_neighbors_match_checked_inside_range() {
    let route = Route64::new(1, 10, -20, 30).unwrap();
    let fast = neighbors_route64_fast(route);
    let checked = neighbors_route64(route);
    assert_eq!(fast.to_vec(), checked);
}

#[test]
fn test_batch_neighbors_fast() {
    let routes: Vec<Route64> = (0..10).map(|i| {
        let coord = i * 2;
        Route64::new(0, coord, coord, coord).unwrap()
    }).collect();
    let neighbors = batch_neighbors_fast(&routes);
    assert_eq!(neighbors.len(), 140);
}

#[test]
fn test_batch_neighbors_small() {
    let routes = [Route64::new(0, 0, 0, 0).unwrap(), Route64::new(0, 2, 2, 2).unwrap(), Route64::new(0, 4, 4, 4).unwrap()];
    let neighbors = batch_neighbors_small(&routes);
    assert_eq!(neighbors.len(), 42);
}

#[test]
fn test_batch_neighbors_medium() {
    let routes: Vec<Route64> = (0..500).map(|i| {
        let coord = i * 2;
        Route64::new(0, coord, coord, coord).unwrap()
    }).collect();
    let neighbors = batch_neighbors_medium(&routes);
    assert_eq!(neighbors.len(), 7000);
}

#[test]
fn test_batch_neighbors_auto() {
    let small: Vec<Route64> = (0..50).map(|i| Route64::new(0, i * 2, i * 2, i * 2).unwrap()).collect();
    let result = batch_neighbors_auto(&small);
    assert_eq!(result.len(), 700);
    let medium: Vec<Route64> = (0..500).map(|i| Route64::new(0, i * 2, i * 2, i * 2).unwrap()).collect();
    let result = batch_neighbors_auto(&medium);
    assert_eq!(result.len(), 7000);
}

#[test]
fn test_neighbor_stream() {
    let routes: Vec<Route64> = (0..1000).map(|i| Route64::new(0, i * 2, i * 2, i * 2).unwrap()).collect();
    let mut stream = NeighborStream::new(&routes).with_chunk_size(100);
    let mut total_neighbors = 0;
    while let Some(chunk_neighbors) = stream.next_chunk() {
        total_neighbors += chunk_neighbors.len();
    }
    assert_eq!(total_neighbors, 14000);
}

#[test]
fn test_batch_morton_encode() {
    let coords = vec![(0, 0, 0), (1, 1, 1), (2, 2, 2), (255, 255, 255), (1000, 2000, 3000)];
    let results = batch_morton_encode(&coords);
    assert_eq!(results.len(), 5);
    for (i, &(x, y, z)) in coords.iter().enumerate() {
        assert_eq!(results[i], morton::morton_encode(x, y, z));
    }
}

#[test]
fn test_batch_morton_decode() {
    let codes = vec![
        morton::morton_encode(0, 0, 0),
        morton::morton_encode(1, 1, 1),
        morton::morton_encode(2, 2, 2),
        morton::morton_encode(255, 255, 255),
        morton::morton_encode(1000, 2000, 3000),
    ];
    let results = batch_morton_decode(&codes);
    assert_eq!(results.len(), 5);
    assert_eq!(results[0], (0, 0, 0));
    assert_eq!(results[1], (1, 1, 1));
    assert_eq!(results[2], (2, 2, 2));
    assert_eq!(results[3], (255, 255, 255));
    assert_eq!(results[4], (1000, 2000, 3000));
}

#[test]
fn test_batch_morton_roundtrip() {
    let coords: Vec<(u16, u16, u16)> = (0..100).map(|i| ((i * 123) as u16, (i * 456) as u16, (i * 789) as u16)).collect();
    let encoded = batch_morton_encode(&coords);
    let decoded = batch_morton_decode(&encoded);
    assert_eq!(coords, decoded);
}

#[test]
fn test_batch_morton_large() {
    let coords: Vec<(u16, u16, u16)> =
        (0..1000).map(|i| ((i % 65536) as u16, ((i * 2) % 65536) as u16, ((i * 3) % 65536) as u16)).collect();
    let encoded = batch_morton_encode(&coords);
    assert_eq!(encoded.len(), 1000);
    let decoded = batch_morton_decode(&encoded);
    assert_eq!(coords, decoded);
}

#[test]
fn test_batch_hilbert_encode() {
    let coords = vec![(0, 0, 0), (1, 1, 1), (2, 2, 2), (255, 255, 255), (1000, 2000, 3000)];
    let results = batch_hilbert_encode(&coords);
    assert_eq!(results.len(), 5);
    for (i, &(x, y, z)) in coords.iter().enumerate() {
        assert_eq!(results[i], hilbert3d_encode(x, y, z));
    }
}

#[test]
fn test_batch_hilbert_decode() {
    let codes = vec![
        hilbert3d_encode(0, 0, 0),
        hilbert3d_encode(1, 1, 1),
        hilbert3d_encode(2, 2, 2),
        hilbert3d_encode(255, 255, 255),
        hilbert3d_encode(1000, 2000, 3000),
    ];
    let results = batch_hilbert_decode(&codes);
    assert_eq!(results.len(), 5);
    assert_eq!(results[0], (0, 0, 0));
    assert_eq!(results[1], (1, 1, 1));
    assert_eq!(results[2], (2, 2, 2));
    assert_eq!(results[3], (255, 255, 255));
    assert_eq!(results[4], (1000, 2000, 3000));
}

#[test]
fn test_batch_hilbert_roundtrip() {
    let coords: Vec<(u16, u16, u16)> = (0..100).map(|i| ((i * 123) as u16, (i * 456) as u16, (i * 789) as u16)).collect();
    let encoded = batch_hilbert_encode(&coords);
    let decoded = batch_hilbert_decode(&encoded);
    assert_eq!(coords, decoded);
}

#[test]
fn test_batch_hilbert_large() {
    let coords: Vec<(u16, u16, u16)> =
        (0..1000).map(|i| ((i % 65536) as u16, ((i * 2) % 65536) as u16, ((i * 3) % 65536) as u16)).collect();
    let encoded = batch_hilbert_encode(&coords);
    assert_eq!(encoded.len(), 1000);
    let decoded = batch_hilbert_decode(&encoded);
    assert_eq!(coords, decoded);
}

#[test]
fn test_hilbert_locality() {
    let coord1 = (100, 100, 100);
    let coord2 = (101, 100, 100);
    let coord3 = (1000, 1000, 1000);
    let h1 = hilbert3d_encode(coord1.0, coord1.1, coord1.2);
    let h2 = hilbert3d_encode(coord2.0, coord2.1, coord2.2);
    let h3 = hilbert3d_encode(coord3.0, coord3.1, coord3.2);
    let dist_nearby = if h2 > h1 { h2 - h1 } else { h1 - h2 };
    let dist_far = if h3 > h1 { h3 - h1 } else { h1 - h3 };
    assert!(dist_nearby < dist_far);
}

#[test]
fn test_aligned_vec() {
    let mut vec = AlignedVec::<u64>::with_capacity_cache_aligned(100);
    for i in 0..100 {
        vec.push(i);
    }
    assert_eq!(vec.len(), 100);
    assert_eq!(vec.as_slice()[50], 50);
    assert_eq!(vec.capacity(), 100);
    vec.clear();
    assert!(vec.is_empty());
}

#[test]
fn test_aligned_batch_processor() {
    let processor = AlignedBatchProcessor::new();
    let routes: Vec<Route64> = (0..10).map(|i| Route64::new(0, i * 2, i * 2, i * 2).unwrap()).collect();
    let neighbors = processor.batch_neighbors(&routes);
    assert_eq!(neighbors.len(), 140);
}

#[test]
fn test_numa_detection() {
    let info = NumaInfo::detect();
    assert!(info.node_count > 0);
}

#[test]
fn test_memory_analyzer() {
    let analyzer = MemoryAccessAnalyzer::new();
    let stride = analyzer.optimal_stride::<Route64>();
    assert!(stride > 0);
    assert_eq!(stride, 8);
    assert!(analyzer.is_aligned(128, 64));
    assert!(!analyzer.is_aligned(130, 64));
    assert_eq!(analyzer.cache_line_offset(130), 2);
}

#[test]
fn test_sequential_prefetcher() {
    let data: Vec<u64> = (0..1000).collect();
    let prefetcher = SequentialPrefetcher::new(8);
    for i in 0..data.len() {
        prefetcher.prefetch_ahead(&data, i);
    }
}

#[test]
fn test_backend_selection() {
    let backend = Backend::best_available();
    assert!(backend.is_available());
}

#[test]
fn test_backend_default_is_parallel() {
    assert_eq!(Backend::default(), Backend::CpuParallel);
    assert_eq!(Backend::best_available(), Backend::CpuParallel);
    assert!(Backend::CpuSingleThreaded.is_available());
}

#[test]
fn test_batch_index64_new_simd() {
    let frame_ids = vec![0; 16];
    let dimension_ids = vec![0; 16];
    let lods = vec![5; 16];
    let x_coords: Vec<u16> = (0..16).map(|i| i * 100).collect();
    let y_coords: Vec<u16> = (0..16).map(|i| i * 100 + 50).collect();
    let z_coords: Vec<u16> = (0..16).map(|i| i * 100 + 100).collect();
    let result = batch_index64_new(&frame_ids, &dimension_ids, &lods, &x_coords, &y_coords, &z_coords);
    assert_eq!(result.items.len(), 16);
    assert!(!result.has_errors());
}

#[test]
fn test_batch_neighbors_simd() {
    let routes: Vec<Route64> = vec![
        Route64::new(0, 0, 0, 0).unwrap(),
        Route64::new(0, 100, 100, 100).unwrap(),
        Route64::new(0, 200, 200, 200).unwrap(),
        Route64::new(0, 300, 300, 300).unwrap(),
    ];
    let neighbors = batch_neighbors(&routes);
    assert_eq!(neighbors.len(), 56);
    let grouped = batch_neighbors_grouped(&routes);
    assert_eq!(grouped.len(), 4);
    for group in &grouped {
        assert_eq!(group.len(), 14);
    }
}

#[test]
fn simd_names() {
    assert_eq!(simd_name_for(true, true), "x86 AVX-512");
    assert_eq!(simd_name_for(false, true), "x86 AVX2");
    assert_eq!(simd_name_for(false, false), "none");
}

#[test]
fn test_batch_morton_bmi2() {
    let coords = vec![(0, 0, 0), (100, 200, 300), (1000, 2000, 3000), (65535, 65535, 65535)];
    let codes = batch_morton_encode_bmi2(&coords);
    assert_eq!(codes.len(), 4);
    let decoded = batch_morton_decode_bmi2(&codes);
    assert_eq!(decoded, coords);
}

#[test]
fn test_batch_with_prefetch() {
    let data: Vec<u32> = (0..100).collect();
    let result = batch_with_prefetch(&data, |&x| x * 2);
    assert_eq!(result.len(), 100);
    assert_eq!(result[0], 0);
    assert_eq!(result[50], 100);
}

#[test]
fn branch_hints_and_feature_records() {
    assert!(likely(true));
    assert!(!unlikely(false));
    let info = ArchInfo::x86_64(true, false, true);
    assert_eq!(info.arch, "x86_64");
    assert_eq!(info.cache_line_size, 64);
    assert!(!info.has_neon);
    let a = Avx512Info { has_f: true, has_cd: false, has_dq: false, has_bw: false, has_vl: false, has_vnni: false };
    assert!(a.is_available());
}

#[test]
fn grouped_neighbors_concatenate_to_flat() {
    let calc = BatchNeighborCalculator::new().with_simd(true);
    let routes = vec![
        Route64::new(0, 0, 0, 0).unwrap(),
        Route64::new(0, 524287, 524287, 524287).unwrap(),
        Route64::new(1, -4, 6, 10).unwrap(),
    ];
    let grouped = calc.calculate_grouped(&routes);
    let flat: Vec<Route64> = grouped.concat();
    assert_eq!(flat, calc.calculate(&routes));
    assert_eq!(grouped[1], neighbors_route64(routes[1]));
    assert!(grouped[1].len() < 14);
}

#[test]
fn auto_batch_matches_checked_neighbors_inside_range() {
    let routes: Vec<Route64> = (0..150).map(|i| Route64::new(0, i * 2 - 150, 4, -i * 2).unwrap()).collect();
    let checked = BatchNeighborCalculator::new().calculate(&routes);
    assert_eq!(batch_neighbors_auto(&routes), checked);
    assert_eq!(batch_neighbors_auto(&routes[..20]), BatchNeighborCalculator::new().calculate(&routes[..20]));
    assert_eq!(checked.len(), 14 * 150);
}

#[test]
fn stream_chunks_concatenate_to_whole_batch() {
    let routes: Vec<Route64> = (0..257).map(|i| Route64::new(0, i * 2, 0, 2).unwrap()).collect();
    let mut stream = NeighborStream::new(&routes).with_chunk_size(64);
    let mut joined = Vec::new();
    while let Some(mut chunk) = stream.next_chunk() {
        joined.append(&mut chunk);
    }
    assert_eq!(joined, batch_neighbors_auto(&routes));
}
