use wmantle::cache::SpectralCache;
use wmantle::chunk::AudioBuffer;
use wmantle::spectrum::{bin_range, frequency_to_index, transform_size, SpectrumConfig};
use wmantle::store::{BufferManager, DEFAULT_BUFFER_TARGET};

const MILLI: u64 = 1_000_000;
const SECOND: u64 = 1_000_000_000;

fn samples(n: usize) -> Vec<f32> {
    (0..n).map(|i| i as f32).collect()
}

#[test]
fn capacity_cap_drops_extra_chunks() {
    let mut manager: BufferManager<f32, ()> = BufferManager::new(DEFAULT_BUFFER_TARGET);
    for _ in 0..5 {
        manager.fill_buffer(&samples(10), 48_000);
    }
    assert_eq!(manager.chunk_count(), DEFAULT_BUFFER_TARGET);
    manager.fill_buffer(&samples(10), 48_000);
    assert_eq!(manager.chunk_count(), 3);
}

#[test]
fn chunk_without_rate_is_kept_and_gives_nothing() {
    let mut manager: BufferManager<f32, ()> = BufferManager::new(3);
    manager.fill_buffer(&samples(10), 0);
    assert_eq!(manager.chunk_count(), 1);
    let slice = manager.take_next(SECOND);
    assert!(slice.values.is_empty());
    assert_eq!(slice.elapsed, 0);
    assert_eq!(manager.chunk_count(), 1);
}

#[test]
fn capacity_cap_keeps_the_first_chunks_in_order() {
    let mut manager: BufferManager<f32, ()> = BufferManager::new(3);
    for k in 0..5 {
        manager.fill_buffer(&[k as f32, k as f32], 1000);
    }
    assert_eq!(manager.chunk_count(), 3);
    let slice = manager.take_next(SECOND);
    assert_eq!(slice.values, vec![0.0, 0.0, 1.0, 1.0, 2.0, 2.0]);
}

#[test]
fn chunk_boundary_never_reads_past_the_request() {
    let mut manager: BufferManager<f32, ()> = BufferManager::new(3);
    manager.fill_buffer(&[1.0], 7);
    manager.fill_buffer(&[2.0], 7);
    let slice = manager.take_next(285_714_285);
    assert_eq!(slice.values, vec![1.0]);
    assert_eq!(slice.elapsed, 142_857_143);
    assert_eq!(manager.chunk_count(), 1);
}

#[test]
fn exact_slicing_across_two_takes() {
    let mut manager: BufferManager<f32, ()> = BufferManager::new(3);
    manager.fill_buffer(&samples(1000), 1000);
    let first = manager.take_next(500 * MILLI);
    assert_eq!(first.values.len(), 500);
    assert_eq!(first.values, samples(500));
    assert_eq!(first.elapsed, 500 * MILLI);
    assert_eq!(manager.chunk_count(), 1);
    let second = manager.take_next(500 * MILLI);
    assert_eq!(second.values.len(), 500);
    assert_eq!(second.values[0], 500.0);
    assert_eq!(second.values[499], 999.0);
    assert_eq!(manager.chunk_count(), 0);
}

#[test]
fn take_from_empty_store_gives_nothing() {
    let mut manager: BufferManager<f32, ()> = BufferManager::new(3);
    let slice = manager.take_next(16 * MILLI);
    assert!(slice.values.is_empty());
    assert_eq!(slice.elapsed, 0);
    assert_eq!(slice.effective_rate(), 0);
}

#[test]
fn effective_rate_is_time_weighted() {
    let mut manager: BufferManager<f32, ()> = BufferManager::new(3);
    manager.fill_buffer(&samples(100), 100);
    manager.fill_buffer(&samples(200), 200);
    let slice = manager.take_next(2 * SECOND);
    assert_eq!(slice.values.len(), 300);
    assert_eq!(slice.elapsed, 2 * SECOND);
    assert_eq!(slice.effective_rate(), 150);
    assert_eq!(manager.chunk_count(), 0);
}

#[test]
fn take_runs_dry_and_keeps_the_rate_of_what_came() {
    let mut manager: BufferManager<f32, ()> = BufferManager::new(3);
    manager.fill_buffer(&samples(441), 44_100);
    let slice = manager.take_next(SECOND);
    assert_eq!(slice.values.len(), 441);
    assert_eq!(slice.elapsed, 10 * MILLI);
    assert_eq!(slice.effective_rate(), 44_100);
}

#[test]
fn partial_chunk_keeps_its_position() {
    let mut manager: BufferManager<f32, ()> = BufferManager::new(3);
    manager.fill_buffer(&samples(100), 1000);
    manager.fill_buffer(&samples(100), 1000);
    let slice = manager.take_next(150 * MILLI);
    assert_eq!(slice.values.len(), 150);
    assert_eq!(slice.values[100], 0.0);
    assert_eq!(manager.chunk_count(), 1);
    let rest = manager.take_next(SECOND);
    assert_eq!(rest.values, (50..100).map(|i| i as f32).collect::<Vec<_>>());
}

#[test]
fn audio_buffer_read_stops_at_its_end() {
    let mut buffer = AudioBuffer { data: samples(10), position: 4, rate: 1000 };
    let mut out = Vec::new();
    let elapsed = buffer.read(SECOND, &mut out);
    assert_eq!(out, (4..10).map(|i| i as f32).collect::<Vec<_>>());
    assert_eq!(elapsed, 6 * MILLI);
    assert!(buffer.is_drained());
}

#[test]
fn too_few_samples_give_no_frame() {
    let config = SpectrumConfig::default();
    let mut manager: BufferManager<f32, usize> = BufferManager::new(3);
    assert!(manager.frame_for_interval(16 * MILLI, &config, |p| p as usize).is_none());
    manager.fill_buffer(&samples(1), 1000);
    assert!(manager.frame_for_interval(SECOND, &config, |p| p as usize).is_none());
    assert!(!manager.cache_ref().contains(0));
}

#[test]
fn power_of_two_truncation() {
    assert_eq!(transform_size(1000), Some((9, 512)));
    assert_eq!(transform_size(1024), Some((10, 1024)));
    assert_eq!(transform_size(2), Some((1, 2)));
    assert_eq!(transform_size(1), None);
    assert_eq!(transform_size(0), None);
    let mut manager: BufferManager<f32, usize> = BufferManager::new(3);
    manager.fill_buffer(&samples(1000), 1000);
    let frame = manager
        .frame_for_interval(SECOND, &SpectrumConfig::default(), |p| 1usize << p)
        .unwrap();
    assert_eq!(frame.power, 9);
    assert_eq!(frame.values, samples(512));
    assert_eq!(frame.rate, 1000);
    assert_eq!(frame.low, 0);
    assert_eq!(frame.high, 512);
    assert_eq!(manager.cache_ref().get(9), Some(&512));
}

#[test]
fn frequency_ceiling_clipping() {
    assert_eq!(frequency_to_index(1024, 15_000, 44_100), 348);
    let config = SpectrumConfig::default();
    assert_eq!(bin_range(1024, 44_100, &config), Some((0, 348)));
    assert_eq!(bin_range(4, 44_100, &config), None);
    assert_eq!(bin_range(8, 44_100, &config), Some((0, 2)));
}

#[test]
fn frequency_floor_clipping() {
    let config = SpectrumConfig::new(1_000, 15_000);
    assert_eq!(bin_range(1024, 44_100, &config), Some((23, 348)));
    let narrow = SpectrumConfig::new(14_990, 15_000);
    assert_eq!(bin_range(1024, 44_100, &narrow), None);
    assert_eq!(frequency_to_index(1024, 0, 0), 0);
    assert_eq!(frequency_to_index(1024, 100, 0), 1024);
}

#[test]
fn frame_at_cd_rate_is_clipped_at_ceiling() {
    let mut manager: BufferManager<f32, usize> = BufferManager::new(3);
    manager.fill_buffer(&samples(1024), 44_100);
    let frame = manager
        .frame_for_interval(SECOND, &SpectrumConfig::default(), |p| 1usize << p)
        .unwrap();
    assert_eq!(frame.values.len(), 1024);
    assert_eq!(frame.rate, 44_100);
    assert_eq!(frame.high, 348);
}

#[test]
fn cache_builds_each_size_once() {
    let mut cache: SpectralCache<usize> = SpectralCache::new();
    let mut builds = 0;
    assert!(cache.prepare(9, |p| {
        builds += 1;
        1usize << p
    }));
    for _ in 0..3 {
        assert!(!cache.prepare(9, |p| {
            builds += 1;
            1usize << p
        }));
    }
    assert_eq!(builds, 1);
    assert_eq!(cache.get(9), Some(&512));
    assert!(cache.prepare(10, |p| 1usize << p));
    assert_eq!(cache.get(10), Some(&1024));
    assert!(cache.get(8).is_none());
}

#[test]
fn frames_of_one_size_reuse_the_cached_entry() {
    let mut manager: BufferManager<f32, usize> = BufferManager::new(3);
    let mut builds = 0;
    for _ in 0..3 {
        manager.fill_buffer(&samples(600), 1000);
        let frame = manager.frame_for_interval(SECOND, &SpectrumConfig::default(), |p| {
            builds += 1;
            1usize << p
        });
        assert!(frame.is_some());
    }
    assert_eq!(builds, 1);
}

#[test]
fn defaults_match_the_configuration_surface() {
    let manager: BufferManager<f32, ()> = BufferManager::default();
    assert_eq!(manager.chunk_count(), 0);
    let config = SpectrumConfig::default();
    assert_eq!(config.floor_frequency, 0);
    assert_eq!(config.ceiling_frequency, 15_000);
    let mut manager: BufferManager<f32, ()> = BufferManager::default();
    for _ in 0..4 {
        manager.fill_buffer(&samples(4), 8_000);
    }
    assert_eq!(manager.chunk_count(), 3);
}
