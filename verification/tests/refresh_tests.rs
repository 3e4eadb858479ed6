use pulseplot::{
    downsample, RefreshAction, RefreshEvent, RefreshScheduler, RenderCache, Sample, SeriesStore,
};

fn fill(store: &mut SeriesStore, from: u64, count: u64) {
    for i in 0..count {
        store.push(Sample::new(from + i, (from + i) % 100));
    }
}

/// One draw pass: rebuild the geometry (here: the plotted values) only if
/// the cached artifact is stale, then return what the pass observes.
fn draw_pass(
    cache: &mut RenderCache<Vec<u64>>,
    version: u64,
    dataset: &[Sample],
    rebuilds: &mut u32,
) -> Vec<u64> {
    if !cache.is_valid(version) {
        *rebuilds += 1;
        cache.install(version, dataset.iter().map(|s| s.value).collect());
    }
    cache.geometry().unwrap().clone()
}

/// Drives one full refresh cycle to completion and returns the installed
/// dataset.
fn run_cycle(sched: &mut RefreshScheduler, store: &SeriesStore) -> Vec<Sample> {
    let action = sched.on_event(RefreshEvent::Tick);
    let snapshot = match action {
        RefreshAction::TakeSnapshot => store.snapshot(),
        _ => panic!("a tick must ask for a snapshot"),
    };
    let job = match sched.on_event(RefreshEvent::SnapshotReady(snapshot)) {
        RefreshAction::RunDownsample(s) => s,
        _ => panic!("a non-empty snapshot must start a job"),
    };
    let result = downsample(&job, sched.job_target()).unwrap();
    sched.on_event(RefreshEvent::JobDone(result.clone()));
    result
}

#[test]
fn a_completed_cycle_installs_the_downsampled_snapshot() {
    let mut store = SeriesStore::new(0);
    fill(&mut store, 1, 500);
    let mut sched = RefreshScheduler::new(100);
    assert!(sched.active_dataset().is_none());
    let installed = run_cycle(&mut sched, &store);
    assert_eq!(installed.len(), 100);
    assert_eq!(sched.active_dataset(), Some(&installed));
}

#[test]
fn a_failed_job_leaves_the_active_dataset_untouched() {
    let mut store = SeriesStore::new(0);
    fill(&mut store, 1, 50);
    let mut sched = RefreshScheduler::new(10);
    let installed = run_cycle(&mut sched, &store);
    let version = sched.active_version();
    let action = sched.on_event(RefreshEvent::JobFailed);
    assert!(matches!(action, RefreshAction::Idle));
    assert_eq!(sched.active_dataset(), Some(&installed));
    assert_eq!(sched.active_version(), version);
}

#[test]
fn overlapping_ticks_let_the_last_completed_job_win() {
    let mut store = SeriesStore::new(0);
    fill(&mut store, 1, 200);
    let mut sched = RefreshScheduler::new(50);
    let mut cache: RenderCache<Vec<u64>> = RenderCache::new();
    let mut rebuilds: u32 = 0;

    // A first cycle completes and is drawn, so the cache is warm.
    let first = run_cycle(&mut sched, &store);
    draw_pass(&mut cache, sched.active_version(), &first, &mut rebuilds);
    assert_eq!(rebuilds, 1);

    // Two ticks fire before either job completes.
    assert!(matches!(sched.on_event(RefreshEvent::Tick), RefreshAction::TakeSnapshot));
    let snap_a = store.snapshot();
    fill(&mut store, 201, 100);
    assert!(matches!(sched.on_event(RefreshEvent::Tick), RefreshAction::TakeSnapshot));
    let snap_b = store.snapshot();

    let job_a = match sched.on_event(RefreshEvent::SnapshotReady(snap_a)) {
        RefreshAction::RunDownsample(s) => s,
        _ => panic!("a non-empty snapshot must start a job"),
    };
    let job_b = match sched.on_event(RefreshEvent::SnapshotReady(snap_b)) {
        RefreshAction::RunDownsample(s) => s,
        _ => panic!("a non-empty snapshot must start a job"),
    };
    let result_a = downsample(&job_a, sched.job_target()).unwrap();
    let result_b = downsample(&job_b, sched.job_target()).unwrap();

    // They complete in the opposite of submission order: b first, then a.
    sched.on_event(RefreshEvent::JobDone(result_b.clone()));
    sched.on_event(RefreshEvent::JobDone(result_a.clone()));

    // The last completed job won, and its result is one of the two valid
    // candidates.
    let active = sched.active_dataset().unwrap().clone();
    assert_eq!(active, result_a);
    assert!(active == result_a || active == result_b);

    // The next draw passes rebuild exactly once: the cache was invalidated
    // exactly once more than before the two ticks.
    draw_pass(&mut cache, sched.active_version(), &active, &mut rebuilds);
    draw_pass(&mut cache, sched.active_version(), &active, &mut rebuilds);
    assert_eq!(rebuilds, 2);
}

#[test]
fn draws_within_one_interval_observe_identical_geometry() {
    let mut store = SeriesStore::new(0);
    fill(&mut store, 1, 30);
    let mut sched = RefreshScheduler::new(10);
    let installed = run_cycle(&mut sched, &store);
    let mut cache: RenderCache<Vec<u64>> = RenderCache::new();
    let mut rebuilds: u32 = 0;
    let v = sched.active_version();
    let g1 = draw_pass(&mut cache, v, &installed, &mut rebuilds);
    let g2 = draw_pass(&mut cache, v, &installed, &mut rebuilds);
    let g3 = draw_pass(&mut cache, v, &installed, &mut rebuilds);
    assert_eq!(rebuilds, 1);
    assert_eq!(g1, g2);
    assert_eq!(g2, g3);
}

#[test]
fn an_empty_snapshot_ends_the_cycle_idle() {
    let mut sched = RefreshScheduler::new(10);
    let action = sched.on_event(RefreshEvent::SnapshotReady(Vec::new()));
    assert!(matches!(action, RefreshAction::Idle));
    assert!(sched.active_dataset().is_none());
}
