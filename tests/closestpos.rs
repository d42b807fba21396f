use closestpos::{
    map_end, prepare_points, resolve, unique_datasets, ClosestPosSizeTracker, Coord, Dataset,
    MyExtension, Point, RegisterError, Registry, Request, SharedState, SlotError, WaitDecision, WakeOutcome,
    WorkerState, DATASET_OVERHEAD, NO_ANSWER, SLOTS,
};

fn bits(v: f32) -> i32 {
    v.to_bits() as i32
}

fn coord(x: f32, y: f32, z: f32) -> Coord {
    Coord { x: bits(x), y: bits(y), z: bits(z) }
}

fn value(c: i32) -> f32 {
    f32::from_bits(c as u32)
}

fn row(x: f32, y: f32, z: f32) -> Vec<i32> {
    vec![bits(x), bits(y), bits(z)]
}

/// Brute-force nearest point, first one wins on ties.
fn nearest(ds: &Dataset<()>, at: Coord) -> i32 {
    let (qx, qy, qz) = (value(at.x), value(at.y), value(at.z));
    let mut best = NO_ANSWER;
    let mut best_d = f32::INFINITY;
    for p in ds.points.iter() {
        let dx = value(p.coord.x) - qx;
        let dy = value(p.coord.y) - qy;
        let dz = value(p.coord.z) - qz;
        let d = dx * dx + dy * dy + dz * dz;
        if d < best_d {
            best_d = d;
            best = p.idx;
        }
    }
    best
}

fn build(points: &Vec<Point>) -> ((), usize) {
    ((), points.len() * 16)
}

fn request(x: f32, y: f32, z: f32, dataset: u32) -> Request {
    Request { pos: coord(x, y, z), dataset }
}

fn updates_for(slot: usize, req: Request) -> (Vec<Request>, u64) {
    let mut u = vec![closestpos::empty_request(); SLOTS];
    u[slot] = req;
    (u, 1u64 << slot)
}

/// One worker round: take the pending slots, answer them, publish.
fn drain_cycle(shared: &mut SharedState, work: &mut WorkerState, reg: &Registry<()>) -> WakeOutcome {
    let out = shared.after_wake(work);
    if out == WakeOutcome::Work {
        resolve(work, reg, &nearest);
    }
    assert_eq!(shared.before_wait(work), WaitDecision::Sleep);
    out
}

#[test]
fn end_to_end_duplicate_points() {
    let mut reg: Registry<()> = Registry::new();
    let rows = vec![row(0.0, 0.0, 0.0), row(1.0, 0.0, 0.0), row(1.0, 0.0, 0.0)];
    assert_eq!(reg.register_dataset(7, &rows, 0, 0, 3, &build), Ok(()));
    assert_eq!(reg.datasets[0].points.len(), 2);
    let mut shared = SharedState::new();
    let mut work = WorkerState::new();
    let (u, m) = updates_for(0, request(0.9, 0.0, 0.0, 7));
    shared.submit(&u, m);
    assert_eq!(drain_cycle(&mut shared, &mut work, &reg), WakeOutcome::Work);
    assert_eq!(shared.fetch(1), Ok(1));
}

#[test]
fn query_at_registered_point_returns_its_label() {
    let mut reg: Registry<()> = Registry::new();
    let rows = vec![
        row(5.0, 5.0, 5.0),
        row(-2.0, 3.5, 1.0),
        row(10.0, 0.0, -4.0),
        row(0.25, 0.5, 0.75),
    ];
    assert_eq!(reg.register_dataset(3, &rows, 0, 1, 3, &build), Ok(()));
    let mut shared = SharedState::new();
    let mut work = WorkerState::new();
    let mut u = vec![closestpos::empty_request(); SLOTS];
    u[0] = request(-2.0, 3.5, 1.0, 3);
    u[1] = request(10.0, 0.0, -4.0, 3);
    u[2] = request(0.25, 0.5, 0.75, 3);
    shared.submit(&u, 0b111);
    drain_cycle(&mut shared, &mut work, &reg);
    assert_eq!(shared.fetch(1), Ok(1));
    assert_eq!(shared.fetch(2), Ok(2));
    assert_eq!(shared.fetch(3), Ok(3));
}

#[test]
fn dedup_keeps_first_label_and_counts_distinct() {
    let rows = vec![
        row(1.0, 2.0, 3.0),
        row(4.0, 5.0, 6.0),
        row(1.0, 2.0, 3.0),
        row(4.0, 5.0, 6.0),
        row(7.0, 8.0, 9.0),
    ];
    let pts = prepare_points(&rows, 0, 0, 5).unwrap();
    assert_eq!(pts.len(), 3);
    assert_eq!(pts[0], Point { coord: coord(1.0, 2.0, 3.0), idx: 0 });
    assert_eq!(pts[1], Point { coord: coord(4.0, 5.0, 6.0), idx: 1 });
    assert_eq!(pts[2], Point { coord: coord(7.0, 8.0, 9.0), idx: 4 });
}

#[test]
fn dedup_non_adjacent_duplicates() {
    let rows = vec![row(0.0, 0.0, 0.0), row(1.0, 1.0, 1.0), row(0.0, 0.0, 0.0)];
    let pts = prepare_points(&rows, 0, 0, 3).unwrap();
    assert_eq!(pts.len(), 2);
    assert_eq!(pts[0].idx, 0);
    assert_eq!(pts[1].idx, 1);
}

#[test]
fn coordinate_read_at_offset() {
    let rows = vec![
        vec![99, bits(1.0), bits(2.0), bits(3.0)],
        vec![98, bits(4.0), bits(5.0), bits(6.0)],
    ];
    let pts = prepare_points(&rows, 1, 0, 2).unwrap();
    assert_eq!(pts[0].coord, coord(1.0, 2.0, 3.0));
    assert_eq!(pts[1].coord, coord(4.0, 5.0, 6.0));
}

#[test]
fn fetch_unsubmitted_slot_is_no_answer() {
    let shared = SharedState::new();
    for c in 1..=64 {
        assert_eq!(shared.fetch(c), Ok(-1));
    }
}

#[test]
fn unsubmitted_slot_stays_no_answer_after_rounds() {
    let mut reg: Registry<()> = Registry::new();
    reg.register_dataset(1, &vec![row(0.0, 0.0, 0.0)], 0, 0, 1, &build).unwrap();
    let mut shared = SharedState::new();
    let mut work = WorkerState::new();
    let (u, m) = updates_for(3, request(0.0, 0.0, 0.0, 1));
    shared.submit(&u, m);
    drain_cycle(&mut shared, &mut work, &reg);
    assert_eq!(shared.fetch(4), Ok(0));
    assert_eq!(shared.fetch(5), Ok(-1));
    assert_eq!(shared.fetch(3), Ok(-1));
}

#[test]
fn fetch_out_of_range() {
    let shared = SharedState::new();
    assert_eq!(shared.fetch(0), Err(SlotError::OutOfRange(0)));
    assert_eq!(shared.fetch(65), Err(SlotError::OutOfRange(65)));
    assert_eq!(shared.fetch(-3), Err(SlotError::OutOfRange(-3)));
}

#[test]
fn unknown_dataset_answers_minus_one() {
    let mut reg: Registry<()> = Registry::new();
    reg.register_dataset(1, &vec![row(0.0, 0.0, 0.0)], 0, 0, 1, &build).unwrap();
    let mut shared = SharedState::new();
    let mut work = WorkerState::new();
    let mut u = vec![closestpos::empty_request(); SLOTS];
    u[10] = request(1.0, 1.0, 1.0, 42);
    u[11] = request(2.0, 1.0, 1.0, 42);
    u[12] = request(2.0, 1.0, 1.0, 1);
    shared.submit(&u, (1 << 10) | (1 << 11) | (1 << 12));
    drain_cycle(&mut shared, &mut work, &reg);
    assert_eq!(shared.fetch(11), Ok(-1));
    assert_eq!(shared.fetch(12), Ok(-1));
    assert_eq!(shared.fetch(13), Ok(0));
}

#[test]
fn removed_dataset_answers_minus_one() {
    let mut reg: Registry<()> = Registry::new();
    reg.register_dataset(9, &vec![row(0.0, 0.0, 0.0)], 0, 0, 1, &build).unwrap();
    let mut shared = SharedState::new();
    let mut work = WorkerState::new();
    let (u, m) = updates_for(0, request(0.0, 0.0, 0.0, 9));
    shared.submit(&u, m);
    drain_cycle(&mut shared, &mut work, &reg);
    assert_eq!(shared.fetch(1), Ok(0));
    reg.remove(9);
    shared.submit(&u, m);
    drain_cycle(&mut shared, &mut work, &reg);
    assert_eq!(shared.fetch(1), Ok(-1));
}

#[test]
fn remove_all_twice_leaves_empty() {
    let mut reg: Registry<()> = Registry::new();
    reg.register_dataset(1, &vec![row(0.0, 0.0, 0.0)], 0, 0, 1, &build).unwrap();
    reg.register_dataset(2, &vec![row(1.0, 0.0, 0.0)], 0, 0, 1, &build).unwrap();
    reg.remove_all();
    assert_eq!(reg.len(), 0);
    reg.remove_all();
    assert_eq!(reg.len(), 0);
}

#[test]
fn last_submit_wins() {
    let mut reg: Registry<()> = Registry::new();
    reg.register_dataset(100, &vec![row(0.0, 0.0, 0.0), row(5.0, 0.0, 0.0)], 0, 0, 2, &build).unwrap();
    reg.register_dataset(200, &vec![row(9.0, 9.0, 9.0), row(0.0, 0.0, 0.0), row(5.0, 0.0, 0.0)], 0, 0, 3, &build)
        .unwrap();
    let mut shared = SharedState::new();
    let mut work = WorkerState::new();
    let (ua, m) = updates_for(4, request(4.0, 0.0, 0.0, 100));
    shared.submit(&ua, m);
    let (ub, m) = updates_for(4, request(4.0, 0.0, 0.0, 200));
    shared.submit(&ub, m);
    drain_cycle(&mut shared, &mut work, &reg);
    assert_eq!(shared.fetch(5), Ok(2));
}

#[test]
fn start_equal_to_size_is_refused() {
    let mut reg: Registry<()> = Registry::new();
    let rows = vec![row(0.0, 0.0, 0.0), row(1.0, 0.0, 0.0)];
    assert_eq!(
        reg.register_dataset(1, &rows, 0, 2, 1, &build),
        Err(RegisterError::StartOutOfRange { start: 2, size: 2 })
    );
    assert_eq!(reg.len(), 0);
}

#[test]
fn count_past_end_is_clamped() {
    let mut reg: Registry<()> = Registry::new();
    let rows = vec![row(0.0, 0.0, 0.0), row(1.0, 0.0, 0.0), row(2.0, 0.0, 0.0)];
    assert_eq!(reg.register_dataset(1, &rows, 0, 1, 100, &build), Ok(()));
    let pts = &reg.datasets[0].points;
    assert_eq!(pts.len(), 2);
    assert_eq!(pts[0].idx, 1);
    assert_eq!(pts[1].idx, 2);
}

#[test]
fn each_registration_error() {
    let rows = vec![row(0.0, 0.0, 0.0), vec![1, 2]];
    assert_eq!(prepare_points(&rows, -1, 0, 1), Err(RegisterError::NegativeOffset(-1)));
    assert_eq!(prepare_points(&rows, 0, -1, 1), Err(RegisterError::StartOutOfRange { start: -1, size: 2 }));
    assert_eq!(prepare_points(&vec![], 0, 0, 1), Err(RegisterError::StartOutOfRange { start: 0, size: 0 }));
    assert_eq!(prepare_points(&rows, 0, 0, 0), Err(RegisterError::CountTooSmall(0)));
    assert_eq!(prepare_points(&rows, 0, 0, 2), Err(RegisterError::OffsetPastBlock(0)));
    assert_eq!(prepare_points(&rows, 1, 0, 1), Err(RegisterError::OffsetPastBlock(1)));
    assert!(prepare_points(&rows, 0, 0, 1).is_ok());
}

#[test]
fn duplicate_ids_first_registered_answers() {
    let mut reg: Registry<()> = Registry::new();
    reg.register_dataset(5, &vec![row(0.0, 0.0, 0.0)], 0, 0, 1, &build).unwrap();
    reg.register_dataset(5, &vec![row(9.0, 0.0, 0.0), row(0.0, 0.0, 0.0)], 0, 0, 2, &build).unwrap();
    assert_eq!(reg.len(), 2);
    assert_eq!(reg.find(5), Some(0));
    reg.remove(5);
    assert_eq!(reg.len(), 1);
    assert_eq!(reg.datasets[0].points.len(), 2);
    assert_eq!(reg.find(5), Some(0));
    reg.remove(77);
    assert_eq!(reg.len(), 1);
}

#[test]
fn memory_total_counts_overhead() {
    let mut reg: Registry<()> = Registry::new();
    assert_eq!(reg.total_memory_bytes(), 0);
    reg.register_dataset(1, &vec![row(0.0, 0.0, 0.0), row(1.0, 0.0, 0.0)], 0, 0, 2, &build).unwrap();
    reg.register_dataset(2, &vec![row(0.0, 0.0, 0.0)], 0, 0, 1, &build).unwrap();
    assert_eq!(reg.total_memory_bytes(), 2 * DATASET_OVERHEAD + 32 + 16);
    assert_eq!(DATASET_OVERHEAD, 20);
}

#[test]
fn memory_total_saturates() {
    let mut reg: Registry<()> = Registry::new();
    reg.register(1, vec![], (), usize::MAX - 5);
    assert_eq!(reg.total_memory_bytes(), usize::MAX);
}

#[test]
fn unique_datasets_in_first_slot_order() {
    let mut shared = SharedState::new();
    let mut work = WorkerState::new();
    let mut u = vec![closestpos::empty_request(); SLOTS];
    u[0] = request(0.0, 0.0, 0.0, 8);
    u[1] = request(0.0, 0.0, 0.0, 3);
    u[2] = request(0.0, 0.0, 0.0, 8);
    u[63] = request(0.0, 0.0, 0.0, 4);
    u[5] = request(0.0, 0.0, 0.0, 99);
    shared.submit(&u, 0b111 | (1u64 << 63));
    assert_eq!(shared.after_wake(&mut work), WakeOutcome::Work);
    assert_eq!(unique_datasets(&work), vec![8, 3, 4]);
}

#[test]
fn submit_ors_mask_and_overwrites_only_masked() {
    let mut shared = SharedState::new();
    let (u, m) = updates_for(2, request(1.0, 2.0, 3.0, 6));
    shared.submit(&u, m);
    let (u2, m2) = updates_for(40, request(1.0, 2.0, 3.0, 7));
    shared.submit(&u2, m2);
    assert_eq!(shared.pending, (1 << 2) | (1 << 40));
    assert_eq!(shared.requests[2].dataset, 6);
    assert_eq!(shared.requests[40].dataset, 7);
    assert_eq!(shared.requests[3], closestpos::empty_request());
}

#[test]
fn pending_requests_skip_the_wait() {
    let mut shared = SharedState::new();
    let mut work = WorkerState::new();
    assert_eq!(shared.before_wait(&mut work), WaitDecision::Sleep);
    let (u, m) = updates_for(7, request(0.0, 0.0, 0.0, 1));
    shared.submit(&u, m);
    assert_eq!(shared.before_wait(&mut work), WaitDecision::Drain);
    assert_eq!(shared.after_wake(&mut work), WakeOutcome::Work);
    assert_eq!(work.mask, m);
    assert_eq!(shared.pending, 0);
}

#[test]
fn wake_without_work_is_idle() {
    let mut shared = SharedState::new();
    let mut work = WorkerState::new();
    assert_eq!(shared.after_wake(&mut work), WakeOutcome::Idle);
    assert_eq!(work.mask, 0);
}

#[test]
fn shutdown_stops_worker() {
    let mut shared = SharedState::new();
    let mut work = WorkerState::new();
    let (u, m) = updates_for(1, request(0.0, 0.0, 0.0, 1));
    shared.submit(&u, m);
    shared.request_shutdown();
    assert_eq!(shared.after_wake(&mut work), WakeOutcome::Stop);
    assert_eq!(shared.pending, m);
    assert_eq!(shared.before_wait(&mut work), WaitDecision::Stop);
}

#[test]
fn publish_writes_only_taken_slots() {
    let mut shared = SharedState::new();
    let mut work = WorkerState::new();
    work.answers[0] = 11;
    work.answers[1] = 12;
    work.mask = 0b10;
    shared.publish(&mut work);
    assert_eq!(shared.fetch(1), Ok(-1));
    assert_eq!(shared.fetch(2), Ok(12));
    assert_eq!(work.mask, 0);
}

#[test]
fn session_counters() {
    let mut ext = MyExtension::new();
    ext.on_game_frame();
    ext.on_game_frame();
    assert_eq!(ext.frame_count, 2);
    ext.on_core_map_start(24);
    assert_eq!(ext.frame_count, 0);
    assert_eq!(ext.client_max, 24);
    ext.frame_count = u32::MAX;
    ext.on_game_frame();
    assert_eq!(ext.frame_count, 0);
    ext.on_core_map_end();
    map_end();
    assert_eq!(ext.client_max, 24);
    assert_eq!(ClosestPosSizeTracker::new(), ClosestPosSizeTracker(0));
}
