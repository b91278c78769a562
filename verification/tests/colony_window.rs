use bacteria::colony::{encounter_pairs, mating_candidates, update_crowding};
use bacteria::draws::{coin_pick, mating_roll, mutation_draw, pick_from_first, random_cell, random_neighbor};
use bacteria::memory::{cell_from_bits, initial_memory, memory_mark};
use bacteria::population::{accept_newborn, FoodCount};
use bacteria::rng::XorShift32;
use bacteria::schedule::{Schedule, WalkerSchedule};
use bacteria::window::{RecentWindow, BACTERIA_WINDOW};

#[test]
fn window_keeps_last_items() {
    let mut w = RecentWindow::new(3);
    for p in [5usize, 6, 7, 8, 6] {
        w.push(p);
    }
    assert_eq!(w.len(), 3);
    assert_eq!((*w.get(0), *w.get(1), *w.get(2)), (7, 8, 6));
    assert_eq!(w.occurrences(6), 1);
    assert_eq!(w.occurrences(5), 0);
    assert_eq!(w.distinct_count(), 3);
}

#[test]
fn window_counts_repeats() {
    let mut w = RecentWindow::new(BACTERIA_WINDOW);
    for i in 0..1000usize {
        w.push(i % 10);
    }
    assert_eq!(w.len(), 500);
    assert_eq!(w.occurrences(3), 50);
    assert_eq!(w.distinct_count(), 10);
    let mut z: RecentWindow<usize> = RecentWindow::new(0);
    z.push(1);
    assert!(z.is_empty());
}

#[test]
fn crowding_counts_and_saturates() {
    let mut crowding = vec![9u8; 1024];
    let mut positions = vec![3usize, 5, 3, 1023];
    positions.extend(std::iter::repeat(7).take(300));
    update_crowding(&mut crowding, &positions);
    assert_eq!(crowding[3], 2);
    assert_eq!(crowding[5], 1);
    assert_eq!(crowding[1023], 1);
    assert_eq!(crowding[7], 255);
    assert_eq!(crowding[0], 0);
}

#[test]
fn mating_pairs_grouped_by_cell() {
    let positions = vec![5usize, 7, 5, 7, 5];
    let cooldowns = vec![0u32, 0, 0, 0, 0];
    let r = mating_candidates(&positions, &cooldowns);
    let cell5 = vec![(0, 2), (0, 4), (2, 4)];
    let cell7 = vec![(1, 3)];
    let grouped_a: Vec<(usize, usize)> = cell5.iter().chain(cell7.iter()).cloned().collect();
    let grouped_b: Vec<(usize, usize)> = cell7.iter().chain(cell5.iter()).cloned().collect();
    assert!(r == grouped_a || r == grouped_b);
    assert_eq!(encounter_pairs(&positions, &cooldowns), vec![(0, 2), (0, 4), (1, 3), (2, 4)]);
}

#[test]
fn cooling_bacteria_do_not_mate() {
    let positions = vec![5usize, 5, 5, 9];
    let cooldowns = vec![0u32, 3, 0, 0];
    assert_eq!(mating_candidates(&positions, &cooldowns), vec![(0, 2)]);
    assert_eq!(encounter_pairs(&positions, &cooldowns), vec![(0, 2)]);
    assert!(mating_candidates(&vec![1, 2, 3], &vec![0, 0, 0]).is_empty());
}

#[test]
fn random_decisions_follow_the_generator() {
    let mut r = XorShift32::new(1);
    assert!(pick_from_first(70, &mut r));
    let mut r = XorShift32::new(1);
    assert!(!pick_from_first(69, &mut r));
    assert_eq!(r.state, 270369);
    let mut r = XorShift32::new(1);
    assert!(!mating_roll(&mut r));
    let mut r = XorShift32::new(1);
    assert_eq!(coin_pick(10, 20, &mut r), 20);
    let mut r = XorShift32::new(1);
    assert_eq!(random_cell(&mut r), 33);
    let mut r = XorShift32::new(1);
    assert_eq!(random_neighbor(33, &mut r), 65);
}

#[test]
fn mutation_draws_second_number_only_when_mutating() {
    let mut r = XorShift32::new(30);
    assert_eq!(mutation_draw(&mut r), Some(2022170717));
    assert_eq!(r.state, 2022170717);
    let mut r = XorShift32::new(1);
    assert_eq!(mutation_draw(&mut r), None);
    assert_eq!(r.state, 270369);
}

#[test]
fn memory_rules() {
    let m = initial_memory(1000);
    assert_eq!(&m[0..3], &[13, 50, 87]);
    assert_eq!(m[999], ((999 * 37 + 13) % 256) as u8);
    assert_eq!(cell_from_bits(&[1, 0, 1, 0, 0, 0, 0, 1], 1000), 133);
    assert_eq!(cell_from_bits(&[1, 1, 1, 1, 1, 1, 1, 1], 100), 55);
    assert_eq!(memory_mark(133, 7), 150);
}

#[test]
fn schedule_snapshots_and_stop() {
    let mut s = Schedule::new();
    let a = s.on_tick(0, true, 600, 10, 0);
    assert!(a.record_history && a.print_map && !a.stop);
    assert_eq!(a.event_snapshot, Some(1));
    assert_eq!(a.timed_snapshot, None);
    assert_eq!(s.snapshots, 1);
    let a = s.on_tick(1, true, 100, 10, 0);
    assert!(!a.record_history && !a.print_map);
    assert_eq!(a.event_snapshot, None);
    let a = s.on_tick(2, false, 0, 10, 60);
    assert_eq!(a.timed_snapshot, Some(2));
    assert_eq!(a.event_snapshot, None);
    assert_eq!(s.snapshots, 2);
    let a = s.on_tick(3, true, 0, 10, 60);
    assert_eq!(a.event_snapshot, Some(3));
    assert_eq!(a.timed_snapshot, Some(4));
    for t in 4..20u32 {
        s.on_tick(t, false, 0, 0, 60);
    }
    assert_eq!(s.snapshots, 10);
    let a = s.on_tick(20, true, 0, 100, 100);
    assert!(a.stop);
    assert_eq!(a.event_snapshot, None);
    assert_eq!(a.timed_snapshot, None);
}

#[test]
fn schedule_stops_after_the_last_tick() {
    let mut s = Schedule::new();
    assert!(!s.on_tick(999_998, false, 0, 0, 0).stop);
    assert!(s.on_tick(999_999, false, 0, 0, 0).stop);
}

#[test]
fn walker_schedule() {
    let mut s = WalkerSchedule::new();
    let a = s.on_tick(0, 0);
    assert!(a.record_history && a.print_map && a.snapshot.is_none());
    let a = s.on_tick(100, 61);
    assert!(a.record_history && !a.print_map);
    assert_eq!(a.snapshot, Some(1));
    for t in 0..20u32 {
        s.on_tick(t * 7 + 1, 60);
    }
    assert_eq!(s.snapshots, 10);
    assert!(s.on_tick(1000, 600).snapshot.is_none());
}

#[test]
fn crowding_adds_up_to_population() {
    let mut crowding = vec![0u8; 1024];
    let positions: Vec<usize> = (0..64usize).map(|i| (i * 37) % 50).collect();
    update_crowding(&mut crowding, &positions);
    let total: usize = crowding.iter().map(|&c| c as usize).sum();
    assert_eq!(total, 64);
}

#[test]
fn newborns_respect_the_cap() {
    let d = accept_newborn(10, 64, None);
    assert!(d.joins && d.remove.is_none());
    let d = accept_newborn(64, 64, Some(7));
    assert_eq!(d.remove, Some(7));
    assert!(d.joins);
    let d = accept_newborn(64, 64, None);
    assert!(d.remove.is_none() && !d.joins);
    let d = accept_newborn(12, 12, Some(0));
    assert_eq!(d.remove, Some(0));
    assert!(d.joins);
}

#[test]
fn food_count_stays_between_one_and_three() {
    let (c, respawn) = FoodCount::after_deaths(0);
    assert!(respawn);
    assert_eq!((c.current, c.born), (1, 0));
    let (mut c, respawn) = FoodCount::after_deaths(2);
    assert!(!respawn);
    assert!(c.try_split());
    assert!(!c.try_split());
    assert_eq!(c.current + c.born, 3);
    let (mut c, _) = FoodCount::after_deaths(3);
    assert!(!c.try_split());
}
