use game_ecs::scheduler::{
    frame_sleep, Game, Scheduler, Step, FRAME_BUDGET_MICROS, MAX_FRAMESKIP, TICKS_PER_SECOND,
};

#[test]
fn a_backlog_of_ten_ticks_runs_five_per_pass() {
    let mut s = Scheduler::new(0, TICKS_PER_SECOND, MAX_FRAMESKIP);
    assert_eq!(s.tick_interval, 33_333);
    let now = 10 * s.tick_interval;
    let mut ticks = 0;
    let mut renders = 0;
    let mut loops = 0;
    while s.step(now, loops) == Step::Tick {
        ticks += 1;
        loops += 1;
    }
    renders += 1;
    assert_eq!(ticks, 5);
    assert_eq!(renders, 1);
    assert_eq!(s.next_tick, 5 * s.tick_interval);
    assert_eq!(s.plan_pass(now), 5);
    assert_eq!(s.next_tick, 10 * s.tick_interval);
    assert_eq!(s.plan_pass(now), 0);
}

#[test]
fn plan_pass_runs_only_due_ticks() {
    let mut s = Scheduler::new(1_000, 25, 5);
    assert_eq!(s.tick_interval, 40_000);
    assert_eq!(s.plan_pass(1_000), 0);
    assert_eq!(s.next_tick, 1_000);
    assert_eq!(s.plan_pass(1_001), 1);
    assert_eq!(s.next_tick, 41_000);
    assert_eq!(s.plan_pass(121_001), 3);
    assert_eq!(s.next_tick, 161_000);
}

#[test]
fn step_stops_at_the_frameskip_ceiling() {
    let mut s = Scheduler::new(0, 30, 2);
    assert_eq!(s.step(1_000_000, 0), Step::Tick);
    assert_eq!(s.step(1_000_000, 1), Step::Tick);
    assert_eq!(s.step(1_000_000, 2), Step::Render);
    assert_eq!(s.next_tick, 66_666);
}

#[test]
fn sleep_fills_the_rest_of_the_frame() {
    assert_eq!(frame_sleep(FRAME_BUDGET_MICROS, 667), 16_000);
    assert_eq!(frame_sleep(100, 100), 0);
    assert_eq!(frame_sleep(100, 250), 0);
}

#[test]
fn game_counts_ticks_and_renders() {
    let mut g = Game::new(7);
    assert!(g.running);
    assert_eq!((g.ticks, g.render_ticks, g.start_system_time, g.time), (0, 0, 7, 7));
    g.count_tick();
    g.count_tick();
    g.count_render(40);
    assert_eq!((g.ticks, g.render_ticks, g.time), (2, 1, 40));
}
