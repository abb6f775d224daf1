use tween_engine::{Context, Direction};

#[test]
fn a_new_context_waits_and_runs_forwards() {
    let ctx = Context::default();
    assert!(!ctx.auto_start);
    assert_eq!(ctx.starting_direction, Direction::Forward);
}

#[test]
fn settings_can_be_chained() {
    let mut ctx = Context::default();
    ctx.auto_start().starting_direction(Direction::Backward);
    assert!(ctx.auto_start);
    assert_eq!(ctx.starting_direction, Direction::Backward);
    ctx.starting_direction(Direction::Forward);
    assert!(ctx.auto_start);
    assert_eq!(ctx.starting_direction, Direction::Forward);
}

#[test]
fn auto_start_keeps_the_direction() {
    let mut ctx = Context { auto_start: false, starting_direction: Direction::Backward };
    ctx.auto_start();
    assert!(ctx == Context { auto_start: true, starting_direction: Direction::Backward });
}
