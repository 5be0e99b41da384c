use rogun_engine::clock::FrameClock;
use rogun_engine::logger::{Logger, Priority};
use rogun_engine::physics::PhysicsSystem;

#[test]
fn priority_labels() {
    assert_eq!(Priority::Info.as_str(), "INFO");
    assert_eq!(Priority::Debug.as_str(), "DEBUG");
    assert_eq!(Priority::Warning.as_str(), "WARNING");
    assert_eq!(Priority::Error.as_str(), "ERROR");
}

#[test]
fn logger_defaults() {
    let l = Logger::new();
    assert_eq!(l.default_tag, "no-tag");
    assert_eq!(l.default_priority, Priority::Debug);
}

#[test]
fn physics_system_builds() {
    let _p = PhysicsSystem::new();
}

#[test]
fn frame_clock_measures_delta() {
    let mut c = FrameClock::new(1_000);
    c.update_delta(17_667_000);
    assert_eq!(c.frame_delta, 17_666_000);
    assert_eq!(c.last_update_nanos, 17_667_000);
    c.update_delta(17_667_000);
    assert_eq!(c.frame_delta, 0);
    c.update_delta(5);
    assert_eq!(c.frame_delta, 0);
    assert_eq!(c.last_update_nanos, 5);
}
