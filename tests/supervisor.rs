use wager_rounds::outcome::Outcome;
use wager_rounds::supervisor::{Action, Event, Phase, Supervisor};

#[test]
fn interactions_spawn_handlers_while_accepting() {
    let mut s = Supervisor::new();
    assert!(s.accepts_interactions());
    assert_eq!(s.on_event(Event::Interaction), Action::SpawnHandler);
    assert_eq!(s.on_event(Event::Interaction), Action::SpawnHandler);
    assert_eq!(s.phase(), Phase::Accepting);
}

#[test]
fn stopped_supervisor_ignores_interactions_and_waits() {
    let mut s = Supervisor::new();
    assert_eq!(s.on_event(Event::Stop), Action::CloseEntry);
    for _ in 0..5 {
        assert_eq!(s.on_event(Event::Interaction), Action::Ignore);
    }
    assert_eq!(s.phase(), Phase::Stopped);
    assert!(!s.is_finished());
    assert_eq!(s.on_event(Event::Stop), Action::Ignore);
    assert_eq!(
        s.on_event(Event::End(Outcome::Side(1))),
        Action::Settle { outcome: Outcome::Side(1), abort_handlers: false }
    );
    assert_eq!(s.on_event(Event::Settled), Action::TearDown);
    assert!(s.is_finished());
}

#[test]
fn end_first_aborts_handlers() {
    let mut s = Supervisor::new();
    assert_eq!(s.on_event(Event::Interaction), Action::SpawnHandler);
    assert_eq!(
        s.on_event(Event::End(Outcome::Side(0))),
        Action::Settle { outcome: Outcome::Side(0), abort_handlers: true }
    );
    assert_eq!(s.phase(), Phase::Settling(Outcome::Side(0)));
    assert_eq!(s.on_event(Event::End(Outcome::Draw)), Action::Ignore);
    assert_eq!(s.on_event(Event::Interaction), Action::Ignore);
    assert_eq!(s.on_event(Event::Settled), Action::TearDown);
    assert_eq!(s.on_event(Event::Settled), Action::Ignore);
}

#[test]
fn lost_end_signal_cancels() {
    let mut s = Supervisor::new();
    assert_eq!(s.on_event(Event::IntakeClosed), Action::CloseEntry);
    assert_eq!(
        s.on_event(Event::EndLost),
        Action::Settle { outcome: Outcome::Cancelled, abort_handlers: false }
    );
    let mut t = Supervisor::new();
    assert_eq!(
        t.on_event(Event::EndLost),
        Action::Settle { outcome: Outcome::Cancelled, abort_handlers: true }
    );
}
