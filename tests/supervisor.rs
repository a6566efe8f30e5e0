use watchdog_demo::{Action, Event, ShutdownReason, Supervisor, SupervisorState};

#[test]
fn accepted_connection_gets_a_handler() {
    let mut s = Supervisor::new();
    assert!(s.is_running());
    assert_eq!(s.step(Event::Accepted), Action::SpawnHandler);
    assert_eq!(s.state(), SupervisorState::Running);
}

#[test]
fn expiry_stops_the_service() {
    let mut s = Supervisor::new();
    assert_eq!(s.step(Event::Expired), Action::Stop(ShutdownReason::Expired));
    assert_eq!(s.state(), SupervisorState::ShuttingDown(ShutdownReason::Expired));
    assert!(!s.is_running());
}

#[test]
fn accept_failure_stops_the_service_for_good() {
    let mut s = Supervisor::new();
    assert_eq!(s.step(Event::Accepted), Action::SpawnHandler);
    let stop = Action::Stop(ShutdownReason::AcceptFailed);
    assert_eq!(s.step(Event::AcceptFailed), stop);
    assert_eq!(s.step(Event::Accepted), stop);
    assert_eq!(s.step(Event::Expired), stop);
    assert_eq!(
        s.state(),
        SupervisorState::ShuttingDown(ShutdownReason::AcceptFailed)
    );
}

#[test]
fn countdown_failure_stops_the_service() {
    let mut s = Supervisor::new();
    assert_eq!(
        s.step(Event::CountdownFailed),
        Action::Stop(ShutdownReason::CountdownFailed)
    );
    assert_eq!(s.step(Event::Accepted), Action::Stop(ShutdownReason::CountdownFailed));
}
