use cross_pattern::color::Rgba;
use cross_pattern::point::ColorPoint;
use cross_pattern::supervisor::{JobEvent, JobState, Supervisor};

fn result_of(job: i64) -> Vec<ColorPoint> {
    vec![ColorPoint::new(job, -job, Rgba::opaque(job as u8, 0, 0))]
}

fn published(supervisor: &Supervisor) -> Option<Vec<ColorPoint>> {
    supervisor.chart().map(|chart| chart.points.clone())
}

#[test]
fn fresh_supervisor_has_nothing() {
    let supervisor = Supervisor::new();
    assert_eq!(supervisor.issued(), 0);
    assert_eq!(supervisor.running(), None);
    assert!(supervisor.chart().is_none());
}

#[test]
fn first_launch_retires_nothing() {
    let mut supervisor = Supervisor::new();
    let launch = supervisor.launch();
    assert_eq!(launch.retire, None);
    assert_eq!(launch.start, 0);
    assert_eq!(supervisor.running(), Some(0));
    assert_eq!(supervisor.issued(), 1);
}

#[test]
fn next_launch_retires_the_job_in_flight() {
    let mut supervisor = Supervisor::new();
    let first = supervisor.launch();
    let second = supervisor.launch();
    assert_eq!(second.retire, Some(first.start));
    assert_eq!(second.start, 1);
    assert_eq!(supervisor.running(), Some(1));
}

#[test]
fn finished_job_publishes() {
    let mut supervisor = Supervisor::new();
    let launch = supervisor.launch();
    assert!(supervisor.complete(launch.start, result_of(7)));
    assert_eq!(published(&supervisor), Some(result_of(7)));
    assert_eq!(supervisor.running(), None);
}

#[test]
fn launch_after_a_finished_job_retires_nothing() {
    let mut supervisor = Supervisor::new();
    let first = supervisor.launch();
    assert!(supervisor.complete(first.start, result_of(1)));
    let second = supervisor.launch();
    assert_eq!(second.retire, None);
    assert_eq!(second.start, 1);
    assert_eq!(published(&supervisor), Some(result_of(1)));
}

#[test]
fn superseded_job_never_publishes() {
    let mut supervisor = Supervisor::new();
    let first = supervisor.launch();
    let second = supervisor.launch();
    assert!(!supervisor.complete(first.start, result_of(1)));
    assert!(supervisor.chart().is_none());
    assert_eq!(supervisor.running(), Some(second.start));
    assert!(supervisor.complete(second.start, result_of(2)));
    assert_eq!(published(&supervisor), Some(result_of(2)));
}

#[test]
fn late_result_of_a_superseded_job_is_dropped() {
    let mut supervisor = Supervisor::new();
    let first = supervisor.launch();
    let second = supervisor.launch();
    assert!(supervisor.complete(second.start, result_of(2)));
    assert!(!supervisor.complete(first.start, result_of(1)));
    assert_eq!(published(&supervisor), Some(result_of(2)));
}

#[test]
fn job_publishes_once() {
    let mut supervisor = Supervisor::new();
    let launch = supervisor.launch();
    assert!(supervisor.complete(launch.start, result_of(1)));
    assert!(!supervisor.complete(launch.start, result_of(9)));
    assert_eq!(published(&supervisor), Some(result_of(1)));
}

#[test]
fn unknown_job_publishes_nothing() {
    let mut supervisor = Supervisor::new();
    assert!(!supervisor.complete(0, result_of(1)));
    assert!(!supervisor.complete(5, result_of(1)));
    assert!(supervisor.chart().is_none());
}

#[test]
fn newer_chart_replaces_the_older() {
    let mut supervisor = Supervisor::new();
    let first = supervisor.launch();
    assert!(supervisor.complete(first.start, result_of(1)));
    let second = supervisor.launch();
    assert_eq!(published(&supervisor), Some(result_of(1)));
    assert!(supervisor.complete(second.start, Vec::new()));
    assert_eq!(published(&supervisor), Some(Vec::new()));
}

#[test]
fn supervisor_keeps_the_state_of_every_job() {
    let mut supervisor = Supervisor::new();
    assert_eq!(supervisor.state(0), None);
    let first = supervisor.launch();
    assert_eq!(supervisor.state(first.start), Some(JobState::Running));
    assert_eq!(supervisor.state(1), None);
    let second = supervisor.launch();
    assert_eq!(supervisor.state(first.start), Some(JobState::Cancelled));
    assert_eq!(supervisor.state(second.start), Some(JobState::Running));
    assert!(!supervisor.complete(first.start, result_of(1)));
    assert_eq!(supervisor.state(first.start), Some(JobState::Cancelled));
    assert!(supervisor.complete(second.start, result_of(2)));
    assert_eq!(supervisor.state(second.start), Some(JobState::Completed));
    let third = supervisor.launch();
    assert_eq!(third.retire, None);
    assert_eq!(supervisor.state(second.start), Some(JobState::Completed));
    assert_eq!(supervisor.state(third.start), Some(JobState::Running));
    assert_eq!(supervisor.issued(), 3);
}

#[test]
fn at_most_one_job_runs() {
    let mut supervisor = Supervisor::new();
    for round in 0..6usize {
        let launch = supervisor.launch();
        if round % 2 == 0 {
            supervisor.complete(launch.start, result_of(round as i64));
        }
        let running: Vec<usize> = (0..supervisor.issued())
            .filter(|job| supervisor.state(*job) == Some(JobState::Running))
            .collect();
        assert_eq!(running, supervisor.running().into_iter().collect::<Vec<usize>>());
        assert!(running.len() <= 1);
    }
}

#[test]
fn job_runs_once_and_ends() {
    assert_eq!(JobState::Created.step(JobEvent::Started), Some(JobState::Running));
    assert_eq!(JobState::Created.step(JobEvent::Superseded), Some(JobState::Cancelled));
    assert_eq!(JobState::Created.step(JobEvent::Finished), None);
    assert_eq!(JobState::Running.step(JobEvent::Finished), Some(JobState::Completed));
    assert_eq!(JobState::Running.step(JobEvent::Superseded), Some(JobState::Cancelled));
    assert_eq!(JobState::Running.step(JobEvent::Started), None);
    for event in [JobEvent::Started, JobEvent::Finished, JobEvent::Superseded] {
        assert_eq!(JobState::Completed.step(event), None);
        assert_eq!(JobState::Cancelled.step(event), None);
    }
}

#[test]
fn ended_states() {
    assert!(!JobState::Created.is_over());
    assert!(!JobState::Running.is_over());
    assert!(JobState::Completed.is_over());
    assert!(JobState::Cancelled.is_over());
}
