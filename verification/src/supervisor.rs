//! The lifecycle of jobs: at most one in flight, and only the latest one
//! may publish.
//!
//! The supervisor decides; whoever owns the worker threads acts. A launch
//! names the job that has to be cancelled and joined first and the job to
//! start then. When a worker has finished, its result is handed in, and
//! the supervisor publishes it unless the job has been superseded.

use vstd::prelude::*;
use crate::point::ColorPoint;

verus! {

/// Where a job stands.
#[derive(Clone, Copy, Debug, PartialEq, Eq, Structural)]
pub enum JobState {
    /// It owns its copy of the image and a fresh cancellation channel.
    Created,
    /// Its worker samples and reduces.
    Running,
    /// Its worker returned a result that was not cancelled.
    Completed,
    /// It was signalled and joined; its result, if any, was dropped.
    Cancelled,
}

/// What can happen to a job.
#[derive(Clone, Copy, Debug, PartialEq, Eq, Structural)]
pub enum JobEvent {
    /// The worker was started.
    Started,
    /// The worker returned.
    Finished,
    /// The supervisor signalled the job and joined its worker.
    Superseded,
}

/// The state that follows `state` on `event`, if the event is legal there.
/// A job runs once, and ends completed or cancelled.
pub open spec fn next_state(state: JobState, event: JobEvent) -> Option<JobState> {
    match (state, event) {
        (JobState::Created, JobEvent::Started) => Some(JobState::Running),
        (JobState::Created, JobEvent::Superseded) => Some(JobState::Cancelled),
        (JobState::Running, JobEvent::Finished) => Some(JobState::Completed),
        (JobState::Running, JobEvent::Superseded) => Some(JobState::Cancelled),
        _ => None,
    }
}

impl JobState {
    /// The state that follows on `event`, if the event is legal here.
    pub fn step(self, event: JobEvent) -> (next: Option<JobState>)
        ensures
            next == next_state(self, event),
    {
        match (self, event) {
            (JobState::Created, JobEvent::Started) => Some(JobState::Running),
            (JobState::Created, JobEvent::Superseded) => Some(JobState::Cancelled),
            (JobState::Running, JobEvent::Finished) => Some(JobState::Completed),
            (JobState::Running, JobEvent::Superseded) => Some(JobState::Cancelled),
            _ => None,
        }
    }

    /// Whether the job has ended.
    pub fn is_over(self) -> (over: bool)
        ensures
            over == (self == JobState::Completed || self == JobState::Cancelled),
    {
        match self {
            JobState::Completed | JobState::Cancelled => true,
            _ => false,
        }
    }
}

/// The published result of a job.
pub struct ChartData {
    pub points: Vec<ColorPoint>,
}

/// What a supervisor knows.
pub struct Oversight {
    /// The state of every job launched so far. A job is numbered by its
    /// place here.
    pub states: Seq<JobState>,
    /// The job in flight, if there is one.
    pub running: Option<nat>,
    /// The points of the chart that is published, if one is.
    pub chart: Option<Seq<ColorPoint>>,
}

impl Oversight {
    /// The number of jobs launched so far; the next job takes it as its
    /// number.
    pub open spec fn issued(self) -> nat {
        self.states.len()
    }

    /// The job in flight was launched, it is the one job that runs, and
    /// every other job is over.
    pub open spec fn wf(self) -> bool {
        &&& self.running matches Some(job) ==> job < self.states.len()
        &&& forall|job: int|
            0 <= job < self.states.len() ==> if self.running == Some(job as nat) {
                #[trigger] self.states[job] == JobState::Running
            } else {
                self.states[job] == JobState::Completed || self.states[job] == JobState::Cancelled
            }
    }

    /// The states once the job in flight, if any, has been signalled and
    /// joined.
    pub open spec fn retired(self) -> Seq<JobState> {
        match self.running {
            Some(job) => self.states.update(job as int, JobState::Cancelled),
            None => self.states,
        }
    }

    /// After a launch: the job in flight is cancelled, and a new job runs
    /// in its place.
    pub open spec fn launched(self) -> Oversight {
        Oversight {
            states: self.retired().push(JobState::Running),
            running: Some(self.states.len()),
            chart: self.chart,
        }
    }

    /// After `job` has handed in `points`: if the job is the one in
    /// flight, it is completed and they are published; if it is not, they
    /// are dropped.
    pub open spec fn completed(self, job: nat, points: Seq<ColorPoint>) -> Oversight {
        if self.running == Some(job) {
            Oversight {
                states: self.states.update(job as int, JobState::Completed),
                running: None,
                chart: Some(points),
            }
        } else {
            self
        }
    }
}

/// What the owner of the workers has to do for a launch, in this order.
pub struct Launch {
    /// The job to signal and to join before anything else, if one is in
    /// flight.
    pub retire: Option<usize>,
    /// The job to start then.
    pub start: usize,
}

/// The jobs launched so far, each by its state, and the one in flight.
struct Roster {
    states: Vec<JobState>,
    running: Option<usize>,
}

/// Oversees the jobs of one pattern.
pub struct Supervisor {
    roster: Roster,
    chart: Option<ChartData>,
}

impl View for Supervisor {
    type V = Oversight;

    closed spec fn view(&self) -> Oversight {
        Oversight {
            states: self.roster.states@,
            running: match self.roster.running {
                Some(job) => Some(job as nat),
                None => None,
            },
            chart: match self.chart {
                Some(data) => Some(data.points@),
                None => None,
            },
        }
    }
}

impl Supervisor {
    #[verifier::type_invariant]
    spec fn inv(self) -> bool {
        self@.wf()
    }

    /// A supervisor that has launched no job and published no chart.
    pub fn new() -> (supervisor: Supervisor)
        ensures
            supervisor@ == (Oversight { states: Seq::empty(), running: None, chart: None }),
    {
        Supervisor { roster: Roster { states: Vec::new(), running: None }, chart: None }
    }

    /// The number of jobs launched so far.
    pub fn issued(&self) -> (n: usize)
        ensures
            n == self@.issued(),
            self@.wf(),
    {
        proof {
            use_type_invariant(self);
        }
        self.roster.states.len()
    }

    /// The job in flight, if there is one.
    pub fn running(&self) -> (job: Option<usize>)
        ensures
            job matches Some(j) ==> self@.running == Some(j as nat),
            job is None ==> self@.running is None,
    {
        self.roster.running
    }

    /// Where `job` stands, if it was launched.
    pub fn state(&self, job: usize) -> (state: Option<JobState>)
        ensures
            job < self@.issued() ==> state == Some(self@.states[job as int]),
            job >= self@.issued() ==> state is None,
    {
        if job < self.roster.states.len() {
            Some(self.roster.states[job])
        } else {
            None
        }
    }

    /// The chart that is published, if one is.
    pub fn chart(&self) -> (chart: Option<&ChartData>)
        ensures
            chart matches Some(data) ==> self@.chart == Some(data.points@),
            chart is None ==> self@.chart is None,
    {
        self.chart.as_ref()
    }

    /// Launches a job: the one in flight, if any, is to be retired first,
    /// and the new one takes its place.
    pub fn launch(&mut self) -> (launch: Launch)
        ensures
            final(self)@ == old(self)@.launched(),
            launch.start == old(self)@.issued(),
            launch.retire matches Some(job) ==> old(self)@.running == Some(job as nat),
            launch.retire is None ==> old(self)@.running is None,
    {
        proof {
            use_type_invariant(&*self);
        }
        let launch = Launch { retire: self.roster.running, start: self.roster.states.len() };
        let mut states: Vec<JobState> = Vec::new();
        let mut job: usize = 0;
        while job < self.roster.states.len()
            invariant
                job <= self.roster.states.len(),
                self@ == old(self)@,
                self@.wf(),
                states@.len() == job,
                old(self)@.retired().len() == self.roster.states.len(),
                forall|j: int| 0 <= j < job ==> states@[j] == old(self)@.retired()[j],
            decreases self.roster.states.len() - job,
        {
            let retiring = match self.roster.running {
                Some(current) => current == job,
                None => false,
            };
            states.push(
                if retiring {
                    JobState::Cancelled
                } else {
                    self.roster.states[job]
                },
            );
            job += 1;
        }
        states.push(JobState::Running);
        proof {
            assert(states@ =~= old(self)@.launched().states);
            lemma_one_job_in_flight(old(self)@, 0, Seq::empty());
        }
        self.roster = Roster { states, running: Some(launch.start) };
        launch
    }

    /// Takes the result of a worker that has returned. It is published if
    /// `job` is the job in flight, which is then completed; the result of
    /// any other job is dropped. Says whether it was published.
    pub fn complete(&mut self, job: usize, points: Vec<ColorPoint>) -> (published: bool)
        ensures
            final(self)@ == old(self)@.completed(job as nat, points@),
            published == (old(self)@.running == Some(job as nat)),
    {
        proof {
            use_type_invariant(&*self);
        }
        let in_flight = match self.roster.running {
            Some(current) => current == job,
            None => false,
        };
        if in_flight {
            proof {
                lemma_one_job_in_flight(self@, job as nat, points@);
            }
            let mut states: Vec<JobState> = Vec::new();
            let mut k: usize = 0;
            while k < self.roster.states.len()
                invariant
                    k <= self.roster.states.len(),
                    self@ == old(self)@,
                    states@.len() == k,
                    forall|j: int|
                        0 <= j < k ==> states@[j] == if j == job {
                            JobState::Completed
                        } else {
                            self.roster.states@[j]
                        },
                decreases self.roster.states.len() - k,
            {
                states.push(
                    if k == job {
                        JobState::Completed
                    } else {
                        self.roster.states[k]
                    },
                );
                k += 1;
            }
            assert(states@ =~= old(self)@.completed(job as nat, points@).states);
            self.roster = Roster { states, running: None };
            self.chart = Some(ChartData { points });
        }
        in_flight
    }
}

/// After two launches the first job is cancelled and can publish nothing,
/// whenever its worker returns; the chart is that of the second job once
/// that has returned.
pub proof fn lemma_latest_job_publishes(
    before: Oversight,
    first: Seq<ColorPoint>,
    second: Seq<ColorPoint>,
)
    requires
        before.wf(),
    ensures
        ({
            let j1 = before.issued();
            let j2 = before.launched().issued();
            let twice = before.launched().launched();
            &&& j1 != j2
            &&& before.launched().running == Some(j1)
            &&& twice.running == Some(j2)
            &&& twice.states[j1 as int] == JobState::Cancelled
            &&& twice.completed(j1, first) == twice
            &&& twice.completed(j1, first).completed(j2, second).chart == Some(second)
            &&& twice.completed(j2, second).completed(j1, first).chart == Some(second)
        }),
{
    let once = before.launched();
    let twice = once.launched();
    assert(once.states.len() == before.states.len() + 1);
    assert(once.retired().len() == once.states.len());
    assert(twice.states[before.issued() as int] == once.retired()[before.issued() as int]);
}

/// At most one job runs at any time: a launch and a result handed in keep
/// it so. A chart changes only when the job in flight hands in its result.
pub proof fn lemma_one_job_in_flight(state: Oversight, job: nat, points: Seq<ColorPoint>)
    requires
        state.wf(),
    ensures
        state.launched().wf(),
        state.completed(job, points).wf(),
        state.launched().chart == state.chart,
        state.running != Some(job) ==> state.completed(job, points) == state,
        state.running == Some(job) ==> state.completed(job, points).running is None,
{
    let after = state.launched();
    assert forall|j: int| 0 <= j < after.states.len() implies if after.running == Some(j as nat) {
        #[trigger] after.states[j] == JobState::Running
    } else {
        after.states[j] == JobState::Completed || after.states[j] == JobState::Cancelled
    } by {
        if j < state.states.len() {
            assert(state.states[j] == state.states[j]);
        }
    }
    let done = state.completed(job, points);
    assert forall|j: int| 0 <= j < done.states.len() implies if done.running == Some(j as nat) {
        #[trigger] done.states[j] == JobState::Running
    } else {
        done.states[j] == JobState::Completed || done.states[j] == JobState::Cancelled
    } by {
        assert(state.states[j] == state.states[j]);
    }
}

/// Every change that a launch or a result makes to a job is a step of its
/// lifecycle: a job in flight is superseded or finishes, a new job is
/// created and started, and a job that is over stays as it is.
pub proof fn lemma_jobs_follow_lifecycle(state: Oversight, job: nat, points: Seq<ColorPoint>, j: int)
    requires
        state.wf(),
        0 <= j < state.issued(),
    ensures
        state.launched().states[j] == state.states[j] || Some(state.launched().states[j])
            == next_state(state.states[j], JobEvent::Superseded),
        state.completed(job, points).states[j] == state.states[j] || Some(
            state.completed(job, points).states[j],
        ) == next_state(state.states[j], JobEvent::Finished),
        Some(state.launched().states[state.issued() as int]) == next_state(
            JobState::Created,
            JobEvent::Started,
        ),
{
    assert(state.states[j] == state.states[j]);
}

} // verus!
