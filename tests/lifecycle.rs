use std::cell::{Cell, RefCell};
use std::rc::Rc;

use micromouse_wasm::lifecycle::{
    next_action, next_phase, Action, BatchEnd, Phase, PhaseAlgorithm, Physics, RunStatus, Simulator, StepError,
};
use micromouse_wasm::maze::shape_maze_string;
use micromouse_wasm::resources::{Claim, ResourceSet, Slot};

type Handles = ResourceSet<u8, u8, u8, u8, u8>;

struct Config {
    /// Ticks each phase needs, in phase order.
    work: [u32; 5],
    /// The phase that ticked last.
    ticked: Rc<Cell<Option<Phase>>>,
    /// Phases in the order they were started.
    started: Rc<RefCell<Vec<Phase>>>,
    /// A phase whose algorithm fails when it runs.
    failing: Option<Phase>,
    /// A phase whose algorithm fails when it ticks.
    failing_tick: Option<Phase>,
}

#[derive(Clone, Copy, Debug, PartialEq)]
struct State {
    x: i32,
    y: i32,
    ticks: u32,
}

fn index(p: Phase) -> usize {
    match p {
        Phase::Search => 0,
        Phase::ReturnSetup => 1,
        Phase::Return => 2,
        Phase::RunSetup => 3,
        Phase::Run => 4,
    }
}

fn is_setup(p: Phase) -> bool {
    p == Phase::ReturnSetup || p == Phase::RunSetup
}

struct Alg {
    phase: Phase,
    needed: u32,
    done: Cell<u32>,
    state: State,
    ticked: Rc<Cell<Option<Phase>>>,
    failing: bool,
    failing_tick: bool,
}

impl PhaseAlgorithm<Handles> for Alg {
    type Config = Config;
    type State = State;
    type Error = String;

    fn claim(phase: Phase) -> Claim {
        let all = !is_setup(phase);
        Claim {
            left_encoder: all,
            right_encoder: all,
            imu: all,
            left_motor: all,
            right_motor: all,
            distance_sensors: all,
            wall_manager: true,
        }
    }

    fn start(phase: Phase, config: &Config, state: &State) -> Self {
        config.started.borrow_mut().push(phase);
        Alg {
            phase,
            needed: config.work[index(phase)],
            done: Cell::new(0),
            state: *state,
            ticked: config.ticked.clone(),
            failing: config.failing == Some(phase),
            failing_tick: config.failing_tick == Some(phase),
        }
    }

    fn run(&self, resources: &Handles) -> RunStatus<String> {
        assert!(resources.get_wall_manager().is_some());
        if self.failing {
            RunStatus::Failed(format!("{:?} failed", self.phase))
        } else if self.done.get() >= self.needed {
            RunStatus::Completed
        } else {
            RunStatus::Incomplete
        }
    }

    fn tick(&self, resources: &Handles) -> Result<(), String> {
        if is_setup(self.phase) {
            assert!(resources.get_left_motor().is_none() && resources.get_imu().is_none());
            assert!(resources.get_distance_sensor(0).is_none());
        } else {
            assert_eq!(resources.get_left_motor(), Some(&4));
            assert_eq!(resources.get_imu(), Some(&3));
            assert_eq!(resources.get_distance_sensor(2), Some(&8));
        }
        if self.failing_tick {
            return Err(format!("{:?} tick failed", self.phase));
        }
        self.done.set(self.done.get() + 1);
        self.ticked.set(Some(self.phase));
        Ok(())
    }

    fn finish(self) -> State {
        State { ticks: self.state.ticks + self.done.get(), ..self.state }
    }
}

#[derive(Debug, PartialEq)]
struct Observation {
    time: u32,
    x: i32,
    y: i32,
    phase: Option<Phase>,
}

struct World {
    time: u32,
    x: i32,
    y: i32,
    ticked: Rc<Cell<Option<Phase>>>,
}

impl Physics for World {
    type Observation = Observation;

    fn step(&mut self) {
        self.time += 1;
    }

    fn observe(&self) -> Observation {
        Observation { time: self.time, x: self.x, y: self.y, phase: self.ticked.get() }
    }
}

fn full_set() -> Handles {
    ResourceSet::new()
        .left_encoder(1)
        .right_encoder(2)
        .imu(3)
        .left_motor(4)
        .right_motor(5)
        .distance_sensors(vec![6, 7, 8])
        .wall_manager(9)
}

fn mission(work: [u32; 5], failing: Option<Phase>) -> (Simulator<Alg, World, u8, u8, u8, u8, u8>, Rc<RefCell<Vec<Phase>>>) {
    let ticked = Rc::new(Cell::new(None));
    let started = Rc::new(RefCell::new(Vec::new()));
    let config = Config {
        work,
        ticked: ticked.clone(),
        started: started.clone(),
        failing,
        failing_tick: None,
    };
    let state = State { x: 90, y: 90, ticks: 0 };
    let maze = shape_maze_string("").unwrap();
    assert_eq!(maze.lines().count(), 65);
    let world = World { time: 0, x: state.x, y: state.y, ticked };
    let sim = Simulator::new(config, &state, full_set(), world).ok().unwrap();
    (sim, started)
}

#[test]
fn next_phase_follows_the_linear_order() {
    assert_eq!(next_phase(Phase::Search), Some(Phase::ReturnSetup));
    assert_eq!(next_phase(Phase::ReturnSetup), Some(Phase::Return));
    assert_eq!(next_phase(Phase::Return), Some(Phase::RunSetup));
    assert_eq!(next_phase(Phase::RunSetup), Some(Phase::Run));
    assert_eq!(next_phase(Phase::Run), None);
}

#[test]
fn incomplete_resources_are_refused() {
    let ticked = Rc::new(Cell::new(None));
    let config = Config {
        work: [1; 5],
        ticked: ticked.clone(),
        started: Rc::new(RefCell::new(Vec::new())),
        failing: None,
        failing_tick: None,
    };
    let world = World { time: 0, x: 0, y: 0, ticked };
    let state = State { x: 0, y: 0, ticks: 0 };
    let set = ResourceSet::new().left_encoder(1).right_encoder(2).imu(3);
    let r: Result<Simulator<Alg, World, u8, u8, u8, u8, u8>, Slot> =
        Simulator::new(config, &state, set, world);
    assert_eq!(r.err(), Some(Slot::LeftMotor));
}

#[test]
fn phases_are_visited_once_each_in_order() {
    let (mut sim, started) = mission([3, 1, 2, 1, 2], None);
    assert_eq!(sim.phase(), Some(Phase::Search));
    let (obs, end) = sim.simulate_to_end(1000);
    assert_eq!(end, BatchEnd::Finished);
    assert_eq!(
        *started.borrow(),
        vec![Phase::Search, Phase::ReturnSetup, Phase::Return, Phase::RunSetup, Phase::Run]
    );
    assert_eq!(obs.len(), 9);
    assert_eq!(sim.phase(), None);
}

#[test]
fn ticking_after_finished_reports_finished() {
    let (mut sim, _) = mission([1, 1, 1, 1, 1], None);
    let (obs, end) = sim.simulate_to_end(100);
    assert_eq!(end, BatchEnd::Finished);
    assert_eq!(obs.len(), 5);
    for _ in 0..3 {
        assert_eq!(sim.simulate_one_step().err(), Some(StepError::Finished));
    }
    let (obs, end) = sim.simulate_to_end(10);
    assert!(obs.is_empty());
    assert_eq!(end, BatchEnd::Finished);
}

#[test]
fn batch_on_empty_maze_terminates_from_start_pose() {
    let (mut sim, _) = mission([40, 1, 30, 1, 20], None);
    let (obs, end) = sim.simulate_to_end(32 * 32 * 16);
    assert_eq!(end, BatchEnd::Finished);
    assert_eq!(obs.len(), 92);
    assert_eq!(obs[0], Observation { time: 1, x: 90, y: 90, phase: Some(Phase::Search) });
    assert_eq!(obs[91].time, 92);
}

#[test]
fn transition_reports_the_new_phase() {
    let (mut sim, _) = mission([2, 3, 1, 1, 1], None);
    let first = sim.simulate_one_step().unwrap();
    assert_eq!(first.phase, Some(Phase::Search));
    let second = sim.simulate_one_step().unwrap();
    assert_eq!(second.phase, Some(Phase::Search));
    assert_eq!(sim.phase(), Some(Phase::Search));
    let third = sim.simulate_one_step().unwrap();
    assert_eq!(third.phase, Some(Phase::ReturnSetup));
    assert_eq!(sim.phase(), Some(Phase::ReturnSetup));
}

#[test]
fn phases_without_work_pass_within_one_tick() {
    let (mut sim, started) = mission([1, 0, 0, 0, 1], None);
    sim.simulate_one_step().unwrap();
    let o = sim.simulate_one_step().unwrap();
    assert_eq!(o.phase, Some(Phase::Run));
    assert_eq!(started.borrow().len(), 5);
}

#[test]
fn algorithm_failure_is_passed_on() {
    let (mut sim, _) = mission([1, 1, 1, 1, 1], Some(Phase::Return));
    sim.simulate_one_step().unwrap();
    sim.simulate_one_step().unwrap();
    assert_eq!(
        sim.simulate_one_step().err(),
        Some(StepError::Failed("Return failed".to_string()))
    );
    assert_eq!(sim.phase(), Some(Phase::Return));
}

#[test]
fn tick_limit_stops_a_batch() {
    let (mut sim, _) = mission([10, 1, 1, 1, 1], None);
    let (obs, end) = sim.simulate_to_end(4);
    assert_eq!(end, BatchEnd::TickLimit);
    assert_eq!(obs.len(), 4);
    assert_eq!(sim.phase(), Some(Phase::Search));
}

#[test]
fn next_action_follows_the_run_report() {
    assert_eq!(next_action::<u8>(RunStatus::Completed), Action::HandOver);
    assert_eq!(next_action::<u8>(RunStatus::Incomplete), Action::Tick);
    assert_eq!(next_action::<u8>(RunStatus::Failed(7)), Action::Stop(7));
}

#[test]
fn tick_failure_is_passed_on() {
    let ticked = Rc::new(Cell::new(None));
    let config = Config {
        work: [1; 5],
        ticked: ticked.clone(),
        started: Rc::new(RefCell::new(Vec::new())),
        failing: None,
        failing_tick: Some(Phase::ReturnSetup),
    };
    let world = World { time: 0, x: 0, y: 0, ticked };
    let state = State { x: 0, y: 0, ticks: 0 };
    let mut sim: Simulator<Alg, World, u8, u8, u8, u8, u8> =
        Simulator::new(config, &state, full_set(), world).ok().unwrap();
    assert_eq!(sim.simulate_one_step().unwrap().time, 1);
    assert_eq!(
        sim.simulate_one_step().err(),
        Some(StepError::Failed("ReturnSetup tick failed".to_string()))
    );
    assert_eq!(sim.phase(), Some(Phase::ReturnSetup));
    let (obs, end) = sim.simulate_to_end(5);
    assert!(obs.is_empty());
    assert_eq!(end, BatchEnd::Failed("ReturnSetup tick failed".to_string()));
}
