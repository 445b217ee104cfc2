use automata::automata::npda::{Simulator, SimulatorResult, TransitionTable, NPDA};
use automata::automatan::{State, Symbol};
use automata::loader::log::LogLevel;

const BALANCED: &str = "Q = {q0}\nE = {a, b}\nG = {Z, X}\naccept = empty\nq0 = q0\nz0 = Z\nd(q0, a, Z) = (q0, [X Z])\nd(q0, a, X) = (q0, [X X])\nd(q0, b, X) = (q0, ~)\n";

fn table(src: &str) -> TransitionTable {
    match TransitionTable::load_table(src) {
        Ok((table, _)) => table,
        Err(logs) => panic!("{:?}", logs.entries()),
    }
}

fn run(src: &str, input: &str, limit: usize) -> (Vec<SimulatorResult>, Simulator) {
    let mut simulator = Simulator::begin(input, table(src));
    let mut trace = Vec::new();
    for _ in 0..limit {
        let result = simulator.step();
        let done = result != SimulatorResult::Pending;
        trace.push(result);
        if done {
            break;
        }
    }
    (trace, simulator)
}

fn symbols(names: &[&str]) -> Vec<Symbol> {
    names.iter().map(|n| Symbol(n.to_string())).collect()
}

#[test]
fn balanced_input_is_accepted_with_the_initial_stack() {
    let (trace, simulator) = run(BALANCED, "aabb", 100);
    let accepted =
        NPDA { state: State("q0".to_string()), stack: symbols(&["Z"]), position: 4 };
    assert_eq!(
        trace,
        vec![
            SimulatorResult::Pending,
            SimulatorResult::Pending,
            SimulatorResult::Pending,
            SimulatorResult::Pending,
            SimulatorResult::Accept(accepted),
        ]
    );
    assert!(simulator.running().is_empty());
}

#[test]
fn unbalanced_input_is_rejected() {
    let (trace, simulator) = run(BALANCED, "aab", 100);
    assert_eq!(
        trace,
        vec![
            SimulatorResult::Pending,
            SimulatorResult::Pending,
            SimulatorResult::Pending,
            SimulatorResult::Reject,
        ]
    );
    assert!(simulator.running().is_empty());
}

#[test]
fn empty_input_is_accepted_at_once() {
    let (trace, _) = run(BALANCED, "", 100);
    let accepted =
        NPDA { state: State("q0".to_string()), stack: symbols(&["Z"]), position: 0 };
    assert_eq!(trace, vec![SimulatorResult::Accept(accepted)]);
}

#[test]
fn stepping_on_after_the_end_makes_no_progress() {
    for input in ["aabb", "aab", "", "b"] {
        let (_, mut simulator) = run(BALANCED, input, 100);
        assert!(simulator.running().is_empty());
        for _ in 0..3 {
            assert_eq!(simulator.step(), SimulatorResult::Reject);
            assert!(simulator.running().is_empty());
        }
    }
}

#[test]
fn the_first_step_follows_the_initial_path() {
    let mut simulator = Simulator::begin("ab", table(BALANCED));
    assert_eq!(
        simulator.running(),
        &vec![NPDA { state: State("q0".to_string()), stack: symbols(&["Z"]), position: 0 }]
    );
    assert_eq!(simulator.step(), SimulatorResult::Pending);
    assert_eq!(
        simulator.running(),
        &vec![NPDA { state: State("q0".to_string()), stack: symbols(&["Z", "X"]), position: 1 }]
    );
}

const BY_FINAL: &str = "Q = {q0, q1}\nE = {a}\nG = {Z}\naccept = final\nF = {q1}\nz0 = Z\nd(q0, a, Z) = {(q0, Z), (q1, Z)}\nd(q1, ~, Z) = (q1, [Z Z])\n";

#[test]
fn acceptance_by_final_state_looks_at_the_state_only() {
    let (trace, _) = run(BY_FINAL, "a", 100);
    assert_eq!(trace.len(), 2);
    assert_eq!(trace[0], SimulatorResult::Pending);
    assert_eq!(
        trace[1],
        SimulatorResult::Accept(NPDA {
            state: State("q1".to_string()),
            stack: symbols(&["Z"]),
            position: 1
        })
    );
    let (trace, _) = run(BY_FINAL, "", 100);
    assert_eq!(trace, vec![SimulatorResult::Reject]);
}

#[test]
fn epsilon_moves_and_branches_are_followed_side_by_side() {
    let mut simulator = Simulator::begin("aa", table(BY_FINAL));
    assert_eq!(simulator.step(), SimulatorResult::Pending);
    let states: Vec<_> = simulator.running().iter().map(|c| c.state.0.as_str()).collect();
    assert_eq!(states, vec!["q0", "q1"]);
    assert_eq!(simulator.step(), SimulatorResult::Pending);
    let paths: Vec<_> = simulator
        .running()
        .iter()
        .map(|c| (c.state.0.as_str(), c.stack.len(), c.position))
        .collect();
    assert_eq!(paths, vec![("q0", 1, 2), ("q1", 1, 2), ("q1", 2, 1)]);
}

#[test]
fn a_table_is_not_loaded_from_a_text_with_errors() {
    let Err(logs) = TransitionTable::load_table("Q = {q0}\n") else { panic!() };
    assert!(logs.contains_errors());
    assert!(logs.entries().iter().any(|e| e.level == LogLevel::Error));
    let Err(logs) = TransitionTable::load_table("Q = {q0\n") else { panic!() };
    let messages: Vec<_> = logs.entries().iter().map(|e| e.message.as_str()).collect();
    assert_eq!(messages, vec!["unexpected eol expected list close ( '}' )"]);
}

#[test]
fn a_path_with_an_empty_stack_dies() {
    let src = "Q = {q0}\nE = {a}\nG = {Z}\naccept = final\nF = {q0}\nz0 = Z\nd(q0, a, Z) = (q0, ~)\n";
    let (trace, _) = run(src, "aa", 100);
    assert_eq!(trace, vec![SimulatorResult::Pending, SimulatorResult::Reject]);
}

#[test]
fn a_run_stops_at_the_outcome_or_at_the_limit() {
    let mut simulator = Simulator::begin("aabb", table(BALANCED));
    assert_eq!(simulator.run(3), None);
    assert_eq!(simulator.running().len(), 1);
    assert_eq!(simulator.running()[0].position, 3);
    let accepted =
        NPDA { state: State("q0".to_string()), stack: symbols(&["Z"]), position: 4 };
    assert_eq!(simulator.run(5), Some(SimulatorResult::Accept(accepted)));
    assert_eq!(simulator.run(0), None);
    assert_eq!(simulator.run(1), Some(SimulatorResult::Reject));
    let mut simulator = Simulator::begin("aab", table(BALANCED));
    assert_eq!(simulator.run(100), Some(SimulatorResult::Reject));
}

#[test]
fn a_machine_that_circles_on_epsilon_is_bounded_by_the_caller() {
    let src = "Q = {q0}\nE = {a}\nG = {Z}\naccept = final\nF = {q0}\nz0 = Z\nd(q0, ~, Z) = (q0, Z)\n";
    let mut simulator = Simulator::begin("a", table(src));
    assert_eq!(simulator.run(50), None);
    assert_eq!(simulator.running().len(), 1);
}

#[test]
fn positions_count_bytes() {
    let src = "Q = {q0}\nE = {δ, a}\nG = {Z}\naccept = final\nF = {q0}\nz0 = Z\nd(q0, δ, Z) = (q0, Z)\nd(q0, a, Z) = (q0, Z)\n";
    let mut simulator = Simulator::begin("δaδ", table(src));
    assert_eq!(simulator.step(), SimulatorResult::Pending);
    assert_eq!(simulator.running()[0].position, 2);
    assert_eq!(simulator.step(), SimulatorResult::Pending);
    assert_eq!(simulator.running()[0].position, 3);
    assert_eq!(simulator.step(), SimulatorResult::Pending);
    assert_eq!(simulator.running()[0].position, 5);
    assert_eq!(
        simulator.step(),
        SimulatorResult::Accept(NPDA {
            state: State("q0".to_string()),
            stack: symbols(&["Z"]),
            position: 5
        })
    );
}
