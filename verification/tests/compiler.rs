use automata::automatan::fa::Fa;
use automata::automatan::pda::Pda;
use automata::automatan::tm::{Direction, Tm};
use automata::automatan::{Options, State};
use automata::loader::log::{LogEntry, LogLevel};
use automata::loader::{parse_all, parse_universal, Context, Machine, Span};

fn compile(src: &str) -> (Option<Machine>, Vec<LogEntry>) {
    let mut ctx = Context::new(src);
    let machine = parse_universal(&mut ctx);
    (machine, ctx.into_logs().into_entries())
}

fn errors(log: &[LogEntry]) -> Vec<&str> {
    log.iter()
        .filter(|e| e.level == LogLevel::Error)
        .map(|e| e.message.as_str())
        .collect()
}

fn warnings(log: &[LogEntry]) -> Vec<&str> {
    log.iter()
        .filter(|e| e.level == LogLevel::Warning)
        .map(|e| e.message.as_str())
        .collect()
}

fn names<T>(table: &[(T, impl Sized)], name: impl Fn(&T) -> &str) -> Vec<String> {
    table.iter().map(|e| name(&e.0).to_string()).collect()
}

const DFA: &str = "type = dfa\nQ = {q0, q1}\nE = {a, b}\nF = {q1}\nq0 = q0\nd(q0, a) = q1\nd(q1, b) = q0\n";

#[test]
fn compiles_a_deterministic_finite_automaton() {
    let (machine, log) = compile(DFA);
    assert_eq!(errors(&log), Vec::<&str>::new(), "{log:?}");
    let Some(Machine::Fa(fa)) = machine else { panic!("no machine: {log:?}") };
    assert_eq!(fa.initial_state, State("q0".to_string()));
    assert_eq!(names(&fa.states, |s| &s.0), vec!["q0", "q1"]);
    assert_eq!(names(&fa.alphabet, |s| &s.0), vec!["a", "b"]);
    assert_eq!(names(&fa.final_states, |s| &s.0), vec!["q1"]);
    assert_eq!(fa.transitions.len(), 2);
    assert_eq!(fa.transitions[0].0.state.0, "q0");
    assert_eq!(fa.transitions[0].0.letter.as_ref().unwrap().0, "a");
    assert_eq!(fa.transitions[0].1.state.0, "q1");
    assert_eq!(fa.transitions[1].0.state.0, "q1");
    assert_eq!(fa.transitions[1].1.state.0, "q0");
    assert!(log.is_empty(), "{log:?}");
}

#[test]
fn compiled_transitions_refer_to_declared_names_only() {
    let (machine, _) = compile(DFA);
    let Some(Machine::Fa(fa)) = machine else { panic!() };
    for (from, to) in &fa.transitions {
        assert!(fa.states.iter().any(|s| s.0 == from.state));
        assert!(fa.states.iter().any(|s| s.0 == to.state));
        if let Some(letter) = &from.letter {
            assert!(fa.alphabet.iter().any(|l| &l.0 == letter));
        }
    }
}

#[test]
fn redefined_state_is_one_error_and_first_definition_stays() {
    let src = "Q = {a, b, a}\n";
    let mut ctx = Context::new(src);
    let items = parse_all(&mut ctx);
    let options = Options { non_deterministic: false, epsilon_moves: false };
    let fa = Fa::compile(&items, &mut ctx, options);
    assert!(fa.is_none());
    let log = ctx.into_logs().into_entries();
    let redefined: Vec<_> = log.iter().filter(|e| e.message == "state redefined").collect();
    assert_eq!(redefined.len(), 1);
    assert_eq!(redefined[0].level, LogLevel::Error);
    assert_eq!(redefined[0].span, Some(Span(11, 12)));
    let note = redefined[0].child.as_ref().unwrap();
    assert_eq!(note.level, LogLevel::Info);
    assert_eq!(note.message, "previously defined here");
    assert_eq!(note.span, Some(Span(5, 6)));
}

#[test]
fn second_target_is_an_error_for_deterministic_machines() {
    let src = "type = dfa\nQ = {q0, q1}\nE = {a}\nF = {q1}\nd(q0, a) = {q0, q1}\n";
    let (machine, log) = compile(src);
    assert!(machine.is_none());
    assert_eq!(
        errors(&log),
        vec!["transition already defined for this starting point (non determinism not permitted)"]
    );
}

#[test]
fn second_target_is_kept_for_non_deterministic_machines() {
    let src = "type = nfa\nQ = {q0, q1}\nE = {a}\nF = {q1}\nd(q0, a) = {q0, q1}\n";
    let (machine, log) = compile(src);
    assert_eq!(errors(&log), Vec::<&str>::new());
    let Some(Machine::Fa(fa)) = machine else { panic!("{log:?}") };
    let targets: Vec<_> = fa.transitions.iter().map(|t| t.1.state.0.as_str()).collect();
    assert_eq!(targets, vec!["q0", "q1"]);
    assert_eq!(warnings(&log), vec!["initial state not defined, defaulting to 'q0'"]);
}

#[test]
fn epsilon_is_refused_without_epsilon_moves() {
    let src = "type = dfa\nQ = {q0, q1}\nE = {a}\nF = {q1}\nd(q0, ~) = q1\n";
    let (machine, log) = compile(src);
    assert!(machine.is_none());
    assert_eq!(errors(&log), vec!["epsilon moves not permitted"]);
}

#[test]
fn epsilon_is_accepted_with_epsilon_moves() {
    for eps in ["~", "epsilon", "ε"] {
        let src = format!("type = nfa\nQ = {{q0, q1}}\nE = {{a}}\nF = {{q1}}\nd(q0, {eps}) = q1\n");
        let (machine, log) = compile(&src);
        let Some(Machine::Fa(fa)) = machine else { panic!("{log:?}") };
        assert_eq!(fa.transitions.len(), 1);
        assert_eq!(fa.transitions[0].0.letter, None);
    }
}

const PDA_HEAD: &str = "type = npda\nQ = {q0}\nE = {a, b}\nG = {Z0, X}\n";

#[test]
fn pushdown_accepting_both_ways_is_an_error() {
    let src = format!("{PDA_HEAD}accept = empty\nF = {{q0}}\nd(q0, a, Z0) = (q0, [X Z0])\n");
    let (machine, log) = compile(&src);
    assert!(machine.is_none());
    assert_eq!(errors(&log), vec!["final states defined alongside accept by empty stack"]);
}

#[test]
fn pushdown_accepting_neither_way_is_an_error() {
    let src = format!("{PDA_HEAD}d(q0, a, Z0) = (q0, [X Z0])\n");
    let (machine, log) = compile(&src);
    assert!(machine.is_none());
    assert_eq!(errors(&log), vec!["accept by never defined"]);
}

#[test]
fn pushdown_by_final_state_wants_final_states() {
    let src = format!("{PDA_HEAD}accept = F\nd(q0, a, Z0) = (q0, [X Z0])\n");
    let (machine, log) = compile(&src);
    assert!(machine.is_none());
    assert_eq!(errors(&log), vec!["final states never defined"]);
}

#[test]
fn compiles_a_pushdown_automaton() {
    let src = format!(
        "{PDA_HEAD}accept = N\nz0 = Z0\nq0 = q0\nd(q0, a, Z0) = (q0, [X Z0])\nd(q0, a, X) = (q0, [X, X])\nd(q0, b, X) = (q0, ~)\n"
    );
    let (machine, log) = compile(&src);
    let Some(Machine::Pda(pda)) = machine else { panic!("{log:?}") };
    assert!(log.is_empty(), "{log:?}");
    assert_eq!(pda.initial_stack.0, "Z0");
    assert_eq!(pda.final_states, None);
    assert_eq!(pda.transitions.len(), 3);
    let pushed: Vec<Vec<&str>> = pda
        .transitions
        .iter()
        .map(|t| t.1.stack.iter().map(|s| s.0.as_str()).collect())
        .collect();
    assert_eq!(pushed, vec![vec!["Z0", "X"], vec!["X", "X"], vec![]]);
    assert_eq!(pda.transitions[0].0.symbol.0, "Z0");
}

#[test]
fn compiles_a_turing_machine() {
    let src = "type = tm\nQ = {q0, halt}\nG = {B, x}\nF = {halt}\nd(q0, B) = (halt, x, R)\nd(q0, x) = (q0, x, left)\nd(halt, x) = (halt, x, ~)\n";
    let (machine, log) = compile(src);
    let Some(Machine::Tm(tm)) = machine else { panic!("{log:?}") };
    assert_eq!(tm.blank_symbol.0, "B");
    assert_eq!(tm.initial_state.0, "q0");
    let ways: Vec<_> = tm.transitions.iter().map(|t| t.1.direction).collect();
    assert_eq!(ways, vec![Direction::Right, Direction::Left, Direction::Stay]);
    assert_eq!(
        warnings(&log),
        vec![
            "initial state not defined, defaulting to 'q0'",
            "blank symbol not defined, defaulting to 'B'"
        ]
    );
}

#[test]
fn turing_machine_refuses_an_unknown_direction() {
    let src = "type = tm\nQ = {q0}\nG = {B}\nF = {q0}\nd(q0, B) = (q0, B, up)\n";
    let (machine, log) = compile(src);
    assert!(machine.is_none());
    assert_eq!(errors(&log), vec!["invalid direction specified 'up'"]);
}

#[test]
fn a_text_without_a_type_is_an_error() {
    let (machine, log) = compile("Q = {q0}\n");
    assert!(machine.is_none());
    assert_eq!(errors(&log), vec!["expected type=<type> as first item"]);
    assert_eq!(log[0].span, Some(Span(0, 8)));
    let (machine, log) = compile("");
    assert!(machine.is_none());
    assert_eq!(errors(&log), vec!["expected type=<type> as first item"]);
    assert_eq!(log[0].span, Some(Span(0, 0)));
    let (machine, log) = compile("type = xyz\n");
    assert!(machine.is_none());
    assert_eq!(
        errors(&log),
        vec!["unknown type, expected 'DFA' | 'NFA' | 'DPDA' | 'NPDA' | 'TM' | 'NTM'"]
    );
}

#[test]
fn every_kind_is_known_in_lower_and_upper_case() {
    for kind in ["dfa", "DFA", "nfa", "NFA", "dpda", "DPDA", "npda", "NPDA", "tm", "TM", "ntm", "NTM"] {
        let (_, log) = compile(&format!("type = {kind}\n"));
        assert!(!errors(&log).iter().any(|e| e.starts_with("unknown type")), "{kind}: {log:?}");
        assert!(errors(&log).contains(&"states never defined"));
    }
}

#[test]
fn missing_sections_are_all_reported() {
    let (machine, log) = compile("type = dfa\n");
    assert!(machine.is_none());
    assert_eq!(
        errors(&log),
        vec![
            "states never defined",
            "alphabet never defined",
            "final states never defined",
            "initial state not defined"
        ]
    );
    assert_eq!(warnings(&log), vec!["no transitions defined"]);
}

#[test]
fn lexical_and_syntactic_errors_do_not_stop_the_compiler() {
    let (machine, log) = compile("type = dfa\nQ = {q0 - }\n");
    assert!(machine.is_none());
    assert_eq!(
        errors(&log),
        vec!["lexer: InvalidChar('-')", "alphabet never defined", "final states never defined"]
    );
    let (machine, log) = compile("type = dfa\nQ = {q0\n");
    assert!(machine.is_none());
    assert_eq!(
        errors(&log),
        vec![
            "unexpected eol expected list close ( '}' )",
            "alphabet never defined",
            "final states never defined"
        ]
    );
}

#[test]
fn without_a_type_nothing_more_is_parsed() {
    let (machine, log) = compile("Q = {a\nF = -\n");
    assert!(machine.is_none());
    assert_eq!(
        errors(&log),
        vec!["unexpected eol expected list close ( '}' )", "expected type=<type> as first item"]
    );
    let (machine, log) = compile("type = pdf\nF = -\n");
    assert!(machine.is_none());
    assert_eq!(
        errors(&log),
        vec!["unknown type, expected 'DFA' | 'NFA' | 'DPDA' | 'NPDA' | 'TM' | 'NTM'"]
    );
}

#[test]
fn a_second_target_cites_the_first_for_every_kind() {
    let sources = [
        "type = dfa\nQ = {q0}\nE = {a}\nF = {q0}\nd(q0, a) = {q0, q0}\n",
        "type = dpda\nQ = {q0}\nE = {a}\nG = {Z0}\naccept = N\nd(q0, a, Z0) = {(q0, Z0), (q0, ~)}\n",
        "type = tm\nQ = {q0}\nG = {B}\nF = {q0}\nd(q0, B) = {(q0, B, L), (q0, B, R)}\n",
    ];
    for src in sources {
        let (machine, log) = compile(src);
        assert!(machine.is_none(), "{src}");
        let found: Vec<_> = log.iter().filter(|e| e.level == LogLevel::Error).collect();
        assert_eq!(found.len(), 1, "{src}: {log:?}");
        assert_eq!(
            found[0].message,
            "transition already defined for this starting point (non determinism not permitted)"
        );
        let note = found[0].child.as_ref().unwrap();
        assert_eq!(note.level, LogLevel::Info);
        assert_eq!(note.message, "previously defined here");
        let first = note.span.unwrap();
        let second = found[0].span.unwrap();
        assert!(first.1 <= second.0, "{src}");
        assert_eq!(&src[first.0..first.0 + 1], if src.contains("dfa") { "q" } else { "(" });
    }
}

#[test]
fn unknown_items_and_functions_are_errors() {
    let src = "type = dfa\nQ = {q0}\nE = {a}\nF = {q0}\nX = {a}\nf(q0, a) = q0\n";
    let (_, log) = compile(src);
    assert_eq!(
        errors(&log),
        vec![
            "unknown item \"X\", expected states, alphabet, final states, initial state",
            "unknown function \"f\", expected transition function ( 'delta' | 'D' | 'd' | 'ẟ' | 'δ' | '𝛅' | '𝛿' | '𝜹' | '𝝳' | '𝞭' )"
        ]
    );
}

#[test]
fn dangling_references_are_errors() {
    let src = "type = dfa\nQ = {q0}\nE = {a}\nF = {q1}\nq0 = q2\nd(q0, b) = q0\nd(q0, a) = q3\nd(q4, a) = q0\n";
    let (machine, log) = compile(src);
    assert!(machine.is_none());
    assert_eq!(
        errors(&log),
        vec![
            "final state not defined in set of states",
            "initial state symbol not defined as a state",
            "transition letter not defined in alphabet",
            "transition state not defined as state",
            "transition state not defined as state",
        ]
    );
}

#[test]
fn letters_hold_one_character() {
    let src = "type = dfa\nQ = {q0}\nE = {ab, δ}\nF = {q0}\n";
    let (_, log) = compile(src);
    assert_eq!(errors(&log), vec!["letter cannot be longer than one char"]);
}

#[test]
fn mixed_commas_are_a_warning_only() {
    let src = "type = dfa\nQ = {q0, q1 q2}\nE = {a}\nF = {q0}\nd(q0, a) = q1\n";
    let (machine, log) = compile(src);
    assert!(machine.is_some());
    assert_eq!(
        warnings(&log),
        vec![
            "inconsistent comma delimiting. use commas to delimit all or no items",
            "initial state not defined, defaulting to 'q0'"
        ]
    );
}

#[test]
fn direct_compilers_agree_with_the_dispatcher() {
    let body = "Q = {q0}\nG = {B}\nF = {q0}\nd(q0, B) = (q0, B, R)\n";
    let mut ctx = Context::new(body);
    let items = parse_all(&mut ctx);
    let tm = Tm::compile(&items, &mut ctx, Options { non_deterministic: false, epsilon_moves: false });
    let (machine, _) = compile(&format!("type = tm\n{body}"));
    let Some(Machine::Tm(other)) = machine else { panic!() };
    let tm = tm.unwrap();
    assert_eq!(tm.states.len(), other.states.len());
    assert_eq!(tm.transitions.len(), other.transitions.len());
    let mut ctx = Context::new("Q = {q0}\n");
    let items = parse_all(&mut ctx);
    assert!(Pda::compile(&items, &mut ctx, Options { non_deterministic: true, epsilon_moves: true }).is_none());
}
