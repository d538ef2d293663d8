use fsm_graph::diagram::{fsm_to_graphviz, insert_edge, Builder, EdgeSet, Line};
use fsm_graph::model::{FromState, StateMachineDef, Transition};

const HEAD: &str = "digraph \"graph\" {
  rankdir=\"LR\";
  newrank=true;
  SM_init [label=\"\", shape=point];
";

const LEGEND: &str = "
  subgraph \"cluster_legend\" {
    label=\"Legend\";
    __init [ shape=point ];
    __init -> __init2;
    __init2 [ shape=none label=\"Initial transition\" ];
    __state [ label=\"state\" ];
    __input [ label=\"input\" color=\"#00c000\" shape=cds ];
    __output [ label=\"output\" color=red shape=note ];
  }

";

fn transition(input: &str, to: &str, output: Option<&str>) -> Transition {
    Transition {
        input_value: input.to_string(),
        final_state: to.to_string(),
        output: output.map(|o| o.to_string()),
    }
}

fn from_state(state: &str, transitions: Vec<Transition>) -> FromState {
    FromState { initial_state: state.to_string(), transitions }
}

fn machine(name: &str, initial: &str, transitions: Vec<FromState>) -> StateMachineDef {
    StateMachineDef { name: name.to_string(), initial_state: initial.to_string(), transitions }
}

fn expected(initial: &str, body: &[&str]) -> String {
    let mut text = String::from(HEAD);
    text.push_str(&format!("  SM_init -> \"{}\";\n", initial));
    text.push_str(LEGEND);
    for line in body {
        text.push_str(line);
        text.push('\n');
    }
    text.push_str("}\n");
    text
}

fn edge(from: &str, to: &str, reverse: bool, styles: &str) -> Line {
    Line::Edge { from: from.to_string(), to: to.to_string(), reverse, styles: styles.to_string() }
}

fn circuit_breaker() -> StateMachineDef {
    machine(
        "CircuitBreaker",
        "Closed",
        vec![
            from_state("Closed", vec![transition("Unsuccessful", "Open", Some("SetupTimer"))]),
            from_state("Open", vec![transition("TimerTriggered", "HalfOpen", None)]),
            from_state(
                "HalfOpen",
                vec![
                    transition("Successful", "Closed", None),
                    transition("Unsuccessful", "Open", Some("SetupTimer")),
                ],
            ),
        ],
    )
}

#[test]
fn machine_without_transitions_is_head_and_legend() {
    let (name, dot) = fsm_to_graphviz(machine("Empty", "Start", vec![]));
    assert_eq!(name, "Empty");
    assert_eq!(dot, expected("Start", &[]));
    assert_eq!(
        dot,
        "digraph \"graph\" {\n  rankdir=\"LR\";\n  newrank=true;\n  SM_init [label=\"\", shape=point];\n  SM_init -> \"Start\";\n\n  subgraph \"cluster_legend\" {\n    label=\"Legend\";\n    __init [ shape=point ];\n    __init -> __init2;\n    __init2 [ shape=none label=\"Initial transition\" ];\n    __state [ label=\"state\" ];\n    __input [ label=\"input\" color=\"#00c000\" shape=cds ];\n    __output [ label=\"output\" color=red shape=note ];\n  }\n\n}\n"
    );
}

#[test]
fn single_transition_without_output() {
    let (_, dot) = fsm_to_graphviz(machine(
        "M",
        "A",
        vec![from_state("A", vec![transition("x", "B", None)])],
    ));
    assert_eq!(
        dot,
        expected(
            "A",
            &[
                "  \"A\" -> \"B_x_iv\" [ style=dashed ];",
                "  \"B_x_iv\" [label=\"x\" color=\"#00c000\" shape=cds ];",
                "  \"B_x_iv\" -> \"B\" [ style=dashed color=\"#00c000\" ];",
            ]
        )
    );
}

#[test]
fn single_transition_with_output() {
    let (_, dot) = fsm_to_graphviz(machine(
        "M",
        "A",
        vec![from_state("A", vec![transition("x", "B", Some("Ring"))])],
    ));
    assert_eq!(
        dot,
        expected(
            "A",
            &[
                "  \"A\" -> \"Ring_B_x_iv\" [ style=dashed ];",
                "  \"Ring_B_x_iv\" [label=\"x\" color=\"#00c000\" shape=cds ];",
                "  \"Ring_B_x_iv\" -> \"Ring_B\" [ style=dashed color=\"#00c000\" ];",
                "  \"Ring_B\" [label=\"Ring\" color=red shape=note ];",
                "  \"Ring_B\" -> \"B\" [ style=dashed color=red ];",
            ]
        )
    );
}

#[test]
fn parallel_transitions_merge_into_one_edge_with_both_inputs() {
    let (_, dot) = fsm_to_graphviz(machine(
        "M",
        "A",
        vec![from_state("A", vec![transition("x", "B", None), transition("y", "B", None)])],
    ));
    assert_eq!(
        dot,
        expected(
            "A",
            &[
                "  \"A\" -> \"B_x_y_iv\" [ style=dashed ];",
                "  \"B_x_y_iv\" [label=\"x, y\" color=\"#00c000\" shape=cds ];",
                "  \"B_x_y_iv\" -> \"B\" [ style=dashed color=\"#00c000\" ];",
            ]
        )
    );
}

#[test]
fn long_label_lists_are_wrapped_into_a_grid() {
    let inputs = ["a", "b", "c", "d", "e", "f", "g"];
    let transitions = inputs.iter().map(|i| transition(i, "B", None)).collect();
    let (_, dot) = fsm_to_graphviz(machine("M", "A", vec![from_state("A", transitions)]));
    assert_eq!(
        dot,
        expected(
            "A",
            &[
                "  \"A\" -> \"B_a_b_c_d_e_f_g_iv\" [ style=dashed ];",
                "  \"B_a_b_c_d_e_f_g_iv\" [label=\"a, b\nc, d, e\nf, g\" color=\"#00c000\" shape=cds ];",
                "  \"B_a_b_c_d_e_f_g_iv\" -> \"B\" [ style=dashed color=\"#00c000\" ];",
            ]
        )
    );
}

#[test]
fn self_loop_gets_same_rank_hint_and_is_not_reversed() {
    let (_, dot) = fsm_to_graphviz(machine(
        "M",
        "A",
        vec![from_state("A", vec![transition("x", "A", None), transition("y", "A", Some("Ring"))])],
    ));
    assert_eq!(
        dot,
        expected(
            "A",
            &[
                "  { rank=same; \"A\"; \"A_x_iv\"; }",
                "  \"A\" -> \"A_x_iv\" [ style=dashed ];",
                "  \"A_x_iv\" [label=\"x\" color=\"#00c000\" shape=cds ];",
                "  \"A_x_iv\" -> \"A\" [ style=dashed color=\"#00c000\" ];",
                "  \"A\" -> \"Ring_A_y_iv\" [ style=dotted ];",
                "  { rank=same; \"A\"; \"Ring_A_y_iv\"; }",
                "  \"Ring_A_y_iv\" [label=\"y\" color=\"#00c000\" shape=cds ];",
                "  \"Ring_A_y_iv\" -> \"Ring_A\" [ style=dotted color=\"#00c000\" ];",
                "  \"Ring_A\" [label=\"Ring\" color=red shape=note ];",
                "  \"Ring_A\" -> \"A\" [ style=dotted color=red ];",
            ]
        )
    );
}

#[test]
fn edge_back_to_a_declared_state_is_reversed() {
    let (_, dot) = fsm_to_graphviz(machine(
        "M",
        "A",
        vec![
            from_state("A", vec![transition("go", "B", None)]),
            from_state("B", vec![transition("back", "A", None), transition("on", "C", None)]),
        ],
    ));
    assert_eq!(
        dot,
        expected(
            "A",
            &[
                "  \"A\" -> \"B_go_iv\" [ style=dashed ];",
                "  \"B_go_iv\" [label=\"go\" color=\"#00c000\" shape=cds ];",
                "  \"B_go_iv\" -> \"B\" [ style=dashed color=\"#00c000\" ];",
                "  \"A_back_iv\" -> \"B\" [ arrowhead=none arrowtail=normal dir=both style=dotted ];",
                "  \"A_back_iv\" [label=\"back\" color=\"#00c000\" shape=cds ];",
                "  \"A\" -> \"A_back_iv\" [ arrowhead=none arrowtail=normal dir=both style=dotted color=\"#00c000\" ];",
                "  \"B\" -> \"C_on_iv\" [ style=solid ];",
                "  \"C_on_iv\" [label=\"on\" color=\"#00c000\" shape=cds ];",
                "  \"C_on_iv\" -> \"C\" [ style=solid color=\"#00c000\" ];",
            ]
        )
    );
}

#[test]
fn circuit_breaker_diagram() {
    let (name, dot) = fsm_to_graphviz(circuit_breaker());
    assert_eq!(name, "CircuitBreaker");
    assert_eq!(
        dot,
        expected(
            "Closed",
            &[
                "  \"Closed\" -> \"SetupTimer_Open_Unsuccessful_iv\" [ style=dashed ];",
                "  \"SetupTimer_Open_Unsuccessful_iv\" [label=\"Unsuccessful\" color=\"#00c000\" shape=cds ];",
                "  \"SetupTimer_Open_Unsuccessful_iv\" -> \"SetupTimer_Open\" [ style=dashed color=\"#00c000\" ];",
                "  \"SetupTimer_Open\" [label=\"SetupTimer\" color=red shape=note ];",
                "  \"SetupTimer_Open\" -> \"Open\" [ style=dashed color=red ];",
                "  \"Open\" -> \"HalfOpen_TimerTriggered_iv\" [ style=dotted ];",
                "  \"HalfOpen_TimerTriggered_iv\" [label=\"TimerTriggered\" color=\"#00c000\" shape=cds ];",
                "  \"HalfOpen_TimerTriggered_iv\" -> \"HalfOpen\" [ style=dotted color=\"#00c000\" ];",
                "  \"Closed_Successful_iv\" -> \"HalfOpen\" [ arrowhead=none arrowtail=normal dir=both style=solid ];",
                "  \"Closed_Successful_iv\" [label=\"Successful\" color=\"#00c000\" shape=cds ];",
                "  \"Closed\" -> \"Closed_Successful_iv\" [ arrowhead=none arrowtail=normal dir=both style=solid color=\"#00c000\" ];",
                "  \"SetupTimer_Open_Unsuccessful_iv\" -> \"HalfOpen\" [ arrowhead=none arrowtail=normal dir=both style=bold ];",
                "  \"SetupTimer_Open_Unsuccessful_iv\" [label=\"Unsuccessful\" color=\"#00c000\" shape=cds ];",
                "  \"SetupTimer_Open\" [label=\"SetupTimer\" color=red shape=note ];",
            ]
        )
    );
}

#[test]
fn edge_declared_by_two_states_is_drawn_once() {
    let (_, dot) = fsm_to_graphviz(circuit_breaker());
    let shared = "\"SetupTimer_Open_Unsuccessful_iv\" -> \"SetupTimer_Open\"";
    assert_eq!(dot.matches(shared).count(), 1);
    assert_eq!(dot.matches("\"SetupTimer_Open\" -> \"Open\"").count(), 1);
}

#[test]
fn styles_cycle_through_four_names() {
    let targets = ["B", "C", "D", "E", "F", "G"];
    let transitions = targets.iter().map(|t| transition("x", t, None)).collect();
    let (_, dot) = fsm_to_graphviz(machine("M", "A", vec![from_state("A", transitions)]));
    let styles: Vec<&str> = dot
        .lines()
        .filter(|line| line.starts_with("  \"A\" -> "))
        .map(|line| line.split("[ ").nth(1).unwrap().trim_end_matches(" ];"))
        .collect();
    assert_eq!(
        styles,
        vec![
            "style=dashed",
            "style=dotted",
            "style=solid",
            "style=bold",
            "style=dashed",
            "style=dotted"
        ]
    );
}

#[test]
fn same_model_gives_the_same_text_twice() {
    let first = fsm_to_graphviz(circuit_breaker());
    let second = fsm_to_graphviz(circuit_breaker());
    assert_eq!(first, second);
}

#[test]
fn insert_edge_draws_a_new_edge() {
    let mut lines = Vec::new();
    let mut seen = EdgeSet::new();
    insert_edge(&mut lines, &mut seen, false, "A", "B", "style=solid");
    assert_eq!(lines, vec![edge("A", "B", false, "style=solid")]);
    assert!(seen.contains(&("A".to_string(), "B".to_string())));
    assert_eq!(seen.len(), 1);
}

#[test]
fn insert_edge_drops_a_repeated_edge() {
    let mut lines = Vec::new();
    let mut seen = EdgeSet::new();
    insert_edge(&mut lines, &mut seen, false, "A", "B", "style=solid");
    insert_edge(&mut lines, &mut seen, true, "A", "B", "style=bold");
    assert_eq!(lines, vec![edge("A", "B", false, "style=solid")]);
    assert_eq!(seen.len(), 1);
    insert_edge(&mut lines, &mut seen, true, "B", "A", "style=bold");
    assert_eq!(
        lines,
        vec![edge("A", "B", false, "style=solid"), edge("B", "A", true, "style=bold")]
    );
    assert_eq!(seen.len(), 2);
}

#[test]
fn builder_renders_each_kind_of_line() {
    let mut builder = Builder::new();
    builder.lines.push(edge("A", "B", false, "style=solid"));
    builder.lines.push(edge("A", "B", true, "style=bold color=red"));
    builder.lines.push(Line::SameRank { first: "A".to_string(), second: "n".to_string() });
    builder.lines.push(Line::InputNode { id: "n".to_string(), label: "x, y".to_string() });
    builder.lines.push(Line::OutputNode { id: "o".to_string(), label: "Ring".to_string() });
    assert_eq!(
        builder.finish("A"),
        expected(
            "A",
            &[
                "  \"A\" -> \"B\" [ style=solid ];",
                "  \"B\" -> \"A\" [ arrowhead=none arrowtail=normal dir=both style=bold color=red ];",
                "  { rank=same; \"A\"; \"n\"; }",
                "  \"n\" [label=\"x, y\" color=\"#00c000\" shape=cds ];",
                "  \"o\" [label=\"Ring\" color=red shape=note ];",
            ]
        )
    );
}

#[test]
fn builder_adds_states_one_by_one() {
    let mut builder = Builder::new();
    builder.add_from_state(&from_state("A", vec![transition("go", "B", None)]));
    assert_eq!(builder.declared, vec!["A".to_string()]);
    assert_eq!(builder.style, 1);
    assert_eq!(builder.lines.len(), 3);
    builder.add_group(
        &"B".to_string(),
        &(None, "A".to_string()),
        &vec!["back".to_string(), "home".to_string()],
    );
    assert_eq!(builder.style, 2);
    assert_eq!(builder.lines[3], edge("B", "A_back_home_iv", true, "style=dotted"));
    assert_eq!(
        builder.lines[4],
        Line::InputNode { id: "A_back_home_iv".to_string(), label: "back, home".to_string() }
    );
    assert_eq!(
        builder.lines[5],
        edge("A_back_home_iv", "A", true, "style=dotted color=\"#00c000\"")
    );
}
