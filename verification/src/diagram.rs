//! Builds the DOT text of a state machine's diagram.
//!
//! Every source state contributes its transitions, merged into groups that
//! share output and final state. A group becomes a short chain of edges
//! through a node that shows the inputs and, where the group has an output,
//! a node that shows the output. An edge between the same two nodes is
//! drawn once, however often it is asked for.

use vstd::prelude::*;
use linked_hash_set::LinkedHashSet;
use std::collections::hash_map::RandomState;
use crate::grid::{format_label_grid, label_grid, lemma_grid_holds_labels};
use crate::group::{
    group_map_into_vec,
    grouped,
    into_linked_group_map,
    lemma_same_key_one_group,
    GroupKey,
    GroupKeyView,
};
use crate::model::{
    FromState,
    FromStateView,
    StateMachineDef,
    StateMachineDefView,
    TransitionView,
};
use crate::text::{join, joined, occurs_in, push_str};

verus! {

#[verifier::external_type_specification]
#[verifier::external_body]
#[verifier::reject_recursive_types(T)]
#[verifier::reject_recursive_types(S)]
pub struct ExLinkedHashSet<T, S>(LinkedHashSet<T, S>);

/// The set of edges that have been drawn, each as its two node names.
pub type EdgeSet = LinkedHashSet<(String, String), RandomState>;

/// The edges that a set holds.
pub uninterp spec fn edge_pairs(set: LinkedHashSet<(String, String), RandomState>) -> Set<
    (Seq<char>, Seq<char>),
>;

/// Creates an empty set of edges.
///
/// Trusted: calls `LinkedHashSet::new`, which returns a set without items.
#[verifier::external_body]
fn edge_set_new() -> (set: EdgeSet)
    ensures
        edge_pairs(set) == Set::<(Seq<char>, Seq<char>)>::empty(),
{
    LinkedHashSet::new()
}

/// Adds `edge` to `set` and tells whether it was new.
///
/// Trusted: calls `LinkedHashSet::insert`, which returns `true` if the set
/// did not hold the value and `false` if it did, and holds it afterwards
/// either way. Items are compared by their text.
#[verifier::external_body]
fn edge_set_insert(set: &mut EdgeSet, edge: (String, String)) -> (fresh: bool)
    ensures
        fresh == !edge_pairs(*old(set)).contains(edge.deep_view()),
        edge_pairs(*final(set)) == edge_pairs(*old(set)).insert(edge.deep_view()),
{
    set.insert(edge)
}

/// One line of the body of a diagram.
#[derive(Clone, Debug, PartialEq, Eq)]
pub enum Line {
    /// An edge between two nodes. A reversed edge is written from `to` to
    /// `from` with its arrow head at the tail, so that it still points
    /// from `from` to `to`.
    Edge { from: String, to: String, reverse: bool, styles: String },
    /// A hint that two nodes belong on the same rank.
    SameRank { first: String, second: String },
    /// The node that shows the inputs of a group.
    InputNode { id: String, label: String },
    /// The node that shows the output of a group.
    OutputNode { id: String, label: String },
}

/// Mathematical content of a [`Line`].
pub enum LineView {
    Edge { from: Seq<char>, to: Seq<char>, reverse: bool, styles: Seq<char> },
    SameRank { first: Seq<char>, second: Seq<char> },
    InputNode { id: Seq<char>, label: Seq<char> },
    OutputNode { id: Seq<char>, label: Seq<char> },
}

impl View for Line {
    type V = LineView;

    open spec fn view(&self) -> LineView {
        match self {
            Line::Edge { from, to, reverse, styles } => LineView::Edge {
                from: from@,
                to: to@,
                reverse: *reverse,
                styles: styles@,
            },
            Line::SameRank { first, second } => LineView::SameRank {
                first: first@,
                second: second@,
            },
            Line::InputNode { id, label } => LineView::InputNode { id: id@, label: label@ },
            Line::OutputNode { id, label } => LineView::OutputNode { id: id@, label: label@ },
        }
    }
}

/// The contents of a list of lines.
pub open spec fn line_views(lines: Seq<Line>) -> Seq<LineView> {
    lines.map_values(|l: Line| l@)
}

/// The DOT text of one line, with its line break.
pub open spec fn line_text(line: LineView) -> Seq<char> {
    match line {
        LineView::Edge { from, to, reverse, styles } => {
            if reverse {
                "  \""@ + to + "\" -> \""@ + from
                    + "\" [ arrowhead=none arrowtail=normal dir=both "@ + styles + " ];\n"@
            } else {
                "  \""@ + from + "\" -> \""@ + to + "\" [ "@ + styles + " ];\n"@
            }
        },
        LineView::SameRank { first, second } => {
            "  { rank=same; \""@ + first + "\"; \""@ + second + "\"; }\n"@
        },
        LineView::InputNode { id, label } => {
            "  \""@ + id + "\" [label=\""@ + label + "\" color=\"#00c000\" shape=cds ];\n"@
        },
        LineView::OutputNode { id, label } => {
            "  \""@ + id + "\" [label=\""@ + label + "\" color=red shape=note ];\n"@
        },
    }
}

/// The DOT text of a list of lines.
pub open spec fn lines_text(lines: Seq<LineView>) -> Seq<char>
    decreases lines.len(),
{
    if lines.len() == 0 {
        Seq::empty()
    } else {
        lines_text(lines.drop_last()) + line_text(lines.last())
    }
}

/// Appends the DOT text of `line` to `out`.
fn write_line(out: &mut String, line: &Line)
    ensures
        final(out)@ == old(out)@ + line_text(line@),
{
    let ghost head = out@;
    match line {
        Line::Edge { from, to, reverse, styles } => {
            if *reverse {
                push_str(out, "  \"");
                push_str(out, to.as_str());
                push_str(out, "\" -> \"");
                push_str(out, from.as_str());
                push_str(out, "\" [ arrowhead=none arrowtail=normal dir=both ");
                push_str(out, styles.as_str());
                push_str(out, " ];\n");
            } else {
                push_str(out, "  \"");
                push_str(out, from.as_str());
                push_str(out, "\" -> \"");
                push_str(out, to.as_str());
                push_str(out, "\" [ ");
                push_str(out, styles.as_str());
                push_str(out, " ];\n");
            }
        },
        Line::SameRank { first, second } => {
            push_str(out, "  { rank=same; \"");
            push_str(out, first.as_str());
            push_str(out, "\"; \"");
            push_str(out, second.as_str());
            push_str(out, "\"; }\n");
        },
        Line::InputNode { id, label } => {
            push_str(out, "  \"");
            push_str(out, id.as_str());
            push_str(out, "\" [label=\"");
            push_str(out, label.as_str());
            push_str(out, "\" color=\"#00c000\" shape=cds ];\n");
        },
        Line::OutputNode { id, label } => {
            push_str(out, "  \"");
            push_str(out, id.as_str());
            push_str(out, "\" [label=\"");
            push_str(out, label.as_str());
            push_str(out, "\" color=red shape=note ];\n");
        },
    }
}

/// Draws the edge from `from` to `to` unless an edge between these two
/// nodes has been drawn before.
///
/// The edge is recorded in `seen_edges`. If it was not there yet, its line
/// is appended to `lines`; otherwise `lines` stays as it is.
pub fn insert_edge(
    lines: &mut Vec<Line>,
    seen_edges: &mut EdgeSet,
    reverse: bool,
    from: &str,
    to: &str,
    styles: &str,
)
    ensures
        edge_pairs(*final(seen_edges)) == edge_pairs(*old(seen_edges)).insert((from@, to@)),
        line_views(final(lines)@) == if edge_pairs(*old(seen_edges)).contains((from@, to@)) {
            line_views(old(lines)@)
        } else {
            line_views(old(lines)@).push(
                LineView::Edge { from: from@, to: to@, reverse, styles: styles@ },
            )
        },
{
    if !edge_set_insert(seen_edges, (from.to_owned(), to.to_owned())) {
        return ;
    }
    let ghost before = line_views(lines@);
    let line = Line::Edge {
        from: from.to_owned(),
        to: to.to_owned(),
        reverse,
        styles: styles.to_owned(),
    };
    lines.push(line);
    assert(line_views(lines@) =~= before.push(line@));
}

/// What the builder has gathered so far.
pub struct DiagramState {
    /// The source states declared so far, in order.
    pub declared: Seq<Seq<char>>,
    /// The edges drawn so far, each as its two node names.
    pub edges: Set<(Seq<char>, Seq<char>)>,
    /// The lines of the body so far.
    pub lines: Seq<LineView>,
    /// Which of the four line styles the next group gets.
    pub style: int,
}

/// The state before anything is declared.
pub open spec fn start_state() -> DiagramState {
    DiagramState { declared: Seq::empty(), edges: Set::empty(), lines: Seq::empty(), style: 0 }
}

/// The four line styles that the groups take in turn.
pub open spec fn style_text(style: int) -> Seq<char> {
    if style == 0 {
        "style=dashed"@
    } else if style == 1 {
        "style=dotted"@
    } else if style == 2 {
        "style=solid"@
    } else {
        "style=bold"@
    }
}

/// An edge from `from` to `to` runs against the order of declaration: its
/// target is another state, and one that is declared already.
pub open spec fn is_back_edge(declared: Seq<Seq<char>>, from: Seq<char>, to: Seq<char>) -> bool {
    from != to && declared.contains(to)
}

/// The state after asking for an edge: drawn and recorded if no edge joins
/// these two nodes yet, otherwise nothing changes.
pub open spec fn with_edge(
    state: DiagramState,
    reverse: bool,
    from: Seq<char>,
    to: Seq<char>,
    styles: Seq<char>,
) -> DiagramState {
    if state.edges.contains((from, to)) {
        state
    } else {
        DiagramState {
            edges: state.edges.insert((from, to)),
            lines: state.lines.push(LineView::Edge { from, to, reverse, styles }),
            ..state
        }
    }
}

/// The state after appending a line.
pub open spec fn with_line(state: DiagramState, line: LineView) -> DiagramState {
    DiagramState { lines: state.lines.push(line), ..state }
}

/// The name of the node that shows a group's inputs.
pub open spec fn input_node_id(key: GroupKeyView, inputs: Seq<Seq<char>>) -> Seq<char> {
    match key.0 {
        Some(output) => output + "_"@ + key.1 + "_"@ + joined(inputs, "_"@) + "_iv"@,
        None => key.1 + "_"@ + joined(inputs, "_"@) + "_iv"@,
    }
}

/// The name of the node that shows a group's output.
pub open spec fn output_node_id(output: Seq<char>, final_state: Seq<char>) -> Seq<char> {
    output + "_"@ + final_state
}

/// The state after drawing one group of transitions from `from_state`:
/// those with output and final state `key` and the inputs `inputs`.
///
/// The group takes the next line style. Without an output it is drawn as
/// `from_state -> inputs -> final state`, with an output as `from_state ->
/// inputs -> output -> final state`. Its edges are reversed if they run
/// back to a state declared earlier; a group that leads back to
/// `from_state` itself puts its input node on the rank of that state.
pub open spec fn with_group(
    state: DiagramState,
    from_state: Seq<char>,
    key: GroupKeyView,
    inputs: Seq<Seq<char>>,
) -> DiagramState {
    let final_state = key.1;
    let reverse = is_back_edge(state.declared, from_state, final_state);
    let style = style_text(state.style);
    let input_node = input_node_id(key, inputs);
    let label = label_grid(inputs);
    let same_rank = LineView::SameRank { first: from_state, second: input_node };
    let s0 = DiagramState { style: (state.style + 1) % 4, ..state };
    match key.0 {
        Some(output) => {
            let output_node = output_node_id(output, final_state);
            let s1 = with_edge(s0, reverse, from_state, input_node, style);
            let s2 = if from_state == final_state {
                with_line(s1, same_rank)
            } else {
                s1
            };
            let s3 = with_line(s2, LineView::InputNode { id: input_node, label });
            let s4 = with_edge(
                s3,
                reverse,
                input_node,
                output_node,
                style + " color=\"#00c000\""@,
            );
            let s5 = with_line(s4, LineView::OutputNode { id: output_node, label: output });
            with_edge(s5, reverse, output_node, final_state, style + " color=red"@)
        },
        None => {
            let s1 = if from_state == final_state {
                with_line(s0, same_rank)
            } else {
                s0
            };
            let s2 = with_edge(s1, reverse, from_state, input_node, style);
            let s3 = with_line(s2, LineView::InputNode { id: input_node, label });
            with_edge(s3, reverse, input_node, final_state, style + " color=\"#00c000\""@)
        },
    }
}

/// The state after drawing `groups`, one after the other.
pub open spec fn with_groups(
    state: DiagramState,
    from_state: Seq<char>,
    groups: Seq<(GroupKeyView, Seq<Seq<char>>)>,
) -> DiagramState
    decreases groups.len(),
{
    if groups.len() == 0 {
        state
    } else {
        with_group(
            with_groups(state, from_state, groups.drop_last()),
            from_state,
            groups.last().0,
            groups.last().1,
        )
    }
}

/// The transitions of a state as pairs of what they are grouped by and
/// their input.
pub open spec fn transition_pairs(transitions: Seq<TransitionView>) -> Seq<
    (GroupKeyView, Seq<char>),
> {
    transitions.map_values(|t: TransitionView| ((t.output, t.final_state), t.input_value))
}

/// The state after a source state and its transitions: the state is
/// declared, then its transitions are drawn group by group.
pub open spec fn with_from_state(state: DiagramState, from: FromStateView) -> DiagramState {
    with_groups(
        DiagramState { declared: state.declared.push(from.initial_state), ..state },
        from.initial_state,
        grouped(transition_pairs(from.transitions)),
    )
}

/// The state after the source states `froms`, in order.
pub open spec fn with_from_states(state: DiagramState, froms: Seq<FromStateView>) -> DiagramState
    decreases froms.len(),
{
    if froms.len() == 0 {
        state
    } else {
        with_from_state(with_from_states(state, froms.drop_last()), froms.last())
    }
}

/// The lines of the body of a machine's diagram.
pub open spec fn diagram_lines(def: StateMachineDefView) -> Seq<LineView> {
    with_from_states(start_state(), def.transitions).lines
}

/// The head of a diagram: the graph's settings, the marker of the initial
/// state with its edge to `initial_state`, and the legend.
pub open spec fn header_text(initial_state: Seq<char>) -> Seq<char> {
    "digraph \"graph\" {\n  rankdir=\"LR\";\n  newrank=true;\n  SM_init [label=\"\", shape=point];\n  SM_init -> \""@
        + initial_state
        + "\";\n\n  subgraph \"cluster_legend\" {\n    label=\"Legend\";\n    __init [ shape=point ];\n    __init -> __init2;\n    __init2 [ shape=none label=\"Initial transition\" ];\n    __state [ label=\"state\" ];\n    __input [ label=\"input\" color=\"#00c000\" shape=cds ];\n    __output [ label=\"output\" color=red shape=note ];\n  }\n\n"@
}

/// The DOT text of a machine's diagram.
pub open spec fn diagram_text(def: StateMachineDefView) -> Seq<char> {
    header_text(def.initial_state) + lines_text(diagram_lines(def)) + "}\n"@
}

/// Gathers the lines of a diagram while the source states are added.
pub struct Builder {
    /// The source states declared so far.
    pub declared: Vec<String>,
    /// The edges drawn so far.
    pub seen_edges: EdgeSet,
    /// The lines of the body so far.
    pub lines: Vec<Line>,
    /// Index of the line style of the next group, below four.
    pub style: usize,
}

impl View for Builder {
    type V = DiagramState;

    open spec fn view(&self) -> DiagramState {
        DiagramState {
            declared: self.declared.deep_view(),
            edges: edge_pairs(self.seen_edges),
            lines: line_views(self.lines@),
            style: self.style as int,
        }
    }
}

fn contains_state(declared: &Vec<String>, state: &String) -> (found: bool)
    ensures
        found == declared.deep_view().contains(state@),
{
    let mut i: usize = 0;
    while i < declared.len()
        invariant
            i <= declared.len(),
            forall|j: int| 0 <= j < i ==> declared.deep_view()[j] != state@,
        decreases declared.len() - i,
    {
        if declared[i] == *state {
            assert(declared.deep_view()[i as int] == state@);
            return true;
        }
        i = i + 1;
    }
    false
}

fn style_name(style: usize) -> (name: &'static str)
    ensures
        name@ == style_text(style as int),
{
    if style == 0 {
        "style=dashed"
    } else if style == 1 {
        "style=dotted"
    } else if style == 2 {
        "style=solid"
    } else {
        "style=bold"
    }
}

fn clone_output(output: &Option<String>) -> (copy: Option<String>)
    ensures
        copy.deep_view() == output.deep_view(),
{
    match output {
        Some(o) => Some(o.clone()),
        None => None,
    }
}

impl Builder {
    /// A builder that has seen nothing yet.
    pub fn new() -> (builder: Builder)
        ensures
            builder@ == start_state(),
            builder.well_formed(),
    {
        let builder = Builder {
            declared: Vec::new(),
            seen_edges: edge_set_new(),
            lines: Vec::new(),
            style: 0,
        };
        assert(builder.declared.deep_view() =~= Seq::<Seq<char>>::empty());
        assert(line_views(builder.lines@) =~= Seq::<LineView>::empty());
        builder
    }

    /// The style index points at one of the four styles.
    pub open spec fn well_formed(&self) -> bool {
        self.style < 4
    }

    fn edge(&mut self, reverse: bool, from: &str, to: &str, styles: &str)
        ensures
            final(self)@ == with_edge(old(self)@, reverse, from@, to@, styles@),
            final(self).style == old(self).style,
    {
        let ghost edges = edge_pairs(self.seen_edges);
        insert_edge(&mut self.lines, &mut self.seen_edges, reverse, from, to, styles);
        proof {
            if edges.contains((from@, to@)) {
                assert(edges.insert((from@, to@)) =~= edges);
            }
        }
    }

    fn line(&mut self, line: Line)
        ensures
            final(self)@ == with_line(old(self)@, line@),
            final(self).style == old(self).style,
    {
        let ghost before = line_views(self.lines@);
        let ghost view = line@;
        self.lines.push(line);
        assert(line_views(self.lines@) =~= before.push(view));
    }

    /// Draws one group of transitions that leave `from_state`: those with
    /// the output and final state of `key`, triggered by `inputs`.
    pub fn add_group(&mut self, from_state: &String, key: &GroupKey, inputs: &Vec<String>)
        requires
            old(self).well_formed(),
        ensures
            final(self).well_formed(),
            final(self)@ == with_group(
                old(self)@,
                from_state@,
                key.deep_view(),
                inputs.deep_view(),
            ),
    {
        let final_state = &key.1;
        let same = *from_state == *final_state;
        let reverse = !same && contains_state(&self.declared, final_state);
        let style = style_name(self.style);
        self.style = (self.style + 1) % 4;
        let label = format_label_grid(inputs);
        let inputs_id = join(inputs.as_slice(), "_");
        let mut green = style.to_owned();
        push_str(&mut green, " color=\"#00c000\"");
        match &key.0 {
            Some(output) => {
                let mut input_node = output.clone();
                push_str(&mut input_node, "_");
                push_str(&mut input_node, final_state.as_str());
                push_str(&mut input_node, "_");
                push_str(&mut input_node, inputs_id.as_str());
                push_str(&mut input_node, "_iv");
                let mut output_node = output.clone();
                push_str(&mut output_node, "_");
                push_str(&mut output_node, final_state.as_str());
                let mut red = style.to_owned();
                push_str(&mut red, " color=red");
                assert(input_node@ == input_node_id(key.deep_view(), inputs.deep_view()));
                assert(output_node@ == output_node_id(output@, final_state@));
                self.edge(reverse, from_state.as_str(), input_node.as_str(), style);
                if same {
                    self.line(
                        Line::SameRank { first: from_state.clone(), second: input_node.clone() },
                    );
                }
                self.line(Line::InputNode { id: input_node.clone(), label });
                self.edge(reverse, input_node.as_str(), output_node.as_str(), green.as_str());
                self.line(Line::OutputNode { id: output_node.clone(), label: output.clone() });
                self.edge(reverse, output_node.as_str(), final_state.as_str(), red.as_str());
            },
            None => {
                let mut input_node = final_state.clone();
                push_str(&mut input_node, "_");
                push_str(&mut input_node, inputs_id.as_str());
                push_str(&mut input_node, "_iv");
                assert(input_node@ == input_node_id(key.deep_view(), inputs.deep_view()));
                if same {
                    self.line(
                        Line::SameRank { first: from_state.clone(), second: input_node.clone() },
                    );
                }
                self.edge(reverse, from_state.as_str(), input_node.as_str(), style);
                self.line(Line::InputNode { id: input_node.clone(), label });
                self.edge(reverse, input_node.as_str(), final_state.as_str(), green.as_str());
            },
        }
    }

    /// Declares a source state and draws its transitions, merged into
    /// groups that share output and final state.
    pub fn add_from_state(&mut self, from: &FromState)
        requires
            old(self).well_formed(),
        ensures
            final(self).well_formed(),
            final(self)@ == with_from_state(old(self)@, from@),
    {
        let ghost declared = self.declared.deep_view();
        self.declared.push(from.initial_state.clone());
        assert(self.declared.deep_view() =~= declared.push(from.initial_state@));
        let ghost start = self@;
        let mut pairs: Vec<(GroupKey, String)> = Vec::new();
        let mut i: usize = 0;
        assert(pairs.deep_view() =~= transition_pairs(from@.transitions.take(0)));
        while i < from.transitions.len()
            invariant
                i <= from.transitions.len(),
                pairs.deep_view() == transition_pairs(from@.transitions.take(i as int)),
            decreases from.transitions.len() - i,
        {
            let t = &from.transitions[i];
            let ghost before = pairs.deep_view();
            let pair = ((clone_output(&t.output), t.final_state.clone()), t.input_value.clone());
            let ghost view = pair.deep_view();
            pairs.push(pair);
            proof {
                assert(pairs.deep_view() =~= before.push(view));
                assert(from@.transitions[i as int] == t@);
                assert(transition_pairs(from@.transitions.take(i + 1)) =~= transition_pairs(
                    from@.transitions.take(i as int),
                ).push(view));
            }
            i = i + 1;
        }
        assert(from@.transitions.take(i as int) =~= from@.transitions);
        let groups = group_map_into_vec(into_linked_group_map(pairs));
        let ghost all = groups.deep_view();
        assert(all == grouped(transition_pairs(from@.transitions)));
        let mut j: usize = 0;
        while j < groups.len()
            invariant
                j <= groups.len(),
                all == groups.deep_view(),
                self.well_formed(),
                self@ == with_groups(start, from.initial_state@, all.take(j as int)),
            decreases groups.len() - j,
        {
            let group = &groups[j];
            proof {
                assert(all.take(j + 1).drop_last() =~= all.take(j as int));
                assert(all.take(j + 1).last() == all[j as int]);
                assert(all[j as int] == (group.0.deep_view(), group.1.deep_view()));
            }
            self.add_group(&from.initial_state, &group.0, &group.1);
            j = j + 1;
        }
        assert(all.take(j as int) =~= all);
    }

    /// The DOT text of the diagram gathered so far, for a machine that
    /// starts in `initial_state`.
    pub fn finish(&self, initial_state: &str) -> (text: String)
        ensures
            text@ == header_text(initial_state@) + lines_text(self@.lines) + "}\n"@,
    {
        let mut text = String::new();
        push_str(
            &mut text,
            "digraph \"graph\" {\n  rankdir=\"LR\";\n  newrank=true;\n  SM_init [label=\"\", shape=point];\n  SM_init -> \"",
        );
        push_str(&mut text, initial_state);
        push_str(
            &mut text,
            "\";\n\n  subgraph \"cluster_legend\" {\n    label=\"Legend\";\n    __init [ shape=point ];\n    __init -> __init2;\n    __init2 [ shape=none label=\"Initial transition\" ];\n    __state [ label=\"state\" ];\n    __input [ label=\"input\" color=\"#00c000\" shape=cds ];\n    __output [ label=\"output\" color=red shape=note ];\n  }\n\n",
        );
        let ghost head = text@;
        let ghost views = line_views(self.lines@);
        let mut i: usize = 0;
        assert(text@ == head + lines_text(views.take(0)));
        while i < self.lines.len()
            invariant
                i <= self.lines.len(),
                views == line_views(self.lines@),
                text@ == head + lines_text(views.take(i as int)),
            decreases self.lines.len() - i,
        {
            write_line(&mut text, &self.lines[i]);
            proof {
                assert(views.take(i + 1).drop_last() =~= views.take(i as int));
                assert(views.take(i + 1).last() == self.lines[i as int]@);
            }
            i = i + 1;
        }
        assert(views.take(i as int) =~= views);
        push_str(&mut text, "}\n");
        text
    }
}

/// Renders a state machine as a diagram.
///
/// Returns the machine's name and the DOT text of its diagram: the head
/// with the edge to the initial state, then the lines of every source state
/// in declaration order, then the closing brace.
pub fn fsm_to_graphviz(fsm: StateMachineDef) -> (named: (String, String))
    ensures
        named.0@ == fsm@.name,
        named.1@ == diagram_text(fsm@),
{
    let mut builder = Builder::new();
    let mut i: usize = 0;
    let ghost froms = fsm@.transitions;
    while i < fsm.transitions.len()
        invariant
            i <= fsm.transitions.len(),
            froms == fsm@.transitions,
            builder.well_formed(),
            builder@ == with_from_states(start_state(), froms.take(i as int)),
        decreases fsm.transitions.len() - i,
    {
        proof {
            assert(froms.take(i + 1).drop_last() =~= froms.take(i as int));
            assert(froms.take(i + 1).last() == fsm.transitions[i as int]@);
        }
        builder.add_from_state(&fsm.transitions[i]);
        i = i + 1;
    }
    assert(froms.take(i as int) =~= froms);
    let text = builder.finish(fsm.initial_state.as_str());
    (fsm.name, text)
}

/// The two nodes that a line joins, if the line is an edge.
pub open spec fn edge_of(line: LineView) -> Option<(Seq<char>, Seq<char>)> {
    match line {
        LineView::Edge { from, to, .. } => Some((from, to)),
        _ => None,
    }
}

/// The lines and the record of drawn edges agree: every edge line is
/// recorded, every recorded edge has a line, and no two edge lines join the
/// same two nodes.
pub open spec fn edges_drawn_once(state: DiagramState) -> bool {
    &&& forall|i: int|
        0 <= i < state.lines.len() ==> (#[trigger] edge_of(state.lines[i]) matches Some(e)
            ==> state.edges.contains(e))
    &&& forall|e: (Seq<char>, Seq<char>)| #[trigger]
        state.edges.contains(e) ==> has_edge_line(state.lines, e)
    &&& forall|i: int, j: int|
        0 <= i < j < state.lines.len() && edge_of(state.lines[i]) is Some ==> #[trigger] edge_of(
            state.lines[i],
        ) != #[trigger] edge_of(state.lines[j])
}

/// One of the lines is an edge that joins the two nodes of `edge`.
pub open spec fn has_edge_line(lines: Seq<LineView>, edge: (Seq<char>, Seq<char>)) -> bool {
    exists|i: int| 0 <= i < lines.len() && #[trigger] edge_of(lines[i]) == Some(edge)
}

/// Asking for the same edge a second time changes nothing, whatever its
/// direction and styles: an edge between two nodes is drawn at most once.
pub proof fn lemma_edge_asked_twice(
    state: DiagramState,
    from: Seq<char>,
    to: Seq<char>,
    reverse1: bool,
    styles1: Seq<char>,
    reverse2: bool,
    styles2: Seq<char>,
)
    ensures
        with_edge(with_edge(state, reverse1, from, to, styles1), reverse2, from, to, styles2)
            == with_edge(state, reverse1, from, to, styles1),
{
}

/// An edge that is asked for is in the diagram exactly once afterwards.
/// Where the lines and the record of drawn edges agree, they still agree
/// after asking for an edge, and exactly one line then joins its two nodes.
pub proof fn lemma_with_edge_once(
    state: DiagramState,
    reverse: bool,
    from: Seq<char>,
    to: Seq<char>,
    styles: Seq<char>,
)
    requires
        edges_drawn_once(state),
    ensures
        edges_drawn_once(with_edge(state, reverse, from, to, styles)),
        ({
            let after = with_edge(state, reverse, from, to, styles);
            exists|i: int|
                {
                    &&& 0 <= i < after.lines.len()
                    &&& #[trigger] edge_of(after.lines[i]) == Some((from, to))
                    &&& forall|j: int|
                        0 <= j < after.lines.len() && #[trigger] edge_of(after.lines[j]) == Some(
                            (from, to),
                        ) ==> j == i
                }
        }),
{
    let after = with_edge(state, reverse, from, to, styles);
    if !state.edges.contains((from, to)) {
        assert forall|i: int, j: int|
            0 <= i < j < after.lines.len() && edge_of(after.lines[i]) is Some implies #[trigger] edge_of(
            after.lines[i],
        ) != #[trigger] edge_of(after.lines[j]) by {
            if j < state.lines.len() {
                assert(after.lines[i] == state.lines[i]);
                assert(after.lines[j] == state.lines[j]);
            } else {
                assert(after.lines[i] == state.lines[i]);
                assert(edge_of(state.lines[i]) matches Some(e) ==> state.edges.contains(e));
            }
        }
        assert forall|i: int| 0 <= i < after.lines.len() implies (#[trigger] edge_of(
            after.lines[i],
        ) matches Some(e) ==> after.edges.contains(e)) by {
            if i < state.lines.len() {
                assert(after.lines[i] == state.lines[i]);
                assert(edge_of(state.lines[i]) matches Some(e) ==> state.edges.contains(e));
            }
        }
        assert forall|e: (Seq<char>, Seq<char>)| #[trigger]
            after.edges.contains(e) implies has_edge_line(after.lines, e) by {
            if e == (from, to) {
                assert(edge_of(after.lines[state.lines.len() as int]) == Some(e));
            } else {
                assert(state.edges.contains(e));
                let i = choose|i: int|
                    0 <= i < state.lines.len() && #[trigger] edge_of(state.lines[i]) == Some(e);
                assert(after.lines[i] == state.lines[i]);
                assert(edge_of(after.lines[i]) == Some(e));
            }
        }
    }
    assert(after.edges.contains((from, to)));
    assert(has_edge_line(after.lines, (from, to)));
    let i = choose|i: int|
        0 <= i < after.lines.len() && #[trigger] edge_of(after.lines[i]) == Some((from, to));
    assert forall|j: int|
        0 <= j < after.lines.len() && #[trigger] edge_of(after.lines[j]) == Some(
            (from, to),
        ) implies j == i by {
        if j < i {
            assert(edge_of(after.lines[j]) != edge_of(after.lines[i]));
        } else if i < j {
            assert(edge_of(after.lines[i]) != edge_of(after.lines[j]));
        }
    }
}

proof fn lemma_with_line_once(state: DiagramState, line: LineView)
    requires
        edges_drawn_once(state),
        edge_of(line) is None,
    ensures
        edges_drawn_once(with_line(state, line)),
{
    let after = with_line(state, line);
    assert forall|i: int, j: int|
        0 <= i < j < after.lines.len() && edge_of(after.lines[i]) is Some implies #[trigger] edge_of(
        after.lines[i],
    ) != #[trigger] edge_of(after.lines[j]) by {
        assert(after.lines[i] == state.lines[i]);
        if j < state.lines.len() {
            assert(after.lines[j] == state.lines[j]);
        }
    }
    assert forall|i: int| 0 <= i < after.lines.len() implies (#[trigger] edge_of(
        after.lines[i],
    ) matches Some(e) ==> after.edges.contains(e)) by {
        if i < state.lines.len() {
            assert(after.lines[i] == state.lines[i]);
            assert(edge_of(state.lines[i]) matches Some(e) ==> state.edges.contains(e));
        }
    }
    assert forall|e: (Seq<char>, Seq<char>)| #[trigger]
        after.edges.contains(e) implies has_edge_line(after.lines, e) by {
        assert(state.edges.contains(e));
        let i = choose|i: int|
            0 <= i < state.lines.len() && #[trigger] edge_of(state.lines[i]) == Some(e);
        assert(after.lines[i] == state.lines[i]);
        assert(edge_of(after.lines[i]) == Some(e));
    }
}

proof fn lemma_with_group_once(
    state: DiagramState,
    from_state: Seq<char>,
    key: GroupKeyView,
    inputs: Seq<Seq<char>>,
)
    requires
        edges_drawn_once(state),
    ensures
        edges_drawn_once(with_group(state, from_state, key, inputs)),
{
    let final_state = key.1;
    let reverse = is_back_edge(state.declared, from_state, final_state);
    let style = style_text(state.style);
    let input_node = input_node_id(key, inputs);
    let label = label_grid(inputs);
    let same_rank = LineView::SameRank { first: from_state, second: input_node };
    let s0 = DiagramState { style: (state.style + 1) % 4, ..state };
    assert(edges_drawn_once(s0));
    match key.0 {
        Some(output) => {
            let output_node = output_node_id(output, final_state);
            lemma_with_edge_once(s0, reverse, from_state, input_node, style);
            let s1 = with_edge(s0, reverse, from_state, input_node, style);
            lemma_with_line_once(s1, same_rank);
            let s2 = if from_state == final_state {
                with_line(s1, same_rank)
            } else {
                s1
            };
            lemma_with_line_once(s2, LineView::InputNode { id: input_node, label });
            let s3 = with_line(s2, LineView::InputNode { id: input_node, label });
            let green = style + " color=\"#00c000\""@;
            lemma_with_edge_once(s3, reverse, input_node, output_node, green);
            let s4 = with_edge(s3, reverse, input_node, output_node, green);
            lemma_with_line_once(s4, LineView::OutputNode { id: output_node, label: output });
            let s5 = with_line(s4, LineView::OutputNode { id: output_node, label: output });
            lemma_with_edge_once(s5, reverse, output_node, final_state, style + " color=red"@);
        },
        None => {
            lemma_with_line_once(s0, same_rank);
            let s1 = if from_state == final_state {
                with_line(s0, same_rank)
            } else {
                s0
            };
            lemma_with_edge_once(s1, reverse, from_state, input_node, style);
            let s2 = with_edge(s1, reverse, from_state, input_node, style);
            lemma_with_line_once(s2, LineView::InputNode { id: input_node, label });
            let s3 = with_line(s2, LineView::InputNode { id: input_node, label });
            lemma_with_edge_once(
                s3,
                reverse,
                input_node,
                final_state,
                style + " color=\"#00c000\""@,
            );
        },
    }
}

proof fn lemma_with_groups_once(
    state: DiagramState,
    from_state: Seq<char>,
    groups: Seq<(GroupKeyView, Seq<Seq<char>>)>,
)
    requires
        edges_drawn_once(state),
    ensures
        edges_drawn_once(with_groups(state, from_state, groups)),
    decreases groups.len(),
{
    if groups.len() > 0 {
        lemma_with_groups_once(state, from_state, groups.drop_last());
        lemma_with_group_once(
            with_groups(state, from_state, groups.drop_last()),
            from_state,
            groups.last().0,
            groups.last().1,
        );
    }
}

proof fn lemma_with_from_states_once(state: DiagramState, froms: Seq<FromStateView>)
    requires
        edges_drawn_once(state),
    ensures
        edges_drawn_once(with_from_states(state, froms)),
    decreases froms.len(),
{
    if froms.len() > 0 {
        lemma_with_from_states_once(state, froms.drop_last());
        let before = with_from_states(state, froms.drop_last());
        let from = froms.last();
        let declared = DiagramState { declared: before.declared.push(from.initial_state), ..before };
        assert(edges_drawn_once(declared));
        lemma_with_groups_once(
            declared,
            from.initial_state,
            grouped(transition_pairs(from.transitions)),
        );
    }
}

/// No two edge lines of a diagram join the same two nodes in the same
/// direction: however often the transitions of a machine ask for an edge,
/// the diagram holds it once. The lines and the record of drawn edges agree
/// at the end.
pub proof fn lemma_edges_drawn_once(def: StateMachineDefView)
    ensures
        edges_drawn_once(with_from_states(start_state(), def.transitions)),
        forall|i: int, j: int|
            0 <= i < j < diagram_lines(def).len() && edge_of(diagram_lines(def)[i]) is Some
                ==> #[trigger] edge_of(diagram_lines(def)[i]) != #[trigger] edge_of(
                diagram_lines(def)[j],
            ),
{
    assert(edges_drawn_once(start_state()));
    lemma_with_from_states_once(start_state(), def.transitions);
}

/// How a group's edges are directed. Drawing a group keeps the lines that
/// were there. Every edge that it adds is reversed exactly if the group's
/// final state is another state than its source and is declared already. A
/// group that leads back to its own source is never reversed; it adds the
/// hint that puts its input node on the rank of the source.
pub proof fn lemma_group_direction(
    state: DiagramState,
    from_state: Seq<char>,
    key: GroupKeyView,
    inputs: Seq<Seq<char>>,
)
    ensures
        ({
            let after = with_group(state, from_state, key, inputs);
            let back = is_back_edge(state.declared, from_state, key.1);
            let hint = LineView::SameRank {
                first: from_state,
                second: input_node_id(key, inputs),
            };
            &&& after.declared == state.declared
            &&& state.lines.len() <= after.lines.len()
            &&& after.lines.take(state.lines.len() as int) == state.lines
            &&& forall|i: int|
                state.lines.len() <= i < after.lines.len() ==> (#[trigger] after.lines[i] matches LineView::Edge {
                    reverse,
                    ..
                } ==> reverse == back)
            &&& from_state == key.1 ==> !back && exists|i: int|
                state.lines.len() <= i < after.lines.len() && after.lines[i] == hint
            &&& from_state != key.1 ==> forall|i: int|
                state.lines.len() <= i < after.lines.len() ==> !(#[trigger] after.lines[i] is SameRank)
        }),
{
    let final_state = key.1;
    let reverse = is_back_edge(state.declared, from_state, final_state);
    let style = style_text(state.style);
    let input_node = input_node_id(key, inputs);
    let label = label_grid(inputs);
    let same_rank = LineView::SameRank { first: from_state, second: input_node };
    let s0 = DiagramState { style: (state.style + 1) % 4, ..state };
    let after = with_group(state, from_state, key, inputs);
    let n = state.lines.len() as int;
    match key.0 {
        Some(output) => {
            let output_node = output_node_id(output, final_state);
            let s1 = with_edge(s0, reverse, from_state, input_node, style);
            let s2 = if from_state == final_state {
                with_line(s1, same_rank)
            } else {
                s1
            };
            let s3 = with_line(s2, LineView::InputNode { id: input_node, label });
            let s4 = with_edge(
                s3,
                reverse,
                input_node,
                output_node,
                style + " color=\"#00c000\""@,
            );
            let s5 = with_line(s4, LineView::OutputNode { id: output_node, label: output });
            assert(s1.lines.take(n) =~= state.lines);
            assert(s2.lines.take(n) =~= state.lines);
            assert(s3.lines.take(n) =~= state.lines);
            assert(s4.lines.take(n) =~= state.lines);
            assert(s5.lines.take(n) =~= state.lines);
            assert(after.lines.take(n) =~= state.lines);
            if from_state == final_state {
                assert(after.lines[s1.lines.len() as int] == same_rank);
            }
        },
        None => {
            let s1 = if from_state == final_state {
                with_line(s0, same_rank)
            } else {
                s0
            };
            let s2 = with_edge(s1, reverse, from_state, input_node, style);
            let s3 = with_line(s2, LineView::InputNode { id: input_node, label });
            assert(s1.lines.take(n) =~= state.lines);
            assert(s2.lines.take(n) =~= state.lines);
            assert(s3.lines.take(n) =~= state.lines);
            assert(after.lines.take(n) =~= state.lines);
            if from_state == final_state {
                assert(after.lines[n] == same_rank);
            }
        },
    }
}

/// How a group's inputs are shown. Among the lines that a group adds there
/// is exactly one input node; it carries the group's inputs laid out as a
/// grid, and every input stands in that label.
pub proof fn lemma_group_label(
    state: DiagramState,
    from_state: Seq<char>,
    key: GroupKeyView,
    inputs: Seq<Seq<char>>,
)
    ensures
        ({
            let after = with_group(state, from_state, key, inputs);
            let node = LineView::InputNode {
                id: input_node_id(key, inputs),
                label: label_grid(inputs),
            };
            &&& exists|i: int|
                {
                    &&& state.lines.len() <= i < after.lines.len()
                    &&& after.lines[i] == node
                    &&& forall|j: int|
                        state.lines.len() <= j < after.lines.len()
                            && #[trigger] after.lines[j] is InputNode ==> j == i
                }
            &&& forall|k: int|
                0 <= k < inputs.len() ==> occurs_in(#[trigger] inputs[k], label_grid(inputs))
        }),
{
    let final_state = key.1;
    let reverse = is_back_edge(state.declared, from_state, final_state);
    let style = style_text(state.style);
    let input_node = input_node_id(key, inputs);
    let label = label_grid(inputs);
    let same_rank = LineView::SameRank { first: from_state, second: input_node };
    let s0 = DiagramState { style: (state.style + 1) % 4, ..state };
    let after = with_group(state, from_state, key, inputs);
    let node = LineView::InputNode { id: input_node, label };
    match key.0 {
        Some(output) => {
            let s1 = with_edge(s0, reverse, from_state, input_node, style);
            let s2 = if from_state == final_state {
                with_line(s1, same_rank)
            } else {
                s1
            };
            assert(after.lines[s2.lines.len() as int] == node);
        },
        None => {
            let s1 = if from_state == final_state {
                with_line(s0, same_rank)
            } else {
                s0
            };
            let s2 = with_edge(s1, reverse, from_state, input_node, style);
            assert(after.lines[s2.lines.len() as int] == node);
        },
    }
    assert forall|k: int| 0 <= k < inputs.len() implies occurs_in(
        #[trigger] inputs[k],
        label_grid(inputs),
    ) by {
        lemma_grid_holds_labels(inputs, k);
    }
}

/// Transitions of one state that agree in output and final state are
/// drawn as one group: exactly one group of the state has that output and
/// final state, and its inputs include the inputs of both transitions.
pub proof fn lemma_parallel_transitions_merge(from: FromStateView, i: int, j: int)
    requires
        0 <= i < from.transitions.len(),
        0 <= j < from.transitions.len(),
        from.transitions[i].output == from.transitions[j].output,
        from.transitions[i].final_state == from.transitions[j].final_state,
    ensures
        ({
            let groups = grouped(transition_pairs(from.transitions));
            let key = (from.transitions[i].output, from.transitions[i].final_state);
            exists|g: int|
                {
                    &&& 0 <= g < groups.len()
                    &&& (#[trigger] groups[g]).0 == key
                    &&& groups[g].1.contains(from.transitions[i].input_value)
                    &&& groups[g].1.contains(from.transitions[j].input_value)
                    &&& forall|h: int|
                        0 <= h < groups.len() && (#[trigger] groups[h]).0 == key ==> h == g
                }
        }),
{
    let pairs = transition_pairs(from.transitions);
    assert(pairs[i].0 == pairs[j].0);
    lemma_same_key_one_group(pairs, i, j);
}

/// The diagram depends on nothing but the content of the model: two models
/// with the same content have the same text.
pub proof fn lemma_same_model_same_text(first: StateMachineDef, second: StateMachineDef)
    requires
        first@ == second@,
    ensures
        diagram_text(first@) == diagram_text(second@),
{
}

} // verus!
