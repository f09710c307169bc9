pub mod display;
pub mod laws;
pub mod session;

pub use display::{
    active_transitions, cell_of, edge_groups, edge_groups_of, edges_view, format_set, grouped,
    has_edge, index_map, input_cells, is_active, join, look_of, next_step_text, next_text,
    set_text, state_indices, state_looks, status_text, status_text_of, step_label, step_text,
    symbol_text, taken_by, EdgeGroup, EdgeGroupV, InputCell, StateLook, Tone,
};
pub use session::{
    choice_label, choices, choices_of, choices_view, find_automaton, fresh_simulator,
    make_simulator, resolvable, resolves, simulation_automaton, update, ChoiceV, Control,
    Session, SessionV, SimChoice,
};
