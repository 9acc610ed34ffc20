//! What the multiplexer asks of the operating system.
use vstd::prelude::*;

verus! {

/// A request to a pseudo-terminal, or for a new one.
#[derive(Debug)]
pub enum Action {
    /// Tell terminal `terminal` that it has `rows` rows and `cols` columns.
    Resize { terminal: usize, rows: u16, cols: u16 },
    /// Send `bytes` to the program in terminal `terminal`.
    Write { terminal: usize, bytes: Vec<u8> },
    /// End the program in terminal `terminal`.
    Close { terminal: usize },
    /// Start a program in a new terminal `id`, for one half of a pane split in two.
    Spawn { id: usize, vertical: bool },
}

/// The value of an action.
pub enum ActionView {
    Resize { terminal: usize, rows: u16, cols: u16 },
    Write { terminal: usize, bytes: Seq<u8> },
    Close { terminal: usize },
    Spawn { id: usize, vertical: bool },
}

impl View for Action {
    type V = ActionView;

    open spec fn view(&self) -> ActionView {
        match *self {
            Action::Resize { terminal, rows, cols } => ActionView::Resize { terminal, rows, cols },
            Action::Write { terminal, bytes } => ActionView::Write { terminal, bytes: bytes@ },
            Action::Close { terminal } => ActionView::Close { terminal },
            Action::Spawn { id, vertical } => ActionView::Spawn { id, vertical },
        }
    }
}

/// The values of a list of actions.
pub open spec fn actions_view(actions: Seq<Action>) -> Seq<ActionView> {
    actions.map_values(|action: Action| action@)
}

/// Adds an action to a list.
pub fn request(actions: &mut Vec<Action>, action: Action)
    ensures
        actions_view(final(actions)@) == actions_view(old(actions)@).push(action@),
{
    actions.push(action);
    assert(actions_view(actions@) =~= actions_view(old(actions)@).push(action@));
}

/// Adds the actions of one list to another.
pub fn request_all(actions: &mut Vec<Action>, mut more: Vec<Action>)
    ensures
        actions_view(final(actions)@) == actions_view(old(actions)@) + actions_view(more@),
{
    let ghost added = more@;
    actions.append(&mut more);
    assert(actions_view(actions@) =~= actions_view(old(actions)@) + actions_view(added));
}

} // verus!
