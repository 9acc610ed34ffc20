//! That every change keeps the state whole.
use vstd::prelude::*;

use crate::layout_laws;
use crate::model;
use crate::model::AppView;
use crate::pane;
use crate::pane::PaneView;
use crate::vt;

verus! {

/// Every place that a tree gives to a pane is within reach of the terminal.
pub proof fn lemma_places_near(s: AppView)
    requires
        s.wf(),
    ensures
        s.places().len() == s.root.panes().len(),
        forall|i: int|
            0 <= i < s.places().len() ==> {
                let tile = #[trigger] s.places()[i];
                PaneView::near(tile.area) && tile.pane == s.root.panes()[i]
            },
{
    let area = s.layout_area();
    layout_laws::law_tiles_follow_panes(s.root, area);
    layout_laws::law_tiles_inside(s.root, area);
    assert forall|i: int| 0 <= i < s.places().len() implies {
        let tile = #[trigger] s.places()[i];
        PaneView::near(tile.area) && tile.pane == s.root.panes()[i]
    } by {
        let tile = s.root.tiles(area)[i];
        assert(tile.area.inside(area));
    }
}

/// Giving every pane its place keeps the state whole.
pub proof fn lemma_relaid_wf(s: AppView)
    requires
        s.wf(),
    ensures
        s.relaid().wf(),
{
    let after = s.relaid();
    if s.panes.len() > 0 {
        lemma_places_near(s);
        assert(model::ids(s.panes).len() == s.panes.len());
        assert(model::ids(after.panes) =~= model::ids(s.panes));
        assert(model::terminals(after.panes) =~= model::terminals(s.panes));
        assert forall|i: int| 0 <= i < after.panes.len() implies {
            let pane = #[trigger] after.panes[i];
            pane.wf() && pane.id < after.next_id && pane.terminal < after.next_id
        } by {
            assert(s.panes[i].wf());
            assert(PaneView::near(s.places()[i].area));
            vt::lemma_one_piece(s.panes[i].output);
        }
    }
}

/// Another pane in the place of one, with the same number and terminal, keeps the state whole.
pub proof fn lemma_pane_replaced(before: AppView, after: AppView, i: int)
    requires
        before.wf(),
        0 <= i < before.panes.len(),
        after == (AppView { panes: before.panes.update(i, after.panes[i]), ..before }),
        after.panes[i].wf(),
        after.panes[i].id == before.panes[i].id,
        after.panes[i].terminal == before.panes[i].terminal,
    ensures
        after.wf(),
{
    assert(model::ids(after.panes) =~= model::ids(before.panes));
    assert(model::terminals(after.panes) =~= model::terminals(before.panes));
    assert forall|k: int| 0 <= k < after.panes.len() implies {
        let pane = #[trigger] after.panes[k];
        pane.wf() && pane.id < after.next_id && pane.terminal < after.next_id
    } by {
        assert(before.panes[k].id < before.next_id);
    }
}

/// A split keeps the state whole.
pub proof fn lemma_split_wf(before: AppView, after: AppView, id: usize, vertical: bool)
    requires
        before.wf(),
        before.panes.len() > 0,
        id < before.next_id,
        !model::ids(before.panes).contains(id),
        !model::terminals(before.panes).contains(id),
        after == (AppView {
            root: before.root.with_leaf(
                before.active().id,
                layout_laws::split_node(before.active().id, id, vertical),
            ),
            panes: before.panes.insert(
                before.active_index + 1,
                after.panes[before.active_index + 1],
            ),
            active_index: before.active_index + 1,
            full_redraw: true,
            ..before
        }),
        after.panes[before.active_index + 1].wf(),
        after.panes[before.active_index + 1].id == id,
        after.panes[before.active_index + 1].terminal == id,
    ensures
        after.wf(),
{
    let a = before.active_index;
    let old_ids = model::ids(before.panes);
    let new_ids = model::ids(after.panes);
    let pair = layout_laws::split_node(before.active().id, id, vertical);
    assert(old_ids[a] == before.active().id);
    layout_laws::lemma_with_leaf_panes(before.root, a, pair);
    assert(pair->left.panes() == seq![before.active().id]);
    assert(pair->right.panes() == seq![id]);
    assert(pair.panes() =~= seq![before.active().id, id]);
    assert(after.root.panes() =~= old_ids.insert(a + 1, id));
    assert(new_ids =~= old_ids.insert(a + 1, id));
    lemma_insert_distinct(old_ids, a + 1, id);
    lemma_insert_distinct(model::terminals(before.panes), a + 1, id);
    assert(model::terminals(after.panes) =~= model::terminals(before.panes).insert(a + 1, id));
    assert(pair->left.wf() && pair->right.wf());
    assert forall|k: int| 0 <= k < after.panes.len() implies {
        let pane = #[trigger] after.panes[k];
        pane.wf() && pane.id < after.next_id && pane.terminal < after.next_id
    } by {
        if k < a + 1 {
            assert(after.panes[k] == before.panes[k]);
        } else if k > a + 1 {
            assert(after.panes[k] == before.panes[k - 1]);
        }
    }
}

/// A new number among distinct ones leaves them distinct.
proof fn lemma_insert_distinct(s: Seq<usize>, i: int, x: usize)
    requires
        s.no_duplicates(),
        !s.contains(x),
        0 <= i <= s.len(),
    ensures
        s.insert(i, x).no_duplicates(),
{
    let t = s.insert(i, x);
    assert forall|j: int, k: int| 0 <= j < t.len() && 0 <= k < t.len() && j != k implies t[j]
        != t[k] by {
        let j0 = if j < i { j } else { j - 1 };
        let k0 = if k < i { k } else { k - 1 };
        if j != i {
            assert(t[j] == s[j0]);
            assert(s.contains(s[j0]));
        }
        if k != i {
            assert(t[k] == s[k0]);
            assert(s.contains(s[k0]));
        }
    }
}

/// Closing a pane keeps the state whole.
pub proof fn lemma_remove_wf(before: AppView, i: int)
    requires
        before.wf(),
        0 <= i < before.panes.len(),
    ensures
        before.closed_at(i).wf(),
        model::ids(before.panes)[i] == before.panes[i].id,
        before.root.panes().contains(before.panes[i].id),
{
    let rest = before.panes.remove(i);
    let old_ids = model::ids(before.panes);
    assert(old_ids[i] == before.panes[i].id);
    assert(model::ids(rest) =~= old_ids.remove(i));
    assert(model::terminals(rest) =~= model::terminals(before.panes).remove(i));
    lemma_remove_distinct(old_ids, i);
    lemma_remove_distinct(model::terminals(before.panes), i);
    assert forall|k: int| 0 <= k < rest.len() implies {
        let pane = #[trigger] rest[k];
        pane.wf() && pane.id < before.next_id && pane.terminal < before.next_id
    } by {
        if k < i {
            assert(rest[k] == before.panes[k]);
        } else {
            assert(rest[k] == before.panes[k + 1]);
        }
    }
    if before.panes.len() > 1 {
        if before.root is Leaf {
            assert(before.root.panes().len() == 1);
        }
        layout_laws::law_collapse_keeps_order(before.root, i);
    }
}

/// Distinct numbers without one of them are distinct.
pub proof fn lemma_remove_distinct(s: Seq<usize>, i: int)
    requires
        s.no_duplicates(),
        0 <= i < s.len(),
    ensures
        s.remove(i).no_duplicates(),
{
    let t = s.remove(i);
    assert forall|j: int, k: int| 0 <= j < t.len() && 0 <= k < t.len() && j != k implies t[j]
        != t[k] by {
        let j0 = if j < i { j } else { j + 1 };
        let k0 = if k < i { k } else { k + 1 };
        assert(t[j] == s[j0]);
        assert(t[k] == s[k0]);
    }
}

/// Exchanging terminals keeps the state whole.
pub proof fn lemma_swap_wf(before: AppView, other: int)
    requires
        before.wf(),
        before.panes.len() > 0,
        0 <= other < before.panes.len(),
        other != before.active_index,
    ensures
        before.swapped(other).wf(),
{
    let after = before.swapped(other);
    let a = before.active_index;
    let old_terms = model::terminals(before.panes);
    let new_terms = model::terminals(after.panes);
    assert(model::ids(after.panes) =~= model::ids(before.panes));
    assert(new_terms =~= old_terms.update(a, old_terms[other]).update(other, old_terms[a]));
    assert forall|j: int, k: int|
        0 <= j < new_terms.len() && 0 <= k < new_terms.len() && j != k implies new_terms[j]
        != new_terms[k] by {
        let j0 = if j == a { other } else if j == other { a } else { j };
        let k0 = if k == a { other } else if k == other { a } else { k };
        assert(new_terms[j] == old_terms[j0]);
        assert(new_terms[k] == old_terms[k0]);
    }
    assert forall|k: int| 0 <= k < after.panes.len() implies {
        let pane = #[trigger] after.panes[k];
        pane.wf() && pane.id < after.next_id && pane.terminal < after.next_id
    } by {
        assert(before.panes[k].wf());
        assert(before.panes[a].wf());
        assert(before.panes[other].wf());
        pane::lemma_rebuilt_wf(before.panes[a], before.panes[other]);
        pane::lemma_rebuilt_wf(before.panes[other], before.panes[a]);
    }
}

/// Whether the screen is to be cleared changes nothing else that is drawn.
pub proof fn lemma_drawn(s: AppView)
    ensures
        s.drawn().visible_ops() == s.visible_ops(),
        s.drawn().instruction_ops() == s.instruction_ops(),
        s.drawn().cursor_ops() == s.cursor_ops(),
{
    lemma_panes_drawn(s, s.panes.len());
}

/// The same for the first `n` panes.
proof fn lemma_panes_drawn(s: AppView, n: nat)
    ensures
        s.drawn().panes_ops(n) == s.panes_ops(n),
    decreases n,
{
    if n > 0 {
        lemma_panes_drawn(s, (n - 1) as nat);
    }
}

/// The pane of a new terminal is whole.
pub proof fn lemma_new_pane_wf(id: usize, pid: u32)
    ensures
        AppView::new_pane(id, pid).wf(),
{
}

} // verus!
