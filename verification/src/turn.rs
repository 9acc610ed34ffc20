//! The main loop as a state machine: what the multiplexer waits for next, and what it makes of
//! the answer.
use vstd::prelude::*;

use crate::action;
use crate::action::{Action, ActionView};
use crate::event::{Drain, DrainView, Event, EventView, Polled, PolledView};
use crate::focus;
use crate::layout_laws;
use crate::model;
use crate::model::AppView;
use crate::model_lemmas;
use crate::state::App;

verus! {

/// What the loop wants to be done next.
#[derive(Clone, Copy, Debug, PartialEq, Eq, Structural)]
pub enum Want {
    /// Draw everything.
    Draw,
    /// Look for output in the terminal of the pane at `index`, without waiting.
    Receive { index: usize },
    /// Wait a moment for an event of the outer terminal.
    Wait,
    /// See whether there is another event.
    Poll,
    /// Take the event.
    Read,
    /// End the loop.
    Stop,
}

/// Where the loop is. `drain` is what this turn has found so far.
#[derive(Debug)]
pub struct Turn {
    pub want: Want,
    pub drain: Drain,
}

/// The multiplexer, and where its loop is.
#[verifier::ext_equal]
pub struct RunView {
    pub app: AppView,
    pub want: Want,
    pub drain: DrainView,
}

/// Where the loop is next, and what is asked of the operating system on the way.
pub struct RunStep {
    pub run: RunView,
    pub actions: Seq<ActionView>,
}

impl RunView {
    /// The loop runs while there are panes.
    pub open spec fn wf(self) -> bool {
        &&& self.app.wf()
        &&& !(self.want is Stop) ==> self.app.panes.len() > 0
        &&& self.want is Receive ==> self.want->index < self.app.panes.len()
    }

    /// The start: every pane gets its place, and everything is drawn.
    pub open spec fn start(app: AppView) -> RunStep {
        RunStep {
            run: RunView { app: app.relay().app, want: Want::Draw, drain: DrainView::start() },
            actions: app.relay().actions,
        }
    }

    /// Looking at the terminals from pane `index` on. When all have been looked at, the panes
    /// whose terminals have ended are closed. The loop ends with the last pane.
    pub open spec fn looking(self, index: int) -> RunStep {
        if index < self.app.panes.len() {
            RunStep {
                run: RunView { want: Want::Receive { index: index as usize }, ..self },
                actions: Seq::empty(),
            }
        } else {
            let step = self.app.reap(self.drain.dead);
            RunStep {
                run: RunView {
                    app: step.app,
                    want: if step.app.panes.len() == 0 {
                        Want::Stop
                    } else {
                        Want::Wait
                    },
                    ..self
                },
                actions: step.actions,
            }
        }
    }

    /// A new turn.
    pub open spec fn turned(self) -> RunView {
        RunView { want: Want::Receive { index: 0 }, drain: DrainView::start(), ..self }
    }

    /// Something was found in the terminal that was looked at. The loop looks there until it
    /// finds no more output.
    pub open spec fn received(self, found: PolledView) -> RunStep {
        let index = self.want->index as int;
        let run = RunView {
            app: self.app.received(index, found),
            drain: self.drain.after(self.app.panes[index].id, found),
            ..self
        };
        if found is Data {
            RunStep { run, actions: Seq::empty() }
        } else {
            run.looking(index + 1)
        }
    }

    /// There is an event, or there is none: then the turn is over, and everything is drawn if
    /// anything has changed.
    pub open spec fn ready(self, ready: bool) -> RunView {
        if ready {
            RunView {
                want: if self.want is Wait {
                    Want::Poll
                } else {
                    Want::Read
                },
                ..self
            }
        } else if self.drain.dirty {
            RunView { want: Want::Draw, ..self }
        } else {
            self.turned()
        }
    }

    /// An event has been taken.
    pub open spec fn happened(self, event: EventView) -> RunStep {
        let step = self.app.handle_event(event);
        RunStep {
            run: RunView {
                app: step.app,
                want: Want::Poll,
                drain: DrainView {
                    dirty: self.drain.dirty || !(event is Other),
                    ..self.drain
                },
            },
            actions: step.actions,
        }
    }
}

impl Turn {
    /// The multiplexer `app` with this loop.
    pub open spec fn run(self, app: App) -> RunView {
        RunView { app: app@, want: self.want, drain: self.drain@ }
    }

    /// Starts the loop.
    pub fn new(app: &mut App) -> (result: (Turn, Vec<Action>))
        requires
            old(app)@.wf(),
            old(app)@.panes.len() > 0,
        ensures
            result.0.run(*final(app)).wf(),
            result.0.run(*final(app)) == RunView::start(old(app)@).run,
            action::actions_view(result.1@) == RunView::start(old(app)@).actions,
    {
        let actions = app.recalculate_layout();
        (Turn { want: Want::Draw, drain: Drain::new() }, actions)
    }

    /// Goes on with the terminal of the pane at `index`, or with what was found in them all.
    fn look(&mut self, app: &mut App, index: usize) -> (actions: Vec<Action>)
        requires
            old(app)@.wf(),
            old(app)@.panes.len() > 0,
        ensures
            final(self).run(*final(app)).wf(),
            final(self).run(*final(app)) == old(self).run(*old(app)).looking(index as int).run,
            action::actions_view(actions@) == old(self).run(*old(app)).looking(
                index as int,
            ).actions,
    {
        if index < app.panes.len() {
            self.want = Want::Receive { index };
            let actions: Vec<Action> = Vec::new();
            assert(action::actions_view(actions@) =~= Seq::<ActionView>::empty());
            actions
        } else {
            let (keep_running, actions) = app.drain_output(&self.drain);
            self.want =
            if keep_running {
                Want::Wait
            } else {
                Want::Stop
            };
            actions
        }
    }

    /// Everything has been drawn: the next turn begins.
    pub fn drawn(&mut self, app: &App)
        requires
            old(self).run(*app).wf(),
            old(self).want is Draw,
        ensures
            final(self).run(*app).wf(),
            final(self).run(*app) == old(self).run(*app).turned(),
    {
        self.drain = Drain::new();
        self.want = Want::Receive { index: 0 };
    }

    /// Takes what was found in the terminal that was looked at.
    pub fn received(&mut self, app: &mut App, found: Polled) -> (actions: Vec<Action>)
        requires
            old(self).run(*old(app)).wf(),
            old(self).want is Receive,
        ensures
            final(self).run(*final(app)).wf(),
            final(self).run(*final(app)) == old(self).run(*old(app)).received(found@).run,
            action::actions_view(actions@) == old(self).run(*old(app)).received(found@).actions,
    {
        let index: usize = match self.want {
            Want::Receive { index } => index,
            _ => 0,
        };
        let more = app.receive(index, found, &mut self.drain);
        if more {
            let actions: Vec<Action> = Vec::new();
            assert(action::actions_view(actions@) =~= Seq::<ActionView>::empty());
            actions
        } else {
            assert(index < app.panes.len());
            self.look(app, index + 1)
        }
    }

    /// Takes the answer whether there is an event.
    pub fn ready(&mut self, app: &App, ready: bool)
        requires
            old(self).run(*app).wf(),
            old(self).want is Wait || old(self).want is Poll,
        ensures
            final(self).run(*app).wf(),
            final(self).run(*app) == old(self).run(*app).ready(ready),
    {
        if ready {
            self.want =
            match self.want {
                Want::Wait => Want::Poll,
                _ => Want::Read,
            };
        } else if self.drain.dirty {
            self.want = Want::Draw;
        } else {
            self.drain = Drain::new();
            self.want = Want::Receive { index: 0 };
        }
    }

    /// Takes an event.
    pub fn happened(&mut self, app: &mut App, event: Event) -> (actions: Vec<Action>)
        requires
            old(self).run(*old(app)).wf(),
            old(self).want is Read,
            old(app)@.accepts(event@),
        ensures
            final(self).run(*final(app)).wf(),
            final(self).run(*final(app)) == old(self).run(*old(app)).happened(event@).run,
            action::actions_view(actions@) == old(self).run(*old(app)).happened(event@).actions,
    {
        proof {
            lemma_event_keeps_panes(app@, event@);
        }
        let (changed, actions) = app.handle_event(event);
        if changed {
            self.drain.dirty = true;
        }
        self.want = Want::Poll;
        actions
    }
}

/// No event of the outer terminal opens or closes a pane by itself.
proof fn lemma_event_keeps_panes(app: AppView, event: EventView)
    requires
        app.wf(),
        app.panes.len() > 0,
    ensures
        app.handle_event(event).app.panes.len() == app.panes.len(),
{
    if let EventView::Key { key, label } = event {
        if let Some(direction) = key.code.arrow() {
            let distances = focus::swap_distances(app.panes, app.active_index, direction);
            if let Some(other) = focus::closest(distances) {
                assert(focus::is_closest(distances, other));
            }
        }
    }
}

/// A change is not forgotten before it is drawn: output, ended terminals, keys and sizes mark
/// the turn, nothing but the end of the turn takes the mark away, and then everything is drawn.
pub proof fn law_changes_are_drawn(
    run: RunView,
    found: PolledView,
    event: EventView,
)
    requires
        run.wf(),
    ensures
        run.want is Receive && (run.drain.dirty || !(found is Empty)) ==> run.received(
            found,
        ).run.drain.dirty,
        run.want is Read && (run.drain.dirty || !(event is Other)) ==> run.happened(
            event,
        ).run.drain.dirty,
        run.ready(true).drain.dirty == run.drain.dirty,
        run.ready(false).want is Draw <==> run.drain.dirty,
{
}

/// Nothing is drawn in a turn in which nothing happens: the next turn begins at once.
pub proof fn law_idle_turn_draws_nothing(run: RunView)
    requires
        run.wf(),
        run.want is Wait,
        !run.drain.dirty,
    ensures
        run.ready(false) == run.turned(),
        run.ready(false).wf(),
{
}

/// The loop ends exactly when the last pane has been closed.
pub proof fn law_loop_ends_with_the_last_pane(run: RunView, found: PolledView)
    requires
        run.wf(),
        run.want is Receive,
    ensures
        run.received(found).run.want is Stop <==> run.received(found).run.app.panes.len() == 0,
{
}

/// Every terminal is looked at in every turn, in the order of the panes, until it has no more
/// output.
pub proof fn law_every_terminal_is_looked_at(run: RunView, found: PolledView)
    requires
        run.wf(),
        run.want is Receive,
    ensures
        ({
            let next = run.received(found).run;
            let index = run.want->index;
            if found is Data {
                next.want == run.want
            } else if index + 1 < run.app.panes.len() {
                next.want == (Want::Receive { index: (index + 1) as usize })
            } else {
                next.want is Wait || next.want is Stop
            }
        }),
{
}

/// A terminal that has been started can be given its place between two steps of the loop.
pub proof fn law_split_keeps_the_loop_going(
    run: RunView,
    id: usize,
    vertical: bool,
    pid: u32,
)
    requires
        run.wf(),
        !(run.want is Stop),
        id < run.app.next_id,
        !model::ids(run.app.panes).contains(id),
        !model::terminals(run.app.panes).contains(id),
    ensures
        ({
            let app = run.app.complete_split(id, vertical, pid).app;
            (RunView { app, ..run }).wf()
        }),
{
    let s = run.app;
    let grown = AppView {
        root: s.root.with_leaf(
            s.active().id,
            layout_laws::split_node(s.active().id, id, vertical),
        ),
        panes: s.panes.insert(s.active_index + 1, AppView::new_pane(id, pid)),
        active_index: s.active_index + 1,
        full_redraw: true,
        ..s
    };
    model_lemmas::lemma_new_pane_wf(id, pid);
    model_lemmas::lemma_split_wf(s, grown, id, vertical);
    model_lemmas::lemma_relaid_wf(grown);
}

/// The steps of the loop: it starts by drawing, then looks at the first terminal; after the last
/// terminal it waits for an event, sees whether one is there and takes it, one after the other,
/// until there is none. What it waits for changes nothing of the multiplexer itself.
pub proof fn law_the_loop_goes_round(run: RunView, event: EventView, found: PolledView)
    requires
        run.wf(),
        !(run.want is Stop),
    ensures
        RunView::start(run.app).run.want is Draw,
        RunView::start(run.app).run.app == run.app.relay().app,
        RunView::start(run.app).actions == run.app.relay().actions,
        run.turned() == (RunView {
            app: run.app,
            want: Want::Receive { index: 0 },
            drain: DrainView { dead: Seq::empty(), dirty: false },
        }),
        run.want is Wait ==> run.ready(true) == (RunView { want: Want::Poll, ..run }),
        run.want is Poll ==> run.ready(true) == (RunView { want: Want::Read, ..run }),
        run.drain.dirty ==> run.ready(false) == (RunView { want: Want::Draw, ..run }),
        !run.drain.dirty ==> run.ready(false) == run.turned(),
        run.want is Read ==> {
            let next = run.happened(event);
            &&& next.run.want is Poll
            &&& next.run.app == run.app.handle_event(event).app
            &&& next.actions == run.app.handle_event(event).actions
            &&& next.run.drain.dead == run.drain.dead
        },
        run.want is Receive ==> {
            let next = run.received(found);
            let index = run.want->index as int;
            let id = run.app.panes[index].id;
            &&& found is Data || index + 1 < run.app.panes.len() ==> {
                &&& next.run.app == run.app.received(index, found)
                &&& next.actions == Seq::<ActionView>::empty()
                &&& next.run.drain.dead == (if found is Eof || found is Disconnected {
                    run.drain.dead.push(id)
                } else {
                    run.drain.dead
                })
            }
            &&& !(found is Data) && index + 1 == run.app.panes.len() ==> {
                let dead = if found is Eof || found is Disconnected {
                    run.drain.dead.push(id)
                } else {
                    run.drain.dead
                };
                &&& next.run.app == run.app.reap(dead).app
                &&& next.actions == run.app.reap(dead).actions
            }
        },
{
}

} // verus!
