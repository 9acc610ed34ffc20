//! What reaches the multiplexer: the keys and sizes of the outer terminal, and the output of
//! the programs in its panes.
use vstd::prelude::*;

use crate::keys::Key;

verus! {

/// An event of the outer terminal.
#[derive(Debug)]
pub enum Event {
    /// It has `width` columns and `height` rows now.
    Resize { width: u16, height: u16 },
    /// A key was pressed. `label` is its full description.
    Key { key: Key, label: String },
    /// Anything else.
    Other,
}

/// The value of an event.
pub enum EventView {
    Resize { width: u16, height: u16 },
    Key { key: Key, label: Seq<char> },
    Other,
}

impl View for Event {
    type V = EventView;

    open spec fn view(&self) -> EventView {
        match *self {
            Event::Resize { width, height } => EventView::Resize { width, height },
            Event::Key { key, label } => EventView::Key { key, label: label@ },
            Event::Other => EventView::Other,
        }
    }
}

/// What a look at the output of a terminal found.
#[derive(Debug)]
pub enum Polled {
    /// The program has written these bytes.
    Data(Vec<u8>),
    /// The program has closed its output.
    Eof,
    /// There is nothing at the moment.
    Empty,
    /// Nothing will come any more.
    Disconnected,
}

/// The value of what was found.
pub enum PolledView {
    Data(Seq<u8>),
    Eof,
    Empty,
    Disconnected,
}

impl View for Polled {
    type V = PolledView;

    open spec fn view(&self) -> PolledView {
        match *self {
            Polled::Data(data) => PolledView::Data(data@),
            Polled::Eof => PolledView::Eof,
            Polled::Empty => PolledView::Empty,
            Polled::Disconnected => PolledView::Disconnected,
        }
    }
}

/// What is known after looking at some terminals: the panes whose terminals have ended, and
/// whether anything has changed.
#[derive(Debug)]
pub struct Drain {
    pub dead: Vec<usize>,
    pub dirty: bool,
}

/// The value of what is known.
#[verifier::ext_equal]
pub struct DrainView {
    pub dead: Seq<usize>,
    pub dirty: bool,
}

impl View for Drain {
    type V = DrainView;

    open spec fn view(&self) -> DrainView {
        DrainView { dead: self.dead@, dirty: self.dirty }
    }
}

impl DrainView {
    /// Nothing is known yet.
    pub open spec fn start() -> DrainView {
        DrainView { dead: Seq::empty(), dirty: false }
    }

    /// What is known after another look, at the terminal of pane `id`.
    pub open spec fn after(self, id: usize, found: PolledView) -> DrainView {
        match found {
            PolledView::Data(_) => DrainView { dirty: true, ..self },
            PolledView::Empty => self,
            PolledView::Eof | PolledView::Disconnected => DrainView {
                dead: self.dead.push(id),
                dirty: true,
            },
        }
    }
}

impl Drain {
    /// Nothing is known yet.
    pub fn new() -> (drain: Drain)
        ensures
            drain@ == DrainView::start(),
    {
        Drain { dead: Vec::new(), dirty: false }
    }
}

} // verus!
