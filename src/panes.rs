use vstd::prelude::*;

use crate::collector::{Collector, CollectorView};
use crate::record::MavMsg;
use crate::scroll::ScrollState;

verus! {

/// The two panes: the live table and the event log.
#[derive(Clone, Copy, Debug, PartialEq, Eq, Structural)]
pub enum Panel {
    Stream,
    Events,
}

/// A key press, as far as navigation is concerned.
#[derive(Clone, Copy, Debug, PartialEq, Eq, Structural)]
pub enum Key {
    Quit,
    SwitchPanel,
    Up,
    Down,
    PageUp,
    PageDown,
    Top,
    Bottom,
    Other,
}

/// The viewport after `key` in a pane showing `visible` of `total` rows.
pub open spec fn moved(s: ScrollState, key: Key, total: int, visible: int) -> ScrollState {
    match key {
        Key::Up => s.after_select_up(1),
        Key::Down => s.after_select_down(1, total, visible),
        Key::PageUp => s.after_select_up(visible),
        Key::PageDown => s.after_select_down(visible, total, visible),
        Key::Top => s.after_select_top(),
        Key::Bottom => s.after_select_bottom(total, visible),
        _ => s,
    }
}

pub open spec fn other(p: Panel) -> Panel {
    match p {
        Panel::Stream => Panel::Events,
        Panel::Events => Panel::Stream,
    }
}

/// The inspector's state: the collector and one viewport per pane.
pub struct App {
    pub collector: Collector,
    pub stream_scroll: ScrollState,
    pub events_scroll: ScrollState,
    pub active_panel: Panel,
}

impl App {
    pub open spec fn wf(&self) -> bool {
        self.collector.wf()
    }

    pub open spec fn rows(&self) -> CollectorView {
        self.collector@
    }

    /// Rows in the pane `p`.
    pub open spec fn total_of(&self, p: Panel) -> int {
        match p {
            Panel::Stream => self.rows().live.len() as int,
            Panel::Events => self.rows().log.len() as int,
        }
    }

    pub fn new() -> (r: Self)
        ensures
            r.wf(),
            r.rows().live.len() == 0,
            r.rows().log.len() == 0,
            r.stream_scroll == ScrollState::new_spec(),
            r.events_scroll == ScrollState::new_spec(),
            r.active_panel == Panel::Stream,
    {
        App {
            collector: Collector::new(),
            stream_scroll: ScrollState::new(),
            events_scroll: ScrollState::new(),
            active_panel: Panel::Stream,
        }
    }

    pub fn push(&mut self, msg: MavMsg)
        requires
            old(self).wf(),
        ensures
            final(self).wf(),
            final(self).rows() == old(self).rows().after_push(msg@),
            final(self).stream_scroll == old(self).stream_scroll,
            final(self).events_scroll == old(self).events_scroll,
            final(self).active_panel == old(self).active_panel,
    {
        self.collector.push(msg);
    }

    pub fn toggle_panel(&mut self)
        ensures
            final(self).active_panel == other(old(self).active_panel),
            final(self).stream_scroll == old(self).stream_scroll,
            final(self).events_scroll == old(self).events_scroll,
            final(self).rows() == old(self).rows(),
            final(self).wf() == old(self).wf(),
    {
        self.active_panel = match self.active_panel {
            Panel::Stream => Panel::Events,
            Panel::Events => Panel::Stream,
        };
    }

    /// Rows in the active pane.
    pub fn active_total(&self) -> (r: usize)
        requires
            self.wf(),
        ensures
            r == self.total_of(self.active_panel),
    {
        match self.active_panel {
            Panel::Stream => self.collector.stream().len(),
            Panel::Events => self.collector.messages().len(),
        }
    }

    /// Type name of the highlighted row of the active pane, if it has one.
    pub fn selected_name(&self) -> (r: Option<&str>)
        requires
            self.wf(),
        ensures
            match self.active_panel {
                Panel::Stream => match r {
                    Some(n) => self.stream_scroll.selected < self.rows().live.len()
                        && n@ == self.rows().live[self.stream_scroll.selected as int].name,
                    None => self.stream_scroll.selected >= self.rows().live.len(),
                },
                Panel::Events => match r {
                    Some(n) => self.events_scroll.selected < self.rows().log.len()
                        && n@ == self.rows().log[self.events_scroll.selected as int].name,
                    None => self.events_scroll.selected >= self.rows().log.len(),
                },
            },
    {
        match self.active_panel {
            Panel::Stream => {
                let rows = self.collector.stream();
                let i = self.stream_scroll.selected;
                if i < rows.len() {
                    assert(rows@.map_values(|e: crate::collector::StreamEntry| e@)[i as int] == rows@[i as int]@);
                    Some(rows[i].name.as_str())
                } else {
                    None
                }
            },
            Panel::Events => {
                let rows = self.collector.messages();
                let i = self.events_scroll.selected;
                if i < rows.len() {
                    assert(rows@.map_values(|e: crate::collector::MessageEntry| e@)[i as int] == rows@[i as int]@);
                    Some(rows[i].name.as_str())
                } else {
                    None
                }
            },
        }
    }

    /// Handles one key press in a pane `visible_height` rows tall. Returns
    /// whether the inspector should quit.
    pub fn handle_key(&mut self, key: Key, visible_height: usize) -> (quit: bool)
        requires
            old(self).wf(),
        ensures
            final(self).wf(),
            quit == (key == Key::Quit),
            final(self).rows() == old(self).rows(),
            final(self).active_panel == (if key == Key::SwitchPanel {
                other(old(self).active_panel)
            } else {
                old(self).active_panel
            }),
            old(self).active_panel == Panel::Stream ==> {
                &&& final(self).stream_scroll == moved(old(self).stream_scroll, key,
                    old(self).total_of(Panel::Stream), visible_height as int)
                &&& final(self).events_scroll == old(self).events_scroll
            },
            old(self).active_panel == Panel::Events ==> {
                &&& final(self).events_scroll == moved(old(self).events_scroll, key,
                    old(self).total_of(Panel::Events), visible_height as int)
                &&& final(self).stream_scroll == old(self).stream_scroll
            },
    {
        let total = self.active_total();
        if key == Key::Quit {
            return true;
        }
        if key == Key::SwitchPanel {
            self.toggle_panel();
            return false;
        }
        match self.active_panel {
            Panel::Stream => move_by_key(&mut self.stream_scroll, key, total, visible_height),
            Panel::Events => move_by_key(&mut self.events_scroll, key, total, visible_height),
        }
        false
    }

    /// The per-redraw adjustment of both panes, with the heights they are
    /// drawn at.
    pub fn auto_follow(&mut self, stream_visible: usize, events_visible: usize)
        requires
            old(self).wf(),
        ensures
            final(self).wf(),
            final(self).rows() == old(self).rows(),
            final(self).active_panel == old(self).active_panel,
            final(self).stream_scroll == old(self).stream_scroll.after_auto_follow(
                old(self).total_of(Panel::Stream), stream_visible as int),
            final(self).events_scroll == old(self).events_scroll.after_auto_follow(
                old(self).total_of(Panel::Events), events_visible as int),
    {
        let stream_total = self.collector.stream().len();
        let events_total = self.collector.messages().len();
        self.stream_scroll.auto_follow(stream_total, stream_visible);
        self.events_scroll.auto_follow(events_total, events_visible);
    }
}

fn move_by_key(s: &mut ScrollState, key: Key, total: usize, visible: usize)
    ensures
        *final(s) == moved(*old(s), key, total as int, visible as int),
{
    match key {
        Key::Up => s.select_up(1),
        Key::Down => s.select_down(1, total, visible),
        Key::PageUp => s.select_up(visible),
        Key::PageDown => s.select_down(visible, total, visible),
        Key::Top => s.select_top(),
        Key::Bottom => s.select_bottom(total, visible),
        _ => {},
    }
}

/// Address of the reference page of message type `name`.
pub fn doc_url(name: &str) -> (r: String)
    ensures
        r@ == "https://mavlink.io/en/messages/common.html#"@ + name@,
{
    String::from_str("https://mavlink.io/en/messages/common.html#").concat(name)
}

} // verus!
