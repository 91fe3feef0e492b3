use vstd::prelude::*;
use crate::extra::ExtraData;
use crate::logfile::{Event, EventHandler, EventRec};
use crate::task::TimeMs;
use crate::trigger::{spec_slice, TriggerType, TriggerTypes};

verus! {

/// The display state of one tab: the last text and name shown, the
/// slices of the triggers currently matching, the classification of
/// the last trigger that fired, and when the next refresh is due.
pub struct TabState {
    pub trigger_type: TriggerType,
    pub slices: ExtraData,
    pub text: String,
    pub name: String,
    pub next_time: TimeMs,
    pub seen: Ghost<Seq<EventRec>>,
}

/// A tab that has displayed nothing yet.
pub open spec fn fresh_tab(t: TabState) -> bool {
    &&& t.trigger_type == TriggerType::NoEvent
    &&& t.slices.spec_entries().len() == 0
    &&& t.text@.len() == 0
    &&& t.name@.len() == 0
    &&& t.next_time == 0
    &&& t.seen@.len() == 0
}

impl TabState {
    pub fn new() -> (r: Self)
        ensures
            fresh_tab(r),
    {
        Self {
            trigger_type: TriggerType::NoEvent,
            slices: ExtraData::new(),
            text: String::new(),
            name: String::new(),
            next_time: 0,
            seen: Ghost(Seq::empty()),
        }
    }

    /// Folds one event into the display state: a firing trigger
    /// records its slice and its classification; one that no longer
    /// fires clears its recorded slice; the text and name shown
    /// follow a firing trigger, or fill an empty tab; the due time
    /// always follows the event's task.
    pub fn apply_event(&mut self, event: &Event)
        ensures
            final(self).seen == old(self).seen,
            (match event.trigger {
                Some(t) => {
                    if event.did_trigger {
                        &&& final(self).trigger_type == t.spec_type()
                        &&& final(self).slices.map_get(t.spec_name()) == Some(
                            if t.spec_ok() {
                                spec_slice(t.spec_pattern(), event.text@)
                            } else {
                                Seq::<char>::empty()
                            },
                        )
                        &&& forall|k: Seq<char>|
                            k != t.spec_name() ==> #[trigger] final(self).slices.map_get(k) == old(
                                self,
                            ).slices.map_get(k)
                    } else {
                        &&& final(self).trigger_type == old(self).trigger_type
                        &&& final(self).slices.map_get(t.spec_name()) is None
                        &&& forall|k: Seq<char>|
                            k != t.spec_name() ==> #[trigger] final(self).slices.map_get(k) == old(
                                self,
                            ).slices.map_get(k)
                    }
                },
                None => final(self).trigger_type == old(self).trigger_type && final(self).slices
                    == old(self).slices,
            }),
            (event.did_trigger || old(self).name@.len() == 0) ==> final(self).text@ == event.text@
                && final(self).name@ == event.name@,
            !(event.did_trigger || old(self).name@.len() == 0) ==> final(self).text == old(
                self,
            ).text && final(self).name == old(self).name,
            event.task.start + event.task.delay <= u128::MAX ==> final(self).next_time
                == event.task.start + event.task.delay,
            event.task.start + event.task.delay > u128::MAX ==> final(self).next_time == u128::MAX,
    {
        match &event.trigger {
            Some(trigger) => {
                if event.did_trigger {
                    let slice = match trigger.slice(event.text.as_str()) {
                        Ok(s) => s,
                        Err(_) => String::new(),
                    };
                    self.slices.put(trigger.name(), slice.as_str());
                    self.trigger_type = trigger.get_type();
                } else {
                    self.slices.remove(trigger.name());
                }
            },
            None => {},
        }
        if event.did_trigger || self.name.as_str().is_empty() {
            self.text = event.text.clone();
            self.name = event.name.clone();
        }
        self.next_time = event.task.next_time();
    }
}

impl EventHandler for TabState {
    open spec fn events(&self) -> Seq<EventRec> {
        self.seen@
    }

    fn on_event(&mut self, event: &Event) {
        self.apply_event(event);
        proof {
            self.seen@ = self.seen@.push(event.rec());
        }
    }
}

/// Cyclic tab selection and scrolling over a fixed number of tabs.
pub struct TabManager {
    pub state: Vec<TabState>,
    pub max: usize,
    pub index: usize,
    pub scroll: (u16, u16),
    pub tab_offset: usize,
}

impl TabManager {
    /// A manager over `max` fresh tabs.
    pub fn new(max: usize) -> (r: Self)
        ensures
            r.max == max,
            r.index == 0,
            r.tab_offset == 0,
            r.scroll == (0u16, 0u16),
            r.state@.len() == max,
            forall|i: int| 0 <= i < max ==> fresh_tab(#[trigger] r.state@[i]),
    {
        let mut state: Vec<TabState> = Vec::new();
        let mut i: usize = 0;
        while i < max
            invariant
                i <= max,
                state@.len() == i,
                forall|j: int| 0 <= j < i ==> fresh_tab(#[trigger] state@[j]),
            decreases max - i,
        {
            state.push(TabState::new());
            i = i + 1;
        }
        Self { state, max, index: 0, scroll: (0, 0), tab_offset: 0 }
    }

    /// Scrolls one line up, saturating at the top.
    pub fn up(&mut self)
        ensures
            final(self).scroll.0 == (if old(self).scroll.0 < u16::MAX {
                (old(self).scroll.0 + 1) as u16
            } else {
                old(self).scroll.0
            }),
            final(self).scroll.1 == old(self).scroll.1,
            final(self).state == old(self).state,
            final(self).max == old(self).max,
            final(self).index == old(self).index,
            final(self).tab_offset == old(self).tab_offset,
    {
        if self.scroll.0 < u16::MAX {
            self.scroll.0 = self.scroll.0 + 1;
        }
    }

    /// Scrolls one line down, saturating at zero.
    pub fn down(&mut self)
        ensures
            final(self).scroll.0 == (if old(self).scroll.0 > 0 {
                (old(self).scroll.0 - 1) as u16
            } else {
                old(self).scroll.0
            }),
            final(self).scroll.1 == old(self).scroll.1,
            final(self).state == old(self).state,
            final(self).max == old(self).max,
            final(self).index == old(self).index,
            final(self).tab_offset == old(self).tab_offset,
    {
        if self.scroll.0 > 0 {
            self.scroll.0 = self.scroll.0 - 1;
        }
    }

    /// Selects the next tab, wrapping to the first, and resets the
    /// scroll position.
    pub fn next(&mut self)
        requires
            old(self).max >= 1,
        ensures
            final(self).scroll == (0u16, 0u16),
            final(self).index == (if old(self).index >= old(self).max - 1 {
                0
            } else {
                (old(self).index + 1) as usize
            }),
            final(self).state == old(self).state,
            final(self).max == old(self).max,
            final(self).tab_offset == old(self).tab_offset,
    {
        self.scroll = (0, 0);
        if self.index >= self.max - 1 {
            self.index = 0;
        } else {
            self.index = self.index + 1;
        }
    }

    /// Selects the previous tab, wrapping to the last, and resets the
    /// scroll position.
    pub fn prev(&mut self)
        requires
            old(self).max >= 1,
        ensures
            final(self).scroll == (0u16, 0u16),
            final(self).index == (if old(self).index == 0 {
                (old(self).max - 1) as usize
            } else {
                (old(self).index - 1) as usize
            }),
            final(self).state == old(self).state,
            final(self).max == old(self).max,
            final(self).tab_offset == old(self).tab_offset,
    {
        self.scroll = (0, 0);
        if self.index == 0 {
            self.index = self.max - 1;
        } else {
            self.index = self.index - 1;
        }
    }

    /// Advances the first tab shown, wrapping to the first.
    pub fn next_offset(&mut self)
        requires
            old(self).max >= 1,
        ensures
            final(self).tab_offset == (if old(self).tab_offset >= old(self).max - 1 {
                0
            } else {
                (old(self).tab_offset + 1) as usize
            }),
            final(self).state == old(self).state,
            final(self).max == old(self).max,
            final(self).index == old(self).index,
            final(self).scroll == old(self).scroll,
    {
        if self.tab_offset >= self.max - 1 {
            self.tab_offset = 0;
        } else {
            self.tab_offset = self.tab_offset + 1;
        }
    }

    /// Moves the first tab shown back, wrapping to the last.
    pub fn prev_offset(&mut self)
        requires
            old(self).max >= 1,
        ensures
            final(self).tab_offset == (if old(self).tab_offset == 0 {
                (old(self).max - 1) as usize
            } else {
                (old(self).tab_offset - 1) as usize
            }),
            final(self).state == old(self).state,
            final(self).max == old(self).max,
            final(self).index == old(self).index,
            final(self).scroll == old(self).scroll,
    {
        if self.tab_offset == 0 {
            self.tab_offset = self.max - 1;
        } else {
            self.tab_offset = self.tab_offset - 1;
        }
    }
}

} // verus!
