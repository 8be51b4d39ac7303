//! Browsing weekly history one week at a time.
use vstd::prelude::*;
use crate::history::WeeklyHistory;

verus! {

/// Which week of history is shown, and on which tab.
pub struct StatsApp {
    /// Newest week first.
    pub histories: Vec<WeeklyHistory>,
    pub current_week_index: usize,
    /// 0: overview, 1: heat map.
    pub current_tab: usize,
}

impl StatsApp {
    /// Starts at the newest week, on the overview.
    pub fn new(histories: Vec<WeeklyHistory>) -> (r: StatsApp)
        ensures
            r.histories == histories,
            r.current_week_index == 0,
            r.current_tab == 0,
    {
        StatsApp { histories, current_week_index: 0, current_tab: 0 }
    }

    /// Moves to the next older week, if there is one.
    pub fn next_week(&mut self)
        ensures
            final(self).histories == old(self).histories,
            final(self).current_tab == old(self).current_tab,
            final(self).current_week_index == if old(self).current_week_index + 1 < old(self).histories@.len() {
                old(self).current_week_index + 1
            } else {
                old(self).current_week_index as int
            },
    {
        if self.histories.len() > 0 && self.current_week_index < self.histories.len() - 1 {
            self.current_week_index = self.current_week_index + 1;
        }
    }

    /// Moves to the next newer week, if there is one.
    pub fn previous_week(&mut self)
        ensures
            final(self).histories == old(self).histories,
            final(self).current_tab == old(self).current_tab,
            final(self).current_week_index == if old(self).current_week_index > 0 {
                old(self).current_week_index - 1
            } else {
                0
            },
    {
        if self.current_week_index > 0 {
            self.current_week_index = self.current_week_index - 1;
        }
    }

    /// Switches between the two tabs.
    pub fn next_tab(&mut self)
        ensures
            final(self).histories == old(self).histories,
            final(self).current_week_index == old(self).current_week_index,
            final(self).current_tab == (old(self).current_tab + 1) % 2,
    {
        let t = self.current_tab;
        assert((t % 2 + 1) % 2 == (t + 1) % 2) by (nonlinear_arith);
        self.current_tab = (t % 2 + 1) % 2;
    }

    /// The week shown, if the index is within the history.
    pub fn current_data(&self) -> (r: Option<&WeeklyHistory>)
        ensures
            self.current_week_index < self.histories@.len() ==> r == Some(&self.histories@[self.current_week_index as int]),
            self.current_week_index >= self.histories@.len() ==> r is None,
    {
        if self.current_week_index < self.histories.len() {
            Some(&self.histories[self.current_week_index])
        } else {
            None
        }
    }
}

} // verus!
