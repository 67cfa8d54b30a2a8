//! The state of the live display and how it answers keys: navigating the
//! hotspot list, the search prompt, the help screen and the frozen detail
//! view of one hotspot.
use crate::analysis::hotspot_analyzer::{
    ranked_hotspot, sample_total, FunctionHotspot, HotspotStats,
};
use crate::trace_data::{LiveData, TraceEvent};
use crate::tui::hotspot::{matching, same_hotspots, HotspotView};
use crate::text::{chars_of, pop_char, push_char};
use vstd::prelude::*;

verus! {

/// The keys the display reacts to.
#[derive(Debug, Clone, Copy, PartialEq, Eq, Structural)]
pub enum Key {
    /// A printable character.
    Char(char),
    /// Arrow up.
    Up,
    /// Arrow down.
    Down,
    /// Enter.
    Enter,
    /// Escape.
    Esc,
    /// Backspace.
    Backspace,
    /// Any other key.
    Other,
}

/// What the display shows and how keys are read.
#[derive(Debug, Clone, Copy, PartialEq, Eq, Structural)]
pub enum AppMode {
    /// Hotspot list, workers and timeline.
    Analysis,
    /// Details of one hotspot, frozen.
    DrillDown,
    /// Typing a search query.
    Search,
    /// The help screen.
    Help,
}

/// The live display's state.
pub struct LiveApp {
    /// Samples collected so far.
    pub live_data: LiveData,
    /// Incremental hotspot statistics.
    pub hotspot_stats: HotspotStats,
    /// The hotspot list, once built.
    pub hotspot_view: Option<HotspotView>,
    /// What is shown.
    pub view_mode: AppMode,
    /// The search query being typed or applied.
    pub search_query: String,
    /// Whether the user asked to quit.
    pub should_quit: bool,
    /// The hotspot shown in the detail view.
    pub frozen_hotspot: Option<FunctionHotspot>,
}

impl LiveApp {
    /// The state's invariant: the accumulators are well formed and have seen
    /// the same samples.
    pub open spec fn wf(&self) -> bool {
        &&& self.live_data.wf()
        &&& self.hotspot_stats.wf()
        &&& self.hotspot_stats.recorded() == self.live_data.events()
    }

    /// A fresh display: no samples, the analysis view.
    pub fn new() -> (r: Self)
        ensures
            r.wf(),
            r.live_data.events().len() == 0,
            r.view_mode == AppMode::Analysis,
            r.search_query@.len() == 0,
            !r.should_quit,
            r.hotspot_view is None,
            r.frozen_hotspot is None,
    {
        let live_data = LiveData::new();
        let hotspot_stats = HotspotStats::new();
        assert(hotspot_stats.recorded() =~= live_data.events());
        LiveApp {
            live_data,
            hotspot_stats,
            hotspot_view: None,
            view_mode: AppMode::Analysis,
            search_query: String::new(),
            should_quit: false,
            frozen_hotspot: None,
        }
    }

    /// Takes in one sample: counted in the statistics and kept in the
    /// session's data.
    pub fn ingest(&mut self, event: TraceEvent)
        requires
            old(self).wf(),
            sample_total(old(self).live_data.events()) < usize::MAX,
        ensures
            final(self).wf(),
            final(self).live_data.events() == old(self).live_data.events().push(event),
            final(self).view_mode == old(self).view_mode,
    {
        self.hotspot_stats.record_event(&event);
        self.live_data.add_event(event);
    }

    /// `self` and `o` agree on the quit request, the query, the hotspot list
    /// and the frozen hotspot.
    pub open spec fn same_state(&self, o: &LiveApp) -> bool {
        &&& self.should_quit == o.should_quit
        &&& self.search_query@ == o.search_query@
        &&& self.hotspot_view == o.hotspot_view
        &&& self.frozen_hotspot == o.frozen_hotspot
    }

    /// `self` and `o` agree on all of `same_state` but the query.
    pub open spec fn keeps_all_but_query(&self, o: &LiveApp) -> bool {
        &&& self.should_quit == o.should_quit
        &&& self.hotspot_view == o.hotspot_view
        &&& self.frozen_hotspot == o.frozen_hotspot
    }

    /// `self` and `o` have the same query and hotspot list.
    pub open spec fn keeps_list_and_query(&self, o: &LiveApp) -> bool {
        &&& self.search_query@ == o.search_query@
        &&& self.hotspot_view == o.hotspot_view
    }

    /// Answers a key press.
    ///
    /// In the analysis view: `q` quits, the arrows move the selection, Enter
    /// freezes the selected hotspot and opens its details, `/` opens an
    /// empty search prompt, `c` clears the filter, `?` opens the help. In
    /// the search prompt: Escape closes it and empties the query, Enter
    /// applies the query as the filter, Backspace deletes a character and
    /// other characters are typed. Any key closes the help. Escape or `q`
    /// closes the details.
    pub fn handle_key(&mut self, key: Key)
        ensures
            final(self).live_data == old(self).live_data,
            final(self).hotspot_stats == old(self).hotspot_stats,
            match old(self).view_mode {
                AppMode::Analysis => match key {
                    Key::Char(c) => if c == 'q' || c == 'Q' {
                        final(self).should_quit && final(self).view_mode == AppMode::Analysis
                            && final(self).keeps_list_and_query(old(self))
                            && final(self).frozen_hotspot == old(self).frozen_hotspot
                    } else if c == '/' {
                        final(self).view_mode == AppMode::Search && final(self).search_query@.len() == 0
                            && final(self).should_quit == old(self).should_quit
                            && final(self).hotspot_view == old(self).hotspot_view
                            && final(self).frozen_hotspot == old(self).frozen_hotspot
                    } else if c == '?' {
                        final(self).view_mode == AppMode::Help && final(self).same_state(old(self))
                    } else if c == 'c' || c == 'C' {
                        final(self).view_mode == AppMode::Analysis
                            && final(self).should_quit == old(self).should_quit
                            && final(self).search_query@ == old(self).search_query@
                            && final(self).frozen_hotspot == old(self).frozen_hotspot
                            && match old(self).hotspot_view {
                            Some(hv) => final(self).hotspot_view matches Some(nv) && same_hotspots(nv.shown(), hv.all())
                                && !nv.filtered() && nv.selected() == 0 && nv.offset() == 0 && nv.all() == hv.all()
                                && nv.mode() == hv.mode(),
                            None => final(self).hotspot_view is None,
                        }
                    } else {
                        final(self).view_mode == AppMode::Analysis && final(self).same_state(old(self))
                    },
                    Key::Up => final(self).view_mode == AppMode::Analysis
                        && final(self).should_quit == old(self).should_quit
                        && final(self).search_query@ == old(self).search_query@
                        && final(self).frozen_hotspot == old(self).frozen_hotspot
                        && match old(self).hotspot_view {
                        Some(hv) => final(self).hotspot_view matches Some(nv) && nv.selected() == (if hv.selected() > 0 {
                            (hv.selected() - 1) as usize
                        } else {
                            0
                        }) && nv.offset() == (if hv.selected() > 0 && (hv.selected() - 1) < hv.offset() {
                            (hv.selected() - 1) as usize
                        } else {
                            hv.offset()
                        }) && nv.keeps_lines(&hv),
                        None => final(self).hotspot_view is None,
                    },
                    Key::Down => final(self).view_mode == AppMode::Analysis
                        && final(self).should_quit == old(self).should_quit
                        && final(self).search_query@ == old(self).search_query@
                        && final(self).frozen_hotspot == old(self).frozen_hotspot
                        && match old(self).hotspot_view {
                        Some(hv) => final(self).hotspot_view matches Some(nv) && nv.selected() == (if hv.selected() + 1
                            < hv.line_count() {
                            (hv.selected() + 1) as usize
                        } else {
                            hv.selected()
                        }) && nv.offset() == hv.offset() && nv.keeps_lines(&hv),
                        None => final(self).hotspot_view is None,
                    },
                    Key::Enter => final(self).should_quit == old(self).should_quit
                        && final(self).search_query@ == old(self).search_query@
                        && final(self).hotspot_view == old(self).hotspot_view
                        && match old(self).hotspot_view {
                        Some(hv) => if hv.selected() < hv.shown().len() {
                            final(self).view_mode == AppMode::DrillDown && (final(self).frozen_hotspot matches Some(h)
                                && h.same_as(&hv.shown()[hv.selected() as int]))
                        } else {
                            final(self).view_mode == AppMode::Analysis && final(self).frozen_hotspot is None
                        },
                        None => final(self).view_mode == AppMode::Analysis && final(self).frozen_hotspot is None,
                    },
                    _ => final(self).view_mode == AppMode::Analysis && final(self).same_state(old(self)),
                },
                AppMode::Search => match key {
                    Key::Esc => final(self).view_mode == AppMode::Analysis && final(self).search_query@.len() == 0
                        && final(self).keeps_all_but_query(old(self)),
                    Key::Enter => final(self).view_mode == AppMode::Analysis
                        && final(self).search_query@ == old(self).search_query@
                        && final(self).should_quit == old(self).should_quit
                        && final(self).frozen_hotspot == old(self).frozen_hotspot
                        && match old(self).hotspot_view {
                        Some(hv) => final(self).hotspot_view matches Some(nv) && (if old(self).search_query@.len()
                            == 0 {
                            same_hotspots(nv.shown(), hv.all()) && !nv.filtered()
                        } else {
                            same_hotspots(nv.shown(), matching(hv.all(), old(self).search_query@)) && nv.filtered()
                        }) && nv.selected() == 0 && nv.offset() == 0 && nv.all() == hv.all() && nv.mode() == hv.mode(),
                        None => final(self).hotspot_view is None,
                    },
                    Key::Backspace => final(self).view_mode == AppMode::Search && final(self).search_query@
                        == (if old(self).search_query@.len() > 0 {
                        old(self).search_query@.drop_last()
                    } else {
                        old(self).search_query@
                    }) && final(self).keeps_all_but_query(old(self)),
                    Key::Char(c) => final(self).view_mode == AppMode::Search && final(self).search_query@
                        == old(self).search_query@.push(c) && final(self).keeps_all_but_query(old(self)),
                    _ => final(self).view_mode == AppMode::Search && final(self).same_state(old(self)),
                },
                AppMode::Help => final(self).view_mode == AppMode::Analysis && final(self).same_state(old(self)),
                AppMode::DrillDown => if key == Key::Esc || key == Key::Char('q') || key == Key::Char('Q') {
                    final(self).view_mode == AppMode::Analysis && final(self).frozen_hotspot is None
                        && final(self).keeps_list_and_query(old(self))
                        && final(self).should_quit == old(self).should_quit
                } else {
                    final(self).view_mode == AppMode::DrillDown && final(self).same_state(old(self))
                },
            },
    {
        match self.view_mode {
            AppMode::Analysis => match key {
                Key::Char(c) => {
                    if c == 'q' || c == 'Q' {
                        self.should_quit = true;
                    } else if c == '/' {
                        self.view_mode = AppMode::Search;
                        self.search_query = String::new();
                    } else if c == '?' {
                        self.view_mode = AppMode::Help;
                    } else if c == 'c' || c == 'C' {
                        if let Some(hv) = &mut self.hotspot_view {
                            hv.clear_filter();
                        }
                    }
                },
                Key::Up => {
                    if let Some(hv) = &mut self.hotspot_view {
                        hv.scroll_up();
                    }
                },
                Key::Down => {
                    if let Some(hv) = &mut self.hotspot_view {
                        hv.scroll_down();
                    }
                },
                Key::Enter => {
                    let frozen = match &self.hotspot_view {
                        Some(hv) => match hv.get_selected() {
                            Some(h) => Some(h.clone()),
                            None => None,
                        },
                        None => None,
                    };
                    self.frozen_hotspot = frozen;
                    if self.frozen_hotspot.is_some() {
                        self.view_mode = AppMode::DrillDown;
                    }
                },
                _ => {},
            },
            AppMode::Search => match key {
                Key::Esc => {
                    self.view_mode = AppMode::Analysis;
                    self.search_query = String::new();
                },
                Key::Enter => {
                    if let Some(hv) = &mut self.hotspot_view {
                        hv.apply_filter(self.search_query.as_str());
                    }
                    self.view_mode = AppMode::Analysis;
                },
                Key::Backspace => {
                    pop_char(&mut self.search_query);
                },
                Key::Char(c) => {
                    push_char(&mut self.search_query, c);
                },
                _ => {},
            },
            AppMode::Help => {
                self.view_mode = AppMode::Analysis;
            },
            AppMode::DrillDown => {
                if key == Key::Esc || key == Key::Char('q') || key == Key::Char('Q') {
                    self.view_mode = AppMode::Analysis;
                    self.frozen_hotspot = None;
                }
            },
        }
    }

    /// Rebuilds the hotspot list from the statistics, keeping the selected
    /// line when it still exists and re-applying an active search filter.
    pub fn update_hotspot_view(&mut self)
        requires
            old(self).wf(),
        ensures
            final(self).wf(),
            final(self).live_data == old(self).live_data,
            final(self).view_mode == old(self).view_mode,
            final(self).search_query@ == old(self).search_query@,
            (final(self).hotspot_view matches Some(nv) && (forall|i: int|
                0 <= i < nv.all().len() ==> ranked_hotspot(#[trigger] nv.all()[i], old(self).live_data.events()))
                && ({
                let (old_selected, old_filter) = match old(self).hotspot_view {
                    Some(hv) => (hv.selected(), hv.filtered()),
                    None => (0usize, false),
                };
                &&& (old_filter && old(self).search_query@.len() > 0) ==> same_hotspots(
                    nv.shown(),
                    matching(nv.all(), old(self).search_query@),
                ) && nv.selected() == 0
                &&& !(old_filter && old(self).search_query@.len() > 0) ==> same_hotspots(
                    nv.shown(),
                    nv.all(),
                ) && nv.selected() == if old_selected < nv.all().len() {
                    old_selected
                } else {
                    0
                }
            })),
    {
        let (old_selected, old_filter) = match &self.hotspot_view {
            Some(hv) => (hv.selected_line(), hv.is_filtered()),
            None => (0, false),
        };
        let hotspots = self.hotspot_stats.to_hotspots();
        let ghost hs = hotspots@;
        let mut new_view = HotspotView::from_hotspots(hotspots);
        proof {
            assert forall|i: int| 0 <= i < new_view.all().len() implies ranked_hotspot(#[trigger] new_view.all()[i], self.live_data.events()) by {
                assert(new_view.all()[i].same_as(&hs[i]));
                assert(ranked_hotspot(hs[i], self.hotspot_stats.recorded()));
                lemma_ranked_hotspot_same(hs[i], new_view.all()[i], self.live_data.events());
            }
        }
        if old_selected < new_view.shown_len() {
            new_view.set_selected_line(old_selected);
        }
        let query_empty = chars_of(self.search_query.as_str()).len() == 0;
        if old_filter && !query_empty {
            new_view.apply_filter(self.search_query.as_str());
        }
        self.hotspot_view = Some(new_view);
    }
}

/// A copy of a hotspot of the statistics is one as well.
proof fn lemma_ranked_hotspot_same(a: FunctionHotspot, b: FunctionHotspot, es: Seq<TraceEvent>)
    requires
        ranked_hotspot(a, es),
        b.same_as(&a),
    ensures
        ranked_hotspot(b, es),
{
    let ids = choose|ids: Seq<i64>| #[trigger] crate::analysis::hotspot_analyzer::hotspot_describes(a, es, ids)
        && crate::analysis::hotspot_analyzer::by_frequency(es, a.name@, ids);
    assert(crate::analysis::hotspot_analyzer::hotspot_describes(b, es, ids));
}

} // verus!
