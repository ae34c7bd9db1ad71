//! Plain state carried for the presentation layer: tab identities and
//! selection, and the settings model holding the catalog snapshot.
//!
//! Rendering itself is no concern of this crate; these types only hold and
//! answer questions about plain values.

use vstd::prelude::*;

use crate::mediatype::MediaGroup;
use crate::mediatype::MediaType;

verus! {

/// The application's top-level tabs.
#[derive(Clone, Copy, PartialEq, Eq, Structural, PartialOrd, Ord, Debug)]
pub enum Tab {
    Home,
    Settings,
    Logs,
    Debug,
    About,
}

/// One tab's position together with the hovered and selected positions.
#[derive(Debug, Clone, Eq, PartialEq, Structural, Ord, PartialOrd)]
pub struct TabState {
    ind: u8,
    hovered_tab: u8,
    selected_tab: u8,
}

impl TabState {
    pub closed spec fn ind_spec(&self) -> u8 {
        self.ind
    }

    pub closed spec fn hovered_spec(&self) -> u8 {
        self.hovered_tab
    }

    pub closed spec fn selected_spec(&self) -> u8 {
        self.selected_tab
    }

    pub fn new(ind: u8, hovered_tab: u8, selected_tab: u8) -> (r: TabState)
        ensures
            r.ind_spec() == ind,
            r.hovered_spec() == hovered_tab,
            r.selected_spec() == selected_tab,
    {
        TabState { ind, hovered_tab, selected_tab }
    }

    pub fn is_hovered(&self) -> (r: bool)
        ensures
            r == (self.hovered_spec() == self.ind_spec()),
    {
        self.hovered_tab == self.ind
    }

    pub fn is_selected(&self) -> (r: bool)
        ensures
            r == (self.selected_spec() == self.ind_spec()),
    {
        self.selected_tab == self.ind
    }

    pub fn hovered_tab(&self) -> (r: u8)
        ensures
            r == self.hovered_spec(),
    {
        self.hovered_tab
    }

    pub fn selected_tab(&self) -> (r: u8)
        ensures
            r == self.selected_spec(),
    {
        self.selected_tab
    }

    pub fn index(&self) -> (r: u8)
        ensures
            r == self.ind_spec(),
    {
        self.ind
    }
}

/// Which log view the duplicate-scanner page shows.
#[derive(PartialEq, Eq, Structural, Copy, Clone, Debug)]
pub enum ShowTab {
    Scanned,
    Errors,
    Duplicates,
}

impl ShowTab {
    /// The view at a tab position; anything past the known ones shows the
    /// duplicates.
    pub fn from(tab_idx: usize) -> (r: Self)
        ensures
            tab_idx == 0 ==> r == ShowTab::Scanned,
            tab_idx == 1 ==> r == ShowTab::Errors,
            tab_idx >= 2 ==> r == ShowTab::Duplicates,
    {
        match tab_idx {
            0 => ShowTab::Scanned,
            1 => ShowTab::Errors,
            _ => ShowTab::Duplicates,
        }
    }

    /// The position of this view among the tabs.
    pub fn index(&self) -> (r: usize)
        ensures
            *self == ShowTab::Scanned ==> r == 0,
            *self == ShowTab::Errors ==> r == 1,
            *self == ShowTab::Duplicates ==> r == 2,
    {
        match self {
            ShowTab::Scanned => 0,
            ShowTab::Errors => 1,
            ShowTab::Duplicates => 2,
        }
    }
}

/// The settings model: the catalog of media groups the user can toggle.
pub struct SettingsUI {
    pub media_groups: Vec<MediaGroup>,
}

impl SettingsUI {
    /// Starts from the built-in catalog.
    pub fn new() -> (r: Self)
        ensures
            r.media_groups@.len() == 6,
            r.media_groups@[0].selected && r.media_groups@[1].selected
                && r.media_groups@[2].selected && r.media_groups@[3].selected,
            !r.media_groups@[4].selected && !r.media_groups@[5].selected,
    {
        Self { media_groups: MediaType::load_groups() }
    }
}

} // verus!
