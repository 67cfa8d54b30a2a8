//! Responsive layout: which panels show and how the columns split, from the
//! terminal's width and height.
use vstd::prelude::*;

verus! {

/// Below this width the panels stack vertically.
pub const WIDTH_SINGLE_COLUMN: u16 = 60;

/// Up to this width the columns split 25/75.
pub const WIDTH_NARROW: u16 = 100;

/// Below this height only the header and the hotspots show.
pub const HEIGHT_MINIMAL: u16 = 16;

/// Up to this height the workers panel is hidden.
pub const HEIGHT_COMPACT: u16 = 24;

/// Terminal size classification for layout decisions.
#[derive(Debug, Clone, Copy, PartialEq, Eq, Structural)]
pub enum TerminalSize {
    /// Height below 16: header and hotspots only.
    Minimal,
    /// Height 16 to 24: no workers panel.
    Compact,
    /// Height above 24: all panels.
    Normal,
}

/// Computed layout configuration.
#[derive(Debug, Clone, Copy, PartialEq, Eq, Structural)]
pub struct LayoutConfig {
    /// Terminal size classification.
    pub size: TerminalSize,
    /// Whether the status summary panel shows.
    pub show_status_panel: bool,
    /// Whether the workers panel shows.
    pub show_workers_panel: bool,
    /// Whether the status bar shows.
    pub show_status_bar: bool,
    /// Whether panels stack vertically.
    pub single_column: bool,
    /// Left column percentage.
    pub left_col_pct: u16,
    /// Right column percentage.
    pub right_col_pct: u16,
}

impl Default for LayoutConfig {
    fn default() -> (r: Self)
        ensures
            r == (LayoutConfig {
                size: TerminalSize::Normal,
                show_status_panel: true,
                show_workers_panel: true,
                show_status_bar: true,
                single_column: false,
                left_col_pct: 30,
                right_col_pct: 70,
            }),
    {
        LayoutConfig {
            size: TerminalSize::Normal,
            show_status_panel: true,
            show_workers_panel: true,
            show_status_bar: true,
            single_column: false,
            left_col_pct: 30,
            right_col_pct: 70,
        }
    }
}

/// The layout for a terminal of `width` by `height` cells.
pub open spec fn layout_spec(width: u16, height: u16) -> LayoutConfig {
    let single = width < WIDTH_SINGLE_COLUMN;
    let narrow = !single && width <= WIDTH_NARROW;
    let size = if height < HEIGHT_MINIMAL {
        TerminalSize::Minimal
    } else if height <= HEIGHT_COMPACT {
        TerminalSize::Compact
    } else {
        TerminalSize::Normal
    };
    LayoutConfig {
        size,
        show_status_panel: !single && size != TerminalSize::Minimal,
        show_workers_panel: !single && size == TerminalSize::Normal,
        show_status_bar: size != TerminalSize::Minimal,
        single_column: single,
        left_col_pct: if narrow {
            25
        } else {
            30
        },
        right_col_pct: if narrow {
            75
        } else {
            70
        },
    }
}

/// Computes the layout from the terminal's dimensions: below 60 columns the
/// panels stack and the side panels hide, up to 100 columns the split is
/// 25/75 (else 30/70); below 16 rows only the header and hotspots show, up
/// to 24 rows the workers panel hides.
pub fn compute_layout(width: u16, height: u16) -> (r: LayoutConfig)
    ensures
        r == layout_spec(width, height),
{
    let mut config = LayoutConfig::default();
    if width < WIDTH_SINGLE_COLUMN {
        config.single_column = true;
        config.show_status_panel = false;
        config.show_workers_panel = false;
    } else if width <= WIDTH_NARROW {
        config.left_col_pct = 25;
        config.right_col_pct = 75;
    }
    if height < HEIGHT_MINIMAL {
        config.size = TerminalSize::Minimal;
        config.show_status_panel = false;
        config.show_workers_panel = false;
        config.show_status_bar = false;
    } else if height <= HEIGHT_COMPACT {
        config.size = TerminalSize::Compact;
        config.show_workers_panel = false;
    }
    config
}

/// The two columns always fill the width, and the side panels show only
/// when there is room for them.
pub proof fn lemma_layout_consistent(width: u16, height: u16)
    ensures
        layout_spec(width, height).left_col_pct + layout_spec(width, height).right_col_pct == 100,
        layout_spec(width, height).show_workers_panel ==> layout_spec(
            width,
            height,
        ).show_status_panel,
        layout_spec(width, height).show_status_panel ==> layout_spec(width, height).show_status_bar
            && !layout_spec(width, height).single_column,
{
}

} // verus!
