use vstd::prelude::*;

use ratatui::layout::{Constraint, Layout, Rect};

verus! {

/// A rectangle of terminal cells.
#[derive(Debug, Clone, Copy, PartialEq, Eq, Structural)]
pub struct Area {
    pub x: u16,
    pub y: u16,
    pub width: u16,
    pub height: u16,
}

/// How tall one part of a vertical split is to be.
#[derive(Debug, Clone, Copy, PartialEq, Eq, Structural)]
pub enum SizeRule {
    /// Exactly this many rows.
    Length(u16),
    /// At least this many rows.
    Min(u16),
}

/// Rows the picker needs: the path bar, at least one row of entries, the status bar.
pub const PICKER_MIN_ROWS: u16 = 3;

/// Where the three parts of the picker are drawn.
#[derive(Debug, Clone, Copy, PartialEq, Eq, Structural)]
pub struct PickerAreas {
    pub path_bar: Area,
    pub list: Area,
    pub status_bar: Area,
}

/// The size rules of the picker: one row of path bar, the entries, one row of status bar.
pub open spec fn picker_rules() -> Seq<SizeRule> {
    seq![SizeRule::Length(1), SizeRule::Min(1), SizeRule::Length(1)]
}

/// Splits `area` from top to bottom with ratatui's `Layout::vertical(..).split(..)`, for
/// the picker's rules only: one row, at least one row, one row. Claimed of that call, for
/// an area of at least three rows whose bottom fits in a `u16`: the two one-row parts take
/// the top and the bottom row and the middle part all rows between, each the full width.
/// (The lengths are met exactly and the minimum part takes what is left, so the solver has
/// a single best answer.) Nothing is claimed for other rules.
#[verifier::external_body]
fn split_vertical(area: Area, rules: &Vec<SizeRule>) -> (r: Vec<Area>)
    requires
        rules@ == picker_rules(),
        area.height >= PICKER_MIN_ROWS,
        area.y + area.height <= u16::MAX,
    ensures
        r@ == seq![
            Area { x: area.x, y: area.y, width: area.width, height: 1 },
            Area { x: area.x, y: (area.y + 1) as u16, width: area.width, height: (area.height - 2) as u16 },
            Area { x: area.x, y: (area.y + area.height - 1) as u16, width: area.width, height: 1 },
        ],
{
    let constraints: Vec<Constraint> = rules.iter().map(|rule| match rule {
        SizeRule::Length(n) => Constraint::Length(*n),
        SizeRule::Min(n) => Constraint::Min(*n),
    }).collect();
    let rect = Rect { x: area.x, y: area.y, width: area.width, height: area.height };
    let parts = Layout::vertical(constraints).split(rect);
    parts.iter().map(|p| Area { x: p.x, y: p.y, width: p.width, height: p.height }).collect()
}

/// The rows of `a` that lie above the last terminal row `u16::MAX`: its height, cut where
/// its bottom would pass that row (as ratatui's `Rect::new` cuts it).
pub open spec fn rows_in_reach(a: Area) -> u16 {
    if a.y + a.height <= u16::MAX {
        a.height
    } else {
        (u16::MAX - a.y) as u16
    }
}

/// Where the picker draws its parts in `inner`, whose height is first cut to the rows in
/// reach: nothing if fewer than `PICKER_MIN_ROWS` rows are left; else the path bar on the
/// top row, the status bar on the bottom row, and the entry list on the rows between, each
/// the full width.
pub fn picker_areas(inner: Area) -> (r: Option<PickerAreas>)
    ensures
        ({
            let h = rows_in_reach(inner);
            &&& h < PICKER_MIN_ROWS <==> r is None
            &&& r matches Some(a) ==> {
                &&& a.path_bar == (Area { x: inner.x, y: inner.y, width: inner.width, height: 1 })
                &&& a.list == (Area {
                    x: inner.x,
                    y: (inner.y + 1) as u16,
                    width: inner.width,
                    height: (h - 2) as u16,
                })
                &&& a.status_bar == (Area {
                    x: inner.x,
                    y: (inner.y + h - 1) as u16,
                    width: inner.width,
                    height: 1,
                })
            }
        }),
{
    let room = u16::MAX - inner.y;
    let height = if inner.height <= room {
        inner.height
    } else {
        room
    };
    if height < PICKER_MIN_ROWS {
        return None;
    }
    let area = Area { x: inner.x, y: inner.y, width: inner.width, height };
    let mut rules: Vec<SizeRule> = Vec::new();
    rules.push(SizeRule::Length(1));
    rules.push(SizeRule::Min(1));
    rules.push(SizeRule::Length(1));
    assert(rules@ =~= picker_rules());
    let parts = split_vertical(area, &rules);
    Some(PickerAreas { path_bar: parts[0], list: parts[1], status_bar: parts[2] })
}

} // verus!
