//! Layout of the list controls (text lists and maps) when part of them is
//! scrolled off the top of the settings panel, and the hit areas a control
//! reports.

use vstd::prelude::*;
use crate::settings_layout::{clamped_rect, min_u16, min_u16_exec, rect_new, sat_sub, Rect};
use crate::controls::{MapState, TextListState};
use crate::settings_items::SettingControl;

verus! {

// ---------------------------------------------------------------------------
// Rows of a list control.
//
// A list control is drawn as content rows: row 0 is the label, then one row
// per item, then the add-new row.  The first `skip_rows` content rows are
// scrolled off; the rest are drawn top to bottom while they fit the area.
// ---------------------------------------------------------------------------

/// Indent of the item rows.
pub const LIST_INDENT: u16 = 2;

/// The row the first drawn item goes to: below the label when the label is
/// shown.
pub open spec fn list_first_row(area: Rect, skip_rows: u16) -> int {
    area.y + if skip_rows == 0 {
        1int
    } else {
        0int
    }
}

/// How many items are scrolled off along with the label.
pub open spec fn list_skipped_items(skip_rows: u16) -> int {
    if skip_rows > 0 {
        skip_rows - 1
    } else {
        0
    }
}

/// How many items are drawn.
pub open spec fn list_drawn_items(area: Rect, count: nat, skip_rows: u16) -> nat {
    let k0 = list_skipped_items(skip_rows);
    let room = area.y + area.height - list_first_row(area, skip_rows);
    if count > k0 {
        if count - k0 < room {
            (count - k0) as nat
        } else {
            room as nat
        }
    } else {
        0
    }
}

/// Whether the add-new row is drawn: it is not scrolled off and there is a
/// row left for it.
pub open spec fn list_has_add_row(area: Rect, count: nat, skip_rows: u16) -> bool {
    &&& list_first_row(area, skip_rows) + list_drawn_items(area, count, skip_rows) < area.y + area.height
    &&& count + 1 >= skip_rows
}

/// Whether the list is drawn at all: the area has a row and is at least
/// `min_width` wide.
pub open spec fn list_drawn(area: Rect, min_width: u16) -> bool {
    area.height > 0 && area.width >= min_width
}

/// The content-row counter (a `u16`) does not overflow: it reaches its
/// maximum only on a list of at least 65535 items whose rows up to there all
/// fit the area.
pub open spec fn list_counter_fits(area: Rect, count: nat, skip_rows: u16, min_width: u16) -> bool {
    list_drawn(area, min_width) ==> !(count >= 65535 && list_first_row(area, skip_rows) + 65534
        - list_skipped_items(skip_rows) < area.y + area.height)
}

/// The row of a text list.
#[derive(Debug, Clone, Copy, PartialEq, Eq)]
pub struct TextListRowLayout {
    /// The text field (or the add-new label).
    pub text_area: Rect,
    /// The remove button (or the add-new label).
    pub button_area: Rect,
    /// The item shown; `None` for the add-new row.
    pub index: Option<usize>,
}

/// The drawn rows of a text list.
#[derive(Debug, Clone)]
pub struct TextListLayout {
    pub rows: Vec<TextListRowLayout>,
    pub full_area: Rect,
}

/// Width of the text fields of a text list.
pub open spec fn text_list_field_width(area: Rect, field_width: u16) -> u16 {
    min_u16(field_width, sat_sub(area.width, (LIST_INDENT + 5) as u16))
}

/// The rows a text list of `count` items draws.
pub open spec fn text_list_rows(area: Rect, count: nat, field_width: u16, skip_rows: u16) -> Seq<
    TextListRowLayout,
> {
    if !list_drawn(area, 10) {
        Seq::empty()
    } else {
        let y0 = list_first_row(area, skip_rows);
        let k0 = list_skipped_items(skip_rows);
        let d = list_drawn_items(area, count, skip_rows);
        let fw = text_list_field_width(area, field_width);
        let items = Seq::new(
            d,
            |j: int|
                TextListRowLayout {
                    text_area: clamped_rect((area.x + 2) as u16, (y0 + j) as u16, fw, 1),
                    button_area: clamped_rect((area.x + 2 + fw + 1) as u16, (y0 + j) as u16, 3, 1),
                    index: Some((k0 + j) as usize),
                },
        );
        if list_has_add_row(area, count, skip_rows) {
            items.push(
                TextListRowLayout {
                    text_area: clamped_rect((area.x + 2) as u16, (y0 + d) as u16, 11, 1),
                    button_area: clamped_rect((area.x + 2) as u16, (y0 + d) as u16, 11, 1),
                    index: None,
                },
            )
        } else {
            items
        }
    }
}

/// The rows of a text list drawn in `area` with its first `skip_rows`
/// content rows scrolled off.
pub fn text_list_partial_layout(
    area: Rect,
    state: &TextListState,
    field_width: u16,
    skip_rows: u16,
) -> (layout: TextListLayout)
    requires
        area.wf(),
        list_counter_fits(area, state.items@.len(), skip_rows, 10),
    ensures
        layout.full_area == area,
        layout.rows@ == text_list_rows(area, state.items@.len(), field_width, skip_rows),
{
    if area.height == 0 || area.width < 10 {
        return TextListLayout { rows: Vec::new(), full_area: area };
    }
    let ghost count = state.items@.len();
    let ghost y0 = list_first_row(area, skip_rows);
    let ghost k0 = list_skipped_items(skip_rows);
    let bottom = area.y + area.height;
    let mut rows: Vec<TextListRowLayout> = Vec::new();
    let mut y = area.y;
    let mut content_row: u16 = 0;
    if skip_rows == 0 {
        y += 1;
    }
    content_row += 1;
    let indent = LIST_INDENT;
    let fw = min_u16_exec(field_width, area.width.saturating_sub(indent + 5));
    let n = state.items.len();
    let mut idx: usize = 0;
    while idx < n
        invariant
            area.wf(),
            list_drawn(area, 10),
            list_counter_fits(area, count, skip_rows, 10),
            n == count,
            bottom == area.y + area.height,
            y0 == list_first_row(area, skip_rows),
            k0 == list_skipped_items(skip_rows),
            fw == text_list_field_width(area, field_width),
            indent == 2,
            idx <= n,
            content_row == 1 + idx,
            y == y0 + if idx > k0 {
                idx - k0
            } else {
                0
            },
            y <= bottom,
            rows@ == Seq::new(
                (y - y0) as nat,
                |j: int|
                    TextListRowLayout {
                        text_area: clamped_rect((area.x + 2) as u16, (y0 + j) as u16, fw, 1),
                        button_area: clamped_rect((area.x + 2 + fw + 1) as u16, (y0 + j) as u16, 3, 1),
                        index: Some((k0 + j) as usize),
                    },
            ),
        ensures
            idx == n || y >= bottom,
        decreases n - idx,
    {
        if y >= bottom {
            break;
        }
        if content_row < skip_rows {
            content_row += 1;
            idx += 1;
            continue;
        }
        let text_area = rect_new(area.x + indent, y, fw, 1);
        let button_area = rect_new(area.x + indent + fw + 1, y, 3, 1);
        let ghost old_rows = rows@;
        rows.push(TextListRowLayout { text_area, button_area, index: Some(idx) });
        proof {
            assert(rows@ =~= Seq::new(
                (y + 1 - y0) as nat,
                |j: int|
                    TextListRowLayout {
                        text_area: clamped_rect((area.x + 2) as u16, (y0 + j) as u16, fw, 1),
                        button_area: clamped_rect((area.x + 2 + fw + 1) as u16, (y0 + j) as u16, 3, 1),
                        index: Some((k0 + j) as usize),
                    },
            ));
        }
        y += 1;
        content_row += 1;
        idx += 1;
    }
    let ghost drawn = rows@.len();
    assert(drawn == list_drawn_items(area, count, skip_rows));
    if y < bottom && content_row >= skip_rows {
        let add_area = rect_new(area.x + indent, y, 11, 1);
        rows.push(TextListRowLayout { text_area: add_area, button_area: add_area, index: None });
    }
    proof {
        let spec_rows = text_list_rows(area, count, field_width, skip_rows);
        assert(rows@ =~= spec_rows);
    }
    TextListLayout { rows, full_area: area }
}

/// The row of a map entry.
#[derive(Debug, Clone, Copy, PartialEq, Eq)]
pub struct MapEntryLayout {
    pub index: usize,
    pub row_area: Rect,
    /// Not drawn when part of the map is scrolled off: always empty here.
    pub expand_area: Rect,
    pub key_area: Rect,
    pub remove_area: Rect,
}

/// The drawn rows of a map.
#[derive(Debug, Clone)]
pub struct MapLayout {
    pub entry_areas: Vec<MapEntryLayout>,
    pub add_row_area: Option<Rect>,
    pub full_area: Rect,
}

/// The entry rows a map of `count` entries draws.
pub open spec fn map_entry_rows(area: Rect, count: nat, key_width: u16, skip_rows: u16) -> Seq<MapEntryLayout> {
    if !list_drawn(area, 15) {
        Seq::empty()
    } else {
        let y0 = list_first_row(area, skip_rows);
        let k0 = list_skipped_items(skip_rows);
        Seq::new(
            list_drawn_items(area, count, skip_rows),
            |j: int|
                MapEntryLayout {
                    index: (k0 + j) as usize,
                    row_area: clamped_rect(area.x, (y0 + j) as u16, area.width, 1),
                    expand_area: Rect { x: 0, y: 0, width: 0, height: 0 },
                    key_area: clamped_rect((area.x + 2) as u16, (y0 + j) as u16, key_width, 1),
                    remove_area: clamped_rect((area.x + 2 + key_width + 1) as u16, (y0 + j) as u16, 3, 1),
                },
        )
    }
}

/// The add-new row a map of `count` entries draws, if any.
pub open spec fn map_add_row(area: Rect, count: nat, skip_rows: u16) -> Option<Rect> {
    if list_drawn(area, 15) && list_has_add_row(area, count, skip_rows) {
        Some(
            clamped_rect(
                area.x,
                (list_first_row(area, skip_rows) + list_drawn_items(area, count, skip_rows)) as u16,
                area.width,
                1,
            ),
        )
    } else {
        None
    }
}

/// The rows of a map drawn in `area` with its first `skip_rows` content
/// rows scrolled off.
pub fn map_partial_layout(area: Rect, state: &MapState, key_width: u16, skip_rows: u16) -> (layout: MapLayout)
    requires
        area.wf(),
        list_counter_fits(area, state.entries@.len(), skip_rows, 15),
        list_drawn(area, 15) && list_drawn_items(area, state.entries@.len(), skip_rows) > 0 ==> area.x
            + key_width + 3 <= u16::MAX,
    ensures
        layout.full_area == area,
        layout.entry_areas@ == map_entry_rows(area, state.entries@.len(), key_width, skip_rows),
        layout.add_row_area == map_add_row(area, state.entries@.len(), skip_rows),
{
    if area.height == 0 || area.width < 15 {
        return MapLayout { entry_areas: Vec::new(), add_row_area: None, full_area: area };
    }
    let ghost count = state.entries@.len();
    let ghost y0 = list_first_row(area, skip_rows);
    let ghost k0 = list_skipped_items(skip_rows);
    let bottom = area.y + area.height;
    let mut entry_areas: Vec<MapEntryLayout> = Vec::new();
    let mut y = area.y;
    let mut content_row: u16 = 0;
    if skip_rows == 0 {
        y += 1;
    }
    content_row += 1;
    let indent = LIST_INDENT;
    let n = state.entries.len();
    let mut idx: usize = 0;
    while idx < n
        invariant
            area.wf(),
            list_drawn(area, 15),
            list_counter_fits(area, count, skip_rows, 15),
            list_drawn_items(area, count, skip_rows) > 0 ==> area.x + key_width + 3 <= u16::MAX,
            n == count,
            bottom == area.y + area.height,
            y0 == list_first_row(area, skip_rows),
            k0 == list_skipped_items(skip_rows),
            indent == 2,
            idx <= n,
            content_row == 1 + idx,
            y == y0 + if idx > k0 {
                idx - k0
            } else {
                0
            },
            y <= bottom,
            entry_areas@ == Seq::new(
                (y - y0) as nat,
                |j: int|
                    MapEntryLayout {
                        index: (k0 + j) as usize,
                        row_area: clamped_rect(area.x, (y0 + j) as u16, area.width, 1),
                        expand_area: Rect { x: 0, y: 0, width: 0, height: 0 },
                        key_area: clamped_rect((area.x + 2) as u16, (y0 + j) as u16, key_width, 1),
                        remove_area: clamped_rect((area.x + 2 + key_width + 1) as u16, (y0 + j) as u16, 3, 1),
                    },
            ),
        ensures
            idx == n || y >= bottom,
        decreases n - idx,
    {
        if y >= bottom {
            break;
        }
        if content_row < skip_rows {
            content_row += 1;
            idx += 1;
            continue;
        }
        assert(list_drawn_items(area, count, skip_rows) > 0);
        let row_area = rect_new(area.x, y, area.width, 1);
        let key_area = rect_new(area.x + indent, y, key_width, 1);
        let remove_area = rect_new(area.x + indent + key_width + 1, y, 3, 1);
        entry_areas.push(MapEntryLayout { index: idx, row_area, expand_area: Rect::zero(), key_area, remove_area });
        proof {
            assert(entry_areas@ =~= Seq::new(
                (y + 1 - y0) as nat,
                |j: int|
                    MapEntryLayout {
                        index: (k0 + j) as usize,
                        row_area: clamped_rect(area.x, (y0 + j) as u16, area.width, 1),
                        expand_area: Rect { x: 0, y: 0, width: 0, height: 0 },
                        key_area: clamped_rect((area.x + 2) as u16, (y0 + j) as u16, key_width, 1),
                        remove_area: clamped_rect((area.x + 2 + key_width + 1) as u16, (y0 + j) as u16, 3, 1),
                    },
            ));
        }
        y += 1;
        content_row += 1;
        idx += 1;
    }
    assert(entry_areas@.len() == list_drawn_items(area, count, skip_rows));
    let add_row_area = if y < bottom && content_row >= skip_rows {
        Some(rect_new(area.x, y, area.width, 1))
    } else {
        None
    };
    proof {
        assert(entry_areas@ =~= map_entry_rows(area, count, key_width, skip_rows));
    }
    MapLayout { entry_areas, add_row_area, full_area: area }
}

/// A list control draws inside its area: every row it reports is one of
/// the area's rows, and the rows go down one by one in order.
pub proof fn law_list_rows_inside(area: Rect, count: nat, field_width: u16, key_width: u16, skip_rows: u16)
    requires
        area.wf(),
    ensures
        forall|j: int|
            0 <= j < text_list_rows(area, count, field_width, skip_rows).len() ==> {
                let r = #[trigger] text_list_rows(area, count, field_width, skip_rows)[j];
                &&& area.y <= r.text_area.y < area.y + area.height
                &&& r.button_area.y == r.text_area.y
                &&& j > 0 ==> r.text_area.y == text_list_rows(area, count, field_width, skip_rows)[j
                    - 1].text_area.y + 1
            },
        forall|j: int|
            0 <= j < map_entry_rows(area, count, key_width, skip_rows).len() ==> {
                let e = #[trigger] map_entry_rows(area, count, key_width, skip_rows)[j];
                &&& area.y <= e.row_area.y < area.y + area.height
                &&& e.key_area.y == e.row_area.y
                &&& e.remove_area.y == e.row_area.y
                &&& j > 0 ==> e.row_area.y == map_entry_rows(area, count, key_width, skip_rows)[j
                    - 1].row_area.y + 1
            },
        map_add_row(area, count, skip_rows) matches Some(r) ==> area.y <= r.y < area.y + area.height,
{
}

// ---------------------------------------------------------------------------
// Hit areas of a control.
// ---------------------------------------------------------------------------

/// The areas a drawn control reports for hit testing.
#[derive(Debug, Clone)]
pub enum ControlLayoutInfo {
    Toggle(Rect),
    Number { decrement: Rect, increment: Rect, value: Rect },
    Dropdown(Rect),
    Text(Rect),
    TextList { rows: Vec<Rect> },
    /// The entry rows of a map control.
    Dictionary { entry_rows: Vec<Rect> },
    Complex,
}

/// Width of the text fields of a text-list control in the settings panel.
pub const TEXT_LIST_FIELD_WIDTH: u16 = 30;

/// Width of the key column of a map control in the settings panel.
pub const MAP_KEY_WIDTH: u16 = 20;

/// Inputs on which laying out the control does not overflow a coordinate.
pub open spec fn control_layout_fits(area: Rect, control: SettingControl, skip_rows: u16) -> bool {
    &&& area.wf()
    &&& match control {
        SettingControl::TextList(s) => list_counter_fits(area, s.items@.len(), skip_rows, 10),
        SettingControl::Dictionary(s) => {
            &&& list_counter_fits(area, s.entries@.len(), skip_rows, 15)
            &&& list_drawn(area, 15) && list_drawn_items(area, s.entries@.len(), skip_rows) > 0 ==> area.x
                + MAP_KEY_WIDTH + 3 <= u16::MAX
        },
        _ => true,
    }
}

/// Whether the content-row counter of a list control of `count` items
/// stays within `u16`.
pub fn list_counter_fits_in(area: Rect, count: usize, skip_rows: u16, min_width: u16) -> (r: bool)
    requires
        area.wf(),
    ensures
        r == list_counter_fits(area, count as nat, skip_rows, min_width),
{
    if area.height == 0 || area.width < min_width || count < 65535 {
        return true;
    }
    let first: u32 = area.y as u32 + if skip_rows == 0 {
        1
    } else {
        0
    };
    let skipped: u32 = if skip_rows > 0 {
        skip_rows as u32 - 1
    } else {
        0
    };
    !(first + 65534 - skipped < area.y as u32 + area.height as u32)
}

/// How many items of a list control of `count` items are drawn.
pub fn list_drawn_count(area: Rect, count: usize, skip_rows: u16) -> (r: usize)
    requires
        area.wf(),
        area.height > 0,
    ensures
        r == list_drawn_items(area, count as nat, skip_rows),
{
    let first: u32 = area.y as u32 + if skip_rows == 0 {
        1
    } else {
        0
    };
    let skipped: usize = if skip_rows > 0 {
        skip_rows as usize - 1
    } else {
        0
    };
    let room = (area.y as u32 + area.height as u32 - first) as usize;
    if count > skipped {
        if count - skipped < room {
            count - skipped
        } else {
            room
        }
    } else {
        0
    }
}

/// Whether a control can be laid out in `area` without overflowing a
/// coordinate.
pub fn control_layout_fits_in(area: Rect, control: &SettingControl, skip_rows: u16) -> (r: bool)
    ensures
        r == control_layout_fits(area, *control, skip_rows),
{
    if area.x as u32 + area.width as u32 > 0xffff || area.y as u32 + area.height as u32 > 0xffff {
        return false;
    }
    match control {
        SettingControl::TextList(s) => list_counter_fits_in(area, s.items.len(), skip_rows, 10),
        SettingControl::Dictionary(s) => {
            if !list_counter_fits_in(area, s.entries.len(), skip_rows, 15) {
                return false;
            }
            if area.height > 0 && area.width >= 15 && list_drawn_count(area, s.entries.len(), skip_rows) > 0 {
                area.x as u32 + MAP_KEY_WIDTH as u32 + 3 <= 0xffff
            } else {
                true
            }
        },
        _ => true,
    }
}

/// The hit areas of a control drawn in `area` with its first `skip_rows`
/// rows scrolled off.  A single-row control that is partly scrolled off is
/// not drawn and reports empty areas.  A single-row control that is shown is
/// drawn by its widget, which reports its own areas: `None` here.
pub fn control_layout(area: Rect, control: &SettingControl, skip_rows: u16) -> (info: Option<ControlLayoutInfo>)
    requires
        control_layout_fits(area, *control, skip_rows),
    ensures
        match *control {
            SettingControl::Toggle(_) => if skip_rows > 0 {
                info == Some(ControlLayoutInfo::Toggle(Rect { x: 0, y: 0, width: 0, height: 0 }))
            } else {
                info is None
            },
            SettingControl::Number(_) => if skip_rows > 0 {
                info == Some(
                    ControlLayoutInfo::Number {
                        decrement: Rect { x: 0, y: 0, width: 0, height: 0 },
                        increment: Rect { x: 0, y: 0, width: 0, height: 0 },
                        value: Rect { x: 0, y: 0, width: 0, height: 0 },
                    },
                )
            } else {
                info is None
            },
            SettingControl::Dropdown(_) => if skip_rows > 0 {
                info == Some(ControlLayoutInfo::Dropdown(Rect { x: 0, y: 0, width: 0, height: 0 }))
            } else {
                info is None
            },
            SettingControl::Text(_) => if skip_rows > 0 {
                info == Some(ControlLayoutInfo::Text(Rect { x: 0, y: 0, width: 0, height: 0 }))
            } else {
                info is None
            },
            SettingControl::TextList(s) => info matches Some(ControlLayoutInfo::TextList { rows }) && rows@
                == text_list_rows(area, s.items@.len(), TEXT_LIST_FIELD_WIDTH, skip_rows).map_values(
                |r: TextListRowLayout| r.text_area,
            ),
            SettingControl::Dictionary(s) => info matches Some(ControlLayoutInfo::Dictionary { entry_rows })
                && entry_rows@ == map_entry_rows(area, s.entries@.len(), MAP_KEY_WIDTH, skip_rows).map_values(
                |e: MapEntryLayout| e.row_area,
            ),
            SettingControl::Complex { .. } => info == Some(ControlLayoutInfo::Complex),
        },
{
    match control {
        SettingControl::Toggle(_) => if skip_rows > 0 {
            Some(ControlLayoutInfo::Toggle(Rect::zero()))
        } else {
            None
        },
        SettingControl::Number(_) => if skip_rows > 0 {
            Some(ControlLayoutInfo::Number { decrement: Rect::zero(), increment: Rect::zero(), value: Rect::zero() })
        } else {
            None
        },
        SettingControl::Dropdown(_) => if skip_rows > 0 {
            Some(ControlLayoutInfo::Dropdown(Rect::zero()))
        } else {
            None
        },
        SettingControl::Text(_) => if skip_rows > 0 {
            Some(ControlLayoutInfo::Text(Rect::zero()))
        } else {
            None
        },
        SettingControl::TextList(state) => {
            let list_layout = text_list_partial_layout(area, state, TEXT_LIST_FIELD_WIDTH, skip_rows);
            let mut rows: Vec<Rect> = Vec::new();
            let mut i: usize = 0;
            while i < list_layout.rows.len()
                invariant
                    i <= list_layout.rows@.len(),
                    rows@ == list_layout.rows@.take(i as int).map_values(|r: TextListRowLayout| r.text_area),
                decreases list_layout.rows@.len() - i,
            {
                rows.push(list_layout.rows[i].text_area);
                proof {
                    assert(list_layout.rows@.take(i + 1) =~= list_layout.rows@.take(i as int).push(
                        list_layout.rows@[i as int],
                    ));
                }
                i += 1;
            }
            proof {
                assert(list_layout.rows@.take(i as int) =~= list_layout.rows@);
            }
            Some(ControlLayoutInfo::TextList { rows })
        },
        SettingControl::Dictionary(state) => {
            let map_layout = map_partial_layout(area, state, MAP_KEY_WIDTH, skip_rows);
            let mut entry_rows: Vec<Rect> = Vec::new();
            let mut i: usize = 0;
            while i < map_layout.entry_areas.len()
                invariant
                    i <= map_layout.entry_areas@.len(),
                    entry_rows@ == map_layout.entry_areas@.take(i as int).map_values(
                        |e: MapEntryLayout| e.row_area,
                    ),
                decreases map_layout.entry_areas@.len() - i,
            {
                entry_rows.push(map_layout.entry_areas[i].row_area);
                proof {
                    assert(map_layout.entry_areas@.take(i + 1) =~= map_layout.entry_areas@.take(i as int).push(
                        map_layout.entry_areas@[i as int],
                    ));
                }
                i += 1;
            }
            proof {
                assert(map_layout.entry_areas@.take(i as int) =~= map_layout.entry_areas@);
            }
            Some(ControlLayoutInfo::Dictionary { entry_rows })
        },
        SettingControl::Complex { .. } => Some(ControlLayoutInfo::Complex),
    }
}

// ---------------------------------------------------------------------------
// Row texts.
// ---------------------------------------------------------------------------

/// The first `width` characters of `s`, padded with spaces to `width`.
pub open spec fn padded(s: Seq<char>, width: nat) -> Seq<char> {
    let k = if s.len() < width {
        s.len()
    } else {
        width
    };
    s.take(k as int) + Seq::new((width - k) as nat, |i: int| ' ')
}

/// Show `text` in a field `width` characters wide: cut to the width, padded
/// with spaces.
pub fn pad_to_width(text: &str, width: usize) -> (s: String)
    ensures
        s@ == padded(text@, width as nat),
{
    let chars = crate::json::chars_of(text);
    let mut s = String::new();
    let mut i: usize = 0;
    while i < chars.len() && i < width
        invariant
            chars@ == text@,
            i <= chars@.len(),
            i <= width,
            s@ == text@.take(i as int),
        decreases chars@.len() - i,
    {
        crate::text_util::string_push(&mut s, chars[i]);
        proof {
            assert(text@.take(i + 1) =~= text@.take(i as int).push(chars@[i as int]));
        }
        i += 1;
    }
    let ghost cut = s@;
    let mut pad: usize = 0;
    while i + pad < width
        invariant
            i <= width,
            i + pad <= width,
            s@ == cut + Seq::new(pad as nat, |k: int| ' '),
        decreases width - i - pad,
    {
        crate::text_util::string_push(&mut s, ' ');
        proof {
            assert(Seq::new((pad + 1) as nat, |k: int| ' ') =~= Seq::new(pad as nat, |k: int| ' ').push(' '));
        }
        pad += 1;
    }
    proof {
        assert(s@ =~= padded(text@, width as nat));
    }
    s
}

/// The label row of a list control: the label and a colon.
pub fn list_label_text(label: &str) -> (s: String)
    ensures
        s@ == label@ + ":"@,
{
    let mut s = String::from_str(label);
    s.append(":");
    s
}

/// The row of a text-list item whose field is `field_width` wide:
/// "  [text] [x]".
pub fn text_list_item_text(item: &str, field_width: u16) -> (s: String)
    ensures
        s@ == "  ["@ + padded(item@, sat_sub(field_width, 2) as nat) + "] [x]"@,
{
    let mut s = String::from_str("  [");
    let field = pad_to_width(item, field_width.saturating_sub(2) as usize);
    s.append(field.as_str());
    s.append("] [x]");
    s
}

/// The row of a map entry whose key column is `key_width` wide: "  key [x]".
pub fn map_entry_text(key: &str, key_width: u16) -> (s: String)
    ensures
        s@ == "  "@ + padded(key@, key_width as nat) + " [x]"@,
{
    let mut s = String::from_str("  ");
    let field = pad_to_width(key, key_width as usize);
    s.append(field.as_str());
    s.append(" [x]");
    s
}

/// The add-new row of a list control.
pub fn add_new_row_text() -> (s: &'static str)
    ensures
        s@ == "  [+] Add new"@,
{
    "  [+] Add new"
}

} // verus!
