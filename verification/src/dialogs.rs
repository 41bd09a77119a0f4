//! Layout of the two dialogs drawn over the settings modal: the confirmation
//! asked for when closing with unsaved changes, and the keyboard help.

use vstd::prelude::*;
use crate::settings_layout::{clamped_rect, min_u16, min_u16_exec, rect_new, sat_sub, Rect};
use crate::control_layout::{pad_to_width, padded};

verus! {

/// Width of a dialog over `parent`: at most 50, and two columns of margin
/// on each side.
pub open spec fn dialog_width(parent: Rect) -> u16 {
    min_u16(50, sat_sub(parent.width, 4))
}

/// Left edge of a dialog of width `width` centered on `parent`.
pub open spec fn dialog_x(parent: Rect, width: u16) -> int {
    parent.x + sat_sub(parent.width, width) / 2
}

/// Top edge of a dialog of height `height` centered on `parent`.
pub open spec fn dialog_y(parent: Rect, height: u16) -> int {
    parent.y + sat_sub(parent.height, height) / 2
}

/// The area inside a dialog's border, with a column of padding on each side.
pub open spec fn dialog_inner(dialog: Rect) -> Rect {
    clamped_rect(
        (dialog.x + 2) as u16,
        (dialog.y + 1) as u16,
        sat_sub(dialog.width, 4),
        sat_sub(dialog.height, 2),
    )
}

/// A full-width row of `area`, `offset` rows below its top.
pub open spec fn row_of(area: Rect, offset: int) -> Rect {
    clamped_rect(area.x, (area.y + offset) as u16, area.width, 1)
}

/// The centered dialog area and the area inside its border.
fn centered_dialog(parent: Rect, width: u16, height: u16) -> (r: (Rect, Rect))
    requires
        dialog_x(parent, width) + 2 <= u16::MAX,
        dialog_y(parent, height) + 1 <= u16::MAX,
    ensures
        r.0 == clamped_rect(dialog_x(parent, width) as u16, dialog_y(parent, height) as u16, width, height),
        r.1 == dialog_inner(r.0),
{
    let x = parent.x + parent.width.saturating_sub(width) / 2;
    let y = parent.y + parent.height.saturating_sub(height) / 2;
    let dialog = rect_new(x, y, width, height);
    let inner = rect_new(dialog.x + 2, dialog.y + 1, dialog.width.saturating_sub(4), dialog.height.saturating_sub(2));
    (dialog, inner)
}

// ---------------------------------------------------------------------------
// The unsaved-changes confirmation.
// ---------------------------------------------------------------------------

/// Height of the confirmation for `change_count` changes: seven rows (two
/// borders, two prompt rows, the separator, the buttons and the help) plus
/// a row per change, at most 20, and two rows of margin above and below.
/// The count is taken as a `u16`, that is modulo 65536.
pub open spec fn confirm_dialog_height(parent: Rect, change_count: nat) -> u16 {
    min_u16(min_u16((7 + change_count % 65536) as u16, 20), sat_sub(parent.height, 4))
}

/// The confirmation's area.
pub open spec fn confirm_dialog_area(parent: Rect, change_count: nat) -> Rect {
    let w = dialog_width(parent);
    let h = confirm_dialog_height(parent, change_count);
    clamped_rect(dialog_x(parent, w) as u16, dialog_y(parent, h) as u16, w, h)
}

/// How many changes are listed: as many as the rows between the prompt and
/// the separator hold.
pub open spec fn listed_changes(parent: Rect, change_count: nat) -> nat {
    let room = sat_sub(confirm_dialog_height(parent, change_count), 7) as nat;
    if change_count < room {
        change_count
    } else {
        room
    }
}

/// The row of the three buttons.
pub open spec fn confirm_button_row(parent: Rect, change_count: nat) -> int {
    let d = confirm_dialog_area(parent, change_count);
    d.y + d.height - 3
}

/// The labels of the confirmation's buttons, left to right.
pub open spec fn confirm_label(index: int) -> Seq<char> {
    if index == 0 {
        "Save and Exit"@
    } else if index == 1 {
        "Discard"@
    } else {
        "Cancel"@
    }
}

/// Left edge of the buttons: the 42 columns they take (each label and four
/// columns of brackets, and four columns of gaps) centered in the inner area.
pub open spec fn confirm_buttons_x(parent: Rect, change_count: nat) -> int {
    let inner = dialog_inner(confirm_dialog_area(parent, change_count));
    inner.x + sat_sub(inner.width, 42) / 2
}

/// Inputs on which laying out the confirmation does not overflow a
/// coordinate.
pub open spec fn confirm_dialog_fits(parent: Rect, change_count: nat) -> bool {
    let w = dialog_width(parent);
    let h = confirm_dialog_height(parent, change_count);
    let d = confirm_dialog_area(parent, change_count);
    &&& change_count % 65536 + 7 <= u16::MAX
    &&& dialog_x(parent, w) + 2 <= u16::MAX
    &&& dialog_y(parent, h) + 3 + listed_changes(parent, change_count) <= u16::MAX
    &&& d.y + d.height >= 4
    &&& confirm_buttons_x(parent, change_count) + 47 <= u16::MAX
}

/// Whether the confirmation for `change_count` changes can be laid out over
/// `parent` without overflowing a coordinate.
pub fn confirm_dialog_fits_in(parent: Rect, change_count: usize) -> (r: bool)
    ensures
        r == confirm_dialog_fits(parent, change_count as nat),
{
    let count16 = (change_count % 65536) as u32;
    if count16 + 7 > 0xffff {
        return false;
    }
    let width = min_u16_exec(50, parent.width.saturating_sub(4));
    let height = min_u16_exec(min_u16_exec((count16 + 7) as u16, 20), parent.height.saturating_sub(4));
    let x = parent.x as u32 + (parent.width.saturating_sub(width) / 2) as u32;
    let y = parent.y as u32 + (parent.height.saturating_sub(height) / 2) as u32;
    let room = (height as usize).saturating_sub(7);
    let listed = if change_count < room {
        change_count
    } else {
        room
    };
    if x + 2 > 0xffff || y + 3 + listed as u32 > 0xffff {
        return false;
    }
    let dialog = rect_new(x as u16, y as u16, width, height);
    if (dialog.y as u32) + (dialog.height as u32) < 4 {
        return false;
    }
    let inner = rect_new(dialog.x + 2, dialog.y + 1, dialog.width.saturating_sub(4), dialog.height.saturating_sub(2));
    (inner.x as u32) + (inner.width.saturating_sub(42) / 2) as u32 + 47 <= 0xffff
}

/// Areas of the confirmation.
#[derive(Debug, Clone)]
pub struct ConfirmDialogLayout {
    pub dialog: Rect,
    pub inner: Rect,
    pub prompt: Rect,
    /// One row per listed change, top to bottom.
    pub change_rows: Vec<Rect>,
    pub separator: Rect,
    /// "Save and Exit", "Discard", "Cancel", left to right.
    pub buttons: Vec<Rect>,
    pub help: Rect,
}

/// Lay out the confirmation for `change_count` unsaved changes over
/// `parent`.
pub fn confirm_dialog_layout(parent: Rect, change_count: usize) -> (l: ConfirmDialogLayout)
    requires
        confirm_dialog_fits(parent, change_count as nat),
    ensures
        ({
            let n = change_count as nat;
            let d = confirm_dialog_area(parent, n);
            let inner = dialog_inner(d);
            let by = confirm_button_row(parent, n);
            let bx = confirm_buttons_x(parent, n);
            &&& l.dialog == d
            &&& l.inner == inner
            &&& l.prompt == row_of(inner, 0)
            &&& l.change_rows@ == Seq::new(listed_changes(parent, n), |k: int| row_of(inner, 2 + k))
            &&& l.separator == clamped_rect(inner.x, (by - 1) as u16, inner.width, 1)
            &&& l.buttons@ == seq![
                clamped_rect(bx as u16, by as u16, 18, 1),
                clamped_rect((bx + 20) as u16, by as u16, 12, 1),
                clamped_rect((bx + 34) as u16, by as u16, 11, 1),
            ]
            &&& l.help == clamped_rect(inner.x, (by + 1) as u16, inner.width, 1)
        }),
{
    let width = min_u16_exec(50, parent.width.saturating_sub(4));
    let count16 = (change_count % 65536) as u16;
    let height = min_u16_exec(min_u16_exec(7 + count16, 20), parent.height.saturating_sub(4));
    let (dialog, inner) = centered_dialog(parent, width, height);
    let mut y = inner.y;
    let prompt = rect_new(inner.x, y, inner.width, 1);
    y += 2;
    let listed = if change_count < (height as usize).saturating_sub(7) {
        change_count
    } else {
        (height as usize).saturating_sub(7)
    };
    let ghost y_start = y;
    let mut change_rows: Vec<Rect> = Vec::new();
    let mut k: usize = 0;
    while k < listed
        invariant
            listed == listed_changes(parent, change_count as nat),
            y_start == inner.y + 2,
            y_start + listed <= u16::MAX,
            k <= listed,
            y == y_start + k,
            change_rows@ == Seq::new(k as nat, |j: int| row_of(inner, 2 + j)),
        decreases listed - k,
    {
        change_rows.push(rect_new(inner.x, y, inner.width, 1));
        proof {
            assert(change_rows@ =~= Seq::new((k + 1) as nat, |j: int| row_of(inner, 2 + j)));
        }
        y += 1;
        k += 1;
    }
    let button_y = dialog.y + dialog.height - 3;
    let separator = rect_new(inner.x, button_y - 1, inner.width, 1);
    let mut x = inner.x + inner.width.saturating_sub(42) / 2;
    let mut buttons: Vec<Rect> = Vec::new();
    // "Save and Exit": 13 columns of label.
    buttons.push(rect_new(x, button_y, 13 + 4 + 1, 1));
    x += 13 + 4 + 3;
    // "Discard"
    buttons.push(rect_new(x, button_y, 7 + 4 + 1, 1));
    x += 7 + 4 + 3;
    // "Cancel"
    buttons.push(rect_new(x, button_y, 6 + 4 + 1, 1));
    x += 6 + 4 + 3;
    let help = rect_new(inner.x, button_y + 1, inner.width, 1);
    proof {
        assert(buttons@ =~= seq![
            clamped_rect(confirm_buttons_x(parent, change_count as nat) as u16, button_y, 18, 1),
            clamped_rect((confirm_buttons_x(parent, change_count as nat) + 20) as u16, button_y, 12, 1),
            clamped_rect((confirm_buttons_x(parent, change_count as nat) + 34) as u16, button_y, 11, 1),
        ]);
    }
    ConfirmDialogLayout { dialog, inner, prompt, change_rows, separator, buttons, help }
}

/// The text of button `index` of the confirmation: a marker before the
/// selected one.
pub fn confirm_button_text(index: usize, selected: bool) -> (text: String)
    requires
        index < 3,
    ensures
        selected ==> text@ == "▶[ "@ + confirm_label(index as int) + " ]"@,
        !selected ==> text@ == " [ "@ + confirm_label(index as int) + " ]"@,
{
    let label = if index == 0 {
        "Save and Exit"
    } else if index == 1 {
        "Discard"
    } else {
        "Cancel"
    };
    let mut text = if selected {
        String::from_str("▶[ ")
    } else {
        String::from_str(" [ ")
    };
    text.append(label);
    text.append(" ]");
    text
}

// ---------------------------------------------------------------------------
// The keyboard help.
// ---------------------------------------------------------------------------

/// What a row of the help shows.
#[derive(Debug, Clone, Copy, PartialEq, Eq, Structural)]
pub enum HelpEntry {
    /// The title of section `i`.
    Section(usize),
    /// Binding `j` of section `i`.
    Binding(usize, usize),
    /// The blank row after a section.
    Blank,
}

/// Number of rows the help's sections take: three sections of three, four
/// and four bindings, each with a title row and a blank row after it.
pub const HELP_ROWS: usize = 17;

/// What row `k` of the help shows.
pub open spec fn help_slot(k: int) -> HelpEntry {
    if k == 0 {
        HelpEntry::Section(0)
    } else if 1 <= k <= 3 {
        HelpEntry::Binding(0, (k - 1) as usize)
    } else if k == 5 {
        HelpEntry::Section(1)
    } else if 6 <= k <= 9 {
        HelpEntry::Binding(1, (k - 6) as usize)
    } else if k == 11 {
        HelpEntry::Section(2)
    } else if 12 <= k <= 15 {
        HelpEntry::Binding(2, (k - 12) as usize)
    } else {
        HelpEntry::Blank
    }
}

fn help_slot_exec(k: usize) -> (e: HelpEntry)
    ensures
        e == help_slot(k as int),
{
    if k == 0 {
        HelpEntry::Section(0)
    } else if 1 <= k && k <= 3 {
        HelpEntry::Binding(0, k - 1)
    } else if k == 5 {
        HelpEntry::Section(1)
    } else if 6 <= k && k <= 9 {
        HelpEntry::Binding(1, k - 6)
    } else if k == 11 {
        HelpEntry::Section(2)
    } else if 12 <= k && k <= 15 {
        HelpEntry::Binding(2, k - 12)
    } else {
        HelpEntry::Blank
    }
}

/// Titles of the help's sections.
pub open spec fn help_section_title(i: int) -> Seq<char> {
    if i == 0 {
        "Navigation"@
    } else if i == 1 {
        "Search"@
    } else {
        "Actions"@
    }
}

/// Key and description of binding `j` of section `i`.
pub open spec fn help_binding(i: int, j: int) -> (Seq<char>, Seq<char>) {
    if i == 0 {
        if j == 0 {
            ("↑ / ↓"@, "Move up/down"@)
        } else if j == 1 {
            ("Tab"@, "Switch between categories and settings"@)
        } else {
            ("Enter"@, "Activate/toggle setting"@)
        }
    } else if i == 1 {
        if j == 0 {
            ("/"@, "Start search"@)
        } else if j == 1 {
            ("Esc"@, "Cancel search"@)
        } else if j == 2 {
            ("↑ / ↓"@, "Navigate results"@)
        } else {
            ("Enter"@, "Jump to result"@)
        }
    } else {
        if j == 0 {
            ("Ctrl+S"@, "Save settings"@)
        } else if j == 1 {
            ("Ctrl+R"@, "Reset to default"@)
        } else if j == 2 {
            ("Esc"@, "Close settings"@)
        } else {
            ("?"@, "Toggle this help"@)
        }
    }
}

/// The text of a help row: a section title, or a binding's key in a column
/// twelve wide after two spaces, then its description.
pub open spec fn help_row_text(e: HelpEntry) -> Seq<char> {
    match e {
        HelpEntry::Section(i) => help_section_title(i as int),
        HelpEntry::Binding(i, j) => "  "@ + padded(help_binding(i as int, j as int).0, 12) + help_binding(
            i as int,
            j as int,
        ).1,
        HelpEntry::Blank => Seq::empty(),
    }
}

/// The text shown in a help row.
pub fn help_entry_text(e: HelpEntry) -> (text: String)
    ensures
        text@ == help_row_text(e),
{
    match e {
        HelpEntry::Section(i) => {
            let title = if i == 0 {
                "Navigation"
            } else if i == 1 {
                "Search"
            } else {
                "Actions"
            };
            String::from_str(title)
        },
        HelpEntry::Binding(i, j) => {
            let (key, description) = if i == 0 {
                if j == 0 {
                    ("↑ / ↓", "Move up/down")
                } else if j == 1 {
                    ("Tab", "Switch between categories and settings")
                } else {
                    ("Enter", "Activate/toggle setting")
                }
            } else if i == 1 {
                if j == 0 {
                    ("/", "Start search")
                } else if j == 1 {
                    ("Esc", "Cancel search")
                } else if j == 2 {
                    ("↑ / ↓", "Navigate results")
                } else {
                    ("Enter", "Jump to result")
                }
            } else {
                if j == 0 {
                    ("Ctrl+S", "Save settings")
                } else if j == 1 {
                    ("Ctrl+R", "Reset to default")
                } else if j == 2 {
                    ("Esc", "Close settings")
                } else {
                    ("?", "Toggle this help")
                }
            };
            let mut text = String::from_str("  ");
            let key_column = pad_to_width(key, 12);
            text.append(key_column.as_str());
            text.append(description);
            text
        },
        HelpEntry::Blank => String::new(),
    }
}

/// A row of the help.
#[derive(Debug, Clone, Copy, PartialEq, Eq)]
pub struct HelpRow {
    pub area: Rect,
    pub entry: HelpEntry,
}

/// Areas of the help.
#[derive(Debug, Clone)]
pub struct HelpOverlayLayout {
    pub dialog: Rect,
    pub inner: Rect,
    /// The rows drawn, top to bottom: as many as fit above the last row of
    /// the inner area.
    pub rows: Vec<HelpRow>,
    /// The closing hint, centered on the dialog's last inner row.
    pub footer: Rect,
}

/// The help's area.
pub open spec fn help_dialog_area(parent: Rect) -> Rect {
    let w = dialog_width(parent);
    let h = min_u16(20, sat_sub(parent.height, 4));
    clamped_rect(dialog_x(parent, w) as u16, dialog_y(parent, h) as u16, w, h)
}

/// How many rows of the help are drawn.
pub open spec fn help_rows_shown(parent: Rect) -> nat {
    let room = sat_sub(dialog_inner(help_dialog_area(parent)).height, 1) as nat;
    if room < HELP_ROWS {
        room
    } else {
        HELP_ROWS as nat
    }
}

/// Inputs on which laying out the help does not overflow a coordinate.
pub open spec fn help_overlay_fits(parent: Rect) -> bool {
    let w = dialog_width(parent);
    let h = min_u16(20, sat_sub(parent.height, 4));
    &&& dialog_x(parent, w) + 2 <= u16::MAX
    &&& dialog_y(parent, h) + 1 <= u16::MAX
    &&& help_dialog_area(parent).y + help_dialog_area(parent).height >= 2
}

/// Whether the help can be laid out over `parent` without overflowing a
/// coordinate.
pub fn help_overlay_fits_in(parent: Rect) -> (r: bool)
    ensures
        r == help_overlay_fits(parent),
{
    let width = min_u16_exec(50, parent.width.saturating_sub(4));
    let height = min_u16_exec(20, parent.height.saturating_sub(4));
    let x = parent.x as u32 + (parent.width.saturating_sub(width) / 2) as u32;
    let y = parent.y as u32 + (parent.height.saturating_sub(height) / 2) as u32;
    if x + 2 > 0xffff || y + 1 > 0xffff {
        return false;
    }
    let dialog = rect_new(x as u16, y as u16, width, height);
    (dialog.y as u32) + (dialog.height as u32) >= 2
}

/// The closing hint of the help.
pub fn help_footer_text() -> (text: &'static str)
    ensures
        text@ == "Press ? or Esc or Enter to close"@,
{
    "Press ? or Esc or Enter to close"
}

/// Lay out the keyboard help over `parent`.
pub fn help_overlay_layout(parent: Rect) -> (l: HelpOverlayLayout)
    requires
        help_overlay_fits(parent),
    ensures
        ({
            let d = help_dialog_area(parent);
            let inner = dialog_inner(d);
            &&& l.dialog == d
            &&& l.inner == inner
            &&& l.rows@ == Seq::new(
                help_rows_shown(parent),
                |k: int| HelpRow { area: row_of(inner, k), entry: help_slot(k) },
            )
            &&& l.footer == clamped_rect(
                (inner.x + sat_sub(inner.width, 32) / 2) as u16,
                (d.y + d.height - 2) as u16,
                32,
                1,
            )
        }),
{
    let width = min_u16_exec(50, parent.width.saturating_sub(4));
    let height = min_u16_exec(20, parent.height.saturating_sub(4));
    let (dialog, inner) = centered_dialog(parent, width, height);
    let room = inner.height.saturating_sub(1) as usize;
    let shown = if room < HELP_ROWS {
        room
    } else {
        HELP_ROWS
    };
    let mut rows: Vec<HelpRow> = Vec::new();
    let mut k: usize = 0;
    while k < shown
        invariant
            shown == help_rows_shown(parent),
            shown < inner.height || shown == 0,
            inner.y + inner.height <= u16::MAX,
            k <= shown,
            rows@ == Seq::new(k as nat, |j: int| HelpRow { area: row_of(inner, j), entry: help_slot(j) }),
        decreases shown - k,
    {
        let area = rect_new(inner.x, inner.y + k as u16, inner.width, 1);
        let entry = help_slot_exec(k);
        rows.push(HelpRow { area, entry });
        proof {
            assert(rows@ =~= Seq::new(
                (k + 1) as nat,
                |j: int| HelpRow { area: row_of(inner, j), entry: help_slot(j) },
            ));
        }
        k += 1;
    }
    let footer_y = dialog.y + dialog.height - 2;
    let centered_x = inner.x + inner.width.saturating_sub(32) / 2;
    let footer = rect_new(centered_x, footer_y, 32, 1);
    HelpOverlayLayout { dialog, inner, rows, footer }
}

} // verus!
