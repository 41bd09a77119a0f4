//! Layout of the settings modal: where each part of the modal goes, which
//! rows are highlighted, and the texts shown.  Drawing the parts is left to
//! the caller; everything decided here is plain geometry and text.

use vstd::prelude::*;
use crate::text_util::string_push;
use crate::controls::FocusState;
use vstd::utf8::{decode_utf8, encode_utf8_decode_utf8, is_char_boundary};
use vstd::string::StringSliceAdditionalSpecFns;
use crate::json::chars_of;

verus! {

/// A rectangle of terminal cells.
#[derive(Debug, Clone, Copy, PartialEq, Eq)]
pub struct Rect {
    pub x: u16,
    pub y: u16,
    pub width: u16,
    pub height: u16,
}

/// The rectangle `ratatui::layout::Rect::new` makes: the width and height
/// are clamped so that the right and bottom edges stay within `u16`.
pub open spec fn clamped_rect(x: u16, y: u16, width: u16, height: u16) -> Rect {
    Rect {
        x,
        y,
        width: if width > u16::MAX - x {
            (u16::MAX - x) as u16
        } else {
            width
        },
        height: if height > u16::MAX - y {
            (u16::MAX - y) as u16
        } else {
            height
        },
    }
}

impl Rect {
    /// The rectangle lies in the `u16` coordinate space (as every rectangle
    /// `Rect::new` makes does).
    pub open spec fn wf(self) -> bool {
        &&& self.x + self.width <= u16::MAX
        &&& self.y + self.height <= u16::MAX
    }

    /// A rectangle at (`x`, `y`), with the width and height clamped so that
    /// it stays within the `u16` coordinate space.
    pub fn new(x: u16, y: u16, width: u16, height: u16) -> (r: Rect)
        ensures
            r == clamped_rect(x, y, width, height),
            r.wf(),
    {
        rect_new(x, y, width, height)
    }

    /// The empty rectangle at the origin.
    pub fn zero() -> (r: Rect)
        ensures
            r == (Rect { x: 0, y: 0, width: 0, height: 0 }),
    {
        Rect { x: 0, y: 0, width: 0, height: 0 }
    }
}

/// `ratatui::layout::Rect::new`.  The contract states what its source does:
/// width and height are clamped to `u16::MAX - x` and `u16::MAX - y`.
#[verifier::external_body]
pub(crate) fn rect_new(x: u16, y: u16, width: u16, height: u16) -> (r: Rect)
    ensures
        r == clamped_rect(x, y, width, height),
{
    let r = ratatui::layout::Rect::new(x, y, width, height);
    Rect { x: r.x, y: r.y, width: r.width, height: r.height }
}

/// The two areas `ratatui::layout::Layout::horizontal([Constraint::Length(left),
/// Constraint::Min(right_min)]).split(area)` gives.
pub uninterp spec fn horizontal_split(area: Rect, left: u16, right_min: u16) -> (Rect, Rect);

/// `ratatui::layout::Layout::split` on a horizontal layout of a fixed-width
/// left part and a right part of a minimum width.  Its result is named, not
/// described: ratatui computes it with a constraint solver, and nothing here
/// states where the two parts lie (the source only guarantees what its
/// solver finds).  The source panics only when the solver refuses a
/// required constraint, which a length and a minimum never make it do.
#[verifier::external_body]
fn split_horizontal(area: Rect, left: u16, right_min: u16) -> (r: (Rect, Rect))
    ensures
        r == horizontal_split(area, left, right_min),
{
    let chunks = ratatui::layout::Layout::horizontal(
        [ratatui::layout::Constraint::Length(left), ratatui::layout::Constraint::Min(right_min)],
    ).split(ratatui::layout::Rect { x: area.x, y: area.y, width: area.width, height: area.height });
    (
        Rect { x: chunks[0].x, y: chunks[0].y, width: chunks[0].width, height: chunks[0].height },
        Rect { x: chunks[1].x, y: chunks[1].y, width: chunks[1].width, height: chunks[1].height },
    )
}

pub open spec fn min_u16(a: u16, b: u16) -> u16 {
    if a <= b {
        a
    } else {
        b
    }
}

pub open spec fn sat_sub(a: u16, b: u16) -> u16 {
    if a >= b {
        (a - b) as u16
    } else {
        0
    }
}

// ---------------------------------------------------------------------------
// The modal frame.
// ---------------------------------------------------------------------------

/// Width of the category list on the left.
pub const CATEGORY_PANEL_WIDTH: u16 = 25;

/// Minimum width of the settings panel on the right.
pub const SETTINGS_PANEL_MIN_WIDTH: u16 = 40;

/// The modal: 80% of the screen, at most 100 wide and 40 tall, centered.
pub open spec fn modal_area_of(area: Rect) -> Rect {
    let w = min_u16((area.width * 80 / 100) as u16, 100);
    let h = min_u16((area.height * 80 / 100) as u16, 40);
    clamped_rect(sat_sub(area.width, w) / 2, sat_sub(area.height, h) / 2, w, h)
}

/// Calculate the modal area (80% of the screen, max 100 wide, 40 tall).
pub fn modal_area(area: Rect) -> (r: Rect)
    requires
        area.width * 80 <= u16::MAX,
        area.height * 80 <= u16::MAX,
    ensures
        r == modal_area_of(area),
{
    let modal_width = min_u16_exec(area.width * 80 / 100, 100);
    let modal_height = min_u16_exec(area.height * 80 / 100, 40);
    let modal_x = (area.width.saturating_sub(modal_width)) / 2;
    let modal_y = (area.height.saturating_sub(modal_height)) / 2;
    rect_new(modal_x, modal_y, modal_width, modal_height)
}

pub(crate) fn min_u16_exec(a: u16, b: u16) -> (r: u16)
    ensures
        r == min_u16(a, b),
{
    if a <= b {
        a
    } else {
        b
    }
}

/// The modal's title: marked when there are unsaved changes.
pub fn modal_title(has_changes: bool) -> (title: &'static str)
    ensures
        has_changes ==> title@ == " Settings • (modified) "@,
        !has_changes ==> title@ == " Settings "@,
{
    if has_changes {
        " Settings • (modified) "
    } else {
        " Settings "
    }
}

/// The area inside the modal's border.
pub fn inner_area(modal: Rect) -> (r: Rect)
    requires
        modal.x < u16::MAX,
        modal.y < u16::MAX,
    ensures
        r == clamped_rect(
            (modal.x + 1) as u16,
            (modal.y + 1) as u16,
            sat_sub(modal.width, 2),
            sat_sub(modal.height, 2),
        ),
{
    rect_new(modal.x + 1, modal.y + 1, modal.width.saturating_sub(2), modal.height.saturating_sub(2))
}

/// The search header (two rows at the top, when search is active) and the
/// content area below it.
pub fn content_areas(inner: Rect, search_active: bool) -> (r: (Option<Rect>, Rect))
    requires
        search_active ==> inner.y + 2 <= u16::MAX,
    ensures
        search_active ==> r == (
            Some(clamped_rect(inner.x, inner.y, inner.width, 2)),
            clamped_rect(inner.x, (inner.y + 2) as u16, inner.width, sat_sub(inner.height, 2)),
        ),
        !search_active ==> r == (None::<Rect>, inner),
{
    if search_active {
        let search_area = rect_new(inner.x, inner.y, inner.width, 2);
        (
            Some(search_area),
            rect_new(inner.x, inner.y + 2, inner.width, inner.height.saturating_sub(2)),
        )
    } else {
        (None, inner)
    }
}

/// The category panel and the settings panel of the content area.
pub fn split_panels(content: Rect) -> (r: (Rect, Rect))
    ensures
        r == horizontal_split(content, CATEGORY_PANEL_WIDTH, SETTINGS_PANEL_MIN_WIDTH),
{
    split_horizontal(content, CATEGORY_PANEL_WIDTH, SETTINGS_PANEL_MIN_WIDTH)
}

/// The separator column right of the category panel, and the settings panel
/// without its first column.
pub fn panel_areas(categories: Rect, settings: Rect) -> (r: (Rect, Rect))
    requires
        categories.x + categories.width <= u16::MAX,
        settings.x < u16::MAX,
    ensures
        r == (
            clamped_rect((categories.x + categories.width) as u16, categories.y, 1, categories.height),
            clamped_rect((settings.x + 1) as u16, settings.y, sat_sub(settings.width, 1), settings.height),
        ),
{
    let separator = rect_new(categories.x + categories.width, categories.y, 1, categories.height);
    let settings_inner = rect_new(
        settings.x + 1,
        settings.y,
        settings.width.saturating_sub(1),
        settings.height,
    );
    (separator, settings_inner)
}

/// All areas of the settings modal.
#[derive(Debug, Clone, Copy, PartialEq, Eq)]
pub struct ModalAreas {
    pub modal: Rect,
    pub inner: Rect,
    pub search_header: Option<Rect>,
    pub content: Rect,
    pub categories: Rect,
    pub separator: Rect,
    pub settings: Rect,
}

/// The areas of the settings modal, when they fit in the coordinate space
/// (`None` where drawing would overflow a coordinate).
pub fn modal_areas(area: Rect, search_active: bool) -> (r: Option<ModalAreas>)
    requires
        area.width * 80 <= u16::MAX,
        area.height * 80 <= u16::MAX,
    ensures
        ({
            let modal = modal_area_of(area);
            let inner = clamped_rect(
                (modal.x + 1) as u16,
                (modal.y + 1) as u16,
                sat_sub(modal.width, 2),
                sat_sub(modal.height, 2),
            );
            let search = if search_active {
                Some(clamped_rect(inner.x, inner.y, inner.width, 2))
            } else {
                None
            };
            let content = if search_active {
                clamped_rect(inner.x, (inner.y + 2) as u16, inner.width, sat_sub(inner.height, 2))
            } else {
                inner
            };
            let (cat, set) = horizontal_split(content, CATEGORY_PANEL_WIDTH, SETTINGS_PANEL_MIN_WIDTH);
            let fits = cat.x + cat.width <= u16::MAX && set.x < u16::MAX;
            &&& fits ==> r == Some(
                ModalAreas {
                    modal,
                    inner,
                    search_header: search,
                    content,
                    categories: cat,
                    separator: clamped_rect((cat.x + cat.width) as u16, cat.y, 1, cat.height),
                    settings: clamped_rect((set.x + 1) as u16, set.y, sat_sub(set.width, 1), set.height),
                },
            )
            &&& !fits ==> r is None
        }),
{
    let modal = modal_area(area);
    let inner = inner_area(modal);
    let (search_header, content) = content_areas(inner, search_active);
    let (categories, settings) = split_panels(content);
    if categories.x as u32 + categories.width as u32 > 0xffff || settings.x == u16::MAX {
        return None;
    }
    let (separator, settings) = panel_areas(categories, settings);
    Some(ModalAreas { modal, inner, search_header, content, categories, separator, settings })
}

// ---------------------------------------------------------------------------
// Hover targets.
// ---------------------------------------------------------------------------

/// What the mouse is over.
#[derive(Debug, Clone, Copy, PartialEq, Eq, Structural)]
pub enum SettingsHit {
    Category(usize),
    Item(usize),
    ControlToggle(usize),
    ControlDecrement(usize),
    ControlIncrement(usize),
    ControlDropdown(usize),
    ControlText(usize),
    ControlTextListRow(usize, usize),
    ControlMapRow(usize, usize),
    SaveButton,
    CancelButton,
    ResetButton,
    Background,
}

/// Whether the hover target is setting item `idx` or one of its controls.
pub open spec fn hovers_item(hover: Option<SettingsHit>, idx: usize) -> bool {
    match hover {
        Some(SettingsHit::Item(i)) => i == idx,
        Some(SettingsHit::ControlToggle(i)) => i == idx,
        Some(SettingsHit::ControlDecrement(i)) => i == idx,
        Some(SettingsHit::ControlIncrement(i)) => i == idx,
        Some(SettingsHit::ControlDropdown(i)) => i == idx,
        Some(SettingsHit::ControlText(i)) => i == idx,
        Some(SettingsHit::ControlTextListRow(i, _)) => i == idx,
        Some(SettingsHit::ControlMapRow(i, _)) => i == idx,
        _ => false,
    }
}

// ---------------------------------------------------------------------------
// The category list.
// ---------------------------------------------------------------------------

/// How a row is highlighted.
#[derive(Debug, Clone, Copy, PartialEq, Eq)]
pub enum RowStyle {
    /// Selected while its panel has the focus.
    FocusedSelection,
    /// Selected while the other panel has the focus.
    Selection,
    /// Under the mouse.
    Hover,
    Plain,
}

/// A row of the category list.
#[derive(Debug, Clone, Copy, PartialEq, Eq)]
pub struct CategoryRow {
    pub index: usize,
    pub area: Rect,
    pub style: RowStyle,
}

pub open spec fn category_style(idx: usize, selected: usize, category_focus: bool, hover: Option<SettingsHit>) -> RowStyle {
    if idx == selected {
        if category_focus {
            RowStyle::FocusedSelection
        } else {
            RowStyle::Selection
        }
    } else if hover == Some(SettingsHit::Category(idx)) {
        RowStyle::Hover
    } else {
        RowStyle::Plain
    }
}

/// The selected category is drawn as the focused selection while the
/// category list has the focus and as the plain selection otherwise,
/// whatever the mouse is over; another category is drawn hovered exactly
/// when the mouse is over that category.
pub proof fn law_category_style(idx: usize, selected: usize, category_focus: bool)
    ensures
        idx == selected && category_focus ==> forall|hover: Option<SettingsHit>|
            #[trigger] category_style(idx, selected, category_focus, hover) == RowStyle::FocusedSelection,
        idx == selected && !category_focus ==> forall|hover: Option<SettingsHit>|
            #[trigger] category_style(idx, selected, category_focus, hover) == RowStyle::Selection,
        idx != selected ==> category_style(idx, selected, category_focus, Some(SettingsHit::Category(idx)))
            == RowStyle::Hover,
        idx != selected ==> forall|hover: Option<SettingsHit>|
            hover != Some(SettingsHit::Category(idx)) ==> #[trigger] category_style(
                idx,
                selected,
                category_focus,
                hover,
            ) == RowStyle::Plain,
{
}

/// The rows of the category list: one per page, top to bottom, as many as fit.
pub fn category_rows(
    area: Rect,
    page_count: usize,
    selected: usize,
    category_focus: bool,
    hover: Option<SettingsHit>,
) -> (rows: Vec<CategoryRow>)
    requires
        area.wf(),
    ensures
        rows@.len() == if page_count < area.height as nat {
            page_count as nat
        } else {
            area.height as nat
        },
        forall|i: int|
            0 <= i < rows@.len() ==> #[trigger] rows@[i] == (CategoryRow {
                index: i as usize,
                area: clamped_rect(area.x, (area.y + i) as u16, area.width, 1),
                style: category_style(i as usize, selected, category_focus, hover),
            }),
{
    let mut rows: Vec<CategoryRow> = Vec::new();
    let mut idx: usize = 0;
    while idx < page_count
        invariant
            area.wf(),
            idx <= page_count,
            idx <= area.height,
            rows@.len() == idx,
            forall|i: int|
                0 <= i < idx ==> #[trigger] rows@[i] == (CategoryRow {
                    index: i as usize,
                    area: clamped_rect(area.x, (area.y + i) as u16, area.width, 1),
                    style: category_style(i as usize, selected, category_focus, hover),
                }),
        ensures
            idx == page_count || idx == area.height,
        decreases page_count - idx,
    {
        if idx as u16 >= area.height {
            break;
        }
        let style = if idx == selected {
            if category_focus {
                RowStyle::FocusedSelection
            } else {
                RowStyle::Selection
            }
        } else if matches!(hover, Some(SettingsHit::Category(i)) if i == idx) {
            RowStyle::Hover
        } else {
            RowStyle::Plain
        };
        let row_area = rect_new(area.x, area.y + idx as u16, area.width, 1);
        rows.push(CategoryRow { index: idx, area: row_area, style });
        idx += 1;
    }
    rows
}

/// The text of a category row: a dot marks a page with modified settings.
pub fn category_row_text(name: &str, has_changes: bool) -> (text: String)
    ensures
        has_changes ==> text@ == "● "@ + name@,
        !has_changes ==> text@ == "  "@ + name@,
{
    let prefix = if has_changes {
        "● "
    } else {
        "  "
    };
    let mut text = String::from_str(prefix);
    text.append(name);
    text
}

/// The cells of a one-column separator, top to bottom.
pub fn separator_cells(area: Rect) -> (cells: Vec<Rect>)
    requires
        area.wf(),
    ensures
        cells@.len() == area.height,
        forall|i: int|
            0 <= i < cells@.len() ==> #[trigger] cells@[i] == clamped_rect(area.x, (area.y + i) as u16, 1, 1),
{
    let mut cells: Vec<Rect> = Vec::new();
    let mut y: u16 = 0;
    while y < area.height
        invariant
            area.wf(),
            y <= area.height,
            cells@.len() == y,
            forall|i: int|
                0 <= i < cells@.len() ==> #[trigger] cells@[i] == clamped_rect(area.x, (area.y + i) as u16, 1, 1),
        decreases area.height - y,
    {
        cells.push(rect_new(area.x, area.y + y, 1, 1));
        y += 1;
    }
    cells
}

// ---------------------------------------------------------------------------
// The settings panel.
// ---------------------------------------------------------------------------

/// Rows of the settings panel's header and the area left for the items.
#[derive(Debug, Clone, Copy, PartialEq, Eq)]
pub struct PanelHeader {
    pub title_row: Rect,
    pub description_row: Option<Rect>,
    /// Rows available for items (before the one-row minimum of `items_area`).
    pub available_height: u16,
    pub items_area: Rect,
}

/// The header rows of a page (title, optional description, blank line) and
/// the area of the items below them.
pub fn panel_header(area: Rect, has_description: bool) -> (h: PanelHeader)
    requires
        area.y + (if has_description {
            3int
        } else {
            2int
        }) <= u16::MAX,
    ensures
        ({
            let header_height: u16 = if has_description {
                3
            } else {
                2
            };
            let available = sat_sub(area.height, (header_height + 1) as u16);
            &&& h.title_row == clamped_rect(area.x, area.y, area.width, 1)
            &&& h.description_row == if has_description {
                Some(clamped_rect(area.x, (area.y + 1) as u16, area.width, 1))
            } else {
                None
            }
            &&& h.available_height == available
            &&& h.items_area == clamped_rect(
                area.x,
                (area.y + header_height) as u16,
                area.width,
                if available >= 1 {
                    available
                } else {
                    1
                },
            )
        }),
{
    let mut y = area.y;
    let header_start_y = y;
    let title_row = rect_new(area.x, y, area.width, 1);
    y += 1;
    let description_row = if has_description {
        let r = rect_new(area.x, y, area.width, 1);
        y += 1;
        Some(r)
    } else {
        None
    };
    y += 1; // Blank line
    let header_height = y - header_start_y;
    let available_height = area.height.saturating_sub(header_height + 1);
    let items_area = rect_new(
        area.x,
        y,
        area.width,
        if available_height >= 1 {
            available_height
        } else {
            1
        },
    );
    PanelHeader { title_row, description_row, available_height, items_area }
}

/// Areas of items of the given heights stacked down an area from row `y`:
/// each as tall as it needs, the last cut at the bottom, none once the area
/// is full.
pub open spec fn stack_from(area: Rect, heights: Seq<u16>, y: int) -> Seq<Rect>
    decreases heights.len(),
{
    let bottom = area.y + area.height;
    if heights.len() == 0 || y >= bottom {
        Seq::empty()
    } else {
        let h = if heights[0] < bottom - y {
            heights[0] as int
        } else {
            bottom - y
        };
        seq![clamped_rect(area.x, y as u16, area.width, h as u16)] + stack_from(
            area,
            heights.drop_first(),
            y + h,
        )
    }
}

/// The areas of the items of a page, stacked from the top of the items area.
pub fn stacked_item_areas(area: Rect, heights: &[u16]) -> (areas: Vec<Rect>)
    requires
        area.wf(),
    ensures
        areas@ == stack_from(area, heights@, area.y as int),
{
    let bottom = area.y + area.height;
    let mut areas: Vec<Rect> = Vec::new();
    let mut y = area.y;
    let mut i: usize = 0;
    proof {
        assert(heights@.skip(0) =~= heights@);
        assert(areas@ + stack_from(area, heights@.skip(0), y as int) =~= stack_from(area, heights@, area.y as int));
    }
    while i < heights.len()
        invariant
            area.wf(),
            bottom == area.y + area.height,
            area.y <= y <= bottom,
            i <= heights@.len(),
            areas@ + stack_from(area, heights@.skip(i as int), y as int) == stack_from(
                area,
                heights@,
                area.y as int,
            ),
        ensures
            i == heights@.len(),
        decreases heights@.len() - i,
    {
        let ghost rest = heights@.skip(i as int);
        if y >= bottom {
            proof {
                assert(stack_from(area, rest, y as int) =~= Seq::<Rect>::empty());
                assert(areas@ + Seq::<Rect>::empty() =~= areas@);
                assert(stack_from(area, heights@.skip(heights@.len() as int), y as int) =~= Seq::<Rect>::empty());
            }
            i = heights.len();
            proof {
                assert(areas@ + stack_from(area, heights@.skip(i as int), y as int) =~= areas@);
            }
            break;
        }
        let h = if heights[i] < bottom - y {
            heights[i]
        } else {
            bottom - y
        };
        let r = rect_new(area.x, y, area.width, h);
        proof {
            assert(rest[0] == heights@[i as int]);
            assert(rest.drop_first() =~= heights@.skip(i + 1));
            assert(stack_from(area, rest, y as int) == seq![r] + stack_from(area, heights@.skip(i + 1), y + h));
            assert(areas@.push(r) + stack_from(area, heights@.skip(i + 1), y + h) =~= areas@ + (seq![r]
                + stack_from(area, heights@.skip(i + 1), y + h)));
        }
        areas.push(r);
        y = y + h;
        i += 1;
    }
    proof {
        assert(stack_from(area, heights@.skip(i as int), y as int) =~= Seq::<Rect>::empty()) by {
            assert(heights@.skip(i as int).len() == 0);
        }
        assert(areas@ + Seq::<Rect>::empty() =~= areas@);
    }
    areas
}

/// How a setting item is highlighted.
#[derive(Debug, Clone, Copy, PartialEq, Eq)]
pub enum ItemHighlight {
    Selected,
    Hovered,
    Plain,
}

pub open spec fn item_highlight_of(
    idx: usize,
    selected_item: usize,
    category_focus: bool,
    hover: Option<SettingsHit>,
) -> ItemHighlight {
    if !category_focus && idx == selected_item {
        ItemHighlight::Selected
    } else if hovers_item(hover, idx) {
        ItemHighlight::Hovered
    } else {
        ItemHighlight::Plain
    }
}

/// The selected item (while the settings panel has the focus) is drawn as
/// selected whatever the mouse is over.  Any other item is drawn hovered
/// when the mouse is over it or over any of its controls (toggle, either
/// number button, dropdown, text field, a list row, a map row), and plain
/// when the mouse is over another item, a category, a button, the
/// background, or nothing.
pub proof fn law_item_highlight(idx: usize, selected_item: usize, category_focus: bool)
    ensures
        !category_focus && idx == selected_item ==> forall|hover: Option<SettingsHit>|
            #[trigger] item_highlight_of(idx, selected_item, category_focus, hover) == ItemHighlight::Selected,
        !(!category_focus && idx == selected_item) ==> {
            &&& item_highlight_of(idx, selected_item, category_focus, Some(SettingsHit::Item(idx)))
                == ItemHighlight::Hovered
            &&& item_highlight_of(idx, selected_item, category_focus, Some(SettingsHit::ControlToggle(idx)))
                == ItemHighlight::Hovered
            &&& item_highlight_of(idx, selected_item, category_focus, Some(SettingsHit::ControlDecrement(idx)))
                == ItemHighlight::Hovered
            &&& item_highlight_of(idx, selected_item, category_focus, Some(SettingsHit::ControlIncrement(idx)))
                == ItemHighlight::Hovered
            &&& item_highlight_of(idx, selected_item, category_focus, Some(SettingsHit::ControlDropdown(idx)))
                == ItemHighlight::Hovered
            &&& item_highlight_of(idx, selected_item, category_focus, Some(SettingsHit::ControlText(idx)))
                == ItemHighlight::Hovered
            &&& forall|r: usize|
                #[trigger] item_highlight_of(
                    idx,
                    selected_item,
                    category_focus,
                    Some(SettingsHit::ControlTextListRow(idx, r)),
                ) == ItemHighlight::Hovered
            &&& forall|r: usize|
                #[trigger] item_highlight_of(
                    idx,
                    selected_item,
                    category_focus,
                    Some(SettingsHit::ControlMapRow(idx, r)),
                ) == ItemHighlight::Hovered
            &&& forall|j: usize|
                j != idx ==> #[trigger] item_highlight_of(
                    idx,
                    selected_item,
                    category_focus,
                    Some(SettingsHit::Item(j)),
                ) == ItemHighlight::Plain
            &&& forall|j: usize|
                #[trigger] item_highlight_of(idx, selected_item, category_focus, Some(SettingsHit::Category(j)))
                    == ItemHighlight::Plain
            &&& item_highlight_of(idx, selected_item, category_focus, Some(SettingsHit::SaveButton))
                == ItemHighlight::Plain
            &&& item_highlight_of(idx, selected_item, category_focus, Some(SettingsHit::CancelButton))
                == ItemHighlight::Plain
            &&& item_highlight_of(idx, selected_item, category_focus, Some(SettingsHit::ResetButton))
                == ItemHighlight::Plain
            &&& item_highlight_of(idx, selected_item, category_focus, Some(SettingsHit::Background))
                == ItemHighlight::Plain
            &&& item_highlight_of(idx, selected_item, category_focus, None) == ItemHighlight::Plain
        },
{
}

/// The highlight of setting item `idx`: selected when the settings panel has
/// the focus and the item is the selected one, else hovered when the mouse is
/// over the item or one of its controls.
pub fn item_highlight(
    idx: usize,
    selected_item: usize,
    category_focus: bool,
    hover: Option<SettingsHit>,
) -> (h: ItemHighlight)
    ensures
        h == item_highlight_of(idx, selected_item, category_focus, hover),
{
    let is_selected = !category_focus && idx == selected_item;
    let is_item_hovered = match hover {
        Some(SettingsHit::Item(i)) => i == idx,
        Some(SettingsHit::ControlToggle(i)) => i == idx,
        Some(SettingsHit::ControlDecrement(i)) => i == idx,
        Some(SettingsHit::ControlIncrement(i)) => i == idx,
        Some(SettingsHit::ControlDropdown(i)) => i == idx,
        Some(SettingsHit::ControlText(i)) => i == idx,
        Some(SettingsHit::ControlTextListRow(i, _)) => i == idx,
        Some(SettingsHit::ControlMapRow(i, _)) => i == idx,
        _ => false,
    };
    if is_selected {
        ItemHighlight::Selected
    } else if is_item_hovered {
        ItemHighlight::Hovered
    } else {
        ItemHighlight::Plain
    }
}

/// The first `limit` one-row strips of an area, top to bottom.
pub fn row_strips(area: Rect, limit: u16) -> (rows: Vec<Rect>)
    requires
        area.wf(),
    ensures
        rows@.len() == min_u16(area.height, limit),
        forall|i: int|
            0 <= i < rows@.len() ==> #[trigger] rows@[i] == clamped_rect(area.x, (area.y + i) as u16, area.width, 1),
{
    let n = min_u16_exec(area.height, limit);
    let mut rows: Vec<Rect> = Vec::new();
    let mut row: u16 = 0;
    while row < n
        invariant
            area.wf(),
            n <= area.height,
            row <= n,
            rows@.len() == row,
            forall|i: int|
                0 <= i < rows@.len() ==> #[trigger] rows@[i] == clamped_rect(area.x, (area.y + i) as u16, area.width, 1),
        decreases n - row,
    {
        rows.push(rect_new(area.x, area.y + row, area.width, 1));
        row += 1;
    }
    rows
}

/// The label of a complex setting: a dot when modified, the name, a colon.
pub fn complex_label_text(name: &str, modified: bool) -> (text: String)
    ensures
        modified ==> text@ == "• "@ + name@ + ": "@,
        !modified ==> text@ == name@ + ": "@,
{
    let mut text = String::new();
    if modified {
        text.append("• ");
    }
    text.append(name);
    text.append(": ");
    proof {
        if !modified {
            assert(Seq::<char>::empty() + name@ =~= name@);
        }
    }
    text
}

/// The value shown for a complex setting.
pub fn complex_value_text(kind_name: &str) -> (text: String)
    ensures
        text@ == "<"@ + kind_name@ + " - edit in config.toml>"@,
{
    let mut text = String::from_str("<");
    text.append(kind_name);
    text.append(" - edit in config.toml>");
    text
}

// ---------------------------------------------------------------------------
// The footer.
// ---------------------------------------------------------------------------

/// Areas of the footer: separator line, buttons (from the right: Cancel,
/// Save, Reset) and the help text left of them.
#[derive(Debug, Clone, Copy, PartialEq, Eq)]
pub struct FooterLayout {
    pub separator: Rect,
    pub footer: Rect,
    pub reset_button: Rect,
    pub save_button: Rect,
    pub cancel_button: Rect,
    pub help: Rect,
}

pub const CANCEL_BUTTON_WIDTH: u16 = 10;
pub const SAVE_BUTTON_WIDTH: u16 = 8;
pub const RESET_BUTTON_WIDTH: u16 = 9;
pub const BUTTON_GAP: u16 = 2;

/// The footer row of the modal.
pub open spec fn footer_row(modal: Rect) -> Rect {
    clamped_rect((modal.x + 1) as u16, (modal.y + modal.height - 2) as u16, sat_sub(modal.width, 2), 1)
}

/// A modal whose footer has room for the buttons and the help text.
pub open spec fn footer_fits(modal: Rect) -> bool {
    &&& modal.x < u16::MAX
    &&& 3 <= modal.y + modal.height <= u16::MAX
    &&& footer_row(modal).width >= 32
}

/// Lay out the footer of the modal.
pub fn footer_layout(modal: Rect) -> (f: FooterLayout)
    requires
        footer_fits(modal),
    ensures
        ({
            let footer_y = (modal.y + modal.height - 2) as u16;
            let footer = footer_row(modal);
            let cancel_x = (footer.x + footer.width - 10) as u16;
            let save_x = (cancel_x - 10) as u16;
            let reset_x = (save_x - 11) as u16;
            &&& f.footer == footer
            &&& f.separator == clamped_rect((modal.x + 1) as u16, (footer_y - 1) as u16, sat_sub(modal.width, 2), 1)
            &&& f.cancel_button == clamped_rect(cancel_x, footer_y, 10, 1)
            &&& f.save_button == clamped_rect(save_x, footer_y, 8, 1)
            &&& f.reset_button == clamped_rect(reset_x, footer_y, 9, 1)
            &&& f.help == clamped_rect(footer.x, footer_y, (reset_x - footer.x - 1) as u16, 1)
        }),
{
    let footer_y = modal.y + modal.height - 2;
    let footer_area = rect_new(modal.x + 1, footer_y, modal.width.saturating_sub(2), 1);
    let sep_area = rect_new(modal.x + 1, footer_y - 1, modal.width.saturating_sub(2), 1);

    let cancel_x = footer_area.x + footer_area.width - CANCEL_BUTTON_WIDTH;
    let save_x = cancel_x - SAVE_BUTTON_WIDTH - BUTTON_GAP;
    let reset_x = save_x - RESET_BUTTON_WIDTH - BUTTON_GAP;

    let reset_button = rect_new(reset_x, footer_y, RESET_BUTTON_WIDTH, 1);
    let save_button = rect_new(save_x, footer_y, SAVE_BUTTON_WIDTH, 1);
    let cancel_button = rect_new(cancel_x, footer_y, CANCEL_BUTTON_WIDTH, 1);
    let help = rect_new(footer_area.x, footer_y, reset_x - footer_area.x - 1, 1);
    FooterLayout {
        separator: sep_area,
        footer: footer_area,
        reset_button,
        save_button,
        cancel_button,
        help,
    }
}

/// A horizontal line `width` columns long.
pub fn separator_line(width: u16) -> (line: String)
    ensures
        line@ == Seq::new(width as nat, |i: int| '─'),
{
    let mut line = String::new();
    let mut i: u16 = 0;
    while i < width
        invariant
            i <= width,
            line@ == Seq::new(i as nat, |k: int| '─'),
        decreases width - i,
    {
        string_push(&mut line, '─');
        proof {
            assert(Seq::new((i + 1) as nat, |k: int| '─') =~= Seq::new(i as nat, |k: int| '─').push('─'));
        }
        i += 1;
    }
    line
}

/// The focus a footer button is drawn with: hovered when the mouse is over it.
pub fn button_focus(hover: Option<SettingsHit>, button: SettingsHit) -> (f: FocusState)
    ensures
        hover == Some(button) ==> f == FocusState::Hovered,
        hover != Some(button) ==> f == FocusState::Normal,
{
    match hover {
        Some(h) => if h == button {
            FocusState::Hovered
        } else {
            FocusState::Normal
        },
        None => FocusState::Normal,
    }
}

/// The key help shown in the footer.
pub fn footer_help_text(search_active: bool) -> (text: &'static str)
    ensures
        search_active ==> text@ == "Type to search, ↑↓:Navigate  Enter:Jump  Esc:Cancel"@,
        !search_active ==> text@ == "↑↓:Navigate  Tab:Switch panel  Enter:Edit  /:Search  Esc:Close"@,
{
    if search_active {
        "Type to search, ↑↓:Navigate  Enter:Jump  Esc:Cancel"
    } else {
        "↑↓:Navigate  Tab:Switch panel  Enter:Edit  /:Search  Esc:Close"
    }
}

// ---------------------------------------------------------------------------
// Search.
// ---------------------------------------------------------------------------

pub open spec fn digit_char(d: nat) -> char {
    (('0' as u32) + d) as char
}

/// Decimal digits of a number.
pub open spec fn decimal(n: nat) -> Seq<char>
    decreases n,
{
    if n < 10 {
        seq![digit_char(n)]
    } else {
        decimal(n / 10).push(digit_char(n % 10))
    }
}

/// `n.to_string()`: the decimal digits of `n`.
pub fn decimal_string(n: usize) -> (s: String)
    ensures
        s@ == decimal(n as nat),
    decreases n,
{
    let d = (n % 10) as u32;
    let c = char_from_digit(d);
    if n < 10 {
        let mut s = String::new();
        string_push(&mut s, c);
        proof {
            assert(s@ =~= seq![digit_char(n as nat)]);
        }
        s
    } else {
        let mut s = decimal_string(n / 10);
        string_push(&mut s, c);
        s
    }
}

fn char_from_digit(d: u32) -> (c: char)
    requires
        d < 10,
    ensures
        c == digit_char(d as nat),
{
    if d == 0 {
        '0'
    } else if d == 1 {
        '1'
    } else if d == 2 {
        '2'
    } else if d == 3 {
        '3'
    } else if d == 4 {
        '4'
    } else if d == 5 {
        '5'
    } else if d == 6 {
        '6'
    } else if d == 7 {
        '7'
    } else if d == 8 {
        '8'
    } else {
        '9'
    }
}

/// The result count under the search input: nothing before anything is
/// typed, "No results found", "1 result" or "N results".
pub fn result_count_text(result_count: usize, query_is_empty: bool) -> (text: String)
    ensures
        result_count == 0 && query_is_empty ==> text@ == Seq::<char>::empty(),
        result_count == 0 && !query_is_empty ==> text@ == "No results found"@,
        result_count == 1 ==> text@ == "1 result"@,
        result_count > 1 ==> text@ == decimal(result_count as nat) + " results"@,
{
    if result_count == 0 {
        if query_is_empty {
            String::new()
        } else {
            String::from_str("No results found")
        }
    } else if result_count == 1 {
        String::from_str("1 result")
    } else {
        let mut text = decimal_string(result_count);
        text.append(" results");
        text
    }
}

/// Whether the settings panel shows search results (while searching, when
/// there are any) instead of the selected page.
pub fn shows_search_results(search_active: bool, result_count: usize) -> (r: bool)
    ensures
        r == (search_active && result_count > 0),
{
    search_active && result_count > 0
}

/// How many three-row result areas start above the last three rows of an
/// area of the given height.
pub open spec fn result_rows_fit(height: u16) -> nat {
    ((sat_sub(height, 3) + 2) / 3) as nat
}

/// The three-row areas of search results, top to bottom: one per result,
/// as many as start above the last three rows of the area.
pub fn search_result_areas(area: Rect, result_count: usize) -> (areas: Vec<Rect>)
    requires
        area.wf(),
    ensures
        areas@.len() == if result_count < result_rows_fit(area.height) {
            result_count as nat
        } else {
            result_rows_fit(area.height)
        },
        forall|i: int|
            0 <= i < areas@.len() ==> #[trigger] areas@[i] == clamped_rect(area.x, (area.y + 3 * i) as u16, area.width, 3),
{
    let mut areas: Vec<Rect> = Vec::new();
    let mut y = area.y;
    let mut idx: usize = 0;
    let bottom = area.y + area.height.saturating_sub(3);
    while idx < result_count
        invariant
            area.wf(),
            bottom == area.y + sat_sub(area.height, 3),
            idx <= result_count,
            idx <= result_rows_fit(area.height),
            areas@.len() == idx,
            y == area.y + 3 * idx,
            forall|i: int|
                0 <= i < areas@.len() ==> #[trigger] areas@[i] == clamped_rect(area.x, (area.y + 3 * i) as u16, area.width, 3),
        ensures
            idx == result_count || idx == result_rows_fit(area.height),
        decreases result_count - idx,
    {
        if y >= bottom {
            break;
        }
        areas.push(rect_new(area.x, y, area.width, 3));
        y += 3;
        idx += 1;
    }
    areas
}

/// The breadcrumb line of a search result: "  page > path".
pub fn breadcrumb_text(breadcrumb: &str, path: &str) -> (text: String)
    ensures
        text@ == "  "@ + breadcrumb@ + " > "@ + path@,
{
    let mut text = String::from_str("  ");
    text.append(breadcrumb);
    text.append(" > ");
    text.append(path);
    text
}

/// Text that fits a width: `prefix` and `text`, or, when `text` takes more
/// than `width - 2` bytes, its first `width - 5` bytes and "...".
pub open spec fn fitted_text(prefix: Seq<char>, text: &str, width: nat) -> Seq<char> {
    if text.spec_bytes().len() > width - 2 {
        prefix + decode_utf8(text.spec_bytes().subrange(0, width - 5)) + "..."@
    } else {
        prefix + text@
    }
}

/// Inputs on which cutting the text does not fail: the width leaves room for
/// the prefix, and a cut falls between characters.
pub open spec fn fits_cut(text: &str, width: nat) -> bool {
    &&& width >= 2
    &&& text.spec_bytes().len() > width - 2 ==> width >= 5 && is_char_boundary(
        text.spec_bytes(),
        width - 5,
    )
}

/// Whether `fit_text` can fit `text` to `width` (cutting it falls between
/// characters and leaves room for the marker).
pub fn can_fit_text(text: &str, width: usize) -> (r: bool)
    ensures
        r == fits_cut(text, width as nat),
{
    if width < 2 {
        return false;
    }
    let byte_len = text.as_bytes().len();
    if byte_len > width - 2 {
        width >= 5 && text.is_char_boundary(width - 5)
    } else {
        true
    }
}

/// Whether the footer of `modal` has room for its buttons and help.
pub fn footer_fits_in(modal: Rect) -> (r: bool)
    ensures
        r == footer_fits(modal),
{
    if modal.x == u16::MAX {
        return false;
    }
    let bottom = modal.y as u32 + modal.height as u32;
    if bottom < 3 || bottom > 0xffff {
        return false;
    }
    let footer = rect_new(modal.x + 1, (bottom - 2) as u16, modal.width.saturating_sub(2), 1);
    footer.width >= 32
}

/// Fit a line of text to a width, cutting it with "..." when too long.
pub fn fit_text(prefix: &str, text: &str, width: usize) -> (line: String)
    requires
        fits_cut(text, width as nat),
    ensures
        line@ == fitted_text(prefix@, text, width as nat),
{
    let mut line = String::from_str(prefix);
    // The byte length, read through the slice so that it is known to fit.
    let byte_len = text.as_bytes().len();
    if byte_len > width - 2 {
        let (head, _) = text.split_at(width - 5);
        proof {
            encode_utf8_decode_utf8(head@);
        }
        line.append(head);
        line.append("...");
    } else {
        line.append(text);
    }
    line
}

// ---------------------------------------------------------------------------
// Highlighted text.
// ---------------------------------------------------------------------------

/// The characters the segments hold, in order.
pub open spec fn segments_text(segs: Seq<(Seq<char>, bool)>) -> Seq<char>
    decreases segs.len(),
{
    if segs.len() == 0 {
        Seq::empty()
    } else {
        segments_text(segs.drop_last()) + segs.last().0
    }
}

/// Highlight flag of each character of the segments, in order.
pub open spec fn segments_flags(segs: Seq<(Seq<char>, bool)>) -> Seq<bool>
    decreases segs.len(),
{
    if segs.len() == 0 {
        Seq::empty()
    } else {
        segments_flags(segs.drop_last()) + Seq::new(segs.last().0.len(), |i: int| segs.last().1)
    }
}

/// Runs of a text split where highlighting starts or stops: the runs spell
/// the text, character `i` is highlighted exactly when `i` is a match, each
/// run is non-empty and neighbouring runs differ in highlighting.  Without
/// any matches the whole text is one plain run.
pub open spec fn is_highlight_split(segs: Seq<(Seq<char>, bool)>, text: Seq<char>, matches: Seq<usize>) -> bool {
    if matches.len() == 0 {
        segs == seq![(text, false)]
    } else {
        &&& segments_text(segs) == text
        &&& segments_flags(segs).len() == text.len()
        &&& forall|i: int| 0 <= i < text.len() ==> #[trigger] segments_flags(segs)[i] == matches.contains(i as usize)
        &&& forall|k: int| 0 <= k < segs.len() ==> (#[trigger] segs[k]).0.len() > 0
        &&& forall|k: int| 0 <= k < segs.len() - 1 ==> #[trigger] segs[k].1 != segs[k + 1].1
    }
}

fn contains_usize(v: &[usize], x: usize) -> (r: bool)
    ensures
        r == v@.contains(x),
{
    let mut i: usize = 0;
    while i < v.len()
        invariant
            i <= v@.len(),
            forall|k: int| 0 <= k < i ==> v@[k] != x,
        decreases v@.len() - i,
    {
        if v[i] == x {
            proof {
                assert(v@[i as int] == x);
            }
            return true;
        }
        i += 1;
    }
    false
}

proof fn lemma_segments_push(segs: Seq<(Seq<char>, bool)>, run: Seq<char>, flag: bool)
    ensures
        segments_text(segs.push((run, flag))) == segments_text(segs) + run,
        segments_flags(segs.push((run, flag))) == segments_flags(segs) + Seq::new(run.len(), |i: int| flag),
{
    assert(segs.push((run, flag)).drop_last() =~= segs);
}

proof fn lemma_segments_flags_len(segs: Seq<(Seq<char>, bool)>)
    ensures
        segments_flags(segs).len() == segments_text(segs).len(),
    decreases segs.len(),
{
    if segs.len() > 0 {
        lemma_segments_flags_len(segs.drop_last());
    }
}

/// Split a text into highlighted and plain runs at the match positions
/// (character indices).
pub fn highlight_segments(text: &str, matches: &[usize]) -> (segs: Vec<(String, bool)>)
    ensures
        is_highlight_split(Seq::new(segs@.len(), |k: int| (segs@[k].0@, segs@[k].1)), text@, matches@),
{
    if matches.len() == 0 {
        let mut segs: Vec<(String, bool)> = Vec::new();
        segs.push((String::from_str(text), false));
        proof {
            assert(Seq::new(segs@.len(), |k: int| (segs@[k].0@, segs@[k].1)) =~= seq![(text@, false)]);
        }
        return segs;
    }
    let chars = chars_of(text);
    let ghost t = text@;
    let mut segs: Vec<(String, bool)> = Vec::new();
    let mut current = String::new();
    let mut in_highlight = false;
    let ghost mut done: Seq<(Seq<char>, bool)> = Seq::empty();
    let mut idx: usize = 0;
    while idx < chars.len()
        invariant
            t == text@,
            chars@ == t,
            idx <= t.len(),
            matches@.len() > 0,
            done == Seq::new(segs@.len(), |k: int| (segs@[k].0@, segs@[k].1)),
            segments_text(done) + current@ == t.take(idx as int),
            segments_flags(done) + Seq::new(current@.len(), |i: int| in_highlight) =~= Seq::new(
                idx as nat,
                |i: int| matches@.contains(i as usize),
            ),
            forall|k: int| 0 <= k < done.len() ==> (#[trigger] done[k]).0.len() > 0,
            forall|k: int| 0 <= k < done.len() - 1 ==> #[trigger] done[k].1 != done[k + 1].1,
            done.len() > 0 ==> done.last().1 != in_highlight,
            idx > 0 ==> current@.len() > 0,
            idx == 0 ==> done.len() == 0,
        decreases t.len() - idx,
    {
        let ch = chars[idx];
        let should_highlight = contains_usize(matches, idx);
        let ghost flags_before = segments_flags(done) + Seq::new(current@.len(), |i: int| in_highlight);
        if should_highlight != in_highlight {
            if !current.as_str().is_empty() {
                let run = current;
                proof {
                    lemma_segments_push(done, run@, in_highlight);
                    done = done.push((run@, in_highlight));
                }
                segs.push((run, in_highlight));
                current = String::new();
                proof {
                    assert(done =~= Seq::new(segs@.len(), |k: int| (segs@[k].0@, segs@[k].1)));
                }
            }
            in_highlight = should_highlight;
        }
        proof {
            assert(segments_flags(done) + Seq::new(current@.len(), |i: int| in_highlight) =~= flags_before);
        }
        let ghost cur_before = current@;
        string_push(&mut current, ch);
        proof {
            assert(Seq::new(current@.len(), |i: int| in_highlight) =~= Seq::new(
                cur_before.len(),
                |i: int| in_highlight,
            ).push(in_highlight));
            assert(Seq::new((idx + 1) as nat, |i: int| matches@.contains(i as usize)) =~= Seq::new(
                idx as nat,
                |i: int| matches@.contains(i as usize),
            ).push(should_highlight));
            assert(t.take(idx + 1) =~= t.take(idx as int).push(ch));
        }
        idx += 1;
    }
    // Push remaining
    if !current.as_str().is_empty() {
        let run = current;
        proof {
            lemma_segments_push(done, run@, in_highlight);
            done = done.push((run@, in_highlight));
        }
        segs.push((run, in_highlight));
        proof {
            assert(done =~= Seq::new(segs@.len(), |k: int| (segs@[k].0@, segs@[k].1)));
        }
    }
    proof {
        assert(t.take(t.len() as int) =~= t);
        lemma_segments_flags_len(done);
    }
    segs
}

} // verus!
