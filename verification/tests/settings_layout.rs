use fresh_view::control_layout::{
    add_new_row_text, control_layout, list_label_text, map_entry_text, map_partial_layout,
    pad_to_width, text_list_item_text, text_list_partial_layout, ControlLayoutInfo,
};
use fresh_view::controls::{
    FocusState, MapState, NumberInputState, TextListState, ToggleState,
};
use fresh_view::dialogs::{
    confirm_button_text, confirm_dialog_layout, help_entry_text, help_footer_text,
    help_overlay_layout, HelpEntry,
};
use fresh_view::json::JsonValue;
use fresh_view::settings_items::SettingControl;
use fresh_view::settings_layout::{
    breadcrumb_text, button_focus, category_row_text, category_rows, complex_label_text,
    complex_value_text, content_areas, decimal_string, fit_text, footer_help_text, footer_layout,
    highlight_segments, inner_area, item_highlight, modal_area, modal_areas, modal_title,
    panel_areas, panel_header, result_count_text, row_strips, search_result_areas,
    separator_cells, separator_line, shows_search_results, split_panels, stacked_item_areas, ItemHighlight, Rect, RowStyle, SettingsHit,
};

fn rect(x: u16, y: u16, width: u16, height: u16) -> Rect {
    Rect { x, y, width, height }
}

fn text_list(items: &[&str]) -> TextListState {
    TextListState::new("Items").with_items(items.iter().map(|s| s.to_string()).collect())
}

fn map_with(keys: &[&str]) -> MapState {
    let members: Vec<(String, JsonValue)> =
        keys.iter().map(|k| (k.to_string(), JsonValue::Bool(true))).collect();
    MapState::new("Map").with_entries(&JsonValue::Object(members))
}

// ---------------------------------------------------------------------------
// Hit areas of controls.
// ---------------------------------------------------------------------------

#[test]
fn test_control_layout_info() {
    let toggle = ControlLayoutInfo::Toggle(Rect::new(0, 0, 10, 1));
    assert!(matches!(toggle, ControlLayoutInfo::Toggle(_)));

    let number = ControlLayoutInfo::Number {
        decrement: Rect::new(0, 0, 3, 1),
        increment: Rect::new(4, 0, 3, 1),
        value: Rect::new(8, 0, 5, 1),
    };
    assert!(matches!(number, ControlLayoutInfo::Number { .. }));
}

#[test]
fn test_rect_new_clamps_to_coordinate_space() {
    assert_eq!(Rect::new(3, 4, 10, 2), rect(3, 4, 10, 2));
    assert_eq!(Rect::new(65530, 65535, 10, 2), rect(65530, 65535, 5, 0));
}

#[test]
fn test_single_row_controls_when_scrolled() {
    let area = rect(0, 0, 40, 1);
    let toggle = SettingControl::Toggle(ToggleState::new(true, "Flag"));
    assert!(control_layout(area, &toggle, 0).is_none());
    match control_layout(area, &toggle, 1) {
        Some(ControlLayoutInfo::Toggle(r)) => assert_eq!(r, rect(0, 0, 0, 0)),
        other => panic!("unexpected layout {:?}", other),
    }
    let number = SettingControl::Number(NumberInputState::new(5, "Count"));
    match control_layout(area, &number, 2) {
        Some(ControlLayoutInfo::Number { decrement, increment, value }) => {
            assert_eq!(decrement, rect(0, 0, 0, 0));
            assert_eq!(increment, rect(0, 0, 0, 0));
            assert_eq!(value, rect(0, 0, 0, 0));
        }
        other => panic!("unexpected layout {:?}", other),
    }
    let complex = SettingControl::Complex { kind_name: "object".to_string() };
    assert!(matches!(control_layout(area, &complex, 0), Some(ControlLayoutInfo::Complex)));
    assert!(matches!(control_layout(area, &complex, 3), Some(ControlLayoutInfo::Complex)));
}

#[test]
fn test_text_list_layout_full() {
    let state = text_list(&["a", "b", "c"]);
    let layout = text_list_partial_layout(rect(0, 0, 40, 5), &state, 30, 0);
    assert_eq!(layout.full_area, rect(0, 0, 40, 5));
    assert_eq!(layout.rows.len(), 4);
    assert_eq!(layout.rows[0].text_area, rect(2, 1, 30, 1));
    assert_eq!(layout.rows[0].button_area, rect(33, 1, 3, 1));
    assert_eq!(layout.rows[0].index, Some(0));
    assert_eq!(layout.rows[2].text_area, rect(2, 3, 30, 1));
    assert_eq!(layout.rows[2].index, Some(2));
    assert_eq!(layout.rows[3].text_area, rect(2, 4, 11, 1));
    assert_eq!(layout.rows[3].button_area, rect(2, 4, 11, 1));
    assert_eq!(layout.rows[3].index, None);
}

#[test]
fn test_text_list_layout_scrolled() {
    let state = text_list(&["a", "b", "c"]);
    // The label and the first item are scrolled off.
    let layout = text_list_partial_layout(rect(0, 10, 20, 5), &state, 30, 2);
    assert_eq!(layout.rows.len(), 3);
    // The field is as wide as the area allows: 20 - 7.
    assert_eq!(layout.rows[0].text_area, rect(2, 10, 13, 1));
    assert_eq!(layout.rows[0].button_area, rect(16, 10, 3, 1));
    assert_eq!(layout.rows[0].index, Some(1));
    assert_eq!(layout.rows[1].index, Some(2));
    assert_eq!(layout.rows[2].index, None);
    assert_eq!(layout.rows[2].text_area, rect(2, 12, 11, 1));
}

#[test]
fn test_text_list_layout_edges() {
    let state = text_list(&["a", "b", "c"]);
    // Too narrow: nothing drawn.
    assert!(text_list_partial_layout(rect(0, 0, 9, 5), &state, 30, 0).rows.is_empty());
    // No rows.
    assert!(text_list_partial_layout(rect(0, 0, 40, 0), &state, 30, 0).rows.is_empty());
    // Only two rows: the label and one item.
    let layout = text_list_partial_layout(rect(0, 0, 40, 2), &state, 30, 0);
    assert_eq!(layout.rows.len(), 1);
    assert_eq!(layout.rows[0].index, Some(0));
    // Everything but the add-new row scrolled off.
    let layout = text_list_partial_layout(rect(0, 0, 40, 3), &state, 30, 4);
    assert_eq!(layout.rows.len(), 1);
    assert_eq!(layout.rows[0].index, None);
    assert_eq!(layout.rows[0].text_area, rect(2, 0, 11, 1));
    // Scrolled past the add-new row too.
    assert!(text_list_partial_layout(rect(0, 0, 40, 3), &state, 30, 5).rows.is_empty());
}

#[test]
fn test_map_layout() {
    let state = map_with(&["alpha", "beta", "gamma"]);
    let layout = map_partial_layout(rect(0, 0, 40, 3), &state, 20, 0);
    assert_eq!(layout.full_area, rect(0, 0, 40, 3));
    assert_eq!(layout.entry_areas.len(), 2);
    assert_eq!(layout.entry_areas[0].index, 0);
    assert_eq!(layout.entry_areas[0].row_area, rect(0, 1, 40, 1));
    assert_eq!(layout.entry_areas[0].key_area, rect(2, 1, 20, 1));
    assert_eq!(layout.entry_areas[0].remove_area, rect(23, 1, 3, 1));
    assert_eq!(layout.entry_areas[0].expand_area, rect(0, 0, 0, 0));
    assert_eq!(layout.entry_areas[1].row_area, rect(0, 2, 40, 1));
    assert_eq!(layout.add_row_area, None);

    let layout = map_partial_layout(rect(0, 0, 40, 6), &state, 20, 1);
    assert_eq!(layout.entry_areas.len(), 3);
    assert_eq!(layout.entry_areas[0].row_area, rect(0, 0, 40, 1));
    assert_eq!(layout.add_row_area, Some(rect(0, 3, 40, 1)));

    assert!(map_partial_layout(rect(0, 0, 14, 6), &state, 20, 0).entry_areas.is_empty());
    assert_eq!(map_partial_layout(rect(0, 0, 14, 6), &state, 20, 0).add_row_area, None);
}

#[test]
fn test_list_controls_report_rows() {
    let area = rect(0, 0, 40, 5);
    let list = SettingControl::TextList(text_list(&["a", "b"]));
    match control_layout(area, &list, 0) {
        Some(ControlLayoutInfo::TextList { rows }) => {
            assert_eq!(rows, vec![rect(2, 1, 30, 1), rect(2, 2, 30, 1), rect(2, 3, 11, 1)]);
        }
        other => panic!("unexpected layout {:?}", other),
    }
    let map = SettingControl::Dictionary(map_with(&["k"]));
    match control_layout(area, &map, 0) {
        Some(ControlLayoutInfo::Dictionary { entry_rows }) => {
            assert_eq!(entry_rows, vec![rect(0, 1, 40, 1)]);
        }
        other => panic!("unexpected layout {:?}", other),
    }
}

#[test]
fn test_list_row_texts() {
    assert_eq!(pad_to_width("abc", 5), "abc  ");
    assert_eq!(pad_to_width("abcdef", 4), "abcd");
    assert_eq!(pad_to_width("äöü", 4), "äöü ");
    assert_eq!(text_list_item_text("hello", 10), "  [hello   ] [x]");
    assert_eq!(text_list_item_text("a long item text", 6), "  [a lo] [x]");
    assert_eq!(map_entry_text("key", 5), "  key   [x]");
    assert_eq!(list_label_text("Items"), "Items:");
    assert_eq!(add_new_row_text(), "  [+] Add new");
}

// ---------------------------------------------------------------------------
// The modal.
// ---------------------------------------------------------------------------

#[test]
fn test_modal_area_sizes() {
    assert_eq!(modal_area(rect(0, 0, 100, 40)), rect(10, 4, 80, 32));
    assert_eq!(modal_area(rect(0, 0, 200, 60)), rect(50, 10, 100, 40));
    assert_eq!(modal_area(rect(0, 0, 0, 0)), rect(0, 0, 0, 0));
    assert_eq!(modal_title(true), " Settings • (modified) ");
    assert_eq!(modal_title(false), " Settings ");
}

#[test]
fn test_inner_and_content_areas() {
    let inner = inner_area(rect(10, 4, 80, 32));
    assert_eq!(inner, rect(11, 5, 78, 30));
    assert_eq!(content_areas(inner, false), (None, inner));
    assert_eq!(content_areas(inner, true), (Some(rect(11, 5, 78, 2)), rect(11, 7, 78, 28)));
    assert_eq!(inner_area(rect(0, 0, 1, 1)), rect(1, 1, 0, 0));
}

#[test]
fn test_panels_split() {
    let (categories, settings) = split_panels(rect(11, 5, 78, 30));
    assert_eq!(categories, rect(11, 5, 25, 30));
    assert_eq!(settings, rect(36, 5, 53, 30));
    let (separator, inner) = panel_areas(categories, settings);
    assert_eq!(separator, rect(36, 5, 1, 30));
    assert_eq!(inner, rect(37, 5, 52, 30));
}

#[test]
fn test_modal_areas_all() {
    let areas = modal_areas(rect(0, 0, 100, 40), true).expect("areas fit");
    assert_eq!(areas.modal, rect(10, 4, 80, 32));
    assert_eq!(areas.inner, rect(11, 5, 78, 30));
    assert_eq!(areas.search_header, Some(rect(11, 5, 78, 2)));
    assert_eq!(areas.content, rect(11, 7, 78, 28));
    assert_eq!(areas.categories, rect(11, 7, 25, 28));
    assert_eq!(areas.separator, rect(36, 7, 1, 28));
    assert_eq!(areas.settings, rect(37, 7, 52, 28));
}

#[test]
fn test_category_rows_styles() {
    let rows = category_rows(rect(11, 5, 25, 3), 5, 1, true, Some(SettingsHit::Category(2)));
    assert_eq!(rows.len(), 3);
    assert_eq!(rows[0].area, rect(11, 5, 25, 1));
    assert_eq!(rows[0].style, RowStyle::Plain);
    assert_eq!(rows[1].style, RowStyle::FocusedSelection);
    assert_eq!(rows[2].style, RowStyle::Hover);
    assert_eq!(rows[2].index, 2);
    let rows = category_rows(rect(0, 0, 25, 10), 2, 0, false, Some(SettingsHit::Item(1)));
    assert_eq!(rows.len(), 2);
    assert_eq!(rows[0].style, RowStyle::Selection);
    assert_eq!(rows[1].style, RowStyle::Plain);
    assert_eq!(category_row_text("General", true), "● General");
    assert_eq!(category_row_text("Editor", false), "  Editor");
}

#[test]
fn test_separator_cells_and_line() {
    assert_eq!(separator_cells(rect(36, 5, 1, 3)), vec![rect(36, 5, 1, 1), rect(36, 6, 1, 1), rect(36, 7, 1, 1)]);
    assert_eq!(separator_line(3), "───");
    assert_eq!(separator_line(0), "");
}

#[test]
fn test_panel_header_rows() {
    let h = panel_header(rect(37, 7, 52, 28), true);
    assert_eq!(h.title_row, rect(37, 7, 52, 1));
    assert_eq!(h.description_row, Some(rect(37, 8, 52, 1)));
    assert_eq!(h.available_height, 24);
    assert_eq!(h.items_area, rect(37, 10, 52, 24));
    let h = panel_header(rect(0, 0, 40, 2), false);
    assert_eq!(h.description_row, None);
    assert_eq!(h.available_height, 0);
    assert_eq!(h.items_area, rect(0, 2, 40, 1));
}

#[test]
fn test_item_highlight_rules() {
    assert_eq!(item_highlight(2, 2, false, None), ItemHighlight::Selected);
    assert_eq!(item_highlight(2, 2, true, None), ItemHighlight::Plain);
    assert_eq!(item_highlight(3, 2, false, Some(SettingsHit::ControlIncrement(3))), ItemHighlight::Hovered);
    assert_eq!(item_highlight(3, 2, false, Some(SettingsHit::ControlMapRow(3, 1))), ItemHighlight::Hovered);
    assert_eq!(item_highlight(3, 2, false, Some(SettingsHit::Category(3))), ItemHighlight::Plain);
    assert_eq!(row_strips(rect(0, 4, 10, 2), 5), vec![rect(0, 4, 10, 1), rect(0, 5, 10, 1)]);
}

#[test]
fn test_complex_setting_texts() {
    assert_eq!(complex_label_text("Keybindings", true), "• Keybindings: ");
    assert_eq!(complex_label_text("Keybindings", false), "Keybindings: ");
    assert_eq!(complex_value_text("object"), "<object - edit in config.toml>");
}

#[test]
fn test_footer_layout_positions() {
    let f = footer_layout(rect(10, 4, 80, 32));
    assert_eq!(f.footer, rect(11, 34, 78, 1));
    assert_eq!(f.separator, rect(11, 33, 78, 1));
    assert_eq!(f.cancel_button, rect(79, 34, 10, 1));
    assert_eq!(f.save_button, rect(69, 34, 8, 1));
    assert_eq!(f.reset_button, rect(58, 34, 9, 1));
    assert_eq!(f.help, rect(11, 34, 46, 1));
    assert_eq!(button_focus(Some(SettingsHit::SaveButton), SettingsHit::SaveButton), FocusState::Hovered);
    assert_eq!(button_focus(Some(SettingsHit::CancelButton), SettingsHit::SaveButton), FocusState::Normal);
    assert_eq!(button_focus(None, SettingsHit::ResetButton), FocusState::Normal);
    assert_eq!(footer_help_text(true), "Type to search, ↑↓:Navigate  Enter:Jump  Esc:Cancel");
    assert_eq!(footer_help_text(false), "↑↓:Navigate  Tab:Switch panel  Enter:Edit  /:Search  Esc:Close");
}

// ---------------------------------------------------------------------------
// Search.
// ---------------------------------------------------------------------------

#[test]
fn test_result_count_texts() {
    assert_eq!(result_count_text(0, true), "");
    assert_eq!(result_count_text(0, false), "No results found");
    assert_eq!(result_count_text(1, false), "1 result");
    assert_eq!(result_count_text(12, false), "12 results");
    assert_eq!(decimal_string(0), "0");
    assert_eq!(decimal_string(305), "305");
    assert_eq!(decimal_string(usize::MAX), usize::MAX.to_string());
    assert!(shows_search_results(true, 3));
    assert!(!shows_search_results(true, 0));
    assert!(!shows_search_results(false, 3));
}

#[test]
fn test_search_result_areas_fit() {
    let areas = search_result_areas(rect(0, 2, 50, 10), 5);
    assert_eq!(areas, vec![rect(0, 2, 50, 3), rect(0, 5, 50, 3), rect(0, 8, 50, 3)]);
    assert_eq!(search_result_areas(rect(0, 2, 50, 10), 2).len(), 2);
    assert!(search_result_areas(rect(0, 0, 50, 3), 4).is_empty());
    assert_eq!(search_result_areas(rect(0, 0, 50, 4), 4), vec![rect(0, 0, 50, 3)]);
}

#[test]
fn test_search_result_texts() {
    assert_eq!(breadcrumb_text("Editor", "/editor/tab_size"), "  Editor > /editor/tab_size");
    assert_eq!(fit_text("  ", "short", 20), "  short");
    assert_eq!(fit_text("• ", "abcdefghijklmnop", 10), "• abcde...");
    assert_eq!(fit_text("  ", "12345678", 10), "  12345678");
    assert_eq!(fit_text("  ", "123456789", 10), "  12345...");
}

#[test]
fn test_highlight_segments_runs() {
    let segs = highlight_segments("hello", &[1, 2]);
    assert_eq!(segs, vec![("h".to_string(), false), ("el".to_string(), true), ("lo".to_string(), false)]);
    let segs = highlight_segments("hello", &[]);
    assert_eq!(segs, vec![("hello".to_string(), false)]);
    let segs = highlight_segments("tab", &[0, 1, 2]);
    assert_eq!(segs, vec![("tab".to_string(), true)]);
    let segs = highlight_segments("äbc", &[0, 9]);
    assert_eq!(segs, vec![("ä".to_string(), true), ("bc".to_string(), false)]);
}

// ---------------------------------------------------------------------------
// Dialogs.
// ---------------------------------------------------------------------------

#[test]
fn test_confirm_dialog_layout() {
    let l = confirm_dialog_layout(rect(10, 4, 80, 32), 2);
    assert_eq!(l.dialog, rect(25, 15, 50, 9));
    assert_eq!(l.inner, rect(27, 16, 46, 7));
    assert_eq!(l.prompt, rect(27, 16, 46, 1));
    assert_eq!(l.change_rows, vec![rect(27, 18, 46, 1), rect(27, 19, 46, 1)]);
    assert_eq!(l.separator, rect(27, 20, 46, 1));
    assert_eq!(l.buttons, vec![rect(29, 21, 18, 1), rect(49, 21, 12, 1), rect(63, 21, 11, 1)]);
    assert_eq!(l.help, rect(27, 22, 46, 1));
}

#[test]
fn test_confirm_dialog_many_changes() {
    // At most 20 rows: 13 changes are listed.
    let l = confirm_dialog_layout(rect(0, 0, 100, 40), 30);
    assert_eq!(l.dialog, rect(25, 10, 50, 20));
    assert_eq!(l.change_rows.len(), 13);
    assert_eq!(l.change_rows[12], rect(27, 25, 46, 1));
    assert_eq!(l.separator, rect(27, 26, 46, 1));
}

#[test]
fn test_confirm_button_texts() {
    assert_eq!(confirm_button_text(0, true), "▶[ Save and Exit ]");
    assert_eq!(confirm_button_text(1, true), "▶[ Discard ]");
    assert_eq!(confirm_button_text(2, true), "▶[ Cancel ]");
    assert_eq!(confirm_button_text(0, false), " [ Save and Exit ]");
    assert_eq!(confirm_button_text(2, false), " [ Cancel ]");
}

#[test]
fn test_help_overlay_layout() {
    let l = help_overlay_layout(rect(10, 4, 80, 32));
    assert_eq!(l.dialog, rect(25, 10, 50, 20));
    assert_eq!(l.inner, rect(27, 11, 46, 18));
    assert_eq!(l.rows.len(), 17);
    assert_eq!(l.rows[0].area, rect(27, 11, 46, 1));
    assert_eq!(l.rows[0].entry, HelpEntry::Section(0));
    assert_eq!(l.rows[3].entry, HelpEntry::Binding(0, 2));
    assert_eq!(l.rows[4].entry, HelpEntry::Blank);
    assert_eq!(l.rows[5].entry, HelpEntry::Section(1));
    assert_eq!(l.rows[15].entry, HelpEntry::Binding(2, 3));
    assert_eq!(l.rows[16].area, rect(27, 27, 46, 1));
    assert_eq!(l.footer, rect(34, 28, 32, 1));
}

#[test]
fn test_help_overlay_small() {
    let l = help_overlay_layout(rect(0, 0, 80, 12));
    assert_eq!(l.dialog, rect(15, 2, 50, 8));
    assert_eq!(l.inner, rect(17, 3, 46, 6));
    let entries: Vec<HelpEntry> = l.rows.iter().map(|r| r.entry).collect();
    assert_eq!(
        entries,
        vec![
            HelpEntry::Section(0),
            HelpEntry::Binding(0, 0),
            HelpEntry::Binding(0, 1),
            HelpEntry::Binding(0, 2),
            HelpEntry::Blank
        ]
    );
    assert_eq!(l.footer, rect(24, 8, 32, 1));
}

#[test]
fn test_help_texts() {
    assert_eq!(help_entry_text(HelpEntry::Section(0)), "Navigation");
    assert_eq!(help_entry_text(HelpEntry::Section(2)), "Actions");
    assert_eq!(help_entry_text(HelpEntry::Binding(0, 0)), "  ↑ / ↓       Move up/down");
    assert_eq!(help_entry_text(HelpEntry::Binding(2, 3)), "  ?           Toggle this help");
    assert_eq!(help_entry_text(HelpEntry::Blank), "");
    assert_eq!(help_footer_text(), "Press ? or Esc or Enter to close");
}

#[test]
fn test_stacked_item_areas() {
    let area = rect(2, 10, 30, 6);
    assert_eq!(stacked_item_areas(area, &[2, 3, 4, 1]), vec![rect(2, 10, 30, 2), rect(2, 12, 30, 3), rect(2, 15, 30, 1)]);
    assert!(stacked_item_areas(area, &[]).is_empty());
    assert_eq!(stacked_item_areas(rect(0, 0, 10, 1), &[2, 2]), vec![rect(0, 0, 10, 1)]);
}

#[test]
fn test_panel_header_near_the_edge() {
    let h = panel_header(rect(0, 65533, 40, 2), false);
    assert_eq!(h.title_row, rect(0, 65533, 40, 1));
    assert_eq!(h.description_row, None);
    assert_eq!(h.items_area.y, 65535);
}
