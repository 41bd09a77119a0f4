//! Setting items for the settings UI: controls built from the schema and the
//! current configuration, their heights and focus regions, and the values
//! they stand for.

use vstd::prelude::*;
use crate::controls::{
    entries_model, members_from, object_members, strings_model, DropdownState, FocusState,
    MapState, NumberInputState, TextInputState, TextListState, ToggleState,
};
use crate::json::{
    json_pointer, model_as_bool, model_as_i64, model_as_str, model_hundredths, number_as_i64,
    json_eq, number_wf, JsonModel, JsonNumber, JsonValue,
};
use crate::schema::{
    clone_opt_json, clone_opt_string, opt_json_model, opt_str_model, SchemaModel, SettingCategory,
    SettingSchema, SettingType, SettingTypeModel,
};

verus! {

/// The control shown for a setting.
#[derive(Debug)]
pub enum SettingControl {
    Toggle(ToggleState),
    Number(NumberInputState),
    Dropdown(DropdownState),
    Text(TextInputState),
    TextList(TextListState),
    /// Key/value control for map settings.
    Dictionary(MapState),
    /// Settings that cannot be edited inline.
    Complex { kind_name: String },
}

/// A renderable setting item.
#[derive(Debug)]
pub struct SettingItem {
    /// JSON Pointer of the setting.
    pub path: String,
    /// Display name.
    pub name: String,
    pub description: Option<String>,
    /// The control for this setting.
    pub control: SettingControl,
    /// Default value (for reset).
    pub default: Option<JsonValue>,
    /// Whether this setting has been modified from its default.
    pub modified: bool,
}

/// A page of settings (one per category).
#[derive(Debug)]
pub struct SettingsPage {
    pub name: String,
    pub path: String,
    pub description: Option<String>,
    pub items: Vec<SettingItem>,
    pub subpages: Vec<SettingsPage>,
}

/// A focusable region of an item: its id, first row and number of rows.
#[derive(Debug, Clone, Copy, PartialEq, Eq)]
pub struct FocusRegion {
    pub id: usize,
    pub y_offset: u16,
    pub height: u16,
}

/// Mathematical model of a control.
pub enum ControlModel {
    Toggle { checked: bool, label: Seq<char>, focus: FocusState },
    Number { value: i64, min: Option<i64>, max: Option<i64>, label: Seq<char>, focus: FocusState },
    Dropdown {
        selected: usize,
        options: Seq<Seq<char>>,
        values: Seq<Seq<char>>,
        label: Seq<char>,
        open: bool,
        focus: FocusState,
    },
    Text { value: Seq<char>, cursor: usize, label: Seq<char>, focus: FocusState },
    TextList {
        items: Seq<Seq<char>>,
        label: Seq<char>,
        focused_item: Option<usize>,
        new_item_text: Seq<char>,
        focus: FocusState,
    },
    Dictionary {
        entries: Seq<(Seq<char>, JsonModel)>,
        expanded: Seq<usize>,
        label: Seq<char>,
        focused_entry: Option<usize>,
        value_schema: Option<SchemaModel>,
        focus: FocusState,
    },
    Complex { kind_name: Seq<char> },
}

pub open spec fn boxed_schema_model(s: Option<Box<SettingSchema>>) -> Option<SchemaModel> {
    match s {
        Some(b) => Some((*b)@),
        None => None,
    }
}

impl View for SettingControl {
    type V = ControlModel;

    open spec fn view(&self) -> ControlModel {
        match *self {
            SettingControl::Toggle(s) => ControlModel::Toggle {
                checked: s.checked,
                label: s.label@,
                focus: s.focus,
            },
            SettingControl::Number(s) => ControlModel::Number {
                value: s.value,
                min: s.min,
                max: s.max,
                label: s.label@,
                focus: s.focus,
            },
            SettingControl::Dropdown(s) => ControlModel::Dropdown {
                selected: s.selected,
                options: strings_model(s.options@),
                values: strings_model(s.values@),
                label: s.label@,
                open: s.open,
                focus: s.focus,
            },
            SettingControl::Text(s) => ControlModel::Text {
                value: s.value@,
                cursor: s.cursor,
                label: s.label@,
                focus: s.focus,
            },
            SettingControl::TextList(s) => ControlModel::TextList {
                items: strings_model(s.items@),
                label: s.label@,
                focused_item: s.focused_item,
                new_item_text: s.new_item_text@,
                focus: s.focus,
            },
            SettingControl::Dictionary(s) => ControlModel::Dictionary {
                entries: entries_model(s.entries@),
                expanded: s.expanded@,
                label: s.label@,
                focused_entry: s.focused_entry,
                value_schema: boxed_schema_model(s.value_schema),
                focus: s.focus,
            },
            SettingControl::Complex { kind_name } => ControlModel::Complex { kind_name: kind_name@ },
        }
    }
}

// ---------------------------------------------------------------------------
// Heights.
// ---------------------------------------------------------------------------

/// Extra rows an expanded map entry takes: its fields, at most five, plus one
/// "more" row when there are more than five (nothing for a non-object value).
pub open spec fn expanded_rows(v: JsonModel) -> nat {
    match v {
        JsonModel::Object(fields) => (if fields.len() <= 5 {
            fields.len()
        } else {
            5
        }) + (if fields.len() > 5 {
            1nat
        } else {
            0
        }),
        _ => 0,
    }
}

/// Extra rows for the listed expanded entries (each listing counts; indices
/// past the entries count nothing).
pub open spec fn expanded_rows_sum(entries: Seq<(Seq<char>, JsonModel)>, expanded: Seq<usize>) -> nat
    decreases expanded.len(),
{
    if expanded.len() == 0 {
        0
    } else {
        expanded_rows_sum(entries, expanded.drop_last()) + (if expanded.last() < entries.len() {
            expanded_rows(entries[expanded.last() as int].1)
        } else {
            0
        })
    }
}

/// Rows a control takes: a list takes a label row, one row per item and an
/// add-new row; a map also takes the rows of its expanded entries; every
/// other control takes one row.
pub open spec fn control_rows(c: ControlModel) -> nat {
    match c {
        ControlModel::TextList { items, .. } => items.len() + 2,
        ControlModel::Dictionary { entries, expanded, .. } => 1 + entries.len() + 1
            + expanded_rows_sum(entries, expanded),
        _ => 1,
    }
}

/// The control's height as a `u16` (truncated, as the row count is cast).
pub open spec fn control_height_of(c: ControlModel) -> u16 {
    (control_rows(c) % 0x1_0000) as u16
}

/// Machine limits for computing a control's height.
pub open spec fn height_fits(c: ControlModel) -> bool {
    match c {
        ControlModel::TextList { items, .. } => items.len() + 2 <= usize::MAX,
        ControlModel::Dictionary { entries, expanded, .. } => entries.len() + 2 + 6
            * expanded.len() <= usize::MAX,
        _ => true,
    }
}

proof fn lemma_expanded_rows_bound(v: JsonModel)
    ensures
        expanded_rows(v) <= 6,
{
}

proof fn lemma_expanded_rows_sum_bound(entries: Seq<(Seq<char>, JsonModel)>, expanded: Seq<usize>)
    ensures
        expanded_rows_sum(entries, expanded) <= 6 * expanded.len(),
    decreases expanded.len(),
{
    if expanded.len() > 0 {
        lemma_expanded_rows_sum_bound(entries, expanded.drop_last());
        if expanded.last() < entries.len() {
            lemma_expanded_rows_bound(entries[expanded.last() as int].1);
        }
    }
}

/// Extra rows of an expanded map entry value.
fn expanded_rows_exec(v: &JsonValue) -> (n: usize)
    ensures
        n == expanded_rows(v@),
{
    match v.object_len() {
        Some(len) => {
            let shown = if len <= 5 {
                len
            } else {
                5
            };
            shown + if len > 5 {
                1
            } else {
                0
            }
        },
        None => 0,
    }
}

impl SettingControl {
    /// Calculate the height needed for this control (in lines).
    pub fn control_height(&self) -> (h: u16)
        requires
            height_fits(self@),
        ensures
            h == control_height_of(self@),
    {
        match self {
            // 1 for label + items count + 1 for add-new row
            SettingControl::TextList(state) => ((state.items.len() + 2) % 0x1_0000) as u16,
            // label + entries + add-new, plus the rows of expanded entries
            SettingControl::Dictionary(state) => {
                let base = 1 + state.entries.len() + 1;
                let ghost entries = entries_model(state.entries@);
                let mut expanded_height: usize = 0;
                let mut k: usize = 0;
                while k < state.expanded.len()
                    invariant
                        k <= state.expanded@.len(),
                        entries == entries_model(state.entries@),
                        base == entries.len() + 2,
                        base + 6 * state.expanded@.len() <= usize::MAX,
                        expanded_height == expanded_rows_sum(entries, state.expanded@.take(k as int)),
                    decreases state.expanded@.len() - k,
                {
                    let idx = state.expanded[k];
                    proof {
                        assert(state.expanded@.take(k + 1).drop_last() =~= state.expanded@.take(
                            k as int,
                        ));
                        lemma_expanded_rows_sum_bound(entries, state.expanded@.take(k + 1));
                    }
                    if idx < state.entries.len() {
                        expanded_height = expanded_height + expanded_rows_exec(&state.entries[idx].1);
                    }
                    k += 1;
                }
                proof {
                    assert(state.expanded@.take(state.expanded@.len() as int) =~= state.expanded@);
                    lemma_expanded_rows_sum_bound(entries, state.expanded@);
                }
                ((base + expanded_height) % 0x1_0000) as u16
            },
            // All other controls fit in 1 line
            _ => 1,
        }
    }
}

impl SettingItem {
    /// Calculate the total height needed for this item (control + spacing).
    pub fn item_height(&self) -> (h: u16)
        requires
            height_fits(self.control@),
            control_height_of(self.control@) < u16::MAX,
        ensures
            h == control_height_of(self.control@) + 1,
    {
        self.control.control_height() + 1
    }

    /// The item's height, as scrolling counts it.
    pub fn height(&self) -> (h: u16)
        requires
            height_fits(self.control@),
            control_height_of(self.control@) < u16::MAX,
        ensures
            h == control_height_of(self.control@) + 1,
    {
        self.item_height()
    }
}

// ---------------------------------------------------------------------------
// Focus regions.
// ---------------------------------------------------------------------------

/// Rows map entry `k` takes: one, plus its fields when it is listed as expanded.
pub open spec fn entry_rows(entries: Seq<(Seq<char>, JsonModel)>, expanded: Seq<usize>, k: int) -> nat {
    1 + if expanded.contains(k as usize) {
        expanded_rows(entries[k].1)
    } else {
        0
    }
}

/// Rows taken by the first `k` map entries.
pub open spec fn entries_rows(entries: Seq<(Seq<char>, JsonModel)>, expanded: Seq<usize>, k: int) -> nat
    decreases k,
{
    if k <= 0 {
        0
    } else {
        entries_rows(entries, expanded, k - 1) + entry_rows(entries, expanded, k - 1)
    }
}

/// The focus regions of a control: for a list, the label row, one row per
/// item and the add-new row; for a map, the label row, one region per entry
/// (as tall as the entry) and the add-new row; otherwise one region as tall
/// as the control.
pub open spec fn focus_regions_of(c: ControlModel) -> Seq<FocusRegion> {
    match c {
        ControlModel::TextList { items, .. } => Seq::new(
            items.len() + 2,
            |i: int| FocusRegion { id: i as usize, y_offset: i as u16, height: 1 },
        ),
        ControlModel::Dictionary { entries, expanded, .. } => Seq::new(
            entries.len() + 2,
            |i: int|
                if i == 0 {
                    FocusRegion { id: 0, y_offset: 0, height: 1 }
                } else if i <= entries.len() {
                    FocusRegion {
                        id: i as usize,
                        y_offset: (1 + entries_rows(entries, expanded, i - 1)) as u16,
                        height: entry_rows(entries, expanded, i - 1) as u16,
                    }
                } else {
                    FocusRegion {
                        id: i as usize,
                        y_offset: (1 + entries_rows(entries, expanded, entries.len() as int)) as u16,
                        height: 1,
                    }
                },
        ),
        _ => seq![FocusRegion { id: 0, y_offset: 0, height: 1 }],
    }
}

/// Inputs on which computing the focus regions does not overflow a row counter.
pub open spec fn regions_fit(c: ControlModel) -> bool {
    match c {
        ControlModel::TextList { items, .. } => items.len() + 1 < 0x1_0000,
        ControlModel::Dictionary { entries, expanded, .. } => 1 + entries_rows(
            entries,
            expanded,
            entries.len() as int,
        ) < 0x1_0000,
        _ => true,
    }
}

proof fn lemma_entries_rows_mono(entries: Seq<(Seq<char>, JsonModel)>, expanded: Seq<usize>, j: int, k: int)
    requires
        0 <= j <= k,
    ensures
        entries_rows(entries, expanded, j) <= entries_rows(entries, expanded, k),
    decreases k - j,
{
    if j < k {
        lemma_entries_rows_mono(entries, expanded, j, k - 1);
    }
}

proof fn lemma_entries_rows_lower(entries: Seq<(Seq<char>, JsonModel)>, expanded: Seq<usize>, k: int)
    requires
        0 <= k,
    ensures
        entries_rows(entries, expanded, k) >= k,
    decreases k,
{
    if k > 0 {
        lemma_entries_rows_lower(entries, expanded, k - 1);
    }
}

proof fn lemma_entries_rows_none(entries: Seq<(Seq<char>, JsonModel)>, k: int)
    requires
        0 <= k,
    ensures
        entries_rows(entries, Seq::empty(), k) == k,
    decreases k,
{
    if k > 0 {
        lemma_entries_rows_none(entries, k - 1);
        assert(!Seq::<usize>::empty().contains((k - 1) as usize));
    }
}

proof fn lemma_entries_rows_push(
    entries: Seq<(Seq<char>, JsonModel)>,
    l: Seq<usize>,
    x: usize,
    k: int,
)
    requires
        0 <= k <= usize::MAX + 1,
        !l.contains(x),
    ensures
        entries_rows(entries, l.push(x), k) == entries_rows(entries, l, k) + if x < k {
            expanded_rows(entries[x as int].1)
        } else {
            0
        },
    decreases k,
{
    if k > 0 {
        lemma_entries_rows_push(entries, l, x, k - 1);
        let j = (k - 1) as usize;
        assert(j as int == k - 1);
        let lp = l.push(x);
        assert(lp.contains(j) == (l.contains(j) || j == x)) by {
            if lp.contains(j) {
                let w = choose|w: int| 0 <= w < lp.len() && lp[w] == j;
                if w < l.len() {
                    assert(l[w] == j);
                }
            }
            if l.contains(j) {
                let w = choose|w: int| 0 <= w < l.len() && l[w] == j;
                assert(lp[w] == j);
            }
            if j == x {
                assert(lp[l.len() as int] == x);
            }
        }
        if j == x {
            assert(entry_rows(entries, lp, k - 1) == entry_rows(entries, l, k - 1) + expanded_rows(
                entries[x as int].1,
            ));
        } else {
            assert(entry_rows(entries, lp, k - 1) == entry_rows(entries, l, k - 1));
        }
    }
}

/// No index listed twice.
pub open spec fn distinct_indices(expanded: Seq<usize>) -> bool {
    forall|a: int, b: int| 0 <= a < b < expanded.len() ==> expanded[a] != expanded[b]
}

proof fn lemma_entries_rows_total(entries: Seq<(Seq<char>, JsonModel)>, expanded: Seq<usize>)
    requires
        distinct_indices(expanded),
        entries.len() <= usize::MAX,
    ensures
        entries_rows(entries, expanded, entries.len() as int) == entries.len() + expanded_rows_sum(
            entries,
            expanded,
        ),
    decreases expanded.len(),
{
    let n = entries.len() as int;
    if expanded.len() == 0 {
        assert(expanded =~= Seq::<usize>::empty());
        lemma_entries_rows_none(entries, n);
    } else {
        let l = expanded.drop_last();
        let x = expanded.last();
        lemma_entries_rows_total(entries, l);
        assert(l.push(x) =~= expanded);
        assert(!l.contains(x)) by {
            if l.contains(x) {
                let w = choose|w: int| 0 <= w < l.len() && l[w] == x;
                assert(expanded[w] == expanded[expanded.len() - 1]);
            }
        }
        lemma_entries_rows_push(entries, l, x, n);
    }
}

/// The focus regions of a control tile it: their ids count up from 0, each
/// is at least one row tall, the first starts at row 0, each starts where
/// the one above ends, and the last ends at the control's height.  For a
/// map this holds when no expanded index is listed twice (an index past the
/// entries counts nothing).  A single-row control has one region, row 0.
pub proof fn law_regions_tile_control(c: ControlModel)
    requires
        regions_fit(c),
        c is Dictionary ==> distinct_indices(c->Dictionary_expanded),
    ensures
        focus_regions_of(c).len() >= 1,
        focus_regions_of(c)[0].y_offset == 0,
        forall|k: int|
            0 <= k < focus_regions_of(c).len() ==> (#[trigger] focus_regions_of(c)[k]).id == k
                && focus_regions_of(c)[k].height >= 1,
        forall|k: int|
            0 <= k < focus_regions_of(c).len() - 1 ==> #[trigger] focus_regions_of(c)[k + 1].y_offset
                == focus_regions_of(c)[k].y_offset + focus_regions_of(c)[k].height,
        focus_regions_of(c).last().y_offset + focus_regions_of(c).last().height == control_rows(c),
        !(c is TextList || c is Dictionary) ==> focus_regions_of(c) == seq![
            FocusRegion { id: 0, y_offset: 0, height: 1 },
        ],
{
    match c {
        ControlModel::TextList { items, .. } => {},
        ControlModel::Dictionary { entries, expanded, .. } => {
            let n = entries.len() as int;
            lemma_entries_rows_lower(entries, expanded, n);
            lemma_entries_rows_total(entries, expanded);
            assert forall|k: int| 0 <= k < focus_regions_of(c).len() implies (#[trigger] focus_regions_of(
                c,
            )[k]).id == k && focus_regions_of(c)[k].height >= 1 by {
                if 1 <= k <= n {
                    lemma_expanded_rows_bound(entries[k - 1].1);
                }
            }
            assert forall|k: int|
                0 <= k < focus_regions_of(c).len() - 1 implies #[trigger] focus_regions_of(c)[k
                + 1].y_offset == focus_regions_of(c)[k].y_offset + focus_regions_of(c)[k].height by {
                lemma_entries_rows_mono(entries, expanded, k, n);
                lemma_expanded_rows_bound(entries[k].1);
                if k >= 1 {
                    lemma_entries_rows_mono(entries, expanded, k - 1, n);
                    lemma_expanded_rows_bound(entries[k - 1].1);
                }
            }
        },
        _ => {},
    }
}

/// Rows an object of `n` fields takes when its entry is expanded: one per
/// field, at most five, and a row for the rest when there are more.
pub open spec fn object_field_rows(n: nat) -> nat {
    if n <= 5 {
        n
    } else {
        6
    }
}

/// The map control with entry `k` expanded as well.
pub open spec fn with_expanded(c: ControlModel, k: usize) -> ControlModel {
    match c {
        ControlModel::Dictionary { entries, expanded, label, focused_entry, value_schema, focus } => {
            ControlModel::Dictionary {
                entries,
                expanded: expanded.push(k),
                label,
                focused_entry,
                value_schema,
                focus,
            }
        },
        _ => c,
    }
}

/// The focus region of a map entry is one row, plus, when the entry is
/// expanded and its value is an object of `n` fields, `n` rows for up to
/// five fields or six rows for more.
pub proof fn law_map_entry_region_height(c: ControlModel, k: int)
    requires
        c is Dictionary,
        0 <= k < c->Dictionary_entries.len(),
        c->Dictionary_entries.len() <= usize::MAX,
    ensures
        ({
            let entries = c->Dictionary_entries;
            let expanded = c->Dictionary_expanded;
            let h = focus_regions_of(c)[k + 1].height;
            &&& focus_regions_of(c)[k + 1].id == k + 1
            &&& forall|fields: Seq<(Seq<char>, JsonModel)>|
                expanded.contains(k as usize) && entries[k].1 == JsonModel::Object(fields) ==> h == 1
                    + #[trigger] object_field_rows(fields.len())
            &&& !expanded.contains(k as usize) || !(entries[k].1 is Object) ==> h == 1
        }),
{
    let entries = c->Dictionary_entries;
    let expanded = c->Dictionary_expanded;
    lemma_expanded_rows_bound(entries[k].1);
    let i = k + 1;
    assert(1 <= i <= entries.len());
    assert(focus_regions_of(c)[i].height == entry_rows(entries, expanded, k) as u16);
    assert(entry_rows(entries, expanded, k) <= 7);
}

/// Expanding a map entry that was not expanded adds to the control's height
/// the rows of its value: `n` for an object of `n <= 5` fields, six for a
/// larger object, none for any other value.
pub proof fn law_expanding_adds_rows(c: ControlModel, k: usize)
    requires
        c is Dictionary,
        k < c->Dictionary_entries.len(),
    ensures
        ({
            let v = c->Dictionary_entries[k as int].1;
            &&& forall|fields: Seq<(Seq<char>, JsonModel)>|
                v == JsonModel::Object(fields) ==> control_rows(with_expanded(c, k)) == control_rows(c)
                    + #[trigger] object_field_rows(fields.len())
            &&& !(v is Object) ==> control_rows(with_expanded(c, k)) == control_rows(c)
        }),
{
    let entries = c->Dictionary_entries;
    let expanded = c->Dictionary_expanded;
    assert(expanded.push(k).drop_last() =~= expanded);
}

/// Value kinds a setting reads back unchanged.
pub open spec fn holds_kind_value(t: SettingTypeModel, v: JsonModel) -> bool {
    match t {
        SettingTypeModel::Boolean => v is Bool,
        SettingTypeModel::Integer { .. } => v matches JsonModel::Number(n) && number_as_i64(n) is Some
            && number_wf(n),
        SettingTypeModel::String => v is Str,
        SettingTypeModel::Enum { options } => options.len() <= usize::MAX && (v matches JsonModel::Str(
            x,
        ) && exists|i: int| 0 <= i < options.len() && #[trigger] options[i].1 == x),
        SettingTypeModel::StringArray => v matches JsonModel::Array(items) && forall|i: int|
            0 <= i < items.len() ==> #[trigger] items[i] is Str,
        _ => false,
    }
}

proof fn lemma_strings_among_all(items: Seq<JsonModel>)
    requires
        forall|i: int| 0 <= i < items.len() ==> #[trigger] items[i] is Str,
    ensures
        strings_among(items).len() == items.len(),
        forall|i: int|
            0 <= i < items.len() ==> JsonModel::Str(#[trigger] strings_among(items)[i]) == items[i],
    decreases items.len(),
{
    if items.len() > 0 {
        lemma_strings_among_all(items.drop_last());
        assert(items.last() is Str);
    }
}

/// Reading a configured value into its control and taking the control's
/// value back gives the configured value, for booleans, integers, strings,
/// enumerated strings among the choices, and arrays of strings.
pub proof fn law_value_round_trip(s: SchemaModel, config: JsonModel)
    requires
        json_pointer(config, s.path) matches Some(v) && holds_kind_value(s.setting_type, v),
    ensures
        Some(value_of_control(item_for(s, config).control)) == json_pointer(config, s.path),
{
    let v = json_pointer(config, s.path)->0;
    match s.setting_type {
        SettingTypeModel::Enum { options } => {
            let x = v->Str_0;
            let values = Seq::new(options.len(), |i: int| options[i].1);
            let w = choose|i: int| 0 <= i < options.len() && #[trigger] options[i].1 == x;
            assert(values[w] == x);
            lemma_position_of_found(values, x, 0, w);
            lemma_position_of_bound(values, x, 0);
        },
        SettingTypeModel::StringArray => {
            let items = v->Array_0;
            lemma_strings_among_all(items);
            assert(value_of_control(item_for(s, config).control)->Array_0 =~= items);
        },
        _ => {},
    }
}

proof fn lemma_position_of_found(vals: Seq<Seq<char>>, x: Seq<char>, from: int, w: int)
    requires
        0 <= from <= w < vals.len(),
        vals[w] == x,
    ensures
        position_of(vals, x, from) is Some,
    decreases w - from,
{
    if vals[from] != x {
        lemma_position_of_found(vals, x, from + 1, w);
    }
}

fn contains_index(v: &Vec<usize>, x: usize) -> (r: bool)
    ensures
        r == v@.contains(x),
{
    let mut i: usize = 0;
    while i < v.len()
        invariant
            i <= v@.len(),
            forall|k: int| 0 <= k < i ==> v@[k] != x,
        decreases v@.len() - i,
    {
        if v[i] == x {
            proof {
                assert(v@[i as int] == x);
            }
            return true;
        }
        i += 1;
    }
    false
}

impl SettingItem {
    /// The item's focusable regions, top to bottom.
    #[verifier::loop_isolation(false)]
    pub fn focus_regions(&self) -> (regions: Vec<FocusRegion>)
        requires
            regions_fit(self.control@),
        ensures
            regions@ == focus_regions_of(self.control@),
    {
        match &self.control {
            // TextList: each row is a focus region
            SettingControl::TextList(state) => {
                let mut regions: Vec<FocusRegion> = Vec::new();
                // Label row
                regions.push(FocusRegion { id: 0, y_offset: 0, height: 1 });
                // Each item row (id = 1 + row_index)
                let n = state.items.len();
                let mut i: usize = 0;
                while i < n
                    invariant
                        n == state.items@.len(),
                        n + 1 < 0x1_0000,
                        i <= n,
                        regions@.len() == i + 1,
                        forall|k: int|
                            0 <= k <= i ==> #[trigger] regions@[k] == (FocusRegion {
                                id: k as usize,
                                y_offset: k as u16,
                                height: 1,
                            }),
                    decreases n - i,
                {
                    regions.push(FocusRegion { id: 1 + i, y_offset: 1 + i as u16, height: 1 });
                    i += 1;
                }
                // Add-new row
                regions.push(FocusRegion { id: 1 + n, y_offset: 1 + n as u16, height: 1 });
                proof {
                    assert(regions@ =~= focus_regions_of(self.control@));
                }
                regions
            },
            // Map: each entry row is a focus region
            SettingControl::Dictionary(state) => {
                let ghost entries = entries_model(state.entries@);
                let ghost expanded = state.expanded@;
                let mut regions: Vec<FocusRegion> = Vec::new();
                let mut y = 0u16;

                // Label row
                regions.push(FocusRegion { id: 0, y_offset: y, height: 1 });
                y += 1;

                // Each entry (id = 1 + entry_index)
                let n = state.entries.len();
                proof {
                    lemma_entries_rows_lower(entries, expanded, n as int);
                }
                let mut i: usize = 0;
                while i < n
                    invariant
                        n == state.entries@.len(),
                        entries == entries_model(state.entries@),
                        expanded == state.expanded@,
                        1 + entries_rows(entries, expanded, n as int) < 0x1_0000,
                        i <= n,
                        y == 1 + entries_rows(entries, expanded, i as int),
                        regions@.len() == i + 1,
                        forall|k: int|
                            0 <= k <= i ==> #[trigger] regions@[k] == focus_regions_of(
                                self.control@,
                            )[k],
                    decreases n - i,
                {
                    proof {
                        lemma_entries_rows_mono(entries, expanded, i + 1, n as int);
                        lemma_expanded_rows_bound(entries[i as int].1);
                    }
                    let mut entry_height = 1u16;
                    // Add expanded content height if expanded
                    if contains_index(&state.expanded, i) {
                        match state.entries[i].1.object_len() {
                            Some(len) => {
                                let shown: u16 = if len <= 5 {
                                    len as u16
                                } else {
                                    5
                                };
                                entry_height += shown;
                                if len > 5 {
                                    entry_height += 1;
                                }
                            },
                            None => {},
                        }
                    }
                    proof {
                        assert(entries[i as int].1 == state.entries@[i as int].1@);
                        assert(entry_height == entry_rows(entries, expanded, i as int));
                    }
                    regions.push(FocusRegion { id: 1 + i, y_offset: y, height: entry_height });
                    y += entry_height;
                    i += 1;
                }

                // Add-new row
                regions.push(FocusRegion { id: 1 + n, y_offset: y, height: 1 });
                proof {
                    assert(regions@ =~= focus_regions_of(self.control@));
                }
                regions
            },
            // Other controls: single region covering the whole item
            _ => {
                let mut regions: Vec<FocusRegion> = Vec::new();
                let h = self.item_height();
                regions.push(FocusRegion { id: 0, y_offset: 0, height: h.saturating_sub(1) });
                proof {
                    assert(regions@ =~= focus_regions_of(self.control@));
                }
                regions
            },
        }
    }
}

// ---------------------------------------------------------------------------
// Building items from the schema and the configuration.
// ---------------------------------------------------------------------------

pub open spec fn first_of<T>(a: Option<T>, b: Option<T>) -> Option<T> {
    if a is Some {
        a
    } else {
        b
    }
}

pub open spec fn or_else_value<T>(a: Option<T>, d: T) -> T {
    match a {
        Some(x) => x,
        None => d,
    }
}

pub open spec fn read_bool(v: Option<JsonModel>) -> Option<bool> {
    match v {
        Some(m) => model_as_bool(m),
        None => None,
    }
}

pub open spec fn read_i64(v: Option<JsonModel>) -> Option<i64> {
    match v {
        Some(m) => model_as_i64(m),
        None => None,
    }
}

pub open spec fn read_hundredths(v: Option<JsonModel>) -> Option<i64> {
    match v {
        Some(m) => model_hundredths(m),
        None => None,
    }
}

pub open spec fn read_str(v: Option<JsonModel>) -> Option<Seq<char>> {
    match v {
        Some(m) => model_as_str(m),
        None => None,
    }
}

/// The strings among the elements of an array, in order (other elements skipped).
pub open spec fn strings_among(items: Seq<JsonModel>) -> Seq<Seq<char>>
    decreases items.len(),
{
    if items.len() == 0 {
        Seq::empty()
    } else {
        let prev = strings_among(items.drop_last());
        match items.last() {
            JsonModel::Str(x) => prev.push(x),
            _ => prev,
        }
    }
}

pub open spec fn read_strings(v: Option<JsonModel>) -> Option<Seq<Seq<char>>> {
    match v {
        Some(JsonModel::Array(items)) => Some(strings_among(items)),
        _ => None,
    }
}

/// Position of the first occurrence of `x`.
pub open spec fn position_of(vals: Seq<Seq<char>>, x: Seq<char>, from: int) -> Option<int>
    decreases vals.len() - from,
{
    if from < 0 || from >= vals.len() {
        None
    } else if vals[from] == x {
        Some(from)
    } else {
        position_of(vals, x, from + 1)
    }
}

proof fn lemma_position_of_bound(vals: Seq<Seq<char>>, x: Seq<char>, from: int)
    requires
        0 <= from,
    ensures
        match position_of(vals, x, from) {
            Some(i) => from <= i < vals.len() && vals[i] == x,
            None => true,
        },
    decreases vals.len() - from,
{
    if from < vals.len() && vals[from] != x {
        lemma_position_of_bound(vals, x, from + 1);
    }
}

/// The control a setting gets, given the value found at its path in the
/// configuration (if any): the configured value when it has the right kind,
/// else the schema default when that has the right kind, else a blank value.
pub open spec fn control_for(s: SchemaModel, current: Option<JsonModel>) -> ControlModel {
    let default = s.default;
    match s.setting_type {
        SettingTypeModel::Boolean => ControlModel::Toggle {
            checked: or_else_value(first_of(read_bool(current), read_bool(default)), false),
            label: s.name,
            focus: FocusState::Normal,
        },
        SettingTypeModel::Integer { minimum, maximum } => ControlModel::Number {
            value: or_else_value(first_of(read_i64(current), read_i64(default)), 0),
            min: minimum,
            max: maximum,
            label: s.name,
            focus: FocusState::Normal,
        },
        SettingTypeModel::Number { minimum, maximum } => ControlModel::Number {
            value: or_else_value(first_of(read_hundredths(current), read_hundredths(default)), 0),
            min: minimum,
            max: maximum,
            label: s.name,
            focus: FocusState::Normal,
        },
        SettingTypeModel::String => {
            let v = or_else_value(first_of(read_str(current), read_str(default)), Seq::empty());
            ControlModel::Text { value: v, cursor: v.len() as usize, label: s.name, focus: FocusState::Normal }
        },
        SettingTypeModel::Enum { options } => {
            let cur = or_else_value(first_of(read_str(current), read_str(default)), Seq::empty());
            let values = Seq::new(options.len(), |i: int| options[i].1);
            ControlModel::Dropdown {
                selected: or_else_value(position_of(values, cur, 0), 0) as usize,
                options: Seq::new(options.len(), |i: int| options[i].0),
                values,
                label: s.name,
                open: false,
                focus: FocusState::Normal,
            }
        },
        SettingTypeModel::StringArray => ControlModel::TextList {
            items: or_else_value(first_of(read_strings(current), read_strings(default)), Seq::empty()),
            label: s.name,
            focused_item: None,
            new_item_text: Seq::empty(),
            focus: FocusState::Normal,
        },
        SettingTypeModel::Object { .. } => ControlModel::Complex { kind_name: "Object"@ },
        SettingTypeModel::Dictionary { value_schema } => ControlModel::Dictionary {
            entries: object_members(
                or_else_value(first_of(current, default), JsonModel::Object(Seq::empty())),
            ),
            expanded: Seq::empty(),
            label: s.name,
            focused_entry: None,
            value_schema: Some(*value_schema),
            focus: FocusState::Normal,
        },
        SettingTypeModel::Complex => ControlModel::Complex { kind_name: "Complex"@ },
    }
}

/// A setting is modified when the configuration holds a value for it that
/// differs from its default as serde_json compares values (or it has no
/// default).
pub open spec fn is_modified(current: Option<JsonModel>, default: Option<JsonModel>) -> bool {
    match (current, default) {
        (Some(c), Some(d)) => !json_eq(c, d),
        (Some(_), None) => true,
        _ => false,
    }
}

/// Mathematical model of a setting item.
pub struct ItemModel {
    pub path: Seq<char>,
    pub name: Seq<char>,
    pub description: Option<Seq<char>>,
    pub control: ControlModel,
    pub default: Option<JsonModel>,
    pub modified: bool,
}

impl View for SettingItem {
    type V = ItemModel;

    open spec fn view(&self) -> ItemModel {
        ItemModel {
            path: self.path@,
            name: self.name@,
            description: opt_str_model(self.description),
            control: self.control@,
            default: opt_json_model(self.default),
            modified: self.modified,
        }
    }
}

/// The item for a setting under a configuration.
pub open spec fn item_for(s: SchemaModel, config: JsonModel) -> ItemModel {
    let current = json_pointer(config, s.path);
    ItemModel {
        path: s.path,
        name: s.name,
        description: s.description,
        control: control_for(s, current),
        default: s.default,
        modified: is_modified(current, s.default),
    }
}

pub open spec fn opt_ref_model(v: Option<&JsonValue>) -> Option<JsonModel> {
    match v {
        Some(x) => Some(x@),
        None => None,
    }
}

fn read_str_exec<'a>(v: Option<&'a JsonValue>) -> (r: Option<&'a String>)
    ensures
        match r {
            Some(s) => read_str(opt_ref_model(v)) == Some(s@),
            None => read_str(opt_ref_model(v)) is None,
        },
{
    match v {
        Some(x) => x.as_str(),
        None => None,
    }
}

fn read_strings_exec(v: Option<&JsonValue>) -> (r: Option<Vec<String>>)
    ensures
        match r {
            Some(items) => read_strings(opt_ref_model(v)) == Some(strings_model(items@)),
            None => read_strings(opt_ref_model(v)) is None,
        },
{
    match v {
        Some(x) => match x.as_array() {
            Some(arr) => {
                let ghost ms = Seq::new(arr@.len(), |i: int| arr@[i]@);
                let mut out: Vec<String> = Vec::new();
                let mut i: usize = 0;
                while i < arr.len()
                    invariant
                        i <= arr@.len(),
                        ms == Seq::new(arr@.len(), |i: int| arr@[i]@),
                        strings_model(out@) == strings_among(ms.take(i as int)),
                    decreases arr@.len() - i,
                {
                    proof {
                        assert(ms.take(i + 1).drop_last() =~= ms.take(i as int));
                        assert(ms.take(i + 1).last() == arr@[i as int]@);
                    }
                    match arr[i].as_str() {
                        Some(st) => {
                            let c = st.clone();
                            proof {
                                assert(strings_model(out@.push(c)) =~= strings_model(out@).push(c@));
                            }
                            out.push(c);
                        },
                        None => {},
                    }
                    i += 1;
                }
                proof {
                    assert(ms.take(arr@.len() as int) =~= ms);
                }
                Some(out)
            },
            None => None,
        },
        None => None,
    }
}

fn first_bool(a: Option<bool>, b: Option<bool>, d: bool) -> (r: bool)
    ensures
        r == or_else_value(first_of(a, b), d),
{
    match a {
        Some(x) => x,
        None => match b {
            Some(y) => y,
            None => d,
        },
    }
}

fn first_i64(a: Option<i64>, b: Option<i64>, d: i64) -> (r: i64)
    ensures
        r == or_else_value(first_of(a, b), d),
{
    match a {
        Some(x) => x,
        None => match b {
            Some(y) => y,
            None => d,
        },
    }
}

fn opt_bool_of(v: Option<&JsonValue>) -> (r: Option<bool>)
    ensures
        r == read_bool(opt_ref_model(v)),
{
    match v {
        Some(x) => x.as_bool(),
        None => None,
    }
}

fn opt_i64_of(v: Option<&JsonValue>) -> (r: Option<i64>)
    ensures
        r == read_i64(opt_ref_model(v)),
{
    match v {
        Some(x) => x.as_i64(),
        None => None,
    }
}

fn opt_hundredths_of(v: Option<&JsonValue>) -> (r: Option<i64>)
    ensures
        r == read_hundredths(opt_ref_model(v)),
{
    match v {
        Some(x) => x.as_hundredths(),
        None => None,
    }
}

/// Build a setting item with its control state initialized from the current configuration.
pub fn build_item(schema: &SettingSchema, config_value: &JsonValue) -> (item: SettingItem)
    ensures
        item@ == item_for(schema@, config_value@),
{
    // Get current value from config
    let current_value = config_value.pointer(schema.path.as_str());
    let ghost current = json_pointer(config_value@, schema.path@);
    let default_value: Option<&JsonValue> = match &schema.default {
        Some(d) => Some(d),
        None => None,
    };
    proof {
        assert(opt_ref_model(current_value) == current);
        assert(opt_ref_model(default_value) == schema@.default);
    }

    // Create control based on type
    let control = match &schema.setting_type {
        SettingType::Boolean => {
            let checked = first_bool(opt_bool_of(current_value), opt_bool_of(default_value), false);
            let c = SettingControl::Toggle(ToggleState::new(checked, schema.name.as_str()));
            proof { assert(c@ == control_for(schema@, current)); }
            c
        },
        SettingType::Integer { minimum, maximum } => {
            let value = first_i64(opt_i64_of(current_value), opt_i64_of(default_value), 0);
            let mut state = NumberInputState::new(value, schema.name.as_str());
            if let Some(min) = minimum {
                state = state.with_min(*min);
            }
            if let Some(max) = maximum {
                state = state.with_max(*max);
            }
            let c = SettingControl::Number(state);
            proof { assert(c@ == control_for(schema@, current)); }
            c
        },
        SettingType::Number { minimum, maximum } => {
            // Float settings are edited as integer hundredths
            let value = first_i64(
                opt_hundredths_of(current_value),
                opt_hundredths_of(default_value),
                0,
            );
            let mut state = NumberInputState::new(value, schema.name.as_str());
            if let Some(min) = minimum {
                state = state.with_min(*min);
            }
            if let Some(max) = maximum {
                state = state.with_max(*max);
            }
            let c = SettingControl::Number(state);
            proof { assert(c@ == control_for(schema@, current)); }
            c
        },
        SettingType::String => {
            let empty = String::new();
            let value: &String = match read_str_exec(current_value) {
                Some(v) => v,
                None => match read_str_exec(default_value) {
                    Some(v) => v,
                    None => &empty,
                },
            };
            let state = TextInputState::new(schema.name.as_str()).with_value(value.as_str());
            let c = SettingControl::Text(state);
            proof { assert(c@ == control_for(schema@, current)); }
            c
        },
        SettingType::Enum { options } => {
            let empty = String::new();
            let cur_str: &String = match read_str_exec(current_value) {
                Some(v) => v,
                None => match read_str_exec(default_value) {
                    Some(v) => v,
                    None => &empty,
                },
            };
            let ghost om = Seq::new(options@.len(), |i: int| (options@[i].name@, options@[i].value@));
            let mut display_names: Vec<String> = Vec::new();
            let mut values: Vec<String> = Vec::new();
            let mut i: usize = 0;
            while i < options.len()
                invariant
                    i <= options@.len(),
                    display_names@.len() == i,
                    values@.len() == i,
                    forall|k: int|
                        0 <= k < i ==> (#[trigger] display_names@[k])@ == options@[k].name@,
                    forall|k: int| 0 <= k < i ==> (#[trigger] values@[k])@ == options@[k].value@,
                decreases options@.len() - i,
            {
                display_names.push(options[i].name.clone());
                values.push(options[i].value.clone());
                i += 1;
            }
            let ghost vm = Seq::new(om.len(), |i: int| om[i].1);
            proof {
                assert(strings_model(values@) =~= vm);
                assert(strings_model(display_names@) =~= Seq::new(om.len(), |i: int| om[i].0));
            }
            let mut selected: usize = 0;
            let mut j: usize = 0;
            let mut found = false;
            while j < values.len() && !found
                invariant
                    j <= values@.len(),
                    vm == strings_model(values@),
                    !found ==> position_of(vm, cur_str@, 0) == position_of(vm, cur_str@, j as int),
                    found ==> position_of(vm, cur_str@, 0) == Some(selected as int),
                    !found ==> selected == 0,
                decreases values@.len() - j + (if found { 0int } else { 1int }),
            {
                if values[j] == *cur_str {
                    proof {
                        assert(vm[j as int] == values@[j as int]@);
                        assert(vm[j as int] == cur_str@);
                        assert(position_of(vm, cur_str@, j as int) == Some(j as int));
                    }
                    selected = j;
                    found = true;
                } else {
                    proof {
                        assert(vm[j as int] == values@[j as int]@);
                    }
                    j += 1;
                }
            }
            proof {
                lemma_position_of_bound(vm, cur_str@, 0);
                if !found {
                    assert(position_of(vm, cur_str@, j as int) is None);
                }
            }
            let state = DropdownState::with_values(display_names, values, schema.name.as_str())
                .with_selected(selected);
            let c = SettingControl::Dropdown(state);
            proof {
                let cm = control_for(schema@, current);
                assert(schema@.setting_type == SettingTypeModel::Enum { options: om });
                assert(cur_str@ == or_else_value(first_of(read_str(current), read_str(schema@.default)), Seq::empty()));
                assert(c@->Dropdown_values == cm->Dropdown_values);
                assert(c@->Dropdown_options == cm->Dropdown_options);
                assert(c@->Dropdown_selected == cm->Dropdown_selected);
                assert(c@ == control_for(schema@, current));
            }
            c
        },
        SettingType::StringArray => {
            let items: Vec<String> = match read_strings_exec(current_value) {
                Some(v) => v,
                None => match read_strings_exec(default_value) {
                    Some(v) => v,
                    None => Vec::new(),
                },
            };
            proof {
                if read_strings(current) is None && read_strings(schema@.default) is None {
                    assert(strings_model(items@) =~= Seq::<Seq<char>>::empty());
                }
            }
            let state = TextListState::new(schema.name.as_str()).with_items(items);
            let c = SettingControl::TextList(state);
            proof { assert(c@ == control_for(schema@, current)); }
            c
        },
        SettingType::Object { .. } => SettingControl::Complex { kind_name: "Object".to_owned() },
        SettingType::Dictionary { value_schema } => {
            // Get current map value or default
            let map_value: JsonValue = match current_value {
                Some(v) => v.deep_clone(),
                None => match default_value {
                    Some(d) => d.deep_clone(),
                    None => JsonValue::Object(Vec::new()),
                },
            };
            proof {
                if current is None && schema@.default is None {
                    assert(map_value@->Object_0 =~= Seq::<(Seq<char>, JsonModel)>::empty());
                }
            }
            let state = MapState::new(schema.name.as_str()).with_entries(&map_value);
            proof {
                if !(map_value@ is Object) {
                    assert(entries_model(state.entries@) =~= object_members(map_value@));
                }
            }
            let state = state.with_value_schema(value_schema.deep_clone());
            let c = SettingControl::Dictionary(state);
            proof {
                let cm = control_for(schema@, current);
                assert(c@->Dictionary_entries == cm->Dictionary_entries);
                assert(c@->Dictionary_expanded =~= cm->Dictionary_expanded);
                assert(c@->Dictionary_value_schema == cm->Dictionary_value_schema);
                assert(c@ == control_for(schema@, current));
            }
            c
        },
        SettingType::Complex => SettingControl::Complex { kind_name: "Complex".to_owned() },
    };

    // Check if modified from default
    let modified = match (current_value, default_value) {
        (Some(current), Some(default)) => !current.same_as(default),
        (Some(_), None) => true,
        _ => false,
    };

    proof {
        assert(control@ == control_for(schema@, current));
        assert(modified == is_modified(current, schema@.default));
    }
    SettingItem {
        path: schema.path.clone(),
        name: schema.name.clone(),
        description: clone_opt_string(&schema.description),
        control,
        default: clone_opt_json(&schema.default),
        modified,
    }
}

// ---------------------------------------------------------------------------
// Pages.
// ---------------------------------------------------------------------------

/// Mathematical model of a settings page.
pub struct PageModel {
    pub name: Seq<char>,
    pub path: Seq<char>,
    pub description: Option<Seq<char>>,
    pub items: Seq<ItemModel>,
    pub subpages: Seq<PageModel>,
}

pub open spec fn page_model(p: SettingsPage) -> PageModel
    decreases p,
{
    PageModel {
        name: p.name@,
        path: p.path@,
        description: opt_str_model(p.description),
        items: Seq::new(p.items@.len(), |i: int| p.items@[i]@),
        subpages: {
            proof {
                assert forall|i: int| 0 <= i < p.subpages@.len() implies decreases_to!(p => p.subpages@[i]) by {
                    assert(decreases_to!(p => p.subpages));
                    assert(decreases_to!(p.subpages => p.subpages@));
                    assert(decreases_to!(p.subpages@ => p.subpages@[i]));
                }
            }
            Seq::new(
                p.subpages@.len(),
                |i: int|
                    if 0 <= i < p.subpages@.len() {
                        page_model(p.subpages@[i])
                    } else {
                        PageModel {
                            name: Seq::empty(),
                            path: Seq::empty(),
                            description: None,
                            items: Seq::empty(),
                            subpages: Seq::empty(),
                        }
                    },
            )
        },
    }
}

impl View for SettingsPage {
    type V = PageModel;

    open spec fn view(&self) -> PageModel {
        page_model(*self)
    }
}

impl SettingsPage {
    /// Whether any setting of the page (not of its subpages) was changed
    /// from its default.
    pub fn has_modified_items(&self) -> (r: bool)
        ensures
            r == exists|i: int| 0 <= i < self@.items.len() && (#[trigger] self@.items[i]).modified,
    {
        let mut i: usize = 0;
        while i < self.items.len()
            invariant
                i <= self.items@.len(),
                self@.items.len() == self.items@.len(),
                forall|k: int| 0 <= k < self.items@.len() ==> #[trigger] self@.items[k] == self.items@[k]@,
                forall|k: int| 0 <= k < i ==> !self@.items[k].modified,
            decreases self.items@.len() - i,
        {
            if self.items[i].modified {
                proof {
                    assert(self@.items[i as int].modified);
                }
                return true;
            }
            i += 1;
        }
        false
    }
}

/// The page for a category under a configuration: one item per setting and
/// one subpage per subcategory, in order.
pub open spec fn page_for(c: SettingCategory, config: JsonModel) -> PageModel
    decreases c,
{
    PageModel {
        name: c.name@,
        path: c.path@,
        description: opt_str_model(c.description),
        items: Seq::new(c.settings@.len(), |i: int| item_for(c.settings@[i]@, config)),
        subpages: {
            proof {
                assert forall|i: int|
                    0 <= i < c.subcategories@.len() implies decreases_to!(c => c.subcategories@[i]) by {
                    assert(decreases_to!(c => c.subcategories));
                    assert(decreases_to!(c.subcategories => c.subcategories@));
                    assert(decreases_to!(c.subcategories@ => c.subcategories@[i]));
                }
            }
            Seq::new(
                c.subcategories@.len(),
                |i: int|
                    if 0 <= i < c.subcategories@.len() {
                        page_for(c.subcategories@[i], config)
                    } else {
                        PageModel {
                            name: Seq::empty(),
                            path: Seq::empty(),
                            description: None,
                            items: Seq::empty(),
                            subpages: Seq::empty(),
                        }
                    },
            )
        },
    }
}

/// A page mirrors its category: the same name, path and description, one
/// item per setting (the item built for it) and one subpage per
/// subcategory (the page built for it), in order.
pub proof fn law_page_mirrors_category(c: SettingCategory, config: JsonModel)
    ensures
        page_for(c, config).name == c.name@,
        page_for(c, config).path == c.path@,
        page_for(c, config).description == opt_str_model(c.description),
        page_for(c, config).items.len() == c.settings@.len(),
        forall|i: int|
            0 <= i < c.settings@.len() ==> #[trigger] page_for(c, config).items[i] == item_for(
                c.settings@[i]@,
                config,
            ),
        page_for(c, config).subpages.len() == c.subcategories@.len(),
        forall|j: int|
            0 <= j < c.subcategories@.len() ==> #[trigger] page_for(c, config).subpages[j] == page_for(
                c.subcategories@[j],
                config,
            ),
{
}

/// The JSON number serde_json makes from an `i64`.
pub open spec fn i64_json(x: i64) -> JsonModel {
    if x < 0 {
        JsonModel::Number(JsonNumber::NegInt(x))
    } else {
        JsonModel::Number(JsonNumber::PosInt(x as u64))
    }
}

/// An integer setting shows the configured integer; where the configuration
/// holds no number at the setting's path, the schema default's integer; and
/// with neither, 0.  Its bounds and label are the schema's.
pub proof fn law_integer_setting_value(s: SchemaModel, config: JsonModel)
    requires
        s.setting_type is Integer,
    ensures
        ({
            let c = item_for(s, config).control;
            let cur = json_pointer(config, s.path);
            &&& c is Number
            &&& c->Number_min == s.setting_type->Integer_minimum
            &&& c->Number_max == s.setting_type->Integer_maximum
            &&& c->Number_label == s.name
            &&& forall|x: i64| cur == Some(#[trigger] i64_json(x)) ==> c->Number_value == x
            &&& forall|x: i64|
                !(cur matches Some(JsonModel::Number(_))) && s.default == Some(#[trigger] i64_json(x))
                    ==> c->Number_value == x
            &&& !(cur matches Some(JsonModel::Number(_))) && s.default is None ==> c->Number_value == 0
        }),
{
}

/// A boolean setting shows the configured boolean; where the configuration
/// holds none at the setting's path, the schema default's; and with neither,
/// unchecked.
pub proof fn law_boolean_setting_value(s: SchemaModel, config: JsonModel)
    requires
        s.setting_type is Boolean,
    ensures
        ({
            let c = item_for(s, config).control;
            let cur = json_pointer(config, s.path);
            &&& c is Toggle
            &&& c->Toggle_label == s.name
            &&& forall|b: bool| cur == Some(JsonModel::Bool(b)) ==> c->Toggle_checked == b
            &&& forall|b: bool|
                !(cur matches Some(JsonModel::Bool(_))) && s.default == Some(JsonModel::Bool(b))
                    ==> c->Toggle_checked == b
            &&& !(cur matches Some(JsonModel::Bool(_))) && s.default is None ==> !c->Toggle_checked
        }),
{
}

/// A string setting shows the configured string, else the schema default's,
/// else the empty string, with the cursor after its last character.
pub proof fn law_string_setting_value(s: SchemaModel, config: JsonModel)
    requires
        s.setting_type is String,
    ensures
        ({
            let c = item_for(s, config).control;
            let cur = json_pointer(config, s.path);
            &&& c is Text
            &&& c->Text_value.len() <= usize::MAX ==> c->Text_cursor == c->Text_value.len()
            &&& forall|t: Seq<char>| cur == Some(JsonModel::Str(t)) ==> c->Text_value == t
            &&& forall|t: Seq<char>|
                !(cur matches Some(JsonModel::Str(_))) && s.default == Some(JsonModel::Str(t))
                    ==> c->Text_value == t
            &&& !(cur matches Some(JsonModel::Str(_))) && s.default is None ==> c->Text_value.len() == 0
        }),
{
}

proof fn lemma_position_of_first(vals: Seq<Seq<char>>, x: Seq<char>, from: int, w: int)
    requires
        0 <= from <= w < vals.len(),
        vals[w] == x,
        forall|j: int| from <= j < w ==> vals[j] != x,
    ensures
        position_of(vals, x, from) == Some(w),
    decreases w - from,
{
    if from < w {
        lemma_position_of_first(vals, x, from + 1, w);
    }
}

proof fn lemma_position_of_none(vals: Seq<Seq<char>>, x: Seq<char>, from: int)
    requires
        0 <= from,
        forall|j: int| from <= j < vals.len() ==> vals[j] != x,
    ensures
        position_of(vals, x, from) is None,
    decreases vals.len() - from,
{
    if from < vals.len() {
        lemma_position_of_none(vals, x, from + 1);
    }
}

/// An enumerated setting whose configured value is the string `t` selects
/// the first choice whose stored value is `t`, or the first choice when
/// none is; its choices are shown by name, in the schema's order.
pub proof fn law_enum_setting_selection(s: SchemaModel, config: JsonModel, t: Seq<char>)
    requires
        s.setting_type is Enum,
        json_pointer(config, s.path) == Some(JsonModel::Str(t)),
    ensures
        ({
            let options = s.setting_type->Enum_options;
            let c = item_for(s, config).control;
            &&& c is Dropdown
            &&& c->Dropdown_options.len() == options.len()
            &&& forall|i: int| 0 <= i < options.len() ==> #[trigger] c->Dropdown_options[i] == options[i].0
            &&& forall|i: int|
                0 <= i < options.len() && #[trigger] options[i].1 == t && (forall|j: int|
                    0 <= j < i ==> options[j].1 != t) && i <= usize::MAX ==> c->Dropdown_selected == i
            &&& (forall|j: int| 0 <= j < options.len() ==> options[j].1 != t) ==> c->Dropdown_selected == 0
        }),
{
    let options = s.setting_type->Enum_options;
    let values = Seq::new(options.len(), |i: int| options[i].1);
    assert forall|i: int|
        0 <= i < options.len() && #[trigger] options[i].1 == t && (forall|j: int|
            0 <= j < i ==> options[j].1 != t) && i <= usize::MAX implies item_for(s, config).control->Dropdown_selected
        == i by {
        lemma_position_of_first(values, t, 0, i);
    }
    if forall|j: int| 0 <= j < options.len() ==> options[j].1 != t {
        lemma_position_of_none(values, t, 0);
    }
}

/// A setting counts as modified exactly when the configuration holds a
/// value for it that differs from the default as serde_json compares
/// values: never when the configuration holds nothing at its path, always
/// when it has no default, not when the value is the default (or equals it,
/// such as `-0.0` against `0.0`).
pub proof fn law_modified_flag(s: SchemaModel, config: JsonModel)
    ensures
        ({
            let cur = json_pointer(config, s.path);
            let m = item_for(s, config).modified;
            &&& cur is None ==> !m
            &&& cur is Some && s.default is None ==> m
            &&& cur is Some && cur == s.default ==> !m
            &&& forall|a: bool, b: bool|
                cur == Some(JsonModel::Bool(a)) && s.default == Some(JsonModel::Bool(b)) ==> (m <==> a != b)
            &&& forall|h1: i64, h2: i64|
                cur == Some(JsonModel::Number(JsonNumber::Float { bits: 0x8000_0000_0000_0000, hundredths: h1 }))
                    && s.default == Some(JsonModel::Number(JsonNumber::Float { bits: 0, hundredths: h2 })) ==> !m
        }),
{
}

/// Rows a control takes: a text list its label, one row per item and its
/// add-new row; a map with nothing expanded its label, one row per entry
/// and its add-new row; any other control one row.
pub proof fn law_control_rows(c: ControlModel)
    ensures
        c is TextList ==> control_rows(c) == c->TextList_items.len() + 2,
        c is Dictionary && c->Dictionary_expanded.len() == 0 ==> control_rows(c)
            == c->Dictionary_entries.len() + 2,
        !(c is TextList) && !(c is Dictionary) ==> control_rows(c) == 1,
        control_rows(c) < 0x1_0000 ==> control_height_of(c) == control_rows(c),
{
}

/// Build a single page from a category.
#[verifier::loop_isolation(false)]
fn build_page(category: &SettingCategory, config_value: &JsonValue) -> (page: SettingsPage)
    ensures
        page@ == page_for(*category, config_value@),
    decreases category,
{
    let mut items: Vec<SettingItem> = Vec::new();
    let mut i: usize = 0;
    while i < category.settings.len()
        invariant
            i <= category.settings@.len(),
            items@.len() == i,
            forall|k: int|
                0 <= k < i ==> (#[trigger] items@[k])@ == item_for(
                    category.settings@[k]@,
                    config_value@,
                ),
        decreases category.settings@.len() - i,
    {
        items.push(build_item(&category.settings[i], config_value));
        i += 1;
    }

    let mut subpages: Vec<SettingsPage> = Vec::new();
    let mut j: usize = 0;
    while j < category.subcategories.len()
        invariant
            j <= category.subcategories@.len(),
            subpages@.len() == j,
            forall|k: int|
                0 <= k < j ==> (#[trigger] subpages@[k])@ == page_for(
                    category.subcategories@[k],
                    config_value@,
                ),
        decreases category.subcategories@.len() - j,
    {
        proof {
            assert(decreases_to!(*category => category.subcategories));
            assert(decreases_to!(category.subcategories => category.subcategories@));
            assert(decreases_to!(category.subcategories@ => category.subcategories@[j as int]));
        }
        subpages.push(build_page(&category.subcategories[j], config_value));
        j += 1;
    }

    let page = SettingsPage {
        name: category.name.clone(),
        path: category.path.clone(),
        description: clone_opt_string(&category.description),
        items,
        subpages,
    };
    proof {
        assert(page@.items =~= page_for(*category, config_value@).items);
        assert(page@.subpages =~= page_for(*category, config_value@).subpages);
    }
    page
}

/// Convert a category tree into pages with control states.
pub fn build_pages(categories: &[SettingCategory], config_value: &JsonValue) -> (pages: Vec<
    SettingsPage,
>)
    ensures
        pages@.len() == categories@.len(),
        forall|i: int|
            0 <= i < categories@.len() ==> (#[trigger] pages@[i])@ == page_for(
                categories@[i],
                config_value@,
            ),
{
    let mut pages: Vec<SettingsPage> = Vec::new();
    let mut i: usize = 0;
    while i < categories.len()
        invariant
            i <= categories@.len(),
            pages@.len() == i,
            forall|k: int|
                0 <= k < i ==> (#[trigger] pages@[k])@ == page_for(categories@[k], config_value@),
        decreases categories@.len() - i,
    {
        pages.push(build_page(&categories[i], config_value));
        i += 1;
    }
    pages
}

// ---------------------------------------------------------------------------
// Values of controls.
// ---------------------------------------------------------------------------

pub open spec fn number_model_of(v: i64) -> JsonNumber {
    if v < 0 {
        JsonNumber::NegInt(v)
    } else {
        JsonNumber::PosInt(v as u64)
    }
}

/// The configuration value a control stands for.
pub open spec fn value_of_control(c: ControlModel) -> JsonModel {
    match c {
        ControlModel::Toggle { checked, .. } => JsonModel::Bool(checked),
        ControlModel::Number { value, .. } => JsonModel::Number(number_model_of(value)),
        ControlModel::Dropdown { selected, values, .. } => if selected < values.len() {
            JsonModel::Str(values[selected as int])
        } else {
            JsonModel::Null
        },
        ControlModel::Text { value, .. } => JsonModel::Str(value),
        ControlModel::TextList { items, .. } => JsonModel::Array(
            Seq::new(items.len(), |i: int| JsonModel::Str(items[i])),
        ),
        ControlModel::Dictionary { entries, .. } => JsonModel::Object(members_from(entries)),
        ControlModel::Complex { .. } => JsonModel::Null,
    }
}

/// Extract the current value from a control.
pub fn control_to_value(control: &SettingControl) -> (v: JsonValue)
    ensures
        v@ == value_of_control(control@),
{
    match control {
        SettingControl::Toggle(state) => JsonValue::Bool(state.checked),
        SettingControl::Number(state) => JsonValue::Number(JsonNumber::from_i64(state.value)),
        SettingControl::Dropdown(state) => match state.selected_value() {
            Some(s) => JsonValue::String(s.clone()),
            None => JsonValue::Null,
        },
        SettingControl::Text(state) => JsonValue::String(state.value.clone()),
        SettingControl::TextList(state) => {
            let mut arr: Vec<JsonValue> = Vec::new();
            let mut i: usize = 0;
            while i < state.items.len()
                invariant
                    i <= state.items@.len(),
                    arr@.len() == i,
                    forall|k: int|
                        0 <= k < i ==> (#[trigger] arr@[k])@ == JsonModel::Str(state.items@[k]@),
                decreases state.items@.len() - i,
            {
                arr.push(JsonValue::String(state.items[i].clone()));
                i += 1;
            }
            let v = JsonValue::Array(arr);
            proof {
                assert(v@->Array_0 =~= value_of_control(control@)->Array_0);
            }
            v
        },
        SettingControl::Dictionary(state) => state.to_value(),
        SettingControl::Complex { .. } => JsonValue::Null,
    }
}

} // verus!
