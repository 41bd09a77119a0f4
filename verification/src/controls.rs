//! Editing state of the controls shown for settings.

use vstd::prelude::*;
use crate::json::{json_model, keys_ascending, str_less, str_lt, JsonModel, JsonValue};
use crate::schema::{SchemaModel, SettingSchema};

verus! {

/// How a control is highlighted.
#[derive(Debug, Clone, Copy, PartialEq, Eq)]
pub enum FocusState {
    Normal,
    Focused,
    Hovered,
    Disabled,
}

/// An on/off switch.
#[derive(Debug)]
pub struct ToggleState {
    pub checked: bool,
    pub label: String,
    pub focus: FocusState,
}

/// An integer input with optional bounds.
#[derive(Debug)]
pub struct NumberInputState {
    pub value: i64,
    pub min: Option<i64>,
    pub max: Option<i64>,
    pub label: String,
    pub focus: FocusState,
}

/// A choice among named values.
#[derive(Debug)]
pub struct DropdownState {
    pub selected: usize,
    /// Display names.
    pub options: Vec<String>,
    /// Stored values, one per display name.
    pub values: Vec<String>,
    pub label: String,
    pub open: bool,
    pub focus: FocusState,
}

/// A single-line text input.
#[derive(Debug)]
pub struct TextInputState {
    pub value: String,
    /// Cursor position, in characters.
    pub cursor: usize,
    pub label: String,
    pub focus: FocusState,
}

/// An editable list of strings.
#[derive(Debug)]
pub struct TextListState {
    pub items: Vec<String>,
    pub label: String,
    pub focused_item: Option<usize>,
    pub new_item_text: String,
    pub focus: FocusState,
}

/// An editable key/value map.
#[derive(Debug)]
pub struct MapState {
    /// Entries in display order.
    pub entries: Vec<(String, JsonValue)>,
    /// Indices of entries shown expanded (listing their fields).
    pub expanded: Vec<usize>,
    pub label: String,
    pub focused_entry: Option<usize>,
    /// Schema of the values, when known.
    pub value_schema: Option<Box<SettingSchema>>,
    pub focus: FocusState,
}

pub open spec fn strings_model(v: Seq<String>) -> Seq<Seq<char>> {
    Seq::new(v.len(), |i: int| v[i]@)
}

pub open spec fn entries_model(v: Seq<(String, JsonValue)>) -> Seq<(Seq<char>, JsonModel)> {
    Seq::new(v.len(), |i: int| (v[i].0@, json_model(v[i].1)))
}

/// The members of an object (none for any other value).
pub open spec fn object_members(m: JsonModel) -> Seq<(Seq<char>, JsonModel)> {
    match m {
        JsonModel::Object(entries) => entries,
        _ => Seq::empty(),
    }
}

fn copy_strings(v: &Vec<String>) -> (r: Vec<String>)
    ensures
        strings_model(r@) == strings_model(v@),
{
    let mut r: Vec<String> = Vec::new();
    let mut i: usize = 0;
    while i < v.len()
        invariant
            i <= v@.len(),
            r@.len() == i,
            forall|k: int| 0 <= k < i ==> (#[trigger] r@[k])@ == v@[k]@,
        decreases v@.len() - i,
    {
        r.push(v[i].clone());
        i += 1;
    }
    proof {
        assert(strings_model(r@) =~= strings_model(v@));
    }
    r
}

/// Insert a member into members kept in ascending key order: an existing
/// key gets the new value, a new key goes before the first greater key.
pub open spec fn member_insert(
    m: Seq<(Seq<char>, JsonModel)>,
    k: Seq<char>,
    v: JsonModel,
) -> Seq<(Seq<char>, JsonModel)>
    decreases m.len(),
{
    if m.len() == 0 {
        seq![(k, v)]
    } else if m[0].0 == k {
        m.update(0, (k, v))
    } else if str_lt(k, m[0].0) {
        seq![(k, v)] + m
    } else {
        seq![m[0]] + member_insert(m.drop_first(), k, v)
    }
}

/// The members of the object built by inserting the entries in order.
pub open spec fn members_from(entries: Seq<(Seq<char>, JsonModel)>) -> Seq<(Seq<char>, JsonModel)>
    decreases entries.len(),
{
    if entries.len() == 0 {
        Seq::empty()
    } else {
        member_insert(members_from(entries.drop_last()), entries.last().0, entries.last().1)
    }
}

proof fn lemma_member_insert_split(m: Seq<(Seq<char>, JsonModel)>, k: Seq<char>, v: JsonModel, j: int)
    requires
        0 <= j < m.len(),
        forall|i: int| 0 <= i <= j ==> #[trigger] m[i].0 != k && !str_lt(k, m[i].0),
    ensures
        member_insert(m, k, v) == m.take(j + 1) + member_insert(m.skip(j + 1), k, v),
    decreases j,
{
    if j == 0 {
        assert(m.skip(1) =~= m.drop_first());
        assert(m.take(1) =~= seq![m[0]]);
    } else {
        let d = m.drop_first();
        assert forall|i: int| 0 <= i <= j - 1 implies #[trigger] d[i].0 != k && !str_lt(k, d[i].0) by {
            assert(d[i] == m[i + 1]);
        }
        lemma_member_insert_split(d, k, v, j - 1);
        assert(d.skip(j) =~= m.skip(j + 1));
        assert(seq![m[0]] + d.take(j) =~= m.take(j + 1));
    }
}

proof fn lemma_str_lt_asym(a: Seq<char>, b: Seq<char>)
    ensures
        str_lt(a, b) ==> !str_lt(b, a) && a != b,
    decreases a.len(),
{
    if a.len() > 0 && b.len() > 0 && a[0] == b[0] {
        lemma_str_lt_asym(a.drop_first(), b.drop_first());
        if a == b {
            assert(a.drop_first() == b.drop_first());
        }
    }
}

/// Inserting a key greater than every key present appends it.
proof fn lemma_member_insert_last(m: Seq<(Seq<char>, JsonModel)>, k: Seq<char>, v: JsonModel)
    requires
        forall|i: int| 0 <= i < m.len() ==> str_lt(#[trigger] m[i].0, k),
    ensures
        member_insert(m, k, v) == m.push((k, v)),
    decreases m.len(),
{
    if m.len() > 0 {
        lemma_str_lt_asym(m[0].0, k);
        let d = m.drop_first();
        assert forall|i: int| 0 <= i < d.len() implies str_lt(#[trigger] d[i].0, k) by {
            assert(d[i] == m[i + 1]);
        }
        lemma_member_insert_last(d, k, v);
        assert(seq![m[0]] + d.push((k, v)) =~= m.push((k, v)));
    }
}

/// Reading the entries of an object whose keys ascend (as every object of
/// the settings does) and building the object again gives it back.
pub proof fn law_map_round_trip(value: JsonModel)
    requires
        value is Object,
        keys_ascending(object_members(value)),
    ensures
        JsonModel::Object(members_from(object_members(value))) == value,
{
    lemma_members_from_ascending(object_members(value));
}

proof fn lemma_members_from_ascending(e: Seq<(Seq<char>, JsonModel)>)
    requires
        keys_ascending(e),
    ensures
        members_from(e) == e,
    decreases e.len(),
{
    if e.len() > 0 {
        let t = e.drop_last();
        assert(keys_ascending(t));
        lemma_members_from_ascending(t);
        assert forall|i: int| 0 <= i < t.len() implies str_lt(#[trigger] t[i].0, e.last().0) by {
            assert(t[i] == e[i]);
        }
        lemma_member_insert_last(t, e.last().0, e.last().1);
        assert(t.push((e.last().0, e.last().1)) =~= e);
    }
}

/// Insert into members kept in key order.
fn insert_member(out: &mut Vec<(String, JsonValue)>, k: String, v: JsonValue)
    ensures
        entries_model(final(out)@) == member_insert(entries_model(old(out)@), k@, v@),
{
    let ghost m = entries_model(out@);
    let ghost km = k@;
    let ghost vm = v@;
    let mut j: usize = 0;
    while j < out.len()
        invariant
            j <= out@.len(),
            m == entries_model(out@),
            m == entries_model(old(out)@),
            km == k@,
            vm == v@,
            forall|i: int| 0 <= i < j ==> #[trigger] m[i].0 != km && !str_lt(km, m[i].0),
        decreases out@.len() - j,
    {
        let same = out[j].0 == k;
        let before = str_less(&k, &out[j].0);
        if same || before {
            proof {
                if j > 0 {
                    lemma_member_insert_split(m, km, vm, j - 1);
                    assert(m.skip(j as int)[0] == m[j as int]);
                } else {
                    assert(m.skip(0) =~= m);
                    assert(m.take(0) =~= Seq::<(Seq<char>, JsonModel)>::empty());
                }
            }
            let ghost t = m.skip(j as int);
            proof {
                assert(t[0] == m[j as int]);
                assert(member_insert(m, km, vm) == m.take(j as int) + member_insert(t, km, vm));
            }
            if same {
                out.set(j, (k, v));
                proof {
                    assert(member_insert(t, km, vm) == t.update(0, (km, vm)));
                    assert(entries_model(out@) =~= m.take(j as int) + t.update(0, (km, vm)));
                }
            } else {
                out.insert(j, (k, v));
                proof {
                    assert(member_insert(t, km, vm) == seq![(km, vm)] + t);
                    assert(entries_model(out@) =~= m.take(j as int) + (seq![(km, vm)] + t));
                }
            }
            return;
        }
        j += 1;
    }
    proof {
        if j > 0 {
            lemma_member_insert_split(m, km, vm, j - 1);
            assert(m.take(j as int) =~= m);
            assert(m.skip(j as int).len() == 0);
        }
    }
    out.push((k, v));
    proof {
        assert(entries_model(out@) =~= m + seq![(km, vm)]);
        if j == 0 {
            assert(m.len() == 0);
        }
        assert(m.skip(j as int) =~= Seq::<(Seq<char>, JsonModel)>::empty());
        assert(m.take(j as int) + seq![(km, vm)] =~= m + seq![(km, vm)]);
    }
}

impl ToggleState {
    pub fn new(checked: bool, label: &str) -> (s: Self)
        ensures
            s.checked == checked,
            s.label@ == label@,
            s.focus == FocusState::Normal,
    {
        ToggleState { checked, label: label.to_owned(), focus: FocusState::Normal }
    }
}

impl NumberInputState {
    pub fn new(value: i64, label: &str) -> (s: Self)
        ensures
            s.value == value,
            s.min is None,
            s.max is None,
            s.label@ == label@,
            s.focus == FocusState::Normal,
    {
        NumberInputState { value, min: None, max: None, label: label.to_owned(), focus: FocusState::Normal }
    }

    /// Set the lower bound.
    pub fn with_min(self, min: i64) -> (s: Self)
        ensures
            s.min == Some(min),
            s.value == self.value,
            s.max == self.max,
            s.label == self.label,
            s.focus == self.focus,
    {
        NumberInputState { min: Some(min), ..self }
    }

    /// Set the upper bound.
    pub fn with_max(self, max: i64) -> (s: Self)
        ensures
            s.max == Some(max),
            s.value == self.value,
            s.min == self.min,
            s.label == self.label,
            s.focus == self.focus,
    {
        NumberInputState { max: Some(max), ..self }
    }
}

impl DropdownState {
    /// A closed dropdown over display names and the values they stand for,
    /// with the first choice selected.
    pub fn with_values(options: Vec<String>, values: Vec<String>, label: &str) -> (s: Self)
        ensures
            s.options@ == options@,
            s.values@ == values@,
            s.selected == 0,
            s.label@ == label@,
            !s.open,
            s.focus == FocusState::Normal,
    {
        DropdownState {
            selected: 0,
            options,
            values,
            label: label.to_owned(),
            open: false,
            focus: FocusState::Normal,
        }
    }

    /// Select a choice by index; an index past the choices is ignored.
    pub fn with_selected(self, index: usize) -> (s: Self)
        ensures
            s.selected == if index < self.options@.len() {
                index
            } else {
                self.selected
            },
            s.options == self.options,
            s.values == self.values,
            s.label == self.label,
            s.open == self.open,
            s.focus == self.focus,
    {
        if index < self.options.len() {
            DropdownState { selected: index, ..self }
        } else {
            self
        }
    }

    /// The value of the selected choice, if there is one.
    pub fn selected_value(&self) -> (r: Option<&String>)
        ensures
            match r {
                Some(v) => self.selected < self.values@.len() && *v == self.values@[self.selected as int],
                None => self.selected >= self.values@.len(),
            },
    {
        if self.selected < self.values.len() {
            Some(&self.values[self.selected])
        } else {
            None
        }
    }
}

impl TextInputState {
    /// An empty input.
    pub fn new(label: &str) -> (s: Self)
        ensures
            s.value@ == Seq::<char>::empty(),
            s.cursor == 0,
            s.label@ == label@,
            s.focus == FocusState::Normal,
    {
        TextInputState { value: String::new(), cursor: 0, label: label.to_owned(), focus: FocusState::Normal }
    }

    /// Set the text, with the cursor after its last character.
    pub fn with_value(self, value: &str) -> (s: Self)
        ensures
            s.value@ == value@,
            s.cursor == value@.len(),
            s.label == self.label,
            s.focus == self.focus,
    {
        let cursor = value.unicode_len();
        TextInputState { value: value.to_owned(), cursor, ..self }
    }
}

impl TextListState {
    /// An empty list.
    pub fn new(label: &str) -> (s: Self)
        ensures
            s.items@.len() == 0,
            s.label@ == label@,
            s.focused_item is None,
            s.new_item_text@ == Seq::<char>::empty(),
            s.focus == FocusState::Normal,
    {
        TextListState {
            items: Vec::new(),
            label: label.to_owned(),
            focused_item: None,
            new_item_text: String::new(),
            focus: FocusState::Normal,
        }
    }

    /// Set the items.
    pub fn with_items(self, items: Vec<String>) -> (s: Self)
        ensures
            s.items@ == items@,
            s.label == self.label,
            s.focused_item == self.focused_item,
            s.new_item_text == self.new_item_text,
            s.focus == self.focus,
    {
        TextListState { items, ..self }
    }
}

impl MapState {
    /// An empty map.
    pub fn new(label: &str) -> (s: Self)
        ensures
            s.entries@.len() == 0,
            s.expanded@.len() == 0,
            s.label@ == label@,
            s.focused_entry is None,
            s.value_schema is None,
            s.focus == FocusState::Normal,
    {
        MapState {
            entries: Vec::new(),
            expanded: Vec::new(),
            label: label.to_owned(),
            focused_entry: None,
            value_schema: None,
            focus: FocusState::Normal,
        }
    }

    /// Take the entries from an object, in key order; any other value leaves
    /// the entries as they are.
    pub fn with_entries(self, value: &JsonValue) -> (s: Self)
        ensures
            value@ is Object ==> entries_model(s.entries@) == object_members(value@),
            !(value@ is Object) ==> s.entries == self.entries,
            s.expanded == self.expanded,
            s.label == self.label,
            s.focused_entry == self.focused_entry,
            s.value_schema == self.value_schema,
            s.focus == self.focus,
    {
        match value {
            JsonValue::Object(members) => {
                let mut entries: Vec<(String, JsonValue)> = Vec::new();
                let mut i: usize = 0;
                while i < members.len()
                    invariant
                        i <= members@.len(),
                        entries@.len() == i,
                        forall|k: int|
                            0 <= k < i ==> (#[trigger] entries@[k]).0@ == members@[k].0@
                                && entries@[k].1@ == members@[k].1@,
                    decreases members@.len() - i,
                {
                    let k = members[i].0.clone();
                    let v = members[i].1.deep_clone();
                    entries.push((k, v));
                    i += 1;
                }
                proof {
                    assert(entries_model(entries@) =~= object_members(value@));
                }
                MapState { entries, ..self }
            },
            _ => self,
        }
    }

    /// The map as a JSON object: each key with the value of its last entry,
    /// in ascending key order.
    pub fn to_value(&self) -> (v: JsonValue)
        ensures
            v@ == JsonModel::Object(members_from(entries_model(self.entries@))),
    {
        let mut out: Vec<(String, JsonValue)> = Vec::new();
        let mut i: usize = 0;
        while i < self.entries.len()
            invariant
                i <= self.entries@.len(),
                entries_model(out@) == members_from(entries_model(self.entries@).take(i as int)),
            decreases self.entries@.len() - i,
        {
            proof {
                let e = entries_model(self.entries@);
                assert(e.take(i + 1).drop_last() =~= e.take(i as int));
                assert(e.take(i + 1).last() == e[i as int]);
            }
            let k = self.entries[i].0.clone();
            let v = self.entries[i].1.deep_clone();
            insert_member(&mut out, k, v);
            i += 1;
        }
        proof {
            assert(entries_model(self.entries@).take(self.entries@.len() as int) =~= entries_model(
                self.entries@,
            ));
        }
        let r = JsonValue::Object(out);
        proof {
            assert(r@->Object_0 =~= entries_model(out@));
        }
        r
    }

    /// Set the schema of the values.
    pub fn with_value_schema(self, schema: SettingSchema) -> (s: Self)
        ensures
            s.value_schema == Some(Box::new(schema)),
            s.entries == self.entries,
            s.expanded == self.expanded,
            s.label == self.label,
            s.focused_entry == self.focused_entry,
            s.focus == self.focus,
    {
        MapState { value_schema: Some(Box::new(schema)), ..self }
    }
}

} // verus!
