use fresh_view::controls::{
    DropdownState, FocusState, MapState, NumberInputState, TextInputState, TextListState,
    ToggleState,
};
use fresh_view::json::{JsonNumber, JsonValue};
use fresh_view::schema::{EnumOption, SettingCategory, SettingSchema, SettingType};
use fresh_view::settings_items::{
    build_item, build_pages, control_to_value, FocusRegion, SettingControl, SettingItem,
};

fn s(x: &str) -> String {
    x.to_string()
}

fn jint(v: i64) -> JsonValue {
    JsonValue::Number(JsonNumber::from_i64(v))
}

fn float(v: f64) -> JsonValue {
    JsonValue::Number(JsonNumber::Float { bits: v.to_bits(), hundredths: (v * 100.0).round() as i64 })
}

fn obj(members: Vec<(&str, JsonValue)>) -> JsonValue {
    // members are given in ascending key order
    JsonValue::Object(members.into_iter().map(|(k, v)| (k.to_string(), v)).collect())
}

fn sample_config() -> JsonValue {
    obj(vec![
        ("check_for_updates", JsonValue::Bool(false)),
        ("editor", obj(vec![("line_numbers", JsonValue::Bool(true)), ("tab_size", jint(2))])),
        ("theme", JsonValue::String(s("monokai"))),
    ])
}

fn schema(path: &str, name: &str, setting_type: SettingType, default: Option<JsonValue>) -> SettingSchema {
    SettingSchema { path: s(path), name: s(name), description: None, setting_type, default }
}

fn item_with_control(control: SettingControl) -> SettingItem {
    SettingItem { path: s("/x"), name: s("X"), description: None, control, default: None, modified: false }
}

#[test]
fn test_build_toggle_item() {
    let schema = SettingSchema {
        path: "/check_for_updates".to_string(),
        name: "Check For Updates".to_string(),
        description: Some("Check for updates".to_string()),
        setting_type: SettingType::Boolean,
        default: Some(JsonValue::Bool(true)),
    };

    let config = sample_config();
    let item = build_item(&schema, &config);

    assert_eq!(item.path, "/check_for_updates");
    assert!(item.modified); // false != true (default)

    if let SettingControl::Toggle(state) = &item.control {
        assert!(!state.checked); // Current value is false
    } else {
        panic!("Expected toggle control");
    }
}

#[test]
fn test_build_number_item() {
    let schema = SettingSchema {
        path: "/editor/tab_size".to_string(),
        name: "Tab Size".to_string(),
        description: None,
        setting_type: SettingType::Integer { minimum: Some(1), maximum: Some(16) },
        default: Some(jint(4)),
    };

    let config = sample_config();
    let item = build_item(&schema, &config);

    assert!(item.modified); // 2 != 4 (default)

    if let SettingControl::Number(state) = &item.control {
        assert_eq!(state.value, 2);
        assert_eq!(state.min, Some(1));
        assert_eq!(state.max, Some(16));
    } else {
        panic!("Expected number control");
    }
}

#[test]
fn test_build_text_item() {
    let schema = SettingSchema {
        path: "/theme".to_string(),
        name: "Theme".to_string(),
        description: None,
        setting_type: SettingType::String,
        default: Some(JsonValue::String("high-contrast".to_string())),
    };

    let config = sample_config();
    let item = build_item(&schema, &config);

    assert!(item.modified);

    if let SettingControl::Text(state) = &item.control {
        assert_eq!(state.value, "monokai");
    } else {
        panic!("Expected text control");
    }
}

#[test]
fn test_control_to_value() {
    let toggle = SettingControl::Toggle(ToggleState::new(true, "Test"));
    assert!(matches!(control_to_value(&toggle), JsonValue::Bool(true)));

    let number = SettingControl::Number(NumberInputState::new(42, "Test"));
    assert!(control_to_value(&number).same_as(&jint(42)));

    let text = SettingControl::Text(TextInputState::new("Test").with_value("hello"));
    assert!(control_to_value(&text).same_as(&JsonValue::String("hello".to_string())));
}

#[test]
fn test_defaults_and_fallbacks() {
    let config = sample_config();
    // Missing from config: default is used and the item is not modified.
    let item = build_item(&schema("/missing", "Missing", SettingType::Boolean, Some(JsonValue::Bool(true))), &config);
    assert!(!item.modified);
    assert!(matches!(&item.control, SettingControl::Toggle(t) if t.checked));
    // Wrong kind in config: default is read, but the item still counts as modified.
    let item = build_item(&schema("/theme", "Theme", SettingType::Boolean, Some(JsonValue::Bool(true))), &config);
    assert!(item.modified);
    assert!(matches!(&item.control, SettingControl::Toggle(t) if t.checked));
    // No default and nothing configured: blank values.
    let item = build_item(&schema("/nothing", "N", SettingType::Integer { minimum: None, maximum: None }, None), &config);
    assert!(!item.modified);
    assert!(matches!(&item.control, SettingControl::Number(n) if n.value == 0 && n.min.is_none() && n.max.is_none()));
    // Configured with no default: modified.
    let item = build_item(&schema("/editor/tab_size", "T", SettingType::Integer { minimum: None, maximum: None }, None), &config);
    assert!(item.modified);
    // Equal to default: not modified.
    let item = build_item(&schema("/editor/tab_size", "T", SettingType::Integer { minimum: None, maximum: None }, Some(jint(2))), &config);
    assert!(!item.modified);
}

#[test]
fn test_number_setting_in_hundredths() {
    let config = obj(vec![("scale", float(0.85)), ("speed", jint(3))]);
    let item = build_item(
        &schema("/scale", "Scale", SettingType::Number { minimum: Some(50), maximum: Some(200) }, Some(float(1.0))),
        &config,
    );
    match &item.control {
        SettingControl::Number(n) => {
            assert_eq!(n.value, 85);
            assert_eq!(n.min, Some(50));
            assert_eq!(n.max, Some(200));
        }
        _ => panic!("Expected number control"),
    }
    let item = build_item(&schema("/speed", "Speed", SettingType::Number { minimum: None, maximum: None }, None), &config);
    assert!(matches!(&item.control, SettingControl::Number(n) if n.value == 300));
}

#[test]
fn test_integer_hundredths_match_float_arithmetic() {
    let samples: Vec<i64> = vec![
        0, 1, -1, 7, -250, 12345, 90_071_992_547_409, 90_071_992_547_410, 123_456_789_012_345,
        -123_456_789_012_347, 9_007_199_254_740_993, 92_233_720_368_547_758, 92_233_720_368_547_759,
        i64::MAX, i64::MIN, -92_233_720_368_547_759,
    ];
    for v in samples {
        let expected = (v as f64 * 100.0).round() as i64;
        assert_eq!(jint(v).as_hundredths(), Some(expected), "value {}", v);
    }
    let big = JsonValue::Number(JsonNumber::PosInt(u64::MAX));
    assert_eq!(big.as_hundredths(), Some(((u64::MAX as f64) * 100.0).round() as i64));
    let odd = JsonValue::Number(JsonNumber::PosInt(18_014_398_509_481_987));
    assert_eq!(odd.as_hundredths(), Some(((18_014_398_509_481_987u64 as f64) * 100.0).round() as i64));
    assert_eq!(JsonValue::Null.as_hundredths(), None);
}

#[test]
fn test_pointer_lookup() {
    let config = obj(vec![
        ("a/b", jint(1)),
        ("list", JsonValue::Array(vec![jint(10), jint(11)])),
        ("m~n", jint(2)),
    ]);
    assert!(config.pointer("").unwrap().same_as(&config));
    assert!(config.pointer("a").is_none());
    assert!(config.pointer("/a~1b").unwrap().same_as(&jint(1)));
    assert!(config.pointer("/m~0n").unwrap().same_as(&jint(2)));
    assert!(config.pointer("/list/1").unwrap().same_as(&jint(11)));
    assert!(config.pointer("/list/01").is_none());
    assert!(config.pointer("/list/+1").is_none());
    assert!(config.pointer("/list/2").is_none());
    assert!(config.pointer("/list/x").is_none());
    assert!(config.pointer("/missing").is_none());
    assert!(config.pointer("/list/0/deeper").is_none());
}

#[test]
fn test_enum_dropdown_selection() {
    let options = || {
        vec![
            EnumOption { name: s("Dark"), value: s("dark") },
            EnumOption { name: s("Light"), value: s("light") },
        ]
    };
    let config = obj(vec![("theme", JsonValue::String(s("light")))]);
    let item = build_item(&schema("/theme", "Theme", SettingType::Enum { options: options() }, None), &config);
    match &item.control {
        SettingControl::Dropdown(d) => {
            assert_eq!(d.selected, 1);
            assert_eq!(d.options, vec![s("Dark"), s("Light")]);
            assert_eq!(d.values, vec![s("dark"), s("light")]);
            assert!(control_to_value(&item.control).same_as(&JsonValue::String(s("light"))));
        }
        _ => panic!("Expected dropdown"),
    }
    let config = obj(vec![("theme", JsonValue::String(s("solarized")))]);
    let item = build_item(&schema("/theme", "Theme", SettingType::Enum { options: options() }, None), &config);
    assert!(matches!(&item.control, SettingControl::Dropdown(d) if d.selected == 0));
    // An empty dropdown has no selected value.
    let empty = SettingControl::Dropdown(DropdownState::with_values(vec![], vec![], "E"));
    assert!(matches!(control_to_value(&empty), JsonValue::Null));
}

#[test]
fn test_string_array_items() {
    let config = obj(vec![(
        "langs",
        JsonValue::Array(vec![JsonValue::String(s("rust")), jint(3), JsonValue::String(s("go"))]),
    )]);
    let item = build_item(&schema("/langs", "Langs", SettingType::StringArray, None), &config);
    match &item.control {
        SettingControl::TextList(t) => assert_eq!(t.items, vec![s("rust"), s("go")]),
        _ => panic!("Expected text list"),
    }
    let item = build_item(
        &schema("/none", "None", SettingType::StringArray, Some(JsonValue::Array(vec![JsonValue::String(s("a"))]))),
        &config,
    );
    assert!(matches!(&item.control, SettingControl::TextList(t) if t.items == vec![s("a")]));
}

#[test]
fn test_map_control_and_value() {
    let config = obj(vec![(
        "languages",
        obj(vec![
            ("python", obj(vec![("tab", jint(4))])),
            ("rust", obj(vec![("a", jint(1)), ("b", jint(2)), ("c", jint(3)), ("d", jint(4)), ("e", jint(5)), ("f", jint(6)), ("g", jint(7))])),
        ]),
    )]);
    let value_schema = schema("", "Language", SettingType::Complex, None);
    let item = build_item(
        &schema("/languages", "Languages", SettingType::Dictionary { value_schema: Box::new(value_schema) }, None),
        &config,
    );
    let mut state = match item.control {
        SettingControl::Dictionary(m) => m,
        _ => panic!("Expected map control"),
    };
    assert_eq!(state.entries.len(), 2);
    assert_eq!(state.entries[0].0, "python");
    assert_eq!(state.entries[1].0, "rust");
    assert!(state.value_schema.is_some());
    // 1 label + 2 entries + 1 add-new
    let control = SettingControl::Dictionary(MapState::new("L").with_entries(&config.pointer("/languages").unwrap().deep_clone()));
    assert_eq!(control.control_height(), 4);
    // Expanding "rust" adds 5 fields + 1 "more" row; a stale index counts nothing.
    state.expanded = vec![1, 7];
    let control = SettingControl::Dictionary(state);
    assert_eq!(control.control_height(), 10);
    let item = item_with_control(control);
    assert_eq!(item.item_height(), 11);
    assert_eq!(
        item.focus_regions(),
        vec![
            FocusRegion { id: 0, y_offset: 0, height: 1 },
            FocusRegion { id: 1, y_offset: 1, height: 1 },
            FocusRegion { id: 2, y_offset: 2, height: 7 },
            FocusRegion { id: 3, y_offset: 9, height: 1 },
        ]
    );
    // The value goes back in key order, later duplicates winning.
    let mut m = MapState::new("M");
    m.entries = vec![(s("b"), jint(1)), (s("a"), jint(2)), (s("b"), jint(3))];
    let v = control_to_value(&SettingControl::Dictionary(m));
    assert!(v.same_as(&obj(vec![("a", jint(2)), ("b", jint(3))])));
}

#[test]
fn test_text_list_heights_and_regions() {
    let list = TextListState::new("Items").with_items(vec![s("one"), s("two")]);
    let item = item_with_control(SettingControl::TextList(list));
    assert_eq!(item.control.control_height(), 4);
    assert_eq!(item.item_height(), 5);
    assert_eq!(item.height(), 5);
    let regions = item.focus_regions();
    assert_eq!(regions.len(), 4);
    for (k, r) in regions.iter().enumerate() {
        assert_eq!(*r, FocusRegion { id: k, y_offset: k as u16, height: 1 });
    }
    let toggle = item_with_control(SettingControl::Toggle(ToggleState::new(false, "T")));
    assert_eq!(toggle.item_height(), 2);
    assert_eq!(toggle.focus_regions(), vec![FocusRegion { id: 0, y_offset: 0, height: 1 }]);
    let complex = SettingControl::Complex { kind_name: s("Object") };
    assert_eq!(complex.control_height(), 1);
    assert!(matches!(control_to_value(&complex), JsonValue::Null));
    let list = SettingControl::TextList(TextListState::new("L").with_items(vec![s("x"), s("y")]));
    let v = control_to_value(&list);
    assert!(v.same_as(&JsonValue::Array(vec![JsonValue::String(s("x")), JsonValue::String(s("y"))])));
}

#[test]
fn test_object_and_complex_settings() {
    let config = sample_config();
    let item = build_item(&schema("/editor", "Editor", SettingType::Object { properties: vec![] }, None), &config);
    assert!(matches!(&item.control, SettingControl::Complex { kind_name } if kind_name == "Object"));
    assert!(item.modified);
    let item = build_item(&schema("/x", "X", SettingType::Complex, None), &config);
    assert!(matches!(&item.control, SettingControl::Complex { kind_name } if kind_name == "Complex"));
}

#[test]
fn test_build_pages_nested() {
    let config = sample_config();
    let categories = vec![SettingCategory {
        name: s("General"),
        path: s("/"),
        description: Some(s("General settings")),
        settings: vec![schema("/check_for_updates", "Check", SettingType::Boolean, Some(JsonValue::Bool(false)))],
        subcategories: vec![SettingCategory {
            name: s("Editor"),
            path: s("/editor"),
            description: None,
            settings: vec![schema("/editor/tab_size", "Tab", SettingType::Integer { minimum: None, maximum: None }, None)],
            subcategories: vec![],
        }],
    }];
    let pages = build_pages(&categories, &config);
    assert_eq!(pages.len(), 1);
    assert_eq!(pages[0].name, "General");
    assert_eq!(pages[0].description.as_deref(), Some("General settings"));
    assert_eq!(pages[0].items.len(), 1);
    assert!(!pages[0].items[0].modified);
    assert_eq!(pages[0].subpages.len(), 1);
    assert_eq!(pages[0].subpages[0].items[0].path, "/editor/tab_size");
    assert!(matches!(&pages[0].subpages[0].items[0].control, SettingControl::Number(n) if n.value == 2));
}

#[test]
fn test_control_state_builders() {
    let d = DropdownState::with_values(vec![s("A"), s("B")], vec![s("a"), s("b")], "D").with_selected(5);
    assert_eq!(d.selected, 0);
    let d = d.with_selected(1);
    assert_eq!(d.selected_value(), Some(&s("b")));
    assert_eq!(d.focus, FocusState::Normal);
    let t = TextInputState::new("T").with_value("héllo");
    assert_eq!(t.cursor, 5);
    let n = NumberInputState::new(5, "N").with_max(9).with_min(1);
    assert_eq!((n.min, n.max, n.value), (Some(1), Some(9), 5));
}

#[test]
fn test_map_entries_round_trip() {
    let value = obj(vec![
        ("alpha", jint(1)),
        ("beta", obj(vec![("x", JsonValue::Bool(true))])),
        ("gamma", JsonValue::String(s("g"))),
    ]);
    let state = MapState::new("M").with_entries(&value);
    assert_eq!(state.entries.len(), 3);
    assert!(state.to_value().same_as(&value));
    // A value that is not an object leaves the entries as they were.
    let state = state.with_entries(&jint(3));
    assert_eq!(state.entries.len(), 3);
}

#[test]
fn test_negative_zero_is_not_modified() {
    let config = obj(vec![("opacity", float(-0.0))]);
    let item = build_item(
        &schema("/opacity", "Opacity", SettingType::Number { minimum: None, maximum: None }, Some(float(0.0))),
        &config,
    );
    assert!(!item.modified);
    assert!(float(-0.0).same_as(&float(0.0)));
    assert!(!jint(0).same_as(&float(0.0)));
    assert!(!float(0.5).same_as(&float(0.25)));
    let item = build_item(
        &schema("/opacity", "Opacity", SettingType::Number { minimum: None, maximum: None }, Some(float(0.5))),
        &config,
    );
    assert!(item.modified);
}
