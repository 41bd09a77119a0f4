//! Schema of the editor settings: what each setting is and where it lives in
//! the configuration.

use vstd::prelude::*;
use crate::json::{JsonModel, JsonValue};

verus! {

/// One choice of an enumerated setting.
#[derive(Debug)]
pub struct EnumOption {
    /// Display name.
    pub name: String,
    /// Value stored in the configuration.
    pub value: String,
}

/// The kind of value a setting holds.
#[derive(Debug)]
pub enum SettingType {
    Boolean,
    Integer { minimum: Option<i64>, maximum: Option<i64> },
    /// A floating-point setting, edited as an integer number of hundredths.
    /// The bounds are the schema's bounds times 100, truncated toward zero.
    Number { minimum: Option<i64>, maximum: Option<i64> },
    String,
    Enum { options: Vec<EnumOption> },
    StringArray,
    Object { properties: Vec<SettingSchema> },
    Dictionary { value_schema: Box<SettingSchema> },
    Complex,
}

/// A single setting.
#[derive(Debug)]
pub struct SettingSchema {
    /// JSON Pointer of the setting in the configuration.
    pub path: String,
    /// Display name.
    pub name: String,
    pub description: Option<String>,
    pub setting_type: SettingType,
    pub default: Option<JsonValue>,
}

/// A category of settings, with nested categories.
#[derive(Debug)]
pub struct SettingCategory {
    pub name: String,
    pub path: String,
    pub description: Option<String>,
    pub settings: Vec<SettingSchema>,
    pub subcategories: Vec<SettingCategory>,
}

/// Mathematical model of a setting type.
pub enum SettingTypeModel {
    Boolean,
    Integer { minimum: Option<i64>, maximum: Option<i64> },
    Number { minimum: Option<i64>, maximum: Option<i64> },
    String,
    Enum { options: Seq<(Seq<char>, Seq<char>)> },
    StringArray,
    Object { properties: Seq<SchemaModel> },
    Dictionary { value_schema: Box<SchemaModel> },
    Complex,
}

/// Mathematical model of a setting.
pub struct SchemaModel {
    pub path: Seq<char>,
    pub name: Seq<char>,
    pub description: Option<Seq<char>>,
    pub setting_type: SettingTypeModel,
    pub default: Option<JsonModel>,
}

pub open spec fn opt_str_model(s: Option<String>) -> Option<Seq<char>> {
    match s {
        Some(x) => Some(x@),
        None => None,
    }
}

pub open spec fn opt_json_model(v: Option<JsonValue>) -> Option<JsonModel> {
    match v {
        Some(x) => Some(x@),
        None => None,
    }
}

pub open spec fn placeholder_schema_model() -> SchemaModel {
    SchemaModel {
        path: Seq::empty(),
        name: Seq::empty(),
        description: None,
        setting_type: SettingTypeModel::Complex,
        default: None,
    }
}

pub open spec fn schema_model(s: SettingSchema) -> SchemaModel
    decreases s,
{
    proof {
        assert(decreases_to!(s => s.setting_type));
    }
    SchemaModel {
        path: s.path@,
        name: s.name@,
        description: opt_str_model(s.description),
        setting_type: setting_type_model(s.setting_type),
        default: opt_json_model(s.default),
    }
}

pub open spec fn setting_type_model(t: SettingType) -> SettingTypeModel
    decreases t,
{
    match t {
        SettingType::Boolean => SettingTypeModel::Boolean,
        SettingType::Integer { minimum, maximum } => SettingTypeModel::Integer { minimum, maximum },
        SettingType::Number { minimum, maximum } => SettingTypeModel::Number { minimum, maximum },
        SettingType::String => SettingTypeModel::String,
        SettingType::Enum { options } => SettingTypeModel::Enum {
            options: Seq::new(options@.len(), |i: int| (options@[i].name@, options@[i].value@)),
        },
        SettingType::StringArray => SettingTypeModel::StringArray,
        SettingType::Object { properties } => {
            proof {
                assert forall|i: int|
                    0 <= i < properties@.len() implies decreases_to!(t => properties@[i]) by {
                    assert(decreases_to!(t => properties));
                    assert(decreases_to!(properties => properties@));
                    assert(decreases_to!(properties@ => properties@[i]));
                }
            }
            SettingTypeModel::Object {
                properties: Seq::new(
                    properties@.len(),
                    |i: int|
                        if 0 <= i < properties@.len() {
                            schema_model(properties@[i])
                        } else {
                            placeholder_schema_model()
                        },
                ),
            }
        },
        SettingType::Dictionary { value_schema } => {
            proof {
                assert(decreases_to!(t => value_schema));
            }
            SettingTypeModel::Dictionary { value_schema: Box::new(schema_model(*value_schema)) }
        },
        SettingType::Complex => SettingTypeModel::Complex,
    }
}

impl View for SettingSchema {
    type V = SchemaModel;

    open spec fn view(&self) -> SchemaModel {
        schema_model(*self)
    }
}

pub fn clone_opt_string(s: &Option<String>) -> (r: Option<String>)
    ensures
        opt_str_model(r) == opt_str_model(*s),
{
    match s {
        Some(x) => Some(x.clone()),
        None => None,
    }
}

pub fn clone_opt_json(v: &Option<JsonValue>) -> (r: Option<JsonValue>)
    ensures
        opt_json_model(r) == opt_json_model(*v),
{
    match v {
        Some(x) => Some(x.deep_clone()),
        None => None,
    }
}

impl SettingType {
    /// A copy of the setting type.
    #[verifier::loop_isolation(false)]
    pub fn deep_clone(&self) -> (r: SettingType)
        ensures
            setting_type_model(r) == setting_type_model(*self),
        decreases self,
    {
        match self {
            SettingType::Boolean => SettingType::Boolean,
            SettingType::Integer { minimum, maximum } => SettingType::Integer {
                minimum: *minimum,
                maximum: *maximum,
            },
            SettingType::Number { minimum, maximum } => SettingType::Number {
                minimum: *minimum,
                maximum: *maximum,
            },
            SettingType::String => SettingType::String,
            SettingType::Enum { options } => {
                let mut out: Vec<EnumOption> = Vec::new();
                let mut i: usize = 0;
                while i < options.len()
                    invariant
                        i <= options@.len(),
                        out@.len() == i,
                        forall|k: int|
                            0 <= k < i ==> (#[trigger] out@[k]).name@ == options@[k].name@
                                && out@[k].value@ == options@[k].value@,
                    decreases options@.len() - i,
                {
                    out.push(
                        EnumOption { name: options[i].name.clone(), value: options[i].value.clone() },
                    );
                    i += 1;
                }
                let r = SettingType::Enum { options: out };
                proof {
                    assert(Seq::new(out@.len(), |i: int| (out@[i].name@, out@[i].value@)) =~= Seq::new(
                        options@.len(),
                        |i: int| (options@[i].name@, options@[i].value@),
                    ));
                    assert(setting_type_model(r) == setting_type_model(*self));
                }
                r
            },
            SettingType::StringArray => SettingType::StringArray,
            SettingType::Object { properties } => {
                let mut out: Vec<SettingSchema> = Vec::new();
                let mut i: usize = 0;
                while i < properties.len()
                    invariant
                        i <= properties@.len(),
                        out@.len() == i,
                        forall|k: int| 0 <= k < i ==> (#[trigger] out@[k])@ == properties@[k]@,
                    decreases properties@.len() - i,
                {
                    proof {
                        assert(decreases_to!(*self => *properties));
                        assert(decreases_to!(*properties => properties@));
                        assert(decreases_to!(properties@ => properties@[i as int]));
                    }
                    out.push(properties[i].deep_clone());
                    i += 1;
                }
                let r = SettingType::Object { properties: out };
                proof {
                    assert(setting_type_model(r)->Object_properties =~= setting_type_model(
                        *self,
                    )->Object_properties);
                    assert(setting_type_model(r) == setting_type_model(*self));
                }
                r
            },
            SettingType::Dictionary { value_schema } => {
                proof {
                    assert(decreases_to!(*self => *value_schema));
                }
                let c = value_schema.deep_clone();
                let r = SettingType::Dictionary { value_schema: Box::new(c) };
                proof {
                    assert(setting_type_model(r) == setting_type_model(*self));
                }
                r
            },
            SettingType::Complex => SettingType::Complex,
        }
    }
}

impl SettingSchema {
    /// A copy of the setting.
    pub fn deep_clone(&self) -> (r: SettingSchema)
        ensures
            r@ == self@,
        decreases self,
    {
        proof {
            assert(decreases_to!(*self => self.setting_type));
        }
        SettingSchema {
            path: self.path.clone(),
            name: self.name.clone(),
            description: clone_opt_string(&self.description),
            setting_type: self.setting_type.deep_clone(),
            default: clone_opt_json(&self.default),
        }
    }
}

} // verus!
