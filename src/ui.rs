//! The description of the settings form that a front end renders.
use vstd::prelude::*;

verus! {

/// The input control of one setting.
#[derive(Debug, Clone)]
pub enum SettingType {
    Text,
    Number { min: Option<u64>, max: Option<u64>, suffix: Option<String> },
    Select { options: Vec<String> },
    Tags,
    Textarea { rows: u8 },
}

#[derive(Debug, Clone)]
pub struct SettingField {
    /// The configuration field this setting edits.
    pub key: String,
    pub label: String,
    pub description: Option<String>,
    pub component: SettingType,
}

#[derive(Debug, Clone)]
pub struct SettingSection {
    pub id: String,
    pub label: String,
    pub fields: Vec<SettingField>,
}

fn field(key: &str, label: &str, description: Option<&str>, component: SettingType) -> (r:
    SettingField)
    ensures
        r.key@ == key@,
        r.label@ == label@,
        match description {
            Some(d) => r.description matches Some(x) && x@ == d@,
            None => r.description is None,
        },
        r.component == component,
{
    SettingField {
        key: String::from_str(key),
        label: String::from_str(label),
        description: match description {
            Some(d) => Some(String::from_str(d)),
            None => None,
        },
        component,
    }
}

pub open spec fn field_keys(fields: Seq<SettingField>) -> Seq<Seq<char>> {
    fields.map_values(|f: SettingField| f.key@)
}

/// The settings form: "general" (theme, token limit), "generation" (output
/// file name, maximum file size, template) and "filters" (ignored names,
/// binary extensions), each field with its control.
pub fn get_app_settings_schema() -> (r: Vec<SettingSection>)
    ensures
        r@.len() == 3,
        r@[0].id@ == "general"@,
        r@[1].id@ == "generation"@,
        r@[2].id@ == "filters"@,
        field_keys(r@[0].fields@) == seq!["theme"@, "token_limit"@],
        field_keys(r@[1].fields@) == seq!["output_filename"@, "max_file_size"@, "output_template"@],
        field_keys(r@[2].fields@) == seq!["ignored_names"@, "binary_extensions"@],
        r@[0].fields@[0].component is Select,
        r@[0].fields@[1].component matches SettingType::Number { min, max, suffix } && min == Some(
            1000u64,
        ) && max is None,
        r@[1].fields@[0].component is Text,
        r@[1].fields@[1].component matches SettingType::Number { min, max, suffix } && min == Some(
            1024u64,
        ) && max is None,
        r@[1].fields@[2].component == (SettingType::Textarea { rows: 6 }),
        r@[2].fields@[0].component is Tags,
        r@[2].fields@[1].component is Tags,
{
    let general = SettingSection {
        id: String::from_str("general"),
        label: String::from_str("General"),
        fields: vec![
            field(
                "theme",
                "Interface Theme",
                Some("Choose your preferred color scheme."),
                SettingType::Select {
                    options: vec![
                        String::from_str("system"),
                        String::from_str("light"),
                        String::from_str("dark"),
                    ],
                },
            ),
            field(
                "token_limit",
                "Token Limit Warning",
                Some("Progress bar turns red when this limit is exceeded."),
                SettingType::Number {
                    min: Some(1000),
                    max: None,
                    suffix: Some(String::from_str("tokens")),
                },
            ),
        ],
    };
    let generation = SettingSection {
        id: String::from_str("generation"),
        label: String::from_str("Generation"),
        fields: vec![
            field("output_filename", "Default Output Filename", None, SettingType::Text),
            field(
                "max_file_size",
                "Max File Size",
                Some("Files larger than this will be skipped."),
                SettingType::Number {
                    min: Some(1024),
                    max: None,
                    suffix: Some(String::from_str("bytes")),
                },
            ),
            field(
                "output_template",
                "Output Template",
                Some("Variables: {{path}}, {{language}}, {{content}}"),
                SettingType::Textarea { rows: 6 },
            ),
        ],
    };
    let filters = SettingSection {
        id: String::from_str("filters"),
        label: String::from_str("Filters"),
        fields: vec![
            field(
                "ignored_names",
                "Ignored Files & Folders",
                Some("Exact match for files and folders to skip."),
                SettingType::Tags,
            ),
            field(
                "binary_extensions",
                "Binary Extensions",
                Some("Files with these extensions will be skipped."),
                SettingType::Tags,
            ),
        ],
    };
    let r = vec![general, generation, filters];
    assert(field_keys(r@[0].fields@) =~= seq!["theme"@, "token_limit"@]);
    assert(field_keys(r@[1].fields@) =~= seq!["output_filename"@, "max_file_size"@, "output_template"@]);
    assert(field_keys(r@[2].fields@) =~= seq!["ignored_names"@, "binary_extensions"@]);
    r
}

} // verus!
