//! The form-field model: a field definition tagged by kind, and the
//! typed value a field currently holds. A float-kind field keeps its
//! value as entered text; parsing it is the submitting caller's
//! concern, so the cache core never holds a floating-point value.

use vstd::prelude::*;
use vstd::string::*;

verus! {

/// The kind of a form field.
#[derive(Debug, Clone, Copy, PartialEq, Eq, Structural)]
pub enum FieldType {
    /// Single-line text input.
    Text,
    /// Multi-line text input.
    TextArea,
    /// Select from a list.
    Dropdown,
    /// Dropdown with search, for long lists such as assignees.
    SearchableDropdown,
    /// Date input, YYYY-MM-DD.
    Date,
    /// Integer input.
    Number,
    /// Decimal input; the value is kept as its text.
    Float,
    /// Boolean toggle.
    Checkbox,
    /// Percentage from 0 to 100.
    Progress,
}

/// A single option of a dropdown field.
#[derive(Debug, Clone)]
pub struct FieldOption {
    pub id: u64,
    pub name: String,
}

/// Mathematical value of a [`FieldOption`].
#[verifier::ext_equal]
pub struct FieldOptionView {
    pub id: u64,
    pub name: Seq<char>,
}

impl View for FieldOption {
    type V = FieldOptionView;

    open spec fn view(&self) -> FieldOptionView {
        FieldOptionView { id: self.id, name: self.name@ }
    }
}

/// The value a field currently holds.
#[derive(Debug, Clone)]
pub enum FieldValue {
    Text(String),
    Number(Option<u32>),
    Boolean(bool),
    /// A dropdown selection, by id.
    OptionId(Option<u64>),
}

/// Mathematical value of a [`FieldValue`].
#[verifier::ext_equal]
pub enum FieldValueView {
    Text(Seq<char>),
    Number(Option<u32>),
    Boolean(bool),
    OptionId(Option<u64>),
}

impl View for FieldValue {
    type V = FieldValueView;

    open spec fn view(&self) -> FieldValueView {
        match self {
            FieldValue::Text(s) => FieldValueView::Text(s@),
            FieldValue::Number(n) => FieldValueView::Number(*n),
            FieldValue::Boolean(b) => FieldValueView::Boolean(*b),
            FieldValue::OptionId(i) => FieldValueView::OptionId(*i),
        }
    }
}

impl FieldValue {
    /// The text, for a text-carrying value.
    pub fn as_text(&self) -> (r: Option<&str>)
        ensures
            match self@ {
                FieldValueView::Text(s) => r matches Some(t) && t@ == s,
                _ => r is None,
            },
    {
        match self {
            FieldValue::Text(s) => Some(s.as_str()),
            _ => None,
        }
    }

    /// The number, for a number value.
    pub fn as_number(&self) -> (r: Option<u32>)
        ensures
            r == (match self@ {
                FieldValueView::Number(n) => n,
                _ => None,
            }),
    {
        match self {
            FieldValue::Number(n) => *n,
            _ => None,
        }
    }

    /// The flag, for a boolean value; anything else reads as false.
    pub fn as_bool(&self) -> (r: bool)
        ensures
            r == (match self@ {
                FieldValueView::Boolean(b) => b,
                _ => false,
            }),
    {
        match self {
            FieldValue::Boolean(b) => *b,
            _ => false,
        }
    }

    /// The selected id, for a dropdown value.
    pub fn as_option_id(&self) -> (r: Option<u64>)
        ensures
            r == (match self@ {
                FieldValueView::OptionId(i) => i,
                _ => None,
            }),
    {
        match self {
            FieldValue::OptionId(i) => *i,
            _ => None,
        }
    }
}

/// Copy of a [`FieldValue`], equal in value.
pub fn copy_field_value(v: &FieldValue) -> (r: FieldValue)
    ensures
        r@ == v@,
{
    match v {
        FieldValue::Text(s) => FieldValue::Text(s.clone()),
        FieldValue::Number(n) => FieldValue::Number(*n),
        FieldValue::Boolean(b) => FieldValue::Boolean(*b),
        FieldValue::OptionId(i) => FieldValue::OptionId(*i),
    }
}

/// A form field definition.
#[derive(Debug, Clone)]
pub struct FormField {
    /// Field identifier, e.g. "subject" or "tracker_id".
    pub key: String,
    /// Display label.
    pub label: String,
    pub field_type: FieldType,
    pub required: bool,
    /// The choices, for dropdown fields.
    pub options: Vec<FieldOption>,
    pub default_value: Option<FieldValue>,
    pub help_text: Option<String>,
}

/// Mathematical value of a [`FormField`].
#[verifier::ext_equal]
pub struct FormFieldView {
    pub key: Seq<char>,
    pub label: Seq<char>,
    pub field_type: FieldType,
    pub required: bool,
    pub options: Seq<FieldOptionView>,
    pub default_value: Option<FieldValueView>,
    pub help_text: Option<Seq<char>>,
}

impl View for FormField {
    type V = FormFieldView;

    open spec fn view(&self) -> FormFieldView {
        FormFieldView {
            key: self.key@,
            label: self.label@,
            field_type: self.field_type,
            required: self.required,
            options: self.options@.map_values(|o: FieldOption| o@),
            default_value: match self.default_value {
                Some(v) => Some(v@),
                None => None,
            },
            help_text: match self.help_text {
                Some(h) => Some(h@),
                None => None,
            },
        }
    }
}

/// View of an option list.
pub open spec fn options_view(s: Seq<FieldOption>) -> Seq<FieldOptionView> {
    s.map_values(|o: FieldOption| o@)
}

impl FormField {
    /// A single-line text field, defaulting to empty text.
    pub fn new_text(key: &str, label: &str, required: bool) -> (r: FormField)
        ensures
            r@ == (FormFieldView {
                key: key@,
                label: label@,
                field_type: FieldType::Text,
                required,
                options: Seq::empty(),
                default_value: Some(FieldValueView::Text(Seq::empty())),
                help_text: None,
            }),
    {
        let r = FormField {
            key: String::from_str(key),
            label: String::from_str(label),
            field_type: FieldType::Text,
            required,
            options: Vec::new(),
            default_value: Some(FieldValue::Text(String::new())),
            help_text: None,
        };
        proof {
            assert(r@ =~= (FormFieldView {
                key: key@,
                label: label@,
                field_type: FieldType::Text,
                required,
                options: Seq::empty(),
                default_value: Some(FieldValueView::Text(Seq::empty())),
                help_text: None,
            }));
        }
        r
    }

    /// A multi-line text field, defaulting to empty text.
    pub fn new_textarea(key: &str, label: &str, required: bool) -> (r: FormField)
        ensures
            r@ == (FormFieldView {
                key: key@,
                label: label@,
                field_type: FieldType::TextArea,
                required,
                options: Seq::empty(),
                default_value: Some(FieldValueView::Text(Seq::empty())),
                help_text: None,
            }),
    {
        let r = FormField {
            key: String::from_str(key),
            label: String::from_str(label),
            field_type: FieldType::TextArea,
            required,
            options: Vec::new(),
            default_value: Some(FieldValue::Text(String::new())),
            help_text: None,
        };
        proof {
            assert(r@ =~= (FormFieldView {
                key: key@,
                label: label@,
                field_type: FieldType::TextArea,
                required,
                options: Seq::empty(),
                default_value: Some(FieldValueView::Text(Seq::empty())),
                help_text: None,
            }));
        }
        r
    }

    /// A dropdown over the given options, defaulting to no selection.
    pub fn new_dropdown(key: &str, label: &str, options: Vec<FieldOption>, required: bool) -> (r:
        FormField)
        ensures
            r@ == (FormFieldView {
                key: key@,
                label: label@,
                field_type: FieldType::Dropdown,
                required,
                options: options_view(options@),
                default_value: Some(FieldValueView::OptionId(None)),
                help_text: None,
            }),
    {
        let r = FormField {
            key: String::from_str(key),
            label: String::from_str(label),
            field_type: FieldType::Dropdown,
            required,
            options,
            default_value: Some(FieldValue::OptionId(None)),
            help_text: None,
        };
        proof {
            assert(r@ =~= (FormFieldView {
                key: key@,
                label: label@,
                field_type: FieldType::Dropdown,
                required,
                options: options_view(r.options@),
                default_value: Some(FieldValueView::OptionId(None)),
                help_text: None,
            }));
        }
        r
    }

    /// A searchable dropdown over the given options.
    pub fn new_searchable_dropdown(
        key: &str,
        label: &str,
        options: Vec<FieldOption>,
        required: bool,
    ) -> (r: FormField)
        ensures
            r@ == (FormFieldView {
                key: key@,
                label: label@,
                field_type: FieldType::SearchableDropdown,
                required,
                options: options_view(options@),
                default_value: Some(FieldValueView::OptionId(None)),
                help_text: None,
            }),
    {
        let r = FormField {
            key: String::from_str(key),
            label: String::from_str(label),
            field_type: FieldType::SearchableDropdown,
            required,
            options,
            default_value: Some(FieldValue::OptionId(None)),
            help_text: None,
        };
        proof {
            assert(r@ =~= (FormFieldView {
                key: key@,
                label: label@,
                field_type: FieldType::SearchableDropdown,
                required,
                options: options_view(r.options@),
                default_value: Some(FieldValueView::OptionId(None)),
                help_text: None,
            }));
        }
        r
    }

    /// A date field with its format hint.
    pub fn new_date(key: &str, label: &str, required: bool) -> (r: FormField)
        ensures
            r@ == (FormFieldView {
                key: key@,
                label: label@,
                field_type: FieldType::Date,
                required,
                options: Seq::empty(),
                default_value: Some(FieldValueView::Text(Seq::empty())),
                help_text: Some("Format: YYYY-MM-DD"@),
            }),
    {
        let r = FormField {
            key: String::from_str(key),
            label: String::from_str(label),
            field_type: FieldType::Date,
            required,
            options: Vec::new(),
            default_value: Some(FieldValue::Text(String::new())),
            help_text: Some(String::from_str("Format: YYYY-MM-DD")),
        };
        proof {
            assert(r@ =~= (FormFieldView {
                key: key@,
                label: label@,
                field_type: FieldType::Date,
                required,
                options: Seq::empty(),
                default_value: Some(FieldValueView::Text(Seq::empty())),
                help_text: Some("Format: YYYY-MM-DD"@),
            }));
        }
        r
    }

    /// An integer field, defaulting to no value.
    pub fn new_number(key: &str, label: &str, required: bool) -> (r: FormField)
        ensures
            r@ == (FormFieldView {
                key: key@,
                label: label@,
                field_type: FieldType::Number,
                required,
                options: Seq::empty(),
                default_value: Some(FieldValueView::Number(None)),
                help_text: None,
            }),
    {
        let r = FormField {
            key: String::from_str(key),
            label: String::from_str(label),
            field_type: FieldType::Number,
            required,
            options: Vec::new(),
            default_value: Some(FieldValue::Number(None)),
            help_text: None,
        };
        proof {
            assert(r@ =~= (FormFieldView {
                key: key@,
                label: label@,
                field_type: FieldType::Number,
                required,
                options: Seq::empty(),
                default_value: Some(FieldValueView::Number(None)),
                help_text: None,
            }));
        }
        r
    }

    /// A decimal field; its value lives as text until submission.
    pub fn new_float(key: &str, label: &str, required: bool) -> (r: FormField)
        ensures
            r@ == (FormFieldView {
                key: key@,
                label: label@,
                field_type: FieldType::Float,
                required,
                options: Seq::empty(),
                default_value: Some(FieldValueView::Text(Seq::empty())),
                help_text: None,
            }),
    {
        let r = FormField {
            key: String::from_str(key),
            label: String::from_str(label),
            field_type: FieldType::Float,
            required,
            options: Vec::new(),
            default_value: Some(FieldValue::Text(String::new())),
            help_text: None,
        };
        proof {
            assert(r@ =~= (FormFieldView {
                key: key@,
                label: label@,
                field_type: FieldType::Float,
                required,
                options: Seq::empty(),
                default_value: Some(FieldValueView::Text(Seq::empty())),
                help_text: None,
            }));
        }
        r
    }

    /// A checkbox, defaulting to unchecked; never required.
    pub fn new_checkbox(key: &str, label: &str) -> (r: FormField)
        ensures
            r@ == (FormFieldView {
                key: key@,
                label: label@,
                field_type: FieldType::Checkbox,
                required: false,
                options: Seq::empty(),
                default_value: Some(FieldValueView::Boolean(false)),
                help_text: None,
            }),
    {
        let r = FormField {
            key: String::from_str(key),
            label: String::from_str(label),
            field_type: FieldType::Checkbox,
            required: false,
            options: Vec::new(),
            default_value: Some(FieldValue::Boolean(false)),
            help_text: None,
        };
        proof {
            assert(r@ =~= (FormFieldView {
                key: key@,
                label: label@,
                field_type: FieldType::Checkbox,
                required: false,
                options: Seq::empty(),
                default_value: Some(FieldValueView::Boolean(false)),
                help_text: None,
            }));
        }
        r
    }

    /// A progress field from 0 to 100, defaulting to 0; never required.
    pub fn new_progress(key: &str, label: &str) -> (r: FormField)
        ensures
            r@ == (FormFieldView {
                key: key@,
                label: label@,
                field_type: FieldType::Progress,
                required: false,
                options: Seq::empty(),
                default_value: Some(FieldValueView::Number(Some(0u32))),
                help_text: Some("0-100%"@),
            }),
    {
        let r = FormField {
            key: String::from_str(key),
            label: String::from_str(label),
            field_type: FieldType::Progress,
            required: false,
            options: Vec::new(),
            default_value: Some(FieldValue::Number(Some(0))),
            help_text: Some(String::from_str("0-100%")),
        };
        proof {
            assert(r@ =~= (FormFieldView {
                key: key@,
                label: label@,
                field_type: FieldType::Progress,
                required: false,
                options: Seq::empty(),
                default_value: Some(FieldValueView::Number(Some(0u32))),
                help_text: Some("0-100%"@),
            }));
        }
        r
    }

    /// This field with a help line attached.
    pub fn with_help_text(self, help: &str) -> (r: FormField)
        ensures
            r@ == (FormFieldView { help_text: Some(help@), ..self@ }),
    {
        let mut r = self;
        r.help_text = Some(String::from_str(help));
        proof {
            assert(r@ =~= (FormFieldView { help_text: Some(help@), ..self@ }));
        }
        r
    }

    /// This field with another default value.
    pub fn with_default(self, value: FieldValue) -> (r: FormField)
        ensures
            r@ == (FormFieldView { default_value: Some(value@), ..self@ }),
    {
        let ghost v = value@;
        let mut r = self;
        r.default_value = Some(value);
        proof {
            assert(r@ =~= (FormFieldView { default_value: Some(v), ..self@ }));
        }
        r
    }
}

} // verus!
