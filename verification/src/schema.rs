//! The remote service's loosely-typed record schema: a page carries named
//! properties, each a tagged variant per remote property type, with an
//! explicit catch-all so forward schema changes do not break translation.

use vstd::prelude::*;

verus! {

/// One run of rich text inside a property.
#[derive(Clone, Debug)]
pub struct RichText {
    pub plain_text: String,
}

/// A named option of a select, multi-select or status property.
#[derive(Clone, Debug)]
pub struct SelectOption {
    pub name: String,
}

/// A date property's value: a start date, optionally an end date.
#[derive(Clone, Debug)]
pub struct DateValue {
    pub start: String,
    pub end: Option<String>,
}

/// A reference to another remote record.
#[derive(Clone, Debug)]
pub struct Relation {
    pub id: String,
}

/// A remote property value. `Number` carries no payload: the core reads no
/// numeric property and holds no floating point, so its value is dropped at
/// the boundary. `Unknown` absorbs any property type this schema does not
/// know, which translation ignores.
#[derive(Clone, Debug)]
pub enum Property {
    Title { title: Vec<RichText> },
    RichText { rich_text: Vec<RichText> },
    Number,
    Select { select: Option<SelectOption> },
    MultiSelect { multi_select: Vec<SelectOption> },
    Date { date: Option<DateValue> },
    Checkbox { checkbox: bool },
    Relation { relation: Vec<Relation> },
    Url { url: Option<String> },
    LastEditedTime { last_edited_time: String },
    Status { status: Option<SelectOption> },
    Unknown,
}

/// One remote page: the stable id, the properties by name, and the page's
/// own bookkeeping fields.
#[derive(Clone, Debug)]
pub struct Page {
    pub id: String,
    pub properties: Vec<(String, Property)>,
    pub created_time: String,
    pub last_edited_time: String,
    pub archived: bool,
}

} // verus!
