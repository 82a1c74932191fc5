//! The parse result: an ordered record of fields.

use vstd::prelude::*;

use crate::model::SpecField;
use crate::model::SpecWiki;

verus! {

/// One parsed field: a single key/value pair, or a key with an ordered list
/// of (sub-key, sub-value) items.  Duplicate keys are legal and kept.
#[derive(Debug, PartialEq, Eq)]
pub enum WikiField {
    Single((String, String)),
    Multiple((String, Vec<(String, String)>)),
}

/// A parsed infobox block: its declared type and its fields, in source order.
#[derive(Debug, PartialEq, Eq)]
pub struct Wiki {
    pub wiki_type: String,
    pub wiki_fields: Vec<WikiField>,
}

/// The models of a sequence of item pairs.
pub open spec fn item_views(items: Seq<(String, String)>) -> Seq<(Seq<char>, Seq<char>)> {
    items.map_values(|p: (String, String)| (p.0@, p.1@))
}

/// The models of a sequence of fields.
pub open spec fn field_views(fields: Seq<WikiField>) -> Seq<SpecField> {
    fields.map_values(|f: WikiField| f@)
}

impl View for WikiField {
    type V = SpecField;

    open spec fn view(&self) -> SpecField {
        match self {
            WikiField::Single(kv) => SpecField::Scalar { key: kv.0@, value: kv.1@ },
            WikiField::Multiple(ki) => SpecField::List { key: ki.0@, items: item_views(ki.1@) },
        }
    }
}

impl View for Wiki {
    type V = SpecWiki;

    open spec fn view(&self) -> SpecWiki {
        SpecWiki { type_token: self.wiki_type@, fields: field_views(self.wiki_fields@) }
    }
}

} // verus!
