//! HTML attributes.
use crate::attr::{attribute, property, Attribute, Property};
use crate::types::{self, AttributeView, PropertyView};
use vstd::prelude::*;

verus! {

/// The `autofocus` attribute.
pub fn autofocus(enabled: bool) -> (r: Attribute)
    ensures
        r.name@ == "autofocus"@,
        r.value@ == AttributeView::Bool(enabled),
{
    attribute("autofocus".to_owned(), types::Attribute::Bool(enabled))
}

/// The `href` attribute.
pub fn href(url_value: String) -> (r: Attribute)
    ensures
        r.name@ == "href"@,
        r.value@ == AttributeView::String(url_value@),
{
    attribute("href".to_owned(), types::Attribute::String(url_value))
}

/// The `id` attribute.
pub fn id(id_value: String) -> (r: Attribute)
    ensures
        r.name@ == "id"@,
        r.value@ == AttributeView::String(id_value@),
{
    attribute("id".to_owned(), types::Attribute::String(id_value))
}

/// The `for` attribute.
pub fn label_for(target_id_value: String) -> (r: Attribute)
    ensures
        r.name@ == "for"@,
        r.value@ == AttributeView::String(target_id_value@),
{
    attribute("for".to_owned(), types::Attribute::String(target_id_value))
}

/// The `name` attribute.
pub fn name(name_value: String) -> (r: Attribute)
    ensures
        r.name@ == "name"@,
        r.value@ == AttributeView::String(name_value@),
{
    attribute("name".to_owned(), types::Attribute::String(name_value))
}

/// The `placeholder` attribute.
pub fn placeholder(placeholder_value: String) -> (r: Attribute)
    ensures
        r.name@ == "placeholder"@,
        r.value@ == AttributeView::String(placeholder_value@),
{
    attribute("placeholder".to_owned(), types::Attribute::String(placeholder_value))
}

/// The `checked` property.
pub fn checked(is_checked: bool) -> (r: Property)
    ensures
        r.name@ == "checked"@,
        r.value@ == PropertyView::Bool(is_checked),
{
    property("checked".to_owned(), types::Property::Bool(is_checked))
}

/// The `value` property.
pub fn value(val: types::Property) -> (r: Property)
    ensures
        r.name@ == "value"@,
        r.value == val,
{
    property("value".to_owned(), val)
}

} // verus!
