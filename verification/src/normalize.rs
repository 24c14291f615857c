//! Flattening the vendor's description of a part into a `PartTable`.

use crate::error::LookupError;
use crate::json::{
    as_integer, as_text, is_plain_text, items, json_int, json_items, json_member, json_str,
    json_text, member, numeral, quoted, render,
};
use crate::table::{inserted, PartTable};
use crate::text::{
    decimal, decimal_string, is_digit, is_quote, lemma_decimal_nonempty, lemma_lead_end,
    lemma_tail_start, lemma_trim_by_fixed, same_text, strip_quotes, unquoted,
};
use serde_json::Value;
use vstd::prelude::*;

verus! {

/// The number of fields of a part that are shown under a fixed label.
pub const FIXED_FIELDS: usize = 14;

/// The fixed fields in their order: the vendor's name of each and the
/// label under which it is shown.
pub open spec fn fixed_field(i: int) -> (Seq<char>, Seq<char>) {
    if i == 0 {
        ("componentCode"@, "Component Code"@)
    } else if i == 1 {
        ("firstTypeNameEn"@, "Primary Category"@)
    } else if i == 2 {
        ("secondTypeNameEn"@, "Secondary Category"@)
    } else if i == 3 {
        ("componentBrandEn"@, "Brand"@)
    } else if i == 4 {
        ("componentName"@, "Full Name"@)
    } else if i == 5 {
        ("componentDesignator"@, "Designator"@)
    } else if i == 6 {
        ("componentModelEn"@, "Model"@)
    } else if i == 7 {
        ("componentSpecificationEn"@, "Specification"@)
    } else if i == 8 {
        ("assemblyProcess"@, "Assembly Process"@)
    } else if i == 9 {
        ("describe"@, "Description"@)
    } else if i == 10 {
        ("matchedPartDetail"@, "Details"@)
    } else if i == 11 {
        ("stockCount"@, "Stock"@)
    } else if i == 12 {
        ("leastNumber"@, "Minimal Quantity"@)
    } else {
        ("leastNumberPrice"@, "Minimum Price"@)
    }
}

/// The text under which a value is shown: a string of plain text as it
/// is, an integer as its decimal numeral, and any other value as its
/// compact JSON text without the double quotes at its ends.
pub open spec fn shown(v: Value) -> Seq<char> {
    match json_str(v) {
        Some(s) if is_plain_text(s) => s,
        _ => match json_int(v) {
            Some(n) => numeral(n as int),
            None => unquoted(json_text(v)),
        },
    }
}

/// Plain text between quotes is what is left when the quotes are cut.
pub proof fn lemma_unquoted_quoted(s: Seq<char>)
    requires
        is_plain_text(s),
    ensures
        unquoted(quoted(s)) == s,
{
    let quotes = |c: char| is_quote(c);
    let q = quoted(s);
    let n = q.len() as int;
    if s.len() == 0 {
        lemma_lead_end(q, quotes, 0, 2);
        assert(q.subrange(2, 2) =~= s);
    } else {
        assert(q[1] == s[0]);
        assert(q[n - 2] == s[s.len() - 1]);
        lemma_lead_end(q, quotes, 0, 1);
        lemma_tail_start(q, quotes, 1, n - 1, n);
        assert(q.subrange(1, n - 1) =~= s);
    }
}

/// A numeral has no quotes to cut.
pub proof fn lemma_unquoted_numeral(n: int)
    ensures
        unquoted(numeral(n)) == numeral(n),
{
    let quotes = |c: char| is_quote(c);
    let text = numeral(n);
    if n < 0 {
        lemma_decimal_nonempty((-n) as nat);
        let digits = decimal((-n) as nat);
        assert(text[text.len() - 1] == digits[digits.len() - 1]);
    } else {
        lemma_decimal_nonempty(n as nat);
    }
    assert(is_digit(text[text.len() - 1]));
    lemma_trim_by_fixed(text, quotes);
}

/// The label of the part's library type; none where the flag is missing or
/// is neither `base` nor `expand`.
pub open spec fn type_label(data: Value) -> Option<Seq<char>> {
    match json_member(data, "componentLibraryType"@) {
        Some(flag) => if json_str(flag) == Some("base"@) {
            Some("Basic"@)
        } else if json_str(flag) == Some("expand"@) {
            Some("Extended"@)
        } else {
            None
        },
        None => None,
    }
}

/// `t` with the entry `Type`, where the part has a library type.
pub open spec fn with_type(t: Seq<(Seq<char>, Seq<char>)>, data: Value) -> Seq<
    (Seq<char>, Seq<char>),
> {
    match type_label(data) {
        Some(label) => inserted(t, "Type"@, label),
        None => t,
    }
}

/// `t` with the first `n` fixed fields, each under its label where `data`
/// has it.
pub open spec fn with_fixed(t: Seq<(Seq<char>, Seq<char>)>, data: Value, n: nat) -> Seq<
    (Seq<char>, Seq<char>),
>
    decreases n,
{
    if n == 0 {
        t
    } else {
        let before = with_fixed(t, data, (n - 1) as nat);
        match json_member(data, fixed_field(n - 1).0) {
            Some(v) => inserted(before, fixed_field(n - 1).1, shown(v)),
            None => before,
        }
    }
}

/// The name and the value of one of the part's own attributes, as they
/// are shown; none where the element lacks either.
pub open spec fn attribute_of(item: Value) -> Option<(Seq<char>, Seq<char>)> {
    match (json_member(item, "attribute_name_en"@), json_member(item, "attribute_value_name"@)) {
        (Some(name), Some(value)) => Some((shown(name), shown(value))),
        _ => None,
    }
}

/// `t` with the first `n` of the part's own attributes: each element that
/// has a name and a value goes in under its name, a later one over an
/// earlier one of the same name.
pub open spec fn with_attributes(t: Seq<(Seq<char>, Seq<char>)>, list: Seq<Value>, n: nat) -> Seq<
    (Seq<char>, Seq<char>),
>
    decreases n,
{
    if n == 0 {
        t
    } else {
        let before = with_attributes(t, list, (n - 1) as nat);
        match attribute_of(list[n - 1]) {
            Some((name, value)) => inserted(before, name, value),
            None => before,
        }
    }
}

/// The key of the image at `index` of the image list.
pub open spec fn image_key(index: nat) -> Seq<char> {
    "meta_image"@ + decimal(index)
}

/// `t` with the first `n` images: each element that has an address goes in
/// under the key of its index.
pub open spec fn with_images(t: Seq<(Seq<char>, Seq<char>)>, list: Seq<Value>, n: nat) -> Seq<
    (Seq<char>, Seq<char>),
>
    decreases n,
{
    if n == 0 {
        t
    } else {
        let before = with_images(t, list, (n - 1) as nat);
        match json_member(list[n - 1], "productBigImage"@) {
            Some(url) => inserted(before, image_key((n - 1) as nat), shown(url)),
            None => before,
        }
    }
}

/// The elements of the array under `key` in `data`; none where there is no
/// such member or it is no array.
pub open spec fn list_under(data: Value, key: Seq<char>) -> Option<Seq<Value>> {
    match json_member(data, key) {
        Some(list) => json_items(list),
        None => None,
    }
}

/// `t` with the datasheet's address, where `data` has one.
pub open spec fn with_datasheet(t: Seq<(Seq<char>, Seq<char>)>, data: Value) -> Seq<
    (Seq<char>, Seq<char>),
> {
    match json_member(data, "dataManualUrl"@) {
        Some(url) => inserted(t, "meta_datasheeturl"@, shown(url)),
        None => t,
    }
}

/// The entries on show: the type, the fixed fields and the part's own
/// attributes, in that order.
pub open spec fn visible_part(data: Value) -> Seq<(Seq<char>, Seq<char>)> {
    let typed = with_type(Seq::empty(), data);
    let fixed = with_fixed(typed, data, FIXED_FIELDS as nat);
    match list_under(data, "attributes"@) {
        Some(list) => with_attributes(fixed, list, list.len()),
        None => fixed,
    }
}

/// The table of the part that `data` describes: the entries on show, then
/// the images, then the datasheet.
pub open spec fn table_of(data: Value) -> Seq<(Seq<char>, Seq<char>)> {
    let pictured = match list_under(data, "imageList"@) {
        Some(list) => with_images(visible_part(data), list, list.len()),
        None => visible_part(data),
    };
    with_datasheet(pictured, data)
}

/// Whether the vendor reports failure: the answer has a `code` that is not
/// the integer 200.
pub open spec fn reports_failure(response: Value) -> bool {
    match json_member(response, "code"@) {
        Some(code) => json_int(code) != Some(200i64),
        None => false,
    }
}

/// What the vendor's answer comes to: the table of its `data`, or
/// `NotFound` where it reports failure or has no `data`.
pub open spec fn normalized(response: Value) -> Result<Seq<(Seq<char>, Seq<char>)>, LookupError> {
    if reports_failure(response) {
        Err(LookupError::NotFound)
    } else {
        match json_member(response, "data"@) {
            Some(data) => Ok(table_of(data)),
            None => Err(LookupError::NotFound),
        }
    }
}

/// The fixed field at `i`, as `fixed_field` gives it.
fn fixed_field_at(i: usize) -> (r: (&'static str, &'static str))
    requires
        i < FIXED_FIELDS,
    ensures
        (r.0@, r.1@) == fixed_field(i as int),
{
    if i == 0 {
        ("componentCode", "Component Code")
    } else if i == 1 {
        ("firstTypeNameEn", "Primary Category")
    } else if i == 2 {
        ("secondTypeNameEn", "Secondary Category")
    } else if i == 3 {
        ("componentBrandEn", "Brand")
    } else if i == 4 {
        ("componentName", "Full Name")
    } else if i == 5 {
        ("componentDesignator", "Designator")
    } else if i == 6 {
        ("componentModelEn", "Model")
    } else if i == 7 {
        ("componentSpecificationEn", "Specification")
    } else if i == 8 {
        ("assemblyProcess", "Assembly Process")
    } else if i == 9 {
        ("describe", "Description")
    } else if i == 10 {
        ("matchedPartDetail", "Details")
    } else if i == 11 {
        ("stockCount", "Stock")
    } else if i == 12 {
        ("leastNumber", "Minimal Quantity")
    } else {
        ("leastNumberPrice", "Minimum Price")
    }
}

/// The text under which `v` is shown.
fn show(v: &Value) -> (r: String)
    ensures
        r@ == shown(*v),
{
    let text = render(v);
    proof {
        match json_str(*v) {
            Some(s) if is_plain_text(s) => {
                lemma_unquoted_quoted(s);
            },
            _ => {
                if let Some(n) = json_int(*v) {
                    lemma_unquoted_numeral(n as int);
                }
            },
        }
    }
    strip_quotes(text.as_str())
}

/// The array under `key` in `data`.
fn list_at<'a>(data: &'a Value, key: &str) -> (r: Option<&'a Vec<Value>>)
    ensures
        match r {
            Some(list) => list_under(*data, key@) == Some(list@),
            None => list_under(*data, key@) is None,
        },
{
    match member(data, key) {
        Some(list) => items(list),
        None => None,
    }
}

/// Puts the entry `Type` into `table`.
fn put_type(table: &mut PartTable, data: &Value)
    ensures
        final(table)@ == with_type(old(table)@, *data),
{
    if let Some(flag) = member(data, "componentLibraryType") {
        if let Some(kind) = as_text(flag) {
            if same_text(kind, "base") {
                table.insert(String::from_str("Type"), String::from_str("Basic"));
            } else if same_text(kind, "expand") {
                table.insert(String::from_str("Type"), String::from_str("Extended"));
            }
        }
    }
}

/// Puts the fixed fields into `table`.
fn put_fixed(table: &mut PartTable, data: &Value)
    ensures
        final(table)@ == with_fixed(old(table)@, *data, FIXED_FIELDS as nat),
{
    let mut i: usize = 0;
    while i < FIXED_FIELDS
        invariant
            i <= FIXED_FIELDS,
            table@ == with_fixed(old(table)@, *data, i as nat),
        decreases FIXED_FIELDS - i,
    {
        let (field, label) = fixed_field_at(i);
        if let Some(v) = member(data, field) {
            table.insert(String::from_str(label), show(v));
        }
        i += 1;
    }
}

/// Puts the part's own attributes into `table`.
fn put_attributes(table: &mut PartTable, list: &Vec<Value>)
    ensures
        final(table)@ == with_attributes(old(table)@, list@, list@.len()),
{
    let n: usize = list.len();
    let mut i: usize = 0;
    while i < n
        invariant
            i <= n,
            n == list@.len(),
            table@ == with_attributes(old(table)@, list@, i as nat),
        decreases n - i,
    {
        if let Some(name) = member(&list[i], "attribute_name_en") {
            if let Some(value) = member(&list[i], "attribute_value_name") {
                table.insert(show(name), show(value));
            }
        }
        i += 1;
    }
}

/// Puts the images into `table`.
fn put_images(table: &mut PartTable, list: &Vec<Value>)
    ensures
        final(table)@ == with_images(old(table)@, list@, list@.len()),
{
    let n: usize = list.len();
    let mut i: usize = 0;
    while i < n
        invariant
            i <= n,
            n == list@.len(),
            table@ == with_images(old(table)@, list@, i as nat),
        decreases n - i,
    {
        if let Some(url) = member(&list[i], "productBigImage") {
            let mut key = String::from_str("meta_image");
            let index = decimal_string(i);
            key.append(index.as_str());
            table.insert(key, show(url));
        }
        i += 1;
    }
}

/// Puts the datasheet into `table`.
fn put_datasheet(table: &mut PartTable, data: &Value)
    ensures
        final(table)@ == with_datasheet(old(table)@, *data),
{
    if let Some(url) = member(data, "dataManualUrl") {
        table.insert(String::from_str("meta_datasheeturl"), show(url));
    }
}

/// Builds the table of the part that `data` describes.
pub fn describe(data: &Value) -> (table: PartTable)
    ensures
        table@ == table_of(*data),
{
    let mut table = PartTable::new();
    put_type(&mut table, data);
    put_fixed(&mut table, data);
    if let Some(list) = list_at(data, "attributes") {
        put_attributes(&mut table, list);
    }
    if let Some(list) = list_at(data, "imageList") {
        put_images(&mut table, list);
    }
    put_datasheet(&mut table, data);
    table
}

/// Turns the vendor's answer into the table of the part.
///
/// An answer whose `code` is there and is not 200 gives `NotFound`,
/// whatever else it holds, and so does one without `data`. Any other
/// answer gives the whole table of its `data`.
pub fn normalize(response: &Value) -> (r: Result<PartTable, LookupError>)
    ensures
        match r {
            Ok(table) => normalized(*response) == Ok::<Seq<(Seq<char>, Seq<char>)>, LookupError>(
                table@,
            ),
            Err(e) => normalized(*response) == Err::<Seq<(Seq<char>, Seq<char>)>, LookupError>(e),
        },
{
    if let Some(code) = member(response, "code") {
        match as_integer(code) {
            Some(n) => {
                if n != 200 {
                    return Err(LookupError::NotFound);
                }
            },
            None => {
                return Err(LookupError::NotFound);
            },
        }
    }
    match member(response, "data") {
        Some(data) => Ok(describe(data)),
        None => Err(LookupError::NotFound),
    }
}

} // verus!
