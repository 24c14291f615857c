//! What holds of every table that is built from a vendor's description:
//! labels stand once, a later attribute replaces an earlier one of its
//! name, and the entries on show come before the images and the datasheet.

use crate::error::LookupError;
use crate::json::{json_int, json_member};
use crate::lookup::{concluded, HttpReply};
use crate::normalize::{
    attribute_of, fixed_field, image_key, list_under, normalized, shown, table_of, type_label,
    visible_part, with_attributes, with_datasheet, with_fixed, with_images, with_type, FIXED_FIELDS,
};
use crate::table::{
    distinct_keys, image_addresses, inserted, is_image_key, is_meta_key, lemma_inserted_behind, lemma_inserted_distinct,
    lemma_inserted_new, lemma_inserted_no_meta, lemma_inserted_other, lemma_inserted_value,
    lemma_find_key_stops, no_meta_keys, value_of, visible_entries,
};
use crate::text::{decimal, lemma_decimal_injective};
use serde_json::Value;
use vstd::prelude::*;

verus! {

/// Every key of `t` starts with `meta_image`.
pub open spec fn only_image_keys(t: Seq<(Seq<char>, Seq<char>)>) -> bool {
    forall|i: int| 0 <= i < t.len() ==> is_image_key((#[trigger] t[i]).0)
}

/// None of the names of the part's own attributes starts with `meta_`.
pub open spec fn plain_names(list: Seq<Value>) -> bool {
    forall|k: int|
        0 <= k < list.len() ==> match attribute_of(#[trigger] list[k]) {
            Some(a) => !is_meta_key(a.0),
            None => true,
        }
}

/// `data` has no attribute whose name starts with `meta_`.
pub open spec fn plain_attributes(data: Value) -> bool {
    match list_under(data, "attributes"@) {
        Some(list) => plain_names(list),
        None => true,
    }
}

/// The entries of the images of `data`.
pub open spec fn image_part(data: Value) -> Seq<(Seq<char>, Seq<char>)> {
    match list_under(data, "imageList"@) {
        Some(list) => with_images(Seq::empty(), list, list.len()),
        None => Seq::empty(),
    }
}

/// The entry of the datasheet of `data`, if it has one.
pub open spec fn datasheet_part(data: Value) -> Seq<(Seq<char>, Seq<char>)> {
    with_datasheet(Seq::empty(), data)
}

/// The address of the image in the element `item` of an image list.
pub open spec fn image_address(item: Value) -> Seq<char> {
    shown(json_member(item, "productBigImage"@).unwrap())
}

/// The key of an image starts with `meta_image`, and so with `meta_`.
pub proof fn lemma_image_key_is_meta(index: nat)
    ensures
        is_meta_key(image_key(index)),
        is_image_key(image_key(index)),
{
    reveal_strlit("meta_image");
    reveal_strlit("meta_");
    assert(image_key(index).subrange(0, 5) =~= "meta_"@);
    assert(image_key(index).subrange(0, 10) =~= "meta_image"@);
}

/// The key of the datasheet starts with `meta_`, and is no key of an image.
pub proof fn lemma_datasheet_key_is_meta()
    ensures
        is_meta_key("meta_datasheeturl"@),
        !is_image_key("meta_datasheeturl"@),
{
    reveal_strlit("meta_datasheeturl");
    reveal_strlit("meta_image");
    reveal_strlit("meta_");
    assert("meta_datasheeturl"@.subrange(0, 5) =~= "meta_"@);
    if is_image_key("meta_datasheeturl"@) {
        assert("meta_datasheeturl"@.subrange(0, 10)[5] == 'i');
    }
}

/// A label that does not start with `m` is no meta key.
proof fn lemma_not_meta(label: Seq<char>)
    requires
        label.len() == 0 || label[0] != 'm',
    ensures
        !is_meta_key(label),
{
    reveal_strlit("meta_");
    if is_meta_key(label) {
        assert(label.subrange(0, 5)[0] == 'm');
    }
}

/// None of the fixed labels starts with `meta_`, and `Type` does not.
pub proof fn lemma_fixed_labels_are_plain(i: int)
    ensures
        !is_meta_key(fixed_field(i).1),
        !is_meta_key("Type"@),
{
    reveal_strlit("Type");
    reveal_strlit("Component Code");
    reveal_strlit("Primary Category");
    reveal_strlit("Secondary Category");
    reveal_strlit("Brand");
    reveal_strlit("Full Name");
    reveal_strlit("Designator");
    reveal_strlit("Model");
    reveal_strlit("Specification");
    reveal_strlit("Assembly Process");
    reveal_strlit("Description");
    reveal_strlit("Details");
    reveal_strlit("Stock");
    reveal_strlit("Minimal Quantity");
    reveal_strlit("Minimum Price");
    lemma_not_meta(fixed_field(i).1);
    lemma_not_meta("Type"@);
}

/// The images at different places of the list have different keys.
pub proof fn law_image_keys_differ(i: nat, j: nat)
    requires
        i != j,
    ensures
        image_key(i) != image_key(j),
{
    if image_key(i) == image_key(j) {
        let n = "meta_image"@.len() as int;
        assert(image_key(i).subrange(n, image_key(i).len() as int) =~= decimal(i));
        assert(image_key(j).subrange(n, image_key(j).len() as int) =~= decimal(j));
        lemma_decimal_injective(i, j);
    }
}

/// The fixed fields keep the keys of a table apart and free of meta keys.
proof fn lemma_with_fixed_holds(t: Seq<(Seq<char>, Seq<char>)>, data: Value, n: nat)
    ensures
        distinct_keys(t) ==> distinct_keys(with_fixed(t, data, n)),
        no_meta_keys(t) ==> no_meta_keys(with_fixed(t, data, n)),
    decreases n,
{
    if n > 0 {
        lemma_with_fixed_holds(t, data, (n - 1) as nat);
        let before = with_fixed(t, data, (n - 1) as nat);
        if let Some(v) = json_member(data, fixed_field(n - 1).0) {
            lemma_fixed_labels_are_plain(n - 1);
            if distinct_keys(t) {
                lemma_inserted_distinct(before, fixed_field(n - 1).1, shown(v));
            }
            if no_meta_keys(t) {
                lemma_inserted_no_meta(before, fixed_field(n - 1).1, shown(v));
            }
        }
    }
}

/// The part's own attributes keep the keys of a table apart and, where
/// their names are plain, free of meta keys.
proof fn lemma_with_attributes_holds(t: Seq<(Seq<char>, Seq<char>)>, list: Seq<Value>, n: nat)
    requires
        n <= list.len(),
    ensures
        distinct_keys(t) ==> distinct_keys(with_attributes(t, list, n)),
        no_meta_keys(t) && plain_names(list) ==> no_meta_keys(with_attributes(t, list, n)),
    decreases n,
{
    if n > 0 {
        lemma_with_attributes_holds(t, list, (n - 1) as nat);
        let before = with_attributes(t, list, (n - 1) as nat);
        if let Some(a) = attribute_of(list[n - 1]) {
            if distinct_keys(t) {
                lemma_inserted_distinct(before, a.0, a.1);
            }
            if no_meta_keys(t) && plain_names(list) {
                lemma_inserted_no_meta(before, a.0, a.1);
            }
        }
    }
}

/// The images keep the keys of a table apart, bring keys of images only,
/// and leave what stands under every key that is no meta key.
proof fn lemma_with_images_holds(t: Seq<(Seq<char>, Seq<char>)>, list: Seq<Value>, n: nat)
    requires
        n <= list.len(),
    ensures
        distinct_keys(t) ==> distinct_keys(with_images(t, list, n)),
        only_image_keys(t) ==> only_image_keys(with_images(t, list, n)),
        forall|key: Seq<char>|
            !is_meta_key(key) ==> value_of(#[trigger] with_images(t, list, n), key) == value_of(
                t,
                key,
            ),
    decreases n,
{
    if n > 0 {
        lemma_with_images_holds(t, list, (n - 1) as nat);
        let before = with_images(t, list, (n - 1) as nat);
        let key = image_key((n - 1) as nat);
        if let Some(url) = json_member(list[n - 1], "productBigImage"@) {
            lemma_image_key_is_meta((n - 1) as nat);
            if distinct_keys(t) {
                lemma_inserted_distinct(before, key, shown(url));
            }
            if only_image_keys(t) {
                lemma_find_key_stops(before, key, 0);
                let r = inserted(before, key, shown(url));
                assert forall|i: int| 0 <= i < r.len() implies is_image_key((#[trigger] r[i]).0) by {
                    if i < before.len() {
                        assert(r[i].0 == before[i].0 || r[i].0 == key);
                    }
                }
            }
            assert forall|other: Seq<char>| !is_meta_key(other) implies value_of(
                #[trigger] with_images(t, list, n),
                other,
            ) == value_of(t, other) by {
                lemma_inserted_other(before, key, shown(url), other);
            }
        }
    }
}

/// The images go behind a table without meta keys and leave it as it is.
proof fn lemma_with_images_behind(t: Seq<(Seq<char>, Seq<char>)>, list: Seq<Value>, n: nat)
    requires
        no_meta_keys(t),
        n <= list.len(),
    ensures
        with_images(t, list, n) == t + with_images(Seq::empty(), list, n),
    decreases n,
{
    let nothing = Seq::<(Seq<char>, Seq<char>)>::empty();
    if n == 0 {
        assert(t =~= t + nothing);
    } else {
        lemma_with_images_behind(t, list, (n - 1) as nat);
        if let Some(url) = json_member(list[n - 1], "productBigImage"@) {
            lemma_image_key_is_meta((n - 1) as nat);
            lemma_inserted_behind(
                t,
                with_images(nothing, list, (n - 1) as nat),
                image_key((n - 1) as nat),
                shown(url),
            );
        }
    }
}

/// The entries on show hold no meta key, unless the vendor names an
/// attribute so.
pub proof fn lemma_visible_part_is_plain(data: Value)
    requires
        plain_attributes(data),
    ensures
        no_meta_keys(visible_part(data)),
{
    let nothing = Seq::<(Seq<char>, Seq<char>)>::empty();
    let typed = with_type(nothing, data);
    lemma_fixed_labels_are_plain(0);
    if let Some(label) = type_label(data) {
        lemma_inserted_no_meta(nothing, "Type"@, label);
    }
    lemma_with_fixed_holds(typed, data, FIXED_FIELDS as nat);
    let fixed = with_fixed(typed, data, FIXED_FIELDS as nat);
    if let Some(list) = list_under(data, "attributes"@) {
        lemma_with_attributes_holds(fixed, list, list.len());
    }
}

/// No label stands twice in the table of a part.
pub proof fn law_labels_stand_once(data: Value)
    ensures
        distinct_keys(table_of(data)),
{
    let nothing = Seq::<(Seq<char>, Seq<char>)>::empty();
    let typed = with_type(nothing, data);
    if let Some(label) = type_label(data) {
        lemma_inserted_distinct(nothing, "Type"@, label);
    }
    lemma_with_fixed_holds(typed, data, FIXED_FIELDS as nat);
    let fixed = with_fixed(typed, data, FIXED_FIELDS as nat);
    if let Some(list) = list_under(data, "attributes"@) {
        lemma_with_attributes_holds(fixed, list, list.len());
    }
    let visible = visible_part(data);
    let pictured = match list_under(data, "imageList"@) {
        Some(list) => with_images(visible, list, list.len()),
        None => visible,
    };
    if let Some(list) = list_under(data, "imageList"@) {
        lemma_with_images_holds(visible, list, list.len());
    }
    if let Some(url) = json_member(data, "dataManualUrl"@) {
        lemma_inserted_distinct(pictured, "meta_datasheeturl"@, shown(url));
    }
}

/// The table of a part is its entries on show, then its images, then its
/// datasheet, and only the last two hold keys that start with `meta_`.
/// This holds unless the vendor gives an attribute such a name.
pub proof fn law_table_layout(data: Value)
    requires
        plain_attributes(data),
    ensures
        table_of(data) == visible_part(data) + image_part(data) + datasheet_part(data),
        no_meta_keys(visible_part(data)),
        only_image_keys(image_part(data)),
{
    let nothing = Seq::<(Seq<char>, Seq<char>)>::empty();
    let visible = visible_part(data);
    lemma_visible_part_is_plain(data);
    match list_under(data, "imageList"@) {
        Some(list) => {
            lemma_with_images_behind(visible, list, list.len());
            lemma_with_images_holds(nothing, list, list.len());
        },
        None => {
            assert(visible =~= visible + nothing);
        },
    }
    let pictured = visible + image_part(data);
    match json_member(data, "dataManualUrl"@) {
        Some(url) => {
            let key = "meta_datasheeturl"@;
            lemma_datasheet_key_is_meta();
            assert forall|i: int| 0 <= i < pictured.len() implies (#[trigger] pictured[i]).0
                != key by {
                if i < visible.len() {
                    assert(pictured[i] == visible[i]);
                } else {
                    assert(pictured[i] == image_part(data)[i - visible.len()]);
                }
            }
            lemma_inserted_new(pictured, key, shown(url));
            lemma_inserted_new(nothing, key, shown(url));
            assert(pictured.push((key, shown(url))) =~= pictured + nothing.push((key, shown(url))));
        },
        None => {
            assert(pictured =~= pictured + nothing);
        },
    }
}

/// Where each of the first `n` elements of an image list has an address,
/// they give `n` entries in the order of the list, each under the key of
/// its index.
pub proof fn law_every_image_has_its_entry(list: Seq<Value>, n: nat)
    requires
        n <= list.len(),
        forall|i: int| 0 <= i < n ==> json_member(#[trigger] list[i], "productBigImage"@) is Some,
    ensures
        with_images(Seq::empty(), list, n) == Seq::new(
            n,
            |i: int| (image_key(i as nat), image_address(list[i])),
        ),
    decreases n,
{
    let nothing = Seq::<(Seq<char>, Seq<char>)>::empty();
    let entries = |m: nat| Seq::new(m, |i: int| (image_key(i as nat), image_address(list[i])));
    if n == 0 {
        assert(nothing =~= entries(0));
    } else {
        law_every_image_has_its_entry(list, (n - 1) as nat);
        let before = with_images(nothing, list, (n - 1) as nat);
        let key = image_key((n - 1) as nat);
        assert(before == entries((n - 1) as nat));
        assert forall|i: int| 0 <= i < before.len() implies (#[trigger] before[i]).0 != key by {
            law_image_keys_differ(i as nat, (n - 1) as nat);
        }
        lemma_inserted_new(before, key, image_address(list[n - 1]));
        assert(before.push((key, image_address(list[n - 1]))) =~= entries(n));
    }
}

/// The value of the last of the first `n` attributes that bear `name` is
/// the one that stands under `name`.
proof fn lemma_last_attribute(
    t: Seq<(Seq<char>, Seq<char>)>,
    list: Seq<Value>,
    n: nat,
    j: int,
    name: Seq<char>,
    value: Seq<char>,
)
    requires
        0 <= j < n <= list.len(),
        attribute_of(list[j]) == Some((name, value)),
        forall|k: int|
            j < k < n ==> match attribute_of(#[trigger] list[k]) {
                Some(a) => a.0 != name,
                None => true,
            },
    ensures
        value_of(with_attributes(t, list, n), name) == Some(value),
    decreases n,
{
    let before = with_attributes(t, list, (n - 1) as nat);
    if j == n - 1 {
        lemma_inserted_value(before, name, value);
    } else {
        lemma_last_attribute(t, list, (n - 1) as nat, j, name, value);
        if let Some(a) = attribute_of(list[n - 1]) {
            lemma_inserted_other(before, a.0, a.1, name);
        }
    }
}

/// Of several attributes with one name the last one counts: the table has
/// one entry under that name, and it holds the last one's value. This
/// holds of every name that does not start with `meta_`.
pub proof fn law_later_attribute_wins(
    data: Value,
    list: Seq<Value>,
    j: int,
    name: Seq<char>,
    value: Seq<char>,
)
    requires
        list_under(data, "attributes"@) == Some(list),
        0 <= j < list.len(),
        attribute_of(list[j]) == Some((name, value)),
        forall|k: int|
            j < k < list.len() ==> match attribute_of(#[trigger] list[k]) {
                Some(a) => a.0 != name,
                None => true,
            },
        !is_meta_key(name),
    ensures
        value_of(table_of(data), name) == Some(value),
        distinct_keys(table_of(data)),
{
    law_labels_stand_once(data);
    let typed = with_type(Seq::empty(), data);
    let fixed = with_fixed(typed, data, FIXED_FIELDS as nat);
    lemma_last_attribute(fixed, list, list.len(), j, name, value);
    let visible = visible_part(data);
    let pictured = match list_under(data, "imageList"@) {
        Some(images) => with_images(visible, images, images.len()),
        None => visible,
    };
    if let Some(images) = list_under(data, "imageList"@) {
        lemma_with_images_holds(visible, images, images.len());
    }
    if let Some(url) = json_member(data, "dataManualUrl"@) {
        lemma_datasheet_key_is_meta();
        lemma_inserted_other(pictured, "meta_datasheeturl"@, shown(url), name);
    }
}

/// An answer whose `code` is not 200 comes to `NotFound`, whatever its
/// `data` holds.
pub proof fn law_failure_code_hides_data(response: Value, code: Value)
    requires
        json_member(response, "code"@) == Some(code),
        json_int(code) != Some(200i64),
    ensures
        normalized(response) == Err::<Seq<(Seq<char>, Seq<char>)>, LookupError>(
            LookupError::NotFound,
        ),
{
}

/// Two replies with the same status and the same text in their bodies come
/// to the same table, entry for entry, or to the same error.
pub proof fn law_same_reply_same_table(status: u16, first: String, second: String)
    requires
        first@ == second@,
    ensures
        concluded(HttpReply::Answered { status, body: first }) == concluded(
            HttpReply::Answered { status, body: second },
        ),
{
}

/// Filtering keeps a sequence whose elements all pass, and empties one
/// whose elements all fail.
proof fn lemma_filter_all_or_none<A>(s: Seq<A>, p: spec_fn(A) -> bool)
    ensures
        (forall|i: int| 0 <= i < s.len() ==> p(#[trigger] s[i])) ==> s.filter(p) == s,
        (forall|i: int| 0 <= i < s.len() ==> !p(#[trigger] s[i])) ==> s.filter(p) == Seq::<
            A,
        >::empty(),
    decreases s.len(),
{
    reveal(Seq::filter);
    if s.len() > 0 {
        lemma_filter_all_or_none(s.drop_last(), p);
        if forall|i: int| 0 <= i < s.len() ==> p(#[trigger] s[i]) {
            assert forall|i: int| 0 <= i < s.drop_last().len() implies p(
                #[trigger] s.drop_last()[i],
            ) by {
                assert(s.drop_last()[i] == s[i]);
            }
            assert(s.drop_last().push(s.last()) =~= s);
        }
        if forall|i: int| 0 <= i < s.len() ==> !p(#[trigger] s[i]) {
            assert forall|i: int| 0 <= i < s.drop_last().len() implies !p(
                #[trigger] s.drop_last()[i],
            ) by {
                assert(s.drop_last()[i] == s[i]);
            }
        }
    }
}

/// A key that starts with `meta_image` starts with `meta_`.
proof fn lemma_image_keys_are_meta(key: Seq<char>)
    requires
        is_image_key(key),
    ensures
        is_meta_key(key),
{
    reveal_strlit("meta_image");
    reveal_strlit("meta_");
    assert(key.subrange(0, 5) =~= key.subrange(0, 10).subrange(0, 5));
    assert("meta_image"@.subrange(0, 5) =~= "meta_"@);
}

/// What the table hands out as its entries on show and as the addresses of
/// its images is what the description gave: the entries on show as they
/// were built, and the address of each image in the order of the list.
/// This holds unless the vendor gives an attribute a name that starts with
/// `meta_`.
pub proof fn law_parts_are_found_again(data: Value)
    requires
        plain_attributes(data),
    ensures
        visible_entries(table_of(data)) == visible_part(data),
        image_addresses(table_of(data)) == image_part(data).map_values(
            |e: (Seq<char>, Seq<char>)| e.1,
        ),
{
    let nothing = Seq::<(Seq<char>, Seq<char>)>::empty();
    let on_show = |e: (Seq<char>, Seq<char>)| !is_meta_key(e.0);
    let image = |e: (Seq<char>, Seq<char>)| is_image_key(e.0);
    let visible = visible_part(data);
    let images = image_part(data);
    let datasheet = datasheet_part(data);
    law_table_layout(data);
    lemma_datasheet_key_is_meta();
    if let Some(url) = json_member(data, "dataManualUrl"@) {
        lemma_inserted_new(nothing, "meta_datasheeturl"@, shown(url));
    }
    assert forall|i: int| 0 <= i < visible.len() implies !image(#[trigger] visible[i]) by {
        if is_image_key(visible[i].0) {
            lemma_image_keys_are_meta(visible[i].0);
        }
    }
    assert forall|i: int| 0 <= i < images.len() implies !on_show(#[trigger] images[i]) by {
        lemma_image_keys_are_meta(images[i].0);
    }
    assert forall|i: int| 0 <= i < visible.len() implies on_show(#[trigger] visible[i]) by {}
    assert forall|i: int| 0 <= i < images.len() implies image(#[trigger] images[i]) by {}
    assert forall|i: int| 0 <= i < datasheet.len() implies !on_show(#[trigger] datasheet[i])
        && !image(datasheet[i]) by {}
    lemma_filter_all_or_none(visible, on_show);
    lemma_filter_all_or_none(images, on_show);
    lemma_filter_all_or_none(datasheet, on_show);
    lemma_filter_all_or_none(visible, image);
    lemma_filter_all_or_none(images, image);
    lemma_filter_all_or_none(datasheet, image);
    Seq::filter_distributes_over_add(visible, images, on_show);
    Seq::filter_distributes_over_add(visible + images, datasheet, on_show);
    Seq::filter_distributes_over_add(visible, images, image);
    Seq::filter_distributes_over_add(visible + images, datasheet, image);
    assert(visible + nothing + nothing =~= visible);
    assert(nothing + images + nothing =~= images);
}

} // verus!
