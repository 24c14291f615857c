//! The ordered table of labelled values that describes a part.

use crate::text::{occurs_at, starts_with_text};
use indexmap::IndexMap;
use vstd::prelude::*;

verus! {

/// `indexmap::IndexMap`, a map that keeps its entries in the order in which
/// their keys were first put in.
#[verifier::external_type_specification]
#[verifier::external_body]
#[verifier::reject_recursive_types(K)]
#[verifier::reject_recursive_types(V)]
#[verifier::reject_recursive_types(S)]
pub struct ExIndexMap<K, V, S>(IndexMap<K, V, S>);

/// The entries of `m` in their order, each key and value by its characters.
pub uninterp spec fn map_entries(m: IndexMap<String, String>) -> Seq<(Seq<char>, Seq<char>)>;

/// The first index at or after `from` whose entry has the key `key`, or the
/// length of `t` when there is none.
pub open spec fn find_key(t: Seq<(Seq<char>, Seq<char>)>, key: Seq<char>, from: int) -> int
    decreases t.len() - from,
{
    if 0 <= from < t.len() && t[from].0 != key {
        find_key(t, key, from + 1)
    } else {
        from
    }
}

/// Whether `t` has an entry under `key`.
pub open spec fn has_key(t: Seq<(Seq<char>, Seq<char>)>, key: Seq<char>) -> bool {
    find_key(t, key, 0) < t.len()
}

/// The value that `t` holds under `key`.
pub open spec fn value_of(t: Seq<(Seq<char>, Seq<char>)>, key: Seq<char>) -> Option<Seq<char>> {
    if has_key(t, key) {
        Some(t[find_key(t, key, 0)].1)
    } else {
        None
    }
}

/// `t` after `value` is put under `key`: an entry that is there keeps its
/// place and takes the value, a new one goes to the end.
pub open spec fn inserted(t: Seq<(Seq<char>, Seq<char>)>, key: Seq<char>, value: Seq<char>) -> Seq<
    (Seq<char>, Seq<char>),
> {
    if has_key(t, key) {
        t.update(find_key(t, key, 0), (key, value))
    } else {
        t.push((key, value))
    }
}

/// No key stands twice in `t`.
pub open spec fn distinct_keys(t: Seq<(Seq<char>, Seq<char>)>) -> bool {
    forall|i: int, j: int| 0 <= i < j < t.len() ==> (#[trigger] t[i]).0 != (#[trigger] t[j]).0
}

/// A key that starts with `meta_`: its entry carries an address for the
/// side panels, not a value for the table on show.
pub open spec fn is_meta_key(key: Seq<char>) -> bool {
    occurs_at(key, "meta_"@, 0)
}

/// A key that starts with `meta_image`: its entry carries the address of
/// an image.
pub open spec fn is_image_key(key: Seq<char>) -> bool {
    occurs_at(key, "meta_image"@, 0)
}

/// The entries of `t` that are on show: those whose key is no meta key.
pub open spec fn visible_entries(t: Seq<(Seq<char>, Seq<char>)>) -> Seq<(Seq<char>, Seq<char>)> {
    t.filter(|e: (Seq<char>, Seq<char>)| !is_meta_key(e.0))
}

/// The addresses of the images in `t`, in the order of their entries.
pub open spec fn image_addresses(t: Seq<(Seq<char>, Seq<char>)>) -> Seq<Seq<char>> {
    t.filter(|e: (Seq<char>, Seq<char>)| is_image_key(e.0)).map_values(
        |e: (Seq<char>, Seq<char>)| e.1,
    )
}

/// Pairs of strings, each by its characters.
pub open spec fn pairs_view(v: Seq<(String, String)>) -> Seq<(Seq<char>, Seq<char>)> {
    v.map_values(|e: (String, String)| (e.0@, e.1@))
}

/// Strings, each by its characters.
pub open spec fn strings_view(v: Seq<String>) -> Seq<Seq<char>> {
    v.map_values(|e: String| e@)
}

/// Filtering a sequence with one more element.
pub proof fn lemma_filter_push<A>(s: Seq<A>, x: A, p: spec_fn(A) -> bool)
    ensures
        s.push(x).filter(p) == if p(x) {
            s.filter(p).push(x)
        } else {
            s.filter(p)
        },
{
    reveal(Seq::filter);
    assert(s.push(x).drop_last() =~= s);
}

/// No key of `t` starts with `meta_`.
pub open spec fn no_meta_keys(t: Seq<(Seq<char>, Seq<char>)>) -> bool {
    forall|i: int| 0 <= i < t.len() ==> !is_meta_key((#[trigger] t[i]).0)
}

/// Where `find_key` stops: at the first entry with the key, behind entries
/// without it.
pub proof fn lemma_find_key_stops(t: Seq<(Seq<char>, Seq<char>)>, key: Seq<char>, from: int)
    requires
        0 <= from <= t.len(),
    ensures
        from <= find_key(t, key, from) <= t.len(),
        forall|k: int| from <= k < find_key(t, key, from) ==> (#[trigger] t[k]).0 != key,
        find_key(t, key, from) < t.len() ==> t[find_key(t, key, from)].0 == key,
    decreases t.len() - from,
{
    if from < t.len() && t[from].0 != key {
        lemma_find_key_stops(t, key, from + 1);
    }
}

/// An index behind entries without the key, at the end of `t` or at an
/// entry with the key, is where `find_key` stops.
pub proof fn lemma_find_key_at(t: Seq<(Seq<char>, Seq<char>)>, key: Seq<char>, from: int, at: int)
    requires
        0 <= from <= at <= t.len(),
        forall|k: int| from <= k < at ==> (#[trigger] t[k]).0 != key,
        at == t.len() || t[at].0 == key,
    ensures
        find_key(t, key, from) == at,
    decreases at - from,
{
    if from < at {
        lemma_find_key_at(t, key, from + 1, at);
    }
}

/// Putting a value under a key keeps the keys apart.
pub proof fn lemma_inserted_distinct(t: Seq<(Seq<char>, Seq<char>)>, key: Seq<char>, value: Seq<char>)
    requires
        distinct_keys(t),
    ensures
        distinct_keys(inserted(t, key, value)),
{
    lemma_find_key_stops(t, key, 0);
    let r = inserted(t, key, value);
    let at = find_key(t, key, 0);
    assert forall|i: int, j: int| 0 <= i < j < r.len() implies (#[trigger] r[i]).0 != (
    #[trigger] r[j]).0 by {
        if at < t.len() {
            assert(r[i].0 == t[i].0);
            assert(r[j].0 == t[j].0);
        } else if j == t.len() {
            assert(r[i].0 == t[i].0);
        }
    }
}

/// The value that was put under a key is the one found under it.
pub proof fn lemma_inserted_value(t: Seq<(Seq<char>, Seq<char>)>, key: Seq<char>, value: Seq<char>)
    ensures
        value_of(inserted(t, key, value), key) == Some(value),
{
    lemma_find_key_stops(t, key, 0);
    let r = inserted(t, key, value);
    let at = find_key(t, key, 0);
    assert forall|k: int| 0 <= k < at implies (#[trigger] r[k]).0 != key by {
        assert(r[k].0 == t[k].0);
    }
    lemma_find_key_at(r, key, 0, at);
}

/// Putting a value under a key leaves what is found under every other key.
pub proof fn lemma_inserted_other(
    t: Seq<(Seq<char>, Seq<char>)>,
    key: Seq<char>,
    value: Seq<char>,
    other: Seq<char>,
)
    requires
        other != key,
    ensures
        value_of(inserted(t, key, value), other) == value_of(t, other),
{
    lemma_find_key_stops(t, key, 0);
    lemma_find_key_stops(t, other, 0);
    let r = inserted(t, key, value);
    let at = find_key(t, other, 0);
    assert forall|k: int| 0 <= k < at implies (#[trigger] r[k]).0 != other by {
        assert(r[k].0 == t[k].0 || r[k].0 == key);
    }
    if at < t.len() {
        lemma_find_key_at(r, other, 0, at);
    } else {
        lemma_find_key_at(r, other, 0, r.len() as int);
    }
}

/// Putting a value under a key that is not in `t` appends the entry.
pub proof fn lemma_inserted_new(t: Seq<(Seq<char>, Seq<char>)>, key: Seq<char>, value: Seq<char>)
    requires
        forall|i: int| 0 <= i < t.len() ==> (#[trigger] t[i]).0 != key,
    ensures
        inserted(t, key, value) == t.push((key, value)),
{
    lemma_find_key_at(t, key, 0, t.len() as int);
}

/// Putting a value under a key that is not in `t` works on what follows
/// `t` alone.
pub proof fn lemma_inserted_behind(
    t: Seq<(Seq<char>, Seq<char>)>,
    rest: Seq<(Seq<char>, Seq<char>)>,
    key: Seq<char>,
    value: Seq<char>,
)
    requires
        forall|i: int| 0 <= i < t.len() ==> (#[trigger] t[i]).0 != key,
    ensures
        inserted(t + rest, key, value) == t + inserted(rest, key, value),
{
    lemma_find_key_stops(rest, key, 0);
    let at = find_key(rest, key, 0);
    let whole = t + rest;
    assert forall|k: int| 0 <= k < t.len() + at implies (#[trigger] whole[k]).0 != key by {
        if k >= t.len() {
            assert(whole[k] == rest[k - t.len()]);
        } else {
            assert(whole[k] == t[k]);
        }
    }
    if at < rest.len() {
        assert(whole[t.len() + at] == rest[at]);
    }
    lemma_find_key_at(whole, key, 0, t.len() + at);
    assert(inserted(whole, key, value) =~= t + inserted(rest, key, value));
}

/// Putting a value under a key that is no meta key keeps a table free of
/// meta keys.
pub proof fn lemma_inserted_no_meta(t: Seq<(Seq<char>, Seq<char>)>, key: Seq<char>, value: Seq<char>)
    requires
        no_meta_keys(t),
        !is_meta_key(key),
    ensures
        no_meta_keys(inserted(t, key, value)),
{
    lemma_find_key_stops(t, key, 0);
    let r = inserted(t, key, value);
    assert forall|i: int| 0 <= i < r.len() implies !is_meta_key((#[trigger] r[i]).0) by {
        if i < t.len() {
            assert(r[i].0 == t[i].0 || r[i].0 == key);
        }
    }
}

/// `IndexMap::new`: a map without entries.
#[verifier::external_body]
fn map_new() -> (m: IndexMap<String, String>)
    ensures
        map_entries(m) == Seq::<(Seq<char>, Seq<char>)>::empty(),
{
    IndexMap::new()
}

/// `IndexMap::insert`: where the key is there, its entry keeps its place
/// and takes the new value, and the old value is handed back; where it is
/// not, the pair becomes the last entry and nothing is handed back.
#[verifier::external_body]
fn map_insert(m: &mut IndexMap<String, String>, key: String, value: String) -> (r: Option<String>)
    ensures
        map_entries(*final(m)) == inserted(map_entries(*old(m)), key@, value@),
        match r {
            Some(v) => value_of(map_entries(*old(m)), key@) == Some(v@),
            None => value_of(map_entries(*old(m)), key@) is None,
        },
{
    m.insert(key, value)
}

/// `IndexMap::len`: the number of entries.
#[verifier::external_body]
fn map_len(m: &IndexMap<String, String>) -> (n: usize)
    ensures
        n == map_entries(*m).len(),
{
    m.len()
}

/// `IndexMap::get_index`: the entry at `index`, or nothing where `index` is
/// not below the length.
#[verifier::external_body]
fn map_get_index<'a>(m: &'a IndexMap<String, String>, index: usize) -> (r: Option<
    (&'a String, &'a String),
>)
    ensures
        match r {
            Some((k, v)) => index < map_entries(*m).len() && map_entries(*m)[index as int] == (
                k@,
                v@,
            ),
            None => index >= map_entries(*m).len(),
        },
{
    m.get_index(index)
}

/// `IndexMap::get` with a string key: the value under that key.
#[verifier::external_body]
fn map_get<'a>(m: &'a IndexMap<String, String>, key: &str) -> (r: Option<&'a String>)
    ensures
        match r {
            Some(v) => value_of(map_entries(*m), key@) == Some(v@),
            None => value_of(map_entries(*m), key@) is None,
        },
{
    m.get(key)
}

/// An ordered table from label to value; the order of the entries is the
/// order in which their labels were first put in.
pub struct PartTable {
    map: IndexMap<String, String>,
}

impl View for PartTable {
    type V = Seq<(Seq<char>, Seq<char>)>;

    /// The entries in their order, each label and value by its characters.
    closed spec fn view(&self) -> Seq<(Seq<char>, Seq<char>)> {
        map_entries(self.map)
    }
}

impl PartTable {
    /// A table without entries.
    pub fn new() -> (t: PartTable)
        ensures
            t@ == Seq::<(Seq<char>, Seq<char>)>::empty(),
    {
        PartTable { map: map_new() }
    }

    /// Puts `value` under `key` and hands back the value that was there.
    pub fn insert(&mut self, key: String, value: String) -> (r: Option<String>)
        ensures
            final(self)@ == inserted(old(self)@, key@, value@),
            match r {
                Some(v) => value_of(old(self)@, key@) == Some(v@),
                None => value_of(old(self)@, key@) is None,
            },
    {
        map_insert(&mut self.map, key, value)
    }

    /// The number of entries.
    pub fn len(&self) -> (n: usize)
        ensures
            n == self@.len(),
    {
        map_len(&self.map)
    }

    /// The label and the value of the entry at `index`.
    pub fn entry(&self, index: usize) -> (r: Option<(&String, &String)>)
        ensures
            match r {
                Some((k, v)) => index < self@.len() && self@[index as int] == (k@, v@),
                None => index >= self@.len(),
            },
    {
        map_get_index(&self.map, index)
    }

    /// The value under `key`.
    pub fn get(&self, key: &str) -> (r: Option<&String>)
        ensures
            match r {
                Some(v) => value_of(self@, key@) == Some(v@),
                None => value_of(self@, key@) is None,
            },
    {
        map_get(&self.map, key)
    }

    /// The part code of the table: the value under `Component Code`.
    pub fn component_code(&self) -> (r: Option<&String>)
        ensures
            match r {
                Some(v) => value_of(self@, "Component Code"@) == Some(v@),
                None => value_of(self@, "Component Code"@) is None,
            },
    {
        self.get("Component Code")
    }

    /// The address of the datasheet: the value under `meta_datasheeturl`.
    pub fn datasheet_url(&self) -> (r: Option<&String>)
        ensures
            match r {
                Some(v) => value_of(self@, "meta_datasheeturl"@) == Some(v@),
                None => value_of(self@, "meta_datasheeturl"@) is None,
            },
    {
        self.get("meta_datasheeturl")
    }

    /// All entries in their order.
    pub fn entries(&self) -> (r: Vec<(String, String)>)
        ensures
            pairs_view(r@) == self@,
    {
        let n: usize = self.len();
        let mut out: Vec<(String, String)> = Vec::new();
        let mut i: usize = 0;
        while i < n
            invariant
                i <= n,
                n == self@.len(),
                pairs_view(out@) == self@.subrange(0, i as int),
            decreases n - i,
        {
            if let Some((k, v)) = self.entry(i) {
                let ghost before = out@;
                out.push((k.clone(), v.clone()));
                assert(pairs_view(out@) =~= pairs_view(before).push((k@, v@)));
                assert(pairs_view(out@) =~= self@.subrange(0, i + 1));
            }
            i += 1;
        }
        assert(self@.subrange(0, n as int) =~= self@);
        out
    }

    /// The entries on show, in their order.
    pub fn visible(&self) -> (r: Vec<(String, String)>)
        ensures
            pairs_view(r@) == visible_entries(self@),
    {
        let ghost shown = |e: (Seq<char>, Seq<char>)| !is_meta_key(e.0);
        let n: usize = self.len();
        let mut out: Vec<(String, String)> = Vec::new();
        let mut i: usize = 0;
        proof {
            reveal(Seq::filter);
            assert(pairs_view(out@) =~= self@.subrange(0, 0).filter(shown));
        }
        while i < n
            invariant
                i <= n,
                n == self@.len(),
                shown == (|e: (Seq<char>, Seq<char>)| !is_meta_key(e.0)),
                pairs_view(out@) == self@.subrange(0, i as int).filter(shown),
            decreases n - i,
        {
            if let Some((k, v)) = self.entry(i) {
                let ghost before = out@;
                proof {
                    lemma_filter_push(self@.subrange(0, i as int), self@[i as int], shown);
                    assert(self@.subrange(0, i as int).push(self@[i as int]) =~= self@.subrange(
                        0,
                        i + 1,
                    ));
                }
                if !starts_with_text(k.as_str(), "meta_") {
                    out.push((k.clone(), v.clone()));
                    assert(pairs_view(out@) =~= pairs_view(before).push((k@, v@)));
                }
            }
            i += 1;
        }
        assert(self@.subrange(0, n as int) =~= self@);
        out
    }

    /// The addresses of the images, in the order of their entries.
    pub fn image_urls(&self) -> (r: Vec<String>)
        ensures
            strings_view(r@) == image_addresses(self@),
    {
        let ghost image = |e: (Seq<char>, Seq<char>)| is_image_key(e.0);
        let ghost address = |e: (Seq<char>, Seq<char>)| e.1;
        let n: usize = self.len();
        let mut out: Vec<String> = Vec::new();
        let mut i: usize = 0;
        proof {
            reveal(Seq::filter);
            assert(strings_view(out@) =~= self@.subrange(0, 0).filter(image).map_values(address));
        }
        while i < n
            invariant
                i <= n,
                n == self@.len(),
                image == (|e: (Seq<char>, Seq<char>)| is_image_key(e.0)),
                address == (|e: (Seq<char>, Seq<char>)| e.1),
                strings_view(out@) == self@.subrange(0, i as int).filter(image).map_values(address),
            decreases n - i,
        {
            if let Some((k, v)) = self.entry(i) {
                let ghost before = out@;
                let ghost found = self@.subrange(0, i as int).filter(image);
                proof {
                    lemma_filter_push(self@.subrange(0, i as int), self@[i as int], image);
                    assert(self@.subrange(0, i as int).push(self@[i as int]) =~= self@.subrange(
                        0,
                        i + 1,
                    ));
                }
                if starts_with_text(k.as_str(), "meta_image") {
                    out.push(v.clone());
                    assert(strings_view(out@) =~= strings_view(before).push(v@));
                    assert(found.push(self@[i as int]).map_values(address) =~= found.map_values(
                        address,
                    ).push(v@));
                }
            }
            i += 1;
        }
        assert(self@.subrange(0, n as int) =~= self@);
        out
    }
}

} // verus!
