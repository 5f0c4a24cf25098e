//! The Loro document an issue lives in, seen from the library: each item here
//! is one call into `loro`, trusted rather than proved. What a document holds
//! is named by `loro_root_maps` (its root maps, by name, each a map from key to
//! the slot that key holds), and every item states, over that name, what the
//! call reads or writes. Children are reached by path from a root map, so no
//! container handle outlives the call that uses it.
//!
//! Only the state of a single local document is modelled: its history, peer
//! id and version are not, and so neither export nor import states anything
//! about the document's contents.
//!
//! A `LoroDoc` is a shared handle with interior mutability (its clones share
//! one document, and `&LoroDoc` methods such as `checkout` change it), while
//! the names here take it as a value. The contracts describe a document that
//! changes only through the `&mut` items here: anything done to it through a
//! shared reference or another clone (an edit, a checkout, an attach) is not
//! seen by them, and what they said of the document before no longer holds
//! after it.
//!
//! Every item that reaches a root map asks for the root `issue`: that name
//! lies outside the namespace that Loro reserves for mergeable containers,
//! so looking it up never fails.

use vstd::prelude::*;

use loro::{Container, LoroList, LoroMap, LoroText, LoroValue, ValueOrContainer};

verus! {

#[verifier::external_type_specification]
#[verifier::external_body]
pub struct ExLoroDoc(loro::LoroDoc);

#[verifier::external_type_specification]
#[verifier::external_body]
pub struct ExLoroError(loro::LoroError);

#[verifier::external_type_specification]
#[verifier::external_body]
pub struct ExLoroEncodeError(loro::LoroEncodeError);

#[verifier::external_type_specification]
#[verifier::external_body]
pub struct ExFrontiers(loro::Frontiers);

/// What one key of a map (or one position of a list) holds.
pub enum Slot {
    /// A string value.
    Str(Seq<char>),
    /// An `i64` value.
    Int(i64),
    /// A boolean value.
    Flag(bool),
    /// Any other plain value (null, a float, bytes, a list or map value).
    OtherValue,
    /// A text container, by its content.
    Text(Seq<char>),
    /// A map container, by its entries.
    Dict(Map<Seq<char>, Slot>),
    /// A list container, by its items.
    List(Seq<Slot>),
    /// Any other container (a tree, a movable list, a counter).
    OtherContainer,
}

/// A plain value read back from a slot.
#[derive(Debug, Clone)]
pub enum Scalar {
    Str(String),
    Int(i64),
    Flag(bool),
    /// The slot holds something other than a string, an integer or a flag.
    Other,
}

/// Whether `x` is what reading slot `s` gives.
pub open spec fn reads_as(x: Scalar, s: Slot) -> bool {
    match x {
        Scalar::Str(v) => s == Slot::Str(v@),
        Scalar::Int(n) => s == Slot::Int(n),
        Scalar::Flag(b) => s == Slot::Flag(b),
        Scalar::Other => !(s is Str || s is Int || s is Flag),
    }
}

/// The root maps of a Loro document, by name.
pub uninterp spec fn loro_root_maps(doc: loro::LoroDoc) -> Map<Seq<char>, Map<Seq<char>, Slot>>;

/// Whether an edit of a Loro document can go ahead: it holds an open
/// transaction, or can start one because it is not detached from its latest
/// version. Every edit that the wrappers below make runs inside such a
/// transaction, and fails with `AutoCommitNotStarted`, changing nothing,
/// when there is none to be had.
pub uninterp spec fn loro_editable(doc: loro::LoroDoc) -> bool;

/// The root map `root` (one never written is empty).
pub open spec fn root_map(doc: loro::LoroDoc, root: Seq<char>) -> Map<Seq<char>, Slot> {
    if loro_root_maps(doc).contains_key(root) {
        loro_root_maps(doc)[root]
    } else {
        Map::empty()
    }
}

/// The slot under `key` in the root map `root`.
pub open spec fn slot_at(doc: loro::LoroDoc, root: Seq<char>, key: Seq<char>) -> Option<Slot> {
    root_map(doc, root).get(key)
}

/// The root maps of `doc` with `key` of root `root` set to `s`.
pub open spec fn with_slot(doc: loro::LoroDoc, root: Seq<char>, key: Seq<char>, s: Slot) -> Map<
    Seq<char>,
    Map<Seq<char>, Slot>,
> {
    loro_root_maps(doc).insert(root, root_map(doc, root).insert(key, s))
}

/// `LoroDoc::new`: a fresh, empty document. Claimed: it has no root map
/// holding anything, and it can be edited (`new` starts its auto-commit
/// transaction).
#[verifier::external_body]
pub(crate) fn new_doc() -> (r: loro::LoroDoc)
    ensures
        loro_root_maps(r).dom().is_empty(),
        loro_editable(r),
{
    loro::LoroDoc::new()
}

/// `LoroMap::insert` of a string into root map `root`. Claimed: it succeeds
/// exactly when the document can be edited; on success the key holds that
/// string and nothing else changed; on failure nothing changed.
#[verifier::external_body]
pub(crate) fn root_insert_str(doc: &mut loro::LoroDoc, root: &str, key: &str, value: &str) -> (r: Result<
    (),
    loro::LoroError,
>)
    requires
        root@ == "issue"@,
    ensures
        r is Ok <==> loro_editable(*old(doc)),
        r is Err ==> loro_root_maps(*final(doc)) == loro_root_maps(*old(doc)),
        loro_editable(*final(doc)) == loro_editable(*old(doc)),
        r is Ok ==> loro_root_maps(*final(doc)) == with_slot(
            *old(doc),
            root@,
            key@,
            Slot::Str(value@),
        ),
{
    doc.get_map(root).insert(key, value)
}

/// `LoroMap::insert` of an `i64` into root map `root`. Claimed: it succeeds
/// exactly when the document can be edited; on success the key holds that
/// integer and nothing else changed; on failure nothing changed.
#[verifier::external_body]
pub(crate) fn root_insert_int(doc: &mut loro::LoroDoc, root: &str, key: &str, value: i64) -> (r: Result<
    (),
    loro::LoroError,
>)
    requires
        root@ == "issue"@,
    ensures
        r is Ok <==> loro_editable(*old(doc)),
        r is Err ==> loro_root_maps(*final(doc)) == loro_root_maps(*old(doc)),
        loro_editable(*final(doc)) == loro_editable(*old(doc)),
        r is Ok ==> loro_root_maps(*final(doc)) == with_slot(
            *old(doc),
            root@,
            key@,
            Slot::Int(value),
        ),
{
    doc.get_map(root).insert(key, value)
}

/// `LoroMap::insert_container` of a new `LoroText` into root map `root`.
/// Claimed: it succeeds exactly when the document can be edited; on success
/// the key holds an empty text and nothing else changed; on failure nothing
/// changed.
#[verifier::external_body]
pub(crate) fn root_insert_text(doc: &mut loro::LoroDoc, root: &str, key: &str) -> (r: Result<
    (),
    loro::LoroError,
>)
    requires
        root@ == "issue"@,
    ensures
        r is Ok <==> loro_editable(*old(doc)),
        r is Err ==> loro_root_maps(*final(doc)) == loro_root_maps(*old(doc)),
        loro_editable(*final(doc)) == loro_editable(*old(doc)),
        r is Ok ==> loro_root_maps(*final(doc)) == with_slot(
            *old(doc),
            root@,
            key@,
            Slot::Text(Seq::empty()),
        ),
{
    match doc.get_map(root).insert_container(key, LoroText::new()) {
        Ok(_) => Ok(()),
        Err(e) => Err(e),
    }
}

/// `LoroMap::insert_container` of a new `LoroMap` into root map `root`.
/// Claimed: it succeeds exactly when the document can be edited; on success
/// the key holds an empty map and nothing else changed; on failure nothing
/// changed.
#[verifier::external_body]
pub(crate) fn root_insert_map(doc: &mut loro::LoroDoc, root: &str, key: &str) -> (r: Result<
    (),
    loro::LoroError,
>)
    requires
        root@ == "issue"@,
    ensures
        r is Ok <==> loro_editable(*old(doc)),
        r is Err ==> loro_root_maps(*final(doc)) == loro_root_maps(*old(doc)),
        loro_editable(*final(doc)) == loro_editable(*old(doc)),
        r is Ok ==> loro_root_maps(*final(doc)) == with_slot(
            *old(doc),
            root@,
            key@,
            Slot::Dict(Map::empty()),
        ),
{
    match doc.get_map(root).insert_container(key, LoroMap::new()) {
        Ok(_) => Ok(()),
        Err(e) => Err(e),
    }
}

/// `LoroMap::insert_container` of a new `LoroList` into root map `root`.
/// Claimed: it succeeds exactly when the document can be edited; on success
/// the key holds an empty list and nothing else changed; on failure nothing
/// changed.
#[verifier::external_body]
pub(crate) fn root_insert_list(doc: &mut loro::LoroDoc, root: &str, key: &str) -> (r: Result<
    (),
    loro::LoroError,
>)
    requires
        root@ == "issue"@,
    ensures
        r is Ok <==> loro_editable(*old(doc)),
        r is Err ==> loro_root_maps(*final(doc)) == loro_root_maps(*old(doc)),
        loro_editable(*final(doc)) == loro_editable(*old(doc)),
        r is Ok ==> loro_root_maps(*final(doc)) == with_slot(
            *old(doc),
            root@,
            key@,
            Slot::List(Seq::empty()),
        ),
{
    match doc.get_map(root).insert_container(key, LoroList::new()) {
        Ok(_) => Ok(()),
        Err(e) => Err(e),
    }
}

/// `LoroMap::get` on root map `root`. Claimed: `None` exactly when the key is
/// absent, else the value it holds (`Other` for anything that is not a
/// string, an integer or a flag).
#[verifier::external_body]
pub(crate) fn root_get(doc: &loro::LoroDoc, root: &str, key: &str) -> (r: Option<Scalar>)
    requires
        root@ == "issue"@,
    ensures
        r is None <==> slot_at(*doc, root@, key@) is None,
        r matches Some(x) ==> reads_as(x, slot_at(*doc, root@, key@)->0),
{
    match doc.get_map(root).get(key) {
        None => None,
        Some(ValueOrContainer::Value(LoroValue::String(s))) => Some(Scalar::Str(s.to_string())),
        Some(ValueOrContainer::Value(LoroValue::I64(n))) => Some(Scalar::Int(n)),
        Some(ValueOrContainer::Value(LoroValue::Bool(b))) => Some(Scalar::Flag(b)),
        Some(_) => Some(Scalar::Other),
    }
}

/// `LoroText::to_string` of the text under `key` of root map `root`. Claimed:
/// `Some` exactly when that key holds a text, with its content.
#[verifier::external_body]
pub(crate) fn text_at(doc: &loro::LoroDoc, root: &str, key: &str) -> (r: Option<String>)
    requires
        root@ == "issue"@,
    ensures
        r is Some <==> slot_at(*doc, root@, key@) matches Some(Slot::Text(_)),
        r matches Some(s) ==> slot_at(*doc, root@, key@) == Some(Slot::Text(s@)),
{
    match doc.get_map(root).get(key) {
        Some(ValueOrContainer::Container(Container::Text(t))) => Some(t.to_string()),
        _ => None,
    }
}

/// `LoroText::len_unicode` of the text under `key` of root map `root`.
/// Claimed: `Some` exactly when that key holds a text, with its length in
/// characters.
#[verifier::external_body]
pub(crate) fn text_len(doc: &loro::LoroDoc, root: &str, key: &str) -> (r: Option<usize>)
    requires
        root@ == "issue"@,
    ensures
        r is Some <==> slot_at(*doc, root@, key@) matches Some(Slot::Text(_)),
        r matches Some(n) ==> slot_at(*doc, root@, key@) matches Some(Slot::Text(t)) && n
            == t.len(),
{
    match doc.get_map(root).get(key) {
        Some(ValueOrContainer::Container(Container::Text(t))) => Some(t.len_unicode()),
        _ => None,
    }
}

/// `LoroText::insert` (at a character position) into the text under `key` of
/// root map `root`. Claimed: `None`, with nothing changed, exactly when that
/// key holds no text; on success within bounds, `s` stands at `pos` and
/// nothing else changed; an editable document and a position within the text
/// give success; a failure changes nothing.
#[verifier::external_body]
pub(crate) fn text_insert(doc: &mut loro::LoroDoc, root: &str, key: &str, pos: usize, s: &str) -> (r:
    Option<Result<(), loro::LoroError>>)
    requires
        root@ == "issue"@,
    ensures
        (loro_editable(*old(doc)) && (slot_at(*old(doc), root@, key@) matches Some(Slot::Text(t))
            && pos <= t.len())) ==> r matches Some(Ok(_)),
        r matches Some(Err(_)) ==> loro_root_maps(*final(doc)) == loro_root_maps(*old(doc)),
        loro_editable(*final(doc)) == loro_editable(*old(doc)),
        r is None <==> !(slot_at(*old(doc), root@, key@) matches Some(Slot::Text(_))),
        r is None ==> loro_root_maps(*final(doc)) == loro_root_maps(*old(doc)),
        r matches Some(Ok(_)) ==> slot_at(*old(doc), root@, key@) matches Some(Slot::Text(t))
            && (pos <= t.len() ==> loro_root_maps(*final(doc)) == with_slot(
            *old(doc),
            root@,
            key@,
            Slot::Text(t.subrange(0, pos as int) + s@ + t.subrange(pos as int, t.len() as int)),
        )),
{
    match doc.get_map(root).get(key) {
        Some(ValueOrContainer::Container(Container::Text(t))) => Some(t.insert(pos, s)),
        _ => None,
    }
}

/// `LoroText::delete` (a character range) from the text under `key` of root
/// map `root`. Claimed: `None`, with nothing changed, exactly when that key
/// holds no text; on success within bounds, the range is gone and nothing
/// else changed; an editable document and a range within the text give
/// success, and removing a non-empty range succeeds only on an editable
/// document; a failure changes nothing.
#[verifier::external_body]
pub(crate) fn text_delete(doc: &mut loro::LoroDoc, root: &str, key: &str, pos: usize, len: usize) -> (r:
    Option<Result<(), loro::LoroError>>)
    requires
        root@ == "issue"@,
    ensures
        (r matches Some(Ok(_)) && len > 0) ==> loro_editable(*old(doc)),
        (loro_editable(*old(doc)) && (slot_at(*old(doc), root@, key@) matches Some(Slot::Text(t))
            && pos + len <= t.len())) ==> r matches Some(Ok(_)),
        r matches Some(Err(_)) ==> loro_root_maps(*final(doc)) == loro_root_maps(*old(doc)),
        loro_editable(*final(doc)) == loro_editable(*old(doc)),
        r is None <==> !(slot_at(*old(doc), root@, key@) matches Some(Slot::Text(_))),
        r is None ==> loro_root_maps(*final(doc)) == loro_root_maps(*old(doc)),
        r matches Some(Ok(_)) ==> slot_at(*old(doc), root@, key@) matches Some(Slot::Text(t))
            && (pos + len <= t.len() ==> loro_root_maps(*final(doc)) == with_slot(
            *old(doc),
            root@,
            key@,
            Slot::Text(t.subrange(0, pos as int) + t.subrange(pos + len, t.len() as int)),
        )),
{
    match doc.get_map(root).get(key) {
        Some(ValueOrContainer::Container(Container::Text(t))) => Some(t.delete(pos, len)),
        _ => None,
    }
}

/// The strings of `ks`.
pub open spec fn texts(ks: Seq<String>) -> Seq<Seq<char>> {
    ks.map_values(|k: String| k@)
}

/// `LoroMap::keys` of the map under `key` of root map `root`. Claimed: `Some`
/// exactly when that key holds a map, listing each of its keys once (in no
/// stated order).
#[verifier::external_body]
pub(crate) fn nested_keys(doc: &loro::LoroDoc, root: &str, key: &str) -> (r: Option<Vec<String>>)
    requires
        root@ == "issue"@,
    ensures
        r is Some <==> slot_at(*doc, root@, key@) matches Some(Slot::Dict(_)),
        r matches Some(ks) ==> slot_at(*doc, root@, key@) matches Some(Slot::Dict(m))
            && texts(ks@).no_duplicates() && texts(ks@).to_set() == m.dom(),
{
    match doc.get_map(root).get(key) {
        Some(ValueOrContainer::Container(Container::Map(m))) => {
            let mut out: Vec<String> = Vec::new();
            for k in m.keys() {
                out.push(k.to_string());
            }
            Some(out)
        },
        _ => None,
    }
}

/// `LoroMap::get(..).is_some()` on the map under `key` of root map `root`.
/// Claimed: `None` exactly when that key holds no map, else whether `field`
/// is one of its keys.
#[verifier::external_body]
pub(crate) fn nested_has(doc: &loro::LoroDoc, root: &str, key: &str, field: &str) -> (r: Option<bool>)
    requires
        root@ == "issue"@,
    ensures
        r is None <==> !(slot_at(*doc, root@, key@) matches Some(Slot::Dict(_))),
        r matches Some(b) ==> slot_at(*doc, root@, key@) matches Some(Slot::Dict(m)) && b
            == m.contains_key(field@),
{
    match doc.get_map(root).get(key) {
        Some(ValueOrContainer::Container(Container::Map(m))) => Some(m.get(field).is_some()),
        _ => None,
    }
}

/// `LoroMap::insert` of a flag into the map under `key` of root map `root`.
/// Claimed: `None`, with nothing changed, exactly when that key holds no map;
/// on success `field` holds the flag and nothing else changed; an editable
/// document gives success; a failure changes nothing.
#[verifier::external_body]
pub(crate) fn nested_insert_flag(
    doc: &mut loro::LoroDoc,
    root: &str,
    key: &str,
    field: &str,
    value: bool,
) -> (r: Option<Result<(), loro::LoroError>>)
    requires
        root@ == "issue"@,
    ensures
        (loro_editable(*old(doc)) && slot_at(*old(doc), root@, key@) matches Some(Slot::Dict(_)))
            ==> r matches Some(Ok(_)),
        r matches Some(Err(_)) ==> loro_root_maps(*final(doc)) == loro_root_maps(*old(doc)),
        loro_editable(*final(doc)) == loro_editable(*old(doc)),
        r is None <==> !(slot_at(*old(doc), root@, key@) matches Some(Slot::Dict(_))),
        r is None ==> loro_root_maps(*final(doc)) == loro_root_maps(*old(doc)),
        r matches Some(Ok(_)) ==> slot_at(*old(doc), root@, key@) matches Some(Slot::Dict(m))
            && loro_root_maps(*final(doc)) == with_slot(
            *old(doc),
            root@,
            key@,
            Slot::Dict(m.insert(field@, Slot::Flag(value))),
        ),
{
    match doc.get_map(root).get(key) {
        Some(ValueOrContainer::Container(Container::Map(m))) => Some(m.insert(field, value)),
        _ => None,
    }
}

/// `LoroMap::delete` in the map under `key` of root map `root`. Claimed:
/// `None`, with nothing changed, exactly when that key holds no map; on
/// success `field` is gone and nothing else changed; an editable document
/// gives success; a failure changes nothing.
#[verifier::external_body]
pub(crate) fn nested_delete(doc: &mut loro::LoroDoc, root: &str, key: &str, field: &str) -> (r: Option<
    Result<(), loro::LoroError>,
>)
    requires
        root@ == "issue"@,
    ensures
        (loro_editable(*old(doc)) && slot_at(*old(doc), root@, key@) matches Some(Slot::Dict(_)))
            ==> r matches Some(Ok(_)),
        r matches Some(Err(_)) ==> loro_root_maps(*final(doc)) == loro_root_maps(*old(doc)),
        loro_editable(*final(doc)) == loro_editable(*old(doc)),
        r is None <==> !(slot_at(*old(doc), root@, key@) matches Some(Slot::Dict(_))),
        r is None ==> loro_root_maps(*final(doc)) == loro_root_maps(*old(doc)),
        r matches Some(Ok(_)) ==> slot_at(*old(doc), root@, key@) matches Some(Slot::Dict(m))
            && loro_root_maps(*final(doc)) == with_slot(
            *old(doc),
            root@,
            key@,
            Slot::Dict(m.remove(field@)),
        ),
{
    match doc.get_map(root).get(key) {
        Some(ValueOrContainer::Container(Container::Map(m))) => Some(m.delete(field)),
        _ => None,
    }
}

/// `LoroList::len` of the list under `key` of root map `root`. Claimed:
/// `Some` exactly when that key holds a list, with its length.
#[verifier::external_body]
pub(crate) fn list_len(doc: &loro::LoroDoc, root: &str, key: &str) -> (r: Option<usize>)
    requires
        root@ == "issue"@,
    ensures
        r is Some <==> slot_at(*doc, root@, key@) matches Some(Slot::List(_)),
        r matches Some(n) ==> slot_at(*doc, root@, key@) matches Some(Slot::List(l)) && n
            == l.len(),
{
    match doc.get_map(root).get(key) {
        Some(ValueOrContainer::Container(Container::List(l))) => Some(l.len()),
        _ => None,
    }
}

/// `LoroList::insert_container` of a new `LoroMap` into the list under `key`
/// of root map `root`. Claimed: `None`, with nothing changed, exactly when
/// that key holds no list; on success within bounds an empty map stands at
/// `pos` and nothing else changed; an editable document and a position within
/// the list give success, and only an editable document does; a failure
/// changes nothing.
#[verifier::external_body]
pub(crate) fn list_insert_map(doc: &mut loro::LoroDoc, root: &str, key: &str, pos: usize) -> (r: Option<
    Result<(), loro::LoroError>,
>)
    requires
        root@ == "issue"@,
    ensures
        r matches Some(Ok(_)) ==> loro_editable(*old(doc)),
        (loro_editable(*old(doc)) && (slot_at(*old(doc), root@, key@) matches Some(Slot::List(l))
            && pos <= l.len())) ==> r matches Some(Ok(_)),
        r matches Some(Err(_)) ==> loro_root_maps(*final(doc)) == loro_root_maps(*old(doc)),
        loro_editable(*final(doc)) == loro_editable(*old(doc)),
        r is None <==> !(slot_at(*old(doc), root@, key@) matches Some(Slot::List(_))),
        r is None ==> loro_root_maps(*final(doc)) == loro_root_maps(*old(doc)),
        r matches Some(Ok(_)) ==> slot_at(*old(doc), root@, key@) matches Some(Slot::List(l))
            && (pos <= l.len() ==> loro_root_maps(*final(doc)) == with_slot(
            *old(doc),
            root@,
            key@,
            Slot::List(
                l.subrange(0, pos as int).push(Slot::Dict(Map::empty())) + l.subrange(
                    pos as int,
                    l.len() as int,
                ),
            ),
        )),
{
    match doc.get_map(root).get(key) {
        Some(ValueOrContainer::Container(Container::List(l))) => {
            match l.insert_container(pos, LoroMap::new()) {
                Ok(_) => Some(Ok(())),
                Err(e) => Some(Err(e)),
            }
        },
        _ => None,
    }
}

/// The map at position `i` of the list under `key` of root map `root`, if
/// there is one.
pub open spec fn list_item_map(doc: loro::LoroDoc, root: Seq<char>, key: Seq<char>, i: int) -> Option<
    Map<Seq<char>, Slot>,
> {
    match slot_at(doc, root, key) {
        Some(Slot::List(l)) => if 0 <= i < l.len() {
            match l[i] {
                Slot::Dict(m) => Some(m),
                _ => None,
            }
        } else {
            None
        },
        _ => None,
    }
}

/// `LoroList::get` at `index` of the list under `key` of root map `root`,
/// asking whether it is a map. Claimed: exactly that.
#[verifier::external_body]
pub(crate) fn list_item_is_map(doc: &loro::LoroDoc, root: &str, key: &str, index: usize) -> (r: bool)
    requires
        root@ == "issue"@,
    ensures
        r <==> list_item_map(*doc, root@, key@, index as int) is Some,
{
    match doc.get_map(root).get(key) {
        Some(ValueOrContainer::Container(Container::List(l))) => match l.get(index) {
            Some(ValueOrContainer::Container(Container::Map(_))) => true,
            _ => false,
        },
        _ => false,
    }
}

/// `LoroMap::get` on the map at `index` of the list under `key` of root map
/// `root`. Claimed: `Some` exactly when that item is a map holding `field`,
/// with the value it holds.
#[verifier::external_body]
pub(crate) fn list_item_get(
    doc: &loro::LoroDoc,
    root: &str,
    key: &str,
    index: usize,
    field: &str,
) -> (r: Option<Scalar>)
    requires
        root@ == "issue"@,
    ensures
        r is Some <==> (list_item_map(*doc, root@, key@, index as int) matches Some(m)
            && m.contains_key(field@)),
        r matches Some(x) ==> list_item_map(*doc, root@, key@, index as int) matches Some(m)
            && reads_as(x, m.index(field@)),
{
    match doc.get_map(root).get(key) {
        Some(ValueOrContainer::Container(Container::List(l))) => match l.get(index) {
            Some(ValueOrContainer::Container(Container::Map(m))) => match m.get(field) {
                None => None,
                Some(ValueOrContainer::Value(LoroValue::String(s))) => Some(
                    Scalar::Str(s.to_string()),
                ),
                Some(ValueOrContainer::Value(LoroValue::I64(n))) => Some(Scalar::Int(n)),
                Some(ValueOrContainer::Value(LoroValue::Bool(b))) => Some(Scalar::Flag(b)),
                Some(_) => Some(Scalar::Other),
            },
            _ => None,
        },
        _ => None,
    }
}

/// The root maps of `doc` with `field` of the map at `index` of the list
/// under `key` of root `root` set to `s`.
pub open spec fn with_item_field(
    doc: loro::LoroDoc,
    root: Seq<char>,
    key: Seq<char>,
    index: int,
    field: Seq<char>,
    s: Slot,
) -> Map<Seq<char>, Map<Seq<char>, Slot>> {
    match slot_at(doc, root, key) {
        Some(Slot::List(l)) => with_slot(
            doc,
            root,
            key,
            Slot::List(l.update(index, Slot::Dict(list_item_map(doc, root, key, index)->0.insert(field, s)))),
        ),
        _ => loro_root_maps(doc),
    }
}

/// `LoroMap::insert` of a string into the map at `index` of the list under
/// `key` of root map `root`. Claimed: `None`, with nothing changed, exactly
/// when that item is not a map; on success `field` holds the string and
/// nothing else changed; an editable document gives success; a failure
/// changes nothing.
#[verifier::external_body]
pub(crate) fn list_item_insert_str(
    doc: &mut loro::LoroDoc,
    root: &str,
    key: &str,
    index: usize,
    field: &str,
    value: &str,
) -> (r: Option<Result<(), loro::LoroError>>)
    requires
        root@ == "issue"@,
    ensures
        (loro_editable(*old(doc)) && list_item_map(*old(doc), root@, key@, index as int) is Some)
            ==> r matches Some(Ok(_)),
        r matches Some(Err(_)) ==> loro_root_maps(*final(doc)) == loro_root_maps(*old(doc)),
        loro_editable(*final(doc)) == loro_editable(*old(doc)),
        r is None <==> list_item_map(*old(doc), root@, key@, index as int) is None,
        r is None ==> loro_root_maps(*final(doc)) == loro_root_maps(*old(doc)),
        r matches Some(Ok(_)) ==> loro_root_maps(*final(doc)) == with_item_field(
            *old(doc),
            root@,
            key@,
            index as int,
            field@,
            Slot::Str(value@),
        ),
{
    match doc.get_map(root).get(key) {
        Some(ValueOrContainer::Container(Container::List(l))) => match l.get(index) {
            Some(ValueOrContainer::Container(Container::Map(m))) => Some(m.insert(field, value)),
            _ => None,
        },
        _ => None,
    }
}

/// `LoroMap::insert` of an `i64` into the map at `index` of the list under
/// `key` of root map `root`. Claimed: `None`, with nothing changed, exactly
/// when that item is not a map; on success `field` holds the integer and
/// nothing else changed; an editable document gives success; a failure
/// changes nothing.
#[verifier::external_body]
pub(crate) fn list_item_insert_int(
    doc: &mut loro::LoroDoc,
    root: &str,
    key: &str,
    index: usize,
    field: &str,
    value: i64,
) -> (r: Option<Result<(), loro::LoroError>>)
    requires
        root@ == "issue"@,
    ensures
        (loro_editable(*old(doc)) && list_item_map(*old(doc), root@, key@, index as int) is Some)
            ==> r matches Some(Ok(_)),
        r matches Some(Err(_)) ==> loro_root_maps(*final(doc)) == loro_root_maps(*old(doc)),
        loro_editable(*final(doc)) == loro_editable(*old(doc)),
        r is None <==> list_item_map(*old(doc), root@, key@, index as int) is None,
        r is None ==> loro_root_maps(*final(doc)) == loro_root_maps(*old(doc)),
        r matches Some(Ok(_)) ==> loro_root_maps(*final(doc)) == with_item_field(
            *old(doc),
            root@,
            key@,
            index as int,
            field@,
            Slot::Int(value),
        ),
{
    match doc.get_map(root).get(key) {
        Some(ValueOrContainer::Container(Container::List(l))) => match l.get(index) {
            Some(ValueOrContainer::Container(Container::Map(m))) => Some(m.insert(field, value)),
            _ => None,
        },
        _ => None,
    }
}

/// `LoroDoc::commit`: close the pending transaction. It changes no content,
/// which the shared reference already says.
#[verifier::external_body]
pub(crate) fn commit(doc: &loro::LoroDoc) {
    doc.commit()
}

/// `LoroDoc::export(ExportMode::Snapshot)`: the document's full history and
/// state as bytes. Nothing is claimed about the bytes (they carry the
/// document's random peer id).
#[verifier::external_body]
pub(crate) fn export_snapshot(doc: &loro::LoroDoc) -> (r: Result<Vec<u8>, loro::LoroEncodeError>) {
    doc.export(loro::ExportMode::Snapshot)
}

/// `LoroDoc::import`: merge a snapshot or an update into the document.
/// Nothing is claimed about the merged contents.
#[verifier::external_body]
pub(crate) fn import(doc: &mut loro::LoroDoc, bytes: &[u8]) -> (r: Result<(), loro::LoroError>) {
    match doc.import(bytes) {
        Ok(_) => Ok(()),
        Err(e) => Err(e),
    }
}

/// `LoroDoc::oplog_frontiers`: the causal head of the document's history.
/// Nothing is claimed about it.
#[verifier::external_body]
pub(crate) fn oplog_frontiers(doc: &loro::LoroDoc) -> (r: loro::Frontiers) {
    doc.oplog_frontiers()
}

} // verus!
