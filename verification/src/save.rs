//! The loaded document: the original bytes, how they were stored, the parsed value tree,
//! the dirty flag and the entity index, with the operations that load, inspect, change
//! and save it.
//!
//! An unchanged document is saved as the bytes it was loaded from. A changed one is
//! rendered anew in the save-file dialect. Whether it is changed is found by rendering and
//! comparing, so that an edit which is taken back leaves the document clean again.

use vstd::prelude::*;
use vstd::string::StrSliceExecFns;
use vstd::utf8::{
    decode_utf8, encode_utf8, is_ascii_chars, is_ascii_chars_encode_utf8, valid_utf8,
};
use crate::format::{
    detect_format, format_of, line_ending_of, load_payload, newline_of, payload_of, read_text,
    store_text, stored_form, LineEnding, LoadError, SaveError, SaveFormat,
};
use crate::index::{
    build_index, group_items, index_of, last_occurrence, lemma_index_follows_last_occurrence,
    lemma_last_occurrence, IndexView, SaveIndex,
};
use crate::render::{float_texts_are_ascii, lemma_ti_save_text_is_ascii, ti_save_text};
use crate::statics::{TI_COMMON_NAMESPACE, TI_FIELD_VALUE_CAP, TI_GAMESTATES, TI_PROP_CURRENT_ID};
use crate::text::{chars_of, str_eq};
use crate::value::{
    field, keys_unique, lemma_key_position_is, reference_target, views, with_field, ObjectMap,
    TiValue, ValueView,
};

verus! {

/// Mathematical content of a [`DecodedSave`].
pub struct DecodedView {
    pub format: SaveFormat,
    pub line_ending: LineEnding,
    pub original_bytes: Seq<u8>,
    pub text: Seq<char>,
}

/// Mathematical content of a [`LoadedSave`].
pub struct SaveView {
    pub format: SaveFormat,
    pub line_ending: LineEnding,
    pub original_bytes: Seq<u8>,
    pub root: ValueView,
    pub dirty: bool,
    pub index: IndexView,
}

/// A save file whose bytes have been turned into text that is yet to be parsed.
#[derive(Debug, Clone)]
pub struct DecodedSave {
    pub format: SaveFormat,
    pub line_ending: LineEnding,
    pub original_bytes: Vec<u8>,
    pub text: String,
}

/// A loaded save document.
#[derive(Debug, Clone)]
pub struct LoadedSave {
    /// How the file was stored.
    pub format: SaveFormat,
    /// The line terminator that the file used and that rendering uses again.
    pub line_ending: LineEnding,
    /// The bytes of the file as it was loaded or last saved.
    pub original_bytes: Vec<u8>,
    /// The parsed document.
    pub root: TiValue,
    /// Whether the document differs from `original_bytes`.
    pub dirty: bool,
    /// The entity index. It follows the document only through
    /// [`LoadedSave::rebuild_index`].
    pub index: SaveIndex,
}

impl View for DecodedSave {
    type V = DecodedView;

    open spec fn view(&self) -> DecodedView {
        DecodedView {
            format: self.format,
            line_ending: self.line_ending,
            original_bytes: self.original_bytes@,
            text: self.text@,
        }
    }
}

impl View for LoadedSave {
    type V = SaveView;

    open spec fn view(&self) -> SaveView {
        SaveView {
            format: self.format,
            line_ending: self.line_ending,
            original_bytes: self.original_bytes@,
            root: self.root@,
            dirty: self.dirty,
            index: self.index@,
        }
    }
}

/// What decoding the bytes of a file gives: `None` where the gzip stream is malformed or
/// the text is not UTF-8.
pub open spec fn decoded(extension: Option<&str>, bytes: Seq<u8>) -> Option<DecodedView> {
    let format = format_of(extension, bytes);
    match payload_of(format, bytes) {
        Some(payload) => if valid_utf8(payload) {
            Some(
                DecodedView {
                    format,
                    line_ending: line_ending_of(payload),
                    original_bytes: bytes,
                    text: decode_utf8(payload),
                },
            )
        } else {
            None
        },
        None => None,
    }
}

/// The document that a decoded file and its parsed text make: clean, with a fresh index.
pub open spec fn loaded(d: DecodedView, root: ValueView) -> SaveView {
    SaveView {
        format: d.format,
        line_ending: d.line_ending,
        original_bytes: d.original_bytes,
        root,
        dirty: false,
        index: index_of(root),
    }
}

/// The text of the document in the save-file rendering, with its own line ending.
pub open spec fn rendered_text(s: SaveView) -> Seq<char> {
    ti_save_text(s.root, 0, newline_of(s.line_ending))
}

/// The bytes that rendering the document anew gives in `format`; `None` where the
/// compressor fails.
pub open spec fn generated_bytes(s: SaveView, format: SaveFormat) -> Option<Seq<u8>> {
    stored_form(format, encode_utf8(rendered_text(s)))
}

/// The bytes that saving the document in `format` gives: the original bytes for a clean
/// document in its own format, the rendering otherwise.
pub open spec fn saved_bytes(s: SaveView, format: SaveFormat) -> Option<Seq<u8>> {
    if !s.dirty && format == s.format {
        Some(s.original_bytes)
    } else {
        generated_bytes(s, format)
    }
}

/// Whether the document differs from its original bytes: whether rendering it in its own
/// format fails or gives other bytes.
pub open spec fn differs_from_original(s: SaveView) -> bool {
    generated_bytes(s, s.format) != Some(s.original_bytes)
}

/// The ID of the save: the target of the top-level `currentID` reference.
pub open spec fn game_id_of(root: ValueView) -> Option<i64> {
    match field(root, TI_PROP_CURRENT_ID@) {
        Some(v) => reference_target(v),
        None => None,
    }
}

/// The property map of the entity at position `idx` of `group`: the `Value` member of that
/// array element, where every step of the way has the expected shape.
pub open spec fn entity_properties(root: ValueView, group: Seq<char>, idx: nat) -> Option<
    Seq<(Seq<char>, ValueView)>,
> {
    match field(root, TI_GAMESTATES@) {
        Some(groups) => match field(groups, group) {
            Some(ValueView::Array(items)) => if idx < items.len() {
                match field(items[idx as int], TI_FIELD_VALUE_CAP@) {
                    Some(ValueView::Object(props)) => Some(props),
                    _ => None,
                }
            } else {
                None
            },
            _ => None,
        },
        None => None,
    }
}

/// The property map of the entity `id` of `group` as the index locates it: `None` where
/// the index does not know the ID, places it in another group, or points at something that
/// is no entity record.
pub open spec fn located_properties(s: SaveView, group: Seq<char>, id: i64) -> Option<
    Seq<(Seq<char>, ValueView)>,
> {
    if s.index.id_lookup.contains_key(id) && s.index.id_lookup[id].0 == group {
        entity_properties(s.root, group, s.index.id_lookup[id].1)
    } else {
        None
    }
}

/// The document after the property map of the entity at position `idx` of `group` has
/// been replaced by `props`; everything else stays as it is.
pub open spec fn with_entity_properties(
    root: ValueView,
    group: Seq<char>,
    idx: nat,
    props: Seq<(Seq<char>, ValueView)>,
) -> ValueView
    recommends
        entity_properties(root, group, idx).is_some(),
{
    let groups = field(root, TI_GAMESTATES@).unwrap();
    let items = field(groups, group).unwrap()->Array_0;
    let item = with_field(items[idx as int], TI_FIELD_VALUE_CAP@, ValueView::Object(props));
    with_field(
        root,
        TI_GAMESTATES@,
        with_field(groups, group, ValueView::Array(items.update(idx as int, item))),
    )
}

/// A group name without the namespace that most groups share.
pub open spec fn short_group_name(group: Seq<char>) -> Seq<char> {
    let prefix = TI_COMMON_NAMESPACE@;
    if prefix.len() <= group.len() && group.take(prefix.len() as int) == prefix {
        group.skip(prefix.len() as int)
    } else {
        group
    }
}

/// Whether two byte strings are equal.
pub fn bytes_equal(a: &[u8], b: &[u8]) -> (r: bool)
    ensures
        r == (a@ == b@),
{
    if a.len() != b.len() {
        return false;
    }
    let mut i: usize = 0;
    while i < a.len()
        invariant
            i <= a@.len(),
            a@.len() == b@.len(),
            forall|k: int| 0 <= k < i ==> a@[k] == b@[k],
        decreases a@.len() - i,
    {
        if a[i] != b[i] {
            return false;
        }
        i = i + 1;
    }
    assert(a@ =~= b@);
    true
}

/// Element `idx` of an array, for changing it in place.
fn element_mut(items: &mut Vec<TiValue>, idx: usize) -> (r: &mut TiValue)
    requires
        idx < old(items)@.len(),
    ensures
        r@ == views(old(items)@)[idx as int],
        views(final(items)@) == views(old(items)@).update(idx as int, final(r)@),
{
    &mut items[idx]
}

/// Turns the bytes of a save file into text: detects the format, decompresses where
/// needed, detects the line ending and checks that the text is UTF-8.
pub fn decode_save(extension: Option<&str>, bytes: Vec<u8>) -> (r: Result<DecodedSave, LoadError>)
    ensures
        match r {
            Ok(d) => decoded(extension, bytes@) == Some(d@),
            Err(e) => decoded(extension, bytes@).is_none() && (e is Decompress <==> payload_of(
                format_of(extension, bytes@),
                bytes@,
            ).is_none()),
        },
{
    let format = detect_format(extension, bytes.as_slice());
    let payload = match load_payload(format, &bytes) {
        Ok(p) => p,
        Err(e) => {
            return Err(e);
        },
    };
    match read_text(payload.as_slice()) {
        Ok((line_ending, text)) => Ok(
            DecodedSave { format, line_ending, original_bytes: bytes, text },
        ),
        Err(e) => Err(e),
    }
}

impl LoadedSave {
    /// The document that a decoded file and the value parsed from its text make. It is
    /// clean and its index is fresh.
    pub fn from_decoded(decoded: DecodedSave, root: TiValue) -> (r: LoadedSave)
        ensures
            r@ == loaded(decoded@, root@),
    {
        let index = build_index(&root);
        LoadedSave {
            format: decoded.format,
            line_ending: decoded.line_ending,
            original_bytes: decoded.original_bytes,
            root,
            dirty: false,
            index,
        }
    }

    /// Derives the index anew from the document.
    pub fn rebuild_index(&mut self)
        ensures
            final(self)@ == (SaveView { index: index_of(old(self)@.root), ..old(self)@ }),
    {
        self.index = build_index(&self.root);
    }

    /// Marks the document as changed.
    pub fn mark_dirty(&mut self)
        ensures
            final(self)@ == (SaveView { dirty: true, ..old(self)@ }),
    {
        self.dirty = true;
    }

    /// Finds out anew whether the document differs from its original bytes, by rendering
    /// it in its own format. A failure to render counts as a difference.
    pub fn refresh_dirty(&mut self)
        ensures
            final(self)@ == (SaveView { dirty: differs_from_original(old(self)@), ..old(self)@ }),
    {
        match self.generate_bytes_for_format(self.format) {
            Ok(current) => {
                self.dirty = !bytes_equal(current.as_slice(), self.original_bytes.as_slice());
            },
            Err(_) => {
                self.dirty = true;
            },
        }
    }

    /// Renders the document in the save-file dialect with its own line ending and stores
    /// the text in `format`, whether or not the document is dirty.
    pub fn generate_bytes_for_format(&self, format: SaveFormat) -> (r: Result<
        Vec<u8>,
        SaveError,
    >)
        ensures
            match r {
                Ok(bytes) => generated_bytes(self@, format) == Some(bytes@),
                Err(_) => generated_bytes(self@, format).is_none(),
            },
    {
        let text = self.root.to_ti_save_pretty_with_newline(self.line_ending.as_str());
        let text_bytes = text.as_str().as_bytes_vec();
        store_text(format, text_bytes)
    }

    /// The bytes to write when saving in `format`: the original bytes for a clean
    /// document in its own format, the rendering otherwise.
    pub fn save_bytes_for_format(&self, format: SaveFormat) -> (r: Result<Vec<u8>, SaveError>)
        ensures
            match r {
                Ok(bytes) => saved_bytes(self@, format) == Some(bytes@),
                Err(_) => saved_bytes(self@, format).is_none(),
            },
    {
        if !self.dirty && format == self.format {
            return Ok(self.original_bytes.clone());
        }
        self.generate_bytes_for_format(format)
    }

    /// Records that `bytes` were written out in `format`: they are the original bytes from
    /// now on, and the document is clean.
    pub fn record_saved(&mut self, format: SaveFormat, bytes: Vec<u8>)
        ensures
            final(self)@ == (SaveView {
                format,
                original_bytes: bytes@,
                dirty: false,
                ..old(self)@
            }),
    {
        self.format = format;
        self.original_bytes = bytes;
        self.dirty = false;
    }

    /// The ID of the save.
    pub fn game_id(&self) -> (r: Option<i64>)
        ensures
            r == game_id_of(self@.root),
    {
        match self.root.get(TI_PROP_CURRENT_ID) {
            Some(v) => v.is_relational_ref(),
            None => None,
        }
    }
    /// A group name for display: without the namespace that most groups share.
    pub fn group_display_name(group: &str) -> (r: &str)
        ensures
            r@ == short_group_name(group@),
    {
        let name = chars_of(group);
        let prefix = chars_of(TI_COMMON_NAMESPACE);
        if prefix.len() > name.len() {
            return group;
        }
        let mut i: usize = 0;
        while i < prefix.len()
            invariant
                i <= prefix@.len() <= name@.len(),
                name@ == group@,
                prefix@ == TI_COMMON_NAMESPACE@,
                forall|k: int| 0 <= k < i ==> name@[k] == prefix@[k],
            decreases prefix@.len() - i,
        {
            if name[i] != prefix[i] {
                assert(name@.take(prefix@.len() as int)[i as int] != prefix@[i as int]);
                return group;
            }
            i = i + 1;
        }
        assert(name@.take(prefix@.len() as int) =~= prefix@);
        assert(name@.skip(prefix@.len() as int) =~= name@.subrange(
            prefix@.len() as int,
            name@.len() as int,
        ));
        group.substring_char(prefix.len(), name.len())
    }

    /// Where the index places the entity `object_id`, provided it places it in `group`.
    fn locate(&self, group: &str, object_id: i64) -> (r: Option<usize>)
        ensures
            match r {
                Some(idx) => self@.index.id_lookup.contains_key(object_id)
                    && self@.index.id_lookup[object_id] == (group@, idx as nat),
                None => !(self@.index.id_lookup.contains_key(object_id)
                    && self@.index.id_lookup[object_id].0 == group@),
            },
    {
        broadcast use vstd::std_specs::hash::group_hash_axioms;

        match self.index.id_lookup.get(&object_id) {
            Some(entry) => {
                if str_eq(entry.0.as_str(), group) {
                    Some(entry.1)
                } else {
                    None
                }
            },
            None => None,
        }
    }

    /// The property map of the entity `object_id` of `group`. The index says where the
    /// entity stands; the answer is `None` where the index does not know the ID or places
    /// it in another group, and where the document has another shape at that place than
    /// the index expects.
    pub fn get_object_value(&self, group: &str, object_id: i64) -> (r: Option<&ObjectMap>)
        ensures
            match r {
                Some(props) => located_properties(self@, group@, object_id) == Some(props@),
                None => located_properties(self@, group@, object_id).is_none(),
            },
    {
        let idx = match self.locate(group, object_id) {
            Some(idx) => idx,
            None => {
                return None;
            },
        };
        let gamestates = match self.root.get(TI_GAMESTATES) {
            Some(v) => v,
            None => {
                return None;
            },
        };
        let items = match gamestates.get(group) {
            Some(v) => match v.as_array() {
                Some(items) => items,
                None => {
                    return None;
                },
            },
            None => {
                return None;
            },
        };
        if idx >= items.len() {
            return None;
        }
        match items[idx].get(TI_FIELD_VALUE_CAP) {
            Some(v) => v.as_object(),
            None => None,
        }
    }
    /// The property map of the entity `object_id` of `group`, for changing it in place;
    /// found as [`LoadedSave::get_object_value`] finds it. The index and the dirty flag
    /// are left as they are: rebuild and refresh them after the change.
    pub fn get_object_value_mut(&mut self, group: &str, object_id: i64) -> (r: Option<
        &mut ObjectMap,
    >)
        ensures
            match r {
                Some(props) => located_properties(old(self)@, group@, object_id) == Some(
                    props@,
                ) && final(self)@ == (SaveView {
                    root: with_entity_properties(
                        old(self)@.root,
                        group@,
                        old(self)@.index.id_lookup[object_id].1,
                        final(props)@,
                    ),
                    ..old(self)@
                }),
                None => located_properties(old(self)@, group@, object_id).is_none()
                    && final(self)@ == old(self)@,
            },
    {
        if self.get_object_value(group, object_id).is_none() {
            return None;
        }
        let idx = match self.locate(group, object_id) {
            Some(idx) => idx,
            None => {
                return None;
            },
        };
        let gamestates = match self.root.get_mut(TI_GAMESTATES) {
            Some(v) => v,
            None => {
                return None;
            },
        };
        let listed = match gamestates.get_mut(group) {
            Some(v) => v,
            None => {
                return None;
            },
        };
        let items = match listed.as_array_mut() {
            Some(items) => items,
            None => {
                return None;
            },
        };
        if idx >= items.len() {
            return None;
        }
        let entry = element_mut(items, idx);
        let value = match entry.get_mut(TI_FIELD_VALUE_CAP) {
            Some(v) => v,
            None => {
                return None;
            },
        };
        value.as_object_mut()
    }
}

/// Saving a clean document in its own format gives the bytes it was loaded from.
pub proof fn lemma_clean_save_is_original(s: SaveView)
    requires
        !s.dirty,
    ensures
        saved_bytes(s, s.format) == Some(s.original_bytes),
{
}

/// Loading and saving change nothing: whatever the file holds and whatever its text
/// parses to, loading it and saving it in the format it was detected to have gives the
/// same bytes, for plain and for gzip files alike.
pub proof fn lemma_load_then_save_is_identity(
    extension: Option<&str>,
    bytes: Seq<u8>,
    root: ValueView,
)
    requires
        decoded(extension, bytes).is_some(),
    ensures
        saved_bytes(loaded(decoded(extension, bytes).unwrap(), root), format_of(extension, bytes))
            == Some(bytes),
{
}

/// Whether a document differs from its original bytes depends on what it holds now, not
/// on how it got there: two documents with the same value, format, line ending and
/// original bytes differ or not alike.
pub proof fn lemma_dirty_follows_content(a: SaveView, b: SaveView)
    requires
        a.root == b.root,
        a.format == b.format,
        a.line_ending == b.line_ending,
        a.original_bytes == b.original_bytes,
    ensures
        differs_from_original(a) == differs_from_original(b),
{
}

/// Where a document renders to its original bytes, an edit that is taken back leaves it
/// so: after any change of the value and the change back, it does not differ from its
/// original bytes, whatever the flag and the index were in between.
pub proof fn lemma_reverted_edit_is_clean(s: SaveView, edited: SaveView)
    requires
        !differs_from_original(s),
        edited.format == s.format,
        edited.line_ending == s.line_ending,
        edited.original_bytes == s.original_bytes,
    ensures
        !differs_from_original(SaveView { root: s.root, ..edited }),
{
    lemma_dirty_follows_content(s, SaveView { root: s.root, ..edited });
}

/// A document saved as plain text is ASCII: rendering anew gives one byte for each
/// character of the rendering, none of them beyond 127, whatever the strings of the
/// document hold, provided the renderings that its floats carry are ASCII.
pub proof fn lemma_plain_bytes_are_ascii(s: SaveView)
    requires
        float_texts_are_ascii(s.root),
    ensures
        generated_bytes(s, SaveFormat::Json5) == Some(encode_utf8(rendered_text(s))),
        is_ascii_chars(rendered_text(s)),
        encode_utf8(rendered_text(s)).len() == rendered_text(s).len(),
        forall|i: int|
            0 <= i < rendered_text(s).len() ==> (#[trigger] encode_utf8(rendered_text(s))[i])
                == rendered_text(s)[i] as u8 && encode_utf8(rendered_text(s))[i] < 128,
{
    reveal_strlit("\n");
    reveal_strlit("\r\n");
    lemma_ti_save_text_is_ascii(s.root, 0, newline_of(s.line_ending));
    is_ascii_chars_encode_utf8(rendered_text(s));
}

/// With a fresh index every entity is found under its own group, and what is found is the
/// `Value` member of the last element that carries the ID; an ID that no entity carries is
/// found under no group.
pub proof fn lemma_fresh_index_finds_entities(
    s: SaveView,
    groups: Seq<(Seq<char>, ValueView)>,
    id: i64,
)
    requires
        field(s.root, TI_GAMESTATES@) == Some(ValueView::Object(groups)),
        keys_unique(groups),
        s.index == index_of(s.root),
    ensures
        match last_occurrence(groups, groups.len(), id) {
            Some((g, i)) => located_properties(s, groups[g as int].0, id) == (match field(
                group_items(groups[g as int].1)[i as int],
                TI_FIELD_VALUE_CAP@,
            ) {
                Some(ValueView::Object(props)) => Some(props),
                _ => None,
            }),
            None => forall|group: Seq<char>| located_properties(s, group, id).is_none(),
        },
{
    lemma_index_follows_last_occurrence(groups, groups.len(), id);
    lemma_last_occurrence(groups, groups.len(), id);
    match last_occurrence(groups, groups.len(), id) {
        Some((g, i)) => {
            let name = groups[g as int].0;
            assert forall|k: int| 0 <= k < g implies (#[trigger] groups[k]).0 != name by {
                assert(groups[k].0 != groups[g as int].0);
            }
            lemma_key_position_is(groups, name, g as int);
        },
        None => {},
    }
}

} // verus!
