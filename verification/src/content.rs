//! Caption content: mentions of captions, the text of a content value, and
//! the text materials of a draft.

use vstd::prelude::*;
use vstd::string::StringExecFns;
use crate::fields::{first_string, key_views, string_field};
use crate::json::{
    Json, array_items, field, field_of, items_weight, lemma_item_lighter,
    lemma_member_found_lighter, lemma_member_lighter, member, member_of, members_weight,
    parse_json, parsed_json, weight,
};
use crate::sort::views;
use crate::text::{
    chars_of, join_words, lemma_trim_shorter, mentions_caption, mentions_caption_text,
    normalize_caption_text, normalized, push_char, string_of, trim, trim_chars,
};

verus! {

/// Whether a value mentions captions anywhere: in a string, in an object key,
/// or in any nested value.
pub open spec fn caption_signal(value: Json) -> bool
    decreases value,
{
    match value {
        Json::String(s) => mentions_caption(s@),
        Json::Array(items) => any_caption_signal(items@),
        Json::Object(entries) => any_member_signal(entries@),
        _ => false,
    }
}

/// Some value of the list mentions captions.
pub open spec fn any_caption_signal(items: Seq<Json>) -> bool
    decreases items,
{
    if items.len() == 0 {
        false
    } else {
        caption_signal(items[0]) || any_caption_signal(items.drop_first())
    }
}

/// Some member of the list mentions captions in its key or its value.
pub open spec fn any_member_signal(entries: Seq<(String, Json)>) -> bool
    decreases entries,
{
    if entries.len() == 0 {
        false
    } else {
        mentions_caption(entries[0].0@) || caption_signal(entries[0].1) || any_member_signal(
            entries.drop_first(),
        )
    }
}

proof fn lemma_item_signal_at(items: Seq<Json>, i: int)
    requires
        0 <= i < items.len(),
        caption_signal(items[i]),
    ensures
        any_caption_signal(items),
    decreases i,
{
    if i > 0 {
        assert(items.drop_first()[i - 1] == items[i]);
        lemma_item_signal_at(items.drop_first(), i - 1);
    }
}

proof fn lemma_item_signal_witness(items: Seq<Json>) -> (i: int)
    requires
        any_caption_signal(items),
    ensures
        0 <= i < items.len(),
        caption_signal(items[i]),
    decreases items.len(),
{
    if caption_signal(items[0]) {
        0
    } else {
        let j = lemma_item_signal_witness(items.drop_first());
        assert(items.drop_first()[j] == items[j + 1]);
        j + 1
    }
}

proof fn lemma_member_signal_at(entries: Seq<(String, Json)>, i: int)
    requires
        0 <= i < entries.len(),
        mentions_caption(entries[i].0@) || caption_signal(entries[i].1),
    ensures
        any_member_signal(entries),
    decreases i,
{
    if i > 0 {
        assert(entries.drop_first()[i - 1] == entries[i]);
        lemma_member_signal_at(entries.drop_first(), i - 1);
    }
}

proof fn lemma_member_signal_witness(entries: Seq<(String, Json)>) -> (i: int)
    requires
        any_member_signal(entries),
    ensures
        0 <= i < entries.len(),
        mentions_caption(entries[i].0@) || caption_signal(entries[i].1),
    decreases entries.len(),
{
    if mentions_caption(entries[0].0@) || caption_signal(entries[0].1) {
        0
    } else {
        let j = lemma_member_signal_witness(entries.drop_first());
        assert(entries.drop_first()[j] == entries[j + 1]);
        j + 1
    }
}

proof fn lemma_object_signal(entries: Vec<(String, Json)>)
    ensures
        caption_signal(Json::Object(entries)) <==> exists|i: int|
            #![trigger entries@[i]]
            0 <= i < entries@.len() && (mentions_caption(entries@[i].0@) || caption_signal(
                entries@[i].1,
            )),
{
    let value = Json::Object(entries);
    assert(caption_signal(value) == any_member_signal(entries@));
    if any_member_signal(entries@) {
        let i = lemma_member_signal_witness(entries@);
        assert(mentions_caption(entries@[i].0@) || caption_signal(entries@[i].1));
    }
    if exists|i: int|
        #![trigger entries@[i]]
        0 <= i < entries@.len() && (mentions_caption(entries@[i].0@) || caption_signal(
            entries@[i].1,
        )) {
        let i = choose|i: int|
            #![trigger entries@[i]]
            0 <= i < entries@.len() && (mentions_caption(entries@[i].0@) || caption_signal(
                entries@[i].1,
            ));
        lemma_member_signal_at(entries@, i);
    }
}

/// Law: a string mentions captions when its lower-cased text holds one of the
/// words; an array when one of its elements does, at any depth; an object
/// when one of its keys mentions captions or one of its values, of any kind,
/// does; other values never.
pub proof fn lemma_caption_signal_meaning(value: Json)
    ensures
        value matches Json::String(s) ==> (caption_signal(value) == mentions_caption(s@)),
        value matches Json::Array(items) ==> (caption_signal(value) <==> exists|i: int|
            0 <= i < items@.len() && #[trigger] caption_signal(items@[i])),
        value matches Json::Object(entries) ==> (caption_signal(value) <==> exists|i: int|
            #![trigger entries@[i]]
            0 <= i < entries@.len() && (mentions_caption(entries@[i].0@) || caption_signal(
                entries@[i].1,
            ))),
        (value is Null || value is Bool || value is Number) ==> !caption_signal(value),
{
    match value {
        Json::Array(items) => {
            assert forall|i: int| 0 <= i < items@.len() && #[trigger] caption_signal(items@[i])
                implies caption_signal(value) by {
                lemma_item_signal_at(items@, i);
            }
            if caption_signal(value) {
                let i = lemma_item_signal_witness(items@);
                assert(caption_signal(items@[i]));
            }
        },
        Json::Object(entries) => lemma_object_signal(entries),
        _ => {},
    }
}

/// Searches a value for a mention of captions, subtitles or speech recognition.
pub fn contains_caption_signal(value: &Json) -> (res: bool)
    ensures
        res == caption_signal(*value),
        *value matches Json::Object(entries) ==> (forall|i: int|
            0 <= i < entries@.len() && #[trigger] caption_signal(entries@[i].1) ==> res),
        *value matches Json::Array(items) ==> (forall|i: int|
            0 <= i < items@.len() && #[trigger] caption_signal(items@[i]) ==> res),
    decreases weight(*value),
{
    proof {
        lemma_caption_signal_meaning(*value);
    }
    match value {
        Json::String(text) => mentions_caption_text(text.as_str()),
        Json::Array(items) => {
            let n = items.len();
            let mut i: usize = 0;
            assert(items@.skip(0) =~= items@);
            while i < n
                invariant
                    i <= n,
                    n == items@.len(),
                    *value == Json::Array(*items),
                    any_caption_signal(items@) == any_caption_signal(items@.skip(i as int)),
                decreases n - i,
            {
                assert(items@.skip(i as int).drop_first() =~= items@.skip(i + 1));
                proof {
                    lemma_item_lighter(items@, i as int);
                }
                if contains_caption_signal(&items[i]) {
                    return true;
                }
                i = i + 1;
            }
            false
        },
        Json::Object(entries) => {
            let n = entries.len();
            let mut i: usize = 0;
            assert(entries@.skip(0) =~= entries@);
            while i < n
                invariant
                    i <= n,
                    n == entries@.len(),
                    *value == Json::Object(*entries),
                    any_member_signal(entries@) == any_member_signal(entries@.skip(i as int)),
                decreases n - i,
            {
                assert(entries@.skip(i as int).drop_first() =~= entries@.skip(i + 1));
                proof {
                    lemma_member_lighter(entries@, i as int);
                }
                if mentions_caption_text(entries[i].0.as_str()) || contains_caption_signal(
                    &entries[i].1,
                ) {
                    return true;
                }
                i = i + 1;
            }
            false
        },
        _ => false,
    }
}


/// Keys whose string value is an object's own text.
pub open spec fn own_text_keys() -> Seq<Seq<char>> {
    seq!["text"@, "content"@, "words"@]
}

/// Keys under which an object keeps nested content.
pub open spec fn child_keys() -> Seq<Seq<char>> {
    seq!["texts"@, "children"@, "items"@]
}

/// The text of a caption's content. A string gives itself trimmed, unless
/// the trimmed text opens with `{` or `[` and parses as JSON: then the parsed
/// value's text. An array gives the texts of its elements that have a
/// non-blank text, joined by spaces. An object gives its first string among
/// `text`, `content`, `words`, else the first text found under `texts`,
/// `children`, `items`. Other values give nothing.
///
/// (A parsed text is never heavier than the text, so the weight comparison
/// below always holds; it makes the recursion's termination evident.)
pub open spec fn content_text(value: Json) -> Option<Seq<char>>
    decreases weight(value), 0nat,
{
    match value {
        Json::String(s) => {
            let t = trim(s@);
            if t.len() > 0 && (t[0] == '{' || t[0] == '[') {
                match parsed_json(t) {
                    Some(inner) => if weight(inner) < weight(value) {
                        content_text(inner)
                    } else {
                        Some(t)
                    },
                    None => Some(t),
                }
            } else {
                Some(t)
            }
        },
        Json::Array(items) => Some(join_words(kept_texts(items@))),
        Json::Object(entries) => match first_string(entries@, own_text_keys()) {
            Some(t) => Some(t),
            None => child_text(entries@, child_keys()),
        },
        _ => None,
    }
}

/// A text that opens with `{` or `[`.
pub open spec fn opens_json(t: Seq<char>) -> bool {
    t.len() > 0 && (t[0] == '{' || t[0] == '[')
}

/// Law: a string whose trimmed text does not open with `{` or `[` is its own
/// text, trimmed, whatever that text would parse to; one that opens so but
/// does not parse is its trimmed text too.
pub proof fn lemma_plain_string_text(value: Json)
    ensures
        value matches Json::String(s) ==> (!opens_json(trim(s@)) ==> content_text(value) == Some(
            trim(s@),
        )),
        value matches Json::String(s) ==> (parsed_json(trim(s@)) is None ==> content_text(value)
            == Some(trim(s@))),
{
}

/// The texts of the elements that have a non-blank text, in order.
pub open spec fn kept_texts(items: Seq<Json>) -> Seq<Seq<char>>
    decreases items_weight(items), 1nat,
{
    if items.len() == 0 {
        seq![]
    } else {
        proof {
            assert(weight(items[0]) >= 1);
        }
        let rest = kept_texts(items.drop_first());
        match content_text(items[0]) {
            Some(t) => if trim(t).len() > 0 {
                seq![t] + rest
            } else {
                rest
            },
            None => rest,
        }
    }
}

/// The first text found under one of `keys`.
pub open spec fn child_text(entries: Seq<(String, Json)>, keys: Seq<Seq<char>>) -> Option<Seq<char>>
    decreases members_weight(entries), 1 + keys.len(),
{
    if keys.len() == 0 {
        None
    } else {
        proof {
            lemma_member_found_lighter(entries, keys[0]);
        }
        match member(entries, keys[0]) {
            Some(v) => match content_text(v) {
                Some(t) => Some(t),
                None => child_text(entries, keys.drop_first()),
            },
            None => child_text(entries, keys.drop_first()),
        }
    }
}


/// Reads the text of a caption's content, as `content_text` describes.
pub fn extract_text_from_content(value: &Json) -> (res: Option<String>)
    ensures
        match res {
            Some(t) => content_text(*value) == Some(t@),
            None => content_text(*value) is None,
        },
        *value matches Json::String(s) ==> (!opens_json(trim(s@)) ==> (res matches Some(t) && t@
            == trim(s@))),
    decreases weight(*value),
{
    proof {
        lemma_plain_string_text(*value);
    }
    match value {
        Json::String(text) => {
            let chars = chars_of(text.as_str());
            let trimmed = trim_chars(&chars);
            let trimmed_text = string_of(&trimmed);
            proof {
                lemma_trim_shorter(text@);
            }
            if trimmed.len() > 0 && (trimmed[0] == '{' || trimmed[0] == '[') {
                if let Some(inner) = parse_json(trimmed_text.as_str()) {
                    return extract_text_from_content(&inner);
                }
            }
            Some(trimmed_text)
        },
        Json::Array(items) => {
            let n = items.len();
            let mut i: usize = 0;
            let mut out = String::new();
            let mut any = false;
            let ghost mut kept: Seq<Seq<char>> = seq![];
            assert(items@.skip(0) =~= items@);
            assert(kept + kept_texts(items@.skip(0)) =~= kept_texts(items@));
            while i < n
                invariant
                    i <= n,
                    n == items@.len(),
                    *value == Json::Array(*items),
                    kept + kept_texts(items@.skip(i as int)) == kept_texts(items@),
                    out@ == join_words(kept),
                    any == (kept.len() > 0),
                decreases n - i,
            {
                let ghost rest = items@.skip(i as int);
                assert(rest.drop_first() =~= items@.skip(i + 1));
                assert(rest[0] == items@[i as int]);
                proof {
                    lemma_item_lighter(items@, i as int);
                }
                if let Some(t) = extract_text_from_content(&items[i]) {
                    let t_chars = chars_of(t.as_str());
                    let t_trimmed = trim_chars(&t_chars);
                    if t_trimmed.len() > 0 {
                        if any {
                            push_char(&mut out, ' ');
                        }
                        out.append(t.as_str());
                        proof {
                            let next = kept.push(t@);
                            if kept.len() > 0 {
                                assert(next.drop_last() =~= kept);
                            }
                            assert(join_words(next) =~= out@);
                            assert(next + kept_texts(items@.skip(i + 1)) =~= kept + (seq![t@]
                                + kept_texts(items@.skip(i + 1))));
                            kept = next;
                        }
                        any = true;
                    }
                }
                i = i + 1;
            }
            assert(items@.skip(n as int) =~= Seq::<Json>::empty());
            assert(kept + Seq::<Seq<char>>::empty() =~= kept);
            Some(out)
        },
        Json::Object(entries) => {
            let own = ["text", "content", "words"];
            assert(key_views(own@) =~= own_text_keys());
            if let Some(t) = string_field(entries, &own) {
                return Some(t);
            }
            let children = ["texts", "children", "items"];
            assert(key_views(children@) =~= child_keys());
            let ghost keys = child_keys();
            assert(keys.skip(0) =~= keys);
            let mut i: usize = 0;
            while i < 3
                invariant
                    i <= 3,
                    *value == Json::Object(*entries),
                    key_views(children@) == keys,
                    keys == child_keys(),
                    first_string(entries@, own_text_keys()) is None,
                    child_text(entries@, keys) == child_text(entries@, keys.skip(i as int)),
                decreases 3 - i,
            {
                assert(keys.skip(i as int).drop_first() =~= keys.skip(i + 1));
                assert(keys.skip(i as int)[0] == children@[i as int]@);
                if let Some(child) = member_of(entries, children[i]) {
                    proof {
                        lemma_member_found_lighter(entries@, children@[i as int]@);
                    }
                    if let Some(t) = extract_text_from_content(child) {
                        return Some(t);
                    }
                }
                i = i + 1;
            }
            None
        },
        _ => None,
    }
}


/// A text material of the draft: its id, its normalized text, and whether it
/// mentions captions.
pub struct Material {
    pub id: String,
    pub text: String,
    pub caption: bool,
}

impl View for Material {
    type V = (Seq<char>, Seq<char>, bool);

    open spec fn view(&self) -> (Seq<char>, Seq<char>, bool) {
        (self.id@, self.text@, self.caption)
    }
}

/// The material's text before normalization: its `content`'s text, else its
/// first string among `text`, `words`.
pub open spec fn raw_material_text(object: Seq<(String, Json)>) -> Option<Seq<char>> {
    match member(object, "content"@) {
        Some(c) => match content_text(c) {
            Some(t) => Some(t),
            None => first_string(object, seq!["text"@, "words"@]),
        },
        None => first_string(object, seq!["text"@, "words"@]),
    }
}

/// The material an element of `materials.texts` describes: an object with a
/// string `id` (or `material_id`) and a text that is not blank.
pub open spec fn material_of(item: Json) -> Option<(Seq<char>, Seq<char>, bool)> {
    match item {
        Json::Object(object) => match first_string(object@, seq!["id"@, "material_id"@]) {
            None => None,
            Some(id) => match raw_material_text(object@) {
                None => None,
                Some(raw) => if normalized(raw).len() == 0 {
                    None
                } else {
                    Some((id, normalized(raw), caption_signal(item)))
                },
            },
        },
        _ => None,
    }
}

/// The materials described by a list of elements, in order.
pub open spec fn material_list(texts: Seq<Json>) -> Seq<(Seq<char>, Seq<char>, bool)>
    decreases texts.len(),
{
    if texts.len() == 0 {
        seq![]
    } else {
        let rest = material_list(texts.drop_first());
        match material_of(texts[0]) {
            Some(m) => seq![m] + rest,
            None => rest,
        }
    }
}

/// The array at `materials.texts`, when there is one.
pub open spec fn material_texts(value: Json) -> Option<Seq<Json>> {
    match field(value, "materials"@) {
        Some(m) => array_items(field(m, "texts"@)),
        None => None,
    }
}

/// The text materials of a draft, in document order.
pub open spec fn materials_of(value: Json) -> Seq<(Seq<char>, Seq<char>, bool)> {
    match material_texts(value) {
        Some(texts) => material_list(texts),
        None => seq![],
    }
}

/// The text and caption mention of the last material with the given id: a
/// later material replaces an earlier one of the same id.
pub open spec fn latest_material(materials: Seq<(Seq<char>, Seq<char>, bool)>, id: Seq<char>) -> Option<
    (Seq<char>, bool),
>
    decreases materials.len(),
{
    if materials.len() == 0 {
        None
    } else if materials.last().0 == id {
        Some((materials.last().1, materials.last().2))
    } else {
        latest_material(materials.drop_last(), id)
    }
}

fn material_from(item: &Json) -> (res: Option<Material>)
    ensures
        match res {
            Some(m) => material_of(*item) == Some(m@),
            None => material_of(*item) is None,
        },
{
    let object = match item {
        Json::Object(object) => object,
        _ => return None,
    };
    let id_keys = ["id", "material_id"];
    assert(key_views(id_keys@) =~= seq!["id"@, "material_id"@]);
    let id = match string_field(object, &id_keys) {
        Some(id) => id,
        None => return None,
    };
    let text_keys = ["text", "words"];
    assert(key_views(text_keys@) =~= seq!["text"@, "words"@]);
    let raw = match member_of(object, "content") {
        Some(content) => match extract_text_from_content(content) {
            Some(t) => Some(t),
            None => string_field(object, &text_keys),
        },
        None => string_field(object, &text_keys),
    };
    let raw = match raw {
        Some(r) => r,
        None => return None,
    };
    let text = normalize_caption_text(raw.as_str());
    if text.as_str().is_empty() {
        return None;
    }
    let caption = contains_caption_signal(item);
    Some(Material { id, text, caption })
}

/// Collects the text materials of a draft (`materials.texts`), in order.
pub fn text_materials(value: &Json) -> (res: Vec<Material>)
    ensures
        views(res@) == materials_of(*value),
{
    let mut materials: Vec<Material> = Vec::new();
    let texts = match field_of(value, "materials") {
        Some(m) => match field_of(m, "texts") {
            Some(Json::Array(texts)) => texts,
            _ => return materials,
        },
        None => return materials,
    };
    assert(material_texts(*value) == Some(texts@));
    let n = texts.len();
    let mut i: usize = 0;
    assert(texts@.skip(0) =~= texts@);
    while i < n
        invariant
            i <= n,
            n == texts@.len(),
            material_texts(*value) == Some(texts@),
            views(materials@) + material_list(texts@.skip(i as int)) == material_list(texts@),
        decreases n - i,
    {
        let ghost rest = texts@.skip(i as int);
        assert(rest.drop_first() =~= texts@.skip(i + 1));
        assert(rest[0] == texts@[i as int]);
        let ghost before = views(materials@);
        if let Some(m) = material_from(&texts[i]) {
            materials.push(m);
            assert(views(materials@) =~= before.push(m@));
            assert(before.push(m@) + material_list(texts@.skip(i + 1)) =~= before + (seq![m@]
                + material_list(texts@.skip(i + 1))));
        }
        i = i + 1;
    }
    assert(texts@.skip(n as int) =~= Seq::<Json>::empty());
    assert(views(materials@) + Seq::<(Seq<char>, Seq<char>, bool)>::empty() =~= views(materials@));
    materials
}

/// Looks up the last material with the given id.
pub fn find_material<'a>(materials: &'a Vec<Material>, id: &str) -> (res: Option<&'a Material>)
    ensures
        match res {
            Some(m) => latest_material(views(materials@), id@) == Some((m.text@, m.caption)),
            None => latest_material(views(materials@), id@) is None,
        },
{
    let wanted = id.to_owned();
    let mut j: usize = materials.len();
    assert(views(materials@).take(j as int) =~= views(materials@));
    while j > 0
        invariant
            j <= materials@.len(),
            wanted@ == id@,
            latest_material(views(materials@), id@) == latest_material(
                views(materials@).take(j as int),
                id@,
            ),
        decreases j,
    {
        let ghost prefix = views(materials@).take(j as int);
        assert(prefix.drop_last() =~= views(materials@).take(j - 1));
        assert(prefix.last() == materials@[j - 1]@);
        if materials[j - 1].id == wanted {
            return Some(&materials[j - 1]);
        }
        j = j - 1;
    }
    None
}

} // verus!
