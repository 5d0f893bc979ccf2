//! How the search engine reads JSON documents.

use crate::json::Json;
use crate::text::{opt_text, same_text, texts};
use crate::text_split::{split, split_on};
use vstd::prelude::*;
use vstd::string::*;

verus! {

/// How a field is indexed.
#[derive(Debug)]
pub struct FtsFieldMapping {
    /// The path of the field, such as `user.bio`.
    pub field: String,
    /// The tokenizer for this field, if it is not the one of the index.
    pub analyzer: Option<String>,
    /// Whether the value is kept for highlighting.
    pub store: bool,
}

/// What a [`FtsFieldMapping`] stands for.
#[verifier::ext_equal]
pub struct MappingView {
    pub field: Seq<char>,
    pub analyzer: Option<Seq<char>>,
    pub store: bool,
}

impl View for FtsFieldMapping {
    type V = MappingView;

    open spec fn view(&self) -> MappingView {
        MappingView { field: self.field@, analyzer: opt_text(self.analyzer), store: self.store }
    }
}

impl FtsFieldMapping {
    /// A copy.
    pub fn copy(&self) -> (r: FtsFieldMapping)
        ensures
            r == *self,
    {
        FtsFieldMapping {
            field: self.field.clone(),
            analyzer: crate::text::copy_opt(&self.analyzer),
            store: self.store,
        }
    }
}

/// What a list of mappings stands for.
pub open spec fn mapping_views(v: Seq<FtsFieldMapping>) -> Seq<MappingView> {
    Seq::new(v.len(), |i: int| v[i]@)
}

/// A copy of a list of mappings.
pub fn copy_mappings(v: &Vec<FtsFieldMapping>) -> (r: Vec<FtsFieldMapping>)
    ensures
        r@ == v@,
{
    let mut out: Vec<FtsFieldMapping> = Vec::new();
    let mut i: usize = 0;
    while i < v.len()
        invariant
            i <= v@.len(),
            out@ == v@.take(i as int),
        decreases v@.len() - i,
    {
        out.push(v[i].copy());
        i = i + 1;
        assert(out@ =~= v@.take(i as int));
    }
    assert(out@ =~= v@);
    out
}

/// The path of a key below another path.
pub open spec fn path_below(prefix: Seq<char>, key: Seq<char>) -> Seq<char> {
    if prefix.len() == 0 {
        key
    } else {
        prefix + "."@ + key
    }
}

/// Whether an array has a text in it.
pub open spec fn has_text(v: Seq<Json>) -> bool {
    exists|i: int| 0 <= i < v.len() && #[trigger] v[i] is Text
}

/// The paths of the fields of a value that hold text, directly or in an array.
pub open spec fn text_paths(v: Json, prefix: Seq<char>) -> Seq<Seq<char>>
    decreases v, 0nat,
{
    match v {
        Json::Object(members) => member_paths(members, prefix, members@.len()),
        _ => Seq::empty(),
    }
}

/// The paths of the fields that hold text among the first `k` members of an object.
pub open spec fn member_paths(members: Vec<(String, Json)>, prefix: Seq<char>, k: nat) -> Seq<Seq<char>>
    decreases members, k,
{
    if k == 0 || k > members@.len() {
        Seq::empty()
    } else {
        let rest = member_paths(members, prefix, (k - 1) as nat);
        let (key, value) = members@[k - 1];
        let path = path_below(prefix, key@);
        rest + match value {
            Json::Text(_) => seq![path],
            Json::Object(_) => text_paths(value, path),
            Json::Array(items) => if has_text(items@) {
                seq![path]
            } else {
                Seq::empty()
            },
            _ => Seq::empty(),
        }
    }
}

/// The mapping of a field that was found by itself: stored, with the tokenizer of the index.
pub open spec fn found_mapping(path: Seq<char>) -> MappingView {
    MappingView { field: path, analyzer: None, store: true }
}

/// The mappings of fields that were found by themselves.
pub open spec fn found_mappings(paths: Seq<Seq<char>>) -> Seq<MappingView> {
    Seq::new(paths.len(), |i: int| found_mapping(paths[i]))
}

fn array_has_text(items: &Vec<Json>) -> (r: bool)
    ensures
        r == has_text(items@),
{
    let mut i: usize = 0;
    while i < items.len()
        invariant
            i <= items@.len(),
            forall|k: int| 0 <= k < i ==> !(#[trigger] items@[k] is Text),
        decreases items@.len() - i,
    {
        match &items[i] {
            Json::Text(_) => {
                assert(items@[i as int] is Text);
                return true;
            },
            _ => {},
        }
        i = i + 1;
    }
    false
}

fn push_found(out: &mut Vec<FtsFieldMapping>, path: String)
    ensures
        mapping_views(final(out)@) == mapping_views(old(out)@).push(found_mapping(path@)),
{
    let ghost prior = out@;
    out.push(FtsFieldMapping { field: path, analyzer: None, store: true });
    assert(mapping_views(out@) =~= mapping_views(prior).push(found_mapping(path@)));
}

/// The fields of a value that hold text, directly or in an array.
pub fn discover_string_fields(value: &Json, prefix: &str) -> (r: Vec<FtsFieldMapping>)
    ensures
        mapping_views(r@) == found_mappings(text_paths(*value, prefix@)),
    decreases *value,
{
    let mut out: Vec<FtsFieldMapping> = Vec::new();
    match value {
        Json::Object(members) => {
            let mut k: usize = 0;
            assert(mapping_views(out@) =~= found_mappings(member_paths(*members, prefix@, 0)));
            while k < members.len()
                invariant
                    k <= members@.len(),
                    *value == Json::Object(*members),
                    mapping_views(out@) == found_mappings(
                        member_paths(*members, prefix@, k as nat),
                    ),
                decreases members@.len() - k,
            {
                let ghost prior = out@;
                let ghost rest = member_paths(*members, prefix@, k as nat);
                let ghost path_view = path_below(prefix@, members@[k as int].0@);
                let path = if prefix.is_empty() {
                    members[k].0.clone()
                } else {
                    let mut p = prefix.to_owned();
                    p.append(".");
                    p.append(members[k].0.as_str());
                    p
                };
                assert(path@ == path_view);
                match &members[k].1 {
                    Json::Text(_) => {
                        push_found(&mut out, path);
                        assert(found_mappings(rest + seq![path_view]) =~= found_mappings(rest).push(
                            found_mapping(path_view),
                        ));
                    },
                    Json::Object(_) => {
                        assert(decreases_to!(*members => members@[k as int]));
                        assert(value->Object_0 == *members);
                        assert(decreases_to!(*value => members@[k as int].1));
                        let mut inner = discover_string_fields(&members[k].1, path.as_str());
                        let ghost below = text_paths(members@[k as int].1, path_view);
                        let ghost inner_views = mapping_views(inner@);
                        let ghost inner_list = inner@;
                        out.append(&mut inner);
                        assert(mapping_views(out@) =~= mapping_views(prior) + inner_views) by {
                            assert(out@ == prior + inner_list);
                        }
                        assert(found_mappings(rest + below) =~= found_mappings(rest)
                            + found_mappings(below));
                    },
                    Json::Array(items) => {
                        if array_has_text(items) {
                            push_found(&mut out, path);
                            assert(found_mappings(rest + seq![path_view]) =~= found_mappings(
                                rest,
                            ).push(found_mapping(path_view)));
                        } else {
                            assert(rest + Seq::<Seq<char>>::empty() =~= rest);
                        }
                    },
                    _ => {
                        assert(rest + Seq::<Seq<char>>::empty() =~= rest);
                    },
                }
                k = k + 1;
            }
        },
        _ => {
            assert(mapping_views(out@) =~= found_mappings(text_paths(*value, prefix@)));
        },
    }
    out
}

/// The place of the first member of that name at or after place `i`.
pub open spec fn member_place(members: Seq<(String, Json)>, name: Seq<char>, i: int) -> Option<int>
    decreases members.len() - i,
{
    if i < 0 || i >= members.len() {
        None
    } else if members[i].0@ == name {
        Some(i)
    } else {
        member_place(members, name, i + 1)
    }
}

/// The value that a path leads to, name by name from place `i` on.
pub open spec fn nested(v: Json, parts: Seq<Seq<char>>, i: int) -> Option<Json>
    decreases parts.len() - i,
{
    if i < 0 || i >= parts.len() {
        Some(v)
    } else {
        match v {
            Json::Object(members) => match member_place(members@, parts[i], 0) {
                Some(p) => nested(members@[p].1, parts, i + 1),
                None => None,
            },
            _ => None,
        }
    }
}

fn find_member(members: &Vec<(String, Json)>, name: &str) -> (r: Option<usize>)
    ensures
        match r {
            Some(p) => member_place(members@, name@, 0) == Some(p as int) && p < members@.len(),
            None => member_place(members@, name@, 0) is None,
        },
{
    let mut i: usize = 0;
    while i < members.len()
        invariant
            i <= members@.len(),
            member_place(members@, name@, 0) == member_place(members@, name@, i as int),
        decreases members@.len() - i,
    {
        if same_text(members[i].0.as_str(), name) {
            return Some(i);
        }
        i = i + 1;
    }
    None
}

/// The value that a path leads to, its names separated by dots.
pub fn get_nested_value<'a>(value: &'a Json, path: &str) -> (r: Option<&'a Json>)
    ensures
        match r {
            Some(v) => nested(*value, split(path@, '.'), 0) == Some(*v),
            None => nested(*value, split(path@, '.'), 0) is None,
        },
{
    let parts = split_on(path, '.');
    let ghost names = split(path@, '.');
    assert(texts(parts@).len() == parts@.len());
    let mut current = value;
    let mut i: usize = 0;
    while i < parts.len()
        invariant
            i <= parts@.len(),
            names == texts(parts@),
            names == split(path@, '.'),
            nested(*value, names, 0) == nested(*current, names, i as int),
        decreases parts@.len() - i,
    {
        assert(names[i as int] == parts@[i as int]@);
        match current {
            Json::Object(members) => {
                match find_member(members, parts[i].as_str()) {
                    Some(p) => {
                        current = &members[p].1;
                    },
                    None => {
                        return None;
                    },
                }
            },
            _ => {
                return None;
            },
        }
        i = i + 1;
    }
    Some(current)
}

/// What a field holds for the index.
pub enum FieldContent {
    /// Nothing to index.
    Nothing,
    /// A number, which is kept but not searched for by words.
    Number(Seq<char>),
    /// A text.
    Words(Seq<char>),
}

/// The texts of the first `k` items of an array, separated by spaces.
pub open spec fn joined(items: Seq<Json>, k: int) -> Seq<Seq<char>>
    decreases k,
{
    if k <= 0 {
        Seq::empty()
    } else {
        match items[k - 1] {
            Json::Text(t) => joined(items, k - 1).push(t@),
            _ => joined(items, k - 1),
        }
    }
}

/// Texts with a separator between them.
pub open spec fn join(parts: Seq<Seq<char>>, separator: Seq<char>) -> Seq<char>
    decreases parts.len(),
{
    if parts.len() == 0 {
        Seq::empty()
    } else if parts.len() == 1 {
        parts[0]
    } else {
        join(parts.drop_last(), separator) + separator + parts.last()
    }
}

/// What a field holds for the index.
pub open spec fn content_of(value: Option<Json>) -> FieldContent {
    match value {
        Some(v) => match v {
            Json::Text(t) => FieldContent::Words(t@),
            Json::Number(n) => FieldContent::Number(n@),
            Json::Array(items) => FieldContent::Words(
                join(joined(items@, items@.len() as int), " "@),
            ),
            _ => FieldContent::Nothing,
        },
        None => FieldContent::Nothing,
    }
}

/// Texts with a separator between them.
pub fn join_texts(parts: &Vec<String>, separator: &str) -> (r: String)
    ensures
        r@ == join(texts(parts@), separator@),
{
    let ghost all = texts(parts@);
    let mut out = String::new();
    let mut k: usize = 0;
    assert(all.take(0) =~= Seq::<Seq<char>>::empty());
    assert(out@ =~= join(all.take(0), separator@));
    while k < parts.len()
        invariant
            k <= parts@.len(),
            all == texts(parts@),
            out@ == join(all.take(k as int), separator@),
        decreases parts@.len() - k,
    {
        let ghost prior = out@;
        proof {
            assert(all.take(k + 1).drop_last() =~= all.take(k as int));
            assert(all.take(k + 1).last() == parts@[k as int]@);
        }
        if k > 0 {
            out.append(separator);
        }
        out.append(parts[k].as_str());
        k = k + 1;
        assert(out@ =~= join(all.take(k as int), separator@));
    }
    assert(all.take(k as int) =~= all);
    out
}

/// What a field holds for the index: the text, and whether it is a number.
pub fn field_content(value: Option<&Json>) -> (r: Option<(String, bool)>)
    ensures
        ({
            let v = match value {
                Some(j) => Some(*j),
                None => None,
            };
            match content_of(v) {
                FieldContent::Nothing => r is None,
                FieldContent::Number(t) => match r {
                    Some((text, number)) => text@ == t && number,
                    None => false,
                },
                FieldContent::Words(t) => match r {
                    Some((text, number)) => text@ == t && !number,
                    None => false,
                },
            }
        }),
{
    match value {
        Some(v) => match v {
            Json::Text(t) => Some((t.clone(), false)),
            Json::Number(n) => Some((n.clone(), true)),
            Json::Array(items) => {
                let mut parts: Vec<String> = Vec::new();
                let mut k: usize = 0;
                assert(texts(parts@) =~= joined(items@, 0));
                while k < items.len()
                    invariant
                        k <= items@.len(),
                        texts(parts@) == joined(items@, k as int),
                    decreases items@.len() - k,
                {
                    let ghost prior = parts@;
                    match &items[k] {
                        Json::Text(t) => {
                            parts.push(t.clone());
                            assert(texts(parts@) =~= texts(prior).push(t@));
                        },
                        _ => {},
                    }
                    k = k + 1;
                }
                Some((join_texts(&parts, " "), false))
            },
            _ => None,
        },
        None => None,
    }
}

// ---- Laws ----

/// What is indexed of a value: a text as it is, a number in its notation, of a list its texts with
/// blanks between them, and nothing of anything else.
pub proof fn law_contents_of_values(t: String, items: Vec<Json>, members: Vec<(String, Json)>, b: bool)
    ensures
        content_of(Some(Json::Text(t))) == FieldContent::Words(t@),
        content_of(Some(Json::Number(t))) == FieldContent::Number(t@),
        content_of(Some(Json::Array(items))) == FieldContent::Words(
            join(joined(items@, items@.len() as int), " "@),
        ),
        content_of(Some(Json::Object(members))) is Nothing,
        content_of(Some(Json::Bool(b))) is Nothing,
        content_of(Some(Json::Null)) is Nothing,
        content_of(None) is Nothing,
{
}

/// The texts of a list are those of its items that are texts, in their order.
pub proof fn law_texts_of_a_list(items: Seq<Json>, k: int)
    requires
        0 <= k <= items.len(),
    ensures
        ({
            let found = items.take(k).filter(|j: Json| j is Text);
            &&& joined(items, k).len() == found.len()
            &&& forall|i: int| 0 <= i < found.len() ==> #[trigger] joined(items, k)[i]
                == found[i]->Text_0@
        }),
    decreases k,
{
    reveal(Seq::filter);
    if k > 0 {
        law_texts_of_a_list(items, k - 1);
        assert(items.take(k).drop_last() =~= items.take(k - 1));
    }
}

/// Joined texts stand in their order with the separator between them, and nowhere else.
pub proof fn law_separators_stand_between(parts: Seq<Seq<char>>, last: Seq<char>, separator: Seq<char>)
    ensures
        join(Seq::empty(), separator) == Seq::<char>::empty(),
        join(seq![last], separator) == last,
        parts.len() > 0 ==> join(parts.push(last), separator) == join(parts, separator) + separator
            + last,
{
    if parts.len() > 0 {
        assert(parts.push(last).drop_last() =~= parts);
    }
}

proof fn lemma_member_place(members: Seq<(String, Json)>, name: Seq<char>, i: int, p: int)
    requires
        0 <= i <= p < members.len(),
        members[p].0@ == name,
        forall|k: int| i <= k < p ==> (#[trigger] members[k]).0@ != name,
    ensures
        member_place(members, name, i) == Some(p),
    decreases p - i,
{
    if i < p {
        lemma_member_place(members, name, i + 1, p);
    }
}

proof fn lemma_no_member(members: Seq<(String, Json)>, name: Seq<char>, i: int)
    requires
        0 <= i <= members.len(),
        forall|k: int| i <= k < members.len() ==> (#[trigger] members[k]).0@ != name,
    ensures
        member_place(members, name, i) is None,
    decreases members.len() - i,
{
    if i < members.len() {
        lemma_no_member(members, name, i + 1);
    }
}

/// A path leads through the members of objects, name by name: from an object to the member of the
/// first name, and on from there. It ends where its names do, and leads nowhere where there is no
/// such member or no object.
pub proof fn law_paths_lead_through_members(
    v: Json,
    members: Vec<(String, Json)>,
    parts: Seq<Seq<char>>,
    i: int,
    p: int,
)
    requires
        0 <= i < parts.len(),
    ensures
        nested(v, parts, parts.len() as int) == Some(v),
        0 <= p < members@.len() && members@[p].0@ == parts[i] && (forall|k: int|
            0 <= k < p ==> (#[trigger] members@[k]).0@ != parts[i]) ==> nested(
            Json::Object(members),
            parts,
            i,
        ) == nested(members@[p].1, parts, i + 1),
        (forall|k: int| 0 <= k < members@.len() ==> (#[trigger] members@[k]).0@ != parts[i])
            ==> nested(Json::Object(members), parts, i) is None,
        !(v is Object) ==> nested(v, parts, i) is None,
{
    if 0 <= p < members@.len() && members@[p].0@ == parts[i] && (forall|k: int|
        0 <= k < p ==> (#[trigger] members@[k]).0@ != parts[i]) {
        lemma_member_place(members@, parts[i], 0, p);
    }
    if forall|k: int| 0 <= k < members@.len() ==> (#[trigger] members@[k]).0@ != parts[i] {
        lemma_no_member(members@, parts[i], 0);
    }
}

} // verus!
