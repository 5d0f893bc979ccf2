//! JSON values.

use crate::text::{dec, dec_text, opt_text, texts};
use vstd::prelude::*;
use vstd::string::*;

verus! {

/// A JSON value. A number is kept in its notation; no key of an object occurs twice.
#[derive(Debug)]
pub enum Json {
    Null,
    Bool(bool),
    Number(String),
    Text(String),
    Array(Vec<Json>),
    Object(Vec<(String, Json)>),
}

/// What a [`Json`] stands for.
pub enum JsonView {
    Null,
    Bool(bool),
    Number(Seq<char>),
    Text(Seq<char>),
    Array(Seq<JsonView>),
    Object(Seq<(Seq<char>, JsonView)>),
}

/// What the first `k` items of an array stand for.
pub open spec fn item_views(v: Vec<Json>, k: nat) -> Seq<JsonView>
    decreases v, k,
{
    if k == 0 || k > v@.len() {
        Seq::empty()
    } else {
        item_views(v, (k - 1) as nat).push(json_view(v@[k - 1]))
    }
}

/// What the first `k` members of an object stand for.
pub open spec fn member_views(v: Vec<(String, Json)>, k: nat) -> Seq<(Seq<char>, JsonView)>
    decreases v, k,
{
    if k == 0 || k > v@.len() {
        Seq::empty()
    } else {
        member_views(v, (k - 1) as nat).push((v@[k - 1].0@, json_view(v@[k - 1].1)))
    }
}

/// What a JSON value stands for.
pub open spec fn json_view(j: Json) -> JsonView
    decreases j, 0nat,
{
    match j {
        Json::Null => JsonView::Null,
        Json::Bool(b) => JsonView::Bool(b),
        Json::Number(n) => JsonView::Number(n@),
        Json::Text(t) => JsonView::Text(t@),
        Json::Array(items) => JsonView::Array(item_views(items, items@.len())),
        Json::Object(members) => JsonView::Object(member_views(members, members@.len())),
    }
}

impl View for Json {
    type V = JsonView;

    open spec fn view(&self) -> JsonView {
        json_view(*self)
    }
}

proof fn lemma_items_agree(a: Vec<Json>, b: Vec<Json>, k: nat)
    requires
        k <= a@.len(),
        k <= b@.len(),
        forall|i: int| 0 <= i < k ==> a@[i] == b@[i],
    ensures
        item_views(a, k) == item_views(b, k),
    decreases k,
{
    if k > 0 {
        lemma_items_agree(a, b, (k - 1) as nat);
    }
}

proof fn lemma_members_agree(a: Vec<(String, Json)>, b: Vec<(String, Json)>, k: nat)
    requires
        k <= a@.len(),
        k <= b@.len(),
        forall|i: int| 0 <= i < k ==> a@[i] == b@[i],
    ensures
        member_views(a, k) == member_views(b, k),
    decreases k,
{
    if k > 0 {
        lemma_members_agree(a, b, (k - 1) as nat);
    }
}

impl JsonView {
    /// An object without members.
    pub open spec fn object() -> JsonView {
        JsonView::Object(Seq::empty())
    }

    /// An array without items.
    pub open spec fn array() -> JsonView {
        JsonView::Array(Seq::empty())
    }

    /// An object with one more member.
    pub open spec fn with(self, name: Seq<char>, value: JsonView) -> JsonView {
        match self {
            JsonView::Object(members) => JsonView::Object(members.push((name, value))),
            _ => JsonView::Object(Seq::empty().push((name, value))),
        }
    }

    /// An array with one more item.
    pub open spec fn item(self, value: JsonView) -> JsonView {
        match self {
            JsonView::Array(items) => JsonView::Array(items.push(value)),
            _ => JsonView::Array(Seq::empty().push(value)),
        }
    }
}

impl Json {
    /// An object without members.
    pub fn object() -> (r: Json)
        ensures
            r@ == JsonView::object(),
    {
        Json::Object(Vec::new())
    }

    /// An array without items.
    pub fn array() -> (r: Json)
        ensures
            r@ == JsonView::array(),
    {
        Json::Array(Vec::new())
    }

    /// An object with one more member.
    pub fn with(self, name: &str, value: Json) -> (r: Json)
        ensures
            r@ == self@.with(name@, value@),
    {
        match self {
            Json::Object(members) => {
                let ghost before = members;
                let mut members = members;
                members.push((name.to_owned(), value));
                proof {
                    lemma_members_agree(before, members, before@.len());
                }
                Json::Object(members)
            },
            _ => {
                let mut members: Vec<(String, Json)> = Vec::new();
                members.push((name.to_owned(), value));
                assert(member_views(members, 0) =~= Seq::<(Seq<char>, JsonView)>::empty());
                Json::Object(members)
            },
        }
    }

    /// An array with one more item.
    pub fn item(self, value: Json) -> (r: Json)
        ensures
            r@ == self@.item(value@),
    {
        match self {
            Json::Array(items) => {
                let ghost before = items;
                let mut items = items;
                items.push(value);
                proof {
                    lemma_items_agree(before, items, before@.len());
                }
                Json::Array(items)
            },
            _ => {
                let mut items: Vec<Json> = Vec::new();
                items.push(value);
                assert(item_views(items, 0) =~= Seq::<JsonView>::empty());
                Json::Array(items)
            },
        }
    }
}

impl Json {
    /// A copy.
    pub fn copy(&self) -> (r: Json)
        ensures
            r@ == self@,
        decreases *self,
    {
        match self {
            Json::Null => Json::Null,
            Json::Bool(b) => Json::Bool(*b),
            Json::Number(n) => Json::Number(n.clone()),
            Json::Text(t) => Json::Text(t.clone()),
            Json::Array(items) => {
                let mut out = Json::array();
                let mut k: usize = 0;
                while k < items.len()
                    invariant
                        k <= items@.len(),
                        *self == Json::Array(*items),
                        out@ == JsonView::Array(item_views(*items, k as nat)),
                    decreases items@.len() - k,
                {
                    assert(self->Array_0 == *items);
                    assert(decreases_to!(*items => items@[k as int]));
                    out = out.item(items[k].copy());
                    k = k + 1;
                }
                out
            },
            Json::Object(members) => {
                let mut out = Json::object();
                let mut k: usize = 0;
                while k < members.len()
                    invariant
                        k <= members@.len(),
                        *self == Json::Object(*members),
                        out@ == JsonView::Object(member_views(*members, k as nat)),
                    decreases members@.len() - k,
                {
                    assert(self->Object_0 == *members);
                    assert(decreases_to!(*members => members@[k as int]));
                    assert(decreases_to!(*self => members@[k as int].1));
                    out = out.with(members[k].0.as_str(), members[k].1.copy());
                    k = k + 1;
                }
                out
            },
        }
    }
}

/// A natural number.
pub open spec fn number(n: nat) -> JsonView {
    JsonView::Number(dec(n))
}

/// An integer.
pub open spec fn integer(n: int) -> JsonView {
    if n < 0 {
        JsonView::Number("-"@ + dec((-n) as nat))
    } else {
        number(n as nat)
    }
}

/// A text, or null where there is none.
pub open spec fn text_or_null(t: Option<Seq<char>>) -> JsonView {
    match t {
        Some(s) => JsonView::Text(s),
        None => JsonView::Null,
    }
}

/// Texts.
pub open spec fn text_items(v: Seq<Seq<char>>) -> Seq<JsonView> {
    Seq::new(v.len(), |i: int| JsonView::Text(v[i]))
}

/// A natural number.
pub fn json_number(n: u64) -> (r: Json)
    ensures
        r@ == number(n as nat),
{
    Json::Number(dec_text(n))
}

/// An integer.
pub fn json_integer(n: i64) -> (r: Json)
    ensures
        r@ == integer(n as int),
{
    if n < 0 {
        let mut out = "-".to_owned();
        let rest = dec_text((-(n as i128)) as u64);
        out.append(rest.as_str());
        Json::Number(out)
    } else {
        Json::Number(dec_text(n as u64))
    }
}

/// A text.
pub fn json_text(s: &str) -> (r: Json)
    ensures
        r@ == JsonView::Text(s@),
{
    Json::Text(s.to_owned())
}

/// A text, or null where there is none.
pub fn json_opt_text(s: &Option<String>) -> (r: Json)
    ensures
        r@ == text_or_null(opt_text(*s)),
{
    match s {
        Some(t) => Json::Text(t.clone()),
        None => Json::Null,
    }
}

/// Texts.
pub fn json_texts(v: &Vec<String>) -> (r: Json)
    ensures
        r@ == JsonView::Array(text_items(texts(v@))),
{
    let mut out = Json::array();
    let ghost all = texts(v@);
    let mut k: usize = 0;
    assert(text_items(all.take(0)) =~= Seq::<JsonView>::empty());
    while k < v.len()
        invariant
            k <= v@.len(),
            all == texts(v@),
            out@ == JsonView::Array(text_items(all.take(k as int))),
        decreases v@.len() - k,
    {
        out = out.item(Json::Text(v[k].clone()));
        assert(text_items(all.take(k + 1)) =~= text_items(all.take(k as int)).push(
            JsonView::Text(v@[k as int]@),
        ));
        k = k + 1;
    }
    assert(all.take(k as int) =~= all);
    out
}

// ---- Laws ----

/// A member is added behind the members of an object, and an item behind those of an array.
pub proof fn law_parts_are_added_behind(
    members: Seq<(Seq<char>, JsonView)>,
    items: Seq<JsonView>,
    name: Seq<char>,
    value: JsonView,
)
    ensures
        JsonView::Object(members).with(name, value) is Object,
        JsonView::Object(members).with(name, value)->Object_0 =~= members + seq![(name, value)],
        JsonView::Array(items).item(value) is Array,
        JsonView::Array(items).item(value)->Array_0 =~= items + seq![value],
        JsonView::object() is Object && JsonView::object()->Object_0.len() == 0,
        JsonView::array() is Array && JsonView::array()->Array_0.len() == 0,
{
}

/// A number stands in decimal notation, a negative one behind a minus sign; texts stand in their
/// order, and a missing one as null.
pub proof fn law_numbers_and_texts(n: nat, t: Seq<char>, v: Seq<Seq<char>>, i: int)
    ensures
        number(n) == JsonView::Number(dec(n)),
        integer(n as int) == JsonView::Number(dec(n)),
        n > 0 ==> integer(-(n as int)) == JsonView::Number("-"@ + dec(n)),
        text_or_null(Some(t)) == JsonView::Text(t),
        text_or_null(None) == JsonView::Null,
        text_items(v).len() == v.len(),
        0 <= i < v.len() ==> text_items(v)[i] == JsonView::Text(v[i]),
{
}

/// What the parts of a value stand for are the parts of what it stands for, in their order.
pub proof fn law_parts_stand_for_parts(items: Vec<Json>, members: Vec<(String, Json)>, i: int)
    ensures
        Json::Array(items)@ is Array,
        Json::Array(items)@->Array_0.len() == items@.len(),
        0 <= i < items@.len() ==> Json::Array(items)@->Array_0[i] == items@[i]@,
        Json::Object(members)@ is Object,
        Json::Object(members)@->Object_0.len() == members@.len(),
        0 <= i < members@.len() ==> Json::Object(members)@->Object_0[i] == (
            members@[i].0@,
            members@[i].1@,
        ),
{
    lemma_items_stand(items, items@.len(), i);
    lemma_members_stand(members, members@.len(), i);
}

proof fn lemma_items_stand(v: Vec<Json>, k: nat, i: int)
    requires
        k <= v@.len(),
    ensures
        item_views(v, k).len() == k,
        0 <= i < k ==> item_views(v, k)[i] == json_view(v@[i]),
    decreases k,
{
    if k > 0 {
        lemma_items_stand(v, (k - 1) as nat, i);
    }
}

proof fn lemma_members_stand(v: Vec<(String, Json)>, k: nat, i: int)
    requires
        k <= v@.len(),
    ensures
        member_views(v, k).len() == k,
        0 <= i < k ==> member_views(v, k)[i] == (v@[i].0@, json_view(v@[i].1)),
    decreases k,
{
    if k > 0 {
        lemma_members_stand(v, (k - 1) as nat, i);
    }
}

} // verus!
