//! Lists of documents, page by page, and statistics of buckets.

use crate::api::document_routes::{opt_time, ListDocsParams};
use crate::clock::{rfc3339, rfc3339_of};
use crate::cluster::partition::PartitionMap;
use crate::document::Document;
use crate::json::{json_number, json_text, number, Json, JsonView};
use crate::text::{
    chars_of, dec, lemma_text_lt_irreflexive, lemma_text_lt_total, lemma_text_lt_transitive,
    opt_text, push_dec, same_text, text_before, text_lt, text_of,
};
use crate::text_split::{has_prefix, starts_with};
use crate::unicode::{byte_len, lemma_byte_len_push, width_of};
use vstd::prelude::*;
use vstd::string::*;

verus! {

// ---- Previews of values ----

/// Whether the first `n` bytes of a text end where a character ends.
pub open spec fn ends_at(s: Seq<char>, n: nat) -> bool {
    exists|k: int| 0 <= k <= s.len() && #[trigger] byte_len(s.take(k)) == n
}

/// The first place at or after place `k` up to which a text has at least `n` bytes.
pub open spec fn place_of_byte(s: Seq<char>, n: nat, k: int) -> int
    decreases s.len() - k,
{
    if k < 0 || k >= s.len() || byte_len(s.take(k)) >= n {
        k
    } else {
        place_of_byte(s, n, k + 1)
    }
}

/// The first `n` bytes of a text.
pub open spec fn first_bytes(s: Seq<char>, n: nat) -> Seq<char> {
    s.take(place_of_byte(s, n, 0))
}

/// How a member of an object is shown in a preview: a long text is cut, and of what has parts only
/// their number is told, if any.
pub open spec fn member_preview(v: Json) -> JsonView {
    match v {
        Json::Text(t) => if byte_len(t@) > 60 {
            JsonView::Text(first_bytes(t@, 57) + "..."@)
        } else {
            v@
        },
        Json::Object(_) => JsonView::Text("{...}"@),
        Json::Array(items) => JsonView::Text("["@ + dec(items@.len()) + " items]"@),
        _ => v@,
    }
}

/// Whether a long text can be cut: the cut falls between two characters.
pub open spec fn can_be_cut(v: Json) -> bool {
    match v {
        Json::Text(t) => byte_len(t@) > 60 ==> ends_at(t@, 57),
        _ => true,
    }
}

/// The first `k` members of an object as they are shown.
pub open spec fn shown_members(members: Seq<(String, Json)>, k: int) -> Seq<(Seq<char>, JsonView)>
    decreases k,
{
    if k <= 0 {
        Seq::empty()
    } else {
        shown_members(members, k - 1).push(
            (members[k - 1].0@, member_preview(members[k - 1].1)),
        )
    }
}

/// The place of a member among the first `k`.
pub open spec fn shown_place(members: Seq<(Seq<char>, JsonView)>, name: Seq<char>, i: int) -> Option<int>
    decreases members.len() - i,
{
    if i < 0 || i >= members.len() {
        None
    } else if members[i].0 == name {
        Some(i)
    } else {
        shown_place(members, name, i + 1)
    }
}

/// The members of an object with one set.
pub open spec fn with_member(
    members: Seq<(Seq<char>, JsonView)>,
    name: Seq<char>,
    value: JsonView,
) -> Seq<(Seq<char>, JsonView)> {
    match shown_place(members, name, 0) {
        Some(i) => members.update(i, (name, value)),
        None => members.push((name, value)),
    }
}

/// A value as it is shown in a list: of an object the first members, and how many more there are.
pub open spec fn preview(value: Json, max_keys: int) -> JsonView {
    match value {
        Json::Object(members) => {
            let n = members@.len() as int;
            JsonView::Object(
                if n > max_keys {
                    with_member(
                        shown_members(members@, max_keys),
                        "..."@,
                        JsonView::Text(dec((n - max_keys) as nat) + " more fields"@),
                    )
                } else {
                    shown_members(members@, n)
                },
            )
        },
        _ => value@,
    }
}

/// Whether the long texts among the first members can be cut.
pub open spec fn preview_fits(value: Json, max_keys: int) -> bool {
    match value {
        Json::Object(members) => forall|i: int|
            0 <= i < members@.len() && i < max_keys ==> can_be_cut((#[trigger] members@[i]).1),
        _ => true,
    }
}

proof fn lemma_byte_len_grows(s: Seq<char>, a: int, b: int)
    requires
        0 <= a <= b <= s.len(),
    ensures
        byte_len(s.take(a)) <= byte_len(s.take(b)),
        a < b ==> byte_len(s.take(a)) < byte_len(s.take(b)),
    decreases b - a,
{
    if a < b {
        lemma_byte_len_grows(s, a, b - 1);
        assert(s.take(b) =~= s.take(b - 1).push(s[b - 1]));
        lemma_byte_len_push(s.take(b - 1), s[b - 1]);
    }
}

/// The place up to which a text has at least `n` bytes.
fn find_byte(cs: &Vec<char>, n: usize) -> (r: usize)
    requires
        n <= 1000,
    ensures
        r == place_of_byte(cs@, n as nat, 0),
        r <= cs@.len(),
{
    let mut k: usize = 0;
    let mut bytes: usize = 0;
    assert(cs@.take(0) =~= Seq::<char>::empty());
    while k < cs.len() && bytes < n
        invariant
            k <= cs@.len(),
            n <= 1000,
            bytes <= 1010,
            bytes == byte_len(cs@.take(k as int)),
            place_of_byte(cs@, n as nat, 0) == place_of_byte(cs@, n as nat, k as int),
        decreases cs@.len() - k,
    {
        proof {
            assert(cs@.take(k + 1) =~= cs@.take(k as int).push(cs@[k as int]));
            lemma_byte_len_push(cs@.take(k as int), cs@[k as int]);
        }
        bytes = bytes + width_of(cs[k]);
        k = k + 1;
    }
    k
}

/// Whether a long text can be cut.
fn text_can_be_cut(t: &str) -> (r: bool)
    ensures
        r == (byte_len(t@) > 60 ==> ends_at(t@, 57)),
{
    if t.as_bytes().len() <= 60 {
        return true;
    }
    let cs = chars_of(t);
    let k: usize = find_byte(&cs, 57);
    let head = text_of(&cs, 0, k);
    let r = head.as_str().as_bytes().len() == 57;
    proof {
        assert(head@ =~= t@.take(k as int));
        lemma_place_of_byte(t@, 57, 0);
        if r {
            assert(byte_len(t@.take(k as int)) == 57);
        } else if ends_at(t@, 57) {
            let j = choose|j: int| 0 <= j <= t@.len() && #[trigger] byte_len(t@.take(j)) == 57;
            if j < k {
                assert(byte_len(t@.take(j)) < 57);
            } else {
                lemma_byte_len_grows(t@, k as int, j);
                assert(t@.take(t@.len() as int) =~= t@);
            }
        }
    }
    r
}

proof fn lemma_place_of_byte(s: Seq<char>, n: nat, k: int)
    requires
        0 <= k <= s.len(),
    ensures
        k <= place_of_byte(s, n, k) <= s.len(),
        forall|j: int| k <= j < place_of_byte(s, n, k) ==> #[trigger] byte_len(s.take(j)) < n,
        place_of_byte(s, n, k) < s.len() ==> byte_len(s.take(place_of_byte(s, n, k))) >= n,
    decreases s.len() - k,
{
    if k < s.len() && byte_len(s.take(k)) < n {
        lemma_place_of_byte(s, n, k + 1);
    }
}

/// Whether the long texts among the first members can be cut.
pub fn can_preview(value: &Json, max_keys: usize) -> (r: bool)
    ensures
        r == preview_fits(*value, max_keys as int),
{
    match value {
        Json::Object(members) => {
            let mut k: usize = 0;
            while k < members.len() && k < max_keys
                invariant
                    k <= members@.len(),
                    *value == Json::Object(*members),
                    forall|i: int| 0 <= i < k ==> can_be_cut((#[trigger] members@[i]).1),
                decreases members@.len() - k,
            {
                match &members[k].1 {
                    Json::Text(t) => {
                        if !text_can_be_cut(t.as_str()) {
                            assert(!can_be_cut(value->Object_0@[k as int].1));
                            return false;
                        }
                    },
                    _ => {},
                }
                k = k + 1;
            }
            true
        },
        _ => true,
    }
}

fn show_member(v: &Json) -> (r: Json)
    requires
        can_be_cut(*v),
    ensures
        r@ == member_preview(*v),
{
    match v {
        Json::Text(t) => {
            if t.as_str().as_bytes().len() > 60 {
                let cs = chars_of(t.as_str());
                let k: usize = find_byte(&cs, 57);
                let mut head = text_of(&cs, 0, k);
                assert(head@ =~= t@.take(k as int));
                head.append("...");
                Json::Text(head)
            } else {
                v.copy()
            }
        },
        Json::Object(_) => json_text("{...}"),
        Json::Array(items) => {
            let mut text = "[".to_owned();
            push_dec(&mut text, items.len() as u64);
            text.append(" items]");
            Json::Text(text)
        },
        _ => v.copy(),
    }
}

/// A value as it is shown in a list.
pub fn truncate_json_preview(value: &Json, max_keys: usize) -> (r: Json)
    requires
        preview_fits(*value, max_keys as int),
    ensures
        r@ == preview(*value, max_keys as int),
{
    match value {
        Json::Object(members) => {
            let n: usize = members.len();
            let mut out = Json::object();
            let mut replaced = false;
            let more = if n > max_keys {
                let mut text = String::new();
                push_dec(&mut text, (n - max_keys) as u64);
                text.append(" more fields");
                text
            } else {
                String::new()
            };
            let ghost first = if n > max_keys {
                shown_place(shown_members(members@, max_keys as int), "..."@, 0)
            } else {
                None
            };
            let mut k: usize = 0;
            proof {
                if n > max_keys {
                    lemma_shown_place(shown_members(members@, max_keys as int), "..."@, 0);
                    lemma_shown_len(members@, max_keys as int);
                    let shown = shown_members(members@, max_keys as int);
                    let end = match first {
                        Some(p) => p,
                        None => max_keys as int,
                    };
                    assert forall|j: int| 0 <= j < end implies (#[trigger] members@[j]).0@
                        != "..."@ by {
                        assert(shown[j].0 == members@[j].0@);
                    }
                }
            }
            while k < n && k < max_keys
                invariant
                    k <= n,
                    k <= max_keys,
                    n == members@.len(),
                    forall|i: int|
                        0 <= i < n && i < max_keys ==> can_be_cut((#[trigger] members@[i]).1),
                    n > max_keys ==> more@ == dec((n - max_keys) as nat) + " more fields"@,
                    n > max_keys ==> first == shown_place(
                        shown_members(members@, max_keys as int),
                        "..."@,
                        0,
                    ),
                    n <= max_keys ==> first is None,
                    match first {
                        Some(p) => 0 <= p < max_keys && members@[p].0@ == "..."@ && forall|j: int|
                            0 <= j < p ==> (#[trigger] members@[j]).0@ != "..."@,
                        None => n > max_keys ==> forall|j: int|
                            0 <= j < max_keys ==> (#[trigger] members@[j]).0@ != "..."@,
                    },
                    replaced == (first is Some && k > first->0),
                    out@ == JsonView::Object(
                        if replaced {
                            shown_members(members@, k as int).update(
                                first->0,
                                ("..."@, JsonView::Text(more@)),
                            )
                        } else {
                            shown_members(members@, k as int)
                        },
                    ),
                decreases n - k,
            {
                let ghost before = shown_members(members@, k as int);
                let ghost now = shown_members(members@, k + 1);
                let name = members[k].0.as_str();
                proof {
                    lemma_shown_len(members@, k as int);
                    assert(can_be_cut(members@[k as int].1));
                }
                if n > max_keys && !replaced && same_text(name, "...") {
                    out = out.with("...", Json::Text(more.clone()));
                    replaced = true;
                    assert(before.push(("..."@, JsonView::Text(more@))) =~= now.update(
                        k as int,
                        ("..."@, JsonView::Text(more@)),
                    ));
                } else {
                    let ghost was = replaced;
                    out = out.with(name, show_member(&members[k].1));
                    proof {
                        if was {
                            assert(before.update(
                                first->0,
                                ("..."@, JsonView::Text(more@)),
                            ).push((members@[k as int].0@, member_preview(members@[k as int].1)))
                                =~= now.update(first->0, ("..."@, JsonView::Text(more@))));
                        }
                    }
                }
                k = k + 1;
            }
            if n > max_keys && !replaced {
                out = out.with("...", Json::Text(more));
            }
            out
        },
        _ => value.copy(),
    }
}

proof fn lemma_shown_len(members: Seq<(String, Json)>, k: int)
    requires
        0 <= k,
    ensures
        shown_members(members, k).len() == k,
        forall|i: int|
            0 <= i < k ==> (#[trigger] shown_members(members, k)[i]).0 == members[i].0@,
    decreases k,
{
    if k > 0 {
        lemma_shown_len(members, k - 1);
        let rest = shown_members(members, k - 1);
        let list = shown_members(members, k);
        assert forall|i: int| 0 <= i < k implies (#[trigger] list[i]).0 == members[i].0@ by {
            if i < k - 1 {
                assert(list[i] == rest[i]);
            }
        }
    }
}

proof fn lemma_shown_place(members: Seq<(Seq<char>, JsonView)>, name: Seq<char>, i: int)
    requires
        0 <= i,
    ensures
        match shown_place(members, name, i) {
            Some(p) => i <= p < members.len() && members[p].0 == name && forall|j: int|
                i <= j < p ==> (#[trigger] members[j]).0 != name,
            None => forall|j: int| i <= j < members.len() ==> (#[trigger] members[j]).0 != name,
        },
    decreases members.len() - i,
{
    if i < members.len() && members[i].0 != name {
        lemma_shown_place(members, name, i + 1);
    }
}

// ---- Lists ----

/// A document with its value.
pub struct StoredDocument {
    pub document: Document,
    pub value: Json,
}

/// What a list says of a document.
pub struct DocumentSummary {
    pub key: String,
    pub cas: u64,
    pub rev_id: u64,
    pub seq_no: u64,
    pub vbucket_id: u16,
    pub size_bytes: usize,
    pub updated_at: String,
    pub expiry: Option<String>,
    pub value_preview: Json,
}

/// A page of documents.
pub struct ListDocsResponse {
    pub documents: Vec<DocumentSummary>,
    pub total: usize,
    pub limit: usize,
    pub offset: usize,
    pub has_more: bool,
}

/// How many members of a value a list shows.
pub const PREVIEW_KEYS: usize = 3;

/// Whether a document belongs into a list: its vBucket is among the owned ones, where that matters,
/// and its key has the prefix, where one is asked for.
pub open spec fn is_listed(doc: Document, owned: Option<Seq<u16>>, prefix: Option<Seq<char>>) -> bool {
    &&& match owned {
        Some(ids) => ids.contains(doc.vbucket_id),
        None => true,
    }
    &&& match prefix {
        Some(p) => starts_with(doc.key@, p),
        None => true,
    }
}

/// Whether the document at place `a` comes before that at place `b`.
pub open spec fn listed_before(docs: Seq<StoredDocument>, a: int, b: int) -> bool {
    let x = docs[a].document.key@;
    let y = docs[b].document.key@;
    text_lt(x, y) || (x == y && a < b)
}

/// Whether a place is in a list of places.
pub open spec fn has_place(order: Seq<usize>, p: int) -> bool {
    exists|i: int| 0 <= i < order.len() && #[trigger] order[i] == p
}

/// Whether places are those of the documents among the first `k` that belong into a list, in the
/// order of their keys.
pub open spec fn is_listing(
    order: Seq<usize>,
    docs: Seq<StoredDocument>,
    owned: Option<Seq<u16>>,
    prefix: Option<Seq<char>>,
    k: int,
) -> bool {
    &&& forall|i: int|
        0 <= i < order.len() ==> 0 <= #[trigger] order[i] < k && is_listed(
            docs[order[i] as int].document,
            owned,
            prefix,
        )
    &&& forall|i: int, j: int|
        0 <= i < j < order.len() ==> listed_before(
            docs,
            #[trigger] order[i] as int,
            #[trigger] order[j] as int,
        )
    &&& forall|p: int|
        0 <= p < k && is_listed(docs[p].document, owned, prefix) ==> #[trigger] has_place(order, p)
}

fn belongs(doc: &Document, owned: &Option<Vec<u16>>, prefix: &Option<String>) -> (r: bool)
    ensures
        r == is_listed(*doc, opt_ids(*owned), opt_text(*prefix)),
{
    match owned {
        Some(ids) => {
            let mut i: usize = 0;
            let mut found = false;
            while i < ids.len()
                invariant
                    i <= ids@.len(),
                    found == exists|j: int| 0 <= j < i && #[trigger] ids@[j] == doc.vbucket_id,
                decreases ids@.len() - i,
            {
                if ids[i] == doc.vbucket_id {
                    found = true;
                }
                i = i + 1;
            }
            if !found {
                assert(!ids@.contains(doc.vbucket_id));
                return false;
            }
            assert(ids@.contains(doc.vbucket_id));
        },
        None => {},
    }
    match prefix {
        Some(p) => has_prefix(doc.key.as_str(), p.as_str()),
        None => true,
    }
}

/// The owned vBuckets, where they matter.
pub open spec fn opt_ids(v: Option<Vec<u16>>) -> Option<Seq<u16>> {
    match v {
        Some(ids) => Some(ids@),
        None => None,
    }
}

/// The places of the documents that belong into a list, in the order of their keys.
pub fn listing(docs: &Vec<StoredDocument>, owned: &Option<Vec<u16>>, prefix: &Option<String>) -> (r:
    Vec<usize>)
    ensures
        is_listing(r@, docs@, opt_ids(*owned), opt_text(*prefix), docs@.len() as int),
        r@.len() <= docs@.len(),
{
    let ghost ids = opt_ids(*owned);
    let ghost head = opt_text(*prefix);
    let mut order: Vec<usize> = Vec::new();
    let mut k: usize = 0;
    while k < docs.len()
        invariant
            k <= docs@.len(),
            ids == opt_ids(*owned),
            head == opt_text(*prefix),
            order@.len() <= k,
            is_listing(order@, docs@, ids, head, k as int),
        decreases docs@.len() - k,
    {
        let ghost prior = order@;
        if belongs(&docs[k].document, owned, prefix) {
            let n: usize = order.len();
            let mut p: usize = 0;
            while p < n && !text_before(
                docs[k].document.key.as_str(),
                docs[order[p]].document.key.as_str(),
            )
                invariant
                    p <= n,
                    n == order@.len(),
                    k < docs@.len(),
                    order@ == prior,
                    is_listing(prior, docs@, ids, head, k as int),
                    forall|i: int|
                        0 <= i < p ==> !text_lt(
                            docs@[k as int].document.key@,
                            docs@[#[trigger] prior[i] as int].document.key@,
                        ),
                decreases n - p,
            {
                p = p + 1;
            }
            let ghost mine = docs@[k as int].document.key@;
            proof {
                assert forall|i: int| p <= i < n implies text_lt(
                    mine,
                    docs@[#[trigger] prior[i] as int].document.key@,
                ) by {
                    if i > p {
                        assert(listed_before(docs@, prior[p as int] as int, prior[i] as int));
                        let a = docs@[prior[p as int] as int].document.key@;
                        let b = docs@[prior[i] as int].document.key@;
                        if a != b {
                            lemma_text_lt_transitive(mine, a, b);
                        }
                    }
                }
                assert forall|i: int| 0 <= i < p implies listed_before(
                    docs@,
                    #[trigger] prior[i] as int,
                    k as int,
                ) by {
                    let a = docs@[prior[i] as int].document.key@;
                    if a != mine {
                        lemma_text_lt_total(a, mine);
                    }
                }
            }
            order.insert(p, k);
            proof {
                lemma_listing_grows(prior, order@, docs@, ids, head, k as int, p as int);
            }
        } else {
            proof {
                assert forall|q: int|
                    0 <= q < k + 1 && is_listed(docs@[q].document, ids, head) implies
                    #[trigger] has_place(order@, q) by {
                    assert(q < k);
                }
            }
        }
        k = k + 1;
    }
    order
}

proof fn lemma_listing_grows(
    prior: Seq<usize>,
    now: Seq<usize>,
    docs: Seq<StoredDocument>,
    owned: Option<Seq<u16>>,
    prefix: Option<Seq<char>>,
    k: int,
    p: int,
)
    requires
        0 <= k < docs.len(),
        k <= usize::MAX,
        0 <= p <= prior.len(),
        is_listing(prior, docs, owned, prefix, k),
        is_listed(docs[k].document, owned, prefix),
        now == prior.insert(p, k as usize),
        forall|i: int|
            0 <= i < p ==> listed_before(docs, #[trigger] prior[i] as int, k),
        forall|i: int|
            p <= i < prior.len() ==> text_lt(
                docs[k].document.key@,
                docs[#[trigger] prior[i] as int].document.key@,
            ),
    ensures
        is_listing(now, docs, owned, prefix, k + 1),
{
    assert forall|i: int| 0 <= i < now.len() implies 0 <= #[trigger] now[i] < k + 1 && is_listed(
        docs[now[i] as int].document,
        owned,
        prefix,
    ) by {
        if i < p {
            assert(now[i] == prior[i]);
        } else if i > p {
            assert(now[i] == prior[i - 1]);
        }
    }
    assert forall|i: int, j: int| 0 <= i < j < now.len() implies listed_before(
        docs,
        #[trigger] now[i] as int,
        #[trigger] now[j] as int,
    ) by {
        let a = if i < p {
            i
        } else {
            i - 1
        };
        let b = if j < p {
            j
        } else {
            j - 1
        };
        if i != p {
            assert(now[i] == prior[a]);
        }
        if j != p {
            assert(now[j] == prior[b]);
        }
        if i != p && j != p {
            assert(listed_before(docs, prior[a] as int, prior[b] as int));
        }
    }
    assert forall|q: int|
        0 <= q < k + 1 && is_listed(docs[q].document, owned, prefix) implies #[trigger] has_place(
        now,
        q,
    ) by {
        if q == k {
            assert(now[p] == q);
        } else {
            assert(has_place(prior, q));
            let i = choose|i: int| 0 <= i < prior.len() && #[trigger] prior[i] == q;
            if i < p {
                assert(now[i] == q);
            } else {
                assert(now[i + 1] == q);
            }
        }
    }
}

/// Whether a summary says of a document what it should.
pub open spec fn summarises(s: DocumentSummary, doc: StoredDocument) -> bool {
    &&& s.key@ == doc.document.key@
    &&& s.cas == doc.document.cas
    &&& s.rev_id == doc.document.rev_id
    &&& s.seq_no == doc.document.seq_no
    &&& s.vbucket_id == doc.document.vbucket_id
    &&& s.size_bytes == byte_len(doc.document.value@)
    &&& s.updated_at@ == rfc3339_of(doc.document.updated_at)
    &&& opt_text(s.expiry) == opt_time(doc.document.expiry)
    &&& s.value_preview@ == preview(doc.value, PREVIEW_KEYS as int)
}

fn summary_of(doc: &StoredDocument) -> (r: DocumentSummary)
    requires
        preview_fits(doc.value, PREVIEW_KEYS as int),
    ensures
        summarises(r, *doc),
{
    DocumentSummary {
        key: doc.document.key.clone(),
        cas: doc.document.cas,
        rev_id: doc.document.rev_id,
        seq_no: doc.document.seq_no,
        vbucket_id: doc.document.vbucket_id,
        size_bytes: doc.document.value.as_str().as_bytes().len(),
        updated_at: rfc3339(doc.document.updated_at),
        expiry: match doc.document.expiry {
            Some(t) => Some(rfc3339(t)),
            None => None,
        },
        value_preview: truncate_json_preview(&doc.value, PREVIEW_KEYS),
    }
}

/// How many documents a page holds at most: fifty where nothing is said, and never more than five
/// hundred.
pub open spec fn page_limit(limit: Option<usize>) -> usize {
    match limit {
        Some(n) => if n < 500 {
            n
        } else {
            500
        },
        None => 50,
    }
}

/// How many documents are skipped.
pub open spec fn page_offset(offset: Option<usize>) -> usize {
    match offset {
        Some(n) => n,
        None => 0,
    }
}

/// The number of documents on a page.
pub open spec fn page_len(total: int, offset: int, limit: int) -> int {
    if offset >= total {
        0
    } else if limit < total - offset {
        limit
    } else {
        total - offset
    }
}

/// Whether the values of the documents on a page can be shown.
pub open spec fn page_fits(
    docs: Seq<StoredDocument>,
    owned: Option<Seq<u16>>,
    params: ListDocsParams,
) -> bool {
    forall|order: Seq<usize>, i: int|
        #![trigger is_listing(order, docs, owned, opt_text(params.prefix), docs.len() as int), order[i]]
        is_listing(order, docs, owned, opt_text(params.prefix), docs.len() as int)
            && page_offset(params.offset) <= i < order.len() && i < page_offset(params.offset)
            + page_limit(params.limit) ==> preview_fits(
            docs[order[i] as int].value,
            PREVIEW_KEYS as int,
        )
}

/// How many documents a page holds at most.
fn limit_of(params: &ListDocsParams) -> (r: usize)
    ensures
        r == page_limit(params.limit),
{
    match params.limit {
        Some(n) => if n < 500 {
            n
        } else {
            500
        },
        None => 50,
    }
}

/// How many documents are skipped.
fn offset_of(params: &ListDocsParams) -> (r: usize)
    ensures
        r == page_offset(params.offset),
{
    match params.offset {
        Some(n) => n,
        None => 0,
    }
}

/// Whether the values of the documents on a page can be shown.
pub fn can_list(docs: &Vec<StoredDocument>, owned: &Option<Vec<u16>>, params: &ListDocsParams) -> (r:
    bool)
    ensures
        r == page_fits(docs@, opt_ids(*owned), *params),
{
    let limit: usize = limit_of(params);
    let offset: usize = offset_of(params);
    let ghost ids = opt_ids(*owned);
    let ghost prefix = opt_text(params.prefix);
    let order = listing(docs, owned, &params.prefix);
    let mut k: usize = offset;
    while k < order.len() && k - offset < limit
        invariant
            offset <= k,
            k - offset <= limit,
            limit == page_limit(params.limit),
            offset == page_offset(params.offset),
            ids == opt_ids(*owned),
            prefix == opt_text(params.prefix),
            is_listing(order@, docs@, ids, prefix, docs@.len() as int),
            forall|i: int|
                offset <= i < k ==> preview_fits(
                    docs@[#[trigger] order@[i] as int].value,
                    PREVIEW_KEYS as int,
                ),
        decreases order@.len() - k,
    {
        if !can_preview(&docs[order[k]].value, PREVIEW_KEYS) {
            assert(is_listing(order@, docs@, ids, prefix, docs@.len() as int));
            assert(!preview_fits(docs@[order@[k as int] as int].value, PREVIEW_KEYS as int));
            return false;
        }
        k = k + 1;
    }
    proof {
        assert forall|other: Seq<usize>, i: int|
            #![trigger is_listing(other, docs@, ids, prefix, docs@.len() as int), other[i]]
            is_listing(other, docs@, ids, prefix, docs@.len() as int) && offset <= i < other.len()
                && i < offset + limit implies preview_fits(
            docs@[other[i] as int].value,
            PREVIEW_KEYS as int,
        ) by {
            law_list_is_determined(other, order@, docs@, ids, prefix, docs@.len() as int);
        }
    }
    true
}

/// The page of documents that was asked for.
pub fn list_documents(docs: &Vec<StoredDocument>, owned: &Option<Vec<u16>>, params: &ListDocsParams) -> (r:
    ListDocsResponse)
    requires
        page_offset(params.offset) + page_limit(params.limit) <= usize::MAX,
        page_fits(docs@, opt_ids(*owned), *params),
    ensures
        r.limit == page_limit(params.limit),
        r.offset == page_offset(params.offset),
        r.has_more == (r.offset + r.limit < r.total),
        exists|order: Seq<usize>|
            {
                &&& #[trigger] is_listing(
                    order,
                    docs@,
                    opt_ids(*owned),
                    opt_text(params.prefix),
                    docs@.len() as int,
                )
                &&& r.total == order.len()
                &&& r.documents@.len() == page_len(
                    order.len() as int,
                    r.offset as int,
                    r.limit as int,
                )
                &&& forall|i: int|
                    0 <= i < r.documents@.len() ==> summarises(
                        #[trigger] r.documents@[i],
                        docs@[order[r.offset + i] as int],
                    )
            },
{
    let limit: usize = limit_of(params);
    let offset: usize = offset_of(params);
    let order = listing(docs, owned, &params.prefix);
    let total: usize = order.len();
    let has_more = offset + limit < total;
    let mut documents: Vec<DocumentSummary> = Vec::new();
    let mut k: usize = offset;
    while k < total && k - offset < limit
        invariant
            offset <= k,
            k <= total || k == offset,
            k - offset <= limit,
            total == order@.len(),
            is_listing(
                order@,
                docs@,
                opt_ids(*owned),
                opt_text(params.prefix),
                docs@.len() as int,
            ),
            limit == page_limit(params.limit),
            offset == page_offset(params.offset),
            page_fits(docs@, opt_ids(*owned), *params),
            documents@.len() == k - offset,
            forall|i: int|
                0 <= i < k - offset ==> summarises(
                    #[trigger] documents@[i],
                    docs@[order@[offset + i] as int],
                ),
        decreases total - k,
    {
        let at: usize = order[k];
        assert(preview_fits(docs@[order@[k as int] as int].value, PREVIEW_KEYS as int));
        documents.push(summary_of(&docs[at]));
        k = k + 1;
    }
    let r = ListDocsResponse { documents, total, limit, offset, has_more };
    assert(is_listing(
        order@,
        docs@,
        opt_ids(*owned),
        opt_text(params.prefix),
        docs@.len() as int,
    ));
    r
}

/// There is only one list: documents come in one order.
pub proof fn law_list_is_determined(
    a: Seq<usize>,
    b: Seq<usize>,
    docs: Seq<StoredDocument>,
    owned: Option<Seq<u16>>,
    prefix: Option<Seq<char>>,
    k: int,
)
    requires
        k <= docs.len(),
        is_listing(a, docs, owned, prefix, k),
        is_listing(b, docs, owned, prefix, k),
    ensures
        a == b,
{
    lemma_listings_agree(a, b, docs, owned, prefix, k, if a.len() <= b.len() {
        a.len() as int
    } else {
        b.len() as int
    });
    lemma_no_longer(a, b, docs, owned, prefix, k);
    lemma_no_longer(b, a, docs, owned, prefix, k);
    assert(a =~= b);
}

/// The order of documents is irreflexive and goes one way.
proof fn lemma_listed_before_is_strict(docs: Seq<StoredDocument>, a: int, b: int)
    requires
        listed_before(docs, a, b),
    ensures
        a != b,
        !listed_before(docs, b, a),
{
    let x = docs[a].document.key@;
    let y = docs[b].document.key@;
    lemma_text_lt_irreflexive(x);
    if text_lt(x, y) && text_lt(y, x) {
        lemma_text_lt_transitive(x, y, x);
    }
}

proof fn lemma_listings_agree(
    a: Seq<usize>,
    b: Seq<usize>,
    docs: Seq<StoredDocument>,
    owned: Option<Seq<u16>>,
    prefix: Option<Seq<char>>,
    k: int,
    n: int,
)
    requires
        is_listing(a, docs, owned, prefix, k),
        is_listing(b, docs, owned, prefix, k),
        0 <= n <= a.len(),
        n <= b.len(),
    ensures
        forall|i: int| 0 <= i < n ==> #[trigger] a[i] == b[i],
    decreases n,
{
    if n > 0 {
        lemma_listings_agree(a, b, docs, owned, prefix, k, n - 1);
        let m = n - 1;
        let x = a[m] as int;
        let y = b[m] as int;
        assert(has_place(b, x) && has_place(a, y));
        let i = choose|i: int| 0 <= i < b.len() && #[trigger] b[i] == x;
        let j = choose|j: int| 0 <= j < a.len() && #[trigger] a[j] == y;
        if x != y {
            if i < m {
                assert(a[i] == b[i]);
                assert(listed_before(docs, a[i] as int, a[m] as int));
                lemma_listed_before_is_strict(docs, x, x);
            } else if j < m {
                assert(a[j] == b[j]);
                assert(listed_before(docs, b[j] as int, b[m] as int));
                lemma_listed_before_is_strict(docs, y, y);
            } else {
                assert(listed_before(docs, b[m] as int, b[i] as int));
                assert(listed_before(docs, a[m] as int, a[j] as int));
                lemma_listed_before_is_strict(docs, x, y);
            }
        }
    }
}

proof fn lemma_no_longer(
    a: Seq<usize>,
    b: Seq<usize>,
    docs: Seq<StoredDocument>,
    owned: Option<Seq<u16>>,
    prefix: Option<Seq<char>>,
    k: int,
)
    requires
        is_listing(a, docs, owned, prefix, k),
        is_listing(b, docs, owned, prefix, k),
        forall|i: int| 0 <= i < a.len() && i < b.len() ==> #[trigger] a[i] == b[i],
    ensures
        b.len() <= a.len(),
{
    if a.len() < b.len() {
        let n = a.len() as int;
        let y = b[n] as int;
        assert(has_place(a, y));
        let i = choose|i: int| 0 <= i < a.len() && #[trigger] a[i] == y;
        assert(b[i] == y);
        assert(listed_before(docs, b[i] as int, b[n] as int));
        lemma_listed_before_is_strict(docs, y, y);
    }
}

/// The next page begins where a page ends: together they hold what one page of both sizes holds.
pub proof fn law_pages_follow_each_other(total: int, offset: int, limit: int)
    requires
        0 <= offset,
        0 <= limit,
        0 <= total,
    ensures
        page_len(total, offset, limit) + page_len(total, offset + limit, limit) == page_len(
            total,
            offset,
            2 * limit,
        ),
        offset + limit < total ==> page_len(total, offset, limit) == limit,
{
}

// ---- Statistics ----

/// The documents in the owned vBuckets among the first `k`.
pub open spec fn local_docs(counts: Seq<(u16, usize)>, owned: Seq<u16>, k: int) -> nat
    decreases k,
{
    if k <= 0 {
        0
    } else {
        local_docs(counts, owned, k - 1) + if owned.contains(counts[k - 1].0) {
            counts[k - 1].1 as nat
        } else {
            0nat
        }
    }
}

/// The highest of the first `k` sequence numbers.
pub open spec fn highest(seqs: Seq<(u16, u64)>, k: int) -> u64
    decreases k,
{
    if k <= 0 {
        0
    } else if seqs[k - 1].1 > highest(seqs, k - 1) {
        seqs[k - 1].1
    } else {
        highest(seqs, k - 1)
    }
}

/// The vBuckets among the first `k` that have seen changes.
pub open spec fn seq_items(seqs: Seq<(u16, u64)>, k: int) -> Seq<JsonView>
    decreases k,
{
    if k <= 0 {
        Seq::empty()
    } else if seqs[k - 1].1 > 0 {
        seq_items(seqs, k - 1).push(
            JsonView::object()
                .with("vbucket"@, number(seqs[k - 1].0 as nat))
                .with("seq_no"@, number(seqs[k - 1].1 as nat)),
        )
    } else {
        seq_items(seqs, k - 1)
    }
}

/// What the storage says of a bucket.
#[derive(Debug)]
pub struct BucketCounts {
    pub document_count: usize,
    pub size_bytes: usize,
    pub num_vbuckets: u16,
    /// For each vBucket its highest sequence number.
    pub high_seq_nos: Vec<(u16, u64)>,
    /// For each vBucket the number of its documents.
    pub doc_counts: Vec<(u16, usize)>,
}

fn owns(ids: &Vec<u16>, id: u16) -> (r: bool)
    ensures
        r == ids@.contains(id),
{
    let mut i: usize = 0;
    while i < ids.len()
        invariant
            i <= ids@.len(),
            forall|j: int| 0 <= j < i ==> #[trigger] ids@[j] != id,
        decreases ids@.len() - i,
    {
        if ids[i] == id {
            return true;
        }
        i = i + 1;
    }
    false
}

/// The statistics of a bucket.
pub fn bucket_stats(bucket: &str, counts: &BucketCounts, map: &PartitionMap, node: &str) -> (r: Json)
    requires
        map.wf(),
        local_docs(
            counts.doc_counts@,
            map@.active_ids(node@, map.num_vbuckets as int),
            counts.doc_counts@.len() as int,
        ) <= u64::MAX,
    ensures
        ({
            let owned = map@.active_ids(node@, map.num_vbuckets as int);
            let seqs = counts.high_seq_nos@;
            r@ == JsonView::object()
                .with("bucket"@, JsonView::Text(bucket@))
                .with("document_count"@, number(counts.document_count as nat))
                .with(
                    "local_document_count"@,
                    number(local_docs(counts.doc_counts@, owned, counts.doc_counts@.len() as int)),
                )
                .with("size_bytes"@, number(counts.size_bytes as nat))
                .with("num_vbuckets"@, number(counts.num_vbuckets as nat))
                .with("local_active_vbuckets"@, number(owned.len()))
                .with("max_sequence_number"@, number(highest(seqs, seqs.len() as int) as nat))
                .with("partition_map_revision"@, number(map.revision as nat))
                .with("vbucket_seq_nos"@, JsonView::Array(seq_items(seqs, seqs.len() as int)))
        }),
{
    let owned = map.active_vbuckets_for(node);
    let mut local: u64 = 0;
    let mut k: usize = 0;
    while k < counts.doc_counts.len()
        invariant
            k <= counts.doc_counts@.len(),
            local == local_docs(counts.doc_counts@, owned@, k as int),
            local_docs(counts.doc_counts@, owned@, counts.doc_counts@.len() as int) <= u64::MAX,
        decreases counts.doc_counts@.len() - k,
    {
        proof {
            lemma_local_docs_grow(
                counts.doc_counts@,
                owned@,
                k + 1,
                counts.doc_counts@.len() as int,
            );
        }
        let (id, n) = counts.doc_counts[k];
        if owns(&owned, id) {
            local = local + n as u64;
        }
        k = k + 1;
    }
    let mut max_seq: u64 = 0;
    let mut items = Json::array();
    let mut j: usize = 0;
    while j < counts.high_seq_nos.len()
        invariant
            j <= counts.high_seq_nos@.len(),
            max_seq == highest(counts.high_seq_nos@, j as int),
            items@ == JsonView::Array(seq_items(counts.high_seq_nos@, j as int)),
        decreases counts.high_seq_nos@.len() - j,
    {
        let (id, n) = counts.high_seq_nos[j];
        if n > max_seq {
            max_seq = n;
        }
        if n > 0 {
            items = items.item(
                Json::object()
                    .with("vbucket", json_number(id as u64))
                    .with("seq_no", json_number(n)),
            );
        }
        j = j + 1;
    }
    Json::object()
        .with("bucket", json_text(bucket))
        .with("document_count", json_number(counts.document_count as u64))
        .with("local_document_count", json_number(local))
        .with("size_bytes", json_number(counts.size_bytes as u64))
        .with("num_vbuckets", json_number(counts.num_vbuckets as u64))
        .with("local_active_vbuckets", json_number(owned.len() as u64))
        .with("max_sequence_number", json_number(max_seq))
        .with("partition_map_revision", json_number(map.revision))
        .with("vbucket_seq_nos", items)
}

proof fn lemma_local_docs_grow(counts: Seq<(u16, usize)>, owned: Seq<u16>, a: int, b: int)
    requires
        a <= b,
    ensures
        local_docs(counts, owned, a) <= local_docs(counts, owned, b),
    decreases b - a,
{
    if a < b {
        lemma_local_docs_grow(counts, owned, a, b - 1);
    }
}

// ---- Laws ----

/// A list shows the documents whose vBucket is owned here and whose key starts as was asked for.
pub proof fn law_lists_show_what_was_asked_for(doc: Document, ids: Seq<u16>, prefix: Seq<char>)
    ensures
        is_listed(doc, None, None),
        is_listed(doc, Some(ids), None) <==> ids.contains(doc.vbucket_id),
        is_listed(doc, None, Some(prefix)) <==> doc.key@.len() >= prefix.len() && doc.key@.take(
            prefix.len() as int,
        ) == prefix,
        is_listed(doc, Some(ids), Some(prefix)) <==> is_listed(doc, Some(ids), None) && is_listed(
            doc,
            None,
            Some(prefix),
        ),
{
    if doc.key@.len() >= prefix.len() {
        assert(doc.key@.take(prefix.len() as int) =~= doc.key@.subrange(0, prefix.len() as int));
    }
}

/// A list holds every document that belongs into it once and no others, in the order of the keys.
pub proof fn law_lists_are_in_the_order_of_keys(
    order: Seq<usize>,
    docs: Seq<StoredDocument>,
    owned: Option<Seq<u16>>,
    prefix: Option<Seq<char>>,
    p: int,
)
    requires
        is_listing(order, docs, owned, prefix, docs.len() as int),
    ensures
        order.no_duplicates(),
        forall|i: int, j: int|
            0 <= i < j < order.len() ==> !text_lt(
                docs[#[trigger] order[j] as int].document.key@,
                docs[#[trigger] order[i] as int].document.key@,
            ),
        0 <= p < docs.len() && p <= usize::MAX ==> (order.contains(p as usize) <==> is_listed(
            docs[p].document,
            owned,
            prefix,
        )),
{
    assert forall|i: int, j: int| 0 <= i < j < order.len() implies !text_lt(
        docs[#[trigger] order[j] as int].document.key@,
        docs[#[trigger] order[i] as int].document.key@,
    ) && order[i] != order[j] by {
        let x = docs[order[i] as int].document.key@;
        let y = docs[order[j] as int].document.key@;
        assert(listed_before(docs, order[i] as int, order[j] as int));
        lemma_text_lt_irreflexive(x);
        if text_lt(x, y) && text_lt(y, x) {
            lemma_text_lt_transitive(x, y, x);
        }
    }
    if 0 <= p < docs.len() && p <= usize::MAX {
        if order.contains(p as usize) {
            let i = choose|i: int| 0 <= i < order.len() && order[i] == p as usize;
            assert(order[i] == p);
        }
        if is_listed(docs[p].document, owned, prefix) {
            assert(has_place(order, p));
            let i = choose|i: int| 0 <= i < order.len() && #[trigger] order[i] == p;
            assert(order[i] == p as usize);
        }
    }
}

/// A page holds fifty documents where nothing was said, else as many as were asked for, but no more
/// than five hundred; it starts where was asked for, and ends with the list.
pub proof fn law_pages_have_their_size(limit: usize, offset: usize, total: int)
    requires
        total >= 0,
    ensures
        page_limit(None) == 50,
        limit <= 500 ==> page_limit(Some(limit)) == limit,
        limit > 500 ==> page_limit(Some(limit)) == 500,
        page_offset(None) == 0,
        page_offset(Some(offset)) == offset,
        offset + limit <= total ==> page_len(total, offset as int, limit as int) == limit,
        offset <= total < offset + limit ==> page_len(total, offset as int, limit as int) == total
            - offset,
        offset > total ==> page_len(total, offset as int, limit as int) == 0,
{
}

/// A text of more than sixty bytes is cut to its first fifty-seven, with three dots behind; shorter
/// ones, numbers and the like are shown as they are.
pub proof fn law_long_texts_are_cut(t: String, value: Json)
    ensures
        byte_len(t@) <= 60 ==> member_preview(Json::Text(t)) == JsonView::Text(t@),
        byte_len(t@) > 60 && ends_at(t@, 57) ==> exists|k: int|
            0 <= k <= t@.len() && byte_len(#[trigger] t@.take(k)) == 57 && member_preview(Json::Text(t))
                == JsonView::Text(t@.take(k) + "..."@),
        value is Null || value is Bool || value is Number ==> member_preview(value) == value@,
        value is Object ==> member_preview(value) == JsonView::Text("{...}"@),
        value is Array ==> member_preview(value) == JsonView::Text(
            "["@ + dec(value->Array_0@.len()) + " items]"@,
        ),
{
    if byte_len(t@) > 60 && ends_at(t@, 57) {
        let k = choose|k: int| 0 <= k <= t@.len() && #[trigger] byte_len(t@.take(k)) == 57;
        lemma_place_at(t@, 57, 0, k);
        let p = place_of_byte(t@, 57, 0);
        assert(byte_len(t@.take(p)) == 57);
        assert(first_bytes(t@, 57) == t@.take(p));
    }
}

proof fn lemma_place_at(s: Seq<char>, n: nat, i: int, k: int)
    requires
        0 <= i <= k <= s.len(),
        byte_len(s.take(k)) == n,
    ensures
        i <= place_of_byte(s, n, i) <= k,
        byte_len(s.take(place_of_byte(s, n, i))) == n,
    decreases k - i,
{
    if i < k {
        if byte_len(s.take(i)) >= n {
            lemma_byte_len_grows(s, i, k);
        } else {
            lemma_place_at(s, n, i + 1, k);
        }
    }
}

/// Of an object the first members are shown under their names, and behind them how many more there
/// are, if any; other values are shown as they are.
pub proof fn law_previews_show_the_first_members(value: Json, max_keys: int, i: int)
    requires
        max_keys >= 0,
        value is Object ==> forall|k: int|
            0 <= k < value->Object_0@.len() ==> (#[trigger] value->Object_0@[k]).0@ != "..."@,
    ensures
        !(value is Object) ==> preview(value, max_keys) == value@,
        value is Object ==> ({
            let members = value->Object_0@;
            let shown = preview(value, max_keys);
            &&& shown is Object
            &&& members.len() <= max_keys ==> shown->Object_0.len() == members.len()
            &&& members.len() > max_keys ==> shown->Object_0.len() == max_keys + 1 && shown->Object_0[max_keys]
                == ("..."@, JsonView::Text(
                dec((members.len() - max_keys) as nat) + " more fields"@,
            ))
            &&& 0 <= i < members.len() && i < max_keys ==> shown->Object_0[i] == (
                members[i].0@,
                member_preview(members[i].1),
            )
        }),
{
    if value is Object {
        let members = value->Object_0@;
        let n = members.len() as int;
        let k = if n > max_keys {
            max_keys
        } else {
            n
        };
        lemma_shown(members, k);
        lemma_not_shown(shown_members(members, k), 0);
    }
}

proof fn lemma_shown(members: Seq<(String, Json)>, k: int)
    requires
        0 <= k <= members.len(),
    ensures
        shown_members(members, k).len() == k,
        forall|i: int|
            0 <= i < k ==> #[trigger] shown_members(members, k)[i] == (
                members[i].0@,
                member_preview(members[i].1),
            ),
    decreases k,
{
    if k > 0 {
        lemma_shown(members, k - 1);
    }
}

proof fn lemma_not_shown(members: Seq<(Seq<char>, JsonView)>, i: int)
    requires
        0 <= i,
        forall|k: int| 0 <= k < members.len() ==> (#[trigger] members[k]).0 != "..."@,
    ensures
        shown_place(members, "..."@, i) is None,
    decreases members.len() - i,
{
    if i < members.len() {
        lemma_not_shown(members, i + 1);
    }
}

/// A summary tells key, version numbers and vBucket of its document, the size of its value in bytes,
/// when it was changed and when it expires, and shows three members.
pub proof fn law_summaries_tell_of_their_document(s: DocumentSummary, doc: StoredDocument)
    requires
        summarises(s, doc),
    ensures
        s.key@ == doc.document.key@,
        s.cas == doc.document.cas,
        s.rev_id == doc.document.rev_id,
        s.seq_no == doc.document.seq_no,
        s.vbucket_id == doc.document.vbucket_id,
        s.size_bytes == byte_len(doc.document.value@),
        s.updated_at@ == rfc3339_of(doc.document.updated_at),
        s.expiry is Some == doc.document.expiry is Some,
        s.expiry is Some ==> s.expiry->0@ == rfc3339_of(doc.document.expiry->0),
        s.value_preview@ == preview(doc.value, 3),
{
}

/// The documents counted are those of the owned vBuckets.
pub proof fn law_owned_documents_are_counted(counts: Seq<(u16, usize)>, owned: Seq<u16>)
    ensures
        local_docs(counts, owned, counts.len() as int) == counts.filter(
            |c: (u16, usize)| owned.contains(c.0),
        ).fold_left(0nat, |sum: nat, c: (u16, usize)| sum + c.1 as nat),
{
    assert(counts.take(counts.len() as int) =~= counts);
    lemma_local_docs(counts, owned, counts.len() as int);
}

proof fn lemma_local_docs(counts: Seq<(u16, usize)>, owned: Seq<u16>, k: int)
    requires
        0 <= k <= counts.len(),
    ensures
        local_docs(counts, owned, k) == counts.take(k).filter(
            |c: (u16, usize)| owned.contains(c.0),
        ).fold_left(0nat, |sum: nat, c: (u16, usize)| sum + c.1 as nat),
    decreases k,
{
    reveal(Seq::filter);
    let keep = |c: (u16, usize)| owned.contains(c.0);
    let s = counts.take(k);
    if k > 0 {
        lemma_local_docs(counts, owned, k - 1);
        assert(s.drop_last() =~= counts.take(k - 1));
        if keep(s.last()) {
            let kept = s.drop_last().filter(keep);
            assert(kept.push(s.last()).drop_last() =~= kept);
        }
    }
}

/// The highest sequence number is one of them, and none is higher.
pub proof fn law_highest_is_the_maximum(seqs: Seq<(u16, u64)>, i: int)
    requires
        0 <= i < seqs.len(),
    ensures
        seqs[i].1 <= highest(seqs, seqs.len() as int),
        exists|j: int|
            0 <= j < seqs.len() && (#[trigger] seqs[j]).1 == highest(seqs, seqs.len() as int),
{
    lemma_highest(seqs, seqs.len() as int, i);
}

proof fn lemma_highest(seqs: Seq<(u16, u64)>, k: int, i: int)
    requires
        0 <= i < k <= seqs.len(),
    ensures
        seqs[i].1 <= highest(seqs, k),
        exists|j: int| 0 <= j < k && (#[trigger] seqs[j]).1 == highest(seqs, k),
    decreases k,
{
    if k > 1 {
        if i < k - 1 {
            lemma_highest(seqs, k - 1, i);
        } else {
            lemma_highest(seqs, k - 1, 0);
        }
        let j = choose|j: int| 0 <= j < k - 1 && (#[trigger] seqs[j]).1 == highest(seqs, k - 1);
        if seqs[k - 1].1 > highest(seqs, k - 1) {
            assert(seqs[k - 1].1 == highest(seqs, k));
        } else {
            assert(seqs[j].1 == highest(seqs, k));
        }
    } else {
        assert(highest(seqs, 0) == 0);
        assert(seqs[0].1 == highest(seqs, k));
    }
}

/// Only vBuckets with changes are listed, each with its number and its sequence number.
pub proof fn law_changed_vbuckets_are_listed(seqs: Seq<(u16, u64)>, i: int)
    ensures
        ({
            let changed = seqs.filter(|s: (u16, u64)| s.1 > 0);
            let items = seq_items(seqs, seqs.len() as int);
            &&& items.len() == changed.len()
            &&& 0 <= i < changed.len() ==> items[i] == JsonView::object().with(
                "vbucket"@,
                number(changed[i].0 as nat),
            ).with("seq_no"@, number(changed[i].1 as nat))
        }),
{
    assert(seqs.take(seqs.len() as int) =~= seqs);
    lemma_seq_items(seqs, seqs.len() as int, i);
}

proof fn lemma_seq_items(seqs: Seq<(u16, u64)>, k: int, i: int)
    requires
        0 <= k <= seqs.len(),
    ensures
        ({
            let changed = seqs.take(k).filter(|s: (u16, u64)| s.1 > 0);
            let items = seq_items(seqs, k);
            &&& items.len() == changed.len()
            &&& 0 <= i < changed.len() ==> items[i] == JsonView::object().with(
                "vbucket"@,
                number(changed[i].0 as nat),
            ).with("seq_no"@, number(changed[i].1 as nat))
        }),
    decreases k,
{
    reveal(Seq::filter);
    let s = seqs.take(k);
    if k > 0 {
        lemma_seq_items(seqs, k - 1, i);
        assert(s.drop_last() =~= seqs.take(k - 1));
    }
}

} // verus!
