//! The JSON documents the bridge publishes, held as plain values; serde_json writes them out.

use serde_json::Value;
use vstd::prelude::*;

verus! {

/// A JSON value that holds no object: a string, an unsigned number or a list of strings.
#[derive(Debug, Clone)]
pub enum JsonLeaf {
    Str(String),
    Int(u32),
    StrList(Vec<String>),
}

/// The mathematical form of a `JsonLeaf`.
pub enum LeafView {
    Str(Seq<char>),
    Int(u32),
    StrList(Seq<Seq<char>>),
}

impl View for JsonLeaf {
    type V = LeafView;

    open spec fn view(&self) -> LeafView {
        match self {
            JsonLeaf::Str(s) => LeafView::Str(s@),
            JsonLeaf::Int(n) => LeafView::Int(*n),
            JsonLeaf::StrList(v) => LeafView::StrList(crate::text::views(v@)),
        }
    }
}

/// A member value of a published document: a leaf, or an object whose members are leaves.
#[derive(Debug, Clone)]
pub enum JsonValue {
    Leaf(JsonLeaf),
    Object(Vec<(String, JsonLeaf)>),
}

/// The mathematical form of a `JsonValue`.
pub enum ValueView {
    Leaf(LeafView),
    Object(Seq<(Seq<char>, LeafView)>),
}

/// The view of the members of an inner object.
pub open spec fn fields_view(f: Seq<(String, JsonLeaf)>) -> Seq<(Seq<char>, LeafView)> {
    f.map_values(|p: (String, JsonLeaf)| (p.0@, p.1@))
}

impl View for JsonValue {
    type V = ValueView;

    open spec fn view(&self) -> ValueView {
        match self {
            JsonValue::Leaf(l) => ValueView::Leaf(l@),
            JsonValue::Object(f) => ValueView::Object(fields_view(f@)),
        }
    }
}

/// The members of a document, in insertion order.
pub type Members = Seq<(Seq<char>, ValueView)>;

/// First index at or after `i` of a member named `k`.
pub open spec fn key_index_from(m: Members, k: Seq<char>, i: nat) -> Option<nat>
    decreases m.len() - i,
{
    if i >= m.len() {
        None
    } else if m[i as int].0 == k {
        Some(i)
    } else {
        key_index_from(m, k, i + 1)
    }
}

/// Index of the member named `k`.
pub open spec fn key_index(m: Members, k: Seq<char>) -> Option<nat> {
    key_index_from(m, k, 0)
}

/// Setting member `k` to `v` (`serde_json::Map::insert`): an existing member keeps its
/// place and takes the new value; otherwise the member is added at the end.
pub open spec fn insert_member(m: Members, k: Seq<char>, v: ValueView) -> Members {
    match key_index(m, k) {
        Some(i) => m.update(i as int, (k, v)),
        None => m.push((k, v)),
    }
}

/// Setting each member of `extra`, in order, in `base`.
pub open spec fn merge_members(base: Members, extra: Members) -> Members
    decreases extra.len(),
{
    if extra.len() == 0 {
        base
    } else {
        let last = extra.last();
        insert_member(merge_members(base, extra.drop_last()), last.0, last.1)
    }
}

/// No two members share a name.
pub open spec fn distinct_keys(m: Members) -> bool {
    forall|i: int, j: int| 0 <= i < j < m.len() ==> m[i].0 != m[j].0
}

/// The member named `k`, if any.
pub open spec fn member(m: Members, k: Seq<char>) -> Option<ValueView> {
    match key_index(m, k) {
        Some(i) => Some(m[i as int].1),
        None => None,
    }
}

/// A JSON object: the document that a payload topic carries.
#[derive(Debug, Clone)]
pub struct JsonObject {
    pub entries: Vec<(String, JsonValue)>,
}

impl View for JsonObject {
    type V = Members;

    open spec fn view(&self) -> Members {
        self.entries@.map_values(|p: (String, JsonValue)| (p.0@, p.1@))
    }
}

/// What serde_json writes for an object with these members (`Value::to_string`:
/// compact, members ordered by serde_json's map).
pub uninterp spec fn json_text(m: Members) -> Seq<char>;

impl JsonObject {
    /// An object without members.
    pub fn new() -> (o: JsonObject)
        ensures
            o@ == Seq::<(Seq<char>, ValueView)>::empty(),
    {
        JsonObject { entries: Vec::new() }
    }

    /// Index of the member named `k`.
    fn find_key(&self, k: &String) -> (r: Option<usize>)
        ensures
            match r {
                Some(i) => key_index(self@, k@) == Some(i as nat),
                None => key_index(self@, k@) is None,
            },
    {
        let n = self.entries.len();
        let mut i: usize = 0;
        while i < n
            invariant
                n == self@.len(),
                i <= n,
                key_index(self@, k@) == key_index_from(self@, k@, i as nat),
            decreases n - i,
        {
            if self.entries[i].0 == *k {
                return Some(i);
            }
            i = i + 1;
        }
        None
    }

    /// Sets member `k` to `v` (`serde_json::Map::insert`).
    pub fn insert(&mut self, k: String, v: JsonValue)
        ensures
            final(self)@ == insert_member(old(self)@, k@, v@),
    {
        proof {
            lemma_key_index_from(self@, k@, 0);
        }
        match self.find_key(&k) {
            Some(i) => {
                let ghost kv = k@;
                let ghost vv = v@;
                self.entries.set(i, (k, v));
                assert(self@ =~= old(self)@.update(i as int, (kv, vv)));
            },
            None => {
                let ghost kv = k@;
                let ghost vv = v@;
                self.entries.push((k, v));
                assert(self@ =~= old(self)@.push((kv, vv)));
            },
        }
    }

    /// Sets every member of `extra`, in order.
    pub fn merge(&mut self, extra: &JsonObject)
        ensures
            final(self)@ == merge_members(old(self)@, extra@),
    {
        let n = extra.entries.len();
        let mut i: usize = 0;
        assert(extra@.take(0) =~= Seq::<(Seq<char>, ValueView)>::empty());
        while i < n
            invariant
                n == extra@.len(),
                i <= n,
                self@ == merge_members(old(self)@, extra@.take(i as int)),
            decreases n - i,
        {
            let k = extra.entries[i].0.clone();
            let v = clone_value(&extra.entries[i].1);
            self.insert(k, v);
            assert(extra@.take(i + 1).drop_last() =~= extra@.take(i as int));
            i = i + 1;
        }
        assert(extra@.take(n as int) =~= extra@);
    }

    /// The JSON text of the object: serde_json's `Value::to_string` of the object built
    /// member for member (`Value::from` for strings, numbers and string lists).
    #[verifier::external_body]
    pub(crate) fn to_json_string(&self) -> (s: String)
        ensures
            s@ == json_text(self@),
    {
        let leaf = |l: &JsonLeaf| match l {
            JsonLeaf::Str(s) => Value::from(s.as_str()),
            JsonLeaf::Int(n) => Value::from(*n),
            JsonLeaf::StrList(v) => Value::from(v.clone()),
        };
        Value::Object(self.entries.iter().map(|(k, v)| (k.clone(), match v {
            JsonValue::Leaf(l) => leaf(l),
            JsonValue::Object(f) => Value::Object(f.iter().map(|(k, l)| (k.clone(), leaf(l))).collect()),
        })).collect()).to_string()
    }
}

/// A copy of a list of strings.
pub fn clone_strings(v: &Vec<String>) -> (r: Vec<String>)
    ensures
        crate::text::views(r@) == crate::text::views(v@),
{
    let n = v.len();
    let mut r: Vec<String> = Vec::new();
    let mut i: usize = 0;
    while i < n
        invariant
            n == v@.len(),
            i <= n,
            crate::text::views(r@) == crate::text::views(v@).take(i as int),
        decreases n - i,
    {
        let s = v[i].clone();
        let ghost before = r@;
        r.push(s);
        assert(crate::text::views(r@) =~= crate::text::views(before).push(s@));
        assert(crate::text::views(r@) =~= crate::text::views(v@).take(i + 1));
        i = i + 1;
    }
    assert(crate::text::views(v@).take(n as int) =~= crate::text::views(v@));
    r
}

/// A copy of a leaf.
pub fn clone_leaf(l: &JsonLeaf) -> (r: JsonLeaf)
    ensures
        r@ == l@,
{
    match l {
        JsonLeaf::Str(s) => JsonLeaf::Str(s.clone()),
        JsonLeaf::Int(n) => JsonLeaf::Int(*n),
        JsonLeaf::StrList(v) => JsonLeaf::StrList(clone_strings(v)),
    }
}

/// A copy of a member value.
pub fn clone_value(v: &JsonValue) -> (r: JsonValue)
    ensures
        r@ == v@,
{
    match v {
        JsonValue::Leaf(l) => JsonValue::Leaf(clone_leaf(l)),
        JsonValue::Object(f) => {
            let n = f.len();
            let mut r: Vec<(String, JsonLeaf)> = Vec::new();
            let mut i: usize = 0;
            while i < n
                invariant
                    n == f@.len(),
                    i <= n,
                    fields_view(r@) == fields_view(f@).take(i as int),
                decreases n - i,
            {
                let k = f[i].0.clone();
                let l = clone_leaf(&f[i].1);
                let ghost before = r@;
                let ghost kv = k@;
                let ghost lv = l@;
                r.push((k, l));
                assert(fields_view(r@) =~= fields_view(before).push((kv, lv)));
                assert(fields_view(r@) =~= fields_view(f@).take(i + 1));
                i = i + 1;
            }
            assert(fields_view(f@).take(n as int) =~= fields_view(f@));
            JsonValue::Object(r)
        },
    }
}

proof fn lemma_key_index_from(m: Members, k: Seq<char>, i: nat)
    ensures
        match key_index_from(m, k, i) {
            Some(j) => i <= j < m.len() && m[j as int].0 == k && forall|l: int|
                i <= l < j ==> m[l].0 != k,
            None => forall|l: int| i <= l < m.len() ==> m[l].0 != k,
        },
    decreases m.len() - i,
{
    if i < m.len() && m[i as int].0 != k {
        lemma_key_index_from(m, k, i + 1);
    }
}

/// The position of a member depends only on the member names.
proof fn lemma_key_index_same_keys(m: Members, m2: Members, k: Seq<char>, i: nat)
    requires
        m.len() == m2.len(),
        forall|l: int| 0 <= l < m.len() ==> m[l].0 == m2[l].0,
    ensures
        key_index_from(m, k, i) == key_index_from(m2, k, i),
    decreases m.len() - i,
{
    if i < m.len() && m[i as int].0 != k {
        lemma_key_index_same_keys(m, m2, k, i + 1);
    }
}

/// Appending a member named differently from `k` does not move `k`.
proof fn lemma_key_index_push(m: Members, k: Seq<char>, e: (Seq<char>, ValueView), i: nat)
    requires
        e.0 != k,
    ensures
        key_index_from(m.push(e), k, i) == key_index_from(m, k, i),
    decreases m.len() + 1 - i,
{
    if i < m.len() && m[i as int].0 != k {
        lemma_key_index_push(m, k, e, i + 1);
    } else if i == m.len() {
        assert(key_index_from(m.push(e), k, i + 1) is None);
    }
}

/// Inserting a member makes it readable back with the inserted value, and
/// leaves every other member as it was; names stay distinct.
pub proof fn lemma_insert_then_member(m: Members, k: Seq<char>, v: ValueView, other: Seq<char>)
    requires
        distinct_keys(m),
    ensures
        distinct_keys(insert_member(m, k, v)),
        member(insert_member(m, k, v), k) == Some(v),
        other != k ==> member(insert_member(m, k, v), other) == member(m, other),
{
    let m2 = insert_member(m, k, v);
    lemma_key_index_from(m, k, 0);
    match key_index(m, k) {
        Some(i) => {
            lemma_key_index_same_keys(m, m2, k, 0);
            lemma_key_index_same_keys(m, m2, other, 0);
            lemma_key_index_from(m, other, 0);
        },
        None => {
            lemma_key_index_from(m2, k, 0);
            assert(m2[m.len() as int].0 == k);
            if other != k {
                lemma_key_index_push(m, other, (k, v), 0);
                lemma_key_index_from(m, other, 0);
            }
        },
    }
}

/// The value of the last member named `k` among `extra`, if any.
pub open spec fn last_value(extra: Members, k: Seq<char>) -> Option<ValueView>
    decreases extra.len(),
{
    if extra.len() == 0 {
        None
    } else if extra.last().0 == k {
        Some(extra.last().1)
    } else {
        last_value(extra.drop_last(), k)
    }
}

/// After merging `extra` into `base`, member `k` holds the value that `extra` gives it
/// last, or else what `base` holds; names stay distinct.
pub proof fn lemma_merge_member(base: Members, extra: Members, k: Seq<char>)
    requires
        distinct_keys(base),
    ensures
        distinct_keys(merge_members(base, extra)),
        member(merge_members(base, extra), k) == match last_value(extra, k) {
            Some(v) => Some(v),
            None => member(base, k),
        },
    decreases extra.len(),
{
    if extra.len() > 0 {
        let m0 = merge_members(base, extra.drop_last());
        lemma_merge_member(base, extra.drop_last(), k);
        lemma_insert_then_member(m0, extra.last().0, extra.last().1, k);
    }
}

/// Merging members none of which is named `k` into members none of which is named `k`
/// gives members none of which is named `k`.
pub proof fn lemma_merge_keys_absent(base: Members, extra: Members, k: Seq<char>)
    requires
        forall|i: int| 0 <= i < base.len() ==> (#[trigger] base[i]).0 != k,
        forall|i: int| 0 <= i < extra.len() ==> (#[trigger] extra[i]).0 != k,
    ensures
        forall|j: int|
            0 <= j < merge_members(base, extra).len() ==> (#[trigger] merge_members(
                base,
                extra,
            )[j]).0 != k,
    decreases extra.len(),
{
    if extra.len() > 0 {
        let e = extra.drop_last();
        assert forall|i: int| 0 <= i < e.len() implies (#[trigger] e[i]).0 != k by {
            assert(e[i] == extra[i]);
        }
        lemma_merge_keys_absent(base, e, k);
        let m0 = merge_members(base, e);
        let l = extra.last();
        assert(l == extra[extra.len() - 1]);
        let r = merge_members(base, extra);
        assert(r == insert_member(m0, l.0, l.1));
        lemma_key_index_from(m0, l.0, 0);
        assert forall|j: int| 0 <= j < r.len() implies (#[trigger] r[j]).0 != k by {
            match key_index(m0, l.0) {
                Some(i) => {
                    if j != i {
                        assert(r[j] == m0[j]);
                    }
                },
                None => {
                    if j < m0.len() {
                        assert(r[j] == m0[j]);
                    }
                },
            }
        }
    }
}

/// The last member named `k` decides `last_value`.
pub proof fn lemma_last_value_at(extra: Members, k: Seq<char>, i: int)
    requires
        0 <= i < extra.len(),
        extra[i].0 == k,
        forall|j: int| i < j < extra.len() ==> (#[trigger] extra[j]).0 != k,
    ensures
        last_value(extra, k) == Some(extra[i].1),
    decreases extra.len(),
{
    if i < extra.len() - 1 {
        let e = extra.drop_last();
        assert(extra.last() == extra[extra.len() - 1]);
        assert forall|j: int| i < j < e.len() implies (#[trigger] e[j]).0 != k by {
            assert(e[j] == extra[j]);
        }
        assert(e[i] == extra[i]);
        lemma_last_value_at(e, k, i);
    }
}

/// Without a member named `k`, `last_value` has nothing.
pub proof fn lemma_last_value_absent(extra: Members, k: Seq<char>)
    requires
        forall|j: int| 0 <= j < extra.len() ==> (#[trigger] extra[j]).0 != k,
    ensures
        last_value(extra, k) is None,
    decreases extra.len(),
{
    if extra.len() > 0 {
        let e = extra.drop_last();
        assert(extra.last() == extra[extra.len() - 1]);
        assert forall|j: int| 0 <= j < e.len() implies (#[trigger] e[j]).0 != k by {
            assert(e[j] == extra[j]);
        }
        lemma_last_value_absent(e, k);
    }
}

/// In members with distinct names, the last member named `k` is the member named `k`.
pub proof fn lemma_last_value_distinct(m: Members, k: Seq<char>)
    requires
        distinct_keys(m),
    ensures
        last_value(m, k) == member(m, k),
    decreases m.len(),
{
    if m.len() > 0 {
        let m0 = m.drop_last();
        let l = m.last();
        assert(l == m[m.len() - 1]);
        assert(m0.push(l) =~= m);
        assert(distinct_keys(m0)) by {
            assert forall|i: int, j: int| 0 <= i < j < m0.len() implies m0[i].0 != m0[j].0 by {
                assert(m0[i] == m[i] && m0[j] == m[j]);
            }
        }
        lemma_last_value_distinct(m0, k);
        if l.0 == k {
            lemma_key_index_from(m, k, 0);
            match key_index(m, k) {
                Some(i) => {
                    if i < m.len() - 1 {
                        assert(m[i as int].0 == m[m.len() - 1].0);
                    }
                },
                None => {},
            }
        } else {
            lemma_key_index_push(m0, k, l, 0);
            lemma_key_index_from(m0, k, 0);
            match key_index(m0, k) {
                Some(i) => {
                    assert(m[i as int] == m0[i as int]);
                },
                None => {},
            }
            assert(member(m, k) == member(m0, k));
        }
    }
}

} // verus!
