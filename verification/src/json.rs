//! The parsed value: a tagged union over null, booleans, numbers, strings,
//! arrays and objects, together with its mathematical model.
//!
//! A number carries the exact literal text the grammar matched; a string
//! carries the raw span between the quotes, escapes included verbatim.
//! An object keeps its members in insertion order; a duplicate key
//! overwrites the value in place (last write wins).

use vstd::prelude::*;

verus! {

/// A parsed JSON document node.
#[derive(Debug, PartialEq, Eq)]
pub enum JsonValue {
    Null,
    Boolean(bool),
    /// The exact number literal matched by the grammar, kept as text so the
    /// caller chooses the conversion to apply to it.
    Num(String),
    /// The raw character run between the quotes; escape sequences are kept
    /// verbatim, not decoded.
    Str(String),
    Array(Vec<JsonValue>),
    /// Members in insertion order; keys are unique.
    Object(Vec<(String, JsonValue)>),
}

/// The mathematical shape of a `JsonValue`, with text as `Seq<char>`.
pub ghost enum JsonModel {
    Null,
    Boolean(bool),
    Num(Seq<char>),
    Str(Seq<char>),
    Array(Seq<JsonModel>),
    Object(Seq<(Seq<char>, JsonModel)>),
}

impl JsonValue {
    /// The model of this value: the same tree over mathematical sequences.
    pub open spec fn model(self) -> JsonModel
        decreases self,
    {
        match self {
            JsonValue::Null => JsonModel::Null,
            JsonValue::Boolean(b) => JsonModel::Boolean(b),
            JsonValue::Num(t) => JsonModel::Num(t@),
            JsonValue::Str(t) => JsonModel::Str(t@),
            JsonValue::Array(vs) => JsonModel::Array(elems_model(vs@)),
            JsonValue::Object(ps) => JsonModel::Object(pairs_model(ps@)),
        }
    }
}

/// The models of a sequence of array elements.
pub open spec fn elems_model(vs: Seq<JsonValue>) -> Seq<JsonModel>
    decreases vs,
{
    if vs.len() == 0 {
        Seq::empty()
    } else {
        elems_model(vs.subrange(0, vs.len() - 1)).push(vs[vs.len() - 1].model())
    }
}

/// The models of a sequence of object members.
pub open spec fn pairs_model(ps: Seq<(String, JsonValue)>) -> Seq<(Seq<char>, JsonModel)>
    decreases ps,
{
    if ps.len() == 0 {
        Seq::empty()
    } else {
        pairs_model(ps.subrange(0, ps.len() - 1)).push(
            (ps[ps.len() - 1].0@, ps[ps.len() - 1].1.model()),
        )
    }
}

/// `pairs_model` maps the sequence pointwise.
pub proof fn lemma_pairs_model(ps: Seq<(String, JsonValue)>)
    ensures
        pairs_model(ps).len() == ps.len(),
        forall|k: int| 0 <= k < ps.len() ==> pairs_model(ps)[k] == (ps[k].0@, ps[k].1.model()),
    decreases ps.len(),
{
    if ps.len() > 0 {
        lemma_pairs_model(ps.subrange(0, ps.len() - 1));
        assert forall|k: int| 0 <= k < ps.len() implies pairs_model(ps)[k] == (
            ps[k].0@,
            ps[k].1.model(),
        ) by {
            if k < ps.len() - 1 {
                assert(ps.subrange(0, ps.len() - 1)[k] == ps[k]);
            }
        }
    }
}

/// `elems_model` commutes with appending one element.
pub proof fn lemma_elems_model_push(vs: Seq<JsonValue>, v: JsonValue)
    ensures
        elems_model(vs.push(v)) == elems_model(vs).push(v.model()),
{
    let w = vs.push(v);
    assert(w.subrange(0, w.len() - 1) =~= vs);
    assert(w[w.len() - 1] == v);
}

/// `pairs_model` commutes with appending one member.
pub proof fn lemma_pairs_model_push(ps: Seq<(String, JsonValue)>, p: (String, JsonValue))
    ensures
        pairs_model(ps.push(p)) == pairs_model(ps).push((p.0@, p.1.model())),
{
    let w = ps.push(p);
    assert(w.subrange(0, w.len() - 1) =~= ps);
    assert(w[w.len() - 1] == p);
}

/// Index of the first member whose key is `key`, or `ps.len()` if absent.
pub open spec fn first_key_index(ps: Seq<(Seq<char>, JsonModel)>, key: Seq<char>) -> int
    decreases ps.len(),
{
    if ps.len() == 0 {
        0
    } else if ps[0].0 == key {
        0
    } else {
        1 + first_key_index(ps.drop_first(), key)
    }
}

/// Insertion with last-write-wins: an existing key keeps its position and
/// takes the new value; a new key is appended.
pub open spec fn spec_upsert(
    ps: Seq<(Seq<char>, JsonModel)>,
    key: Seq<char>,
    v: JsonModel,
) -> Seq<(Seq<char>, JsonModel)> {
    let k = first_key_index(ps, key);
    if k < ps.len() {
        ps.update(k, (key, v))
    } else {
        ps.push((key, v))
    }
}

/// No two members carry the same key.
pub open spec fn keys_unique(ps: Seq<(Seq<char>, JsonModel)>) -> bool {
    forall|i: int, j: int| 0 <= i < j < ps.len() ==> ps[i].0 != ps[j].0
}

/// Last-write-wins insertion keeps the keys unique: an existing key only
/// has its value replaced, a new key was not present before.
pub proof fn lemma_upsert_keys_unique(ps: Seq<(Seq<char>, JsonModel)>, key: Seq<char>, v: JsonModel)
    requires
        keys_unique(ps),
    ensures
        keys_unique(spec_upsert(ps, key, v)),
{
    lemma_first_key_index(ps, key);
    let k = first_key_index(ps, key);
    let r = spec_upsert(ps, key, v);
    if k < ps.len() {
        assert forall|i: int, j: int| 0 <= i < j < r.len() implies r[i].0 != r[j].0 by {
            assert(ps[k].0 == key);
            assert(r[i].0 == if i == k {
                key
            } else {
                ps[i].0
            });
            assert(r[j].0 == if j == k {
                key
            } else {
                ps[j].0
            });
        }
    } else {
        assert forall|i: int, j: int| 0 <= i < j < r.len() implies r[i].0 != r[j].0 by {
            if j == ps.len() {
                assert(r[j].0 == key);
                assert(ps[i].0 != key);
            }
        }
    }
}

/// `first_key_index` is at most the length, points at the key when it hit,
/// and nothing before it carries the key.
pub proof fn lemma_first_key_index(ps: Seq<(Seq<char>, JsonModel)>, key: Seq<char>)
    ensures
        0 <= first_key_index(ps, key) <= ps.len(),
        first_key_index(ps, key) < ps.len() ==> ps[first_key_index(ps, key)].0 == key,
        forall|m: int| 0 <= m < first_key_index(ps, key) ==> ps[m].0 != key,
    decreases ps.len(),
{
    if ps.len() != 0 && ps[0].0 != key {
        lemma_first_key_index(ps.drop_first(), key);
        assert forall|m: int| 0 <= m < first_key_index(ps, key) implies ps[m].0 != key by {
            if m > 0 {
                assert(ps.drop_first()[m - 1] == ps[m]);
            }
        }
    }
}

} // verus!
