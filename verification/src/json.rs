//! An owned JSON tree with value semantics.
//!
//! Work-item records arrive as JSON; the pipeline holds them in this tree so
//! that every transformation over them can be specified and verified. A number
//! is carried as its literal text form: the pipeline never computes with
//! numbers, it only re-emits them.

use vstd::prelude::*;

verus! {

/// An owned JSON value.
pub enum JsonValue {
    Null,
    Bool(bool),
    /// A number, held as the literal text it renders to.
    Num(String),
    Str(String),
    Arr(Vec<JsonValue>),
    /// An object as an ordered list of key/value pairs with distinct keys.
    Obj(Vec<(String, JsonValue)>),
}

/// The mathematical shape of a [`JsonValue`].
pub enum JsonNode {
    Null,
    Bool(bool),
    Num(Seq<char>),
    Str(Seq<char>),
    Arr(Seq<JsonNode>),
    Obj(Seq<(Seq<char>, JsonNode)>),
}

impl JsonValue {
    pub open spec fn view_rec(self) -> JsonNode
        decreases self,
    {
        match self {
            JsonValue::Null => JsonNode::Null,
            JsonValue::Bool(b) => JsonNode::Bool(b),
            JsonValue::Num(n) => JsonNode::Num(n@),
            JsonValue::Str(s) => JsonNode::Str(s@),
            JsonValue::Arr(items) => JsonNode::Arr(Self::arr_view(items@)),
            JsonValue::Obj(pairs) => JsonNode::Obj(Self::obj_view(pairs@)),
        }
    }

    pub open spec fn arr_view(items: Seq<JsonValue>) -> Seq<JsonNode>
        decreases items,
    {
        if items.len() == 0 {
            Seq::empty()
        } else {
            seq![items[0].view_rec()] + Self::arr_view(items.drop_first())
        }
    }

    pub open spec fn obj_view(pairs: Seq<(String, JsonValue)>) -> Seq<(Seq<char>, JsonNode)>
        decreases pairs,
    {
        if pairs.len() == 0 {
            Seq::empty()
        } else {
            seq![(pairs[0].0@, pairs[0].1.view_rec())] + Self::obj_view(pairs.drop_first())
        }
    }
}

impl View for JsonValue {
    type V = JsonNode;

    open spec fn view(&self) -> JsonNode {
        self.view_rec()
    }
}

/// Whether the key occurs in the object's pairs.
pub open spec fn spec_obj_has_key(pairs: Seq<(Seq<char>, JsonNode)>, key: Seq<char>) -> bool {
    exists|i: int| 0 <= i < pairs.len() && pairs[i].0 == key
}

/// The value under the first occurrence of the key, if any.
pub open spec fn spec_obj_get(pairs: Seq<(Seq<char>, JsonNode)>, key: Seq<char>) -> Option<
    JsonNode,
>
    decreases pairs.len(),
{
    if pairs.len() == 0 {
        Option::None
    } else if pairs[0].0 == key {
        Option::Some(pairs[0].1)
    } else {
        spec_obj_get(pairs.drop_first(), key)
    }
}

/// A key occurs exactly when a lookup finds something.
pub proof fn lemma_obj_get_has_key(pairs: Seq<(Seq<char>, JsonNode)>, key: Seq<char>)
    ensures
        spec_obj_has_key(pairs, key) <==> spec_obj_get(pairs, key) is Some,
    decreases pairs.len(),
{
    if pairs.len() > 0 {
        lemma_obj_get_has_key(pairs.drop_first(), key);
        if pairs[0].0 == key {
        } else {
            assert(spec_obj_has_key(pairs, key) ==> spec_obj_has_key(pairs.drop_first(), key)) by {
                if spec_obj_has_key(pairs, key) {
                    let i = choose|i: int| 0 <= i < pairs.len() && pairs[i].0 == key;
                    assert(pairs.drop_first()[i - 1].0 == key);
                }
            }
            assert(spec_obj_has_key(pairs.drop_first(), key) ==> spec_obj_has_key(pairs, key)) by {
                if spec_obj_has_key(pairs.drop_first(), key) {
                    let i = choose|i: int|
                        0 <= i < pairs.drop_first().len() && pairs.drop_first()[i].0 == key;
                    assert(pairs[i + 1].0 == key);
                }
            }
        }
    }
}

/// Looks up the value under the first occurrence of the key.
pub fn obj_get<'a>(pairs: &'a Vec<(String, JsonValue)>, key: &str) -> (r: Option<&'a JsonValue>)
    ensures
        match r {
            Option::Some(v) => spec_obj_get(JsonValue::obj_view(pairs@), key@) == Option::Some(v@),
            Option::None => spec_obj_get(JsonValue::obj_view(pairs@), key@) is None,
        },
{
    let mut i: usize = 0;
    proof {
        assert(pairs@.skip(0) =~= pairs@);
    }
    while i < pairs.len()
        invariant
            i <= pairs@.len(),
            forall|j: int| 0 <= j < i ==> pairs@[j].0@ != key@,
            spec_obj_get(JsonValue::obj_view(pairs@), key@) == spec_obj_get(
                JsonValue::obj_view(pairs@.skip(i as int)),
                key@,
            ),
        decreases pairs@.len() - i,
    {
        proof {
            lemma_obj_view_index(pairs@);
        }
        if crate::text::str_eq(pairs[i].0.as_str(), key) {
            return Some(&pairs[i].1);
        }
        i = i + 1;
        proof {
            let tail = pairs@.skip(i - 1);
            assert(JsonValue::obj_view(tail).drop_first() =~= JsonValue::obj_view(
                pairs@.skip(i as int),
            )) by {
                lemma_obj_view_index(pairs@);
                lemma_obj_view_index(tail);
                lemma_obj_view_index(pairs@.skip(i as int));
            }
            assert(JsonValue::obj_view(tail)[0].0 != key@) by {
                lemma_obj_view_index(tail);
            }
        }
    }
    proof {
        assert(pairs@.skip(pairs@.len() as int) =~= Seq::<(String, JsonValue)>::empty());
        assert(JsonValue::obj_view(Seq::<(String, JsonValue)>::empty()) =~= Seq::<
            (Seq<char>, JsonNode),
        >::empty());
    }
    None
}

/// The object view indexes elementwise.
pub proof fn lemma_obj_view_index(pairs: Seq<(String, JsonValue)>)
    ensures
        JsonValue::obj_view(pairs).len() == pairs.len(),
        forall|i: int|
            0 <= i < pairs.len() ==> JsonValue::obj_view(pairs)[i] == (
            pairs[i].0@,
            pairs[i].1.view_rec(),
            ),
    decreases pairs.len(),
{
    if pairs.len() > 0 {
        lemma_obj_view_index(pairs.drop_first());
        assert forall|i: int| 0 <= i < pairs.len() implies JsonValue::obj_view(pairs)[i] == (
        pairs[i].0@,
        pairs[i].1.view_rec(),
        ) by {
            if i > 0 {
                assert(JsonValue::obj_view(pairs)[i] == JsonValue::obj_view(pairs.drop_first())[i
                    - 1]);
            }
        }
    }
}

/// The array view indexes elementwise.
pub proof fn lemma_arr_view_index(items: Seq<JsonValue>)
    ensures
        JsonValue::arr_view(items).len() == items.len(),
        forall|i: int|
            0 <= i < items.len() ==> JsonValue::arr_view(items)[i] == items[i].view_rec(),
    decreases items.len(),
{
    if items.len() > 0 {
        lemma_arr_view_index(items.drop_first());
        assert forall|i: int| 0 <= i < items.len() implies JsonValue::arr_view(items)[i]
            == items[i].view_rec() by {
            if i > 0 {
                assert(JsonValue::arr_view(items)[i] == JsonValue::arr_view(items.drop_first())[i
                    - 1]);
            }
        }
    }
}

} // verus!
