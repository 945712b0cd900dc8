//! Simplifies raw work-item JSON trees into compact flat records.
//!
//! At every object level the simplifier drops noise keys, flattens the
//! nested `fields` bag to the top level under renamed keys, collapses
//! identity objects to display strings, normalizes rich-text fields, packs
//! tag lists and abbreviates the work-item type, then recurses into what
//! remains. The transformation is deterministic and, on records free of
//! reserved key collisions, idempotent.

use vstd::prelude::*;
use vstd::string::StrSliceExecFns;
use vstd::string::StringExecFns;
use crate::json::{JsonNode, JsonValue, spec_obj_get};
use crate::richtext::{html_text_of, html_to_text, normalize_plain_text, spec_normalize_text};
use crate::text::{chars_of, push_char, str_eq, string_of_chars};

verus! {

broadcast use vstd::string::group_string_axioms;

/// Whether the key is dropped at every object level as noise.
pub open spec fn spec_is_noise_key(k: Seq<char>) -> bool {
    k == "url"@ || k == "_links"@ || k == "descriptor"@ || k == "imageUrl"@ || k == "avatar"@
}

/// Whether the key is dropped at every object level as noise.
pub fn is_noise_key(k: &str) -> (r: bool)
    ensures
        r == spec_is_noise_key(k@),
{
    str_eq(k, "url") || str_eq(k, "_links") || str_eq(k, "descriptor") || str_eq(k, "imageUrl")
        || str_eq(k, "avatar")
}

/// Whether the sequence starts with the prefix.
pub open spec fn spec_starts_with(s: Seq<char>, p: Seq<char>) -> bool {
    s.len() >= p.len() && s.take(p.len() as int) == p
}

/// Whether the pattern occurs at the given position.
pub open spec fn spec_matches_at(s: Seq<char>, p: Seq<char>, i: int) -> bool {
    0 <= i && i + p.len() <= s.len() && s.subrange(i, i + p.len()) == p
}

/// Whether the pattern occurs anywhere in the sequence.
pub open spec fn spec_contains_seq(s: Seq<char>, p: Seq<char>) -> bool {
    exists|i: int| spec_matches_at(s, p, i)
}

/// Whether the string starts with the prefix.
pub fn starts_with(s: &str, p: &str) -> (r: bool)
    ensures
        r == spec_starts_with(s@, p@),
{
    let n = s.unicode_len();
    let m = p.unicode_len();
    if n < m {
        return false;
    }
    let mut i: usize = 0;
    while i < m
        invariant
            i <= m,
            m <= n,
            n == s@.len(),
            m == p@.len(),
            forall|j: int| 0 <= j < i ==> s@[j] == p@[j],
        decreases m - i,
    {
        if s.get_char(i) != p.get_char(i) {
            proof {
                assert(s@.take(p@.len() as int)[i as int] != p@[i as int]);
            }
            return false;
        }
        i = i + 1;
    }
    proof {
        assert(s@.take(p@.len() as int) =~= p@);
    }
    true
}

/// Whether the pattern occurs anywhere in the string.
pub fn contains_sub(s: &str, p: &str) -> (r: bool)
    ensures
        r == spec_contains_seq(s@, p@),
{
    let n = s.unicode_len();
    let m = p.unicode_len();
    if m > n {
        proof {
            assert(forall|i: int| !spec_matches_at(s@, p@, i));
        }
        return false;
    }
    if m == 0 {
        proof {
            assert(s@.subrange(0, 0) =~= p@);
            assert(spec_matches_at(s@, p@, 0));
        }
        return true;
    }
    let mut i: usize = 0;
    while i <= n - m
        invariant
            0 <= i <= n - m + 1,
            0 < m <= n,
            n == s@.len(),
            m == p@.len(),
            forall|k: int| 0 <= k < i ==> !spec_matches_at(s@, p@, k),
        decreases n - m - i + 1,
    {
        let mut j: usize = 0;
        let mut ok: bool = true;
        while j < m
            invariant
                j <= m,
                i + m <= n,
                n == s@.len(),
                m == p@.len(),
                ok ==> forall|t: int| 0 <= t < j ==> s@[i + t] == p@[t],
                !ok ==> !spec_matches_at(s@, p@, i as int),
            decreases m - j,
        {
            if s.get_char(i + j) != p.get_char(j) {
                proof {
                    if spec_matches_at(s@, p@, i as int) {
                        assert(s@.subrange(i as int, i + p@.len())[j as int] == p@[j as int]);
                    }
                }
                ok = false;
                j = m;
            } else {
                j = j + 1;
            }
        }
        if ok {
            proof {
                assert(s@.subrange(i as int, i + p@.len()) =~= p@);
                assert(spec_matches_at(s@, p@, i as int));
            }
            return true;
        }
        i = i + 1;
    }
    proof {
        assert forall|k: int| !spec_matches_at(s@, p@, k) by {
            if 0 <= k && k + p@.len() <= s@.len() {
                assert(k < i);
            }
        }
    }
    false
}

/// The characters of the string from the given position on.
fn skip_prefix(s: &str, m: usize) -> (r: String)
    requires
        m <= s@.len(),
    ensures
        r@ == s@.skip(m as int),
{
    let chars = chars_of(s);
    let mut out: Vec<char> = Vec::new();
    let mut i: usize = m;
    while i < chars.len()
        invariant
            m <= i <= chars@.len(),
            chars@ == s@,
            out@ =~= s@.subrange(m as int, i as int),
        decreases chars@.len() - i,
    {
        out.push(chars[i]);
        i = i + 1;
        proof {
            assert(out@ =~= s@.subrange(m as int, i as int));
        }
    }
    proof {
        assert(s@.subrange(m as int, s@.len() as int) =~= s@.skip(m as int));
    }
    string_of_chars(&out)
}

/// The field key after namespace stripping: a well-known prefix is removed,
/// the two per-board dynamic patterns map to their fixed names, and any
/// other key stays as it is.
pub open spec fn spec_rename_key(k: Seq<char>) -> Seq<char> {
    if spec_starts_with(k, "System."@) {
        k.skip("System."@.len() as int)
    } else if spec_starts_with(k, "Microsoft.VSTS.Common."@) {
        k.skip("Microsoft.VSTS.Common."@.len() as int)
    } else if spec_starts_with(k, "Microsoft.VSTS.Scheduling."@) {
        k.skip("Microsoft.VSTS.Scheduling."@.len() as int)
    } else if spec_starts_with(k, "Microsoft.VSTS.CMMI."@) {
        k.skip("Microsoft.VSTS.CMMI."@.len() as int)
    } else if spec_contains_seq(k, "_Kanban.Column"@) {
        "Column"@
    } else if spec_contains_seq(k, "_Kanban.Lane"@) {
        "Lane"@
    } else {
        k
    }
}

/// Strips the namespace from a raw field key.
pub fn rename_key(k: &str) -> (r: String)
    ensures
        r@ == spec_rename_key(k@),
{
    if starts_with(k, "System.") {
        proof {
            reveal_strlit("System.");
        }
        skip_prefix(k, 7)
    } else if starts_with(k, "Microsoft.VSTS.Common.") {
        proof {
            reveal_strlit("Microsoft.VSTS.Common.");
        }
        skip_prefix(k, 22)
    } else if starts_with(k, "Microsoft.VSTS.Scheduling.") {
        proof {
            reveal_strlit("Microsoft.VSTS.Scheduling.");
        }
        skip_prefix(k, 26)
    } else if starts_with(k, "Microsoft.VSTS.CMMI.") {
        proof {
            reveal_strlit("Microsoft.VSTS.CMMI.");
        }
        skip_prefix(k, 20)
    } else if contains_sub(k, "_Kanban.Column") {
        String::from_str("Column")
    } else if contains_sub(k, "_Kanban.Lane") {
        String::from_str("Lane")
    } else {
        String::from_str(k)
    }
}

/// Whether the stripped key belongs to the fixed deny-list of operational
/// and audit fields that are dropped entirely.
pub open spec fn spec_is_denied_key(k: Seq<char>) -> bool {
    k == "ActivatedBy"@ || k == "ActivatedDate"@ || k == "BoardColumnDone"@ || k == "ClosedBy"@ || k
        == "ClosedDate"@ || k == "Column.Done"@ || k == "CommentCount"@ || k == "Reason"@ || k
        == "ResolvedBy"@ || k == "ResolvedDate"@ || k == "State"@ || k == "StateChangeDate"@
}

/// Whether the stripped key belongs to the fixed deny-list.
pub fn is_denied_key(k: &str) -> (r: bool)
    ensures
        r == spec_is_denied_key(k@),
{
    str_eq(k, "ActivatedBy") || str_eq(k, "ActivatedDate") || str_eq(k, "BoardColumnDone") || str_eq(
        k,
        "ClosedBy",
    ) || str_eq(k, "ClosedDate") || str_eq(k, "Column.Done") || str_eq(k, "CommentCount") || str_eq(
        k,
        "Reason",
    ) || str_eq(k, "ResolvedBy") || str_eq(k, "ResolvedDate") || str_eq(k, "State") || str_eq(
        k,
        "StateChangeDate",
    )
}

/// The friendlier short name of a stripped key.
pub open spec fn spec_final_key(k: Seq<char>) -> Seq<char> {
    if k == "BoardColumn"@ {
        "Column"@
    } else if k == "BoardLane"@ {
        "Lane"@
    } else if k == "AcceptanceCriteria"@ {
        "Acceptance"@
    } else if k == "TeamProject"@ {
        "Project"@
    } else if k == "WorkItemType"@ {
        "Type"@
    } else if k == "IterationPath"@ {
        "Iteration"@
    } else {
        k
    }
}

/// Maps a stripped key to its friendlier short name.
pub fn final_key(k: String) -> (r: String)
    ensures
        r@ == spec_final_key(k@),
{
    if str_eq(k.as_str(), "BoardColumn") {
        String::from_str("Column")
    } else if str_eq(k.as_str(), "BoardLane") {
        String::from_str("Lane")
    } else if str_eq(k.as_str(), "AcceptanceCriteria") {
        String::from_str("Acceptance")
    } else if str_eq(k.as_str(), "TeamProject") {
        String::from_str("Project")
    } else if str_eq(k.as_str(), "WorkItemType") {
        String::from_str("Type")
    } else if str_eq(k.as_str(), "IterationPath") {
        String::from_str("Iteration")
    } else {
        k
    }
}

/// An identity-shaped object (one exposing a string `displayName`, and
/// optionally a non-empty string `uniqueName`) collapsed to a display
/// string; anything else is left alone.
pub open spec fn spec_identity_collapse(v: JsonNode) -> JsonNode {
    match v {
        JsonNode::Obj(pairs) => match spec_obj_get(pairs, "displayName"@) {
            Option::Some(JsonNode::Str(name)) => match spec_obj_get(pairs, "uniqueName"@) {
                Option::Some(JsonNode::Str(u)) => if u.len() > 0 {
                    JsonNode::Str(name + " <"@ + u + ">"@)
                } else {
                    JsonNode::Str(name)
                },
                _ => JsonNode::Str(name),
            },
            _ => v,
        },
        _ => v,
    }
}

/// Collapses an identity-shaped object to its display string.
pub fn identity_collapse(v: JsonValue) -> (r: JsonValue)
    ensures
        r@ == spec_identity_collapse(v@),
{
    match v {
        JsonValue::Obj(pairs) => {
            let display: Option<String> = match crate::json::obj_get(&pairs, "displayName") {
                Option::Some(JsonValue::Str(name)) => {
                    match crate::json::obj_get(&pairs, "uniqueName") {
                        Option::Some(JsonValue::Str(u)) => {
                            if u.unicode_len() > 0 {
                                let mut d = name.clone();
                                d.append(" <");
                                d.append(u.as_str());
                                d.append(">");
                                Option::Some(d)
                            } else {
                                Option::Some(name.clone())
                            }
                        },
                        _ => Option::Some(name.clone()),
                    }
                },
                _ => Option::None,
            };
            match display {
                Option::Some(d) => JsonValue::Str(d),
                Option::None => JsonValue::Obj(pairs),
            }
        },
        _ => v,
    }
}

/// A tag list with the single space after each semicolon removed, scanning
/// left to right.
pub open spec fn spec_pack_tags(s: Seq<char>) -> Seq<char>
    decreases s.len(),
{
    if s.len() >= 2 && s[0] == ';' && s[1] == ' ' {
        seq![';'] + spec_pack_tags(s.skip(2))
    } else if s.len() == 0 {
        Seq::empty()
    } else {
        seq![s[0]] + spec_pack_tags(s.drop_first())
    }
}

/// Removes the space that follows each semicolon separator.
pub fn pack_tags(s: &str) -> (r: String)
    ensures
        r@ == spec_pack_tags(s@),
{
    let v = chars_of(s);
    let mut out: Vec<char> = Vec::new();
    let mut i: usize = 0;
    proof {
        assert(v@.skip(0) =~= v@);
    }
    while i < v.len()
        invariant
            i <= v@.len(),
            v@ == s@,
            spec_pack_tags(s@) == out@ + spec_pack_tags(s@.skip(i as int)),
        decreases v@.len() - i,
    {
        let ghost i0 = i as int;
        let x = v[i];
        out.push(x);
        proof {
            assert(s@.skip(i0)[0] == s@[i0]);
        }
        if x == ';' && i + 1 < v.len() && v[i + 1] == ' ' {
            i = i + 2;
            proof {
                assert(s@.skip(i0)[1] == s@[i0 + 1]);
                assert(s@.skip(i0).skip(2) =~= s@.skip(i as int));
                assert(spec_pack_tags(s@.skip(i0)) == seq![';'] + spec_pack_tags(
                    s@.skip(i as int),
                ));
                assert(out@ + spec_pack_tags(s@.skip(i as int)) =~= out@.drop_last() + (seq![';']
                    + spec_pack_tags(s@.skip(i as int))));
            }
        } else {
            i = i + 1;
            proof {
                if s@.skip(i0).len() >= 2 {
                    assert(s@.skip(i0)[1] == s@[i0 + 1]);
                }
                assert(s@.skip(i0).drop_first() =~= s@.skip(i as int));
                assert(spec_pack_tags(s@.skip(i0)) == seq![x] + spec_pack_tags(s@.skip(i as int)));
                assert(out@ + spec_pack_tags(s@.skip(i as int)) =~= out@.drop_last() + (seq![x]
                    + spec_pack_tags(s@.skip(i as int))));
            }
        }
    }
    proof {
        assert(s@.skip(s@.len() as int) =~= Seq::<char>::empty());
        assert(out@ + Seq::<char>::empty() =~= out@);
    }
    string_of_chars(&out)
}

/// Whether the short key holds rich text that is rendered and normalized.
pub open spec fn spec_is_richtext_key(k: Seq<char>) -> bool {
    k == "Acceptance"@ || k == "Description"@ || k == "Justification"@
}

/// A string value rendered from HTML and normalized; kept as it was when
/// the renderer fails; non-strings are left alone.
pub open spec fn spec_richtext_value(v: JsonNode) -> JsonNode {
    match v {
        JsonNode::Str(s) => match html_text_of(s) {
            Option::Some(t) => JsonNode::Str(spec_normalize_text(t)),
            Option::None => JsonNode::Str(s),
        },
        _ => v,
    }
}

/// A tags value with semicolon separators packed; non-strings left alone.
pub open spec fn spec_tags_value(v: JsonNode) -> JsonNode {
    match v {
        JsonNode::Str(s) => JsonNode::Str(spec_pack_tags(s)),
        _ => v,
    }
}

/// A type value abbreviated to its first character; empty strings and
/// non-strings left alone.
pub open spec fn spec_type_value(v: JsonNode) -> JsonNode {
    match v {
        JsonNode::Str(s) => if s.len() > 0 {
            JsonNode::Str(seq![s[0]])
        } else {
            v
        },
        _ => v,
    }
}

/// The whole per-field value transformation, keyed on the final short name:
/// identity collapse first, then the rich-text, tags or type rewriting that
/// the key calls for.
pub open spec fn spec_field_transform(key: Seq<char>, v: JsonNode) -> JsonNode {
    let w = spec_identity_collapse(v);
    if spec_is_richtext_key(key) {
        spec_richtext_value(w)
    } else if key == "Tags"@ {
        spec_tags_value(w)
    } else if key == "Type"@ {
        spec_type_value(w)
    } else {
        w
    }
}

/// Applies the per-field value transformation for the final short key.
pub fn field_transform(key: &str, v: JsonValue) -> (r: JsonValue)
    ensures
        r@ == spec_field_transform(key@, v@),
{
    let w = identity_collapse(v);
    if str_eq(key, "Acceptance") || str_eq(key, "Description") || str_eq(key, "Justification") {
        match w {
            JsonValue::Str(s) => {
                match html_to_text(s.as_str()) {
                    Option::Some(t) => JsonValue::Str(normalize_plain_text(t.as_str())),
                    Option::None => JsonValue::Str(s),
                }
            },
            _ => w,
        }
    } else if str_eq(key, "Tags") {
        match w {
            JsonValue::Str(s) => JsonValue::Str(pack_tags(s.as_str())),
            _ => w,
        }
    } else if str_eq(key, "Type") {
        match w {
            JsonValue::Str(s) => {
                if s.unicode_len() > 0 {
                    let c = s.as_str().get_char(0);
                    let mut one = String::new();
                    push_char(&mut one, c);
                    proof {
                        assert(one@ =~= seq![s@[0]]);
                    }
                    JsonValue::Str(one)
                } else {
                    JsonValue::Str(s)
                }
            },
            _ => w,
        }
    } else {
        w
    }
}

/// The pairs with noise keys removed.
pub open spec fn spec_remove_noise(pairs: Seq<(Seq<char>, JsonNode)>) -> Seq<(Seq<char>, JsonNode)>
    decreases pairs.len(),
{
    if pairs.len() == 0 {
        Seq::empty()
    } else if spec_is_noise_key(pairs[0].0) {
        spec_remove_noise(pairs.drop_first())
    } else {
        seq![pairs[0]] + spec_remove_noise(pairs.drop_first())
    }
}

/// The pairs with every occurrence of the key removed.
pub open spec fn spec_remove_key(pairs: Seq<(Seq<char>, JsonNode)>, key: Seq<char>) -> Seq<
    (Seq<char>, JsonNode),
>
    decreases pairs.len(),
{
    if pairs.len() == 0 {
        Seq::empty()
    } else if pairs[0].0 == key {
        spec_remove_key(pairs.drop_first(), key)
    } else {
        seq![pairs[0]] + spec_remove_key(pairs.drop_first(), key)
    }
}

/// The flattened entries whose key does not already exist in the base
/// object: on a collision the pre-existing top-level value wins.
pub open spec fn spec_keep_new(
    flat: Seq<(Seq<char>, JsonNode)>,
    base: Seq<(Seq<char>, JsonNode)>,
) -> Seq<(Seq<char>, JsonNode)>
    decreases flat.len(),
{
    if flat.len() == 0 {
        Seq::empty()
    } else if crate::json::spec_obj_has_key(base, flat[0].0) {
        spec_keep_new(flat.drop_first(), base)
    } else {
        seq![flat[0]] + spec_keep_new(flat.drop_first(), base)
    }
}

/// Folds the (already simplified) fields entries into flattened form, in
/// order: keys are stripped and renamed, denied keys are dropped, values are
/// transformed, and among entries with the same final key the first wins.
pub open spec fn spec_flatten_acc(
    fpairs: Seq<(Seq<char>, JsonNode)>,
    acc: Seq<(Seq<char>, JsonNode)>,
) -> Seq<(Seq<char>, JsonNode)>
    decreases fpairs.len(),
{
    if fpairs.len() == 0 {
        acc
    } else {
        let k1 = spec_rename_key(fpairs[0].0);
        if spec_is_denied_key(k1) {
            spec_flatten_acc(fpairs.drop_first(), acc)
        } else {
            let fk = spec_final_key(k1);
            if crate::json::spec_obj_has_key(acc, fk) {
                spec_flatten_acc(fpairs.drop_first(), acc)
            } else {
                spec_flatten_acc(
                    fpairs.drop_first(),
                    acc.push((fk, spec_field_transform(fk, fpairs[0].1))),
                )
            }
        }
    }
}

/// The simplified record tree.
///
/// At an object: noise keys and the `fields` bag go, every remaining value
/// is simplified in place, and the flattened fields are appended, keeping a
/// pre-existing top-level value on a key collision. Arrays simplify
/// element-wise; scalars pass through.
pub open spec fn spec_simplify(n: JsonNode) -> JsonNode
    decreases n, 2int,
{
    match n {
        JsonNode::Arr(items) => JsonNode::Arr(spec_simp_items(items)),
        JsonNode::Obj(pairs) => {
            let base = spec_remove_key(spec_remove_noise(spec_simp_vals(pairs)), "fields"@);
            let flat = spec_flatten_acc(spec_simp_fields(pairs), Seq::empty());
            JsonNode::Obj(base + spec_keep_new(flat, base))
        },
        _ => n,
    }
}

/// The array elements, each simplified.
pub open spec fn spec_simp_items(items: Seq<JsonNode>) -> Seq<JsonNode>
    decreases items, 0int,
{
    if items.len() == 0 {
        Seq::empty()
    } else {
        seq![spec_simplify(items[0])] + spec_simp_items(items.drop_first())
    }
}

/// The object pairs with every value simplified and keys kept.
pub open spec fn spec_simp_vals(pairs: Seq<(Seq<char>, JsonNode)>) -> Seq<(Seq<char>, JsonNode)>
    decreases pairs, 0int,
{
    if pairs.len() == 0 {
        Seq::empty()
    } else {
        seq![(pairs[0].0, spec_simplify(pairs[0].1))] + spec_simp_vals(pairs.drop_first())
    }
}

/// The simplified inner pairs of the first `fields` object, or nothing when
/// no such object exists.
pub open spec fn spec_simp_fields(pairs: Seq<(Seq<char>, JsonNode)>) -> Seq<(Seq<char>, JsonNode)>
    decreases pairs, 1int,
{
    if pairs.len() == 0 {
        Seq::empty()
    } else if pairs[0].0 == "fields"@ {
        match pairs[0].1 {
            JsonNode::Obj(fp) => spec_simp_vals(fp),
            _ => Seq::empty(),
        }
    } else {
        spec_simp_fields(pairs.drop_first())
    }
}

/// Simplified items index element-wise.
pub proof fn lemma_simp_items_index(items: Seq<JsonNode>)
    ensures
        spec_simp_items(items).len() == items.len(),
        forall|i: int| 0 <= i < items.len() ==> spec_simp_items(items)[i] == spec_simplify(items[i]),
    decreases items.len(),
{
    if items.len() > 0 {
        lemma_simp_items_index(items.drop_first());
        assert forall|i: int| 0 <= i < items.len() implies spec_simp_items(items)[i]
            == spec_simplify(items[i]) by {
            if i > 0 {
                assert(spec_simp_items(items)[i] == spec_simp_items(items.drop_first())[i - 1]);
            }
        }
    }
}

/// Simplified pair values index element-wise.
pub proof fn lemma_simp_vals_index(pairs: Seq<(Seq<char>, JsonNode)>)
    ensures
        spec_simp_vals(pairs).len() == pairs.len(),
        forall|i: int|
            0 <= i < pairs.len() ==> spec_simp_vals(pairs)[i] == (
            pairs[i].0,
            spec_simplify(pairs[i].1),
            ),
    decreases pairs.len(),
{
    if pairs.len() > 0 {
        lemma_simp_vals_index(pairs.drop_first());
        assert forall|i: int| 0 <= i < pairs.len() implies spec_simp_vals(pairs)[i] == (
        pairs[i].0,
        spec_simplify(pairs[i].1),
        ) by {
            if i > 0 {
                assert(spec_simp_vals(pairs)[i] == spec_simp_vals(pairs.drop_first())[i - 1]);
            }
        }
    }
}

/// One more pair extends the simplified values by its simplified form.
proof fn lemma_simp_vals_push(pairs: Seq<(Seq<char>, JsonNode)>, p: (Seq<char>, JsonNode))
    ensures
        spec_simp_vals(pairs.push(p)) == spec_simp_vals(pairs).push((p.0, spec_simplify(p.1))),
{
    lemma_simp_vals_index(pairs.push(p));
    lemma_simp_vals_index(pairs);
    assert(spec_simp_vals(pairs.push(p)) =~= spec_simp_vals(pairs).push(
        (p.0, spec_simplify(p.1)),
    ));
}

/// Noise removal distributes over appending one pair.
proof fn lemma_remove_noise_push(pairs: Seq<(Seq<char>, JsonNode)>, p: (Seq<char>, JsonNode))
    ensures
        spec_remove_noise(pairs.push(p)) == spec_remove_noise(pairs) + (if spec_is_noise_key(p.0) {
            Seq::<(Seq<char>, JsonNode)>::empty()
        } else {
            seq![p]
        }),
    decreases pairs.len(),
{
    let tail: Seq<(Seq<char>, JsonNode)> = if spec_is_noise_key(p.0) {
        Seq::empty()
    } else {
        seq![p]
    };
    if pairs.len() == 0 {
        assert(pairs.push(p).drop_first() =~= Seq::<(Seq<char>, JsonNode)>::empty());
        assert(pairs.push(p)[0] == p);
        assert(spec_remove_noise(Seq::<(Seq<char>, JsonNode)>::empty()) == Seq::<
            (Seq<char>, JsonNode),
        >::empty());
        assert(spec_remove_noise(pairs.push(p)) =~= tail);
        assert(spec_remove_noise(pairs) + tail =~= tail);
    } else {
        assert(pairs.push(p).drop_first() =~= pairs.drop_first().push(p));
        lemma_remove_noise_push(pairs.drop_first(), p);
        if spec_is_noise_key(pairs[0].0) {
        } else {
            assert(seq![pairs[0]] + (spec_remove_noise(pairs.drop_first()) + tail) =~= (seq![
                pairs[0],
            ] + spec_remove_noise(pairs.drop_first())) + tail);
        }
    }
}

/// Key removal distributes over appending one pair.
proof fn lemma_remove_key_push(
    pairs: Seq<(Seq<char>, JsonNode)>,
    key: Seq<char>,
    p: (Seq<char>, JsonNode),
)
    ensures
        spec_remove_key(pairs.push(p), key) == spec_remove_key(pairs, key) + (if p.0 == key {
            Seq::<(Seq<char>, JsonNode)>::empty()
        } else {
            seq![p]
        }),
    decreases pairs.len(),
{
    let tail: Seq<(Seq<char>, JsonNode)> = if p.0 == key {
        Seq::empty()
    } else {
        seq![p]
    };
    if pairs.len() == 0 {
        assert(pairs.push(p).drop_first() =~= Seq::<(Seq<char>, JsonNode)>::empty());
        assert(pairs.push(p)[0] == p);
        assert(spec_remove_key(Seq::<(Seq<char>, JsonNode)>::empty(), key) == Seq::<
            (Seq<char>, JsonNode),
        >::empty());
        assert(spec_remove_key(pairs.push(p), key) =~= tail);
        assert(spec_remove_key(pairs, key) + tail =~= tail);
    } else {
        assert(pairs.push(p).drop_first() =~= pairs.drop_first().push(p));
        lemma_remove_key_push(pairs.drop_first(), key, p);
        if pairs[0].0 == key {
        } else {
            assert(seq![pairs[0]] + (spec_remove_key(pairs.drop_first(), key) + tail) =~= (seq![
                pairs[0],
            ] + spec_remove_key(pairs.drop_first(), key)) + tail);
        }
    }
}

/// The object view distributes over appending one pair.
proof fn lemma_obj_view_push(pairs: Seq<(String, JsonValue)>, p: (String, JsonValue))
    ensures
        JsonValue::obj_view(pairs.push(p)) == JsonValue::obj_view(pairs).push(
            (p.0@, p.1.view_rec()),
        ),
{
    crate::json::lemma_obj_view_index(pairs.push(p));
    crate::json::lemma_obj_view_index(pairs);
    assert(JsonValue::obj_view(pairs.push(p)) =~= JsonValue::obj_view(pairs).push(
        (p.0@, p.1.view_rec()),
    ));
}

/// The first `fields` entry decides the simplified fields of the whole
/// object.
proof fn lemma_simp_fields_first(pairs: Seq<(Seq<char>, JsonNode)>, i: int)
    requires
        0 <= i < pairs.len(),
        pairs[i].0 == "fields"@,
        forall|j: int| 0 <= j < i ==> pairs[j].0 != "fields"@,
    ensures
        spec_simp_fields(pairs) == match pairs[i].1 {
            JsonNode::Obj(fp) => spec_simp_vals(fp),
            _ => Seq::<(Seq<char>, JsonNode)>::empty(),
        },
    decreases i,
{
    if i > 0 {
        lemma_simp_fields_first(pairs.drop_first(), i - 1);
    }
}

/// Without a `fields` entry nothing is flattened.
proof fn lemma_simp_fields_none(pairs: Seq<(Seq<char>, JsonNode)>)
    requires
        forall|j: int| 0 <= j < pairs.len() ==> pairs[j].0 != "fields"@,
    ensures
        spec_simp_fields(pairs) == Seq::<(Seq<char>, JsonNode)>::empty(),
    decreases pairs.len(),
{
    if pairs.len() > 0 {
        lemma_simp_fields_none(pairs.drop_first());
    }
}

/// Flattens the raw pairs of a `fields` object: values are simplified and
/// transformed, keys stripped and renamed, denied entries dropped, and the
/// first entry wins among equal final keys.
fn flatten_fields(fp: Vec<(String, JsonValue)>) -> (flat: Vec<(String, JsonValue)>)
    ensures
        JsonValue::obj_view(flat@) == spec_flatten_acc(
            spec_simp_vals(JsonValue::obj_view(fp@)),
            Seq::<(Seq<char>, JsonNode)>::empty(),
        ),
    decreases fp,
{
    let ghost orig = fp@;
    let ghost fsrc = spec_simp_vals(JsonValue::obj_view(orig));
    let mut rest = fp;
    let total: usize = rest.len();
    let mut flat: Vec<(String, JsonValue)> = Vec::new();
    let mut k: usize = 0;
    proof {
        crate::json::lemma_obj_view_index(orig);
        lemma_simp_vals_index(JsonValue::obj_view(orig));
        assert(fsrc.skip(0) =~= fsrc);
        assert(JsonValue::obj_view(Seq::<(String, JsonValue)>::empty()) =~= Seq::<
            (Seq<char>, JsonNode),
        >::empty());
        assert(decreases_to!(fp => orig));
    }
    while rest.len() > 0
        invariant
            k <= orig.len(),
            orig.len() == total,
            rest@ == orig.skip(k as int),
            decreases_to!(fp => orig),
            fsrc == spec_simp_vals(JsonValue::obj_view(orig)),
            fsrc.len() == orig.len(),
            forall|j: int|
                0 <= j < orig.len() ==> fsrc[j] == (
                orig[j].0@,
                spec_simplify(orig[j].1.view_rec()),
                ),
            spec_flatten_acc(fsrc, Seq::<(Seq<char>, JsonNode)>::empty()) == spec_flatten_acc(
                fsrc.skip(k as int),
                JsonValue::obj_view(flat@),
            ),
        decreases rest@.len(),
    {
        let (key, val) = rest.remove(0);
        proof {
            assert(orig.skip(k as int)[0] == orig[k as int]);
            assert(orig.skip(k as int).drop_first() =~= orig.skip(k + 1));
            assert(fsrc.skip(k as int)[0] == fsrc[k as int]);
            assert(fsrc.skip(k as int).drop_first() =~= fsrc.skip(k + 1));
            assert(decreases_to!(orig => orig[k as int]));
            assert(decreases_to!(orig[k as int] => orig[k as int].1));
            assert(decreases_to!(fp => orig[k as int].1));
        }
        let k1 = rename_key(key.as_str());
        if is_denied_key(k1.as_str()) {
            proof {
                assert(spec_flatten_acc(fsrc.skip(k as int), JsonValue::obj_view(flat@))
                    == spec_flatten_acc(fsrc.skip(k + 1), JsonValue::obj_view(flat@)));
            }
        } else {
            let fk = final_key(k1);
            let already = match crate::json::obj_get(&flat, fk.as_str()) {
                Option::Some(_) => true,
                Option::None => false,
            };
            proof {
                crate::json::lemma_obj_get_has_key(JsonValue::obj_view(flat@), fk@);
            }
            if already {
                proof {
                    assert(spec_flatten_acc(fsrc.skip(k as int), JsonValue::obj_view(flat@))
                        == spec_flatten_acc(fsrc.skip(k + 1), JsonValue::obj_view(flat@)));
                }
            } else {
                let w = field_transform(fk.as_str(), simplify_work_item_json(val));
                let ghost flat0 = flat@;
                flat.push((fk, w));
                proof {
                    lemma_obj_view_push(flat0, (fk, w));
                    assert(spec_flatten_acc(fsrc.skip(k as int), JsonValue::obj_view(flat0))
                        == spec_flatten_acc(fsrc.skip(k + 1), JsonValue::obj_view(flat@)));
                }
            }
        }
        k = k + 1;
    }
    proof {
        assert(fsrc.skip(fsrc.len() as int) =~= Seq::<(Seq<char>, JsonNode)>::empty());
    }
    flat
}

/// Simplifies a raw work-item JSON tree.
pub fn simplify_work_item_json(v: JsonValue) -> (r: JsonValue)
    ensures
        r@ == spec_simplify(v@),
    decreases v,
{
    match v {
        JsonValue::Null => JsonValue::Null,
        JsonValue::Bool(b) => JsonValue::Bool(b),
        JsonValue::Num(s) => JsonValue::Num(s),
        JsonValue::Str(s) => JsonValue::Str(s),
        JsonValue::Arr(items) => {
            let ghost orig = items@;
            let mut rest = items;
            let total: usize = rest.len();
            let mut out: Vec<JsonValue> = Vec::new();
            let mut k: usize = 0;
            while rest.len() > 0
                invariant
                    k <= orig.len(),
                    orig.len() == total,
                    rest@ == orig.skip(k as int),
                    out@.len() == k,
                    forall|j: int|
                        0 <= j < k ==> out@[j].view_rec() == spec_simplify(orig[j].view_rec()),
                    decreases_to!(v => orig),
                decreases rest@.len(),
            {
                let x = rest.remove(0);
                proof {
                    assert(orig.skip(k as int)[0] == orig[k as int]);
                    assert(orig.skip(k as int).drop_first() =~= orig.skip(k + 1));
                    assert(decreases_to!(orig => orig[k as int]));
                }
                out.push(simplify_work_item_json(x));
                k = k + 1;
            }
            proof {
                crate::json::lemma_arr_view_index(out@);
                crate::json::lemma_arr_view_index(orig);
                lemma_simp_items_index(JsonValue::arr_view(orig));
                assert(JsonValue::arr_view(out@) =~= spec_simp_items(JsonValue::arr_view(orig)));
            }
            JsonValue::Arr(out)
        },
        JsonValue::Obj(pairs) => {
            let ghost orig = pairs@;
            let ghost pv = JsonValue::obj_view(orig);
            proof {
                crate::json::lemma_obj_view_index(orig);
            }
            // Find the first `fields` entry, whose object (if it is one)
            // will be flattened.
            let mut fidx: usize = pairs.len();
            let mut scan: usize = 0;
            while scan < pairs.len()
                invariant
                    scan <= orig.len(),
                    fidx <= orig.len(),
                    pairs@ == orig,
                    pv == JsonValue::obj_view(orig),
                    pv.len() == orig.len(),
                    forall|j: int|
                        0 <= j < orig.len() ==> pv[j] == (orig[j].0@, orig[j].1.view_rec()),
                    fidx == orig.len() ==> forall|j: int| 0 <= j < scan ==> pv[j].0 != "fields"@,
                    fidx < orig.len() ==> fidx < scan && pv[fidx as int].0 == "fields"@ && forall|
                        j: int,
                    | 0 <= j < fidx ==> pv[j].0 != "fields"@,
                decreases orig.len() - scan,
            {
                if fidx == pairs.len() && str_eq(pairs[scan].0.as_str(), "fields") {
                    fidx = scan;
                    scan = pairs.len();
                } else {
                    scan = scan + 1;
                }
            }
            let ghost fsrc = spec_simp_fields(pv);
            proof {
                if fidx < orig.len() {
                    lemma_simp_fields_first(pv, fidx as int);
                } else {
                    lemma_simp_fields_none(pv);
                }
            }
            let mut rest = pairs;
            let total: usize = rest.len();
            let mut base: Vec<(String, JsonValue)> = Vec::new();
            let mut flat: Vec<(String, JsonValue)> = Vec::new();
            let mut k: usize = 0;
            proof {
                assert(pv.take(0) =~= Seq::<(Seq<char>, JsonNode)>::empty());
                assert(JsonValue::obj_view(base@) =~= spec_remove_key(
                    spec_remove_noise(spec_simp_vals(pv.take(0))),
                    "fields"@,
                ));
                assert(JsonValue::obj_view(flat@) =~= Seq::<(Seq<char>, JsonNode)>::empty());
            }
            while rest.len() > 0
                invariant
                    k <= orig.len(),
                    orig.len() == total,
                    rest@ == orig.skip(k as int),
                    pv == JsonValue::obj_view(orig),
                    pv.len() == orig.len(),
                    forall|j: int|
                        0 <= j < orig.len() ==> pv[j] == (orig[j].0@, orig[j].1.view_rec()),
                    fidx <= orig.len(),
                    fidx == orig.len() ==> forall|j: int|
                        0 <= j < orig.len() ==> pv[j].0 != "fields"@,
                    fidx < orig.len() ==> pv[fidx as int].0 == "fields"@ && forall|j: int|
                        0 <= j < fidx ==> pv[j].0 != "fields"@,
                    fsrc == spec_simp_fields(pv),
                    JsonValue::obj_view(base@) == spec_remove_key(
                        spec_remove_noise(spec_simp_vals(pv.take(k as int))),
                        "fields"@,
                    ),
                    JsonValue::obj_view(flat@) == if fidx < k {
                        spec_flatten_acc(fsrc, Seq::<(Seq<char>, JsonNode)>::empty())
                    } else {
                        Seq::<(Seq<char>, JsonNode)>::empty()
                    },
                    decreases_to!(v => orig),
                decreases rest@.len(),
            {
                let (key, val) = rest.remove(0);
                proof {
                    assert(orig.skip(k as int)[0] == orig[k as int]);
                    assert(orig.skip(k as int).drop_first() =~= orig.skip(k + 1));
                    assert(pv.take(k + 1) =~= pv.take(k as int).push(pv[k as int]));
                    lemma_simp_vals_push(pv.take(k as int), pv[k as int]);
                    lemma_remove_noise_push(
                        spec_simp_vals(pv.take(k as int)),
                        (pv[k as int].0, spec_simplify(pv[k as int].1)),
                    );
                    assert(decreases_to!(orig => orig[k as int]));
                    assert(decreases_to!(orig[k as int] => orig[k as int].1));
                }
                let is_fields = str_eq(key.as_str(), "fields");
                if is_fields {
                    if fidx == k {
                        proof {
                            lemma_simp_fields_first(pv, fidx as int);
                        }
                        match val {
                            JsonValue::Obj(fp) => {
                                proof {
                                    assert(val == orig[k as int].1);
                                    assert(fp == val->Obj_0);
                                    assert(decreases_to!(val => val->Obj_0));
                                    assert(decreases_to!(v => fp));
                                    assert(pv[k as int].1 == JsonNode::Obj(
                                        JsonValue::obj_view(fp@),
                                    ));
                                    assert(fsrc == spec_simp_vals(JsonValue::obj_view(fp@)));
                                }
                                flat = flatten_fields(fp);
                            },
                            _ => {
                                proof {
                                    assert(fsrc =~= Seq::<(Seq<char>, JsonNode)>::empty());
                                    assert(spec_flatten_acc(
                                        fsrc,
                                        Seq::<(Seq<char>, JsonNode)>::empty(),
                                    ) =~= Seq::<(Seq<char>, JsonNode)>::empty());
                                }
                            },
                        }
                    }
                    proof {
                        let rn0 = spec_remove_noise(spec_simp_vals(pv.take(k as int)));
                        let p1 = (pv[k as int].0, spec_simplify(pv[k as int].1));
                        assert((key@, val@) == (orig[k as int].0@, orig[k as int].1.view_rec()));
                        assert(pv[k as int].0 == key@);
                        reveal_strlit("fields");
                        reveal_strlit("url");
                        reveal_strlit("_links");
                        reveal_strlit("descriptor");
                        reveal_strlit("imageUrl");
                        reveal_strlit("avatar");
                        assert("fields"@[0] == 'f');
                        assert("_links"@[0] == '_');
                        assert("avatar"@[0] == 'a');
                        assert(!spec_is_noise_key(pv[k as int].0));
                        assert(spec_remove_noise(spec_simp_vals(pv.take(k + 1))) == rn0 + seq![p1]);
                        assert(rn0 + seq![p1] =~= rn0.push(p1));
                        lemma_remove_key_push(rn0, "fields"@, p1);
                        assert(spec_remove_key(rn0.push(p1), "fields"@) =~= spec_remove_key(
                            rn0,
                            "fields"@,
                        ));
                        assert(JsonValue::obj_view(base@) =~= spec_remove_key(
                            spec_remove_noise(spec_simp_vals(pv.take(k + 1))),
                            "fields"@,
                        ));
                    }
                } else if is_noise_key(key.as_str()) {
                    proof {
                        let rn0 = spec_remove_noise(spec_simp_vals(pv.take(k as int)));
                        let p1 = (pv[k as int].0, spec_simplify(pv[k as int].1));
                        assert((key@, val@) == (orig[k as int].0@, orig[k as int].1.view_rec()));
                        assert(pv[k as int].0 == key@);
                        assert(spec_is_noise_key(pv[k as int].0));
                        assert(spec_remove_noise(spec_simp_vals(pv.take(k + 1))) == rn0 + Seq::<
                            (Seq<char>, JsonNode),
                        >::empty());
                        assert(rn0 + Seq::<(Seq<char>, JsonNode)>::empty() =~= rn0);
                        assert(JsonValue::obj_view(base@) =~= spec_remove_key(
                            spec_remove_noise(spec_simp_vals(pv.take(k + 1))),
                            "fields"@,
                        ));
                    }
                } else {
                    let w = simplify_work_item_json(val);
                    let ghost base0 = base@;
                    base.push((key, w));
                    proof {
                        lemma_obj_view_push(base0, (key, w));
                        let rn0 = spec_remove_noise(spec_simp_vals(pv.take(k as int)));
                        let p1 = (pv[k as int].0, spec_simplify(pv[k as int].1));
                        assert((key@, val@) == (orig[k as int].0@, orig[k as int].1.view_rec()));
                        assert(pv[k as int].0 == key@);
                        assert(!spec_is_noise_key(pv[k as int].0));
                        assert(pv[k as int].0 != "fields"@);
                        assert(spec_remove_noise(spec_simp_vals(pv.take(k + 1))) == rn0 + seq![p1]);
                        assert(rn0 + seq![p1] =~= rn0.push(p1));
                        lemma_remove_key_push(rn0, "fields"@, p1);
                        assert(spec_remove_key(rn0.push(p1), "fields"@) =~= spec_remove_key(
                            rn0,
                            "fields"@,
                        ).push(p1));
                        assert(w@ == spec_simplify(pv[k as int].1));
                        assert(JsonValue::obj_view(base@) =~= spec_remove_key(
                            spec_remove_noise(spec_simp_vals(pv.take(k + 1))),
                            "fields"@,
                        ));
                    }
                }
                k = k + 1;
            }
            proof {
                assert(pv.take(pv.len() as int) =~= pv);
                if fidx == orig.len() {
                    assert(fsrc =~= Seq::<(Seq<char>, JsonNode)>::empty());
                    assert(spec_flatten_acc(fsrc, Seq::<(Seq<char>, JsonNode)>::empty()) =~= Seq::<
                        (Seq<char>, JsonNode),
                    >::empty());
                    assert(JsonValue::obj_view(flat@) == spec_flatten_acc(
                        fsrc,
                        Seq::<(Seq<char>, JsonNode)>::empty(),
                    ));
                }
            }
            let ghost bview = JsonValue::obj_view(base@);
            let ghost fview = JsonValue::obj_view(flat@);
            let mut extra: Vec<(String, JsonValue)> = Vec::new();
            let mut j: usize = 0;
            let ghost flat_orig = flat@;
            let mut frest = flat;
            let ftotal: usize = frest.len();
            proof {
                assert(fview.skip(0) =~= fview);
                assert(JsonValue::obj_view(extra@) =~= Seq::<(Seq<char>, JsonNode)>::empty());
                crate::json::lemma_obj_view_index(flat_orig);
            }
            while frest.len() > 0
                invariant
                    j <= flat_orig.len(),
                    flat_orig.len() == ftotal,
                    frest@ == flat_orig.skip(j as int),
                    fview == JsonValue::obj_view(flat_orig),
                    fview.len() == flat_orig.len(),
                    forall|t: int|
                        0 <= t < flat_orig.len() ==> fview[t] == (
                        flat_orig[t].0@,
                        flat_orig[t].1.view_rec(),
                        ),
                    bview == JsonValue::obj_view(base@),
                    spec_keep_new(fview, bview) == JsonValue::obj_view(extra@) + spec_keep_new(
                        fview.skip(j as int),
                        bview,
                    ),
                decreases frest@.len(),
            {
                let (fk, w) = frest.remove(0);
                proof {
                    assert(flat_orig.skip(j as int)[0] == flat_orig[j as int]);
                    assert(flat_orig.skip(j as int).drop_first() =~= flat_orig.skip(j + 1));
                    assert(fview.skip(j as int)[0] == fview[j as int]);
                    assert(fview.skip(j as int).drop_first() =~= fview.skip(j + 1));
                    crate::json::lemma_obj_get_has_key(bview, fview[j as int].0);
                }
                let present = match crate::json::obj_get(&base, fk.as_str()) {
                    Option::Some(_) => true,
                    Option::None => false,
                };
                if !present {
                    let ghost extra0 = extra@;
                    extra.push((fk, w));
                    proof {
                        lemma_obj_view_push(extra0, (fk, w));
                        assert(JsonValue::obj_view(extra0) + (seq![fview[j as int]]
                            + spec_keep_new(fview.skip(j + 1), bview)) =~= JsonValue::obj_view(
                            extra@,
                        ) + spec_keep_new(fview.skip(j + 1), bview));
                    }
                }
                j = j + 1;
            }
            proof {
                assert(fview.skip(fview.len() as int) =~= Seq::<(Seq<char>, JsonNode)>::empty());
                assert(JsonValue::obj_view(extra@) + Seq::<(Seq<char>, JsonNode)>::empty()
                    =~= JsonValue::obj_view(extra@));
            }
            let ghost merged_base = base@;
            let ghost merged_extra = extra@;
            base.append(&mut extra);
            proof {
                crate::json::lemma_obj_view_index(base@);
                crate::json::lemma_obj_view_index(merged_base);
                crate::json::lemma_obj_view_index(merged_extra);
                assert(JsonValue::obj_view(base@) =~= bview + JsonValue::obj_view(merged_extra));
            }
            JsonValue::Obj(base)
        },
    }
}

/// Whether a tree is a fixpoint of the simplifier: no object level holds a
/// noise key or a `fields` key, recursively.
pub open spec fn spec_is_simplified(n: JsonNode) -> bool
    decreases n, 1int,
{
    match n {
        JsonNode::Obj(pairs) => spec_pairs_simplified(pairs),
        JsonNode::Arr(items) => spec_items_simplified(items),
        _ => true,
    }
}

/// Whether all array elements are simplifier fixpoints.
pub open spec fn spec_items_simplified(items: Seq<JsonNode>) -> bool
    decreases items, 0int,
{
    if items.len() == 0 {
        true
    } else {
        spec_is_simplified(items[0]) && spec_items_simplified(items.drop_first())
    }
}

/// Whether all pairs carry unreserved keys and fixpoint values.
pub open spec fn spec_pairs_simplified(pairs: Seq<(Seq<char>, JsonNode)>) -> bool
    decreases pairs, 0int,
{
    if pairs.len() == 0 {
        true
    } else {
        !spec_is_noise_key(pairs[0].0) && pairs[0].0 != "fields"@ && spec_is_simplified(
            pairs[0].1,
        ) && spec_pairs_simplified(pairs.drop_first())
    }
}

/// Whether a final flattened key avoids the reserved names, so that a
/// second pass neither deletes nor re-flattens it.
pub open spec fn spec_flat_key_ok(k: Seq<char>) -> bool {
    !spec_is_noise_key(spec_final_key(spec_rename_key(k))) && spec_final_key(spec_rename_key(k))
        != "fields"@
}

/// Whether a tree is free of reserved flattened-key collisions: in every
/// `fields` bag, each entry's final key is neither a noise key nor
/// `fields`, recursively through all values.
pub open spec fn spec_no_reserved_keys(n: JsonNode) -> bool
    decreases n, 2int,
{
    match n {
        JsonNode::Obj(pairs) => spec_fields_keys_ok(pairs) && spec_vals_reserved_ok(pairs),
        JsonNode::Arr(items) => spec_items_reserved_ok(items),
        _ => true,
    }
}

/// Whether the first `fields` bag carries only unreserved final keys.
pub open spec fn spec_fields_keys_ok(pairs: Seq<(Seq<char>, JsonNode)>) -> bool
    decreases pairs, 1int,
{
    if pairs.len() == 0 {
        true
    } else if pairs[0].0 == "fields"@ {
        match pairs[0].1 {
            JsonNode::Obj(fp) => forall|j: int| 0 <= j < fp.len() ==> spec_flat_key_ok(fp[j].0),
            _ => true,
        }
    } else {
        spec_fields_keys_ok(pairs.drop_first())
    }
}

/// Whether all pair values are collision-free.
pub open spec fn spec_vals_reserved_ok(pairs: Seq<(Seq<char>, JsonNode)>) -> bool
    decreases pairs, 0int,
{
    if pairs.len() == 0 {
        true
    } else {
        spec_no_reserved_keys(pairs[0].1) && spec_vals_reserved_ok(pairs.drop_first())
    }
}

/// Whether all array elements are collision-free.
pub open spec fn spec_items_reserved_ok(items: Seq<JsonNode>) -> bool
    decreases items, 0int,
{
    if items.len() == 0 {
        true
    } else {
        spec_no_reserved_keys(items[0]) && spec_items_reserved_ok(items.drop_first())
    }
}

/// The recursive conjunctions characterize their elements.
proof fn lemma_pairs_simplified_index(pairs: Seq<(Seq<char>, JsonNode)>)
    ensures
        spec_pairs_simplified(pairs) <==> forall|i: int|
            0 <= i < pairs.len() ==> !spec_is_noise_key(pairs[i].0) && pairs[i].0 != "fields"@
                && spec_is_simplified(pairs[i].1),
    decreases pairs.len(),
{
    if pairs.len() > 0 {
        lemma_pairs_simplified_index(pairs.drop_first());
        if spec_pairs_simplified(pairs) {
            assert forall|i: int|
                0 <= i < pairs.len() implies !spec_is_noise_key(pairs[i].0) && pairs[i].0
                != "fields"@ && spec_is_simplified(pairs[i].1) by {
                if i > 0 {
                    assert(pairs.drop_first()[i - 1] == pairs[i]);
                }
            }
        }
        if forall|i: int|
            0 <= i < pairs.len() ==> !spec_is_noise_key(pairs[i].0) && pairs[i].0 != "fields"@
                && spec_is_simplified(pairs[i].1) {
            assert forall|i: int|
                0 <= i < pairs.drop_first().len() implies !spec_is_noise_key(
                pairs.drop_first()[i].0,
            ) && pairs.drop_first()[i].0 != "fields"@ && spec_is_simplified(
                pairs.drop_first()[i].1,
            ) by {
                assert(pairs.drop_first()[i] == pairs[i + 1]);
            }
        }
    }
}

/// The recursive conjunctions characterize their elements.
proof fn lemma_items_simplified_index(items: Seq<JsonNode>)
    ensures
        spec_items_simplified(items) <==> forall|i: int|
            0 <= i < items.len() ==> spec_is_simplified(items[i]),
    decreases items.len(),
{
    if items.len() > 0 {
        lemma_items_simplified_index(items.drop_first());
        if spec_items_simplified(items) {
            assert forall|i: int| 0 <= i < items.len() implies spec_is_simplified(items[i]) by {
                if i > 0 {
                    assert(items.drop_first()[i - 1] == items[i]);
                }
            }
        }
        if forall|i: int| 0 <= i < items.len() ==> spec_is_simplified(items[i]) {
            assert forall|i: int|
                0 <= i < items.drop_first().len() implies spec_is_simplified(
                items.drop_first()[i],
            ) by {
                assert(items.drop_first()[i] == items[i + 1]);
            }
        }
    }
}

/// Without noise keys, noise removal keeps everything.
proof fn lemma_remove_noise_id(pairs: Seq<(Seq<char>, JsonNode)>)
    requires
        forall|i: int| 0 <= i < pairs.len() ==> !spec_is_noise_key(pairs[i].0),
    ensures
        spec_remove_noise(pairs) == pairs,
    decreases pairs.len(),
{
    if pairs.len() > 0 {
        lemma_remove_noise_id(pairs.drop_first());
        assert(seq![pairs[0]] + pairs.drop_first() =~= pairs);
    }
}

/// Without the key, key removal keeps everything.
proof fn lemma_remove_key_id(pairs: Seq<(Seq<char>, JsonNode)>, key: Seq<char>)
    requires
        forall|i: int| 0 <= i < pairs.len() ==> pairs[i].0 != key,
    ensures
        spec_remove_key(pairs, key) == pairs,
    decreases pairs.len(),
{
    if pairs.len() > 0 {
        lemma_remove_key_id(pairs.drop_first(), key);
        assert(seq![pairs[0]] + pairs.drop_first() =~= pairs);
    }
}

/// A simplifier fixpoint simplifies to itself.
pub proof fn lemma_simplified_fixpoint(n: JsonNode)
    requires
        spec_is_simplified(n),
    ensures
        spec_simplify(n) == n,
    decreases n, 2int,
{
    match n {
        JsonNode::Arr(items) => {
            lemma_items_fixpoint(items);
        },
        JsonNode::Obj(pairs) => {
            lemma_vals_fixpoint(pairs);
            lemma_pairs_simplified_index(pairs);
            lemma_remove_noise_id(pairs);
            lemma_remove_key_id(pairs, "fields"@);
            lemma_simp_fields_none(pairs);
            let base = spec_remove_key(spec_remove_noise(spec_simp_vals(pairs)), "fields"@);
            assert(base == pairs);
            assert(spec_flatten_acc(
                Seq::<(Seq<char>, JsonNode)>::empty(),
                Seq::<(Seq<char>, JsonNode)>::empty(),
            ) =~= Seq::<(Seq<char>, JsonNode)>::empty());
            assert(spec_keep_new(Seq::<(Seq<char>, JsonNode)>::empty(), base) =~= Seq::<
                (Seq<char>, JsonNode),
            >::empty());
            assert(base + Seq::<(Seq<char>, JsonNode)>::empty() =~= base);
        },
        _ => {},
    }
}

/// Fixpoint elements simplify to themselves.
proof fn lemma_items_fixpoint(items: Seq<JsonNode>)
    requires
        spec_items_simplified(items),
    ensures
        spec_simp_items(items) == items,
    decreases items, 0int,
{
    if items.len() > 0 {
        lemma_simplified_fixpoint(items[0]);
        lemma_items_fixpoint(items.drop_first());
        assert(seq![items[0]] + items.drop_first() =~= items);
    }
}

/// Fixpoint values simplify to themselves.
proof fn lemma_vals_fixpoint(pairs: Seq<(Seq<char>, JsonNode)>)
    requires
        spec_pairs_simplified(pairs),
    ensures
        spec_simp_vals(pairs) == pairs,
    decreases pairs, 0int,
{
    if pairs.len() > 0 {
        lemma_simplified_fixpoint(pairs[0].1);
        lemma_vals_fixpoint(pairs.drop_first());
        assert(seq![pairs[0]] + pairs.drop_first() =~= pairs);
    }
}

/// The per-field transformation keeps values at fixpoints.
proof fn lemma_transform_simplified(key: Seq<char>, v: JsonNode)
    requires
        spec_is_simplified(v),
    ensures
        spec_is_simplified(spec_field_transform(key, v)),
{
    let w = spec_identity_collapse(v);
    assert(spec_is_simplified(w)) by {
        match v {
            JsonNode::Obj(pairs) => {},
            _ => {},
        }
    }
}

/// Noise removal keeps only members of the input, with unreserved keys.
proof fn lemma_remove_noise_sub(pairs: Seq<(Seq<char>, JsonNode)>)
    ensures
        forall|i: int|
            0 <= i < spec_remove_noise(pairs).len() ==> !spec_is_noise_key(
                spec_remove_noise(pairs)[i].0,
            ) && pairs.contains(spec_remove_noise(pairs)[i]),
    decreases pairs.len(),
{
    if pairs.len() > 0 {
        lemma_remove_noise_sub(pairs.drop_first());
        let res = spec_remove_noise(pairs);
        let sub = spec_remove_noise(pairs.drop_first());
        assert forall|i: int|
            0 <= i < res.len() implies !spec_is_noise_key(res[i].0) && pairs.contains(
            res[i],
        ) by {
            if spec_is_noise_key(pairs[0].0) {
                assert(res[i] == sub[i]);
                assert(pairs.drop_first().contains(res[i]));
                let j = choose|j: int|
                    0 <= j < pairs.drop_first().len() && pairs.drop_first()[j] == res[i];
                assert(pairs[j + 1] == res[i]);
            } else {
                if i == 0 {
                    assert(res[0] == pairs[0]);
                } else {
                    assert(res[i] == sub[i - 1]);
                    assert(pairs.drop_first().contains(res[i]));
                    let j = choose|j: int|
                        0 <= j < pairs.drop_first().len() && pairs.drop_first()[j] == res[i];
                    assert(pairs[j + 1] == res[i]);
                }
            }
        }
    }
}

/// Key removal keeps only members of the input, all under other keys.
proof fn lemma_remove_key_sub(pairs: Seq<(Seq<char>, JsonNode)>, key: Seq<char>)
    ensures
        forall|i: int|
            0 <= i < spec_remove_key(pairs, key).len() ==> spec_remove_key(pairs, key)[i].0 != key
                && pairs.contains(spec_remove_key(pairs, key)[i]),
    decreases pairs.len(),
{
    if pairs.len() > 0 {
        lemma_remove_key_sub(pairs.drop_first(), key);
        let res = spec_remove_key(pairs, key);
        let sub = spec_remove_key(pairs.drop_first(), key);
        assert forall|i: int|
            0 <= i < res.len() implies res[i].0 != key && pairs.contains(res[i]) by {
            if pairs[0].0 == key {
                assert(res[i] == sub[i]);
                assert(pairs.drop_first().contains(res[i]));
                let j = choose|j: int|
                    0 <= j < pairs.drop_first().len() && pairs.drop_first()[j] == res[i];
                assert(pairs[j + 1] == res[i]);
            } else {
                if i == 0 {
                    assert(res[0] == pairs[0]);
                } else {
                    assert(res[i] == sub[i - 1]);
                    assert(pairs.drop_first().contains(res[i]));
                    let j = choose|j: int|
                        0 <= j < pairs.drop_first().len() && pairs.drop_first()[j] == res[i];
                    assert(pairs[j + 1] == res[i]);
                }
            }
        }
    }
}

/// Whether a pair can come out of flattening the given (already simplified)
/// fields entries.
pub open spec fn spec_is_flat_result(
    p: (Seq<char>, JsonNode),
    fpairs: Seq<(Seq<char>, JsonNode)>,
) -> bool {
    exists|j: int|
        0 <= j < fpairs.len() && p == (
            spec_final_key(spec_rename_key(fpairs[j].0)),
            spec_field_transform(spec_final_key(spec_rename_key(fpairs[j].0)), fpairs[j].1),
        )
}

/// Every entry of the flattening is the accumulator's or stems from a
/// fields entry.
proof fn lemma_flatten_acc_elems(fpairs: Seq<(Seq<char>, JsonNode)>, acc: Seq<(Seq<char>, JsonNode)>)
    ensures
        forall|i: int|
            0 <= i < spec_flatten_acc(fpairs, acc).len() ==> acc.contains(
                spec_flatten_acc(fpairs, acc)[i],
            ) || spec_is_flat_result(spec_flatten_acc(fpairs, acc)[i], fpairs),
    decreases fpairs.len(),
{
    if fpairs.len() > 0 {
        let k1 = spec_rename_key(fpairs[0].0);
        let res = spec_flatten_acc(fpairs, acc);
        if spec_is_denied_key(k1) {
            lemma_flatten_acc_elems(fpairs.drop_first(), acc);
            assert forall|i: int|
                0 <= i < res.len() implies acc.contains(res[i]) || spec_is_flat_result(
                res[i],
                fpairs,
            ) by {
                assert(spec_flatten_acc(fpairs.drop_first(), acc)[i] == res[i]);
                if !acc.contains(res[i]) {
                    lemma_flat_result_lift(res[i], fpairs);
                }
            }
        } else {
            let fk = spec_final_key(k1);
            if crate::json::spec_obj_has_key(acc, fk) {
                lemma_flatten_acc_elems(fpairs.drop_first(), acc);
                assert forall|i: int|
                    0 <= i < res.len() implies acc.contains(res[i]) || spec_is_flat_result(
                    res[i],
                    fpairs,
                ) by {
                    assert(spec_flatten_acc(fpairs.drop_first(), acc)[i] == res[i]);
                    if !acc.contains(res[i]) {
                        lemma_flat_result_lift(res[i], fpairs);
                    }
                }
            } else {
                let pushed = acc.push((fk, spec_field_transform(fk, fpairs[0].1)));
                lemma_flatten_acc_elems(fpairs.drop_first(), pushed);
                assert forall|i: int|
                    0 <= i < res.len() implies acc.contains(res[i]) || spec_is_flat_result(
                    res[i],
                    fpairs,
                ) by {
                    assert(spec_flatten_acc(fpairs.drop_first(), pushed)[i] == res[i]);
                    if pushed.contains(res[i]) {
                        let j = choose|j: int| 0 <= j < pushed.len() && pushed[j] == res[i];
                        if j < acc.len() {
                            assert(acc[j] == res[i]);
                        } else {
                            assert(res[i] == (fk, spec_field_transform(fk, fpairs[0].1)));
                            assert(spec_is_flat_result(res[i], fpairs));
                        }
                    } else {
                        lemma_flat_result_lift(res[i], fpairs);
                    }
                }
            }
        }
    }
}

/// A flat result of the tail is a flat result of the whole.
proof fn lemma_flat_result_lift(p: (Seq<char>, JsonNode), fpairs: Seq<(Seq<char>, JsonNode)>)
    requires
        fpairs.len() > 0,
        spec_is_flat_result(p, fpairs.drop_first()),
    ensures
        spec_is_flat_result(p, fpairs),
{
    let j = choose|j: int|
        0 <= j < fpairs.drop_first().len() && p == (
            spec_final_key(spec_rename_key(fpairs.drop_first()[j].0)),
            spec_field_transform(
                spec_final_key(spec_rename_key(fpairs.drop_first()[j].0)),
                fpairs.drop_first()[j].1,
            ),
        );
    assert(fpairs[j + 1] == fpairs.drop_first()[j]);
}

/// Every kept entry is one of the flattened ones.
proof fn lemma_keep_new_sub(flat: Seq<(Seq<char>, JsonNode)>, base: Seq<(Seq<char>, JsonNode)>)
    ensures
        forall|i: int|
            0 <= i < spec_keep_new(flat, base).len() ==> flat.contains(spec_keep_new(flat, base)[i]),
    decreases flat.len(),
{
    if flat.len() > 0 {
        lemma_keep_new_sub(flat.drop_first(), base);
        let res = spec_keep_new(flat, base);
        let sub = spec_keep_new(flat.drop_first(), base);
        assert forall|i: int| 0 <= i < res.len() implies flat.contains(res[i]) by {
            if crate::json::spec_obj_has_key(base, flat[0].0) {
                assert(res[i] == sub[i]);
                let j = choose|j: int|
                    0 <= j < flat.drop_first().len() && flat.drop_first()[j] == res[i];
                assert(flat[j + 1] == res[i]);
            } else {
                if i == 0 {
                    assert(res[0] == flat[0]);
                } else {
                    assert(res[i] == sub[i - 1]);
                    let j = choose|j: int|
                        0 <= j < flat.drop_first().len() && flat.drop_first()[j] == res[i];
                    assert(flat[j + 1] == res[i]);
                }
            }
        }
    }
}

/// The simplified fields entries keep the raw keys, and their values are
/// fixpoints.
proof fn lemma_fields_shape(pairs: Seq<(Seq<char>, JsonNode)>)
    requires
        spec_fields_keys_ok(pairs),
        spec_vals_reserved_ok(pairs),
    ensures
        forall|j: int|
            0 <= j < spec_simp_fields(pairs).len() ==> spec_flat_key_ok(
                spec_simp_fields(pairs)[j].0,
            ) && spec_is_simplified(spec_simp_fields(pairs)[j].1),
    decreases pairs, 1int,
{
    if pairs.len() > 0 {
        if pairs[0].0 == "fields"@ {
            match pairs[0].1 {
                JsonNode::Obj(fp) => {
                    assert(spec_no_reserved_keys(pairs[0].1));
                    assert(spec_vals_reserved_ok(fp));
                    lemma_vals_shape(fp);
                    lemma_simp_vals_index(fp);
                    assert(spec_simp_fields(pairs) == spec_simp_vals(fp));
                    assert forall|j: int|
                        0 <= j < spec_simp_fields(pairs).len() implies spec_flat_key_ok(
                        spec_simp_fields(pairs)[j].0,
                    ) && spec_is_simplified(spec_simp_fields(pairs)[j].1) by {
                        assert(spec_simp_vals(fp)[j] == (fp[j].0, spec_simplify(fp[j].1)));
                        assert(spec_flat_key_ok(fp[j].0));
                    }
                },
                _ => {
                    assert(spec_simp_fields(pairs) =~= Seq::<(Seq<char>, JsonNode)>::empty());
                },
            }
        } else {
            assert(spec_fields_keys_ok(pairs.drop_first()));
            assert(spec_vals_reserved_ok(pairs.drop_first()));
            lemma_fields_shape(pairs.drop_first());
            assert(spec_simp_fields(pairs) == spec_simp_fields(pairs.drop_first()));
        }
    }
}

/// Simplified pair values are fixpoints.
proof fn lemma_vals_shape(pairs: Seq<(Seq<char>, JsonNode)>)
    requires
        spec_vals_reserved_ok(pairs),
    ensures
        forall|j: int|
            0 <= j < pairs.len() ==> spec_is_simplified(spec_simplify(pairs[j].1)),
    decreases pairs, 0int,
{
    if pairs.len() > 0 {
        lemma_simplify_shape(pairs[0].1);
        lemma_vals_shape(pairs.drop_first());
        assert forall|j: int|
            0 <= j < pairs.len() implies spec_is_simplified(spec_simplify(pairs[j].1)) by {
            if j > 0 {
                assert(pairs.drop_first()[j - 1] == pairs[j]);
            }
        }
    }
}

/// Simplified array elements are fixpoints.
proof fn lemma_items_shape(items: Seq<JsonNode>)
    requires
        spec_items_reserved_ok(items),
    ensures
        forall|j: int| 0 <= j < items.len() ==> spec_is_simplified(spec_simplify(items[j])),
    decreases items, 0int,
{
    if items.len() > 0 {
        lemma_simplify_shape(items[0]);
        lemma_items_shape(items.drop_first());
        assert forall|j: int|
            0 <= j < items.len() implies spec_is_simplified(spec_simplify(items[j])) by {
            if j > 0 {
                assert(items.drop_first()[j - 1] == items[j]);
            }
        }
    }
}

/// On a collision-free tree, one pass reaches a fixpoint.
pub proof fn lemma_simplify_shape(n: JsonNode)
    requires
        spec_no_reserved_keys(n),
    ensures
        spec_is_simplified(spec_simplify(n)),
    decreases n, 2int,
{
    match n {
        JsonNode::Arr(items) => {
            lemma_items_shape(items);
            lemma_simp_items_index(items);
            lemma_items_simplified_index(spec_simp_items(items));
        },
        JsonNode::Obj(pairs) => {
            let vals = spec_simp_vals(pairs);
            let cleaned = spec_remove_noise(vals);
            let base = spec_remove_key(cleaned, "fields"@);
            let fsrc = spec_simp_fields(pairs);
            let flat = spec_flatten_acc(fsrc, Seq::empty());
            let kept = spec_keep_new(flat, base);
            lemma_vals_shape(pairs);
            lemma_simp_vals_index(pairs);
            lemma_remove_noise_sub(vals);
            lemma_remove_key_sub(cleaned, "fields"@);
            lemma_fields_shape(pairs);
            lemma_flatten_acc_elems(fsrc, Seq::empty());
            lemma_keep_new_sub(flat, base);
            assert forall|i: int|
                0 <= i < base.len() implies !spec_is_noise_key(base[i].0) && base[i].0 != "fields"@
                && spec_is_simplified(base[i].1) by {
                assert(cleaned.contains(base[i]));
                let j = choose|j: int| 0 <= j < cleaned.len() && cleaned[j] == base[i];
                assert(!spec_is_noise_key(cleaned[j].0));
                assert(vals.contains(cleaned[j]));
                let t = choose|t: int| 0 <= t < vals.len() && vals[t] == cleaned[j];
                assert(vals[t] == (pairs[t].0, spec_simplify(pairs[t].1)));
            }
            assert forall|i: int|
                0 <= i < kept.len() implies !spec_is_noise_key(kept[i].0) && kept[i].0 != "fields"@
                && spec_is_simplified(kept[i].1) by {
                assert(flat.contains(kept[i]));
                let j = choose|j: int| 0 <= j < flat.len() && flat[j] == kept[i];
                assert(!Seq::<(Seq<char>, JsonNode)>::empty().contains(flat[j]));
                assert(spec_is_flat_result(flat[j], fsrc));
                let t = choose|t: int|
                    0 <= t < fsrc.len() && flat[j] == (
                        spec_final_key(spec_rename_key(fsrc[t].0)),
                        spec_field_transform(
                            spec_final_key(spec_rename_key(fsrc[t].0)),
                            fsrc[t].1,
                        ),
                    );
                assert(spec_flat_key_ok(fsrc[t].0));
                assert(spec_is_simplified(fsrc[t].1));
                lemma_transform_simplified(spec_final_key(spec_rename_key(fsrc[t].0)), fsrc[t].1);
            }
            let merged = base + kept;
            lemma_pairs_simplified_index(merged);
            assert forall|i: int|
                0 <= i < merged.len() implies !spec_is_noise_key(merged[i].0) && merged[i].0
                != "fields"@ && spec_is_simplified(merged[i].1) by {
                if i < base.len() {
                    assert(merged[i] == base[i]);
                } else {
                    assert(merged[i] == kept[i - base.len()]);
                }
            }
        },
        _ => {},
    }
}

/// Simplification is idempotent on records free of reserved flattened-key
/// collisions: a second pass finds nothing left to rewrite.
pub proof fn lemma_simplify_idempotent(n: JsonNode)
    requires
        spec_no_reserved_keys(n),
    ensures
        spec_simplify(spec_simplify(n)) == spec_simplify(n),
{
    lemma_simplify_shape(n);
    lemma_simplified_fixpoint(spec_simplify(n));
}

} // verus!
