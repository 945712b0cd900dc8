//! The backend data model: the plain values that cross the library's
//! boundary, and the small pieces of logic that read them.
//!
//! The transport layer hands these types in after decoding a response and
//! takes them back before encoding a request; everything the pipeline does
//! with them happens here, under contracts.

use vstd::prelude::*;
use vstd::string::StrSliceExecFns;
use vstd::string::StringExecFns;
use crate::PipelineError;
use crate::json::{JsonNode, JsonValue};
use crate::paginate::Comment;
use crate::simplify::{contains_sub, spec_contains_seq};
use crate::text::{spec_dec, str_eq, u32_to_dec};

verus! {

/// A team of a project.
pub struct Team {
    pub id: String,
    pub name: String,
    pub url: String,
    pub description: Option<String>,
    pub default_value: Option<String>,
}

/// A list of teams, as the backend returns it.
pub struct TeamListResponse {
    pub value: Vec<Team>,
}

/// A work-item type of a project.
pub struct WorkItemType {
    pub name: String,
    pub description: Option<String>,
    pub color: Option<String>,
    pub icon: Option<JsonValue>,
    pub url: Option<String>,
    pub reference_name: Option<String>,
}

/// A list of work-item types, as the backend returns it.
pub struct WorkItemTypeListResponse {
    pub value: Vec<WorkItemType>,
}

/// A column of a team board.
pub struct BoardColumn {
    pub id: String,
    pub name: String,
    pub item_limit: i32,
    pub state_mappings: JsonValue,
    pub column_type: String,
    pub is_split: Option<bool>,
    pub description: Option<String>,
}

/// A row (swimlane) of a team board.
pub struct BoardRow {
    pub id: String,
    pub name: Option<String>,
    pub color: Option<String>,
}

/// A field reference of a board configuration.
pub struct BoardField {
    pub reference_name: String,
    pub url: String,
}

/// The field references of a board configuration.
pub struct BoardFields {
    pub column_field: BoardField,
    pub row_field: BoardField,
    pub done_field: BoardField,
}

/// Summary information for a board, used in list operations.
pub struct BoardSummary {
    pub id: String,
    pub name: String,
    pub url: String,
}

/// A reference to a board.
pub struct BoardReference {
    pub id: String,
    pub name: String,
    pub url: String,
}

/// Detailed board information, used in get operations.
pub struct BoardDetail {
    pub id: String,
    pub name: String,
    pub url: String,
    pub revision: Option<i32>,
    pub columns: Option<Vec<BoardColumn>>,
    pub rows: Option<Vec<BoardRow>>,
    pub is_valid: Option<bool>,
    pub allowed_mappings: Option<JsonValue>,
    pub can_edit: Option<bool>,
    pub fields: Option<BoardFields>,
}

/// A list of board summaries, as the backend returns it.
pub struct BoardListResponse {
    pub value: Vec<BoardSummary>,
}

/// A list of board columns, as the backend returns it.
pub struct BoardColumnsResponse {
    pub value: Vec<BoardColumn>,
}

/// A list of board rows, as the backend returns it.
pub struct BoardRowsResponse {
    pub value: Vec<BoardRow>,
}

/// A project of an organization.
pub struct Project {
    pub id: String,
    pub name: String,
    pub description: Option<String>,
    pub url: String,
    pub state: String,
    pub visibility: Option<String>,
}

/// A list of projects, as the backend returns it.
pub struct ProjectListResponse {
    pub value: Vec<Project>,
}

/// The profile of the signed-in user.
pub struct Profile {
    pub id: String,
    pub display_name: String,
    pub email_address: String,
    pub public_alias: String,
}

/// An organization the user belongs to.
pub struct Organization {
    pub account_id: String,
    pub account_uri: String,
    pub account_name: String,
}

/// A list of organizations, as the backend returns it.
pub struct OrganizationListResponse {
    pub value: Vec<Organization>,
}

/// A work-item tag of a project.
pub struct TagDefinition {
    pub id: String,
    pub name: String,
    pub url: Option<String>,
    pub last_updated: Option<String>,
}

/// A list of tags, as the backend returns it.
pub struct TagListResponse {
    pub count: u32,
    pub value: Vec<TagDefinition>,
}

/// A member of a team.
pub struct TeamMember {
    pub identity: TeamMemberIdentity,
}

/// The identity of a team member.
pub struct TeamMemberIdentity {
    pub display_name: String,
    pub unique_name: String,
    pub id: String,
}

/// The date attributes of an iteration.
pub struct IterationAttributes {
    pub start_date: Option<String>,
    pub finish_date: Option<String>,
    pub time_frame: Option<String>,
}

/// An iteration of a team's settings.
pub struct TeamSettingsIteration {
    pub id: String,
    pub name: String,
    pub path: String,
    pub attributes: IterationAttributes,
    pub url: String,
}

/// A list of iterations, as the backend returns it.
pub struct IterationListResponse {
    pub value: Vec<TeamSettingsIteration>,
}

/// A raw work item: an identifier, the nested field bag, and optionally the
/// comments attached to it.
pub struct WorkItem {
    pub id: u32,
    pub fields: Vec<(String, JsonValue)>,
    pub url: Option<String>,
    pub comments: Option<Vec<Comment>>,
}

/// A list of work items, as the backend returns it.
pub struct WorkItemListResponse {
    pub count: u32,
    pub value: Vec<WorkItem>,
}

/// A page of comments, as the backend returns it.
pub struct CommentListResponse {
    pub total_count: u32,
    pub count: u32,
    pub comments: Vec<Comment>,
}

/// A WIQL query, as posted to the backend.
pub struct WiqlQuery {
    pub query: String,
}

/// The result of a WIQL query: references to the matching work items.
pub struct WiqlResponse {
    pub work_items: Vec<WorkItemReference>,
}

/// A reference to one work item.
pub struct WorkItemReference {
    pub id: u32,
    pub url: String,
}

/// One JSON-patch operation of a work-item mutation.
pub struct JsonPatchOperation {
    pub op: String,
    pub path: String,
    pub value: Option<JsonValue>,
    pub from: Option<String>,
}

/// A reference to an uploaded attachment.
pub struct AttachmentReference {
    pub id: String,
    pub url: String,
}

/// A classification node of a project's area or iteration tree.
pub struct ClassificationNode {
    pub id: i32,
    pub identifier: String,
    pub name: String,
    pub path: String,
    pub structure_type: String,
    pub children: Option<Vec<ClassificationNode>>,
    pub has_children: Option<bool>,
}

/// The paths of a node and all its descendants, in preorder.
pub open spec fn spec_node_paths(node: ClassificationNode) -> Seq<Seq<char>>
    decreases node, 1int,
{
    seq![node.path@] + (match node.children {
        Option::Some(children) => spec_forest_paths(children@),
        Option::None => Seq::empty(),
    })
}

/// The paths of a forest of nodes, in order.
pub open spec fn spec_forest_paths(nodes: Seq<ClassificationNode>) -> Seq<Seq<char>>
    decreases nodes, 0int,
{
    if nodes.len() == 0 {
        Seq::empty()
    } else {
        spec_node_paths(nodes[0]) + spec_forest_paths(nodes.drop_first())
    }
}

impl ClassificationNode {
    /// Appends the paths of this node and of all its descendants, in
    /// preorder.
    pub fn collect_paths(&self, paths: &mut Vec<String>)
        ensures
            crate::text::views_of(final(paths)@) == crate::text::views_of(old(paths)@)
                + spec_node_paths(*self),
        decreases *self,
    {
        paths.push(self.path.clone());
        proof {
            assert(crate::text::views_of(paths@) =~= crate::text::views_of(old(paths)@) + seq![
                self.path@,
            ]);
        }
        match &self.children {
            Option::Some(children) => {
                let ghost kids = children@;
                let mut i: usize = 0;
                proof {
                    assert(kids.skip(0) =~= kids);
                    assert(crate::text::views_of(paths@) + spec_forest_paths(kids)
                        =~= crate::text::views_of(old(paths)@) + (seq![self.path@]
                        + spec_forest_paths(kids)));
                }
                while i < children.len()
                    invariant
                        i <= kids.len(),
                        children@ == kids,
                        crate::text::views_of(paths@) + spec_forest_paths(kids.skip(i as int))
                            == crate::text::views_of(old(paths)@) + spec_node_paths(*self),
                        decreases_to!(*self => *children),
                    decreases kids.len() - i,
                {
                    proof {
                        assert(kids.skip(i as int)[0] == kids[i as int]);
                        assert(kids.skip(i as int).drop_first() =~= kids.skip(i + 1));
                        assert(decreases_to!(*children => kids[i as int]));
                        assert(decreases_to!(*self => kids[i as int]));
                    }
                    let ghost before = crate::text::views_of(paths@);
                    children[i].collect_paths(paths);
                    i = i + 1;
                    proof {
                        assert(before + (spec_node_paths(kids[i - 1]) + spec_forest_paths(
                            kids.skip(i as int),
                        )) =~= crate::text::views_of(paths@) + spec_forest_paths(
                            kids.skip(i as int),
                        ));
                    }
                }
                proof {
                    assert(kids.skip(kids.len() as int) =~= Seq::<ClassificationNode>::empty());
                    assert(crate::text::views_of(paths@) + Seq::<Seq<char>>::empty()
                        =~= crate::text::views_of(paths@));
                }
            },
            Option::None => {
                proof {
                    assert(crate::text::views_of(paths@) =~= crate::text::views_of(old(paths)@)
                        + spec_node_paths(*self));
                }
            },
        }
    }
}

/// The identifiers of the work items a WIQL response references, in order.
pub fn ids_of_references(response: &WiqlResponse) -> (ids: Vec<u32>)
    ensures
        ids@.len() == response.work_items@.len(),
        forall|i: int| 0 <= i < ids@.len() ==> ids@[i] == response.work_items@[i].id,
{
    let mut ids: Vec<u32> = Vec::new();
    let mut i: usize = 0;
    while i < response.work_items.len()
        invariant
            i <= response.work_items@.len(),
            ids@.len() == i,
            forall|j: int| 0 <= j < i ==> ids@[j] == response.work_items@[j].id,
        decreases response.work_items@.len() - i,
    {
        ids.push(response.work_items[i].id);
        i = i + 1;
    }
    ids
}

/// The names of the listed projects, in order.
pub fn project_names(response: ProjectListResponse) -> (names: Vec<String>)
    ensures
        names@.len() == response.value@.len(),
        forall|i: int| 0 <= i < names@.len() ==> names@[i]@ == response.value@[i].name@,
{
    let mut names: Vec<String> = Vec::new();
    let mut rest = response.value;
    let ghost orig = rest@;
    let total: usize = rest.len();
    let mut i: usize = 0;
    while rest.len() > 0
        invariant
            i <= orig.len(),
            orig.len() == total,
            rest@ == orig.skip(i as int),
            names@.len() == i,
            forall|j: int| 0 <= j < i ==> names@[j]@ == orig[j].name@,
        decreases rest@.len(),
    {
        let p = rest.remove(0);
        proof {
            assert(orig.skip(i as int)[0] == orig[i as int]);
            assert(orig.skip(i as int).drop_first() =~= orig.skip(i + 1));
        }
        names.push(p.name);
        i = i + 1;
    }
    names
}

/// The message a missing work item reports.
pub open spec fn spec_missing_item_message(id: u32) -> Seq<char> {
    "Work item "@ + spec_dec(id as nat) + " not found"@
}

/// The first retrieved work item, or the upstream error that the item was
/// not found when the batch came back empty.
pub fn first_work_item(items: Vec<WorkItem>, id: u32) -> (r: Result<WorkItem, PipelineError>)
    ensures
        match r {
            Ok(item) => old_items_first(items, item),
            Err(e) => items@.len() == 0 && (e matches PipelineError::Upstream { message }
                && message@ == spec_missing_item_message(id)),
        },
{
    let mut items = items;
    if items.len() == 0 {
        let mut message = String::new();
        message.append("Work item ");
        let digits = u32_to_dec(id);
        message.append(digits.as_str());
        message.append(" not found");
        Err(PipelineError::Upstream { message })
    } else {
        let first = items.remove(0);
        Ok(first)
    }
}

/// Whether the result is the first element of the batch handed in.
pub open spec fn old_items_first(items: Vec<WorkItem>, item: WorkItem) -> bool {
    items@.len() > 0 && item == items@[0]
}

/// The JSON-patch operations that set the given fields: one `add` per
/// field, in order, under the field's path.
pub fn patch_operations(fields: Vec<(String, JsonValue)>) -> (ops: Vec<JsonPatchOperation>)
    ensures
        ops@.len() == fields@.len(),
        forall|i: int|
            0 <= i < ops@.len() ==> ops@[i].op@ == "add"@ && ops@[i].path@ == "/fields/"@
                + fields@[i].0@ && ops@[i].value == Option::Some(fields@[i].1) && ops@[i].from
                is None,
{
    let mut ops: Vec<JsonPatchOperation> = Vec::new();
    let mut rest = fields;
    let ghost orig = rest@;
    let total: usize = rest.len();
    let mut i: usize = 0;
    while rest.len() > 0
        invariant
            i <= orig.len(),
            orig.len() == total,
            rest@ == orig.skip(i as int),
            ops@.len() == i,
            forall|j: int|
                0 <= j < i ==> ops@[j].op@ == "add"@ && ops@[j].path@ == "/fields/"@ + orig[j].0@
                    && ops@[j].value == Option::Some(orig[j].1) && ops@[j].from is None,
        decreases rest@.len(),
    {
        let (name, value) = rest.remove(0);
        proof {
            assert(orig.skip(i as int)[0] == orig[i as int]);
            assert(orig.skip(i as int).drop_first() =~= orig.skip(i + 1));
        }
        let mut path = String::new();
        path.append("/fields/");
        path.append(name.as_str());
        ops.push(
            JsonPatchOperation {
                op: String::from_str("add"),
                path,
                value: Option::Some(value),
                from: Option::None,
            },
        );
        i = i + 1;
    }
    ops
}

/// Whether a backend error message signals that the team has no current
/// iteration, a condition mapped to an empty result rather than an error.
pub fn is_current_iteration_missing(message: &str) -> (r: bool)
    ensures
        r == spec_contains_seq(message@, "CurrentIterationDoesNotExistException"@),
{
    contains_sub(message, "CurrentIterationDoesNotExistException")
}

/// The current iteration of a response that lists at most one.
pub fn current_iteration_of(response: IterationListResponse) -> (r: Option<TeamSettingsIteration>)
    ensures
        match r {
            Option::Some(it) => response.value@.len() > 0 && it == response.value@[0],
            Option::None => response.value@.len() == 0,
        },
{
    let mut items = response.value;
    if items.len() == 0 {
        Option::None
    } else {
        Option::Some(items.remove(0))
    }
}

/// The distinct work-item type names of a board's allowed mappings: the
/// keys of the objects nested one level under each column type, first
/// occurrence first.
pub open spec fn spec_board_types(mappings: Option<JsonValue>) -> Seq<Seq<char>> {
    match mappings {
        Option::Some(m) => match m.view_rec() {
            JsonNode::Obj(pairs) => spec_types_of_columns(pairs, Seq::empty()),
            _ => Seq::empty(),
        },
        Option::None => Seq::empty(),
    }
}

/// Folds the type names of each column-type entry into the accumulator.
pub open spec fn spec_types_of_columns(
    pairs: Seq<(Seq<char>, JsonNode)>,
    acc: Seq<Seq<char>>,
) -> Seq<Seq<char>>
    decreases pairs.len(),
{
    if pairs.len() == 0 {
        acc
    } else {
        let acc1 = match pairs[0].1 {
            JsonNode::Obj(inner) => spec_types_of_entry(inner, acc),
            _ => acc,
        };
        spec_types_of_columns(pairs.drop_first(), acc1)
    }
}

/// Folds the keys of one type-mapping object into the accumulator, keeping
/// the first occurrence of each name.
pub open spec fn spec_types_of_entry(
    inner: Seq<(Seq<char>, JsonNode)>,
    acc: Seq<Seq<char>>,
) -> Seq<Seq<char>>
    decreases inner.len(),
{
    if inner.len() == 0 {
        acc
    } else if acc.contains(inner[0].0) {
        spec_types_of_entry(inner.drop_first(), acc)
    } else {
        spec_types_of_entry(inner.drop_first(), acc.push(inner[0].0))
    }
}

/// Whether one of the strings holds exactly these characters.
fn names_contain(names: &Vec<String>, name: &str) -> (r: bool)
    ensures
        r == crate::text::views_of(names@).contains(name@),
{
    let mut i: usize = 0;
    while i < names.len()
        invariant
            i <= names@.len(),
            forall|j: int| 0 <= j < i ==> names@[j]@ != name@,
        decreases names@.len() - i,
    {
        if str_eq(names[i].as_str(), name) {
            proof {
                assert(crate::text::views_of(names@)[i as int] == name@);
            }
            return true;
        }
        i = i + 1;
    }
    proof {
        assert forall|j: int|
            0 <= j < crate::text::views_of(names@).len() implies crate::text::views_of(names@)[j]
            != name@ by {}
    }
    false
}

impl BoardDetail {
    /// The distinct work-item type names of this board's allowed mappings,
    /// first occurrence first.
    pub fn get_work_item_types(&self) -> (types: Vec<String>)
        ensures
            crate::text::views_of(types@) == spec_board_types(self.allowed_mappings),
    {
        let mut types: Vec<String> = Vec::new();
        match &self.allowed_mappings {
            Option::Some(m) => {
                match m {
                    JsonValue::Obj(pairs) => {
                        let ghost pv = JsonValue::obj_view(pairs@);
                        let mut i: usize = 0;
                        proof {
                            crate::json::lemma_obj_view_index(pairs@);
                            assert(pv.skip(0) =~= pv);
                            assert(crate::text::views_of(types@) =~= Seq::<Seq<char>>::empty());
                        }
                        while i < pairs.len()
                            invariant
                                i <= pairs@.len(),
                                pv == JsonValue::obj_view(pairs@),
                                pv.len() == pairs@.len(),
                                forall|j: int|
                                    0 <= j < pairs@.len() ==> pv[j] == (
                                    pairs@[j].0@,
                                    pairs@[j].1.view_rec(),
                                    ),
                                spec_types_of_columns(pv, Seq::empty()) == spec_types_of_columns(
                                    pv.skip(i as int),
                                    crate::text::views_of(types@),
                                ),
                            decreases pairs@.len() - i,
                        {
                            proof {
                                assert(pv.skip(i as int)[0] == pv[i as int]);
                                assert(pv.skip(i as int).drop_first() =~= pv.skip(i + 1));
                            }
                            match &pairs[i].1 {
                                JsonValue::Obj(inner) => {
                                    let ghost iv = JsonValue::obj_view(inner@);
                                    let ghost entry0 = crate::text::views_of(types@);
                                    let mut t: usize = 0;
                                    proof {
                                        crate::json::lemma_obj_view_index(inner@);
                                        assert(iv.skip(0) =~= iv);
                                    }
                                    while t < inner.len()
                                        invariant
                                            t <= inner@.len(),
                                            iv == JsonValue::obj_view(inner@),
                                            iv.len() == inner@.len(),
                                            forall|j: int|
                                                0 <= j < inner@.len() ==> iv[j] == (
                                                inner@[j].0@,
                                                inner@[j].1.view_rec(),
                                                ),
                                            spec_types_of_entry(iv, entry0) == spec_types_of_entry(
                                                iv.skip(t as int),
                                                crate::text::views_of(types@),
                                            ),
                                        decreases inner@.len() - t,
                                    {
                                        proof {
                                            assert(iv.skip(t as int)[0] == iv[t as int]);
                                            assert(iv.skip(t as int).drop_first() =~= iv.skip(
                                                t + 1,
                                            ));
                                        }
                                        if !names_contain(&types, inner[t].0.as_str()) {
                                            let ghost v0 = crate::text::views_of(types@);
                                            types.push(inner[t].0.clone());
                                            proof {
                                                assert(crate::text::views_of(types@) =~= v0.push(
                                                    iv[t as int].0,
                                                ));
                                            }
                                        }
                                        t = t + 1;
                                    }
                                    proof {
                                        assert(iv.skip(iv.len() as int) =~= Seq::<
                                            (Seq<char>, JsonNode),
                                        >::empty());
                                        assert(pv[i as int].1 == JsonNode::Obj(iv));
                                    }
                                },
                                _ => {},
                            }
                            i = i + 1;
                        }
                        proof {
                            assert(pv.skip(pv.len() as int) =~= Seq::<(Seq<char>, JsonNode)>::empty());
                        }
                    },
                    _ => {},
                }
            },
            Option::None => {},
        }
        types
    }
}

} // verus!
