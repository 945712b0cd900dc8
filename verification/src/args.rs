//! The argument shapes of the named operations the library serves.
//!
//! Each operation takes one of these value objects; the caller decodes its
//! request into the matching shape and hands it over as plain values. The
//! filter specification of the main query lives with its builder in
//! [`crate::query`].

use vstd::prelude::*;

verus! {

/// Arguments for fetching one work item.
pub struct GetWorkItemArgs {
    pub organization: String,
    pub project: String,
    pub id: i64,
    pub include_latest_n_comments: Option<i32>,
}

/// Arguments for fetching several work items.
pub struct GetWorkItemsArgs {
    pub organization: String,
    pub project: String,
    pub ids: Vec<i64>,
    pub include_latest_n_comments: Option<i32>,
}

/// Arguments for running a caller-written WIQL query.
pub struct QueryWorkItemsArgsWiql {
    pub organization: String,
    pub project: String,
    pub query: String,
    pub include_latest_n_comments: Option<i32>,
}

/// Arguments for commenting on a work item.
pub struct AddCommentArgs {
    pub organization: String,
    pub project: String,
    pub work_item_id: u32,
    pub text: String,
}

/// Arguments for linking two work items.
pub struct LinkWorkItemsArgs {
    pub organization: String,
    pub project: String,
    pub source_id: u32,
    pub target_id: u32,
    pub link_type: String,
}

/// Arguments for listing the teams of a project.
pub struct ListTeamsArgs {
    pub organization: String,
    pub project: String,
}

/// Arguments for fetching one team.
pub struct GetTeamArgs {
    pub organization: String,
    pub project: String,
    pub team_id: String,
}

/// Arguments for listing the members of a team.
pub struct ListTeamMembersArgs {
    pub organization: String,
    pub project: String,
    pub team_id: String,
}

/// Arguments for the team's current iteration.
pub struct GetTeamCurrentIterationArgs {
    pub organization: String,
    pub project: String,
    pub team_id: String,
}

/// Arguments for listing iteration paths.
pub struct ListIterationPathsArgs {
    pub organization: String,
    pub project: String,
    pub team_id: Option<String>,
    pub timeframe: Option<String>,
}

/// Arguments for listing area paths.
pub struct ListAreaPathsArgs {
    pub organization: String,
    pub project: String,
    pub parent_path: Option<String>,
}

/// Arguments for listing the boards of a team.
pub struct ListBoardsArgs {
    pub organization: String,
    pub project: String,
    pub team_id: String,
}

/// Arguments for fetching one board.
pub struct GetBoardArgs {
    pub organization: String,
    pub project: String,
    pub team_id: String,
    pub board_id: String,
}

/// Arguments for listing the columns of a board.
pub struct ListBoardColumnsArgs {
    pub organization: String,
    pub project: String,
    pub team_id: String,
    pub board_id: String,
}

/// Arguments for listing the rows of a board.
pub struct ListBoardRowsArgs {
    pub organization: String,
    pub project: String,
    pub team_id: String,
    pub board_id: String,
}

/// Arguments for listing the projects of an organization.
pub struct ListProjectsArgs {
    pub organization: String,
}

/// Arguments for listing the signed-in user's organizations.
pub struct ListOrganizationsArgs {}

/// Arguments for the signed-in user's profile.
pub struct GetCurrentUserArgs {}

/// Arguments for listing the tags of a project.
pub struct ListTagsArgs {
    pub organization: String,
    pub project: String,
}

/// Arguments for listing the work-item types of a project.
pub struct ListWorkItemTypesArgs {
    pub organization: String,
    pub project: String,
}

} // verus!
