//! Collects work-item comments across continuation-token pages.
//!
//! The caller always fetches the first page, then hands each page to the
//! paginator together with whether the response carried a continuation
//! token. The paginator appends the page's comments in the order received
//! and decides whether another page must be fetched: only while a token is
//! present and the requested count is not yet satisfied. A failed page fetch
//! aborts the whole collection; the paginator never sees it.

use vstd::prelude::*;
use crate::json::JsonValue;

verus! {

/// A work-item comment: identifier, text, creation timestamp, and the raw
/// author reference.
pub struct Comment {
    pub id: u32,
    pub text: String,
    pub created_date: String,
    pub created_by: JsonValue,
}

/// Requesting every comment is written as a count of `-1`.
pub const WANT_ALL_COMMENTS: i32 = -1;

/// Whether one more page must be fetched: only while the response carried a
/// continuation token, and the accumulated count still falls short of the
/// requested one (or everything was requested).
pub open spec fn spec_should_continue(want: i32, accumulated: nat, token_present: bool) -> bool {
    token_present && (want == WANT_ALL_COMMENTS || (accumulated as int) < want as int)
}

/// Decides whether the next comment page must be fetched.
pub fn should_continue(want: i32, accumulated: usize, token_present: bool) -> (cont: bool)
    requires
        want >= WANT_ALL_COMMENTS,
    ensures
        cont == spec_should_continue(want, accumulated as nat, token_present),
{
    if !token_present {
        false
    } else if want == WANT_ALL_COMMENTS {
        true
    } else {
        accumulated < (want as usize)
    }
}

/// Accumulates comment pages for one work item until the requested count is
/// satisfied or the source runs out of pages.
pub struct CommentPaginator {
    pub want: i32,
    pub collected: Vec<Comment>,
}

impl CommentPaginator {
    /// A paginator that still holds nothing; the caller fetches the first
    /// page unconditionally before the bound is ever checked.
    pub fn new(want: i32) -> (p: Self)
        requires
            want >= WANT_ALL_COMMENTS,
        ensures
            p.want == want,
            p.collected@ == Seq::<Comment>::empty(),
    {
        CommentPaginator { want, collected: Vec::new() }
    }

    /// Appends one page of comments, in the order received, and reports
    /// whether another page must be fetched.
    ///
    /// Once the requested count is reached, or the response carried no
    /// continuation token, the result is false and no further page may be
    /// requested.
    pub fn absorb_page(&mut self, page: Vec<Comment>, token_present: bool) -> (cont: bool)
        requires
            old(self).want >= WANT_ALL_COMMENTS,
        ensures
            final(self).want == old(self).want,
            final(self).collected@ == old(self).collected@ + page@,
            cont == spec_should_continue(
                old(self).want,
                final(self).collected@.len(),
                token_present,
            ),
    {
        let mut page = page;
        self.collected.append(&mut page);
        should_continue(self.want, self.collected.len(), token_present)
    }

    /// Hands the accumulated comments out.
    pub fn into_comments(self) -> (r: Vec<Comment>)
        ensures
            r == self.collected,
    {
        self.collected
    }
}

} // verus!
