//! Builds a safe WIQL-subset query string from a structured filter
//! specification.
//!
//! The builder emits AND-joined predicate clauses in a fixed order: path
//! scoping, date ranges, include/exclude set membership, and per-tag
//! containment. Every literal placed into the query has its embedded single
//! quotes doubled; with no filters at all the builder falls back to a single
//! project-scope clause.

use vstd::prelude::*;
use vstd::string::StrSliceExecFns;
use vstd::string::StringExecFns;
use crate::text::{chars_of, join_strings, push_char, spec_join, string_of_chars, views_of};

verus! {

/// A structured filter specification for querying work items.
///
/// Include and exclude sets may overlap; both conditions are emitted and
/// joined with AND, which can legitimately select nothing.
pub struct QueryWorkItemsArgs {
    pub organization: String,
    pub project: String,
    pub area_path: Option<String>,
    pub iteration_path: Option<String>,
    pub created_date_from: Option<String>,
    pub created_date_to: Option<String>,
    pub modified_date_from: Option<String>,
    pub modified_date_to: Option<String>,
    pub include_board_column: Vec<String>,
    pub include_board_row: Vec<String>,
    pub include_work_item_type: Vec<String>,
    pub include_state: Vec<String>,
    pub exclude_board_column: Vec<String>,
    pub exclude_board_row: Vec<String>,
    pub exclude_work_item_type: Vec<String>,
    pub exclude_state: Vec<String>,
    pub include_assigned_to: Vec<String>,
    pub exclude_assigned_to: Vec<String>,
    pub include_tags: Vec<String>,
    pub exclude_tags: Vec<String>,
    pub include_latest_n_comments: Option<i32>,
}

/// The literal with every embedded single quote doubled.
pub open spec fn spec_escape(s: Seq<char>) -> Seq<char>
    decreases s.len(),
{
    if s.len() == 0 {
        Seq::empty()
    } else {
        (if s[0] == '\'' {
            seq!['\'', '\'']
        } else {
            seq![s[0]]
        }) + spec_escape(s.drop_first())
    }
}

/// The escaped literal wrapped in single quotes.
pub open spec fn spec_quoted(s: Seq<char>) -> Seq<char> {
    seq!['\''] + spec_escape(s) + seq!['\'']
}

/// Quoted literals joined with a comma and a space.
pub open spec fn spec_quoted_list(vals: Seq<Seq<char>>) -> Seq<char> {
    spec_join(vals.map_values(|v: Seq<char>| spec_quoted(v)), ", "@)
}

/// Zero or one clause for an optional scalar filter: the prefix followed by
/// the quoted value.
pub open spec fn spec_opt_clause(o: Option<String>, prefix: Seq<char>) -> Seq<Seq<char>> {
    match o {
        Option::Some(v) => seq![prefix + spec_quoted(v@)],
        Option::None => Seq::empty(),
    }
}

/// Zero or one set-membership clause over the given field.
pub open spec fn spec_set_clause(vals: Seq<Seq<char>>, field: Seq<char>, negated: bool) -> Seq<
    Seq<char>,
> {
    if vals.len() == 0 {
        Seq::empty()
    } else {
        seq![
            field + (if negated {
                " NOT IN ("@
            } else {
                " IN ("@
            }) + spec_quoted_list(vals) + ")"@,
        ]
    }
}

/// One containment clause per tag.
pub open spec fn spec_tag_clauses(tags: Seq<Seq<char>>, negated: bool) -> Seq<Seq<char>> {
    tags.map_values(
        |t: Seq<char>| (if negated {
            "NOT [Tags] CONTAINS "@
        } else {
            "[Tags] CONTAINS "@
        }) + spec_quoted(t),
    )
}

/// All predicate clauses of the filter specification, in emission order.
pub open spec fn spec_conditions(args: QueryWorkItemsArgs) -> Seq<Seq<char>> {
    spec_opt_clause(args.area_path, "[AreaPath] UNDER "@) + spec_opt_clause(
        args.iteration_path,
        "[IterationPath] UNDER "@,
    ) + spec_opt_clause(args.created_date_from, "[CreatedDate] >= "@) + spec_opt_clause(
        args.created_date_to,
        "[CreatedDate] <= "@,
    ) + spec_opt_clause(args.modified_date_from, "[ChangedDate] >= "@) + spec_opt_clause(
        args.modified_date_to,
        "[ChangedDate] <= "@,
    ) + spec_set_clause(views_of(args.include_board_column@), "[BoardColumn]"@, false)
        + spec_set_clause(views_of(args.include_board_row@), "[BoardLane]"@, false)
        + spec_set_clause(views_of(args.include_work_item_type@), "[WorkItemType]"@, false)
        + spec_set_clause(views_of(args.include_state@), "[State]"@, false) + spec_set_clause(
        views_of(args.exclude_board_column@),
        "[BoardColumn]"@,
        true,
    ) + spec_set_clause(views_of(args.exclude_board_row@), "[BoardLane]"@, true) + spec_set_clause(
        views_of(args.exclude_work_item_type@),
        "[WorkItemType]"@,
        true,
    ) + spec_set_clause(views_of(args.exclude_state@), "[State]"@, true) + spec_set_clause(
        views_of(args.include_assigned_to@),
        "[AssignedTo]"@,
        false,
    ) + spec_set_clause(views_of(args.exclude_assigned_to@), "[AssignedTo]"@, true)
        + spec_tag_clauses(views_of(args.include_tags@), false) + spec_tag_clauses(
        views_of(args.exclude_tags@),
        true,
    )
}

/// The full query: the fixed select prefix and either the AND-joined clauses
/// or, with no clauses at all, the project-scope fallback.
pub open spec fn spec_build(args: QueryWorkItemsArgs) -> Seq<char> {
    "SELECT [Id] FROM WorkItems WHERE "@ + (if spec_conditions(args).len() == 0 {
        "[Project] = "@ + spec_quoted(args.project@)
    } else {
        spec_join(spec_conditions(args), " AND "@)
    })
}

/// Whether no filter of the specification is set.
pub open spec fn spec_no_filters(args: QueryWorkItemsArgs) -> bool {
    args.area_path is None && args.iteration_path is None && args.created_date_from is None
        && args.created_date_to is None && args.modified_date_from is None
        && args.modified_date_to is None && args.include_board_column@.len() == 0
        && args.include_board_row@.len() == 0 && args.include_work_item_type@.len() == 0
        && args.include_state@.len() == 0 && args.exclude_board_column@.len() == 0
        && args.exclude_board_row@.len() == 0 && args.exclude_work_item_type@.len() == 0
        && args.exclude_state@.len() == 0 && args.include_assigned_to@.len() == 0
        && args.exclude_assigned_to@.len() == 0 && args.include_tags@.len() == 0
        && args.exclude_tags@.len() == 0
}

/// With no filters at all, the builder falls back to the single
/// project-scope clause rather than an unconditional query.
pub proof fn lemma_empty_filter_fallback(args: QueryWorkItemsArgs)
    requires
        spec_no_filters(args),
    ensures
        spec_build(args) == "SELECT [Id] FROM WorkItems WHERE "@ + ("[Project] = "@ + spec_quoted(
            args.project@,
        )),
{
    assert(spec_conditions(args) =~= Seq::<Seq<char>>::empty());
}

/// With only states to include, the query holds exactly the one
/// set-membership clause over the state field.
pub proof fn lemma_only_include_state(args: QueryWorkItemsArgs)
    requires
        args.area_path is None,
        args.iteration_path is None,
        args.created_date_from is None,
        args.created_date_to is None,
        args.modified_date_from is None,
        args.modified_date_to is None,
        args.include_board_column@.len() == 0,
        args.include_board_row@.len() == 0,
        args.include_work_item_type@.len() == 0,
        args.include_state@.len() > 0,
        args.exclude_board_column@.len() == 0,
        args.exclude_board_row@.len() == 0,
        args.exclude_work_item_type@.len() == 0,
        args.exclude_state@.len() == 0,
        args.include_assigned_to@.len() == 0,
        args.exclude_assigned_to@.len() == 0,
        args.include_tags@.len() == 0,
        args.exclude_tags@.len() == 0,
    ensures
        spec_build(args) == "SELECT [Id] FROM WorkItems WHERE "@ + ("[State]"@ + " IN ("@
            + spec_quoted_list(views_of(args.include_state@)) + ")"@),
{
    let clause = "[State]"@ + " IN ("@ + spec_quoted_list(views_of(args.include_state@)) + ")"@;
    assert(spec_conditions(args) =~= seq![clause]);
    assert(spec_join(seq![clause], " AND "@) == clause);
}

/// How many times the character occurs in the sequence.
pub open spec fn count_char(s: Seq<char>, c: char) -> nat
    decreases s.len(),
{
    if s.len() == 0 {
        0
    } else {
        (if s[0] == c {
            1nat
        } else {
            0nat
        }) + count_char(s.drop_first(), c)
    }
}

/// Escaping a literal doubles exactly its single quotes: every quote of the
/// input occurs twice in the escaped form, and nothing else is added.
pub proof fn lemma_escape_doubles_quotes(s: Seq<char>)
    ensures
        count_char(spec_escape(s), '\'') == 2 * count_char(s, '\''),
        spec_escape(s).len() == s.len() + count_char(s, '\''),
    decreases s.len(),
{
    if s.len() > 0 {
        lemma_escape_doubles_quotes(s.drop_first());
        let head: Seq<char> = if s[0] == '\'' {
            seq!['\'', '\'']
        } else {
            seq![s[0]]
        };
        let tail = spec_escape(s.drop_first());
        lemma_count_char_add(head, tail, '\'');
        if s[0] == '\'' {
            let one: Seq<char> = seq!['\''];
            assert(head.drop_first() =~= one);
            assert(one.drop_first() =~= Seq::<char>::empty());
            assert(count_char(Seq::<char>::empty(), '\'') == 0);
            assert(count_char(one, '\'') == 1);
            assert(count_char(head, '\'') == 2);
        } else {
            assert(head.drop_first() =~= Seq::<char>::empty());
            assert(count_char(Seq::<char>::empty(), '\'') == 0);
            assert(count_char(head, '\'') == 0);
        }
    }
}

/// Every single quote of an escaped literal stands next to its double: no
/// lone quote survives escaping, so a literal can never close its quoting
/// early.
pub proof fn lemma_escaped_quotes_adjacent(s: Seq<char>, i: int)
    requires
        0 <= i < spec_escape(s).len(),
        spec_escape(s)[i] == '\'',
    ensures
        (i + 1 < spec_escape(s).len() && spec_escape(s)[i + 1] == '\'') || (i > 0 && spec_escape(
            s,
        )[i - 1] == '\''),
    decreases s.len(),
{
    let esc = spec_escape(s);
    let head: Seq<char> = if s[0] == '\'' {
        seq!['\'', '\'']
    } else {
        seq![s[0]]
    };
    let tail = spec_escape(s.drop_first());
    assert(esc == head + tail);
    if i < head.len() {
        assert(esc[i] == head[i]);
        assert(s[0] == '\'');
        if i == 0 {
            assert(esc[1] == head[1]);
        } else {
            assert(esc[0] == head[0]);
        }
    } else {
        assert(esc[i] == tail[i - head.len()]);
        lemma_escaped_quotes_adjacent(s.drop_first(), i - head.len());
        if i - head.len() + 1 < tail.len() && tail[i - head.len() + 1] == '\'' {
            assert(esc[i + 1] == tail[i - head.len() + 1]);
        } else {
            assert(tail[i - head.len() - 1] == '\'');
            assert(esc[i - 1] == tail[i - head.len() - 1]);
        }
    }
}

/// Character counts add over concatenation.
pub proof fn lemma_count_char_add(a: Seq<char>, b: Seq<char>, c: char)
    ensures
        count_char(a + b, c) == count_char(a, c) + count_char(b, c),
    decreases a.len(),
{
    if a.len() == 0 {
        assert(a + b =~= b);
    } else {
        assert((a + b).drop_first() =~= a.drop_first() + b);
        lemma_count_char_add(a.drop_first(), b, c);
    }
}

/// Appending one character extends the escape by that character, doubled if
/// it is a quote.
proof fn lemma_escape_push(s: Seq<char>, c: char)
    ensures
        spec_escape(s.push(c)) == spec_escape(s) + (if c == '\'' {
            seq!['\'', '\'']
        } else {
            seq![c]
        }),
    decreases s.len(),
{
    let head: Seq<char> = if c == '\'' {
        seq!['\'', '\'']
    } else {
        seq![c]
    };
    if s.len() == 0 {
        assert(s.push(c).drop_first() =~= Seq::<char>::empty());
        assert(s.push(c)[0] == c);
        assert(spec_escape(Seq::<char>::empty()) =~= Seq::<char>::empty());
        assert(spec_escape(s.push(c)) =~= head + Seq::<char>::empty());
        assert(head + Seq::<char>::empty() =~= head);
        assert(spec_escape(s) + head =~= head);
    } else {
        assert(s.push(c).drop_first() =~= s.drop_first().push(c));
        lemma_escape_push(s.drop_first(), c);
        let h0: Seq<char> = if s[0] == '\'' {
            seq!['\'', '\'']
        } else {
            seq![s[0]]
        };
        assert(spec_escape(s.push(c)) == h0 + (spec_escape(s.drop_first()) + head));
        assert(h0 + (spec_escape(s.drop_first()) + head) =~= (h0 + spec_escape(s.drop_first()))
            + head);
    }
}

/// The literal with every embedded single quote doubled.
pub fn escape_literal(s: &str) -> (r: String)
    ensures
        r@ == spec_escape(s@),
{
    let chars = chars_of(s);
    let mut out: Vec<char> = Vec::new();
    let mut i: usize = 0;
    while i < chars.len()
        invariant
            i <= chars@.len(),
            chars@ == s@,
            out@ == spec_escape(s@.take(i as int)),
        decreases chars@.len() - i,
    {
        let c = chars[i];
        if c == '\'' {
            out.push('\'');
            out.push('\'');
        } else {
            out.push(c);
        }
        i = i + 1;
        proof {
            assert(s@.take(i as int) =~= s@.take(i - 1).push(s@[i - 1]));
            lemma_escape_push(s@.take(i - 1), s@[i - 1]);
            if s@[i - 1] == '\'' {
                assert(out@ =~= spec_escape(s@.take(i - 1)) + seq!['\'', '\'']);
            } else {
                assert(out@ =~= spec_escape(s@.take(i - 1)) + seq![s@[i - 1]]);
            }
        }
    }
    assert(s@.take(s@.len() as int) =~= s@);
    string_of_chars(&out)
}

/// The escaped literal wrapped in single quotes.
pub fn quoted_literal(s: &str) -> (r: String)
    ensures
        r@ == spec_quoted(s@),
{
    let mut r = String::new();
    push_char(&mut r, '\'');
    let escaped = escape_literal(s);
    r.append(escaped.as_str());
    push_char(&mut r, '\'');
    proof {
        assert(r@ =~= spec_quoted(s@));
    }
    r
}

/// Quoted literals joined with a comma and a space.
fn quoted_list(vals: &Vec<String>) -> (r: String)
    ensures
        r@ == spec_quoted_list(views_of(vals@)),
{
    let mut quoted: Vec<String> = Vec::new();
    let mut i: usize = 0;
    while i < vals.len()
        invariant
            i <= vals@.len(),
            quoted@.len() == i,
            forall|j: int| 0 <= j < i ==> quoted@[j]@ == spec_quoted(vals@[j]@),
        decreases vals@.len() - i,
    {
        quoted.push(quoted_literal(vals[i].as_str()));
        i = i + 1;
    }
    proof {
        assert(views_of(quoted@) =~= views_of(vals@).map_values(|v: Seq<char>| spec_quoted(v)));
    }
    join_strings(&quoted, ", ")
}

/// Appends the clause for an optional scalar filter, if the filter is set.
fn push_opt_clause(conditions: &mut Vec<String>, o: &Option<String>, prefix: &str)
    ensures
        views_of(final(conditions)@) == views_of(old(conditions)@) + spec_opt_clause(
            *o,
            prefix@,
        ),
{
    match o {
        Option::Some(v) => {
            let mut clause = String::new();
            clause.append(prefix);
            let quoted = quoted_literal(v.as_str());
            clause.append(quoted.as_str());
            conditions.push(clause);
            proof {
                assert(views_of(conditions@) =~= views_of(old(conditions)@) + seq![
                    prefix@ + spec_quoted(v@),
                ]);
            }
        },
        Option::None => {
            proof {
                assert(views_of(conditions@) =~= views_of(old(conditions)@) + Seq::<
                    Seq<char>,
                >::empty());
            }
        },
    }
}

/// Appends the set-membership clause for the field, if the set is non-empty.
fn push_set_clause(conditions: &mut Vec<String>, vals: &Vec<String>, field: &str, negated: bool)
    ensures
        views_of(final(conditions)@) == views_of(old(conditions)@) + spec_set_clause(
            views_of(vals@),
            field@,
            negated,
        ),
{
    if vals.len() == 0 {
        proof {
            assert(views_of(conditions@) =~= views_of(old(conditions)@) + Seq::<
                Seq<char>,
            >::empty());
        }
    } else {
        let mut clause = String::new();
        clause.append(field);
        if negated {
            clause.append(" NOT IN (");
        } else {
            clause.append(" IN (");
        }
        let list = quoted_list(vals);
        clause.append(list.as_str());
        clause.append(")");
        conditions.push(clause);
        proof {
            assert(views_of(conditions@) =~= views_of(old(conditions)@) + spec_set_clause(
                views_of(vals@),
                field@,
                negated,
            ));
        }
    }
}

/// Appends one containment clause per tag.
fn push_tag_clauses(conditions: &mut Vec<String>, tags: &Vec<String>, negated: bool)
    ensures
        views_of(final(conditions)@) == views_of(old(conditions)@) + spec_tag_clauses(
            views_of(tags@),
            negated,
        ),
{
    let n0: usize = conditions.len();
    let mut i: usize = 0;
    while i < tags.len()
        invariant
            i <= tags@.len(),
            n0 == old(conditions)@.len(),
            conditions@.len() == n0 + i,
            conditions@.take(n0 as int) == old(conditions)@,
            forall|j: int|
                0 <= j < i ==> conditions@[n0 + j]@ == (if negated {
                    "NOT [Tags] CONTAINS "@
                } else {
                    "[Tags] CONTAINS "@
                }) + spec_quoted(tags@[j]@),
        decreases tags@.len() - i,
    {
        let mut clause = String::new();
        if negated {
            clause.append("NOT [Tags] CONTAINS ");
        } else {
            clause.append("[Tags] CONTAINS ");
        }
        let quoted = quoted_literal(tags[i].as_str());
        clause.append(quoted.as_str());
        conditions.push(clause);
        i = i + 1;
        proof {
            assert(conditions@.take(n0 as int) =~= old(conditions)@);
        }
    }
    proof {
        assert(views_of(conditions@) =~= views_of(old(conditions)@) + spec_tag_clauses(
            views_of(tags@),
            negated,
        ));
    }
}

/// Builds the WIQL query for the filter specification.
///
/// With no filters set, the result is the project-scope fallback query rather
/// than an unconditional one.
pub fn build_wiql_query(args: &QueryWorkItemsArgs) -> (r: String)
    ensures
        r@ == spec_build(*args),
{
    let mut conditions: Vec<String> = Vec::new();
    push_opt_clause(&mut conditions, &args.area_path, "[AreaPath] UNDER ");
    push_opt_clause(&mut conditions, &args.iteration_path, "[IterationPath] UNDER ");
    push_opt_clause(&mut conditions, &args.created_date_from, "[CreatedDate] >= ");
    push_opt_clause(&mut conditions, &args.created_date_to, "[CreatedDate] <= ");
    push_opt_clause(&mut conditions, &args.modified_date_from, "[ChangedDate] >= ");
    push_opt_clause(&mut conditions, &args.modified_date_to, "[ChangedDate] <= ");
    push_set_clause(&mut conditions, &args.include_board_column, "[BoardColumn]", false);
    push_set_clause(&mut conditions, &args.include_board_row, "[BoardLane]", false);
    push_set_clause(&mut conditions, &args.include_work_item_type, "[WorkItemType]", false);
    push_set_clause(&mut conditions, &args.include_state, "[State]", false);
    push_set_clause(&mut conditions, &args.exclude_board_column, "[BoardColumn]", true);
    push_set_clause(&mut conditions, &args.exclude_board_row, "[BoardLane]", true);
    push_set_clause(&mut conditions, &args.exclude_work_item_type, "[WorkItemType]", true);
    push_set_clause(&mut conditions, &args.exclude_state, "[State]", true);
    push_set_clause(&mut conditions, &args.include_assigned_to, "[AssignedTo]", false);
    push_set_clause(&mut conditions, &args.exclude_assigned_to, "[AssignedTo]", true);
    push_tag_clauses(&mut conditions, &args.include_tags, false);
    push_tag_clauses(&mut conditions, &args.exclude_tags, true);
    proof {
        assert(views_of(conditions@) =~= spec_conditions(*args));
    }
    let mut r = String::new();
    r.append("SELECT [Id] FROM WorkItems WHERE ");
    if conditions.len() == 0 {
        r.append("[Project] = ");
        let quoted = quoted_literal(args.project.as_str());
        r.append(quoted.as_str());
    } else {
        let joined = join_strings(&conditions, " AND ");
        r.append(joined.as_str());
    }
    r
}

} // verus!
