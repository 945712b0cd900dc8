//! Compact text renderings of the plain pass-through listings: iterations,
//! board columns, team members, the user profile, and name lists.

use vstd::prelude::*;
use vstd::string::StrSliceExecFns;
use vstd::string::StringExecFns;
use crate::json::{JsonNode, JsonValue};
use crate::models::{BoardColumn, IterationAttributes, Profile, TeamMember, TeamSettingsIteration};
use crate::project::{spec_csv_record, write_csv_record};
use crate::serial::{spec_compact, to_compact_string};
use crate::text::{
    chars_of, push_char, spec_dec_i32, spec_join, str_eq, string_of_chars, views_of,
};

verus! {

/// The date part of a timestamp: everything before the first `T`, or the
/// whole text when no `T` occurs.
pub open spec fn spec_date_part(s: Seq<char>) -> Seq<char>
    decreases s.len(),
{
    if s.len() == 0 {
        Seq::empty()
    } else if s[0] == 'T' {
        Seq::empty()
    } else {
        seq![s[0]] + spec_date_part(s.drop_first())
    }
}

/// The date part of an optional timestamp; a missing one reads `N/A`.
pub open spec fn spec_opt_date(o: Option<String>) -> Seq<char> {
    match o {
        Option::Some(d) => spec_date_part(d@),
        Option::None => "N/A"@,
    }
}

/// Cuts a timestamp down to its date part.
pub fn date_part(s: &str) -> (r: String)
    ensures
        r@ == spec_date_part(s@),
{
    let v = chars_of(s);
    let mut out: Vec<char> = Vec::new();
    let mut i: usize = 0;
    while i < v.len()
        invariant
            i <= v@.len(),
            v@ == s@,
            out@ == s@.take(i as int),
            forall|j: int| 0 <= j < i ==> s@[j] != 'T',
        decreases v@.len() - i,
    {
        let c = v[i];
        if c == 'T' {
            proof {
                lemma_date_part_prefix(s@, i as int);
            }
            return string_of_chars(&out);
        }
        out.push(c);
        i = i + 1;
        proof {
            assert(out@ =~= s@.take(i as int));
        }
    }
    proof {
        lemma_date_part_prefix(s@, s@.len() as int);
        assert(s@.take(s@.len() as int) =~= s@);
    }
    string_of_chars(&out)
}

/// Before the first `T`, the date part is the prefix scanned so far.
proof fn lemma_date_part_prefix(s: Seq<char>, k: int)
    requires
        0 <= k <= s.len(),
        forall|j: int| 0 <= j < k ==> s[j] != 'T',
        k == s.len() || s[k] == 'T',
    ensures
        spec_date_part(s) == s.take(k),
    decreases k,
{
    if k == 0 {
        assert(s.take(0) =~= Seq::<char>::empty());
    } else {
        assert(s.drop_first() =~= s.skip(1));
        lemma_date_part_prefix(s.skip(1), k - 1);
        assert(s.skip(1).take(k - 1) =~= s.take(k).drop_first());
        assert(s.take(k)[0] == s[0]);
        assert(seq![s[0]] + s.take(k).drop_first() =~= s.take(k));
    }
}

/// The date part of an optional timestamp; a missing one reads `N/A`.
pub fn opt_date(o: &Option<String>) -> (r: String)
    ensures
        r@ == spec_opt_date(*o),
{
    match o {
        Option::Some(d) => date_part(d.as_str()),
        Option::None => String::from_str("N/A"),
    }
}

/// The one-line rendering of the current iteration: name and the two dates.
pub open spec fn spec_current_iteration_row(name: Seq<char>, attrs: IterationAttributes) -> Seq<
    char,
> {
    name + ","@ + spec_opt_date(attrs.start_date) + ","@ + spec_opt_date(attrs.finish_date)
}

/// Renders the current iteration as one comma-separated line.
pub fn current_iteration_row(iteration: &TeamSettingsIteration) -> (r: String)
    ensures
        r@ == spec_current_iteration_row(iteration.name@, iteration.attributes),
{
    let mut r = String::new();
    r.append(iteration.name.as_str());
    r.append(",");
    let start = opt_date(&iteration.attributes.start_date);
    r.append(start.as_str());
    r.append(",");
    let finish = opt_date(&iteration.attributes.finish_date);
    r.append(finish.as_str());
    r
}

/// The one-line rendering of a listed iteration: name, timeframe and the
/// two dates.
pub open spec fn spec_iteration_row(it: TeamSettingsIteration) -> Seq<char> {
    it.name@ + ","@ + (match it.attributes.time_frame {
        Option::Some(tf) => tf@,
        Option::None => "N/A"@,
    }) + ","@ + spec_opt_date(it.attributes.start_date) + ","@ + spec_opt_date(
        it.attributes.finish_date,
    )
}

/// The listed iterations rendered one line each, joined with commas.
pub open spec fn spec_iteration_rows(iterations: Seq<TeamSettingsIteration>) -> Seq<char> {
    spec_join(iterations.map_values(|it: TeamSettingsIteration| spec_iteration_row(it)), ","@)
}

/// Renders the listed iterations, one comma-separated row per iteration,
/// rows joined with commas.
pub fn iteration_rows(iterations: &Vec<TeamSettingsIteration>) -> (r: String)
    ensures
        r@ == spec_iteration_rows(iterations@),
{
    let mut rows: Vec<String> = Vec::new();
    let mut i: usize = 0;
    while i < iterations.len()
        invariant
            i <= iterations@.len(),
            rows@.len() == i,
            forall|j: int| 0 <= j < i ==> rows@[j]@ == spec_iteration_row(iterations@[j]),
        decreases iterations@.len() - i,
    {
        let it = &iterations[i];
        let mut row = String::new();
        row.append(it.name.as_str());
        row.append(",");
        match &it.attributes.time_frame {
            Option::Some(tf) => row.append(tf.as_str()),
            Option::None => row.append("N/A"),
        }
        row.append(",");
        let start = opt_date(&it.attributes.start_date);
        row.append(start.as_str());
        row.append(",");
        let finish = opt_date(&it.attributes.finish_date);
        row.append(finish.as_str());
        rows.push(row);
        i = i + 1;
    }
    proof {
        assert(views_of(rows@) =~= iterations@.map_values(
            |it: TeamSettingsIteration| spec_iteration_row(it),
        ));
    }
    crate::text::join_strings(&rows, ",")
}

/// Whether the text names a known timeframe filter.
pub open spec fn spec_valid_timeframe(s: Seq<char>) -> bool {
    s == "current"@ || s == "past"@ || s == "future"@
}

/// Whether the text names a known timeframe filter.
pub fn valid_timeframe(s: &str) -> (r: bool)
    ensures
        r == spec_valid_timeframe(s@),
{
    str_eq(s, "current") || str_eq(s, "past") || str_eq(s, "future")
}

/// The lower-case form of an ASCII letter code; anything else unchanged.
pub open spec fn spec_ascii_lower(c: int) -> int {
    if 65 <= c <= 90 {
        c + 32
    } else {
        c
    }
}

/// Whether two texts agree up to ASCII letter case.
pub open spec fn spec_eq_ignore_ascii_case(a: Seq<char>, b: Seq<char>) -> bool {
    a.len() == b.len() && forall|i: int|
        0 <= i < a.len() ==> spec_ascii_lower(a[i] as int) == spec_ascii_lower(b[i] as int)
}

/// Compares two texts ignoring ASCII letter case.
pub fn eq_ignore_ascii_case(a: &str, b: &str) -> (r: bool)
    ensures
        r == spec_eq_ignore_ascii_case(a@, b@),
{
    let na = a.unicode_len();
    let nb = b.unicode_len();
    if na != nb {
        return false;
    }
    let mut i: usize = 0;
    while i < na
        invariant
            i <= na,
            na == a@.len(),
            na == b@.len(),
            forall|j: int|
                0 <= j < i ==> spec_ascii_lower(a@[j] as int) == spec_ascii_lower(b@[j] as int),
        decreases na - i,
    {
        let ca = a.get_char(i) as u32;
        let cb = b.get_char(i) as u32;
        let la = if 65 <= ca && ca <= 90 {
            ca + 32
        } else {
            ca
        };
        let lb = if 65 <= cb && cb <= 90 {
            cb + 32
        } else {
            cb
        };
        if la != lb {
            return false;
        }
        i = i + 1;
    }
    true
}

/// The iterations whose timeframe matches the filter up to ASCII case;
/// order kept, iterations without a timeframe dropped.
pub open spec fn spec_filtered_iterations(
    iterations: Seq<TeamSettingsIteration>,
    tf: Seq<char>,
) -> Seq<TeamSettingsIteration>
    decreases iterations.len(),
{
    if iterations.len() == 0 {
        Seq::empty()
    } else {
        let keep = match iterations[0].attributes.time_frame {
            Option::Some(t) => spec_eq_ignore_ascii_case(t@, tf),
            Option::None => false,
        };
        (if keep {
            seq![iterations[0]]
        } else {
            Seq::empty()
        }) + spec_filtered_iterations(iterations.drop_first(), tf)
    }
}

/// Keeps the iterations whose timeframe matches the filter up to ASCII
/// case, in order.
pub fn filter_iterations_by_timeframe(
    iterations: Vec<TeamSettingsIteration>,
    tf: &str,
) -> (r: Vec<TeamSettingsIteration>)
    ensures
        r@ == spec_filtered_iterations(iterations@, tf@),
{
    let mut out: Vec<TeamSettingsIteration> = Vec::new();
    let mut rest = iterations;
    let ghost orig = rest@;
    let total: usize = rest.len();
    let mut i: usize = 0;
    proof {
        assert(orig.skip(0) =~= orig);
    }
    while rest.len() > 0
        invariant
            i <= orig.len(),
            orig.len() == total,
            rest@ == orig.skip(i as int),
            spec_filtered_iterations(orig, tf@) == out@ + spec_filtered_iterations(
                orig.skip(i as int),
                tf@,
            ),
        decreases rest@.len(),
    {
        let it = rest.remove(0);
        proof {
            assert(orig.skip(i as int)[0] == orig[i as int]);
            assert(orig.skip(i as int).drop_first() =~= orig.skip(i + 1));
        }
        let keep = match &it.attributes.time_frame {
            Option::Some(t) => eq_ignore_ascii_case(t.as_str(), tf),
            Option::None => false,
        };
        if keep {
            out.push(it);
            proof {
                assert(out@ + spec_filtered_iterations(orig.skip(i + 1), tf@) =~= out@.drop_last()
                    + (seq![orig[i as int]] + spec_filtered_iterations(orig.skip(i + 1), tf@)));
            }
        } else {
            proof {
                assert(out@ + (Seq::<TeamSettingsIteration>::empty() + spec_filtered_iterations(
                    orig.skip(i + 1),
                    tf@,
                )) =~= out@ + spec_filtered_iterations(orig.skip(i + 1), tf@));
            }
        }
        i = i + 1;
    }
    proof {
        assert(orig.skip(orig.len() as int) =~= Seq::<TeamSettingsIteration>::empty());
        assert(out@ + Seq::<TeamSettingsIteration>::empty() =~= out@);
    }
    out
}

/// The fields of one board-column record: name, item limit, split flag
/// (false when absent) and column type.
pub open spec fn spec_board_column_fields(c: BoardColumn) -> Seq<Seq<char>> {
    seq![
        c.name@,
        spec_dec_i32(c.item_limit as int),
        (match c.is_split {
            Option::Some(true) => "true"@,
            _ => "false"@,
        }),
        c.column_type@,
    ]
}

/// The board columns rendered as delimited text: a fixed header, then one
/// record per column.
pub open spec fn spec_board_columns_csv(columns: Seq<BoardColumn>) -> Seq<char>
    decreases columns.len(),
{
    if columns.len() == 0 {
        Seq::empty()
    } else {
        spec_csv_record(spec_board_column_fields(columns[0])) + spec_board_columns_csv(
            columns.drop_first(),
        )
    }
}

/// Renders board columns as delimited text with the fixed header
/// `name,item_limit,is_split,column_type`.
pub fn board_columns_to_csv(columns: &Vec<BoardColumn>) -> (r: String)
    ensures
        r@ == spec_csv_record(seq!["name"@, "item_limit"@, "is_split"@, "column_type"@])
            + spec_board_columns_csv(columns@),
{
    let mut header: Vec<String> = Vec::new();
    header.push(String::from_str("name"));
    header.push(String::from_str("item_limit"));
    header.push(String::from_str("is_split"));
    header.push(String::from_str("column_type"));
    let mut out = String::new();
    proof {
        assert(views_of(header@) =~= seq!["name"@, "item_limit"@, "is_split"@, "column_type"@]);
    }
    write_csv_record(&header, &mut out);
    let ghost head = out@;
    let mut i: usize = 0;
    proof {
        assert(columns@.skip(0) =~= columns@);
    }
    while i < columns.len()
        invariant
            i <= columns@.len(),
            head + spec_board_columns_csv(columns@) == out@ + spec_board_columns_csv(
                columns@.skip(i as int),
            ),
        decreases columns@.len() - i,
    {
        proof {
            assert(columns@.skip(i as int)[0] == columns@[i as int]);
            assert(columns@.skip(i as int).drop_first() =~= columns@.skip(i + 1));
        }
        let c = &columns[i];
        let mut fields: Vec<String> = Vec::new();
        fields.push(c.name.clone());
        fields.push(crate::text::i32_to_dec(c.item_limit));
        match &c.is_split {
            Option::Some(true) => fields.push(String::from_str("true")),
            Option::Some(false) => fields.push(String::from_str("false")),
            Option::None => fields.push(String::from_str("false")),
        }
        fields.push(c.column_type.clone());
        proof {
            assert(views_of(fields@) =~= spec_board_column_fields(columns@[i as int]));
        }
        let ghost before = out@;
        write_csv_record(&fields, &mut out);
        i = i + 1;
        proof {
            assert(before + (spec_csv_record(spec_board_column_fields(columns@[i - 1]))
                + spec_board_columns_csv(columns@.skip(i as int))) =~= out@
                + spec_board_columns_csv(columns@.skip(i as int)));
        }
    }
    proof {
        assert(columns@.skip(columns@.len() as int) =~= Seq::<BoardColumn>::empty());
        assert(out@ + Seq::<char>::empty() =~= out@);
    }
    out
}

/// The team members rendered as delimited text without a header: one
/// record of display name and unique name per member.
pub open spec fn spec_team_members_csv(members: Seq<TeamMember>) -> Seq<char>
    decreases members.len(),
{
    if members.len() == 0 {
        Seq::empty()
    } else {
        spec_csv_record(
            seq![members[0].identity.display_name@, members[0].identity.unique_name@],
        ) + spec_team_members_csv(members.drop_first())
    }
}

/// Renders team members as headerless delimited text.
pub fn team_members_to_csv(members: &Vec<TeamMember>) -> (r: String)
    ensures
        r@ == spec_team_members_csv(members@),
{
    let mut out = String::new();
    let mut i: usize = 0;
    proof {
        assert(members@.skip(0) =~= members@);
    }
    while i < members.len()
        invariant
            i <= members@.len(),
            spec_team_members_csv(members@) == out@ + spec_team_members_csv(
                members@.skip(i as int),
            ),
        decreases members@.len() - i,
    {
        proof {
            assert(members@.skip(i as int)[0] == members@[i as int]);
            assert(members@.skip(i as int).drop_first() =~= members@.skip(i + 1));
        }
        let m = &members[i];
        let mut fields: Vec<String> = Vec::new();
        fields.push(m.identity.display_name.clone());
        fields.push(m.identity.unique_name.clone());
        proof {
            assert(views_of(fields@) =~= seq![
                members@[i as int].identity.display_name@,
                members@[i as int].identity.unique_name@,
            ]);
        }
        let ghost before = out@;
        write_csv_record(&fields, &mut out);
        i = i + 1;
        proof {
            assert(before + (spec_csv_record(
                seq![
                    members@[i - 1].identity.display_name@,
                    members@[i - 1].identity.unique_name@,
                ],
            ) + spec_team_members_csv(members@.skip(i as int))) =~= out@ + spec_team_members_csv(
                members@.skip(i as int),
            ));
        }
    }
    proof {
        assert(members@.skip(members@.len() as int) =~= Seq::<TeamMember>::empty());
        assert(out@ + Seq::<char>::empty() =~= out@);
    }
    out
}

/// Renders the user profile as one headerless record of display name and
/// email address.
pub fn profile_to_csv(profile: &Profile) -> (r: String)
    ensures
        r@ == spec_csv_record(seq![profile.display_name@, profile.email_address@]),
{
    let mut fields: Vec<String> = Vec::new();
    fields.push(profile.display_name.clone());
    fields.push(profile.email_address.clone());
    let mut out = String::new();
    proof {
        assert(views_of(fields@) =~= seq![profile.display_name@, profile.email_address@]);
    }
    write_csv_record(&fields, &mut out);
    out
}

/// The compact JSON array of a list of names.
pub open spec fn spec_names_json(names: Seq<Seq<char>>) -> Seq<char> {
    spec_compact(JsonNode::Arr(names.map_values(|n: Seq<char>| JsonNode::Str(n))))
}

/// Renders a list of names as a compact JSON array of strings.
pub fn names_to_compact_json(names: &Vec<String>) -> (r: String)
    ensures
        r@ == spec_names_json(views_of(names@)),
{
    let mut items: Vec<JsonValue> = Vec::new();
    let mut i: usize = 0;
    while i < names.len()
        invariant
            i <= names@.len(),
            items@.len() == i,
            forall|j: int| 0 <= j < i ==> items@[j] == JsonValue::Str(names@[j]),
        decreases names@.len() - i,
    {
        items.push(JsonValue::Str(names[i].clone()));
        i = i + 1;
    }
    let ghost items_v = items@;
    let arr = JsonValue::Arr(items);
    proof {
        crate::json::lemma_arr_view_index(items_v);
        assert forall|j: int|
            0 <= j < items_v.len() implies JsonValue::arr_view(items_v)[j] == views_of(
            names@,
        ).map_values(|n: Seq<char>| JsonNode::Str(n))[j] by {
            assert(items_v[j] == JsonValue::Str(names@[j]));
            assert(items_v[j].view_rec() == JsonNode::Str(names@[j]@));
        }
        assert(JsonValue::arr_view(items_v) =~= views_of(names@).map_values(
            |n: Seq<char>| JsonNode::Str(n),
        ));
    }
    to_compact_string(&arr)
}

} // verus!
