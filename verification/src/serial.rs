//! Compact (whitespace-free) JSON serialization of [`JsonValue`] trees.
//!
//! String contents are escaped the way a standard JSON emitter does: quote,
//! backslash and ASCII control characters only, the latter with their short
//! escapes where one exists and `\u00XY` (lower-case hex) otherwise.

use vstd::prelude::*;
use vstd::string::StringExecFns;
use crate::json::{JsonNode, JsonValue};
use crate::text::push_char;

verus! {

/// The lower-case hex digit for a value below 16.
pub open spec fn spec_hex_digit(n: int) -> char {
    if n == 0 {
        '0'
    } else if n == 1 {
        '1'
    } else if n == 2 {
        '2'
    } else if n == 3 {
        '3'
    } else if n == 4 {
        '4'
    } else if n == 5 {
        '5'
    } else if n == 6 {
        '6'
    } else if n == 7 {
        '7'
    } else if n == 8 {
        '8'
    } else if n == 9 {
        '9'
    } else if n == 10 {
        'a'
    } else if n == 11 {
        'b'
    } else if n == 12 {
        'c'
    } else if n == 13 {
        'd'
    } else if n == 14 {
        'e'
    } else {
        'f'
    }
}

/// How one character is written inside a JSON string literal.
pub open spec fn spec_escaped_char(c: char) -> Seq<char> {
    if c == '"' {
        seq!['\\', '"']
    } else if c == '\\' {
        seq!['\\', '\\']
    } else if c == '\u{8}' {
        seq!['\\', 'b']
    } else if c == '\t' {
        seq!['\\', 't']
    } else if c == '\n' {
        seq!['\\', 'n']
    } else if c == '\u{c}' {
        seq!['\\', 'f']
    } else if c == '\r' {
        seq!['\\', 'r']
    } else if (c as u32) < 0x20 {
        seq!['\\', 'u', '0', '0', spec_hex_digit((c as u32) as int / 16), spec_hex_digit((c as u32) as int % 16)]
    } else {
        seq![c]
    }
}

/// A string's characters, escaped for a JSON string literal.
pub open spec fn spec_json_escape(s: Seq<char>) -> Seq<char>
    decreases s.len(),
{
    if s.len() == 0 {
        Seq::empty()
    } else {
        spec_escaped_char(s[0]) + spec_json_escape(s.drop_first())
    }
}

/// A JSON string literal: the escaped characters in double quotes.
pub open spec fn spec_json_string(s: Seq<char>) -> Seq<char> {
    seq!['"'] + spec_json_escape(s) + seq!['"']
}

/// The compact JSON text of a node.
pub open spec fn spec_compact(n: JsonNode) -> Seq<char>
    decreases n, 1int,
{
    match n {
        JsonNode::Null => "null"@,
        JsonNode::Bool(b) => if b {
            "true"@
        } else {
            "false"@
        },
        JsonNode::Num(s) => s,
        JsonNode::Str(s) => spec_json_string(s),
        JsonNode::Arr(items) => seq!['['] + spec_compact_items(items) + seq![']'],
        JsonNode::Obj(pairs) => seq!['{'] + spec_compact_pairs(pairs) + seq!['}'],
    }
}

/// The comma-separated compact texts of array elements.
pub open spec fn spec_compact_items(items: Seq<JsonNode>) -> Seq<char>
    decreases items, 0int,
{
    if items.len() == 0 {
        Seq::empty()
    } else if items.len() == 1 {
        spec_compact(items[0])
    } else {
        spec_compact(items[0]) + seq![','] + spec_compact_items(items.drop_first())
    }
}

/// The comma-separated compact texts of object members.
pub open spec fn spec_compact_pairs(pairs: Seq<(Seq<char>, JsonNode)>) -> Seq<char>
    decreases pairs, 0int,
{
    if pairs.len() == 0 {
        Seq::empty()
    } else {
        let member = spec_json_string(pairs[0].0) + seq![':'] + spec_compact(pairs[0].1);
        if pairs.len() == 1 {
            member
        } else {
            member + seq![','] + spec_compact_pairs(pairs.drop_first())
        }
    }
}

/// Appending one more character extends the escape of a string.
proof fn lemma_json_escape_push(s: Seq<char>, c: char)
    ensures
        spec_json_escape(s.push(c)) == spec_json_escape(s) + spec_escaped_char(c),
    decreases s.len(),
{
    if s.len() == 0 {
        assert(s.push(c).drop_first() =~= Seq::<char>::empty());
        assert(s.push(c)[0] == c);
        assert(spec_json_escape(Seq::<char>::empty()) =~= Seq::<char>::empty());
        assert(spec_json_escape(s.push(c)) =~= spec_escaped_char(c) + Seq::<char>::empty());
        assert(spec_escaped_char(c) + Seq::<char>::empty() =~= spec_escaped_char(c));
        assert(spec_json_escape(s) + spec_escaped_char(c) =~= spec_escaped_char(c));
    } else {
        assert(s.push(c).drop_first() =~= s.drop_first().push(c));
        lemma_json_escape_push(s.drop_first(), c);
        assert(spec_escaped_char(s[0]) + (spec_json_escape(s.drop_first()) + spec_escaped_char(c))
            =~= (spec_escaped_char(s[0]) + spec_json_escape(s.drop_first())) + spec_escaped_char(
            c,
        ));
    }
}

/// Appends the escaped characters of the string to the output.
#[verifier::rlimit(80)]
fn write_json_escaped(s: &str, out: &mut String)
    ensures
        final(out)@ == old(out)@ + spec_json_escape(s@),
{
    let chars = crate::text::chars_of(s);
    let mut i: usize = 0;
    proof {
        assert(out@ + spec_json_escape(s@.take(0)) =~= out@);
    }
    while i < chars.len()
        invariant
            i <= chars@.len(),
            chars@ == s@,
            out@ == old(out)@ + spec_json_escape(s@.take(i as int)),
        decreases chars@.len() - i,
    {
        let c = chars[i];
        if c == '"' {
            push_char(out, '\\');
            push_char(out, '"');
        } else if c == '\\' {
            push_char(out, '\\');
            push_char(out, '\\');
        } else if c == '\u{8}' {
            push_char(out, '\\');
            push_char(out, 'b');
        } else if c == '\t' {
            push_char(out, '\\');
            push_char(out, 't');
        } else if c == '\n' {
            push_char(out, '\\');
            push_char(out, 'n');
        } else if c == '\u{c}' {
            push_char(out, '\\');
            push_char(out, 'f');
        } else if c == '\r' {
            push_char(out, '\\');
            push_char(out, 'r');
        } else if (c as u32) < 0x20 {
            push_char(out, '\\');
            push_char(out, 'u');
            push_char(out, '0');
            push_char(out, '0');
            push_char(out, hex_digit(((c as u32) / 16) as u8));
            push_char(out, hex_digit(((c as u32) % 16) as u8));
        } else {
            push_char(out, c);
        }
        i = i + 1;
        proof {
            assert(s@.take(i as int) =~= s@.take(i - 1).push(s@[i - 1]));
            lemma_json_escape_push(s@.take(i - 1), s@[i - 1]);
            assert(out@ =~= old(out)@ + (spec_json_escape(s@.take(i - 1)) + spec_escaped_char(
                s@[i - 1],
            )));
        }
    }
    proof {
        assert(s@.take(s@.len() as int) =~= s@);
    }
}

/// The lower-case hex digit for a value below 16.
fn hex_digit(n: u8) -> (c: char)
    requires
        n < 16,
    ensures
        c == spec_hex_digit(n as int),
{
    if n == 0 {
        '0'
    } else if n == 1 {
        '1'
    } else if n == 2 {
        '2'
    } else if n == 3 {
        '3'
    } else if n == 4 {
        '4'
    } else if n == 5 {
        '5'
    } else if n == 6 {
        '6'
    } else if n == 7 {
        '7'
    } else if n == 8 {
        '8'
    } else if n == 9 {
        '9'
    } else if n == 10 {
        'a'
    } else if n == 11 {
        'b'
    } else if n == 12 {
        'c'
    } else if n == 13 {
        'd'
    } else if n == 14 {
        'e'
    } else {
        'f'
    }
}

/// Appends a JSON string literal to the output.
fn write_json_string(s: &str, out: &mut String)
    ensures
        final(out)@ == old(out)@ + spec_json_string(s@),
{
    push_char(out, '"');
    write_json_escaped(s, out);
    push_char(out, '"');
    proof {
        assert(out@ =~= old(out)@ + spec_json_string(s@));
    }
}

/// Appends the compact JSON text of the value to the output.
#[verifier::loop_isolation(false)]
pub fn write_compact(v: &JsonValue, out: &mut String)
    ensures
        final(out)@ == old(out)@ + spec_compact(v@),
    decreases *v,
{
    match v {
        JsonValue::Null => {
            out.append("null");
        },
        JsonValue::Bool(b) => {
            if *b {
                out.append("true");
            } else {
                out.append("false");
            }
        },
        JsonValue::Num(s) => {
            out.append(s.as_str());
        },
        JsonValue::Str(s) => {
            write_json_string(s.as_str(), out);
        },
        JsonValue::Arr(items) => {
            push_char(out, '[');
            let ghost entry = out@;
            let mut i: usize = 0;
            proof {
                crate::json::lemma_arr_view_index(items@);
                assert(entry + spec_compact_items(JsonValue::arr_view(items@).take(0)) =~= entry);
            }
            while i < items.len()
                invariant
                    i <= items@.len(),
                    JsonValue::arr_view(items@).len() == items@.len(),
                    forall|k: int|
                        0 <= k < items@.len() ==> JsonValue::arr_view(items@)[k]
                            == items@[k].view_rec(),
                    out@ == entry + spec_compact_items(
                        JsonValue::arr_view(items@).take(i as int),
                    ),
                decreases items@.len() - i,
            {
                if i > 0 {
                    push_char(out, ',');
                }
                proof {
                    assert(*items == v->Arr_0);
                    assert(decreases_to!(*v => v->Arr_0));
                    assert(decreases_to!(*items => items@[i as int]));
                    assert(decreases_to!(*v => items@[i as int]));
                }
                write_compact(&items[i], out);
                i = i + 1;
                proof {
                    lemma_compact_items_take(JsonValue::arr_view(items@), i as int);
                }
            }
            push_char(out, ']');
            proof {
                assert(JsonValue::arr_view(items@).take(items@.len() as int) =~= JsonValue::arr_view(items@));
                assert(out@ =~= old(out)@ + spec_compact(v@));
            }
        },
        JsonValue::Obj(pairs) => {
            push_char(out, '{');
            let ghost entry = out@;
            let mut i: usize = 0;
            proof {
                crate::json::lemma_obj_view_index(pairs@);
                assert(entry + spec_compact_pairs(JsonValue::obj_view(pairs@).take(0)) =~= entry);
            }
            while i < pairs.len()
                invariant
                    i <= pairs@.len(),
                    JsonValue::obj_view(pairs@).len() == pairs@.len(),
                    forall|k: int|
                        0 <= k < pairs@.len() ==> JsonValue::obj_view(pairs@)[k] == (
                        pairs@[k].0@,
                        pairs@[k].1.view_rec(),
                        ),
                    out@ == entry + spec_compact_pairs(
                        JsonValue::obj_view(pairs@).take(i as int),
                    ),
                decreases pairs@.len() - i,
            {
                if i > 0 {
                    push_char(out, ',');
                }
                write_json_string(pairs[i].0.as_str(), out);
                push_char(out, ':');
                proof {
                    assert(*pairs == v->Obj_0);
                    assert(decreases_to!(*v => v->Obj_0));
                    assert(decreases_to!(*pairs => pairs@[i as int]));
                    assert(decreases_to!(pairs@[i as int] => pairs@[i as int].1));
                    assert(decreases_to!(*v => pairs@[i as int].1));
                }
                write_compact(&pairs[i].1, out);
                i = i + 1;
                proof {
                    lemma_compact_pairs_take(JsonValue::obj_view(pairs@), i as int);
                }
            }
            push_char(out, '}');
            proof {
                assert(JsonValue::obj_view(pairs@).take(pairs@.len() as int) =~= JsonValue::obj_view(pairs@));
                assert(out@ =~= old(out)@ + spec_compact(v@));
            }
        },
    }
}

/// One more element extends the compact array text by a separator (except
/// for the first) and the element's text.
proof fn lemma_compact_items_take(items: Seq<JsonNode>, i: int)
    requires
        0 < i <= items.len(),
    ensures
        spec_compact_items(items.take(i)) == if i == 1 {
            spec_compact(items[0])
        } else {
            spec_compact_items(items.take(i - 1)) + seq![','] + spec_compact(items[i - 1])
        },
    decreases i,
{
    if i == 1 {
        assert(items.take(1)[0] == items[0]);
        assert(items.take(1).len() == 1);
    } else {
        lemma_compact_items_take(items.drop_first(), i - 1);
        assert(items.take(i).drop_first() =~= items.drop_first().take(i - 1));
        assert(items.take(i - 1).drop_first() =~= items.drop_first().take(i - 2));
        if i == 2 {
            assert(spec_compact_items(items.take(2)) == spec_compact(items[0]) + seq![',']
                + spec_compact_items(items.drop_first().take(1)));
            assert(items.drop_first().take(1)[0] == items[1]);
            assert(items.drop_first().take(1).len() == 1);
            assert(spec_compact_items(items.take(1)) == spec_compact(items.take(1)[0]));
            assert(items.take(1)[0] == items[0]);
        } else {
            assert(items.drop_first()[i - 2] == items[i - 1]);
            assert(spec_compact_items(items.take(i)) == spec_compact(items[0]) + seq![',']
                + spec_compact_items(items.drop_first().take(i - 1)));
            assert(spec_compact(items[0]) + seq![','] + (spec_compact_items(
                items.drop_first().take(i - 2),
            ) + seq![','] + spec_compact(items[i - 1])) =~= (spec_compact(items[0]) + seq![',']
                + spec_compact_items(items.drop_first().take(i - 2))) + seq![','] + spec_compact(
                items[i - 1],
            ));
        }
    }
}

/// One more member extends the compact object text likewise.
proof fn lemma_compact_pairs_take(pairs: Seq<(Seq<char>, JsonNode)>, i: int)
    requires
        0 < i <= pairs.len(),
    ensures
        spec_compact_pairs(pairs.take(i)) == if i == 1 {
            spec_json_string(pairs[0].0) + seq![':'] + spec_compact(pairs[0].1)
        } else {
            spec_compact_pairs(pairs.take(i - 1)) + seq![','] + (spec_json_string(pairs[i - 1].0)
                + seq![':'] + spec_compact(pairs[i - 1].1))
        },
    decreases i,
{
    let member0 = spec_json_string(pairs[0].0) + seq![':'] + spec_compact(pairs[0].1);
    if i == 1 {
        assert(pairs.take(1)[0] == pairs[0]);
        assert(pairs.take(1).len() == 1);
    } else {
        lemma_compact_pairs_take(pairs.drop_first(), i - 1);
        assert(pairs.take(i).drop_first() =~= pairs.drop_first().take(i - 1));
        let memberlast = spec_json_string(pairs[i - 1].0) + seq![':'] + spec_compact(
            pairs[i - 1].1,
        );
        if i == 2 {
            assert(pairs.drop_first().take(1)[0] == pairs[1]);
            assert(pairs.drop_first().take(1).len() == 1);
            assert(pairs.take(1)[0] == pairs[0]);
            assert(pairs.take(1).len() == 1);
            assert(spec_compact_pairs(pairs.take(2)) == member0 + seq![','] + spec_compact_pairs(
                pairs.drop_first().take(1),
            ));
        } else {
            assert(pairs.drop_first()[i - 2] == pairs[i - 1]);
            assert(pairs.take(i)[0] == pairs[0]);
            assert(pairs.take(i - 1)[0] == pairs[0]);
            assert(pairs.take(i - 1).drop_first() =~= pairs.drop_first().take(i - 2));
            assert(spec_compact_pairs(pairs.take(i)) == member0 + seq![','] + spec_compact_pairs(
                pairs.drop_first().take(i - 1),
            ));
            assert(spec_compact_pairs(pairs.take(i - 1)) == member0 + seq![',']
                + spec_compact_pairs(pairs.drop_first().take(i - 2)));
            assert(member0 + seq![','] + (spec_compact_pairs(pairs.drop_first().take(i - 2))
                + seq![','] + memberlast) =~= (member0 + seq![','] + spec_compact_pairs(
                pairs.drop_first().take(i - 2),
            )) + seq![','] + memberlast);
        }
    }
}

/// The compact JSON text of a value.
pub fn to_compact_string(v: &JsonValue) -> (r: String)
    ensures
        r@ == spec_compact(v@),
{
    let mut out = String::new();
    write_compact(v, &mut out);
    out
}

} // verus!
