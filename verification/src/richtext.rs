//! Rich-text fields: HTML rendering and whitespace normalization.
//!
//! Description-like fields arrive as HTML. They are rendered to plain text by
//! an outside renderer and then normalized: carriage returns become newlines,
//! tabs become single spaces, box-drawing dashes become plain dashes, runs of
//! spaces and of newlines collapse, spaces around newlines are stripped,
//! separator lines of three or more dashes collapse to exactly three, image
//! placeholders are removed, and the result is trimmed.

use vstd::prelude::*;
use crate::text::{chars_of, string_of_chars};

verus! {

/// The plain-text rendering of the HTML (or the rendering failure), as a
/// function of the markup alone.
pub uninterp spec fn html_text_of(html: Seq<char>) -> Option<Seq<char>>;

/// Relies on `html2text::from_read`: renders HTML markup, read from the
/// given text's bytes, to plain text with unbounded line width. Whether it
/// returns text or a rendering error depends on the input alone.
#[verifier::external_body]
pub(crate) fn html_to_text(html: &str) -> (r: Option<String>)
    ensures
        match r {
            Option::Some(t) => html_text_of(html@) == Option::Some(t@),
            Option::None => html_text_of(html@) is None,
        },
{
    html2text::from_read(html.as_bytes(), usize::MAX).ok()
}

/// The sequence with every occurrence of one character replaced by another.
pub open spec fn spec_replace_char(s: Seq<char>, from: char, to: char) -> Seq<char> {
    s.map_values(
        |c: char| if c == from {
            to
        } else {
            c
        },
    )
}

/// Replaces every occurrence of one character by another.
pub fn replace_char(v: &Vec<char>, from: char, to: char) -> (out: Vec<char>)
    ensures
        out@ == spec_replace_char(v@, from, to),
{
    let mut out: Vec<char> = Vec::new();
    let mut i: usize = 0;
    while i < v.len()
        invariant
            i <= v@.len(),
            out@ =~= spec_replace_char(v@.take(i as int), from, to),
        decreases v@.len() - i,
    {
        let c = v[i];
        if c == from {
            out.push(to);
        } else {
            out.push(c);
        }
        i = i + 1;
        proof {
            assert(out@ =~= spec_replace_char(v@.take(i as int), from, to));
        }
    }
    proof {
        assert(v@.take(v@.len() as int) =~= v@);
    }
    out
}

/// The sequence with every run of the character collapsed to one occurrence.
pub open spec fn spec_collapse_runs(s: Seq<char>, c: char) -> Seq<char>
    decreases s.len(),
{
    if s.len() == 0 {
        Seq::empty()
    } else if s.len() >= 2 && s[0] == c && s[1] == c {
        spec_collapse_runs(s.drop_first(), c)
    } else {
        seq![s[0]] + spec_collapse_runs(s.drop_first(), c)
    }
}

/// Collapses every run of the character to one occurrence.
pub fn collapse_runs(v: &Vec<char>, c: char) -> (out: Vec<char>)
    ensures
        out@ == spec_collapse_runs(v@, c),
{
    let mut out: Vec<char> = Vec::new();
    let mut i: usize = 0;
    proof {
        assert(v@.skip(0) =~= v@);
    }
    while i < v.len()
        invariant
            i <= v@.len(),
            spec_collapse_runs(v@, c) == out@ + spec_collapse_runs(v@.skip(i as int), c),
        decreases v@.len() - i,
    {
        let x = v[i];
        proof {
            assert(v@.skip(i as int)[0] == v@[i as int]);
            assert(v@.skip(i as int).drop_first() =~= v@.skip(i + 1));
        }
        if x == c && i + 1 < v.len() && v[i + 1] == c {
            proof {
                assert(v@.skip(i as int)[1] == v@[i + 1]);
                assert(spec_collapse_runs(v@.skip(i as int), c) == spec_collapse_runs(
                    v@.skip(i + 1),
                    c,
                ));
            }
        } else {
            out.push(x);
            proof {
                assert(spec_collapse_runs(v@.skip(i as int), c) == seq![x] + spec_collapse_runs(
                    v@.skip(i + 1),
                    c,
                ));
                assert(out@ + spec_collapse_runs(v@.skip(i + 1), c) =~= out@.drop_last() + (seq![x]
                    + spec_collapse_runs(v@.skip(i + 1), c)));
            }
        }
        i = i + 1;
    }
    proof {
        assert(v@.skip(v@.len() as int) =~= Seq::<char>::empty());
        assert(out@ + Seq::<char>::empty() =~= out@);
    }
    out
}

/// The sequence without its leading run of the character.
pub open spec fn spec_drop_leading(s: Seq<char>, c: char) -> Seq<char>
    decreases s.len(),
{
    if s.len() > 0 && s[0] == c {
        spec_drop_leading(s.drop_first(), c)
    } else {
        s
    }
}

/// Dropping a leading run never lengthens a sequence, and shortens it when
/// the first character matches.
pub proof fn lemma_drop_leading_len(s: Seq<char>, c: char)
    ensures
        spec_drop_leading(s, c).len() <= s.len(),
        s.len() > 0 && s[0] == c ==> spec_drop_leading(s, c).len() < s.len(),
    decreases s.len(),
{
    if s.len() > 0 && s[0] == c {
        lemma_drop_leading_len(s.drop_first(), c);
    }
}

/// A leading run of `k` matching characters is exactly what gets dropped.
pub proof fn lemma_drop_leading_skip(s: Seq<char>, c: char, k: int)
    requires
        0 <= k <= s.len(),
        forall|j: int| 0 <= j < k ==> s[j] == c,
        k == s.len() || s[k] != c,
    ensures
        spec_drop_leading(s, c) == s.skip(k),
    decreases k,
{
    if k == 0 {
        assert(s.skip(0) =~= s);
    } else {
        assert(s.drop_first() =~= s.skip(1));
        lemma_drop_leading_skip(s.skip(1), c, k - 1);
        assert(s.skip(1).skip(k - 1) =~= s.skip(k));
    }
}

/// The sequence with every run of spaces directly after a newline removed.
pub open spec fn spec_strip_after_newline(s: Seq<char>) -> Seq<char>
    decreases s.len(),
{
    if s.len() == 0 {
        Seq::empty()
    } else if s[0] == '\n' {
        proof {
            lemma_drop_leading_len(s.drop_first(), ' ');
        }
        seq!['\n'] + spec_strip_after_newline(spec_drop_leading(s.drop_first(), ' '))
    } else {
        seq![s[0]] + spec_strip_after_newline(s.drop_first())
    }
}

/// Removes every run of spaces that directly follows a newline.
pub fn strip_after_newline(v: &Vec<char>) -> (out: Vec<char>)
    ensures
        out@ == spec_strip_after_newline(v@),
{
    let mut out: Vec<char> = Vec::new();
    let mut i: usize = 0;
    proof {
        assert(v@.skip(0) =~= v@);
    }
    while i < v.len()
        invariant
            i <= v@.len(),
            spec_strip_after_newline(v@) == out@ + spec_strip_after_newline(v@.skip(i as int)),
        decreases v@.len() - i,
    {
        let x = v[i];
        out.push(x);
        let ghost i0 = i as int;
        proof {
            assert(v@.skip(i0).drop_first() =~= v@.skip(i0 + 1));
        }
        i = i + 1;
        if x == '\n' {
            while i < v.len() && v[i] == ' '
                invariant
                    i0 + 1 <= i <= v@.len(),
                    forall|j: int| i0 + 1 <= j < i ==> v@[j] == ' ',
                decreases v@.len() - i,
            {
                i = i + 1;
            }
            proof {
                lemma_drop_leading_skip(v@.skip(i0 + 1), ' ', i - i0 - 1);
                assert(v@.skip(i0 + 1).skip(i - i0 - 1) =~= v@.skip(i as int));
                assert(v@.skip(i0)[0] == v@[i0]);
                assert(spec_strip_after_newline(v@.skip(i0)) == seq!['\n']
                    + spec_strip_after_newline(v@.skip(i as int)));
                assert(out@ + spec_strip_after_newline(v@.skip(i as int)) =~= out@.drop_last() + (
                seq!['\n'] + spec_strip_after_newline(v@.skip(i as int))));
            }
        } else {
            proof {
                assert(v@.skip(i0)[0] == v@[i0]);
                assert(spec_strip_after_newline(v@.skip(i0)) == seq![x]
                    + spec_strip_after_newline(v@.skip(i as int)));
                assert(out@ + spec_strip_after_newline(v@.skip(i as int)) =~= out@.drop_last() + (
                seq![x] + spec_strip_after_newline(v@.skip(i as int))));
            }
        }
    }
    proof {
        assert(v@.skip(v@.len() as int) =~= Seq::<char>::empty());
        assert(out@ + Seq::<char>::empty() =~= out@);
    }
    out
}

/// The sequence with every run of spaces directly before a newline removed.
pub open spec fn spec_strip_before_newline(s: Seq<char>) -> Seq<char>
    decreases s.len(),
{
    if s.len() == 0 {
        Seq::empty()
    } else if s[0] == ' ' {
        proof {
            lemma_drop_leading_len(s, ' ');
        }
        let rest = spec_drop_leading(s, ' ');
        if rest.len() > 0 && rest[0] == '\n' {
            spec_strip_before_newline(rest)
        } else {
            s.take(s.len() - rest.len()) + spec_strip_before_newline(rest)
        }
    } else {
        seq![s[0]] + spec_strip_before_newline(s.drop_first())
    }
}

/// Removes every run of spaces that directly precedes a newline.
pub fn strip_before_newline(v: &Vec<char>) -> (out: Vec<char>)
    ensures
        out@ == spec_strip_before_newline(v@),
{
    let mut out: Vec<char> = Vec::new();
    let mut i: usize = 0;
    proof {
        assert(v@.skip(0) =~= v@);
    }
    while i < v.len()
        invariant
            i <= v@.len(),
            spec_strip_before_newline(v@) == out@ + spec_strip_before_newline(v@.skip(i as int)),
        decreases v@.len() - i,
    {
        let x = v[i];
        let ghost i0 = i as int;
        if x == ' ' {
            let mut j: usize = i;
            while j < v.len() && v[j] == ' '
                invariant
                    i0 <= j <= v@.len(),
                    forall|k: int| i0 <= k < j ==> v@[k] == ' ',
                decreases v@.len() - j,
            {
                j = j + 1;
            }
            proof {
                lemma_drop_leading_skip(v@.skip(i0), ' ', j - i0);
                assert(v@.skip(i0).skip(j - i0) =~= v@.skip(j as int));
            }
            if j < v.len() && v[j] == '\n' {
                proof {
                    assert(v@.skip(j as int)[0] == v@[j as int]);
                    assert(v@.skip(i0)[0] == v@[i0]);
                    assert(spec_strip_before_newline(v@.skip(i0)) == spec_strip_before_newline(
                        v@.skip(j as int),
                    ));
                }
                i = j;
            } else {
                let ghost run = v@.skip(i0).take(j - i0);
                let ghost out0 = out@;
                proof {
                    assert(out0 + v@.subrange(i0, i0) =~= out0);
                }
                while i < j
                    invariant
                        0 <= i0 <= i <= j <= v@.len(),
                        forall|k: int| i0 <= k < j ==> v@[k] == ' ',
                        out@ == out0 + v@.subrange(i0, i as int),
                    decreases j - i,
                {
                    out.push(v[i]);
                    i = i + 1;
                    proof {
                        assert(out@ =~= out0 + v@.subrange(i0, i as int));
                    }
                }
                proof {
                    if j < v@.len() {
                        assert(v@.skip(j as int)[0] == v@[j as int]);
                    }
                    assert(v@.skip(j as int).len() == 0 || v@.skip(j as int)[0] != '\n');
                    assert(v@.skip(i0)[0] == v@[i0]);
                    assert(v@.skip(i0).take(v@.skip(i0).len() - v@.skip(j as int).len()) =~= run);
                    assert(spec_strip_before_newline(v@.skip(i0)) == run
                        + spec_strip_before_newline(v@.skip(j as int)));
                    assert(out@ =~= out0 + run);
                    assert(out@ + spec_strip_before_newline(v@.skip(j as int)) =~= out0 + (run
                        + spec_strip_before_newline(v@.skip(j as int))));
                }
            }
        } else {
            out.push(x);
            i = i + 1;
            proof {
                assert(v@.skip(i0)[0] == v@[i0]);
                assert(v@.skip(i0).drop_first() =~= v@.skip(i0 + 1));
                assert(spec_strip_before_newline(v@.skip(i0)) == seq![x]
                    + spec_strip_before_newline(v@.skip(i0 + 1)));
                assert(out@ + spec_strip_before_newline(v@.skip(i0 + 1)) =~= out@.drop_last() + (
                seq![x] + spec_strip_before_newline(v@.skip(i0 + 1))));
            }
        }
    }
    proof {
        assert(v@.skip(v@.len() as int) =~= Seq::<char>::empty());
        assert(out@ + Seq::<char>::empty() =~= out@);
    }
    out
}

/// The sequence with every run of three or more dashes directly before a
/// newline collapsed to exactly three dashes.
pub open spec fn spec_collapse_dashes(s: Seq<char>) -> Seq<char>
    decreases s.len(),
{
    if s.len() == 0 {
        Seq::empty()
    } else if s[0] == '-' {
        proof {
            lemma_drop_leading_len(s, '-');
        }
        let rest = spec_drop_leading(s, '-');
        let run = s.len() - rest.len();
        if run >= 3 && rest.len() > 0 && rest[0] == '\n' {
            seq!['-', '-', '-'] + spec_collapse_dashes(rest)
        } else {
            s.take(run) + spec_collapse_dashes(rest)
        }
    } else {
        seq![s[0]] + spec_collapse_dashes(s.drop_first())
    }
}

/// Collapses every run of three or more dashes directly before a newline to
/// exactly three dashes.
pub fn collapse_dashes(v: &Vec<char>) -> (out: Vec<char>)
    ensures
        out@ == spec_collapse_dashes(v@),
{
    let mut out: Vec<char> = Vec::new();
    let mut i: usize = 0;
    proof {
        assert(v@.skip(0) =~= v@);
    }
    while i < v.len()
        invariant
            i <= v@.len(),
            spec_collapse_dashes(v@) == out@ + spec_collapse_dashes(v@.skip(i as int)),
        decreases v@.len() - i,
    {
        let x = v[i];
        let ghost i0 = i as int;
        if x == '-' {
            let mut j: usize = i;
            while j < v.len() && v[j] == '-'
                invariant
                    i0 <= j <= v@.len(),
                    forall|k: int| i0 <= k < j ==> v@[k] == '-',
                decreases v@.len() - j,
            {
                j = j + 1;
            }
            proof {
                lemma_drop_leading_skip(v@.skip(i0), '-', j - i0);
                assert(v@.skip(i0).skip(j - i0) =~= v@.skip(j as int));
                if j < v.len() {
                    assert(v@.skip(j as int)[0] == v@[j as int]);
                }
            }
            if j - i >= 3 && j < v.len() && v[j] == '\n' {
                let ghost out0 = out@;
                out.push('-');
                out.push('-');
                out.push('-');
                proof {
                    assert(v@.skip(i0)[0] == v@[i0]);
                    assert(spec_collapse_dashes(v@.skip(i0)) == seq!['-', '-', '-']
                        + spec_collapse_dashes(v@.skip(j as int)));
                    assert(out@ =~= out0 + seq!['-', '-', '-']);
                    assert(out@ + spec_collapse_dashes(v@.skip(j as int)) =~= out0 + (seq![
                        '-',
                        '-',
                        '-',
                    ] + spec_collapse_dashes(v@.skip(j as int))));
                }
                i = j;
            } else {
                let ghost run = v@.skip(i0).take(j - i0);
                let ghost out0 = out@;
                proof {
                    assert(out0 + v@.subrange(i0, i0) =~= out0);
                }
                while i < j
                    invariant
                        0 <= i0 <= i <= j <= v@.len(),
                        forall|k: int| i0 <= k < j ==> v@[k] == '-',
                        out@ == out0 + v@.subrange(i0, i as int),
                    decreases j - i,
                {
                    out.push(v[i]);
                    i = i + 1;
                    proof {
                        assert(out@ =~= out0 + v@.subrange(i0, i as int));
                    }
                }
                proof {
                    assert(v@.skip(i0)[0] == v@[i0]);
                    assert(v@.skip(i0).take(v@.skip(i0).len() - v@.skip(j as int).len()) =~= run);
                    assert(spec_collapse_dashes(v@.skip(i0)) == run + spec_collapse_dashes(
                        v@.skip(j as int),
                    ));
                    assert(out@ =~= out0 + run);
                    assert(out@ + spec_collapse_dashes(v@.skip(j as int)) =~= out0 + (run
                        + spec_collapse_dashes(v@.skip(j as int))));
                }
            }
        } else {
            out.push(x);
            i = i + 1;
            proof {
                assert(v@.skip(i0)[0] == v@[i0]);
                assert(v@.skip(i0).drop_first() =~= v@.skip(i0 + 1));
                assert(spec_collapse_dashes(v@.skip(i0)) == seq![x] + spec_collapse_dashes(
                    v@.skip(i0 + 1),
                ));
                assert(out@ + spec_collapse_dashes(v@.skip(i0 + 1)) =~= out@.drop_last() + (seq![x]
                    + spec_collapse_dashes(v@.skip(i0 + 1))));
            }
        }
    }
    proof {
        assert(v@.skip(v@.len() as int) =~= Seq::<char>::empty());
        assert(out@ + Seq::<char>::empty() =~= out@);
    }
    out
}

/// Whether an image placeholder, in any letter case, starts at the front.
pub open spec fn spec_image_at(s: Seq<char>) -> bool {
    s.len() >= 7 && s[0] == '[' && (s[1] == 'i' || s[1] == 'I') && (s[2] == 'm' || s[2] == 'M') && (
    s[3] == 'a' || s[3] == 'A') && (s[4] == 'g' || s[4] == 'G') && (s[5] == 'e' || s[5] == 'E')
        && s[6] == ']'
}

/// The sequence with every image placeholder removed, scanning left to
/// right without revisiting earlier text.
pub open spec fn spec_remove_images(s: Seq<char>) -> Seq<char>
    decreases s.len(),
{
    if s.len() == 0 {
        Seq::empty()
    } else if spec_image_at(s) {
        spec_remove_images(s.skip(7))
    } else {
        seq![s[0]] + spec_remove_images(s.drop_first())
    }
}

/// Removes every `[image]` placeholder, in any letter case.
pub fn remove_images(v: &Vec<char>) -> (out: Vec<char>)
    ensures
        out@ == spec_remove_images(v@),
{
    let mut out: Vec<char> = Vec::new();
    let mut i: usize = 0;
    proof {
        assert(v@.skip(0) =~= v@);
    }
    while i < v.len()
        invariant
            i <= v@.len(),
            spec_remove_images(v@) == out@ + spec_remove_images(v@.skip(i as int)),
        decreases v@.len() - i,
    {
        let ghost i0 = i as int;
        let here = v.len() - i >= 7 && v[i] == '[' && (v[i + 1] == 'i' || v[i + 1] == 'I') && (v[i
            + 2] == 'm' || v[i + 2] == 'M') && (v[i + 3] == 'a' || v[i + 3] == 'A') && (v[i + 4]
            == 'g' || v[i + 4] == 'G') && (v[i + 5] == 'e' || v[i + 5] == 'E') && v[i + 6] == ']';
        proof {
            assert(forall|k: int|
                0 <= k < v@.skip(i0).len() ==> v@.skip(i0)[k] == v@[i0 + k]);
            assert(here == spec_image_at(v@.skip(i0)));
        }
        if here {
            i = i + 7;
            proof {
                assert(v@.skip(i0).skip(7) =~= v@.skip(i0 + 7));
                assert(spec_remove_images(v@.skip(i0)) == spec_remove_images(v@.skip(i0 + 7)));
            }
        } else {
            out.push(v[i]);
            i = i + 1;
            proof {
                assert(v@.skip(i0)[0] == v@[i0]);
                assert(v@.skip(i0).drop_first() =~= v@.skip(i0 + 1));
                assert(spec_remove_images(v@.skip(i0)) == seq![v@[i0]] + spec_remove_images(
                    v@.skip(i0 + 1),
                ));
                assert(out@ + spec_remove_images(v@.skip(i0 + 1)) =~= out@.drop_last() + (seq![
                    v@[i0],
                ] + spec_remove_images(v@.skip(i0 + 1))));
            }
        }
    }
    proof {
        assert(v@.skip(v@.len() as int) =~= Seq::<char>::empty());
        assert(out@ + Seq::<char>::empty() =~= out@);
    }
    out
}

/// Whether the character counts as whitespace for trimming.
pub open spec fn spec_is_white(c: char) -> bool {
    c == ' ' || c == '\t' || c == '\n' || c == '\r' || c == '\u{b}' || c == '\u{c}' || c == '\u{85}'
        || c == '\u{a0}' || c == '\u{1680}' || ('\u{2000}' <= c && c <= '\u{200a}') || c
        == '\u{2028}' || c == '\u{2029}' || c == '\u{202f}' || c == '\u{205f}' || c == '\u{3000}'
}

/// Whether the character counts as whitespace for trimming.
pub fn is_white(c: char) -> (r: bool)
    ensures
        r == spec_is_white(c),
{
    c == ' ' || c == '\t' || c == '\n' || c == '\r' || c == '\u{b}' || c == '\u{c}' || c == '\u{85}'
        || c == '\u{a0}' || c == '\u{1680}' || ('\u{2000}' <= c && c <= '\u{200a}') || c
        == '\u{2028}' || c == '\u{2029}' || c == '\u{202f}' || c == '\u{205f}' || c == '\u{3000}'
}

/// The sequence without leading whitespace.
pub open spec fn spec_trim_front(s: Seq<char>) -> Seq<char>
    decreases s.len(),
{
    if s.len() > 0 && spec_is_white(s[0]) {
        spec_trim_front(s.drop_first())
    } else {
        s
    }
}

/// The sequence without trailing whitespace.
pub open spec fn spec_trim_back(s: Seq<char>) -> Seq<char>
    decreases s.len(),
{
    if s.len() > 0 && spec_is_white(s.last()) {
        spec_trim_back(s.drop_last())
    } else {
        s
    }
}

/// The sequence without leading and trailing whitespace.
pub open spec fn spec_trim(s: Seq<char>) -> Seq<char> {
    spec_trim_back(spec_trim_front(s))
}

/// A whitespace prefix of length `k` is exactly what the front trim drops.
proof fn lemma_trim_front_skip(s: Seq<char>, k: int)
    requires
        0 <= k <= s.len(),
        forall|j: int| 0 <= j < k ==> spec_is_white(s[j]),
        k == s.len() || !spec_is_white(s[k]),
    ensures
        spec_trim_front(s) == s.skip(k),
    decreases k,
{
    if k == 0 {
        assert(s.skip(0) =~= s);
    } else {
        assert(s.drop_first() =~= s.skip(1));
        lemma_trim_front_skip(s.skip(1), k - 1);
        assert(s.skip(1).skip(k - 1) =~= s.skip(k));
    }
}

/// A whitespace suffix is exactly what the back trim drops.
proof fn lemma_trim_back_take(s: Seq<char>, k: int)
    requires
        0 <= k <= s.len(),
        forall|j: int| k <= j < s.len() ==> spec_is_white(s[j]),
        k == 0 || !spec_is_white(s[k - 1]),
    ensures
        spec_trim_back(s) == s.take(k),
    decreases s.len() - k,
{
    if k == s.len() {
        assert(s.take(k) =~= s);
    } else {
        assert(s.drop_last() =~= s.take(s.len() - 1));
        lemma_trim_back_take(s.take(s.len() - 1), k);
        assert(s.take(s.len() - 1).take(k) =~= s.take(k));
    }
}

/// Removes leading and trailing whitespace.
pub fn trim(v: &Vec<char>) -> (out: Vec<char>)
    ensures
        out@ == spec_trim(v@),
{
    let mut a: usize = 0;
    while a < v.len() && is_white(v[a])
        invariant
            a <= v@.len(),
            forall|j: int| 0 <= j < a ==> spec_is_white(v@[j]),
        decreases v@.len() - a,
    {
        a = a + 1;
    }
    proof {
        lemma_trim_front_skip(v@, a as int);
    }
    let mut b: usize = v.len();
    while b > a && is_white(v[b - 1])
        invariant
            a <= b <= v@.len(),
            forall|j: int| b <= j < v@.len() ==> spec_is_white(v@[j]),
        decreases b,
    {
        b = b - 1;
    }
    let ghost front = v@.skip(a as int);
    proof {
        if b == a {
            lemma_trim_back_take(front, 0);
        } else {
            lemma_trim_back_take(front, b - a);
        }
    }
    let mut out: Vec<char> = Vec::new();
    let mut i: usize = a;
    while i < b
        invariant
            a <= i <= b <= v@.len(),
            out@ =~= v@.subrange(a as int, i as int),
        decreases b - i,
    {
        out.push(v[i]);
        i = i + 1;
        proof {
            assert(out@ =~= v@.subrange(a as int, i as int));
        }
    }
    proof {
        assert(out@ =~= front.take(b - a));
    }
    out
}

/// The trimmed text, or nothing when only whitespace remains; callers
/// reject such input as an empty required field.
pub fn non_empty_trimmed(s: &str) -> (r: Option<String>)
    ensures
        match r {
            Option::Some(t) => t@ == spec_trim(s@) && spec_trim(s@).len() > 0,
            Option::None => spec_trim(s@).len() == 0,
        },
{
    let chars = chars_of(s);
    let trimmed = trim(&chars);
    if trimmed.len() == 0 {
        Option::None
    } else {
        Option::Some(string_of_chars(&trimmed))
    }
}

/// The full normalization of rendered rich text, in pass order.
pub open spec fn spec_normalize_text(s: Seq<char>) -> Seq<char> {
    spec_trim(
        spec_remove_images(
            spec_collapse_dashes(
                spec_strip_before_newline(
                    spec_strip_after_newline(
                        spec_collapse_runs(
                            spec_collapse_runs(
                                spec_replace_char(
                                    spec_replace_char(spec_replace_char(s, '\r', '\n'), '\t', ' '),
                                    '\u{2500}',
                                    '-',
                                ),
                                ' ',
                            ),
                            '\n',
                        ),
                    ),
                ),
            ),
        ),
    )
}

/// Normalizes rendered rich text for compact tabular output.
pub fn normalize_plain_text(s: &str) -> (r: String)
    ensures
        r@ == spec_normalize_text(s@),
{
    let v0 = chars_of(s);
    let v1 = replace_char(&v0, '\r', '\n');
    let v2 = replace_char(&v1, '\t', ' ');
    let v3 = replace_char(&v2, '\u{2500}', '-');
    let v4 = collapse_runs(&v3, ' ');
    let v5 = collapse_runs(&v4, '\n');
    let v6 = strip_after_newline(&v5);
    let v7 = strip_before_newline(&v6);
    let v8 = collapse_dashes(&v7);
    let v9 = remove_images(&v8);
    let v10 = trim(&v9);
    string_of_chars(&v10)
}

} // verus!
