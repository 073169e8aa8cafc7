//! The block renderer.
//!
//! Consumes a body line by line, maintaining the renderer state (inside
//! a fenced code block, inside a list block and of which kind), and
//! emits block-level markup, delegating paragraph and list-item text to
//! the inline formatter.  Known leniencies are kept: unterminated code
//! blocks and list blocks are auto-closed after the last line, and a
//! run that switches between unordered and ordered items with no blank
//! line in between keeps emitting items under the tag that was opened
//! first.

use vstd::prelude::*;

use crate::chars::all_digits;
use crate::chars::all_digits_in;
use crate::chars::append_str;
use crate::chars::append_vec;
use crate::chars::chars_to_string;
use crate::chars::find_char;
use crate::chars::find_in;
use crate::chars::lemma_find_char_le;
use crate::chars::spec_lines;
use crate::chars::spec_starts_with;
use crate::chars::spec_trim;
use crate::chars::split_lines;
use crate::chars::starts_with_str;
use crate::chars::subrange_in;
use crate::chars::to_chars;
use crate::chars::trim_in;
use crate::inline::inline_chars;
use crate::inline::spec_inline;

verus! {

/// Which list block is currently open, if any.
#[derive(Clone, Copy, PartialEq, Eq, Structural)]
pub enum ListKind {
    NoList,
    Unordered,
    Ordered,
}

/// The closing tag owed for an open list block.
pub open spec fn close_list(k: ListKind) -> Seq<char> {
    match k {
        ListKind::NoList => Seq::<char>::empty(),
        ListKind::Unordered => "</ul>\n"@,
        ListKind::Ordered => "</ol>\n"@,
    }
}

/// Whether a trimmed line is an ordered-list item: the text up to the
/// first `.` is entirely decimal digits and a `. ` follows it.
pub open spec fn is_ordered_item(t: Seq<char>) -> bool {
    let d = find_char(t, '.') as int;
    all_digits(t.take(d)) && spec_starts_with(t.skip(d), ". "@)
}

/// Whether the code-block flag is set after one line is processed.
pub open spec fn step_code(line: Seq<char>, in_code: bool) -> bool {
    if spec_starts_with(spec_trim(line), "```"@) {
        !in_code
    } else {
        in_code
    }
}

/// Which list block is open after one line is processed.
pub open spec fn step_list(line: Seq<char>, in_code: bool, list: ListKind) -> ListKind {
    let t = spec_trim(line);
    if spec_starts_with(t, "```"@) || in_code {
        list
    } else if t.len() == 0 {
        ListKind::NoList
    } else if spec_starts_with(t, "### "@) || spec_starts_with(t, "## "@) || spec_starts_with(
        t,
        "# "@,
    ) || spec_starts_with(t, "> "@) {
        list
    } else if spec_starts_with(t, "- "@) {
        if list == ListKind::NoList {
            ListKind::Unordered
        } else {
            list
        }
    } else if is_ordered_item(t) {
        if list == ListKind::NoList {
            ListKind::Ordered
        } else {
            list
        }
    } else {
        list
    }
}

/// What the renderer emits for one line, given the current state.
pub open spec fn step_emit(line: Seq<char>, in_code: bool, list: ListKind) -> Seq<char> {
    let t = spec_trim(line);
    if spec_starts_with(t, "```"@) {
        if in_code {
            "</pre>\n"@
        } else {
            "<pre>\n"@
        }
    } else if in_code {
        t + "\n"@
    } else if t.len() == 0 {
        close_list(list)
    } else if spec_starts_with(t, "### "@) {
        "<h3>"@ + t.skip(4) + "</h3>\n"@
    } else if spec_starts_with(t, "## "@) {
        "<h2>"@ + t.skip(3) + "</h2>\n"@
    } else if spec_starts_with(t, "# "@) {
        "<h1>"@ + t.skip(2) + "</h1>\n"@
    } else if spec_starts_with(t, "> "@) {
        "<blockquote>"@ + t.skip(2) + "</blockquote>\n"@
    } else if spec_starts_with(t, "- "@) {
        let opened = if list == ListKind::NoList {
            "<ul>\n"@
        } else {
            Seq::<char>::empty()
        };
        opened + "<li>"@ + spec_inline(t.skip(2)) + "</li>\n"@
    } else if is_ordered_item(t) {
        let d = find_char(t, '.') as int;
        let opened = if list == ListKind::NoList {
            "<ol>\n"@
        } else {
            Seq::<char>::empty()
        };
        opened + "<li>"@ + spec_inline(t.skip(d + 2)) + "</li>\n"@
    } else {
        "<p>"@ + spec_inline(t) + "</p>\n"@
    }
}

/// What the renderer emits for the lines still to be processed, given
/// the current state: one step per line, then the closing tags owed for
/// whatever the last line left open.
pub open spec fn spec_render_lines(lines: Seq<Seq<char>>, in_code: bool, list: ListKind) -> Seq<
    char,
>
    decreases lines.len(),
{
    if lines.len() == 0 {
        close_list(list) + (if in_code {
            "</pre>\n"@
        } else {
            Seq::<char>::empty()
        })
    } else {
        step_emit(lines[0], in_code, list) + spec_render_lines(
            lines.skip(1),
            step_code(lines[0], in_code),
            step_list(lines[0], in_code, list),
        )
    }
}

/// What `render_markdown` returns for the given body characters.
pub open spec fn spec_render(body: Seq<char>) -> Seq<char> {
    spec_render_lines(spec_lines(body), false, ListKind::NoList)
}

/// Appends the closing tag owed for an open list block, if any.
fn append_close(out: &mut Vec<char>, k: ListKind)
    ensures
        final(out)@ == old(out)@ + close_list(k),
{
    match k {
        ListKind::NoList => {
            proof {
                assert(old(out)@ + close_list(k) =~= old(out)@);
            }
        },
        ListKind::Unordered => {
            append_str(out, "</ul>\n");
        },
        ListKind::Ordered => {
            append_str(out, "</ol>\n");
        },
    }
}

/// Classifies one line, appends its markup, and returns the next state.
#[verifier::rlimit(100)]
fn render_line(out: &mut Vec<char>, line: &Vec<char>, in_code: bool, list: ListKind) -> (st: (
    bool,
    ListKind,
))
    ensures
        final(out)@ == old(out)@ + step_emit(line@, in_code, list),
        st.0 == step_code(line@, in_code),
        st.1 == step_list(line@, in_code, list),
{
    let t = trim_in(line);
    let ghost tv = spec_trim(line@);
    let ghost out0 = out@;
    if starts_with_str(&t, "```") {
        if in_code {
            append_str(out, "</pre>\n");
            return (false, list);
        } else {
            append_str(out, "<pre>\n");
            return (true, list);
        }
    }
    if in_code {
        append_vec(out, &t);
        append_str(out, "\n");
        proof {
            assert(out@ =~= out0 + (tv + "\n"@));
        }
        return (true, list);
    }
    if t.len() == 0 {
        append_close(out, list);
        return (false, ListKind::NoList);
    }
    if starts_with_str(&t, "### ") {
        proof {
            reveal_strlit("### ");
        }
        append_str(out, "<h3>");
        let body = subrange_in(&t, 4, t.len());
        append_vec(out, &body);
        append_str(out, "</h3>\n");
        proof {
            assert(body@ =~= tv.skip(4));
            assert(out@ =~= out0 + ("<h3>"@ + tv.skip(4) + "</h3>\n"@));
        }
        return (false, list);
    }
    if starts_with_str(&t, "## ") {
        proof {
            reveal_strlit("## ");
        }
        append_str(out, "<h2>");
        let body = subrange_in(&t, 3, t.len());
        append_vec(out, &body);
        append_str(out, "</h2>\n");
        proof {
            assert(body@ =~= tv.skip(3));
            assert(out@ =~= out0 + ("<h2>"@ + tv.skip(3) + "</h2>\n"@));
        }
        return (false, list);
    }
    if starts_with_str(&t, "# ") {
        proof {
            reveal_strlit("# ");
        }
        append_str(out, "<h1>");
        let body = subrange_in(&t, 2, t.len());
        append_vec(out, &body);
        append_str(out, "</h1>\n");
        proof {
            assert(body@ =~= tv.skip(2));
            assert(out@ =~= out0 + ("<h1>"@ + tv.skip(2) + "</h1>\n"@));
        }
        return (false, list);
    }
    if starts_with_str(&t, "> ") {
        proof {
            reveal_strlit("> ");
        }
        append_str(out, "<blockquote>");
        let body = subrange_in(&t, 2, t.len());
        append_vec(out, &body);
        append_str(out, "</blockquote>\n");
        proof {
            assert(body@ =~= tv.skip(2));
            assert(out@ =~= out0 + ("<blockquote>"@ + tv.skip(2) + "</blockquote>\n"@));
        }
        return (false, list);
    }
    if starts_with_str(&t, "- ") {
        proof {
            reveal_strlit("- ");
        }
        let ghost opened = if list == ListKind::NoList {
            "<ul>\n"@
        } else {
            Seq::<char>::empty()
        };
        let mut k2 = list;
        if list == ListKind::NoList {
            append_str(out, "<ul>\n");
            k2 = ListKind::Unordered;
        }
        proof {
            assert(out@ =~= out0 + opened);
        }
        append_str(out, "<li>");
        let body = subrange_in(&t, 2, t.len());
        let fm = inline_chars(&body);
        append_vec(out, &fm);
        append_str(out, "</li>\n");
        proof {
            assert(body@ =~= tv.skip(2));
            assert(out@ =~= out0 + (opened + "<li>"@ + spec_inline(tv.skip(2)) + "</li>\n"@));
        }
        return (false, k2);
    }
    let d = find_in(&t, '.');
    proof {
        lemma_find_char_le(t@, '.');
    }
    let num = subrange_in(&t, 0, d);
    let tail = subrange_in(&t, d, t.len());
    proof {
        assert(num@ =~= tv.take(d as int));
        assert(tail@ =~= tv.skip(d as int));
    }
    if all_digits_in(&num) && starts_with_str(&tail, ". ") {
        proof {
            reveal_strlit(". ");
            assert(is_ordered_item(tv));
        }
        let ghost opened = if list == ListKind::NoList {
            "<ol>\n"@
        } else {
            Seq::<char>::empty()
        };
        let mut k2 = list;
        if list == ListKind::NoList {
            append_str(out, "<ol>\n");
            k2 = ListKind::Ordered;
        }
        proof {
            assert(out@ =~= out0 + opened);
        }
        append_str(out, "<li>");
        let body = subrange_in(&t, d + 2, t.len());
        let fm = inline_chars(&body);
        append_vec(out, &fm);
        append_str(out, "</li>\n");
        proof {
            assert(body@ =~= tv.skip(d + 2));
            assert(out@ =~= out0 + (opened + "<li>"@ + spec_inline(tv.skip(d + 2)) + "</li>\n"@));
        }
        return (false, k2);
    }
    proof {
        assert(!is_ordered_item(tv));
    }
    append_str(out, "<p>");
    let fm = inline_chars(&t);
    append_vec(out, &fm);
    append_str(out, "</p>\n");
    proof {
        assert(out@ =~= out0 + ("<p>"@ + spec_inline(tv) + "</p>\n"@));
    }
    (false, list)
}

/// Renders a body into an HTML fragment, as `spec_render` describes:
/// fenced code blocks pass their lines through verbatim; headings,
/// blockquotes, list items and paragraphs wrap the line's text; and any
/// block still open after the last line is closed.
#[verifier::loop_isolation(false)]
pub fn render_markdown(md: &str) -> (r: String)
    ensures
        r@ == spec_render(md@),
{
    let cs = to_chars(md);
    let lines = split_lines(&cs);
    let ghost ls = lines.deep_view();
    let mut out: Vec<char> = Vec::new();
    let mut in_code = false;
    let mut list = ListKind::NoList;
    let mut i: usize = 0;
    proof {
        assert(ls.skip(0) =~= ls);
        assert(Seq::<char>::empty() + spec_render_lines(ls, false, ListKind::NoList)
            =~= spec_render_lines(ls, false, ListKind::NoList));
    }
    while i < lines.len()
        invariant
            0 <= i <= ls.len(),
            ls == lines.deep_view(),
            out@ + spec_render_lines(ls.skip(i as int), in_code, list) == spec_render_lines(
                ls,
                false,
                ListKind::NoList,
            ),
        decreases ls.len() - i,
    {
        let ghost pre = ls.skip(i as int);
        let ghost rest = ls.skip(i + 1);
        let ghost code0 = in_code;
        let ghost list0 = list;
        let ghost out0 = out@;
        proof {
            assert(pre[0] =~= lines@[i as int]@);
            assert(pre.skip(1) =~= rest);
        }
        let st = render_line(&mut out, &lines[i], in_code, list);
        in_code = st.0;
        list = st.1;
        proof {
            assert(spec_render_lines(pre, code0, list0) == step_emit(pre[0], code0, list0)
                + spec_render_lines(rest, in_code, list));
            assert(out0 + (step_emit(pre[0], code0, list0) + spec_render_lines(rest, in_code, list))
                =~= (out0 + step_emit(pre[0], code0, list0)) + spec_render_lines(
                rest,
                in_code,
                list,
            ));
        }
        i += 1;
    }
    proof {
        assert(ls.skip(i as int) =~= Seq::<Seq<char>>::empty());
    }
    let ghost out0 = out@;
    append_close(&mut out, list);
    if in_code {
        append_str(&mut out, "</pre>\n");
    }
    proof {
        let closing = if in_code {
            "</pre>\n"@
        } else {
            Seq::<char>::empty()
        };
        assert(spec_render_lines(Seq::<Seq<char>>::empty(), in_code, list) == close_list(list)
            + closing);
        assert(out@ =~= out0 + (close_list(list) + closing));
    }
    chars_to_string(&out)
}

} // verus!
