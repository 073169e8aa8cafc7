//! Pure helpers of the serving shell: picking the request path out of
//! an HTTP request line, and classifying a file path's content type by
//! its extension.

use vstd::prelude::*;
use vstd::string::StrSliceExecFns;

use crate::chars::chop_cr;
use crate::chars::ends_with_str;
use crate::chars::find_char;
use crate::chars::find_in;
use crate::chars::is_blank;
use crate::chars::lemma_find_char_le;
use crate::chars::spec_ends_with;
use crate::chars::spec_lines;
use crate::chars::to_chars;

verus! {

/// Index of the first character of `s` whose blankness is `want_blank`,
/// or `s.len()` if there is none.
pub open spec fn scan_blank(s: Seq<char>, want_blank: bool) -> nat
    decreases s.len(),
{
    if s.len() == 0 {
        0
    } else if is_blank(s[0]) == want_blank {
        0
    } else {
        1 + scan_blank(s.skip(1), want_blank)
    }
}

proof fn lemma_scan_blank_is(s: Seq<char>, want_blank: bool, j: int)
    requires
        0 <= j <= s.len(),
        forall|k: int| 0 <= k < j ==> is_blank(#[trigger] s[k]) != want_blank,
        j < s.len() ==> is_blank(s[j]) == want_blank,
    ensures
        scan_blank(s, want_blank) == j,
    decreases j,
{
    if s.len() == 0 {
    } else if is_blank(s[0]) == want_blank {
        assert(j == 0);
    } else {
        assert(j > 0);
        let t = s.skip(1);
        assert(forall|k: int| 0 <= k < t.len() ==> t[k] == s[k + 1]);
        lemma_scan_blank_is(t, want_blank, j - 1);
    }
}

/// The second blank-separated token of the line, or `/` if the line has
/// fewer than two tokens.
pub open spec fn spec_second_token(line: Seq<char>) -> Seq<char> {
    let a1 = scan_blank(line, false) as int;
    let s1 = line.skip(a1);
    if s1.len() == 0 {
        "/"@
    } else {
        let b1 = scan_blank(s1, true) as int;
        let s2 = s1.skip(b1);
        let a2 = scan_blank(s2, false) as int;
        let s3 = s2.skip(a2);
        if s3.len() == 0 {
            "/"@
        } else {
            s3.take(scan_blank(s3, true) as int)
        }
    }
}

/// What `extract_path` returns: the second token of the request's first
/// line, or `/` when the request is empty or the token is missing.
pub open spec fn spec_extract_path(req: Seq<char>) -> Seq<char> {
    let lines = spec_lines(req);
    if lines.len() == 0 {
        "/"@
    } else {
        spec_second_token(lines[0])
    }
}

/// Picks the request path out of an HTTP request, as
/// `spec_extract_path` describes: the second blank-separated token of
/// the first line, with `/` as the fallback.
#[verifier::loop_isolation(false)]
#[verifier::rlimit(50)]
pub fn extract_path<'a>(request: &'a str) -> (r: &'a str)
    ensures
        r@ == spec_extract_path(request@),
{
    let cs = to_chars(request);
    let n = cs.len();
    if n == 0 {
        return "/";
    }
    let le = find_in(&cs, '\n');
    proof {
        lemma_find_char_le(cs@, '\n');
    }
    let ghost line = spec_lines(cs@)[0];
    let mut lend = le;
    if le < n && lend > 0 && cs[lend - 1] == '\r' {
        lend -= 1;
    }
    proof {
        assert(le == find_char(cs@, '\n'));
        if le < n {
            assert(line =~= chop_cr(cs@.take(le as int)));
        }
        assert(line =~= cs@.take(lend as int));
    }
    let mut a1: usize = 0;
    while a1 < lend && (cs[a1] == ' ' || cs[a1] == '\t' || cs[a1] == '\r' || cs[a1] == '\n')
        invariant
            0 <= a1 <= lend,
            forall|k: int| 0 <= k < a1 ==> is_blank(#[trigger] cs@[k]),
        decreases lend - a1,
    {
        a1 += 1;
    }
    proof {
        assert(forall|k: int| 0 <= k < line.len() ==> line[k] == cs@[k]);
        lemma_scan_blank_is(line, false, a1 as int);
    }
    let ghost s1 = line.skip(a1 as int);
    if a1 == lend {
        return "/";
    }
    let mut b1: usize = a1;
    while b1 < lend && !(cs[b1] == ' ' || cs[b1] == '\t' || cs[b1] == '\r' || cs[b1] == '\n')
        invariant
            a1 <= b1 <= lend,
            forall|k: int| a1 <= k < b1 ==> !is_blank(#[trigger] cs@[k]),
        decreases lend - b1,
    {
        b1 += 1;
    }
    proof {
        assert(forall|k: int| 0 <= k < s1.len() ==> s1[k] == cs@[k + a1]);
        lemma_scan_blank_is(s1, true, b1 - a1);
    }
    let ghost s2 = s1.skip(b1 - a1);
    proof {
        assert(s2 =~= line.skip(b1 as int));
    }
    let mut a2: usize = b1;
    while a2 < lend && (cs[a2] == ' ' || cs[a2] == '\t' || cs[a2] == '\r' || cs[a2] == '\n')
        invariant
            b1 <= a2 <= lend,
            forall|k: int| b1 <= k < a2 ==> is_blank(#[trigger] cs@[k]),
        decreases lend - a2,
    {
        a2 += 1;
    }
    proof {
        assert(forall|k: int| 0 <= k < s2.len() ==> s2[k] == cs@[k + b1]);
        lemma_scan_blank_is(s2, false, a2 - b1);
    }
    let ghost s3 = s2.skip(a2 - b1);
    proof {
        assert(s3 =~= line.skip(a2 as int));
    }
    if a2 == lend {
        return "/";
    }
    let mut b2: usize = a2;
    while b2 < lend && !(cs[b2] == ' ' || cs[b2] == '\t' || cs[b2] == '\r' || cs[b2] == '\n')
        invariant
            a2 <= b2 <= lend,
            forall|k: int| a2 <= k < b2 ==> !is_blank(#[trigger] cs@[k]),
        decreases lend - b2,
    {
        b2 += 1;
    }
    proof {
        assert(forall|k: int| 0 <= k < s3.len() ==> s3[k] == cs@[k + a2]);
        lemma_scan_blank_is(s3, true, b2 - a2);
        assert(s3.take(b2 - a2) =~= cs@.subrange(a2 as int, b2 as int));
    }
    request.substring_char(a2, b2)
}

/// What `get_content_type` returns, by the path's extension; anything
/// unrecognized is plain text.
pub open spec fn spec_content_type(p: Seq<char>) -> Seq<char> {
    if spec_ends_with(p, ".html"@) {
        "text/html"@
    } else if spec_ends_with(p, ".css"@) {
        "text/css"@
    } else if spec_ends_with(p, ".js"@) {
        "application/javascript"@
    } else if spec_ends_with(p, ".png"@) {
        "image/png"@
    } else if spec_ends_with(p, ".jpg"@) || spec_ends_with(p, ".jpeg"@) {
        "image/jpeg"@
    } else {
        "text/plain"@
    }
}

/// Classifies a file path's content type by its extension, as
/// `spec_content_type` describes.
pub fn get_content_type(path: &str) -> (r: &'static str)
    ensures
        r@ == spec_content_type(path@),
{
    let cs = to_chars(path);
    if ends_with_str(&cs, ".html") {
        "text/html"
    } else if ends_with_str(&cs, ".css") {
        "text/css"
    } else if ends_with_str(&cs, ".js") {
        "application/javascript"
    } else if ends_with_str(&cs, ".png") {
        "image/png"
    } else if ends_with_str(&cs, ".jpg") || ends_with_str(&cs, ".jpeg") {
        "image/jpeg"
    } else {
        "text/plain"
    }
}

} // verus!
