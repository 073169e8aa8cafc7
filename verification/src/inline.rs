//! The inline formatter.
//!
//! Expands `**text**` spans into strong-emphasis markup; every other
//! character passes through unchanged, including single `*` characters
//! and a lone `*` inside a span.  A span that reaches the end of the
//! line without a closing `**` is auto-closed there.

use vstd::prelude::*;

use crate::chars::append_str;
use crate::chars::append_vec;
use crate::chars::chars_to_string;
use crate::chars::subrange_in;
use crate::chars::to_chars;

verus! {

/// Index of the first adjacent pair of asterisks in `s`, or `s.len()`
/// if there is none.
pub open spec fn first_pair(s: Seq<char>) -> nat
    decreases s.len(),
{
    if s.len() < 2 {
        s.len()
    } else if s[0] == '*' && s[1] == '*' {
        0
    } else {
        1 + first_pair(s.skip(1))
    }
}

pub proof fn lemma_first_pair_le(s: Seq<char>)
    ensures
        first_pair(s) <= s.len(),
    decreases s.len(),
{
    if s.len() >= 2 && !(s[0] == '*' && s[1] == '*') {
        lemma_first_pair_le(s.skip(1));
    }
}

/// `first_pair` returns exactly the position of the first pair.
pub proof fn lemma_first_pair_is(s: Seq<char>, j: int)
    requires
        0 <= j <= s.len(),
        forall|k: int| 0 <= k < j ==> !((#[trigger] s[k]) == '*' && k + 1 < s.len() && s[k + 1]
            == '*'),
        j < s.len() ==> (j + 1 < s.len() && s[j] == '*' && s[j + 1] == '*'),
    ensures
        first_pair(s) == j,
    decreases j,
{
    if s.len() < 2 {
        assert(j == s.len());
    } else if s[0] == '*' && s[1] == '*' {
        assert(j == 0);
    } else {
        assert(j > 0);
        let t = s.skip(1);
        assert(forall|k: int| 0 <= k < t.len() ==> t[k] == s[k + 1]);
        lemma_first_pair_is(t, j - 1);
    }
}

/// What `format_inline` returns for the given characters: a left-to-right
/// scan in which `**` opens a span that the next adjacent `**` closes,
/// and a span still open at the end of the line is closed there.
pub open spec fn spec_inline(s: Seq<char>) -> Seq<char>
    decreases s.len(),
{
    if s.len() == 0 {
        Seq::empty()
    } else if s.len() >= 2 && s[0] == '*' && s[1] == '*' {
        let rest = s.skip(2);
        let j = first_pair(rest) as int;
        let next = if j + 2 <= rest.len() {
            rest.skip(j + 2)
        } else {
            Seq::<char>::empty()
        };
        "<strong>"@ + rest.take(j) + "</strong>"@ + spec_inline(next)
    } else {
        seq![s[0]] + spec_inline(s.skip(1))
    }
}

/// Expands emphasis spans in a line of characters, as `spec_inline`
/// describes.
#[verifier::loop_isolation(false)]
#[verifier::rlimit(50)]
pub fn inline_chars(s: &Vec<char>) -> (out: Vec<char>)
    ensures
        out@ == spec_inline(s@),
{
    let n = s.len();
    let mut out: Vec<char> = Vec::new();
    let mut i: usize = 0;
    proof {
        assert(s@.skip(0) =~= s@);
        assert(Seq::<char>::empty() + spec_inline(s@) =~= spec_inline(s@));
    }
    while i < n
        invariant
            0 <= i <= n,
            out@ + spec_inline(s@.skip(i as int)) == spec_inline(s@),
        decreases n - i,
    {
        let ghost pre = s@.skip(i as int);
        if s[i] == '*' && i + 1 < n && s[i + 1] == '*' {
            let start = i + 2;
            let last = n - 1;
            let mut j = start;
            while j < last && !(s[j] == '*' && s[j + 1] == '*')
                invariant
                    start <= j <= n,
                    forall|k: int|
                        start <= k < j ==> !((#[trigger] s@[k]) == '*' && k + 1 < n && s@[k + 1]
                            == '*'),
                decreases n - j,
            {
                j += 1;
            }
            let ghost rest = s@.skip(start as int);
            let found = j < last;
            proof {
                assert(forall|k: int| 0 <= k < rest.len() ==> rest[k] == s@[k + start]);
                if found {
                    lemma_first_pair_is(rest, j - start);
                } else {
                    lemma_first_pair_is(rest, rest.len() as int);
                }
            }
            let e = if found {
                j
            } else {
                n
            };
            let ghost out0 = out@;
            append_str(&mut out, "<strong>");
            let content = subrange_in(s, start, e);
            append_vec(&mut out, &content);
            append_str(&mut out, "</strong>");
            let inext = if found {
                j + 2
            } else {
                n
            };
            proof {
                let fp = first_pair(rest) as int;
                assert(content@ =~= rest.take(fp));
                assert(pre.skip(2) =~= rest);
                let next = if fp + 2 <= rest.len() {
                    rest.skip(fp + 2)
                } else {
                    Seq::<char>::empty()
                };
                assert(next =~= s@.skip(inext as int));
                assert(spec_inline(pre) == "<strong>"@ + rest.take(fp) + "</strong>"@
                    + spec_inline(next));
                assert(out@ =~= out0 + "<strong>"@ + rest.take(fp) + "</strong>"@);
                assert(out0 + ("<strong>"@ + rest.take(fp) + "</strong>"@ + spec_inline(next))
                    =~= (out0 + "<strong>"@ + rest.take(fp) + "</strong>"@) + spec_inline(next));
            }
            i = inext;
        } else {
            let c = s[i];
            let ghost out0 = out@;
            out.push(c);
            proof {
                assert(pre[0] == s@[i as int]);
                assert(pre.skip(1) =~= s@.skip(i + 1));
                assert(spec_inline(pre) == seq![pre[0]] + spec_inline(s@.skip(i + 1)));
                assert(out0 + (seq![pre[0]] + spec_inline(s@.skip(i + 1))) =~= out0.push(c)
                    + spec_inline(s@.skip(i + 1)));
            }
            i += 1;
        }
    }
    proof {
        assert(s@.skip(n as int) =~= Seq::<char>::empty());
        assert(out@ + spec_inline(Seq::<char>::empty()) =~= out@);
    }
    out
}

/// Expands `**text**` spans in one line of text, as `spec_inline`
/// describes; all other characters pass through untouched.
pub fn format_inline(text: &str) -> (r: String)
    ensures
        r@ == spec_inline(text@),
{
    let cs = to_chars(text);
    let out = inline_chars(&cs);
    chars_to_string(&out)
}

} // verus!
