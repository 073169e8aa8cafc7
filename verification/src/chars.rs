//! Character-sequence utilities shared by the document pipeline.
//!
//! Executable code in this crate works on `Vec<char>` values whose
//! mathematical model is `Seq<char>`.  The helpers here split text into
//! lines, trim surrounding blanks, search for characters and compare
//! against fixed patterns; each is proved against a spec function of the
//! same shape.

use vstd::prelude::*;
use vstd::string::StrSliceExecFns;

verus! {

/// The blank characters that surrounding-whitespace trimming removes.
pub open spec fn is_blank(c: char) -> bool {
    c == ' ' || c == '\t' || c == '\r' || c == '\n'
}

/// Whether `c` is a decimal digit.
pub open spec fn is_digit(c: char) -> bool {
    '0' as u32 <= c as u32 && c as u32 <= '9' as u32
}

/// Index of the first occurrence of `c` in `s`, or `s.len()` if absent.
pub open spec fn find_char(s: Seq<char>, c: char) -> nat
    decreases s.len(),
{
    if s.len() == 0 {
        0
    } else if s[0] == c {
        0
    } else {
        1 + find_char(s.skip(1), c)
    }
}

pub proof fn lemma_find_char_le(s: Seq<char>, c: char)
    ensures
        find_char(s, c) <= s.len(),
    decreases s.len(),
{
    if s.len() != 0 && s[0] != c {
        lemma_find_char_le(s.skip(1), c);
    }
}

/// `find_char` returns exactly the position of the first occurrence.
pub proof fn lemma_find_char_is(s: Seq<char>, c: char, j: int)
    requires
        0 <= j <= s.len(),
        forall|k: int| 0 <= k < j ==> s[k] != c,
        j < s.len() ==> s[j] == c,
    ensures
        find_char(s, c) == j,
    decreases j,
{
    if s.len() == 0 {
    } else if s[0] == c {
        assert(j == 0);
    } else {
        assert(j > 0);
        let t = s.skip(1);
        assert(forall|k: int| 0 <= k < j - 1 ==> t[k] == s[k + 1]);
        lemma_find_char_is(t, c, j - 1);
    }
}

/// `s` with one trailing carriage return removed, so that a
/// carriage-return-and-newline pair ends a line like a bare newline.
pub open spec fn chop_cr(s: Seq<char>) -> Seq<char> {
    if s.len() > 0 && s[s.len() - 1] == '\r' {
        s.take(s.len() - 1)
    } else {
        s
    }
}

/// The lines of `s`: maximal runs between line endings (a newline or a
/// carriage return and newline); a final trailing ending closes the
/// last line rather than opening an empty one.
pub open spec fn spec_lines(s: Seq<char>) -> Seq<Seq<char>>
    decreases s.len(),
{
    if s.len() == 0 {
        Seq::empty()
    } else {
        let i = find_char(s, '\n') as int;
        if i >= s.len() {
            seq![s]
        } else {
            seq![chop_cr(s.take(i))] + spec_lines(s.skip(i + 1))
        }
    }
}

/// The given lines joined back together with newline separators.
pub open spec fn spec_join(ls: Seq<Seq<char>>) -> Seq<char>
    decreases ls.len(),
{
    if ls.len() == 0 {
        Seq::empty()
    } else {
        ls[0] + spec_join_tail(ls.skip(1))
    }
}

pub open spec fn spec_join_tail(ls: Seq<Seq<char>>) -> Seq<char>
    decreases ls.len(),
{
    if ls.len() == 0 {
        Seq::empty()
    } else {
        seq!['\n'] + ls[0] + spec_join_tail(ls.skip(1))
    }
}

/// `s` with leading blanks removed.
pub open spec fn trim_start(s: Seq<char>) -> Seq<char>
    decreases s.len(),
{
    if s.len() > 0 && is_blank(s[0]) {
        trim_start(s.skip(1))
    } else {
        s
    }
}

/// `s` with trailing blanks removed.
pub open spec fn trim_end(s: Seq<char>) -> Seq<char>
    decreases s.len(),
{
    if s.len() > 0 && is_blank(s[s.len() - 1]) {
        trim_end(s.take(s.len() - 1))
    } else {
        s
    }
}

/// `s` with surrounding blanks removed.
pub open spec fn spec_trim(s: Seq<char>) -> Seq<char> {
    trim_end(trim_start(s))
}

pub proof fn lemma_trim_start_at(s: Seq<char>, a: int)
    requires
        0 <= a <= s.len(),
        forall|k: int| 0 <= k < a ==> is_blank(s[k]),
        a < s.len() ==> !is_blank(s[a]),
    ensures
        trim_start(s) == s.skip(a),
    decreases a,
{
    if a == 0 {
        assert(s.skip(0) =~= s);
    } else {
        let t = s.skip(1);
        assert(forall|k: int| 0 <= k < a - 1 ==> t[k] == s[k + 1]);
        lemma_trim_start_at(t, a - 1);
        assert(t.skip(a - 1) =~= s.skip(a));
    }
}

pub proof fn lemma_trim_end_at(s: Seq<char>, b: int)
    requires
        0 <= b <= s.len(),
        forall|k: int| b <= k < s.len() ==> is_blank(s[k]),
        b > 0 ==> !is_blank(s[b - 1]),
    ensures
        trim_end(s) == s.take(b),
    decreases s.len(),
{
    if b == s.len() {
        assert(s.take(b) =~= s);
    } else {
        assert(is_blank(s[s.len() - 1]));
        let t = s.take(s.len() - 1);
        assert(forall|k: int| b <= k < t.len() ==> t[k] == s[k]);
        lemma_trim_end_at(t, b);
        assert(t.take(b) =~= s.take(b));
    }
}

/// Whether `p` is a prefix of `s`.
pub open spec fn spec_starts_with(s: Seq<char>, p: Seq<char>) -> bool {
    p.len() <= s.len() && (forall|k: int| 0 <= k < p.len() ==> s[k] == p[k])
}

/// Whether `p` is a suffix of `s`.
pub open spec fn spec_ends_with(s: Seq<char>, p: Seq<char>) -> bool {
    p.len() <= s.len() && (forall|k: int| 0 <= k < p.len() ==> s[s.len() - p.len() + k] == p[k])
}

/// Whether every character of `s` is a decimal digit.
pub open spec fn all_digits(s: Seq<char>) -> bool {
    forall|k: int| 0 <= k < s.len() ==> is_digit(s[k])
}

/// The characters of a text, in order.
#[verifier::loop_isolation(false)]
pub fn to_chars(s: &str) -> (r: Vec<char>)
    ensures
        r@ == s@,
{
    let n = s.unicode_len();
    let mut r: Vec<char> = Vec::new();
    let mut i: usize = 0;
    while i < n
        invariant
            0 <= i <= n,
            r@ == s@.take(i as int),
        decreases n - i,
    {
        let c = s.get_char(i);
        r.push(c);
        proof {
            assert(s@.take(i + 1) =~= s@.take(i as int).push(s@[i as int]));
        }
        i += 1;
    }
    proof {
        assert(s@.take(n as int) =~= s@);
    }
    r
}

/// Relies on `String::push`: appends the given character to the end of
/// the string.
#[verifier::external_body]
fn push_char(s: &mut String, c: char)
    ensures
        final(s)@ == old(s)@.push(c),
{
    s.push(c);
}

/// A string holding exactly the given characters.
#[verifier::loop_isolation(false)]
pub fn chars_to_string(v: &Vec<char>) -> (r: String)
    ensures
        r@ == v@,
{
    let mut r = String::new();
    let mut i: usize = 0;
    while i < v.len()
        invariant
            0 <= i <= v@.len(),
            r@ == v@.take(i as int),
        decreases v@.len() - i,
    {
        push_char(&mut r, v[i]);
        proof {
            assert(v@.take(i + 1) =~= v@.take(i as int).push(v@[i as int]));
        }
        i += 1;
    }
    proof {
        assert(v@.take(v@.len() as int) =~= v@);
    }
    r
}

/// Appends all characters of `src` to `out`.
#[verifier::loop_isolation(false)]
pub fn append_vec(out: &mut Vec<char>, src: &Vec<char>)
    ensures
        final(out)@ == old(out)@ + src@,
{
    let mut i: usize = 0;
    while i < src.len()
        invariant
            0 <= i <= src@.len(),
            out@ == old(out)@ + src@.take(i as int),
        decreases src@.len() - i,
    {
        out.push(src[i]);
        proof {
            assert(old(out)@ + src@.take(i + 1) =~= (old(out)@ + src@.take(i as int)).push(
                src@[i as int],
            ));
        }
        i += 1;
    }
    proof {
        assert(old(out)@ + src@.take(src@.len() as int) =~= old(out)@ + src@);
    }
}

/// Appends the characters of a literal text to `out`.
pub fn append_str(out: &mut Vec<char>, s: &str)
    ensures
        final(out)@ == old(out)@ + s@,
{
    let cs = to_chars(s);
    append_vec(out, &cs);
}

/// Index of the first occurrence of `c` in `v`, or `v.len()` if absent.
#[verifier::loop_isolation(false)]
pub fn find_in(v: &Vec<char>, c: char) -> (r: usize)
    ensures
        r == find_char(v@, c),
{
    let mut i: usize = 0;
    while i < v.len()
        invariant
            0 <= i <= v@.len(),
            forall|k: int| 0 <= k < i ==> v@[k] != c,
        decreases v@.len() - i,
    {
        if v[i] == c {
            proof {
                lemma_find_char_is(v@, c, i as int);
            }
            return i;
        }
        i += 1;
    }
    proof {
        lemma_find_char_is(v@, c, i as int);
    }
    i
}

/// Whether the two character vectors hold the same characters.
#[verifier::loop_isolation(false)]
pub fn eq_in(v: &Vec<char>, p: &Vec<char>) -> (r: bool)
    ensures
        r == (v@ == p@),
{
    if v.len() != p.len() {
        return false;
    }
    let mut i: usize = 0;
    while i < v.len()
        invariant
            0 <= i <= v@.len(),
            p@.len() == v@.len(),
            forall|k: int| 0 <= k < i ==> v@[k] == p@[k],
        decreases v@.len() - i,
    {
        if v[i] != p[i] {
            return false;
        }
        i += 1;
    }
    proof {
        assert(v@ =~= p@);
    }
    true
}

/// Whether `p` is a prefix of `v`.
#[verifier::loop_isolation(false)]
pub fn starts_with_in(v: &Vec<char>, p: &Vec<char>) -> (r: bool)
    ensures
        r == spec_starts_with(v@, p@),
{
    if p.len() > v.len() {
        return false;
    }
    let mut i: usize = 0;
    while i < p.len()
        invariant
            0 <= i <= p@.len(),
            p@.len() <= v@.len(),
            forall|k: int| 0 <= k < i ==> v@[k] == p@[k],
        decreases p@.len() - i,
    {
        if v[i] != p[i] {
            return false;
        }
        i += 1;
    }
    true
}

/// Whether `p` is a suffix of `v`.
#[verifier::loop_isolation(false)]
pub fn ends_with_in(v: &Vec<char>, p: &Vec<char>) -> (r: bool)
    ensures
        r == spec_ends_with(v@, p@),
{
    if p.len() > v.len() {
        return false;
    }
    let off = v.len() - p.len();
    let mut i: usize = 0;
    while i < p.len()
        invariant
            0 <= i <= p@.len(),
            p@.len() <= v@.len(),
            off == v@.len() - p@.len(),
            forall|k: int| 0 <= k < i ==> v@[off + k] == p@[k],
        decreases p@.len() - i,
    {
        if v[off + i] != p[i] {
            return false;
        }
        i += 1;
    }
    true
}

/// Whether every character of `v` is a decimal digit.
#[verifier::loop_isolation(false)]
pub fn all_digits_in(v: &Vec<char>) -> (r: bool)
    ensures
        r == all_digits(v@),
{
    let mut i: usize = 0;
    while i < v.len()
        invariant
            0 <= i <= v@.len(),
            forall|k: int| 0 <= k < i ==> is_digit(v@[k]),
        decreases v@.len() - i,
    {
        let u = v[i] as u32;
        if u < 48 || u > 57 {
            return false;
        }
        assert(is_digit(v@[i as int]));
        i += 1;
    }
    true
}

/// Whether `v` holds exactly the characters of the literal `s`.
pub fn eq_str(v: &Vec<char>, s: &str) -> (r: bool)
    ensures
        r == (v@ == s@),
{
    let p = to_chars(s);
    eq_in(v, &p)
}

/// Whether the literal `s` is a prefix of `v`.
pub fn starts_with_str(v: &Vec<char>, s: &str) -> (r: bool)
    ensures
        r == spec_starts_with(v@, s@),
{
    let p = to_chars(s);
    starts_with_in(v, &p)
}

/// Whether the literal `s` is a suffix of `v`.
pub fn ends_with_str(v: &Vec<char>, s: &str) -> (r: bool)
    ensures
        r == spec_ends_with(v@, s@),
{
    let p = to_chars(s);
    ends_with_in(v, &p)
}

/// The characters of `v` from `from` (inclusive) to `to` (exclusive).
#[verifier::loop_isolation(false)]
pub fn subrange_in(v: &Vec<char>, from: usize, to: usize) -> (r: Vec<char>)
    requires
        0 <= from <= to <= v@.len(),
    ensures
        r@ == v@.subrange(from as int, to as int),
{
    let mut r: Vec<char> = Vec::new();
    let mut i = from;
    while i < to
        invariant
            from <= i <= to,
            r@ == v@.subrange(from as int, i as int),
        decreases to - i,
    {
        r.push(v[i]);
        proof {
            assert(v@.subrange(from as int, i + 1) =~= v@.subrange(from as int, i as int).push(
                v@[i as int],
            ));
        }
        i += 1;
    }
    r
}

/// `v` with surrounding blanks removed.
#[verifier::loop_isolation(false)]
pub fn trim_in(v: &Vec<char>) -> (r: Vec<char>)
    ensures
        r@ == spec_trim(v@),
{
    let n = v.len();
    let mut a: usize = 0;
    while a < n && (v[a] == ' ' || v[a] == '\t' || v[a] == '\r' || v[a] == '\n')
        invariant
            0 <= a <= n,
            forall|k: int| 0 <= k < a ==> is_blank(v@[k]),
        decreases n - a,
    {
        a += 1;
    }
    let mut b: usize = n;
    while b > a && (v[b - 1] == ' ' || v[b - 1] == '\t' || v[b - 1] == '\r' || v[b - 1] == '\n')
        invariant
            a <= b <= n,
            forall|k: int| b <= k < n ==> is_blank(v@[k]),
        decreases b,
    {
        b -= 1;
    }
    proof {
        lemma_trim_start_at(v@, a as int);
        let t = v@.skip(a as int);
        assert(forall|k: int| 0 <= k < t.len() ==> t[k] == v@[k + a]);
        lemma_trim_end_at(t, b - a);
        assert(t.take(b - a) =~= v@.subrange(a as int, b as int));
    }
    subrange_in(v, a, b)
}

/// Breaks `v` into its lines, as `spec_lines` describes.
#[verifier::loop_isolation(false)]
pub fn split_lines(v: &Vec<char>) -> (r: Vec<Vec<char>>)
    ensures
        r.deep_view() == spec_lines(v@),
{
    let mut out: Vec<Vec<char>> = Vec::new();
    let mut cur: Vec<char> = Vec::new();
    let mut st: usize = 0;
    let mut i: usize = 0;
    proof {
        assert(v@.skip(0) =~= v@);
        assert(out.deep_view() =~= Seq::<Seq<char>>::empty());
        assert(Seq::<Seq<char>>::empty() + spec_lines(v@) =~= spec_lines(v@));
    }
    while i < v.len()
        invariant
            0 <= st <= i <= v@.len(),
            cur@ == v@.subrange(st as int, i as int),
            forall|k: int| st <= k < i ==> v@[k] != '\n',
            spec_lines(v@) == out.deep_view() + spec_lines(v@.skip(st as int)),
        decreases v@.len() - i,
    {
        let c = v[i];
        if c == '\n' {
            proof {
                let t = v@.skip(st as int);
                assert(forall|k: int| 0 <= k < t.len() ==> t[k] == v@[k + st]);
                lemma_find_char_is(t, '\n', i - st);
                assert(t.take(i - st) =~= cur@);
                assert(t.skip(i - st + 1) =~= v@.skip(i + 1));
                assert(spec_lines(t) == seq![chop_cr(cur@)] + spec_lines(v@.skip(i + 1)));
            }
            let ghost rawline = cur@;
            if cur.len() > 0 && cur[cur.len() - 1] == '\r' {
                cur.pop();
            }
            proof {
                assert(cur@ =~= chop_cr(rawline));
            }
            let ghost dv0 = out.deep_view();
            let ghost cv = cur@;
            out.push(cur);
            cur = Vec::new();
            proof {
                assert(out.deep_view() =~~= dv0.push(cv));
                assert(dv0 + (seq![cv] + spec_lines(v@.skip(i + 1))) =~= dv0.push(cv)
                    + spec_lines(v@.skip(i + 1)));
            }
            st = i + 1;
        } else {
            cur.push(c);
        }
        i += 1;
    }
    if cur.len() > 0 {
        proof {
            let t = v@.skip(st as int);
            assert(forall|k: int| 0 <= k < t.len() ==> t[k] == v@[k + st]);
            lemma_find_char_is(t, '\n', i - st);
            assert(t =~= cur@);
            assert(spec_lines(t) == seq![cur@]);
        }
        let ghost dv0 = out.deep_view();
        let ghost cv = cur@;
        out.push(cur);
        proof {
            assert(out.deep_view() =~~= dv0.push(cv));
            assert(dv0 + seq![cv] =~= dv0.push(cv));
        }
    } else {
        proof {
            assert(v@.skip(st as int) =~= Seq::<char>::empty());
            assert(out.deep_view() + Seq::<Seq<char>>::empty() =~= out.deep_view());
        }
    }
    out
}

/// Joins `lines[from..]` with newline separators, as `spec_join` describes.
#[verifier::loop_isolation(false)]
pub fn join_from(lines: &Vec<Vec<char>>, from: usize) -> (r: Vec<char>)
    requires
        0 <= from <= lines@.len(),
    ensures
        r@ == spec_join(lines.deep_view().skip(from as int)),
{
    let ghost full = lines.deep_view();
    let mut out: Vec<char> = Vec::new();
    if from >= lines.len() {
        proof {
            assert(full.skip(from as int) =~= Seq::<Seq<char>>::empty());
        }
        return out;
    }
    let ghost ls = full.skip(from as int);
    append_vec(&mut out, &lines[from]);
    proof {
        assert(full[from as int] =~= lines@[from as int]@);
        assert(ls[0] == full[from as int]);
        assert(Seq::<char>::empty() + full[from as int] =~= full[from as int]);
    }
    let mut i: usize = from + 1;
    while i < lines.len()
        invariant
            from + 1 <= i <= full.len(),
            ls == full.skip(from as int),
            out@ + spec_join_tail(ls.skip(i - from)) == spec_join(ls),
        decreases full.len() - i,
    {
        let ghost t = ls.skip(i - from);
        proof {
            assert(full[i as int] =~= lines@[i as int]@);
            assert(t[0] == full[i as int]);
            assert(t.skip(1) =~= ls.skip(i + 1 - from));
            assert(spec_join_tail(t) == seq!['\n'] + t[0] + spec_join_tail(t.skip(1)));
        }
        let ghost out0 = out@;
        out.push('\n');
        append_vec(&mut out, &lines[i]);
        proof {
            assert(out@ =~= out0 + seq!['\n'] + full[i as int]);
            assert(out0 + (seq!['\n'] + full[i as int] + spec_join_tail(ls.skip(i + 1 - from)))
                =~= (out0 + seq!['\n'] + full[i as int]) + spec_join_tail(ls.skip(i + 1 - from)));
        }
        i += 1;
    }
    proof {
        assert(ls.skip(i - from) =~= Seq::<Seq<char>>::empty());
        assert(out@ + Seq::<char>::empty() =~= out@);
    }
    out
}

} // verus!
