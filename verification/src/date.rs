//! The date formatter.
//!
//! Maps an ISO-like `YYYY-MM-DD` date (an optional `T`-delimited
//! time-of-day suffix is ignored) to the form `"March 7, 2024"`.  Input
//! that does not split on `-` into exactly three numeric segments is
//! returned unchanged; a month outside `01`..`12` falls back to a
//! literal `Unknown` placeholder while day and year still render.

use vstd::prelude::*;

use crate::chars::all_digits;
use crate::chars::all_digits_in;
use crate::chars::append_str;
use crate::chars::append_vec;
use crate::chars::chars_to_string;
use crate::chars::eq_str;
use crate::chars::find_char;
use crate::chars::find_in;
use crate::chars::lemma_find_char_le;
use crate::chars::subrange_in;
use crate::chars::to_chars;

verus! {

/// The English name of a two-digit month code, or a placeholder.
pub open spec fn month_name(m: Seq<char>) -> Seq<char> {
    if m == "01"@ {
        "January"@
    } else if m == "02"@ {
        "February"@
    } else if m == "03"@ {
        "March"@
    } else if m == "04"@ {
        "April"@
    } else if m == "05"@ {
        "May"@
    } else if m == "06"@ {
        "June"@
    } else if m == "07"@ {
        "July"@
    } else if m == "08"@ {
        "August"@
    } else if m == "09"@ {
        "September"@
    } else if m == "10"@ {
        "October"@
    } else if m == "11"@ {
        "November"@
    } else if m == "12"@ {
        "December"@
    } else {
        "Unknown"@
    }
}

/// `s` with its leading zero characters removed.
pub open spec fn strip_leading_zeros(s: Seq<char>) -> Seq<char>
    decreases s.len(),
{
    if s.len() > 0 && s[0] == '0' {
        strip_leading_zeros(s.skip(1))
    } else {
        s
    }
}

proof fn lemma_strip_zeros_at(s: Seq<char>, a: int)
    requires
        0 <= a <= s.len(),
        forall|k: int| 0 <= k < a ==> s[k] == '0',
        a < s.len() ==> s[a] != '0',
    ensures
        strip_leading_zeros(s) == s.skip(a),
    decreases a,
{
    if a == 0 {
        assert(s.skip(0) =~= s);
    } else {
        let t = s.skip(1);
        assert(forall|k: int| 0 <= k < a - 1 ==> t[k] == s[k + 1]);
        lemma_strip_zeros_at(t, a - 1);
        assert(t.skip(a - 1) =~= s.skip(a));
    }
}

/// Whether a date segment looks numeric: nonempty, all decimal digits.
pub open spec fn numeric_seg(s: Seq<char>) -> bool {
    s.len() > 0 && all_digits(s)
}

/// What `format_date` returns for the given characters.
pub open spec fn spec_format_date(raw: Seq<char>) -> Seq<char> {
    let d = raw.take(find_char(raw, 'T') as int);
    let i1 = find_char(d, '-') as int;
    if i1 >= d.len() {
        raw
    } else {
        let year = d.take(i1);
        let r1 = d.skip(i1 + 1);
        let i2 = find_char(r1, '-') as int;
        if i2 >= r1.len() {
            raw
        } else {
            let month = r1.take(i2);
            let day = r1.skip(i2 + 1);
            if find_char(day, '-') < day.len() {
                raw
            } else if numeric_seg(year) && numeric_seg(month) && numeric_seg(day) {
                month_name(month) + " "@ + strip_leading_zeros(day) + ", "@ + year
            } else {
                raw
            }
        }
    }
}

/// Appends the English month name for the two-digit code `m`.
fn append_month(out: &mut Vec<char>, m: &Vec<char>)
    ensures
        final(out)@ == old(out)@ + month_name(m@),
{
    if eq_str(m, "01") {
        append_str(out, "January");
    } else if eq_str(m, "02") {
        append_str(out, "February");
    } else if eq_str(m, "03") {
        append_str(out, "March");
    } else if eq_str(m, "04") {
        append_str(out, "April");
    } else if eq_str(m, "05") {
        append_str(out, "May");
    } else if eq_str(m, "06") {
        append_str(out, "June");
    } else if eq_str(m, "07") {
        append_str(out, "July");
    } else if eq_str(m, "08") {
        append_str(out, "August");
    } else if eq_str(m, "09") {
        append_str(out, "September");
    } else if eq_str(m, "10") {
        append_str(out, "October");
    } else if eq_str(m, "11") {
        append_str(out, "November");
    } else if eq_str(m, "12") {
        append_str(out, "December");
    } else {
        append_str(out, "Unknown");
    }
}

/// Appends `day` with its leading zeros removed.
#[verifier::loop_isolation(false)]
fn append_stripped(out: &mut Vec<char>, day: &Vec<char>)
    ensures
        final(out)@ == old(out)@ + strip_leading_zeros(day@),
{
    let n = day.len();
    let mut a: usize = 0;
    while a < n && day[a] == '0'
        invariant
            0 <= a <= n,
            forall|k: int| 0 <= k < a ==> day@[k] == '0',
        decreases n - a,
    {
        a += 1;
    }
    proof {
        lemma_strip_zeros_at(day@, a as int);
    }
    let rest = subrange_in(day, a, n);
    proof {
        assert(rest@ =~= day@.skip(a as int));
    }
    append_vec(out, &rest);
}

/// Humanizes an ISO-like date, as `spec_format_date` describes: the
/// month becomes its English name, leading zeros are stripped from the
/// day, and anything not shaped like a three-segment numeric date is
/// returned unchanged.
pub fn format_date(raw: &str) -> (r: String)
    ensures
        r@ == spec_format_date(raw@),
{
    let cs = to_chars(raw);
    let t = find_in(&cs, 'T');
    proof {
        lemma_find_char_le(cs@, 'T');
    }
    let d = subrange_in(&cs, 0, t);
    proof {
        assert(d@ =~= cs@.take(t as int));
    }
    let i1 = find_in(&d, '-');
    proof {
        lemma_find_char_le(d@, '-');
    }
    if i1 >= d.len() {
        return chars_to_string(&cs);
    }
    let year = subrange_in(&d, 0, i1);
    let r1 = subrange_in(&d, i1 + 1, d.len());
    proof {
        assert(year@ =~= d@.take(i1 as int));
        assert(r1@ =~= d@.skip(i1 + 1));
    }
    let i2 = find_in(&r1, '-');
    proof {
        lemma_find_char_le(r1@, '-');
    }
    if i2 >= r1.len() {
        return chars_to_string(&cs);
    }
    let month = subrange_in(&r1, 0, i2);
    let day = subrange_in(&r1, i2 + 1, r1.len());
    proof {
        assert(month@ =~= r1@.take(i2 as int));
        assert(day@ =~= r1@.skip(i2 + 1));
        lemma_find_char_le(day@, '-');
    }
    let t3 = find_in(&day, '-');
    if t3 < day.len() {
        return chars_to_string(&cs);
    }
    let year_ok = year.len() > 0 && all_digits_in(&year);
    let month_ok = month.len() > 0 && all_digits_in(&month);
    let day_ok = day.len() > 0 && all_digits_in(&day);
    if !(year_ok && month_ok && day_ok) {
        return chars_to_string(&cs);
    }
    let mut out: Vec<char> = Vec::new();
    append_month(&mut out, &month);
    append_str(&mut out, " ");
    append_stripped(&mut out, &day);
    append_str(&mut out, ", ");
    append_vec(&mut out, &year);
    proof {
        assert(out@ =~= month_name(month@) + " "@ + strip_leading_zeros(day@) + ", "@ + year@);
    }
    chars_to_string(&out)
}

} // verus!
