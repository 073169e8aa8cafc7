//! The front-matter parser.
//!
//! Splits a raw document into metadata fields and a body.  The document
//! must open with a `---` delimiter line; metadata lines are read until
//! a line trims to `---` (or input ends, leaving an empty body), keys
//! and values are trimmed, values lose one layer of surrounding double
//! quotes, and a `tags:` field collects the following `-`-prefixed
//! lines.  A known quirk is kept: the first non-tag line after a tags
//! list is consumed and discarded, not read as a metadata line.  A
//! document marked `draft: true` yields no result at all.

use vstd::prelude::*;

use crate::chars::chars_to_string;
use crate::chars::eq_str;
use crate::chars::find_char;
use crate::chars::find_in;
use crate::chars::join_from;
use crate::chars::lemma_find_char_le;
use crate::chars::spec_join;
use crate::chars::spec_lines;
use crate::chars::spec_starts_with;
use crate::chars::spec_trim;
use crate::chars::split_lines;
use crate::chars::starts_with_str;
use crate::chars::subrange_in;
use crate::chars::to_chars;
use crate::chars::trim_in;
use crate::date::format_date;
use crate::date::spec_format_date;

verus! {

/// The mathematical model of a parsed document.
pub ghost struct MetaModel {
    pub title: Seq<char>,
    pub author: Seq<char>,
    pub pub_date: Seq<char>,
    pub slug: Seq<char>,
    pub draft: bool,
    pub featured: bool,
    pub tags: Seq<Seq<char>>,
    pub description: Seq<char>,
    pub body: Seq<char>,
}

/// The metadata of a document before any field line is read: absent
/// fields keep type-appropriate defaults.
pub open spec fn empty_meta() -> MetaModel {
    MetaModel {
        title: Seq::<char>::empty(),
        author: Seq::<char>::empty(),
        pub_date: Seq::<char>::empty(),
        slug: Seq::<char>::empty(),
        draft: false,
        featured: false,
        tags: Seq::<Seq<char>>::empty(),
        description: Seq::<char>::empty(),
        body: Seq::<char>::empty(),
    }
}

/// A value with one layer of surrounding double quotes removed, if both
/// ends carry one; interior quotes are kept.
pub open spec fn unquote(v: Seq<char>) -> Seq<char> {
    if v.len() >= 2 && v[0] == '"' && v[v.len() - 1] == '"' {
        v.subrange(1, v.len() - 1)
    } else {
        v
    }
}

/// One recognized field line applied to the metadata; unrecognized keys
/// change nothing.  `draft` and `featured` are true exactly on the
/// literal value `true`; `pubDatetime` is routed through the date
/// formatter.
pub open spec fn apply_field(m: MetaModel, key: Seq<char>, value: Seq<char>) -> MetaModel {
    if key == "title"@ {
        MetaModel { title: value, ..m }
    } else if key == "author"@ {
        MetaModel { author: value, ..m }
    } else if key == "pubDatetime"@ {
        MetaModel { pub_date: spec_format_date(value), ..m }
    } else if key == "slug"@ {
        MetaModel { slug: value, ..m }
    } else if key == "draft"@ {
        MetaModel { draft: value == "true"@, ..m }
    } else if key == "featured"@ {
        MetaModel { featured: value == "true"@, ..m }
    } else if key == "description"@ {
        MetaModel { description: value, ..m }
    } else {
        m
    }
}

/// The scan of the metadata block: reads lines until one trims to `---`
/// (consumed and discarded) or input ends, and returns the metadata
/// together with the lines that remain after the delimiter.  In tags
/// mode every line whose trimmed form starts with `-` adds a tag, and
/// the first line that does not is consumed and discarded.
pub open spec fn scan_meta(lines: Seq<Seq<char>>, m: MetaModel, in_tags: bool) -> (MetaModel, Seq<
    Seq<char>,
>)
    decreases lines.len(),
{
    if lines.len() == 0 {
        (m, Seq::<Seq<char>>::empty())
    } else if in_tags {
        let t = spec_trim(lines[0]);
        if spec_starts_with(t, "-"@) {
            let tag = spec_trim(t.skip(1));
            scan_meta(lines.skip(1), MetaModel { tags: m.tags.push(tag), ..m }, true)
        } else {
            scan_meta(lines.skip(1), m, false)
        }
    } else {
        let line = lines[0];
        if spec_trim(line) == "---"@ {
            (m, lines.skip(1))
        } else {
            let i = find_char(line, ':') as int;
            if i >= line.len() {
                scan_meta(lines.skip(1), m, false)
            } else {
                let key = spec_trim(line.take(i));
                let value = unquote(spec_trim(line.skip(i + 1)));
                if key == "tags"@ {
                    scan_meta(lines.skip(1), m, true)
                } else {
                    scan_meta(lines.skip(1), apply_field(m, key, value), false)
                }
            }
        }
    }
}

/// What `parse_document` computes: no result unless the very first line
/// is exactly the `---` delimiter; the metadata scan then runs on the
/// following lines, the remaining lines joined with newlines form the
/// body, and a draft document gives no result.
pub open spec fn spec_parse(text: Seq<char>) -> Option<MetaModel> {
    let lines = spec_lines(text);
    if lines.len() == 0 {
        None
    } else if lines[0] != "---"@ {
        None
    } else {
        let sm = scan_meta(lines.skip(1), empty_meta(), false);
        let m = (MetaModel { body: spec_join(sm.1), ..sm.0 });
        if m.draft {
            None
        } else {
            Some(m)
        }
    }
}

/// The metadata of one parsed document.
pub struct PostMeta {
    pub title: String,
    pub author: String,
    pub pub_date: String,
    pub slug: String,
    pub draft: bool,
    pub featured: bool,
    pub tags: Vec<String>,
    pub description: String,
    pub body: String,
}

impl View for PostMeta {
    type V = MetaModel;

    open spec fn view(&self) -> MetaModel {
        MetaModel {
            title: self.title@,
            author: self.author@,
            pub_date: self.pub_date@,
            slug: self.slug@,
            draft: self.draft,
            featured: self.featured,
            tags: self.tags.deep_view(),
            description: self.description@,
            body: self.body@,
        }
    }
}

/// `v` with one layer of surrounding double quotes removed.
fn unquote_in(v: &Vec<char>) -> (r: Vec<char>)
    ensures
        r@ == unquote(v@),
{
    if v.len() >= 2 && v[0] == '"' && v[v.len() - 1] == '"' {
        subrange_in(v, 1, v.len() - 1)
    } else {
        subrange_in(v, 0, v.len())
    }
}

/// Stores one recognized field, as `apply_field` describes.
fn apply_field_in(m: &mut PostMeta, key: &Vec<char>, value: &Vec<char>)
    ensures
        final(m)@ == apply_field(old(m)@, key@, value@),
{
    if eq_str(key, "title") {
        m.title = chars_to_string(value);
    } else if eq_str(key, "author") {
        m.author = chars_to_string(value);
    } else if eq_str(key, "pubDatetime") {
        let s = chars_to_string(value);
        m.pub_date = format_date(s.as_str());
    } else if eq_str(key, "slug") {
        m.slug = chars_to_string(value);
    } else if eq_str(key, "draft") {
        m.draft = eq_str(value, "true");
    } else if eq_str(key, "featured") {
        m.featured = eq_str(value, "true");
    } else if eq_str(key, "description") {
        m.description = chars_to_string(value);
    }
}

/// Parses a front-matter document, as `spec_parse` describes.  Absence
/// is not an error: a document whose first line is not the `---`
/// delimiter gives no result, and so does one marked `draft: true` in
/// any accepted quoting form, whatever its other fields say.
#[verifier::loop_isolation(false)]
#[verifier::rlimit(50)]
pub fn parse_document(text: &str) -> (r: Option<PostMeta>)
    ensures
        r matches Some(m) ==> spec_parse(text@) == Some(m@),
        r is Some <==> spec_parse(text@) is Some,
        spec_lines(text@).len() == 0 || spec_lines(text@)[0] != "---"@ ==> r is None,
        spec_lines(text@).len() > 0 && scan_meta(
            spec_lines(text@).skip(1),
            empty_meta(),
            false,
        ).0.draft ==> r is None,
{
    let cs = to_chars(text);
    let lines = split_lines(&cs);
    let ghost ls = lines.deep_view();
    if lines.len() == 0 {
        return None;
    }
    let first_ok = eq_str(&lines[0], "---");
    proof {
        assert(ls[0] =~= lines@[0]@);
    }
    if !first_ok {
        return None;
    }
    let mut m = PostMeta {
        title: String::new(),
        author: String::new(),
        pub_date: String::new(),
        slug: String::new(),
        draft: false,
        featured: false,
        tags: Vec::new(),
        description: String::new(),
        body: String::new(),
    };
    let mut in_tags = false;
    let mut closed = false;
    let mut i: usize = 1;
    proof {
        assert(m.tags.deep_view() =~= Seq::<Seq<char>>::empty());
        assert(m@ == empty_meta());
    }
    while i < lines.len() && !closed
        invariant
            1 <= i <= ls.len(),
            ls == lines.deep_view(),
            !closed ==> scan_meta(ls.skip(1), empty_meta(), false) == scan_meta(
                ls.skip(i as int),
                m@,
                in_tags,
            ),
            closed ==> scan_meta(ls.skip(1), empty_meta(), false) == (m@, ls.skip(i as int)),
        decreases ls.len() - i,
    {
        let ghost pre = ls.skip(i as int);
        let ghost rest = ls.skip(i + 1);
        let ghost m0 = m@;
        proof {
            assert(pre[0] =~= lines@[i as int]@);
            assert(pre.skip(1) =~= rest);
        }
        let t = trim_in(&lines[i]);
        let ghost tv = spec_trim(pre[0]);
        proof {
            assert(t@ == tv);
        }
        if in_tags {
            if starts_with_str(&t, "-") {
                proof {
                    reveal_strlit("-");
                }
                let tagc = subrange_in(&t, 1, t.len());
                let tagt = trim_in(&tagc);
                let tag = chars_to_string(&tagt);
                let ghost tags0 = m.tags.deep_view();
                m.tags.push(tag);
                proof {
                    assert(tagc@ =~= tv.skip(1));
                    assert(m.tags.deep_view() =~~= tags0.push(spec_trim(tv.skip(1))));
                    assert(m@ == (MetaModel { tags: m0.tags.push(spec_trim(tv.skip(1))), ..m0 }));
                    assert(scan_meta(pre, m0, true) == scan_meta(rest, m@, true));
                }
            } else {
                in_tags = false;
                proof {
                    assert(scan_meta(pre, m0, true) == scan_meta(rest, m0, false));
                }
            }
        } else {
            if eq_str(&t, "---") {
                closed = true;
                proof {
                    assert(scan_meta(pre, m0, false) == (m0, rest));
                }
            } else {
                let d = find_in(&lines[i], ':');
                proof {
                    lemma_find_char_le(lines@[i as int]@, ':');
                    assert(find_char(pre[0], ':') == d);
                }
                if d >= lines[i].len() {
                    proof {
                        assert(scan_meta(pre, m0, false) == scan_meta(rest, m0, false));
                    }
                } else {
                    let keyraw = subrange_in(&lines[i], 0, d);
                    let key = trim_in(&keyraw);
                    let valraw = subrange_in(&lines[i], d + 1, lines[i].len());
                    let valtrim = trim_in(&valraw);
                    let value = unquote_in(&valtrim);
                    let ghost kv = spec_trim(pre[0].take(d as int));
                    let ghost vv = unquote(spec_trim(pre[0].skip(d + 1)));
                    proof {
                        assert(keyraw@ =~= pre[0].take(d as int));
                        assert(valraw@ =~= pre[0].skip(d + 1));
                        assert(key@ == kv);
                        assert(value@ == vv);
                    }
                    if eq_str(&key, "tags") {
                        in_tags = true;
                        proof {
                            assert(scan_meta(pre, m0, false) == scan_meta(rest, m0, true));
                        }
                    } else {
                        apply_field_in(&mut m, &key, &value);
                        proof {
                            assert(m@ == apply_field(m0, kv, vv));
                            assert(scan_meta(pre, m0, false) == scan_meta(rest, m@, false));
                        }
                    }
                }
            }
        }
        i += 1;
    }
    proof {
        if !closed {
            assert(ls.skip(i as int) =~= Seq::<Seq<char>>::empty());
            assert(scan_meta(ls.skip(i as int), m@, in_tags) == (m@, ls.skip(i as int)));
        }
        assert(scan_meta(ls.skip(1), empty_meta(), false) == (m@, ls.skip(i as int)));
    }
    let bodyv = join_from(&lines, i);
    m.body = chars_to_string(&bodyv);
    proof {
        let sm = scan_meta(ls.skip(1), empty_meta(), false);
        assert(m@ == (MetaModel { body: spec_join(sm.1), ..sm.0 }));
    }
    if m.draft {
        return None;
    }
    Some(m)
}

} // verus!
