//! The query engine: a pure, read-only projection of a feed to the links that
//! pass a tag filter and an exact-timestamp filter.

use vstd::prelude::*;
use crate::model::{Feed, Link, LinkView, Timestamp, links_view};

verus! {

/// ASCII whitespace: what gets trimmed off requested tags.
pub open spec fn is_space(c: char) -> bool {
    c == ' ' || c == '\t' || c == '\n' || c == '\r' || c == '\u{c}'
}

/// `s` without its leading whitespace.
pub open spec fn trim_start_spec(s: Seq<char>) -> Seq<char>
    decreases s.len(),
{
    if s.len() > 0 && is_space(s[0]) {
        trim_start_spec(s.drop_first())
    } else {
        s
    }
}

/// `s` without its trailing whitespace.
pub open spec fn trim_end_spec(s: Seq<char>) -> Seq<char>
    decreases s.len(),
{
    if s.len() > 0 && is_space(s.last()) {
        trim_end_spec(s.drop_last())
    } else {
        s
    }
}

/// `s` without leading and trailing whitespace.
pub open spec fn trim_spec(s: Seq<char>) -> Seq<char> {
    trim_end_spec(trim_start_spec(s))
}

/// An ASCII capital letter.
pub open spec fn is_ascii_upper(c: char) -> bool {
    65 <= c as int <= 90
}

/// The two characters are equal up to ASCII case.
pub open spec fn eq_ic_char(a: char, b: char) -> bool {
    ||| a == b
    ||| (is_ascii_upper(a) && b as int == a as int + 32)
    ||| (is_ascii_upper(b) && a as int == b as int + 32)
}

/// The two strings are equal up to ASCII case.
pub open spec fn eq_ignore_case(a: Seq<char>, b: Seq<char>) -> bool {
    a.len() == b.len() && forall|i: int| 0 <= i < a.len() ==> eq_ic_char(a[i], b[i])
}

/// At least one of the link's tags matches, up to ASCII case, at least one
/// requested tag that is nonempty once trimmed.
pub open spec fn tag_matches(tags: Seq<Seq<char>>, needles: Seq<Seq<char>>) -> bool {
    exists|j: int, k: int|
        0 <= j < needles.len() && 0 <= k < tags.len() && trim_spec(needles[j]).len() > 0
            && eq_ignore_case(tags[k], trim_spec(needles[j]))
}

/// A link survives iff it passes the tag filter and the timestamp filter;
/// an absent filter passes everything.
pub open spec fn passes_filters(
    l: LinkView,
    tags_filter: Option<Seq<Seq<char>>>,
    date_filter: Option<Timestamp>,
) -> bool {
    &&& match tags_filter {
        None => true,
        Some(ns) => tag_matches(l.tags, ns),
    }
    &&& match date_filter {
        None => true,
        Some(d) => l.datetime == Some(d),
    }
}

/// The links that survive both filters, in their original order.
pub open spec fn filtered_links(
    links: Seq<LinkView>,
    tags_filter: Option<Seq<Seq<char>>>,
    date_filter: Option<Timestamp>,
) -> Seq<LinkView> {
    links.filter(|l: LinkView| passes_filters(l, tags_filter, date_filter))
}

/// View of an optional tag list as optional character sequences.
pub open spec fn opt_tags_view(o: Option<Vec<String>>) -> Option<Seq<Seq<char>>> {
    match o {
        Some(v) => Some(v.deep_view()),
        None => None,
    }
}

/// True exactly when `c` is trimmed as whitespace.
fn is_space_exec(c: char) -> (r: bool)
    ensures
        r == is_space(c),
{
    c == ' ' || c == '\t' || c == '\n' || c == '\r' || c == '\u{c}'
}

/// Relies on `String::push`: appends exactly one character.
#[verifier::external_body]
pub(crate) fn push_char(s: &mut String, c: char)
    ensures
        final(s)@ == old(s)@ + seq![c],
{
    s.push(c);
}

/// Trimming keeps exactly the characters between the first and last
/// non-whitespace positions.
proof fn lemma_trim_start_skip(s: Seq<char>, i: int)
    requires
        0 <= i <= s.len(),
        forall|j: int| 0 <= j < i ==> is_space(#[trigger] s[j]),
        i < s.len() ==> !is_space(s[i]),
    ensures
        trim_start_spec(s) == s.skip(i),
    decreases i,
{
    if i == 0 {
        assert(s.skip(0) =~= s);
    } else {
        assert(s.drop_first() =~= s.skip(1));
        lemma_trim_start_skip(s.skip(1), i - 1);
        assert(s.skip(1).skip(i - 1) =~= s.skip(i));
    }
}

proof fn lemma_trim_end_take(s: Seq<char>, j: int)
    requires
        0 <= j <= s.len(),
        forall|k: int| j <= k < s.len() ==> is_space(#[trigger] s[k]),
        j > 0 ==> !is_space(s[j - 1]),
    ensures
        trim_end_spec(s) == s.take(j),
    decreases s.len() - j,
{
    if j == s.len() {
        assert(s.take(j) =~= s);
    } else {
        assert(s.drop_last() =~= s.take(s.len() - 1));
        lemma_trim_end_take(s.take(s.len() - 1), j);
        assert(s.take(s.len() - 1).take(j) =~= s.take(j));
    }
}

/// Returns `s` without leading and trailing ASCII whitespace.
pub fn trim(s: &str) -> (r: String)
    ensures
        r@ == trim_spec(s@),
{
    let st = s;
    let n = st.unicode_len();
    let mut i: usize = 0;
    while i < n && is_space_exec(st.get_char(i))
        invariant
            i <= n,
            n == s@.len(),
            st@ == s@,
            forall|j: int| 0 <= j < i ==> is_space(#[trigger] s@[j]),
        decreases n - i,
    {
        i = i + 1;
    }
    let mut j: usize = n;
    while j > i && is_space_exec(st.get_char(j - 1))
        invariant
            i <= j <= n,
            n == s@.len(),
            st@ == s@,
            forall|k: int| j <= k < n ==> is_space(#[trigger] s@[k]),
        decreases j,
    {
        j = j - 1;
    }
    let mut out = String::new();
    let mut k: usize = i;
    while k < j
        invariant
            i <= k <= j <= n,
            n == s@.len(),
            st@ == s@,
            out@ == s@.subrange(i as int, k as int),
        decreases j - k,
    {
        push_char(&mut out, st.get_char(k));
        assert(out@ =~= s@.subrange(i as int, k as int + 1));
        k = k + 1;
    }
    proof {
        lemma_trim_start_skip(s@, i as int);
        let t = s@.skip(i as int);
        lemma_trim_end_take(t, j - i);
        assert(t.take(j - i) =~= s@.subrange(i as int, j as int));
    }
    out
}

/// True exactly when the two strings are equal up to ASCII case.
pub fn eq_ignore_case_exec(a: &String, b: &String) -> (r: bool)
    ensures
        r == eq_ignore_case(a@, b@),
{
    let sa = a.as_str();
    let sb = b.as_str();
    let na = sa.unicode_len();
    let nb = sb.unicode_len();
    if na != nb {
        return false;
    }
    let mut i: usize = 0;
    while i < na
        invariant
            i <= na,
            na == a@.len() == b@.len(),
            sa@ == a@,
            sb@ == b@,
            forall|j: int| 0 <= j < i ==> eq_ic_char(#[trigger] a@[j], b@[j]),
        decreases na - i,
    {
        let ca = sa.get_char(i);
        let cb = sb.get_char(i);
        let ua = ca as u32;
        let ub = cb as u32;
        let same = ca == cb || (65 <= ua && ua <= 90 && ub == ua + 32) || (65 <= ub && ub <= 90
            && ua == ub + 32);
        if !same {
            return false;
        }
        i = i + 1;
    }
    true
}

/// True exactly when some tag matches some trimmed, nonempty requested tag.
fn link_tag_match(tags: &Vec<String>, needles: &Vec<String>) -> (r: bool)
    ensures
        r == tag_matches(tags.deep_view(), needles.deep_view()),
{
    let ghost tv = tags.deep_view();
    let ghost nv = needles.deep_view();
    let mut j: usize = 0;
    while j < needles.len()
        invariant
            j <= needles@.len(),
            tv == tags.deep_view(),
            nv == needles.deep_view(),
            forall|j0: int, k0: int|
                0 <= j0 < j && 0 <= k0 < tv.len() ==> !(trim_spec(nv[j0]).len() > 0
                    && eq_ignore_case(tv[k0], trim_spec(nv[j0]))),
        decreases needles@.len() - j,
    {
        let needle = trim(needles[j].as_str());
        proof {
            assert(nv[j as int] == needles@[j as int]@);
        }
        if needle.as_str().unicode_len() > 0 {
            let mut k: usize = 0;
            while k < tags.len()
                invariant
                    k <= tags@.len(),
                    j < needles@.len(),
                    tv == tags.deep_view(),
                    nv == needles.deep_view(),
                    needle@ == trim_spec(nv[j as int]),
                    needle@.len() > 0,
                    forall|k0: int| 0 <= k0 < k ==> !eq_ignore_case(tv[k0], trim_spec(nv[j as int])),
                decreases tags@.len() - k,
            {
                if eq_ignore_case_exec(&tags[k], &needle) {
                    proof {
                        assert(tv[k as int] == tags@[k as int]@);
                        assert(tag_matches(tv, nv));
                    }
                    return true;
                }
                proof {
                    assert(tv[k as int] == tags@[k as int]@);
                }
                k = k + 1;
            }
        }
        j = j + 1;
    }
    false
}

/// True exactly when the link passes both filters.
fn passes_filters_exec(
    l: &Link,
    tags: &Option<Vec<String>>,
    datetime: &Option<Timestamp>,
) -> (r: bool)
    ensures
        r == passes_filters(l@, opt_tags_view(*tags), *datetime),
{
    let tag_ok = match tags {
        None => true,
        Some(ns) => link_tag_match(&l.tags, ns),
    };
    let date_ok = match datetime {
        None => true,
        Some(d) => {
            match &l.datetime {
                Some(t) => *t == *d,
                None => false,
            }
        },
    };
    tag_ok && date_ok
}

/// Projects the feed to the links that pass both filters: a requested-tag
/// match (case-insensitive, any-of, requested tags trimmed and dropped when
/// empty) and an exact timestamp match. Surviving links keep their order;
/// version and title pass through.
pub fn list(feed: Feed, tags: Option<Vec<String>>, datetime: Option<Timestamp>) -> (r: Feed)
    ensures
        r@.version == feed@.version,
        r@.title == feed@.title,
        r@.links == filtered_links(feed@.links, opt_tags_view(tags), datetime),
{
    let ghost lv = feed@.links;
    let ghost tf = opt_tags_view(tags);
    let Feed { version, title, links } = feed;
    let mut out: Vec<Link> = Vec::new();
    let mut i: usize = 0;
    while i < links.len()
        invariant
            i <= links@.len(),
            lv == links_view(links@),
            tf == opt_tags_view(tags),
            links_view(out@) == filtered_links(lv.subrange(0, i as int), tf, datetime),
        decreases links@.len() - i,
    {
        let ghost out_prev = links_view(out@);
        let ghost sub0 = lv.subrange(0, i as int);
        let ghost sub1 = lv.subrange(0, i as int + 1);
        let keep = passes_filters_exec(&links[i], &tags, &datetime);
        if keep {
            let ghost prev = out@;
            out.push(links[i].clone());
            proof {
                assert forall|t: int| 0 <= t < out@.len() implies links_view(out@)[t] == (
                out_prev.push(lv[i as int]))[t] by {
                    assert(links_view(out@)[t] == out@[t]@);
                    if t < out_prev.len() {
                        assert(out@[t] == prev[t]);
                        assert(out_prev[t] == prev[t]@);
                    }
                }
                assert(links_view(out@) =~= out_prev.push(lv[i as int]));
            }
        }
        proof {
            assert(lv[i as int] == links@[i as int]@);
            assert(sub1.drop_last() =~= sub0);
            assert(sub1.last() == lv[i as int]);
            reveal_with_fuel(Seq::filter, 2);
            assert(filtered_links(sub1, tf, datetime) == if passes_filters(
                lv[i as int],
                tf,
                datetime,
            ) {
                filtered_links(sub0, tf, datetime).push(lv[i as int])
            } else {
                filtered_links(sub0, tf, datetime)
            });
        }
        i = i + 1;
    }
    proof {
        assert(lv.subrange(0, links@.len() as int) =~= lv);
    }
    let r = Feed { version, title, links: out };
    r
}

} // verus!
