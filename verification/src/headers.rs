//! Subset matching of an incoming header list against a registered template:
//! every registered name/value pair must be present in the incoming request
//! (names compared case-insensitively, values exactly); extra incoming
//! headers are ignored.

use vstd::prelude::*;
use vstd::string::*;
use crate::errors::ResponseErrors;
use crate::text::{lower_char, lower_char_x, str_eq};

verus! {

/// Case-insensitive equality of header names: equal length, and equal
/// character by character after ASCII case folding.
pub open spec fn ci_eq(a: Seq<char>, b: Seq<char>) -> bool {
    a.len() == b.len() && forall|i: int|
        0 <= i < a.len() ==> lower_char(a[i]) == lower_char(b[i])
}

/// Case-insensitive string equality on header names.
pub fn ci_eq_x(a: &str, b: &str) -> (r: bool)
    ensures
        r == ci_eq(a@, b@),
{
    let alen = a.unicode_len();
    let blen = b.unicode_len();
    if alen != blen {
        return false;
    }
    let mut i: usize = 0;
    while i < alen
        invariant
            alen == a@.len(),
            alen == b@.len(),
            i <= alen,
            forall|j: int| 0 <= j < i ==> lower_char(a@[j]) == lower_char(b@[j]),
        decreases alen - i,
    {
        if lower_char_x(a.get_char(i)) != lower_char_x(b.get_char(i)) {
            return false;
        }
        i = i + 1;
    }
    true
}

/// The value of the first header in `hs` whose name equals `name`
/// case-insensitively, if any.
pub open spec fn lookup_header(hs: Seq<(Seq<char>, Seq<char>)>, name: Seq<char>) -> Option<
    Seq<char>,
>
    decreases hs.len(),
{
    if hs.len() == 0 {
        None
    } else if ci_eq(hs[0].0, name) {
        Some(hs[0].1)
    } else {
        lookup_header(hs.drop_first(), name)
    }
}

/// Verdict of holding an incoming header list against a template: matched,
/// or the name of the first template header that is missing or carries the
/// wrong value.
pub enum HeaderCheckV {
    Matched,
    Missing(Seq<char>),
    Mismatch(Seq<char>),
}

/// Walks the template in order; the first pair without a case-insensitive
/// name match in `inc` yields `Missing`, the first whose found value differs
/// yields `Mismatch`.
pub open spec fn check_headers(
    tpl: Seq<(Seq<char>, Seq<char>)>,
    inc: Seq<(Seq<char>, Seq<char>)>,
) -> HeaderCheckV
    decreases tpl.len(),
{
    if tpl.len() == 0 {
        HeaderCheckV::Matched
    } else {
        match lookup_header(inc, tpl[0].0) {
            None => HeaderCheckV::Missing(tpl[0].0),
            Some(v) => if v == tpl[0].1 {
                check_headers(tpl.drop_first(), inc)
            } else {
                HeaderCheckV::Mismatch(tpl[0].0)
            },
        }
    }
}

/// The template is fully satisfied by the incoming headers.
pub open spec fn headers_match(
    tpl: Seq<(Seq<char>, Seq<char>)>,
    inc: Seq<(Seq<char>, Seq<char>)>,
) -> bool {
    check_headers(tpl, inc) is Matched
}

/// How an executable match result must mirror the mathematical verdict.
pub open spec fn header_result_matches(c: HeaderCheckV, r: Result<(), ResponseErrors>) -> bool {
    match c {
        HeaderCheckV::Matched => r is Ok,
        HeaderCheckV::Missing(n) => r matches Err(ResponseErrors::MissingHeader(m)) && m@ == n,
        HeaderCheckV::Mismatch(n) => r matches Err(ResponseErrors::HeaderMismatch(m)) && m@
            == n,
    }
}

/// A name that resolves in an incoming header list still resolves, to the
/// same value, after any further headers are appended.
pub proof fn lemma_lookup_append(
    inc: Seq<(Seq<char>, Seq<char>)>,
    extra: Seq<(Seq<char>, Seq<char>)>,
    name: Seq<char>,
)
    requires
        lookup_header(inc, name) is Some,
    ensures
        lookup_header(inc + extra, name) == lookup_header(inc, name),
    decreases inc.len(),
{
    if inc.len() == 0 {
    } else {
        assert((inc + extra)[0] == inc[0]);
        assert((inc + extra).len() > 0);
        if ci_eq(inc[0].0, name) {
        } else {
            assert((inc + extra).drop_first() =~= inc.drop_first() + extra);
            lemma_lookup_append(inc.drop_first(), extra, name);
        }
    }
}

/// Subset-match permissiveness: an incoming request that satisfies the
/// template still satisfies it after any extra, unregistered headers are
/// appended; extra headers are ignored.
pub proof fn lemma_subset_match_permissive(
    tpl: Seq<(Seq<char>, Seq<char>)>,
    inc: Seq<(Seq<char>, Seq<char>)>,
    extra: Seq<(Seq<char>, Seq<char>)>,
)
    requires
        headers_match(tpl, inc),
    ensures
        headers_match(tpl, inc + extra),
    decreases tpl.len(),
{
    if tpl.len() == 0 {
    } else {
        lemma_lookup_append(inc, extra, tpl[0].0);
        lemma_subset_match_permissive(tpl.drop_first(), inc, extra);
    }
}

/// Copies a header list pair by pair.
pub fn copy_headers(hs: &Vec<(String, String)>) -> (r: Vec<(String, String)>)
    ensures
        r.deep_view() == hs.deep_view(),
{
    let mut out: Vec<(String, String)> = Vec::new();
    let mut i: usize = 0;
    while i < hs.len()
        invariant
            i <= hs.len(),
            out.len() == i,
            out.deep_view() == hs.deep_view().take(i as int),
        decreases hs.len() - i,
    {
        let ghost prevv = out@;
        let ghost prevdv = out.deep_view();
        let pair = &hs[i];
        out.push((pair.0.clone(), pair.1.clone()));
        proof {
            assert(out@ =~= prevv.push(out@[i as int]));
            assert(out@[i as int].0@ == hs@[i as int].0@);
            assert(out@[i as int].1@ == hs@[i as int].1@);
            assert forall|j: int| 0 <= j < i + 1 implies out.deep_view()[j] == hs.deep_view()[j]
                by {
                assert(out.deep_view()[j] == out@[j].deep_view());
                assert(hs.deep_view()[j] == hs@[j].deep_view());
                if j < i {
                    assert(out@[j] == prevv[j]);
                    assert(prevdv[j] == prevv[j].deep_view());
                    assert(prevdv[j] == hs.deep_view().take(i as int)[j]);
                }
            }
            assert(out.deep_view() =~= hs.deep_view().take(i as int + 1));
        }
        i = i + 1;
    }
    proof {
        assert(out.deep_view() =~= hs.deep_view());
    }
    out
}

/// Finds the first incoming header whose name matches `name`
/// case-insensitively and hands back a copy of its value.
pub fn find_header(inc: &Vec<(String, String)>, name: &str) -> (r: Option<String>)
    ensures
        match r {
            Some(v) => lookup_header(inc.deep_view(), name@) == Some(v@),
            None => lookup_header(inc.deep_view(), name@) is None,
        },
{
    let ghost full: Seq<(Seq<char>, Seq<char>)> = inc.deep_view();
    proof {
        assert(full.skip(0) =~= full);
    }
    let mut i: usize = 0;
    while i < inc.len()
        invariant
            full == inc.deep_view(),
            i <= inc.len(),
            full.len() == inc.len(),
            lookup_header(full, name@) == lookup_header(full.skip(i as int), name@),
        decreases inc.len() - i,
    {
        proof {
            assert(full.skip(i as int).len() > 0);
            assert(full.skip(i as int)[0] == full[i as int]);
            assert(full[i as int] == (inc@[i as int].0@, inc@[i as int].1@));
        }
        let pair = &inc[i];
        if ci_eq_x(pair.0.as_str(), name) {
            return Some(pair.1.clone());
        }
        proof {
            assert(full.skip(i as int).drop_first() =~= full.skip(i as int + 1));
        }
        i = i + 1;
    }
    proof {
        assert(full.skip(i as int).len() == 0);
    }
    None
}

/// Checks every registered header against the incoming list and reports the
/// exact verdict of `check_headers`: `Ok` on full subset match, otherwise the first
/// missing or mismatched registered name.
pub fn match_headers(template: &Vec<(String, String)>, incoming: &Vec<(String, String)>) -> (r:
    Result<(), ResponseErrors>)
    ensures
        header_result_matches(check_headers(template.deep_view(), incoming.deep_view()), r),
{
    let ghost tpl: Seq<(Seq<char>, Seq<char>)> = template.deep_view();
    let ghost inc: Seq<(Seq<char>, Seq<char>)> = incoming.deep_view();
    proof {
        assert(tpl.skip(0) =~= tpl);
    }
    let mut i: usize = 0;
    while i < template.len()
        invariant
            tpl == template.deep_view(),
            inc == incoming.deep_view(),
            i <= template.len(),
            tpl.len() == template.len(),
            check_headers(tpl, inc) == check_headers(tpl.skip(i as int), inc),
        decreases template.len() - i,
    {
        proof {
            assert(tpl.skip(i as int).len() > 0);
            assert(tpl.skip(i as int)[0] == tpl[i as int]);
            assert(tpl[i as int] == (template@[i as int].0@, template@[i as int].1@));
        }
        let pair = &template[i];
        match find_header(incoming, pair.0.as_str()) {
            None => {
                return Err(ResponseErrors::MissingHeader(pair.0.clone()));
            },
            Some(v) => {
                if !str_eq(v.as_str(), pair.1.as_str()) {
                    return Err(ResponseErrors::HeaderMismatch(pair.0.clone()));
                }
            },
        }
        proof {
            assert(tpl.skip(i as int).drop_first() =~= tpl.skip(i as int + 1));
        }
        i = i + 1;
    }
    proof {
        assert(tpl.skip(i as int).len() == 0);
    }
    Ok(())
}

} // verus!
