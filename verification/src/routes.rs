//! The route table: which method and path reach which operation, and the
//! parsing of the list query string. Identifier path segments are accepted
//! in the canonical hyphenated form, case-insensitively, and normalized to
//! lowercase; anything else falls through as unmatched, as an unparseable
//! query does for the list route.

use vstd::prelude::*;
use vstd::string::*;
use crate::codec::{lower_hex_string, to_lower_hex};
use crate::models::{is_uuid, is_uuid_string, ListOptions};

verus! {

/// A matched route: the operation to run, with what the URL carries.
pub enum Route {
    List(ListOptions),
    Create,
    Update,
    Delete(String),
}

/// The end of the query segment starting at `i`: the next `&` or the end.
pub open spec fn seg_end(q: Seq<char>, i: int) -> int
    decreases q.len() - i,
{
    if 0 <= i && i < q.len() && q[i] != '&' {
        seg_end(q, i + 1)
    } else {
        i
    }
}

proof fn lemma_seg_end_bounds(q: Seq<char>, i: int)
    requires
        0 <= i <= q.len(),
    ensures
        i <= seg_end(q, i) <= q.len(),
    decreases q.len() - i,
{
    if i < q.len() && q[i] != '&' {
        lemma_seg_end_bounds(q, i + 1);
    }
}

/// The position of the first `=` in the segment `[i, e)`, or `e`.
pub open spec fn eq_pos(q: Seq<char>, i: int, e: int) -> int
    decreases e - i,
{
    if 0 <= i && i < e && i < q.len() && q[i] != '=' {
        eq_pos(q, i + 1, e)
    } else {
        i
    }
}

/// Whether every character of `s` is a decimal digit, and there is one.
pub open spec fn is_digits(s: Seq<char>) -> bool {
    s.len() > 0 && forall|i: int| 0 <= i < s.len() ==> '0' <= #[trigger] s[i] && s[i] <= '9'
}

/// The number the digit string stands for.
pub open spec fn digits_val(s: Seq<char>) -> int
    decreases s.len(),
{
    if s.len() == 0 {
        0
    } else {
        digits_val(s.drop_last()) * 10 + (s.last() as int - '0' as int)
    }
}

/// The meaning of a query value as a record count: a non-empty all-digit
/// string whose value fits the machine; anything else is rejected.
pub open spec fn spec_parse_usize(s: Seq<char>) -> Option<usize> {
    if is_digits(s) && digits_val(s) <= usize::MAX {
        Some(digits_val(s) as usize)
    } else {
        None
    }
}

/// The meaning of the query string from position `i`, with the parameters
/// seen so far: segments split on `&`, each split at its first `=`;
/// `offset` and `limit` take a count and may appear once; unknown
/// parameters are ignored; empty segments are skipped.
pub open spec fn spec_parse_opts_from(
    q: Seq<char>,
    i: int,
    offset: Option<usize>,
    limit: Option<usize>,
) -> Option<ListOptions>
    decreases q.len() - i,
        via spec_parse_opts_from_dec
{
    if !(0 <= i) {
        None
    } else if i >= q.len() {
        Some(ListOptions { offset, limit })
    } else if q[i] == '&' {
        spec_parse_opts_from(q, i + 1, offset, limit)
    } else {
        let e = seg_end(q, i);
        let p = eq_pos(q, i, e);
        let key = q.subrange(i, p);
        let val = if p < e {
            q.subrange(p + 1, e)
        } else {
            Seq::empty()
        };
        let next = if e < q.len() {
            e + 1
        } else {
            e
        };
        if key == "offset"@ {
            match offset {
                Some(_) => None,
                None => match spec_parse_usize(val) {
                    Some(v) => spec_parse_opts_from(q, next, Some(v), limit),
                    None => None,
                },
            }
        } else if key == "limit"@ {
            match limit {
                Some(_) => None,
                None => match spec_parse_usize(val) {
                    Some(v) => spec_parse_opts_from(q, next, offset, Some(v)),
                    None => None,
                },
            }
        } else {
            spec_parse_opts_from(q, next, offset, limit)
        }
    }
}

#[via_fn]
proof fn spec_parse_opts_from_dec(
    q: Seq<char>,
    i: int,
    offset: Option<usize>,
    limit: Option<usize>,
) {
    if 0 <= i && i < q.len() && q[i] != '&' {
        lemma_seg_end_bounds(q, i + 1);
        assert(seg_end(q, i) == seg_end(q, i + 1));
    }
}

/// The meaning of a whole query string.
pub open spec fn spec_parse_opts(q: Seq<char>) -> Option<ListOptions> {
    spec_parse_opts_from(q, 0, None, None)
}

/// Advances to the end of the query segment starting at `i`.
fn seg_end_at(q: &str, i: usize) -> (e: usize)
    requires
        i <= q@.len(),
    ensures
        e == seg_end(q@, i as int),
        i <= e <= q@.len(),
{
    let n = q.unicode_len();
    let mut j = i;
    loop
        invariant
            n == q@.len(),
            i <= j <= n,
            seg_end(q@, i as int) == seg_end(q@, j as int),
        decreases n - j,
    {
        if j == n {
            return j;
        }
        if q.get_char(j) == '&' {
            return j;
        }
        j = j + 1;
    }
}

/// Advances to the first `=` in `[i, e)`, or to `e`.
fn eq_pos_at(q: &str, i: usize, e: usize) -> (p: usize)
    requires
        i <= e <= q@.len(),
    ensures
        p == eq_pos(q@, i as int, e as int),
        i <= p <= e,
{
    let mut j = i;
    loop
        invariant
            i <= j <= e <= q@.len(),
            eq_pos(q@, i as int, e as int) == eq_pos(q@, j as int, e as int),
        decreases e - j,
    {
        if j == e {
            return j;
        }
        if q.get_char(j) == '=' {
            return j;
        }
        j = j + 1;
    }
}

/// Whether the characters of `s` in `[i, p)` are exactly `lit`.
fn range_is(s: &str, i: usize, p: usize, lit: &str) -> (r: bool)
    requires
        i <= p <= s@.len(),
    ensures
        r == (s@.subrange(i as int, p as int) == lit@),
{
    let ll = lit.unicode_len();
    if p - i != ll {
        proof {
            assert(s@.subrange(i as int, p as int).len() != lit@.len());
        }
        return false;
    }
    let mut j: usize = 0;
    while j < ll
        invariant
            i <= p <= s@.len(),
            ll == lit@.len() == p - i,
            0 <= j <= ll,
            forall|m: int| 0 <= m < j ==> s@[i + m] == lit@[m],
        decreases ll - j,
    {
        if s.get_char(i + j) != lit.get_char(j) {
            proof {
                assert(s@.subrange(i as int, p as int)[j as int] != lit@[j as int]);
            }
            return false;
        }
        j = j + 1;
    }
    proof {
        assert(s@.subrange(i as int, p as int) =~= lit@);
    }
    true
}

proof fn lemma_digits_val_bounds(s: Seq<char>)
    requires
        forall|i: int| 0 <= i < s.len() ==> '0' <= #[trigger] s[i] && s[i] <= '9',
    ensures
        digits_val(s) >= 0,
    decreases s.len(),
{
    if s.len() > 0 {
        lemma_digits_val_bounds(s.drop_last());
    }
}

proof fn lemma_digits_val_monotone(s: Seq<char>, j: int, k: int)
    requires
        forall|i: int| 0 <= i < s.len() ==> '0' <= #[trigger] s[i] && s[i] <= '9',
        0 <= j <= k <= s.len(),
    ensures
        digits_val(s.take(j)) <= digits_val(s.take(k)),
    decreases k - j,
{
    if j < k {
        lemma_digits_val_monotone(s, j, k - 1);
        let t = s.take(k);
        assert(t.drop_last() =~= s.take(k - 1));
        lemma_digits_val_bounds(s.take(k - 1));
    }
}

/// Parses the characters of `s` in `[from, to)` as a record count.
fn parse_usize_range(s: &str, from: usize, to: usize) -> (r: Option<usize>)
    requires
        from <= to <= s@.len(),
    ensures
        r == spec_parse_usize(s@.subrange(from as int, to as int)),
{
    let ghost sub = s@.subrange(from as int, to as int);
    if from == to {
        proof {
            assert(!is_digits(sub));
        }
        return None;
    }
    let mut acc: usize = 0;
    let mut j = from;
    while j < to
        invariant
            from <= j <= to <= s@.len(),
            sub == s@.subrange(from as int, to as int),
            sub.len() == to - from,
            forall|m: int| 0 <= m < j - from ==> '0' <= #[trigger] sub[m] && sub[m] <= '9',
            acc == digits_val(sub.take(j - from)),
        decreases to - j,
    {
        let c = s.get_char(j);
        if !('0' <= c && c <= '9') {
            proof {
                assert(sub[j - from] == c);
                assert(!is_digits(sub));
            }
            return None;
        }
        let d = (c as u32 - '0' as u32) as usize;
        proof {
            assert(sub.take(j - from + 1).drop_last() =~= sub.take(j - from));
            assert(sub.take(j - from + 1).last() == sub[j - from]);
            assert(sub[j - from] == c);
        }
        if acc > usize::MAX / 10 || (acc == usize::MAX / 10 && d > usize::MAX % 10) {
            proof {
                let w = j - from + 1;
                assert(digits_val(sub.take(w)) == acc * 10 + d);
                assert(digits_val(sub.take(w)) > usize::MAX);
                if is_digits(sub) {
                    lemma_digits_val_monotone(sub, w, sub.len() as int);
                    assert(sub.take(sub.len() as int) =~= sub);
                    assert(digits_val(sub) > usize::MAX);
                }
            }
            return None;
        }
        acc = acc * 10 + d;
        j = j + 1;
    }
    proof {
        assert(sub.take(sub.len() as int) =~= sub);
        assert(is_digits(sub));
    }
    Some(acc)
}

/// Parses a list query string, as `spec_parse_opts` says.
pub fn parse_list_options(q: &str) -> (r: Option<ListOptions>)
    ensures
        r == spec_parse_opts(q@),
{
    let n = q.unicode_len();
    let mut i: usize = 0;
    let mut offset: Option<usize> = None;
    let mut limit: Option<usize> = None;
    loop
        invariant
            n == q@.len(),
            0 <= i <= n,
            spec_parse_opts(q@) == spec_parse_opts_from(q@, i as int, offset, limit),
        decreases n - i,
    {
        if i == n {
            return Some(ListOptions { offset, limit });
        }
        if q.get_char(i) == '&' {
            i = i + 1;
            continue;
        }
        let e = seg_end_at(q, i);
        let p = eq_pos_at(q, i, e);
        let next = if e < n {
            e + 1
        } else {
            e
        };
        let parsed: Option<usize>;
        let is_offset = range_is(q, i, p, "offset");
        let is_limit = if is_offset {
            false
        } else {
            range_is(q, i, p, "limit")
        };
        if is_offset || is_limit {
            if p < e {
                parsed = parse_usize_range(q, p + 1, e);
            } else {
                proof {
                    assert(!is_digits(Seq::<char>::empty()));
                }
                parsed = None;
            }
            match parsed {
                None => {
                    return None;
                },
                Some(v) => {
                    if is_offset {
                        if offset.is_some() {
                            return None;
                        }
                        offset = Some(v);
                    } else {
                        if limit.is_some() {
                            return None;
                        }
                        limit = Some(v);
                    }
                },
            }
        }
        i = next;
    }
}

/// Matches a request against the route table. `GET`, `POST` and `PUT` on
/// `/todos` reach list, create and update; `DELETE` on `/todos/` followed
/// by an identifier reaches delete with the identifier normalized to
/// lowercase. Anything else, a list query that does not parse included,
/// matches no route.
pub fn route(method: &str, path: &str, query: &str) -> (r: Option<Route>)
    ensures
        match r {
            Some(Route::List(o)) => method@ == "GET"@ && path@ == "/todos"@ && spec_parse_opts(
                query@,
            ) == Some(o),
            Some(Route::Create) => method@ == "POST"@ && path@ == "/todos"@,
            Some(Route::Update) => method@ == "PUT"@ && path@ == "/todos"@,
            Some(Route::Delete(id)) => method@ == "DELETE"@ && path@.len() == 43 && path@.take(7)
                == "/todos/"@ && id@ == to_lower_hex(path@.skip(7)) && is_uuid(id@),
            None => {
                &&& !(method@ == "GET"@ && path@ == "/todos"@ && spec_parse_opts(query@) is Some)
                &&& !(method@ == "POST"@ && path@ == "/todos"@)
                &&& !(method@ == "PUT"@ && path@ == "/todos"@)
                &&& !(method@ == "DELETE"@ && path@.len() == 43 && path@.take(7) == "/todos/"@
                    && is_uuid(to_lower_hex(path@.skip(7))))
            },
        },
{
    proof {
        reveal_strlit("GET");
        reveal_strlit("POST");
        reveal_strlit("PUT");
        reveal_strlit("DELETE");
        reveal_strlit("/todos");
        reveal_strlit("/todos/");
        assert("GET"@ != "PUT"@) by {
            assert("GET"@[0] == 'G' && "PUT"@[0] == 'P');
        }
    }
    let pn = path.unicode_len();
    let mn = method.unicode_len();
    proof {
        assert(path@.subrange(0, path@.len() as int) =~= path@);
        assert(method@.subrange(0, method@.len() as int) =~= method@);
    }
    let is_todos = range_is(path, 0, pn, "/todos");
    let is_get = range_is(method, 0, mn, "GET");
    let is_post = range_is(method, 0, mn, "POST");
    let is_put = range_is(method, 0, mn, "PUT");
    let is_delete = range_is(method, 0, mn, "DELETE");
    if is_todos && is_get {
        let parsed = parse_list_options(query);
        match parsed {
            Some(o) => {
                proof {
                    assert(method@ == "GET"@);
                    assert(path@ == "/todos"@);
                    assert(spec_parse_opts(query@) == Some(o));
                }
                return Some(Route::List(o));
            },
            None => {
                proof {
                    assert(!(method@ == "GET"@ && path@ == "/todos"@ && spec_parse_opts(query@)
                        is Some));
                    assert(!(method@ == "POST"@ && path@ == "/todos"@));
                    assert(!(method@ == "PUT"@ && path@ == "/todos"@));
                    assert(!(method@ == "DELETE"@ && path@.len() == 43 && path@.take(7)
                        == "/todos/"@ && is_uuid(to_lower_hex(path@.skip(7)))));
                }
                return None;
            },
        }
    }
    if is_todos && is_post {
        return Some(Route::Create);
    }
    if is_todos && is_put {
        return Some(Route::Update);
    }
    if is_delete && pn == 43 {
        let pref = range_is(path, 0, 7, "/todos/");
        proof {
            assert(path@.subrange(0, 7) =~= path@.take(7));
        }
        if pref {
            let seg = path.substring_char(7, 43);
            proof {
                assert(seg@ =~= path@.skip(7));
            }
            let id = lower_hex_string(seg);
            if is_uuid_string(id.as_str()) {
                return Some(Route::Delete(id));
            }
            return None;
        }
        return None;
    }
    None
}

} // verus!
