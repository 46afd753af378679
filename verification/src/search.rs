//! Search-request helpers: normalising the `sort` query parameter of the
//! URL-style search route, and merging tenant-token filter rules into a
//! request's filter.

use vstd::prelude::*;

verus! {

/// A search filter expression, as the route layer hands it to the core: an
/// array of clauses or a single clause, each clause an opaque string.
pub enum FilterValue {
    Array(Vec<String>),
    Single(String),
}

/// The model of a filter: its clauses in order.
pub open spec fn filter_clauses(f: FilterValue) -> Seq<Seq<char>> {
    match f {
        FilterValue::Array(v) => v.deep_view(),
        FilterValue::Single(s) => seq![s@],
    }
}

/// The clauses of an optional filter.
pub open spec fn opt_filter_clauses(f: Option<FilterValue>) -> Seq<Seq<char>> {
    match f {
        Some(v) => filter_clauses(v),
        None => Seq::empty(),
    }
}

/// Turns a filter into its clause list.
fn into_clauses(f: FilterValue) -> (r: Vec<String>)
    ensures
        r.deep_view() == filter_clauses(f),
{
    match f {
        FilterValue::Array(v) => v,
        FilterValue::Single(s) => {
            let mut r: Vec<String> = Vec::new();
            r.push(s);
            proof {
                assert(r.deep_view() =~= filter_clauses(FilterValue::Single(r@[0])));
            }
            r
        },
    }
}

/// Merges tenant-token search rules into a request's filter: keeps whichever
/// side is present alone, and concatenates the clause arrays when both are.
pub fn add_search_rules(query_filter: Option<FilterValue>, rules_filter: Option<FilterValue>) -> (r:
    Option<FilterValue>)
    ensures
        (query_filter is None && rules_filter is None) ==> r is None,
        !(query_filter is None && rules_filter is None) ==> (r matches Some(f) && filter_clauses(f)
            == opt_filter_clauses(query_filter) + opt_filter_clauses(rules_filter)),
{
    match (query_filter, rules_filter) {
        (None, None) => None,
        (Some(f), None) => {
            let mut clauses = into_clauses(f);
            proof {
                assert(clauses.deep_view() =~= opt_filter_clauses(Some(f)) + Seq::empty());
            }
            Some(FilterValue::Array(clauses))
        },
        (None, Some(f)) => {
            let clauses = into_clauses(f);
            proof {
                assert(clauses.deep_view() =~= Seq::<Seq<char>>::empty() + filter_clauses(f));
            }
            Some(FilterValue::Array(clauses))
        },
        (Some(a), Some(b)) => {
            let mut clauses = into_clauses(a);
            let mut more = into_clauses(b);
            let ghost ca = clauses.deep_view();
            let ghost cb = more.deep_view();
            clauses.append(&mut more);
            proof {
                assert(clauses.deep_view() =~~= ca + cb);
            }
            Some(FilterValue::Array(clauses))
        },
    }
}

// --- sort-parameter normalisation -------------------------------------------

/// ASCII whitespace, as trimmed around sort clauses.
pub open spec fn is_ws(c: char) -> bool {
    c == ' ' || c == '\t' || c == '\n' || c == '\r' || (c as u32) == 12
}

/// The first position in `[from, end)` holding no whitespace.
pub open spec fn skip_ws(s: Seq<char>, from: int, end: int) -> int
    decreases end - from,
{
    if from >= end {
        end
    } else if is_ws(s[from]) {
        skip_ws(s, from + 1, end)
    } else {
        from
    }
}

/// The position after the last non-whitespace character of `[from, end)`.
pub open spec fn rskip_ws(s: Seq<char>, from: int, end: int) -> int
    decreases end - from,
{
    if end <= from {
        from
    } else if is_ws(s[end - 1]) {
        rskip_ws(s, from, end - 1)
    } else {
        end
    }
}

/// The first position in `[from, end)` holding no double quote.
pub open spec fn skip_quotes(s: Seq<char>, from: int, end: int) -> int
    decreases end - from,
{
    if from >= end {
        end
    } else if s[from] == '"' {
        skip_quotes(s, from + 1, end)
    } else {
        from
    }
}

/// The position after the last non-quote character of `[from, end)`.
pub open spec fn rskip_quotes(s: Seq<char>, from: int, end: int) -> int
    decreases end - from,
{
    if end <= from {
        from
    } else if s[end - 1] == '"' {
        rskip_quotes(s, from, end - 1)
    } else {
        end
    }
}

/// The position of the first comma at or after `from`, or `end`.
pub open spec fn next_comma(s: Seq<char>, from: int, end: int) -> int
    decreases end - from,
{
    if from >= end {
        end
    } else if s[from] == ',' {
        from
    } else {
        next_comma(s, from + 1, end)
    }
}

/// `next_comma` stays within `[from, end]`.
proof fn lemma_next_comma_range(s: Seq<char>, from: int, end: int)
    requires
        from <= end,
    ensures
        from <= next_comma(s, from, end) <= end,
    decreases end - from,
{
    if from < end && s[from] != ',' {
        lemma_next_comma_range(s, from + 1, end);
    }
}

/// The clause between `from` and `upto`, with surrounding whitespace removed.
pub open spec fn trim_seg(s: Seq<char>, from: int, upto: int) -> Seq<char> {
    let lo = skip_ws(s, from, upto);
    let hi = rskip_ws(s, lo, upto);
    s.subrange(lo, hi)
}

/// The comma-separated, whitespace-trimmed clauses of `[from, end)`.
pub open spec fn scan_tokens(s: Seq<char>, from: int, end: int) -> Seq<Seq<char>>
    decreases end - from + 1,
        via scan_tokens_dec
{
    if from > end {
        Seq::empty()
    } else {
        let c = next_comma(s, from, end);
        if c < end {
            seq![trim_seg(s, from, c)] + scan_tokens(s, c + 1, end)
        } else {
            seq![trim_seg(s, from, end)]
        }
    }
}

#[via_fn]
proof fn scan_tokens_dec(s: Seq<char>, from: int, end: int) {
    if from <= end {
        lemma_next_comma_range(s, from, end);
    }
}

/// Whether a clause opens a geographical sort expression.
pub open spec fn starts_geo(t: Seq<char>) -> bool {
    t.len() >= 10 && t[0] == '_' && t[1] == 'g' && t[2] == 'e' && t[3] == 'o' && t[4] == 'P'
        && t[5] == 'o' && t[6] == 'i' && t[7] == 'n' && t[8] == 't' && t[9] == '('
}

/// Whether a clause closes a geographical sort expression with a direction.
pub open spec fn ends_geo(t: Seq<char>) -> bool {
    (t.len() >= 6 && t[t.len() - 6] == ')' && t[t.len() - 5] == ':' && t[t.len() - 4] == 'd'
        && t[t.len() - 3] == 'e' && t[t.len() - 2] == 's' && t[t.len() - 1] == 'c') || (t.len()
        >= 5 && t[t.len() - 5] == ')' && t[t.len() - 4] == ':' && t[t.len() - 3] == 'a' && t[t.len()
        - 2] == 's' && t[t.len() - 1] == 'c')
}

/// The state after folding the first `i` clauses: the rebuilt clause list and
/// whether an unclosed geographical expression is being merged.
pub open spec fn merge_state(toks: Seq<Seq<char>>, i: int) -> (Seq<Seq<char>>, bool)
    decreases i,
{
    if i <= 0 {
        (Seq::empty(), false)
    } else {
        let prev = merge_state(toks, i - 1);
        let t = toks[i - 1];
        if starts_geo(t) {
            (prev.0.push(t), true)
        } else if prev.1 && prev.0.len() > 0 {
            (prev.0.update(prev.0.len() - 1, prev.0.last() + seq![','] + t), !ends_geo(t))
        } else {
            (prev.0.push(t), false)
        }
    }
}

/// What the sort fix-up returns for the given query string: the clauses of
/// the quote-trimmed string, split on commas and trimmed, with the parts of
/// a comma-separated geographical expression glued back together.
pub open spec fn fix_sort_spec(s: Seq<char>) -> Seq<Seq<char>> {
    let q0 = skip_quotes(s, 0, s.len() as int);
    let q1 = rskip_quotes(s, q0, s.len() as int);
    let toks = scan_tokens(s, q0, q1);
    merge_state(toks, toks.len() as int).0
}

/// `next_comma` resolves to `b` when `[a, b)` is comma-free and `b` is a
/// comma or the end.
proof fn lemma_next_comma(s: Seq<char>, a: int, b: int, end: int)
    requires
        0 <= a <= b <= end <= s.len(),
        forall|i: int| a <= i < b ==> s[i] != ',',
        b < end ==> s[b] == ',',
    ensures
        next_comma(s, a, end) == b,
    decreases b - a,
{
    if a < b {
        lemma_next_comma(s, a + 1, b, end);
    }
}

/// A recorded comma list is correct for `[from, end)`: every entry is a
/// comma position, in increasing order, and no comma is missing.
pub open spec fn commas_ok(s: Seq<char>, from: int, end: int, commas: Seq<usize>) -> bool {
    &&& forall|j: int|
        0 <= j < commas.len() ==> from <= #[trigger] commas[j] < end && s[commas[j] as int] == ','
    &&& forall|a: int, b: int| 0 <= a < b < commas.len() ==> commas[a] < commas[b]
    &&& forall|p: int| from <= p < end && s[p] == ',' ==> commas.contains(p as usize)
}

/// The start of clause `k`: just after the previous comma.
pub open spec fn clause_start(from: int, commas: Seq<usize>, k: int) -> int {
    if k == 0 {
        from
    } else {
        commas[k - 1] + 1
    }
}

/// The end of clause `k`: the next comma, or the end of the span.
pub open spec fn clause_end(end: int, commas: Seq<usize>, k: int) -> int {
    if k < commas.len() {
        commas[k] as int
    } else {
        end
    }
}

/// One unfolding of the clause scan at clause `k`: its comma is where the
/// comma list says, and the remaining clauses follow.
proof fn lemma_scan_step(s: Seq<char>, from: int, end: int, commas: Seq<usize>, k: int)
    requires
        0 <= from <= end <= s.len(),
        end <= usize::MAX as int,
        commas_ok(s, from, end, commas),
        0 <= k <= commas.len(),
        clause_start(from, commas, k) <= end,
    ensures
        next_comma(s, clause_start(from, commas, k), end) == clause_end(end, commas, k),
        scan_tokens(s, clause_start(from, commas, k), end) == if k < commas.len() {
            seq![trim_seg(s, clause_start(from, commas, k), clause_end(end, commas, k))]
                + scan_tokens(s, clause_start(from, commas, k + 1), end)
        } else {
            seq![trim_seg(s, clause_start(from, commas, k), end)]
        },
{
    let start = clause_start(from, commas, k);
    let upto = clause_end(end, commas, k);
    assert forall|i: int| start <= i < upto implies s[i] != ',' by {
        if s[i] == ',' {
            assert(((i as usize) as int) == i);
            assert(commas.contains(i as usize));
            let j = choose|j: int| 0 <= j < commas.len() && (#[trigger] commas[j]) == i as usize;
            if j < k {
                if j < k - 1 {
                    assert(commas[j] < commas[k - 1]);
                }
                assert(commas[j] as int <= commas[k - 1] as int);
            } else {
                if k < j {
                    assert(commas[k as int] < commas[j]);
                }
                assert(k < commas.len());
                assert(commas[k as int] as int <= commas[j] as int);
            }
        }
    }
    if k < commas.len() {
        assert(s[upto] == ',');
    }
    lemma_next_comma(s, start, upto, end);
}

/// A scan over a span with `c` commas yields exactly `c + 1` clauses.
proof fn lemma_scan_len(s: Seq<char>, from: int, end: int, commas: Seq<usize>, k: int)
    requires
        0 <= from <= end <= s.len(),
        end <= usize::MAX as int,
        commas_ok(s, from, end, commas),
        0 <= k <= commas.len(),
        clause_start(from, commas, k) <= end,
    ensures
        scan_tokens(s, clause_start(from, commas, k), end).len() == commas.len() - k + 1,
    decreases commas.len() - k,
{
    lemma_scan_step(s, from, end, commas, k);
    if k < commas.len() {
        lemma_scan_len(s, from, end, commas, k + 1);
    }
}

/// Checks one character for ASCII whitespace.
fn ws_char(c: char) -> (r: bool)
    ensures
        r == is_ws(c),
{
    let v: u32 = c as u32;
    v == 32 || v == 9 || v == 10 || v == 13 || v == 12
}

/// Extracts clause `[start, upto)` of `s`, trimmed, together with whether it
/// opens and whether it closes a geographical expression.
fn clause_of(s: &str, start: usize, upto: usize) -> (r: (String, bool, bool))
    requires
        start <= upto,
        (upto as int) <= s@.len(),
    ensures
        r.0@ == trim_seg(s@, start as int, upto as int),
        r.1 == starts_geo(trim_seg(s@, start as int, upto as int)),
        r.2 == ends_geo(trim_seg(s@, start as int, upto as int)),
{
    let ghost sv = s@;
    let mut lo: usize = start;
    while lo < upto && ws_char(s.get_char(lo))
        invariant
            start <= lo <= upto,
            (upto as int) <= sv.len(),
            sv == s@,
            skip_ws(sv, start as int, upto as int) == skip_ws(sv, lo as int, upto as int),
        decreases upto - lo,
    {
        lo = lo + 1;
    }
    proof {
        assert(skip_ws(sv, lo as int, upto as int) == lo);
    }
    let mut hi: usize = upto;
    while hi > lo && ws_char(s.get_char(hi - 1))
        invariant
            lo <= hi <= upto,
            (upto as int) <= sv.len(),
            sv == s@,
            rskip_ws(sv, lo as int, upto as int) == rskip_ws(sv, lo as int, hi as int),
        decreases hi,
    {
        hi = hi - 1;
    }
    proof {
        assert(rskip_ws(sv, lo as int, hi as int) == hi);
    }
    let token: &str = s.substring_char(lo, hi);
    let ghost tk = trim_seg(sv, start as int, upto as int);
    proof {
        assert(token@ == tk);
    }
    let len: usize = hi - lo;
    let opens = len >= 10 && s.get_char(lo) == '_' && s.get_char(lo + 1) == 'g' && s.get_char(
        lo + 2,
    ) == 'e' && s.get_char(lo + 3) == 'o' && s.get_char(lo + 4) == 'P' && s.get_char(lo + 5) == 'o'
        && s.get_char(lo + 6) == 'i' && s.get_char(lo + 7) == 'n' && s.get_char(lo + 8) == 't'
        && s.get_char(lo + 9) == '(';
    let closes = (len >= 6 && s.get_char(hi - 6) == ')' && s.get_char(hi - 5) == ':' && s.get_char(
        hi - 4,
    ) == 'd' && s.get_char(hi - 3) == 'e' && s.get_char(hi - 2) == 's' && s.get_char(hi - 1) == 'c')
        || (len >= 5 && s.get_char(hi - 5) == ')' && s.get_char(hi - 4) == ':' && s.get_char(hi - 3)
        == 'a' && s.get_char(hi - 2) == 's' && s.get_char(hi - 1) == 'c');
    proof {
        assert(opens == starts_geo(tk));
        assert(closes == ends_geo(tk));
    }
    (token.to_owned(), opens, closes)
}

/// Applies one clause to the merge fold.
fn apply_clause(
    out: &mut Vec<String>,
    mg: &mut bool,
    token: String,
    opens: bool,
    closes: bool,
    Ghost(toks): Ghost<Seq<Seq<char>>>,
    Ghost(k): Ghost<int>,
)
    requires
        0 <= k < toks.len(),
        token@ == toks[k],
        opens == starts_geo(toks[k]),
        closes == ends_geo(toks[k]),
        (old(out).deep_view(), *old(mg)) == merge_state(toks, k),
    ensures
        (final(out).deep_view(), *final(mg)) == merge_state(toks, k + 1),
{
    if opens {
        out.push(token);
        *mg = true;
        proof {
            assert(out.deep_view() =~~= merge_state(toks, k + 1).0);
        }
    } else if *mg && out.len() > 0 {
        let last = match out.pop() {
            Some(p) => p,
            None => String::new(),
        };
        let glued = last.concat(",").concat(token.as_str());
        proof {
            reveal_strlit(",");
            assert(glued@ == merge_state(toks, k).0.last() + seq![','] + toks[k]);
        }
        out.push(glued);
        *mg = !closes;
        proof {
            assert(out.deep_view() =~~= merge_state(toks, k + 1).0);
        }
    } else {
        out.push(token);
        *mg = false;
        proof {
            assert(out.deep_view() =~~= merge_state(toks, k + 1).0);
        }
    }
}

/// Transforms the `sort` query parameter of the URL search route into the
/// clause list of the request-body format: clauses are split on commas and
/// trimmed, except that a comma-separated `_geoPoint(..)` expression is
/// glued back into a single clause.
#[verifier::rlimit(60)]
pub fn fix_sort_query_parameters(sort_query: &str) -> (r: Vec<String>)
    ensures
        r.deep_view() == fix_sort_spec(sort_query@),
{
    let n: usize = sort_query.unicode_len();
    let mut q0: usize = 0;
    while q0 < n && sort_query.get_char(q0) == '"'
        invariant
            q0 <= n,
            n == sort_query@.len(),
            skip_quotes(sort_query@, 0, n as int) == skip_quotes(sort_query@, q0 as int, n as int),
        decreases n - q0,
    {
        q0 = q0 + 1;
    }
    proof {
        assert(skip_quotes(sort_query@, q0 as int, n as int) == q0);
    }
    let mut q1: usize = n;
    while q1 > q0 && sort_query.get_char(q1 - 1) == '"'
        invariant
            q0 <= q1 <= n,
            n == sort_query@.len(),
            rskip_quotes(sort_query@, q0 as int, n as int) == rskip_quotes(
                sort_query@,
                q0 as int,
                q1 as int,
            ),
        decreases q1,
    {
        q1 = q1 - 1;
    }
    proof {
        assert(rskip_quotes(sort_query@, q0 as int, q1 as int) == q1);
    }
    let s = sort_query;
    let ghost sv = sort_query@;
    let mut commas: Vec<usize> = Vec::new();
    for i in q0..q1
        invariant
            q0 <= q1 <= n,
            n == sv.len(),
            sv == s@,
            commas@.len() <= i - q0,
            commas_ok(sv, q0 as int, i as int, commas@),
            forall|j: int| 0 <= j < commas@.len() ==> #[trigger] commas@[j] < i,
    {
        if s.get_char(i) == ',' {
            let ghost prev = commas@;
            commas.push(i);
            proof {
                assert forall|p: int| q0 <= p < i + 1 && sv[p] == ',' implies commas@.contains(
                    p as usize,
                ) by {
                    if p < i {
                        assert(prev.contains(p as usize));
                        let a = choose|a: int|
                            0 <= a < prev.len() && (#[trigger] prev[a]) == p as usize;
                        assert(commas@[a] == p as usize);
                    } else {
                        assert(commas@[commas@.len() - 1] == i as usize);
                    }
                }
            }
        }
    }
    let m: usize = commas.len();
    let ghost toks = scan_tokens(sv, q0 as int, q1 as int);
    let mut out: Vec<String> = Vec::new();
    let mut mg: bool = false;
    let mut start: usize = q0;
    proof {
        lemma_scan_len(sv, q0 as int, q1 as int, commas@, 0);
        assert(toks.len() == m + 1);
        assert(scan_tokens(sv, start as int, q1 as int) =~= toks.skip(0));
    }
    for k in 0..m
        invariant
            q0 <= q1 <= n,
            n == sv.len(),
            sv == s@,
            m == commas@.len(),
            m <= q1 - q0,
            commas_ok(sv, q0 as int, q1 as int, commas@),
            toks == scan_tokens(sv, q0 as int, q1 as int),
            toks.len() == m + 1,
            start == clause_start(q0 as int, commas@, k as int),
            start <= q1,
            scan_tokens(sv, start as int, q1 as int) == toks.skip(k as int),
            (out.deep_view(), mg) == merge_state(toks, k as int),
    {
        let upto: usize = commas[k];
        proof {
            lemma_scan_step(sv, q0 as int, q1 as int, commas@, k as int);
            assert(toks.skip(k as int)[0] == trim_seg(sv, start as int, upto as int));
            assert(toks[k as int] == trim_seg(sv, start as int, upto as int));
        }
        let (token, opens, closes) = clause_of(s, start, upto);
        apply_clause(&mut out, &mut mg, token, opens, closes, Ghost(toks), Ghost(k as int));
        start = commas[k] + 1;
        proof {
            assert(scan_tokens(sv, start as int, q1 as int) =~= toks.skip(k as int).skip(1));
            assert(toks.skip(k as int).skip(1) =~= toks.skip(k + 1));
        }
    }
    proof {
        lemma_scan_step(sv, q0 as int, q1 as int, commas@, m as int);
        assert(toks.skip(m as int)[0] == trim_seg(sv, start as int, q1 as int));
        assert(toks[m as int] == trim_seg(sv, start as int, q1 as int));
    }
    let (token, opens, closes) = clause_of(s, start, q1);
    apply_clause(&mut out, &mut mg, token, opens, closes, Ghost(toks), Ghost(m as int));
    proof {
        assert(out.deep_view() == merge_state(toks, toks.len() as int).0);
    }
    out
}

} // verus!
