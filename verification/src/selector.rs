//! Task selectors: a single id (`5`) or a closed range (`3-7`).
use vstd::prelude::*;
use vstd::string::*;

verus! {

/// A decimal digit.
pub open spec fn is_digit(c: char) -> bool {
    '0' <= c && c <= '9'
}

pub open spec fn digit_value(c: char) -> int {
    c as int - '0' as int
}

pub open spec fn all_digits(s: Seq<char>) -> bool {
    forall|i: int| 0 <= i < s.len() ==> is_digit(#[trigger] s[i])
}

/// The number that a string of decimal digits denotes.
pub open spec fn decimal_value(s: Seq<char>) -> int
    decreases s.len(),
{
    if s.len() == 0 {
        0
    } else {
        decimal_value(s.drop_last()) * 10 + digit_value(s.last())
    }
}

/// What follows an optional leading `+`.
pub open spec fn unsigned_body(s: Seq<char>) -> Seq<char> {
    if s.len() > 0 && s[0] == '+' {
        s.drop_first()
    } else {
        s
    }
}

/// How `u64` is read from text: an optional `+`, then one or more decimal
/// digits whose value fits in 64 bits.
pub open spec fn parse_u64(s: Seq<char>) -> Option<u64> {
    let body = unsigned_body(s);
    if body.len() > 0 && all_digits(body) && decimal_value(body) <= u64::MAX {
        Some(decimal_value(body) as u64)
    } else {
        None
    }
}

/// Why a selector was refused; each variant carries the offending text.
pub enum SelectorFault {
    RangeStart(Seq<char>),
    RangeEnd(Seq<char>),
    Reversed(Seq<char>),
    Id(Seq<char>),
}

/// A selector that could not be read.
#[derive(Debug)]
pub enum SelectorError {
    /// The text before the first `-` is not an id.
    InvalidRangeStart(String),
    /// The text after the first `-` is not an id.
    InvalidRangeEnd(String),
    /// The range ends below its start; carries the whole selector.
    ReversedRange(String),
    /// A selector without `-` that is not an id.
    InvalidId(String),
}

impl View for SelectorError {
    type V = SelectorFault;

    open spec fn view(&self) -> SelectorFault {
        match self {
            SelectorError::InvalidRangeStart(s) => SelectorFault::RangeStart(s@),
            SelectorError::InvalidRangeEnd(s) => SelectorFault::RangeEnd(s@),
            SelectorError::ReversedRange(s) => SelectorFault::Reversed(s@),
            SelectorError::InvalidId(s) => SelectorFault::Id(s@),
        }
    }
}

/// `p` is the position of the first `-` in `s`.
pub open spec fn is_first_dash(s: Seq<char>, p: int) -> bool {
    &&& 0 <= p < s.len()
    &&& s[p] == '-'
    &&& forall|j: int| 0 <= j < p ==> s[j] != '-'
}

/// The inclusive bounds that a selector denotes, or why it is refused.
/// The text is split at its first `-`, if it has one.
pub open spec fn selector_bounds(s: Seq<char>) -> Result<(u64, u64), SelectorFault> {
    if exists|p: int| is_first_dash(s, p) {
        let p = choose|p: int| is_first_dash(s, p);
        let a = s.subrange(0, p);
        let b = s.subrange(p + 1, s.len() as int);
        match parse_u64(a) {
            None => Err(SelectorFault::RangeStart(a)),
            Some(lo) => match parse_u64(b) {
                None => Err(SelectorFault::RangeEnd(b)),
                Some(hi) => if hi < lo {
                    Err(SelectorFault::Reversed(s))
                } else {
                    Ok((lo, hi))
                },
            },
        }
    } else {
        match parse_u64(s) {
            None => Err(SelectorFault::Id(s)),
            Some(id) => Ok((id, id)),
        }
    }
}

/// The ids `lo, lo + 1, ..., hi`.
pub open spec fn ids_between(lo: u64, hi: u64) -> Seq<u64> {
    Seq::new((hi - lo + 1) as nat, |i: int| (lo + i) as u64)
}

/// The ids that a list of selectors denotes, or the fault of the first
/// selector that is refused.
pub open spec fn expansion(ss: Seq<Seq<char>>) -> Result<Set<u64>, SelectorFault>
    decreases ss.len(),
{
    if ss.len() == 0 {
        Ok(Set::empty())
    } else {
        match expansion(ss.drop_last()) {
            Err(f) => Err(f),
            Ok(ids) => match selector_bounds(ss.last()) {
                Err(f) => Err(f),
                Ok((lo, hi)) => Ok(ids.union(Set::new(|x: u64| lo <= x && x <= hi))),
            },
        }
    }
}

/// Each element is smaller than the next.
pub open spec fn strictly_increasing(s: Seq<u64>) -> bool {
    forall|i: int, j: int| 0 <= i < j < s.len() ==> s[i] < s[j]
}

/// `target` lists the distinct values of `ids` in increasing order.
pub open spec fn is_resolution(target: Seq<u64>, ids: Seq<u64>) -> bool {
    &&& strictly_increasing(target)
    &&& forall|x: u64| target.contains(x) <==> ids.contains(x)
}

/// The distinct values of `ids` in increasing order.
pub open spec fn resolution(ids: Seq<u64>) -> Seq<u64> {
    choose|target: Seq<u64>| is_resolution(target, ids)
}

/// Two increasing sequences with the same values are equal.
pub proof fn lemma_increasing_unique(a: Seq<u64>, b: Seq<u64>)
    requires
        strictly_increasing(a),
        strictly_increasing(b),
        forall|x: u64| a.contains(x) <==> b.contains(x),
    ensures
        a == b,
    decreases a.len(),
{
    if a.len() == 0 {
        if b.len() > 0 {
            assert(b.contains(b[0]));
        }
        assert(a =~= b);
    } else {
        assert(a.contains(a.last()));
        assert(b.len() > 0);
        assert(b.contains(b.last()));
        let ka = choose|k: int| 0 <= k < a.len() && a[k] == b.last();
        let kb = choose|k: int| 0 <= k < b.len() && b[k] == a.last();
        assert(b.last() <= a.last()) by {
            if ka < a.len() - 1 {
                assert(a[ka] < a[a.len() - 1]);
            }
        }
        assert(a.last() <= b.last()) by {
            if kb < b.len() - 1 {
                assert(b[kb] < b[b.len() - 1]);
            }
        }
        let a2 = a.drop_last();
        let b2 = b.drop_last();
        assert forall|x: u64| a2.contains(x) <==> b2.contains(x) by {
            if a2.contains(x) {
                let k = choose|k: int| 0 <= k < a2.len() && a2[k] == x;
                assert(a[k] == x);
                assert(a.contains(x));
                let m = choose|m: int| 0 <= m < b.len() && b[m] == x;
                assert(x < a.last());
                assert(m != b.len() - 1);
                assert(b2[m] == x);
            }
            if b2.contains(x) {
                let k = choose|k: int| 0 <= k < b2.len() && b2[k] == x;
                assert(b[k] == x);
                assert(b.contains(x));
                let m = choose|m: int| 0 <= m < a.len() && a[m] == x;
                assert(x < b.last());
                assert(m != a.len() - 1);
                assert(a2[m] == x);
            }
        }
        lemma_increasing_unique(a2, b2);
        assert(a =~= a2.push(a.last()));
        assert(b =~= b2.push(b.last()));
    }
}

/// A computed resolution is the resolution.
pub proof fn lemma_resolution(target: Seq<u64>, ids: Seq<u64>)
    requires
        is_resolution(target, ids),
    ensures
        resolution(ids) == target,
{
    let r = resolution(ids);
    assert(is_resolution(r, ids));
    lemma_increasing_unique(r, target);
}

pub open spec fn texts(ss: Seq<String>) -> Seq<Seq<char>> {
    ss.map_values(|s: String| s@)
}

proof fn lemma_all_digits_drop_last(s: Seq<char>)
    requires
        s.len() > 0,
        all_digits(s),
    ensures
        all_digits(s.drop_last()),
{
    assert forall|i: int| 0 <= i < s.drop_last().len() implies is_digit(#[trigger] s.drop_last()[i]) by {
        assert(s.drop_last()[i] == s[i]);
    }
}

proof fn lemma_decimal_nonneg(s: Seq<char>)
    requires
        all_digits(s),
    ensures
        decimal_value(s) >= 0,
    decreases s.len(),
{
    if s.len() > 0 {
        lemma_all_digits_drop_last(s);
        lemma_decimal_nonneg(s.drop_last());
        assert(is_digit(s[s.len() - 1]));
    }
}

/// A prefix of a string of digits denotes no more than the whole string.
proof fn lemma_decimal_prefix(s: Seq<char>, k: int)
    requires
        all_digits(s),
        0 <= k <= s.len(),
    ensures
        decimal_value(s.take(k)) <= decimal_value(s),
    decreases s.len(),
{
    if k == s.len() {
        assert(s.take(k) =~= s);
    } else {
        let t = s.drop_last();
        lemma_all_digits_drop_last(s);
        lemma_decimal_prefix(t, k);
        assert(t.take(k) =~= s.take(k));
        lemma_decimal_nonneg(t);
        assert(is_digit(s[s.len() - 1]));
    }
}

/// Reads a `u64` from the characters `from..to` of `s`.
fn parse_u64_between(s: &str, from: usize, to: usize) -> (r: Option<u64>)
    requires
        from <= to <= s@.len(),
    ensures
        r == parse_u64(s@.subrange(from as int, to as int)),
{
    let ghost text = s@.subrange(from as int, to as int);
    let mut start = from;
    if from < to && s.get_char(from) == '+' {
        start = from + 1;
    }
    let ghost body = s@.subrange(start as int, to as int);
    assert(body =~= unsigned_body(text));
    if start == to {
        return None;
    }
    let mut acc: u64 = 0;
    let mut i = start;
    assert(s@.subrange(start as int, start as int) =~= Seq::<char>::empty());
    while i < to
        invariant
            from <= start < to <= s@.len(),
            start <= i <= to,
            body == s@.subrange(start as int, to as int),
            body == unsigned_body(text),
            text == s@.subrange(from as int, to as int),
            all_digits(s@.subrange(start as int, i as int)),
            acc == decimal_value(s@.subrange(start as int, i as int)),
        decreases to - i,
    {
        let c = s.get_char(i);
        let ghost prefix = s@.subrange(start as int, i as int);
        let ghost next = s@.subrange(start as int, i + 1);
        assert(next.drop_last() =~= prefix);
        assert(next.last() == c);
        if !('0' <= c && c <= '9') {
            assert(body[i - start] == c);
            return None;
        }
        assert(all_digits(next)) by {
            assert forall|j: int| 0 <= j < next.len() implies is_digit(#[trigger] next[j]) by {
                if j < prefix.len() {
                    assert(next[j] == prefix[j]);
                }
            }
        }
        let d = (c as u32 - '0' as u32) as u64;
        assert(d == digit_value(c));
        if acc > (u64::MAX - d) / 10 {
            proof {
                assert(decimal_value(next) > u64::MAX);
                if all_digits(body) {
                    assert(body.take(i + 1 - start) =~= next);
                    lemma_decimal_prefix(body, i + 1 - start);
                }
            }
            return None;
        }
        acc = acc * 10 + d;
        i = i + 1;
    }
    assert(s@.subrange(start as int, i as int) =~= body);
    Some(acc)
}

/// The position of the first `-` in `s`, if it holds one.
fn find_dash(s: &str) -> (r: Option<usize>)
    ensures
        match r {
            Some(p) => is_first_dash(s@, p as int),
            None => forall|j: int| 0 <= j < s@.len() ==> s@[j] != '-',
        },
{
    let n = s.unicode_len();
    let mut i: usize = 0;
    while i < n
        invariant
            n == s@.len(),
            i <= n,
            forall|j: int| 0 <= j < i ==> s@[j] != '-',
        decreases n - i,
    {
        if s.get_char(i) == '-' {
            return Some(i);
        }
        i = i + 1;
    }
    None
}

/// The ids `lo..=hi` in increasing order.
fn collect_range(lo: u64, hi: u64) -> (v: Vec<u64>)
    requires
        lo <= hi,
    ensures
        v@ == ids_between(lo, hi),
{
    let mut v: Vec<u64> = Vec::new();
    let mut x = lo;
    loop
        invariant
            lo <= x <= hi,
            v@ =~= ids_between(lo, x).take(x - lo),
        decreases hi - x,
    {
        v.push(x);
        if x == hi {
            assert(v@ =~= ids_between(lo, hi));
            return v;
        }
        x = x + 1;
    }
}

/// Parses one selector: a single id (`5`) or a closed range (`3-7`),
/// which expands into the inclusive list of ids.
pub fn parse_selector(s: &str) -> (r: Result<Vec<u64>, SelectorError>)
    ensures
        match selector_bounds(s@) {
            Ok((lo, hi)) => r matches Ok(v) && v@ == ids_between(lo, hi),
            Err(f) => r matches Err(e) && e@ == f,
        },
{
    let n = s.unicode_len();
    match find_dash(s) {
        Some(p) => {
            proof {
                let q = choose|q: int| is_first_dash(s@, q);
                assert(q == p as int) by {
                    if q < p as int {
                        assert(s@[q] != '-');
                    } else if q > p as int {
                        assert(s@[p as int] != '-');
                    }
                }
            }
            let lo = parse_u64_between(s, 0, p);
            match lo {
                None => {
                    let a = s.substring_char(0, p).to_owned();
                    Err(SelectorError::InvalidRangeStart(a))
                },
                Some(lo) => {
                    let hi = parse_u64_between(s, p + 1, n);
                    match hi {
                        None => {
                            let b = s.substring_char(p + 1, n).to_owned();
                            Err(SelectorError::InvalidRangeEnd(b))
                        },
                        Some(hi) => {
                            if hi < lo {
                                Err(SelectorError::ReversedRange(s.to_owned()))
                            } else {
                                Ok(collect_range(lo, hi))
                            }
                        },
                    }
                },
            }
        },
        None => {
            assert(!exists|q: int| is_first_dash(s@, q));
            assert(s@.subrange(0, n as int) =~= s@);
            match parse_u64_between(s, 0, n) {
                None => Err(SelectorError::InvalidId(s.to_owned())),
                Some(id) => {
                    let v = collect_range(id, id);
                    Ok(v)
                },
            }
        },
    }
}

/// The distinct values of `ids` in increasing order.
pub fn sorted_unique(ids: &[u64]) -> (r: Vec<u64>)
    ensures
        strictly_increasing(r@),
        forall|x: u64| r@.contains(x) <==> ids@.contains(x),
        r@ == resolution(ids@),
{
    let mut r: Vec<u64> = Vec::new();
    let mut i: usize = 0;
    while i < ids.len()
        invariant
            i <= ids@.len(),
            strictly_increasing(r@),
            forall|x: u64| r@.contains(x) <==> ids@.take(i as int).contains(x),
        decreases ids@.len() - i,
    {
        let x = ids[i];
        let mut p: usize = 0;
        while p < r.len() && r[p] < x
            invariant
                p <= r@.len(),
                forall|j: int| 0 <= j < p ==> r@[j] < x,
            decreases r@.len() - p,
        {
            p = p + 1;
        }
        let ghost before = r@;
        assert(forall|y: u64| before.contains(y) <==> ids@.take(i as int).contains(y));
        let ghost seen = ids@.take(i as int);
        let ghost seen_next = ids@.take(i + 1);
        assert(seen_next =~= seen.push(x));
        assert forall|y: u64| seen_next.contains(y) <==> (seen.contains(y) || y == x) by {
            if seen_next.contains(y) && y != x {
                let k = choose|k: int| 0 <= k < seen_next.len() && #[trigger] seen_next[k] == y;
                assert(seen[k] == y);
            }
            if seen.contains(y) {
                let k = choose|k: int| 0 <= k < seen.len() && #[trigger] seen[k] == y;
                assert(seen_next[k] == y);
            }
            if y == x {
                assert(seen_next[i as int] == y);
            }
        }
        if p < r.len() && r[p] == x {
            assert forall|y: u64| r@.contains(y) <==> seen_next.contains(y) by {
                if y == x {
                    assert(r@[p as int] == x);
                }
            }
        } else {
            r.insert(p, x);
            assert(strictly_increasing(r@)) by {
                assert forall|a: int, b: int| 0 <= a < b < r@.len() implies r@[a] < r@[b] by {
                    if b < p {
                        assert(r@[a] == before[a] && r@[b] == before[b]);
                    } else if b == p {
                        assert(r@[a] == before[a]);
                    } else if a < p {
                        assert(r@[a] == before[a] && r@[b] == before[b - 1]);
                        assert(before[p as int] > x);
                    } else if a == p {
                        assert(r@[b] == before[b - 1]);
                        assert(before[p as int] > x);
                        if b - 1 > p {
                            assert(before[p as int] < before[b - 1]);
                        }
                    } else {
                        assert(r@[a] == before[a - 1] && r@[b] == before[b - 1]);
                    }
                }
            }
            assert forall|y: u64| r@.contains(y) <==> seen_next.contains(y) by {
                if r@.contains(y) {
                    let k = choose|k: int| 0 <= k < r@.len() && #[trigger] r@[k] == y;
                    if k < p {
                        assert(before[k] == y);
                        assert(before.contains(y));
                    } else if k > p {
                        assert(before[k - 1] == y);
                        assert(before.contains(y));
                    }
                }
                if seen.contains(y) {
                    assert(before.contains(y));
                    let k = choose|k: int| 0 <= k < before.len() && #[trigger] before[k] == y;
                    if k < p {
                        assert(r@[k] == y);
                    } else {
                        assert(r@[k + 1] == y);
                    }
                }
                if y == x {
                    assert(r@[p as int] == x);
                }
            }
        }
        i = i + 1;
    }
    assert(ids@.take(ids@.len() as int) =~= ids@);
    proof {
        lemma_resolution(r@, ids@);
    }
    r
}

/// Expands a list of selectors into a deduplicated, sorted list of ids.
/// The first selector that cannot be read decides the error.
pub fn expand_selectors(selectors: &[String]) -> (r: Result<Vec<u64>, SelectorError>)
    ensures
        match expansion(texts(selectors@)) {
            Ok(set) => r matches Ok(v) && strictly_increasing(v@) && forall|x: u64|
                v@.contains(x) <==> set.contains(x),
            Err(f) => r matches Err(e) && e@ == f,
        },
{
    let ghost ss = texts(selectors@);
    let mut ids: Vec<u64> = Vec::new();
    let mut i: usize = 0;
    assert(ss.take(0) =~= Seq::<Seq<char>>::empty());
    while i < selectors.len()
        invariant
            i <= selectors@.len(),
            ss == texts(selectors@),
            expansion(ss.take(i as int)) is Ok,
            forall|x: u64| ids@.contains(x) <==> expansion(ss.take(i as int))->Ok_0.contains(x),
        decreases selectors@.len() - i,
    {
        let ghost prev = ids@;
        assert(ss.take(i + 1).drop_last() =~= ss.take(i as int));
        assert(ss.take(i + 1).last() == selectors@[i as int]@);
        let mut part = match parse_selector(selectors[i].as_str()) {
            Ok(v) => v,
            Err(e) => {
                assert(expansion(ss) == expansion(ss.take(i + 1))) by {
                    lemma_expansion_err_extends(ss, i as int + 1);
                }
                return Err(e);
            },
        };
        let ghost added = part@;
        let ghost bounds = selector_bounds(selectors@[i as int]@)->Ok_0;
        let ghost prev_set = expansion(ss.take(i as int))->Ok_0;
        assert(expansion(ss.take(i + 1)) == Ok::<Set<u64>, SelectorFault>(
            prev_set.union(Set::new(|x: u64| bounds.0 <= x && x <= bounds.1)),
        ));
        ids.append(&mut part);
        assert forall|x: u64| ids@.contains(x) <==> expansion(ss.take(i + 1))->Ok_0.contains(x) by {
            if ids@.contains(x) {
                let k = choose|k: int| 0 <= k < ids@.len() && #[trigger] ids@[k] == x;
                if k < prev.len() {
                    assert(prev[k] == x);
                    assert(prev.contains(x));
                    assert(prev_set.contains(x));
                } else {
                    assert(added[k - prev.len()] == x);
                }
            }
            if prev_set.contains(x) {
                assert(prev.contains(x));
                let k = choose|k: int| 0 <= k < prev.len() && #[trigger] prev[k] == x;
                assert(ids@[k] == x);
            }
            if bounds.0 <= x && x <= bounds.1 {
                let k = x - bounds.0;
                assert(added[k] == x);
                assert(ids@[prev.len() + k] == x);
            }
        }
        i = i + 1;
    }
    assert(ss.take(selectors@.len() as int) =~= ss);
    Ok(sorted_unique(ids.as_slice()))
}

/// Once a prefix of the selectors is refused, the whole list is refused
/// with the same fault.
proof fn lemma_expansion_err_extends(ss: Seq<Seq<char>>, k: int)
    requires
        0 <= k <= ss.len(),
        expansion(ss.take(k)) is Err,
    ensures
        expansion(ss) == expansion(ss.take(k)),
    decreases ss.len() - k,
{
    if k == ss.len() {
        assert(ss.take(k) =~= ss);
    } else {
        assert(ss.take(k + 1).drop_last() =~= ss.take(k));
        lemma_expansion_err_extends(ss, k + 1);
    }
}

} // verus!
