//! Reading one parameter out of a URL query string.
use vstd::prelude::*;
use crate::text::{chars_of, string_of};

verus! {

/// `q[a..b]` is one `&`-separated segment of `q`.
pub open spec fn is_segment(q: Seq<char>, a: int, b: int) -> bool {
    &&& 0 <= a <= b <= q.len()
    &&& (a == 0 || q[a - 1] == '&')
    &&& (b == q.len() || q[b] == '&')
    &&& forall|k: int| a <= k < b ==> q[k] != '&'
}

/// The segment `q[a..b]` is a pair whose key (the text before its first `=`) is
/// `name`.
pub open spec fn pair_named(q: Seq<char>, a: int, b: int, name: Seq<char>) -> bool {
    &&& is_segment(q, a, b)
    &&& a + name.len() < b
    &&& q.subrange(a, a + name.len()) == name
    &&& q[a + name.len()] == '='
    &&& forall|k: int| 0 <= k < name.len() ==> name[k] != '='
}

/// `q[a..b]` is the first pair named `name`.
pub open spec fn first_pair_named(q: Seq<char>, a: int, b: int, name: Seq<char>) -> bool {
    &&& pair_named(q, a, b, name)
    &&& forall|a2: int, b2: int| #[trigger] pair_named(q, a2, b2, name) ==> a <= a2
}

/// The value of the first `name=value` pair of a query such as `a=1&b=2`: the text
/// after the pair's first `=`. Pairs without `=` are skipped; `None` when no pair
/// has that key.
pub fn query_param(query: &str, name: &str) -> (r: Option<String>)
    ensures
        match r {
            Some(v) => exists|a: int, b: int|
                #[trigger] first_pair_named(query@, a, b, name@) && v@ == query@.subrange(a + name@.len() + 1, b),
            None => forall|a: int, b: int| !#[trigger] pair_named(query@, a, b, name@),
        },
{
    let q = chars_of(query);
    let n = chars_of(name);
    let ghost qs = query@;
    let ghost ns = name@;
    let mut name_ok = true;
    let mut k: usize = 0;
    while k < n.len()
        invariant
            k <= n@.len(),
            n@ == ns,
            name_ok == forall|j: int| 0 <= j < k ==> ns[j] != '=',
        decreases n@.len() - k,
    {
        if n[k] == '=' {
            name_ok = false;
        }
        k = k + 1;
    }
    if !name_ok {
        assert forall|a: int, b: int| !#[trigger] pair_named(qs, a, b, ns) by {}
        return None;
    }
    let mut start: usize = 0;
    while start <= q.len()
        invariant
            q@ == qs,
            n@ == ns,
            qs == query@,
            ns == name@,
            start <= q@.len() + 1,
            start <= q@.len() ==> (start == 0 || qs[start - 1] == '&'),
            forall|j: int| 0 <= j < ns.len() ==> ns[j] != '=',
            forall|a2: int, b2: int| #[trigger] pair_named(qs, a2, b2, ns) ==> start <= a2,
        decreases q@.len() + 1 - start,
    {
        let mut end: usize = start;
        while end < q.len() && q[end] != '&'
            invariant
                start <= end <= q@.len(),
                q@ == qs,
                forall|j: int| start <= j < end ==> qs[j] != '&',
            decreases q@.len() - end,
        {
            end = end + 1;
        }
        assert(is_segment(qs, start as int, end as int));
        // does this segment hold `name=`?
        let mut matches = n.len() < end - start;
        if matches {
            let mut j: usize = 0;
            while j < n.len()
                invariant
                    j <= n@.len(),
                    start + n@.len() < end <= q@.len(),
                    q@ == qs,
                    n@ == ns,
                    matches == forall|m: int| 0 <= m < j ==> qs[start + m] == ns[m],
                decreases n@.len() - j,
            {
                if q[start + j] != n[j] {
                    matches = false;
                }
                j = j + 1;
            }
            if matches && q[start + n.len()] != '=' {
                matches = false;
            }
            if matches {
                assert(qs.subrange(start as int, start + ns.len()) =~= ns);
            } else {
                assert forall|b2: int| !#[trigger] pair_named(qs, start as int, b2, ns) by {
                    if pair_named(qs, start as int, b2, ns) {
                        assert(b2 == end) by {
                            if b2 < end { assert(qs[b2] == '&'); }
                            if b2 > end { assert(qs[end as int] == '&'); }
                        }
                        if forall|m: int| 0 <= m < ns.len() ==> qs[start + m] == ns[m] {
                        } else {
                            let m = choose|m: int| 0 <= m < ns.len() && qs[start + m] != ns[m];
                            assert(qs.subrange(start as int, start + ns.len())[m] == qs[start + m]);
                        }
                    }
                }
            }
        } else {
            assert forall|b2: int| !#[trigger] pair_named(qs, start as int, b2, ns) by {
                if pair_named(qs, start as int, b2, ns) {
                    if b2 < end { assert(qs[b2] == '&'); }
                    if b2 > end { assert(qs[end as int] == '&'); }
                }
            }
        }
        if matches {
            let mut v: Vec<char> = Vec::new();
            let mut m: usize = start + n.len() + 1;
            while m < end
                invariant
                    start + n@.len() + 1 <= m <= end <= q@.len(),
                    q@ == qs,
                    n@ == ns,
                    v@ =~= qs.subrange(start + ns.len() + 1, m as int),
                decreases end - m,
            {
                assert(qs.subrange(start + ns.len() + 1, m + 1) =~= qs.subrange(start + ns.len() + 1, m as int).push(qs[m as int]));
                v.push(q[m]);
                m = m + 1;
            }
            assert(pair_named(qs, start as int, end as int, ns));
            assert(first_pair_named(qs, start as int, end as int, ns));
            let out = string_of(&v);
            assert(out@ == qs.subrange(start + ns.len() + 1, end as int));
            return Some(out);
        }
        assert forall|a2: int, b2: int| #[trigger] pair_named(qs, a2, b2, ns) implies end + 1 <= a2 by {
            if a2 <= end {
                assert(start <= a2);
                if a2 > start {
                    assert(qs[a2 - 1] == '&');
                }
            }
        }
        if end == q.len() {
            assert forall|a2: int, b2: int| !#[trigger] pair_named(qs, a2, b2, ns) by {
                if pair_named(qs, a2, b2, ns) {
                    assert(end + 1 <= a2);
                }
            }
            return None;
        }
        start = end + 1;
    }
    assert forall|a2: int, b2: int| !#[trigger] pair_named(qs, a2, b2, ns) by {
        if pair_named(qs, a2, b2, ns) {
            assert(start <= a2);
        }
    }
    None
}

} // verus!

verus! {

/// The value of the first pair named `name`, if any.
pub open spec fn param_value(q: Seq<char>, name: Seq<char>) -> Option<Seq<char>> {
    if exists|a: int, b: int| #[trigger] first_pair_named(q, a, b, name) {
        let (a, b) = choose|a: int, b: int| #[trigger] first_pair_named(q, a, b, name);
        Some(q.subrange(a + name.len() + 1, b))
    } else {
        None
    }
}

/// There is at most one first pair of a given name.
pub proof fn lemma_first_pair_unique(q: Seq<char>, name: Seq<char>, a: int, b: int, a2: int, b2: int)
    requires
        first_pair_named(q, a, b, name),
        first_pair_named(q, a2, b2, name),
    ensures
        a == a2,
        b == b2,
{
    assert(a <= a2 && a2 <= a);
    if b < b2 {
        assert(q[b] == '&');
    }
    if b2 < b {
        assert(q[b2] == '&');
    }
}

/// `query_param` computes `param_value`.
pub fn param(query: &str, name: &str) -> (r: Option<String>)
    ensures
        crate::protocol::opt_view(r) == param_value(query@, name@),
{
    let r = query_param(query, name);
    proof {
        match &r {
            Some(v) => {
                let (a, b) = choose|a: int, b: int|
                    #[trigger] first_pair_named(query@, a, b, name@) && v@ == query@.subrange(a + name@.len() + 1, b);
                let (a2, b2) = choose|a: int, b: int| #[trigger] first_pair_named(query@, a, b, name@);
                lemma_first_pair_unique(query@, name@, a, b, a2, b2);
            },
            None => {
                if exists|a: int, b: int| #[trigger] first_pair_named(query@, a, b, name@) {
                    let (a, b) = choose|a: int, b: int| #[trigger] first_pair_named(query@, a, b, name@);
                    assert(pair_named(query@, a, b, name@));
                }
            },
        }
    }
    r
}

} // verus!
