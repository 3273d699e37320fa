use std::cmp::Ordering;
use vstd::prelude::*;

verus! {

/// `s` comes before `t` because of position `k`: the two agree below `k`,
/// and at `k` either `s` has ended and `t` has not, or `s` holds the smaller
/// character.
pub open spec fn precedes_at(s: Seq<char>, t: Seq<char>, k: int) -> bool {
    &&& 0 <= k <= s.len()
    &&& k < t.len()
    &&& forall|j: int| 0 <= j < k ==> s[j] == t[j]
    &&& k < s.len() ==> s[k] < t[k]
}

/// `s` comes before `t` in lexicographic order.
pub open spec fn lex_lt(s: Seq<char>, t: Seq<char>) -> bool {
    exists|k: int| precedes_at(s, t, k)
}

/// The lexicographic order of `s` and `t`. By `lemma_lex_total`, `Greater`
/// is the case of `t` before `s`.
pub open spec fn lex_order(s: Seq<char>, t: Seq<char>) -> Ordering {
    if s == t {
        Ordering::Equal
    } else if lex_lt(s, t) {
        Ordering::Less
    } else {
        Ordering::Greater
    }
}

/// Two texts that agree below `k` are equal, or one comes before the other.
proof fn lemma_lex_total_from(s: Seq<char>, t: Seq<char>, k: int)
    requires
        0 <= k <= s.len(),
        k <= t.len(),
        forall|j: int| 0 <= j < k ==> s[j] == t[j],
    ensures
        s == t || lex_lt(s, t) || lex_lt(t, s),
    decreases s.len() - k,
{
    if k == s.len() {
        if k == t.len() {
            assert(s =~= t);
        } else {
            assert(precedes_at(s, t, k));
        }
    } else if k == t.len() {
        assert(precedes_at(t, s, k));
    } else if s[k] < t[k] {
        assert(precedes_at(s, t, k));
    } else if t[k] < s[k] {
        assert(precedes_at(t, s, k));
    } else {
        lemma_lex_total_from(s, t, k + 1);
    }
}

/// The lexicographic order is total: of two different texts one comes
/// before the other.
pub proof fn lemma_lex_total(s: Seq<char>, t: Seq<char>)
    ensures
        s == t || lex_lt(s, t) || lex_lt(t, s),
{
    lemma_lex_total_from(s, t, 0);
}

/// The lexicographic order is strict: a text that comes before another is
/// not equal to it and does not come after it.
pub proof fn lemma_lex_asymmetric(s: Seq<char>, t: Seq<char>)
    requires
        lex_lt(s, t),
    ensures
        s != t,
        !lex_lt(t, s),
{
    let k = choose|k: int| precedes_at(s, t, k);
    if lex_lt(t, s) {
        let m = choose|m: int| precedes_at(t, s, m);
        if k < m {
            assert(s[k] == t[k]);
        } else if m < k {
            assert(s[m] == t[m]);
        }
    }
}

/// The lexicographic order is transitive.
pub proof fn lemma_lex_transitive(s: Seq<char>, t: Seq<char>, u: Seq<char>)
    requires
        lex_lt(s, t),
        lex_lt(t, u),
    ensures
        lex_lt(s, u),
{
    let k = choose|k: int| precedes_at(s, t, k);
    let m = choose|m: int| precedes_at(t, u, m);
    if k < m {
        assert(t[k] == u[k]);
        assert(precedes_at(s, u, k));
    } else if k == m {
        assert(precedes_at(s, u, k));
    } else {
        assert(s[m] == t[m]);
        assert(precedes_at(s, u, m));
    }
}

} // verus!
