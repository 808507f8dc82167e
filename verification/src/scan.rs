//! Byte-level scanning: first occurrence of a byte or of the `;q=`
//! separator, and trimming of optional whitespace.

use vstd::prelude::*;

verus! {

/// Optional whitespace around a directive: space or horizontal tab.
pub open spec fn is_ows(b: u8) -> bool {
    b == 32 || b == 9
}

/// The index of the first occurrence of `b` in `s`, if any.
pub open spec fn first_index(s: Seq<u8>, b: u8) -> Option<int>
    decreases s.len(),
{
    if s.len() == 0 {
        None
    } else if s[0] == b {
        Some(0)
    } else {
        match first_index(s.drop_first(), b) {
            None => None,
            Some(i) => Some(i + 1),
        }
    }
}

/// What `first_index` finds: the occurrence it names, and nothing earlier.
pub proof fn lemma_first_index_props(s: Seq<u8>, b: u8)
    ensures
        match first_index(s, b) {
            Some(i) => 0 <= i < s.len() && s[i] == b && (forall|j: int|
                0 <= j < i ==> s[j] != b),
            None => forall|j: int| 0 <= j < s.len() ==> s[j] != b,
        },
    decreases s.len(),
{
    if s.len() > 0 && s[0] != b {
        let s2 = s.drop_first();
        lemma_first_index_props(s2, b);
        assert(forall|k: int| 0 <= k < s2.len() ==> #[trigger] s2[k] == s[k + 1]);
        match first_index(s2, b) {
            Some(i2) => {
                assert forall|j: int| 0 <= j < i2 + 1 implies s[j] != b by {
                    if j >= 1 {
                        assert(s2[j - 1] != b);
                    }
                }
            },
            None => {
                assert forall|j: int| 0 <= j < s.len() implies s[j] != b by {
                    if j >= 1 {
                        assert(s2[j - 1] != b);
                    }
                }
            },
        }
    }
}

/// `;q=` stands at index `i` of `s`.
pub open spec fn qsep_at(s: Seq<u8>, i: int) -> bool {
    &&& 0 <= i
    &&& i + 3 <= s.len()
    &&& s[i] == ';' as u8
    &&& s[i + 1] == 'q' as u8
    &&& s[i + 2] == '=' as u8
}

/// The index of the first occurrence of `;q=` in `s`, if any.
pub open spec fn first_qsep(s: Seq<u8>) -> Option<int>
    decreases s.len(),
{
    if s.len() < 3 {
        None
    } else if s[0] == ';' as u8 && s[1] == 'q' as u8 && s[2] == '=' as u8 {
        Some(0)
    } else {
        match first_qsep(s.drop_first()) {
            None => None,
            Some(i) => Some(i + 1),
        }
    }
}

/// What `first_qsep` finds: the occurrence it names, and nothing earlier.
pub proof fn lemma_first_qsep_props(s: Seq<u8>)
    ensures
        match first_qsep(s) {
            Some(i) => qsep_at(s, i) && (forall|j: int| 0 <= j < i ==> !qsep_at(s, j)),
            None => forall|j: int| !qsep_at(s, j),
        },
    decreases s.len(),
{
    if s.len() >= 3 && !(s[0] == ';' as u8 && s[1] == 'q' as u8 && s[2] == '=' as u8) {
        lemma_first_qsep_props(s.drop_first());
        assert(forall|j: int| qsep_at(s, j) && j >= 1 ==> qsep_at(s.drop_first(), j - 1));
    }
}

/// `s` without its leading optional whitespace.
pub open spec fn trim_start(s: Seq<u8>) -> Seq<u8>
    decreases s.len(),
{
    if s.len() > 0 && is_ows(s[0]) {
        trim_start(s.drop_first())
    } else {
        s
    }
}

/// `s` without its trailing optional whitespace.
pub open spec fn trim_end(s: Seq<u8>) -> Seq<u8>
    decreases s.len(),
{
    if s.len() > 0 && is_ows(s.last()) {
        trim_end(s.drop_last())
    } else {
        s
    }
}

/// `s` without leading and trailing optional whitespace.
pub open spec fn trimmed(s: Seq<u8>) -> Seq<u8> {
    trim_end(trim_start(s))
}

/// `trim_start` drops exactly the leading whitespace run.
pub proof fn lemma_trim_start_skip(s: Seq<u8>, a: int)
    requires
        0 <= a <= s.len(),
        forall|j: int| 0 <= j < a ==> is_ows(#[trigger] s[j]),
        a == s.len() || !is_ows(s[a]),
    ensures
        trim_start(s) == s.skip(a),
    decreases a,
{
    if a == 0 {
        assert(s.skip(0) =~= s);
    } else {
        lemma_trim_start_skip(s.drop_first(), a - 1);
        assert(s.drop_first().skip(a - 1) =~= s.skip(a));
    }
}

/// `trim_end` drops exactly the trailing whitespace run.
pub proof fn lemma_trim_end_take(s: Seq<u8>, b: int)
    requires
        0 <= b <= s.len(),
        forall|j: int| b <= j < s.len() ==> is_ows(#[trigger] s[j]),
        b == 0 || !is_ows(s[b - 1]),
    ensures
        trim_end(s) == s.take(b),
    decreases s.len() - b,
{
    if b == s.len() {
        assert(s.take(b) =~= s);
    } else {
        lemma_trim_end_take(s.drop_last(), b);
        assert(s.drop_last().take(b) =~= s.take(b));
    }
}

/// Finds the first occurrence of `b` in `s`.
pub(crate) fn find_byte(s: &[u8], b: u8) -> (r: Option<usize>)
    ensures
        match r {
            Some(i) => first_index(s@, b) == Some(i as int),
            None => first_index(s@, b) == None::<int>,
        },
{
    let n = s.len();
    let mut i: usize = 0;
    while i < n
        invariant
            i <= n,
            n == s@.len(),
            forall|j: int| 0 <= j < i ==> s@[j] != b,
        decreases n - i,
    {
        if s[i] == b {
            proof {
                lemma_first_index_props(s@, b);
            }
            return Some(i);
        }
        i = i + 1;
    }
    proof {
        lemma_first_index_props(s@, b);
    }
    None
}

/// Finds the first occurrence of `;q=` in `s`.
pub(crate) fn find_qsep(s: &[u8]) -> (r: Option<usize>)
    ensures
        match r {
            Some(i) => first_qsep(s@) == Some(i as int) && i + 3 <= s@.len(),
            None => first_qsep(s@) == None::<int>,
        },
{
    let n = s.len();
    if n < 3 {
        proof {
            lemma_first_qsep_props(s@);
        }
        return None;
    }
    let mut i: usize = 0;
    while i <= n - 3
        invariant
            3 <= n == s@.len(),
            i <= n - 2,
            forall|j: int| 0 <= j < i ==> !qsep_at(s@, j),
        decreases n - i,
    {
        if s[i] == ';' as u8 && s[i + 1] == 'q' as u8 && s[i + 2] == '=' as u8 {
            proof {
                assert(qsep_at(s@, i as int));
                lemma_first_qsep_props(s@);
            }
            return Some(i);
        }
        i = i + 1;
    }
    proof {
        lemma_first_qsep_props(s@);
    }
    None
}

/// The bounds of `s` with optional whitespace trimmed: `trimmed(s@)` is
/// `s@.subrange(a, b)` for the returned `(a, b)`, with `a == b` when `s`
/// is all whitespace.
pub(crate) fn trim_bounds(s: &[u8]) -> (r: (usize, usize))
    ensures
        r.0 <= r.1 <= s@.len(),
        trimmed(s@) == s@.subrange(r.0 as int, r.1 as int),
{
    let n = s.len();
    let mut a: usize = 0;
    while a < n && (s[a] == 32 || s[a] == 9)
        invariant
            a <= n,
            n == s@.len(),
            forall|j: int| 0 <= j < a ==> is_ows(#[trigger] s@[j]),
        decreases n - a,
    {
        a = a + 1;
    }
    proof {
        lemma_trim_start_skip(s@, a as int);
    }
    if a == n {
        proof {
            assert(s@.skip(n as int) =~= s@.subrange(n as int, n as int));
            assert(trim_end(s@.subrange(n as int, n as int)) == s@.subrange(n as int, n as int));
        }
        return (n, n);
    }
    let mut b: usize = n;
    while b > a && (s[b - 1] == 32 || s[b - 1] == 9)
        invariant
            a <= b <= n,
            a < n == s@.len(),
            !is_ows(s@[a as int]),
            forall|j: int| b <= j < n ==> is_ows(#[trigger] s@[j]),
        decreases b,
    {
        b = b - 1;
    }
    proof {
        let t = s@.skip(a as int);
        lemma_trim_end_take(t, b - a);
        assert(t.take(b - a) =~= s@.subrange(a as int, b as int));
    }
    (a, b)
}

} // verus!
