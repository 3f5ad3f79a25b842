//! Comparisons of identifiers as texts.
use vstd::prelude::*;

verus! {

/// Whether two texts hold the same characters.
pub fn same_text(a: &str, b: &str) -> (r: bool)
    ensures
        r == (a@ == b@),
{
    let left = a.to_owned();
    let right = b.to_owned();
    left == right
}

/// Whether `a` and `b` agree on their first `k` characters, and then `a`
/// ends while `b` goes on, or `a` goes on with the smaller character.
pub open spec fn parts_at(a: Seq<char>, b: Seq<char>, k: int) -> bool {
    &&& 0 <= k <= a.len()
    &&& k < b.len()
    &&& forall|j: int| 0 <= j < k ==> a[j] == b[j]
    &&& (k == a.len() || (a[k] as u32) < (b[k] as u32))
}

/// The dictionary order of identifiers: `a` comes strictly before `b`.
pub open spec fn precedes(a: Seq<char>, b: Seq<char>) -> bool {
    exists|k: int| #[trigger] parts_at(a, b, k)
}

/// Whether `a` comes strictly before `b` in dictionary order.
pub fn text_precedes(a: &str, b: &str) -> (r: bool)
    ensures
        r == precedes(a@, b@),
{
    let n = a.unicode_len();
    let m = b.unicode_len();
    let mut i: usize = 0;
    while i < n && i < m
        invariant
            n == a@.len(),
            m == b@.len(),
            i <= n,
            i <= m,
            forall|j: int| 0 <= j < i ==> a@[j] == b@[j],
        decreases n - i,
    {
        let x = a.get_char(i);
        let y = b.get_char(i);
        if x != y {
            let less = (x as u32) < (y as u32);
            proof {
                if less {
                    assert(parts_at(a@, b@, i as int));
                } else {
                    assert forall|k: int| !#[trigger] parts_at(a@, b@, k) by {
                        if parts_at(a@, b@, k) {
                            if k < i {
                                assert(a@[k] == b@[k]);
                            } else if k > i {
                                assert(a@[i as int] == b@[i as int]);
                            }
                        }
                    }
                }
            }
            return less;
        }
        i += 1;
    }
    proof {
        if i < m {
            assert(parts_at(a@, b@, i as int));
        } else {
            assert forall|k: int| !#[trigger] parts_at(a@, b@, k) by {
                if parts_at(a@, b@, k) {
                    if k < i {
                        assert(a@[k] == b@[k]);
                    }
                }
            }
        }
    }
    i < m
}

/// No identifier comes before itself.
pub proof fn precedes_is_strict(a: Seq<char>)
    ensures
        !precedes(a, a),
{
    assert forall|k: int| !#[trigger] parts_at(a, a, k) by {}
}

/// The dictionary order is transitive.
pub proof fn precedes_is_transitive(a: Seq<char>, b: Seq<char>, c: Seq<char>)
    requires
        precedes(a, b),
        precedes(b, c),
    ensures
        precedes(a, c),
{
    let first = choose|k: int| #[trigger] parts_at(a, b, k);
    let second = choose|k: int| #[trigger] parts_at(b, c, k);
    let k = if first <= second {
        first
    } else {
        second
    };
    assert forall|j: int| 0 <= j < k implies a[j] == c[j] by {
        assert(a[j] == b[j]);
        assert(b[j] == c[j]);
    }
    if first < second {
        assert(b[first] == c[first]);
    } else if second < first {
        assert(a[second] == b[second]);
    }
    assert(parts_at(a, c, k));
}

} // verus!
