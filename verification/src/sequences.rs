//! Sequences without repetitions: what is left of a sequence when each
//! element that was met before is dropped.

use vstd::prelude::*;

verus! {

/// The elements of `s` that are neither in `seen` nor equal to an earlier
/// element of `s`, in the order of `s`.
pub open spec fn unseen<A>(seen: Set<A>, s: Seq<A>) -> Seq<A>
    decreases s.len(),
{
    if s.len() == 0 {
        Seq::empty()
    } else {
        let rest = unseen(seen, s.drop_last());
        if seen.contains(s.last()) || s.drop_last().contains(s.last()) {
            rest
        } else {
            rest.push(s.last())
        }
    }
}

/// The positions in `s` of the elements that no earlier element of `s`
/// equals, in increasing order.
pub open spec fn first_occurrences<A>(s: Seq<A>) -> Seq<int>
    decreases s.len(),
{
    if s.len() == 0 {
        Seq::empty()
    } else {
        let rest = first_occurrences(s.drop_last());
        if s.drop_last().contains(s.last()) {
            rest
        } else {
            rest.push(s.len() - 1)
        }
    }
}

/// Whether no element of `s` before position `i` equals the one at `i`.
pub open spec fn is_first_occurrence<A>(s: Seq<A>, i: int) -> bool {
    &&& 0 <= i < s.len()
    &&& forall|j: int| 0 <= j < i ==> s[j] != s[i]
}

/// A sequence with one more element at its end holds what it held before,
/// and that element.
pub proof fn lemma_push_contains<A>(s: Seq<A>, a: A)
    ensures
        forall|x: A| s.push(a).contains(x) <==> s.contains(x) || x == a,
{
    let t = s.push(a);
    assert forall|x: A| t.contains(x) implies s.contains(x) || x == a by {
        let k = choose|k: int| 0 <= k < t.len() && t[k] == x;
        if k < s.len() {
            assert(s[k] == x);
        }
    }
    assert forall|x: A| s.contains(x) || x == a implies t.contains(x) by {
        if s.contains(x) {
            let k = choose|k: int| 0 <= k < s.len() && s[k] == x;
            assert(t[k] == x);
        } else {
            assert(t[s.len() as int] == x);
        }
    }
}

/// What is kept of `s` holds each element of `s` that is not in `seen`,
/// and holds it once.
pub proof fn lemma_unseen_contents<A>(seen: Set<A>, s: Seq<A>)
    ensures
        forall|x: A|
            #[trigger] unseen(seen, s).contains(x) <==> s.contains(x) && !seen.contains(x),
        unseen(seen, s).no_duplicates(),
        unseen(seen, s).len() <= s.len(),
    decreases s.len(),
{
    let r = unseen(seen, s);
    if s.len() == 0 {
        assert forall|x: A| #[trigger]
            r.contains(x) <==> s.contains(x) && !seen.contains(x) by {
            assert(!r.contains(x));
            assert(!s.contains(x));
        }
    } else {
        let d = s.drop_last();
        let last = s.last();
        let rd = unseen(seen, d);
        lemma_unseen_contents(seen, d);
        assert(s =~= d.push(last));
        lemma_push_contains(d, last);
        lemma_push_contains(rd, last);
        assert forall|x: A| #[trigger]
            r.contains(x) <==> s.contains(x) && !seen.contains(x) by {
            assert(rd.contains(x) <==> d.contains(x) && !seen.contains(x));
            assert(d.push(last).contains(x) <==> d.contains(x) || x == last);
            if seen.contains(last) || d.contains(last) {
                assert(r == rd);
            } else {
                assert(r == rd.push(last));
                assert(rd.push(last).contains(x) <==> rd.contains(x) || x == last);
            }
        }
        if !(seen.contains(last) || d.contains(last)) {
            assert(!rd.contains(last));
            assert forall|i: int, j: int| 0 <= i < r.len() && 0 <= j < r.len() && i != j implies r[i]
                != r[j] by {
                if i < rd.len() && j < rd.len() {
                    assert(rd[i] != rd[j]);
                } else if i < rd.len() {
                    assert(rd.contains(rd[i]));
                } else {
                    assert(rd.contains(rd[j]));
                }
            }
        }
    }
}

/// Order preservation: the elements that are kept of `s` are those at the
/// positions of first occurrence, each at its place in the order of `s`.
/// So the first occurrence of each distinct element stays, every later
/// one goes, and what stays keeps its relative order.
pub proof fn lemma_order_preserved<A>(s: Seq<A>)
    ensures
        unseen(Set::empty(), s).len() == first_occurrences(s).len(),
        forall|k: int|
            0 <= k < first_occurrences(s).len() ==> is_first_occurrence(
                s,
                #[trigger] first_occurrences(s)[k],
            ) && unseen(Set::empty(), s)[k] == s[first_occurrences(s)[k]],
        forall|k: int, l: int|
            0 <= k < l < first_occurrences(s).len() ==> first_occurrences(s)[k]
                < first_occurrences(s)[l],
        forall|i: int| is_first_occurrence(s, i) ==> first_occurrences(s).contains(i),
    decreases s.len(),
{
    if s.len() > 0 {
        let d = s.drop_last();
        let last = s.last();
        lemma_order_preserved(d);
        let fd = first_occurrences(d);
        let f = first_occurrences(s);
        let wd = unseen(Set::empty(), d);
        let w = unseen(Set::empty(), s);
        assert forall|k: int| 0 <= k < fd.len() implies is_first_occurrence(s, #[trigger] fd[k])
            && s[fd[k]] == d[fd[k]] by {
            let i = fd[k];
            assert(is_first_occurrence(d, i));
            assert forall|j: int| 0 <= j < i implies s[j] != s[i] by {
                assert(d[j] == s[j]);
                assert(d[j] != d[i]);
            }
        }
        if d.contains(last) {
            assert(f == fd);
            assert(w == wd);
        } else {
            assert(f == fd.push(s.len() - 1));
            assert(w == wd.push(last));
            let n = s.len() - 1;
            assert(is_first_occurrence(s, n)) by {
                assert forall|j: int| 0 <= j < n implies #[trigger] s[j] != s[n] by {
                    if s[j] == last {
                        assert(d[j] == last);
                    }
                }
            }
        }
        assert forall|k: int| 0 <= k < f.len() implies is_first_occurrence(s, #[trigger] f[k])
            && w[k] == s[f[k]] by {
            if k < fd.len() {
                assert(f[k] == fd[k]);
                assert(is_first_occurrence(s, fd[k]) && s[fd[k]] == d[fd[k]]);
                assert(w[k] == wd[k]);
            }
        }
        assert forall|k: int, l: int| 0 <= k < l < f.len() implies f[k] < f[l] by {
            if l < fd.len() {
                assert(fd[k] < fd[l]);
            } else {
                assert(is_first_occurrence(d, fd[k]));
            }
        }
        assert forall|i: int| is_first_occurrence(s, i) implies f.contains(i) by {
            if i < d.len() {
                assert(is_first_occurrence(d, i)) by {
                    assert forall|j: int| 0 <= j < i implies d[j] != d[i] by {
                        assert(s[j] != s[i]);
                    }
                }
                assert(fd.contains(i));
                let k = choose|k: int| 0 <= k < fd.len() && fd[k] == i;
                assert(f[k] == i);
            } else {
                assert(!d.contains(last)) by {
                    if d.contains(last) {
                        let j = choose|j: int| 0 <= j < d.len() && d[j] == last;
                        assert(s[j] == s[i]);
                    }
                }
                assert(f[fd.len() as int] == i);
            }
        }
    }
}

/// A sequence in which no element occurs twice is kept whole.
pub proof fn lemma_unseen_fixed<A>(s: Seq<A>)
    requires
        s.no_duplicates(),
    ensures
        unseen(Set::empty(), s) == s,
    decreases s.len(),
{
    if s.len() > 0 {
        let d = s.drop_last();
        lemma_unseen_fixed(d);
        assert(!d.contains(s.last())) by {
            if d.contains(s.last()) {
                let j = choose|j: int| 0 <= j < d.len() && d[j] == s.last();
                assert(s[j] == s[s.len() - 1]);
            }
        }
        assert(s =~= d.push(s.last()));
    } else {
        assert(s =~= Seq::<A>::empty());
    }
}

} // verus!
