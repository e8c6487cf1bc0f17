use vstd::prelude::*;

verus! {

/// Filtering one more element of a sequence.
pub proof fn filter_step<A>(s: Seq<A>, i: int, which: spec_fn(A) -> bool)
    requires
        0 <= i < s.len(),
    ensures
        s.take(i + 1).filter(which) == (if which(s[i]) {
            s.take(i).filter(which).push(s[i])
        } else {
            s.take(i).filter(which)
        }),
{
    reveal(Seq::filter);
    assert(s.take(i + 1).drop_last() =~= s.take(i));
}

/// Filtering keeps elements distinct, drops none of those in `which` and adds nothing.
pub proof fn filter_unique<A>(s: Seq<A>, which: spec_fn(A) -> bool)
    requires
        s.no_duplicates(),
    ensures
        s.filter(which).no_duplicates(),
        s.filter(which).to_set() == s.to_set().filter(which),
    decreases s.len(),
{
    reveal(Seq::filter);
    if s.len() > 0 {
        let front = s.drop_last();
        filter_unique(front, which);
        assert(!front.contains(s.last()));
        assert(s =~= front.push(s.last()));
        assert forall|x: A| s.to_set().contains(x) <==> front.to_set().contains(x) || x
            == s.last() by {
            if front.contains(x) {
                let k = choose|k: int| 0 <= k < front.len() && front[k] == x;
                assert(s[k] == x);
            }
            if x == s.last() {
                assert(s[s.len() - 1] == x);
            }
            if s.contains(x) && x != s.last() {
                let k = choose|k: int| 0 <= k < s.len() && s[k] == x;
                assert(front[k] == x);
            }
        }
        if which(s.last()) {
            let f = front.filter(which);
            assert(s.filter(which) =~= f.push(s.last()));
            assert(!f.to_set().contains(s.last()));
            assert forall|x: A| f.push(s.last()).contains(x) <==> f.contains(x) || x
                == s.last() by {
                if f.contains(x) {
                    let k = choose|k: int| 0 <= k < f.len() && f[k] == x;
                    assert(f.push(s.last())[k] == x);
                }
                if x == s.last() {
                    assert(f.push(s.last())[f.len() as int] == x);
                }
            }
        }
        assert forall|x: A| s.filter(which).to_set().contains(x) <==> s.to_set().filter(
            which,
        ).contains(x) by {
            assert(front.filter(which).to_set().contains(x) <==> front.to_set().filter(
                which,
            ).contains(x));
            assert(s.to_set().contains(x) <==> front.to_set().contains(x) || x == s.last());
        }
        assert(s.filter(which).to_set() =~= s.to_set().filter(which));
    } else {
        assert(s.filter(which).to_set() =~= s.to_set().filter(which));
    }
}

/// Adding an element to a sequence adds just this element.
pub proof fn push_contains<A>(s: Seq<A>, x: A)
    ensures
        forall|y: A| #[trigger] s.push(x).contains(y) <==> s.contains(y) || y == x,
        s.push(x).to_set() == s.to_set().insert(x),
{
    assert forall|y: A| s.contains(y) || y == x implies #[trigger] s.push(x).contains(y) by {
        if y == x {
            assert(s.push(x)[s.len() as int] == x);
        } else {
            let k = choose|k: int| 0 <= k < s.len() && s[k] == y;
            assert(s.push(x)[k] == y);
        }
    }
    assert(s.push(x).to_set() =~= s.to_set().insert(x));
}

/// Mapping the values of a map keeps its keys.
pub broadcast proof fn map_values_domain<K, V, W>(m: Map<K, V>, f: spec_fn(V) -> W)
    ensures
        #[trigger] m.map_values(f).dom() == m.dom(),
{
    assert(m.map_values(f).dom() =~= m.dom());
}

/// Taking one more element adds just this element.
pub proof fn take_contains<A>(s: Seq<A>, i: int)
    requires
        0 <= i < s.len(),
    ensures
        forall|x: A| #[trigger] s.take(i + 1).contains(x) <==> s.take(i).contains(x) || x == s[i],
{
    assert forall|x: A| #[trigger] s.take(i + 1).contains(x) <==> s.take(i).contains(x) || x
        == s[i] by {
        if s.take(i + 1).contains(x) && x != s[i] {
            let t = s.take(i + 1);
            let k = choose|k: int| 0 <= k < t.len() && t[k] == x;
            assert(s.take(i)[k] == x);
        }
        if s.take(i).contains(x) {
            let t = s.take(i);
            let k = choose|k: int| 0 <= k < t.len() && t[k] == x;
            assert(s.take(i + 1)[k] == x);
        }
        if x == s[i] {
            assert(s.take(i + 1)[i] == x);
        }
    }
}

/// Mapping one more element of a sequence.
pub proof fn map_step<A, B>(s: Seq<A>, i: int, f: spec_fn(A) -> B)
    requires
        0 <= i < s.len(),
    ensures
        s.take(i + 1).map_values(f) == s.take(i).map_values(f).push(f(s[i])),
{
    assert(s.take(i + 1).map_values(f) =~= s.take(i).map_values(f).push(f(s[i])));
}

/// Where every element passes, filtering changes nothing.
pub proof fn filter_all<A>(s: Seq<A>, which: spec_fn(A) -> bool)
    requires
        forall|i: int| 0 <= i < s.len() ==> which(#[trigger] s[i]),
    ensures
        s.filter(which) == s,
    decreases s.len(),
{
    reveal(Seq::filter);
    if s.len() > 0 {
        filter_all(s.drop_last(), which);
        assert(s =~= s.drop_last().push(s.last()));
    } else {
        assert(s.filter(which) =~= s);
    }
}

/// Where an element that is left stood before.
pub proof fn filter_place<A>(s: Seq<A>, which: spec_fn(A) -> bool, i: int) -> (p: int)
    requires
        0 <= i < s.filter(which).len(),
    ensures
        0 <= p < s.len(),
        s[p] == s.filter(which)[i],
    decreases s.len(),
{
    reveal(Seq::filter);
    let picked = s.drop_last().filter(which);
    if i == picked.len() {
        s.len() - 1
    } else {
        filter_place(s.drop_last(), which, i)
    }
}

/// Elements that are left stand in the order in which they stood before.
pub proof fn filter_keeps_order<A>(s: Seq<A>, which: spec_fn(A) -> bool, i: int, j: int) -> (r: (
    int,
    int,
))
    requires
        0 <= i < j < s.filter(which).len(),
    ensures
        0 <= r.0 < r.1 < s.len(),
        s[r.0] == s.filter(which)[i],
        s[r.1] == s.filter(which)[j],
    decreases s.len(),
{
    reveal(Seq::filter);
    let front = s.drop_last();
    if j == front.filter(which).len() {
        (filter_place(front, which, i), s.len() - 1)
    } else {
        filter_keeps_order(front, which, i, j)
    }
}

} // verus!
