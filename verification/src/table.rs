use vstd::prelude::*;

verus! {

/// The abstract rows of a table: each stored row taken by its view.
pub open spec fn views<T: View>(rows: Seq<T>) -> Seq<T::V> {
    rows.map_values(|r: T| r@)
}

/// What a request was answered, as plain values.
pub open spec fn answer<T: View, E: View>(r: Result<T, E>) -> Result<T::V, E::V> {
    match r {
        Ok(v) => Ok(v@),
        Err(e) => Err(e@),
    }
}

/// Whether a request was done or why it was refused, as plain values.
pub open spec fn done<E: View>(r: Result<(), E>) -> Result<(), E::V> {
    match r {
        Ok(_) => Ok(()),
        Err(e) => Err(e@),
    }
}

/// Extending a prefix by one row extends its filtered rows by that row or by nothing.
pub proof fn lemma_filter_step<V>(s: Seq<V>, p: spec_fn(V) -> bool, k: int)
    requires
        0 <= k < s.len(),
    ensures
        s.take(k + 1).filter(p) == if p(s[k]) {
            s.take(k).filter(p).push(s[k])
        } else {
            s.take(k).filter(p)
        },
{
    reveal(Seq::filter);
    assert(s.take(k + 1).drop_last() =~= s.take(k));
}

/// Whether some row satisfies the predicate.
pub open spec fn any<V>(rows: Seq<V>, p: spec_fn(V) -> bool) -> bool {
    exists|i: int| 0 <= i < rows.len() && p(#[trigger] rows[i])
}

/// The first row that satisfies the predicate.
pub open spec fn first<V>(rows: Seq<V>, p: spec_fn(V) -> bool) -> Option<V>
    decreases rows.len(),
{
    if rows.len() == 0 {
        None
    } else {
        match first(rows.drop_last(), p) {
            Some(v) => Some(v),
            None => if p(rows.last()) {
                Some(rows.last())
            } else {
                None
            },
        }
    }
}

/// The least row, by `le`, of those that satisfy the predicate; the earlier of two equal ones.
pub open spec fn least<V>(
    rows: Seq<V>,
    p: spec_fn(V) -> bool,
    le: spec_fn(V, V) -> bool,
) -> Option<V>
    decreases rows.len(),
{
    if rows.len() == 0 {
        None
    } else {
        let rest = least(rows.drop_last(), p, le);
        let last = rows.last();
        match rest {
            Some(v) => if p(last) && !le(v, last) {
                Some(last)
            } else {
                Some(v)
            },
            None => if p(last) {
                Some(last)
            } else {
                None
            },
        }
    }
}

/// Rows put in order: the same rows, each before those that come after it by `le`.
pub open spec fn sorted_from<V>(out: Seq<V>, rows: Seq<V>, le: spec_fn(V, V) -> bool) -> bool {
    &&& out.to_multiset() == rows.to_multiset()
    &&& forall|i: int, j: int| 0 <= i < j < out.len() ==> le(#[trigger] out[i], #[trigger] out[j])
}

/// A listing: the rows that satisfy the predicate, in order, each shown through `g`.
pub open spec fn lists<V, U>(
    out: Seq<U>,
    rows: Seq<V>,
    p: spec_fn(V) -> bool,
    le: spec_fn(V, V) -> bool,
    g: spec_fn(V) -> U,
) -> bool {
    exists|ordered: Seq<V>| #[trigger]
        sorted_from(ordered, rows.filter(p), le) && out == ordered.map_values(g)
}

/// `le` puts any two rows in some order, and consistently so.
pub open spec fn total_order<V>(le: spec_fn(V, V) -> bool) -> bool {
    &&& forall|a: V, b: V| #[trigger] le(a, b) || le(b, a)
    &&& forall|a: V, b: V, c: V| #[trigger] le(a, b) && #[trigger] le(b, c) ==> le(a, c)
}

pub proof fn lemma_first<V>(rows: Seq<V>, p: spec_fn(V) -> bool)
    ensures
        first(rows, p) is Some <==> any(rows, p),
        first(rows, p) matches Some(v) ==> p(v) && rows.contains(v),
    decreases rows.len(),
{
    if rows.len() > 0 {
        let init = rows.drop_last();
        lemma_first(init, p);
        if any(init, p) {
            let i = choose|i: int| 0 <= i < init.len() && p(#[trigger] init[i]);
            assert(rows[i] == init[i]);
        }
        if any(rows, p) && !p(rows.last()) {
            let i = choose|i: int| 0 <= i < rows.len() && p(#[trigger] rows[i]);
            assert(init[i] == rows[i]);
        }
        match first(init, p) {
            Some(v) => {
                let i = choose|i: int| 0 <= i < init.len() && init[i] == v;
                assert(rows[i] == v);
            },
            None => {
                if p(rows.last()) {
                    assert(rows[rows.len() - 1] == rows.last());
                }
            },
        }
    }
}

/// The least row satisfies the predicate and comes before every other row that does.
pub proof fn lemma_least<V>(rows: Seq<V>, p: spec_fn(V) -> bool, le: spec_fn(V, V) -> bool)
    requires
        total_order(le),
    ensures
        least(rows, p, le) is Some <==> any(rows, p),
        least(rows, p, le) matches Some(v) ==> p(v) && rows.contains(v) && (forall|i: int|
            0 <= i < rows.len() && p(rows[i]) ==> le(v, #[trigger] rows[i])),
    decreases rows.len(),
{
    if rows.len() > 0 {
        let init = rows.drop_last();
        let last = rows.last();
        lemma_least(init, p, le);
        assert(rows[rows.len() - 1] == last);
        if any(init, p) {
            let i = choose|i: int| 0 <= i < init.len() && p(#[trigger] init[i]);
            assert(rows[i] == init[i]);
        }
        if any(rows, p) && !p(last) {
            let i = choose|i: int| 0 <= i < rows.len() && p(#[trigger] rows[i]);
            assert(init[i] == rows[i]);
        }
        if let Some(v) = least(init, p, le) {
            let k = choose|k: int| 0 <= k < init.len() && init[k] == v;
            assert(rows[k] == v);
            assert(le(v, v));
        }
        if let Some(v) = least(rows, p, le) {
            assert(le(v, v));
            assert forall|i: int| 0 <= i < rows.len() && p(rows[i]) implies le(
                v,
                #[trigger] rows[i],
            ) by {
                if i < init.len() {
                    assert(init[i] == rows[i]);
                    if let Some(w) = least(init, p, le) {
                        assert(le(w, init[i]));
                        assert(le(w, last) || le(last, w));
                    }
                }
            }
        }
    }
}

/// What a filter keeps was there before.
pub proof fn lemma_filter_from<V>(rows: Seq<V>, p: spec_fn(V) -> bool, k: int)
    requires
        0 <= k < rows.filter(p).len(),
    ensures
        rows.contains(rows.filter(p)[k]),
    decreases rows.len(),
{
    reveal(Seq::filter);
    if rows.len() > 0 {
        let rest = rows.drop_last();
        if k < rest.filter(p).len() {
            lemma_filter_from(rest, p, k);
            let j = choose|j: int| 0 <= j < rest.len() && rest[j] == rest.filter(p)[k];
            assert(rows[j] == rest.filter(p)[k]);
        } else {
            assert(rows[rows.len() - 1] == rows.filter(p)[k]);
        }
    }
}

/// A filter keeps exactly the rows that satisfy the predicate.
pub proof fn lemma_filter_contains<V>(rows: Seq<V>, p: spec_fn(V) -> bool, v: V)
    ensures
        rows.filter(p).contains(v) <==> rows.contains(v) && p(v),
{
    broadcast use vstd::seq_lib::group_filter_ensures;

    let kept = rows.filter(p);
    if kept.contains(v) {
        let i = choose|i: int| 0 <= i < kept.len() && kept[i] == v;
        lemma_filter_from(rows, p, i);
        assert(p(kept[i]));
    }
    if rows.contains(v) && p(v) {
        let i = choose|i: int| 0 <= i < rows.len() && rows[i] == v;
        assert(kept.contains(rows[i]));
    }
}

pub proof fn lemma_any_map<V>(rows: Seq<V>, p: spec_fn(V) -> bool, g: spec_fn(V) -> V)
    requires
        any(rows, p),
        forall|v: V| p(v) ==> p(#[trigger] g(v)),
    ensures
        any(rows.map_values(g), p),
{
    let i = choose|i: int| 0 <= i < rows.len() && p(#[trigger] rows[i]);
    assert(p(rows.map_values(g)[i]));
}

pub proof fn lemma_any_push<V>(rows: Seq<V>, v: V, p: spec_fn(V) -> bool)
    requires
        any(rows, p) || p(v),
    ensures
        any(rows.push(v), p),
{
    if any(rows, p) {
        let i = choose|i: int| 0 <= i < rows.len() && p(#[trigger] rows[i]);
        assert(p(rows.push(v)[i]));
    } else {
        assert(p(rows.push(v)[rows.len() as int]));
    }
}

pub proof fn lemma_any_filter<V>(rows: Seq<V>, keep: spec_fn(V) -> bool, p: spec_fn(V) -> bool)
    requires
        any(rows, p),
        forall|v: V| #[trigger] p(v) ==> keep(v),
    ensures
        any(rows.filter(keep), p),
{
    broadcast use vstd::seq_lib::group_filter_ensures;

    let i = choose|i: int| 0 <= i < rows.len() && p(#[trigger] rows[i]);
    let kept = rows.filter(keep);
    assert(kept.contains(rows[i]));
    let j = choose|j: int| 0 <= j < kept.len() && kept[j] == rows[i];
    assert(p(kept[j]));
}

/// One more row adds what it satisfies.
pub proof fn lemma_any_step<V>(rows: Seq<V>, p: spec_fn(V) -> bool, i: int)
    requires
        0 <= i < rows.len(),
    ensures
        any(rows.take(i + 1), p) <==> any(rows.take(i), p) || p(rows[i]),
{
    let now = rows.take(i + 1);
    let was = rows.take(i);
    if any(now, p) {
        let k = choose|k: int| 0 <= k < now.len() && p(#[trigger] now[k]);
        if k < i {
            assert(p(was[k]));
        }
    }
    if any(was, p) {
        let k = choose|k: int| 0 <= k < was.len() && p(#[trigger] was[k]);
        assert(p(now[k]));
    }
    if p(rows[i]) {
        assert(p(now[i]));
    }
}

/// A list without repetition whose elements all occur in another is no longer than that one.
pub proof fn lemma_no_repeat_len<A>(a: Seq<A>, b: Seq<A>)
    requires
        a.no_duplicates(),
        forall|i: int| 0 <= i < a.len() ==> b.contains(#[trigger] a[i]),
    ensures
        a.len() <= b.len(),
{
    assert(a.to_set().subset_of(b.to_set()));
    a.unique_seq_to_set();
    b.lemma_cardinality_of_set();
    vstd::set_lib::lemma_len_subset(a.to_set(), b.to_set());
}

/// Changing rows in columns that the predicate does not read changes the found row alike.
pub proof fn lemma_first_map<V>(rows: Seq<V>, p: spec_fn(V) -> bool, g: spec_fn(V) -> V)
    requires
        forall|v: V| p(#[trigger] g(v)) == p(v),
    ensures
        first(rows.map_values(g), p) == match first(rows, p) {
            Some(v) => Some(g(v)),
            None => None,
        },
    decreases rows.len(),
{
    if rows.len() > 0 {
        assert(rows.map_values(g).drop_last() =~= rows.drop_last().map_values(g));
        lemma_first_map(rows.drop_last(), p, g);
        assert(rows.map_values(g).last() == g(rows.last()));
    }
}

/// Dropping rows that do not satisfy the predicate does not change what is found.
pub proof fn lemma_first_filter<V>(rows: Seq<V>, p: spec_fn(V) -> bool, keep: spec_fn(V) -> bool)
    requires
        forall|v: V| #[trigger] p(v) ==> keep(v),
    ensures
        first(rows.filter(keep), p) == first(rows, p),
    decreases rows.len(),
{
    reveal(Seq::filter);
    if rows.len() > 0 {
        lemma_first_filter(rows.drop_last(), p, keep);
        let kept = rows.drop_last().filter(keep);
        if keep(rows.last()) {
            assert(kept.push(rows.last()).drop_last() =~= kept);
        }
    }
}

/// Dropping rows of a list that do not satisfy the predicate does not change what is found.
pub proof fn lemma_first_kept<V>(rows: Seq<V>, p: spec_fn(V) -> bool, keep: spec_fn(V) -> bool)
    requires
        forall|i: int| 0 <= i < rows.len() && p(#[trigger] rows[i]) ==> keep(rows[i]),
    ensures
        first(rows.filter(keep), p) == first(rows, p),
    decreases rows.len(),
{
    reveal(Seq::filter);
    if rows.len() > 0 {
        let init = rows.drop_last();
        assert forall|i: int| 0 <= i < init.len() && p(#[trigger] init[i]) implies keep(
            init[i],
        ) by {
            assert(rows[i] == init[i]);
        }
        lemma_first_kept(init, p, keep);
        assert(rows.last() == rows[rows.len() - 1]);
        if keep(rows.last()) {
            assert(init.filter(keep).push(rows.last()).drop_last() =~= init.filter(keep));
        }
    }
}

/// A new row at the end is found only where nothing before it was.
pub proof fn lemma_first_push<V>(rows: Seq<V>, v: V, p: spec_fn(V) -> bool)
    ensures
        first(rows.push(v), p) == match first(rows, p) {
            Some(w) => Some(w),
            None => if p(v) {
                Some(v)
            } else {
                None
            },
        },
{
    assert(rows.push(v).drop_last() =~= rows);
}

/// What is found among the kept rows of a prefix is found among the kept rows of the whole.
pub proof fn lemma_first_grows<V>(
    rows: Seq<V>,
    keep: spec_fn(V) -> bool,
    p: spec_fn(V) -> bool,
    k: int,
)
    requires
        0 <= k <= rows.len(),
        first(rows.take(k).filter(keep), p) is Some,
    ensures
        first(rows.filter(keep), p) == first(rows.take(k).filter(keep), p),
    decreases rows.len() - k,
{
    if k < rows.len() {
        lemma_filter_step(rows, keep, k);
        lemma_first_push(rows.take(k).filter(keep), rows[k], p);
        lemma_first_grows(rows, keep, p, k + 1);
    } else {
        assert(rows.take(k) =~= rows);
    }
}

/// What a listing shows: the rows behind it are the ones that satisfy the predicate, all of them
/// and no other, each as often as it is there and in the order asked for.
pub proof fn listed_rows<V, U>(
    out: Seq<U>,
    rows: Seq<V>,
    p: spec_fn(V) -> bool,
    le: spec_fn(V, V) -> bool,
    g: spec_fn(V) -> U,
) -> (shown: Seq<V>)
    requires
        lists(out, rows, p, le, g),
    ensures
        shown.len() == out.len(),
        shown.to_multiset() == rows.filter(p).to_multiset(),
        out.len() == rows.filter(p).len(),
        forall|i: int| 0 <= i < out.len() ==> #[trigger] out[i] == g(shown[i]),
        forall|i: int|
            0 <= i < out.len() ==> p(#[trigger] shown[i]) && rows.contains(shown[i]),
        forall|i: int| 0 <= i < rows.len() && p(#[trigger] rows[i]) ==> shown.contains(rows[i]),
        forall|i: int, j: int|
            0 <= i < j < out.len() ==> le(#[trigger] shown[i], #[trigger] shown[j]),
{
    broadcast use vstd::seq_lib::group_filter_ensures;

    let kept = rows.filter(p);
    let shown = choose|ordered: Seq<V>| #[trigger]
        sorted_from(ordered, kept, le) && out == ordered.map_values(g);
    shown.to_multiset_ensures();
    kept.to_multiset_ensures();
    assert(shown.len() == kept.len());
    assert forall|i: int| 0 <= i < rows.len() && p(#[trigger] rows[i]) implies shown.contains(
        rows[i],
    ) by {
        assert(kept.contains(rows[i]));
        assert(shown.to_multiset().contains(rows[i]));
    }
    assert forall|i: int| 0 <= i < shown.len() implies p(#[trigger] shown[i]) && rows.contains(
        shown[i],
    ) by {
        assert(shown.contains(shown[i]));
        assert(kept.to_multiset().contains(shown[i]));
        let k = choose|k: int| 0 <= k < kept.len() && kept[k] == shown[i];
        lemma_filter_from(rows, p, k);
    }
    shown
}

/// What is found is the row at the first position that satisfies the predicate.
pub proof fn lemma_found_at<V>(rows: Seq<V>, p: spec_fn(V) -> bool, at: int)
    requires
        0 <= at < rows.len(),
        p(rows[at]),
        forall|i: int| 0 <= i < at ==> !p(#[trigger] rows[i]),
    ensures
        first(rows, p) == Some(rows[at]),
{
    let head = rows.take(at);
    lemma_first(head, p);
    assert forall|i: int| 0 <= i < head.len() implies !p(#[trigger] head[i]) by {
        assert(head[i] == rows[i]);
    }
    lemma_first_prefix(rows, p, at);
}

/// The position of the first row that satisfies the predicate.
pub(crate) fn find_where<T: View, F: Fn(&T) -> bool>(
    rows: &Vec<T>,
    f: F,
    Ghost(p): Ghost<spec_fn(T::V) -> bool>,
) -> (r: Option<usize>)
    requires
        forall|x: &T| #[trigger] f.requires((x,)),
        forall|x: &T, b: bool| #[trigger] f.ensures((x,), b) ==> b == p(x@),
    ensures
        match r {
            Some(i) => i < rows.len() && first(views(rows@), p) == Some(rows@[i as int]@) && p(
                rows@[i as int]@,
            ),
            None => first(views(rows@), p) is None,
        },
        r is Some <==> any(views(rows@), p),
{
    let ghost all = views(rows@);
    let mut i: usize = 0;
    proof {
        lemma_first(all, p);
        assert(all.take(0) =~= Seq::empty());
    }
    while i < rows.len()
        invariant
            forall|x: &T| #[trigger] f.requires((x,)),
            forall|x: &T, b: bool| #[trigger] f.ensures((x,), b) ==> b == p(x@),
            all == views(rows@),
            i <= rows.len(),
            first(all.take(i as int), p) is None,
        decreases rows.len() - i,
    {
        proof {
            assert(all.take(i + 1).drop_last() =~= all.take(i as int));
        }
        if f(&rows[i]) {
            proof {
                lemma_first_prefix(all, p, i as int);
                lemma_first(all, p);
            }
            return Some(i);
        }
        i = i + 1;
    }
    proof {
        assert(all.take(i as int) =~= all);
        lemma_first(all, p);
    }
    None
}

/// A row is the first to satisfy the predicate when nothing before it does.
pub proof fn lemma_first_prefix<V>(rows: Seq<V>, p: spec_fn(V) -> bool, k: int)
    requires
        0 <= k < rows.len(),
        first(rows.take(k), p) is None,
        p(rows[k]),
    ensures
        first(rows, p) == Some(rows[k]),
    decreases rows.len(),
{
    if k == rows.len() - 1 {
        assert(rows.drop_last() =~= rows.take(k));
    } else {
        assert(rows.drop_last().take(k) =~= rows.take(k));
        lemma_first_prefix(rows.drop_last(), p, k);
    }
}

/// Whether some row satisfies the predicate.
pub(crate) fn any_where<T: View, F: Fn(&T) -> bool>(
    rows: &Vec<T>,
    f: F,
    Ghost(p): Ghost<spec_fn(T::V) -> bool>,
) -> (r: bool)
    requires
        forall|x: &T| #[trigger] f.requires((x,)),
        forall|x: &T, b: bool| #[trigger] f.ensures((x,), b) ==> b == p(x@),
    ensures
        r == any(views(rows@), p),
{
    find_where(rows, f, Ghost(p)).is_some()
}

/// The position of the least row that satisfies the predicate.
pub(crate) fn least_where<T: View, F: Fn(&T) -> bool, L: Fn(&T, &T) -> bool>(
    rows: &Vec<T>,
    f: F,
    l: L,
    Ghost(p): Ghost<spec_fn(T::V) -> bool>,
    Ghost(le): Ghost<spec_fn(T::V, T::V) -> bool>,
) -> (r: Option<usize>)
    requires
        forall|x: &T| #[trigger] f.requires((x,)),
        forall|x: &T, b: bool| #[trigger] f.ensures((x,), b) ==> b == p(x@),
        forall|x: &T, y: &T| #[trigger] l.requires((x, y)),
        forall|x: &T, y: &T, b: bool| #[trigger] l.ensures((x, y), b) ==> b == le(x@, y@),
    ensures
        match r {
            Some(i) => i < rows.len() && least(views(rows@), p, le) == Some(rows@[i as int]@),
            None => least(views(rows@), p, le) is None,
        },
{
    let ghost all = views(rows@);
    let mut best: Option<usize> = None;
    let mut i: usize = 0;
    proof {
        assert(all.take(0) =~= Seq::empty());
    }
    while i < rows.len()
        invariant
            forall|x: &T| #[trigger] f.requires((x,)),
            forall|x: &T, b: bool| #[trigger] f.ensures((x,), b) ==> b == p(x@),
            forall|x: &T, y: &T| #[trigger] l.requires((x, y)),
            forall|x: &T, y: &T, b: bool| #[trigger] l.ensures((x, y), b) ==> b == le(x@, y@),
            all == views(rows@),
            i <= rows.len(),
            match best {
                Some(k) => k < i && least(all.take(i as int), p, le) == Some(rows@[k as int]@),
                None => least(all.take(i as int), p, le) is None,
            },
        decreases rows.len() - i,
    {
        proof {
            assert(all.take(i + 1).drop_last() =~= all.take(i as int));
            assert(all.take(i + 1).last() == rows@[i as int]@);
        }
        if f(&rows[i]) {
            match best {
                Some(k) => {
                    if !l(&rows[k], &rows[i]) {
                        best = Some(i);
                    }
                },
                None => {
                    best = Some(i);
                },
            }
        }
        i = i + 1;
    }
    proof {
        assert(all.take(i as int) =~= all);
    }
    best
}

/// How many rows satisfy the predicate.
pub(crate) fn count_where<T: View, F: Fn(&T) -> bool>(
    rows: &Vec<T>,
    f: F,
    Ghost(p): Ghost<spec_fn(T::V) -> bool>,
) -> (n: usize)
    requires
        forall|x: &T| #[trigger] f.requires((x,)),
        forall|x: &T, b: bool| #[trigger] f.ensures((x,), b) ==> b == p(x@),
    ensures
        n == views(rows@).filter(p).len(),
{
    let ghost all = views(rows@);
    let mut n: usize = 0;
    let mut i: usize = 0;
    proof {
        reveal(Seq::filter);
        assert(all.take(0) =~= Seq::empty());
    }
    while i < rows.len()
        invariant
            forall|x: &T| #[trigger] f.requires((x,)),
            forall|x: &T, b: bool| #[trigger] f.ensures((x,), b) ==> b == p(x@),
            all == views(rows@),
            n <= i <= rows.len(),
            n == all.take(i as int).filter(p).len(),
        decreases rows.len() - i,
    {
        proof {
            lemma_filter_step(all, p, i as int);
        }
        if f(&rows[i]) {
            n = n + 1;
        }
        i = i + 1;
    }
    proof {
        assert(all.take(i as int) =~= all);
    }
    n
}

/// Keeps the rows that satisfy the predicate, in their order.
pub(crate) fn keep_where<T: View, F: Fn(&T) -> bool>(
    rows: &mut Vec<T>,
    f: F,
    Ghost(p): Ghost<spec_fn(T::V) -> bool>,
)
    requires
        forall|x: &T| #[trigger] f.requires((x,)),
        forall|x: &T, b: bool| #[trigger] f.ensures((x,), b) ==> b == p(x@),
    ensures
        views(final(rows)@) == views(old(rows)@).filter(p),
{
    let ghost before = views(rows@);
    let ghost mut seen: int = 0;
    let mut i: usize = 0;
    proof {
        reveal(Seq::filter);
        assert(before.take(0) =~= Seq::empty());
        assert(views(rows@).take(0) =~= Seq::empty());
    }
    while i < rows.len()
        invariant
            forall|x: &T| #[trigger] f.requires((x,)),
            forall|x: &T, b: bool| #[trigger] f.ensures((x,), b) ==> b == p(x@),
            0 <= seen <= before.len(),
            i <= rows.len(),
            rows.len() - i == before.len() - seen,
            views(rows@).take(i as int) == before.take(seen).filter(p),
            views(rows@).skip(i as int) == before.skip(seen),
        decreases rows.len() - i,
    {
        let ghost cur = views(rows@);
        proof {
            lemma_filter_step(before, p, seen);
            assert(cur.skip(i as int)[0] == before.skip(seen)[0]);
            assert(cur[i as int] == before[seen]);
            assert(cur.skip(i as int + 1) =~= cur.skip(i as int).skip(1));
            assert(before.skip(seen + 1) =~= before.skip(seen).skip(1));
        }
        if !f(&rows[i]) {
            rows.remove(i);
            proof {
                assert(views(rows@) =~= cur.remove(i as int));
                assert(views(rows@).take(i as int) =~= cur.take(i as int));
                assert(views(rows@).skip(i as int) =~= cur.skip(i as int + 1));
                seen = seen + 1;
            }
        } else {
            proof {
                assert(cur.take(i as int + 1) =~= cur.take(i as int).push(cur[i as int]));
                seen = seen + 1;
            }
            i = i + 1;
        }
    }
    proof {
        assert(before.take(seen) =~= before);
        assert(views(rows@).take(i as int) =~= views(rows@));
    }
}



/// Replaces every row by what `f` makes of it.
pub(crate) fn map_rows<T: View, F: Fn(&T) -> T>(
    rows: &mut Vec<T>,
    f: F,
    Ghost(g): Ghost<spec_fn(T::V) -> T::V>,
)
    requires
        forall|x: &T| #[trigger] f.requires((x,)),
        forall|x: &T, y: T| #[trigger] f.ensures((x,), y) ==> y@ == g(x@),
    ensures
        views(final(rows)@) == views(old(rows)@).map_values(g),
{
    let ghost before = views(rows@);
    let mut out: Vec<T> = Vec::new();
    let mut i: usize = 0;
    while i < rows.len()
        invariant
            forall|x: &T| #[trigger] f.requires((x,)),
            forall|x: &T, y: T| #[trigger] f.ensures((x,), y) ==> y@ == g(x@),
            before == views(rows@),
            i <= rows.len(),
            out.len() == i,
            forall|j: int| 0 <= j < i ==> #[trigger] out@[j]@ == g(before[j]),
        decreases rows.len() - i,
    {
        out.push(f(&rows[i]));
        i = i + 1;
    }
    *rows = out;
    proof {
        assert(views(rows@) =~= before.map_values(g));
    }
}

/// Lists the rows that satisfy the predicate, in the order given by `l`, each shown through `mk`.
pub(crate) fn list_where<T: View, U: View, F: Fn(&T) -> bool, L: Fn(&T, &T) -> bool, M: Fn(&T) -> U>(
    rows: &Vec<T>,
    f: F,
    l: L,
    mk: M,
    Ghost(p): Ghost<spec_fn(T::V) -> bool>,
    Ghost(le): Ghost<spec_fn(T::V, T::V) -> bool>,
    Ghost(g): Ghost<spec_fn(T::V) -> U::V>,
) -> (out: Vec<U>)
    requires
        forall|x: &T| #[trigger] f.requires((x,)),
        forall|x: &T, b: bool| #[trigger] f.ensures((x,), b) ==> b == p(x@),
        forall|x: &T, y: &T| #[trigger] l.requires((x, y)),
        forall|x: &T, y: &T, b: bool| #[trigger] l.ensures((x, y), b) ==> b == le(x@, y@),
        forall|x: &T| #[trigger] mk.requires((x,)),
        forall|x: &T, u: U| #[trigger] mk.ensures((x,), u) ==> u@ == g(x@),
        total_order(le),
    ensures
        lists(views(out@), views(rows@), p, le, g),
{
    let order = order_where(rows, f, l, Ghost(p), Ghost(le));
    let ghost ordered = pick(views(rows@), order@);
    let mut out: Vec<U> = Vec::new();
    let mut i: usize = 0;
    while i < order.len()
        invariant
            forall|x: &T| #[trigger] mk.requires((x,)),
            forall|x: &T, u: U| #[trigger] mk.ensures((x,), u) ==> u@ == g(x@),
            forall|j: int| 0 <= j < order.len() ==> #[trigger] order@[j] < rows.len(),
            ordered == pick(views(rows@), order@),
            i <= order.len(),
            out.len() == i,
            forall|j: int| 0 <= j < i ==> #[trigger] out@[j]@ == g(ordered[j]),
        decreases order.len() - i,
    {
        out.push(mk(&rows[order[i]]));
        i = i + 1;
    }
    proof {
        assert(views(out@) =~= ordered.map_values(g));
    }
    out
}

/// The rows at the given positions.
pub open spec fn pick<V>(rows: Seq<V>, at: Seq<usize>) -> Seq<V> {
    Seq::new(at.len(), |i: int| rows[at[i] as int])
}

/// The positions of the rows that satisfy the predicate, in the order given by `l`.
pub(crate) fn order_where<T: View, F: Fn(&T) -> bool, L: Fn(&T, &T) -> bool>(
    rows: &Vec<T>,
    f: F,
    l: L,
    Ghost(p): Ghost<spec_fn(T::V) -> bool>,
    Ghost(le): Ghost<spec_fn(T::V, T::V) -> bool>,
) -> (order: Vec<usize>)
    requires
        forall|x: &T| #[trigger] f.requires((x,)),
        forall|x: &T, b: bool| #[trigger] f.ensures((x,), b) ==> b == p(x@),
        forall|x: &T, y: &T| #[trigger] l.requires((x, y)),
        forall|x: &T, y: &T, b: bool| #[trigger] l.ensures((x, y), b) ==> b == le(x@, y@),
        total_order(le),
    ensures
        forall|j: int| 0 <= j < order.len() ==> #[trigger] order@[j] < rows.len(),
        sorted_from(pick(views(rows@), order@), views(rows@).filter(p), le),
{
    broadcast use vstd::seq_lib::group_to_multiset_ensures;

    let ghost all = views(rows@);
    let mut order: Vec<usize> = Vec::new();
    let mut i: usize = 0;
    proof {
        reveal(Seq::filter);
        assert(all.take(0) =~= Seq::empty());
        assert(pick(all, order@) =~= Seq::empty());
    }
    while i < rows.len()
        invariant
            forall|x: &T| #[trigger] f.requires((x,)),
            forall|x: &T, b: bool| #[trigger] f.ensures((x,), b) ==> b == p(x@),
            forall|x: &T, y: &T| #[trigger] l.requires((x, y)),
            forall|x: &T, y: &T, b: bool| #[trigger] l.ensures((x, y), b) ==> b == le(x@, y@),
            total_order(le),
            all == views(rows@),
            i <= rows.len(),
            forall|j: int| 0 <= j < order.len() ==> #[trigger] order@[j] < rows.len(),
            sorted_from(pick(all, order@), all.take(i as int).filter(p), le),
        decreases rows.len() - i,
    {
        proof {
            lemma_filter_step(all, p, i as int);
        }
        if f(&rows[i]) {
            let ghost old_order = order@;
            let mut at: usize = order.len();
            while at > 0 && !l(&rows[order[at - 1]], &rows[i])
                invariant
                    forall|x: &T, y: &T| #[trigger] l.requires((x, y)),
                    forall|x: &T, y: &T, b: bool| #[trigger]
                        l.ensures((x, y), b) ==> b == le(x@, y@),
                    all == views(rows@),
                    i < rows.len(),
                    at <= order.len(),
                    forall|j: int| 0 <= j < order.len() ==> #[trigger] order@[j] < rows.len(),
                    forall|j: int|
                        at <= j < order.len() ==> !le(
                            all[#[trigger] order@[j] as int],
                            all[i as int],
                        ),
                decreases at,
            {
                at = at - 1;
            }
            proof {
                if at > 0 {
                    assert(le(all[order@[at - 1] as int], all[i as int]));
                }
            }
            order.insert(at, i);
            proof {
                let was = pick(all, old_order);
                let now = pick(all, order@);
                assert(now =~= was.insert(at as int, all[i as int]));
                let x = all[i as int];
                assert(now.remove(at as int) =~= was);
                assert(now[at as int] == x);
                assert(now.contains(x));
                now.to_multiset_ensures();
                vstd::seq_lib::to_multiset_build(all.take(i as int).filter(p), x);
                assert(now.to_multiset() =~= was.to_multiset().insert(x));
                assert forall|a: int, b: int| 0 <= a < b < now.len() implies le(
                    #[trigger] now[a],
                    #[trigger] now[b],
                ) by {
                    assert(forall|k: int| at <= k < was.len() ==> !le(#[trigger] was[k], x)) by {
                        assert forall|k: int| at <= k < was.len() implies !le(
                            #[trigger] was[k],
                            x,
                        ) by {
                            assert(was[k] == all[old_order[k] as int]);
                        }
                    }
                    let a0 = if a < at { a } else { a - 1 };
                    let b0 = if b < at { b } else { b - 1 };
                    if a == at {
                        assert(now[b] == was[b0]);
                        assert(le(x, was[b0]) || le(was[b0], x));
                    } else if b == at {
                        assert(now[a] == was[a0]);
                        assert(le(was[at - 1], x));
                        if a0 < at - 1 {
                            assert(le(was[a0], was[at - 1]));
                        }
                    } else {
                        assert(now[a] == was[a0]);
                        assert(now[b] == was[b0]);
                    }
                }
            }
        }
        i = i + 1;
    }
    proof {
        assert(all.take(i as int) =~= all);
    }
    order
}

/// The rows with one put in: in place of those that satisfy the predicate, or else at the end.
pub open spec fn put<V>(rows: Seq<V>, p: spec_fn(V) -> bool, row: V) -> Seq<V> {
    if any(rows, p) {
        rows.map_values(
            |r: V|
                if p(r) {
                    row
                } else {
                    r
                },
        )
    } else {
        rows.push(row)
    }
}

/// A row that was put in is found.
pub proof fn lemma_put<V>(rows: Seq<V>, p: spec_fn(V) -> bool, row: V)
    requires
        p(row),
    ensures
        first(put(rows, p, row), p) == Some(row),
{
    lemma_first(rows, p);
    if any(rows, p) {
        let g = |r: V|
            if p(r) {
                row
            } else {
                r
            };
        lemma_first_map(rows, p, g);
    } else {
        lemma_first_push(rows, row, p);
    }
}

/// Putting a row in does not change what is found of others.
pub proof fn lemma_put_other<V>(
    rows: Seq<V>,
    p: spec_fn(V) -> bool,
    row: V,
    q: spec_fn(V) -> bool,
)
    requires
        !q(row),
        forall|v: V| #[trigger] q(v) ==> !p(v),
    ensures
        first(put(rows, p, row), q) == first(rows, q),
{
    lemma_first(rows, q);
    if any(rows, p) {
        let g = |r: V|
            if p(r) {
                row
            } else {
                r
            };
        lemma_first_map(rows, q, g);
    } else {
        lemma_first_push(rows, row, q);
    }
}

/// Puts a row in place of those that satisfy the predicate, or else at the end.
pub(crate) fn put_row<T: View, F: Fn(&T) -> bool, C: Fn(&T) -> T>(
    rows: &mut Vec<T>,
    row: T,
    f: F,
    c: C,
    Ghost(p): Ghost<spec_fn(T::V) -> bool>,
)
    requires
        forall|x: &T| #[trigger] f.requires((x,)),
        forall|x: &T, b: bool| #[trigger] f.ensures((x,), b) ==> b == p(x@),
        forall|x: &T| #[trigger] c.requires((x,)),
        forall|x: &T, y: T| #[trigger] c.ensures((x,), y) ==> y@ == x@,
    ensures
        views(final(rows)@) == put(views(old(rows)@), p, row@),
{
    let ghost before = views(rows@);
    let mut found = false;
    let mut i: usize = 0;
    while i < rows.len()
        invariant
            forall|x: &T| #[trigger] f.requires((x,)),
            forall|x: &T, b: bool| #[trigger] f.ensures((x,), b) ==> b == p(x@),
            forall|x: &T| #[trigger] c.requires((x,)),
            forall|x: &T, y: T| #[trigger] c.ensures((x,), y) ==> y@ == x@,
            i <= rows.len(),
            rows.len() == before.len(),
            found == exists|j: int| 0 <= j < i && p(#[trigger] before[j]),
            forall|j: int|
                0 <= j < i ==> #[trigger] rows@[j]@ == if p(before[j]) {
                    row@
                } else {
                    before[j]
                },
            forall|j: int| i <= j < before.len() ==> #[trigger] rows@[j]@ == before[j],
        decreases rows.len() - i,
    {
        let hit = f(&rows[i]);
        proof {
            assert(rows@[i as int]@ == before[i as int]);
            if hit {
                assert(p(before[i as int]));
            }
        }
        if hit {
            let ghost was = rows@;
            let copy = c(&row);
            rows[i] = copy;
            found = true;
            proof {
                assert(rows@ =~= was.update(i as int, copy));
            }
        }
        i = i + 1;
    }
    if found {
        proof {
            assert(any(before, p));
            assert(views(rows@) =~= put(before, p, row@));
        }
    } else {
        proof {
            assert(!any(before, p));
            assert(views(rows@) =~= before);
        }
        rows.push(row);
        proof {
            assert(views(rows@) =~= before.push(row@));
        }
    }
}

} // verus!
