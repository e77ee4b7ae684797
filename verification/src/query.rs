//! The order query engine: apply the optional filters to a fetched order
//! set, count the survivors, sum their amounts per type, and slice out the
//! requested page.
//!
//! The one subtle invariant, stated in `query_orders`' contract: the
//! per-type sums range over the whole filtered set, while only the page is
//! narrowed by pagination.
use vstd::prelude::*;
use crate::orders::{Order, OrderQuery, QueryResult};
use crate::strutil::{contains_sub, contains_str};
use crate::dates::{rfc3339_millis_of, parse_rfc3339};

verus! {

/// The date window, active only when both bounds are present and parse.
pub open spec fn spec_date_range(q: OrderQuery) -> Option<(i64, i64)> {
    match (q.date_start, q.date_end) {
        (Some(s), Some(e)) => match (rfc3339_millis_of(s@), rfc3339_millis_of(e@)) {
            (Some(sm), Some(em)) => Some((sm, em)),
            _ => None,
        },
        _ => None,
    }
}

/// All active filters hold of the order; inactive filters pass everything.
pub open spec fn order_matches(o: Order, q: OrderQuery) -> bool {
    (match q.name {
        Some(n) => contains_sub(o.name@, n@),
        None => true,
    }) && (match q.order_type {
        Some(t) => o.order_type@ == t@,
        None => true,
    }) && (match spec_date_range(q) {
        Some((s, e)) => s <= o.date && o.date <= e,
        None => true,
    })
}

/// The orders surviving every active filter, in store order.
pub open spec fn spec_filtered(orders: Seq<Order>, q: OrderQuery) -> Seq<Order> {
    orders.filter(|o: Order| order_matches(o, q))
}

/// The requested page, clamped to at least 1.
pub open spec fn spec_page(q: OrderQuery) -> int {
    match q.page {
        Some(p) => if p < 1 {
            1
        } else {
            p as int
        },
        None => 1,
    }
}

/// The requested page size, 8 when absent.
pub open spec fn spec_page_size(q: OrderQuery) -> int {
    match q.page_size {
        Some(s) => s as int,
        None => 8,
    }
}

pub open spec fn spec_start(q: OrderQuery) -> int {
    (spec_page(q) - 1) * spec_page_size(q)
}

/// The page slice of the filtered set; out of range means empty, not error.
pub open spec fn spec_page_slice(f: Seq<Order>, q: OrderQuery) -> Seq<Order> {
    let start = spec_start(q);
    let size = spec_page_size(q);
    if start >= f.len() {
        Seq::empty()
    } else if f.len() - start < size {
        f.subrange(start, f.len() as int)
    } else {
        f.subrange(start, start + size)
    }
}

pub open spec fn sum_amounts(s: Seq<Order>) -> int
    decreases s.len(),
{
    if s.len() == 0 {
        0
    } else {
        sum_amounts(s.drop_last()) + s.last().amount
    }
}

/// Sum of the amounts of the orders of type `t` in `s`.
pub open spec fn type_sum(s: Seq<Order>, t: Seq<char>) -> int
    decreases s.len(),
{
    if s.len() == 0 {
        0
    } else {
        type_sum(s.drop_last(), t) + if s.last().order_type@ == t {
            s.last().amount as int
        } else {
            0
        }
    }
}

/// The distinct order types of `s`, in order of first occurrence.
pub open spec fn distinct_types(s: Seq<Order>) -> Seq<Seq<char>>
    decreases s.len(),
{
    if s.len() == 0 {
        Seq::empty()
    } else {
        let td = distinct_types(s.drop_last());
        if td.contains(s.last().order_type@) {
            td
        } else {
            td.push(s.last().order_type@)
        }
    }
}

pub open spec fn stat_keys(st: Seq<(String, i128)>) -> Seq<Seq<char>> {
    st.map_values(|p: (String, i128)| p.0@)
}

pub open spec fn sum_stats(st: Seq<(String, i128)>) -> int
    decreases st.len(),
{
    if st.len() == 0 {
        0
    } else {
        sum_stats(st.drop_last()) + st.last().1
    }
}

proof fn lemma_distinct_types_distinct(s: Seq<Order>)
    ensures
        forall|a: int, b: int|
            0 <= a < b < distinct_types(s).len() ==> distinct_types(s)[a] != distinct_types(s)[b],
    decreases s.len(),
{
    if s.len() > 0 {
        lemma_distinct_types_distinct(s.drop_last());
        let td = distinct_types(s.drop_last());
        let lt = s.last().order_type@;
        if !td.contains(lt) {
            assert forall|a: int, b: int|
                0 <= a < b < distinct_types(s).len() implies distinct_types(s)[a]
                != distinct_types(s)[b] by {
                if b == td.len() {
                    assert(distinct_types(s)[a] == td[a]);
                    if td[a] == lt {
                        assert(td.contains(lt));
                    }
                }
            }
        }
    }
}

proof fn lemma_type_sum_absent(s: Seq<Order>, t: Seq<char>)
    requires
        !distinct_types(s).contains(t),
    ensures
        type_sum(s, t) == 0,
    decreases s.len(),
{
    if s.len() > 0 {
        let td = distinct_types(s.drop_last());
        let lt = s.last().order_type@;
        if td.contains(lt) {
            assert(!td.contains(t));
            assert(t != lt) by {
                if t == lt {
                    assert(td.contains(t));
                }
            }
        } else {
            assert(!td.contains(t)) by {
                if td.contains(t) {
                    let w = choose|m: int| 0 <= m < td.len() && td[m] == t;
                    assert(td.push(lt)[w] == t);
                    assert(distinct_types(s).contains(t));
                }
            }
            assert(t != lt) by {
                if t == lt {
                    assert(td.push(lt)[td.len() as int] == t);
                    assert(distinct_types(s).contains(t));
                }
            }
        }
        lemma_type_sum_absent(s.drop_last(), t);
    }
}

proof fn lemma_type_sum_bound(s: Seq<Order>, t: Seq<char>)
    ensures
        -(s.len() as int) * 0x8000_0000_0000_0000 <= type_sum(s, t) <= (s.len() as int)
            * 0x8000_0000_0000_0000,
    decreases s.len(),
{
    if s.len() > 0 {
        lemma_type_sum_bound(s.drop_last(), t);
    }
}

proof fn lemma_sum_stats_update(st: Seq<(String, i128)>, ix: int, e: (String, i128))
    requires
        0 <= ix < st.len(),
    ensures
        sum_stats(st.update(ix, e)) == sum_stats(st) - st[ix].1 + e.1,
    decreases st.len(),
{
    let u = st.update(ix, e);
    if ix == st.len() - 1 {
        assert(u.drop_last() =~= st.drop_last());
        assert(u.last() == e);
    } else {
        assert(u.drop_last() =~= st.drop_last().update(ix, e));
        assert(u.last() == st.last());
        lemma_sum_stats_update(st.drop_last(), ix, e);
    }
}

fn find_stat(stats: &Vec<(String, i128)>, t: &String) -> (r: Option<usize>)
    ensures
        match r {
            Some(ix) => ix < stats@.len() && stats@[ix as int].0@ == t@,
            None => forall|m: int| 0 <= m < stats@.len() ==> (#[trigger] stats@[m].0@) != t@,
        },
{
    let mut i: usize = 0;
    while i < stats.len()
        invariant
            i <= stats@.len(),
            forall|m: int| 0 <= m < i ==> (#[trigger] stats@[m].0@) != t@,
        decreases stats@.len() - i,
    {
        if stats[i].0 == *t {
            return Some(i);
        }
        i = i + 1;
    }
    None
}

fn clone_range(v: &Vec<Order>, a: usize, b: usize) -> (r: Vec<Order>)
    requires
        a <= b <= v@.len(),
    ensures
        r@ == v@.subrange(a as int, b as int),
{
    let mut r: Vec<Order> = Vec::new();
    let mut i: usize = a;
    while i < b
        invariant
            a <= i <= b <= v@.len(),
            r@ =~= v@.subrange(a as int, i as int),
        decreases b - i,
    {
        r.push(v[i].clone());
        proof {
            assert(r@ =~= v@.subrange(a as int, i + 1));
        }
        i = i + 1;
    }
    r
}

/// Run a query over an owner's fetched orders.  The contract pins every
/// part of the result against the specification-level filtered set: the
/// total is its length; the page is its slice for the clamped page and
/// size; the statistics carry one entry per distinct type, in first
/// occurrence order, each holding that type's amount sum over the whole
/// filtered set; and the statistics values together sum to the filtered
/// set's amount sum.
pub fn query_orders(orders: &Vec<Order>, q: &OrderQuery) -> (r: QueryResult)
    ensures
        r.total == spec_filtered(orders@, *q).len(),
        r.page@ == spec_page_slice(spec_filtered(orders@, *q), *q),
        r.page@.len() == vstd::math::min(
            spec_page_size(*q),
            vstd::math::max(0, spec_filtered(orders@, *q).len() - spec_start(*q)),
        ),
        stat_keys(r.stats@) == distinct_types(spec_filtered(orders@, *q)),
        forall|m: int|
            0 <= m < r.stats@.len() ==> (#[trigger] r.stats@[m].1) as int == type_sum(
                spec_filtered(orders@, *q),
                r.stats@[m].0@,
            ),
        sum_stats(r.stats@) == sum_amounts(spec_filtered(orders@, *q)),
{
    let range: Option<(i64, i64)> = match (&q.date_start, &q.date_end) {
        (Some(s), Some(e)) => match (parse_rfc3339(s.as_str()), parse_rfc3339(e.as_str())) {
            (Some(sm), Some(em)) => Some((sm, em)),
            _ => None,
        },
        _ => None,
    };
    proof {
        assert(range == spec_date_range(*q));
    }
    // filter pass, in store order
    let mut kept: Vec<Order> = Vec::new();
    let mut i: usize = 0;
    proof {
        reveal(Seq::<Order>::filter);
        assert(orders@.take(0) =~= Seq::<Order>::empty());
        assert(kept@ == spec_filtered(orders@.take(0), *q));
    }
    while i < orders.len()
        invariant
            i <= orders@.len(),
            range == spec_date_range(*q),
            kept@ == spec_filtered(orders@.take(i as int), *q),
        decreases orders@.len() - i,
    {
        let o = &orders[i];
        let mut keep = true;
        match &q.name {
            Some(n) => {
                if !contains_str(o.name.as_str(), n.as_str()) {
                    keep = false;
                }
            },
            None => {},
        }
        match &q.order_type {
            Some(t) => {
                if !(o.order_type == *t) {
                    keep = false;
                }
            },
            None => {},
        }
        match range {
            Some((s, e)) => {
                if !(s <= o.date && o.date <= e) {
                    keep = false;
                }
            },
            None => {},
        }
        proof {
            reveal(Seq::<Order>::filter);
            assert(keep == order_matches(orders@[i as int], *q));
            assert(orders@.take(i + 1) =~= orders@.take(i as int).push(orders@[i as int]));
            assert(orders@.take(i + 1).drop_last() =~= orders@.take(i as int));
        }
        if keep {
            kept.push(o.clone());
        }
        proof {
            assert(kept@ == spec_filtered(orders@.take(i + 1), *q));
        }
        i = i + 1;
    }
    proof {
        assert(orders@.take(orders@.len() as int) =~= orders@);
    }
    let ghost f = spec_filtered(orders@, *q);
    let total = kept.len();
    // per-type sums over the whole filtered set
    let mut stats: Vec<(String, i128)> = Vec::new();
    let mut j: usize = 0;
    proof {
        assert(kept@.take(0) =~= Seq::<Order>::empty());
        assert(stat_keys(stats@) =~= distinct_types(kept@.take(0)));
    }
    while j < kept.len()
        invariant
            j <= kept@.len(),
            stat_keys(stats@) == distinct_types(kept@.take(j as int)),
            forall|m: int|
                0 <= m < stats@.len() ==> (#[trigger] stats@[m].1) as int == type_sum(
                    kept@.take(j as int),
                    stats@[m].0@,
                ),
            sum_stats(stats@) == sum_amounts(kept@.take(j as int)),
        decreases kept@.len() - j,
    {
        let o = &kept[j];
        let ghost pre = kept@.take(j as int);
        let ghost post = kept@.take(j + 1);
        let ghost t = kept@[j as int].order_type@;
        proof {
            assert(post =~= pre.push(kept@[j as int]));
            assert(post.drop_last() =~= pre);
            assert(usize::MAX as int <= u64::MAX as int);
            lemma_distinct_types_distinct(pre);
        }
        let add = o.amount as i128;
        match find_stat(&stats, &o.order_type) {
            Some(ix) => {
                let cur = stats[ix].1;
                proof {
                    lemma_type_sum_bound(post, t);
                    assert((post.len() as int) * 0x8000_0000_0000_0000 <= (u64::MAX as int)
                        * 0x8000_0000_0000_0000);
                    assert(cur as int == type_sum(pre, t));
                    assert(type_sum(post, t) == type_sum(pre, t) + (o.amount as int));
                }
                let nv = cur + add;
                let ghost old_stats = stats@;
                stats[ix].1 = nv;
                proof {
                    let e = (old_stats[ix as int].0, nv);
                    assert(stats@ =~= old_stats.update(ix as int, e));
                    lemma_sum_stats_update(old_stats, ix as int, e);
                    assert(stat_keys(stats@) =~= stat_keys(old_stats));
                    // the distinct types are unchanged: the type is already present
                    assert(distinct_types(post) == distinct_types(pre)) by {
                        assert(stat_keys(old_stats)[ix as int] == t);
                        assert(distinct_types(pre).contains(t));
                    }
                    // other entries keep their sums: their keys differ from t
                    assert forall|m: int|
                        0 <= m < stats@.len() implies (#[trigger] stats@[m].1) as int == type_sum(
                        post,
                        stats@[m].0@,
                    ) by {
                        if m != ix {
                            assert(stat_keys(old_stats)[m] != stat_keys(old_stats)[ix as int]);
                            assert(stats@[m] == old_stats[m]);
                            assert(type_sum(post, stats@[m].0@) == type_sum(pre, stats@[m].0@));
                        }
                    }
                }
            },
            None => {
                proof {
                    assert(!distinct_types(pre).contains(t)) by {
                        if distinct_types(pre).contains(t) {
                            let w = choose|m: int|
                                0 <= m < distinct_types(pre).len() && distinct_types(pre)[m] == t;
                            assert(stat_keys(stats@)[w] == t);
                            assert(stats@[w].0@ == t);
                        }
                    }
                    lemma_type_sum_absent(pre, t);
                }
                let ghost old_stats = stats@;
                stats.push((o.order_type.clone(), add));
                proof {
                    assert(distinct_types(post) == distinct_types(pre).push(t));
                    assert(stat_keys(stats@) =~= stat_keys(old_stats).push(t));
                    assert(stats@.drop_last() =~= old_stats);
                    assert(type_sum(post, t) == 0 + (o.amount as int));
                    assert forall|m: int|
                        0 <= m < stats@.len() implies (#[trigger] stats@[m].1) as int == type_sum(
                        post,
                        stats@[m].0@,
                    ) by {
                        if m < old_stats.len() {
                            assert(stats@[m] == old_stats[m]);
                            assert(stats@[m].0@ != t);
                            assert(type_sum(post, stats@[m].0@) == type_sum(pre, stats@[m].0@));
                        }
                    }
                }
            },
        }
        proof {
            assert(sum_amounts(post) == sum_amounts(pre) + (kept@[j as int].amount as int));
        }
        j = j + 1;
    }
    proof {
        assert(kept@.take(kept@.len() as int) =~= kept@);
    }
    // pagination
    let page = match q.page {
        Some(p) => if p < 1 {
            1
        } else {
            p
        },
        None => 1,
    };
    let size = match q.page_size {
        Some(s) => s,
        None => 8,
    };
    proof {
        assert(page as int == spec_page(*q));
        assert(size as int == spec_page_size(*q));
    }
    let pg: Vec<Order> = match (page - 1).checked_mul(size) {
        Some(start) => {
            if start >= total {
                Vec::new()
            } else if total - start < size {
                clone_range(&kept, start, total)
            } else {
                clone_range(&kept, start, start + size)
            }
        },
        None => {
            proof {
                assert(spec_start(*q) > usize::MAX as int);
            }
            Vec::new()
        },
    };
    QueryResult { total, page: pg, stats }
}

} // verus!
