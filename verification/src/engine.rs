//! The query engine: filter by a minimum time, sort ascending by time,
//! truncate to a result limit, and materialize typed records.
//!
//! The engine works on raw rows already projected out of a columnar
//! artifact.  Its result is stated functionally: mapping and filtering the
//! rows in artifact order, sorting the kept records by a deterministic
//! insertion sort, and taking the first `n_results` of them.  Because the
//! specification is a function of the inputs alone, two queries with
//! identical arguments are proved to return identical output.

use vstd::prelude::*;
use crate::records::{
    Earthquake, QuakeRow, Trip, TripRow, map_quake_row, map_trip_row, quake_of_row, trip_of_row,
};

verus! {

broadcast use vstd::seq_lib::group_to_multiset_ensures;

/// Records ordered by their event time.
pub trait TimeKeyed: Sized {
    /// The sort key: the record's time in its native unit.
    spec fn time_key(&self) -> int;

    /// Executable access to the sort key.
    fn exec_time_key(&self) -> (k: i128)
        ensures
            k == self.time_key(),
    ;
}

impl TimeKeyed for Earthquake {
    open spec fn time_key(&self) -> int {
        self.time_ms as int
    }

    fn exec_time_key(&self) -> (k: i128)
        ensures
            k == self.time_key(),
    {
        self.time_ms as i128
    }
}

impl TimeKeyed for Trip {
    open spec fn time_key(&self) -> int {
        self.tpep_pickup_datetime_ns as int
    }

    fn exec_time_key(&self) -> (k: i128)
        ensures
            k == self.time_key(),
    {
        self.tpep_pickup_datetime_ns as i128
    }
}

/// Insert `x` into `s` before the first run of elements whose key exceeds
/// `x`'s key.
pub open spec fn insert_ord<T: TimeKeyed>(s: Seq<T>, x: T) -> Seq<T>
    decreases s.len(),
{
    if s.len() == 0 {
        seq![x]
    } else if s.last().time_key() <= x.time_key() {
        s.push(x)
    } else {
        insert_ord(s.drop_last(), x).push(s.last())
    }
}

/// Insertion sort of `s` by time key, left to right: a deterministic
/// ordering of `s`'s elements.
pub open spec fn sort_ord<T: TimeKeyed>(s: Seq<T>) -> Seq<T>
    decreases s.len(),
{
    if s.len() == 0 {
        Seq::empty()
    } else {
        insert_ord(sort_ord(s.drop_last()), s.last())
    }
}

/// Non-decreasing by time key.
pub open spec fn sorted_by_time<T: TimeKeyed>(s: Seq<T>) -> bool {
    forall|i: int, j: int|
        0 <= i <= j < s.len() ==> #[trigger] s[i].time_key() <= #[trigger] s[j].time_key()
}

/// Where the elements at and after `j` all have keys above `x`'s and the
/// element before `j` (if any) does not, `insert_ord` places `x` at `j`.
proof fn lemma_insert_ord_at<T: TimeKeyed>(s: Seq<T>, x: T, j: int)
    requires
        0 <= j <= s.len(),
        forall|i: int| j <= i < s.len() ==> #[trigger] s[i].time_key() > x.time_key(),
        j > 0 ==> s[j - 1].time_key() <= x.time_key(),
    ensures
        insert_ord(s, x) == s.insert(j, x),
    decreases s.len(),
{
    if j == s.len() {
        if s.len() == 0 {
            assert(insert_ord(s, x) =~= s.insert(j, x));
        } else {
            assert(s.last().time_key() <= x.time_key());
            assert(s.push(x) =~= s.insert(j, x));
        }
    } else {
        assert(s.last().time_key() > x.time_key());
        lemma_insert_ord_at(s.drop_last(), x, j);
        assert(insert_ord(s.drop_last(), x).push(s.last()) =~= s.insert(j, x));
    }
}

/// Inserting adds exactly `x` to the elements.
proof fn lemma_insert_ord_multiset<T: TimeKeyed>(s: Seq<T>, x: T)
    ensures
        insert_ord(s, x).to_multiset() =~= s.to_multiset().insert(x),
    decreases s.len(),
{
    broadcast use vstd::multiset::group_multiset_axioms;

    if s.len() == 0 {
        assert(seq![x] =~= Seq::<T>::empty().push(x));
    } else if s.last().time_key() <= x.time_key() {
    } else {
        lemma_insert_ord_multiset(s.drop_last(), x);
        assert(s =~= s.drop_last().push(s.last()));
    }
}

/// Inserting into a sorted sequence keeps it sorted.
proof fn lemma_insert_ord_sorted<T: TimeKeyed>(s: Seq<T>, x: T)
    requires
        sorted_by_time(s),
    ensures
        sorted_by_time(insert_ord(s, x)),
    decreases s.len(),
{
    broadcast use vstd::multiset::group_multiset_axioms;

    if s.len() == 0 {
    } else if s.last().time_key() <= x.time_key() {
        assert forall|i: int, j: int| 0 <= i <= j < s.push(x).len() implies #[trigger] s.push(
            x,
        )[i].time_key() <= #[trigger] s.push(x)[j].time_key() by {
            if j == s.len() && i < j {
                assert(s[i].time_key() <= s[s.len() - 1].time_key());
            }
        }
    } else {
        let t = insert_ord(s.drop_last(), x);
        lemma_insert_ord_sorted(s.drop_last(), x);
        lemma_insert_ord_multiset(s.drop_last(), x);
        assert forall|i: int, j: int| 0 <= i <= j < t.push(s.last()).len() implies #[trigger] t
            .push(s.last())[i].time_key() <= #[trigger] t.push(s.last())[j].time_key() by {
            if j == t.len() && i < j {
                let y = t[i];
                assert(t.to_multiset().contains(y));
                assert(s.drop_last().to_multiset().insert(x).contains(y));
                if y == x {
                    assert(y.time_key() <= s.last().time_key());
                } else {
                    assert(s.drop_last().to_multiset().contains(y));
                    assert(s.drop_last().contains(y));
                    let k = choose|k: int|
                        0 <= k < s.drop_last().len() && s.drop_last()[k] == y;
                    assert(s[k].time_key() <= s[s.len() - 1].time_key());
                }
            }
        }
    }
}

/// The sorted sequence holds exactly the original elements.
pub proof fn lemma_sort_ord_multiset<T: TimeKeyed>(s: Seq<T>)
    ensures
        sort_ord(s).to_multiset() =~= s.to_multiset(),
    decreases s.len(),
{
    broadcast use vstd::multiset::group_multiset_axioms;

    if s.len() > 0 {
        lemma_sort_ord_multiset(s.drop_last());
        lemma_insert_ord_multiset(sort_ord(s.drop_last()), s.last());
        assert(s =~= s.drop_last().push(s.last()));
    }
}

/// The sorted sequence is non-decreasing by time key.
pub proof fn lemma_sort_ord_sorted<T: TimeKeyed>(s: Seq<T>)
    ensures
        sorted_by_time(sort_ord(s)),
    decreases s.len(),
{
    if s.len() > 0 {
        lemma_sort_ord_sorted(s.drop_last());
        lemma_insert_ord_sorted(sort_ord(s.drop_last()), s.last());
    }
}

/// Sorting a sequence extended by `x` inserts `x` into the sorted rest.
proof fn lemma_sort_ord_push<T: TimeKeyed>(s: Seq<T>, x: T)
    ensures
        sort_ord(s.push(x)) == insert_ord(sort_ord(s), x),
{
    assert(s.push(x).drop_last() =~= s);
    assert(s.push(x).last() == x);
}

/// Insert `x` into the sorted vector `v`, keeping `insert_ord`'s order.
fn insert_sorted<T: TimeKeyed>(v: &mut Vec<T>, x: T)
    ensures
        final(v)@ == insert_ord(old(v)@, x),
{
    let key = x.exec_time_key();
    let mut j: usize = v.len();
    while j > 0 && v[j - 1].exec_time_key() > key
        invariant
            j <= v.len(),
            v@ == old(v)@,
            key == x.time_key(),
            forall|i: int| j <= i < v@.len() ==> #[trigger] v@[i].time_key() > x.time_key(),
        decreases j,
    {
        j = j - 1;
    }
    proof {
        lemma_insert_ord_at(v@, x, j as int);
    }
    v.insert(j, x);
}

/// The records kept from the seismic rows: each row mapped to its record,
/// rows with a missing or unparseable field dropped, and records before
/// `from_ms` (epoch milliseconds, the feed's native unit) dropped.
pub open spec fn kept_quakes(rows: Seq<QuakeRow>, from_ms: int) -> Seq<Earthquake>
    decreases rows.len(),
{
    if rows.len() == 0 {
        Seq::empty()
    } else {
        let rest = kept_quakes(rows.drop_last(), from_ms);
        match quake_of_row(rows.last()) {
            Some(q) => if q.time_ms >= from_ms {
                rest.push(q)
            } else {
                rest
            },
            None => rest,
        }
    }
}

/// The records kept from the trip rows.  The artifact stores times in
/// nanoseconds, so the millisecond bound is scaled to that unit.
pub open spec fn kept_trips(rows: Seq<TripRow>, from_ms: int) -> Seq<Trip>
    decreases rows.len(),
{
    if rows.len() == 0 {
        Seq::empty()
    } else {
        let rest = kept_trips(rows.drop_last(), from_ms);
        match trip_of_row(rows.last()) {
            Some(t) => if t.tpep_pickup_datetime_ns >= from_ms * 1000000 {
                rest.push(t)
            } else {
                rest
            },
            None => rest,
        }
    }
}

/// The first `n` elements of `s`, or all of them where `s` is shorter.
pub open spec fn take_at_most<T>(s: Seq<T>, n: int) -> Seq<T> {
    if n <= s.len() {
        s.take(n)
    } else {
        s
    }
}

/// The full query result over the seismic rows: kept records, sorted
/// ascending by time, truncated to `n` results.
pub open spec fn quake_query(rows: Seq<QuakeRow>, from_ms: int, n: int) -> Seq<Earthquake> {
    take_at_most(sort_ord(kept_quakes(rows, from_ms)), n)
}

/// The full query result over the trip rows.
pub open spec fn trip_query(rows: Seq<TripRow>, from_ms: int, n: int) -> Seq<Trip> {
    take_at_most(sort_ord(kept_trips(rows, from_ms)), n)
}

/// Every record kept from the seismic rows has time at or after the bound.
proof fn lemma_kept_quakes_bounded(rows: Seq<QuakeRow>, from_ms: int)
    ensures
        forall|i: int|
            0 <= i < kept_quakes(rows, from_ms).len() ==> #[trigger] kept_quakes(
                rows,
                from_ms,
            )[i].time_ms >= from_ms,
    decreases rows.len(),
{
    if rows.len() > 0 {
        lemma_kept_quakes_bounded(rows.drop_last(), from_ms);
        let rest = kept_quakes(rows.drop_last(), from_ms);
        let k = kept_quakes(rows, from_ms);
        assert forall|i: int| 0 <= i < k.len() implies #[trigger] k[i].time_ms >= from_ms by {
            match quake_of_row(rows.last()) {
                Some(q) => {
                    if q.time_ms >= from_ms {
                        assert(k == rest.push(q));
                        if i < rest.len() {
                            assert(k[i] == rest[i]);
                        }
                    } else {
                        assert(k == rest);
                    }
                },
                None => {
                    assert(k == rest);
                },
            }
        }
    }
}

/// Every record kept from the trip rows has a pickup at or after the
/// bound scaled to nanoseconds.
proof fn lemma_kept_trips_bounded(rows: Seq<TripRow>, from_ms: int)
    ensures
        forall|i: int|
            0 <= i < kept_trips(rows, from_ms).len() ==> #[trigger] kept_trips(
                rows,
                from_ms,
            )[i].tpep_pickup_datetime_ns >= from_ms * 1000000,
    decreases rows.len(),
{
    if rows.len() > 0 {
        lemma_kept_trips_bounded(rows.drop_last(), from_ms);
        let rest = kept_trips(rows.drop_last(), from_ms);
        let k = kept_trips(rows, from_ms);
        assert forall|i: int|
            0 <= i < k.len() implies #[trigger] k[i].tpep_pickup_datetime_ns >= from_ms
            * 1000000 by {
            match trip_of_row(rows.last()) {
                Some(t) => {
                    if t.tpep_pickup_datetime_ns >= from_ms * 1000000 {
                        assert(k == rest.push(t));
                        if i < rest.len() {
                            assert(k[i] == rest[i]);
                        }
                    } else {
                        assert(k == rest);
                    }
                },
                None => {
                    assert(k == rest);
                },
            }
        }
    }
}

/// The sequence `s` contains each element that its sorted ordering holds.
proof fn lemma_sort_ord_element_of<T: TimeKeyed>(s: Seq<T>, i: int)
    requires
        0 <= i < sort_ord(s).len(),
    ensures
        s.contains(sort_ord(s)[i]),
{
    broadcast use vstd::multiset::group_multiset_axioms;

    lemma_sort_ord_multiset(s);
    let x = sort_ord(s)[i];
    assert(sort_ord(s).contains(x));
    assert(sort_ord(s).to_multiset().count(x) > 0);
    assert(s.to_multiset().count(x) > 0);
    assert(s.contains(x));
}

/// For every query, the returned sequence holds at most `n` records and
/// is non-decreasing by event time.
pub proof fn lemma_quake_query_limited_and_sorted(rows: Seq<QuakeRow>, from_ms: int, n: int)
    requires
        0 <= n,
    ensures
        quake_query(rows, from_ms, n).len() <= n,
        sorted_by_time(quake_query(rows, from_ms, n)),
{
    let sorted = sort_ord(kept_quakes(rows, from_ms));
    let q = quake_query(rows, from_ms, n);
    lemma_sort_ord_sorted(kept_quakes(rows, from_ms));
    assert forall|i: int, j: int| 0 <= i <= j < q.len() implies #[trigger] q[i].time_key()
        <= #[trigger] q[j].time_key() by {
        assert(q[i] == sorted[i]);
        assert(q[j] == sorted[j]);
    }
}

/// For every query, the returned sequence holds at most `n` records and
/// is non-decreasing by pickup time.
pub proof fn lemma_trip_query_limited_and_sorted(rows: Seq<TripRow>, from_ms: int, n: int)
    requires
        0 <= n,
    ensures
        trip_query(rows, from_ms, n).len() <= n,
        sorted_by_time(trip_query(rows, from_ms, n)),
{
    let sorted = sort_ord(kept_trips(rows, from_ms));
    let q = trip_query(rows, from_ms, n);
    lemma_sort_ord_sorted(kept_trips(rows, from_ms));
    assert forall|i: int, j: int| 0 <= i <= j < q.len() implies #[trigger] q[i].time_key()
        <= #[trigger] q[j].time_key() by {
        assert(q[i] == sorted[i]);
        assert(q[j] == sorted[j]);
    }
}

/// Every returned seismic record has time at or after `from_ms`.
pub proof fn lemma_quake_query_times_bounded(rows: Seq<QuakeRow>, from_ms: int, n: int)
    requires
        0 <= n,
    ensures
        forall|i: int|
            0 <= i < quake_query(rows, from_ms, n).len() ==> #[trigger] quake_query(
                rows,
                from_ms,
                n,
            )[i].time_ms >= from_ms,
{
    let kept = kept_quakes(rows, from_ms);
    let q = quake_query(rows, from_ms, n);
    lemma_kept_quakes_bounded(rows, from_ms);
    assert(q.len() <= sort_ord(kept).len());
    assert forall|i: int| 0 <= i < q.len() implies #[trigger] q[i].time_ms >= from_ms by {
        assert(q[i] == sort_ord(kept)[i]);
        lemma_sort_ord_element_of(kept, i);
        let j = choose|j: int| 0 <= j < kept.len() && kept[j] == q[i];
        assert(kept[j].time_ms >= from_ms);
    }
}

/// Every returned trip record has pickup time at or after `from_ms`
/// scaled to the artifact's nanosecond unit.
pub proof fn lemma_trip_query_times_bounded(rows: Seq<TripRow>, from_ms: int, n: int)
    requires
        0 <= n,
    ensures
        forall|i: int|
            0 <= i < trip_query(rows, from_ms, n).len() ==> #[trigger] trip_query(
                rows,
                from_ms,
                n,
            )[i].tpep_pickup_datetime_ns >= from_ms * 1000000,
{
    let kept = kept_trips(rows, from_ms);
    let q = trip_query(rows, from_ms, n);
    lemma_kept_trips_bounded(rows, from_ms);
    assert(q.len() <= sort_ord(kept).len());
    assert forall|i: int|
        0 <= i < q.len() implies #[trigger] q[i].tpep_pickup_datetime_ns >= from_ms
        * 1000000 by {
        assert(q[i] == sort_ord(kept)[i]);
        lemma_sort_ord_element_of(kept, i);
        let j = choose|j: int| 0 <= j < kept.len() && kept[j] == q[i];
        assert(kept[j].tpep_pickup_datetime_ns >= from_ms * 1000000);
    }
}

/// Dropping a row never loses another: whenever the limit admits them,
/// the result holds exactly the records of the complete, in-window rows —
/// no more and no fewer.
pub proof fn lemma_quake_query_complete(rows: Seq<QuakeRow>, from_ms: int, n: int)
    requires
        n >= kept_quakes(rows, from_ms).len(),
    ensures
        quake_query(rows, from_ms, n).to_multiset() == kept_quakes(rows, from_ms).to_multiset(),
{
    let k = kept_quakes(rows, from_ms);
    lemma_sort_ord_multiset(k);
    assert(sort_ord(k).to_multiset().len() == sort_ord(k).len());
    assert(k.to_multiset().len() == k.len());
    assert(quake_query(rows, from_ms, n) =~= sort_ord(k));
}

/// Dropping a row never loses another: whenever the limit admits them,
/// the result holds exactly the records of the complete, in-window rows —
/// no more and no fewer.
pub proof fn lemma_trip_query_complete(rows: Seq<TripRow>, from_ms: int, n: int)
    requires
        n >= kept_trips(rows, from_ms).len(),
    ensures
        trip_query(rows, from_ms, n).to_multiset() == kept_trips(rows, from_ms).to_multiset(),
{
    let k = kept_trips(rows, from_ms);
    lemma_sort_ord_multiset(k);
    assert(sort_ord(k).to_multiset().len() == sort_ord(k).len());
    assert(k.to_multiset().len() == k.len());
    assert(trip_query(rows, from_ms, n) =~= sort_ord(k));
}

/// Querying twice with identical arguments yields the identical ordered
/// output: the result is a function of the rows and window alone.
pub proof fn lemma_quake_query_idempotent(
    rows: Seq<QuakeRow>,
    from_ms: int,
    n: int,
    r1: Seq<Earthquake>,
    r2: Seq<Earthquake>,
)
    requires
        r1 == quake_query(rows, from_ms, n),
        r2 == quake_query(rows, from_ms, n),
    ensures
        r1 == r2,
{
}

/// Querying twice with identical arguments yields the identical ordered
/// output: the result is a function of the rows and window alone.
pub proof fn lemma_trip_query_idempotent(
    rows: Seq<TripRow>,
    from_ms: int,
    n: int,
    r1: Seq<Trip>,
    r2: Seq<Trip>,
)
    requires
        r1 == trip_query(rows, from_ms, n),
        r2 == trip_query(rows, from_ms, n),
    ensures
        r1 == r2,
{
}

/// Run the seismic query: drop incomplete rows, keep records at or after
/// `from_ms`, sort ascending by time, return at most `n_results`.
pub fn get_earthquakes_from_rows(rows: Vec<QuakeRow>, from_ms: i64, n_results: usize) -> (r: Vec<
    Earthquake,
>)
    ensures
        r@ == quake_query(rows@, from_ms as int, n_results as int),
{
    let ghost orig = rows@;
    let mut rows = rows;
    let mut out: Vec<Earthquake> = Vec::new();
    let ghost mut i: int = 0;
    while rows.len() > 0
        invariant
            0 <= i <= orig.len(),
            rows@ == orig.skip(i),
            out@ == sort_ord(kept_quakes(orig.take(i), from_ms as int)),
        decreases rows@.len(),
    {
        let row = rows.remove(0);
        proof {
            assert(row == orig[i]);
            assert(rows@ =~= orig.skip(i + 1));
            assert(orig.take(i + 1).drop_last() =~= orig.take(i));
            assert(orig.take(i + 1).last() == orig[i]);
        }
        let ghost k0 = kept_quakes(orig.take(i), from_ms as int);
        match map_quake_row(row) {
            Some(q) => {
                if q.time_ms >= from_ms {
                    proof {
                        lemma_sort_ord_push(k0, q);
                        assert(kept_quakes(orig.take(i + 1), from_ms as int) == k0.push(q));
                    }
                    insert_sorted(&mut out, q);
                } else {
                    proof {
                        assert(kept_quakes(orig.take(i + 1), from_ms as int) == k0);
                    }
                }
            },
            None => {
                proof {
                    assert(kept_quakes(orig.take(i + 1), from_ms as int) == k0);
                }
            },
        }
        proof {
            i = i + 1;
        }
    }
    proof {
        assert(orig.take(i) =~= orig);
    }
    if n_results < out.len() {
        out.truncate(n_results);
    }
    out
}

/// Run the trip query: drop incomplete rows, keep records whose pickup is
/// at or after `from_ms` scaled to nanoseconds, sort ascending by pickup,
/// return at most `n_results`.
pub fn get_trips_from_rows(rows: Vec<TripRow>, from_ms: i64, n_results: usize) -> (r: Vec<Trip>)
    ensures
        r@ == trip_query(rows@, from_ms as int, n_results as int),
{
    let ghost orig = rows@;
    let mut rows = rows;
    let mut out: Vec<Trip> = Vec::new();
    let ghost mut i: int = 0;
    let bound_ns: i128 = (from_ms as i128) * 1_000_000;
    while rows.len() > 0
        invariant
            0 <= i <= orig.len(),
            rows@ == orig.skip(i),
            bound_ns == (from_ms as int) * 1000000,
            out@ == sort_ord(kept_trips(orig.take(i), from_ms as int)),
        decreases rows@.len(),
    {
        let row = rows.remove(0);
        proof {
            assert(row == orig[i]);
            assert(rows@ =~= orig.skip(i + 1));
            assert(orig.take(i + 1).drop_last() =~= orig.take(i));
            assert(orig.take(i + 1).last() == orig[i]);
        }
        let ghost k0 = kept_trips(orig.take(i), from_ms as int);
        match map_trip_row(row) {
            Some(t) => {
                if (t.tpep_pickup_datetime_ns as i128) >= bound_ns {
                    proof {
                        lemma_sort_ord_push(k0, t);
                        assert(kept_trips(orig.take(i + 1), from_ms as int) == k0.push(t));
                    }
                    insert_sorted(&mut out, t);
                } else {
                    proof {
                        assert(kept_trips(orig.take(i + 1), from_ms as int) == k0);
                    }
                }
            },
            None => {
                proof {
                    assert(kept_trips(orig.take(i + 1), from_ms as int) == k0);
                }
            },
        }
        proof {
            i = i + 1;
        }
    }
    proof {
        assert(orig.take(i) =~= orig);
    }
    if n_results < out.len() {
        out.truncate(n_results);
    }
    out
}

} // verus!
