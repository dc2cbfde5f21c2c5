//! Paged reads of the append-only logs, newest first. The `i`-th entry of a log has key
//! `i + 1`; a cursor names the last key already seen and is exclusive.

use vstd::prelude::*;

verus! {

pub const DEFAULT_LIMIT: u64 = 10;

pub const MAX_LIMIT: u64 = 30;

/// A log entry that can be copied out with the same view.
pub trait LogEntry: View + Sized {
    fn duplicate(&self) -> (r: Self)
        ensures
            r@ == self@,
    ;
}

pub open spec fn page_size(limit: Option<u64>) -> nat {
    let l = match limit {
        Some(l) => l,
        None => DEFAULT_LIMIT,
    };
    if l < MAX_LIMIT {
        l as nat
    } else {
        MAX_LIMIT as nat
    }
}

/// The highest key a page may hold: the newest, or the one just below the cursor.
pub open spec fn page_top(len: nat, start_after: Option<u64>) -> nat {
    match start_after {
        None => len,
        Some(s) => if s == 0 {
            0
        } else if s - 1 < len {
            (s - 1) as nat
        } else {
            len
        },
    }
}

/// The keys of one page, in strictly descending order.
pub open spec fn page_keys(len: nat, limit: Option<u64>, start_after: Option<u64>) -> Seq<u64> {
    let top = page_top(len, start_after);
    let count = if page_size(limit) < top {
        page_size(limit)
    } else {
        top
    };
    Seq::new(count, |i: int| (top - i) as u64)
}

/// One page of a log: each key with its entry.
pub open spec fn page<V>(log: Seq<V>, limit: Option<u64>, start_after: Option<u64>) -> Seq<(u64, V)> {
    page_keys(log.len(), limit, start_after).map_values(|k: u64| (k, log[k - 1]))
}

pub open spec fn entries_view<T: View>(v: Seq<(u64, T)>) -> Seq<(u64, T::V)> {
    v.map_values(|e: (u64, T)| (e.0, e.1@))
}

pub open spec fn log_view<T: View>(v: Seq<T>) -> Seq<T::V> {
    v.map_values(|e: T| e@)
}

/// The newest entries of `log`, at most `limit` (ten by default, thirty at most), below
/// the cursor `start_after` when one is given.
pub fn get_last_items<T: LogEntry>(log: &Vec<T>, limit: Option<u64>, start_after: Option<u64>) -> (r:
    Vec<(u64, T)>)
    requires
        log@.len() < u64::MAX,
    ensures
        entries_view(r@) == page(log_view(log@), limit, start_after),
{
    let size: u64 = match limit {
        Some(l) => if l < MAX_LIMIT {
            l
        } else {
            MAX_LIMIT
        },
        None => DEFAULT_LIMIT,
    };
    let n: usize = log.len();
    let len = n as u64;
    let top: u64 = match start_after {
        None => len,
        Some(s) => if s == 0 {
            0
        } else if s - 1 < len {
            s - 1
        } else {
            len
        },
    };
    let ghost want = page(log_view(log@), limit, start_after);
    let mut out: Vec<(u64, T)> = Vec::new();
    let mut i: u64 = 0;
    while i < size && i < top
        invariant
            i <= size,
            i <= top,
            top <= len,
            len == log@.len(),
            log@.len() <= usize::MAX,
            size == page_size(limit),
            top == page_top(log@.len(), start_after),
            want == page(log_view(log@), limit, start_after),
            entries_view(out@) == want.take(i as int),
        decreases top - i,
    {
        let key = top - i;
        assert(key - 1 < log@.len());
        assert(log@.len() <= usize::MAX);
        let idx = (key - 1) as usize;
        assert(idx as int == key - 1);
        let e = log[idx].duplicate();
        assert(page_keys(log@.len(), limit, start_after)[i as int] == key);
        assert(log_view(log@)[key - 1] == e@);
        assert(want[i as int] == (key, e@));
        let ghost before = out@;
        out.push((key, e));
        assert(entries_view(out@) =~= entries_view(before).push((key, e@)));
        assert(want.take(i + 1) =~= want.take(i as int).push(want[i as int]));
        i = i + 1;
    }
    assert(want.take(i as int) =~= want);
    out
}

/// The keys met by paging from `start_after` on, each page's last key being the next cursor.
pub open spec fn cursor_walk(len: nat, limit: Option<u64>, start_after: Option<u64>, fuel: nat) -> Seq<u64>
    decreases fuel,
{
    let keys = page_keys(len, limit, start_after);
    if fuel == 0 || keys.len() == 0 {
        keys
    } else {
        keys + cursor_walk(len, limit, Some(keys.last()), (fuel - 1) as nat)
    }
}

proof fn lemma_walk_below(len: nat, limit: Option<u64>, t: nat, fuel: nat)
    requires
        t <= len,
        len < u64::MAX,
        fuel >= t,
        page_size(limit) >= 1,
    ensures
        cursor_walk(len, limit, Some((t + 1) as u64), fuel) =~= Seq::new(t, |i: int| (t - i) as u64),
    decreases t,
{
    let keys = page_keys(len, limit, Some((t + 1) as u64));
    assert(page_top(len, Some((t + 1) as u64)) == t);
    if t > 0 {
        let c = keys.len();
        assert(c >= 1);
        let next = (t - c) as nat;
        assert(keys.last() == (next + 1) as u64);
        lemma_walk_below(len, limit, next, (fuel - 1) as nat);
        let rest = cursor_walk(len, limit, Some(keys.last()), (fuel - 1) as nat);
        assert(rest =~= Seq::new(next, |i: int| (next - i) as u64));
    }
}

/// Paging: starting without a cursor and passing the last key of each page as the next
/// cursor yields every key of the log exactly once, newest first, in strictly descending
/// order; this holds for every page limit but zero, which makes no progress.
pub proof fn lemma_paging_covers(len: nat, limit: Option<u64>)
    requires
        len < u64::MAX,
        limit != Some(0u64),
    ensures
        cursor_walk(len, limit, None, len) == Seq::new(len, |i: int| (len - i) as u64),
        cursor_walk(len, limit, None, len).no_duplicates(),
        forall|i: int, j: int|
            0 <= i < j < len ==> cursor_walk(len, limit, None, len)[i] > cursor_walk(len, limit, None, len)[j],
{
    lemma_walk_below(len, limit, len, len);
    assert(page_keys(len, limit, None) =~= page_keys(len, limit, Some((len + 1) as u64)));
    let w = cursor_walk(len, limit, None, len);
    assert(w =~= cursor_walk(len, limit, Some((len + 1) as u64), len));
    assert forall|i: int, j: int| 0 <= i < j < w.len() implies w[i] != w[j] by {}
}

} // verus!
