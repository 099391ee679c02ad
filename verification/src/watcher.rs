//! The library watcher's debouncing: a file is ingested once it has been
//! quiet for a while after its last change.

use vstd::prelude::*;

verus! {

/// How long a file must go without changes before it is ingested, in
/// milliseconds.
pub const DEBOUNCE_MS: u64 = 800;

/// A change seen at `t` has settled by `now` (an earlier `now` counts as no
/// time passed).
pub open spec fn is_settled(t: u64, now: u64) -> bool {
    now >= t && now - t >= DEBOUNCE_MS
}

/// The position of the entry for path `k`, searching from `i`.
pub open spec fn key_index_from(s: Seq<(Seq<char>, u64)>, k: Seq<char>, i: int) -> Option<int>
    decreases s.len() - i,
{
    if i < 0 || i >= s.len() {
        None
    } else if s[i].0 == k {
        Some(i)
    } else {
        key_index_from(s, k, i + 1)
    }
}

/// The pending list after a change of `k` at `now`: its entry's time is
/// reset, or a new entry is added at the end.
pub open spec fn record_spec(s: Seq<(Seq<char>, u64)>, k: Seq<char>, now: u64) -> Seq<(Seq<char>, u64)> {
    match key_index_from(s, k, 0) {
        Some(i) => s.update(i, (k, now)),
        None => s.push((k, now)),
    }
}

/// The paths of the settled entries, in order.
pub open spec fn settled_paths(s: Seq<(Seq<char>, u64)>, now: u64) -> Seq<Seq<char>>
    decreases s.len(),
{
    if s.len() == 0 {
        Seq::empty()
    } else {
        settled_paths(s.drop_last(), now) + if is_settled(s.last().1, now) {
            seq![s.last().0]
        } else {
            Seq::empty()
        }
    }
}

/// The entries still waiting, in order.
pub open spec fn unsettled(s: Seq<(Seq<char>, u64)>, now: u64) -> Seq<(Seq<char>, u64)>
    decreases s.len(),
{
    if s.len() == 0 {
        Seq::empty()
    } else {
        unsettled(s.drop_last(), now) + if is_settled(s.last().1, now) {
            Seq::empty()
        } else {
            seq![s.last()]
        }
    }
}

/// No path has two entries.
pub open spec fn distinct_paths(s: Seq<(Seq<char>, u64)>) -> bool {
    forall|i: int, j: int| 0 <= i < j < s.len() ==> s[i].0 != s[j].0
}

/// The paths of changed files and when each last changed.
pub struct Debouncer {
    pending: Vec<(String, u64)>,
}

/// The plain view of the pending entries.
pub open spec fn entries_view(v: Seq<(String, u64)>) -> Seq<(Seq<char>, u64)> {
    v.map_values(|e: (String, u64)| (e.0@, e.1))
}

proof fn lemma_key_index(s: Seq<(Seq<char>, u64)>, k: Seq<char>, i: int)
    requires
        0 <= i,
    ensures
        key_index_from(s, k, i) matches Some(j) ==> i <= j < s.len() && s[j].0 == k,
        key_index_from(s, k, i) is None ==> forall|j: int| i <= j < s.len() ==> s[j].0 != k,
    decreases s.len() - i,
{
    if i < s.len() && s[i].0 != k {
        lemma_key_index(s, k, i + 1);
    }
}

proof fn lemma_settled_step(s: Seq<(Seq<char>, u64)>, now: u64, i: int)
    requires
        0 <= i < s.len(),
    ensures
        settled_paths(s.take(i + 1), now) == settled_paths(s.take(i), now) + if is_settled(
            s[i].1,
            now,
        ) {
            seq![s[i].0]
        } else {
            Seq::empty()
        },
        unsettled(s.take(i + 1), now) == unsettled(s.take(i), now) + if is_settled(s[i].1, now) {
            Seq::empty()
        } else {
            seq![s[i]]
        },
{
    assert(s.take(i + 1).drop_last() =~= s.take(i));
}

proof fn lemma_unsettled_sub(s: Seq<(Seq<char>, u64)>, now: u64)
    ensures
        forall|j: int|
            0 <= j < unsettled(s, now).len() ==> exists|i: int|
                0 <= i < s.len() && #[trigger] unsettled(s, now)[j] == s[i] && !is_settled(
                    s[i].1,
                    now,
                ),
        forall|j: int|
            0 <= j < settled_paths(s, now).len() ==> exists|i: int|
                0 <= i < s.len() && #[trigger] settled_paths(s, now)[j] == s[i].0,
    decreases s.len(),
{
    if s.len() > 0 {
        lemma_unsettled_sub(s.drop_last(), now);
        let p = s.drop_last();
        assert forall|j: int| 0 <= j < unsettled(s, now).len() implies exists|i: int|
            0 <= i < s.len() && #[trigger] unsettled(s, now)[j] == s[i] && !is_settled(s[i].1, now) by {
            if j < unsettled(p, now).len() {
                let i = choose|i: int|
                    0 <= i < p.len() && #[trigger] unsettled(p, now)[j] == p[i] && !is_settled(
                        p[i].1,
                        now,
                    );
                assert(s[i] == p[i]);
            } else {
                assert(unsettled(s, now)[j] == s[s.len() - 1]);
            }
        }
        assert forall|j: int| 0 <= j < settled_paths(s, now).len() implies exists|i: int|
            0 <= i < s.len() && #[trigger] settled_paths(s, now)[j] == s[i].0 by {
            if j < settled_paths(p, now).len() {
                let i = choose|i: int| 0 <= i < p.len() && #[trigger] settled_paths(p, now)[j] == p[i].0;
                assert(s[i] == p[i]);
            } else {
                assert(settled_paths(s, now)[j] == s[s.len() - 1].0);
            }
        }
    }
}

impl Debouncer {
    /// The pending entries: each changed path with the time of its last
    /// change, in order of first change.
    pub closed spec fn entries(&self) -> Seq<(Seq<char>, u64)> {
        entries_view(self.pending@)
    }

    /// Nothing pending.
    pub fn new() -> (d: Debouncer)
        ensures
            d.entries() == Seq::<(Seq<char>, u64)>::empty(),
    {
        let d = Debouncer { pending: Vec::new() };
        assert(entries_view(d.pending@) =~= Seq::<(Seq<char>, u64)>::empty());
        d
    }

    /// Note a change of `path` at time `now` (milliseconds).
    pub fn record(&mut self, path: String, now: u64)
        ensures
            final(self).entries() == record_spec(old(self).entries(), path@, now),
            distinct_paths(old(self).entries()) ==> distinct_paths(final(self).entries()),
    {
        let ghost s = entries_view(self.pending@);
        let mut i: usize = 0;
        while i < self.pending.len()
            invariant
                i <= self.pending@.len(),
                s == entries_view(self.pending@),
                s == old(self).entries(),
                key_index_from(s, path@, 0) == key_index_from(s, path@, i as int),
            decreases self.pending@.len() - i,
        {
            if self.pending[i].0 == path {
                let mut entries: Vec<(String, u64)> = Vec::new();
                std::mem::swap(&mut entries, &mut self.pending);
                let e = (path, now);
                entries.set(i, e);
                proof {
                    assert(entries_view(entries@) =~= s.update(i as int, (e.0@, now)));
                    assert(key_index_from(s, e.0@, i as int) == Some(i as int));
                    let u = s.update(i as int, (e.0@, now));
                    assert forall|a: int, b: int| distinct_paths(s) && 0 <= a < b < u.len() implies u[a].0 != u[b].0 by {
                        assert(u[a].0 == s[a].0);
                        assert(u[b].0 == s[b].0);
                    }
                }
                self.pending = entries;
                return;
            }
            i = i + 1;
        }
        proof {
            lemma_key_index(s, path@, 0);
        }
        let ghost k = path@;
        self.pending.push((path, now));
        assert(entries_view(self.pending@) =~= s.push((k, now)));
    }

    /// Take out the paths that have settled by `now`, in order; the rest stay
    /// pending.
    pub fn take_settled(&mut self, now: u64) -> (paths: Vec<String>)
        ensures
            crate::chunker::strings_view(paths@) == settled_paths(old(self).entries(), now),
            final(self).entries() == unsettled(old(self).entries(), now),
            distinct_paths(old(self).entries()) ==> distinct_paths(final(self).entries()),
    {
        let ghost s = entries_view(self.pending@);
        let mut old_pending: Vec<(String, u64)> = Vec::new();
        std::mem::swap(&mut old_pending, &mut self.pending);
        let mut kept: Vec<(String, u64)> = Vec::new();
        let mut ready: Vec<String> = Vec::new();
        let mut i: usize = 0;
        while i < old_pending.len()
            invariant
                i <= old_pending@.len(),
                s == entries_view(old_pending@),
                entries_view(kept@) == unsettled(s.take(i as int), now),
                crate::chunker::strings_view(ready@) == settled_paths(s.take(i as int), now),
            decreases old_pending@.len() - i,
        {
            proof {
                lemma_settled_step(s, now, i as int);
            }
            let p = old_pending[i].0.clone();
            let t = old_pending[i].1;
            if now >= t && now - t >= DEBOUNCE_MS {
                let ghost before = crate::chunker::strings_view(ready@);
                ready.push(p);
                assert(crate::chunker::strings_view(ready@) =~= before + seq![s[i as int].0]);
            } else {
                let ghost before = entries_view(kept@);
                kept.push((p, t));
                assert(entries_view(kept@) =~= before + seq![s[i as int]]);
            }
            i = i + 1;
        }
        proof {
            assert(s.take(s.len() as int) =~= s);
            let u = unsettled(s, now);
            if distinct_paths(s) {
                lemma_unsettled_sub(s, now);
                assert forall|a: int, b: int| 0 <= a < b < u.len() implies u[a].0 != u[b].0 by {
                    lemma_unsettled_order(s, now, a, b);
                }
            }
        }
        self.pending = kept;
        ready
    }
}

proof fn lemma_unsettled_order(s: Seq<(Seq<char>, u64)>, now: u64, a: int, b: int)
    requires
        distinct_paths(s),
        0 <= a < b < unsettled(s, now).len(),
    ensures
        unsettled(s, now)[a].0 != unsettled(s, now)[b].0,
    decreases s.len(),
{
    let p = s.drop_last();
    assert(distinct_paths(p));
    let up = unsettled(p, now);
    if b < up.len() {
        lemma_unsettled_order(p, now, a, b);
    } else {
        lemma_unsettled_sub(p, now);
        let i = choose|i: int| 0 <= i < p.len() && #[trigger] up[a] == p[i] && !is_settled(p[i].1, now);
        assert(unsettled(s, now)[a] == up[a]);
        assert(unsettled(s, now)[b] == s.last());
        assert(s[i] == p[i]);
    }
}

/// A change is handed out exactly once it has been quiet for the debounce
/// time: right after `path` is recorded at `t`, it is among the settled
/// paths at `now` exactly when `now` is at least `t + DEBOUNCE_MS`, and
/// otherwise it stays pending with time `t`.
pub proof fn lemma_settles_after_quiet(s: Seq<(Seq<char>, u64)>, path: Seq<char>, t: u64, now: u64)
    requires
        distinct_paths(s),
    ensures
        settled_paths(record_spec(s, path, t), now).contains(path) <==> is_settled(t, now),
        !is_settled(t, now) ==> unsettled(record_spec(s, path, t), now).contains((path, t)),
        is_settled(t, now) ==> !exists|i: int|
            0 <= i < unsettled(record_spec(s, path, t), now).len() && #[trigger] unsettled(
                record_spec(s, path, t),
                now,
            )[i].0 == path,
{
    lemma_key_index(s, path, 0);
    let r = record_spec(s, path, t);
    let idx = match key_index_from(s, path, 0) {
        Some(i) => i,
        None => s.len() as int,
    };
    assert(0 <= idx < r.len() && r[idx] == (path, t));
    assert forall|j: int| 0 <= j < r.len() && j != idx implies r[j].0 != path by {
    }
    lemma_member(r, now, idx);
}

proof fn lemma_member(r: Seq<(Seq<char>, u64)>, now: u64, idx: int)
    requires
        0 <= idx < r.len(),
        forall|j: int| 0 <= j < r.len() && j != idx ==> r[j].0 != r[idx].0,
    ensures
        settled_paths(r, now).contains(r[idx].0) <==> is_settled(r[idx].1, now),
        !is_settled(r[idx].1, now) ==> unsettled(r, now).contains(r[idx]),
        is_settled(r[idx].1, now) ==> !exists|i: int|
            0 <= i < unsettled(r, now).len() && #[trigger] unsettled(r, now)[i].0 == r[idx].0,
    decreases r.len(),
{
    let p = r.drop_last();
    let k = r[idx].0;
    lemma_unsettled_sub(r, now);
    lemma_unsettled_sub(p, now);
    if idx == r.len() - 1 {
        assert forall|j: int| 0 <= j < settled_paths(p, now).len() implies settled_paths(p, now)[j] != k by {
            let i = choose|i: int| 0 <= i < p.len() && #[trigger] settled_paths(p, now)[j] == p[i].0;
            assert(p[i] == r[i]);
        }
        assert forall|j: int| 0 <= j < unsettled(p, now).len() implies unsettled(p, now)[j].0 != k by {
            let i = choose|i: int| 0 <= i < p.len() && #[trigger] unsettled(p, now)[j] == p[i] && !is_settled(p[i].1, now);
            assert(p[i] == r[i]);
        }
        if is_settled(r[idx].1, now) {
            assert(settled_paths(r, now).last() == k);
            assert(unsettled(r, now) == unsettled(p, now));
        } else {
            assert(unsettled(r, now).last() == r[idx]);
            assert(settled_paths(r, now) == settled_paths(p, now));
            assert(!settled_paths(p, now).contains(k));
        }
    } else {
        assert(p[idx] == r[idx]);
        lemma_member(p, now, idx);
        let last = r.last();
        assert(last.0 != k);
        if is_settled(last.1, now) {
            assert(unsettled(r, now) == unsettled(p, now));
            assert(settled_paths(r, now) == settled_paths(p, now).push(last.0));
            if settled_paths(r, now).contains(k) {
                let j = choose|j: int| 0 <= j < settled_paths(r, now).len() && settled_paths(r, now)[j] == k;
                if j < settled_paths(p, now).len() {
                    assert(settled_paths(p, now)[j] == k);
                }
            }
            if settled_paths(p, now).contains(k) {
                let j = choose|j: int| 0 <= j < settled_paths(p, now).len() && settled_paths(p, now)[j] == k;
                assert(settled_paths(r, now)[j] == k);
            }
        } else {
            assert(settled_paths(r, now) == settled_paths(p, now));
            assert(unsettled(r, now) == unsettled(p, now).push(last));
            if !is_settled(r[idx].1, now) {
                let j = choose|j: int| 0 <= j < unsettled(p, now).len() && unsettled(p, now)[j] == r[idx];
                assert(unsettled(r, now)[j] == r[idx]);
            }
        }
    }
}

} // verus!
