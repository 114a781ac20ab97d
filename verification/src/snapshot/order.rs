//! The order the disk tier's index keeps: every file once, the records told
//! apart by when they were last used.

use super::codec::encoded;
use super::disk::{
    disk_forgotten, disk_inserted, disk_total, disk_touched, evicted, law_eviction_fits_the_budget,
    law_oldest_is_least_recently_used, lemma_disk_total_remove, lemma_newest_survives,
    lemma_without_file_members, lemma_without_file_total, oldest, record_for, touched,
    without_file, DiskModel, DiskRecord,
};
use super::frame::framed;
use super::types::{KvConfigStamp, SnapshotModel};
use vstd::prelude::*;

verus! {

/// No two records name one file, no two were last used at one tick, and none
/// was used after `tick`.
pub open spec fn orderly(s: Seq<DiskRecord>, tick: u64) -> bool {
    &&& forall|i: int| 0 <= i < s.len() ==> (#[trigger] s[i]).last_used <= tick
    &&& forall|i: int, j: int|
        0 <= i < j < s.len() ==> (#[trigger] s[i]).file_name != (#[trigger] s[j]).file_name
            && s[i].last_used != s[j].last_used
}

impl DiskModel {
    /// Every file is indexed once, and every use has its own tick.
    pub open spec fn orderly(self) -> bool {
        orderly(self.entries, self.tick)
    }
}

proof fn lemma_without_file_orderly(s: Seq<DiskRecord>, name: Seq<char>, tick: u64)
    requires
        orderly(s, tick),
    ensures
        orderly(without_file(s, name), tick),
    decreases s.len(),
{
    if s.len() > 0 {
        let p = s.drop_last();
        assert(orderly(p, tick)) by {
            assert forall|i: int, j: int| 0 <= i < j < p.len() implies (#[trigger] p[i]).file_name
                != (#[trigger] p[j]).file_name && p[i].last_used != p[j].last_used by {
                assert(p[i] == s[i] && p[j] == s[j]);
            }
        }
        lemma_without_file_orderly(p, name, tick);
        lemma_without_file_members(p, name);
        let q = without_file(p, name);
        let w = without_file(s, name);
        assert forall|i: int, j: int| 0 <= i < j < w.len() implies (#[trigger] w[i]).file_name != (
        #[trigger] w[j]).file_name && w[i].last_used != w[j].last_used by {
            assert(w[i] == q[i]);
            if j < q.len() {
                assert(w[j] == q[j]);
            } else {
                let at = choose|at: int| 0 <= at < p.len() && p[at] == q[i];
                assert(s[at] == w[i] && s[s.len() - 1] == w[j]);
            }
        }
    }
}

proof fn lemma_remove_orderly(s: Seq<DiskRecord>, o: int, tick: u64)
    requires
        orderly(s, tick),
        0 <= o < s.len(),
    ensures
        orderly(s.remove(o), tick),
        !s.remove(o).contains(s[o]),
{
    let t = s.remove(o);
    assert forall|i: int| 0 <= i < t.len() implies (#[trigger] t[i]).last_used <= tick && t[i]
        != s[o] by {
        if i < o {
            assert(t[i] == s[i]);
        } else {
            assert(t[i] == s[i + 1]);
        }
    }
    assert forall|i: int, j: int| 0 <= i < j < t.len() implies (#[trigger] t[i]).file_name != (
    #[trigger] t[j]).file_name && t[i].last_used != t[j].last_used by {
        let a = if i < o {
            i
        } else {
            i + 1
        };
        let b = if j < o {
            j
        } else {
            j + 1
        };
        assert(t[i] == s[a] && t[j] == s[b]);
    }
}

/// A record that eviction dropped.
pub open spec fn dropped(s: Seq<DiskRecord>, kept: Seq<DiskRecord>, x: DiskRecord) -> bool {
    s.contains(x) && !kept.contains(x)
}

/// Eviction drops the records that were used longest ago, and no more of them
/// than the budget asks for: every dropped record was used before every kept
/// one, the dropped files are the ones to delete, and the last of them would
/// not have fitted beside what is kept.
pub open spec fn drops_the_oldest(
    s: Seq<DiskRecord>,
    budget: nat,
    kept: Seq<DiskRecord>,
    gone: Seq<Seq<char>>,
) -> bool {
    &&& forall|i: int| 0 <= i < kept.len() ==> s.contains(#[trigger] kept[i])
    &&& s.len() == kept.len() + gone.len()
    &&& forall|x: DiskRecord, y: DiskRecord| #[trigger]
        dropped(s, kept, x) && #[trigger] kept.contains(y) ==> x.last_used < y.last_used
    &&& forall|x: DiskRecord| #[trigger] dropped(s, kept, x) ==> gone.contains(x.file_name)
    &&& forall|i: int|
        0 <= i < gone.len() ==> exists|x: DiskRecord| #[trigger]
            dropped(s, kept, x) && x.file_name == #[trigger] gone[i]
    &&& gone.len() > 0 ==> exists|x: DiskRecord| #[trigger]
        dropped(s, kept, x) && x.file_name == gone.last() && disk_total(kept) + x.byte_size > budget
}

proof fn lemma_remove_members(s: Seq<DiskRecord>, o: int, x: DiskRecord)
    requires
        0 <= o < s.len(),
    ensures
        s.remove(o).contains(x) ==> s.contains(x),
        s.contains(x) && x != s[o] ==> s.remove(o).contains(x),
{
    let t = s.remove(o);
    if t.contains(x) {
        let i = choose|i: int| 0 <= i < t.len() && t[i] == x;
        if i < o {
            assert(s[i] == x);
        } else {
            assert(s[i + 1] == x);
        }
    }
    if s.contains(x) && x != s[o] {
        let i = choose|i: int| 0 <= i < s.len() && s[i] == x;
        if i < o {
            assert(t[i] == x);
        } else {
            assert(t[i - 1] == x);
        }
    }
}

/// One more record that is older than all the others may be dropped first.
proof fn lemma_drop_one_more(
    s: Seq<DiskRecord>,
    o: int,
    budget: nat,
    kept: Seq<DiskRecord>,
    rest: Seq<Seq<char>>,
    tick: u64,
)
    requires
        orderly(s, tick),
        0 <= o < s.len(),
        forall|i: int| 0 <= i < s.len() ==> s[o].last_used <= (#[trigger] s[i]).last_used,
        disk_total(s) > budget,
        drops_the_oldest(s.remove(o), budget, kept, rest),
        rest.len() == 0 ==> kept == s.remove(o),
    ensures
        drops_the_oldest(s, budget, kept, seq![s[o].file_name] + rest),
{
    let t = s.remove(o);
    let gone = seq![s[o].file_name] + rest;
    lemma_remove_orderly(s, o, tick);
    assert forall|i: int| 0 <= i < kept.len() implies s.contains(#[trigger] kept[i]) by {
        assert(t.contains(kept[i]));
        lemma_remove_members(s, o, kept[i]);
    }
    assert(dropped(s, kept, s[o])) by {
        assert(s.contains(s[o]));
        if kept.contains(s[o]) {
            let i = choose|i: int| 0 <= i < kept.len() && kept[i] == s[o];
            assert(t.contains(kept[i]));
        }
    }
    assert forall|x: DiskRecord| #[trigger] dropped(s, kept, x) implies x == s[o] || dropped(
        t,
        kept,
        x,
    ) by {
        lemma_remove_members(s, o, x);
    }
    assert forall|x: DiskRecord| #[trigger] dropped(t, kept, x) implies dropped(s, kept, x) by {
        lemma_remove_members(s, o, x);
    }
    assert forall|x: DiskRecord, y: DiskRecord| #[trigger]
        dropped(s, kept, x) && #[trigger] kept.contains(y) implies x.last_used < y.last_used by {
        if x == s[o] {
            let n = choose|n: int| 0 <= n < kept.len() && kept[n] == y;
            assert(s.contains(kept[n]));
            let i = choose|i: int| 0 <= i < s.len() && s[i] == y;
            assert(s[o].last_used <= s[i].last_used);
            assert(i != o);
            if i < o {
                assert(s[i].last_used != s[o].last_used);
            } else {
                assert(s[o].last_used != s[i].last_used);
            }
        } else {
            assert(dropped(t, kept, x));
        }
    }
    assert forall|x: DiskRecord| #[trigger] dropped(s, kept, x) implies gone.contains(
        x.file_name,
    ) by {
        if x == s[o] {
            assert(gone[0] == x.file_name);
        } else {
            assert(dropped(t, kept, x));
            let i = choose|i: int| 0 <= i < rest.len() && rest[i] == x.file_name;
            assert(gone[i + 1] == x.file_name);
        }
    }
    assert forall|i: int| 0 <= i < gone.len() implies exists|x: DiskRecord| #[trigger]
        dropped(s, kept, x) && x.file_name == #[trigger] gone[i] by {
        if i > 0 {
            assert(gone[i] == rest[i - 1]);
            let x = choose|x: DiskRecord| #[trigger]
                dropped(t, kept, x) && x.file_name == rest[i - 1];
            assert(dropped(s, kept, x));
        }
    }
    if rest.len() > 0 {
        let x = choose|x: DiskRecord| #[trigger]
            dropped(t, kept, x) && x.file_name == rest.last() && disk_total(kept) + x.byte_size
                > budget;
        assert(dropped(s, kept, x));
        assert(gone.last() == rest.last());
    } else {
        lemma_disk_total_remove(s, o);
        assert(gone.last() == s[o].file_name);
    }
}

/// What eviction drops are the records that were used longest ago, as many as
/// the budget asks for and no more.
pub proof fn law_eviction_drops_the_oldest(s: Seq<DiskRecord>, budget: nat, tick: u64)
    requires
        orderly(s, tick),
    ensures
        drops_the_oldest(s, budget, evicted(s, budget).0, evicted(s, budget).1),
        orderly(evicted(s, budget).0, tick),
        evicted(s, budget).1.len() == 0 ==> evicted(s, budget).0 == s,
    decreases s.len(),
{
    let (kept, gone) = evicted(s, budget);
    if disk_total(s) <= budget || s.len() == 0 {
        assert forall|i: int| 0 <= i < kept.len() implies s.contains(#[trigger] kept[i]) by {
            assert(s[i] == kept[i]);
        }
    } else {
        law_oldest_is_least_recently_used(s);
        let o = oldest(s);
        lemma_remove_orderly(s, o, tick);
        law_eviction_drops_the_oldest(s.remove(o), budget, tick);
        lemma_drop_one_more(s, o, budget, kept, evicted(s.remove(o), budget).1, tick);
    }
}

/// The record that a touch marks, or -1 where no record names the file.
proof fn lemma_touched_once(s: Seq<DiskRecord>, name: Seq<char>, tick: u64) -> (k: int)
    ensures
        -1 <= k < s.len(),
        touched(s, name, tick) == (if k < 0 {
            s
        } else {
            s.update(k, DiskRecord { last_used: tick, ..s[k] })
        }),
    decreases s.len(),
{
    if s.len() == 0 {
        -1
    } else if s[0].file_name == name {
        0
    } else {
        let t = s.drop_first();
        let k = lemma_touched_once(t, name, tick);
        if k < 0 {
            assert(seq![s[0]] + t =~= s);
            -1
        } else {
            assert(t[k] == s[k + 1]);
            assert(seq![s[0]] + t.update(k, DiskRecord { last_used: tick, ..t[k] }) =~= s.update(
                k + 1,
                DiskRecord { last_used: tick, ..s[k + 1] },
            ));
            k + 1
        }
    }
}

proof fn lemma_same_total(s: Seq<DiskRecord>, k: int, x: DiskRecord)
    requires
        0 <= k < s.len(),
        x.byte_size == s[k].byte_size,
    ensures
        disk_total(s.update(k, x)) == disk_total(s),
{
    lemma_disk_total_remove(s, k);
    lemma_disk_total_remove(s.update(k, x), k);
    assert(s.update(k, x).remove(k) =~= s.remove(k));
}

/// An index without records is in order.
pub proof fn law_empty_index_is_orderly(tick: u64)
    ensures
        orderly(Seq::empty(), tick),
{
}

/// Storing a file keeps the index in order and inside the budget; what is
/// dropped are the files used longest ago, no more than the budget asks for.
pub proof fn law_insert_keeps_the_order(m: DiskModel, e: DiskRecord)
    requires
        m.orderly(),
        m.tick < u64::MAX,
    ensures
        disk_inserted(m, e).0.orderly(),
        disk_total(disk_inserted(m, e).0.entries) <= m.budget,
        drops_the_oldest(
            without_file(m.entries, e.file_name).push(
                DiskRecord { last_used: (m.tick + 1) as u64, ..e },
            ),
            m.budget as nat,
            disk_inserted(m, e).0.entries,
            disk_inserted(m, e).1,
        ),
{
    let tick = (m.tick + 1) as u64;
    let x = DiskRecord { last_used: tick, ..e };
    let w = without_file(m.entries, e.file_name);
    let all = w.push(x);
    lemma_without_file_orderly(m.entries, e.file_name, m.tick);
    lemma_without_file_members(m.entries, e.file_name);
    assert(orderly(all, tick)) by {
        assert forall|i: int| 0 <= i < all.len() implies (#[trigger] all[i]).last_used <= tick by {
            if i < w.len() {
                assert(all[i] == w[i]);
            }
        }
        assert forall|i: int, j: int| 0 <= i < j < all.len() implies (#[trigger] all[i]).file_name
            != (#[trigger] all[j]).file_name && all[i].last_used != all[j].last_used by {
            assert(all[i] == w[i]);
            if j < w.len() {
                assert(all[j] == w[j]);
            }
        }
    }
    law_eviction_drops_the_oldest(all, m.budget as nat, tick);
    law_eviction_fits_the_budget(all, m.budget as nat);
}

/// A file that was found intact, or is dropped as broken, leaves the index in
/// order and takes no more room than before.
pub proof fn law_answers_keep_the_order(m: DiskModel, name: Seq<char>)
    requires
        m.orderly(),
    ensures
        disk_forgotten(m, name).orderly(),
        disk_total(disk_forgotten(m, name).entries) <= disk_total(m.entries),
        m.tick < u64::MAX ==> {
            &&& disk_touched(m, name).orderly()
            &&& disk_total(disk_touched(m, name).entries) == disk_total(m.entries)
        },
{
    lemma_without_file_orderly(m.entries, name, m.tick);
    lemma_without_file_total(m.entries, name);
    if m.tick < u64::MAX {
        let tick = (m.tick + 1) as u64;
        let s = m.entries;
        let k = lemma_touched_once(s, name, tick);
        let t = touched(s, name, tick);
        if k >= 0 {
            lemma_same_total(s, k, DiskRecord { last_used: tick, ..s[k] });
        }
        assert forall|i: int| 0 <= i < t.len() implies (#[trigger] t[i]).last_used <= tick by {
            assert(s[i].last_used <= m.tick);
        }
        assert forall|i: int, j: int| 0 <= i < j < t.len() implies (#[trigger] t[i]).file_name != (
        #[trigger] t[j]).file_name && t[i].last_used != t[j].last_used by {
            assert(s[i].file_name != s[j].file_name && s[i].last_used != s[j].last_used);
            assert(s[i].last_used <= m.tick && s[j].last_used <= m.tick);
        }
    }
}

/// A snapshot that fits the budget is in the index after it was stored, as
/// the one used last and with the size of its file, so the next lookup can
/// offer it.
pub proof fn law_stored_file_is_indexed(
    m: DiskModel,
    model: (Seq<char>, u64),
    kv: KvConfigStamp,
    d: SnapshotModel,
)
    requires
        m.orderly(),
        m.tick < u64::MAX,
        framed(encoded(d)).len() <= m.budget,
    ensures
        ({
            let e = record_for(model, kv, d);
            let t = disk_inserted(m, e).0;
            let x = DiskRecord { last_used: t.tick, ..e };
            &&& x.byte_size == framed(encoded(d)).len()
            &&& t.entries.contains(x)
            &&& forall|i: int|
                0 <= i < t.entries.len() && #[trigger] t.entries[i] != x
                    ==> t.entries[i].last_used < x.last_used
        }),
{
    let e = record_for(model, kv, d);
    let tick = (m.tick + 1) as u64;
    let x = DiskRecord { last_used: tick, ..e };
    let w = without_file(m.entries, e.file_name);
    let all = w.push(x);
    lemma_without_file_members(m.entries, e.file_name);
    assert forall|i: int| 0 <= i < all.len() && i != w.len() implies (#[trigger] all[i]).last_used
        < all[w.len() as int].last_used by {
        assert(all[i] == w[i]);
        let j = choose|j: int| 0 <= j < m.entries.len() && m.entries[j] == w[i];
        assert(m.entries[j].last_used <= m.tick);
    }
    lemma_newest_survives(all, w.len() as int, m.budget as nat);
    law_insert_keeps_the_order(m, e);
    let t = disk_inserted(m, e).0;
    assert forall|i: int| 0 <= i < t.entries.len() && #[trigger] t.entries[i]
        != x implies t.entries[i].last_used < x.last_used by {
        assert(all.contains(t.entries[i]));
        let j = choose|j: int| 0 <= j < all.len() && all[j] == t.entries[i];
        assert(j != w.len());
    }
}

} // verus!
