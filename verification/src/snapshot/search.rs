//! What a whole search of the disk tier comes to: files are tried from the
//! longest snapshot down, broken ones are forgotten on the way, and the
//! first intact one is the answer.

use super::disk::{
    disk_best, disk_forgotten, disk_offers, disk_touched, file_holds, touched, without_file,
    DiskModel, DiskRecord,
};
use super::types::{KvConfigStamp, SnapshotModel};
use vstd::prelude::*;

verus! {

/// What a snapshot is looked up by.
pub struct Wanted {
    pub model: (Seq<char>, u64),
    pub kv: KvConfigStamp,
    pub tokens: Seq<u32>,
}

/// What reading each file gives, where it can be read.
pub type Files = spec_fn(Seq<char>) -> Option<Seq<u8>>;

/// A record that may be the answer.
pub open spec fn offered(e: DiskRecord, w: Wanted) -> bool {
    disk_offers(e, w.model, w.kv, w.tokens)
}

/// The file to try next, if there is one.
pub open spec fn next_file(s: Seq<DiskRecord>, w: Wanted) -> Option<Seq<char>> {
    if exists|i: int| disk_best(s, w.model, w.kv, w.tokens, i) {
        Some(s[choose|i: int| disk_best(s, w.model, w.kv, w.tokens, i)].file_name)
    } else {
        None
    }
}

/// A file that can be read and holds a snapshot.
pub open spec fn intact(files: Files, name: Seq<char>) -> bool {
    files(name) matches Some(bytes) && exists|d: SnapshotModel| file_holds(bytes, d)
}

/// The index after a search, and the file that answered.
pub open spec fn searched(m: DiskModel, w: Wanted, files: Files) -> (DiskModel, Option<Seq<char>>)
    decreases m.entries.len(),
{
    match next_file(m.entries, w) {
        None => (m, None),
        Some(name) => if intact(files, name) {
            (disk_touched(m, name), Some(name))
        } else {
            proof {
                lemma_without_file_is_shorter(
                    m.entries,
                    name,
                    choose|i: int| disk_best(m.entries, w.model, w.kv, w.tokens, i),
                );
            }
            searched(disk_forgotten(m, name), w, files)
        },
    }
}

/// The file that answered holds the longest snapshot among the intact ones
/// on offer; with none, no file on offer is intact.
pub open spec fn longest_intact(
    s: Seq<DiskRecord>,
    w: Wanted,
    files: Files,
    found: Option<Seq<char>>,
) -> bool {
    match found {
        None => forall|j: int|
            0 <= j < s.len() && offered(#[trigger] s[j], w) ==> !intact(files, s[j].file_name),
        Some(name) => intact(files, name) && exists|i: int|
            0 <= i < s.len() && offered(#[trigger] s[i], w) && s[i].file_name == name
                && none_longer(s, w, files, s[i].position),
    }
}

/// No intact file on offer holds more than `position` tokens.
pub open spec fn none_longer(s: Seq<DiskRecord>, w: Wanted, files: Files, position: u32) -> bool {
    forall|j: int|
        0 <= j < s.len() && offered(#[trigger] s[j], w) && s[j].position > position ==> !intact(
            files,
            s[j].file_name,
        )
}

/// A line that is gone: no line names its file any more.
pub open spec fn gone(after: Seq<DiskRecord>, name: Seq<char>) -> bool {
    forall|k: int| 0 <= k < after.len() ==> (#[trigger] after[k]).file_name != name
}

/// Every file on offer that was tried in vain is forgotten: all of them
/// where none answered, else those that promised more than the answer.
pub open spec fn broken_forgotten(
    s: Seq<DiskRecord>,
    w: Wanted,
    after: Seq<DiskRecord>,
    found: Option<Seq<char>>,
) -> bool {
    forall|j: int|
        0 <= j < s.len() && offered(#[trigger] s[j], w) && (found matches Some(name) ==> longer(
            s,
            w,
            name,
            s[j].position,
        )) ==> gone(after, s[j].file_name)
}

/// More tokens than any snapshot on offer that is in the file.
pub open spec fn longer(s: Seq<DiskRecord>, w: Wanted, name: Seq<char>, position: u32) -> bool {
    forall|i: int|
        0 <= i < s.len() && offered(#[trigger] s[i], w) && s[i].file_name == name ==> s[i].position
            < position
}

/// Every line of an intact file stays, the answer's marked as just used.
pub open spec fn intact_kept(
    s: Seq<DiskRecord>,
    files: Files,
    after: Seq<DiskRecord>,
    found: Option<Seq<char>>,
    tick: u64,
) -> bool {
    forall|j: int|
        0 <= j < s.len() && intact(files, (#[trigger] s[j]).file_name) ==> {
            ||| after.contains(s[j])
            ||| found == Some(s[j].file_name) && after.contains(
                DiskRecord { last_used: tick, ..s[j] },
            )
        }
}

/// Every line names a file that had a line before.
pub open spec fn no_new_files(s: Seq<DiskRecord>, after: Seq<DiskRecord>) -> bool {
    forall|k: int|
        0 <= k < after.len() ==> exists|j: int|
            0 <= j < s.len() && (#[trigger] s[j]).file_name == (#[trigger] after[k]).file_name
}

/// Only one record is the best on offer.
pub proof fn lemma_one_best(s: Seq<DiskRecord>, w: Wanted, i: int)
    requires
        disk_best(s, w.model, w.kv, w.tokens, i),
    ensures
        next_file(s, w) == Some(s[i].file_name),
{
    let k = choose|i: int| disk_best(s, w.model, w.kv, w.tokens, i);
    assert(disk_best(s, w.model, w.kv, w.tokens, k));
    assert(offered(s[i], w) && offered(s[k], w));
    assert(i == k);
}

/// Forgetting a file that has a line makes the index shorter.
pub proof fn lemma_without_file_is_shorter(s: Seq<DiskRecord>, name: Seq<char>, i: int)
    requires
        0 <= i < s.len(),
        s[i].file_name == name,
    ensures
        without_file(s, name).len() < s.len(),
    decreases s.len(),
{
    lemma_without_file_shrinks(s.drop_last(), name);
    if i < s.len() - 1 {
        lemma_without_file_is_shorter(s.drop_last(), name, i);
    }
}

proof fn lemma_without_file_shrinks(s: Seq<DiskRecord>, name: Seq<char>)
    ensures
        without_file(s, name).len() <= s.len(),
    decreases s.len(),
{
    if s.len() > 0 {
        lemma_without_file_shrinks(s.drop_last(), name);
    }
}

/// The lines that name another file are those that stay.
proof fn lemma_without_file_keeps(s: Seq<DiskRecord>, name: Seq<char>, j: int)
    requires
        0 <= j < s.len(),
        s[j].file_name != name,
    ensures
        without_file(s, name).contains(s[j]),
    decreases s.len(),
{
    let p = s.drop_last();
    let q = without_file(p, name);
    let r = without_file(s, name);
    if j < s.len() - 1 {
        lemma_without_file_keeps(p, name, j);
        let k = choose|k: int| 0 <= k < q.len() && q[k] == p[j];
        assert(r[k] == s[j]);
    } else {
        assert(r[r.len() - 1] == s[j]);
    }
}

/// Marking a line as used leaves every line in its place.
proof fn lemma_touched_lines(s: Seq<DiskRecord>, name: Seq<char>, tick: u64)
    ensures
        touched(s, name, tick).len() == s.len(),
        forall|i: int|
            0 <= i < s.len() ==> {
                let t = #[trigger] touched(s, name, tick)[i];
                t == s[i] || s[i].file_name == name && t == (DiskRecord { last_used: tick, ..s[i] })
            },
    decreases s.len(),
{
    if s.len() > 0 && s[0].file_name != name {
        let rest = s.drop_first();
        lemma_touched_lines(rest, name, tick);
        let all = touched(s, name, tick);
        assert forall|i: int| 0 <= i < s.len() implies {
            let t = #[trigger] all[i];
            t == s[i] || s[i].file_name == name && t == (DiskRecord { last_used: tick, ..s[i] })
        } by {
            if i > 0 {
                assert(all[i] == touched(rest, name, tick)[i - 1]);
                assert(rest[i - 1] == s[i]);
            }
        }
    }
}

/// With something on offer there is a best.
proof fn lemma_best_exists(s: Seq<DiskRecord>, w: Wanted, j: int)
    requires
        0 <= j < s.len(),
        offered(s[j], w),
    ensures
        next_file(s, w) is Some,
    decreases s.len(),
{
    let i = lemma_best_of(s, w, j);
}

proof fn lemma_best_of(s: Seq<DiskRecord>, w: Wanted, j: int) -> (i: int)
    requires
        0 <= j < s.len(),
        offered(s[j], w),
    ensures
        disk_best(s, w.model, w.kv, w.tokens, i),
    decreases s.len(),
{
    let p = s.drop_last();
    let n = s.len() - 1;
    if exists|k: int| 0 <= k < n && offered(#[trigger] s[k], w) {
        let k = choose|k: int| 0 <= k < n && offered(#[trigger] s[k], w);
        assert(p[k] == s[k]);
        let b = lemma_best_of(p, w, k);
        assert(p[b] == s[b]);
        let i = if offered(s[n], w) && s[n].position > s[b].position {
            n
        } else {
            b
        };
        assert forall|x: int|
            0 <= x < s.len() && disk_offers(
                #[trigger] s[x],
                w.model,
                w.kv,
                w.tokens,
            ) implies s[x].position < s[i].position || (s[x].position == s[i].position && i <= x) by {
            if x < n {
                assert(p[x] == s[x]);
                assert(disk_offers(p[x], w.model, w.kv, w.tokens));
            }
        }
        i
    } else {
        assert(j == n);
        assert forall|x: int|
            0 <= x < s.len() && disk_offers(
                #[trigger] s[x],
                w.model,
                w.kv,
                w.tokens,
            ) implies s[x].position < s[n].position || (s[x].position == s[n].position && n <= x) by {
            assert(offered(s[x], w));
        }
        n
    }
}

/// A search is what asking for a file and answering with its contents, over
/// and over, comes to: it ends where nothing is left to ask for and where a
/// file was intact, and goes on without a file that was not.
pub proof fn law_search_is_made_of_its_steps(m: DiskModel, w: Wanted, files: Files)
    ensures
        match next_file(m.entries, w) {
            None => searched(m, w, files) == (m, None::<Seq<char>>),
            Some(name) => if intact(files, name) {
                searched(m, w, files) == (disk_touched(m, name), Some(name))
            } else {
                searched(m, w, files) == searched(disk_forgotten(m, name), w, files)
            },
        },
{
}

/// A search of the disk tier answers with the longest intact snapshot on
/// offer, or with nothing where there is none. What promised more and was
/// broken is no longer in the index; every intact file still is.
pub proof fn law_search_finds_the_longest_intact_file(m: DiskModel, w: Wanted, files: Files)
    requires
        m.tick < u64::MAX,
    ensures
        ({
            let (after, found) = searched(m, w, files);
            &&& longest_intact(m.entries, w, files, found)
            &&& broken_forgotten(m.entries, w, after.entries, found)
            &&& intact_kept(m.entries, files, after.entries, found, (m.tick + 1) as u64)
            &&& no_new_files(m.entries, after.entries)
            &&& after.tick == m.tick + (if found is Some {
                1int
            } else {
                0int
            })
            &&& after.budget == m.budget
        }),
    decreases m.entries.len(),
{
    let s = m.entries;
    let (after, found) = searched(m, w, files);
    let tick = (m.tick + 1) as u64;
    match next_file(s, w) {
        None => {
            assert forall|j: int| 0 <= j < s.len() && offered(#[trigger] s[j], w) implies false by {
                lemma_best_exists(s, w, j);
            }
            assert forall|j: int| 0 <= j < s.len() implies after.entries.contains(
                #[trigger] s[j],
            ) by {
                assert(after.entries[j] == s[j]);
            }
        },
        Some(name) => {
            let i = choose|i: int| disk_best(s, w.model, w.kv, w.tokens, i);
            assert(disk_best(s, w.model, w.kv, w.tokens, i));
            if intact(files, name) {
                let t = touched(s, name, tick);
                lemma_touched_lines(s, name, tick);
                assert(offered(s[i], w));
                assert(none_longer(s, w, files, s[i].position));
                assert forall|j: int| 0 <= j < s.len() implies t.contains(#[trigger] s[j])
                    || s[j].file_name == name && t.contains(
                    DiskRecord { last_used: tick, ..s[j] },
                ) by {
                    assert(t.contains(t[j]));
                }
                assert forall|k: int| 0 <= k < t.len() implies exists|j: int|
                    0 <= j < s.len() && (#[trigger] s[j]).file_name == (
                    #[trigger] t[k]).file_name by {
                    assert(s[k].file_name == t[k].file_name);
                }
            } else {
                let less = disk_forgotten(m, name);
                let r = less.entries;
                lemma_without_file_is_shorter(s, name, i);
                law_search_finds_the_longest_intact_file(less, w, files);
                super::disk::lemma_without_file_members(s, name);
                lemma_step_back(s, r, w, files, after.entries, found, tick, name);
            }
        },
    }
}

/// What holds of a search without a broken file holds of the search that
/// forgot it first.
proof fn lemma_step_back(
    s: Seq<DiskRecord>,
    r: Seq<DiskRecord>,
    w: Wanted,
    files: Files,
    after: Seq<DiskRecord>,
    found: Option<Seq<char>>,
    tick: u64,
    name: Seq<char>,
)
    requires
        r == without_file(s, name),
        !intact(files, name),
        forall|k: int| 0 <= k < r.len() ==> s.contains(#[trigger] r[k]) && r[k].file_name != name,
        longest_intact(r, w, files, found),
        broken_forgotten(r, w, after, found),
        intact_kept(r, files, after, found, tick),
        no_new_files(r, after),
    ensures
        longest_intact(s, w, files, found),
        broken_forgotten(s, w, after, found),
        intact_kept(s, files, after, found, tick),
        no_new_files(s, after),
{
    assert forall|j: int| 0 <= j < s.len() && (#[trigger] s[j]).file_name != name implies r.contains(
        s[j],
    ) by {
        lemma_without_file_keeps(s, name, j);
    }
    match found {
        None => {
            assert forall|j: int| 0 <= j < s.len() && offered(#[trigger] s[j], w) implies !intact(
                files,
                s[j].file_name,
            ) by {
                if s[j].file_name != name {
                    let k = choose|k: int| 0 <= k < r.len() && r[k] == s[j];
                    assert(offered(r[k], w));
                }
            }
        },
        Some(n) => {
            let i = choose|i: int|
                0 <= i < r.len() && offered(#[trigger] r[i], w) && r[i].file_name == n
                    && none_longer(r, w, files, r[i].position);
            let x = choose|x: int| 0 <= x < s.len() && s[x] == r[i];
            assert(none_longer(s, w, files, s[x].position)) by {
                assert forall|j: int|
                    0 <= j < s.len() && offered(#[trigger] s[j], w) && s[j].position
                        > s[x].position implies !intact(files, s[j].file_name) by {
                    if s[j].file_name != name {
                        let k = choose|k: int| 0 <= k < r.len() && r[k] == s[j];
                        assert(offered(r[k], w));
                    }
                }
            }
            assert(offered(s[x], w));
        },
    }
    assert forall|k: int| 0 <= k < after.len() implies (#[trigger] after[k]).file_name != name
        && exists|j: int|
        0 <= j < s.len() && (#[trigger] s[j]).file_name == after[k].file_name by {
        let j = choose|j: int|
            0 <= j < r.len() && (#[trigger] r[j]).file_name == after[k].file_name;
        let x = choose|x: int| 0 <= x < s.len() && s[x] == r[j];
        assert(s[x].file_name == after[k].file_name);
    }
    assert forall|j: int|
        0 <= j < s.len() && offered(#[trigger] s[j], w) && (found matches Some(n) ==> longer(
            s,
            w,
            n,
            s[j].position,
        )) implies gone(after, s[j].file_name) by {
        if s[j].file_name != name {
            let k = choose|k: int| 0 <= k < r.len() && r[k] == s[j];
            assert(offered(r[k], w));
            if let Some(n) = found {
                assert(longer(r, w, n, r[k].position)) by {
                    assert forall|i: int|
                        0 <= i < r.len() && offered(#[trigger] r[i], w) && r[i].file_name
                            == n implies r[i].position < r[k].position by {
                        let x = choose|x: int| 0 <= x < s.len() && s[x] == r[i];
                        assert(offered(s[x], w));
                    }
                }
            }
        }
    }
    assert forall|j: int|
        0 <= j < s.len() && intact(files, (#[trigger] s[j]).file_name) implies {
        ||| after.contains(s[j])
        ||| found == Some(s[j].file_name) && after.contains(
            DiskRecord { last_used: tick, ..s[j] },
        )
    } by {
        let k = choose|k: int| 0 <= k < r.len() && r[k] == s[j];
        assert(intact(files, r[k].file_name));
    }
}

} // verus!
