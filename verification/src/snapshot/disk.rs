//! Disk tier: which files hold which snapshots, what to write, what to
//! evict, and what a file read back is worth. The files themselves are read,
//! written and deleted by the caller, one decision at a time:
//!
//! - to store a snapshot, [`DiskStore::prepare_insert`] gives the file to
//!   write; once it is written, [`DiskStore::insert`] records it and names
//!   the files to delete;
//! - to look one up, [`DiskStore::find_best`] names the file to read, and
//!   [`DiskStore::accept`] takes what was read: a valid snapshot is returned,
//!   anything else is forgotten (its file is to be deleted) and the search
//!   goes on with the next call of `find_best`.

use super::codec::{decode, decodes_to, encode, encoded};
use super::frame::{frame, framed, unframe};
use super::hash::{chain_hash, checksum_bytes, fnv, ChainHash, FNV_OFFSET};
use super::order::{law_answers_keep_the_order, law_insert_keeps_the_order, orderly};
use super::search::{lemma_one_best, next_file, Wanted};
use super::types::{KeyModel, KvConfigStamp, ModelStamp, SnapshotData, SnapshotModel};
use crate::bytes::same_tokens;
use crate::load_opts::KvCacheMode;
use crate::text::{
    decimal, hex, lemma_decimal_injective, lemma_hex_injective, lemma_hex_len, push_decimal,
    push_hex, same_text,
};
use vstd::prelude::*;
use vstd::slice::{slice_subrange, slice_to_vec};
use vstd::utf8::encode_utf8;

verus! {

/// One line of the index: a file and what it holds.
#[derive(Debug)]
pub struct DiskEntry {
    pub file_name: String,
    pub model: ModelStamp,
    pub kv: KvConfigStamp,
    pub position: u32,
    pub token_ids: Vec<u32>,
    pub byte_size: u64,
    pub last_used: u64,
}

/// What a [`DiskEntry`] holds.
#[verifier::ext_equal]
pub struct DiskRecord {
    pub file_name: Seq<char>,
    pub model: (Seq<char>, u64),
    pub kv: KvConfigStamp,
    pub position: u32,
    pub token_ids: Seq<u32>,
    pub byte_size: u64,
    pub last_used: u64,
}

impl View for DiskEntry {
    type V = DiskRecord;

    open spec fn view(&self) -> DiskRecord {
        DiskRecord {
            file_name: self.file_name@,
            model: self.model@,
            kv: self.kv,
            position: self.position,
            token_ids: self.token_ids@,
            byte_size: self.byte_size,
            last_used: self.last_used,
        }
    }
}

/// The persisted index.
#[derive(Debug)]
pub struct DiskIndex {
    pub entries: Vec<DiskEntry>,
    pub tick: u64,
}

/// What the disk tier knows.
#[verifier::ext_equal]
pub struct DiskModel {
    pub budget: u64,
    pub entries: Seq<DiskRecord>,
    pub tick: u64,
}

/// The contents of a run of index lines.
pub open spec fn records(s: Seq<DiskEntry>) -> Seq<DiskRecord> {
    s.map_values(|e: DiskEntry| e@)
}

/// Bytes on disk of a run of records.
pub open spec fn disk_total(s: Seq<DiskRecord>) -> nat
    decreases s.len(),
{
    if s.len() == 0 {
        0
    } else {
        disk_total(s.drop_last()) + s.last().byte_size as nat
    }
}

/// The first of the records that were used longest ago.
pub open spec fn oldest(s: Seq<DiskRecord>) -> int
    decreases s.len(),
{
    if s.len() <= 1 {
        0
    } else {
        let o = oldest(s.drop_last());
        if s.last().last_used < s[o].last_used {
            s.len() - 1
        } else {
            o
        }
    }
}

/// The records that name another file.
pub open spec fn without_file(s: Seq<DiskRecord>, name: Seq<char>) -> Seq<DiskRecord>
    decreases s.len(),
{
    if s.len() == 0 {
        s
    } else if s.last().file_name == name {
        without_file(s.drop_last(), name)
    } else {
        without_file(s.drop_last(), name).push(s.last())
    }
}

/// Eviction: the records that stay, and the files to delete, oldest first,
/// until the rest fits the budget.
pub open spec fn evicted(s: Seq<DiskRecord>, budget: nat) -> (Seq<DiskRecord>, Seq<Seq<char>>)
    decreases s.len(),
{
    if disk_total(s) <= budget || s.len() == 0 {
        (s, Seq::empty())
    } else {
        proof {
            lemma_oldest_in_range(s);
        }
        let o = oldest(s);
        let (kept, gone) = evicted(s.remove(o), budget);
        (kept, seq![s[o].file_name] + gone)
    }
}

/// A record that may be offered for `tokens`.
pub open spec fn disk_offers(
    e: DiskRecord,
    model: (Seq<char>, u64),
    kv: KvConfigStamp,
    tokens: Seq<u32>,
) -> bool {
    &&& e.model == model
    &&& e.kv == kv
    &&& e.position < tokens.len()
    &&& e.token_ids == tokens.take(e.position as int)
}

/// The record at `i` is offered, none offered covers more tokens, and none
/// before it covers as many.
pub open spec fn disk_best(
    s: Seq<DiskRecord>,
    model: (Seq<char>, u64),
    kv: KvConfigStamp,
    tokens: Seq<u32>,
    i: int,
) -> bool {
    &&& 0 <= i < s.len()
    &&& disk_offers(s[i], model, kv, tokens)
    &&& forall|j: int|
        0 <= j < s.len() && disk_offers(#[trigger] s[j], model, kv, tokens) ==> s[j].position
            < s[i].position || (s[j].position == s[i].position && i <= j)
}

/// The record of the first line that names `name`, marked as used at `tick`.
pub open spec fn touched(s: Seq<DiskRecord>, name: Seq<char>, tick: u64) -> Seq<DiskRecord>
    decreases s.len(),
{
    if s.len() == 0 {
        s
    } else if s[0].file_name == name {
        s.update(0, DiskRecord { last_used: tick, ..s[0] })
    } else {
        seq![s[0]] + touched(s.drop_first(), name, tick)
    }
}

/// The name `{:?}` gives a cache mode.
pub open spec fn mode_name(mode: KvCacheMode) -> Seq<char> {
    match mode {
        KvCacheMode::Fp16 => "Fp16"@,
        KvCacheMode::Q8 => "Q8"@,
        KvCacheMode::Q4Mixed => "Q4Mixed"@,
    }
}

/// The text a model and configuration are identified by.
pub open spec fn identity(model: (Seq<char>, u64), kv: KvConfigStamp) -> Seq<char> {
    model.0 + ":"@ + decimal(model.1 as nat) + ":"@ + mode_name(kv.mode) + ":"@ + decimal(
        kv.ctx as nat,
    )
}

/// The file a snapshot is stored in: a checksum of the identity, the chain
/// hash of the tokens, and the position.
pub open spec fn file_name_of(key: KeyModel) -> Seq<char> {
    hex(fnv(FNV_OFFSET, encode_utf8(identity(key.model, key.kv))) as nat, 16) + "-"@ + hex(
        key.chain_hash as nat,
        16,
    ) + "-"@ + decimal(key.position as nat) + ".snap"@
}

/// Snapshots of one model and configuration at different positions, or over
/// tokens with different hashes, never share a file.
pub proof fn law_file_names_tell_snapshots_apart(a: KeyModel, b: KeyModel)
    requires
        file_name_of(a) == file_name_of(b),
    ensures
        a.position == b.position,
        a.chain_hash == b.chain_hash,
{
    let ia = fnv(FNV_OFFSET, encode_utf8(identity(a.model, a.kv))) as nat;
    let ib = fnv(FNV_OFFSET, encode_utf8(identity(b.model, b.kv))) as nat;
    reveal_strlit("-");
    reveal_strlit(".snap");
    lemma_hex_len(ia, 16);
    lemma_hex_len(ib, 16);
    lemma_hex_len(a.chain_hash as nat, 16);
    lemma_hex_len(b.chain_hash as nat, 16);
    let f = file_name_of(a);
    assert(f.subrange(17, 33) =~= hex(a.chain_hash as nat, 16));
    assert(f.subrange(17, 33) =~= hex(b.chain_hash as nat, 16));
    assert(vstd::arithmetic::power::pow(16, 16) == 0x1_0000_0000_0000_0000) by {
        reveal_with_fuel(vstd::arithmetic::power::pow, 17);
    }
    lemma_hex_injective(
        a.chain_hash as nat,
        b.chain_hash as nat,
        16,
        0x1_0000_0000_0000_0000,
    );
    assert(f.subrange(34, f.len() - 5) =~= decimal(a.position as nat));
    assert(f.subrange(34, f.len() - 5) =~= decimal(b.position as nat));
    lemma_decimal_injective(a.position as nat, b.position as nat);
}

fn push_mode_name(out: &mut String, mode: KvCacheMode)
    ensures
        final(out)@ == old(out)@ + mode_name(mode),
{
    match mode {
        KvCacheMode::Fp16 => out.append("Fp16"),
        KvCacheMode::Q8 => out.append("Q8"),
        KvCacheMode::Q4Mixed => out.append("Q4Mixed"),
    }
}

/// A file to be written, and the index line for it.
#[derive(Debug)]
pub struct PendingWrite {
    pub entry: DiskEntry,
    pub contents: Vec<u8>,
}

/// The line a snapshot gets, before it has been used.
pub open spec fn record_for(
    model: (Seq<char>, u64),
    kv: KvConfigStamp,
    d: SnapshotModel,
) -> DiskRecord {
    DiskRecord {
        file_name: file_name_of(
            KeyModel { model, kv, position: d.position, chain_hash: chain_hash(d.token_ids) },
        ),
        model,
        kv,
        position: d.position,
        token_ids: d.token_ids,
        byte_size: framed(encoded(d)).len() as u64,
        last_used: 0,
    }
}

/// The index after a line has been written, and the files to delete.
pub open spec fn disk_inserted(m: DiskModel, e: DiskRecord) -> (DiskModel, Seq<Seq<char>>) {
    let tick = (m.tick + 1) as u64;
    let all = without_file(m.entries, e.file_name).push(DiskRecord { last_used: tick, ..e });
    let (kept, gone) = evicted(all, m.budget as nat);
    (DiskModel { entries: kept, tick, ..m }, gone)
}

/// The index after a file was found valid.
pub open spec fn disk_touched(m: DiskModel, name: Seq<char>) -> DiskModel {
    let tick = (m.tick + 1) as u64;
    DiskModel { entries: touched(m.entries, name, tick), tick, ..m }
}

/// The index after a file was found unusable.
pub open spec fn disk_forgotten(m: DiskModel, name: Seq<char>) -> DiskModel {
    DiskModel { entries: without_file(m.entries, name), ..m }
}

/// `contents` is a frame around the encoding of `d`.
pub open spec fn file_holds(contents: Seq<u8>, d: SnapshotModel) -> bool {
    exists|payload: Seq<u8>|
        payload.len() <= u64::MAX && contents == #[trigger] framed(payload) && decodes_to(
            payload,
            d,
        )
}

/// The disk tier's bookkeeping.
pub struct DiskStore {
    budget_bytes: u64,
    index: DiskIndex,
}

impl View for DiskStore {
    type V = DiskModel;

    closed spec fn view(&self) -> DiskModel {
        DiskModel {
            budget: self.budget_bytes,
            entries: records(self.index.entries@),
            tick: self.index.tick,
        }
    }
}

proof fn lemma_disk_total_take(s: Seq<DiskRecord>, n: int)
    requires
        0 <= n <= s.len(),
    ensures
        disk_total(s.take(n)) <= disk_total(s),
    decreases s.len() - n,
{
    if n < s.len() {
        lemma_disk_total_take(s, n + 1);
        assert(s.take(n + 1).drop_last() =~= s.take(n));
    } else {
        assert(s.take(n) =~= s);
    }
}

pub proof fn lemma_disk_total_remove(s: Seq<DiskRecord>, i: int)
    requires
        0 <= i < s.len(),
    ensures
        disk_total(s) == disk_total(s.remove(i)) + s[i].byte_size,
    decreases s.len(),
{
    if i == s.len() - 1 {
        assert(s.remove(i) =~= s.drop_last());
    } else {
        lemma_disk_total_remove(s.drop_last(), i);
        assert(s.remove(i).drop_last() =~= s.drop_last().remove(i));
        assert(s.remove(i).last() == s.last());
    }
}

pub proof fn lemma_without_file_total(s: Seq<DiskRecord>, name: Seq<char>)
    ensures
        disk_total(without_file(s, name)) <= disk_total(s),
        without_file(s, name).len() <= s.len(),
    decreases s.len(),
{
    if s.len() > 0 {
        lemma_without_file_total(s.drop_last(), name);
        let w = without_file(s.drop_last(), name);
        assert(w.push(s.last()).drop_last() =~= w);
    }
}

pub proof fn lemma_oldest_in_range(s: Seq<DiskRecord>)
    requires
        s.len() > 0,
    ensures
        0 <= oldest(s) < s.len(),
    decreases s.len(),
{
    if s.len() > 1 {
        lemma_oldest_in_range(s.drop_last());
    }
}

/// The record that is evicted was used no later than any other.
pub proof fn law_oldest_is_least_recently_used(s: Seq<DiskRecord>)
    requires
        s.len() > 0,
    ensures
        0 <= oldest(s) < s.len(),
        forall|i: int|
            0 <= i < s.len() ==> s[oldest(s)].last_used <= (#[trigger] s[i]).last_used,
    decreases s.len(),
{
    if s.len() > 1 {
        let p = s.drop_last();
        law_oldest_is_least_recently_used(p);
        assert forall|i: int| 0 <= i < s.len() implies s[oldest(s)].last_used <= (
        #[trigger] s[i]).last_used by {
            if i < s.len() - 1 {
                assert(p[i] == s[i]);
            }
        }
    }
}

/// What eviction leaves fits the budget.
pub proof fn law_eviction_fits_the_budget(s: Seq<DiskRecord>, budget: nat)
    ensures
        disk_total(evicted(s, budget).0) <= budget,
    decreases s.len(),
{
    if disk_total(s) > budget && s.len() > 0 {
        lemma_oldest_in_range(s);
        law_eviction_fits_the_budget(s.remove(oldest(s)), budget);
    }
}

/// A file reads back as the snapshot that was written to it, and as no other.
pub proof fn law_file_round_trip(d: SnapshotModel)
    requires
        d.encodable(),
        encoded(d).len() <= u64::MAX,
    ensures
        file_holds(framed(encoded(d)), d),
        forall|x: SnapshotModel| file_holds(framed(encoded(d)), x) ==> x == d,
{
    super::codec::law_decode_inverts_encode(d, Seq::empty());
    assert(encoded(d) + Seq::<u8>::empty() =~= encoded(d));
    assert forall|x: SnapshotModel| file_holds(framed(encoded(d)), x) implies x == d by {
        let payload = choose|payload: Seq<u8>|
            payload.len() <= u64::MAX && framed(encoded(d)) == #[trigger] framed(payload)
                && decodes_to(payload, x);
        super::frame::law_frame_is_injective(payload, encoded(d));
    }
}

/// A file with one byte changed holds no snapshot.
pub proof fn law_corrupt_file_holds_nothing(d: SnapshotModel, at: int, byte: u8)
    requires
        encoded(d).len() <= u64::MAX,
        0 <= at < framed(encoded(d)).len(),
        byte != framed(encoded(d))[at],
    ensures
        forall|x: SnapshotModel| !file_holds(framed(encoded(d)).update(at, byte), x),
{
    let bad = framed(encoded(d)).update(at, byte);
    assert forall|x: SnapshotModel| !file_holds(bad, x) by {
        if file_holds(bad, x) {
            let payload = choose|payload: Seq<u8>|
                payload.len() <= u64::MAX && bad == #[trigger] framed(payload) && decodes_to(
                    payload,
                    x,
                );
            super::frame::law_one_changed_byte_is_rejected(encoded(d), at, byte, payload);
        }
    }
}

/// A truncated file holds no snapshot.
pub proof fn law_truncated_file_holds_nothing(d: SnapshotModel, cut: int)
    requires
        encoded(d).len() <= u64::MAX,
        0 <= cut < framed(encoded(d)).len(),
    ensures
        forall|x: SnapshotModel| !file_holds(framed(encoded(d)).take(cut), x),
{
    let bad = framed(encoded(d)).take(cut);
    assert forall|x: SnapshotModel| !file_holds(bad, x) by {
        if file_holds(bad, x) {
            let payload = choose|payload: Seq<u8>|
                payload.len() <= u64::MAX && bad == #[trigger] framed(payload) && decodes_to(
                    payload,
                    x,
                );
            super::frame::law_truncated_frame_is_rejected(encoded(d), cut, payload);
        }
    }
}

/// Eviction never drops a record that was used after every other one and
/// that fits the budget on its own.
pub proof fn lemma_newest_survives(s: Seq<DiskRecord>, at: int, budget: nat)
    requires
        0 <= at < s.len(),
        s[at].byte_size <= budget,
        forall|i: int|
            0 <= i < s.len() && i != at ==> (#[trigger] s[i]).last_used < s[at].last_used,
    ensures
        evicted(s, budget).0.contains(s[at]),
    decreases s.len(),
{
    if disk_total(s) <= budget {
        assert(evicted(s, budget).0[at] == s[at]);
    } else {
        law_oldest_is_least_recently_used(s);
        let o = oldest(s);
        if s.len() == 1 {
            assert(s.drop_last() =~= Seq::empty());
            assert(disk_total(s) == s[0].byte_size) by {
                reveal_with_fuel(disk_total, 2);
            }
        }
        let other = if at == 0 {
            1int
        } else {
            0int
        };
        assert(s[other].last_used < s[at].last_used);
        assert(o != at);
        let t = s.remove(o);
        let k = if at < o {
            at
        } else {
            at - 1
        };
        assert(t[k] == s[at]);
        assert forall|i: int| 0 <= i < t.len() && i != k implies (#[trigger] t[i]).last_used
            < t[k].last_used by {
            if i < o {
                assert(t[i] == s[i]);
            } else {
                assert(t[i] == s[i + 1]);
            }
        }
        lemma_newest_survives(t, k, budget);
    }
}

/// What stays was there before and names another file.
pub proof fn lemma_without_file_members(s: Seq<DiskRecord>, name: Seq<char>)
    ensures
        forall|i: int|
            0 <= i < without_file(s, name).len() ==> s.contains(
                #[trigger] without_file(s, name)[i],
            ) && without_file(s, name)[i].file_name != name,
    decreases s.len(),
{
    if s.len() > 0 {
        let p = s.drop_last();
        lemma_without_file_members(p, name);
        let w = without_file(s, name);
        assert forall|i: int| 0 <= i < w.len() implies s.contains(#[trigger] w[i])
            && w[i].file_name != name by {
            let q = without_file(p, name);
            if i < q.len() {
                assert(w[i] == q[i]);
                let j = choose|j: int| 0 <= j < p.len() && p[j] == q[i];
                assert(s[j] == q[i]);
            } else {
                assert(w[i] == s.last());
                assert(s[s.len() - 1] == s.last());
            }
        }
    }
}

/// The names in a list of strings.
pub open spec fn names(v: Seq<String>) -> Seq<Seq<char>> {
    v.map_values(|n: String| n@)
}

impl DiskStore {
    /// The tier over an index read from disk.
    pub fn open(index: DiskIndex, budget_bytes: u64) -> (r: Self)
        ensures
            r@ == (DiskModel {
                budget: budget_bytes,
                entries: records(index.entries@),
                tick: index.tick,
            }),
            r@.orderly() == orderly(records(index.entries@), index.tick),
    {
        DiskStore { budget_bytes, index }
    }

    /// The index, to be persisted.
    pub fn index(&self) -> (r: &DiskIndex)
        ensures
            records(r.entries@) == self@.entries,
            r.tick == self@.tick,
            orderly(records(r.entries@), r.tick) == self@.orderly(),
    {
        &self.index
    }

    /// Where the index is, inside the store's directory.
    pub fn index_path() -> (r: String)
        ensures
            r@ == "index.json"@,
    {
        "index.json".to_owned()
    }

    /// The file name of a snapshot.
    pub fn file_name(model: &ModelStamp, kv: &KvConfigStamp, position: u32, chain_hash: u64) -> (r:
        String)
        ensures
            r@ == file_name_of(KeyModel { model: model@, kv: *kv, position, chain_hash }),
    {
        let mut id: String = model.gguf_path.clone();
        id.append(":");
        push_decimal(&mut id, model.file_len);
        id.append(":");
        push_mode_name(&mut id, kv.mode);
        id.append(":");
        push_decimal(&mut id, kv.ctx as u64);
        let model_kv_id: u64 = checksum_bytes(id.as_str().as_bytes());
        let mut out: String = String::new();
        push_hex(&mut out, model_kv_id, 16);
        out.append("-");
        push_hex(&mut out, chain_hash, 16);
        out.append("-");
        push_decimal(&mut out, position as u64);
        out.append(".snap");
        proof {
            assert(id@ =~= identity(model@, *kv));
            assert(out@ =~= file_name_of(KeyModel { model: model@, kv: *kv, position, chain_hash }));
        }
        out
    }

    /// Bytes on disk.
    pub fn used_bytes(&self) -> (r: u64)
        requires
            disk_total(self@.entries) <= u64::MAX,
        ensures
            r == disk_total(self@.entries),
    {
        let mut sum: u64 = 0;
        let mut i: usize = 0;
        let ghost s = self@.entries;
        proof {
            assert(s.take(0) =~= Seq::empty());
        }
        while i < self.index.entries.len()
            invariant
                s == records(self.index.entries@),
                i <= self.index.entries@.len(),
                disk_total(s) <= u64::MAX,
                sum == disk_total(s.take(i as int)),
            decreases self.index.entries@.len() - i,
        {
            proof {
                assert(s.take(i + 1).drop_last() =~= s.take(i as int));
                assert(s[i as int] == self.index.entries@[i as int]@);
                lemma_disk_total_take(s, i + 1);
            }
            sum = sum + self.index.entries[i].byte_size;
            i = i + 1;
        }
        proof {
            assert(s.take(i as int) =~= s);
        }
        sum
    }

    /// Number of files.
    pub fn len(&self) -> (r: usize)
        ensures
            r == self@.entries.len(),
    {
        self.index.entries.len()
    }

    /// Whether there is no file.
    pub fn is_empty(&self) -> (r: bool)
        ensures
            r == (self@.entries.len() == 0),
    {
        self.index.entries.len() == 0
    }

    /// The file to write for a snapshot, if it is to be stored at all: not
    /// when the tier is disabled, nor when the file alone exceeds the budget.
    pub fn prepare_insert(
        &self,
        model: &ModelStamp,
        kv: &KvConfigStamp,
        data: &SnapshotData,
    ) -> (r: Option<PendingWrite>)
        ensures
            r is Some <==> self@.budget != 0 && framed(encoded(data@)).len() <= self@.budget,
            r matches Some(p) ==> p.contents@ == framed(encoded(data@)) && p.entry@ == record_for(
                model@,
                *kv,
                data@,
            ),
    {
        if self.budget_bytes == 0 {
            return None;
        }
        let contents = frame(encode(data).as_slice());
        let byte_size: u64 = contents.len() as u64;
        if byte_size > self.budget_bytes {
            return None;
        }
        let chain: u64 = ChainHash::of(data.token_ids.as_slice());
        let entry = DiskEntry {
            file_name: DiskStore::file_name(model, kv, data.position, chain),
            model: model.clone(),
            kv: *kv,
            position: data.position,
            token_ids: slice_to_vec(data.token_ids.as_slice()),
            byte_size,
            last_used: 0,
        };
        Some(PendingWrite { entry, contents })
    }

    /// Records a file that has been written, then evicts the files used
    /// longest ago until the rest fits the budget. Returns the files to
    /// delete.
    pub fn insert(&mut self, pending: PendingWrite) -> (gone: Vec<String>)
        requires
            disk_total(old(self)@.entries) + pending.entry.byte_size <= u64::MAX,
            old(self)@.tick < u64::MAX,
        ensures
            (final(self)@, names(gone@)) == disk_inserted(old(self)@, pending.entry@),
            disk_total(final(self)@.entries) <= final(self)@.budget,
            old(self)@.orderly() ==> final(self)@.orderly(),
    {
        let ghost m = self@;
        let mut entry = pending.entry;
        let ghost given = entry@;
        self.forget(entry.file_name.as_str());
        proof {
            lemma_without_file_total(m.entries, given.file_name);
        }
        self.index.tick = self.index.tick + 1;
        entry.last_used = self.index.tick;
        let ghost before = self@.entries;
        self.index.entries.push(entry);
        proof {
            let all = before.push(DiskRecord { last_used: self.index.tick, ..given });
            assert(self@.entries =~= all);
            assert(all.drop_last() =~= before);
            law_eviction_fits_the_budget(all, m.budget as nat);
            if m.orderly() {
                law_insert_keeps_the_order(m, given);
            }
        }
        self.evict_to_budget()
    }

    fn evict_to_budget(&mut self) -> (gone: Vec<String>)
        requires
            disk_total(old(self)@.entries) <= u64::MAX,
        ensures
            final(self).budget_bytes == old(self).budget_bytes,
            final(self).index.tick == old(self).index.tick,
            (final(self)@.entries, names(gone@)) == evicted(
                old(self)@.entries,
                old(self)@.budget as nat,
            ),
    {
        let mut gone: Vec<String> = Vec::new();
        let ghost budget = self@.budget as nat;
        proof {
            assert(names(gone@) =~= Seq::empty());
            let e = evicted(self@.entries, budget);
            assert(Seq::<Seq<char>>::empty() + e.1 =~= e.1);
        }
        loop
            invariant
                self.budget_bytes == old(self).budget_bytes,
                self.index.tick == old(self).index.tick,
                budget == self@.budget,
                disk_total(self@.entries) <= u64::MAX,
                evicted(old(self)@.entries, budget) == (
                    evicted(self@.entries, budget).0,
                    names(gone@) + evicted(self@.entries, budget).1,
                ),
            ensures
                self.budget_bytes == old(self).budget_bytes,
                self.index.tick == old(self).index.tick,
                (self@.entries, names(gone@)) == evicted(old(self)@.entries, budget),
            decreases self.index.entries@.len(),
        {
            let ghost s = self@.entries;
            if self.used_bytes() <= self.budget_bytes || self.index.entries.len() == 0 {
                proof {
                    assert(names(gone@) + Seq::<Seq<char>>::empty() =~= names(gone@));
                }
                break;
            }
            let o: usize = self.oldest_index();
            let ghost so_far = names(gone@);
            proof {
                lemma_oldest_in_range(s);
                lemma_disk_total_remove(s, oldest(s));
            }
            let entry = self.index.entries.remove(o);
            proof {
                assert(entry@ == s[oldest(s)]);
                assert(self@.entries =~= s.remove(oldest(s)));
                let rest = evicted(s.remove(oldest(s)), budget);
                assert(so_far + (seq![s[oldest(s)].file_name] + rest.1) =~= so_far.push(
                    s[oldest(s)].file_name,
                ) + rest.1);
            }
            gone.push(entry.file_name);
            proof {
                assert(names(gone@) =~= so_far.push(s[oldest(s)].file_name));
            }
        }
        gone
    }

    fn oldest_index(&self) -> (o: usize)
        requires
            self@.entries.len() > 0,
        ensures
            o == oldest(self@.entries),
            o < self@.entries.len(),
    {
        let mut o: usize = 0;
        let mut i: usize = 1;
        let ghost s = self@.entries;
        while i < self.index.entries.len()
            invariant
                s == records(self.index.entries@),
                1 <= i <= self.index.entries@.len(),
                o < i,
                o == oldest(s.take(i as int)),
            decreases self.index.entries@.len() - i,
        {
            proof {
                assert(s.take(i + 1).drop_last() =~= s.take(i as int));
                assert(s[i as int] == self.index.entries@[i as int]@);
                assert(s[o as int] == self.index.entries@[o as int]@);
            }
            if self.index.entries[i].last_used < self.index.entries[o].last_used {
                o = i;
            }
            i = i + 1;
        }
        proof {
            assert(s.take(i as int) =~= s);
        }
        o
    }

    /// Drops every line that names `file_name`.
    fn forget(&mut self, file_name: &str)
        ensures
            final(self).budget_bytes == old(self).budget_bytes,
            final(self).index.tick == old(self).index.tick,
            final(self)@.entries == without_file(old(self)@.entries, file_name@),
    {
        let mut kept: Vec<DiskEntry> = Vec::new();
        let ghost s = self@.entries;
        let count: usize = self.index.entries.len();
        let mut i: usize = 0;
        proof {
            assert(s.take(0) =~= Seq::empty());
            assert(records(kept@) =~= Seq::empty());
            assert(s.skip(0) =~= s);
        }
        while self.index.entries.len() > 0
            invariant
                self.budget_bytes == old(self).budget_bytes,
                self.index.tick == old(self).index.tick,
                s == old(self)@.entries,
                i + self.index.entries@.len() == s.len(),
                records(self.index.entries@) == s.skip(i as int),
                records(kept@) == without_file(s.take(i as int), file_name@),
                s.len() == count,
            decreases self.index.entries@.len(),
        {
            let ghost left = self.index.entries@;
            let e = self.index.entries.remove(0);
            proof {
                assert(records(left)[0] == e@);
                assert(e@ == s[i as int]);
                assert(s.take(i + 1).drop_last() =~= s.take(i as int));
                assert(records(self.index.entries@) =~= s.skip(i + 1)) by {
                    assert(records(self.index.entries@) =~= records(left).drop_first());
                    assert(s.skip(i as int).drop_first() =~= s.skip(i + 1));
                }
            }
            if !same_text(e.file_name.as_str(), file_name) {
                let ghost before = records(kept@);
                kept.push(e);
                proof {
                    assert(records(kept@) =~= before.push(s[i as int]));
                }
            }
            proof {
                assert(i + 1 <= s.len());
            }
            i = i + 1;
        }
        proof {
            assert(s.take(i as int) =~= s);
        }
        self.index.entries = kept;
    }

    /// Marks the first line that names `file_name` as just used.
    fn touch(&mut self, file_name: &str)
        requires
            old(self)@.tick < u64::MAX,
        ensures
            final(self)@ == disk_touched(old(self)@, file_name@),
    {
        self.index.tick = self.index.tick + 1;
        let tick: u64 = self.index.tick;
        let mut i: usize = 0;
        let ghost s = self@.entries;
        proof {
            assert(s.take(0) + touched(s.skip(0), file_name@, tick) =~= touched(
                s.skip(0),
                file_name@,
                tick,
            ));
            assert(s.skip(0) =~= s);
        }
        while i < self.index.entries.len()
            invariant
                s == self@.entries,
                s.len() == self.index.entries@.len(),
                self.budget_bytes == old(self).budget_bytes,
                self.index.tick == tick,
                i <= s.len(),
                touched(s, file_name@, tick) == s.take(i as int) + touched(
                    s.skip(i as int),
                    file_name@,
                    tick,
                ),
                s == old(self)@.entries,
                tick == old(self)@.tick + 1,
            decreases s.len() - i,
        {
            proof {
                assert(s[i as int] == self.index.entries@[i as int]@);
                assert(s.skip(i as int)[0] == s[i as int]);
            }
            if same_text(self.index.entries[i].file_name.as_str(), file_name) {
                let e = self.index.entries.remove(i);
                let used = DiskEntry { last_used: tick, ..e };
                self.index.entries.insert(i, used);
                proof {
                    let t = s.skip(i as int);
                    let x = DiskRecord { last_used: tick, ..s[i as int] };
                    assert(touched(t, file_name@, tick) == t.update(0, x));
                    assert(self@.entries =~= s.take(i as int) + t.update(0, x));
                }
                return;
            }
            proof {
                let t = s.skip(i as int);
                assert(t.drop_first() =~= s.skip(i + 1));
                assert(s.take(i as int) + (seq![s[i as int]] + touched(
                    s.skip(i + 1),
                    file_name@,
                    tick,
                )) =~= s.take(i + 1) + touched(s.skip(i + 1), file_name@, tick));
            }
            i = i + 1;
        }
        proof {
            assert(s.skip(i as int) =~= Seq::empty());
            assert(touched(s, file_name@, tick) =~= s);
        }
    }

    /// The file of the longest snapshot that covers a strict prefix of
    /// `token_ids`, captured from the same model and configuration.
    pub fn find_best(
        &self,
        model: &ModelStamp,
        kv: &KvConfigStamp,
        token_ids: &[u32],
    ) -> (r: Option<String>)
        ensures
            match r {
                None => forall|i: int|
                    0 <= i < self@.entries.len() ==> !disk_offers(
                        #[trigger] self@.entries[i],
                        model@,
                        *kv,
                        token_ids@,
                    ),
                Some(name) => exists|i: int|
                    #[trigger] disk_best(self@.entries, model@, *kv, token_ids@, i) && name@
                        == self@.entries[i].file_name,
            },
            match r {
                None => next_file(
                    self@.entries,
                    (Wanted { model: model@, kv: *kv, tokens: token_ids@ }),
                ) is None,
                Some(name) => next_file(
                    self@.entries,
                    (Wanted { model: model@, kv: *kv, tokens: token_ids@ }),
                ) == Some(name@),
            },
    {
        let mut best: Option<usize> = None;
        let mut i: usize = 0;
        let ghost s = self@.entries;
        while i < self.index.entries.len()
            invariant
                s == self@.entries,
                s.len() == self.index.entries@.len(),
                i <= s.len(),
                match best {
                    None => forall|j: int|
                        0 <= j < i ==> !disk_offers(#[trigger] s[j], model@, *kv, token_ids@),
                    Some(b) => {
                        &&& b < i
                        &&& disk_offers(s[b as int], model@, *kv, token_ids@)
                        &&& forall|j: int|
                            0 <= j < i && disk_offers(#[trigger] s[j], model@, *kv, token_ids@)
                                ==> s[j].position < s[b as int].position || (s[j].position
                                == s[b as int].position && b <= j)
                    },
                },
            decreases s.len() - i,
        {
            assert(s[i as int] == self.index.entries@[i as int]@);
            let e = &self.index.entries[i];
            if e.model.same(model) && e.kv == *kv && (e.position as usize) < token_ids.len() {
                let covered = slice_subrange(token_ids, 0, e.position as usize);
                assert(covered@ =~= token_ids@.take(e.position as int));
                if same_tokens(e.token_ids.as_slice(), covered) {
                    let better: bool = match best {
                        None => true,
                        Some(b) => {
                            assert(s[b as int] == self.index.entries@[b as int]@);
                            self.index.entries[b].position < e.position
                        },
                    };
                    if better {
                        best = Some(i);
                    }
                }
            }
            i = i + 1;
        }
        let ghost w = Wanted { model: model@, kv: *kv, tokens: token_ids@ };
        match best {
            None => {
                assert(forall|i: int| !disk_best(s, model@, *kv, token_ids@, i));
                None
            },
            Some(b) => {
                assert(s[b as int] == self.index.entries@[b as int]@);
                assert(disk_best(s, model@, *kv, token_ids@, b as int));
                proof {
                    lemma_one_best(s, w, b as int);
                }
                Some(self.index.entries[b].file_name.clone())
            },
        }
    }

    /// The snapshot a file holds, if its contents could be read and are
    /// intact.
    pub fn read_valid(contents: Option<&[u8]>) -> (r: Option<SnapshotData>)
        ensures
            match r {
                Some(d) => contents is Some && file_holds(contents->0@, d@),
                None => contents matches Some(bytes) ==> forall|d: SnapshotModel|
                    !file_holds(bytes@, d),
            },
    {
        let bytes = match contents {
            None => {
                return None;
            },
            Some(bytes) => bytes,
        };
        let payload = match unframe(bytes) {
            None => {
                return None;
            },
            Some(payload) => payload,
        };
        let n: usize = payload.len();
        proof {
            assert forall|other: Seq<u8>|
                other.len() <= u64::MAX && bytes@ == #[trigger] framed(other) implies other
                == payload@ by {
                super::frame::law_frame_is_injective(other, payload@);
            }
        }
        match decode(payload) {
            Ok(d) => {
                assert(bytes@ == framed(payload@) && decodes_to(payload@, d@));
                Some(d)
            },
            Err(_) => None,
        }
    }

    /// Takes what was read from a file named by [`Self::find_best`]. An
    /// intact snapshot is returned and its file counts as just used; anything
    /// else is dropped from the index, and its file is to be deleted.
    pub fn accept(&mut self, file_name: &str, contents: Option<&[u8]>) -> (r: Option<SnapshotData>)
        requires
            old(self)@.tick < u64::MAX,
        ensures
            match r {
                Some(d) => {
                    &&& contents is Some && file_holds(contents->0@, d@)
                    &&& final(self)@ == disk_touched(old(self)@, file_name@)
                },
                None => {
                    &&& contents matches Some(bytes) ==> forall|d: SnapshotModel|
                        !file_holds(bytes@, d)
                    &&& final(self)@ == disk_forgotten(old(self)@, file_name@)
                },
            },
            old(self)@.orderly() ==> final(self)@.orderly(),
    {
        proof {
            if self@.orderly() {
                law_answers_keep_the_order(self@, file_name@);
            }
        }
        match DiskStore::read_valid(contents) {
            Some(d) => {
                self.touch(file_name);
                Some(d)
            },
            None => {
                self.forget(file_name);
                None
            },
        }
    }
}

} // verus!
