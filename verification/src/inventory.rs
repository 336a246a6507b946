//! `inv` payloads: a varint count followed by 36-byte entries
//! (type, 4 bytes little-endian; hash, 32 bytes in internal order).
//! Reading stops at the announced count or at the first entry that does not
//! fit in the payload, whichever comes first.

use vstd::prelude::*;
use crate::encoding::{decode_varint, varint_decode, le_value, read_le, copy_range};
use crate::node::{reversed, reverse_bytes, short_hex, short_hex_of, MempoolEvent, InvItem};
use crate::text::{decimal, hex_lower, push_decimal};
use crate::crypto::hex_encode;

verus! {

/// The announced count and the offset of the first entry; a count that
/// cannot be read counts as zero entries starting at offset 0.
pub open spec fn inv_header(p: Seq<u8>) -> (u64, int) {
    match varint_decode(p, 0) {
        Ok((count, used)) => (count, used as int),
        Err(_) => (0u64, 0int),
    }
}

/// How many of `count` entries fit one after the other from `off` in a
/// payload of `len` bytes.
pub open spec fn entries_fitting(len: int, off: int, count: nat) -> nat
    decreases count,
{
    if count == 0 || len - off < 36 {
        0
    } else {
        1 + entries_fitting(len, off + 36, (count - 1) as nat)
    }
}

/// Number of entries read from an `inv` payload.
pub open spec fn inv_len(p: Seq<u8>) -> nat {
    entries_fitting(p.len() as int, inv_header(p).1, inv_header(p).0 as nat)
}

/// One inventory entry as plain values.
pub struct InvEntryModel {
    pub inv_type: u32,
    /// The hash in internal byte order.
    pub hash: Seq<u8>,
}

/// Entry `k` of an `inv` payload.
pub open spec fn inv_entry(p: Seq<u8>, k: int) -> InvEntryModel {
    let off = inv_header(p).1 + 36 * k;
    InvEntryModel {
        inv_type: le_value(p.subrange(off, off + 4)) as u32,
        hash: p.subrange(off + 4, off + 36),
    }
}

/// All entries read from an `inv` payload.
pub open spec fn inv_entries(p: Seq<u8>) -> Seq<InvEntryModel> {
    Seq::new(inv_len(p), |k: int| inv_entry(p, k))
}

proof fn lemma_entries_fitting_bound(len: int, off: int, count: nat)
    ensures
        entries_fitting(len, off, count) <= count,
        entries_fitting(len, off, count) > 0 ==> off + 36 <= len,
        off + 36 * entries_fitting(len, off, count) <= len || entries_fitting(len, off, count) == 0,
    decreases count,
{
    if count > 0 && len - off >= 36 {
        lemma_entries_fitting_bound(len, off + 36, (count - 1) as nat);
    }
}

fn inv_start(payload: &[u8]) -> (r: (u64, usize))
    ensures
        r.0 == inv_header(payload@).0,
        r.1 == inv_header(payload@).1,
        r.1 <= payload@.len(),
{
    match decode_varint(payload, 0) {
        Ok((count, used)) => (count, used),
        Err(_) => (0, 0),
    }
}

// ── Mempool snapshots ────────────────────────────────────────────────────────

/// The hashes of the transaction entries (type 1), in order.
pub open spec fn tx_hashes(e: Seq<InvEntryModel>) -> Seq<Seq<u8>>
    decreases e.len(),
{
    if e.len() == 0 {
        seq![]
    } else if e.last().inv_type == 1 {
        tx_hashes(e.drop_last()).push(e.last().hash)
    } else {
        tx_hashes(e.drop_last())
    }
}

/// A mempool snapshot as plain values.
pub struct MempoolModel {
    pub total_count: u64,
    pub txids: Seq<Seq<char>>,
}

impl View for MempoolEvent {
    type V = MempoolModel;

    open spec fn view(&self) -> MempoolModel {
        MempoolModel { total_count: self.total_count, txids: self.txids@.map_values(|s: String| s@) }
    }
}

/// Number of txids shown in a snapshot.
pub const MEMPOOL_PREVIEW: usize = 50;

/// The snapshot reported for an `inv` that answers our `mempool` request:
/// the number of transaction entries and the first 50 txids in display order.
pub open spec fn mempool_of(p: Seq<u8>) -> MempoolModel {
    let h = tx_hashes(inv_entries(p));
    let shown = if h.len() < 50 { h.len() } else { 50 };
    MempoolModel {
        total_count: h.len() as u64,
        txids: Seq::new(shown, |i: int| hex_lower(reversed(h[i]))),
    }
}

/// The log line for a mempool snapshot.
pub open spec fn mempool_text(p: Seq<u8>) -> Seq<char> {
    "MEMPOOL SNAPSHOT: "@ + decimal(tx_hashes(inv_entries(p)).len()) + " unconfirmed transactions"@
}

/// Reads the mempool snapshot from an `inv` payload, with its log line.
pub fn mempool_snapshot(payload: &[u8]) -> (r: (MempoolEvent, String))
    ensures
        r.0@ == mempool_of(payload@),
        r.1@ == mempool_text(payload@),
{
    let len = payload.len();
    let (count, start) = inv_start(payload);
    let ghost p = payload@;
    let mut hashes: Vec<Vec<u8>> = Vec::new();
    let mut off = start;
    let mut i: u64 = 0;
    assert(inv_entries(p).take(0) =~= Seq::<InvEntryModel>::empty());
    assert(hashes@.map_values(|v: Vec<u8>| v@) =~= Seq::<Seq<u8>>::empty());
    while i < count && len - off >= 36
        invariant
            len == p.len(),
            p == payload@,
            start == inv_header(p).1,
            count == inv_header(p).0,
            i <= count,
            off == start + 36 * i,
            off <= len,
            i + entries_fitting(len as int, off as int, (count - i) as nat) == inv_len(p),
            hashes@.map_values(|v: Vec<u8>| v@) == tx_hashes(inv_entries(p).take(i as int)),
        decreases count - i,
    {
        let inv_type = #[verifier::truncate] (read_le(payload, off, 4) as u32);
        let hash = copy_range(payload, off + 4, off + 36);
        proof {
            lemma_entries_fitting_bound(len as int, off + 36, (count - i - 1) as nat);
            assert(inv_entries(p).take(i + 1).drop_last() =~= inv_entries(p).take(i as int));
            assert(inv_entries(p)[i as int] == inv_entry(p, i as int));
        }
        if inv_type == 1 {
            let ghost before = hashes@;
            hashes.push(hash);
            assert(hashes@.map_values(|v: Vec<u8>| v@) =~= before.map_values(|v: Vec<u8>| v@).push(
                inv_entry(p, i as int).hash,
            ));
        }
        off = off + 36;
        i = i + 1;
    }
    assert(inv_entries(p).take(i as int) =~= inv_entries(p));
    let ghost h = tx_hashes(inv_entries(p));
    let total = hashes.len();
    let shown = if total < MEMPOOL_PREVIEW { total } else { MEMPOOL_PREVIEW };
    let mut txids: Vec<String> = Vec::new();
    let mut k: usize = 0;
    while k < shown
        invariant
            k <= shown <= total,
            total == h.len(),
            hashes@.map_values(|v: Vec<u8>| v@) == h,
            txids@.map_values(|s: String| s@) == Seq::new(k as nat, |j: int| hex_lower(reversed(h[j]))),
        decreases shown - k,
    {
        assert(hashes@.map_values(|v: Vec<u8>| v@)[k as int] == h[k as int]);
        let display = reverse_bytes(hashes[k].as_slice());
        let ghost before = txids@;
        let text = hex_encode(display.as_slice());
        txids.push(text);
        assert(txids@.map_values(|s: String| s@) =~= before.map_values(|s: String| s@).push(text@));
        assert(txids@.map_values(|s: String| s@) =~= Seq::new((k + 1) as nat, |j: int| hex_lower(reversed(h[j]))));
        k = k + 1;
    }
    let mut line = "MEMPOOL SNAPSHOT: ".to_owned();
    push_decimal(&mut line, total as u64);
    line.append(" unconfirmed transactions");
    (MempoolEvent { total_count: total as u64, txids }, line)
}

} // verus!

verus! {

// ── Announcements ────────────────────────────────────────────────────────────

/// The kind of an inventory entry, witness variants included.
pub open spec fn inv_kind(t: u32) -> Seq<char> {
    if t == 1 || t == 0x40000001 {
        "TX"@
    } else if t == 2 || t == 0x40000002 {
        "BLOCK"@
    } else {
        "OTHER"@
    }
}

fn inv_kind_of(t: u32) -> (s: String)
    ensures
        s@ == inv_kind(t),
{
    if t == 1 || t == 0x40000001 {
        "TX".to_owned()
    } else if t == 2 || t == 0x40000002 {
        "BLOCK".to_owned()
    } else {
        "OTHER".to_owned()
    }
}

/// An announced item as plain values.
pub struct InvItemModel {
    pub item_type: Seq<char>,
    pub hash: Seq<char>,
}

impl View for InvItem {
    type V = InvItemModel;

    open spec fn view(&self) -> InvItemModel {
        InvItemModel { item_type: self.item_type@, hash: self.hash@ }
    }
}

/// Number of items reported in one announcement event.
pub const ANNOUNCED_ITEMS: u64 = 100;

/// Number of items quoted in the log line.
pub const QUOTED_ITEMS: u64 = 5;

/// The smaller of two numbers.
pub open spec fn min_nat(a: nat, b: nat) -> nat {
    if a < b {
        a
    } else {
        b
    }
}

/// The items reported for an announcement: the first 100 entries, each with
/// its kind and its hash in display order.
pub open spec fn announced_items(p: Seq<u8>) -> Seq<InvItemModel> {
    Seq::new(
        min_nat(inv_len(p), 100),
        |k: int|
            InvItemModel {
                item_type: inv_kind(inv_entry(p, k).inv_type),
                hash: hex_lower(reversed(inv_entry(p, k).hash)),
            },
    )
}

/// How one entry is quoted in the log line.
pub open spec fn quoted_item(e: InvEntryModel) -> Seq<char> {
    inv_kind(e.inv_type) + " "@ + short_hex(reversed(e.hash)) + "..."@
}

/// Parts joined by a separator.
pub open spec fn join(parts: Seq<Seq<char>>, sep: Seq<char>) -> Seq<char>
    decreases parts.len(),
{
    if parts.len() == 0 {
        seq![]
    } else if parts.len() == 1 {
        parts[0]
    } else {
        join(parts.drop_last(), sep) + sep + parts.last()
    }
}

/// The log line for an announcement: the announced count, the first five
/// entries read, and how many more were announced.
pub open spec fn announcement_text(p: Seq<u8>) -> Seq<char> {
    let count = inv_header(p).0;
    decimal(count as nat) + " item(s): "@ + join(
        Seq::new(min_nat(inv_len(p), 5), |k: int| quoted_item(inv_entry(p, k))),
        ", "@,
    ) + if count > 5 {
        " (+"@ + decimal((count - 5) as nat) + " more)"@
    } else {
        seq![]
    }
}

/// Reads an announcement from an `inv` payload: the items to report and the
/// log line.
pub fn inv_announcement(payload: &[u8]) -> (r: (Vec<InvItem>, String))
    ensures
        r.0@.map_values(|i: InvItem| i@) == announced_items(payload@),
        r.1@ == announcement_text(payload@),
{
    let len = payload.len();
    let (count, start) = inv_start(payload);
    let ghost p = payload@;
    let ghost quoted = Seq::new(min_nat(inv_len(p), 5), |k: int| quoted_item(inv_entry(p, k)));
    let mut items: Vec<InvItem> = Vec::new();
    let mut listing = String::new();
    let mut off = start;
    let mut i: u64 = 0;
    assert(items@.map_values(|x: InvItem| x@) =~= Seq::<InvItemModel>::empty());
    assert(quoted.take(0) =~= Seq::<Seq<char>>::empty());
    while i < count && len - off >= 36
        invariant
            len == p.len(),
            p == payload@,
            start == inv_header(p).1,
            count == inv_header(p).0,
            i <= count,
            off == start + 36 * i,
            off <= len,
            i + entries_fitting(len as int, off as int, (count - i) as nat) == inv_len(p),
            quoted == Seq::new(min_nat(inv_len(p), 5), |k: int| quoted_item(inv_entry(p, k))),
            items@.map_values(|x: InvItem| x@) == announced_items(p).take(min_nat(i as nat, 100) as int),
            listing@ == join(quoted.take(min_nat(i as nat, 5) as int), ", "@),
        decreases count - i,
    {
        proof {
            lemma_entries_fitting_bound(len as int, off + 36, (count - i - 1) as nat);
        }
        let inv_type = #[verifier::truncate] (read_le(payload, off, 4) as u32);
        let hash = copy_range(payload, off + 4, off + 36);
        let display = reverse_bytes(hash.as_slice());
        let type_str = inv_kind_of(inv_type);
        if i < QUOTED_ITEMS {
            let ghost before = listing@;
            if i > 0 {
                listing.append(", ");
            }
            listing.append(type_str.as_str());
            listing.append(" ");
            let short = short_hex_of(display.as_slice());
            listing.append(short.as_str());
            listing.append("...");
            proof {
                let q = quoted.take(i + 1);
                assert(q.drop_last() =~= quoted.take(i as int));
                assert(q.last() == quoted_item(inv_entry(p, i as int)));
                if i > 0 {
                    assert(listing@ =~= before + ", "@ + q.last());
                } else {
                    assert(listing@ =~= q.last());
                }
            }
        }
        if i < ANNOUNCED_ITEMS {
            let ghost before = items@;
            let hash_hex = hex_encode(display.as_slice());
            let item = InvItem { item_type: type_str, hash: hash_hex };
            items.push(item);
            assert(items@.map_values(|x: InvItem| x@) =~= announced_items(p).take(i + 1)) by {
                assert(items@ == before.push(item));
                assert(i < inv_len(p));
                assert(before.map_values(|x: InvItem| x@) == announced_items(p).take(i as int));
                assert(item@ == announced_items(p)[i as int]);
                assert(items@.map_values(|x: InvItem| x@) =~= before.map_values(|x: InvItem| x@).push(item@));
            }
        }
        off = off + 36;
        i = i + 1;
    }
    proof {
        assert(quoted.take(min_nat(i as nat, 5) as int) =~= quoted);
        assert(announced_items(p).take(min_nat(i as nat, 100) as int) =~= announced_items(p));
    }
    let mut line = String::new();
    push_decimal(&mut line, count);
    line.append(" item(s): ");
    line.append(listing.as_str());
    if count > QUOTED_ITEMS {
        line.append(" (+");
        push_decimal(&mut line, count - QUOTED_ITEMS);
        line.append(" more)");
    }
    assert(line@ =~= announcement_text(p));
    (items, line)
}

} // verus!

verus! {

// ── Payloads written out ─────────────────────────────────────────────────────

/// The 36 bytes of one entry: its type, little-endian, then its hash.
pub open spec fn inv_entry_bytes(e: InvEntryModel) -> Seq<u8> {
    crate::encoding::le_bytes(e.inv_type as nat, 4) + e.hash
}

/// The bytes of a list of entries, one after the other.
pub open spec fn inv_entries_bytes(es: Seq<InvEntryModel>) -> Seq<u8>
    decreases es.len(),
{
    if es.len() == 0 {
        seq![]
    } else {
        inv_entries_bytes(es.drop_last()) + inv_entry_bytes(es.last())
    }
}

/// An `inv` payload announcing `es`: the varint count, then the entries.
pub open spec fn inv_bytes(es: Seq<InvEntryModel>) -> Seq<u8> {
    crate::encoding::varint_bytes(es.len() as u64) + inv_entries_bytes(es)
}

/// The count fits a varint and every hash is 32 bytes.
pub open spec fn inv_entries_wf(es: Seq<InvEntryModel>) -> bool {
    &&& es.len() <= u64::MAX
    &&& forall|k: int| 0 <= k < es.len() ==> (#[trigger] es[k]).hash.len() == 32
}

proof fn lemma_entries_bytes_layout(es: Seq<InvEntryModel>)
    requires
        forall|k: int| 0 <= k < es.len() ==> (#[trigger] es[k]).hash.len() == 32,
    ensures
        inv_entries_bytes(es).len() == 36 * es.len(),
        forall|k: int|
            0 <= k < es.len() ==> #[trigger] inv_entries_bytes(es).subrange(36 * k, 36 * k + 36)
                == inv_entry_bytes(es[k]),
    decreases es.len(),
{
    if es.len() > 0 {
        let r = es.drop_last();
        let last = es.last();
        assert(last == es[es.len() - 1]);
        assert forall|k: int| 0 <= k < r.len() implies (#[trigger] r[k]).hash.len() == 32 by {
            assert(r[k] == es[k]);
        }
        lemma_entries_bytes_layout(r);
        crate::encoding::lemma_le_bytes_len(last.inv_type as nat, 4);
        let pre = inv_entries_bytes(r);
        let b = inv_entries_bytes(es);
        assert(b == pre + inv_entry_bytes(last));
        assert forall|k: int| 0 <= k < es.len() implies #[trigger] b.subrange(36 * k, 36 * k + 36)
            == inv_entry_bytes(es[k]) by {
            if k < r.len() {
                assert(r[k] == es[k]);
                assert(b.subrange(36 * k, 36 * k + 36) =~= pre.subrange(36 * k, 36 * k + 36));
            } else {
                assert(b.subrange(36 * k, 36 * k + 36) =~= inv_entry_bytes(last));
            }
        }
    }
}

proof fn lemma_entries_fitting_all(len: int, off: int, count: nat)
    requires
        len - off >= 36 * count,
    ensures
        entries_fitting(len, off, count) == count,
    decreases count,
{
    if count > 0 {
        lemma_entries_fitting_all(len, off + 36, (count - 1) as nat);
    }
}

/// An `inv` payload written out reads back as the entries written, in
/// order, whatever their number: the count is the varint at the start, in
/// one, three, five or nine bytes, and the entries follow it.
pub proof fn lemma_inv_read_back(es: Seq<InvEntryModel>)
    requires
        inv_entries_wf(es),
    ensures
        inv_entries(inv_bytes(es)) == es,
{
    crate::encoding::lemma_pow256_values();
    let n = es.len() as u64;
    let body = inv_entries_bytes(es);
    let p = inv_bytes(es);
    assert(p =~= seq![] + crate::encoding::varint_bytes(n) + body);
    crate::encoding::lemma_varint_roundtrip(n, seq![], body);
    lemma_entries_bytes_layout(es);
    let v: int = crate::encoding::varint_bytes(n).len() as int;
    assert(inv_header(p) == (n, v));
    lemma_entries_fitting_all(p.len() as int, v, n as nat);
    assert forall|k: int| 0 <= k < es.len() implies #[trigger] inv_entry(p, k) == es[k] by {
        let off = v + 36 * k;
        assert(p.subrange(off, off + 36) =~= body.subrange(36 * k, 36 * k + 36));
        crate::encoding::lemma_le_roundtrip(es[k].inv_type as nat, 4);
        assert(p.subrange(off, off + 4) =~= crate::encoding::le_bytes(es[k].inv_type as nat, 4));
        let eb = inv_entry_bytes(es[k]);
        assert(body.subrange(36 * k, 36 * k + 36) == eb);
        assert(eb.subrange(4, 36) =~= es[k].hash);
        assert(p.subrange(off + 4, off + 36) =~= eb.subrange(4, 36));
    }
    assert(inv_entries(p) =~= es);
}

/// The transaction entries (type 1) of a list, in order.
pub open spec fn tx_entries(es: Seq<InvEntryModel>) -> Seq<InvEntryModel> {
    es.filter(|e: InvEntryModel| e.inv_type == 1)
}

proof fn lemma_tx_hashes_of_tx_entries(es: Seq<InvEntryModel>)
    requires
        forall|k: int| 0 <= k < es.len() ==> (#[trigger] es[k]).hash.len() == 32,
    ensures
        tx_hashes(es) == tx_entries(es).map_values(|e: InvEntryModel| e.hash),
        forall|j: int| 0 <= j < tx_entries(es).len() ==> (#[trigger] tx_entries(es)[j]).hash.len() == 32,
    decreases es.len(),
{
    reveal_with_fuel(Seq::filter, 2);
    if es.len() > 0 {
        let r = es.drop_last();
        assert forall|k: int| 0 <= k < r.len() implies (#[trigger] r[k]).hash.len() == 32 by {
            assert(r[k] == es[k]);
        }
        assert(es.last() == es[es.len() - 1]);
        lemma_tx_hashes_of_tx_entries(r);
        if es.last().inv_type == 1 {
            assert(tx_entries(es) == tx_entries(r).push(es.last()));
            assert(tx_entries(es).map_values(|e: InvEntryModel| e.hash) =~= tx_entries(r).map_values(
                |e: InvEntryModel| e.hash,
            ).push(es.last().hash));
        } else {
            assert(tx_entries(es) == tx_entries(r));
        }
    }
}

/// The answer to a mempool request is reported with the number of
/// transaction entries it lists, entries of other types not counted, both in
/// the snapshot and in its log line; the snapshot shows the first 50 of
/// them.
pub proof fn lemma_snapshot_counts(es: Seq<InvEntryModel>)
    requires
        inv_entries_wf(es),
    ensures
        mempool_of(inv_bytes(es)).total_count == tx_entries(es).len(),
        mempool_of(inv_bytes(es)).txids.len() == min_nat(tx_entries(es).len(), 50),
        mempool_text(inv_bytes(es)) == "MEMPOOL SNAPSHOT: "@ + decimal(tx_entries(es).len())
            + " unconfirmed transactions"@,
{
    lemma_inv_read_back(es);
    lemma_tx_hashes_of_tx_entries(es);
    es.lemma_filter_len(|e: InvEntryModel| e.inv_type == 1);
}

/// Each txid shown in a snapshot is the one that, requested, asks the peer
/// for that very transaction: the hash of the `i`-th transaction entry, as
/// announced, goes back in the `getdata`.
pub proof fn lemma_snapshot_txid_requests_its_tx(es: Seq<InvEntryModel>, i: int, s: crate::node::NodeState)
    requires
        inv_entries_wf(es),
        0 <= i < tx_entries(es).len(),
        i < 50,
        s.is_connected,
    ensures
        crate::command::tx_request_of(mempool_of(inv_bytes(es)).txids[i], s) matches Ok((payload, _))
            && payload == crate::command::getdata_payload(tx_entries(es)[i].hash),
{
    lemma_inv_read_back(es);
    lemma_tx_hashes_of_tx_entries(es);
    es.lemma_filter_len(|e: InvEntryModel| e.inv_type == 1);
    let h = tx_entries(es)[i].hash;
    assert(tx_hashes(inv_entries(inv_bytes(es)))[i] == h);
    crate::command::lemma_displayed_txid_requested(reversed(h), s);
    assert(reversed(reversed(h)) =~= h);
}

/// The log line of an announcement gives the number of entries announced,
/// quotes the first five written, and says how many more there are.
pub proof fn lemma_announcement_line(es: Seq<InvEntryModel>)
    requires
        inv_entries_wf(es),
    ensures
        announcement_text(inv_bytes(es)) == decimal(es.len()) + " item(s): "@ + join(
            Seq::new(min_nat(es.len(), 5), |k: int| quoted_item(es[k])),
            ", "@,
        ) + if es.len() > 5 {
            " (+"@ + decimal((es.len() - 5) as nat) + " more)"@
        } else {
            seq![]
        },
{
    lemma_inv_read_back(es);
    let p = inv_bytes(es);
    assert(inv_header(p).0 == es.len()) by {
        crate::encoding::lemma_varint_roundtrip(es.len() as u64, seq![], inv_entries_bytes(es));
        assert(p =~= seq![] + crate::encoding::varint_bytes(es.len() as u64) + inv_entries_bytes(es));
    }
    assert forall|k: int| 0 <= k < es.len() implies #[trigger] inv_entry(p, k) == es[k] by {
        assert(inv_entries(p)[k] == inv_entry(p, k));
    }
    assert(Seq::new(min_nat(inv_len(p), 5), |k: int| quoted_item(inv_entry(p, k))) =~= Seq::new(
        min_nat(es.len(), 5),
        |k: int| quoted_item(es[k]),
    ));
}

/// An announcement reports the first 100 entries written, in order: each
/// with the kind of its type and with the txid that, requested, asks the
/// peer for the hash as announced.
pub proof fn lemma_announced_item_requests_its_hash(es: Seq<InvEntryModel>, k: int, s: crate::node::NodeState)
    requires
        inv_entries_wf(es),
        0 <= k < es.len(),
        k < 100,
        s.is_connected,
    ensures
        announced_items(inv_bytes(es)).len() == min_nat(es.len(), 100),
        announced_items(inv_bytes(es))[k].item_type == inv_kind(es[k].inv_type),
        crate::command::tx_request_of(announced_items(inv_bytes(es))[k].hash, s) matches Ok((payload, _))
            && payload == crate::command::getdata_payload(es[k].hash),
{
    lemma_inv_read_back(es);
    let p = inv_bytes(es);
    assert(inv_entries(p)[k] == inv_entry(p, k));
    let h = es[k].hash;
    crate::command::lemma_displayed_txid_requested(reversed(h), s);
    assert(reversed(reversed(h)) =~= h);
}

} // verus!
