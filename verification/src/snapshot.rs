//! The state of a tracker as bytes, to be kept in a store between runs, and
//! back.
//!
//! A snapshot begins with four bytes that say what it is, the gap limit,
//! the two frontiers and the number of outputs. One record of 75 bytes
//! follows for each output. All numbers have their least significant byte
//! first.

use crate::encode::{
    le_bytes, le_value, lemma_le_value_bound, lemma_le_value_of_bytes, lemma_pow256_values,
    pow256, push_le, push_program, read_le,
};
use crate::keys::HARDENED;
use crate::primitives::{
    distinct_outpoints, lemma_program_of, program_of, total_value, Branch, OutPoint, Txid, Utxo,
    MAX_MONEY,
};
use crate::tracker::{TrackerView, UtxoTracker};
use crate::tx::outpoint_bytes;
use crate::utxo_set::{lemma_total_prefix, UtxoSet};
use vstd::prelude::*;

verus! {

/// The length of what stands in front of the records.
pub const HEADER_LEN: usize = 24;

/// The length of the record of one output.
pub const RECORD_LEN: usize = 75;

/// The four bytes that a snapshot begins with.
pub open spec fn magic() -> Seq<u8> {
    seq![0x57u8, 0x4cu8, 0x54u8, 0x01u8]
}

/// The byte that stands for a branch.
pub open spec fn branch_byte(branch: Branch) -> u8 {
    match branch {
        Branch::Receive => 0u8,
        Branch::Change => 1u8,
    }
}

/// The byte that stands for yes or no.
pub open spec fn flag_byte(flag: bool) -> u8 {
    if flag {
        1u8
    } else {
        0u8
    }
}

/// The number written for a height: the height, or 0 where there is none.
pub open spec fn height_number(height: Option<u32>) -> u32 {
    match height {
        Some(h) => h,
        None => 0u32,
    }
}

/// The record of one output: outpoint, value, branch, index, program,
/// whether it is confirmed, the height, and whether it is pending.
pub open spec fn record_bytes(u: Utxo) -> Seq<u8> {
    outpoint_bytes(u.outpoint) + le_bytes(u.value as nat, 8) + seq![branch_byte(u.branch)]
        + le_bytes(u.index as nat, 4) + u.program@ + seq![flag_byte(u.height is Some)] + le_bytes(
        height_number(u.height) as nat,
        4,
    ) + seq![flag_byte(u.pending_spend)]
}

/// The records of a sequence of outputs on end.
pub open spec fn records_bytes(s: Seq<Utxo>) -> Seq<u8>
    decreases s.len(),
{
    if s.len() == 0 {
        Seq::<u8>::empty()
    } else {
        records_bytes(s.drop_last()) + record_bytes(s.last())
    }
}

/// The snapshot of a tracker.
pub open spec fn tracker_bytes(v: TrackerView) -> Seq<u8> {
    magic() + le_bytes(v.gap_limit as nat, 4) + le_bytes(v.receive_frontier as nat, 4) + le_bytes(
        v.change_frontier as nat,
        4,
    ) + le_bytes(v.utxos.len(), 8) + records_bytes(v.utxos)
}

/// The output that a record stands for; `None` for bytes that are no
/// record: a branch or a flag that is neither 0 nor 1, or a height where
/// there is said to be none.
pub open spec fn decode_record(b: Seq<u8>) -> Option<Utxo> {
    if b.len() != RECORD_LEN || b[44] > 1 || b[69] > 1 || b[74] > 1 || (b[69] == 0 && le_value(
        b.subrange(70, 74),
    ) != 0) {
        None
    } else {
        Some(
            Utxo {
                outpoint: OutPoint {
                    txid: Txid {
                        lo: le_value(b.subrange(0, 16)) as u128,
                        hi: le_value(b.subrange(16, 32)) as u128,
                    },
                    vout: le_value(b.subrange(32, 36)) as u32,
                },
                value: le_value(b.subrange(36, 44)) as u64,
                branch: if b[44] == 0 {
                    Branch::Receive
                } else {
                    Branch::Change
                },
                index: le_value(b.subrange(45, 49)) as u32,
                program: program_of(b.subrange(49, 69)),
                height: if b[69] == 1 {
                    Some(le_value(b.subrange(70, 74)) as u32)
                } else {
                    None
                },
                pending_spend: b[74] == 1,
            },
        )
    }
}

/// The outputs that the first `count` records of `b` stand for.
pub open spec fn decode_records(b: Seq<u8>, count: nat) -> Option<Seq<Utxo>>
    decreases count,
{
    if count == 0 {
        Some(Seq::<Utxo>::empty())
    } else {
        match decode_records(b, (count - 1) as nat) {
            None => None,
            Some(before) => match decode_record(
                b.subrange(RECORD_LEN * (count - 1), RECORD_LEN * count),
            ) {
                None => None,
                Some(u) => Some(before.push(u)),
            },
        }
    }
}

/// The tracker that a snapshot stands for; `None` for bytes that are no
/// snapshot of a well-formed tracker.
pub open spec fn decode_tracker(b: Seq<u8>) -> Option<TrackerView> {
    if b.len() < HEADER_LEN || b.subrange(0, 4) != magic() {
        None
    } else {
        let gap_limit = le_value(b.subrange(4, 8));
        let receive = le_value(b.subrange(8, 12));
        let change = le_value(b.subrange(12, 16));
        let count = le_value(b.subrange(16, 24));
        if receive > HARDENED || change > HARDENED || b.len() != HEADER_LEN + RECORD_LEN * count {
            None
        } else {
            match decode_records(b.subrange(HEADER_LEN as int, b.len() as int), count) {
                None => None,
                Some(utxos) => if distinct_outpoints(utxos) && total_value(utxos) <= MAX_MONEY {
                    Some(
                        TrackerView {
                            utxos: utxos,
                            receive_frontier: receive as u32,
                            change_frontier: change as u32,
                            gap_limit: gap_limit as u32,
                        },
                    )
                } else {
                    None
                },
            }
        }
    }
}

/// A record is 75 bytes long, and its fields stand where they are read.
pub proof fn lemma_record_layout(u: Utxo)
    ensures
        record_bytes(u).len() == RECORD_LEN,
        record_bytes(u).subrange(0, 16) == le_bytes(u.outpoint.txid.lo as nat, 16),
        record_bytes(u).subrange(16, 32) == le_bytes(u.outpoint.txid.hi as nat, 16),
        record_bytes(u).subrange(32, 36) == le_bytes(u.outpoint.vout as nat, 4),
        record_bytes(u).subrange(36, 44) == le_bytes(u.value as nat, 8),
        record_bytes(u)[44] == branch_byte(u.branch),
        record_bytes(u).subrange(45, 49) == le_bytes(u.index as nat, 4),
        record_bytes(u).subrange(49, 69) == u.program@,
        record_bytes(u)[69] == flag_byte(u.height is Some),
        record_bytes(u).subrange(70, 74) == le_bytes(height_number(u.height) as nat, 4),
        record_bytes(u)[74] == flag_byte(u.pending_spend),
{
    lemma_pow256_values();
    lemma_le_value_of_bytes(u.outpoint.txid.lo as nat, 16);
    lemma_le_value_of_bytes(u.outpoint.txid.hi as nat, 16);
    lemma_le_value_of_bytes(u.outpoint.vout as nat, 4);
    lemma_le_value_of_bytes(u.value as nat, 8);
    lemma_le_value_of_bytes(u.index as nat, 4);
    lemma_le_value_of_bytes(height_number(u.height) as nat, 4);
    let r = record_bytes(u);
    assert(r.len() == RECORD_LEN);
    assert(r.subrange(0, 16) =~= le_bytes(u.outpoint.txid.lo as nat, 16));
    assert(r.subrange(16, 32) =~= le_bytes(u.outpoint.txid.hi as nat, 16));
    assert(r.subrange(32, 36) =~= le_bytes(u.outpoint.vout as nat, 4));
    assert(r.subrange(36, 44) =~= le_bytes(u.value as nat, 8));
    assert(r.subrange(45, 49) =~= le_bytes(u.index as nat, 4));
    assert(r.subrange(49, 69) =~= u.program@);
    assert(r.subrange(70, 74) =~= le_bytes(height_number(u.height) as nat, 4));
}

/// A record that is read back is the output that was written.
pub proof fn lemma_record_round_trip(u: Utxo)
    ensures
        decode_record(record_bytes(u)) == Some(u),
{
    lemma_record_layout(u);
    lemma_pow256_values();
    lemma_le_value_of_bytes(u.outpoint.txid.lo as nat, 16);
    lemma_le_value_of_bytes(u.outpoint.txid.hi as nat, 16);
    lemma_le_value_of_bytes(u.outpoint.vout as nat, 4);
    lemma_le_value_of_bytes(u.value as nat, 8);
    lemma_le_value_of_bytes(u.index as nat, 4);
    lemma_le_value_of_bytes(height_number(u.height) as nat, 4);
    lemma_program_of(u.program);
}

/// The records of `n` outputs are `75 * n` bytes long.
pub proof fn lemma_records_len(s: Seq<Utxo>)
    ensures
        records_bytes(s).len() == RECORD_LEN * s.len(),
    decreases s.len(),
{
    if s.len() > 0 {
        lemma_records_len(s.drop_last());
        lemma_record_layout(s.last());
    }
}

/// What the first `count` records stand for depends on their bytes alone.
proof fn lemma_decode_prefix(a: Seq<u8>, b: Seq<u8>, count: nat)
    requires
        RECORD_LEN * count <= a.len(),
        RECORD_LEN * count <= b.len(),
        a.subrange(0, RECORD_LEN * count) == b.subrange(0, RECORD_LEN * count),
    ensures
        decode_records(a, count) == decode_records(b, count),
    decreases count,
{
    if count > 0 {
        let m = (count - 1) as nat;
        let cut = RECORD_LEN * count;
        assert(a.subrange(0, RECORD_LEN * m) =~= a.subrange(0, cut).subrange(0, RECORD_LEN * m));
        assert(b.subrange(0, RECORD_LEN * m) =~= b.subrange(0, cut).subrange(0, RECORD_LEN * m));
        lemma_decode_prefix(a, b, m);
        assert(a.subrange(RECORD_LEN * m, cut) =~= a.subrange(0, cut).subrange(
            RECORD_LEN * m,
            cut,
        ));
        assert(b.subrange(RECORD_LEN * m, cut) =~= b.subrange(0, cut).subrange(
            RECORD_LEN * m,
            cut,
        ));
    }
}

/// Records that are read back are the outputs that were written.
pub proof fn lemma_records_round_trip(s: Seq<Utxo>)
    ensures
        decode_records(records_bytes(s), s.len()) == Some(s),
    decreases s.len(),
{
    if s.len() == 0 {
        assert(decode_records(records_bytes(s), 0).unwrap() =~= s);
    } else {
        let init = s.drop_last();
        let all = records_bytes(s);
        let head = records_bytes(init);
        lemma_records_len(init);
        lemma_records_len(s);
        lemma_record_layout(s.last());
        lemma_records_round_trip(init);
        assert(all.subrange(0, RECORD_LEN * init.len()) =~= head);
        assert(head.subrange(0, RECORD_LEN * init.len()) =~= head);
        lemma_decode_prefix(all, head, init.len());
        assert(all.subrange(RECORD_LEN * init.len(), RECORD_LEN * s.len()) =~= record_bytes(
            s.last(),
        ));
        lemma_record_round_trip(s.last());
        assert(init.push(s.last()) =~= s);
    }
}

/// A tracker that can be held.
pub open spec fn tracker_view_wf(v: TrackerView) -> bool {
    &&& distinct_outpoints(v.utxos)
    &&& total_value(v.utxos) <= MAX_MONEY
    &&& v.receive_frontier <= HARDENED
    &&& v.change_frontier <= HARDENED
    &&& v.utxos.len() <= usize::MAX
}

/// A snapshot that is read back is the tracker that was written: nothing
/// is lost between one run of a wallet and the next.
pub proof fn lemma_snapshot_round_trip(v: TrackerView)
    requires
        tracker_view_wf(v),
    ensures
        decode_tracker(tracker_bytes(v)) == Some(v),
{
    let b = tracker_bytes(v);
    lemma_pow256_values();
    lemma_le_value_of_bytes(v.gap_limit as nat, 4);
    lemma_le_value_of_bytes(v.receive_frontier as nat, 4);
    lemma_le_value_of_bytes(v.change_frontier as nat, 4);
    lemma_le_value_of_bytes(v.utxos.len(), 8);
    lemma_records_len(v.utxos);
    lemma_records_round_trip(v.utxos);
    assert(b.subrange(0, 4) =~= magic());
    assert(b.subrange(4, 8) =~= le_bytes(v.gap_limit as nat, 4));
    assert(b.subrange(8, 12) =~= le_bytes(v.receive_frontier as nat, 4));
    assert(b.subrange(12, 16) =~= le_bytes(v.change_frontier as nat, 4));
    assert(b.subrange(16, 24) =~= le_bytes(v.utxos.len(), 8));
    assert(b.subrange(HEADER_LEN as int, b.len() as int) =~= records_bytes(v.utxos));
}

/// Where the first records stand for outputs, so do fewer of them, and
/// for the first of those outputs.
proof fn lemma_decode_fewer(b: Seq<u8>, count: nat, n: nat)
    requires
        n <= count,
    ensures
        decode_records(b, count) matches Some(all) ==> all.len() == count && decode_records(b, n)
            == Some(all.subrange(0, n as int)),
    decreases count - n,
{
    if let Some(all) = decode_records(b, count) {
        lemma_decode_count(b, count);
        if n == count {
            assert(all.subrange(0, n as int) =~= all);
        } else {
            lemma_decode_fewer(b, (count - 1) as nat, n);
            let shorter = decode_records(b, (count - 1) as nat).unwrap();
            assert(shorter.subrange(0, n as int) =~= all.subrange(0, n as int));
        }
    }
}

proof fn lemma_decode_count(b: Seq<u8>, count: nat)
    ensures
        decode_records(b, count) matches Some(all) ==> all.len() == count,
    decreases count,
{
    if count > 0 {
        lemma_decode_count(b, (count - 1) as nat);
    }
}

/// Outputs that are not distinct, or worth too much, stay so when more
/// outputs follow them.
proof fn lemma_invalid_prefix(all: Seq<Utxo>, n: int)
    requires
        0 <= n <= all.len(),
        !(distinct_outpoints(all.subrange(0, n)) && total_value(all.subrange(0, n)) <= MAX_MONEY),
    ensures
        !(distinct_outpoints(all) && total_value(all) <= MAX_MONEY),
{
    lemma_total_prefix(all, n);
    if distinct_outpoints(all) {
        let part = all.subrange(0, n);
        assert forall|i: int, j: int|
            0 <= i < part.len() && 0 <= j < part.len() && i != j implies (#[trigger] part[i]).outpoint
            != (#[trigger] part[j]).outpoint by {
            assert(all[i].outpoint != all[j].outpoint);
        }
    }
}

fn push_record(out: &mut Vec<u8>, u: &Utxo)
    ensures
        final(out)@ == old(out)@ + record_bytes(*u),
{
    let ghost start = out@;
    push_le(out, u.outpoint.txid.lo, 16);
    push_le(out, u.outpoint.txid.hi, 16);
    push_le(out, u.outpoint.vout as u128, 4);
    push_le(out, u.value as u128, 8);
    out.push(
        match u.branch {
            Branch::Receive => 0u8,
            Branch::Change => 1u8,
        },
    );
    push_le(out, u.index as u128, 4);
    push_program(out, &u.program);
    match u.height {
        Some(h) => {
            out.push(1u8);
            push_le(out, h as u128, 4);
        },
        None => {
            out.push(0u8);
            push_le(out, 0u128, 4);
        },
    }
    out.push(
        if u.pending_spend {
            1u8
        } else {
            0u8
        },
    );
    assert(out@ =~= start + record_bytes(*u));
}

/// Writes the snapshot of a tracker.
pub fn snapshot(tracker: &UtxoTracker) -> (r: Vec<u8>)
    ensures
        r@ == tracker_bytes(tracker@),
{
    let mut out: Vec<u8> = Vec::new();
    out.push(0x57u8);
    out.push(0x4cu8);
    out.push(0x54u8);
    out.push(0x01u8);
    push_le(&mut out, tracker.gap_limit() as u128, 4);
    push_le(&mut out, tracker.frontier(Branch::Receive) as u128, 4);
    push_le(&mut out, tracker.frontier(Branch::Change) as u128, 4);
    let items = tracker.utxos().items();
    push_le(&mut out, items.len() as u128, 8);
    let ghost head = out@;
    let mut i: usize = 0;
    assert(out@ =~= head + records_bytes(items@.subrange(0, 0)));
    while i < items.len()
        invariant
            i <= items@.len(),
            out@ == head + records_bytes(items@.subrange(0, i as int)),
        decreases items@.len() - i,
    {
        push_record(&mut out, &items[i]);
        proof {
            let next = items@.subrange(0, i as int + 1);
            assert(next.drop_last() =~= items@.subrange(0, i as int));
            assert(next.last() == items@[i as int]);
            assert(out@ =~= head + records_bytes(next));
        }
        i += 1;
    }
    assert(items@.subrange(0, items@.len() as int) =~= items@);
    assert(out@ =~= tracker_bytes(tracker@));
    out
}

/// Reads the record that begins at `from`.
fn read_record(bytes: &Vec<u8>, from: usize) -> (r: Option<Utxo>)
    requires
        from + RECORD_LEN <= bytes@.len(),
    ensures
        r == decode_record(bytes@.subrange(from as int, from + RECORD_LEN)),
{
    let len = bytes.len();
    let ghost b = bytes@.subrange(from as int, from + RECORD_LEN);
    proof {
        lemma_pow256_values();
        assert(b.subrange(0, 16) =~= bytes@.subrange(from as int, from + 16));
        assert(b.subrange(16, 32) =~= bytes@.subrange(from + 16, from + 16 + 16));
        assert(b.subrange(32, 36) =~= bytes@.subrange(from + 32, from + 32 + 4));
        assert(b.subrange(36, 44) =~= bytes@.subrange(from + 36, from + 36 + 8));
        assert(b.subrange(45, 49) =~= bytes@.subrange(from + 45, from + 45 + 4));
        assert(b.subrange(70, 74) =~= bytes@.subrange(from + 70, from + 70 + 4));
        assert(b[44] == bytes@[from + 44] && b[69] == bytes@[from + 69] && b[74] == bytes@[from
            + 74]);
    }
    let branch_byte = bytes[from + 44];
    let confirmed = bytes[from + 69];
    let pending = bytes[from + 74];
    let height = read_le(bytes, from + 70, 4);
    if branch_byte > 1 || confirmed > 1 || pending > 1 || (confirmed == 0 && height != 0) {
        return None;
    }
    let mut program = [0u8; 20];
    let mut i: usize = 0;
    while i < 20
        invariant
            i <= 20,
            len == bytes@.len(),
            from + RECORD_LEN <= len,
            forall|j: int| 0 <= j < i ==> program@[j] == bytes@[from + 49 + j],
        decreases 20 - i,
    {
        program[i] = bytes[from + 49 + i];
        i += 1;
    }
    proof {
        assert(program@ =~= b.subrange(49, 69));
        lemma_program_of(program);
    }
    Some(
        Utxo {
            outpoint: OutPoint {
                txid: Txid { lo: read_le(bytes, from, 16), hi: read_le(bytes, from + 16, 16) },
                vout: read_le(bytes, from + 32, 4) as u32,
            },
            value: read_le(bytes, from + 36, 8) as u64,
            branch: if branch_byte == 0 {
                Branch::Receive
            } else {
                Branch::Change
            },
            index: read_le(bytes, from + 45, 4) as u32,
            program,
            height: if confirmed == 1 {
                Some(height as u32)
            } else {
                None
            },
            pending_spend: pending == 1,
        },
    )
}

/// Reads a snapshot back into a tracker. Bytes that are no snapshot of a
/// well-formed tracker give `None`.
pub fn restore(bytes: &Vec<u8>) -> (r: Option<UtxoTracker>)
    ensures
        match r {
            Some(t) => t.wf() && decode_tracker(bytes@) == Some(t@),
            None => decode_tracker(bytes@) is None,
        },
{
    let len = bytes.len();
    if len < HEADER_LEN {
        return None;
    }
    let known = bytes[0] == 0x57 && bytes[1] == 0x4c && bytes[2] == 0x54 && bytes[3] == 0x01;
    proof {
        let head = bytes@.subrange(0, 4);
        if known {
            assert(head =~= magic());
        } else {
            assert(head[0] == bytes@[0] && head[1] == bytes@[1] && head[2] == bytes@[2] && head[3]
                == bytes@[3]);
            assert(magic()[0] == 0x57 && magic()[1] == 0x4c && magic()[2] == 0x54 && magic()[3]
                == 0x01);
        }
        lemma_pow256_values();
    }
    if !known {
        return None;
    }
    let gap_limit = read_le(bytes, 4, 4);
    let receive = read_le(bytes, 8, 4);
    let change = read_le(bytes, 12, 4);
    let count = read_le(bytes, 16, 8);
    if receive > HARDENED as u128 || change > HARDENED as u128 {
        return None;
    }
    let body = len - HEADER_LEN;
    if body % RECORD_LEN != 0 || (body / RECORD_LEN) as u128 != count {
        return None;
    }
    let n = body / RECORD_LEN;
    let ghost region = bytes@.subrange(HEADER_LEN as int, len as int);
    let mut set = UtxoSet::new();
    let mut i: usize = 0;
    while i < n
        invariant
            i <= n,
            len == bytes@.len(),
            len == HEADER_LEN + RECORD_LEN * n,
            region == bytes@.subrange(HEADER_LEN as int, len as int),
            set.wf(),
            decode_records(region, i as nat) == Some(set@),
        decreases n - i,
    {
        let from = HEADER_LEN + RECORD_LEN * i;
        proof {
            assert(region.subrange(RECORD_LEN * i, RECORD_LEN * (i + 1)) =~= bytes@.subrange(
                from as int,
                from + RECORD_LEN,
            ));
        }
        let u = match read_record(bytes, from) {
            None => {
                proof {
                    lemma_decode_fewer(region, n as nat, (i + 1) as nat);
                }
                return None;
            },
            Some(u) => u,
        };
        let ghost before = set@;
        match set.insert(u) {
            Ok(()) => {},
            Err(_) => {
                proof {
                    lemma_decode_fewer(region, n as nat, (i + 1) as nat);
                    if let Some(all) = decode_records(region, n as nat) {
                        assert(all.subrange(0, i as int + 1) == before.push(u));
                        let part = before.push(u);
                        assert(part.drop_last() =~= before);
                        if crate::primitives::has_outpoint(before, u.outpoint) {
                            let k = choose|k: int|
                                0 <= k < before.len() && (#[trigger] before[k]).outpoint
                                    == u.outpoint;
                            assert(part[k].outpoint == part[before.len() as int].outpoint);
                        }
                        lemma_invalid_prefix(all, i as int + 1);
                    }
                }
                return None;
            },
        }
        i += 1;
    }
    UtxoTracker::from_parts(set, receive as u32, change as u32, gap_limit as u32)
}

} // verus!
