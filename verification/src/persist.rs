//! Snapshot and restore of the proposal-detail cache.
//!
//! Only the expensive part of each entry survives a restart: the
//! reconstructed history log.  The proposal snapshot and the freshness
//! stamp are cheap to refetch and are deliberately not persisted; a
//! restored entry carries a placeholder proposal and a stamp old enough to
//! be stale at once, so the first access refetches the proposal while
//! keeping the history.
//!
//! The layout is length-prefixed throughout: a 64-bit little-endian count
//! of entries, then per entry the DAO identifier (64-bit byte length, then
//! UTF-8 bytes), the proposal id, and the history log (64-bit record
//! count, then per record three strings and two 64-bit numbers).

use vstd::bytes::{spec_u64_from_le_bytes, spec_u64_to_le_bytes};
use vstd::prelude::*;
use vstd::slice::slice_subrange;
use vstd::utf8::{decode_utf8, encode_utf8, valid_utf8};

use crate::cache::{log_wf, DetailKey, ProposalDetailCache};
use crate::kvmap::AssocMap;
use crate::types::{CachedProposal, Proposal, TxMetadata};

verus! {

/// The mathematical content of one persisted activity record.
pub struct TxModel {
    pub signer: Seq<char>,
    pub predecessor: Seq<char>,
    pub receipt: Seq<char>,
    pub block_height: u64,
    pub timestamp: u64,
}

pub open spec fn tx_model(t: TxMetadata) -> TxModel {
    TxModel {
        signer: t.signer_id@,
        predecessor: t.predecessor_id@,
        receipt: t.reciept_hash@,
        block_height: t.block_height,
        timestamp: t.timestamp,
    }
}

pub open spec fn log_model(s: Seq<TxMetadata>) -> Seq<TxModel> {
    s.map_values(|t: TxMetadata| tx_model(t))
}

/// The mathematical content of one persisted entry: the DAO identifier,
/// the proposal id, and the history log.
pub struct EntryModel {
    pub dao: Seq<char>,
    pub proposal_id: u64,
    pub log: Seq<TxModel>,
}

/// [`log_wf`], stated of a log's model.
pub open spec fn log_model_wf(ls: Seq<TxModel>) -> bool {
    forall|i: int, j: int|
        0 <= i < j < ls.len() ==> #[trigger] ls[i].block_height <= #[trigger] ls[j].block_height
            && !(ls[i].block_height == ls[j].block_height && ls[i].receipt == ls[j].receipt)
}

pub proof fn lemma_log_wf_model(s: Seq<TxMetadata>)
    ensures
        log_wf(s) == log_model_wf(log_model(s)),
{
    if log_wf(s) {
        assert forall|i: int, j: int| 0 <= i < j < log_model(s).len()
            implies #[trigger] log_model(s)[i].block_height
            <= #[trigger] log_model(s)[j].block_height && !(log_model(s)[i].block_height
            == log_model(s)[j].block_height && log_model(s)[i].receipt
            == log_model(s)[j].receipt) by {
            assert(s[i].block_height <= s[j].block_height && !(s[i].block_height
                == s[j].block_height && s[i].reciept_hash@ == s[j].reciept_hash@));
        }
    }
    if log_model_wf(log_model(s)) {
        assert forall|i: int, j: int| 0 <= i < j < s.len() implies #[trigger] s[i].block_height
            <= #[trigger] s[j].block_height && !(s[i].block_height == s[j].block_height
            && s[i].reciept_hash@ == s[j].reciept_hash@) by {
            assert(log_model(s)[i].block_height == s[i].block_height);
            assert(log_model(s)[j].block_height == s[j].block_height);
            assert(log_model(s)[i].receipt == s[i].reciept_hash@);
            assert(log_model(s)[j].receipt == s[j].reciept_hash@);
        }
    }
}

// ---------------------------------------------------------------------
// Encoding, as spec functions.
// ---------------------------------------------------------------------

pub open spec fn enc_str(s: Seq<char>) -> Seq<u8> {
    spec_u64_to_le_bytes(encode_utf8(s).len() as u64) + encode_utf8(s)
}

pub open spec fn enc_record(t: TxModel) -> Seq<u8> {
    enc_str(t.signer) + enc_str(t.predecessor) + enc_str(t.receipt) + spec_u64_to_le_bytes(
        t.block_height,
    ) + spec_u64_to_le_bytes(t.timestamp)
}

pub open spec fn enc_records(ls: Seq<TxModel>) -> Seq<u8>
    decreases ls.len(),
{
    if ls.len() == 0 {
        Seq::empty()
    } else {
        enc_record(ls.first()) + enc_records(ls.drop_first())
    }
}

pub open spec fn enc_log(ls: Seq<TxModel>) -> Seq<u8> {
    spec_u64_to_le_bytes(ls.len() as u64) + enc_records(ls)
}

pub open spec fn enc_entry(m: EntryModel) -> Seq<u8> {
    enc_str(m.dao) + spec_u64_to_le_bytes(m.proposal_id) + enc_log(m.log)
}

pub open spec fn enc_entry_seq(ms: Seq<EntryModel>) -> Seq<u8>
    decreases ms.len(),
{
    if ms.len() == 0 {
        Seq::empty()
    } else {
        enc_entry(ms.first()) + enc_entry_seq(ms.drop_first())
    }
}

/// The whole snapshot blob of a sequence of entries.
pub open spec fn enc_entries(ms: Seq<EntryModel>) -> Seq<u8> {
    spec_u64_to_le_bytes(ms.len() as u64) + enc_entry_seq(ms)
}

/// The machine bounds under which a model can be encoded faithfully:
/// every count and byte length fits in 64 bits, and every log is well
/// formed (a snapshot is only ever taken of a well-formed cache).
pub open spec fn record_ok(t: TxModel) -> bool {
    encode_utf8(t.signer).len() <= u64::MAX && encode_utf8(t.predecessor).len() <= u64::MAX
        && encode_utf8(t.receipt).len() <= u64::MAX
}

pub open spec fn entry_ok(m: EntryModel) -> bool {
    encode_utf8(m.dao).len() <= u64::MAX && m.log.len() <= u64::MAX && log_model_wf(m.log)
        && forall|i: int| 0 <= i < m.log.len() ==> record_ok(#[trigger] m.log[i])
}

pub open spec fn entries_ok(ms: Seq<EntryModel>) -> bool {
    ms.len() <= u64::MAX && forall|i: int| 0 <= i < ms.len() ==> entry_ok(#[trigger] ms[i])
}

// ---------------------------------------------------------------------
// Decoding, as spec functions.
// ---------------------------------------------------------------------

pub open spec fn dec_u64(b: Seq<u8>, pos: int) -> Option<(u64, int)> {
    if 0 <= pos && pos + 8 <= b.len() {
        Some((spec_u64_from_le_bytes(b.subrange(pos, pos + 8)), pos + 8))
    } else {
        None
    }
}

pub open spec fn dec_str(b: Seq<u8>, pos: int) -> Option<(Seq<char>, int)> {
    match dec_u64(b, pos) {
        Some((len, p)) => if p + len <= b.len() && valid_utf8(b.subrange(p, p + len)) {
            Some((decode_utf8(b.subrange(p, p + len)), p + len as int))
        } else {
            None
        },
        None => None,
    }
}

pub open spec fn dec_record(b: Seq<u8>, pos: int) -> Option<(TxModel, int)> {
    match dec_str(b, pos) {
        Some((signer, p1)) => match dec_str(b, p1) {
            Some((predecessor, p2)) => match dec_str(b, p2) {
                Some((receipt, p3)) => match dec_u64(b, p3) {
                    Some((block_height, p4)) => match dec_u64(b, p4) {
                        Some((timestamp, p5)) => Some(
                            (TxModel { signer, predecessor, receipt, block_height, timestamp }, p5),
                        ),
                        None => None,
                    },
                    None => None,
                },
                None => None,
            },
            None => None,
        },
        None => None,
    }
}

pub open spec fn dec_records(b: Seq<u8>, pos: int, count: int) -> Option<(Seq<TxModel>, int)>
    decreases count,
{
    if count <= 0 {
        Some((Seq::empty(), pos))
    } else {
        match dec_record(b, pos) {
            Some((t, p)) => match dec_records(b, p, count - 1) {
                Some((ls, end)) => Some((seq![t] + ls, end)),
                None => None,
            },
            None => None,
        }
    }
}

pub open spec fn dec_log(b: Seq<u8>, pos: int) -> Option<(Seq<TxModel>, int)> {
    match dec_u64(b, pos) {
        Some((count, p)) => match dec_records(b, p, count as int) {
            Some((ls, end)) => if log_model_wf(ls) {
                Some((ls, end))
            } else {
                None
            },
            None => None,
        },
        None => None,
    }
}

pub open spec fn dec_entry(b: Seq<u8>, pos: int) -> Option<(EntryModel, int)> {
    match dec_str(b, pos) {
        Some((dao, p1)) => match dec_u64(b, p1) {
            Some((proposal_id, p2)) => match dec_log(b, p2) {
                Some((log, p3)) => Some((EntryModel { dao, proposal_id, log }, p3)),
                None => None,
            },
            None => None,
        },
        None => None,
    }
}

pub open spec fn dec_entry_seq(b: Seq<u8>, pos: int, count: int) -> Option<(Seq<EntryModel>, int)>
    decreases count,
{
    if count <= 0 {
        Some((Seq::empty(), pos))
    } else {
        match dec_entry(b, pos) {
            Some((m, p)) => match dec_entry_seq(b, p, count - 1) {
                Some((ms, end)) => Some((seq![m] + ms, end)),
                None => None,
            },
            None => None,
        }
    }
}

/// Decode a whole snapshot blob; trailing bytes make it invalid.
pub open spec fn dec_entries(b: Seq<u8>) -> Option<Seq<EntryModel>> {
    match dec_u64(b, 0) {
        Some((count, p)) => match dec_entry_seq(b, p, count as int) {
            Some((ms, end)) => if end == b.len() {
                Some(ms)
            } else {
                None
            },
            None => None,
        },
        None => None,
    }
}

// ---------------------------------------------------------------------
// Round trip: decoding what was encoded yields the original models.
// ---------------------------------------------------------------------

/// `enc` is what `b` holds at `pos`.
pub open spec fn prefix_match(b: Seq<u8>, pos: int, enc: Seq<u8>) -> bool {
    0 <= pos && pos + enc.len() <= b.len() && b.subrange(pos, pos + enc.len()) == enc
}

/// A prefix match of a concatenation splits into matches of the parts.
proof fn lemma_prefix_split(b: Seq<u8>, pos: int, x: Seq<u8>, y: Seq<u8>)
    requires
        prefix_match(b, pos, x + y),
    ensures
        prefix_match(b, pos, x),
        prefix_match(b, pos + x.len(), y),
{
    assert(b.subrange(pos, pos + x.len()) =~= (x + y).subrange(0, x.len() as int));
    assert((x + y).subrange(0, x.len() as int) =~= x);
    assert(b.subrange(pos + x.len(), pos + x.len() + y.len()) =~= (x + y).subrange(
        x.len() as int,
        (x + y).len() as int,
    ));
    assert((x + y).subrange(x.len() as int, (x + y).len() as int) =~= y);
}

proof fn lemma_dec_u64(b: Seq<u8>, pos: int, x: u64)
    requires
        prefix_match(b, pos, spec_u64_to_le_bytes(x)),
    ensures
        dec_u64(b, pos) == Some((x, pos + 8)),
{
    vstd::bytes::lemma_auto_spec_u64_to_from_le_bytes();
}

proof fn lemma_dec_str(b: Seq<u8>, pos: int, s: Seq<char>)
    requires
        prefix_match(b, pos, enc_str(s)),
        encode_utf8(s).len() <= u64::MAX,
    ensures
        dec_str(b, pos) == Some((s, pos + enc_str(s).len())),
{
    vstd::bytes::lemma_auto_spec_u64_to_from_le_bytes();
    let bytes = encode_utf8(s);
    let lenb = spec_u64_to_le_bytes(bytes.len() as u64);
    lemma_prefix_split(b, pos, lenb, bytes);
    lemma_dec_u64(b, pos, bytes.len() as u64);
    assert(b.subrange(pos + 8, pos + 8 + bytes.len()) == bytes);
    vstd::utf8::encode_utf8_valid_utf8(s);
    vstd::utf8::encode_utf8_decode_utf8(s);
}

proof fn lemma_dec_record(b: Seq<u8>, pos: int, t: TxModel)
    requires
        prefix_match(b, pos, enc_record(t)),
        record_ok(t),
    ensures
        dec_record(b, pos) == Some((t, pos + enc_record(t).len())),
{
    vstd::bytes::lemma_auto_spec_u64_to_from_le_bytes();
    let a1 = enc_str(t.signer);
    let a2 = enc_str(t.predecessor);
    let a3 = enc_str(t.receipt);
    let a4 = spec_u64_to_le_bytes(t.block_height);
    let a5 = spec_u64_to_le_bytes(t.timestamp);
    assert(enc_record(t) =~= a1 + (a2 + (a3 + (a4 + a5)))) by {
        assert(enc_record(t) == a1 + a2 + a3 + a4 + a5);
        assert(a1 + a2 + a3 + a4 + a5 =~= a1 + (a2 + (a3 + (a4 + a5))));
    }
    lemma_prefix_split(b, pos, a1, a2 + (a3 + (a4 + a5)));
    lemma_dec_str(b, pos, t.signer);
    let p1 = pos + a1.len();
    lemma_prefix_split(b, p1, a2, a3 + (a4 + a5));
    lemma_dec_str(b, p1, t.predecessor);
    let p2 = p1 + a2.len();
    lemma_prefix_split(b, p2, a3, a4 + a5);
    lemma_dec_str(b, p2, t.receipt);
    let p3 = p2 + a3.len();
    lemma_prefix_split(b, p3, a4, a5);
    lemma_dec_u64(b, p3, t.block_height);
    let p4 = p3 + a4.len();
    lemma_dec_u64(b, p4, t.timestamp);
}

proof fn lemma_dec_records(b: Seq<u8>, pos: int, ls: Seq<TxModel>)
    requires
        prefix_match(b, pos, enc_records(ls)),
        forall|i: int| 0 <= i < ls.len() ==> record_ok(#[trigger] ls[i]),
    ensures
        dec_records(b, pos, ls.len() as int) == Some((ls, pos + enc_records(ls).len())),
    decreases ls.len(),
{
    vstd::bytes::lemma_auto_spec_u64_to_from_le_bytes();
    if ls.len() > 0 {
        lemma_prefix_split(b, pos, enc_record(ls.first()), enc_records(ls.drop_first()));
        lemma_dec_record(b, pos, ls.first());
        let p = pos + enc_record(ls.first()).len();
        assert(forall|i: int|
            0 <= i < ls.drop_first().len() ==> record_ok(#[trigger] ls.drop_first()[i]));
        lemma_dec_records(b, p, ls.drop_first());
        assert(seq![ls.first()] + ls.drop_first() =~= ls);
    }
}

proof fn lemma_dec_log(b: Seq<u8>, pos: int, ls: Seq<TxModel>)
    requires
        prefix_match(b, pos, enc_log(ls)),
        ls.len() <= u64::MAX,
        log_model_wf(ls),
        forall|i: int| 0 <= i < ls.len() ==> record_ok(#[trigger] ls[i]),
    ensures
        dec_log(b, pos) == Some((ls, pos + enc_log(ls).len())),
{
    vstd::bytes::lemma_auto_spec_u64_to_from_le_bytes();
    lemma_prefix_split(b, pos, spec_u64_to_le_bytes(ls.len() as u64), enc_records(ls));
    lemma_dec_u64(b, pos, ls.len() as u64);
    lemma_dec_records(b, pos + 8, ls);
}

proof fn lemma_dec_entry(b: Seq<u8>, pos: int, m: EntryModel)
    requires
        prefix_match(b, pos, enc_entry(m)),
        entry_ok(m),
    ensures
        dec_entry(b, pos) == Some((m, pos + enc_entry(m).len())),
{
    vstd::bytes::lemma_auto_spec_u64_to_from_le_bytes();
    let a1 = enc_str(m.dao);
    let a2 = spec_u64_to_le_bytes(m.proposal_id);
    let a3 = enc_log(m.log);
    assert(enc_entry(m) =~= a1 + (a2 + a3)) by {
        assert(enc_entry(m) == a1 + a2 + a3);
        assert(a1 + a2 + a3 =~= a1 + (a2 + a3));
    }
    lemma_prefix_split(b, pos, a1, a2 + a3);
    lemma_dec_str(b, pos, m.dao);
    let p1 = pos + a1.len();
    lemma_prefix_split(b, p1, a2, a3);
    lemma_dec_u64(b, p1, m.proposal_id);
    lemma_dec_log(b, p1 + 8, m.log);
}

proof fn lemma_dec_entry_seq(b: Seq<u8>, pos: int, ms: Seq<EntryModel>)
    requires
        prefix_match(b, pos, enc_entry_seq(ms)),
        forall|i: int| 0 <= i < ms.len() ==> entry_ok(#[trigger] ms[i]),
    ensures
        dec_entry_seq(b, pos, ms.len() as int) == Some((ms, pos + enc_entry_seq(ms).len())),
    decreases ms.len(),
{
    vstd::bytes::lemma_auto_spec_u64_to_from_le_bytes();
    if ms.len() > 0 {
        lemma_prefix_split(b, pos, enc_entry(ms.first()), enc_entry_seq(ms.drop_first()));
        lemma_dec_entry(b, pos, ms.first());
        let p = pos + enc_entry(ms.first()).len();
        assert(forall|i: int|
            0 <= i < ms.drop_first().len() ==> entry_ok(#[trigger] ms.drop_first()[i]));
        lemma_dec_entry_seq(b, p, ms.drop_first());
        assert(seq![ms.first()] + ms.drop_first() =~= ms);
    }
}

/// Round-trip persistence: decoding an encoded snapshot yields back every
/// entry's history log, byte for byte and record for record.
pub proof fn lemma_snapshot_round_trip(ms: Seq<EntryModel>)
    requires
        entries_ok(ms),
    ensures
        dec_entries(enc_entries(ms)) == Some(ms),
{
    vstd::bytes::lemma_auto_spec_u64_to_from_le_bytes();
    let b = enc_entries(ms);
    assert(b.subrange(0, b.len() as int) =~= b);
    lemma_prefix_split(b, 0, spec_u64_to_le_bytes(ms.len() as u64), enc_entry_seq(ms));
    lemma_dec_u64(b, 0, ms.len() as u64);
    lemma_dec_entry_seq(b, 8, ms);
}


// ---------------------------------------------------------------------
// Taking a snapshot.
// ---------------------------------------------------------------------

pub open spec fn entry_model_of(e: (DetailKey, CachedProposal)) -> EntryModel {
    EntryModel { dao: e.0.dao_id@, proposal_id: e.0.proposal_id, log: log_model(e.1.txs_log@) }
}

/// The models of everything a cache holds, in entry order.
pub open spec fn cache_models(c: &ProposalDetailCache) -> Seq<EntryModel> {
    c.entries_seq().map_values(|e: (DetailKey, CachedProposal)| entry_model_of(e))
}

fn encode_u64_into(out: &mut Vec<u8>, x: u64)
    ensures
        final(out)@ =~= old(out)@ + spec_u64_to_le_bytes(x),
{
    let mut b = vstd::bytes::u64_to_le_bytes(x);
    out.append(&mut b);
}

fn encode_str_into(out: &mut Vec<u8>, s: &String)
    ensures
        final(out)@ =~= old(out)@ + enc_str(s@),
{
    let mut bytes = s.as_str().as_bytes_vec();
    let len = bytes.len() as u64;
    encode_u64_into(out, len);
    out.append(&mut bytes);
}

fn encode_record_into(out: &mut Vec<u8>, t: &TxMetadata)
    ensures
        final(out)@ =~= old(out)@ + enc_record(tx_model(*t)),
{
    encode_str_into(out, &t.signer_id);
    encode_str_into(out, &t.predecessor_id);
    encode_str_into(out, &t.reciept_hash);
    encode_u64_into(out, t.block_height);
    encode_u64_into(out, t.timestamp);
}

proof fn lemma_enc_records_push(ls: Seq<TxModel>, t: TxModel)
    ensures
        enc_records(ls.push(t)) =~= enc_records(ls) + enc_record(t),
    decreases ls.len(),
{
    if ls.len() == 0 {
        assert(ls.push(t).first() == t);
        assert(ls.push(t).drop_first() =~= Seq::<TxModel>::empty());
        assert(enc_records(Seq::<TxModel>::empty()) =~= Seq::<u8>::empty());
    } else {
        assert(ls.push(t).first() == ls.first());
        assert(ls.push(t).drop_first() =~= ls.drop_first().push(t));
        lemma_enc_records_push(ls.drop_first(), t);
    }
}

proof fn lemma_enc_entry_seq_push(ms: Seq<EntryModel>, m: EntryModel)
    ensures
        enc_entry_seq(ms.push(m)) =~= enc_entry_seq(ms) + enc_entry(m),
    decreases ms.len(),
{
    if ms.len() == 0 {
        assert(ms.push(m).first() == m);
        assert(ms.push(m).drop_first() =~= Seq::<EntryModel>::empty());
        assert(enc_entry_seq(Seq::<EntryModel>::empty()) =~= Seq::<u8>::empty());
    } else {
        assert(ms.push(m).first() == ms.first());
        assert(ms.push(m).drop_first() =~= ms.drop_first().push(m));
        lemma_enc_entry_seq_push(ms.drop_first(), m);
    }
}

fn encode_log_into(out: &mut Vec<u8>, log: &Vec<TxMetadata>)
    ensures
        final(out)@ =~= old(out)@ + enc_log(log_model(log@)),
{
    encode_u64_into(out, log.len() as u64);
    let n = log.len();
    let mut i: usize = 0;
    while i < n
        invariant
            n == log@.len(),
            i <= n,
            out@ =~= old(out)@ + spec_u64_to_le_bytes(log@.len() as u64) + enc_records(
                log_model(log@.subrange(0, i as int)),
            ),
        decreases n - i,
    {
        encode_record_into(out, &log[i]);
        proof {
            let pre = log_model(log@.subrange(0, i as int));
            let post = log_model(log@.subrange(0, i as int + 1));
            assert(post =~= pre.push(tx_model(log@[i as int])));
            lemma_enc_records_push(pre, tx_model(log@[i as int]));
        }
        i += 1;
    }
    proof {
        assert(log@.subrange(0, n as int) =~= log@);
        assert(log_model(log@).len() == log@.len());
    }
}

/// Serialize the cache for persistence: only each entry's key and history
/// log are written; the proposal snapshot and the freshness stamp are
/// disposable and stay behind.
pub fn snapshot_bytes(cache: &ProposalDetailCache) -> (r: Vec<u8>)
    ensures
        r@ =~= enc_entries(cache_models(cache)),
{
    let ghost models = cache_models(cache);
    let n = cache.entry_count();
    let mut out: Vec<u8> = Vec::new();
    encode_u64_into(&mut out, n as u64);
    let mut i: usize = 0;
    proof {
        assert(models.take(0) =~= Seq::<EntryModel>::empty());
        assert(models.len() == n);
    }
    while i < n
        invariant
            n == cache.entries_seq().len(),
            models == cache_models(cache),
            models.len() == n,
            i <= n,
            out@ =~= spec_u64_to_le_bytes(n as u64) + enc_entry_seq(models.take(i as int)),
        decreases n - i,
    {
        let e = cache.entry_at(i);
        encode_str_into(&mut out, &e.0.dao_id);
        encode_u64_into(&mut out, e.0.proposal_id);
        encode_log_into(&mut out, &e.1.txs_log);
        proof {
            assert(models[i as int] == entry_model_of(cache.entries_seq()[i as int]));
            assert(models.take(i as int + 1) =~= models.take(i as int).push(models[i as int]));
            lemma_enc_entry_seq_push(models.take(i as int), models[i as int]);
        }
        i += 1;
    }
    proof {
        assert(models.take(n as int) =~= models);
    }
    out
}

// ---------------------------------------------------------------------
// Restoring from a snapshot.
// ---------------------------------------------------------------------

/// Relies on String::from_utf8: it returns the string that the bytes spell
/// exactly when they are valid UTF-8, and refuses them otherwise.
#[verifier::external_body]
fn bytes_to_string(v: Vec<u8>) -> (r: Option<String>)
    ensures
        match r {
            Some(s) => valid_utf8(v@) && s@ == decode_utf8(v@),
            None => !valid_utf8(v@),
        },
{
    String::from_utf8(v).ok()
}

fn read_u64(bytes: &Vec<u8>, pos: usize) -> (r: Option<(u64, usize)>)
    ensures
        match r {
            Some(v) => dec_u64(bytes@, pos as int) == Some((v.0, v.1 as int)) && v.1
                <= bytes@.len(),
            None => dec_u64(bytes@, pos as int) is None,
        },
{
    if pos > bytes.len() || bytes.len() - pos < 8 {
        return None;
    }
    let s = slice_subrange(bytes.as_slice(), pos, pos + 8);
    let x = vstd::bytes::u64_from_le_bytes(s);
    Some((x, pos + 8))
}

fn read_string(bytes: &Vec<u8>, pos: usize) -> (r: Option<(String, usize)>)
    ensures
        match r {
            Some(v) => dec_str(bytes@, pos as int) == Some((v.0@, v.1 as int)) && v.1
                <= bytes@.len(),
            None => dec_str(bytes@, pos as int) is None,
        },
{
    let (len, p) = match read_u64(bytes, pos) {
        Some(v) => v,
        None => {
            return None;
        },
    };
    if len > (bytes.len() - p) as u64 {
        return None;
    }
    let len_us = len as usize;
    let s = slice_subrange(bytes.as_slice(), p, p + len_us);
    let v = vstd::slice::slice_to_vec(s);
    match bytes_to_string(v) {
        Some(st) => Some((st, p + len_us)),
        None => None,
    }
}

fn read_record(bytes: &Vec<u8>, pos: usize) -> (r: Option<(TxMetadata, usize)>)
    ensures
        match r {
            Some(v) => dec_record(bytes@, pos as int) == Some((tx_model(v.0), v.1 as int)) && v.1
                <= bytes@.len(),
            None => dec_record(bytes@, pos as int) is None,
        },
{
    let (signer_id, p1) = match read_string(bytes, pos) {
        Some(v) => v,
        None => {
            return None;
        },
    };
    let (predecessor_id, p2) = match read_string(bytes, p1) {
        Some(v) => v,
        None => {
            return None;
        },
    };
    let (reciept_hash, p3) = match read_string(bytes, p2) {
        Some(v) => v,
        None => {
            return None;
        },
    };
    let (block_height, p4) = match read_u64(bytes, p3) {
        Some(v) => v,
        None => {
            return None;
        },
    };
    let (timestamp, p5) = match read_u64(bytes, p4) {
        Some(v) => v,
        None => {
            return None;
        },
    };
    Some((TxMetadata { signer_id, predecessor_id, reciept_hash, block_height, timestamp }, p5))
}

/// What remains of a record-list decode after some records were consumed.
pub open spec fn rec_prepend(prefix: Seq<TxModel>, o: Option<(Seq<TxModel>, int)>) -> Option<
    (Seq<TxModel>, int),
> {
    match o {
        Some(v) => Some((prefix + v.0, v.1)),
        None => None,
    }
}

fn read_log(bytes: &Vec<u8>, pos: usize) -> (r: Option<(Vec<TxMetadata>, usize)>)
    ensures
        match r {
            Some(v) => dec_log(bytes@, pos as int) == Some((log_model(v.0@), v.1 as int)) && v.1
                <= bytes@.len() && log_wf(v.0@),
            None => dec_log(bytes@, pos as int) is None,
        },
{
    let (count, p0) = match read_u64(bytes, pos) {
        Some(v) => v,
        None => {
            return None;
        },
    };
    let mut acc: Vec<TxMetadata> = Vec::new();
    let mut p = p0;
    let mut i: u64 = 0;
    proof {
        assert(log_model(acc@) =~= Seq::<TxModel>::empty());
        assert(rec_prepend(log_model(acc@), dec_records(bytes@, p as int, (count - i) as int))
            == dec_records(bytes@, p0 as int, count as int));
    }
    while i < count
        invariant
            i <= count,
            p <= bytes@.len(),
            dec_u64(bytes@, pos as int) == Some((count, p0 as int)),
            dec_records(bytes@, p0 as int, count as int) == rec_prepend(
                log_model(acc@),
                dec_records(bytes@, p as int, (count - i) as int),
            ),
        decreases count - i,
    {
        let (t, p2) = match read_record(bytes, p) {
            Some(v) => v,
            None => {
                proof {
                    assert(dec_records(bytes@, p as int, (count - i) as int) is None);
                    assert(dec_records(bytes@, p0 as int, count as int) is None);
                    assert(dec_log(bytes@, pos as int) is None);
                }
                return None;
            },
        };
        proof {
            let pre = log_model(acc@);
            let post = log_model(acc@.push(t));
            assert(post =~= pre.push(tx_model(t)));
            match dec_records(bytes@, p2 as int, (count - i - 1) as int) {
                Some(v) => {
                    assert(pre + (seq![tx_model(t)] + v.0) =~= pre.push(tx_model(t)) + v.0);
                },
                None => {},
            }
        }
        acc.push(t);
        p = p2;
        i = i + 1;
    }
    proof {
        assert(dec_records(bytes@, p as int, 0) == Some((Seq::<TxModel>::empty(), p as int)));
        assert(log_model(acc@) + Seq::<TxModel>::empty() =~= log_model(acc@));
    }
    if !crate::cache::log_wf_check(&acc) {
        proof {
            lemma_log_wf_model(acc@);
        }
        return None;
    }
    proof {
        lemma_log_wf_model(acc@);
    }
    Some((acc, p))
}

fn read_entry(bytes: &Vec<u8>, pos: usize) -> (r: Option<(String, u64, Vec<TxMetadata>, usize)>)
    ensures
        match r {
            Some(v) => dec_entry(bytes@, pos as int) == Some(
                (EntryModel { dao: v.0@, proposal_id: v.1, log: log_model(v.2@) }, v.3 as int),
            ) && v.3 <= bytes@.len() && log_wf(v.2@),
            None => dec_entry(bytes@, pos as int) is None,
        },
{
    let (dao, p1) = match read_string(bytes, pos) {
        Some(v) => v,
        None => {
            return None;
        },
    };
    let (proposal_id, p2) = match read_u64(bytes, p1) {
        Some(v) => v,
        None => {
            return None;
        },
    };
    let (log, p3) = match read_log(bytes, p2) {
        Some(v) => v,
        None => {
            return None;
        },
    };
    Some((dao, proposal_id, log, p3))
}

/// What remains of an entry-list decode after some entries were consumed.
pub open spec fn ent_prepend(prefix: Seq<EntryModel>, o: Option<(Seq<EntryModel>, int)>) -> Option<
    (Seq<EntryModel>, int),
> {
    match o {
        Some(v) => Some((prefix + v.0, v.1)),
        None => None,
    }
}

/// The history logs a detail cache holds, per key.
pub open spec fn hist_of(m: Map<(Seq<char>, u64), CachedProposal>) -> Map<
    (Seq<char>, u64),
    Seq<TxModel>,
> {
    m.map_values(|c: CachedProposal| log_model(c.txs_log@))
}

/// The map that a sequence of restored entries denotes.
pub open spec fn entries_map(ms: Seq<EntryModel>) -> Map<(Seq<char>, u64), Seq<TxModel>>
    decreases ms.len(),
{
    if ms.len() == 0 {
        Map::empty()
    } else {
        entries_map(ms.drop_last()).insert(
            (ms.last().dao, ms.last().proposal_id),
            ms.last().log,
        )
    }
}

proof fn lemma_hist_insert(
    m: Map<(Seq<char>, u64), CachedProposal>,
    k: (Seq<char>, u64),
    v: CachedProposal,
)
    ensures
        hist_of(m.insert(k, v)) =~= hist_of(m).insert(k, log_model(v.txs_log@)),
{
}

/// A snapshot of a well-formed cache denotes, entry by entry, exactly the
/// history map the cache holds.
pub proof fn lemma_cache_models_map(s: Seq<(DetailKey, CachedProposal)>)
    ensures
        hist_of(AssocMap::<DetailKey, CachedProposal>::kv_map(s)) =~= entries_map(
            s.map_values(|e: (DetailKey, CachedProposal)| entry_model_of(e)),
        ),
    decreases s.len(),
{
    AssocMap::<DetailKey, CachedProposal>::lemma_kv_map_unfold(s);
    let ms = s.map_values(|e: (DetailKey, CachedProposal)| entry_model_of(e));
    if s.len() == 0 {
        assert(hist_of(Map::<(Seq<char>, u64), CachedProposal>::empty())
            =~= Map::<(Seq<char>, u64), Seq<TxModel>>::empty());
    } else {
        lemma_cache_models_map(s.drop_last());
        lemma_hist_insert(
            AssocMap::<DetailKey, CachedProposal>::kv_map(s.drop_last()),
            s.last().0@,
            s.last().1,
        );
        assert(ms.drop_last() =~= s.drop_last().map_values(
            |e: (DetailKey, CachedProposal)| entry_model_of(e),
        ));
        assert(ms.last() == entry_model_of(s.last()));
    }
}

/// The freshness stamp given to every restored entry: old enough that the
/// entry is stale the moment it is restored, for any clock that has run
/// longer than one freshness window.
pub open spec fn stale_stamp(now: u64) -> u64 {
    if now > crate::CACHE_LIFE_TIME_NS {
        (now - crate::CACHE_LIFE_TIME_NS - 1) as u64
    } else {
        0
    }
}

fn stale_stamp_exec(now: u64) -> (r: u64)
    ensures
        r == stale_stamp(now),
{
    if now > crate::CACHE_LIFE_TIME_NS {
        now - crate::CACHE_LIFE_TIME_NS - 1
    } else {
        0
    }
}

/// Rebuild a proposal-detail cache from a snapshot blob.  A valid blob
/// yields a cache holding exactly the persisted history logs, each behind
/// a placeholder proposal and a stamp that is already stale, so the first
/// access refetches the proposal while keeping the history; a blob that
/// does not decode yields nothing, and the caller starts empty.
pub fn restore_cache(bytes: &Vec<u8>, now: u64) -> (r: Option<ProposalDetailCache>)
    ensures
        r is Some <==> dec_entries(bytes@) is Some,
        r matches Some(c) ==> {
            &&& c.wf()
            &&& hist_of(c@) == entries_map(dec_entries(bytes@)->Some_0)
            &&& forall|k: (Seq<char>, u64)|
                c@.contains_key(k) ==> (#[trigger] c@[k].last_updated == stale_stamp(now)
                    && crate::types::spec_is_placeholder(c@[k].proposal))
            &&& now > crate::CACHE_LIFE_TIME_NS ==> forall|k: (Seq<char>, u64)|
                c@.contains_key(k) ==> !crate::fresh_at(
                    #[trigger] c@[k].last_updated,
                    now,
                    crate::CACHE_LIFE_TIME_NS,
                )
        },
{
    let (count, p0) = match read_u64(bytes, 0) {
        Some(v) => v,
        None => {
            return None;
        },
    };
    let stamp = stale_stamp_exec(now);
    let mut cache = ProposalDetailCache::new();
    let ghost mut ms_acc: Seq<EntryModel> = Seq::empty();
    let mut p = p0;
    let mut i: u64 = 0;
    proof {
        assert(entries_map(ms_acc) =~= Map::<(Seq<char>, u64), Seq<TxModel>>::empty());
        assert(hist_of(cache@) =~= entries_map(ms_acc));
        assert(ent_prepend(ms_acc, dec_entry_seq(bytes@, p as int, (count - i) as int))
            == dec_entry_seq(bytes@, p0 as int, count as int));
    }
    while i < count
        invariant
            i <= count,
            p <= bytes@.len(),
            dec_u64(bytes@, 0) == Some((count, p0 as int)),
            stamp == stale_stamp(now),
            cache.wf(),
            dec_entry_seq(bytes@, p0 as int, count as int) == ent_prepend(
                ms_acc,
                dec_entry_seq(bytes@, p as int, (count - i) as int),
            ),
            hist_of(cache@) =~= entries_map(ms_acc),
            forall|k: (Seq<char>, u64)|
                cache@.contains_key(k) ==> (#[trigger] cache@[k].last_updated == stale_stamp(now)
                    && crate::types::spec_is_placeholder(cache@[k].proposal)),
        decreases count - i,
    {
        let (dao, proposal_id, log, p2) = match read_entry(bytes, p) {
            Some(v) => v,
            None => {
                proof {
                    assert(dec_entry_seq(bytes@, p as int, (count - i) as int) is None);
                    assert(dec_entry_seq(bytes@, p0 as int, count as int) is None);
                    assert(dec_entries(bytes@) is None);
                }
                return None;
            },
        };
        let ghost m = EntryModel { dao: dao@, proposal_id, log: log_model(log@) };
        let ghost key = (dao@, proposal_id);
        let ghost old_cache_view = cache@;
        proof {
            match dec_entry_seq(bytes@, p2 as int, (count - i - 1) as int) {
                Some(v) => {
                    assert(ms_acc + (seq![m] + v.0) =~= ms_acc.push(m) + v.0);
                },
                None => {},
            }
            assert(ms_acc.push(m).drop_last() =~= ms_acc);
        }
        let placeholder = Proposal::placeholder();
        let ghost entry = (CachedProposal {
            proposal: placeholder,
            last_updated: stamp,
            txs_log: log,
        });
        cache.insert_restored(dao, proposal_id, placeholder, log, stamp);
        proof {
            lemma_hist_insert(old_cache_view, key, entry);
            ms_acc = ms_acc.push(m);
            assert(entries_map(ms_acc) =~= entries_map(ms_acc.drop_last()).insert(key, m.log));
            assert forall|k: (Seq<char>, u64)| cache@.contains_key(k) implies (
                #[trigger] cache@[k].last_updated == stale_stamp(now)
                    && crate::types::spec_is_placeholder(cache@[k].proposal)) by {
                if k == key {
                    assert(cache@[k] == entry);
                } else {
                    assert(cache@[k] == old_cache_view[k]);
                }
            }
        }
        p = p2;
        i = i + 1;
    }
    if p != bytes.len() {
        proof {
            assert(dec_entry_seq(bytes@, p as int, 0) == Some(
                (Seq::<EntryModel>::empty(), p as int),
            ));
            assert(ms_acc + Seq::<EntryModel>::empty() =~= ms_acc);
        }
        return None;
    }
    proof {
        assert(dec_entry_seq(bytes@, p as int, 0) == Some((Seq::<EntryModel>::empty(), p as int)));
        assert(ms_acc + Seq::<EntryModel>::empty() =~= ms_acc);
    }
    Some(cache)
}

} // verus!
