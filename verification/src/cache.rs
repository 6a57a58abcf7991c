//! The read-through caches: a DAO's proposal list, one proposal's detail
//! with its append-only activity history, token metadata, and staking-pool
//! resolutions.
//!
//! Each cache is plain state with decision and store operations.  The caller
//! that owns the upstream connection drives the check, lock, re-check,
//! fetch, store sequence; the contracts here pin down what each step reads
//! and writes, so that a waiter re-checking after a winner's store sees the
//! winner's entry and fetches nothing.

use vstd::prelude::*;

use crate::kvmap::{AssocMap, MapKey};
use crate::types::{
    CachedFtMetadata, CachedProposal, CachedProposals, FetchError, FtMetadata, Policy, Proposal,
    StateVersion, TxMetadata,
};
use crate::{fresh_at, CACHE_LIFE_TIME_NS, FT_CACHE_LIFETIME_NS};

verus! {

/// Key of one proposal's detail entry: the DAO and the proposal's id.
pub struct DetailKey {
    pub dao_id: String,
    pub proposal_id: u64,
}

impl View for DetailKey {
    type V = (Seq<char>, u64);

    open spec fn view(&self) -> (Seq<char>, u64) {
        (self.dao_id@, self.proposal_id)
    }
}

impl MapKey for DetailKey {
    fn key_eq(&self, other: &Self) -> (r: bool)
        ensures
            r == (self@ == other@),
    {
        self.dao_id.eq(&other.dao_id) && self.proposal_id == other.proposal_id
    }
}

/// A history log is well formed when block heights never decrease and no
/// two records repeat the same (block height, receipt) pair.
pub open spec fn log_wf(log: Seq<TxMetadata>) -> bool {
    forall|i: int, j: int|
        0 <= i < j < log.len() ==> #[trigger] log[i].block_height <= #[trigger] log[j].block_height
            && !(log[i].block_height == log[j].block_height && log[i].reciept_hash@
            == log[j].reciept_hash@)
}

/// The block height up to which a history log is known: the height of its
/// last record, or zero for an empty log.
pub open spec fn last_height(log: Seq<TxMetadata>) -> u64 {
    if log.len() == 0 {
        0
    } else {
        log.last().block_height
    }
}

/// A freshly reconstructed segment may be appended after a log known up to
/// `tail` when the segment is itself well formed and lies strictly above
/// `tail`.
pub open spec fn segment_extends(tail: u64, seg: Seq<TxMetadata>) -> bool {
    log_wf(seg) && forall|i: int| 0 <= i < seg.len() ==> #[trigger] seg[i].block_height > tail
}

/// In a well-formed log, every record's height is at most the last one's.
pub proof fn lemma_last_height_max(log: Seq<TxMetadata>, i: int)
    requires
        log_wf(log),
        0 <= i < log.len(),
    ensures
        log[i].block_height <= last_height(log),
{
    if i < log.len() - 1 {
        assert(log[i].block_height <= log[log.len() - 1].block_height);
    }
}

/// Appending a segment that extends a well-formed log yields a well-formed
/// log again; this is what keeps every stored history gapless and ordered.
pub proof fn lemma_log_extend(log: Seq<TxMetadata>, seg: Seq<TxMetadata>)
    requires
        log_wf(log),
        segment_extends(last_height(log), seg),
    ensures
        log_wf(log + seg),
        last_height(log + seg) == if seg.len() == 0 {
            last_height(log)
        } else {
            last_height(seg)
        },
{
    let c = log + seg;
    assert forall|i: int, j: int| 0 <= i < j < c.len() implies #[trigger] c[i].block_height
        <= #[trigger] c[j].block_height && !(c[i].block_height == c[j].block_height
        && c[i].reciept_hash@ == c[j].reciept_hash@) by {
        if i < log.len() && j >= log.len() {
            lemma_last_height_max(log, i);
            assert(c[i] == log[i]);
            assert(c[j] == seg[j - log.len()]);
            assert(seg[j - log.len()].block_height > last_height(log));
        } else if i >= log.len() {
            assert(c[i] == seg[i - log.len()]);
            assert(c[j] == seg[j - log.len()]);
        } else {
            assert(c[i] == log[i]);
            assert(c[j] == log[j]);
        }
    }
    if seg.len() > 0 {
        assert(c.last() == seg.last());
    } else {
        assert(c =~= log);
    }
}

/// A verified copy of a history log: the copy's view equals the original's.
pub fn clone_log(log: &Vec<TxMetadata>) -> (r: Vec<TxMetadata>)
    ensures
        r@ =~= log@,
{
    let mut out: Vec<TxMetadata> = Vec::new();
    let n = log.len();
    let mut i: usize = 0;
    while i < n
        invariant
            n == log@.len(),
            i <= n,
            out@ =~= log@.subrange(0, i as int),
        decreases n - i,
    {
        out.push(log[i].clone());
        proof {
            assert(out@ =~= log@.subrange(0, i as int + 1));
        }
        i += 1;
    }
    out
}

/// Exec check of [`segment_extends`]; an unverified driver calls this before
/// handing a reconstructed segment to [`ProposalDetailCache::store_refresh`].
pub fn segment_extends_check(tail: u64, seg: &Vec<TxMetadata>) -> (r: bool)
    ensures
        r == segment_extends(tail, seg@),
{
    let n = seg.len();
    let mut i: usize = 0;
    while i < n
        invariant
            n == seg@.len(),
            i <= n,
            forall|k: int| 0 <= k < i ==> #[trigger] seg@[k].block_height > tail,
        decreases n - i,
    {
        if seg[i].block_height <= tail {
            return false;
        }
        i += 1;
    }
    let mut i: usize = 0;
    while i < n
        invariant
            n == seg@.len(),
            i <= n,
            forall|k: int| 0 <= k < n ==> #[trigger] seg@[k].block_height > tail,
            forall|p: int, q: int|
                0 <= p < q < n && p < i ==> #[trigger] seg@[p].block_height
                    <= #[trigger] seg@[q].block_height && !(seg@[p].block_height
                    == seg@[q].block_height && seg@[p].reciept_hash@ == seg@[q].reciept_hash@),
        decreases n - i,
    {
        let mut j: usize = i + 1;
        while j < n
            invariant
                n == seg@.len(),
                i < j,
                j <= n,
                i < n,
                forall|q: int|
                    i < q < j ==> #[trigger] seg@[i as int].block_height <= seg@[q].block_height
                        && !(seg@[i as int].block_height == seg@[q].block_height
                        && seg@[i as int].reciept_hash@ == seg@[q].reciept_hash@),
            decreases n - j,
        {
            if seg[i].block_height > seg[j].block_height {
                return false;
            }
            if seg[i].block_height == seg[j].block_height
                && crate::strutil::str_eq(seg[i].reciept_hash.as_str(), seg[j].reciept_hash.as_str()) {
                return false;
            }
            j += 1;
        }
        i += 1;
    }
    true
}

/// The short-TTL cache of each DAO's full proposal list, policy and
/// contract version.
pub struct DaoProposalListCache {
    entries: AssocMap<String, CachedProposals>,
}

impl DaoProposalListCache {
    pub closed spec fn view(&self) -> Map<Seq<char>, CachedProposals> {
        self.entries@
    }

    pub closed spec fn wf(&self) -> bool {
        self.entries.wf()
    }

    pub fn new() -> (r: Self)
        ensures
            r.wf(),
            r@ == Map::<Seq<char>, CachedProposals>::empty(),
    {
        DaoProposalListCache { entries: AssocMap::new() }
    }

    /// The cached snapshot for `dao_id`, provided one exists and is still
    /// fresh at `now`; a caller that receives `None` must refresh.
    pub fn lookup_fresh(&self, dao_id: &String, now: u64) -> (r: Option<&CachedProposals>)
        requires
            self.wf(),
        ensures
            match r {
                Some(c) => self@.contains_key(dao_id@) && *c == self@[dao_id@] && fresh_at(
                    c.last_updated,
                    now,
                    CACHE_LIFE_TIME_NS,
                ),
                None => !self@.contains_key(dao_id@) || !fresh_at(
                    self@[dao_id@].last_updated,
                    now,
                    CACHE_LIFE_TIME_NS,
                ),
            },
    {
        match self.entries.get(dao_id) {
            Some(c) => {
                if crate::is_fresh(c.last_updated, now, CACHE_LIFE_TIME_NS) {
                    Some(c)
                } else {
                    None
                }
            },
            None => None,
        }
    }

    /// Store the result of one atomic upstream read, stamped `now`.  All
    /// three parts must have been fetched successfully; on any upstream
    /// failure nothing is stored and the error travels to the caller.
    pub fn store(
        &mut self,
        dao_id: String,
        proposals: Vec<Proposal>,
        policy: Policy,
        version: StateVersion,
        now: u64,
    )
        requires
            old(self).wf(),
        ensures
            final(self).wf(),
            final(self)@ =~= old(self)@.insert(
                dao_id@,
                (CachedProposals { proposals, policy, last_updated: now, version }),
            ),
    {
        self.entries.insert(
            dao_id,
            CachedProposals { proposals, policy, last_updated: now, version },
        );
    }

    /// Apply the outcome of the three concurrent upstream reads.  All of
    /// them must have succeeded for the cache to change: a failure of any
    /// is forwarded unchanged and stores nothing.
    pub fn apply_refresh(
        &mut self,
        dao_id: String,
        fetched: Result<(Vec<Proposal>, Policy, StateVersion), FetchError>,
        now: u64,
    ) -> (r: Result<(), FetchError>)
        requires
            old(self).wf(),
        ensures
            final(self).wf(),
            match fetched {
                Ok(v) => r is Ok && final(self)@ =~= old(self)@.insert(
                    dao_id@,
                    (CachedProposals {
                        proposals: v.0,
                        policy: v.1,
                        last_updated: now,
                        version: v.2,
                    }),
                ),
                Err(e) => r == Err::<(), FetchError>(e) && final(self)@ == old(self)@,
            },
    {
        match fetched {
            Ok((proposals, policy, version)) => {
                self.store(dao_id, proposals, policy, version, now);
                Ok(())
            },
            Err(e) => Err(e),
        }
    }
}

/// Singleflight, in the serialized order that the per-key lock enforces:
/// once the winning caller has stored its snapshot, any caller that
/// re-checks within the freshness window finds exactly that snapshot, so it
/// issues no upstream fetch of its own and returns the same data.
pub proof fn lemma_singleflight_recheck(
    m: Map<Seq<char>, CachedProposals>,
    dao: Seq<char>,
    entry: CachedProposals,
    t2: u64,
)
    requires
        entry.last_updated <= t2,
        t2 - entry.last_updated <= CACHE_LIFE_TIME_NS,
    ensures
        m.insert(dao, entry).contains_key(dao),
        m.insert(dao, entry)[dao] == entry,
        fresh_at(m.insert(dao, entry)[dao].last_updated, t2, CACHE_LIFE_TIME_NS),
{
}

/// Singleflight, simulated for any number of callers: all of them ask for
/// the same uncached key, and the per-key lock admits them one at a time.
/// The first caller misses, fetches and stores; every later caller
/// re-checks and finds the stored snapshot.  Exactly one fetch happens,
/// and every caller comes away with the same snapshot stamp.
pub fn singleflight_serialized(
    n_callers: usize,
    dao_id: String,
    proposals: Vec<Proposal>,
    policy: Policy,
    version: StateVersion,
    now: u64,
) -> (r: (usize, Vec<u64>))
    requires
        n_callers >= 1,
    ensures
        r.0 == 1,
        r.1@.len() == n_callers,
        forall|i: int| 0 <= i < r.1@.len() ==> r.1@[i] == now,
{
    let mut cache = DaoProposalListCache::new();
    let mut fetches: usize = 0;
    let mut stamps: Vec<u64> = Vec::new();

    // The first caller finds nothing and performs the one upstream fetch.
    match cache.lookup_fresh(&dao_id, now) {
        Some(_) => {
            proof {
                assert(false);
            }
        },
        None => {
            fetches = fetches + 1;
            cache.store(dao_id.clone(), proposals, policy, version, now);
        },
    }
    let winner = cache.lookup_fresh(&dao_id, now).unwrap();
    stamps.push(winner.last_updated);

    // Every waiting caller re-checks under the lock and hits.
    let mut i: usize = 1;
    while i < n_callers
        invariant
            1 <= i <= n_callers,
            fetches == 1,
            cache.wf(),
            cache@.contains_key(dao_id@),
            cache@[dao_id@].last_updated == now,
            stamps@.len() == i,
            forall|j: int| 0 <= j < stamps@.len() ==> stamps@[j] == now,
        decreases n_callers - i,
    {
        match cache.lookup_fresh(&dao_id, now) {
            Some(c) => {
                stamps.push(c.last_updated);
            },
            None => {
                proof {
                    assert(false);
                }
            },
        }
        i += 1;
    }
    (fetches, stamps)
}

/// The short-TTL cache of one proposal's detail and its append-only
/// activity history.
pub struct ProposalDetailCache {
    entries: AssocMap<DetailKey, CachedProposal>,
}

impl ProposalDetailCache {
    pub closed spec fn view(&self) -> Map<(Seq<char>, u64), CachedProposal> {
        self.entries@
    }

    /// Every stored history log is ordered and free of duplicates.
    pub closed spec fn wf(&self) -> bool {
        self.entries.wf() && forall|k: (Seq<char>, u64)|
            #[trigger] self.entries@.contains_key(k) ==> log_wf(self.entries@[k].txs_log@)
    }

    /// The history log currently recorded under a key; empty when the key
    /// is absent.
    pub open spec fn spec_log_of(m: Map<(Seq<char>, u64), CachedProposal>, k: (Seq<char>, u64)) -> Seq<
        TxMetadata,
    > {
        if m.contains_key(k) {
            m[k].txs_log@
        } else {
            Seq::empty()
        }
    }

    pub fn new() -> (r: Self)
        ensures
            r.wf(),
            r@ == Map::<(Seq<char>, u64), CachedProposal>::empty(),
    {
        ProposalDetailCache { entries: AssocMap::new() }
    }

    /// The cached detail for the proposal, provided it is fresh at `now`.
    pub fn lookup_fresh(&self, dao_id: &String, proposal_id: u64, now: u64) -> (r: Option<
        &CachedProposal,
    >)
        requires
            self.wf(),
        ensures
            match r {
                Some(c) => self@.contains_key((dao_id@, proposal_id)) && *c == self@[
                    (dao_id@, proposal_id)
                ] && fresh_at(c.last_updated, now, CACHE_LIFE_TIME_NS),
                None => !self@.contains_key((dao_id@, proposal_id)) || !fresh_at(
                    self@[(dao_id@, proposal_id)].last_updated,
                    now,
                    CACHE_LIFE_TIME_NS,
                ),
            },
    {
        let key = DetailKey { dao_id: dao_id.clone(), proposal_id };
        match self.entries.get(&key) {
            Some(c) => {
                if crate::is_fresh(c.last_updated, now, CACHE_LIFE_TIME_NS) {
                    Some(c)
                } else {
                    None
                }
            },
            None => None,
        }
    }

    /// The block height up to which the proposal's history is already
    /// known: the height of the last recorded activity, or zero when
    /// nothing is cached.  Reconstruction resumes strictly above this.
    pub fn prior_tail(&self, dao_id: &String, proposal_id: u64) -> (r: u64)
        requires
            self.wf(),
        ensures
            r == last_height(Self::spec_log_of(self@, (dao_id@, proposal_id))),
    {
        let key = DetailKey { dao_id: dao_id.clone(), proposal_id };
        match self.entries.get(&key) {
            Some(c) => {
                if c.txs_log.len() == 0 {
                    0
                } else {
                    c.txs_log[c.txs_log.len() - 1].block_height
                }
            },
            None => 0,
        }
    }

    /// Store a refreshed detail: the new proposal snapshot, stamped `now`,
    /// with the freshly reconstructed segment appended after the history
    /// already on record.  Records already recorded are never removed or
    /// reordered, so consecutive stores only ever grow the log.
    pub fn store_refresh(
        &mut self,
        dao_id: String,
        proposal_id: u64,
        proposal: Proposal,
        new_segment: Vec<TxMetadata>,
        now: u64,
    )
        requires
            old(self).wf(),
            segment_extends(
                last_height(Self::spec_log_of(old(self)@, (dao_id@, proposal_id))),
                new_segment@,
            ),
        ensures
            final(self).wf(),
            final(self)@.contains_key((dao_id@, proposal_id)),
            final(self)@[(dao_id@, proposal_id)].proposal == proposal,
            final(self)@[(dao_id@, proposal_id)].last_updated == now,
            final(self)@[(dao_id@, proposal_id)].txs_log@ =~= Self::spec_log_of(
                old(self)@,
                (dao_id@, proposal_id),
            ) + new_segment@,
            final(self)@ =~= old(self)@.insert(
                (dao_id@, proposal_id),
                final(self)@[(dao_id@, proposal_id)],
            ),
    {
        let ghost key = (dao_id@, proposal_id);
        let ghost prior_log = Self::spec_log_of(old(self)@, key);
        let key_lookup = DetailKey { dao_id: dao_id.clone(), proposal_id };
        let mut combined: Vec<TxMetadata> = match self.entries.get(&key_lookup) {
            Some(c) => clone_log(&c.txs_log),
            None => Vec::new(),
        };
        proof {
            assert(combined@ =~= prior_log);
            lemma_log_extend(prior_log, new_segment@);
        }
        let mut seg = new_segment;
        combined.append(&mut seg);
        let entry = CachedProposal { proposal, last_updated: now, txs_log: combined };
        self.entries.insert(DetailKey { dao_id, proposal_id }, entry);
    }

    /// Apply the outcome of one detail refresh: the refetched proposal and
    /// the freshly reconstructed segment.  A failed fetch is forwarded
    /// unchanged and stores nothing; a successful one appends the segment
    /// after the history already on record.
    pub fn apply_refresh(
        &mut self,
        dao_id: String,
        proposal_id: u64,
        fetched: Result<(Proposal, Vec<TxMetadata>), FetchError>,
        now: u64,
    ) -> (r: Result<(), FetchError>)
        requires
            old(self).wf(),
            fetched matches Ok(v) ==> segment_extends(
                last_height(Self::spec_log_of(old(self)@, (dao_id@, proposal_id))),
                v.1@,
            ),
        ensures
            final(self).wf(),
            match fetched {
                Ok(v) => {
                    &&& r is Ok
                    &&& final(self)@.contains_key((dao_id@, proposal_id))
                    &&& final(self)@[(dao_id@, proposal_id)].proposal == v.0
                    &&& final(self)@[(dao_id@, proposal_id)].last_updated == now
                    &&& final(self)@[(dao_id@, proposal_id)].txs_log@ =~= Self::spec_log_of(
                        old(self)@,
                        (dao_id@, proposal_id),
                    ) + v.1@
                    &&& final(self)@ =~= old(self)@.insert(
                        (dao_id@, proposal_id),
                        final(self)@[(dao_id@, proposal_id)],
                    )
                },
                Err(e) => r == Err::<(), FetchError>(e) && final(self)@ == old(self)@,
            },
    {
        match fetched {
            Ok((proposal, new_segment)) => {
                self.store_refresh(dao_id, proposal_id, proposal, new_segment, now);
                Ok(())
            },
            Err(e) => Err(e),
        }
    }
}

impl ProposalDetailCache {
    /// The stored entries in insertion order; the persistence layer walks
    /// them when taking a snapshot.
    pub closed spec fn entries_seq(&self) -> Seq<(DetailKey, CachedProposal)> {
        self.entries.entries_seq()
    }

    /// The map view is the fold of the entry list.
    pub proof fn lemma_view_is_fold(&self)
        ensures
            self@ == AssocMap::<DetailKey, CachedProposal>::kv_map(self.entries_seq()),
    {
        self.entries.lemma_view_is_kv_map();
    }

    pub fn entry_count(&self) -> (r: usize)
        ensures
            r == self.entries_seq().len(),
    {
        self.entries.entry_count()
    }

    pub fn entry_at(&self, i: usize) -> (r: &(DetailKey, CachedProposal))
        requires
            i < self.entries_seq().len(),
        ensures
            *r == self.entries_seq()[i as int],
    {
        self.entries.entry_at(i)
    }

    /// Insert an entry restored from a snapshot: a placeholder proposal,
    /// the persisted history log, and a stamp chosen to be already stale.
    pub fn insert_restored(
        &mut self,
        dao_id: String,
        proposal_id: u64,
        proposal: Proposal,
        txs_log: Vec<TxMetadata>,
        last_updated: u64,
    )
        requires
            old(self).wf(),
            log_wf(txs_log@),
        ensures
            final(self).wf(),
            final(self)@ =~= old(self)@.insert(
                (dao_id@, proposal_id),
                (CachedProposal { proposal, last_updated, txs_log }),
            ),
    {
        self.entries.insert(
            DetailKey { dao_id, proposal_id },
            CachedProposal { proposal, last_updated, txs_log },
        );
    }
}

/// Exec check of [`log_wf`]: block heights never decrease and no two
/// records repeat a (block height, receipt) pair.
pub fn log_wf_check(log: &Vec<TxMetadata>) -> (r: bool)
    ensures
        r == log_wf(log@),
{
    let n = log.len();
    let mut i: usize = 0;
    while i < n
        invariant
            n == log@.len(),
            i <= n,
            forall|p: int, q: int|
                0 <= p < q < n && p < i ==> #[trigger] log@[p].block_height
                    <= #[trigger] log@[q].block_height && !(log@[p].block_height
                    == log@[q].block_height && log@[p].reciept_hash@ == log@[q].reciept_hash@),
        decreases n - i,
    {
        let mut j: usize = i + 1;
        while j < n
            invariant
                n == log@.len(),
                i < j,
                j <= n,
                i < n,
                forall|q: int|
                    i < q < j ==> #[trigger] log@[i as int].block_height <= log@[q].block_height
                        && !(log@[i as int].block_height == log@[q].block_height
                        && log@[i as int].reciept_hash@ == log@[q].reciept_hash@),
            decreases n - j,
        {
            if log[i].block_height > log[j].block_height {
                return false;
            }
            if log[i].block_height == log[j].block_height
                && crate::strutil::str_eq(log[i].reciept_hash.as_str(), log[j].reciept_hash.as_str()) {
                return false;
            }
            j += 1;
        }
        i += 1;
    }
    true
}

/// Singleflight for one proposal's detail, simulated for any number of
/// callers: all of them ask for the same uncached (DAO, proposal) key, and
/// the per-key lock admits them one at a time.  The first caller misses
/// and performs the one refresh — the proposal fetch together with the
/// history reconstruction — and every later caller re-checks and finds the
/// stored entry.  Exactly one refresh happens, and every caller comes away
/// with the same stamp.
pub fn detail_singleflight_serialized(
    n_callers: usize,
    dao_id: String,
    proposal_id: u64,
    proposal: Proposal,
    segment: Vec<TxMetadata>,
    now: u64,
) -> (r: (usize, Vec<u64>))
    requires
        n_callers >= 1,
        segment_extends(0, segment@),
    ensures
        r.0 == 1,
        r.1@.len() == n_callers,
        forall|i: int| 0 <= i < r.1@.len() ==> r.1@[i] == now,
{
    let mut cache = ProposalDetailCache::new();
    let mut refreshes: usize = 0;
    let mut stamps: Vec<u64> = Vec::new();

    // The first caller finds nothing and performs the one refresh.
    match cache.lookup_fresh(&dao_id, proposal_id, now) {
        Some(_) => {
            proof {
                assert(false);
            }
        },
        None => {
            refreshes = refreshes + 1;
            cache.store_refresh(dao_id.clone(), proposal_id, proposal, segment, now);
        },
    }
    let winner = cache.lookup_fresh(&dao_id, proposal_id, now).unwrap();
    stamps.push(winner.last_updated);

    // Every waiting caller re-checks under the lock and hits.
    let mut i: usize = 1;
    while i < n_callers
        invariant
            1 <= i <= n_callers,
            refreshes == 1,
            cache.wf(),
            cache@.contains_key((dao_id@, proposal_id)),
            cache@[(dao_id@, proposal_id)].last_updated == now,
            stamps@.len() == i,
            forall|j: int| 0 <= j < stamps@.len() ==> stamps@[j] == now,
        decreases n_callers - i,
    {
        match cache.lookup_fresh(&dao_id, proposal_id, now) {
            Some(c) => {
                stamps.push(c.last_updated);
            },
            None => {
                proof {
                    assert(false);
                }
            },
        }
        i += 1;
    }
    (refreshes, stamps)
}

/// Monotonic history: a store only appends, so the log recorded before any
/// refresh is a prefix of the log recorded after it.
pub proof fn lemma_history_monotonic(prior: Seq<TxMetadata>, seg: Seq<TxMetadata>)
    ensures
        prior.is_prefix_of(prior + seg),
        (prior + seg).len() >= prior.len(),
{
    assert((prior + seg).subrange(0, prior.len() as int) =~= prior);
}

/// Being a prefix carries over any chain of refreshes: what an earlier
/// read returned is a prefix of what any later read returns, so recorded
/// entries never vanish or reorder.
pub proof fn lemma_history_chain(
    earlier: Seq<TxMetadata>,
    middle: Seq<TxMetadata>,
    later: Seq<TxMetadata>,
)
    requires
        earlier.is_prefix_of(middle),
        middle.is_prefix_of(later),
    ensures
        earlier.is_prefix_of(later),
{
    assert(later.subrange(0, earlier.len() as int) =~= middle.subrange(
        0,
        earlier.len() as int,
    ));
}

/// The long-TTL cache of token descriptors.
pub struct TokenMetadataCache {
    entries: AssocMap<String, CachedFtMetadata>,
}

impl TokenMetadataCache {
    pub closed spec fn view(&self) -> Map<Seq<char>, CachedFtMetadata> {
        self.entries@
    }

    pub closed spec fn wf(&self) -> bool {
        self.entries.wf()
    }

    pub fn new() -> (r: Self)
        ensures
            r.wf(),
            r@ == Map::<Seq<char>, CachedFtMetadata>::empty(),
    {
        TokenMetadataCache { entries: AssocMap::new() }
    }

    /// The cached descriptor for `token_id`, provided it is fresh at `now`;
    /// token metadata stays fresh for an hour.
    pub fn lookup_fresh(&self, token_id: &String, now: u64) -> (r: Option<&CachedFtMetadata>)
        requires
            self.wf(),
        ensures
            match r {
                Some(c) => self@.contains_key(token_id@) && *c == self@[token_id@] && fresh_at(
                    c.last_updated,
                    now,
                    FT_CACHE_LIFETIME_NS,
                ),
                None => !self@.contains_key(token_id@) || !fresh_at(
                    self@[token_id@].last_updated,
                    now,
                    FT_CACHE_LIFETIME_NS,
                ),
            },
    {
        match self.entries.get(token_id) {
            Some(c) => {
                if crate::is_fresh(c.last_updated, now, FT_CACHE_LIFETIME_NS) {
                    Some(c)
                } else {
                    None
                }
            },
            None => None,
        }
    }

    pub fn store(&mut self, token_id: String, metadata: FtMetadata, now: u64)
        requires
            old(self).wf(),
        ensures
            final(self).wf(),
            final(self)@ =~= old(self)@.insert(
                token_id@,
                (CachedFtMetadata { metadata, last_updated: now }),
            ),
    {
        self.entries.insert(token_id, CachedFtMetadata { metadata, last_updated: now });
    }
}

/// Unbounded memoization of lockup-account to staking-pool resolutions;
/// entries never expire, since the binding is effectively immutable.
pub struct StakingPoolCache {
    entries: AssocMap<String, String>,
}

impl StakingPoolCache {
    pub closed spec fn view(&self) -> Map<Seq<char>, String> {
        self.entries@
    }

    pub closed spec fn wf(&self) -> bool {
        self.entries.wf()
    }

    pub fn new() -> (r: Self)
        ensures
            r.wf(),
            r@ == Map::<Seq<char>, String>::empty(),
    {
        StakingPoolCache { entries: AssocMap::new() }
    }

    /// The pool already resolved for a lockup account, if any.
    pub fn lookup(&self, lockup_account: &String) -> (r: Option<&String>)
        requires
            self.wf(),
        ensures
            match r {
                Some(p) => self@.contains_key(lockup_account@) && *p == self@[lockup_account@],
                None => !self@.contains_key(lockup_account@),
            },
    {
        self.entries.get(lockup_account)
    }

    pub fn store(&mut self, lockup_account: String, pool_id: String)
        requires
            old(self).wf(),
        ensures
            final(self).wf(),
            final(self)@ =~= old(self)@.insert(lockup_account@, pool_id),
    {
        self.entries.insert(lockup_account, pool_id);
    }
}

} // verus!
