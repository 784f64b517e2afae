//! The header-chain relay: a flat arena of accepted headers linked by
//! parent indices, a set of competing chains each represented by its tip,
//! and a best-chain pointer that always names the chain with the greatest
//! cumulative work.

use vstd::prelude::*;
use vstd::arithmetic::power2::{pow2, lemma_pow2_strictly_increases, lemma2_to64};

use crate::errors::BridgeError;
use crate::hash::H256;
use crate::header::{
    bits_exponent, bits_mantissa, bits_valid, block_hash, block_hash_of, check_pow, compute_work,
    pow_valid, work_of, BlockHeader,
};

verus! {

/// Network and policy parameters of the relay.
#[derive(Clone, Copy, Debug)]
pub struct RelayParams {
    /// Confirmations a block needs below the best tip before proofs against
    /// it are accepted (the stability window).
    pub confirmations: u64,
    /// When false, the expected-difficulty rule is skipped (an override for
    /// test networks); the hash-under-claimed-target check always runs.
    pub check_difficulty: bool,
    /// Blocks between difficulty retargets.
    pub retarget_interval: u64,
    /// Seconds one retarget window is supposed to take.
    pub target_timespan: u32,
    /// Seconds a header's timestamp may run ahead of the submitter's clock.
    pub max_future_drift: u32,
    /// The weakest compact target the network allows.
    pub pow_limit_bits: u32,
}

/// The machine bounds the parameters must respect.
pub open spec fn params_wf(p: RelayParams) -> bool {
    &&& p.retarget_interval >= 1
    &&& 1 <= p.target_timespan <= 0x3fffffff
    &&& bits_valid(p.pow_limit_bits)
}

/// An accepted header with the relay's bookkeeping: its hash, its height,
/// the arena index of its parent, and the cumulative work of the chain from
/// the relay's genesis up to it.
#[derive(Clone, Copy, Debug)]
pub struct StoredHeader {
    pub header: BlockHeader,
    pub hash: H256,
    pub height: u64,
    pub parent: usize,
    pub chain_work: u128,
}

/// One competing chain: a stable identifier and the arena index of its tip.
#[derive(Clone, Copy, Debug)]
pub struct ChainRef {
    pub id: u64,
    pub tip: usize,
}

/// The relay state.
pub struct Relay {
    pub params: RelayParams,
    pub headers: Vec<StoredHeader>,
    pub chains: Vec<ChainRef>,
    pub best: usize,
    pub next_chain_id: u64,
}

/// Every non-genesis entry links to an earlier entry whose hash is its
/// previous-hash, sits one above it, passed proof of work, and accumulates
/// its work on top of the parent's.
pub open spec fn headers_linked(hs: Seq<StoredHeader>) -> bool {
    &&& hs.len() >= 1
    &&& hs[0].parent == 0
    &&& hs[0].chain_work == 0
    &&& forall|i: int|
        1 <= i < hs.len() ==> {
            &&& #[trigger] hs[i].parent < i
            &&& hs[hs[i].parent as int].hash@ == hs[i].header.prev_hash@
            &&& hs[i].height == hs[hs[i].parent as int].height + 1
            &&& pow_valid(hs[i].header)
            &&& hs[i].chain_work == hs[hs[i].parent as int].chain_work + work_of(
                hs[i].header.bits,
            )
        }
}

/// Every stored hash is the block hash of its header.
pub open spec fn hashes_consistent(hs: Seq<StoredHeader>) -> bool {
    forall|i: int| 0 <= i < hs.len() ==> #[trigger] hs[i].hash@ == block_hash_of(hs[i].header)
}

/// No two entries share a hash.
pub open spec fn hashes_unique(hs: Seq<StoredHeader>) -> bool {
    forall|i: int, j: int|
        0 <= i < hs.len() && 0 <= j < hs.len() && i != j ==> hs[i].hash@ != hs[j].hash@
}

/// Some stored header carries this hash.
pub open spec fn contains_hash(hs: Seq<StoredHeader>, h: Seq<u8>) -> bool {
    exists|i: int| 0 <= i < hs.len() && hs[i].hash@ == h
}

/// The index of the stored header with this hash (unique under
/// `hashes_unique`).
pub open spec fn index_of_hash(hs: Seq<StoredHeader>, h: Seq<u8>) -> int {
    choose|i: int| 0 <= i < hs.len() && hs[i].hash@ == h
}

impl Relay {
    /// The chains are nonempty, point into the arena, carry ids below the
    /// next free one, and no two share an id or a tip.
    pub open spec fn chains_wf(self) -> bool {
        &&& self.chains@.len() >= 1
        &&& self.best < self.chains@.len()
        &&& forall|c: int|
            0 <= c < self.chains@.len() ==> (#[trigger] self.chains@[c].tip)
                < self.headers@.len()
        &&& forall|c: int|
            0 <= c < self.chains@.len() ==> (#[trigger] self.chains@[c].id) < self.next_chain_id
        &&& forall|c: int, d: int|
            0 <= c < self.chains@.len() && 0 <= d < self.chains@.len() && c != d
                ==> self.chains@[c].id != self.chains@[d].id
        &&& forall|c: int, d: int|
            0 <= c < self.chains@.len() && 0 <= d < self.chains@.len() && c != d
                ==> self.chains@[c].tip != self.chains@[d].tip
    }

    /// The arena index of the best chain's tip.
    pub open spec fn best_tip(self) -> int {
        self.chains@[self.best as int].tip as int
    }

    /// The best chain's cumulative work dominates every stored header.
    pub open spec fn best_has_max_work(self) -> bool {
        forall|i: int|
            0 <= i < self.headers@.len() ==> (#[trigger] self.headers@[i].chain_work)
                <= self.headers@[self.best_tip()].chain_work
    }

    /// The relay's well-formedness: linkage, hash consistency and
    /// uniqueness, chain bookkeeping, and best-chain maximality.
    pub open spec fn wf(self) -> bool {
        &&& params_wf(self.params)
        &&& headers_linked(self.headers@)
        &&& hashes_consistent(self.headers@)
        &&& hashes_unique(self.headers@)
        &&& self.chains_wf()
        &&& self.best_has_max_work()
    }

    /// The height of the best chain's tip.
    pub open spec fn spec_best_height(self) -> u64 {
        self.headers@[self.best_tip()].height
    }

    /// Starts a relay from a trusted checkpoint header at a given height.
    /// The checkpoint anchors the arena: its work baseline is zero and it is
    /// never re-validated.
    pub fn new(params: RelayParams, genesis: BlockHeader, height: u64) -> (r: Relay)
        requires
            params_wf(params),
        ensures
            r.wf(),
            r.params == params,
            r.headers@.len() == 1,
            r.headers@[0].header == genesis,
            r.headers@[0].height == height,
            r.chains@.len() == 1,
            r.chains@[0] == (ChainRef { id: 0, tip: 0 }),
            r.best == 0,
            r.spec_best_height() == height,
    {
        let hash = block_hash(&genesis);
        let mut headers: Vec<StoredHeader> = Vec::new();
        headers.push(
            StoredHeader { header: genesis, hash, height, parent: 0, chain_work: 0 },
        );
        let mut chains: Vec<ChainRef> = Vec::new();
        chains.push(ChainRef { id: 0, tip: 0 });
        Relay { params, headers, chains, best: 0, next_chain_id: 1 }
    }

    /// Finds the arena index of the header with the given hash.
    fn find_by_hash(&self, h: &H256) -> (r: Option<usize>)
        ensures
            match r {
                Some(i) => i < self.headers@.len() && self.headers@[i as int].hash@ == h@,
                None => !contains_hash(self.headers@, h@),
            },
    {
        let mut i: usize = 0;
        while i < self.headers.len()
            invariant
                i <= self.headers@.len(),
                forall|j: int| 0 <= j < i ==> self.headers@[j].hash@ != h@,
            decreases self.headers@.len() - i,
        {
            if self.headers[i].hash.eq(h) {
                return Some(i);
            }
            i = i + 1;
        }
        None
    }

    /// Looks a header up by hash; a read-only query.
    pub fn get_header(&self, h: &H256) -> (r: Option<StoredHeader>)
        ensures
            match r {
                Some(s) => contains_hash(self.headers@, h@) && exists|i: int|
                    0 <= i < self.headers@.len() && self.headers@[i] == s
                        && self.headers@[i].hash@ == h@,
                None => !contains_hash(self.headers@, h@),
            },
    {
        match self.find_by_hash(h) {
            Some(i) => Some(self.headers[i]),
            None => None,
        }
    }

    /// The height of the best chain's tip; a read-only query.
    pub fn get_best_chain_height(&self) -> (r: u64)
        requires
            self.wf(),
        ensures
            r == self.spec_best_height(),
    {
        let tip = self.chains[self.best].tip;
        self.headers[tip].height
    }
}

/// The `n`-th ancestor of an arena entry along parent links.
pub open spec fn nth_ancestor(hs: Seq<StoredHeader>, from: int, n: nat) -> int
    decreases n,
{
    if n == 0 {
        from
    } else {
        nth_ancestor(hs, hs[from].parent as int, (n - 1) as nat)
    }
}

/// In a linked arena every height is at least the checkpoint's height.
pub proof fn lemma_height_at_least_genesis(hs: Seq<StoredHeader>, i: int)
    requires
        headers_linked(hs),
        0 <= i < hs.len(),
    ensures
        hs[i].height >= hs[0].height,
    decreases i,
{
    if i > 0 {
        lemma_height_at_least_genesis(hs, hs[i].parent as int);
    }
}

impl Relay {
    /// Walks parent links from `from` down to the entry at `target_height`
    /// on the same chain.
    fn ancestor_at(&self, from: usize, target_height: u64) -> (r: usize)
        requires
            self.wf(),
            from < self.headers@.len(),
            self.headers@[0].height <= target_height <= self.headers@[from as int].height,
        ensures
            r < self.headers@.len(),
            self.headers@[r as int].height == target_height,
            r == nth_ancestor(
                self.headers@,
                from as int,
                (self.headers@[from as int].height - target_height) as nat,
            ),
    {
        let mut cur = from;
        while self.headers[cur].height > target_height
            invariant
                self.wf(),
                cur < self.headers@.len(),
                target_height <= self.headers@[cur as int].height,
                self.headers@[0].height <= target_height,
                nth_ancestor(
                    self.headers@,
                    from as int,
                    (self.headers@[from as int].height - target_height) as nat,
                ) == nth_ancestor(
                    self.headers@,
                    cur as int,
                    (self.headers@[cur as int].height - target_height) as nat,
                ),
            decreases self.headers@[cur as int].height - target_height,
        {
            proof {
                if cur == 0 {
                    assert(self.headers@[0].height > target_height);
                    assert(false);
                }
            }
            cur = self.headers[cur].parent;
        }
        cur
    }
}

impl Relay {
    /// Whether the entry at `i` lies on the best chain: walking down from
    /// the best tip to its height lands on it.
    pub open spec fn on_best_chain(self, i: int) -> bool {
        &&& self.headers@[i].height <= self.spec_best_height()
        &&& nth_ancestor(
            self.headers@,
            self.best_tip(),
            (self.spec_best_height() - self.headers@[i].height) as nat,
        ) == i
    }

    /// Whether the entry at `i` is stable: on the best chain and buried at
    /// least the configured number of confirmations below its tip.
    pub open spec fn spec_is_stable(self, i: int) -> bool {
        &&& self.on_best_chain(i)
        &&& self.headers@[i].height + self.params.confirmations <= self.spec_best_height()
    }

    /// What `is_block_stable` answers for a hash.
    pub open spec fn spec_block_stable(self, h: Seq<u8>) -> Result<bool, BridgeError> {
        if !contains_hash(self.headers@, h) {
            Err(BridgeError::HeaderUnknown)
        } else {
            Ok(self.spec_is_stable(index_of_hash(self.headers@, h)))
        }
    }

    /// Whether the block with this hash may back proofs: stored, on the
    /// best chain, and sufficiently confirmed. A read-only query.
    pub fn is_block_stable(&self, hash: &H256) -> (r: Result<bool, BridgeError>)
        requires
            self.wf(),
        ensures
            r == self.spec_block_stable(hash@),
    {
        let i = match self.find_by_hash(hash) {
            Some(i) => i,
            None => {
                return Err(BridgeError::HeaderUnknown);
            },
        };
        proof {
            let j = index_of_hash(self.headers@, hash@);
            assert(0 <= j < self.headers@.len() && self.headers@[j].hash@ == hash@);
            assert(j == i);
        }
        let tip = self.chains[self.best].tip;
        let tip_height = self.headers[tip].height;
        let height = self.headers[i].height;
        if height > tip_height {
            return Ok(false);
        }
        proof {
            lemma_height_at_least_genesis(self.headers@, i as int);
        }
        let anc = self.ancestor_at(tip, height);
        Ok(anc == i && tip_height - height >= self.params.confirmations)
    }
}

/// The timestamps of up to `n` entries walking up the parent links from
/// `from` (inclusive), stopping at the checkpoint.
pub open spec fn ancestor_timestamps(hs: Seq<StoredHeader>, from: int, n: nat) -> Seq<u32>
    decreases n,
{
    if n == 0 {
        Seq::empty()
    } else if hs[from].parent == from {
        seq![hs[from].header.timestamp]
    } else {
        seq![hs[from].header.timestamp] + ancestor_timestamps(
            hs,
            hs[from].parent as int,
            (n - 1) as nat,
        )
    }
}

/// How many entries of `s` lie strictly below `t`.
pub open spec fn count_below(s: Seq<u32>, t: u32) -> nat
    decreases s.len(),
{
    if s.len() == 0 {
        0
    } else {
        count_below(s.drop_last(), t) + if s.last() < t {
            1nat
        } else {
            0nat
        }
    }
}

impl Relay {
    /// The median-time-past rule over the last eleven ancestors, phrased by
    /// counting: the timestamp exceeds the window's median exactly when more
    /// than half the window lies strictly below it. The timestamp must also
    /// not run further ahead of the submitter's clock than the drift bound.
    pub open spec fn timestamp_ok(self, parent: int, ts: u32, now: u32) -> bool {
        &&& ts <= now + self.params.max_future_drift
        &&& ({
            let window = ancestor_timestamps(self.headers@, parent, 11);
            count_below(window, ts) >= window.len() / 2 + 1
        })
    }

    /// Collects the timestamps of up to `n` ancestors of `from`, inclusive.
    fn collect_ancestor_timestamps(&self, from: usize, n: u64) -> (r: Vec<u32>)
        requires
            headers_linked(self.headers@),
            from < self.headers@.len(),
        ensures
            r@ == ancestor_timestamps(self.headers@, from as int, n as nat),
        decreases n,
    {
        let mut out: Vec<u32> = Vec::new();
        if n == 0 {
            proof {
                assert(out@ =~= ancestor_timestamps(self.headers@, from as int, 0));
            }
            return out;
        }
        let ts = self.headers[from].header.timestamp;
        out.push(ts);
        if self.headers[from].parent == from {
            proof {
                assert(out@ =~= ancestor_timestamps(self.headers@, from as int, n as nat));
            }
            return out;
        }
        let mut rest = self.collect_ancestor_timestamps(self.headers[from].parent, n - 1);
        out.append(&mut rest);
        proof {
            assert(out@ =~= ancestor_timestamps(self.headers@, from as int, n as nat));
        }
        out
    }
}

/// Counts the entries of `v` strictly below `t`.
fn count_below_exec(v: &Vec<u32>, t: u32) -> (r: usize)
    ensures
        r == count_below(v@, t),
        r <= v@.len(),
{
    let mut r: usize = 0;
    let mut i: usize = 0;
    while i < v.len()
        invariant
            i <= v@.len(),
            r <= i,
            r == count_below(v@.subrange(0, i as int), t),
        decreases v@.len() - i,
    {
        proof {
            assert(v@.subrange(0, i + 1).drop_last() =~= v@.subrange(0, i as int));
            assert(v@.subrange(0, i + 1).last() == v@[i as int]);
        }
        if v[i] < t {
            r = r + 1;
        }
        i = i + 1;
    }
    proof {
        assert(v@.subrange(0, v@.len() as int) =~= v@);
    }
    r
}

/// The retargeted compact bits after one difficulty window: the mantissa is
/// scaled by the clamped actual timespan over the target timespan and then
/// renormalized; targets weaker than the network limit collapse to it.
pub open spec fn spec_retarget_bits(p: RelayParams, old_bits: u32, first_ts: u32, last_ts: u32) -> u32 {
    let span = p.target_timespan as int;
    let actual: int = if last_ts > first_ts {
        last_ts - first_ts
    } else {
        1
    };
    let clamped: int = if actual < span / 4 {
        span / 4
    } else if actual > span * 4 {
        span * 4
    } else {
        actual
    };
    let m = bits_mantissa(old_bits) as int;
    let e = bits_exponent(old_bits) as int;
    let scaled = m * clamped / span;
    let m0: int = if scaled == 0 {
        1
    } else {
        scaled
    };
    let (m1, e1): (int, int) = if m0 > 0x7fffff {
        (m0 / 256, e + 1)
    } else {
        (m0, e)
    };
    let (m2, e2): (int, int) = if m1 > 0x7fffff {
        (m1 / 256, e1 + 1)
    } else {
        (m1, e1)
    };
    let (m3, e3): (int, int) = if m2 > 0x7fffff {
        (m2 / 256, e2 + 1)
    } else {
        (m2, e2)
    };
    let (m4, e4): (int, int) = if m3 > 0x7fffff {
        (m3 / 256, e3 + 1)
    } else {
        (m3, e3)
    };
    let (m5, e5): (int, int) = if m4 < 0x8000 && e4 > 3 {
        (m4 * 256, e4 - 1)
    } else {
        (m4, e4)
    };
    let el = bits_exponent(p.pow_limit_bits) as int;
    let ml = bits_mantissa(p.pow_limit_bits) as int;
    if e5 < 3 || e5 > 32 || m5 <= 0 || m5 > 0x7fffff || e5 > el || (e5 == el && m5 > ml) {
        p.pow_limit_bits
    } else {
        (e5 * 0x1000000 + m5) as u32
    }
}

/// Computes the retargeted compact bits.
pub fn retarget_bits(p: &RelayParams, old_bits: u32, first_ts: u32, last_ts: u32) -> (r: u32)
    requires
        params_wf(*p),
    ensures
        r == spec_retarget_bits(*p, old_bits, first_ts, last_ts),
        bits_valid(r),
{
    let span: u64 = p.target_timespan as u64;
    let actual: u64 = if last_ts > first_ts {
        (last_ts - first_ts) as u64
    } else {
        1
    };
    let clamped: u64 = if actual < span / 4 {
        span / 4
    } else if actual > span * 4 {
        span * 4
    } else {
        actual
    };
    let m: u64 = (old_bits & 0x007fffff) as u64;
    let mut e: u64 = (old_bits >> 24) as u64;
    proof {
        assert((old_bits >> 24) <= 0xff) by (bit_vector);
        assert((old_bits & 0x007fffff) <= 0x7fffff) by (bit_vector);
    }
    proof {
        assert(m * clamped <= 0x7fffff * 0xfffffffcu64) by (nonlinear_arith)
            requires
                m <= 0x7fffff,
                clamped <= 0xfffffffcu64,
        ;
    }
    let scaled: u64 = m * clamped / span;
    let mut mm: u64 = if scaled == 0 {
        1
    } else {
        scaled
    };
    if mm > 0x7fffff {
        mm = mm / 256;
        e = e + 1;
    }
    if mm > 0x7fffff {
        mm = mm / 256;
        e = e + 1;
    }
    if mm > 0x7fffff {
        mm = mm / 256;
        e = e + 1;
    }
    if mm > 0x7fffff {
        mm = mm / 256;
        e = e + 1;
    }
    if mm < 0x8000 && e > 3 {
        mm = mm * 256;
        e = e - 1;
    }
    let el: u32 = p.pow_limit_bits >> 24;
    let ml: u32 = p.pow_limit_bits & 0x007fffff;
    if e < 3 || e > 32 || mm == 0 || mm > 0x7fffff || e > el as u64 || (e == el as u64 && mm > ml
        as u64) {
        p.pow_limit_bits
    } else {
        let eb: u32 = e as u32;
        let mb: u32 = mm as u32;
        let out: u32 = (eb << 24) | mb;
        proof {
            lemma_compact_compose(eb, mb);
        }
        out
    }
}

impl Relay {
    /// The compact bits the difficulty rule expects of a child of the entry
    /// at `parent`: within a window the parent's bits; at a window boundary
    /// the retargeted bits, falling back to the parent's bits when the
    /// window's first block predates the relay's checkpoint.
    pub open spec fn spec_expected_bits(self, parent: int) -> u32 {
        let hs = self.headers@;
        let interval = self.params.retarget_interval as int;
        let child_height = hs[parent].height + 1;
        if child_height % interval != 0 {
            hs[parent].header.bits
        } else {
            let first_height = child_height - interval;
            if first_height < hs[0].height {
                hs[parent].header.bits
            } else {
                let anc = nth_ancestor(hs, parent, (hs[parent].height - first_height) as nat);
                spec_retarget_bits(
                    self.params,
                    hs[parent].header.bits,
                    hs[anc].header.timestamp,
                    hs[parent].header.timestamp,
                )
            }
        }
    }

    /// The difficulty rule: skipped under the test-network override, else
    /// the claimed bits must equal the expected bits.
    pub open spec fn difficulty_ok(self, parent: int, bits: u32) -> bool {
        !self.params.check_difficulty || bits == self.spec_expected_bits(parent)
    }

    /// Computes the expected compact bits for a child of the entry at `p`.
    fn expected_bits_exec(&self, p: usize) -> (r: u32)
        requires
            self.wf(),
            p < self.headers@.len(),
        ensures
            r == self.spec_expected_bits(p as int),
    {
        let parent_height = self.headers[p].height;
        let interval = self.params.retarget_interval;
        let child: u128 = parent_height as u128 + 1;
        if child % (interval as u128) != 0 {
            return self.headers[p].header.bits;
        }
        if child < interval as u128 {
            // the window's first block predates even a zero height
            return self.headers[p].header.bits;
        }
        let first_height: u64 = (child - interval as u128) as u64;
        if first_height < self.headers[0].height {
            return self.headers[p].header.bits;
        }
        let anc = self.ancestor_at(p, first_height);
        retarget_bits(
            &self.params,
            self.headers[p].header.bits,
            self.headers[anc].header.timestamp,
            self.headers[p].header.timestamp,
        )
    }

    /// Whether no existing chain has the entry at `p` as its tip, so a
    /// child of `p` starts a new fork.
    pub open spec fn fork_needed(self, p: int) -> bool {
        !(exists|c: int| 0 <= c < self.chains@.len() && self.chains@[c].tip == p)
    }

    /// The chain whose tip is the entry at `p` (unique: no two chains share
    /// a tip).
    pub open spec fn extended_chain(self, p: int) -> int {
        choose|c: int| 0 <= c < self.chains@.len() && self.chains@[c].tip == p
    }

    /// Finds the chain whose tip is the arena entry `p`.
    fn find_chain_with_tip(&self, p: usize) -> (r: Option<usize>)
        ensures
            match r {
                Some(c) => c < self.chains@.len() && self.chains@[c as int].tip == p,
                None => self.fork_needed(p as int),
            },
    {
        let mut c: usize = 0;
        while c < self.chains.len()
            invariant
                c <= self.chains@.len(),
                forall|d: int| 0 <= d < c ==> self.chains@[d].tip != p,
            decreases self.chains@.len() - c,
        {
            if self.chains[c].tip == p {
                return Some(c);
            }
            c = c + 1;
        }
        None
    }

    /// Which rejection `submit_header` answers, if any, checked in order:
    /// duplicate, unknown parent, proof of work and difficulty, timestamps,
    /// machine-range overflow.
    pub open spec fn spec_submit_error(self, header: BlockHeader, now: u32) -> Option<
        BridgeError,
    > {
        let hs = self.headers@;
        if contains_hash(hs, block_hash_of(header)) {
            Some(BridgeError::DuplicateHeader)
        } else if !contains_hash(hs, header.prev_hash@) {
            Some(BridgeError::UnknownParent)
        } else {
            let p = index_of_hash(hs, header.prev_hash@);
            if !pow_valid(header) || !self.difficulty_ok(p, header.bits) {
                Some(BridgeError::InvalidProofOfWork)
            } else if !self.timestamp_ok(p, header.timestamp, now) {
                Some(BridgeError::TimestampInvalid)
            } else if hs[p].height + 1 > u64::MAX || hs[p].chain_work + work_of(header.bits)
                > u128::MAX || (self.fork_needed(p) && self.next_chain_id == u64::MAX) {
                Some(BridgeError::ArithmeticOverflow)
            } else {
                None
            }
        }
    }

    /// How acceptance changes the state: the header is appended to the
    /// arena; the parent's chain extends (or a fork starts); the best
    /// pointer swaps exactly when the affected chain's new cumulative work
    /// strictly exceeds the old best work, and stays put otherwise.
    pub open spec fn spec_submit_ok(pre: Relay, post: Relay, header: BlockHeader, cid: u64) -> bool {
        let hs = pre.headers@;
        let p = index_of_hash(hs, header.prev_hash@);
        let new_idx = hs.len() as int;
        let new_work = hs[p].chain_work + work_of(header.bits);
        &&& post.params == pre.params
        &&& post.headers@.len() == hs.len() + 1
        &&& post.headers@.subrange(0, new_idx) == hs
        &&& ({
            let nh = post.headers@.last();
            &&& nh.header == header
            &&& nh.hash@ == block_hash_of(header)
            &&& nh.height == hs[p].height + 1
            &&& nh.parent == p
            &&& nh.chain_work == new_work
        })
        &&& if pre.fork_needed(p) {
            &&& post.chains@ == pre.chains@.push(
                ChainRef { id: pre.next_chain_id, tip: hs.len() as usize },
            )
            &&& cid == pre.next_chain_id
            &&& post.next_chain_id == pre.next_chain_id + 1
        } else {
            let c = pre.extended_chain(p);
            &&& post.chains@ == pre.chains@.update(
                c,
                ChainRef { id: pre.chains@[c].id, tip: hs.len() as usize },
            )
            &&& cid == pre.chains@[c].id
            &&& post.next_chain_id == pre.next_chain_id
        }
        &&& if new_work > hs[pre.best_tip()].chain_work {
            post.chains@[post.best as int].tip == hs.len()
        } else {
            &&& post.best == pre.best
            &&& post.chains@[post.best as int].id == pre.chains@[pre.best as int].id
            &&& post.headers@[post.best_tip()].chain_work == hs[pre.best_tip()].chain_work
        }
    }

    /// Submits one header: validates it against its parent, appends it,
    /// extends or forks a chain, and reorganizes the best pointer when the
    /// new cumulative work strictly beats the old best. Rejections leave the
    /// relay untouched; acceptance applies the whole change at once.
    pub fn submit_header(&mut self, header: BlockHeader, now: u32) -> (r: Result<u64, BridgeError>)
        requires
            old(self).wf(),
        ensures
            final(self).wf(),
            match r {
                Err(e) => *final(self) == *old(self) && old(self).spec_submit_error(header, now)
                    == Some(e),
                Ok(cid) => old(self).spec_submit_error(header, now) == None::<BridgeError>
                    && Relay::spec_submit_ok(*old(self), *final(self), header, cid),
            },
    {
        let ghost pre = *self;
        let hash = block_hash(&header);
        match self.find_by_hash(&hash) {
            Some(_) => {
                return Err(BridgeError::DuplicateHeader);
            },
            None => {},
        }
        let p = match self.find_by_hash(&header.prev_hash) {
            Some(p) => p,
            None => {
                return Err(BridgeError::UnknownParent);
            },
        };
        proof {
            let j = index_of_hash(self.headers@, header.prev_hash@);
            assert(0 <= j < self.headers@.len() && self.headers@[j].hash@ == header.prev_hash@);
            assert(j == p);
        }
        if !check_pow(&header) {
            return Err(BridgeError::InvalidProofOfWork);
        }
        if self.params.check_difficulty {
            let expected = self.expected_bits_exec(p);
            if header.bits != expected {
                return Err(BridgeError::InvalidProofOfWork);
            }
        }
        let window = self.collect_ancestor_timestamps(p, 11);
        let cnt = count_below_exec(&window, header.timestamp);
        if cnt < window.len() / 2 + 1 {
            return Err(BridgeError::TimestampInvalid);
        }
        if (header.timestamp as u64) > (now as u64) + (self.params.max_future_drift as u64) {
            return Err(BridgeError::TimestampInvalid);
        }
        let height = match self.headers[p].height.checked_add(1) {
            Some(h) => h,
            None => {
                return Err(BridgeError::ArithmeticOverflow);
            },
        };
        let work = match compute_work(header.bits) {
            Ok(w) => w,
            Err(e) => {
                return Err(BridgeError::ArithmeticOverflow);
            },
        };
        let chain_work = match self.headers[p].chain_work.checked_add(work) {
            Some(w) => w,
            None => {
                return Err(BridgeError::ArithmeticOverflow);
            },
        };
        let ext = self.find_chain_with_tip(p);
        if ext.is_none() && self.next_chain_id == u64::MAX {
            return Err(BridgeError::ArithmeticOverflow);
        }
        // all checks passed: apply the whole change
        let new_idx = self.headers.len();
        self.headers.push(StoredHeader { header, hash, height, parent: p, chain_work });
        let (cid, target_chain): (u64, usize) = match ext {
            Some(c) => {
                let id = self.chains[c].id;
                self.chains[c] = ChainRef { id, tip: new_idx };
                proof {
                    let cc = pre.extended_chain(p as int);
                    assert(0 <= cc < pre.chains@.len() && pre.chains@[cc].tip == p);
                    assert(cc == c);
                }
                (id, c)
            },
            None => {
                let id = self.next_chain_id;
                self.chains.push(ChainRef { id, tip: new_idx });
                self.next_chain_id = id + 1;
                (id, self.chains.len() - 1)
            },
        };
        proof {
            crate::relay::lemma_work_positive(header.bits);
        }
        let best_tip_now = self.chains[self.best].tip;
        if chain_work > self.headers[best_tip_now].chain_work {
            self.best = target_chain;
        }
        proof {
            let hs = pre.headers@;
            let post = *self;
            assert(post.headers@ == hs.push(post.headers@.last()));
            assert(post.headers@.subrange(0, hs.len() as int) =~= hs);
            assert forall|i: int| 1 <= i < post.headers@.len() implies {
                &&& #[trigger] post.headers@[i].parent < i
                &&& post.headers@[post.headers@[i].parent as int].hash@
                    == post.headers@[i].header.prev_hash@
                &&& post.headers@[i].height == post.headers@[post.headers@[i].parent as int].height
                    + 1
                &&& pow_valid(post.headers@[i].header)
                &&& post.headers@[i].chain_work == post.headers@[post.headers@[i].parent as int].chain_work
                    + work_of(post.headers@[i].header.bits)
            } by {
                if i < hs.len() {
                    assert(hs[i].parent < i);
                }
            }
            assert(headers_linked(post.headers@));
            assert(hashes_consistent(post.headers@));
            assert forall|i: int, j: int|
                0 <= i < post.headers@.len() && 0 <= j < post.headers@.len() && i != j implies
                post.headers@[i].hash@ != post.headers@[j].hash@ by {
                if i < hs.len() && j < hs.len() {
                    assert(hs[i].hash@ != hs[j].hash@);
                } else if i == hs.len() {
                    assert(!contains_hash(hs, block_hash_of(header)));
                    assert(hs[j].hash@ != block_hash_of(header));
                } else {
                    assert(!contains_hash(hs, block_hash_of(header)));
                    assert(hs[i].hash@ != block_hash_of(header));
                }
            }
            assert(post.chains_wf());
            // best-chain maximality
            let bt_post = post.best_tip();
            assert forall|i: int| 0 <= i < post.headers@.len() implies (
            #[trigger] post.headers@[i].chain_work) <= post.headers@[bt_post].chain_work by {
                if chain_work > hs[pre.best_tip()].chain_work {
                    assert(post.headers@[bt_post].chain_work == chain_work);
                } else {
                    assert(post.chains@[post.best as int] == pre.chains@[pre.best as int]);
                    assert(post.headers@[bt_post].chain_work == hs[pre.best_tip()].chain_work);
                }
                if i < hs.len() {
                    assert(hs[i].chain_work <= hs[pre.best_tip()].chain_work);
                }
            }
            assert(post.wf());
        }
        Ok(cid)
    }
}

/// The chain holding the best pointer always has the maximum cumulative
/// work among all stored chains, whatever sequence of headers was accepted.
pub proof fn lemma_best_chain_has_max_work(r: Relay, c: int)
    requires
        r.wf(),
        0 <= c < r.chains@.len(),
    ensures
        r.headers@[r.chains@[c].tip as int].chain_work <= r.headers@[r.best_tip()].chain_work,
{
}

/// A header whose chain's new cumulative work does not exceed the old best
/// work never becomes best, even at equal height: the pointer, its chain id
/// and the best work all stay (ties keep the earlier-submitted chain).
pub proof fn lemma_no_reorg_without_more_work(pre: Relay, post: Relay, header: BlockHeader, cid: u64)
    requires
        pre.wf(),
        Relay::spec_submit_ok(pre, post, header, cid),
        pre.headers@[index_of_hash(pre.headers@, header.prev_hash@)].chain_work + work_of(
            header.bits,
        ) <= pre.headers@[pre.best_tip()].chain_work,
    ensures
        post.best == pre.best,
        post.chains@[post.best as int].id == pre.chains@[pre.best as int].id,
        post.headers@[post.best_tip()].chain_work == pre.headers@[pre.best_tip()].chain_work,
{
}

/// A header that lifts its chain's cumulative work strictly above the old
/// best triggers exactly one reorg: the best pointer lands on the new
/// header, and the height query reflects the new tip immediately.
pub proof fn lemma_more_work_triggers_reorg(pre: Relay, post: Relay, header: BlockHeader, cid: u64)
    requires
        pre.wf(),
        Relay::spec_submit_ok(pre, post, header, cid),
        pre.headers@[index_of_hash(pre.headers@, header.prev_hash@)].chain_work + work_of(
            header.bits,
        ) > pre.headers@[pre.best_tip()].chain_work,
    ensures
        post.chains@[post.best as int].tip == pre.headers@.len(),
        post.headers@[post.best_tip()].chain_work == pre.headers@[index_of_hash(
            pre.headers@,
            header.prev_hash@,
        )].chain_work + work_of(header.bits),
        post.spec_best_height() == pre.headers@[index_of_hash(
            pre.headers@,
            header.prev_hash@,
        )].height + 1,
{
}

impl Relay {
    /// Submits a batch of headers in strict order, stopping at the first
    /// rejected one: the accepted prefix stays, the failing header and the
    /// rest are not applied. Returns how many were accepted and the
    /// rejection that stopped the batch, if any.
    pub fn submit_header_batch(&mut self, headers: &Vec<BlockHeader>, now: u32) -> (r: (
        usize,
        Option<BridgeError>,
    ))
        requires
            old(self).wf(),
        ensures
            final(self).wf(),
            r.0 <= headers@.len(),
            final(self).headers@.len() == old(self).headers@.len() + r.0,
            final(self).headers@.subrange(0, old(self).headers@.len() as int) == old(
                self,
            ).headers@,
            forall|k: int|
                0 <= k < r.0 ==> final(self).headers@[old(self).headers@.len() + k].header
                    == headers@[k],
            (r.1 is None) == (r.0 == headers@.len()),
            r.1 matches Some(e) ==> final(self).spec_submit_error(headers@[r.0 as int], now)
                == Some(e),
    {
        let ghost pre = *self;
        let mut i: usize = 0;
        while i < headers.len()
            invariant
                self.wf(),
                i <= headers@.len(),
                pre == *old(self),
                self.headers@.len() == pre.headers@.len() + i,
                self.headers@.subrange(0, pre.headers@.len() as int) == pre.headers@,
                forall|k: int|
                    0 <= k < i ==> (#[trigger] self.headers@[pre.headers@.len() + k]).header
                        == headers@[k],
            decreases headers@.len() - i,
        {
            let ghost mid = *self;
            match self.submit_header(headers[i], now) {
                Ok(_) => {},
                Err(e) => {
                    return (i, Some(e));
                },
            }
            proof {
                assert(self.headers@.subrange(0, pre.headers@.len() as int) =~= mid.headers@
                    .subrange(0, pre.headers@.len() as int));
                assert(self.headers@.last().header == headers@[i as int]);
                assert forall|k: int| 0 <= k < i implies (#[trigger] self.headers@[
                pre.headers@.len() + k]).header == headers@[k] by {
                    assert(self.headers@[pre.headers@.len() + k] == self.headers@.subrange(
                        0,
                        mid.headers@.len() as int,
                    )[pre.headers@.len() + k]);
                    assert(self.headers@[pre.headers@.len() + k] == mid.headers@[
                    pre.headers@.len() + k]);
                }
            }
            i = i + 1;
        }
        (i, None)
    }
}

/// Accepted work is never zero: the scaled power of two always reaches the
/// mantissa.
pub proof fn lemma_work_positive(bits: u32)
    requires
        bits_valid(bits),
    ensures
        work_of(bits) >= 1,
{
    lemma2_to64();
    let k = (256 - 8 * (bits_exponent(bits) - 3)) as nat;
    if k > 24 {
        lemma_pow2_strictly_increases(24, k);
    }
    assert(bits & 0x007fffff <= 0x7fffff) by (bit_vector);
    assert(pow2(k) >= bits_mantissa(bits));
    vstd::arithmetic::div_mod::lemma_div_non_zero(pow2(k) as int, bits_mantissa(bits) as int);
}

/// Composing a compact encoding from an in-range exponent and mantissa
/// yields a valid encoding that decomposes back into them.
proof fn lemma_compact_compose(e: u32, m: u32)
    requires
        3 <= e <= 32,
        0 < m <= 0x7fffff,
    ensures
        ((e << 24) | m) == e * 0x1000000 + m,
        bits_valid((e << 24) | m),
{
    assert(3 <= e <= 32 && 0 < m <= 0x7fffff ==> {
        &&& ((e << 24) | m) == e * 0x1000000 + m
        &&& ((e << 24) | m) & 0x00800000 == 0
        &&& ((e << 24) | m) & 0x007fffff == m
        &&& ((e << 24) | m) >> 24 == e
    }) by (bit_vector);
}

} // verus!
