use vstd::prelude::*;

verus! {

/// The id of the transaction that `raw` encodes, or `None` where `raw` is not
/// the consensus encoding of a transaction.
pub uninterp spec fn txid_of(raw: Seq<u8>) -> Option<Seq<u8>>;

/// Relies on `bitcoin::consensus::encode::deserialize::<Transaction>`, which
/// decodes `raw` and fails unless it is consumed whole, and on
/// `Transaction::txid`, whose 32 bytes are taken by `bitcoin_hashes::Hash::into_inner`.
#[verifier::external_body]
fn decode_txid(raw: &Vec<u8>) -> (r: Option<Vec<u8>>)
    ensures
        match r {
            Some(id) => txid_of(raw@) == Some(id@),
            None => txid_of(raw@) is None,
        },
{
    match bitcoin::consensus::encode::deserialize::<bitcoin::Transaction>(raw) {
        Ok(tx) => Some(bitcoin_hashes::Hash::into_inner(tx.txid()).to_vec()),
        Err(_) => None,
    }
}

/// Why a transaction was not taken for broadcast.
#[derive(Clone, Copy, Debug, PartialEq, Eq, Structural)]
pub enum BroadcastError {
    /// The bytes do not encode a transaction.
    InvalidTransaction,
}

/// A transaction waiting for confirmation: its id and its encoding.
pub struct PendingTx {
    pub txid: Vec<u8>,
    pub raw: Vec<u8>,
}

pub open spec fn ids(s: Seq<(Seq<u8>, Seq<u8>)>) -> Seq<Seq<u8>> {
    s.map_values(|p: (Seq<u8>, Seq<u8>)| p.0)
}

/// The pending list after `raw`, with id `id`, is tracked: an entry with the
/// same id is replaced in place, otherwise the entry goes last.
pub open spec fn with_pending(s: Seq<(Seq<u8>, Seq<u8>)>, id: Seq<u8>, raw: Seq<u8>) -> Seq<
    (Seq<u8>, Seq<u8>),
> {
    if ids(s).contains(id) {
        s.map_values(|p: (Seq<u8>, Seq<u8>)| if p.0 == id { (id, raw) } else { p })
    } else {
        s.push((id, raw))
    }
}

/// The transactions this node wants confirmed, each under its own id.
pub struct ChainBroadcaster {
    txn_to_broadcast: Vec<PendingTx>,
}

fn same_bytes(a: &Vec<u8>, b: &Vec<u8>) -> (r: bool)
    ensures
        r == (a@ == b@),
{
    if a.len() != b.len() {
        return false;
    }
    let mut i: usize = 0;
    while i < a.len()
        invariant
            a.len() == b.len(),
            i <= a.len(),
            forall|k: int| 0 <= k < i ==> a@[k] == b@[k],
        decreases a.len() - i,
    {
        if a[i] != b[i] {
            return false;
        }
        i = i + 1;
    }
    assert(a@ =~= b@);
    true
}

impl ChainBroadcaster {
    /// The pending transactions as (id, encoding) pairs, in the order first tracked.
    pub closed spec fn pending(&self) -> Seq<(Seq<u8>, Seq<u8>)> {
        self.txn_to_broadcast@.map_values(|p: PendingTx| (p.txid@, p.raw@))
    }

    /// No two pending transactions share an id.
    pub open spec fn wf(&self) -> bool {
        ids(self.pending()).no_duplicates()
    }

    pub fn new() -> (r: Self)
        ensures
            r.pending() == Seq::<(Seq<u8>, Seq<u8>)>::empty(),
            r.wf(),
    {
        let r = ChainBroadcaster { txn_to_broadcast: Vec::new() };
        assert(r.pending() =~= Seq::<(Seq<u8>, Seq<u8>)>::empty());
        assert(ids(r.pending()) =~= Seq::<Seq<u8>>::empty());
        r
    }

    /// The number of pending transactions.
    pub fn len(&self) -> (r: usize)
        ensures
            r == self.pending().len(),
    {
        self.txn_to_broadcast.len()
    }

    /// The encoding pending under `txid`, if any.
    pub fn get(&self, txid: &Vec<u8>) -> (r: Option<Vec<u8>>)
        requires
            self.wf(),
        ensures
            match r {
                Some(raw) => exists|i: int|
                    0 <= i < self.pending().len() && self.pending()[i] == (txid@, raw@),
                None => forall|i: int|
                    0 <= i < self.pending().len() ==> self.pending()[i].0 != txid@,
            },
    {
        let mut i: usize = 0;
        while i < self.txn_to_broadcast.len()
            invariant
                i <= self.txn_to_broadcast.len(),
                forall|k: int| 0 <= k < i ==> self.pending()[k].0 != txid@,
            decreases self.txn_to_broadcast.len() - i,
        {
            assert(self.pending()[i as int].0 == self.txn_to_broadcast@[i as int].txid@);
            if same_bytes(&self.txn_to_broadcast[i].txid, txid) {
                let raw = self.txn_to_broadcast[i].raw.clone();
                assert(self.pending()[i as int] == (txid@, raw@));
                return Some(raw);
            }
            i = i + 1;
        }
        None
    }

    /// Tracks the transaction encoded by `raw` until something else removes it,
    /// replacing any pending transaction with the same id, and hands back the
    /// encoding to submit now. Bytes that encode no transaction are refused and
    /// nothing changes.
    pub fn broadcast_transaction(&mut self, raw: Vec<u8>) -> (r: Result<Vec<u8>, BroadcastError>)
        requires
            old(self).wf(),
        ensures
            final(self).wf(),
            match txid_of(raw@) {
                Some(id) => r is Ok && r->Ok_0@ == raw@ && final(self).pending() == with_pending(
                    old(self).pending(),
                    id,
                    raw@,
                ),
                None => r == Err::<Vec<u8>, BroadcastError>(BroadcastError::InvalidTransaction)
                    && final(self).pending() == old(self).pending(),
            },
    {
        let txid = match decode_txid(&raw) {
            Some(id) => id,
            None => return Err(BroadcastError::InvalidTransaction),
        };
        let ghost s = self.pending();
        let ghost id = txid@;
        let send = raw.clone();
        let mut i: usize = 0;
        while i < self.txn_to_broadcast.len()
            invariant
                i <= self.txn_to_broadcast.len(),
                self.pending() == s,
                txid@ == id,
                txid_of(raw@) == Some(id),
                send@ == raw@,
                s == old(self).pending(),
                ids(s).no_duplicates(),
                forall|k: int| 0 <= k < i ==> s[k].0 != id,
            decreases self.txn_to_broadcast.len() - i,
        {
            assert(s[i as int].0 == self.txn_to_broadcast@[i as int].txid@);
            if same_bytes(&self.txn_to_broadcast[i].txid, &txid) {
                proof {
                    assert(ids(s)[i as int] == id);
                    assert forall|k: int| 0 <= k < s.len() && k != i implies s[k].0 != id by {
                        assert(ids(s)[k] != ids(s)[i as int]);
                    }
                    assert(with_pending(s, id, raw@) =~= s.update(i as int, (id, raw@)));
                }
                self.txn_to_broadcast.set(i, PendingTx { txid, raw });
                proof {
                    assert(self.pending() =~= s.update(i as int, (id, send@)));
                    assert(ids(self.pending()) =~= ids(s));
                }
                return Ok(send);
            }
            i = i + 1;
        }
        self.txn_to_broadcast.push(PendingTx { txid, raw });
        proof {
            assert(self.pending() =~= s.push((id, send@)));
            assert(ids(self.pending()) =~= ids(s).push(id));
            assert(!ids(s).contains(id));
            assert forall|k: int| 0 <= k < ids(s).len() implies ids(s)[k] != id by {
                assert(s[k].0 != id);
            }
        }
        Ok(send)
    }

    /// One submission for each pending transaction: their encodings, in the
    /// order first tracked.
    pub fn rebroadcast_txn(&self) -> (r: Vec<Vec<u8>>)
        ensures
            r@.len() == self.pending().len(),
            forall|i: int| 0 <= i < r@.len() ==> #[trigger] r@[i]@ == self.pending()[i].1,
    {
        let mut r: Vec<Vec<u8>> = Vec::new();
        let mut i: usize = 0;
        while i < self.txn_to_broadcast.len()
            invariant
                i <= self.txn_to_broadcast.len(),
                r@.len() == i,
                forall|k: int| 0 <= k < i ==> #[trigger] r@[k]@ == self.pending()[k].1,
            decreases self.txn_to_broadcast.len() - i,
        {
            r.push(self.txn_to_broadcast[i].raw.clone());
            i = i + 1;
        }
        r
    }
}

/// Tracking two transactions with the same id, one after the other, leaves the
/// pending list as tracking the later one alone would; from an empty list, it
/// holds that one transaction only.
pub proof fn lemma_track_same_id_twice(
    s: Seq<(Seq<u8>, Seq<u8>)>,
    id: Seq<u8>,
    first: Seq<u8>,
    second: Seq<u8>,
)
    requires
        ids(s).no_duplicates(),
    ensures
        with_pending(with_pending(s, id, first), id, second) == with_pending(s, id, second),
        s.len() == 0 ==> with_pending(with_pending(s, id, first), id, second) == seq![
            (id, second),
        ],
{
    let once = with_pending(s, id, first);
    if ids(s).contains(id) {
        let i = ids(s).index_of(id);
        assert(ids(once)[i] == id);
        assert(with_pending(once, id, second) =~= with_pending(s, id, second));
    } else {
        assert(ids(once)[s.len() as int] == id);
        assert forall|k: int| 0 <= k < s.len() implies s[k].0 != id by {
            assert(ids(s)[k] == s[k].0);
        }
        assert(with_pending(once, id, second) =~= with_pending(s, id, second));
    }
    if s.len() == 0 {
        assert(!ids(s).contains(id));
        assert(with_pending(s, id, second) =~= seq![(id, second)]);
    }
}

/// A broadcaster holds one pending transaction per distinct id, so a
/// rebroadcast, which submits each pending transaction once, submits once per
/// distinct id.
pub proof fn lemma_one_submission_per_id(b: &ChainBroadcaster)
    requires
        b.wf(),
    ensures
        ids(b.pending()).to_set().len() == b.pending().len(),
{
    ids(b.pending()).unique_seq_to_set();
}

} // verus!
