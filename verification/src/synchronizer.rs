//! Tells whether the batches that a header refers to are at hand, and what
//! to ask for when they are not.
use crate::messages::{Header, HeaderView};
use crate::types::{Digest, PublicKey, WorkerId};
use vstd::bytes::{spec_u32_to_le_bytes, u32_to_le_bytes};
use vstd::prelude::*;

verus! {

/// What the synchronizer asks of the waiter.
#[derive(Debug, PartialEq, Eq)]
pub enum WaiterMessage {
    /// Fetch these batches, then hand the header back for processing.
    SyncBatches(Vec<(Digest, WorkerId)>, Header),
}

/// A request to the waiter as a mathematical value.
#[verifier::ext_equal]
pub enum WaiterView {
    SyncBatches(Seq<(Digest, WorkerId)>, HeaderView),
}

impl View for WaiterMessage {
    type V = WaiterView;

    open spec fn view(&self) -> WaiterView {
        match self {
            WaiterMessage::SyncBatches(missing, header) => WaiterView::SyncBatches(
                missing@,
                header@,
            ),
        }
    }
}

/// The key under which the store notes that the batch `digest` has come in
/// through the worker `worker`: the digest followed by the worker in little
/// endian. With the worker in the key, a batch that another worker holds
/// counts as missing.
pub open spec fn store_key(digest: Digest, worker: WorkerId) -> Seq<u8> {
    digest.bytes@ + spec_u32_to_le_bytes(worker)
}

/// Whether the answers of the store say that the entry at `i` is at hand.
/// An answer that is not there counts as a batch that is not there.
pub open spec fn at_hand(stored: Seq<bool>, i: int) -> bool {
    0 <= i < stored.len() && stored[i]
}

/// The entries among the first `n` of `payload` that are not at hand, in
/// the order of the payload.
pub open spec fn absent(payload: Seq<(Digest, WorkerId)>, stored: Seq<bool>, n: int) -> Seq<
    (Digest, WorkerId),
>
    decreases n,
{
    if n <= 0 {
        Seq::empty()
    } else if at_hand(stored, n - 1) {
        absent(payload, stored, n - 1)
    } else {
        absent(payload, stored, n - 1).push(payload[n - 1])
    }
}

/// The answers of a store that holds exactly the keys `store`, to the
/// lookups of `keys`.
pub open spec fn answers(store: Set<Seq<u8>>, keys: Seq<Seq<u8>>) -> Seq<bool> {
    Seq::new(keys.len(), |i: int| store.contains(keys[i]))
}

/// The keys to look up for `payload`, one for each entry.
pub open spec fn keys_of(payload: Seq<(Digest, WorkerId)>) -> Seq<Seq<u8>> {
    Seq::new(payload.len(), |i: int| store_key(payload[i].0, payload[i].1))
}

/// Something is absent exactly if some entry is not at hand.
pub proof fn lemma_absent(payload: Seq<(Digest, WorkerId)>, stored: Seq<bool>, n: int)
    requires
        0 <= n <= payload.len(),
    ensures
        absent(payload, stored, n).len() > 0 <==> exists|i: int| 0 <= i < n && !at_hand(stored, i),
    decreases n,
{
    if n > 0 {
        lemma_absent(payload, stored, n - 1);
        if absent(payload, stored, n).len() > 0 {
            if at_hand(stored, n - 1) {
                let i = choose|i: int| 0 <= i < n - 1 && !at_hand(stored, i);
                assert(0 <= i < n && !at_hand(stored, i));
            } else {
                assert(0 <= n - 1 < n && !at_hand(stored, n - 1));
            }
        }
        if exists|i: int| 0 <= i < n && !at_hand(stored, i) {
            let i = choose|i: int| 0 <= i < n && !at_hand(stored, i);
            if i < n - 1 {
                assert(0 <= i < n - 1 && !at_hand(stored, i));
            }
        }
    }
}

/// Checks headers of other primaries for their payload.
#[derive(Clone, Copy, Debug, PartialEq, Eq)]
pub struct Synchronizer {
    /// This primary.
    pub name: PublicKey,
}

impl Synchronizer {
    /// The synchronizer of the primary `name`.
    pub fn new(name: PublicKey) -> (r: Synchronizer)
        ensures
            r.name == name,
    {
        Synchronizer { name }
    }

    /// Whether payload of `header` is missing, given the answers `stored` of
    /// the store.
    pub open spec fn missing(self, header: HeaderView, stored: Seq<bool>) -> bool {
        header.author != self.name && exists|i: int|
            0 <= i < header.payload.len() && !at_hand(stored, i)
    }

    /// The keys to look up in the store for `header`, in the order of its
    /// payload: none for a header of this primary, whose payload is not kept
    /// in the store.
    pub fn payload_keys(&self, header: &Header) -> (r: Vec<Vec<u8>>)
        ensures
            r@.map_values(|key: Vec<u8>| key@) == if header.author == self.name {
                Seq::<Seq<u8>>::empty()
            } else {
                keys_of(header.payload@)
            },
    {
        let mut keys: Vec<Vec<u8>> = Vec::new();
        if header.author == self.name {
            assert(keys@.map_values(|key: Vec<u8>| key@) =~= Seq::<Seq<u8>>::empty());
            return keys;
        }
        let mut i: usize = 0;
        while i < header.payload.len()
            invariant
                i <= header.payload.len(),
                keys@.map_values(|key: Vec<u8>| key@) =~= keys_of(header.payload@).take(i as int),
            decreases header.payload.len() - i,
        {
            let mut key = header.payload[i].0.to_vec();
            let mut worker = u32_to_le_bytes(header.payload[i].1);
            key.append(&mut worker);
            let ghost before = keys@;
            let ghost added = key@;
            keys.push(key);
            proof {
                let all = keys_of(header.payload@);
                assert(added == all[i as int]);
                assert(keys@.map_values(|key: Vec<u8>| key@) =~= before.map_values(
                    |key: Vec<u8>| key@,
                ).push(added));
                assert(all.take(i + 1) =~= all.take(i as int).push(all[i as int]));
            }
            i += 1;
        }
        assert(keys_of(header.payload@).take(i as int) =~= keys_of(header.payload@));
        keys
    }

    /// Tells whether payload of `header` is missing, where `stored` holds,
    /// for each entry of the payload in turn, whether the store has its key.
    ///
    /// Nothing is missing for a header of this primary, whatever the store
    /// says. For any other header something is missing exactly if an entry
    /// is not at hand; the answer then comes with the request for the
    /// waiter, which names every such entry and holds the header.
    pub fn missing_payload(&self, header: &Header, stored: &Vec<bool>) -> (r: (
        bool,
        Option<WaiterMessage>,
    ))
        ensures
            r.0 == self.missing(header@, stored@),
            r.0 <==> r.1 is Some,
            r.1 matches Some(request) ==> request@ == WaiterView::SyncBatches(
                absent(header.payload@, stored@, header.payload.len() as int),
                header@,
            ),
    {
        if header.author == self.name {
            return (false, None);
        }
        let mut missing: Vec<(Digest, WorkerId)> = Vec::new();
        let mut i: usize = 0;
        while i < header.payload.len()
            invariant
                i <= header.payload.len(),
                missing@ == absent(header.payload@, stored@, i as int),
            decreases header.payload.len() - i,
        {
            let found = i < stored.len() && stored[i];
            if !found {
                missing.push(header.payload[i]);
            }
            i += 1;
        }
        proof {
            lemma_absent(header.payload@, stored@, header.payload.len() as int);
        }
        if missing.len() == 0 {
            return (false, None);
        }
        (true, Some(WaiterMessage::SyncBatches(missing, header.clone())))
    }
}

/// With a store that holds exactly the keys `store`, payload of a header of
/// another primary is missing exactly if the store lacks the key of one of
/// its entries; of a header of this primary nothing is ever missing.
pub proof fn lemma_missing_payload(
    synchronizer: Synchronizer,
    header: HeaderView,
    store: Set<Seq<u8>>,
)
    ensures
        header.author == synchronizer.name ==> !synchronizer.missing(
            header,
            answers(store, keys_of(header.payload)),
        ),
        header.author != synchronizer.name ==> (synchronizer.missing(
            header,
            answers(store, keys_of(header.payload)),
        ) <==> exists|i: int|
            0 <= i < header.payload.len() && !store.contains(
                #[trigger] store_key(header.payload[i].0, header.payload[i].1),
            )),
{
    let stored = answers(store, keys_of(header.payload));
    if header.author != synchronizer.name {
        if synchronizer.missing(header, stored) {
            let i = choose|i: int| 0 <= i < header.payload.len() && !at_hand(stored, i);
            assert(!store.contains(store_key(header.payload[i].0, header.payload[i].1)));
        }
        if exists|i: int|
            0 <= i < header.payload.len() && !store.contains(
                #[trigger] store_key(header.payload[i].0, header.payload[i].1),
            ) {
            let i = choose|i: int|
                0 <= i < header.payload.len() && !store.contains(
                    #[trigger] store_key(header.payload[i].0, header.payload[i].1),
                );
            assert(!at_hand(stored, i));
        }
    }
}

} // verus!
