//! The dispatcher: sorts the transactions of a batch into one queue per
//! customer and keeps each customer's transactions in their order.

use vstd::prelude::*;
use std::collections::HashMap;
use crate::transaction::Transaction;

verus! {

/// The transactions of one customer, in the order in which they arrived.
#[derive(Debug)]
pub struct ClientQueue {
    pub client: u32,
    pub transactions: Vec<Transaction>,
}

/// Where the dispatcher sends a transaction: the number of its customer's
/// queue, counted from zero in the order in which the queues were opened,
/// and whether that queue has to be opened first.
#[derive(Clone, Copy, Debug, PartialEq, Eq, Structural)]
pub struct Delivery {
    pub queue: usize,
    pub opened: bool,
}

/// The dispatcher's memory: the customers that have a queue. Its view is
/// the sequence of these customers in the order in which their queues were
/// opened.
pub struct Dispatcher {
    positions: HashMap<u32, usize>,
    known: Vec<u32>,
}

impl View for Dispatcher {
    type V = Seq<u32>;

    closed spec fn view(&self) -> Seq<u32> {
        self.known@
    }
}

/// The customers with a queue once a transaction of `client` has been
/// routed.
pub open spec fn with_customer(known: Seq<u32>, client: u32) -> Seq<u32> {
    if known.contains(client) {
        known
    } else {
        known.push(client)
    }
}

/// The customers that `txs` mention, each once, in the order in which they
/// are first mentioned: the queues that are open when the transactions have
/// been routed one after the other.
pub open spec fn customers(txs: Seq<Transaction>) -> Seq<u32>
    decreases txs.len(),
{
    if txs.len() == 0 {
        Seq::empty()
    } else {
        with_customer(customers(txs.drop_last()), txs.last().client_spec())
    }
}

/// The customers that the transactions mention.
pub open spec fn client_set(txs: Seq<Transaction>) -> Set<u32> {
    Set::new(|client: u32| exists|i: int| 0 <= i < txs.len() && (#[trigger] txs[i]).client_spec() == client)
}

/// The transactions of customer `client` among `txs`, in order.
pub open spec fn queue_of(txs: Seq<Transaction>, client: u32) -> Seq<Transaction>
    decreases txs.len(),
{
    if txs.len() == 0 {
        Seq::empty()
    } else {
        let before = queue_of(txs.drop_last(), client);
        if txs.last().client_spec() == client {
            before.push(txs.last())
        } else {
            before
        }
    }
}

/// The queues are those of the customers of `txs`, in the order in which
/// the customers are first mentioned, each holding its customer's
/// transactions in the order of `txs`.
pub open spec fn routed(queues: Seq<ClientQueue>, txs: Seq<Transaction>) -> bool {
    &&& queues.len() == customers(txs).len()
    &&& forall|j: int|
        0 <= j < queues.len() ==> {
            &&& (#[trigger] queues[j]).client == customers(txs)[j]
            &&& queues[j].transactions@ == queue_of(txs, customers(txs)[j])
        }
}

impl Dispatcher {
    #[verifier::type_invariant]
    spec fn well_formed(self) -> bool {
        &&& self.known@.no_duplicates()
        &&& forall|c: u32| #[trigger] self.positions@.contains_key(c) <==> self.known@.contains(c)
        &&& forall|c: u32| #[trigger]
            self.positions@.contains_key(c) ==> self.positions@[c] < self.known@.len()
                && self.known@[self.positions@[c] as int] == c
    }

    /// A dispatcher that has opened no queue yet.
    pub fn new() -> (dispatcher: Dispatcher)
        ensures
            dispatcher@ == Seq::<u32>::empty(),
    {
        Dispatcher { positions: HashMap::new(), known: Vec::new() }
    }

    /// Decides where a transaction of `client` goes: to the queue that the
    /// customer has, or, at the first sight of the customer, to a new queue
    /// behind those that are open.
    pub fn route(self, client: u32) -> (r: (Dispatcher, Delivery))
        ensures
            r.0@ == with_customer(self@, client),
            r.0@.no_duplicates(),
            r.1.opened == !self@.contains(client),
            r.1.queue < r.0@.len(),
            r.0@[r.1.queue as int] == client,
    {
        broadcast use vstd::std_specs::hash::group_hash_axioms;

        proof {
            use_type_invariant(&self);
        }
        let Dispatcher { positions, known } = self;
        let mut positions = positions;
        let mut known = known;
        let found = match positions.get(&client) {
            Some(p) => Some(*p),
            None => None,
        };
        match found {
            Some(queue) => (Dispatcher { positions, known }, Delivery { queue, opened: false }),
            None => {
                let ghost before = known@;
                let queue = known.len();
                known.push(client);
                positions.insert(client, queue);
                proof {
                    assert(known@[queue as int] == client);
                    assert forall|c: u32| #[trigger]
                        positions@.contains_key(c) <==> known@.contains(c) by {
                        if before.contains(c) {
                            let k = choose|k: int| 0 <= k < before.len() && before[k] == c;
                            assert(known@[k] == c);
                        }
                    }
                }
                (Dispatcher { positions, known }, Delivery { queue, opened: true })
            },
        }
    }
}

/// Hands each transaction to the queue of its customer, opening the queue
/// when the customer is first met.
pub fn dispatch(transactions: &Vec<Transaction>) -> (queues: Vec<ClientQueue>)
    ensures
        routed(queues@, transactions@),
{
    let mut queues: Vec<ClientQueue> = Vec::new();
    let mut dispatcher = Dispatcher::new();
    let mut i: usize = 0;
    while i < transactions.len()
        invariant
            i <= transactions.len(),
            routed(queues@, transactions@.take(i as int)),
            dispatcher@ == customers(transactions@.take(i as int)),
        decreases transactions.len() - i,
    {
        let t = transactions[i];
        let client = t.get_client();
        let ghost seen = transactions@.take(i as int);
        let ghost next = transactions@.take(i + 1);
        let ghost known = customers(seen);
        proof {
            assert(next.drop_last() =~= seen);
            assert(next.last() == t);
            lemma_queue_customer(seen, client);
        }
        let (after, delivery) = dispatcher.route(client);
        dispatcher = after;
        if delivery.opened {
            queues.push(ClientQueue { client, transactions: Vec::new() });
        }
        queues[delivery.queue].transactions.push(t);
        proof {
            assert forall|j: int| 0 <= j < queues.len() implies {
                &&& (#[trigger] queues[j]).client == customers(next)[j]
                &&& queues[j].transactions@ == queue_of(next, customers(next)[j])
            } by {
                if j != delivery.queue {
                    assert(known[j] != client);
                }
            }
        }
        i += 1;
    }
    proof {
        assert(transactions@.take(i as int) =~= transactions@);
    }
    queues
}

/// A customer with a transaction in the batch is among its customers.
pub proof fn lemma_queue_customer(txs: Seq<Transaction>, client: u32)
    ensures
        queue_of(txs, client).len() > 0 <==> customers(txs).contains(client),
        customers(txs).no_duplicates(),
    decreases txs.len(),
{
    if txs.len() > 0 {
        let before = customers(txs.drop_last());
        lemma_queue_customer(txs.drop_last(), client);
        let c = txs.last().client_spec();
        if !before.contains(c) {
            assert(before.push(c).last() == c);
            assert forall|i: int| 0 <= i < before.len() implies before.push(c)[i] == before[i] by {}
            if before.contains(client) {
                let i = choose|i: int| 0 <= i < before.len() && before[i] == client;
                assert(before.push(c)[i] == client);
            }
        }
    }
}

/// There is one queue for each customer that a batch mentions, and none
/// for any other: the customers in the order of their first mention are the
/// distinct customers of the batch, each once.
pub proof fn lemma_one_queue_per_customer(txs: Seq<Transaction>)
    ensures
        customers(txs).no_duplicates(),
        customers(txs).to_set() == client_set(txs),
        client_set(txs).finite(),
        customers(txs).len() == client_set(txs).len(),
    decreases txs.len(),
{
    lemma_queue_customer(txs, 0);
    assert(customers(txs).to_set() =~= client_set(txs)) by {
        assert forall|client: u32| customers(txs).contains(client) <==> client_set(txs).contains(
            client,
        ) by {
            lemma_customer_mentioned(txs, client);
        }
    }
    customers(txs).unique_seq_to_set();
}

proof fn lemma_customer_mentioned(txs: Seq<Transaction>, client: u32)
    ensures
        customers(txs).contains(client) <==> client_set(txs).contains(client),
    decreases txs.len(),
{
    if txs.len() > 0 {
        let head = txs.drop_last();
        lemma_customer_mentioned(head, client);
        let last = txs.last().client_spec();
        if client_set(txs).contains(client) {
            let i = choose|i: int| 0 <= i < txs.len() && (#[trigger] txs[i]).client_spec() == client;
            if i < txs.len() - 1 {
                assert(head[i].client_spec() == client);
            }
        }
        if client_set(head).contains(client) {
            let i = choose|i: int| 0 <= i < head.len() && (#[trigger] head[i]).client_spec() == client;
            assert(txs[i].client_spec() == client);
        }
        if last == client {
            assert(txs[txs.len() - 1].client_spec() == client);
        }
        let before = customers(head);
        if !before.contains(last) {
            assert(before.push(last)[before.len() as int] == last);
            if before.contains(client) {
                let k = choose|k: int| 0 <= k < before.len() && before[k] == client;
                assert(before.push(last)[k] == client);
            }
        }
    }
}

/// Every transaction in a customer's queue is one of the batch.
pub proof fn lemma_queue_from_batch(txs: Seq<Transaction>, client: u32, k: int)
    requires
        0 <= k < queue_of(txs, client).len(),
    ensures
        txs.contains(queue_of(txs, client)[k]),
        queue_of(txs, client)[k].client_spec() == client,
    decreases txs.len(),
{
    if txs.len() > 0 {
        let head = txs.drop_last();
        if k < queue_of(head, client).len() {
            lemma_queue_from_batch(head, client, k);
            let i = choose|i: int| 0 <= i < head.len() && head[i] == queue_of(head, client)[k];
            assert(txs[i] == queue_of(txs, client)[k]);
        } else {
            assert(txs[txs.len() - 1] == queue_of(txs, client)[k]);
        }
    }
}

} // verus!
