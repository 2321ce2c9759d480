use hyper::body::Sender;
use vstd::prelude::*;

verus! {

/// hyper's write end of a response body channel, one per attached client.
#[verifier::external_type_specification]
#[verifier::external_body]
pub struct ExSender(hyper::body::Sender);

/// Relies on hyper's `Sender::abort`: it ends the body with an error and takes the
/// sender by value, so nothing more can be written through it.
pub assume_specification[ hyper::body::Sender::abort ](s: hyper::body::Sender);

/// The clients of `clients` among the first `n` whose write succeeded, that is
/// whose entry in `delivered` is true, in their order.
pub open spec fn kept_prefix<T>(clients: Seq<T>, delivered: Seq<bool>, n: int) -> Seq<T>
    decreases n,
{
    if n <= 0 {
        Seq::empty()
    } else if delivered[n - 1] {
        kept_prefix(clients, delivered, n - 1).push(clients[n - 1])
    } else {
        kept_prefix(clients, delivered, n - 1)
    }
}

/// The clients whose write succeeded, in their order.
pub open spec fn kept<T>(clients: Seq<T>, delivered: Seq<bool>) -> Seq<T> {
    kept_prefix(clients, delivered, clients.len() as int)
}

/// Among the first `n` clients, those whose write succeeded are kept, and no
/// other.
proof fn lemma_kept_prefix_members<T>(clients: Seq<T>, delivered: Seq<bool>, n: int)
    requires
        0 <= n <= clients.len(),
        delivered.len() == clients.len(),
    ensures
        forall|i: int|
            0 <= i < n && delivered[i] ==> #[trigger] kept_prefix(clients, delivered, n).contains(
                clients[i],
            ),
        forall|x: T|
            #[trigger] kept_prefix(clients, delivered, n).contains(x) ==> exists|i: int|
                0 <= i < n && delivered[i] && clients[i] == x,
    decreases n,
{
    if n > 0 {
        let prev = kept_prefix(clients, delivered, n - 1);
        let cur = kept_prefix(clients, delivered, n);
        lemma_kept_prefix_members(clients, delivered, n - 1);
        assert forall|i: int| 0 <= i < n && delivered[i] implies #[trigger] cur.contains(clients[i]) by {
            if i < n - 1 {
                assert(prev.contains(clients[i]));
                let k = choose|k: int| 0 <= k < prev.len() && prev[k] == clients[i];
                assert(cur[k] == clients[i]);
            } else {
                assert(cur[cur.len() - 1] == clients[i]);
            }
        }
        assert forall|x: T| #[trigger] cur.contains(x) implies exists|i: int|
            0 <= i < n && delivered[i] && clients[i] == x by {
            let k = choose|k: int| 0 <= k < cur.len() && cur[k] == x;
            if k < prev.len() {
                assert(prev[k] == x);
                assert(prev.contains(x));
            } else {
                assert(delivered[n - 1] && clients[n - 1] == x);
            }
        }
    }
}

/// A broadcast keeps every client whose write succeeded, and only those. Each
/// outcome is tied to its own client, so the order in which the writes complete
/// does not change which clients stay attached.
pub proof fn lemma_kept_exactly_delivered<T>(clients: Seq<T>, delivered: Seq<bool>)
    requires
        delivered.len() == clients.len(),
    ensures
        forall|i: int|
            0 <= i < clients.len() && delivered[i] ==> #[trigger] kept(clients, delivered).contains(
                clients[i],
            ),
        forall|x: T|
            #[trigger] kept(clients, delivered).contains(x) ==> exists|i: int|
                0 <= i < clients.len() && delivered[i] && clients[i] == x,
{
    lemma_kept_prefix_members(clients, delivered, clients.len() as int);
}

/// Keeping the first `n` clients when all their writes succeeded gives those `n`
/// clients.
proof fn lemma_kept_prefix_all<T>(clients: Seq<T>, delivered: Seq<bool>, n: int)
    requires
        0 <= n <= clients.len(),
        delivered.len() == clients.len(),
        forall|i: int| 0 <= i < delivered.len() ==> delivered[i],
    ensures
        kept_prefix(clients, delivered, n) == clients.subrange(0, n),
    decreases n,
{
    if n > 0 {
        lemma_kept_prefix_all(clients, delivered, n - 1);
        assert(clients.subrange(0, n - 1).push(clients[n - 1]) =~= clients.subrange(0, n));
    } else {
        assert(clients.subrange(0, 0) =~= Seq::<T>::empty());
    }
}

/// When no write fails, a broadcast (a heartbeat too) keeps every client in its
/// place, so repeating it never changes the number of attached clients.
pub proof fn lemma_all_delivered_keeps_all<T>(clients: Seq<T>, delivered: Seq<bool>)
    requires
        delivered.len() == clients.len(),
        forall|i: int| 0 <= i < delivered.len() ==> delivered[i],
    ensures
        kept(clients, delivered) == clients,
{
    lemma_kept_prefix_all(clients, delivered, clients.len() as int);
    assert(clients.subrange(0, clients.len() as int) =~= clients);
}

/// A server-sent events server: the response streams of the attached clients.
///
/// A stream stays attached until a write to it fails or `disconnect_all` is
/// called. A failed write is the only way a closed connection is noticed, so the
/// number of attached streams may be larger than the number of live clients.
#[derive(Debug)]
pub struct Server {
    clients: Vec<Sender>,
}

impl View for Server {
    type V = Seq<Sender>;

    /// The attached client streams, in the order they were attached.
    closed spec fn view(&self) -> Seq<Sender> {
        self.clients@
    }
}

impl Default for Server {
    fn default() -> (r: Self)
        ensures
            r@ == Seq::<Sender>::empty(),
    {
        Server::new()
    }
}

impl Server {
    /// Create a new server with no clients.
    pub fn new() -> (r: Self)
        ensures
            r@ == Seq::<Sender>::empty(),
    {
        Server { clients: Vec::new() }
    }

    /// Add a client to the server. A `Sender` comes from `Body::channel()`.
    pub fn add_client(&mut self, client: Sender)
        ensures
            final(self)@ == old(self)@.push(client),
    {
        self.clients.push(client);
    }

    /// Count the attached streams, without any I/O. This may count clients that
    /// have gone away since the last broadcast.
    pub fn connections(&self) -> (r: usize)
        ensures
            r == self@.len(),
    {
        self.clients.len()
    }

    /// Abort the stream of every client, then forget them all.
    pub fn disconnect_all(&mut self)
        ensures
            final(self)@ == Seq::<Sender>::empty(),
    {
        let mut clients = Vec::new();
        std::mem::swap(&mut self.clients, &mut clients);
        for client in clients.into_iter()
            invariant
                self@ == Seq::<Sender>::empty(),
        {
            client.abort();
        }
    }

    /// Hand out the attached streams for a broadcast, leaving none attached. Once
    /// every write has been tried, `keep_delivered` takes them back.
    pub fn take_clients(&mut self) -> (r: Vec<Sender>)
        ensures
            r@ == old(self)@,
            final(self)@ == Seq::<Sender>::empty(),
    {
        let mut clients = Vec::new();
        std::mem::swap(&mut self.clients, &mut clients);
        clients
    }

    /// End a broadcast: attach again the streams of `clients` whose write
    /// succeeded (`delivered[i]` for `clients[i]`), drop the others, and return the
    /// number of attached streams.
    pub fn keep_delivered(&mut self, clients: Vec<Sender>, delivered: &Vec<bool>) -> (r: usize)
        requires
            delivered@.len() == clients@.len(),
        ensures
            final(self)@ == old(self)@ + kept(clients@, delivered@),
            r == final(self)@.len(),
    {
        let ghost start = self@;
        let ghost all = clients@;
        let n = clients.len();
        let mut i: usize = 0;
        for client in it: clients.into_iter()
            invariant
                delivered@.len() == all.len(),
                it.seq() == all,
                i == it.index(),
                all.len() == n,
                self@ == start + kept_prefix(all, delivered@, i as int),
        {
            if delivered[i] {
                self.clients.push(client);
            }
            assert(self@ =~= start + kept_prefix(all, delivered@, i + 1));
            i = i + 1;
        }
        self.clients.len()
    }
}

} // verus!
