//! The bookkeeping of the WebSocket bridge: which clients listen to which
//! topic, over which channel, and what becomes of them when a delivery fails.

use vstd::prelude::*;
use crate::channel::ClientChannel;
use crate::assoc::{
    assoc_map, find_key, keys_unique, lemma_assoc_lookup, lemma_assoc_push, lemma_assoc_remove,
    lemma_assoc_update,
};

verus! {

/// The socket address of a WebSocket client: an IPv4 address is held in the
/// low 32 bits of `ip`, with `v6` false and `flowinfo` and `scope_id` zero.
#[derive(Clone, Copy, Debug, PartialEq, Eq, Structural)]
pub struct ClientAddr {
    pub v6: bool,
    pub ip: u128,
    pub port: u16,
    pub flowinfo: u32,
    pub scope_id: u32,
}

/// A client of a topic: its address and the channel that feeds its socket.
pub type Client = (ClientAddr, ClientChannel);

/// The clients after `text` is offered once on each of their channels, the
/// offer to the client at place `k` having outcome `d[k]`.
pub open spec fn offered_to(cs: Seq<Client>, text: Seq<char>, d: Seq<bool>) -> Seq<Client> {
    Seq::new(cs.len(), |k: int| (cs[k].0, cs[k].1.after_offer(text, d[k])))
}

/// The topics once `text` has been offered to every client of `topic`, with
/// outcomes `d`.
pub open spec fn offered_on(
    m: Map<Seq<char>, Seq<Client>>,
    topic: Seq<char>,
    text: Seq<char>,
    d: Seq<bool>,
) -> Map<Seq<char>, Seq<Client>> {
    if m.contains_key(topic) {
        m.insert(topic, offered_to(m[topic], text, d))
    } else {
        m
    }
}

/// The clients whose address is among `failed`, in their order.
pub open spec fn dropped_clients(s: Seq<Client>, failed: Seq<ClientAddr>) -> Seq<Client>
    decreases s.len(),
{
    if s.len() == 0 {
        Seq::empty()
    } else {
        let r = dropped_clients(s.drop_last(), failed);
        if failed.contains(s.last().0) {
            r.push(s.last())
        } else {
            r
        }
    }
}

/// The clients whose address is not among `failed`, in their order.
pub open spec fn kept_clients(s: Seq<Client>, failed: Seq<ClientAddr>) -> Seq<Client>
    decreases s.len(),
{
    if s.len() == 0 {
        Seq::empty()
    } else {
        let r = kept_clients(s.drop_last(), failed);
        if failed.contains(s.last().0) {
            r
        } else {
            r.push(s.last())
        }
    }
}

/// The topics after a client joins `topic`: appended to its clients, or as
/// the first client of a new topic.
pub open spec fn registered(m: Map<Seq<char>, Seq<Client>>, topic: Seq<char>, c: Client) -> Map<
    Seq<char>,
    Seq<Client>,
> {
    if m.contains_key(topic) {
        m.insert(topic, m[topic].push(c))
    } else {
        m.insert(topic, seq![c])
    }
}

/// A delivery on `topic` with the clients at `failed` failing closes the
/// topic: it leaves the topic with no client.
pub open spec fn delivery_closes(m: Map<Seq<char>, Seq<Client>>, topic: Seq<char>, failed: Seq<ClientAddr>) -> bool {
    m.contains_key(topic) && failed.len() > 0 && kept_clients(m[topic], failed).len() == 0
}

/// The topics after a delivery on `topic` in which the clients at `failed`
/// failed: those clients are dropped, and a topic left with none is closed.
pub open spec fn after_delivery(m: Map<Seq<char>, Seq<Client>>, topic: Seq<char>, failed: Seq<ClientAddr>) -> Map<
    Seq<char>,
    Seq<Client>,
> {
    if !m.contains_key(topic) || failed.len() == 0 {
        m
    } else if kept_clients(m[topic], failed).len() == 0 {
        m.remove(topic)
    } else {
        m.insert(topic, kept_clients(m[topic], failed))
    }
}

/// Every registered topic has at least one client.
pub open spec fn all_topics_live(m: Map<Seq<char>, Seq<Client>>) -> bool {
    forall|t: Seq<char>| m.contains_key(t) ==> #[trigger] m[t].len() > 0
}

/// The clients of each topic, as a sequence.
pub open spec fn client_lists(m: Map<Seq<char>, Vec<Client>>) -> Map<Seq<char>, Seq<Client>> {
    m.map_values(|v: Vec<Client>| v@)
}

/// The topics that WebSocket clients listen to, each with its clients.
pub struct TopicRegistry {
    topics: Vec<(String, Vec<Client>)>,
}

impl TopicRegistry {
    #[verifier::type_invariant]
    spec fn well_formed(self) -> bool {
        &&& keys_unique(self.topics@)
        &&& forall|i: int| 0 <= i < self.topics@.len() ==> #[trigger] self.topics@[i].1@.len() > 0
    }
}

impl View for TopicRegistry {
    type V = Map<Seq<char>, Seq<Client>>;

    closed spec fn view(&self) -> Map<Seq<char>, Seq<Client>> {
        client_lists(assoc_map(self.topics@))
    }
}

proof fn lemma_live(s: Seq<(String, Vec<Client>)>)
    requires
        keys_unique(s),
        forall|i: int| 0 <= i < s.len() ==> #[trigger] s[i].1@.len() > 0,
    ensures
        all_topics_live(client_lists(assoc_map(s))),
{
    assert forall|t: Seq<char>| #[trigger] client_lists(assoc_map(s)).contains_key(t) implies client_lists(
        assoc_map(s),
    )[t].len() > 0 by {
        lemma_assoc_lookup(s, t);
        let i = choose|i: int| 0 <= i < s.len() && #[trigger] s[i].0@ == t;
        assert(s[i].1@.len() > 0);
    }
}

/// The addresses of the clients whose offer failed (`false` in
/// `delivered`, one outcome per client), in the order of the clients.
pub open spec fn failed_of(clients: Seq<Client>, delivered: Seq<bool>) -> Seq<ClientAddr>
    decreases clients.len(),
{
    if clients.len() == 0 {
        Seq::empty()
    } else {
        let r = failed_of(clients.drop_last(), delivered.drop_last());
        if delivered.last() {
            r
        } else {
            r.push(clients.last().0)
        }
    }
}

/// The addresses of the clients whose offer failed, given the outcome of
/// the offer to each client.
pub fn failed_of_outcomes(clients: &Vec<Client>, delivered: &Vec<bool>) -> (r: Vec<ClientAddr>)
    requires
        delivered@.len() == clients@.len(),
    ensures
        r@ == failed_of(clients@, delivered@),
{
    let mut r: Vec<ClientAddr> = Vec::new();
    let mut i: usize = 0;
    while i < clients.len()
        invariant
            delivered@.len() == clients@.len(),
            i <= clients@.len(),
            r@ == failed_of(clients@.take(i as int), delivered@.take(i as int)),
        decreases clients@.len() - i,
    {
        assert(clients@.take(i + 1).drop_last() =~= clients@.take(i as int));
        assert(delivered@.take(i + 1).drop_last() =~= delivered@.take(i as int));
        if !delivered[i] {
            r.push(clients[i].0);
        }
        i = i + 1;
    }
    assert(clients@.take(i as int) =~= clients@);
    assert(delivered@.take(i as int) =~= delivered@);
    r
}

/// What a delivery did: the outcome of the offer to each client, in client
/// order (`true` when some receiver still listened), the addresses whose
/// offer failed, whether the topic was closed, and the clients it dropped.
pub struct Delivery {
    pub closed: bool,
    pub failed: Vec<ClientAddr>,
    pub delivered: Vec<bool>,
    /// The clients dropped from the topic, in client order.
    pub removed: Vec<Client>,
}

/// A delivery on `topic` offers its text once to every client of the topic,
/// in client order: the record of the client at each place gains the text
/// and the outcome reported for that place, its address and sending end
/// stay, and the other topics are untouched.
pub proof fn law_delivery_offers_each_client(
    m: Map<Seq<char>, Seq<Client>>,
    topic: Seq<char>,
    text: Seq<char>,
    d: Seq<bool>,
    k: int,
    other: Seq<char>,
)
    requires
        m.contains_key(topic),
        d.len() == m[topic].len(),
        0 <= k < m[topic].len(),
    ensures
        offered_on(m, topic, text, d)[topic].len() == m[topic].len(),
        offered_on(m, topic, text, d)[topic][k].0 == m[topic][k].0,
        offered_on(m, topic, text, d)[topic][k].1.log() == m[topic][k].1.log().push(text),
        offered_on(m, topic, text, d)[topic][k].1.outcomes() == m[topic][k].1.outcomes().push(d[k]),
        offered_on(m, topic, text, d)[topic][k].1.sender() == m[topic][k].1.sender(),
        other != topic ==> offered_on(m, topic, text, d).contains_key(other) == m.contains_key(other),
        other != topic && m.contains_key(other) ==> offered_on(m, topic, text, d)[other] == m[other],
{
    m[topic][k].1.lemma_after_offer(text, d[k]);
}

/// A client is reported failed exactly when the offer to it had no
/// receiver: each client whose outcome is `false` has its address among the
/// failed ones, each failed address is that of such a client, and a client
/// whose offer was taken adds no address.
pub proof fn law_failed_exactly_the_refused(cs: Seq<Client>, d: Seq<bool>)
    requires
        d.len() == cs.len(),
    ensures
        forall|k: int| 0 <= k < cs.len() && !d[k] ==> failed_of(cs, d).contains(#[trigger] cs[k].0),
        forall|i: int| 0 <= i < failed_of(cs, d).len() ==> exists|k: int|
            0 <= k < cs.len() && !d[k] && cs[k].0 == #[trigger] failed_of(cs, d)[i],
        failed_of(cs, d).len() <= cs.len(),
        (forall|k: int| 0 <= k < cs.len() ==> #[trigger] d[k]) ==> failed_of(cs, d).len() == 0,
    decreases cs.len(),
{
    if cs.len() > 0 {
        let (c2, d2) = (cs.drop_last(), d.drop_last());
        law_failed_exactly_the_refused(c2, d2);
        let f2 = failed_of(c2, d2);
        let f = failed_of(cs, d);
        assert forall|k: int| 0 <= k < cs.len() && !d[k] implies f.contains(#[trigger] cs[k].0) by {
            if k < cs.len() - 1 {
                assert(c2[k] == cs[k] && d2[k] == d[k]);
                let i = choose|i: int| 0 <= i < f2.len() && f2[i] == c2[k].0;
                assert(f[i] == f2[i]);
            } else {
                assert(f[f.len() - 1] == cs[k].0);
            }
        }
        assert forall|i: int| 0 <= i < f.len() implies exists|k: int|
            0 <= k < cs.len() && !d[k] && cs[k].0 == #[trigger] f[i] by {
            if i < f2.len() {
                assert(f[i] == f2[i]);
                let k = choose|k: int| 0 <= k < c2.len() && !d2[k] && c2[k].0 == #[trigger] f2[i];
                assert(cs[k] == c2[k] && d[k] == d2[k]);
            } else {
                assert(!d[cs.len() - 1] && cs[cs.len() - 1].0 == f[i]);
            }
        }
        if forall|k: int| 0 <= k < cs.len() ==> #[trigger] d[k] {
            assert forall|k: int| 0 <= k < c2.len() implies #[trigger] d2[k] by {
                assert(d2[k] == d[k]);
            }
            assert(d[cs.len() - 1]);
        }
    }
}

/// The clients kept after a delivery are exactly those whose address is not
/// among the failed ones, and the clients dropped exactly those whose
/// address is, each in client order.
pub proof fn law_kept_and_dropped_filter(s: Seq<Client>, failed: Seq<ClientAddr>)
    ensures
        kept_clients(s, failed) == s.filter(|c: Client| !failed.contains(c.0)),
        dropped_clients(s, failed) == s.filter(|c: Client| failed.contains(c.0)),
        forall|i: int| 0 <= i < kept_clients(s, failed).len() ==> !failed.contains(
            (#[trigger] kept_clients(s, failed)[i]).0,
        ),
        forall|i: int| 0 <= i < dropped_clients(s, failed).len() ==> failed.contains(
            (#[trigger] dropped_clients(s, failed)[i]).0,
        ),
        forall|k: int| 0 <= k < s.len() && !failed.contains(s[k].0) ==> kept_clients(s, failed).contains(#[trigger] s[k]),
        kept_clients(s, failed).len() + dropped_clients(s, failed).len() == s.len(),
        failed.len() == 0 ==> kept_clients(s, failed) == s,
    decreases s.len(),
{
    reveal(Seq::filter);
    let pk = |c: Client| !failed.contains(c.0);
    let pd = |c: Client| failed.contains(c.0);
    if s.len() > 0 {
        law_kept_and_dropped_filter(s.drop_last(), failed);
        assert(s.filter(pk) == if pk(s.last()) { s.drop_last().filter(pk).push(s.last()) } else { s.drop_last().filter(pk) });
        assert(s.filter(pd) == if pd(s.last()) { s.drop_last().filter(pd).push(s.last()) } else { s.drop_last().filter(pd) });
        if failed.len() == 0 {
            assert(s.drop_last().push(s.last()) =~= s);
        }
    } else {
        assert(s.filter(pk) == s);
        assert(s.filter(pd) == s);
    }
    s.filter_lemma(pk);
    s.filter_lemma(pd);
    assert forall|k: int| 0 <= k < s.len() && !failed.contains(s[k].0) implies kept_clients(s, failed).contains(#[trigger] s[k]) by {
        s.lemma_filter_contains(pk, k);
    }
}

/// After a delivery on a topic in which the clients at `failed` failed, the
/// topic holds exactly its clients whose address is not among `failed`, in
/// order; it is closed, and answered closed, exactly when none is left; the
/// other topics stay as they were.
pub proof fn law_delivery_drops_failed(
    m: Map<Seq<char>, Seq<Client>>,
    topic: Seq<char>,
    failed: Seq<ClientAddr>,
    other: Seq<char>,
)
    requires
        m.contains_key(topic),
        failed.len() > 0,
    ensures
        ({
            let keep = m[topic].filter(|c: Client| !failed.contains(c.0));
            &&& keep.len() == 0 ==> !after_delivery(m, topic, failed).contains_key(topic)
                && delivery_closes(m, topic, failed)
            &&& keep.len() > 0 ==> after_delivery(m, topic, failed).contains_key(topic)
                && after_delivery(m, topic, failed)[topic] == keep
                && !delivery_closes(m, topic, failed)
        }),
        other != topic ==> after_delivery(m, topic, failed).contains_key(other) == m.contains_key(other),
        other != topic && m.contains_key(other) ==> after_delivery(m, topic, failed)[other] == m[other],
{
    law_kept_and_dropped_filter(m[topic], failed);
}

proof fn lemma_failed_of_offered(cs: Seq<Client>, d: Seq<bool>, text: Seq<char>)
    requires
        d.len() == cs.len(),
    ensures
        failed_of(offered_to(cs, text, d), d) == failed_of(cs, d),
    decreases cs.len(),
{
    if cs.len() > 0 {
        assert(offered_to(cs, text, d).drop_last() =~= offered_to(cs.drop_last(), text, d.drop_last()));
        lemma_failed_of_offered(cs.drop_last(), d.drop_last(), text);
    }
}

fn contains_addr(failed: &Vec<ClientAddr>, a: ClientAddr) -> (r: bool)
    ensures
        r == failed@.contains(a),
{
    let mut i: usize = 0;
    while i < failed.len()
        invariant
            i <= failed@.len(),
            forall|j: int| 0 <= j < i ==> failed@[j] != a,
        decreases failed@.len() - i,
    {
        if failed[i] == a {
            return true;
        }
        i = i + 1;
    }
    false
}

fn keep_clients(clients: Vec<Client>, failed: &Vec<ClientAddr>) -> (r: Vec<Client>)
    ensures
        r@ == kept_clients(clients@, failed@),
{
    let mut r: Vec<Client> = Vec::new();
    let mut rest = clients;
    let ghost all = rest@;
    let n = rest.len();
    let mut i: usize = 0;
    while i < n
        invariant
            n == all.len(),
            i <= n,
            rest@ =~= all.subrange(i as int, n as int),
            r@ == kept_clients(all.take(i as int), failed@),
        decreases n - i,
    {
        let c = rest.remove(0);
        assert(c == all[i as int]);
        assert(all.take(i + 1).drop_last() =~= all.take(i as int));
        let is_failed = contains_addr(failed, c.0);
        if !is_failed {
            r.push(c);
        }
        i = i + 1;
    }
    assert(all.take(n as int) =~= all);
    r
}

fn split_clients(clients: Vec<Client>, failed: &Vec<ClientAddr>) -> (r: (Vec<Client>, Vec<Client>))
    ensures
        r.0@ == kept_clients(clients@, failed@),
        r.1@ == dropped_clients(clients@, failed@),
{
    let mut kept: Vec<Client> = Vec::new();
    let mut dropped: Vec<Client> = Vec::new();
    let mut rest = clients;
    let ghost all = rest@;
    let n = rest.len();
    let mut i: usize = 0;
    while i < n
        invariant
            n == all.len(),
            i <= n,
            rest@ =~= all.subrange(i as int, n as int),
            kept@ == kept_clients(all.take(i as int), failed@),
            dropped@ == dropped_clients(all.take(i as int), failed@),
        decreases n - i,
    {
        let c = rest.remove(0);
        assert(c == all[i as int]);
        assert(all.take(i + 1).drop_last() =~= all.take(i as int));
        let is_failed = contains_addr(failed, c.0);
        if is_failed {
            dropped.push(c);
        } else {
            kept.push(c);
        }
        i = i + 1;
    }
    assert(all.take(n as int) =~= all);
    (kept, dropped)
}

impl TopicRegistry {
    /// A registry with no topic.
    pub fn new() -> (r: Self)
        ensures
            r@ == Map::<Seq<char>, Seq<Client>>::empty(),
    {
        let r = TopicRegistry { topics: Vec::new() };
        assert(r@ =~= Map::<Seq<char>, Seq<Client>>::empty());
        r
    }

    /// Whether some client listens to `topic`.
    pub fn has_topic(&self, topic: &str) -> (r: bool)
        ensures
            r == self@.contains_key(topic@),
    {
        proof {
            use_type_invariant(self);
        }
        find_key(&self.topics, topic).is_some()
    }

    /// Adds a client to `topic`. Answers `true` when the topic is new, so that
    /// the caller starts the one task that feeds it.
    pub fn register(&mut self, topic: String, addr: ClientAddr, channel: ClientChannel) -> (spawn: bool)
        ensures
            spawn == !old(self)@.contains_key(topic@),
            final(self)@ == registered(old(self)@, topic@, (addr, channel)),
            all_topics_live(final(self)@),
    {
        proof {
            use_type_invariant(&*self);
        }
        let mut topics: Vec<(String, Vec<Client>)> = Vec::new();
        std::mem::swap(&mut topics, &mut self.topics);
        let ghost before = topics@;
        let ghost c = (addr, channel);
        let spawn;
        match find_key(&topics, topic.as_str()) {
            Some(i) => {
                let (name, mut clients) = topics.remove(i);
                clients.push((addr, channel));
                let ghost p = (name, clients);
                topics.insert(i, (name, clients));
                assert(topics@ =~= before.update(i as int, p));
                proof {
                    lemma_assoc_update(before, i as int, p);
                }
                spawn = false;
            },
            None => {
                let mut clients: Vec<Client> = Vec::new();
                clients.push((addr, channel));
                let ghost p = (topic, clients);
                proof {
                    lemma_assoc_push(before, p);
                }
                topics.push((topic, clients));
                spawn = true;
            },
        }
        assert(client_lists(assoc_map(topics@)) =~= registered(client_lists(assoc_map(before)), topic@, c));
        assert forall|j: int| 0 <= j < topics@.len() implies #[trigger] topics@[j].1@.len() > 0 by {
            if topics@[j].0@ != topic@ {
                assert(exists|k: int| 0 <= k < before.len() && before[k] == topics@[j]);
            }
        }
        proof {
            lemma_live(topics@);
        }
        self.topics = topics;
        spawn
    }

    /// Drops the clients of `topic` whose address is in `failed`, after a
    /// delivery in which they failed; closes the topic when none is left.
    /// Answers `true` when the topic was closed.
    pub fn retain_delivered(&mut self, topic: &str, failed: &Vec<ClientAddr>) -> (closed: bool)
        ensures
            closed == delivery_closes(old(self)@, topic@, failed@),
            final(self)@ == after_delivery(old(self)@, topic@, failed@),
            all_topics_live(final(self)@),
    {
        proof {
            use_type_invariant(&*self);
            lemma_live(self.topics@);
        }
        if failed.len() == 0 {
            return false;
        }
        let mut topics: Vec<(String, Vec<Client>)> = Vec::new();
        std::mem::swap(&mut topics, &mut self.topics);
        let ghost before = topics@;
        let closed;
        match find_key(&topics, topic) {
            None => {
                closed = false;
            },
            Some(i) => {
                let (name, clients) = topics.remove(i);
                proof {
                    lemma_assoc_remove(before, i as int);
                }
                let kept = keep_clients(clients, failed);
                if kept.len() == 0 {
                    closed = true;
                } else {
                    let ghost p = (name, kept);
                    topics.insert(i, (name, kept));
                    assert(topics@ =~= before.update(i as int, p));
                    proof {
                        lemma_assoc_update(before, i as int, p);
                    }
                    closed = false;
                }
            },
        }
        assert(client_lists(assoc_map(topics@)) =~= after_delivery(client_lists(assoc_map(before)), topic@, failed@));
        assert forall|j: int| 0 <= j < topics@.len() implies #[trigger] topics@[j].1@.len() > 0 by {
            if topics@[j].0@ != topic@ {
                assert(exists|k: int| 0 <= k < before.len() && before[k] == topics@[j]);
            }
        }
        proof {
            lemma_live(topics@);
        }
        self.topics = topics;
        closed
    }

    /// Offers `value` once on the channel of each client of `topic`, in the
    /// order of the clients, then drops the clients whose offer failed (their
    /// channel has no receiver left), and closes the topic when none is
    /// left. Answers the outcome of each offer, the addresses that failed in
    /// the order of the clients, whether the topic was closed, and the
    /// clients dropped. Each outcome is the one the offer on that client's
    /// channel gave: it stands in the record of the channel, whether the
    /// client is kept or dropped.
    pub fn deliver(&mut self, topic: &str, value: &String) -> (r: Delivery)
        ensures
            old(self)@.contains_key(topic@) ==> r.delivered@.len() == old(self)@[topic@].len(),
            old(self)@.contains_key(topic@) ==> r.failed@ == failed_of(old(self)@[topic@], r.delivered@),
            old(self)@.contains_key(topic@) ==> r.removed@ == dropped_clients(
                offered_to(old(self)@[topic@], value@, r.delivered@),
                r.failed@,
            ),
            !old(self)@.contains_key(topic@) ==> r.delivered@.len() == 0 && r.failed@.len() == 0
                && r.removed@.len() == 0,
            final(self)@ == after_delivery(offered_on(old(self)@, topic@, value@, r.delivered@), topic@, r.failed@),
            r.closed == delivery_closes(offered_on(old(self)@, topic@, value@, r.delivered@), topic@, r.failed@),
            all_topics_live(final(self)@),
    {
        proof {
            use_type_invariant(&*self);
        }
        let mut delivered: Vec<bool> = Vec::new();
        let mut topics: Vec<(String, Vec<Client>)> = Vec::new();
        std::mem::swap(&mut topics, &mut self.topics);
        let ghost before = topics@;
        let ghost old_view = client_lists(assoc_map(before));
        match find_key(&topics, topic) {
            None => {
                self.topics = topics;
                proof {
                    lemma_live(self.topics@);
                }
                let failed: Vec<ClientAddr> = Vec::new();
                assert(after_delivery(self@, topic@, failed@) == self@);
                return Delivery { closed: false, failed, delivered, removed: Vec::new() };
            },
            Some(i) => {
                let (name, clients) = topics.remove(i);
                let ghost cs = clients@;
                assert(old_view[topic@] == cs);
                let n = clients.len();
                let mut rest = clients;
                let mut done: Vec<Client> = Vec::new();
                let mut j: usize = 0;
                while j < n
                    invariant
                        n == cs.len(),
                        j <= n,
                        rest@ =~= cs.subrange(j as int, n as int),
                        delivered@.len() == j,
                        done@.len() == j,
                        forall|k: int| 0 <= k < j ==> #[trigger] done@[k] == (cs[k].0, cs[k].1.after_offer(value@, delivered@[k])),
                    decreases n - j,
                {
                    let (a, mut ch) = rest.remove(0);
                    assert((a, ch) == cs[j as int]);
                    let ok = ch.offer(value.clone());
                    done.push((a, ch));
                    delivered.push(ok);
                    j = j + 1;
                }
                let ghost offered = offered_to(cs, value@, delivered@);
                assert(done@ =~= offered);
                proof {
                    lemma_failed_of_offered(cs, delivered@, value@);
                    lemma_assoc_remove(before, i as int);
                    law_kept_and_dropped_filter(offered, Seq::empty());
                }
                let failed = failed_of_outcomes(&done, &delivered);
                let (kept, removed) = split_clients(done, &failed);
                proof {
                    law_kept_and_dropped_filter(offered, failed@);
                }
                let closed;
                if kept.len() == 0 && failed.len() > 0 {
                    closed = true;
                    assert(client_lists(assoc_map(topics@)) =~= after_delivery(
                        offered_on(old_view, topic@, value@, delivered@),
                        topic@,
                        failed@,
                    ));
                } else {
                    closed = false;
                    let ghost p = (name, kept);
                    topics.insert(i, (name, kept));
                    assert(topics@ =~= before.update(i as int, p));
                    proof {
                        lemma_assoc_update(before, i as int, p);
                    }
                    assert(client_lists(assoc_map(topics@)) =~= after_delivery(
                        offered_on(old_view, topic@, value@, delivered@),
                        topic@,
                        failed@,
                    ));
                }
                assert forall|k: int| 0 <= k < topics@.len() implies #[trigger] topics@[k].1@.len() > 0 by {
                    if topics@[k].0@ != topic@ {
                        assert(exists|q: int| 0 <= q < before.len() && before[q] == topics@[k]);
                    }
                }
                proof {
                    lemma_live(topics@);
                }
                self.topics = topics;
                return Delivery { closed, failed, delivered, removed };
            },
        }
    }
}

} // verus!
