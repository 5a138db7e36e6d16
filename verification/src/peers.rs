//! The connected clients and the broadcast of a frame to them.

use async_tungstenite::tungstenite::Message;
use futures_channel::mpsc::UnboundedSender;
use vstd::prelude::*;
use crate::table::{Table, TableKey};

verus! {

/// `tungstenite::Message`, a WebSocket frame.
#[verifier::external_type_specification]
#[verifier::external_body]
pub struct ExMessage(Message);

/// `futures_channel::mpsc::UnboundedSender`, the sending half of a channel.
#[verifier::external_type_specification]
#[verifier::external_body]
#[verifier::reject_recursive_types(T)]
pub struct ExUnboundedSender<T>(UnboundedSender<T>);

/// `Message::clone` (derived): the copy equals the original.
#[verifier::external_body]
fn clone_message(m: &Message) -> (r: Message)
    ensures
        r == *m,
{
    m.clone()
}

/// `UnboundedSender::unbounded_send`: hands `m` to the channel; it returns
/// whether the channel took it. That depends on whether the receiving half is
/// still open, which the task holding it decides, so nothing is stated of the
/// result.
#[verifier::external_body]
fn send_frame(tx: &UnboundedSender<Message>, m: Message) -> bool {
    tx.unbounded_send(m).is_ok()
}

/// How many of the sends in `sends` the channel took.
pub open spec fn successes(sends: Seq<(PeerAddr, bool)>) -> nat
    decreases sends.len(),
{
    if sends.len() == 0 {
        0
    } else {
        successes(sends.drop_last()) + if sends.last().1 { 1nat } else { 0nat }
    }
}

/// The clients of a list of sends, in order.
pub open spec fn clients(sends: Seq<(PeerAddr, bool)>) -> Seq<PeerAddr> {
    sends.map_values(|e: (PeerAddr, bool)| e.0)
}

/// The address of a connected client: an IPv4 or IPv6 socket address, with
/// the IPv4 address in the low 32 bits of `ip`. `flowinfo` and `scope_id` are
/// 0 for IPv4.
#[derive(Clone, Copy, Debug, PartialEq, Eq, Hash, Structural)]
pub struct PeerAddr {
    pub v6: bool,
    pub ip: u128,
    pub port: u16,
    pub flowinfo: u32,
    pub scope_id: u32,
}

impl TableKey for PeerAddr {
    type KeyView = PeerAddr;

    open spec fn key_view(&self) -> PeerAddr {
        *self
    }

    fn same_key(&self, other: &Self) -> (r: bool) {
        *self == *other
    }
}

/// Whether a broadcast that leaves out `exclude` reaches `addr`.
pub open spec fn reaches(exclude: Option<PeerAddr>, addr: PeerAddr) -> bool {
    exclude != Some(addr)
}

/// Each filtered sequence of distinct items holds distinct items.
proof fn lemma_filter_distinct<A>(s: Seq<A>, p: spec_fn(A) -> bool)
    requires
        s.no_duplicates(),
    ensures
        s.filter(p).no_duplicates(),
    decreases s.len(),
{
    reveal(Seq::filter);
    if s.len() > 0 {
        let rest = s.drop_last();
        lemma_filter_distinct(rest, p);
        if p(s.last()) {
            if rest.filter(p).contains(s.last()) {
                rest.lemma_filter_contains_rev(p, s.last());
                let j = choose|j: int| 0 <= j < rest.len() && rest[j] == s.last();
                assert(s[j] == s[s.len() - 1]);
            }
        }
    }
}

/// The connected clients, each with the channel that feeds its writer.
pub struct PeerTable {
    peers: Table<PeerAddr, UnboundedSender<Message>>,
}

impl View for PeerTable {
    type V = Map<PeerAddr, UnboundedSender<Message>>;

    closed spec fn view(&self) -> Map<PeerAddr, UnboundedSender<Message>> {
        self.peers.view()
    }
}

impl PeerTable {
    #[verifier::type_invariant]
    closed spec fn well_formed(self) -> bool {
        self.peers.wf()
    }

    /// The connected clients, in the order in which a broadcast visits them.
    pub closed spec fn order(self) -> Seq<PeerAddr> {
        self.peers.keys()
    }

    /// The clients that a broadcast leaving out `exclude` sends to, in order.
    pub open spec fn addressees(self, exclude: Option<PeerAddr>) -> Seq<PeerAddr> {
        self.order().filter(|a: PeerAddr| reaches(exclude, a))
    }

    /// No client connected.
    pub fn new() -> (t: Self)
        ensures
            t@ == Map::<PeerAddr, UnboundedSender<Message>>::empty(),
            t@.dom().finite(),
    {
        PeerTable { peers: Table::new() }
    }

    /// Number of connected clients.
    pub fn len(&self) -> (n: usize)
        ensures
            self@.dom().finite(),
            n == self@.dom().len(),
    {
        proof {
            use_type_invariant(self);
            self.peers.lemma_view();
        }
        self.peers.len()
    }

    /// Records that `addr` connected and is fed through `tx`; an earlier
    /// record for the same address is replaced.
    pub fn connect(&mut self, addr: PeerAddr, tx: UnboundedSender<Message>)
        ensures
            final(self)@ == old(self)@.insert(addr, tx),
            old(self)@.dom().finite(),
            final(self)@.dom().finite(),
    {
        proof {
            use_type_invariant(&*self);
            self.peers.lemma_view();
        }
        let mut peers = Table::new();
        std::mem::swap(&mut peers, &mut self.peers);
        peers.insert(addr, tx);
        proof { peers.lemma_view(); }
        self.peers = peers;
    }

    /// Forgets the client at `addr`.
    pub fn disconnect(&mut self, addr: &PeerAddr)
        ensures
            final(self)@ == old(self)@.remove(*addr),
            old(self)@.dom().finite(),
            final(self)@.dom().finite(),
    {
        proof {
            use_type_invariant(&*self);
            self.peers.lemma_view();
        }
        let mut peers = Table::new();
        std::mem::swap(&mut peers, &mut self.peers);
        peers.remove(addr);
        proof { peers.lemma_view(); }
        self.peers = peers;
    }

    /// The clients a broadcast leaving out `exclude` addresses: every
    /// connected client but that one, each once.
    proof fn lemma_addressees(self, exclude: Option<PeerAddr>)
        requires
            self.peers.wf(),
        ensures
            self.addressees(exclude).no_duplicates(),
            forall|a: PeerAddr| #[trigger] self.addressees(exclude).contains(a)
                <==> (self@.contains_key(a) && reaches(exclude, a)),
            self.addressees(exclude).len() == if exclude matches Some(x) && self@.contains_key(x) {
                self@.dom().len() - 1
            } else {
                self@.dom().len() as int
            },
    {
        let p = |a: PeerAddr| reaches(exclude, a);
        let s = self.order();
        self.peers.lemma_view();
        lemma_filter_distinct(s, p);
        assert forall|a: PeerAddr| #[trigger] s.filter(p).contains(a) <==> (self@.contains_key(a) && reaches(exclude, a)) by {
            if s.filter(p).contains(a) {
                s.lemma_filter_contains_rev(p, a);
                let i = choose|i: int| 0 <= i < s.filter(p).len() && s.filter(p)[i] == a;
                s.lemma_filter_pred(p, i);
            }
            if self@.contains_key(a) && reaches(exclude, a) {
                let i = choose|i: int| 0 <= i < s.len() && s[i] == a;
                s.lemma_filter_contains(p, i);
            }
        }
        let f = s.filter(p);
        f.unique_seq_to_set();
        match exclude {
            Some(x) => {
                assert(f.to_set() =~= self@.dom().remove(x));
            },
            None => {
                assert(f.to_set() =~= self@.dom());
            },
        }
    }

    /// Hands a copy of `message` to the channel of every connected client but
    /// `exclude`, in table order, each once, and to no other; a closed channel
    /// does not keep the frame from the others. Returns how many channels took
    /// it, and each send with whether its channel took it. The table is left as
    /// it was.
    pub fn broadcast(&self, message: &Message, exclude: Option<&PeerAddr>) -> (r: (usize, Vec<(PeerAddr, bool)>))
        ensures
            ({
                let ex = match exclude { Some(x) => Some(*x), None => None::<PeerAddr> };
                &&& clients(r.1@) == self.addressees(ex)
                &&& r.0 == successes(r.1@)
                &&& self.addressees(ex).no_duplicates()
                &&& forall|a: PeerAddr| #[trigger] self.addressees(ex).contains(a)
                    <==> (self@.contains_key(a) && reaches(ex, a))
                &&& self.addressees(ex).len() == if ex matches Some(x) && self@.contains_key(x) {
                        self@.dom().len() - 1
                    } else {
                        self@.dom().len() as int
                    }
            }),
    {
        proof { use_type_invariant(self); }
        let ghost ex = match exclude { Some(x) => Some(*x), None => None::<PeerAddr> };
        let ghost p = |a: PeerAddr| reaches(ex, a);
        proof { self.lemma_addressees(ex); }
        let n = self.peers.len();
        let mut sent: usize = 0;
        let mut sends: Vec<(PeerAddr, bool)> = Vec::new();
        let mut i: usize = 0;
        while i < n
            invariant
                self.peers.wf(),
                n == self.order().len(),
                i <= n,
                sent <= sends@.len() <= i,
                ex == match exclude { Some(x) => Some(*x), None => None::<PeerAddr> },
                p == (|a: PeerAddr| reaches(ex, a)),
                clients(sends@) == self.order().take(i as int).filter(p),
                sent == successes(sends@),
            decreases n - i,
        {
            let (addr, tx) = self.peers.entry(i);
            let goes = match exclude {
                Some(x) => !(*addr == *x),
                None => true,
            };
            let ghost before = sends@;
            if goes {
                let ok = send_frame(tx, clone_message(message));
                sends.push((*addr, ok));
                if ok {
                    sent = sent + 1;
                }
            }
            proof {
                reveal(Seq::filter);
                let s = self.order();
                assert(s.take(i + 1).drop_last() =~= s.take(i as int));
                assert(s.take(i + 1).last() == s[i as int]);
                assert(*addr == s[i as int]);
                assert(goes == p(s[i as int]));
                if goes {
                    assert(sends@.drop_last() =~= before);
                    assert(clients(sends@) =~= clients(before).push(*addr));
                } else {
                    assert(sends@ == before);
                }
            }
            i = i + 1;
        }
        proof {
            assert(self.order().take(n as int) =~= self.order());
        }
        (sent, sends)
    }
}

} // verus!
