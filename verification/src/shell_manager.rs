//! Who watches which terminal, and which terminals are locked.
//!
//! The terminals themselves and the connections to their clients are up to the
//! caller.

use crate::error::Error;
use crate::protocol::str_text;
use crate::table::{
    in_name_order, is_table, lemma_in_name_order, lemma_name_order_has_all, NameTable,
};
use crate::text::{owned, same_text};
use vstd::prelude::*;

verus! {

/// A client of a terminal: the token of its connection, and where it comes from.
#[derive(Debug)]
pub struct ConnectedClient {
    pub token: u64,
    pub peer_addr: String,
}

#[verifier::ext_equal]
pub struct ClientView {
    pub token: u64,
    pub peer_addr: Seq<char>,
}

impl View for ConnectedClient {
    type V = ClientView;

    open spec fn view(&self) -> ClientView {
        ClientView { token: self.token, peer_addr: self.peer_addr@ }
    }
}

/// The mark of a locked terminal.
#[derive(Debug)]
pub struct LockMark {}

impl View for LockMark {
    type V = ();

    open spec fn view(&self) -> () {
        ()
    }
}

/// The clients of the terminals, by terminal and client, and the terminals that
/// are locked.
#[derive(Debug)]
pub struct ShellManager {
    clients: NameTable<NameTable<ConnectedClient>>,
    locked: NameTable<LockMark>,
}

#[verifier::ext_equal]
pub struct ManagerView {
    pub clients: Map<Seq<char>, Map<Seq<char>, ClientView>>,
    pub locked: Set<Seq<char>>,
}

impl View for ShellManager {
    type V = ManagerView;

    closed spec fn view(&self) -> ManagerView {
        ManagerView { clients: self.clients@, locked: self.locked@.dom() }
    }
}

/// The clients of a terminal.
pub open spec fn clients_of(m: ManagerView, pty: Seq<char>) -> Map<Seq<char>, ClientView> {
    if m.clients.dom().contains(pty) {
        m.clients[pty]
    } else {
        Map::empty()
    }
}

/// With a client more, in place of one that had its name.
pub open spec fn with_client(
    m: ManagerView,
    pty: Seq<char>,
    id: Seq<char>,
    client: ClientView,
) -> ManagerView {
    ManagerView { clients: m.clients.insert(pty, clients_of(m, pty).insert(id, client)), ..m }
}

/// Without a client, if the connection that ended is its own.
pub open spec fn without_client(
    m: ManagerView,
    pty: Seq<char>,
    id: Seq<char>,
    token: u64,
) -> ManagerView {
    if !m.clients.dom().contains(pty) {
        m
    } else {
        let before = m.clients[pty];
        let after = if before.dom().contains(id) && before[id].token == token {
            before.remove(id)
        } else {
            before
        };
        ManagerView {
            clients: if after == Map::<Seq<char>, ClientView>::empty() {
                m.clients.remove(pty)
            } else {
                m.clients.insert(pty, after)
            },
            ..m
        }
    }
}

/// A client as others see it.
#[derive(Debug)]
pub struct ClientSummary {
    pub id: String,
    pub peer_addr: String,
}

impl View for ClientSummary {
    type V = (Seq<char>, Seq<char>);

    open spec fn view(&self) -> (Seq<char>, Seq<char>) {
        (self.id@, self.peer_addr@)
    }
}

/// The clients of a terminal in the order of their names.
pub open spec fn summaries(clients: Map<Seq<char>, ClientView>) -> Seq<(Seq<char>, Seq<char>)> {
    let pairs = in_name_order(clients);
    Seq::new(pairs.len(), |i: int| (pairs[i].0, pairs[i].1.peer_addr))
}

/// What a client may do in a terminal.
pub open spec fn role_of(controller: Option<Seq<char>>, id: Seq<char>) -> Seq<char> {
    if controller == Some(id) {
        "Controller"@
    } else {
        "Viewer"@
    }
}

/// The clients of a terminal with their roles, in the order of their names.
pub open spec fn roles(
    clients: Map<Seq<char>, ClientView>,
    controller: Option<Seq<char>>,
) -> Seq<(Seq<char>, Seq<char>)> {
    let pairs = in_name_order(clients);
    Seq::new(pairs.len(), |i: int| (pairs[i].0, role_of(controller, pairs[i].0)))
}

/// Why a client may not take a terminal over.
pub open spec fn control_refusal(m: ManagerView, pty: Seq<char>, id: Seq<char>) -> Option<Seq<char>> {
    if m.locked.contains(pty) && id != "0"@ {
        Some("pty is locked to user 0"@)
    } else {
        None
    }
}

pub open spec fn summary_views(s: Seq<ClientSummary>) -> Seq<(Seq<char>, Seq<char>)> {
    Seq::new(s.len(), |i: int| s[i]@)
}

pub open spec fn role_views(s: Seq<(String, &'static str)>) -> Seq<(Seq<char>, Seq<char>)> {
    Seq::new(s.len(), |i: int| (s[i].0@, s[i].1@))
}

fn role_name(controller: Option<&str>, id: &str) -> (r: &'static str)
    ensures
        r@ == role_of(str_text(controller), id@),
{
    match controller {
        Some(c) => if same_text(c, id) {
            "Controller"
        } else {
            "Viewer"
        },
        None => "Viewer",
    }
}

impl ShellManager {
    pub fn new() -> (r: ShellManager)
        ensures
            r@ == (ManagerView { clients: Map::empty(), locked: Set::empty() }),
    {
        let r = ShellManager { clients: NameTable::new(), locked: NameTable::new() };
        proof {
            assert(r.locked@.dom() =~= Set::empty());
        }
        r
    }

    /// Notes a client of a terminal.
    pub fn register_client(&mut self, pty: &str, id: &str, token: u64, peer_addr: &str)
        ensures
            final(self)@ == with_client(
                old(self)@,
                pty@,
                id@,
                (ClientView { token, peer_addr: peer_addr@ }),
            ),
    {
        let ghost before = self.clients@;
        let mut clients: NameTable<NameTable<ConnectedClient>> = NameTable::new();
        std::mem::swap(&mut clients, &mut self.clients);
        let (rest, own) = clients.pop(pty);
        let own = match own {
            Some(own) => own,
            None => NameTable::new(),
        };
        let own = own.with(owned(id), ConnectedClient { token, peer_addr: owned(peer_addr) });
        proof {
            assert(before.remove(pty@).insert(pty@, own@) =~= before.insert(pty@, own@));
        }
        self.clients = rest.with(owned(pty), own);
    }

    /// Forgets a client whose connection ended, unless another connection has
    /// its name by now.
    pub fn remove_client(&mut self, pty: &str, id: &str, token: u64)
        ensures
            final(self)@ == without_client(old(self)@, pty@, id@, token),
    {
        let ghost before = self.clients@;
        let mut clients: NameTable<NameTable<ConnectedClient>> = NameTable::new();
        std::mem::swap(&mut clients, &mut self.clients);
        let (rest, own) = clients.pop(pty);
        match own {
            None => {
                proof {
                    assert(before.remove(pty@) =~= before);
                }
                self.clients = rest;
            },
            Some(own) => {
                let is_own = match own.get(id) {
                    Some(client) => client.token == token,
                    None => false,
                };
                let own = if is_own {
                    own.pop(id).0
                } else {
                    own
                };
                if own.is_empty() {
                    self.clients = rest;
                } else {
                    proof {
                        assert(before.remove(pty@).insert(pty@, own@) =~= before.insert(
                            pty@,
                            own@,
                        ));
                    }
                    self.clients = rest.with(owned(pty), own);
                }
            },
        }
    }

    /// Forgets a terminal that was removed.
    pub fn remove_pty(&mut self, pty: &str)
        ensures
            final(self)@ == (ManagerView {
                clients: old(self)@.clients.remove(pty@),
                locked: old(self)@.locked.remove(pty@),
            }),
    {
        let mut clients: NameTable<NameTable<ConnectedClient>> = NameTable::new();
        std::mem::swap(&mut clients, &mut self.clients);
        self.clients = clients.pop(pty).0;
        self.unlock_pty(pty);
    }

    /// The clients of a terminal.
    pub fn client_details(&self, pty: &str) -> (r: Vec<ClientSummary>)
        ensures
            summary_views(r@) == summaries(clients_of(self@, pty@)),
    {
        let mut out: Vec<ClientSummary> = Vec::new();
        match self.clients.get(pty) {
            None => {
                proof {
                    let none = Seq::<(Seq<char>, ClientView)>::empty();
                    lemma_in_name_order(none);
                    assert(summary_views(out@) =~= summaries(clients_of(self@, pty@)));
                }
            },
            Some(own) => {
                let n: usize = own.len();
                let ghost pairs = own.pairs();
                let ghost shown = |i: int| (pairs[i].0, pairs[i].1.peer_addr);
                let mut i: usize = 0;
                while i < n
                    invariant
                        i <= n,
                        n == pairs.len(),
                        pairs == own.pairs(),
                        shown == (|k: int| (pairs[k].0, pairs[k].1.peer_addr)),
                        summary_views(out@) == Seq::new(i as nat, shown),
                    decreases n - i,
                {
                    let ghost before = out@;
                    out.push(
                        ClientSummary {
                            id: owned(own.name_at(i)),
                            peer_addr: own.value_at(i).peer_addr.clone(),
                        },
                    );
                    proof {
                        assert(summary_views(out@) =~= summary_views(before).push(
                            shown(i as int),
                        ));
                        assert(summary_views(out@) =~= Seq::new((i + 1) as nat, shown));
                    }
                    i = i + 1;
                }
            },
        }
        out
    }

    /// The clients of a terminal with what each may do in it.
    pub fn client_roles(&self, pty: &str, controller: Option<&str>) -> (r: Vec<
        (String, &'static str),
    >)
        ensures
            role_views(r@) == roles(clients_of(self@, pty@), str_text(controller)),
    {
        let details = self.client_details(pty);
        let ghost shown = summaries(clients_of(self@, pty@));
        let ghost wanted = roles(clients_of(self@, pty@), str_text(controller));
        let mut out: Vec<(String, &'static str)> = Vec::new();
        let mut i: usize = 0;
        while i < details.len()
            invariant
                i <= details@.len(),
                shown == summary_views(details@),
                shown == summaries(clients_of(self@, pty@)),
                wanted == roles(clients_of(self@, pty@), str_text(controller)),
                role_views(out@) == wanted.take(i as int),
            decreases details@.len() - i,
        {
            let ghost before = out@;
            let id = details[i].id.clone();
            let role = role_name(controller, id.as_str());
            out.push((id, role));
            proof {
                let pairs = in_name_order(clients_of(self@, pty@));
                assert(shown.len() == details@.len() && wanted.len() == pairs.len());
                assert(shown[i as int] == details@[i as int]@);
                assert(shown[i as int].0 == pairs[i as int].0);
                assert(role_views(out@) =~= role_views(before).push(wanted[i as int]));
                assert(role_views(out@) =~= wanted.take(i + 1));
            }
            i = i + 1;
        }
        proof {
            assert(shown.len() == wanted.len());
            assert(wanted.take(wanted.len() as int) =~= wanted);
        }
        out
    }

    /// Locks a terminal that exists to user 0.
    pub fn lock_pty(&mut self, pty: &str, present: bool) -> (r: Result<(), Error>)
        ensures
            if present {
                r is Ok && final(self)@ == (ManagerView {
                    locked: old(self)@.locked.insert(pty@),
                    ..old(self)@
                })
            } else {
                r matches Err(e) && e@ == "pty "@ + pty@ + " does not exist"@ && final(self)@
                    == old(self)@
            },
    {
        if !present {
            let mut m = owned("pty ");
            m.append(pty);
            m.append(" does not exist");
            return Err(Error::new(m));
        }
        let ghost before = self.locked@;
        let mut locked: NameTable<LockMark> = NameTable::new();
        std::mem::swap(&mut locked, &mut self.locked);
        self.locked = locked.with(owned(pty), LockMark {  });
        proof {
            assert(before.insert(pty@, ()).dom() =~= before.dom().insert(pty@));
        }
        Ok(())
    }

    pub fn unlock_pty(&mut self, pty: &str)
        ensures
            final(self)@ == (ManagerView {
                locked: old(self)@.locked.remove(pty@),
                ..old(self)@
            }),
    {
        let ghost before = self.locked@;
        let mut locked: NameTable<LockMark> = NameTable::new();
        std::mem::swap(&mut locked, &mut self.locked);
        self.locked = locked.pop(pty).0;
        proof {
            assert(before.remove(pty@).dom() =~= before.dom().remove(pty@));
        }
    }

    pub fn is_locked(&self, pty: &str) -> (r: bool)
        ensures
            r == self@.locked.contains(pty@),
    {
        self.locked.get(pty).is_some()
    }

    /// Checks that a client may take a terminal over.
    pub fn check_control(&self, pty: &str, id: &str) -> (r: Result<(), Error>)
        ensures
            match control_refusal(self@, pty@, id@) {
                None => r is Ok,
                Some(m) => r matches Err(e) && e@ == m,
            },
    {
        if self.is_locked(pty) && !same_text(id, "0") {
            Err(Error::of("pty is locked to user 0"))
        } else {
            Ok(())
        }
    }
}

/// When the connection of a client ends after another one took its name, the
/// newer one stays.
pub proof fn lemma_newer_connection_stays(
    m: ManagerView,
    pty: Seq<char>,
    id: Seq<char>,
    newer: ClientView,
    ended: u64,
)
    requires
        newer.token != ended,
    ensures
        ({
            let after = without_client(with_client(m, pty, id, newer), pty, id, ended);
            clients_of(after, pty).dom().contains(id) && clients_of(after, pty)[id] == newer
        }),
{
    let own = clients_of(m, pty).insert(id, newer);
    assert(own.dom().contains(id));
}

/// A client that comes and goes leaves the other clients as they were.
pub proof fn lemma_other_clients_stay(
    m: ManagerView,
    pty: Seq<char>,
    id: Seq<char>,
    client: ClientView,
    other: Seq<char>,
)
    requires
        other != id,
    ensures
        ({
            let after = without_client(with_client(m, pty, id, client), pty, id, client.token);
            &&& clients_of(after, pty).dom().contains(other) == clients_of(m, pty).dom().contains(
                other,
            )
            &&& clients_of(m, pty).dom().contains(other) ==> clients_of(after, pty)[other]
                == clients_of(m, pty)[other]
        }),
{
    let own = clients_of(m, pty).insert(id, client).remove(id);
    if clients_of(m, pty).dom().contains(other) {
        assert(own.dom().contains(other));
    }
}

/// A client that joined a terminal is there with its address; no other client, no other
/// terminal and no lock is touched.
pub proof fn lemma_client_joins(
    m: ManagerView,
    pty: Seq<char>,
    id: Seq<char>,
    client: ClientView,
    other: Seq<char>,
)
    ensures
        ({
            let after = with_client(m, pty, id, client);
            &&& clients_of(after, pty).dom() == clients_of(m, pty).dom().insert(id)
            &&& clients_of(after, pty)[id] == client
            &&& other != id ==> clients_of(after, pty)[other] == clients_of(m, pty)[other]
            &&& other != pty ==> clients_of(after, other) == clients_of(m, other)
            &&& after.locked == m.locked
        }),
{
}

/// A client that left is gone from its terminal, and nothing else changed.
pub proof fn lemma_client_leaves(
    m: ManagerView,
    pty: Seq<char>,
    id: Seq<char>,
    token: u64,
    other: Seq<char>,
)
    requires
        clients_of(m, pty).dom().contains(id),
    ensures
        ({
            let after = without_client(m, pty, id, token);
            let own = clients_of(m, pty)[id].token == token;
            &&& own ==> !clients_of(after, pty).dom().contains(id)
            &&& own && other != id ==> clients_of(after, pty).dom().contains(other) == clients_of(
                m,
                pty,
            ).dom().contains(other)
            &&& own && other != id && clients_of(m, pty).dom().contains(other) ==> clients_of(
                after,
                pty,
            )[other] == clients_of(m, pty)[other]
            &&& !own ==> clients_of(after, pty) == clients_of(m, pty)
            &&& other != pty ==> clients_of(after, other) == clients_of(m, other)
            &&& after.locked == m.locked
        }),
{
    let before = m.clients[pty];
    if before[id].token == token {
        let rest = before.remove(id);
        if rest == Map::<Seq<char>, ClientView>::empty() {
            assert(!rest.dom().contains(other));
        }
    } else {
        assert(before.dom().contains(id));
        assert(before != Map::<Seq<char>, ClientView>::empty());
    }
}

/// A locked terminal goes to the local user alone, any other to everyone.
pub proof fn lemma_locked_terminals(m: ManagerView, pty: Seq<char>, id: Seq<char>)
    ensures
        control_refusal(m, pty, id) is Some <==> m.locked.contains(pty) && id != "0"@,
{
}

/// Every client of a terminal is listed with its address and with its role, and exactly
/// the one that controls the terminal is its controller.
pub proof fn lemma_every_client_is_listed(
    clients: Map<Seq<char>, ClientView>,
    controller: Option<Seq<char>>,
    id: Seq<char>,
    i: int,
)
    requires
        is_table(clients),
    ensures
        clients.dom().contains(id) ==> summaries(clients).contains((id, clients[id].peer_addr)),
        clients.dom().contains(id) ==> roles(clients, controller).contains(
            (
                id,
                if controller == Some(id) {
                    "Controller"@
                } else {
                    "Viewer"@
                },
            ),
        ),
        summaries(clients).len() == roles(clients, controller).len(),
        0 <= i < summaries(clients).len() ==> clients.dom().contains(summaries(clients)[i].0)
            && roles(clients, controller)[i].0 == summaries(clients)[i].0,
{
    lemma_name_order_has_all(clients);
    let pairs = in_name_order(clients);
    if clients.dom().contains(id) {
        let k = choose|k: int| 0 <= k < pairs.len() && (#[trigger] pairs[k]).0 == id;
        assert(summaries(clients)[k] == (id, clients[id].peer_addr));
        assert(roles(clients, controller)[k].0 == id);
    }
}

} // verus!
