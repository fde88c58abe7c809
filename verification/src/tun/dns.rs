//! DNS through SCDynamicStore.
//!
//! We publish a network service describing the tunnel instead of touching
//! `/etc/resolv.conf`, which macOS regenerates. Registering the servers as a
//! catch-all supplemental resolver makes them apply to every query without
//! having to displace the physical interface as primary service.

use vstd::prelude::*;
use vstd::string::*;

use crate::addr::Ipv4Addr;
use crate::text::{text_of, texts};

verus! {

/// Key of the service's addressing, ours alone.
pub const IPV4_KEY: &'static str = "State:/Network/Service/muta/IPv4";

/// Key of the service's resolver, ours alone.
pub const DNS_KEY: &'static str = "State:/Network/Service/muta/DNS";

/// A value in a dictionary.
#[derive(Debug)]
pub enum Value {
    Text(String),
    List(Vec<String>),
}

/// A value as plain text.
#[verifier::ext_equal]
pub enum ValueView {
    Text(Seq<char>),
    List(Seq<Seq<char>>),
}

impl View for Value {
    type V = ValueView;

    open spec fn view(&self) -> ValueView {
        match self {
            Value::Text(s) => ValueView::Text(s@),
            Value::List(v) => ValueView::List(texts(v@)),
        }
    }
}

/// A named value in a dictionary.
#[derive(Debug)]
pub struct Entry {
    pub name: String,
    pub value: Value,
}

/// A dictionary as plain text.
pub open spec fn entries_of(v: Seq<Entry>) -> Seq<(Seq<char>, ValueView)> {
    v.map_values(|e: Entry| (e.name@, e.value@))
}

/// Something that keeps dictionaries by key.
pub trait DynamicStore {
    /// Make the store ready; whether that worked.
    fn open(&mut self) -> bool;

    /// Whether the store took the dictionary.
    fn set(&mut self, key: &str, entries: &Vec<Entry>) -> bool;

    /// Whether there was something to remove.
    fn remove(&mut self, key: &str) -> bool;
}

/// One thing that was asked of a store.
#[verifier::ext_equal]
pub enum StoreEvent {
    Opened { ready: bool },
    Stored { key: Seq<char>, entries: Seq<(Seq<char>, ValueView)>, taken: bool },
    Removed { key: Seq<char>, found: bool },
}

/// A store together with a record of what was asked of it, which exists for
/// specification only.
pub struct Registry<S> {
    store: S,
    log: Ghost<Seq<StoreEvent>>,
}

impl<S> Registry<S> {
    /// Everything that was asked, oldest first.
    pub closed spec fn log(&self) -> Seq<StoreEvent> {
        self.log@
    }

    /// The store as it stands.
    pub closed spec fn store(&self) -> S {
        self.store
    }
}

impl<S: DynamicStore> Registry<S> {
    pub fn new(store: S) -> (r: Self)
        ensures
            r.log() == Seq::<StoreEvent>::empty(),
            r.store() == store,
    {
        Registry { store, log: Ghost(Seq::empty()) }
    }

    pub fn open(&mut self) -> (r: bool)
        ensures
            exists|t: &mut S|
                {
                    &&& #[trigger] call_ensures(S::open, (t,), r)
                    &&& *t == old(self).store()
                    &&& *final(t) == final(self).store()
                },
            final(self).log() == old(self).log().push(StoreEvent::Opened { ready: r }),
    {
        let r = self.store.open();
        self.log = Ghost(self.log@.push(StoreEvent::Opened { ready: r }));
        r
    }

    pub fn set(&mut self, key: &str, entries: &Vec<Entry>) -> (r: bool)
        ensures
            exists|t: &mut S|
                {
                    &&& #[trigger] call_ensures(S::set, (t, key, entries), r)
                    &&& *t == old(self).store()
                    &&& *final(t) == final(self).store()
                },
            final(self).log() == old(self).log().push(
                StoreEvent::Stored { key: key@, entries: entries_of(entries@), taken: r },
            ),
    {
        let r = self.store.set(key, entries);
        self.log =
        Ghost(
            self.log@.push(
                StoreEvent::Stored { key: key@, entries: entries_of(entries@), taken: r },
            ),
        );
        r
    }

    pub fn remove(&mut self, key: &str) -> (r: bool)
        ensures
            exists|t: &mut S|
                {
                    &&& #[trigger] call_ensures(S::remove, (t, key), r)
                    &&& *t == old(self).store()
                    &&& *final(t) == final(self).store()
                },
            final(self).log() == old(self).log().push(
                StoreEvent::Removed { key: key@, found: r },
            ),
    {
        let r = self.store.remove(key);
        self.log = Ghost(self.log@.push(StoreEvent::Removed { key: key@, found: r }));
        r
    }
}

/// Whether `log` continues `earlier`.
pub open spec fn store_continues(log: Seq<StoreEvent>, earlier: Seq<StoreEvent>) -> bool {
    &&& earlier.len() <= log.len()
    &&& forall|i: int| 0 <= i < earlier.len() ==> #[trigger] log[i] == earlier[i]
}

/// The addressing of the tunnel service.
pub open spec fn ipv4_entries(interface: Seq<char>, address: Ipv4Addr, router: Ipv4Addr) -> Seq<
    (Seq<char>, ValueView),
> {
    seq![
        ("Addresses"@, ValueView::List(seq![address.text()])),
        ("SubnetMasks"@, ValueView::List(seq!["255.255.255.255"@])),
        ("Router"@, ValueView::Text(router.text())),
        ("InterfaceName"@, ValueView::Text(interface)),
    ]
}

/// The addresses as text.
pub open spec fn address_texts(v: Seq<Ipv4Addr>) -> Seq<Seq<char>> {
    v.map_values(|a: Ipv4Addr| a.text())
}

/// The resolver of the tunnel service. An empty match domain makes the servers
/// apply to all queries.
pub open spec fn dns_entries(servers: Seq<Ipv4Addr>, domain: Option<Seq<char>>) -> Seq<
    (Seq<char>, ValueView),
> {
    seq![
        ("ServerAddresses"@, ValueView::List(address_texts(servers))),
        ("SupplementalMatchDomains"@, ValueView::List(seq![""@])),
    ] + match domain {
        Some(domain) => seq![
            ("DomainName"@, ValueView::Text(domain)),
            ("SearchDomains"@, ValueView::List(seq![domain])),
        ],
        None => Seq::empty(),
    }
}

fn text_entry(name: &str, value: &str) -> (r: Entry)
    ensures
        (r.name@, r.value@) == (name@, ValueView::Text(value@)),
{
    Entry { name: name.to_owned(), value: Value::Text(value.to_owned()) }
}

fn list_entry(name: &str, value: &str) -> (r: Entry)
    ensures
        (r.name@, r.value@) == (name@, ValueView::List(seq![value@])),
{
    let mut list: Vec<String> = Vec::new();
    list.push(value.to_owned());
    assert(texts(list@) =~= seq![value@]);
    Entry { name: name.to_owned(), value: Value::List(list) }
}

fn make_ipv4_entries(interface: &str, address: Ipv4Addr, router: Ipv4Addr) -> (r: Vec<Entry>)
    ensures
        entries_of(r@) == ipv4_entries(interface@, address, router),
{
    let mut r: Vec<Entry> = Vec::new();
    r.push(list_entry("Addresses", address.to_text().as_str()));
    r.push(list_entry("SubnetMasks", "255.255.255.255"));
    r.push(text_entry("Router", router.to_text().as_str()));
    r.push(text_entry("InterfaceName", interface));
    assert(entries_of(r@) =~= ipv4_entries(interface@, address, router));
    r
}

fn make_dns_entries(servers: &Vec<Ipv4Addr>, domain: &Option<String>) -> (r: Vec<Entry>)
    ensures
        entries_of(r@) == dns_entries(servers@, text_of(*domain)),
{
    let mut list: Vec<String> = Vec::new();
    assert(texts(list@) =~= address_texts(servers@).take(0));
    for i in 0..servers.len()
        invariant
            texts(list@) == address_texts(servers@).take(i as int),
    {
        let ghost before = texts(list@);
        let text = servers[i].to_text();
        let ghost shown = text@;
        list.push(text);
        assert(texts(list@) =~= before.push(shown));
        assert(texts(list@) =~= address_texts(servers@).take(i + 1));
    }
    assert(address_texts(servers@).take(servers@.len() as int) =~= address_texts(servers@));
    let mut r: Vec<Entry> = Vec::new();
    r.push(Entry { name: "ServerAddresses".to_owned(), value: Value::List(list) });
    r.push(list_entry("SupplementalMatchDomains", ""));
    if let Some(domain) = domain {
        r.push(text_entry("DomainName", domain.as_str()));
        r.push(list_entry("SearchDomains", domain.as_str()));
    }
    assert(entries_of(r@) =~= dns_entries(servers@, text_of(*domain)));
    r
}

/// Why the service could not be published.
#[derive(Debug)]
pub enum DnsError {
    NoServers,
    Unopened,
    Rejected(String),
}

impl DnsError {
    pub open spec fn text(self) -> Seq<char> {
        match self {
            DnsError::NoServers => "no DNS servers in the lease"@,
            DnsError::Unopened =>
                "could not open SCDynamicStore (is the daemon running as root?)"@,
            DnsError::Rejected(key) => "SCDynamicStore rejected "@ + key@,
        }
    }

    /// The text shown for this error.
    pub fn message(&self) -> (s: String)
        ensures
            s@ == self.text(),
    {
        match self {
            DnsError::NoServers => "no DNS servers in the lease".to_owned(),
            DnsError::Unopened =>
                "could not open SCDynamicStore (is the daemon running as root?)".to_owned(),
            DnsError::Rejected(key) => {
                let mut s = "SCDynamicStore rejected ".to_owned();
                s.append(key.as_str());
                s
            },
        }
    }
}

/// The service we published, removed on teardown.
#[derive(Debug)]
pub struct Dns {
    keys: Vec<String>,
}

impl View for Dns {
    type V = Seq<Seq<char>>;

    /// The keys we hold, in the order they were set.
    closed spec fn view(&self) -> Seq<Seq<char>> {
        texts(self.keys@)
    }
}

/// What publishing asks of the store: it is opened, handed the addressing, then the
/// resolver, and if only the first is taken it is removed again.
pub open spec fn published(
    es: Seq<StoreEvent>,
    at: int,
    ipv4: Seq<(Seq<char>, ValueView)>,
    dns: Seq<(Seq<char>, ValueView)>,
    r: Result<Dns, DnsError>,
) -> bool {
    match r {
        Ok(d) => {
            &&& d@ == seq![IPV4_KEY@, DNS_KEY@]
            &&& es.len() == at + 3
            &&& es[at] == (StoreEvent::Opened { ready: true })
            &&& es[at + 1] == (StoreEvent::Stored { key: IPV4_KEY@, entries: ipv4, taken: true })
            &&& es[at + 2] == (StoreEvent::Stored { key: DNS_KEY@, entries: dns, taken: true })
        },
        Err(DnsError::NoServers) => false,
        Err(DnsError::Unopened) => {
            &&& es.len() == at + 1
            &&& es[at] == (StoreEvent::Opened { ready: false })
        },
        Err(DnsError::Rejected(key)) => {
            ||| {
                &&& key@ == IPV4_KEY@
                &&& es.len() == at + 2
                &&& es[at] == (StoreEvent::Opened { ready: true })
                &&& es[at + 1] == (StoreEvent::Stored {
                    key: IPV4_KEY@,
                    entries: ipv4,
                    taken: false,
                })
            }
            ||| {
                &&& key@ == DNS_KEY@
                &&& es.len() == at + 4
                &&& es[at] == (StoreEvent::Opened { ready: true })
                &&& es[at + 1] == (StoreEvent::Stored {
                    key: IPV4_KEY@,
                    entries: ipv4,
                    taken: true,
                })
                &&& es[at + 2] == (StoreEvent::Stored {
                    key: DNS_KEY@,
                    entries: dns,
                    taken: false,
                })
                &&& es[at + 3] is Removed && es[at + 3]->Removed_key == IPV4_KEY@
            }
        },
    }
}

/// Whether `es` removes `keys` from `at` on, in order, and nothing else.
pub open spec fn keys_removed(es: Seq<StoreEvent>, at: int, keys: Seq<Seq<char>>) -> bool {
    &&& es.len() == at + keys.len()
    &&& forall|i: int|
        0 <= i < keys.len() ==> #[trigger] es[at + i] is Removed && es[at + i]->Removed_key
            == keys[i]
}

impl Dns {
    /// Publish `servers` as the resolver for the tunnel.
    pub fn install<S: DynamicStore>(
        registry: &mut Registry<S>,
        interface: &str,
        address: Ipv4Addr,
        router: Ipv4Addr,
        servers: &Vec<Ipv4Addr>,
        domain: &Option<String>,
    ) -> (r: Result<Self, DnsError>)
        ensures
            store_continues(final(registry).log(), old(registry).log()),
            if servers@.len() == 0 {
                &&& r is Err && r->Err_0 is NoServers
                &&& final(registry).log() == old(registry).log()
            } else {
                published(
                    final(registry).log(),
                    old(registry).log().len() as int,
                    ipv4_entries(interface@, address, router),
                    dns_entries(servers@, text_of(*domain)),
                    r,
                )
            },
    {
        if servers.len() == 0 {
            return Err(DnsError::NoServers);
        }
        if !registry.open() {
            return Err(DnsError::Unopened);
        }
        let mut dns = Dns { keys: Vec::new() };
        if !registry.set(IPV4_KEY, &make_ipv4_entries(interface, address, router)) {
            return Err(DnsError::Rejected(IPV4_KEY.to_owned()));
        }
        dns.keys.push(IPV4_KEY.to_owned());
        assert(dns@ =~= seq![IPV4_KEY@]);
        if !registry.set(DNS_KEY, &make_dns_entries(servers, domain)) {
            let ghost before = registry.log();
            dns.remove(registry);
            assert(registry.log()[before.len() + 0int] is Removed);
            return Err(DnsError::Rejected(DNS_KEY.to_owned()));
        }
        dns.keys.push(DNS_KEY.to_owned());
        assert(dns@ =~= seq![IPV4_KEY@, DNS_KEY@]);
        Ok(dns)
    }

    /// Remove our entries, restoring the previous resolver. Safe to call twice.
    pub fn remove<S: DynamicStore>(&mut self, registry: &mut Registry<S>)
        ensures
            final(self)@ == Seq::<Seq<char>>::empty(),
            store_continues(final(registry).log(), old(registry).log()),
            keys_removed(
                final(registry).log(),
                old(registry).log().len() as int,
                old(self)@,
            ),
    {
        let ghost start = registry.log();
        let ghost all = self@;
        for i in 0..self.keys.len()
            invariant
                start == old(registry).log(),
                all == texts(self.keys@),
                store_continues(registry.log(), start),
                registry.log().len() == start.len() + i,
                forall|j: int|
                    0 <= j < i ==> #[trigger] registry.log()[start.len() + j] is Removed
                        && registry.log()[start.len() + j]->Removed_key == all[j],
        {
            let _ = registry.remove(self.keys[i].as_str());
        }
        self.keys = Vec::new();
        assert(self@ =~= Seq::empty());
    }
}

/// A service that could not be published leaves nothing in the store: what was taken
/// is removed again.
pub proof fn refused_services_leave_no_key(
    es: Seq<StoreEvent>,
    at: int,
    ipv4: Seq<(Seq<char>, ValueView)>,
    dns: Seq<(Seq<char>, ValueView)>,
    r: Result<Dns, DnsError>,
    i: int,
)
    requires
        at >= 0,
        published(es, at, ipv4, dns, r),
        r is Err,
        at <= i < es.len(),
        es[i] matches StoreEvent::Stored { taken, .. } && taken,
    ensures
        exists|j: int|
            i < j < es.len() && #[trigger] es[j] is Removed && es[j]->Removed_key
                == es[i]->Stored_key,
{
    assert(i == at + 1);
    assert(es[at + 3] is Removed && es[at + 3]->Removed_key == es[i]->Stored_key);
}

/// What was published is removed again, and then nothing more is.
pub proof fn withdrawing_twice_removes_nothing_more(es: Seq<StoreEvent>, at: int)
    requires
        keys_removed(es, at, Seq::empty()),
    ensures
        es.len() == at,
{
}

/// What a dictionary says under a name, if it says anything.
pub open spec fn says(entries: Seq<(Seq<char>, ValueView)>, name: Seq<char>, value: ValueView) -> bool {
    exists|i: int| 0 <= i < entries.len() && #[trigger] entries[i] == (name, value)
}

/// The service says the tunnel's address, as a host of its own, its router and its
/// interface.
pub proof fn services_say_their_addressing(
    interface: Seq<char>,
    address: Ipv4Addr,
    router: Ipv4Addr,
)
    ensures
        ({
            let e = ipv4_entries(interface, address, router);
            &&& says(e, "Addresses"@, ValueView::List(seq![address.text()]))
            &&& says(e, "SubnetMasks"@, ValueView::List(seq!["255.255.255.255"@]))
            &&& says(e, "Router"@, ValueView::Text(router.text()))
            &&& says(e, "InterfaceName"@, ValueView::Text(interface))
            &&& e.len() == 4
        }),
{
    let e = ipv4_entries(interface, address, router);
    assert(e[0] == ("Addresses"@, ValueView::List(seq![address.text()])));
    assert(e[1] == ("SubnetMasks"@, ValueView::List(seq!["255.255.255.255"@])));
    assert(e[2] == ("Router"@, ValueView::Text(router.text())));
    assert(e[3] == ("InterfaceName"@, ValueView::Text(interface)));
}

/// The resolver names every server of the lease, in order, for all queries, and the
/// domain where there is one.
pub proof fn resolvers_name_every_server(servers: Seq<Ipv4Addr>, domain: Option<Seq<char>>)
    ensures
        ({
            let e = dns_entries(servers, domain);
            &&& exists|list: Seq<Seq<char>>|
                {
                    &&& #[trigger] says(e, "ServerAddresses"@, ValueView::List(list))
                    &&& list.len() == servers.len()
                    &&& forall|i: int| 0 <= i < list.len() ==> list[i] == servers[i].text()
                }
            &&& says(e, "SupplementalMatchDomains"@, ValueView::List(seq![""@]))
            &&& domain matches Some(d) ==> {
                &&& says(e, "DomainName"@, ValueView::Text(d))
                &&& says(e, "SearchDomains"@, ValueView::List(seq![d]))
                &&& e.len() == 4
            }
            &&& domain is None ==> e.len() == 2
        }),
{
    let e = dns_entries(servers, domain);
    let list = address_texts(servers);
    assert(e[0] == ("ServerAddresses"@, ValueView::List(list)));
    assert(says(e, "ServerAddresses"@, ValueView::List(list)));
    assert(e[1] == ("SupplementalMatchDomains"@, ValueView::List(seq![""@])));
    if let Some(d) = domain {
        assert(e[2] == ("DomainName"@, ValueView::Text(d)));
        assert(e[3] == ("SearchDomains"@, ValueView::List(seq![d])));
    }
}

/// What kept the service from being published is said.
pub proof fn dns_errors_say_what_went_wrong(key: String)
    ensures
        DnsError::NoServers.text() == "no DNS servers in the lease"@,
        DnsError::Unopened.text()
            == "could not open SCDynamicStore (is the daemon running as root?)"@,
        DnsError::Rejected(key).text() == "SCDynamicStore rejected "@ + key@,
{
}

/// A service is published whole or not at all: the store was opened and took both parts,
/// or it refused to open, refused the addressing, or took that and refused the resolver,
/// and then the addressing is taken back.
pub proof fn services_are_published_whole_or_not_at_all(
    es: Seq<StoreEvent>,
    at: int,
    ipv4: Seq<(Seq<char>, ValueView)>,
    dns: Seq<(Seq<char>, ValueView)>,
    r: Result<Dns, DnsError>,
)
    requires
        at >= 0,
        published(es, at, ipv4, dns, r),
    ensures
        es.len() > at,
        es[at] is Opened,
        r is Ok <==> es.len() == at + 3,
        es.len() > at + 1 ==> {
            &&& es[at] == (StoreEvent::Opened { ready: true })
            &&& es[at + 1] matches StoreEvent::Stored { key, entries, taken }
            &&& key == "State:/Network/Service/muta/IPv4"@
            &&& entries == ipv4
            &&& taken == (es.len() > at + 2)
        },
        es.len() > at + 2 ==> {
            &&& es[at + 2] matches StoreEvent::Stored { key, entries, taken }
            &&& key == "State:/Network/Service/muta/DNS"@
            &&& entries == dns
            &&& taken == (r is Ok)
        },
        es.len() > at + 3 ==> {
            &&& es.len() == at + 4
            &&& es[at + 3] matches StoreEvent::Removed { key, .. }
            &&& key == "State:/Network/Service/muta/IPv4"@
        },
        es.len() == at + 1 ==> es[at] == (StoreEvent::Opened { ready: false }),
{
}

} // verus!
