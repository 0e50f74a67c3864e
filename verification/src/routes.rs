//! Which SSH server a connection is proxied to.

use vstd::hash_map::StringHashMap;
use vstd::prelude::*;

verus! {

/// A socket address. An IP address is written as one number, its first byte the
/// highest.
#[derive(Clone, Copy, Debug, PartialEq, Eq)]
pub enum Address {
    V4 { ip: u32, port: u16 },
    V6 { ip6: u128, port: u16, flowinfo: u32, scope_id: u32 },
}

/// The IPv4 loopback address.
pub const LOOPBACK: u32 = 0x7f00_0001;

/// The port of an SSH server.
pub const SSH_PORT: u16 = 22;

/// The name under which a configuration gives the default target.
pub const DEFAULT_NAME: &'static str = "default";

/// The target for connections that no name routes: the one that the configuration
/// gives, else the one that the options give, else the SSH server of this host.
pub open spec fn default_target(
    proxy: Map<Seq<char>, Address>,
    proxy_to: Option<Address>,
) -> Address {
    if proxy.contains_key(DEFAULT_NAME@) {
        proxy[DEFAULT_NAME@]
    } else {
        match proxy_to {
            Some(address) => address,
            None => Address::V4 { ip: LOOPBACK, port: SSH_PORT },
        }
    }
}

/// The target for connections to `name`.
pub open spec fn target(
    proxy: Map<Seq<char>, Address>,
    default_proxy: Address,
    name: Seq<char>,
) -> Address {
    if proxy.contains_key(name) {
        proxy[name]
    } else {
        default_proxy
    }
}

/// The server's configuration: the target of each server name.
pub struct ServerConf {
    proxy: StringHashMap<Address>,
}

impl View for ServerConf {
    type V = Map<Seq<char>, Address>;

    closed spec fn view(&self) -> Map<Seq<char>, Address> {
        self.proxy@
    }
}

impl ServerConf {
    /// A configuration without targets.
    pub fn new() -> (conf: Self)
        ensures
            conf@ == Map::<Seq<char>, Address>::empty(),
    {
        ServerConf { proxy: StringHashMap::new() }
    }

    /// Sets the target of `name`.
    pub fn insert(&mut self, name: String, address: Address)
        ensures
            final(self)@ == old(self)@.insert(name@, address),
    {
        self.proxy.insert(name, address);
    }

    /// The target for connections that no name routes, where the options give
    /// `proxy_to`.
    pub fn default_proxy(&self, proxy_to: Option<Address>) -> (address: Address)
        ensures
            address == default_target(self@, proxy_to),
    {
        match self.proxy.get(DEFAULT_NAME) {
            Some(address) => *address,
            None => match proxy_to {
                Some(address) => address,
                None => Address::V4 { ip: LOOPBACK, port: SSH_PORT },
            },
        }
    }

    /// The target for connections to `name`.
    pub fn proxy_for(&self, name: &str, default_proxy: Address) -> (address: Address)
        ensures
            address == target(self@, default_proxy, name@),
    {
        match self.proxy.get(name) {
            Some(address) => *address,
            None => default_proxy,
        }
    }
}

/// A target set for a name is the one that connections to it get, and no other
/// name's target changes.
pub proof fn law_set_target(
    proxy: Map<Seq<char>, Address>,
    default_proxy: Address,
    name: Seq<char>,
    address: Address,
    other: Seq<char>,
)
    ensures
        target(proxy.insert(name, address), default_proxy, name) == address,
        other != name ==> target(proxy.insert(name, address), default_proxy, other) == target(
            proxy,
            default_proxy,
            other,
        ),
{
}

/// Asking for the default by its name and asking for a name without a target
/// give the same answer.
pub proof fn law_default_by_name(
    proxy: Map<Seq<char>, Address>,
    proxy_to: Option<Address>,
    name: Seq<char>,
)
    requires
        !proxy.contains_key(name),
    ensures
        ({
            let default_proxy = default_target(proxy, proxy_to);
            target(proxy, default_proxy, DEFAULT_NAME@) == target(proxy, default_proxy, name)
        }),
{
}

/// A configuration's own default goes before everything else. Without it, the
/// address that the options give is taken as it stands, and without that too, it
/// is port 22 of 127.0.0.1.
pub proof fn law_default_target(proxy: Map<Seq<char>, Address>, address: Address)
    ensures
        !proxy.contains_key("default"@) ==> {
            &&& default_target(proxy, Some(address)) == address
            &&& default_target(proxy, None) == (Address::V4 { ip: 0x7f00_0001, port: 22 })
        },
        forall|proxy_to: Option<Address>|
            #[trigger] default_target(proxy.insert("default"@, address), proxy_to) == address,
{
}

/// The default is independent of the targets of all other names.
pub proof fn law_default_ignores_names(
    proxy: Map<Seq<char>, Address>,
    proxy_to: Option<Address>,
    name: Seq<char>,
    address: Address,
)
    requires
        name != "default"@,
    ensures
        default_target(proxy.insert(name, address), proxy_to) == default_target(proxy, proxy_to),
{
}

/// A name that has a target gets it, and a name without one gets the default.
pub proof fn law_target(proxy: Map<Seq<char>, Address>, default_proxy: Address, name: Seq<char>)
    ensures
        proxy.contains_key(name) ==> target(proxy, default_proxy, name) == proxy[name],
        !proxy.contains_key(name) ==> target(proxy, default_proxy, name) == default_proxy,
{
}

/// What [`ServerConf::default_proxy`] gives: the target named `default`, else the
/// address that the options give, unchanged, else port 22 of 127.0.0.1.
pub proof fn law_default_proxy(conf: &ServerConf, proxy_to: Option<Address>, address: Address)
    requires
        call_ensures(ServerConf::default_proxy, (conf, proxy_to), address),
    ensures
        conf@.contains_key("default"@) ==> address == conf@["default"@],
        !conf@.contains_key("default"@) && proxy_to is Some ==> proxy_to == Some(address),
        !conf@.contains_key("default"@) && proxy_to is None ==> address == (Address::V4 {
            ip: 0x7f00_0001,
            port: 22,
        }),
{
}

/// What [`ServerConf::proxy_for`] gives: the target of a name that has one, and the
/// default, unchanged, for every other name.
pub proof fn law_proxy_for(conf: &ServerConf, name: &str, default_proxy: Address, address: Address)
    requires
        call_ensures(ServerConf::proxy_for, (conf, name, default_proxy), address),
    ensures
        conf@.contains_key(name@) ==> address == conf@[name@],
        !conf@.contains_key(name@) ==> address == default_proxy,
{
}

/// [`ServerConf::insert`] sets the target of one name, whether or not it had one, and
/// of no other.
pub proof fn law_insert(
    conf: &mut ServerConf,
    name: String,
    address: Address,
    other: Seq<char>,
)
    requires
        call_ensures(ServerConf::insert, (conf, name, address), ()),
    ensures
        final(conf)@.contains_key(name@) && final(conf)@[name@] == address,
        other != name@ ==> (final(conf)@.contains_key(other) <==> old(conf)@.contains_key(other)),
        other != name@ && old(conf)@.contains_key(other) ==> final(conf)@[other] == old(
            conf,
        )@[other],
{
}

/// A configuration that was just made has no targets: its default is the address that
/// the options give.
pub proof fn law_new_conf(conf: &ServerConf, name: Seq<char>, to: Address, address: Address)
    requires
        call_ensures(ServerConf::new, (), *conf),
        call_ensures(ServerConf::default_proxy, (conf, Some(to)), address),
    ensures
        !conf@.contains_key(name),
        address == to,
{
}

} // verus!
