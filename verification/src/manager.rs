//! The network orchestration engine: the registry of networks and the
//! decisions of every lifecycle transition and workflow.
//!
//! The engine itself performs no container or file operation. A mutating
//! operation either updates the registry directly or returns a plan — the
//! exact container commands to run — and the unverified shell reports each
//! outcome back through a dedicated step function. The registry is the
//! single source of truth the persisted records are written from.

use vstd::prelude::*;

use crate::commands::{
    bitcoind_start_cmd, btc_container_name, cmd_matches, docker_network_name, lnd_container_name,
    lnd_start_cmd, spec_bitcoind_start_cmd, spec_btc_container_name, spec_docker_network_name,
    spec_lnd_container_name, spec_lnd_start_cmd,
};
use crate::error::{EngineResult, Error};
use crate::ids::push_char;
use crate::network::{
    config_contiguous, LightningImpl, Network, NetworkStatus, Node, NodeKind, NodePorts,
    PortConfig,
};
use crate::numstr::{spec_dec_digits, u64_to_dec};
use crate::{PORT_INCREMENT, PORT_RANGE_START};

verus! {

/// Available full-node container images, newest first.
pub fn bitcoin_versions() -> (r: Vec<&'static str>)
    ensures
        r@.len() == 3,
        r@[0]@ == "polarlightning/bitcoind:28.0"@,
        r@[1]@ == "polarlightning/bitcoind:27.0"@,
        r@[2]@ == "polarlightning/bitcoind:26.0"@,
{
    let mut v: Vec<&'static str> = Vec::new();
    v.push("polarlightning/bitcoind:28.0");
    v.push("polarlightning/bitcoind:27.0");
    v.push("polarlightning/bitcoind:26.0");
    v
}

/// Available Lightning-node container images, newest first.
pub fn lnd_versions() -> (r: Vec<&'static str>)
    ensures
        r@.len() == 4,
        r@[0]@ == "polarlightning/lnd:0.18.5-beta"@,
        r@[1]@ == "polarlightning/lnd:0.18.3-beta"@,
        r@[2]@ == "polarlightning/lnd:0.17.5-beta"@,
        r@[3]@ == "polarlightning/lnd:0.16.4-beta"@,
{
    let mut v: Vec<&'static str> = Vec::new();
    v.push("polarlightning/lnd:0.18.5-beta");
    v.push("polarlightning/lnd:0.18.3-beta");
    v.push("polarlightning/lnd:0.17.5-beta");
    v.push("polarlightning/lnd:0.16.4-beta");
    v
}

/// Default full-node container image.
pub const DEFAULT_BITCOIN_IMAGE: &'static str = "polarlightning/bitcoind:28.0";

/// Default Lightning-node container image.
pub const DEFAULT_LND_IMAGE: &'static str = "polarlightning/lnd:0.18.5-beta";

/// Whether some network in the sequence bears the name.
pub open spec fn has_net(s: Seq<Network>, name: Seq<char>) -> bool {
    exists|i: int| 0 <= i < s.len() && (#[trigger] s[i]).name@ == name
}

/// The index of the network bearing the name; meaningful when names are
/// unique and the name is present.
pub open spec fn net_idx(s: Seq<Network>, name: Seq<char>) -> int {
    choose|i: int| 0 <= i < s.len() && (#[trigger] s[i]).name@ == name
}

/// The network bearing the name.
pub open spec fn net_named(s: Seq<Network>, name: Seq<char>) -> Network {
    s[net_idx(s, name)]
}

/// Whether some node in the sequence bears the name.
pub open spec fn has_node(nodes: Seq<Node>, name: Seq<char>) -> bool {
    exists|i: int| 0 <= i < nodes.len() && (#[trigger] nodes[i]).name@ == name
}

/// The index of the node bearing the name; meaningful when names are unique
/// and the name is present.
pub open spec fn node_idx(nodes: Seq<Node>, name: Seq<char>) -> int {
    choose|i: int| 0 <= i < nodes.len() && (#[trigger] nodes[i]).name@ == name
}

/// The node bearing the name.
pub open spec fn node_named(nodes: Seq<Node>, name: Seq<char>) -> Node {
    nodes[node_idx(nodes, name)]
}

/// The index of the full node; meaningful when the network holds exactly
/// one.
pub open spec fn btc_idx(nodes: Seq<Node>) -> int {
    choose|i: int| 0 <= i < nodes.len() && (#[trigger] nodes[i]).kind is BitcoinCore
}

/// The full node of the network.
pub open spec fn btc_node(nodes: Seq<Node>) -> Node {
    nodes[btc_idx(nodes)]
}

/// The Lightning nodes of the sequence, in order.
pub open spec fn lnd_seq(nodes: Seq<Node>) -> Seq<Node>
    decreases nodes.len(),
{
    if nodes.len() == 0 {
        Seq::empty()
    } else if nodes.last().kind is Lnd {
        lnd_seq(nodes.drop_last()).push(nodes.last())
    } else {
        lnd_seq(nodes.drop_last())
    }
}

/// The first port configuration recorded for a node identifier.
pub open spec fn pm_lookup(pm: Seq<(u128, PortConfig)>, id: u128) -> Option<PortConfig>
    decreases pm.len(),
{
    if pm.len() == 0 {
        None
    } else if pm[0].0 == id {
        Some(pm[0].1)
    } else {
        pm_lookup(pm.skip(1), id)
    }
}

/// The string the option holds, or the given default.
pub open spec fn str_or(o: Option<String>, d: Seq<char>) -> Seq<char> {
    match o {
        Some(s) => s@,
        None => d,
    }
}

/// A generated name: the given prefix, a hyphen, and a number.
pub open spec fn numbered_name(prefix: Seq<char>, n: int) -> Seq<char> {
    prefix + "-"@ + spec_dec_digits(n)
}

/// Renders `prefix`, a hyphen, and a number.
pub fn make_numbered_name(prefix: &str, n: u64) -> (r: String)
    ensures
        r@ == numbered_name(prefix@, n as int),
{
    let mut s = String::from_str(prefix);
    push_char(&mut s, '-');
    let d = u64_to_dec(n);
    s.append(d.as_str());
    proof {
        reveal_strlit("-");
        assert(s@ =~= numbered_name(prefix@, n as int));
    }
    s
}

/// One command to execute inside a running container.
#[derive(Debug)]
pub struct ExecRequest {
    /// The container to execute in.
    pub container_id: String,
    /// The argument vector to execute.
    pub argv: Vec<String>,
}

/// Manages the network registry and decides every lifecycle transition.
#[derive(Debug)]
pub struct NetworkManager {
    /// The registered networks, in registration order.
    pub networks: Vec<Network>,
}

impl NetworkManager {
    /// The registry invariant: network names are unique, and every network
    /// obeys its own invariants — unique node names, exactly one full node,
    /// and the port-allocation ladder.
    pub open spec fn wf(self) -> bool {
        &&& forall|i: int, j: int|
            0 <= i < j < self.networks@.len() ==> (#[trigger] self.networks@[i]).name@ != (
            #[trigger] self.networks@[j]).name@
        &&& forall|i: int|
            0 <= i < self.networks@.len() ==> (#[trigger] self.networks@[i]).wf_ports() && (
            #[trigger] self.networks@[i]).names_unique() && (
            #[trigger] self.networks@[i]).has_unique_btc()
    }

    /// Create an empty registry.
    pub fn new() -> (r: NetworkManager)
        ensures
            r.wf(),
            r.networks@.len() == 0,
    {
        NetworkManager { networks: Vec::new() }
    }

    /// The registered networks.
    pub fn networks(&self) -> (r: &Vec<Network>)
        ensures
            r == &self.networks,
    {
        &self.networks
    }

    /// The index of the network bearing the name, if any.
    fn find_network(&self, name: &str) -> (r: Option<usize>)
        requires
            self.wf(),
        ensures
            match r {
                Some(i) => i < self.networks@.len() && self.networks@[i as int].name@ == name@
                    && has_net(self.networks@, name@) && net_idx(self.networks@, name@) == i as int,
                None => !has_net(self.networks@, name@),
            },
    {
        let n = self.networks.len();
        let mut i: usize = 0;
        while i < n
            invariant
                n == self.networks@.len(),
                i <= n,
                self.wf(),
                forall|j: int| 0 <= j < i ==> (#[trigger] self.networks@[j]).name@ != name@,
            decreases n - i,
        {
            if crate::ids::str_eq(self.networks[i].name.as_str(), name) {
                proof {
                    let k = net_idx(self.networks@, name@);
                    assert(self.networks@[i as int].name@ == name@);
                    assert(has_net(self.networks@, name@));
                    assert(0 <= k < self.networks@.len() && self.networks@[k].name@ == name@);
                    assert(k == i as int);
                }
                return Some(i);
            }
            i += 1;
        }
        None
    }

    /// A reference to the network bearing the name.
    pub fn get_network(&self, name: &str) -> (r: Option<&Network>)
        requires
            self.wf(),
        ensures
            match r {
                Some(net) => has_net(self.networks@, name@) && *net == net_named(
                    self.networks@,
                    name@,
                ),
                None => !has_net(self.networks@, name@),
            },
    {
        match self.find_network(name) {
            Some(i) => Some(&self.networks[i]),
            None => None,
        }
    }

    /// The status of the network bearing the name.
    pub fn network_status(&self, name: &str) -> (r: EngineResult<NetworkStatus>)
        requires
            self.wf(),
        ensures
            match r {
                Ok(st) => has_net(self.networks@, name@) && st == net_named(
                    self.networks@,
                    name@,
                ).status,
                Err(e) => e is NetworkNotFound && !has_net(self.networks@, name@),
            },
    {
        match self.find_network(name) {
            Some(i) => Ok(self.networks[i].status),
            None => Err(Error::NetworkNotFound(String::from_str(name))),
        }
    }

    /// Create a network under the given name with one full node and
    /// `lnd_count` Lightning nodes, pinning the given images and alias
    /// prefix. Fails when a network of that name already exists; the new
    /// network starts out stopped, with no ports allocated.
    pub fn create_network_with_config(
        &mut self,
        name: String,
        lnd_count: usize,
        alias_prefix: &str,
        lnd_version: &str,
        btc_version: &str,
    ) -> (r: EngineResult<()>)
        requires
            old(self).wf(),
        ensures
            final(self).wf(),
            match r {
                Ok(()) => {
                    &&& !has_net(old(self).networks@, name@)
                    &&& final(self).networks@.len() == old(self).networks@.len() + 1
                    &&& final(self).networks@.take(old(self).networks@.len() as int) == old(
                        self,
                    ).networks@
                    &&& {
                        let net = final(self).networks@.last();
                        &&& net.name@ == name@
                        &&& net.status is Stopped
                        &&& net.nodes@.len() == lnd_count + 1
                        &&& net.nodes@[0].kind is BitcoinCore
                        &&& net.nodes@[0].name@ == "bitcoin-1"@
                        &&& net.nodes@[0].container_id is None
                        &&& forall|k: int|
                            1 <= k < net.nodes@.len() ==> (#[trigger] net.nodes@[k]).kind is Lnd
                                && net.nodes@[k].name@ == numbered_name("lnd"@, k)
                                && net.nodes@[k].container_id is None
                        &&& net.lnd_version is Some && net.lnd_version->0@ == lnd_version@
                        &&& net.btc_version is Some && net.btc_version->0@ == btc_version@
                        &&& net.alias_prefix is Some && net.alias_prefix->0@ == alias_prefix@
                        &&& net.port_mappings@.len() == 0
                    }
                },
                Err(e) => {
                    &&& e is Config
                    &&& has_net(old(self).networks@, name@)
                    &&& *final(self) == *old(self)
                },
            },
    {
        match self.find_network(name.as_str()) {
            Some(_) => {
                let mut msg = String::from_str("Network '");
                msg.append(name.as_str());
                msg.append("' already exists");
                Err(Error::Config(msg))
            },
            None => {
                let ghost name_view = name@;
                let mut net = Network::new(name);
                net.lnd_version = Some(String::from_str(lnd_version));
                net.btc_version = Some(String::from_str(btc_version));
                net.alias_prefix = Some(String::from_str(alias_prefix));
                let btc = Node::new(String::from_str("bitcoin-1"), NodeKind::BitcoinCore);
                net.add_node(btc);
                let mut k: usize = 0;
                while k < lnd_count
                    invariant
                        k <= lnd_count,
                        net.nodes@.len() == k + 1,
                        net.nodes@[0].kind is BitcoinCore,
                        net.nodes@[0].name@ == "bitcoin-1"@,
                        net.nodes@[0].container_id is None,
                        forall|m: int|
                            1 <= m < k + 1 ==> (#[trigger] net.nodes@[m]).kind is Lnd
                                && net.nodes@[m].name@ == numbered_name("lnd"@, m)
                                && net.nodes@[m].container_id is None,
                        net.name@ == name_view,
                        net.status is Stopped,
                        net.port_mappings@.len() == 0,
                        net.lnd_version is Some && net.lnd_version->0@ == lnd_version@,
                        net.btc_version is Some && net.btc_version->0@ == btc_version@,
                        net.alias_prefix is Some && net.alias_prefix->0@ == alias_prefix@,
                        net.wf_ports(),
                    decreases lnd_count - k,
                {
                    let lnd_name = make_numbered_name("lnd", (k as u64) + 1);
                    let lnd = Node::new(lnd_name, NodeKind::Lnd);
                    net.add_node(lnd);
                    k += 1;
                }
                proof {
                    lemma_generated_names_unique(net);
                }
                self.networks.push(net);
                proof {
                    assert(final(self).networks@.take(old(self).networks@.len() as int)
                        =~= old(self).networks@);
                    assert forall|i: int, j: int|
                        0 <= i < j < self.networks@.len() implies (
                    #[trigger] self.networks@[i]).name@ != (#[trigger] self.networks@[j]).name@ by {
                        if j < self.networks@.len() - 1 {
                            assert(self.networks@[i] == old(self).networks@[i]);
                            assert(self.networks@[j] == old(self).networks@[j]);
                        } else {
                            assert(self.networks@[i] == old(self).networks@[i]);
                            assert(!has_net(old(self).networks@, self.networks@[j].name@));
                        }
                    }
                }
                Ok(())
            },
        }
    }

    /// Create a network with the default two Lightning nodes, alias prefix
    /// and images.
    pub fn create_network(&mut self, name: String) -> (r: EngineResult<()>)
        requires
            old(self).wf(),
        ensures
            final(self).wf(),
            match r {
                Ok(()) => {
                    &&& !has_net(old(self).networks@, name@)
                    &&& final(self).networks@.len() == old(self).networks@.len() + 1
                    &&& final(self).networks@.take(old(self).networks@.len() as int) == old(
                        self,
                    ).networks@
                    &&& {
                        let net = final(self).networks@.last();
                        &&& net.name@ == name@
                        &&& net.status is Stopped
                        &&& net.nodes@.len() == 3
                        &&& net.nodes@[0].kind is BitcoinCore
                        &&& net.nodes@[0].name@ == "bitcoin-1"@
                        &&& net.nodes@[0].container_id is None
                        &&& forall|k: int|
                            1 <= k < net.nodes@.len() ==> (#[trigger] net.nodes@[k]).kind is Lnd
                                && net.nodes@[k].name@ == numbered_name("lnd"@, k)
                                && net.nodes@[k].container_id is None
                        &&& net.lnd_version is Some && net.lnd_version->0@ == DEFAULT_LND_IMAGE@
                        &&& net.btc_version is Some && net.btc_version->0@
                            == DEFAULT_BITCOIN_IMAGE@
                        &&& net.alias_prefix is Some && net.alias_prefix->0@ == "polar-node"@
                        &&& net.port_mappings@.len() == 0
                    }
                },
                Err(e) => e is Config && has_net(old(self).networks@, name@) && *final(self)
                    == *old(self),
            },
    {
        self.create_network_with_config(name, 2, "polar-node", DEFAULT_LND_IMAGE, DEFAULT_BITCOIN_IMAGE)
    }

    /// Register a network record loaded from the store. A record that
    /// breaks the model's invariants, or whose name is already taken, is
    /// rejected and the registry is left unchanged.
    pub fn register_loaded_network(&mut self, net: Network) -> (r: EngineResult<()>)
        requires
            old(self).wf(),
        ensures
            final(self).wf(),
            match r {
                Ok(()) => final(self).networks@ == old(self).networks@.push(net),
                Err(e) => {
                    &&& e is Serialization
                    &&& has_net(old(self).networks@, net.name@) || !(net.wf_ports()
                        && net.names_unique() && net.has_unique_btc())
                    &&& *final(self) == *old(self)
                },
            },
    {
        if self.find_network(net.name.as_str()).is_some() {
            return Err(Error::Serialization(String::from_str("duplicate network name")));
        }
        if !check_network_invariants(&net) {
            return Err(Error::Serialization(String::from_str("malformed network record")));
        }
        proof {
            assert(!has_net(self.networks@, net.name@));
        }
        self.networks.push(net);
        proof {
            assert forall|i: int, j: int|
                0 <= i < j < self.networks@.len() implies (#[trigger] self.networks@[i]).name@ != (
            #[trigger] self.networks@[j]).name@ by {
                if j < self.networks@.len() - 1 {
                    assert(self.networks@[i] == old(self).networks@[i]);
                    assert(self.networks@[j] == old(self).networks@[j]);
                } else {
                    assert(self.networks@[i] == old(self).networks@[i]);
                }
            }
        }
        Ok(())
    }
}

/// The generated node names of a freshly created network are distinct: the
/// full node is `bitcoin-1` and the Lightning nodes are numbered.
proof fn lemma_generated_names_unique(net: Network)
    requires
        net.nodes@.len() >= 1,
        net.nodes@[0].kind is BitcoinCore,
        net.nodes@[0].name@ == "bitcoin-1"@,
        forall|m: int|
            1 <= m < net.nodes@.len() ==> (#[trigger] net.nodes@[m]).kind is Lnd
                && net.nodes@[m].name@ == numbered_name("lnd"@, m),
    ensures
        net.names_unique(),
        net.has_unique_btc(),
{
    reveal_strlit("bitcoin-1");
    reveal_strlit("lnd");
    reveal_strlit("-");
    assert forall|i: int, j: int|
        0 <= i < j < net.nodes@.len() implies (#[trigger] net.nodes@[i]).name@ != (
    #[trigger] net.nodes@[j]).name@ by {
        if i == 0 {
            assert(net.nodes@[j].name@[0] == 'l');
            assert(net.nodes@[i].name@[0] == 'b');
        } else {
            lemma_numbered_names_distinct("lnd"@, i, j);
        }
    }
    assert(net.nodes@[0].kind is BitcoinCore);
}

/// Numbered names with the same prefix and different numbers differ.
pub proof fn lemma_numbered_names_distinct(prefix: Seq<char>, i: int, j: int)
    requires
        0 <= i,
        0 <= j,
        i != j,
    ensures
        numbered_name(prefix, i) != numbered_name(prefix, j),
{
    reveal_strlit("-");
    if numbered_name(prefix, i) == numbered_name(prefix, j) {
        let di = spec_dec_digits(i);
        let dj = spec_dec_digits(j);
        lemma_dec_digits_len(i);
        lemma_dec_digits_len(j);
        assert(numbered_name(prefix, i).len() == prefix.len() + 1 + di.len());
        assert(numbered_name(prefix, j).len() == prefix.len() + 1 + dj.len());
        assert(di.len() == dj.len());
        assert(di =~= dj) by {
            assert forall|k: int| 0 <= k < di.len() implies di[k] == dj[k] by {
                assert(numbered_name(prefix, i)[prefix.len() + 1 + k] == di[k]);
                assert(numbered_name(prefix, j)[prefix.len() + 1 + k] == dj[k]);
            }
        }
        lemma_dec_digits_injective(i, j);
    }
}

/// A decimal rendering has at least one character.
proof fn lemma_dec_digits_len(v: int)
    requires
        v >= 0,
    ensures
        spec_dec_digits(v).len() >= 1,
    decreases v,
{
    if v >= 10 {
        lemma_dec_digits_len(v / 10);
    }
}

/// Decimal renderings of distinct non-negative values differ.
proof fn lemma_dec_digits_injective(i: int, j: int)
    requires
        0 <= i,
        0 <= j,
        spec_dec_digits(i) == spec_dec_digits(j),
    ensures
        i == j,
    decreases i + j,
{
    let di = spec_dec_digits(i);
    let dj = spec_dec_digits(j);
    if i < 10 && j < 10 {
        assert(di == seq![crate::numstr::dec_char(i)]);
        assert(dj == seq![crate::numstr::dec_char(j)]);
        assert(di[0] == dj[0]);
    } else if i >= 10 && j >= 10 {
        assert(di.last() == crate::numstr::dec_char(i % 10));
        assert(dj.last() == crate::numstr::dec_char(j % 10));
        assert(i % 10 == j % 10);
        assert(di.drop_last() =~= spec_dec_digits(i / 10)) by {
            assert(di == spec_dec_digits(i / 10).push(crate::numstr::dec_char(i % 10)));
        }
        assert(dj.drop_last() =~= spec_dec_digits(j / 10)) by {
            assert(dj == spec_dec_digits(j / 10).push(crate::numstr::dec_char(j % 10)));
        }
        lemma_dec_digits_injective(i / 10, j / 10);
    } else {
        // one value is a single digit and the other is not: the lengths differ
        if i < 10 {
            lemma_dec_digits_len(j / 10);
            assert(dj.len() >= 2);
            assert(di.len() == 1);
        } else {
            lemma_dec_digits_len(i / 10);
            assert(di.len() >= 2);
            assert(dj.len() == 1);
        }
    }
}

/// Checks, executably, that a loaded record obeys the model's invariants.
fn check_network_invariants(net: &Network) -> (r: bool)
    ensures
        r == (net.wf_ports() && net.names_unique() && net.has_unique_btc()),
{
    let ok_ports = check_ports_ladder(net);
    let ok_names = check_names_unique(net);
    let ok_btc = check_unique_btc(net);
    ok_ports && ok_names && ok_btc
}

fn check_ports_ladder(net: &Network) -> (r: bool)
    ensures
        r == net.wf_ports(),
{
    let n = net.port_mappings.len();
    if n >= 4555 {
        // the ladder cannot reach that high: the base of the entry at index
        // 4554 would exceed the largest port number
        proof {
            if net.wf_ports() {
                let pc = net.port_mappings@[4554].1;
                assert(crate::network::config_base(pc) == crate::PORT_RANGE_START
                    + crate::PORT_INCREMENT * 4554);
                assert(false);
            }
        }
        return false;
    }
    let mut i: usize = 0;
    while i < n
        invariant
            n == net.port_mappings@.len(),
            n < 4555,
            i <= n,
            forall|k: int|
                0 <= k < i ==> {
                    let pc = (#[trigger] net.port_mappings@[k]).1;
                    config_contiguous(pc) && crate::network::config_base(pc)
                        == crate::PORT_RANGE_START + crate::PORT_INCREMENT * k
                },
            forall|k: int, l: int|
                0 <= k < l < i ==> (#[trigger] net.port_mappings@[k]).0 != (
                #[trigger] net.port_mappings@[l]).0,
        decreases n - i,
    {
        let entry = &net.port_mappings[i];
        let pc = entry.1;
        let expected_base: u32 = 20000 + 10 * (i as u32);
        let ok: bool = match pc.ports {
            NodePorts::BitcoinCore { rpc, p2p, zmq_block, zmq_tx } => (rpc as u32) == expected_base
                && (p2p as u32) == expected_base + 1 && (zmq_block as u32) == expected_base + 2 && (
            zmq_tx as u32) == expected_base + 3,
            NodePorts::Lnd { rest, grpc, p2p } => (rest as u32) == expected_base && (grpc as u32)
                == expected_base + 1 && (p2p as u32) == expected_base + 2,
        };
        if !ok {
            return false;
        }
        // an id seen twice breaks the invariant
        let mut l: usize = 0;
        while l < i
            invariant
                n == net.port_mappings@.len(),
                i < n,
                l <= i,
                forall|m: int|
                    0 <= m < l ==> (#[trigger] net.port_mappings@[m]).0
                        != net.port_mappings@[i as int].0,
            decreases i - l,
        {
            if net.port_mappings[l].0 == net.port_mappings[i].0 {
                return false;
            }
            l += 1;
        }
        i += 1;
    }
    true
}

fn check_names_unique(net: &Network) -> (r: bool)
    ensures
        r == net.names_unique(),
{
    let n = net.nodes.len();
    let mut i: usize = 0;
    while i < n
        invariant
            n == net.nodes@.len(),
            i <= n,
            forall|k: int, l: int|
                0 <= k < l < i ==> (#[trigger] net.nodes@[k]).name@ != (
                #[trigger] net.nodes@[l]).name@,
        decreases n - i,
    {
        let mut l: usize = 0;
        while l < i
            invariant
                n == net.nodes@.len(),
                i < n,
                l <= i,
                forall|m: int|
                    0 <= m < l ==> (#[trigger] net.nodes@[m]).name@ != net.nodes@[i as int].name@,
            decreases i - l,
        {
            if crate::ids::str_eq(net.nodes[l].name.as_str(), net.nodes[i].name.as_str()) {
                return false;
            }
            l += 1;
        }
        i += 1;
    }
    true
}

fn check_unique_btc(net: &Network) -> (r: bool)
    ensures
        r == net.has_unique_btc(),
{
    let n = net.nodes.len();
    let mut count: usize = 0;
    let mut i: usize = 0;
    let mut seen: usize = 0;
    while i < n
        invariant
            n == net.nodes@.len(),
            i <= n,
            count <= i,
            count == 0 ==> forall|k: int| 0 <= k < i ==> !((#[trigger] net.nodes@[k]).kind
                is BitcoinCore),
            count == 1 ==> seen < i && net.nodes@[seen as int].kind is BitcoinCore && forall|k: int|
                0 <= k < i && k != seen ==> !((#[trigger] net.nodes@[k]).kind is BitcoinCore),
            count >= 2 ==> !(forall|k: int, l: int|
                0 <= k < net.nodes@.len() && 0 <= l < net.nodes@.len() && (
                #[trigger] net.nodes@[k]).kind is BitcoinCore && (
                #[trigger] net.nodes@[l]).kind is BitcoinCore ==> k == l),
        decreases n - i,
    {
        if matches!(net.nodes[i].kind, NodeKind::BitcoinCore) {
            if count == 1 {
                proof {
                    assert(net.nodes@[seen as int].kind is BitcoinCore);
                    assert(net.nodes@[i as int].kind is BitcoinCore);
                    assert(seen as int != i as int);
                }
            }
            count += 1;
            if count == 1 {
                seen = i;
            }
        }
        i += 1;
    }
    count == 1
}

} // verus!

verus! {

/// The registry invariant as a predicate on the sequence of networks.
pub open spec fn registry_wf(s: Seq<Network>) -> bool {
    &&& forall|i: int, j: int|
        0 <= i < j < s.len() ==> (#[trigger] s[i]).name@ != (#[trigger] s[j]).name@
    &&& forall|i: int|
        0 <= i < s.len() ==> (#[trigger] s[i]).wf_ports() && (#[trigger] s[i]).names_unique() && (
        #[trigger] s[i]).has_unique_btc()
}

/// Replacing one network with a well-formed network of the same name keeps
/// the registry well formed.
proof fn lemma_registry_update(s: Seq<Network>, i: int, net: Network)
    requires
        registry_wf(s),
        0 <= i < s.len(),
        net.name@ == s[i].name@,
        net.wf_ports(),
        net.names_unique(),
        net.has_unique_btc(),
    ensures
        registry_wf(s.update(i, net)),
{
    let t = s.update(i, net);
    assert forall|k: int, l: int| 0 <= k < l < t.len() implies (#[trigger] t[k]).name@ != (
    #[trigger] t[l]).name@ by {
        assert(s[k].name@ != s[l].name@);
    }
    assert forall|k: int| 0 <= k < t.len() implies (#[trigger] t[k]).wf_ports() && (
    #[trigger] t[k]).names_unique() && (#[trigger] t[k]).has_unique_btc() by {
        assert(s[k].wf_ports() && s[k].names_unique() && s[k].has_unique_btc());
    }
}

/// A lookup that fails finds no entry at all.
proof fn lemma_pm_lookup_none(pm: Seq<(u128, PortConfig)>, id: u128)
    ensures
        pm_lookup(pm, id) is None <==> forall|k: int| 0 <= k < pm.len() ==> (#[trigger] pm[k]).0
            != id,
    decreases pm.len(),
{
    if pm.len() > 0 {
        lemma_pm_lookup_none(pm.skip(1), id);
        assert forall|k: int|
            0 <= k < pm.skip(1).len() implies #[trigger] pm.skip(1)[k] == pm[k + 1] by {}
        if pm[0].0 != id {
            if pm_lookup(pm, id) is None {
                assert forall|k: int| 0 <= k < pm.len() implies (#[trigger] pm[k]).0 != id by {
                    if k > 0 {
                        assert(pm.skip(1)[k - 1].0 != id);
                    }
                }
            }
        }
    }
}

/// Appending an entry does not change the lookup of ids already present,
/// and gives absent ids the new entry.
proof fn lemma_pm_lookup_push(pm: Seq<(u128, PortConfig)>, e: (u128, PortConfig), id: u128)
    ensures
        pm_lookup(pm.push(e), id) == (if pm_lookup(pm, id) is Some {
            pm_lookup(pm, id)
        } else if e.0 == id {
            Some(e.1)
        } else {
            None
        }),
    decreases pm.len(),
{
    if pm.len() == 0 {
        assert(pm.push(e)[0] == e);
        assert(pm.push(e).len() == 1);
        if e.0 == id {
            assert(pm_lookup(pm.push(e), id) == Some(e.1));
        } else {
            assert(pm.push(e).skip(1) =~= Seq::<(u128, PortConfig)>::empty());
            assert(pm_lookup(Seq::<(u128, PortConfig)>::empty(), id) is None);
            assert(pm_lookup(pm.push(e), id) is None);
        }
    } else {
        assert(pm.push(e)[0] == pm[0]);
        if pm[0].0 == id {
            assert(pm_lookup(pm, id) == Some(pm[0].1));
            assert(pm_lookup(pm.push(e), id) == Some(pm[0].1));
        } else {
            assert(pm.push(e).skip(1) =~= pm.skip(1).push(e));
            lemma_pm_lookup_push(pm.skip(1), e, id);
            assert(pm_lookup(pm.push(e), id) == pm_lookup(pm.skip(1).push(e), id));
            assert(pm_lookup(pm, id) == pm_lookup(pm.skip(1), id));
        }
    }
}

/// Finds the first recorded port configuration for a node identifier.
fn pm_find(pm: &Vec<(u128, PortConfig)>, id: u128) -> (r: Option<PortConfig>)
    ensures
        r == pm_lookup(pm@, id),
{
    let n = pm.len();
    let mut i: usize = 0;
    proof {
        assert(pm@.skip(0) =~= pm@);
    }
    while i < n
        invariant
            n == pm@.len(),
            i <= n,
            pm_lookup(pm@, id) == pm_lookup(pm@.skip(i as int), id),
            forall|k: int| 0 <= k < i ==> (#[trigger] pm@[k]).0 != id,
        decreases n - i,
    {
        proof {
            assert(pm@.skip(i as int)[0] == pm@[i as int]);
            assert(pm@.skip(i as int).skip(1) =~= pm@.skip(i as int + 1));
        }
        if pm[i].0 == id {
            return Some(pm[i].1);
        }
        i += 1;
    }
    proof {
        assert(pm@.skip(n as int) =~= Seq::<(u128, PortConfig)>::empty());
    }
    None
}

/// Finds the index of the node bearing the name.
fn find_node_named(nodes: &Vec<Node>, name: &str) -> (r: Option<usize>)
    requires
        forall|i: int, j: int|
            0 <= i < j < nodes@.len() ==> (#[trigger] nodes@[i]).name@ != (
            #[trigger] nodes@[j]).name@,
    ensures
        match r {
            Some(i) => i < nodes@.len() && nodes@[i as int].name@ == name@ && has_node(
                nodes@,
                name@,
            ) && node_idx(nodes@, name@) == i as int,
            None => !has_node(nodes@, name@),
        },
{
    let n = nodes.len();
    let mut i: usize = 0;
    while i < n
        invariant
            n == nodes@.len(),
            i <= n,
            forall|p: int, q: int|
                0 <= p < q < nodes@.len() ==> (#[trigger] nodes@[p]).name@ != (
                #[trigger] nodes@[q]).name@,
            forall|j: int| 0 <= j < i ==> (#[trigger] nodes@[j]).name@ != name@,
        decreases n - i,
    {
        if crate::ids::str_eq(nodes[i].name.as_str(), name) {
            proof {
                assert(nodes@[i as int].name@ == name@);
                assert(has_node(nodes@, name@));
                let k = node_idx(nodes@, name@);
                assert(0 <= k < nodes@.len() && nodes@[k].name@ == name@);
                assert(k == i as int);
            }
            return Some(i);
        }
        i += 1;
    }
    None
}

/// Finds the index of the full node.
fn find_btc_node(nodes: &Vec<Node>) -> (r: Option<usize>)
    requires
        forall|i: int, j: int|
            0 <= i < nodes@.len() && 0 <= j < nodes@.len() && (#[trigger] nodes@[i]).kind
                is BitcoinCore && (#[trigger] nodes@[j]).kind is BitcoinCore ==> i == j,
    ensures
        match r {
            Some(i) => i < nodes@.len() && nodes@[i as int].kind is BitcoinCore && btc_idx(nodes@)
                == i as int && btc_node(nodes@) == nodes@[i as int],
            None => forall|i: int|
                0 <= i < nodes@.len() ==> !((#[trigger] nodes@[i]).kind is BitcoinCore),
        },
{
    let n = nodes.len();
    let mut i: usize = 0;
    while i < n
        invariant
            n == nodes@.len(),
            i <= n,
            forall|p: int, q: int|
                0 <= p < nodes@.len() && 0 <= q < nodes@.len() && (#[trigger] nodes@[p]).kind
                    is BitcoinCore && (#[trigger] nodes@[q]).kind is BitcoinCore ==> p == q,
            forall|j: int| 0 <= j < i ==> !((#[trigger] nodes@[j]).kind is BitcoinCore),
        decreases n - i,
    {
        if matches!(nodes[i].kind, NodeKind::BitcoinCore) {
            proof {
                assert(nodes@[i as int].kind is BitcoinCore);
                let k = btc_idx(nodes@);
                assert(0 <= k < nodes@.len() && nodes@[k].kind is BitcoinCore);
                assert(k == i as int);
            }
            return Some(i);
        }
        i += 1;
    }
    None
}

} // verus!

verus! {

/// The network with its status replaced.
pub open spec fn with_status(net: Network, st: NetworkStatus) -> Network {
    Network { status: st, ..net }
}

/// The node with its container identifier replaced.
pub open spec fn node_with_container(n: Node, c: Option<String>) -> Node {
    Node { container_id: c, ..n }
}

/// The host-port bindings realizing a port configuration: each well-known
/// container port bound to its allocated host port.
pub open spec fn spec_bindings(pc: PortConfig) -> Seq<(u16, u16)> {
    match pc.ports {
        NodePorts::BitcoinCore { rpc, p2p, zmq_block, zmq_tx } => seq![
            (18443u16, rpc),
            (18444u16, p2p),
            (28334u16, zmq_block),
            (28335u16, zmq_tx),
        ],
        NodePorts::Lnd { rest, grpc, p2p } => seq![(8080u16, rest), (10009u16, grpc), (9735u16, p2p)],
    }
}

/// Builds the host-port bindings of a configuration.
fn bindings_for(pc: &PortConfig) -> (r: Vec<(u16, u16)>)
    ensures
        r@ == spec_bindings(*pc),
{
    match pc.ports {
        NodePorts::BitcoinCore { rpc, p2p, zmq_block, zmq_tx } => {
            let v = vec![(18443u16, rpc), (18444u16, p2p), (28334u16, zmq_block), (28335u16, zmq_tx)];
            proof {
                assert(v@ =~= spec_bindings(*pc));
            }
            v
        },
        NodePorts::Lnd { rest, grpc, p2p } => {
            let v = vec![(8080u16, rest), (10009u16, grpc), (9735u16, p2p)];
            proof {
                assert(v@ =~= spec_bindings(*pc));
            }
            v
        },
    }
}

/// One container to create and start.
#[derive(Debug)]
pub struct NodeStart {
    /// The node realized by the container.
    pub node_id: u128,
    /// The node's kind.
    pub kind: NodeKind,
    /// The name to create the container under.
    pub container_name: String,
    /// The image to run.
    pub image: String,
    /// The command line of the daemon.
    pub cmd: Vec<String>,
    /// Container-port to host-port bindings.
    pub port_bindings: Vec<(u16, u16)>,
}

/// The ordered container work of one start operation: the isolated network
/// to create, then each container, full node first.
#[derive(Debug)]
pub struct StartPlan {
    /// The network was already running: there is nothing to do.
    pub already_running: bool,
    /// The isolated container network to create.
    pub docker_network: String,
    /// The containers to create and start, in order.
    pub starts: Vec<NodeStart>,
}

/// The ordered container work of one stop operation: Lightning containers
/// first, then the full node's, then the isolated network.
#[derive(Debug)]
pub struct StopPlan {
    /// The network was already stopped: there is nothing to do.
    pub already_stopped: bool,
    /// The isolated container network to remove at the end; a failure there
    /// is logged and swallowed, the resource may already be gone.
    pub docker_network: String,
    /// The Lightning-node containers to stop and remove, with their nodes.
    pub lnd_containers: Vec<(u128, String)>,
    /// The full-node containers to stop and remove, with their nodes.
    pub btc_containers: Vec<(u128, String)>,
}

/// A start step realizes the full node: its container bears the node's
/// canonical name, runs the pinned image, and executes the fixed full-node
/// command line with the node's allocated ports bound.
pub open spec fn node_start_matches_btc(
    s: NodeStart,
    node: Node,
    pm: Seq<(u128, PortConfig)>,
    image: Seq<char>,
) -> bool {
    &&& s.node_id == node.id
    &&& s.kind is BitcoinCore
    &&& s.container_name@ == spec_btc_container_name(node.id)
    &&& s.image@ == image
    &&& cmd_matches(s.cmd@, spec_bitcoind_start_cmd())
    &&& pm_lookup(pm, node.id) is Some
    &&& s.port_bindings@ == spec_bindings(pm_lookup(pm, node.id)->0)
}

/// A start step realizes one Lightning node: its container bears the node's
/// canonical name, runs the pinned image, and executes the Lightning command
/// line pointed at the full node, under the given alias, with the node's
/// allocated ports bound.
pub open spec fn node_start_matches_lnd(
    s: NodeStart,
    node: Node,
    pm: Seq<(u128, PortConfig)>,
    image: Seq<char>,
    alias: Seq<char>,
    btc_id: u128,
) -> bool {
    &&& s.node_id == node.id
    &&& s.kind is Lnd
    &&& s.container_name@ == spec_lnd_container_name(node.id)
    &&& s.image@ == image
    &&& cmd_matches(s.cmd@, spec_lnd_start_cmd(alias, btc_id))
    &&& pm_lookup(pm, node.id) is Some
    &&& s.port_bindings@ == spec_bindings(pm_lookup(pm, node.id)->0)
}

/// The whole plan realizes the network: the isolated network bears the
/// network's canonical name, the first step starts the full node, and the
/// following steps start the Lightning nodes in order, aliased by the
/// network's prefix and their ordinal.
pub open spec fn start_plan_matches(plan: StartPlan, net: Network) -> bool {
    let lnds = lnd_seq(net.nodes@);
    let prefix = str_or(net.alias_prefix, "polar-node"@);
    &&& plan.docker_network@ == spec_docker_network_name(net.id)
    &&& plan.starts@.len() == 1 + lnds.len()
    &&& node_start_matches_btc(
        plan.starts@[0],
        btc_node(net.nodes@),
        net.port_mappings@,
        str_or(net.btc_version, DEFAULT_BITCOIN_IMAGE@),
    )
    &&& forall|k: int|
        1 <= k < plan.starts@.len() ==> node_start_matches_lnd(
            #[trigger] plan.starts@[k],
            lnds[k - 1],
            net.port_mappings@,
            str_or(net.lnd_version, DEFAULT_LND_IMAGE@),
            numbered_name(prefix, k),
            btc_node(net.nodes@).id,
        )
}

/// The running containers of the nodes of one kind, in node order.
pub open spec fn spec_teardown(nodes: Seq<Node>, k: NodeKind) -> Seq<(u128, Seq<char>)>
    decreases nodes.len(),
{
    if nodes.len() == 0 {
        Seq::empty()
    } else {
        spec_teardown(nodes.drop_last(), k) + (if nodes.last().kind == k
            && nodes.last().container_id is Some {
            seq![(nodes.last().id, nodes.last().container_id->0@)]
        } else {
            Seq::empty()
        })
    }
}

/// The collected pairs render the teardown list exactly.
pub open spec fn teardown_matches(v: Seq<(u128, String)>, t: Seq<(u128, Seq<char>)>) -> bool {
    v.len() == t.len() && forall|i: int|
        0 <= i < v.len() ==> (#[trigger] v[i]).0 == t[i].0 && v[i].1@ == t[i].1
}

/// Collects the running containers of the nodes of one kind, in node order.
fn collect_teardown(nodes: &Vec<Node>, k: NodeKind) -> (r: Vec<(u128, String)>)
    ensures
        teardown_matches(r@, spec_teardown(nodes@, k)),
{
    let n = nodes.len();
    let mut out: Vec<(u128, String)> = Vec::new();
    let mut i: usize = 0;
    proof {
        assert(nodes@.take(0) =~= Seq::<Node>::empty());
    }
    while i < n
        invariant
            n == nodes@.len(),
            i <= n,
            teardown_matches(out@, spec_teardown(nodes@.take(i as int), k)),
        decreases n - i,
    {
        let node = &nodes[i];
        if node.kind == k {
            match &node.container_id {
                Some(c) => {
                    out.push((node.id, c.clone()));
                },
                None => {},
            }
        }
        proof {
            assert(nodes@.take(i as int + 1).drop_last() =~= nodes@.take(i as int));
            assert(nodes@.take(i as int + 1).last() == nodes@[i as int]);
        }
        i += 1;
    }
    proof {
        assert(nodes@.take(n as int) =~= nodes@);
    }
    out
}

impl NetworkManager {
    /// Replaces the status of the network at a known index.
    fn set_status_at(&mut self, idx: usize, st: NetworkStatus)
        requires
            old(self).wf(),
            idx < old(self).networks@.len(),
        ensures
            final(self).wf(),
            final(self).networks@ == old(self).networks@.update(
                idx as int,
                with_status(old(self).networks@[idx as int], st),
            ),
    {
        let mut net = self.networks.remove(idx);
        net.status = st;
        self.networks.insert(idx, net);
        proof {
            assert(final(self).networks@ =~= old(self).networks@.update(
                idx as int,
                with_status(old(self).networks@[idx as int], st),
            ));
            lemma_registry_update(
                old(self).networks@,
                idx as int,
                with_status(old(self).networks@[idx as int], st),
            );
        }
    }

    /// Marks the named network running: the last step of a successful start.
    pub fn start_network_complete(&mut self, name: &str) -> (r: EngineResult<()>)
        requires
            old(self).wf(),
        ensures
            final(self).wf(),
            match r {
                Ok(()) => has_net(old(self).networks@, name@) && final(self).networks@ == old(
                    self,
                ).networks@.update(
                    net_idx(old(self).networks@, name@),
                    with_status(net_named(old(self).networks@, name@), NetworkStatus::Running),
                ),
                Err(e) => e is NetworkNotFound && !has_net(old(self).networks@, name@)
                    && *final(self) == *old(self),
            },
    {
        match self.find_network(name) {
            Some(i) => {
                self.set_status_at(i, NetworkStatus::Running);
                Ok(())
            },
            None => Err(Error::NetworkNotFound(String::from_str(name))),
        }
    }

    /// Marks the named network failed: any container error during a start
    /// aborts the remaining sequence and leaves already-started containers
    /// in place.
    pub fn start_network_failed(&mut self, name: &str) -> (r: EngineResult<()>)
        requires
            old(self).wf(),
        ensures
            final(self).wf(),
            match r {
                Ok(()) => has_net(old(self).networks@, name@) && final(self).networks@ == old(
                    self,
                ).networks@.update(
                    net_idx(old(self).networks@, name@),
                    with_status(net_named(old(self).networks@, name@), NetworkStatus::Error),
                ),
                Err(e) => e is NetworkNotFound && !has_net(old(self).networks@, name@)
                    && *final(self) == *old(self),
            },
    {
        match self.find_network(name) {
            Some(i) => {
                self.set_status_at(i, NetworkStatus::Error);
                Ok(())
            },
            None => Err(Error::NetworkNotFound(String::from_str(name))),
        }
    }

    /// Marks the named network failed: a container error while stopping
    /// aborts the remaining teardown and leaves the network in the error
    /// state, already-removed containers staying removed.
    pub fn stop_network_failed(&mut self, name: &str) -> (r: EngineResult<()>)
        requires
            old(self).wf(),
        ensures
            final(self).wf(),
            match r {
                Ok(()) => has_net(old(self).networks@, name@) && final(self).networks@ == old(
                    self,
                ).networks@.update(
                    net_idx(old(self).networks@, name@),
                    with_status(net_named(old(self).networks@, name@), NetworkStatus::Error),
                ),
                Err(e) => e is NetworkNotFound && !has_net(old(self).networks@, name@)
                    && *final(self) == *old(self),
            },
    {
        match self.find_network(name) {
            Some(i) => {
                self.set_status_at(i, NetworkStatus::Error);
                Ok(())
            },
            None => Err(Error::NetworkNotFound(String::from_str(name))),
        }
    }

    /// Marks the named network stopped: the last step of a stop.
    pub fn stop_network_complete(&mut self, name: &str) -> (r: EngineResult<()>)
        requires
            old(self).wf(),
        ensures
            final(self).wf(),
            match r {
                Ok(()) => has_net(old(self).networks@, name@) && final(self).networks@ == old(
                    self,
                ).networks@.update(
                    net_idx(old(self).networks@, name@),
                    with_status(net_named(old(self).networks@, name@), NetworkStatus::Stopped),
                ),
                Err(e) => e is NetworkNotFound && !has_net(old(self).networks@, name@)
                    && *final(self) == *old(self),
            },
    {
        match self.find_network(name) {
            Some(i) => {
                self.set_status_at(i, NetworkStatus::Stopped);
                Ok(())
            },
            None => Err(Error::NetworkNotFound(String::from_str(name))),
        }
    }
}

} // verus!

verus! {

/// Whether one of the first `t` nodes bears the identifier.
pub open spec fn id_seen(nodes: Seq<Node>, t: int, id: u128) -> bool {
    exists|j: int| 0 <= j < t && (#[trigger] nodes[j]).id == id
}

/// Whether starting allocates a fresh block for the node at `t`: its
/// identifier has no recorded block and no earlier node shares it.
pub open spec fn node_needs_block(nodes: Seq<Node>, t: int, pm: Seq<(u128, PortConfig)>) -> bool {
    pm_lookup(pm, nodes[t].id) is None && !id_seen(nodes, t, nodes[t].id)
}

/// The allocation loop's coverage: after the first `t` nodes are processed,
/// a node's identifier has a block exactly when it had one before or an
/// already-processed node bears it.
spec fn alloc_cover(
    nodes: Seq<Node>,
    t: int,
    pm0: Seq<(u128, PortConfig)>,
    pm: Seq<(u128, PortConfig)>,
) -> bool {
    forall|k: int|
        0 <= k < nodes.len() ==> (pm_lookup(pm, (#[trigger] nodes[k]).id) is Some <==> pm_lookup(
            pm0,
            nodes[k].id,
        ) is Some || id_seen(nodes, t, nodes[k].id))
}

/// Processing a node whose identifier already has a block extends the
/// coverage without a fresh block.
proof fn lemma_alloc_cover_skip(
    nodes: Seq<Node>,
    t: int,
    pm0: Seq<(u128, PortConfig)>,
    pm: Seq<(u128, PortConfig)>,
)
    requires
        0 <= t < nodes.len(),
        alloc_cover(nodes, t, pm0, pm),
        pm_lookup(pm, nodes[t].id) is Some,
    ensures
        !node_needs_block(nodes, t, pm0),
        alloc_cover(nodes, t + 1, pm0, pm),
{
    assert(pm_lookup(pm0, nodes[t].id) is Some || id_seen(nodes, t, nodes[t].id));
    assert forall|k: int|
        0 <= k < nodes.len() implies (pm_lookup(pm, (#[trigger] nodes[k]).id) is Some
        <==> pm_lookup(pm0, nodes[k].id) is Some || id_seen(nodes, t + 1, nodes[k].id)) by {
        if id_seen(nodes, t + 1, nodes[k].id) && !id_seen(nodes, t, nodes[k].id) {
            let j = choose|j: int| 0 <= j < t + 1 && (#[trigger] nodes[j]).id == nodes[k].id;
            assert(j == t);
            assert(pm_lookup(pm, nodes[t].id) is Some);
        }
        if id_seen(nodes, t, nodes[k].id) {
            let j = choose|j: int| 0 <= j < t && (#[trigger] nodes[j]).id == nodes[k].id;
            assert(0 <= j < t + 1 && nodes[j].id == nodes[k].id);
        }
    }
}

/// Processing a node whose identifier has no block yet marks it as needing
/// a fresh one.
proof fn lemma_alloc_cover_missing(
    nodes: Seq<Node>,
    t: int,
    pm0: Seq<(u128, PortConfig)>,
    pm: Seq<(u128, PortConfig)>,
)
    requires
        0 <= t < nodes.len(),
        alloc_cover(nodes, t, pm0, pm),
        pm_lookup(pm, nodes[t].id) is None,
    ensures
        node_needs_block(nodes, t, pm0),
{
    assert(!(pm_lookup(pm0, nodes[t].id) is Some || id_seen(nodes, t, nodes[t].id)));
}

/// Recording the fresh block of the node at `t` extends the coverage.
proof fn lemma_alloc_cover_push(
    nodes: Seq<Node>,
    t: int,
    pm0: Seq<(u128, PortConfig)>,
    pm: Seq<(u128, PortConfig)>,
    e: (u128, PortConfig),
)
    requires
        0 <= t < nodes.len(),
        alloc_cover(nodes, t, pm0, pm),
        e.0 == nodes[t].id,
    ensures
        alloc_cover(nodes, t + 1, pm0, pm.push(e)),
{
    assert forall|k: int|
        0 <= k < nodes.len() implies (pm_lookup(pm.push(e), (#[trigger] nodes[k]).id) is Some
        <==> pm_lookup(pm0, nodes[k].id) is Some || id_seen(nodes, t + 1, nodes[k].id)) by {
        lemma_pm_lookup_push(pm, e, nodes[k].id);
        if pm_lookup(pm.push(e), nodes[k].id) is Some {
            if pm_lookup(pm, nodes[k].id) is None {
                assert(nodes[k].id == e.0);
                assert(0 <= t < t + 1 && (#[trigger] nodes[t]).id == nodes[k].id);
            }
        } else {
            if id_seen(nodes, t + 1, nodes[k].id) {
                let j = choose|j: int| 0 <= j < t + 1 && (#[trigger] nodes[j]).id == nodes[k].id;
                assert(nodes[k].id != e.0);
                assert(j < t);
            }
        }
    }
}

/// How many fresh blocks starting allocates for the first `t` nodes.
pub open spec fn blocks_needed_upto(nodes: Seq<Node>, t: int, pm: Seq<(u128, PortConfig)>) -> int
    decreases t,
{
    if t <= 0 {
        0
    } else {
        blocks_needed_upto(nodes, t - 1, pm) + if node_needs_block(nodes, t - 1, pm) {
            1 as int
        } else {
            0 as int
        }
    }
}

/// Whether the port ladder can hold every fresh block a start allocates:
/// vacuously when nothing is missing, else the last fresh block must end at
/// a representable port.
pub open spec fn ports_fit(nodes: Seq<Node>, pm: Seq<(u128, PortConfig)>) -> bool {
    let needed = blocks_needed_upto(nodes, nodes.len() as int, pm);
    needed == 0 || PORT_RANGE_START + PORT_INCREMENT * (pm.len() + needed - 1) + 3 <= u16::MAX
}

/// The count of fresh blocks grows with the prefix considered.
proof fn lemma_blocks_needed_mono(nodes: Seq<Node>, t1: int, t2: int, pm: Seq<(u128, PortConfig)>)
    requires
        t1 <= t2,
    ensures
        blocks_needed_upto(nodes, t1, pm) <= blocks_needed_upto(nodes, t2, pm),
    decreases t2 - t1,
{
    if t1 < t2 {
        lemma_blocks_needed_mono(nodes, t1, t2 - 1, pm);
    }
}

/// Allocates a port block for every node that still lacks one. On failure
/// (the port range is exhausted) the blocks allocated so far remain
/// recorded.
#[verifier::rlimit(100)]
fn allocate_all_ports(net: &mut Network) -> (r: EngineResult<()>)
    requires
        old(net).wf_ports(),
    ensures
        final(net).wf_ports(),
        final(net).id == old(net).id,
        final(net).name == old(net).name,
        final(net).status == old(net).status,
        final(net).nodes == old(net).nodes,
        final(net).lnd_version == old(net).lnd_version,
        final(net).btc_version == old(net).btc_version,
        final(net).alias_prefix == old(net).alias_prefix,
        old(net).port_mappings@.is_prefix_of(final(net).port_mappings@),
        r is Ok <==> ports_fit(old(net).nodes@, old(net).port_mappings@),
        match r {
            Ok(()) => forall|k: int|
                0 <= k < final(net).nodes@.len() ==> pm_lookup(
                    final(net).port_mappings@,
                    (#[trigger] final(net).nodes@[k]).id,
                ) is Some,
            Err(e) => e is Config,
        },
{
    let nn = net.nodes.len();
    let ghost nodes0 = old(net).nodes@;
    let ghost pm0 = old(net).port_mappings@;
    let mut t: usize = 0;
    proof {
        assert(old(net).port_mappings@.is_prefix_of(net.port_mappings@));
    }
    while t < nn
        invariant
            nn == net.nodes@.len(),
            t <= nn,
            net.wf_ports(),
            net.id == old(net).id,
            net.name == old(net).name,
            net.status == old(net).status,
            net.nodes == old(net).nodes,
            net.lnd_version == old(net).lnd_version,
            net.btc_version == old(net).btc_version,
            net.alias_prefix == old(net).alias_prefix,
            nodes0 == net.nodes@,
            pm0 == old(net).port_mappings@,
            pm0.is_prefix_of(net.port_mappings@),
            net.port_mappings@.len() == pm0.len() + blocks_needed_upto(nodes0, t as int, pm0),
            alloc_cover(nodes0, t as int, pm0, net.port_mappings@),
            blocks_needed_upto(nodes0, t as int, pm0) >= 1 ==> PORT_RANGE_START + PORT_INCREMENT
                * (pm0.len() + blocks_needed_upto(nodes0, t as int, pm0) - 1) + 3 <= u16::MAX,
        decreases nn - t,
    {
        let nid = net.nodes[t].id;
        let nkind = net.nodes[t].kind;
        match pm_find(&net.port_mappings, nid) {
            Some(_) => {
                proof {
                    lemma_alloc_cover_skip(nodes0, t as int, pm0, net.port_mappings@);
                }
            },
            None => {
                proof {
                    lemma_pm_lookup_none(net.port_mappings@, nid);
                    lemma_alloc_cover_missing(nodes0, t as int, pm0, net.port_mappings@);
                }
                let ghost pm_before = net.port_mappings@;
                match net.allocate_ports(nid, nkind) {
                    Ok(pc) => {
                        proof {
                            assert(net.port_mappings@ == pm_before.push((nid, pc)));
                            lemma_alloc_cover_push(nodes0, t as int, pm0, pm_before, (nid, pc));
                            lemma_pm_lookup_push(pm_before, (nid, pc), nid);
                            assert(pm_before.is_prefix_of(net.port_mappings@));
                        }
                    },
                    Err(e) => {
                        proof {
                            // this fresh block did not fit; the full count
                            // only grows, so the ladder cannot fit either
                            let done = blocks_needed_upto(nodes0, t as int, pm0);
                            assert(blocks_needed_upto(nodes0, t as int + 1, pm0) == done + 1);
                            lemma_blocks_needed_mono(nodes0, t as int + 1, nn as int, pm0);
                            let total = blocks_needed_upto(nodes0, nn as int, pm0);
                            assert(total >= done + 1);
                            assert(PORT_RANGE_START + PORT_INCREMENT * (pm0.len() + done) + 3
                                > u16::MAX);
                            assert(!ports_fit(nodes0, pm0));
                        }
                        return Err(e);
                    },
                }
            },
        }
        t += 1;
    }
    proof {
        // every fresh block fitted, so the ladder fits; and every node is
        // covered: its own index witnesses the coverage
        assert(ports_fit(nodes0, pm0));
        assert forall|k: int|
            0 <= k < net.nodes@.len() implies pm_lookup(
            net.port_mappings@,
            (#[trigger] net.nodes@[k]).id,
        ) is Some by {
            assert(0 <= k < nn && (#[trigger] nodes0[k]).id == net.nodes@[k].id);
            assert(id_seen(nodes0, nn as int, net.nodes@[k].id));
        }
    }
    Ok(())
}

impl NetworkManager {
    /// Begin starting the named network.
    ///
    /// Starting a network that is already running performs no container
    /// operation at all: the returned plan is marked and empty, and the
    /// registry is untouched. Otherwise the network enters the starting
    /// state, every node lacking a port block is allocated one, and the
    /// returned plan lists the container work in dependency order: the
    /// isolated network, the full-node container, then each Lightning
    /// container. The caller reports each container outcome back through
    /// `start_node_started`, and finishes with `start_network_complete` or
    /// `start_network_failed`.
    pub fn start_network_begin(&mut self, name: &str) -> (r: EngineResult<StartPlan>)
        requires
            old(self).wf(),
        ensures
            final(self).wf(),
            match r {
                Ok(plan) => {
                    &&& has_net(old(self).networks@, name@)
                    &&& {
                        let i = net_idx(old(self).networks@, name@);
                        let pre = old(self).networks@[i];
                        if pre.status is Running {
                            &&& plan.already_running
                            &&& plan.starts@.len() == 0
                            &&& *final(self) == *old(self)
                        } else {
                            &&& !plan.already_running
                            &&& final(self).networks@ == old(self).networks@.update(
                                i,
                                final(self).networks@[i],
                            )
                            &&& {
                                let post = final(self).networks@[i];
                                &&& post.status is Starting
                                &&& post.id == pre.id
                                &&& post.name == pre.name
                                &&& post.nodes == pre.nodes
                                &&& post.lnd_version == pre.lnd_version
                                &&& post.btc_version == pre.btc_version
                                &&& post.alias_prefix == pre.alias_prefix
                                &&& pre.port_mappings@.is_prefix_of(post.port_mappings@)
                                &&& forall|k: int|
                                    0 <= k < post.nodes@.len() ==> pm_lookup(
                                        post.port_mappings@,
                                        (#[trigger] post.nodes@[k]).id,
                                    ) is Some
                                &&& start_plan_matches(plan, post)
                            }
                        }
                    }
                },
                Err(e) => {
                    &&& (e is NetworkNotFound && !has_net(old(self).networks@, name@)
                        && *final(self) == *old(self)) || (e is Config && has_net(
                        old(self).networks@,
                        name@,
                    ) && {
                        let i = net_idx(old(self).networks@, name@);
                        let pre = old(self).networks@[i];
                        &&& !(pre.status is Running)
                        &&& !ports_fit(pre.nodes@, pre.port_mappings@)
                        &&& final(self).networks@ == old(self).networks@.update(
                            i,
                            final(self).networks@[i],
                        )
                        &&& final(self).networks@[i].status is Error
                        &&& final(self).networks@[i].nodes == pre.nodes
                    })
                },
            },
    {
        let idx = match self.find_network(name) {
            Some(i) => i,
            None => {
                return Err(Error::NetworkNotFound(String::from_str(name)));
            },
        };
        if matches!(self.networks[idx].status, NetworkStatus::Running) {
            let net_id = self.networks[idx].id;
            return Ok(
                StartPlan {
                    already_running: true,
                    docker_network: docker_network_name(net_id),
                    starts: Vec::new(),
                },
            );
        }
        let ghost pre_nets = self.networks@;
        let ghost pre = self.networks@[idx as int];
        let mut net = self.networks.remove(idx);
        net.status = NetworkStatus::Starting;
        match allocate_all_ports(&mut net) {
            Ok(()) => {},
            Err(e) => {
                proof {
                    assert(!ports_fit(pre.nodes@, pre.port_mappings@));
                }
                net.status = NetworkStatus::Error;
                self.networks.insert(idx, net);
                proof {
                    assert(final(self).networks@ =~= pre_nets.update(
                        idx as int,
                        final(self).networks@[idx as int],
                    ));
                    lemma_registry_update(
                        pre_nets,
                        idx as int,
                        final(self).networks@[idx as int],
                    );
                }
                return Err(e);
            },
        }
        // the plan: full node first, then each Lightning node in order
        let btc_i = match find_btc_node(&net.nodes) {
            Some(i) => i,
            None => {
                proof {
                    assert(false);
                }
                return Err(Error::Config(String::from_str("No Bitcoin node found in network")));
            },
        };
        let btc_id = net.nodes[btc_i].id;
        let btc_cfg = match pm_find(&net.port_mappings, btc_id) {
            Some(c) => c,
            None => {
                proof {
                    assert(false);
                }
                return Err(Error::Config(String::from_str("No Bitcoin node found in network")));
            },
        };
        let btc_image: String = match &net.btc_version {
            Some(v) => v.clone(),
            None => String::from_str(DEFAULT_BITCOIN_IMAGE),
        };
        let lnd_image: String = match &net.lnd_version {
            Some(v) => v.clone(),
            None => String::from_str(DEFAULT_LND_IMAGE),
        };
        let prefix: String = match &net.alias_prefix {
            Some(p) => p.clone(),
            None => String::from_str("polar-node"),
        };
        let mut starts: Vec<NodeStart> = Vec::new();
        starts.push(
            NodeStart {
                node_id: btc_id,
                kind: NodeKind::BitcoinCore,
                container_name: btc_container_name(btc_id),
                image: btc_image,
                cmd: bitcoind_start_cmd(),
                port_bindings: bindings_for(&btc_cfg),
            },
        );
        let nn = net.nodes.len();
        let mut t: usize = 0;
        let mut counter: usize = 0;
        proof {
            assert(net.nodes@.take(0) =~= Seq::<Node>::empty());
        }
        while t < nn
            invariant
                nn == net.nodes@.len(),
                t <= nn,
                counter <= t,
                net.wf_ports(),
                btc_id == btc_node(net.nodes@).id,
                forall|k: int|
                    0 <= k < net.nodes@.len() ==> pm_lookup(
                        net.port_mappings@,
                        (#[trigger] net.nodes@[k]).id,
                    ) is Some,
                counter == lnd_seq(net.nodes@.take(t as int)).len(),
                starts@.len() == 1 + counter,
                node_start_matches_btc(
                    starts@[0],
                    btc_node(net.nodes@),
                    net.port_mappings@,
                    str_or(net.btc_version, DEFAULT_BITCOIN_IMAGE@),
                ),
                lnd_image@ == str_or(net.lnd_version, DEFAULT_LND_IMAGE@),
                prefix@ == str_or(net.alias_prefix, "polar-node"@),
                forall|k: int|
                    1 <= k < starts@.len() ==> node_start_matches_lnd(
                        #[trigger] starts@[k],
                        lnd_seq(net.nodes@.take(t as int))[k - 1],
                        net.port_mappings@,
                        str_or(net.lnd_version, DEFAULT_LND_IMAGE@),
                        numbered_name(str_or(net.alias_prefix, "polar-node"@), k),
                        btc_id,
                    ),
            decreases nn - t,
        {
            let is_lnd = matches!(net.nodes[t].kind, NodeKind::Lnd);
            if is_lnd {
                let nid = net.nodes[t].id;
                let cfg = match pm_find(&net.port_mappings, nid) {
                    Some(c) => c,
                    None => {
                        proof {
                            assert(false);
                        }
                        return Err(Error::Config(String::from_str("missing port block")));
                    },
                };
                let alias = make_numbered_name(prefix.as_str(), (counter as u64) + 1);
                starts.push(
                    NodeStart {
                        node_id: nid,
                        kind: NodeKind::Lnd,
                        container_name: lnd_container_name(nid),
                        image: lnd_image.clone(),
                        cmd: lnd_start_cmd(alias.as_str(), btc_id),
                        port_bindings: bindings_for(&cfg),
                    },
                );
                counter += 1;
            }
            proof {
                assert(net.nodes@.take(t as int + 1).drop_last() =~= net.nodes@.take(t as int));
                assert(net.nodes@.take(t as int + 1).last() == net.nodes@[t as int]);
            }
            t += 1;
        }
        proof {
            assert(net.nodes@.take(nn as int) =~= net.nodes@);
        }
        let plan = StartPlan {
            already_running: false,
            docker_network: docker_network_name(net.id),
            starts,
        };
        self.networks.insert(idx, net);
        proof {
            assert(final(self).networks@ =~= pre_nets.update(
                idx as int,
                final(self).networks@[idx as int],
            ));
            lemma_registry_update(pre_nets, idx as int, final(self).networks@[idx as int]);
        }
        Ok(plan)
    }

    /// Begin stopping the named network.
    ///
    /// Stopping a network that is already stopped performs no container
    /// operation at all: the returned plan is marked and empty, and the
    /// registry is untouched. Otherwise the network enters the stopping
    /// state and the returned plan lists the running containers in teardown
    /// order — Lightning nodes first, then the full node, then the isolated
    /// network. The caller reports each removed container back through
    /// `stop_node_stopped` and finishes with `stop_network_complete`.
    pub fn stop_network_begin(&mut self, name: &str) -> (r: EngineResult<StopPlan>)
        requires
            old(self).wf(),
        ensures
            final(self).wf(),
            match r {
                Ok(plan) => {
                    &&& has_net(old(self).networks@, name@)
                    &&& {
                        let i = net_idx(old(self).networks@, name@);
                        let pre = old(self).networks@[i];
                        if pre.status is Stopped {
                            &&& plan.already_stopped
                            &&& plan.lnd_containers@.len() == 0
                            &&& plan.btc_containers@.len() == 0
                            &&& *final(self) == *old(self)
                        } else {
                            &&& !plan.already_stopped
                            &&& final(self).networks@ == old(self).networks@.update(
                                i,
                                with_status(pre, NetworkStatus::Stopping),
                            )
                            &&& plan.docker_network@ == spec_docker_network_name(pre.id)
                            &&& teardown_matches(
                                plan.lnd_containers@,
                                spec_teardown(pre.nodes@, NodeKind::Lnd),
                            )
                            &&& teardown_matches(
                                plan.btc_containers@,
                                spec_teardown(pre.nodes@, NodeKind::BitcoinCore),
                            )
                        }
                    }
                },
                Err(e) => e is NetworkNotFound && !has_net(old(self).networks@, name@)
                    && *final(self) == *old(self),
            },
    {
        let idx = match self.find_network(name) {
            Some(i) => i,
            None => {
                return Err(Error::NetworkNotFound(String::from_str(name)));
            },
        };
        if matches!(self.networks[idx].status, NetworkStatus::Stopped) {
            let net_id = self.networks[idx].id;
            return Ok(
                StopPlan {
                    already_stopped: true,
                    docker_network: docker_network_name(net_id),
                    lnd_containers: Vec::new(),
                    btc_containers: Vec::new(),
                },
            );
        }
        let net_id = self.networks[idx].id;
        let lnd_containers = collect_teardown(&self.networks[idx].nodes, NodeKind::Lnd);
        let btc_containers = collect_teardown(&self.networks[idx].nodes, NodeKind::BitcoinCore);
        self.set_status_at(idx, NetworkStatus::Stopping);
        Ok(
            StopPlan {
                already_stopped: false,
                docker_network: docker_network_name(net_id),
                lnd_containers,
                btc_containers,
            },
        )
    }
}

} // verus!

verus! {

/// Finds the first node bearing the identifier.
fn find_node_by_id(nodes: &Vec<Node>, id: u128) -> (r: Option<usize>)
    ensures
        match r {
            Some(i) => i < nodes@.len() && nodes@[i as int].id == id && forall|j: int|
                0 <= j < i ==> (#[trigger] nodes@[j]).id != id,
            None => forall|j: int| 0 <= j < nodes@.len() ==> (#[trigger] nodes@[j]).id != id,
        },
{
    let n = nodes.len();
    let mut i: usize = 0;
    while i < n
        invariant
            n == nodes@.len(),
            i <= n,
            forall|j: int| 0 <= j < i ==> (#[trigger] nodes@[j]).id != id,
        decreases n - i,
    {
        if nodes[i].id == id {
            return Some(i);
        }
        i += 1;
    }
    None
}

/// The network after one node's container identifier is replaced: the
/// first node bearing the identifier changes, nothing else does.
pub open spec fn node_container_updated(
    pre: Network,
    post: Network,
    node_id: u128,
    c: Option<String>,
) -> bool {
    &&& post.id == pre.id
    &&& post.name == pre.name
    &&& post.status == pre.status
    &&& post.lnd_version == pre.lnd_version
    &&& post.btc_version == pre.btc_version
    &&& post.alias_prefix == pre.alias_prefix
    &&& post.port_mappings == pre.port_mappings
    &&& exists|k: int|
        0 <= k < pre.nodes@.len() && (#[trigger] pre.nodes@[k]).id == node_id && post.nodes@
            == pre.nodes@.update(k, node_with_container(pre.nodes@[k], c))
}

impl NetworkManager {
    /// Records the container now realizing a node: sets the container
    /// identifier of the first node bearing the identifier in the named
    /// network, leaving everything else untouched.
    pub fn start_node_started(&mut self, name: &str, node_id: u128, container_id: String) -> (r:
        EngineResult<()>)
        requires
            old(self).wf(),
        ensures
            final(self).wf(),
            match r {
                Ok(()) => {
                    &&& has_net(old(self).networks@, name@)
                    &&& {
                        let i = net_idx(old(self).networks@, name@);
                        let pre = old(self).networks@[i];
                        &&& final(self).networks@ == old(self).networks@.update(
                            i,
                            final(self).networks@[i],
                        )
                        &&& node_container_updated(
                            pre,
                            final(self).networks@[i],
                            node_id,
                            Some(container_id),
                        )
                    }
                },
                Err(e) => {
                    &&& (e is NetworkNotFound && !has_net(old(self).networks@, name@)) || (e
                        is NodeNotFound && has_net(old(self).networks@, name@) && forall|k: int|
                        0 <= k < net_named(old(self).networks@, name@).nodes@.len() ==> (
                        #[trigger] net_named(old(self).networks@, name@).nodes@[k]).id != node_id)
                    &&& *final(self) == *old(self)
                },
            },
    {
        self.set_node_container(name, node_id, Some(container_id))
    }

    /// Records that a node's container was stopped and removed: clears the
    /// container identifier of the first node bearing the identifier in the
    /// named network.
    pub fn stop_node_stopped(&mut self, name: &str, node_id: u128) -> (r: EngineResult<()>)
        requires
            old(self).wf(),
        ensures
            final(self).wf(),
            match r {
                Ok(()) => {
                    &&& has_net(old(self).networks@, name@)
                    &&& {
                        let i = net_idx(old(self).networks@, name@);
                        let pre = old(self).networks@[i];
                        &&& final(self).networks@ == old(self).networks@.update(
                            i,
                            final(self).networks@[i],
                        )
                        &&& node_container_updated(
                            pre,
                            final(self).networks@[i],
                            node_id,
                            None,
                        )
                    }
                },
                Err(e) => {
                    &&& (e is NetworkNotFound && !has_net(old(self).networks@, name@)) || (e
                        is NodeNotFound && has_net(old(self).networks@, name@) && forall|k: int|
                        0 <= k < net_named(old(self).networks@, name@).nodes@.len() ==> (
                        #[trigger] net_named(old(self).networks@, name@).nodes@[k]).id != node_id)
                    &&& *final(self) == *old(self)
                },
            },
    {
        self.set_node_container(name, node_id, None)
    }

    /// Replaces the container identifier of the first node bearing the
    /// identifier.
    fn set_node_container(&mut self, name: &str, node_id: u128, container: Option<String>) -> (r:
        EngineResult<()>)
        requires
            old(self).wf(),
        ensures
            final(self).wf(),
            match r {
                Ok(()) => {
                    &&& has_net(old(self).networks@, name@)
                    &&& {
                        let i = net_idx(old(self).networks@, name@);
                        let pre = old(self).networks@[i];
                        &&& final(self).networks@ == old(self).networks@.update(
                            i,
                            final(self).networks@[i],
                        )
                        &&& node_container_updated(
                            pre,
                            final(self).networks@[i],
                            node_id,
                            container,
                        )
                    }
                },
                Err(e) => {
                    &&& (e is NetworkNotFound && !has_net(old(self).networks@, name@)) || (e
                        is NodeNotFound && has_net(old(self).networks@, name@) && forall|k: int|
                        0 <= k < net_named(old(self).networks@, name@).nodes@.len() ==> (
                        #[trigger] net_named(old(self).networks@, name@).nodes@[k]).id != node_id)
                    &&& *final(self) == *old(self)
                },
            },
    {
        let idx = match self.find_network(name) {
            Some(i) => i,
            None => {
                return Err(Error::NetworkNotFound(String::from_str(name)));
            },
        };
        let k = match find_node_by_id(&self.networks[idx].nodes, node_id) {
            Some(k) => k,
            None => {
                return Err(Error::NodeNotFound(String::from_str("no node with that id")));
            },
        };
        let ghost pre_nets = self.networks@;
        let ghost pre = self.networks@[idx as int];
        let mut net = self.networks.remove(idx);
        let nd = net.nodes.remove(k);
        let nd2 = Node { container_id: container, ..nd };
        net.nodes.insert(k, nd2);
        proof {
            assert(net.nodes@ =~= pre.nodes@.update(
                k as int,
                node_with_container(pre.nodes@[k as int], container),
            ));
        }
        self.networks.insert(idx, net);
        proof {
            let post = final(self).networks@[idx as int];
            assert(final(self).networks@ =~= pre_nets.update(idx as int, post));
            assert(post.names_unique()) by {
                assert forall|p: int, q: int|
                    0 <= p < q < post.nodes@.len() implies (#[trigger] post.nodes@[p]).name@ != (
                #[trigger] post.nodes@[q]).name@ by {
                    assert(pre.nodes@[p].name@ != pre.nodes@[q].name@);
                    assert(post.nodes@[p].name@ == pre.nodes@[p].name@);
                    assert(post.nodes@[q].name@ == pre.nodes@[q].name@);
                }
            }
            assert(post.has_unique_btc()) by {
                let b = btc_idx(pre.nodes@);
                assert(0 <= b < pre.nodes@.len() && pre.nodes@[b].kind is BitcoinCore);
                assert(post.nodes@[b].kind is BitcoinCore);
                assert forall|p: int, q: int|
                    0 <= p < post.nodes@.len() && 0 <= q < post.nodes@.len() && (
                #[trigger] post.nodes@[p]).kind is BitcoinCore && (
                #[trigger] post.nodes@[q]).kind is BitcoinCore implies p == q by {
                    assert(pre.nodes@[p].kind is BitcoinCore);
                    assert(pre.nodes@[q].kind is BitcoinCore);
                }
            }
            lemma_registry_update(pre_nets, idx as int, post);
        }
        Ok(())
    }

    /// Remove the named network from the registry, yielding its identifier
    /// so the caller can delete its persisted record. Removing an absent
    /// network is a no-op.
    pub fn remove_network(&mut self, name: &str) -> (r: Option<u128>)
        requires
            old(self).wf(),
        ensures
            final(self).wf(),
            match r {
                Some(id) => {
                    &&& has_net(old(self).networks@, name@)
                    &&& id == net_named(old(self).networks@, name@).id
                    &&& final(self).networks@ == old(self).networks@.remove(
                        net_idx(old(self).networks@, name@),
                    )
                },
                None => !has_net(old(self).networks@, name@) && *final(self) == *old(self),
            },
    {
        match self.find_network(name) {
            Some(i) => {
                let net = self.networks.remove(i);
                proof {
                    assert forall|p: int, q: int|
                        0 <= p < q < final(self).networks@.len() implies (
                    #[trigger] final(self).networks@[p]).name@ != (
                    #[trigger] final(self).networks@[q]).name@ by {
                        let pp = if p < i as int { p } else { p + 1 };
                        let qq = if q < i as int { q } else { q + 1 };
                        assert(final(self).networks@[p] == old(self).networks@[pp]);
                        assert(final(self).networks@[q] == old(self).networks@[qq]);
                    }
                    assert forall|p: int|
                        0 <= p < final(self).networks@.len() implies (
                    #[trigger] final(self).networks@[p]).wf_ports() && final(self).networks@[p].names_unique()
                        && final(self).networks@[p].has_unique_btc() by {
                        let pp = if p < i as int { p } else { p + 1 };
                        assert(final(self).networks@[p] == old(self).networks@[pp]);
                    }
                }
                Some(net.id)
            },
            None => None,
        }
    }
}

} // verus!

verus! {

/// Counts the Lightning nodes of a network.
fn count_lnd(nodes: &Vec<Node>) -> (r: usize)
    ensures
        r == lnd_seq(nodes@).len(),
{
    let n = nodes.len();
    let mut count: usize = 0;
    let mut i: usize = 0;
    proof {
        assert(nodes@.take(0) =~= Seq::<Node>::empty());
    }
    while i < n
        invariant
            n == nodes@.len(),
            i <= n,
            count <= i,
            count == lnd_seq(nodes@.take(i as int)).len(),
        decreases n - i,
    {
        if matches!(nodes[i].kind, NodeKind::Lnd) {
            count += 1;
        }
        proof {
            assert(nodes@.take(i as int + 1).drop_last() =~= nodes@.take(i as int));
            assert(nodes@.take(i as int + 1).last() == nodes@[i as int]);
        }
        i += 1;
    }
    proof {
        assert(nodes@.take(n as int) =~= nodes@);
    }
    count
}

impl NetworkManager {
    /// Append a new Lightning node to the named network, named by the
    /// implementation's short name and its ordinal. When the network is
    /// running, the node is also given a port block at once and the
    /// returned step describes the container to start; the caller reports
    /// its outcome through `start_node_started`. When the network is not
    /// running, nothing is allocated and no step is returned.
    ///
    /// If a node already bears the generated name — possible after
    /// deletions — the addition is refused rather than break name
    /// uniqueness.
    pub fn add_lightning_node(&mut self, network_name: &str, implementation: LightningImpl) -> (r:
        EngineResult<(String, Option<NodeStart>)>)
        requires
            old(self).wf(),
        ensures
            final(self).wf(),
            match r {
                Ok(out) => {
                    &&& has_net(old(self).networks@, network_name@)
                    &&& {
                        let i = net_idx(old(self).networks@, network_name@);
                        let pre = old(self).networks@[i];
                        let post = final(self).networks@[i];
                        let count = lnd_seq(pre.nodes@).len() as int;
                        &&& out.0@ == numbered_name("lnd"@, count + 1)
                        &&& final(self).networks@ == old(self).networks@.update(i, post)
                        &&& post.id == pre.id
                        &&& post.name == pre.name
                        &&& post.status == pre.status
                        &&& post.lnd_version == pre.lnd_version
                        &&& post.btc_version == pre.btc_version
                        &&& post.alias_prefix == pre.alias_prefix
                        &&& post.nodes@.len() == pre.nodes@.len() + 1
                        &&& post.nodes@.drop_last() == pre.nodes@
                        &&& post.nodes@.last().kind is Lnd
                        &&& post.nodes@.last().name@ == numbered_name("lnd"@, count + 1)
                        &&& post.nodes@.last().container_id is None
                        &&& if pre.status is Running {
                            &&& pre.port_mappings@.is_prefix_of(post.port_mappings@)
                            &&& match out.1 {
                                Some(step) => node_start_matches_lnd(
                                    step,
                                    post.nodes@.last(),
                                    post.port_mappings@,
                                    str_or(pre.lnd_version, DEFAULT_LND_IMAGE@),
                                    numbered_name(
                                        str_or(pre.alias_prefix, network_name@),
                                        count + 1,
                                    ),
                                    btc_node(pre.nodes@).id,
                                ),
                                None => false,
                            }
                        } else {
                            &&& post.port_mappings == pre.port_mappings
                            &&& out.1 is None
                        }
                    }
                },
                Err(e) => {
                    &&& (e is NetworkNotFound && !has_net(old(self).networks@, network_name@)) || (
                    e is Config && has_net(old(self).networks@, network_name@) && {
                        let pre = old(self).networks@[net_idx(old(self).networks@, network_name@)];
                        let count = lnd_seq(pre.nodes@).len() as int;
                        ||| count >= usize::MAX - 1
                        ||| has_node(pre.nodes@, numbered_name("lnd"@, count + 1))
                        ||| (pre.status is Running && PORT_RANGE_START + PORT_INCREMENT
                            * pre.port_mappings@.len() + 3 > u16::MAX)
                    })
                    &&& final(self).networks@ == old(self).networks@
                },
            },
    {
        let idx = match self.find_network(network_name) {
            Some(i) => i,
            None => {
                return Err(Error::NetworkNotFound(String::from_str(network_name)));
            },
        };
        let count = count_lnd(&self.networks[idx].nodes);
        if count >= usize::MAX - 1 {
            return Err(Error::Config(String::from_str("too many nodes")));
        }
        let node_name = make_numbered_name(implementation.short_name(), (count as u64) + 1);
        if find_node_named(&self.networks[idx].nodes, node_name.as_str()).is_some() {
            let mut msg = String::from_str("Node '");
            msg.append(node_name.as_str());
            msg.append("' already exists");
            return Err(Error::Config(msg));
        }
        let return_name = node_name.clone();
        let new_node = Node::new(node_name, implementation.node_kind());
        let new_id = new_node.id;
        let ghost pre_nets = self.networks@;
        let ghost pre = self.networks@[idx as int];
        let mut net = self.networks.remove(idx);
        let mut step: Option<NodeStart> = None;
        if matches!(net.status, NetworkStatus::Running) {
            let cfg = match pm_find(&net.port_mappings, new_id) {
                Some(c) => c,
                None => {
                    proof {
                        lemma_pm_lookup_none(net.port_mappings@, new_id);
                    }
                    let ghost pm_before = net.port_mappings@;
                    match net.allocate_ports(new_id, implementation.node_kind()) {
                        Ok(c) => {
                            proof {
                                lemma_pm_lookup_push(pm_before, (new_id, c), new_id);
                                assert(pm_before.is_prefix_of(net.port_mappings@));
                            }
                            c
                        },
                        Err(e) => {
                            // roll the removal back and refuse the addition
                            self.networks.insert(idx, net);
                            proof {
                                assert(final(self).networks@ =~= pre_nets);
                            }
                            return Err(e);
                        },
                    }
                },
            };
            let btc_i = match find_btc_node(&net.nodes) {
                Some(i) => i,
                None => {
                    proof {
                        assert(false);
                    }
                    return Err(Error::Config(String::from_str("No Bitcoin node found in network")));
                },
            };
            let btc_id = net.nodes[btc_i].id;
            let prefix: String = match &net.alias_prefix {
                Some(p) => p.clone(),
                None => String::from_str(network_name),
            };
            let alias = make_numbered_name(prefix.as_str(), (count as u64) + 1);
            let image: String = match &net.lnd_version {
                Some(v) => v.clone(),
                None => String::from_str(DEFAULT_LND_IMAGE),
            };
            step = Some(
                NodeStart {
                    node_id: new_id,
                    kind: NodeKind::Lnd,
                    container_name: lnd_container_name(new_id),
                    image,
                    cmd: lnd_start_cmd(alias.as_str(), btc_id),
                    port_bindings: bindings_for(&cfg),
                },
            );
        }
        net.add_node(new_node);
        self.networks.insert(idx, net);
        proof {
            let post = final(self).networks@[idx as int];
            assert(final(self).networks@ =~= pre_nets.update(idx as int, post));
            assert(post.nodes@.drop_last() =~= pre.nodes@);
            assert(post.names_unique()) by {
                assert forall|p: int, q: int|
                    0 <= p < q < post.nodes@.len() implies (#[trigger] post.nodes@[p]).name@ != (
                #[trigger] post.nodes@[q]).name@ by {
                    if q < post.nodes@.len() - 1 {
                        assert(post.nodes@[p] == pre.nodes@[p]);
                        assert(post.nodes@[q] == pre.nodes@[q]);
                    } else {
                        assert(post.nodes@[p] == pre.nodes@[p]);
                        assert(!has_node(pre.nodes@, post.nodes@[q].name@));
                    }
                }
            }
            assert(post.has_unique_btc()) by {
                let b = btc_idx(pre.nodes@);
                assert(0 <= b < pre.nodes@.len() && pre.nodes@[b].kind is BitcoinCore);
                assert(post.nodes@[b].kind is BitcoinCore);
                assert forall|p: int, q: int|
                    0 <= p < post.nodes@.len() && 0 <= q < post.nodes@.len() && (
                #[trigger] post.nodes@[p]).kind is BitcoinCore && (
                #[trigger] post.nodes@[q]).kind is BitcoinCore implies p == q by {
                    assert(p < post.nodes@.len() - 1 && q < post.nodes@.len() - 1);
                    assert(pre.nodes@[p].kind is BitcoinCore);
                    assert(pre.nodes@[q].kind is BitcoinCore);
                }
            }
            lemma_registry_update(pre_nets, idx as int, post);
        }
        Ok((return_name, step))
    }

    /// Decide the deletion of a Lightning node: refuse the full node in any
    /// status, refuse an unknown node, and otherwise yield the container to
    /// stop and remove first, if the node is running. Decides only; the
    /// registry is untouched.
    pub fn delete_lightning_node_begin(&self, network_name: &str, node_name: &str) -> (r:
        EngineResult<Option<String>>)
        requires
            self.wf(),
        ensures
            match r {
                Ok(copt) => {
                    &&& has_net(self.networks@, network_name@)
                    &&& {
                        let net = net_named(self.networks@, network_name@);
                        &&& has_node(net.nodes@, node_name@)
                        &&& !(node_named(net.nodes@, node_name@).kind is BitcoinCore)
                        &&& match copt {
                            Some(c) => node_named(net.nodes@, node_name@).container_id is Some && c@
                                == node_named(net.nodes@, node_name@).container_id->0@,
                            None => node_named(net.nodes@, node_name@).container_id is None,
                        }
                    }
                },
                Err(e) => (e is NetworkNotFound && !has_net(self.networks@, network_name@)) || (
                has_net(self.networks@, network_name@) && {
                    let net = net_named(self.networks@, network_name@);
                    ||| e is NodeNotFound && !has_node(net.nodes@, node_name@)
                    ||| e is Config && has_node(net.nodes@, node_name@) && node_named(
                        net.nodes@,
                        node_name@,
                    ).kind is BitcoinCore
                }),
            },
    {
        let idx = match self.find_network(network_name) {
            Some(i) => i,
            None => {
                return Err(Error::NetworkNotFound(String::from_str(network_name)));
            },
        };
        let k = match find_node_named(&self.networks[idx].nodes, node_name) {
            Some(k) => k,
            None => {
                let mut msg = String::from_str("Node '");
                msg.append(node_name);
                msg.append("' not found");
                return Err(Error::NodeNotFound(msg));
            },
        };
        if matches!(self.networks[idx].nodes[k].kind, NodeKind::BitcoinCore) {
            return Err(
                Error::Config(
                    String::from_str(
                        "Cannot delete Bitcoin node. Delete the entire network instead.",
                    ),
                ),
            );
        }
        match &self.networks[idx].nodes[k].container_id {
            Some(c) => Ok(Some(c.clone())),
            None => Ok(None),
        }
    }

    /// Remove a Lightning node from the named network, after its container
    /// is gone. The full node can never be removed — delete the whole
    /// network instead — and the node list is then left unchanged. Port
    /// blocks of removed nodes are not reclaimed.
    pub fn delete_lightning_node_commit(&mut self, network_name: &str, node_name: &str) -> (r:
        EngineResult<()>)
        requires
            old(self).wf(),
        ensures
            final(self).wf(),
            match r {
                Ok(()) => {
                    &&& has_net(old(self).networks@, network_name@)
                    &&& {
                        let i = net_idx(old(self).networks@, network_name@);
                        let pre = old(self).networks@[i];
                        let post = final(self).networks@[i];
                        &&& has_node(pre.nodes@, node_name@)
                        &&& !(node_named(pre.nodes@, node_name@).kind is BitcoinCore)
                        &&& final(self).networks@ == old(self).networks@.update(i, post)
                        &&& post.id == pre.id
                        &&& post.name == pre.name
                        &&& post.status == pre.status
                        &&& post.lnd_version == pre.lnd_version
                        &&& post.btc_version == pre.btc_version
                        &&& post.alias_prefix == pre.alias_prefix
                        &&& post.port_mappings == pre.port_mappings
                        &&& post.nodes@ == pre.nodes@.remove(node_idx(pre.nodes@, node_name@))
                    }
                },
                Err(e) => {
                    &&& (e is NetworkNotFound && !has_net(old(self).networks@, network_name@)) || (
                    has_net(old(self).networks@, network_name@) && {
                        let net = net_named(old(self).networks@, network_name@);
                        ||| e is NodeNotFound && !has_node(net.nodes@, node_name@)
                        ||| e is Config && has_node(net.nodes@, node_name@) && node_named(
                            net.nodes@,
                            node_name@,
                        ).kind is BitcoinCore
                    })
                    &&& *final(self) == *old(self)
                },
            },
    {
        let idx = match self.find_network(network_name) {
            Some(i) => i,
            None => {
                return Err(Error::NetworkNotFound(String::from_str(network_name)));
            },
        };
        let k = match find_node_named(&self.networks[idx].nodes, node_name) {
            Some(k) => k,
            None => {
                let mut msg = String::from_str("Node '");
                msg.append(node_name);
                msg.append("' not found");
                return Err(Error::NodeNotFound(msg));
            },
        };
        if matches!(self.networks[idx].nodes[k].kind, NodeKind::BitcoinCore) {
            return Err(
                Error::Config(
                    String::from_str(
                        "Cannot delete Bitcoin node. Delete the entire network instead.",
                    ),
                ),
            );
        }
        let ghost pre_nets = self.networks@;
        let ghost pre = self.networks@[idx as int];
        let mut net = self.networks.remove(idx);
        let _removed = net.nodes.remove(k);
        self.networks.insert(idx, net);
        proof {
            let post = final(self).networks@[idx as int];
            assert(final(self).networks@ =~= pre_nets.update(idx as int, post));
            assert(post.names_unique()) by {
                assert forall|p: int, q: int|
                    0 <= p < q < post.nodes@.len() implies (#[trigger] post.nodes@[p]).name@ != (
                #[trigger] post.nodes@[q]).name@ by {
                    let pp = if p < k as int { p } else { p + 1 };
                    let qq = if q < k as int { q } else { q + 1 };
                    assert(post.nodes@[p] == pre.nodes@[pp]);
                    assert(post.nodes@[q] == pre.nodes@[qq]);
                    assert(pre.nodes@[pp].name@ != pre.nodes@[qq].name@);
                }
            }
            assert(post.has_unique_btc()) by {
                let b = btc_idx(pre.nodes@);
                assert(0 <= b < pre.nodes@.len() && pre.nodes@[b].kind is BitcoinCore);
                assert(b != k as int);
                let b2 = if b < k as int { b } else { b - 1 };
                assert(post.nodes@[b2] == pre.nodes@[b]);
                assert(post.nodes@[b2].kind is BitcoinCore);
                assert forall|p: int, q: int|
                    0 <= p < post.nodes@.len() && 0 <= q < post.nodes@.len() && (
                #[trigger] post.nodes@[p]).kind is BitcoinCore && (
                #[trigger] post.nodes@[q]).kind is BitcoinCore implies p == q by {
                    let pp = if p < k as int { p } else { p + 1 };
                    let qq = if q < k as int { q } else { q + 1 };
                    assert(post.nodes@[p] == pre.nodes@[pp]);
                    assert(post.nodes@[q] == pre.nodes@[qq]);
                }
            }
            lemma_registry_update(pre_nets, idx as int, post);
        }
        Ok(())
    }
}

} // verus!

verus! {

/// The named node exists and is a Lightning node.
pub open spec fn is_lnd_named(nodes: Seq<Node>, name: Seq<char>) -> bool {
    has_node(nodes, name) && node_named(nodes, name).kind is Lnd
}

/// The request addresses the given container with exactly the given words.
pub open spec fn req_matches(r: ExecRequest, container: Seq<char>, argv: Seq<Seq<char>>) -> bool {
    r.container_id@ == container && cmd_matches(r.argv@, argv)
}

/// Resolves the running container of the full node.
fn btc_container_of(net: &Network, msg: &str) -> (r: EngineResult<String>)
    requires
        net.has_unique_btc(),
    ensures
        match r {
            Ok(c) => btc_node(net.nodes@).container_id is Some && c@ == btc_node(
                net.nodes@,
            ).container_id->0@,
            Err(e) => e is Config && btc_node(net.nodes@).container_id is None,
        },
{
    let i = match find_btc_node(&net.nodes) {
        Some(i) => i,
        None => {
            proof {
                assert(false);
            }
            return Err(Error::Config(String::from_str("No Bitcoin node found in network")));
        },
    };
    match &net.nodes[i].container_id {
        Some(c) => Ok(c.clone()),
        None => Err(Error::Config(String::from_str(msg))),
    }
}

/// Resolves a Lightning node by name, yielding its index and running
/// container. A name that no Lightning node bears is absent; a resolved
/// node without a container is a workflow-precondition failure.
fn lnd_container_of(net: &Network, name: &str) -> (r: EngineResult<(usize, String)>)
    requires
        net.names_unique(),
    ensures
        match r {
            Ok(p) => {
                &&& is_lnd_named(net.nodes@, name@)
                &&& p.0 < net.nodes@.len()
                &&& net.nodes@[p.0 as int] == node_named(net.nodes@, name@)
                &&& node_named(net.nodes@, name@).container_id is Some
                &&& p.1@ == node_named(net.nodes@, name@).container_id->0@
            },
            Err(e) => (e is NodeNotFound && !is_lnd_named(net.nodes@, name@)) || (e is Config
                && is_lnd_named(net.nodes@, name@) && node_named(
                net.nodes@,
                name@,
            ).container_id is None),
        },
{
    let k = match find_node_named(&net.nodes, name) {
        Some(k) => k,
        None => {
            let mut msg = String::from_str("LND node '");
            msg.append(name);
            msg.append("' not found");
            return Err(Error::NodeNotFound(msg));
        },
    };
    if !matches!(net.nodes[k].kind, NodeKind::Lnd) {
        let mut msg = String::from_str("LND node '");
        msg.append(name);
        msg.append("' not found");
        return Err(Error::NodeNotFound(msg));
    }
    match &net.nodes[k].container_id {
        Some(c) => Ok((k, c.clone())),
        None => Err(Error::Config(String::from_str("LND node not running"))),
    }
}

/// Verifies that the full node holds at least the requested amount: the
/// reported balance must parse and cover it, else the funding workflow
/// stops before any transfer is attempted.
pub fn fund_check_balance(balance_raw: &str, amount_sats: u64) -> (r: EngineResult<()>)
    ensures
        match r {
            Ok(()) => match crate::numstr::spec_parse_btc_sats(
                crate::numstr::spec_trim(balance_raw@),
            ) {
                Some(b) => b >= amount_sats,
                None => false,
            },
            Err(e) => e is Config && match crate::numstr::spec_parse_btc_sats(
                crate::numstr::spec_trim(balance_raw@),
            ) {
                Some(b) => b < amount_sats,
                None => true,
            },
        },
{
    let balance = match crate::responses::parse_balance_sats(balance_raw) {
        Ok(b) => b,
        Err(e) => {
            return Err(e);
        },
    };
    if balance < amount_sats {
        let mut msg = String::from_str("Insufficient balance in Bitcoin node. Have: ");
        let have = crate::numstr::sats_to_btc_string(balance);
        msg.append(have.as_str());
        msg.append(" BTC, Need: ");
        let need = crate::numstr::sats_to_btc_string(amount_sats);
        msg.append(need.as_str());
        msg.append(" BTC. Try mining blocks first.");
        return Err(Error::Config(msg));
    }
    Ok(())
}

impl NetworkManager {
    /// Resolves the named network or reports it unknown.
    fn resolve_network(&self, name: &str) -> (r: EngineResult<&Network>)
        requires
            self.wf(),
        ensures
            match r {
                Ok(net) => has_net(self.networks@, name@) && *net == net_named(
                    self.networks@,
                    name@,
                ),
                Err(e) => e is NetworkNotFound && !has_net(self.networks@, name@),
            },
    {
        match self.find_network(name) {
            Some(i) => Ok(&self.networks[i]),
            None => Err(Error::NetworkNotFound(String::from_str(name))),
        }
    }

    /// The command asking the full node for a fresh address to mine to.
    /// The full node must be running.
    pub fn mine_new_address_request(&self, network_name: &str) -> (r: EngineResult<ExecRequest>)
        requires
            self.wf(),
        ensures
            match r {
                Ok(req) => has_net(self.networks@, network_name@) && {
                    let net = net_named(self.networks@, network_name@);
                    &&& btc_node(net.nodes@).container_id is Some
                    &&& req_matches(
                        req,
                        btc_node(net.nodes@).container_id->0@,
                        crate::commands::btc_cli_prefix().push("getnewaddress"@),
                    )
                },
                Err(e) => (e is NetworkNotFound && !has_net(self.networks@, network_name@)) || (e
                    is Config && has_net(self.networks@, network_name@) && btc_node(
                    net_named(self.networks@, network_name@).nodes@,
                ).container_id is None),
            },
    {
        let net = self.resolve_network(network_name)?;
        let container = btc_container_of(
            net,
            "Bitcoin node is not running. Please start the network first.",
        )?;
        Ok(
            ExecRequest {
                container_id: container,
                argv: crate::commands::btc_simple_cmd("getnewaddress"),
            },
        )
    }

    /// The command mining the given number of blocks to an address on the
    /// full node.
    pub fn mine_generate_request(&self, network_name: &str, blocks: u32, address: &str) -> (r:
        EngineResult<ExecRequest>)
        requires
            self.wf(),
        ensures
            match r {
                Ok(req) => has_net(self.networks@, network_name@) && {
                    let net = net_named(self.networks@, network_name@);
                    &&& btc_node(net.nodes@).container_id is Some
                    &&& req_matches(
                        req,
                        btc_node(net.nodes@).container_id->0@,
                        crate::commands::btc_cli_prefix().push("generatetoaddress"@).push(
                            spec_dec_digits(blocks as int),
                        ).push(address@),
                    )
                },
                Err(e) => (e is NetworkNotFound && !has_net(self.networks@, network_name@)) || (e
                    is Config && has_net(self.networks@, network_name@) && btc_node(
                    net_named(self.networks@, network_name@).nodes@,
                ).container_id is None),
            },
    {
        let net = self.resolve_network(network_name)?;
        let container = btc_container_of(
            net,
            "Bitcoin node is not running. Please start the network first.",
        )?;
        Ok(
            ExecRequest {
                container_id: container,
                argv: crate::commands::btc_generatetoaddress_cmd(blocks, address),
            },
        )
    }

    /// The command reading the full node's wallet balance, the first step
    /// of the funding workflow. Both the full node and the named Lightning
    /// node must exist, the full node running.
    pub fn fund_balance_request(&self, network_name: &str, lnd_node_name: &str) -> (r:
        EngineResult<ExecRequest>)
        requires
            self.wf(),
        ensures
            match r {
                Ok(req) => has_net(self.networks@, network_name@) && {
                    let net = net_named(self.networks@, network_name@);
                    &&& is_lnd_named(net.nodes@, lnd_node_name@)
                    &&& btc_node(net.nodes@).container_id is Some
                    &&& req_matches(
                        req,
                        btc_node(net.nodes@).container_id->0@,
                        crate::commands::btc_cli_prefix().push("getbalance"@),
                    )
                },
                Err(e) => (e is NetworkNotFound && !has_net(self.networks@, network_name@)) || (
                has_net(self.networks@, network_name@) && {
                    let net = net_named(self.networks@, network_name@);
                    ||| e is NodeNotFound && !is_lnd_named(net.nodes@, lnd_node_name@)
                    ||| e is Config && is_lnd_named(net.nodes@, lnd_node_name@) && btc_node(
                        net.nodes@,
                    ).container_id is None
                }),
            },
    {
        let net = self.resolve_network(network_name)?;
        let k = match find_node_named(&net.nodes, lnd_node_name) {
            Some(k) => k,
            None => {
                let mut msg = String::from_str("LND node '");
                msg.append(lnd_node_name);
                msg.append("' not found");
                return Err(Error::NodeNotFound(msg));
            },
        };
        if !matches!(net.nodes[k].kind, NodeKind::Lnd) {
            let mut msg = String::from_str("LND node '");
            msg.append(lnd_node_name);
            msg.append("' not found");
            return Err(Error::NodeNotFound(msg));
        }
        let container = btc_container_of(net, "Bitcoin node not running")?;
        Ok(
            ExecRequest {
                container_id: container,
                argv: crate::commands::btc_simple_cmd("getbalance"),
            },
        )
    }

    /// The command asking the named Lightning node for a fresh deposit
    /// address.
    pub fn fund_address_request(&self, network_name: &str, lnd_node_name: &str) -> (r:
        EngineResult<ExecRequest>)
        requires
            self.wf(),
        ensures
            match r {
                Ok(req) => has_net(self.networks@, network_name@) && {
                    let net = net_named(self.networks@, network_name@);
                    &&& is_lnd_named(net.nodes@, lnd_node_name@)
                    &&& node_named(net.nodes@, lnd_node_name@).container_id is Some
                    &&& req_matches(
                        req,
                        node_named(net.nodes@, lnd_node_name@).container_id->0@,
                        crate::commands::lncli_prefix().push("newaddress"@).push("p2wkh"@),
                    )
                },
                Err(e) => (e is NetworkNotFound && !has_net(self.networks@, network_name@)) || (
                has_net(self.networks@, network_name@) && {
                    let net = net_named(self.networks@, network_name@);
                    ||| e is NodeNotFound && !is_lnd_named(net.nodes@, lnd_node_name@)
                    ||| e is Config && is_lnd_named(net.nodes@, lnd_node_name@) && node_named(
                        net.nodes@,
                        lnd_node_name@,
                    ).container_id is None
                }),
            },
    {
        let net = self.resolve_network(network_name)?;
        let (_, container) = lnd_container_of(net, lnd_node_name)?;
        Ok(
            ExecRequest { container_id: container, argv: crate::commands::lnd_newaddress_cmd() },
        )
    }

    /// The command sending an on-chain amount from the full node to an
    /// address, the transfer step of the funding workflow.
    pub fn fund_send_request(&self, network_name: &str, address: &str, amount_sats: u64) -> (r:
        EngineResult<ExecRequest>)
        requires
            self.wf(),
        ensures
            match r {
                Ok(req) => has_net(self.networks@, network_name@) && {
                    let net = net_named(self.networks@, network_name@);
                    &&& btc_node(net.nodes@).container_id is Some
                    &&& req_matches(
                        req,
                        btc_node(net.nodes@).container_id->0@,
                        crate::commands::btc_cli_prefix().push("sendtoaddress"@).push(
                            address@,
                        ).push(crate::numstr::spec_btc_string(amount_sats)),
                    )
                },
                Err(e) => (e is NetworkNotFound && !has_net(self.networks@, network_name@)) || (e
                    is Config && has_net(self.networks@, network_name@) && btc_node(
                    net_named(self.networks@, network_name@).nodes@,
                ).container_id is None),
            },
    {
        let net = self.resolve_network(network_name)?;
        let container = btc_container_of(net, "Bitcoin node not running")?;
        Ok(
            ExecRequest {
                container_id: container,
                argv: crate::commands::btc_sendtoaddress_cmd(address, amount_sats),
            },
        )
    }
}

} // verus!

verus! {

impl NetworkManager {
    /// The command reading a Lightning node's identity, used to learn the
    /// channel target's public key.
    pub fn channel_pubkey_request(&self, network_name: &str, node_name: &str) -> (r: EngineResult<
        ExecRequest,
    >)
        requires
            self.wf(),
        ensures
            match r {
                Ok(req) => has_net(self.networks@, network_name@) && {
                    let net = net_named(self.networks@, network_name@);
                    &&& is_lnd_named(net.nodes@, node_name@)
                    &&& node_named(net.nodes@, node_name@).container_id is Some
                    &&& req_matches(
                        req,
                        node_named(net.nodes@, node_name@).container_id->0@,
                        crate::commands::lncli_prefix().push("getinfo"@),
                    )
                },
                Err(e) => (e is NetworkNotFound && !has_net(self.networks@, network_name@)) || (
                has_net(self.networks@, network_name@) && {
                    let net = net_named(self.networks@, network_name@);
                    ||| e is NodeNotFound && !is_lnd_named(net.nodes@, node_name@)
                    ||| e is Config && is_lnd_named(net.nodes@, node_name@) && node_named(
                        net.nodes@,
                        node_name@,
                    ).container_id is None
                }),
            },
    {
        let net = self.resolve_network(network_name)?;
        let (_, container) = lnd_container_of(net, node_name)?;
        Ok(
            ExecRequest {
                container_id: container,
                argv: crate::commands::lnd_simple_cmd("getinfo"),
            },
        )
    }

    /// The command connecting one Lightning node to another as peers, over
    /// the target's in-network endpoint — its container name, not a host
    /// port.
    pub fn channel_connect_request(
        &self,
        network_name: &str,
        from_node: &str,
        to_node: &str,
        to_pubkey: &str,
    ) -> (r: EngineResult<ExecRequest>)
        requires
            self.wf(),
        ensures
            match r {
                Ok(req) => has_net(self.networks@, network_name@) && {
                    let net = net_named(self.networks@, network_name@);
                    &&& is_lnd_named(net.nodes@, from_node@)
                    &&& is_lnd_named(net.nodes@, to_node@)
                    &&& node_named(net.nodes@, from_node@).container_id is Some
                    &&& req_matches(
                        req,
                        node_named(net.nodes@, from_node@).container_id->0@,
                        crate::commands::lncli_prefix().push("connect"@).push(
                            to_pubkey@ + "@"@ + crate::commands::spec_peer_host(
                                node_named(net.nodes@, to_node@).id,
                            ),
                        ),
                    )
                },
                Err(e) => (e is NetworkNotFound && !has_net(self.networks@, network_name@)) || (
                has_net(self.networks@, network_name@) && {
                    let net = net_named(self.networks@, network_name@);
                    ||| e is NodeNotFound && (!is_lnd_named(net.nodes@, from_node@)
                        || !is_lnd_named(net.nodes@, to_node@))
                    ||| e is Config && is_lnd_named(net.nodes@, from_node@) && node_named(
                        net.nodes@,
                        from_node@,
                    ).container_id is None
                }),
            },
    {
        let net = self.resolve_network(network_name)?;
        let (_, from_container) = lnd_container_of(net, from_node)?;
        let to_k = match find_node_named(&net.nodes, to_node) {
            Some(k) => k,
            None => {
                let mut msg = String::from_str("LND node '");
                msg.append(to_node);
                msg.append("' not found");
                return Err(Error::NodeNotFound(msg));
            },
        };
        if !matches!(net.nodes[to_k].kind, NodeKind::Lnd) {
            let mut msg = String::from_str("LND node '");
            msg.append(to_node);
            msg.append("' not found");
            return Err(Error::NodeNotFound(msg));
        }
        let host = crate::commands::peer_host(net.nodes[to_k].id);
        Ok(
            ExecRequest {
                container_id: from_container,
                argv: crate::commands::lnd_connect_cmd(to_pubkey, host.as_str()),
            },
        )
    }

    /// The command opening a channel from the named node to a peer, with
    /// the given capacity in satoshi and optional push amount. No balance
    /// is pre-checked: failure surfaces from the node itself.
    pub fn channel_open_request(
        &self,
        network_name: &str,
        from_node: &str,
        to_pubkey: &str,
        capacity: u64,
        push_amount: Option<u64>,
    ) -> (r: EngineResult<ExecRequest>)
        requires
            self.wf(),
        ensures
            match r {
                Ok(req) => has_net(self.networks@, network_name@) && {
                    let net = net_named(self.networks@, network_name@);
                    &&& is_lnd_named(net.nodes@, from_node@)
                    &&& node_named(net.nodes@, from_node@).container_id is Some
                    &&& req_matches(
                        req,
                        node_named(net.nodes@, from_node@).container_id->0@,
                        match push_amount {
                            Some(p) => crate::commands::lncli_prefix().push("openchannel"@).push(
                                to_pubkey@,
                            ).push(spec_dec_digits(capacity as int)).push(
                                spec_dec_digits(p as int),
                            ),
                            None => crate::commands::lncli_prefix().push("openchannel"@).push(
                                to_pubkey@,
                            ).push(spec_dec_digits(capacity as int)),
                        },
                    )
                },
                Err(e) => (e is NetworkNotFound && !has_net(self.networks@, network_name@)) || (
                has_net(self.networks@, network_name@) && {
                    let net = net_named(self.networks@, network_name@);
                    ||| e is NodeNotFound && !is_lnd_named(net.nodes@, from_node@)
                    ||| e is Config && is_lnd_named(net.nodes@, from_node@) && node_named(
                        net.nodes@,
                        from_node@,
                    ).container_id is None
                }),
            },
    {
        let net = self.resolve_network(network_name)?;
        let (_, container) = lnd_container_of(net, from_node)?;
        Ok(
            ExecRequest {
                container_id: container,
                argv: crate::commands::lnd_openchannel_cmd(to_pubkey, capacity, push_amount),
            },
        )
    }

    /// The command closing a channel owned by the named node, cooperatively
    /// or by force.
    pub fn channel_close_request(
        &self,
        network_name: &str,
        node_name: &str,
        channel_point: &str,
        force: bool,
    ) -> (r: EngineResult<ExecRequest>)
        requires
            self.wf(),
        ensures
            match r {
                Ok(req) => has_net(self.networks@, network_name@) && {
                    let net = net_named(self.networks@, network_name@);
                    &&& is_lnd_named(net.nodes@, node_name@)
                    &&& node_named(net.nodes@, node_name@).container_id is Some
                    &&& req_matches(
                        req,
                        node_named(net.nodes@, node_name@).container_id->0@,
                        if force {
                            crate::commands::lncli_prefix().push("closechannel"@).push(
                                "--chan_point"@,
                            ).push(channel_point@).push("--force"@)
                        } else {
                            crate::commands::lncli_prefix().push("closechannel"@).push(
                                "--chan_point"@,
                            ).push(channel_point@)
                        },
                    )
                },
                Err(e) => (e is NetworkNotFound && !has_net(self.networks@, network_name@)) || (
                has_net(self.networks@, network_name@) && {
                    let net = net_named(self.networks@, network_name@);
                    ||| e is NodeNotFound && !is_lnd_named(net.nodes@, node_name@)
                    ||| e is Config && is_lnd_named(net.nodes@, node_name@) && node_named(
                        net.nodes@,
                        node_name@,
                    ).container_id is None
                }),
            },
    {
        let net = self.resolve_network(network_name)?;
        let (_, container) = lnd_container_of(net, node_name)?;
        Ok(
            ExecRequest {
                container_id: container,
                argv: crate::commands::lnd_closechannel_cmd(channel_point, force),
            },
        )
    }

    /// The command creating an invoice on the receiving node, the first
    /// step of a payment.
    pub fn payment_invoice_request(
        &self,
        network_name: &str,
        to_node: &str,
        amount_sats: u64,
        memo: Option<&str>,
    ) -> (r: EngineResult<ExecRequest>)
        requires
            self.wf(),
        ensures
            match r {
                Ok(req) => has_net(self.networks@, network_name@) && {
                    let net = net_named(self.networks@, network_name@);
                    &&& is_lnd_named(net.nodes@, to_node@)
                    &&& node_named(net.nodes@, to_node@).container_id is Some
                    &&& req_matches(
                        req,
                        node_named(net.nodes@, to_node@).container_id->0@,
                        match memo {
                            Some(m) => crate::commands::lncli_prefix().push("addinvoice"@).push(
                                "--json"@,
                            ).push("--amt"@).push(spec_dec_digits(amount_sats as int)).push(
                                "--memo"@,
                            ).push(m@),
                            None => crate::commands::lncli_prefix().push("addinvoice"@).push(
                                "--json"@,
                            ).push("--amt"@).push(spec_dec_digits(amount_sats as int)),
                        },
                    )
                },
                Err(e) => (e is NetworkNotFound && !has_net(self.networks@, network_name@)) || (
                has_net(self.networks@, network_name@) && {
                    let net = net_named(self.networks@, network_name@);
                    ||| e is NodeNotFound && !is_lnd_named(net.nodes@, to_node@)
                    ||| e is Config && is_lnd_named(net.nodes@, to_node@) && node_named(
                        net.nodes@,
                        to_node@,
                    ).container_id is None
                }),
            },
    {
        let net = self.resolve_network(network_name)?;
        let (_, container) = lnd_container_of(net, to_node)?;
        Ok(
            ExecRequest {
                container_id: container,
                argv: crate::commands::lnd_addinvoice_cmd(amount_sats, memo),
            },
        )
    }

    /// The command paying a payment request from the sending node, the
    /// second step of a payment.
    pub fn payment_pay_request(
        &self,
        network_name: &str,
        from_node: &str,
        payment_request: &str,
    ) -> (r: EngineResult<ExecRequest>)
        requires
            self.wf(),
        ensures
            match r {
                Ok(req) => has_net(self.networks@, network_name@) && {
                    let net = net_named(self.networks@, network_name@);
                    &&& is_lnd_named(net.nodes@, from_node@)
                    &&& node_named(net.nodes@, from_node@).container_id is Some
                    &&& req_matches(
                        req,
                        node_named(net.nodes@, from_node@).container_id->0@,
                        crate::commands::lncli_prefix().push("payinvoice"@).push("--json"@).push(
                            "--force"@,
                        ).push(payment_request@),
                    )
                },
                Err(e) => (e is NetworkNotFound && !has_net(self.networks@, network_name@)) || (
                has_net(self.networks@, network_name@) && {
                    let net = net_named(self.networks@, network_name@);
                    ||| e is NodeNotFound && !is_lnd_named(net.nodes@, from_node@)
                    ||| e is Config && is_lnd_named(net.nodes@, from_node@) && node_named(
                        net.nodes@,
                        from_node@,
                    ).container_id is None
                }),
            },
    {
        let net = self.resolve_network(network_name)?;
        let (_, container) = lnd_container_of(net, from_node)?;
        Ok(
            ExecRequest {
                container_id: container,
                argv: crate::commands::lnd_payinvoice_cmd(payment_request),
            },
        )
    }

    /// The command querying a node's identity and state, together with the
    /// node's kind: the caller issues the kind's fixed query set and hands
    /// the outputs to the matching assembly.
    pub fn node_info_request(&self, network_name: &str, node_name: &str) -> (r: EngineResult<
        (NodeKind, String),
    >)
        requires
            self.wf(),
        ensures
            match r {
                Ok(p) => has_net(self.networks@, network_name@) && {
                    let net = net_named(self.networks@, network_name@);
                    &&& has_node(net.nodes@, node_name@)
                    &&& p.0 == node_named(net.nodes@, node_name@).kind
                    &&& node_named(net.nodes@, node_name@).container_id is Some
                    &&& p.1@ == node_named(net.nodes@, node_name@).container_id->0@
                },
                Err(e) => (e is NetworkNotFound && !has_net(self.networks@, network_name@)) || (
                has_net(self.networks@, network_name@) && {
                    let net = net_named(self.networks@, network_name@);
                    ||| e is NodeNotFound && !has_node(net.nodes@, node_name@)
                    ||| e is Config && has_node(net.nodes@, node_name@) && node_named(
                        net.nodes@,
                        node_name@,
                    ).container_id is None
                }),
            },
    {
        let net = self.resolve_network(network_name)?;
        let k = match find_node_named(&net.nodes, node_name) {
            Some(k) => k,
            None => {
                let mut msg = String::from_str("Node '");
                msg.append(node_name);
                msg.append("' not found");
                return Err(Error::NodeNotFound(msg));
            },
        };
        match &net.nodes[k].container_id {
            Some(c) => Ok((net.nodes[k].kind, c.clone())),
            None => Err(Error::Config(String::from_str("Node is not running"))),
        }
    }

    /// The names of the network's Lightning nodes, in order.
    pub fn lightning_node_names(&self, network_name: &str) -> (r: EngineResult<Vec<String>>)
        requires
            self.wf(),
        ensures
            match r {
                Ok(names) => has_net(self.networks@, network_name@) && {
                    let lnds = lnd_seq(net_named(self.networks@, network_name@).nodes@);
                    names@.len() == lnds.len() && forall|k: int|
                        0 <= k < names@.len() ==> (#[trigger] names@[k])@ == lnds[k].name@
                },
                Err(e) => e is NetworkNotFound && !has_net(self.networks@, network_name@),
            },
    {
        let net = self.resolve_network(network_name)?;
        let n = net.nodes.len();
        let mut out: Vec<String> = Vec::new();
        let mut i: usize = 0;
        proof {
            assert(net.nodes@.take(0) =~= Seq::<Node>::empty());
        }
        while i < n
            invariant
                n == net.nodes@.len(),
                i <= n,
                out@.len() == lnd_seq(net.nodes@.take(i as int)).len(),
                forall|k: int|
                    0 <= k < out@.len() ==> (#[trigger] out@[k])@ == lnd_seq(
                        net.nodes@.take(i as int),
                    )[k].name@,
            decreases n - i,
        {
            if matches!(net.nodes[i].kind, NodeKind::Lnd) {
                out.push(net.nodes[i].name.clone());
            }
            proof {
                assert(net.nodes@.take(i as int + 1).drop_last() =~= net.nodes@.take(i as int));
                assert(net.nodes@.take(i as int + 1).last() == net.nodes@[i as int]);
            }
            i += 1;
        }
        proof {
            assert(net.nodes@.take(n as int) =~= net.nodes@);
        }
        Ok(out)
    }

    /// How many Lightning nodes a graph synchronization touches: all of
    /// them, or none at all when the network holds fewer than two.
    pub fn sync_graph_count(&self, network_name: &str) -> (r: EngineResult<usize>)
        requires
            self.wf(),
        ensures
            match r {
                Ok(c) => has_net(self.networks@, network_name@) && {
                    let lnds = lnd_seq(net_named(self.networks@, network_name@).nodes@);
                    c == if lnds.len() >= 2 {
                        lnds.len() as int
                    } else {
                        0
                    }
                },
                Err(e) => e is NetworkNotFound && !has_net(self.networks@, network_name@),
            },
    {
        let net = self.resolve_network(network_name)?;
        let c = count_lnd(&net.nodes);
        if c >= 2 {
            Ok(c)
        } else {
            Ok(0)
        }
    }

    /// The commands reading each running Lightning node's state for a chain
    /// synchronization snapshot; nodes without a container are skipped.
    pub fn sync_chain_requests(&self, network_name: &str) -> (r: EngineResult<Vec<ExecRequest>>)
        requires
            self.wf(),
        ensures
            match r {
                Ok(reqs) => has_net(self.networks@, network_name@) && {
                    let t = spec_teardown(
                        net_named(self.networks@, network_name@).nodes@,
                        NodeKind::Lnd,
                    );
                    reqs@.len() == t.len() && forall|k: int|
                        0 <= k < reqs@.len() ==> req_matches(
                            #[trigger] reqs@[k],
                            t[k].1,
                            crate::commands::lncli_prefix().push("getinfo"@),
                        )
                },
                Err(e) => e is NetworkNotFound && !has_net(self.networks@, network_name@),
            },
    {
        let net = self.resolve_network(network_name)?;
        let running = collect_teardown(&net.nodes, NodeKind::Lnd);
        let n = running.len();
        let mut out: Vec<ExecRequest> = Vec::new();
        let mut i: usize = 0;
        while i < n
            invariant
                n == running@.len(),
                i <= n,
                teardown_matches(
                    running@,
                    spec_teardown(net_named(self.networks@, network_name@).nodes@, NodeKind::Lnd),
                ),
                out@.len() == i,
                forall|k: int|
                    0 <= k < i ==> req_matches(
                        #[trigger] out@[k],
                        spec_teardown(
                            net_named(self.networks@, network_name@).nodes@,
                            NodeKind::Lnd,
                        )[k].1,
                        crate::commands::lncli_prefix().push("getinfo"@),
                    ),
            decreases n - i,
        {
            out.push(
                ExecRequest {
                    container_id: running[i].1.clone(),
                    argv: crate::commands::lnd_simple_cmd("getinfo"),
                },
            );
            i += 1;
        }
        Ok(out)
    }
}

} // verus!

verus! {

/// The node names of a sequence of nodes, in order.
pub open spec fn names_of(nodes: Seq<Node>) -> Seq<Seq<char>> {
    Seq::new(nodes.len(), |k: int| nodes[k].name@)
}

/// The pairs `(names[i], names[j])` with `i < j < bound`, enumerated with
/// the first index outermost, ascending.
pub open spec fn pairs_below(names: Seq<Seq<char>>, bound: nat) -> Seq<(Seq<char>, Seq<char>)>
    decreases bound,
{
    if bound == 0 {
        Seq::empty()
    } else {
        pairs_below(names, (bound - 1) as nat) + row_below(
            names,
            (bound - 1) as nat,
            names.len() as nat,
        )
    }
}

/// The pairs `(names[i], names[j])` with `i < j < bound`, for one fixed
/// first index, ascending second index.
pub open spec fn row_below(names: Seq<Seq<char>>, i: nat, bound: nat) -> Seq<
    (Seq<char>, Seq<char>),
>
    decreases bound,
{
    if bound <= i + 1 {
        Seq::empty()
    } else {
        row_below(names, i, (bound - 1) as nat).push((names[i as int], names[bound - 1]))
    }
}

/// Every unordered pair of distinct names, each once: first index
/// outermost.
pub open spec fn all_name_pairs(names: Seq<Seq<char>>) -> Seq<(Seq<char>, Seq<char>)> {
    pairs_below(names, names.len() as nat)
}

/// The rendered pairs spell the enumerated pairs exactly.
pub open spec fn pairs_match(v: Seq<(String, String)>, s: Seq<(Seq<char>, Seq<char>)>) -> bool {
    v.len() == s.len() && forall|t: int|
        0 <= t < v.len() ==> (#[trigger] v[t]).0@ == s[t].0 && v[t].1@ == s[t].1
}

impl NetworkManager {
    /// The unordered pairs of Lightning-node names a graph synchronization
    /// connects: every pair of distinct Lightning nodes, each once, in
    /// order. For each pair the caller learns the second node's identity
    /// and connects the first to it, swallowing failures — the mesh
    /// connect is idempotent.
    pub fn sync_graph_pair_names(&self, network_name: &str) -> (r: EngineResult<
        Vec<(String, String)>,
    >)
        requires
            self.wf(),
        ensures
            match r {
                Ok(pairs) => has_net(self.networks@, network_name@) && pairs_match(
                    pairs@,
                    all_name_pairs(
                        names_of(lnd_seq(net_named(self.networks@, network_name@).nodes@)),
                    ),
                ),
                Err(e) => e is NetworkNotFound && !has_net(self.networks@, network_name@),
            },
    {
        let names = self.lightning_node_names(network_name)?;
        let ghost lnames = names_of(lnd_seq(net_named(self.networks@, network_name@).nodes@));
        proof {
            assert forall|k: int| 0 <= k < names@.len() implies (#[trigger] names@[k])@
                == lnames[k] by {}
        }
        let n = names.len();
        let mut out: Vec<(String, String)> = Vec::new();
        let mut i: usize = 0;
        while i < n
            invariant
                n == names@.len(),
                names@.len() == lnames.len(),
                forall|k: int| 0 <= k < names@.len() ==> (#[trigger] names@[k])@ == lnames[k],
                i <= n,
                pairs_match(out@, pairs_below(lnames, i as nat)),
            decreases n - i,
        {
            let mut j: usize = i + 1;
            proof {
                assert(row_below(lnames, i as nat, (i + 1) as nat) =~= Seq::<
                    (Seq<char>, Seq<char>),
                >::empty());
                assert(pairs_below(lnames, i as nat) + row_below(lnames, i as nat, (i + 1) as nat)
                    =~= pairs_below(lnames, i as nat));
            }
            while j < n
                invariant
                    n == names@.len(),
                    names@.len() == lnames.len(),
                    forall|k: int| 0 <= k < names@.len() ==> (#[trigger] names@[k])@ == lnames[k],
                    i < j <= n,
                    pairs_match(
                        out@,
                        pairs_below(lnames, i as nat) + row_below(lnames, i as nat, j as nat),
                    ),
                decreases n - j,
            {
                out.push((names[i].clone(), names[j].clone()));
                proof {
                    assert(row_below(lnames, i as nat, (j + 1) as nat) == row_below(
                        lnames,
                        i as nat,
                        j as nat,
                    ).push((lnames[i as int], lnames[j as int])));
                }
                j += 1;
            }
            proof {
                assert(pairs_below(lnames, (i + 1) as nat) == pairs_below(lnames, i as nat)
                    + row_below(lnames, i as nat, lnames.len() as nat));
            }
            i += 1;
        }
        proof {
            if n == 0 {
                assert(pairs_below(lnames, 0) =~= all_name_pairs(lnames));
            }
        }
        Ok(out)
    }
}

} // verus!
