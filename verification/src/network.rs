//! The network and node model, and the port allocator.
//!
//! A `Network` owns its nodes and the map of host-port blocks handed out to
//! them. Port blocks are allocated append-only: the `i`-th allocated block
//! starts at `PORT_RANGE_START + i * PORT_INCREMENT`, so blocks of distinct
//! nodes can never overlap, and blocks of deleted nodes are never reclaimed
//! for the lifetime of the network (a documented trade-off).

use vstd::prelude::*;

use crate::error::{EngineResult, Error};
use crate::ids::fresh_id;
use crate::{PORT_INCREMENT, PORT_RANGE_START};

verus! {

/// Type of node.
#[derive(Debug, Clone, Copy, PartialEq, Eq, Structural)]
pub enum NodeKind {
    /// Bitcoin Core node: maintains the base ledger.
    BitcoinCore,
    /// LND Lightning node: operates payment channels.
    Lnd,
}

impl NodeKind {
    /// Check if this node is a Lightning implementation.
    pub fn is_lightning(&self) -> (r: bool)
        ensures
            r == (*self is Lnd),
    {
        matches!(self, NodeKind::Lnd)
    }
}

/// Lightning implementation type.
#[derive(Debug, Clone, Copy, PartialEq, Eq, Structural)]
pub enum LightningImpl {
    /// LND (Lightning Network Daemon).
    Lnd,
}

impl LightningImpl {
    /// All available Lightning implementations.
    pub fn all() -> (r: Vec<LightningImpl>)
        ensures
            r@ == seq![LightningImpl::Lnd],
    {
        let mut v: Vec<LightningImpl> = Vec::new();
        v.push(LightningImpl::Lnd);
        proof {
            assert(v@ =~= seq![LightningImpl::Lnd]);
        }
        v
    }

    /// The short name for this implementation, used in generated node names.
    pub fn short_name(&self) -> (r: &'static str)
        ensures
            r@ == "lnd"@,
    {
        match self {
            LightningImpl::Lnd => "lnd",
        }
    }

    /// The node kind realizing this implementation.
    pub fn node_kind(&self) -> (r: NodeKind)
        ensures
            r is Lnd,
    {
        match self {
            LightningImpl::Lnd => NodeKind::Lnd,
        }
    }
}

/// Status of a network.
#[derive(Debug, Clone, Copy, PartialEq, Eq, Structural)]
pub enum NetworkStatus {
    /// Network is stopped.
    Stopped,
    /// Network is starting.
    Starting,
    /// Network is running.
    Running,
    /// Network is stopping.
    Stopping,
    /// Network encountered an error.
    Error,
}

/// Port mappings for different node types. Each value names the host ports
/// bound to the node's well-known container ports.
#[derive(Debug, Clone, Copy, PartialEq, Eq, Structural)]
pub enum NodePorts {
    /// Bitcoin Core ports.
    BitcoinCore {
        /// RPC port.
        rpc: u16,
        /// P2P port.
        p2p: u16,
        /// ZMQ raw-block notification port.
        zmq_block: u16,
        /// ZMQ raw-transaction notification port.
        zmq_tx: u16,
    },
    /// LND ports.
    Lnd {
        /// REST API port.
        rest: u16,
        /// gRPC API port.
        grpc: u16,
        /// P2P peer port.
        p2p: u16,
    },
}

/// Port configuration for a node.
#[derive(Debug, Clone, Copy, PartialEq, Eq, Structural)]
pub struct PortConfig {
    /// Ports specific to this node type.
    pub ports: NodePorts,
}

/// All host ports held by a configuration, in declaration order.
pub open spec fn spec_all_ports(pc: PortConfig) -> Seq<u16> {
    match pc.ports {
        NodePorts::BitcoinCore { rpc, p2p, zmq_block, zmq_tx } => seq![rpc, p2p, zmq_block, zmq_tx],
        NodePorts::Lnd { rest, grpc, p2p } => seq![rest, grpc, p2p],
    }
}

/// The first port of a configuration's block.
pub open spec fn config_base(pc: PortConfig) -> u16 {
    match pc.ports {
        NodePorts::BitcoinCore { rpc, .. } => rpc,
        NodePorts::Lnd { rest, .. } => rest,
    }
}

/// Offset of the last port of a configuration relative to its base.
pub open spec fn config_top_offset(pc: PortConfig) -> int {
    match pc.ports {
        NodePorts::BitcoinCore { .. } => 3,
        NodePorts::Lnd { .. } => 2,
    }
}

/// The configuration's ports are consecutive, starting at its base.
pub open spec fn config_contiguous(pc: PortConfig) -> bool {
    match pc.ports {
        NodePorts::BitcoinCore { rpc, p2p, zmq_block, zmq_tx } => p2p == rpc + 1 && zmq_block
            == rpc + 2 && zmq_tx == rpc + 3,
        NodePorts::Lnd { rest, grpc, p2p } => grpc == rest + 1 && p2p == rest + 2,
    }
}

impl PortConfig {
    /// Get all ports allocated to this node.
    pub fn get_all_ports(&self) -> (r: Vec<u16>)
        ensures
            r@ == spec_all_ports(*self),
    {
        match &self.ports {
            NodePorts::BitcoinCore { rpc, p2p, zmq_block, zmq_tx } => {
                let v = vec![*rpc, *p2p, *zmq_block, *zmq_tx];
                proof {
                    assert(v@ =~= spec_all_ports(*self));
                }
                v
            },
            NodePorts::Lnd { rest, grpc, p2p } => {
                let v = vec![*rest, *grpc, *p2p];
                proof {
                    assert(v@ =~= spec_all_ports(*self));
                }
                v
            },
        }
    }
}

/// A node in a network.
#[derive(Debug, Clone, PartialEq)]
pub struct Node {
    /// Unique identifier.
    pub id: u128,
    /// Node name, unique within its network.
    pub name: String,
    /// Node type.
    pub kind: NodeKind,
    /// Container identifier; present exactly while the node is running.
    pub container_id: Option<String>,
}

impl Node {
    /// Create a new node with a freshly drawn identifier, not running.
    pub fn new(name: String, kind: NodeKind) -> (r: Node)
        ensures
            r.name == name,
            r.kind == kind,
            r.container_id is None,
    {
        Node { id: fresh_id(), name, kind, container_id: None }
    }
}

/// A named, independently lifecycled test environment.
#[derive(Debug, Clone, PartialEq)]
pub struct Network {
    /// Unique identifier.
    pub id: u128,
    /// Human-readable name, unique across the store.
    pub name: String,
    /// Network status.
    pub status: NetworkStatus,
    /// Nodes in this network, in creation order.
    pub nodes: Vec<Node>,
    /// Pinned LND container image.
    pub lnd_version: Option<String>,
    /// Pinned Bitcoin Core container image.
    pub btc_version: Option<String>,
    /// Alias prefix used to name Lightning nodes.
    pub alias_prefix: Option<String>,
    /// Port blocks handed out so far, in allocation order, keyed by node id.
    pub port_mappings: Vec<(u128, PortConfig)>,
}

impl Network {
    /// The port-allocation invariant: the `i`-th allocated block is the
    /// contiguous run starting at `PORT_RANGE_START + i * PORT_INCREMENT`,
    /// and no node holds two blocks.
    pub open spec fn wf_ports(self) -> bool {
        &&& forall|i: int|
            0 <= i < self.port_mappings@.len() ==> {
                let pc = (#[trigger] self.port_mappings@[i]).1;
                config_contiguous(pc) && config_base(pc) == PORT_RANGE_START + PORT_INCREMENT * i
            }
        &&& forall|i: int, j: int|
            0 <= i < j < self.port_mappings@.len() ==> (#[trigger] self.port_mappings@[i]).0 != (
            #[trigger] self.port_mappings@[j]).0
    }

    /// Node names are unique within the network.
    pub open spec fn names_unique(self) -> bool {
        forall|i: int, j: int|
            0 <= i < j < self.nodes@.len() ==> (#[trigger] self.nodes@[i]).name@ != (
            #[trigger] self.nodes@[j]).name@
    }

    /// The network holds exactly one node of the full-node kind.
    pub open spec fn has_unique_btc(self) -> bool {
        &&& exists|i: int|
            0 <= i < self.nodes@.len() && (#[trigger] self.nodes@[i]).kind is BitcoinCore
        &&& forall|i: int, j: int|
            0 <= i < self.nodes@.len() && 0 <= j < self.nodes@.len() && (
            #[trigger] self.nodes@[i]).kind is BitcoinCore && (
            #[trigger] self.nodes@[j]).kind is BitcoinCore ==> i == j
    }

    /// Create a new, empty, stopped network with the given name.
    pub fn new(name: String) -> (r: Network)
        ensures
            r.name == name,
            r.status is Stopped,
            r.nodes@.len() == 0,
            r.lnd_version is None,
            r.btc_version is None,
            r.alias_prefix is None,
            r.port_mappings@.len() == 0,
            r.wf_ports(),
            r.names_unique(),
    {
        Network {
            id: fresh_id(),
            name,
            status: NetworkStatus::Stopped,
            nodes: Vec::new(),
            lnd_version: None,
            btc_version: None,
            alias_prefix: None,
            port_mappings: Vec::new(),
        }
    }

    /// Add a node to this network. Keeping names unique is the caller's
    /// responsibility, as is keeping the full node unique.
    pub fn add_node(&mut self, node: Node)
        ensures
            final(self).nodes@ == old(self).nodes@.push(node),
            final(self).id == old(self).id,
            final(self).name == old(self).name,
            final(self).status == old(self).status,
            final(self).lnd_version == old(self).lnd_version,
            final(self).btc_version == old(self).btc_version,
            final(self).alias_prefix == old(self).alias_prefix,
            final(self).port_mappings == old(self).port_mappings,
    {
        self.nodes.push(node);
    }

    /// Find the base port for the next allocated block: one block past the
    /// highest port allocated so far, rounded to the block grid.
    fn find_next_available_base_port(&self) -> (r: u32)
        requires
            self.wf_ports(),
        ensures
            r == PORT_RANGE_START + PORT_INCREMENT * self.port_mappings@.len(),
    {
        let mut maxp: u32 = (PORT_RANGE_START - PORT_INCREMENT) as u32;
        let n = self.port_mappings.len();
        let mut i: usize = 0;
        while i < n
            invariant
                n == self.port_mappings@.len(),
                self.wf_ports(),
                i <= n,
                i == 0 ==> maxp == PORT_RANGE_START - PORT_INCREMENT,
                i > 0 ==> maxp == config_base(self.port_mappings@[i - 1].1) + config_top_offset(
                    self.port_mappings@[i - 1].1,
                ),
            decreases n - i,
        {
            let pc = &self.port_mappings[i].1;
            let top: u16 = match pc.ports {
                NodePorts::BitcoinCore { zmq_tx, .. } => zmq_tx,
                NodePorts::Lnd { p2p, .. } => p2p,
            };
            assert(config_base(self.port_mappings@[i as int].1) == PORT_RANGE_START
                + PORT_INCREMENT * i);
            if (top as u32) > maxp {
                maxp = top as u32;
            }
            i += 1;
        }
        let r = ((maxp / (PORT_INCREMENT as u32)) + 1) * (PORT_INCREMENT as u32);
        proof {
            if n > 0 {
                let base = config_base(self.port_mappings@[n - 1].1) as int;
                let off = config_top_offset(self.port_mappings@[n - 1].1);
                assert(base == PORT_RANGE_START + PORT_INCREMENT * (n - 1));
                assert(base % 10 == 0) by {
                    assert(base == 20000 + 10 * (n - 1));
                };
                assert((base + off) / 10 == base / 10);
                assert(r == base + 10);
            }
        }
        r
    }

    /// Allocate the next port block for a node that has none yet.
    ///
    /// The fresh block lies strictly above every previously allocated port,
    /// so blocks of distinct nodes are disjoint; its base is exactly
    /// `PORT_RANGE_START` plus one block per allocation already made.
    pub fn allocate_ports(&mut self, node_id: u128, kind: NodeKind) -> (r: EngineResult<
        PortConfig,
    >)
        requires
            old(self).wf_ports(),
            forall|i: int|
                0 <= i < old(self).port_mappings@.len() ==> (
                #[trigger] old(self).port_mappings@[i]).0 != node_id,
        ensures
            final(self).id == old(self).id,
            final(self).name == old(self).name,
            final(self).status == old(self).status,
            final(self).nodes == old(self).nodes,
            final(self).lnd_version == old(self).lnd_version,
            final(self).btc_version == old(self).btc_version,
            final(self).alias_prefix == old(self).alias_prefix,
            final(self).wf_ports(),
            match r {
                Ok(pc) => {
                    &&& final(self).port_mappings@ == old(self).port_mappings@.push((node_id, pc))
                    &&& config_contiguous(pc)
                    &&& config_base(pc) == PORT_RANGE_START + PORT_INCREMENT * old(
                        self,
                    ).port_mappings@.len()
                    &&& (pc.ports is BitcoinCore <==> kind is BitcoinCore)
                    &&& PORT_RANGE_START + PORT_INCREMENT * old(self).port_mappings@.len() + 3
                        <= u16::MAX
                },
                Err(e) => {
                    &&& final(self).port_mappings == old(self).port_mappings
                    &&& e is Config
                    &&& PORT_RANGE_START + PORT_INCREMENT * old(self).port_mappings@.len() + 3
                        > u16::MAX
                },
            },
    {
        let base32 = self.find_next_available_base_port();
        if base32 + 3 > (u16::MAX as u32) {
            return Err(Error::Config(String::from_str("port range exhausted")));
        }
        let base = base32 as u16;
        let ports = match kind {
            NodeKind::BitcoinCore => NodePorts::BitcoinCore {
                rpc: base,
                p2p: base + 1,
                zmq_block: base + 2,
                zmq_tx: base + 3,
            },
            NodeKind::Lnd => NodePorts::Lnd { rest: base, grpc: base + 1, p2p: base + 2 },
        };
        let config = PortConfig { ports };
        self.port_mappings.push((node_id, config));
        proof {
            let pm = self.port_mappings@;
            assert forall|i: int|
                0 <= i < pm.len() implies {
                let pc = (#[trigger] pm[i]).1;
                config_contiguous(pc) && config_base(pc) == PORT_RANGE_START + PORT_INCREMENT * i
            } by {
                if i < pm.len() - 1 {
                    assert(pm[i] == old(self).port_mappings@[i]);
                }
            }
        }
        Ok(config)
    }
}

/// Port disjointness: in a network obeying the allocation invariant, the
/// port sets of any two distinct allocated blocks share no port.
pub proof fn lemma_port_disjointness(net: Network)
    requires
        net.wf_ports(),
    ensures
        forall|i: int, j: int, p: u16|
            0 <= i < net.port_mappings@.len() && 0 <= j < net.port_mappings@.len() && i != j
                && #[trigger] spec_all_ports(net.port_mappings@[i].1).contains(p) ==> !(
            #[trigger] spec_all_ports(net.port_mappings@[j].1).contains(p)),
{
    assert forall|i: int, j: int, p: u16|
        0 <= i < net.port_mappings@.len() && 0 <= j < net.port_mappings@.len() && i != j
            && #[trigger] spec_all_ports(net.port_mappings@[i].1).contains(p) implies !(
    #[trigger] spec_all_ports(net.port_mappings@[j].1).contains(p)) by {
        let pci = net.port_mappings@[i].1;
        let pcj = net.port_mappings@[j].1;
        assert(config_base(pci) == PORT_RANGE_START + PORT_INCREMENT * i);
        assert(config_base(pcj) == PORT_RANGE_START + PORT_INCREMENT * j);
        if spec_all_ports(pcj).contains(p) {
            let ki = choose|k: int|
                0 <= k < spec_all_ports(pci).len() && spec_all_ports(pci)[k] == p;
            let kj = choose|k: int|
                0 <= k < spec_all_ports(pcj).len() && spec_all_ports(pcj)[k] == p;
            assert(spec_all_ports(pci)[ki] == p);
            assert(spec_all_ports(pcj)[kj] == p);
        }
    }
}

} // verus!

verus! {

/// Allocation monotonicity: in a network obeying the allocation invariant,
/// every port of the `n`-th allocated block is at least the range base plus
/// `n - 1` block sizes — blocks are handed out one block higher each time.
pub proof fn lemma_allocation_monotonicity(net: Network, n: int)
    requires
        net.wf_ports(),
        1 <= n <= net.port_mappings@.len(),
    ensures
        forall|p: u16|
            #[trigger] spec_all_ports(net.port_mappings@[n - 1].1).contains(p) ==> p
                >= PORT_RANGE_START + (n - 1) * PORT_INCREMENT,
{
    let pc = net.port_mappings@[n - 1].1;
    assert(config_base(pc) == PORT_RANGE_START + PORT_INCREMENT * (n - 1));
    assert forall|p: u16| #[trigger] spec_all_ports(pc).contains(p) implies p >= PORT_RANGE_START
        + (n - 1) * PORT_INCREMENT by {
        let k = choose|k: int| 0 <= k < spec_all_ports(pc).len() && spec_all_ports(pc)[k] == p;
        assert(spec_all_ports(pc)[k] == p);
    }
}

} // verus!
