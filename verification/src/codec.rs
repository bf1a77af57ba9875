//! The persisted form of a network record, and its round trip.
//!
//! A record is rendered as text: numbers as fixed-width lower-case
//! hexadecimal, strings length-prefixed, sums by a tag character. Decoding
//! inverts encoding exactly: a saved record loads back to an identical
//! value, which `lemma_network_round_trip` states and proves.

use vstd::prelude::*;

use crate::ids::{hex_fixed, push_char, spec_hex_digits};
use crate::network::{Network, NetworkStatus, Node, NodeKind, NodePorts, PortConfig};

verus! {

/// Sixteen to the `k`-th power: the number of `k`-digit hexadecimal values.
pub open spec fn pow16(k: nat) -> int
    decreases k,
{
    if k == 0 {
        1
    } else {
        16 * pow16((k - 1) as nat)
    }
}

/// The numeric value of a hexadecimal digit character, or sixteen for any
/// other character.
pub open spec fn hex_val(c: char) -> int {
    if c == '0' {
        0
    } else if c == '1' {
        1
    } else if c == '2' {
        2
    } else if c == '3' {
        3
    } else if c == '4' {
        4
    } else if c == '5' {
        5
    } else if c == '6' {
        6
    } else if c == '7' {
        7
    } else if c == '8' {
        8
    } else if c == '9' {
        9
    } else if c == 'a' {
        10
    } else if c == 'b' {
        11
    } else if c == 'c' {
        12
    } else if c == 'd' {
        13
    } else if c == 'e' {
        14
    } else if c == 'f' {
        15
    } else {
        16
    }
}

/// Whether a character is a lower-case hexadecimal digit.
pub open spec fn is_hex(c: char) -> bool {
    hex_val(c) < 16
}

fn hex_val_of(c: char) -> (r: Option<u8>)
    ensures
        match r {
            Some(d) => is_hex(c) && d == hex_val(c),
            None => !is_hex(c),
        },
{
    match c {
        '0' => Some(0),
        '1' => Some(1),
        '2' => Some(2),
        '3' => Some(3),
        '4' => Some(4),
        '5' => Some(5),
        '6' => Some(6),
        '7' => Some(7),
        '8' => Some(8),
        '9' => Some(9),
        'a' => Some(10),
        'b' => Some(11),
        'c' => Some(12),
        'd' => Some(13),
        'e' => Some(14),
        'f' => Some(15),
        _ => None,
    }
}

/// The value of a sequence of hexadecimal digits, most significant first.
pub open spec fn spec_hex_value(s: Seq<char>) -> int
    decreases s.len(),
{
    if s.len() == 0 {
        0
    } else {
        spec_hex_value(s.drop_last()) * 16 + hex_val(s.last())
    }
}

/// Whether every character of the sequence is a hexadecimal digit.
pub open spec fn all_hex(s: Seq<char>) -> bool {
    forall|i: int| 0 <= i < s.len() ==> is_hex(#[trigger] s[i])
}

proof fn lemma_pow16_pos(k: nat)
    ensures
        pow16(k) >= 1,
    decreases k,
{
    if k > 0 {
        lemma_pow16_pos((k - 1) as nat);
    }
}

proof fn lemma_pow16_mono(a: nat, b: nat)
    requires
        a <= b,
    ensures
        pow16(a) <= pow16(b),
    decreases b,
{
    if a < b {
        lemma_pow16_mono(a, (b - 1) as nat);
        lemma_pow16_pos((b - 1) as nat);
    }
}

/// The powers of sixteen that bound the fixed-width numbers.
proof fn lemma_pow16_values()
    ensures
        pow16(4) == 0x10000,
        pow16(16) == 0x10000000000000000,
        pow16(32) == 0x100000000000000000000000000000000,
{
    assert(pow16(0) == 1);
    assert(pow16(1) == 16);
    assert(pow16(2) == 0x100);
    assert(pow16(3) == 0x1000);
    assert(pow16(4) == 0x10000);
    assert(pow16(5) == 0x100000);
    assert(pow16(6) == 0x1000000);
    assert(pow16(7) == 0x10000000);
    assert(pow16(8) == 0x100000000);
    assert(pow16(9) == 0x1000000000);
    assert(pow16(10) == 0x10000000000);
    assert(pow16(11) == 0x100000000000);
    assert(pow16(12) == 0x1000000000000);
    assert(pow16(13) == 0x10000000000000);
    assert(pow16(14) == 0x100000000000000);
    assert(pow16(15) == 0x1000000000000000);
    assert(pow16(16) == 0x10000000000000000);
    assert(pow16(17) == 0x100000000000000000);
    assert(pow16(18) == 0x1000000000000000000);
    assert(pow16(19) == 0x10000000000000000000);
    assert(pow16(20) == 0x100000000000000000000);
    assert(pow16(21) == 0x1000000000000000000000);
    assert(pow16(22) == 0x10000000000000000000000);
    assert(pow16(23) == 0x100000000000000000000000);
    assert(pow16(24) == 0x1000000000000000000000000);
    assert(pow16(25) == 0x10000000000000000000000000);
    assert(pow16(26) == 0x100000000000000000000000000);
    assert(pow16(27) == 0x1000000000000000000000000000);
    assert(pow16(28) == 0x10000000000000000000000000000);
    assert(pow16(29) == 0x100000000000000000000000000000);
    assert(pow16(30) == 0x1000000000000000000000000000000);
    assert(pow16(31) == 0x10000000000000000000000000000000);
    assert(pow16(32) == 0x100000000000000000000000000000000);
}

/// The value of a digit sequence is bounded by the sequence's width.
proof fn lemma_hex_value_bound(s: Seq<char>)
    requires
        all_hex(s),
    ensures
        0 <= spec_hex_value(s) < pow16(s.len() as nat),
    decreases s.len(),
{
    if s.len() > 0 {
        assert(all_hex(s.drop_last())) by {
            assert(forall|i: int|
                0 <= i < s.drop_last().len() ==> #[trigger] s.drop_last()[i] == s[i]);
        }
        lemma_hex_value_bound(s.drop_last());
        let v = spec_hex_value(s.drop_last());
        let p = pow16((s.len() - 1) as nat);
        assert(is_hex(s.last()));
        assert(spec_hex_value(s) == v * 16 + hex_val(s.last()));
        assert(v * 16 + 15 < p * 16) by (nonlinear_arith)
            requires
                0 <= v < p,
        ;
        assert(pow16(s.len() as nat) == 16 * p);
    }
}

/// Rendering a value and reading the digits back yields the value.
proof fn lemma_hex_digits_value(v: int, k: nat)
    requires
        0 <= v < pow16(k),
    ensures
        spec_hex_digits(v, k).len() == k,
        all_hex(spec_hex_digits(v, k)),
        spec_hex_value(spec_hex_digits(v, k)) == v,
    decreases k,
{
    if k == 0 {
        assert(v == 0);
    } else {
        let q = v / 16;
        let m = v % 16;
        vstd::arithmetic::div_mod::lemma_fundamental_div_mod(v, 16);
        assert(0 <= m < 16);
        assert(q < pow16((k - 1) as nat)) by {
            lemma_pow16_pos((k - 1) as nat);
            if q >= pow16((k - 1) as nat) {
                assert(16 * q >= 16 * pow16((k - 1) as nat)) by (nonlinear_arith)
                    requires
                        q >= pow16((k - 1) as nat),
                ;
            }
        }
        assert(q >= 0) by {
            if q < 0 {
                assert(16 * q <= -16) by (nonlinear_arith)
                    requires
                        q <= -1,
                ;
            }
        }
        lemma_hex_digits_value(q, (k - 1) as nat);
        let d = spec_hex_digits(v, k);
        assert(d == spec_hex_digits(q, (k - 1) as nat).push(crate::ids::hex_char(m)));
        assert(d.drop_last() =~= spec_hex_digits(q, (k - 1) as nat));
        assert(hex_val(crate::ids::hex_char(m)) == m);
        assert(all_hex(d)) by {
            assert forall|i: int| 0 <= i < d.len() implies is_hex(#[trigger] d[i]) by {
                if i < d.len() - 1 {
                    assert(d[i] == spec_hex_digits(q, (k - 1) as nat)[i]);
                }
            }
        }
        assert(spec_hex_value(d) == spec_hex_value(d.drop_last()) * 16 + hex_val(d.last()));
    }
}

/// A fixed-width number at a position: its value and the position after it,
/// or nothing where the digits are missing or malformed.
pub open spec fn dec_fixed(s: Seq<char>, i: int, k: nat) -> Option<(int, int)> {
    if 0 <= i && i + k <= s.len() && all_hex(s.subrange(i, i + k)) {
        Some((spec_hex_value(s.subrange(i, i + k)), i + k))
    } else {
        None
    }
}

/// Reading a fixed-width number back where one was rendered yields it.
proof fn lemma_dec_fixed(s: Seq<char>, i: int, k: nat, v: int)
    requires
        0 <= v < pow16(k),
        0 <= i,
        i + k <= s.len(),
        s.subrange(i, i + k) == spec_hex_digits(v, k),
    ensures
        dec_fixed(s, i, k) == Some((v, i + k)),
{
    lemma_hex_digits_value(v, k);
}

/// Reads a fixed-width hexadecimal number of up to thirty-two digits.
fn read_fixed(s: &str, n: usize, i: usize, k: usize) -> (r: Option<(u128, usize)>)
    requires
        n == s@.len(),
        k <= 32,
    ensures
        match r {
            Some(p) => dec_fixed(s@, i as int, k as nat) == Some((p.0 as int, p.1 as int)),
            None => dec_fixed(s@, i as int, k as nat) is None,
        },
{
    if i > n || k > n - i {
        return None;
    }
    let mut acc: u128 = 0;
    let mut m: usize = 0;
    proof {
        lemma_pow16_values();
        assert(s@.subrange(i as int, i as int) =~= Seq::<char>::empty());
    }
    while m < k
        invariant
            n == s@.len(),
            i + k <= n,
            k <= 32,
            m <= k,
            all_hex(s@.subrange(i as int, i as int + m)),
            acc == spec_hex_value(s@.subrange(i as int, i as int + m)),
            acc < pow16(m as nat),
            pow16(32) == 0x100000000000000000000000000000000,
        decreases k - m,
    {
        let c = s.get_char(i + m);
        let d = match hex_val_of(c) {
            Some(d) => d,
            None => {
                proof {
                    assert(s@.subrange(i as int, i as int + k)[m as int] == s@[i + m]);
                    assert(!all_hex(s@.subrange(i as int, i as int + k)));
                }
                return None;
            },
        };
        proof {
            lemma_pow16_mono((m + 1) as nat, 32);
            lemma_pow16_pos(m as nat);
            assert(acc * 16 + 15 < pow16(m as nat) * 16) by (nonlinear_arith)
                requires
                    0 <= acc < pow16(m as nat),
            ;
            assert(pow16((m + 1) as nat) == 16 * pow16(m as nat));
        }
        acc = acc * 16 + (d as u128);
        proof {
            assert(s@.subrange(i as int, i as int + m + 1).drop_last() =~= s@.subrange(
                i as int,
                i as int + m,
            ));
            assert(s@.subrange(i as int, i as int + m + 1).last() == s@[i + m]);
            assert(all_hex(s@.subrange(i as int, i as int + m + 1))) by {
                assert forall|t: int|
                    0 <= t < m + 1 implies is_hex(
                    #[trigger] s@.subrange(i as int, i as int + m + 1)[t],
                ) by {
                    if t < m {
                        assert(s@.subrange(i as int, i as int + m + 1)[t] == s@.subrange(
                            i as int,
                            i as int + m,
                        )[t]);
                    } else {
                        assert(s@.subrange(i as int, i as int + m + 1)[t] == s@[i + m]);
                    }
                }
            }
        }
        m += 1;
    }
    Some((acc, i + k))
}

} // verus!

verus! {

/// The mathematical shape of a node record.
pub ghost struct NodeV {
    /// Identifier.
    pub id: u128,
    /// Name.
    pub name: Seq<char>,
    /// Kind.
    pub kind: NodeKind,
    /// Container identifier, while running.
    pub container_id: Option<Seq<char>>,
}

impl View for Node {
    type V = NodeV;

    open spec fn view(&self) -> NodeV {
        NodeV {
            id: self.id,
            name: self.name@,
            kind: self.kind,
            container_id: match self.container_id {
                Some(c) => Some(c@),
                None => None,
            },
        }
    }
}

/// The mathematical shape of a network record.
pub ghost struct NetworkV {
    /// Identifier.
    pub id: u128,
    /// Name.
    pub name: Seq<char>,
    /// Status.
    pub status: NetworkStatus,
    /// Nodes, in creation order.
    pub nodes: Seq<NodeV>,
    /// Pinned Lightning image.
    pub lnd_version: Option<Seq<char>>,
    /// Pinned full-node image.
    pub btc_version: Option<Seq<char>>,
    /// Alias prefix.
    pub alias_prefix: Option<Seq<char>>,
    /// Allocated port blocks, in allocation order.
    pub port_mappings: Seq<(u128, PortConfig)>,
}

impl View for Network {
    type V = NetworkV;

    open spec fn view(&self) -> NetworkV {
        NetworkV {
            id: self.id,
            name: self.name@,
            status: self.status,
            nodes: Seq::new(self.nodes@.len(), |k: int| self.nodes@[k]@),
            lnd_version: match self.lnd_version {
                Some(c) => Some(c@),
                None => None,
            },
            btc_version: match self.btc_version {
                Some(c) => Some(c@),
                None => None,
            },
            alias_prefix: match self.alias_prefix {
                Some(c) => Some(c@),
                None => None,
            },
            port_mappings: self.port_mappings@,
        }
    }
}

/// A thirty-two digit number field.
pub open spec fn enc_u128(v: u128) -> Seq<char> {
    spec_hex_digits(v as int, 32)
}

/// A sixteen digit length field.
pub open spec fn enc_len(n: int) -> Seq<char> {
    spec_hex_digits(n, 16)
}

/// A four digit port field.
pub open spec fn enc_u16(v: u16) -> Seq<char> {
    spec_hex_digits(v as int, 4)
}

/// A length-prefixed string field.
pub open spec fn enc_str(t: Seq<char>) -> Seq<char> {
    enc_len(t.len() as int) + t
}

/// An optional string field: a presence tag, then the string.
pub open spec fn enc_opt_str(o: Option<Seq<char>>) -> Seq<char> {
    match o {
        None => seq!['0'],
        Some(t) => seq!['1'] + enc_str(t),
    }
}

/// A status field, one tag character.
pub open spec fn enc_status(st: NetworkStatus) -> Seq<char> {
    match st {
        NetworkStatus::Stopped => seq!['0'],
        NetworkStatus::Starting => seq!['1'],
        NetworkStatus::Running => seq!['2'],
        NetworkStatus::Stopping => seq!['3'],
        NetworkStatus::Error => seq!['4'],
    }
}

/// A node-kind field, one tag character.
pub open spec fn enc_kind(k: NodeKind) -> Seq<char> {
    match k {
        NodeKind::BitcoinCore => seq!['0'],
        NodeKind::Lnd => seq!['1'],
    }
}

/// A port block: a kind tag, then each port.
pub open spec fn enc_ports(pc: PortConfig) -> Seq<char> {
    match pc.ports {
        NodePorts::BitcoinCore { rpc, p2p, zmq_block, zmq_tx } => seq!['0'] + enc_u16(rpc)
            + enc_u16(p2p) + enc_u16(zmq_block) + enc_u16(zmq_tx),
        NodePorts::Lnd { rest, grpc, p2p } => seq!['1'] + enc_u16(rest) + enc_u16(grpc) + enc_u16(
            p2p,
        ),
    }
}

/// A node record.
pub open spec fn enc_node(nd: NodeV) -> Seq<char> {
    enc_u128(nd.id) + enc_str(nd.name) + enc_kind(nd.kind) + enc_opt_str(nd.container_id)
}

/// The node records, one after the other.
pub open spec fn enc_node_list(ns: Seq<NodeV>) -> Seq<char>
    decreases ns.len(),
{
    if ns.len() == 0 {
        Seq::empty()
    } else {
        enc_node(ns[0]) + enc_node_list(ns.skip(1))
    }
}

/// One port-map entry: the node identifier, then its block.
pub open spec fn enc_entry(e: (u128, PortConfig)) -> Seq<char> {
    enc_u128(e.0) + enc_ports(e.1)
}

/// The port-map entries, one after the other.
pub open spec fn enc_entry_list(es: Seq<(u128, PortConfig)>) -> Seq<char>
    decreases es.len(),
{
    if es.len() == 0 {
        Seq::empty()
    } else {
        enc_entry(es[0]) + enc_entry_list(es.skip(1))
    }
}

/// The whole network record: each field in declaration order, the two lists
/// count-prefixed.
pub open spec fn enc_network(nv: NetworkV) -> Seq<char> {
    enc_u128(nv.id) + enc_str(nv.name) + enc_status(nv.status) + enc_len(nv.nodes.len() as int)
        + enc_node_list(nv.nodes) + enc_opt_str(nv.lnd_version) + enc_opt_str(nv.btc_version)
        + enc_opt_str(nv.alias_prefix) + enc_len(nv.port_mappings.len() as int) + enc_entry_list(
        nv.port_mappings,
    )
}

/// Appends a fixed-width number.
fn write_fixed(out: &mut String, v: u128, k: usize)
    ensures
        final(out)@ == old(out)@ + spec_hex_digits(v as int, k as nat),
{
    let h = hex_fixed(v, k);
    out.append(h.as_str());
}

/// Appends a length-prefixed string.
fn write_str(out: &mut String, t: &str)
    ensures
        final(out)@ == old(out)@ + enc_str(t@),
{
    proof {
        lemma_pow16_values();
    }
    write_fixed(out, t.unicode_len() as u128, 16);
    out.append(t);
    proof {
        assert(final(out)@ =~= old(out)@ + enc_str(t@));
    }
}

/// Appends an optional string with its presence tag.
fn write_opt_str(out: &mut String, o: &Option<String>)
    ensures
        final(out)@ == old(out)@ + enc_opt_str(
            match *o {
                Some(t) => Some(t@),
                None => None,
            },
        ),
{
    match o {
        None => {
            push_char(out, '0');
            proof {
                assert(final(out)@ =~= old(out)@ + enc_opt_str(None));
            }
        },
        Some(t) => {
            push_char(out, '1');
            write_str(out, t.as_str());
            proof {
                assert(final(out)@ =~= old(out)@ + enc_opt_str(Some(t@)));
            }
        },
    }
}

/// Appends one node record.
fn write_node(out: &mut String, nd: &Node)
    ensures
        final(out)@ == old(out)@ + enc_node(nd@),
{
    write_fixed(out, nd.id, 32);
    write_str(out, nd.name.as_str());
    match nd.kind {
        NodeKind::BitcoinCore => push_char(out, '0'),
        NodeKind::Lnd => push_char(out, '1'),
    }
    write_opt_str(out, &nd.container_id);
    proof {
        assert(final(out)@ =~= old(out)@ + enc_node(nd@));
    }
}

/// Appends one port block.
fn write_ports(out: &mut String, pc: &PortConfig)
    ensures
        final(out)@ == old(out)@ + enc_ports(*pc),
{
    match pc.ports {
        NodePorts::BitcoinCore { rpc, p2p, zmq_block, zmq_tx } => {
            push_char(out, '0');
            write_fixed(out, rpc as u128, 4);
            write_fixed(out, p2p as u128, 4);
            write_fixed(out, zmq_block as u128, 4);
            write_fixed(out, zmq_tx as u128, 4);
        },
        NodePorts::Lnd { rest, grpc, p2p } => {
            push_char(out, '1');
            write_fixed(out, rest as u128, 4);
            write_fixed(out, grpc as u128, 4);
            write_fixed(out, p2p as u128, 4);
        },
    }
    proof {
        assert(final(out)@ =~= old(out)@ + enc_ports(*pc));
    }
}

/// Renders a network record for the store.
pub fn encode_network(net: &Network) -> (r: String)
    ensures
        r@ == enc_network(net@),
{
    let mut out = String::new();
    write_fixed(&mut out, net.id, 32);
    write_str(&mut out, net.name.as_str());
    match net.status {
        NetworkStatus::Stopped => push_char(&mut out, '0'),
        NetworkStatus::Starting => push_char(&mut out, '1'),
        NetworkStatus::Running => push_char(&mut out, '2'),
        NetworkStatus::Stopping => push_char(&mut out, '3'),
        NetworkStatus::Error => push_char(&mut out, '4'),
    }
    let nn = net.nodes.len();
    write_fixed(&mut out, nn as u128, 16);
    let ghost nvs = net@.nodes;
    let mut i: usize = 0;
    proof {
        assert(out@ =~= enc_u128(net@.id) + enc_str(net@.name) + enc_status(net@.status) + enc_len(
            nvs.len() as int,
        ));
    }
    let ghost head = out@;
    while i < nn
        invariant
            nn == net.nodes@.len(),
            nvs.len() == nn,
            forall|k: int| 0 <= k < nn ==> nvs[k] == net.nodes@[k]@,
            i <= nn,
            out@ == head + enc_node_list_upto(nvs, i as int),
        decreases nn - i,
    {
        write_node(&mut out, &net.nodes[i]);
        proof {
            lemma_enc_node_list_upto_step(nvs, i as int);
        }
        i += 1;
    }
    proof {
        lemma_enc_node_list_upto_full(nvs);
    }
    write_opt_str(&mut out, &net.lnd_version);
    write_opt_str(&mut out, &net.btc_version);
    write_opt_str(&mut out, &net.alias_prefix);
    let pn = net.port_mappings.len();
    write_fixed(&mut out, pn as u128, 16);
    let ghost es = net@.port_mappings;
    let ghost head2 = out@;
    let mut j: usize = 0;
    while j < pn
        invariant
            pn == net.port_mappings@.len(),
            es == net.port_mappings@,
            j <= pn,
            out@ == head2 + enc_entry_list_upto(es, j as int),
        decreases pn - j,
    {
        let e = net.port_mappings[j];
        write_fixed(&mut out, e.0, 32);
        write_ports(&mut out, &e.1);
        proof {
            lemma_enc_entry_list_upto_step(es, j as int);
            assert(out@ =~= head2 + enc_entry_list_upto(es, j as int + 1));
        }
        j += 1;
    }
    proof {
        lemma_enc_entry_list_upto_full(es);
        assert(out@ =~= enc_network(net@));
    }
    out
}

/// The encoding of the first `i` records of a node list.
pub open spec fn enc_node_list_upto(ns: Seq<NodeV>, i: int) -> Seq<char>
    decreases i,
{
    if i <= 0 {
        Seq::empty()
    } else {
        enc_node_list_upto(ns, i - 1) + enc_node(ns[i - 1])
    }
}

/// The encoding of the first `i` entries of a port map.
pub open spec fn enc_entry_list_upto(es: Seq<(u128, PortConfig)>, i: int) -> Seq<char>
    decreases i,
{
    if i <= 0 {
        Seq::empty()
    } else {
        enc_entry_list_upto(es, i - 1) + enc_entry(es[i - 1])
    }
}

proof fn lemma_enc_node_list_upto_step(ns: Seq<NodeV>, i: int)
    requires
        0 <= i,
    ensures
        enc_node_list_upto(ns, i + 1) == enc_node_list_upto(ns, i) + enc_node(ns[i]),
{
}

proof fn lemma_enc_entry_list_upto_step(es: Seq<(u128, PortConfig)>, i: int)
    requires
        0 <= i,
    ensures
        enc_entry_list_upto(es, i + 1) == enc_entry_list_upto(es, i) + enc_entry(es[i]),
{
}

/// The prefix encoding of the whole list is its encoding.
proof fn lemma_enc_node_list_upto_full(ns: Seq<NodeV>)
    ensures
        enc_node_list_upto(ns, ns.len() as int) == enc_node_list(ns),
    decreases ns.len(),
{
    lemma_enc_node_list_split(ns, ns.len() as int);
}

/// Splitting a node list's encoding at any point.
proof fn lemma_enc_node_list_split(ns: Seq<NodeV>, i: int)
    requires
        0 <= i <= ns.len(),
    ensures
        enc_node_list_upto(ns, i) + enc_node_list(ns.skip(i)) == enc_node_list(ns),
    decreases i,
{
    if i == 0 {
        assert(ns.skip(0) =~= ns);
        assert(enc_node_list_upto(ns, 0) + enc_node_list(ns) =~= enc_node_list(ns));
    } else {
        lemma_enc_node_list_split(ns, i - 1);
        let rest = ns.skip(i - 1);
        assert(rest.len() > 0);
        assert(rest[0] == ns[i - 1]);
        assert(rest.skip(1) =~= ns.skip(i));
        assert(enc_node_list(rest) == enc_node(ns[i - 1]) + enc_node_list(ns.skip(i)));
        assert(enc_node_list_upto(ns, i) + enc_node_list(ns.skip(i)) =~= enc_node_list_upto(
            ns,
            i - 1,
        ) + enc_node_list(rest));
    }
}

proof fn lemma_enc_entry_list_upto_full(es: Seq<(u128, PortConfig)>)
    ensures
        enc_entry_list_upto(es, es.len() as int) == enc_entry_list(es),
    decreases es.len(),
{
    lemma_enc_entry_list_split(es, es.len() as int);
}

proof fn lemma_enc_entry_list_split(es: Seq<(u128, PortConfig)>, i: int)
    requires
        0 <= i <= es.len(),
    ensures
        enc_entry_list_upto(es, i) + enc_entry_list(es.skip(i)) == enc_entry_list(es),
    decreases i,
{
    if i == 0 {
        assert(es.skip(0) =~= es);
        assert(enc_entry_list_upto(es, 0) + enc_entry_list(es) =~= enc_entry_list(es));
    } else {
        lemma_enc_entry_list_split(es, i - 1);
        let rest = es.skip(i - 1);
        assert(rest.len() > 0);
        assert(rest[0] == es[i - 1]);
        assert(rest.skip(1) =~= es.skip(i));
        assert(enc_entry_list(rest) == enc_entry(es[i - 1]) + enc_entry_list(es.skip(i)));
        assert(enc_entry_list_upto(es, i) + enc_entry_list(es.skip(i)) =~= enc_entry_list_upto(
            es,
            i - 1,
        ) + enc_entry_list(rest));
    }
}

} // verus!

verus! {

/// A record field's string fits its sixteen-digit length prefix.
pub open spec fn str_ok(t: Seq<char>) -> bool {
    t.len() < 0x10000000000000000
}

/// A node record fits the format.
pub open spec fn node_ok(nd: NodeV) -> bool {
    str_ok(nd.name) && match nd.container_id {
        Some(c) => str_ok(c),
        None => true,
    }
}

/// A network record fits the format: every string fits its length prefix
/// and both lists fit their count prefixes.
pub open spec fn network_ok(nv: NetworkV) -> bool {
    &&& str_ok(nv.name)
    &&& nv.nodes.len() < 0x10000000000000000
    &&& forall|k: int| 0 <= k < nv.nodes.len() ==> node_ok(#[trigger] nv.nodes[k])
    &&& match nv.lnd_version {
        Some(c) => str_ok(c),
        None => true,
    }
    &&& match nv.btc_version {
        Some(c) => str_ok(c),
        None => true,
    }
    &&& match nv.alias_prefix {
        Some(c) => str_ok(c),
        None => true,
    }
    &&& nv.port_mappings.len() < 0x10000000000000000
}

/// A thirty-two digit number at a position.
pub open spec fn dec_u128_at(s: Seq<char>, i: int) -> Option<(u128, int)> {
    match dec_fixed(s, i, 32) {
        Some(p) => Some((p.0 as u128, p.1)),
        None => None,
    }
}

/// A sixteen digit length at a position.
pub open spec fn dec_len_at(s: Seq<char>, i: int) -> Option<(int, int)> {
    dec_fixed(s, i, 16)
}

/// A four digit port at a position.
pub open spec fn dec_u16_at(s: Seq<char>, i: int) -> Option<(u16, int)> {
    match dec_fixed(s, i, 4) {
        Some(p) => Some((p.0 as u16, p.1)),
        None => None,
    }
}

/// A length-prefixed string at a position.
pub open spec fn dec_str_at(s: Seq<char>, i: int) -> Option<(Seq<char>, int)> {
    match dec_len_at(s, i) {
        Some(p) => if p.0 >= 0 && p.1 + p.0 <= s.len() {
            Some((s.subrange(p.1, p.1 + p.0), p.1 + p.0))
        } else {
            None
        },
        None => None,
    }
}

/// An optional string at a position.
pub open spec fn dec_opt_str_at(s: Seq<char>, i: int) -> Option<(Option<Seq<char>>, int)> {
    if 0 <= i < s.len() {
        if s[i] == '0' {
            Some((None, i + 1))
        } else if s[i] == '1' {
            match dec_str_at(s, i + 1) {
                Some(p) => Some((Some(p.0), p.1)),
                None => None,
            }
        } else {
            None
        }
    } else {
        None
    }
}

/// A status tag at a position.
pub open spec fn dec_status_at(s: Seq<char>, i: int) -> Option<(NetworkStatus, int)> {
    if 0 <= i < s.len() {
        if s[i] == '0' {
            Some((NetworkStatus::Stopped, i + 1))
        } else if s[i] == '1' {
            Some((NetworkStatus::Starting, i + 1))
        } else if s[i] == '2' {
            Some((NetworkStatus::Running, i + 1))
        } else if s[i] == '3' {
            Some((NetworkStatus::Stopping, i + 1))
        } else if s[i] == '4' {
            Some((NetworkStatus::Error, i + 1))
        } else {
            None
        }
    } else {
        None
    }
}

/// A node-kind tag at a position.
pub open spec fn dec_kind_at(s: Seq<char>, i: int) -> Option<(NodeKind, int)> {
    if 0 <= i < s.len() {
        if s[i] == '0' {
            Some((NodeKind::BitcoinCore, i + 1))
        } else if s[i] == '1' {
            Some((NodeKind::Lnd, i + 1))
        } else {
            None
        }
    } else {
        None
    }
}

/// A port block at a position.
pub open spec fn dec_ports_at(s: Seq<char>, i: int) -> Option<(PortConfig, int)> {
    if 0 <= i < s.len() {
        if s[i] == '0' {
            match dec_u16_at(s, i + 1) {
                Some(a) => match dec_u16_at(s, a.1) {
                    Some(b) => match dec_u16_at(s, b.1) {
                        Some(c) => match dec_u16_at(s, c.1) {
                            Some(d) => Some(
                                (
                                    PortConfig {
                                        ports: NodePorts::BitcoinCore {
                                            rpc: a.0,
                                            p2p: b.0,
                                            zmq_block: c.0,
                                            zmq_tx: d.0,
                                        },
                                    },
                                    d.1,
                                ),
                            ),
                            None => None,
                        },
                        None => None,
                    },
                    None => None,
                },
                None => None,
            }
        } else if s[i] == '1' {
            match dec_u16_at(s, i + 1) {
                Some(a) => match dec_u16_at(s, a.1) {
                    Some(b) => match dec_u16_at(s, b.1) {
                        Some(c) => Some(
                            (
                                PortConfig {
                                    ports: NodePorts::Lnd { rest: a.0, grpc: b.0, p2p: c.0 },
                                },
                                c.1,
                            ),
                        ),
                        None => None,
                    },
                    None => None,
                },
                None => None,
            }
        } else {
            None
        }
    } else {
        None
    }
}

/// A node record at a position.
pub open spec fn dec_node_at(s: Seq<char>, i: int) -> Option<(NodeV, int)> {
    match dec_u128_at(s, i) {
        Some(idp) => match dec_str_at(s, idp.1) {
            Some(np) => match dec_kind_at(s, np.1) {
                Some(kp) => match dec_opt_str_at(s, kp.1) {
                    Some(cp) => Some(
                        (NodeV { id: idp.0, name: np.0, kind: kp.0, container_id: cp.0 }, cp.1),
                    ),
                    None => None,
                },
                None => None,
            },
            None => None,
        },
        None => None,
    }
}

/// `cnt` node records, one after the other.
pub open spec fn dec_node_list(s: Seq<char>, i: int, cnt: nat) -> Option<(Seq<NodeV>, int)>
    decreases cnt,
{
    if cnt == 0 {
        Some((Seq::empty(), i))
    } else {
        match dec_node_at(s, i) {
            Some(p) => match dec_node_list(s, p.1, (cnt - 1) as nat) {
                Some(q) => Some((seq![p.0] + q.0, q.1)),
                None => None,
            },
            None => None,
        }
    }
}

/// One port-map entry at a position.
pub open spec fn dec_entry_at(s: Seq<char>, i: int) -> Option<((u128, PortConfig), int)> {
    match dec_u128_at(s, i) {
        Some(idp) => match dec_ports_at(s, idp.1) {
            Some(pp) => Some(((idp.0, pp.0), pp.1)),
            None => None,
        },
        None => None,
    }
}

/// `cnt` port-map entries, one after the other.
pub open spec fn dec_entry_list(s: Seq<char>, i: int, cnt: nat) -> Option<
    (Seq<(u128, PortConfig)>, int),
>
    decreases cnt,
{
    if cnt == 0 {
        Some((Seq::empty(), i))
    } else {
        match dec_entry_at(s, i) {
            Some(p) => match dec_entry_list(s, p.1, (cnt - 1) as nat) {
                Some(q) => Some((seq![p.0] + q.0, q.1)),
                None => None,
            },
            None => None,
        }
    }
}

/// A network record at a position.
pub open spec fn dec_network_at(s: Seq<char>, i: int) -> Option<(NetworkV, int)> {
    match dec_u128_at(s, i) {
        Some(idp) => match dec_str_at(s, idp.1) {
            Some(np) => match dec_status_at(s, np.1) {
                Some(sp) => match dec_len_at(s, sp.1) {
                    Some(ncp) => if ncp.0 >= 0 {
                        match dec_node_list(s, ncp.1, ncp.0 as nat) {
                            Some(nsp) => match dec_opt_str_at(s, nsp.1) {
                                Some(lvp) => match dec_opt_str_at(s, lvp.1) {
                                    Some(bvp) => match dec_opt_str_at(s, bvp.1) {
                                        Some(app) => match dec_len_at(s, app.1) {
                                            Some(pcp) => if pcp.0 >= 0 {
                                                match dec_entry_list(s, pcp.1, pcp.0 as nat) {
                                                    Some(esp) => Some(
                                                        (
                                                            NetworkV {
                                                                id: idp.0,
                                                                name: np.0,
                                                                status: sp.0,
                                                                nodes: nsp.0,
                                                                lnd_version: lvp.0,
                                                                btc_version: bvp.0,
                                                                alias_prefix: app.0,
                                                                port_mappings: esp.0,
                                                            },
                                                            esp.1,
                                                        ),
                                                    ),
                                                    None => None,
                                                }
                                            } else {
                                                None
                                            },
                                            None => None,
                                        },
                                        None => None,
                                    },
                                    None => None,
                                },
                                None => None,
                            },
                            None => None,
                        }
                    } else {
                        None
                    },
                    None => None,
                },
                None => None,
            },
            None => None,
        },
        None => None,
    }
}

/// The record a stored text decodes to: the fields in order, with nothing
/// left over.
pub open spec fn dec_network(s: Seq<char>) -> Option<NetworkV> {
    match dec_network_at(s, 0) {
        Some(p) => if p.1 == s.len() {
            Some(p.0)
        } else {
            None
        },
        None => None,
    }
}

} // verus!

verus! {

fn read_u128(s: &str, n: usize, i: usize) -> (r: Option<(u128, usize)>)
    requires
        n == s@.len(),
    ensures
        match r {
            Some(p) => dec_u128_at(s@, i as int) == Some((p.0, p.1 as int)),
            None => dec_u128_at(s@, i as int) is None,
        },
{
    match read_fixed(s, n, i, 32) {
        Some(p) => Some((p.0, p.1)),
        None => None,
    }
}

fn read_len(s: &str, n: usize, i: usize) -> (r: Option<(u64, usize)>)
    requires
        n == s@.len(),
    ensures
        match r {
            Some(p) => dec_len_at(s@, i as int) == Some((p.0 as int, p.1 as int)),
            None => dec_len_at(s@, i as int) is None,
        },
{
    match read_fixed(s, n, i, 16) {
        Some(p) => {
            proof {
                lemma_pow16_values();
                lemma_hex_value_bound(s@.subrange(i as int, i as int + 16));
            }
            Some((p.0 as u64, p.1))
        },
        None => None,
    }
}

fn read_u16(s: &str, n: usize, i: usize) -> (r: Option<(u16, usize)>)
    requires
        n == s@.len(),
    ensures
        match r {
            Some(p) => dec_u16_at(s@, i as int) == Some((p.0, p.1 as int)),
            None => dec_u16_at(s@, i as int) is None,
        },
{
    match read_fixed(s, n, i, 4) {
        Some(p) => {
            proof {
                lemma_pow16_values();
                lemma_hex_value_bound(s@.subrange(i as int, i as int + 4));
            }
            Some((p.0 as u16, p.1))
        },
        None => None,
    }
}

fn read_str(s: &str, n: usize, i: usize) -> (r: Option<(String, usize)>)
    requires
        n == s@.len(),
    ensures
        match r {
            Some(p) => dec_str_at(s@, i as int) == Some((p.0@, p.1 as int)),
            None => dec_str_at(s@, i as int) is None,
        },
{
    let (lv, p) = match read_len(s, n, i) {
        Some(x) => x,
        None => {
            return None;
        },
    };
    if lv > ((n - p) as u64) {
        return None;
    }
    let l = lv as usize;
    let sub = s.substring_char(p, p + l);
    let owned = String::from_str(sub);
    proof {
        assert(owned@ =~= s@.subrange(p as int, p as int + lv as int));
    }
    Some((owned, p + l))
}

fn read_opt_str(s: &str, n: usize, i: usize) -> (r: Option<(Option<String>, usize)>)
    requires
        n == s@.len(),
    ensures
        match r {
            Some(p) => dec_opt_str_at(s@, i as int) == Some(
                (
                    match p.0 {
                        Some(t) => Some(t@),
                        None => None,
                    },
                    p.1 as int,
                ),
            ),
            None => dec_opt_str_at(s@, i as int) is None,
        },
{
    if i >= n {
        return None;
    }
    let c = s.get_char(i);
    if c == '0' {
        Some((None, i + 1))
    } else if c == '1' {
        match read_str(s, n, i + 1) {
            Some(p) => Some((Some(p.0), p.1)),
            None => None,
        }
    } else {
        None
    }
}

fn read_status(s: &str, n: usize, i: usize) -> (r: Option<(NetworkStatus, usize)>)
    requires
        n == s@.len(),
    ensures
        match r {
            Some(p) => dec_status_at(s@, i as int) == Some((p.0, p.1 as int)),
            None => dec_status_at(s@, i as int) is None,
        },
{
    if i >= n {
        return None;
    }
    let c = s.get_char(i);
    if c == '0' {
        Some((NetworkStatus::Stopped, i + 1))
    } else if c == '1' {
        Some((NetworkStatus::Starting, i + 1))
    } else if c == '2' {
        Some((NetworkStatus::Running, i + 1))
    } else if c == '3' {
        Some((NetworkStatus::Stopping, i + 1))
    } else if c == '4' {
        Some((NetworkStatus::Error, i + 1))
    } else {
        None
    }
}

fn read_kind(s: &str, n: usize, i: usize) -> (r: Option<(NodeKind, usize)>)
    requires
        n == s@.len(),
    ensures
        match r {
            Some(p) => dec_kind_at(s@, i as int) == Some((p.0, p.1 as int)),
            None => dec_kind_at(s@, i as int) is None,
        },
{
    if i >= n {
        return None;
    }
    let c = s.get_char(i);
    if c == '0' {
        Some((NodeKind::BitcoinCore, i + 1))
    } else if c == '1' {
        Some((NodeKind::Lnd, i + 1))
    } else {
        None
    }
}

fn read_ports(s: &str, n: usize, i: usize) -> (r: Option<(PortConfig, usize)>)
    requires
        n == s@.len(),
    ensures
        match r {
            Some(p) => dec_ports_at(s@, i as int) == Some((p.0, p.1 as int)),
            None => dec_ports_at(s@, i as int) is None,
        },
{
    if i >= n {
        return None;
    }
    let c = s.get_char(i);
    if c == '0' {
        let a = match read_u16(s, n, i + 1) {
            Some(x) => x,
            None => {
                return None;
            },
        };
        let b = match read_u16(s, n, a.1) {
            Some(x) => x,
            None => {
                return None;
            },
        };
        let cc = match read_u16(s, n, b.1) {
            Some(x) => x,
            None => {
                return None;
            },
        };
        let d = match read_u16(s, n, cc.1) {
            Some(x) => x,
            None => {
                return None;
            },
        };
        Some(
            (
                PortConfig {
                    ports: NodePorts::BitcoinCore {
                        rpc: a.0,
                        p2p: b.0,
                        zmq_block: cc.0,
                        zmq_tx: d.0,
                    },
                },
                d.1,
            ),
        )
    } else if c == '1' {
        let a = match read_u16(s, n, i + 1) {
            Some(x) => x,
            None => {
                return None;
            },
        };
        let b = match read_u16(s, n, a.1) {
            Some(x) => x,
            None => {
                return None;
            },
        };
        let cc = match read_u16(s, n, b.1) {
            Some(x) => x,
            None => {
                return None;
            },
        };
        Some((PortConfig { ports: NodePorts::Lnd { rest: a.0, grpc: b.0, p2p: cc.0 } }, cc.1))
    } else {
        None
    }
}

fn read_node(s: &str, n: usize, i: usize) -> (r: Option<(Node, usize)>)
    requires
        n == s@.len(),
    ensures
        match r {
            Some(p) => dec_node_at(s@, i as int) == Some((p.0@, p.1 as int)),
            None => dec_node_at(s@, i as int) is None,
        },
{
    let idp = match read_u128(s, n, i) {
        Some(x) => x,
        None => {
            return None;
        },
    };
    let np = match read_str(s, n, idp.1) {
        Some(x) => x,
        None => {
            return None;
        },
    };
    let kp = match read_kind(s, n, np.1) {
        Some(x) => x,
        None => {
            return None;
        },
    };
    let cp = match read_opt_str(s, n, kp.1) {
        Some(x) => x,
        None => {
            return None;
        },
    };
    Some((Node { id: idp.0, name: np.0, kind: kp.0, container_id: cp.0 }, cp.1))
}

/// The node views of a vector of nodes.
pub open spec fn node_views(v: Seq<Node>) -> Seq<NodeV> {
    Seq::new(v.len(), |k: int| v[k]@)
}

fn read_node_list(s: &str, n: usize, i: usize, cnt: u64) -> (r: Option<(Vec<Node>, usize)>)
    requires
        n == s@.len(),
    ensures
        match r {
            Some(p) => dec_node_list(s@, i as int, cnt as nat) == Some(
                (node_views(p.0@), p.1 as int),
            ),
            None => dec_node_list(s@, i as int, cnt as nat) is None,
        },
{
    let mut out: Vec<Node> = Vec::new();
    let mut cur: usize = i;
    let mut left: u64 = cnt;
    proof {
        assert(node_views(out@) =~= Seq::<NodeV>::empty());
    }
    while left > 0
        invariant
            n == s@.len(),
            left <= cnt,
            out@.len() == cnt - left,
            dec_node_list(s@, i as int, cnt as nat) == (match dec_node_list(
                s@,
                cur as int,
                left as nat,
            ) {
                Some(q) => Some((node_views(out@) + q.0, q.1)),
                None => None::<(Seq<NodeV>, int)>,
            }),
        decreases left,
    {
        let nd = match read_node(s, n, cur) {
            Some(x) => x,
            None => {
                return None;
            },
        };
        proof {
            assert(dec_node_list(s@, cur as int, left as nat) == (match dec_node_list(
                s@,
                nd.1 as int,
                (left - 1) as nat,
            ) {
                Some(q) => Some((seq![nd.0@] + q.0, q.1)),
                None => None::<(Seq<NodeV>, int)>,
            }));
        }
        let ghost old_out = out@;
        out.push(nd.0);
        proof {
            assert(node_views(out@) =~= node_views(old_out) + seq![nd.0@]);
            match dec_node_list(s@, nd.1 as int, (left - 1) as nat) {
                Some(q) => {
                    assert(node_views(old_out) + (seq![nd.0@] + q.0) =~= node_views(out@) + q.0);
                },
                None => {},
            }
        }
        cur = nd.1;
        left -= 1;
    }
    proof {
        assert(node_views(out@) + Seq::<NodeV>::empty() =~= node_views(out@));
    }
    Some((out, cur))
}

fn read_entry_list(s: &str, n: usize, i: usize, cnt: u64) -> (r: Option<
    (Vec<(u128, PortConfig)>, usize),
>)
    requires
        n == s@.len(),
    ensures
        match r {
            Some(p) => dec_entry_list(s@, i as int, cnt as nat) == Some((p.0@, p.1 as int)),
            None => dec_entry_list(s@, i as int, cnt as nat) is None,
        },
{
    let mut out: Vec<(u128, PortConfig)> = Vec::new();
    let mut cur: usize = i;
    let mut left: u64 = cnt;
    while left > 0
        invariant
            n == s@.len(),
            left <= cnt,
            out@.len() == cnt - left,
            dec_entry_list(s@, i as int, cnt as nat) == (match dec_entry_list(
                s@,
                cur as int,
                left as nat,
            ) {
                Some(q) => Some((out@ + q.0, q.1)),
                None => None::<(Seq<(u128, PortConfig)>, int)>,
            }),
        decreases left,
    {
        let idp = match read_u128(s, n, cur) {
            Some(x) => x,
            None => {
                return None;
            },
        };
        let pp = match read_ports(s, n, idp.1) {
            Some(x) => x,
            None => {
                return None;
            },
        };
        proof {
            assert(dec_entry_list(s@, cur as int, left as nat) == (match dec_entry_list(
                s@,
                pp.1 as int,
                (left - 1) as nat,
            ) {
                Some(q) => Some((seq![(idp.0, pp.0)] + q.0, q.1)),
                None => None::<(Seq<(u128, PortConfig)>, int)>,
            }));
        }
        let ghost old_out = out@;
        out.push((idp.0, pp.0));
        proof {
            match dec_entry_list(s@, pp.1 as int, (left - 1) as nat) {
                Some(q) => {
                    assert(old_out + (seq![(idp.0, pp.0)] + q.0) =~= out@ + q.0);
                },
                None => {},
            }
        }
        cur = pp.1;
        left -= 1;
    }
    proof {
        assert(out@ + Seq::<(u128, PortConfig)>::empty() =~= out@);
    }
    Some((out, cur))
}

/// Reads a stored network record back. A text that is not exactly one
/// well-formed record yields nothing.
pub fn decode_network(s: &str) -> (r: Option<Network>)
    ensures
        match r {
            Some(net) => dec_network(s@) == Some(net@),
            None => dec_network(s@) is None,
        },
{
    let n = s.unicode_len();
    let idp = match read_u128(s, n, 0) {
        Some(x) => x,
        None => {
            return None;
        },
    };
    let np = match read_str(s, n, idp.1) {
        Some(x) => x,
        None => {
            return None;
        },
    };
    let sp = match read_status(s, n, np.1) {
        Some(x) => x,
        None => {
            return None;
        },
    };
    let ncp = match read_len(s, n, sp.1) {
        Some(x) => x,
        None => {
            return None;
        },
    };
    let nsp = match read_node_list(s, n, ncp.1, ncp.0) {
        Some(x) => x,
        None => {
            return None;
        },
    };
    let lvp = match read_opt_str(s, n, nsp.1) {
        Some(x) => x,
        None => {
            return None;
        },
    };
    let bvp = match read_opt_str(s, n, lvp.1) {
        Some(x) => x,
        None => {
            return None;
        },
    };
    let app = match read_opt_str(s, n, bvp.1) {
        Some(x) => x,
        None => {
            return None;
        },
    };
    let pcp = match read_len(s, n, app.1) {
        Some(x) => x,
        None => {
            return None;
        },
    };
    let esp = match read_entry_list(s, n, pcp.1, pcp.0) {
        Some(x) => x,
        None => {
            return None;
        },
    };
    if esp.1 != n {
        return None;
    }
    let net = Network {
        id: idp.0,
        name: np.0,
        status: sp.0,
        nodes: nsp.0,
        lnd_version: lvp.0,
        btc_version: bvp.0,
        alias_prefix: app.0,
        port_mappings: esp.0,
    };
    proof {
        assert(net@.nodes =~= node_views(net.nodes@));
        assert(dec_network(s@) == Some(net@));
    }
    Some(net)
}

} // verus!

verus! {

/// A subrange that spells a concatenation splits into subranges spelling
/// the parts.
proof fn lemma_subrange_split(s: Seq<char>, i: int, a: Seq<char>, b: Seq<char>)
    requires
        0 <= i,
        i + a.len() + b.len() <= s.len(),
        s.subrange(i, i + a.len() + b.len()) == a + b,
    ensures
        s.subrange(i, i + a.len()) == a,
        s.subrange(i + a.len(), i + a.len() + b.len()) == b,
{
    assert(s.subrange(i, i + a.len()) =~= a) by {
        assert forall|t: int| 0 <= t < a.len() implies s.subrange(i, i + a.len())[t] == a[t] by {
            assert(s.subrange(i, i + a.len() + b.len())[t] == (a + b)[t]);
        }
    }
    assert(s.subrange(i + a.len(), i + a.len() + b.len()) =~= b) by {
        assert forall|t: int|
            0 <= t < b.len() implies s.subrange(i + a.len(), i + a.len() + b.len())[t] == b[t] by {
            assert(s.subrange(i, i + a.len() + b.len())[a.len() + t] == (a + b)[a.len() + t]);
            assert(s.subrange(i, i + a.len() + b.len())[a.len() + t] == s[i + a.len() + t]);
            assert((a + b)[a.len() + t] == b[t]);
            assert(s.subrange(i + a.len(), i + a.len() + b.len())[t] == s[i + a.len() + t]);
        }
    }
}

proof fn lemma_rt_u128(s: Seq<char>, i: int, v: u128)
    requires
        0 <= i,
        i + 32 <= s.len(),
        s.subrange(i, i + 32) == enc_u128(v),
    ensures
        dec_u128_at(s, i) == Some((v, i + 32)),
{
    lemma_pow16_values();
    lemma_dec_fixed(s, i, 32, v as int);
}

proof fn lemma_rt_len(s: Seq<char>, i: int, m: int)
    requires
        0 <= m < 0x10000000000000000,
        0 <= i,
        i + 16 <= s.len(),
        s.subrange(i, i + 16) == enc_len(m),
    ensures
        dec_len_at(s, i) == Some((m, i + 16)),
{
    lemma_pow16_values();
    lemma_dec_fixed(s, i, 16, m);
}

proof fn lemma_rt_u16(s: Seq<char>, i: int, v: u16)
    requires
        0 <= i,
        i + 4 <= s.len(),
        s.subrange(i, i + 4) == enc_u16(v),
    ensures
        dec_u16_at(s, i) == Some((v, i + 4)),
{
    lemma_pow16_values();
    lemma_dec_fixed(s, i, 4, v as int);
}

/// The width of a length field.
proof fn lemma_enc_len_len(m: int)
    requires
        0 <= m < 0x10000000000000000,
    ensures
        enc_len(m).len() == 16,
{
    lemma_pow16_values();
    lemma_hex_digits_value(m, 16);
}

/// The width of an identifier field.
proof fn lemma_enc_u128_len(v: u128)
    ensures
        enc_u128(v).len() == 32,
{
    lemma_pow16_values();
    lemma_hex_digits_value(v as int, 32);
}

/// The width of a port field.
proof fn lemma_enc_u16_len(v: u16)
    ensures
        enc_u16(v).len() == 4,
{
    lemma_pow16_values();
    lemma_hex_digits_value(v as int, 4);
}

proof fn lemma_rt_str(s: Seq<char>, i: int, t: Seq<char>)
    requires
        str_ok(t),
        0 <= i,
        i + 16 + t.len() <= s.len(),
        s.subrange(i, i + 16 + t.len()) == enc_str(t),
    ensures
        dec_str_at(s, i) == Some((t, i + 16 + t.len())),
        enc_str(t).len() == 16 + t.len(),
{
    lemma_enc_len_len(t.len() as int);
    lemma_subrange_split(s, i, enc_len(t.len() as int), t);
    lemma_rt_len(s, i, t.len() as int);
}

proof fn lemma_rt_opt_str(s: Seq<char>, i: int, o: Option<Seq<char>>)
    requires
        match o {
            Some(t) => str_ok(t),
            None => true,
        },
        0 <= i,
        i + enc_opt_str(o).len() <= s.len(),
        s.subrange(i, i + enc_opt_str(o).len()) == enc_opt_str(o),
    ensures
        dec_opt_str_at(s, i) == Some((o, i + enc_opt_str(o).len())),
{
    match o {
        None => {
            assert(enc_opt_str(o).len() == 1);
            assert(s.subrange(i, i + 1)[0] == s[i]);
            assert(s[i] == '0');
        },
        Some(t) => {
            lemma_enc_len_len(t.len() as int);
            assert(enc_opt_str(o).len() == 1 + 16 + t.len());
            assert(s.subrange(i, i + 1 + 16 + t.len())[0] == s[i]);
            assert(s[i] == '1');
            lemma_subrange_split(s, i, seq!['1'], enc_str(t));
            lemma_rt_str(s, i + 1, t);
        },
    }
}

proof fn lemma_rt_status(s: Seq<char>, i: int, st: NetworkStatus)
    requires
        0 <= i,
        i + 1 <= s.len(),
        s.subrange(i, i + 1) == enc_status(st),
    ensures
        dec_status_at(s, i) == Some((st, i + 1)),
{
    assert(s.subrange(i, i + 1)[0] == s[i]);
}

proof fn lemma_rt_kind(s: Seq<char>, i: int, k: NodeKind)
    requires
        0 <= i,
        i + 1 <= s.len(),
        s.subrange(i, i + 1) == enc_kind(k),
    ensures
        dec_kind_at(s, i) == Some((k, i + 1)),
{
    assert(s.subrange(i, i + 1)[0] == s[i]);
}

proof fn lemma_rt_ports(s: Seq<char>, i: int, pc: PortConfig)
    requires
        0 <= i,
        i + enc_ports(pc).len() <= s.len(),
        s.subrange(i, i + enc_ports(pc).len()) == enc_ports(pc),
    ensures
        dec_ports_at(s, i) == Some((pc, i + enc_ports(pc).len())),
{
    match pc.ports {
        NodePorts::BitcoinCore { rpc, p2p, zmq_block, zmq_tx } => {
            lemma_enc_u16_len(rpc);
            lemma_enc_u16_len(p2p);
            lemma_enc_u16_len(zmq_block);
            lemma_enc_u16_len(zmq_tx);
            assert(enc_ports(pc).len() == 17);
            assert(s.subrange(i, i + 17)[0] == s[i]);
            assert(s[i] == '0');
            let t1 = enc_u16(p2p) + enc_u16(zmq_block) + enc_u16(zmq_tx);
            assert(enc_ports(pc) =~= seq!['0'] + (enc_u16(rpc) + t1));
            lemma_subrange_split(s, i, seq!['0'], enc_u16(rpc) + t1);
            lemma_subrange_split(s, i + 1, enc_u16(rpc), t1);
            lemma_rt_u16(s, i + 1, rpc);
            let t2 = enc_u16(zmq_block) + enc_u16(zmq_tx);
            assert(t1 =~= enc_u16(p2p) + t2);
            lemma_subrange_split(s, i + 5, enc_u16(p2p), t2);
            lemma_rt_u16(s, i + 5, p2p);
            lemma_subrange_split(s, i + 9, enc_u16(zmq_block), enc_u16(zmq_tx));
            lemma_rt_u16(s, i + 9, zmq_block);
            lemma_rt_u16(s, i + 13, zmq_tx);
        },
        NodePorts::Lnd { rest, grpc, p2p } => {
            lemma_enc_u16_len(rest);
            lemma_enc_u16_len(grpc);
            lemma_enc_u16_len(p2p);
            assert(enc_ports(pc).len() == 13);
            assert(s.subrange(i, i + 13)[0] == s[i]);
            assert(s[i] == '1');
            let t1 = enc_u16(grpc) + enc_u16(p2p);
            assert(enc_ports(pc) =~= seq!['1'] + (enc_u16(rest) + t1));
            lemma_subrange_split(s, i, seq!['1'], enc_u16(rest) + t1);
            lemma_subrange_split(s, i + 1, enc_u16(rest), t1);
            lemma_rt_u16(s, i + 1, rest);
            lemma_subrange_split(s, i + 5, enc_u16(grpc), enc_u16(p2p));
            lemma_rt_u16(s, i + 5, grpc);
            lemma_rt_u16(s, i + 9, p2p);
        },
    }
}

proof fn lemma_rt_node(s: Seq<char>, i: int, nd: NodeV)
    requires
        node_ok(nd),
        0 <= i,
        i + enc_node(nd).len() <= s.len(),
        s.subrange(i, i + enc_node(nd).len()) == enc_node(nd),
    ensures
        dec_node_at(s, i) == Some((nd, i + enc_node(nd).len())),
{
    lemma_enc_u128_len(nd.id);
    lemma_enc_len_len(nd.name.len() as int);
    let p1 = enc_u128(nd.id);
    let p2 = enc_str(nd.name);
    let p3 = enc_kind(nd.kind);
    let p4 = enc_opt_str(nd.container_id);
    assert(p2.len() == 16 + nd.name.len());
    assert(p3.len() == 1);
    assert(enc_node(nd).len() == 32 + p2.len() + 1 + p4.len());
    let t2 = p2 + (p3 + p4);
    assert(enc_node(nd) =~= p1 + t2);
    lemma_subrange_split(s, i, p1, t2);
    lemma_rt_u128(s, i, nd.id);
    let j2 = i + 32;
    assert(t2 =~= p2 + (p3 + p4));
    lemma_subrange_split(s, j2, p2, p3 + p4);
    lemma_rt_str(s, j2, nd.name);
    let j3 = j2 + p2.len();
    lemma_subrange_split(s, j3, p3, p4);
    lemma_rt_kind(s, j3, nd.kind);
    let j4 = j3 + 1;
    lemma_rt_opt_str(s, j4, nd.container_id);
}

proof fn lemma_rt_node_list(s: Seq<char>, i: int, ns: Seq<NodeV>)
    requires
        forall|k: int| 0 <= k < ns.len() ==> node_ok(#[trigger] ns[k]),
        0 <= i,
        i + enc_node_list(ns).len() <= s.len(),
        s.subrange(i, i + enc_node_list(ns).len()) == enc_node_list(ns),
    ensures
        dec_node_list(s, i, ns.len() as nat) == Some((ns, i + enc_node_list(ns).len())),
    decreases ns.len(),
{
    if ns.len() == 0 {
        assert(ns =~= Seq::<NodeV>::empty());
        assert(dec_node_list(s, i, 0) == Some((Seq::<NodeV>::empty(), i)));
    } else {
        let h = ns[0];
        let rest = ns.skip(1);
        assert(enc_node_list(ns) == enc_node(h) + enc_node_list(rest));
        lemma_subrange_split(s, i, enc_node(h), enc_node_list(rest));
        lemma_rt_node(s, i, h);
        assert(forall|k: int| 0 <= k < rest.len() ==> node_ok(#[trigger] rest[k])) by {
            assert(forall|k: int| 0 <= k < rest.len() ==> rest[k] == ns[k + 1]);
        }
        lemma_rt_node_list(s, i + enc_node(h).len(), rest);
        assert(seq![h] + rest =~= ns);
    }
}

proof fn lemma_rt_entry(s: Seq<char>, i: int, e: (u128, PortConfig))
    requires
        0 <= i,
        i + enc_entry(e).len() <= s.len(),
        s.subrange(i, i + enc_entry(e).len()) == enc_entry(e),
    ensures
        dec_entry_at(s, i) == Some((e, i + enc_entry(e).len())),
{
    lemma_enc_u128_len(e.0);
    lemma_subrange_split(s, i, enc_u128(e.0), enc_ports(e.1));
    lemma_rt_u128(s, i, e.0);
    lemma_rt_ports(s, i + 32, e.1);
}

proof fn lemma_rt_entry_list(s: Seq<char>, i: int, es: Seq<(u128, PortConfig)>)
    requires
        0 <= i,
        i + enc_entry_list(es).len() <= s.len(),
        s.subrange(i, i + enc_entry_list(es).len()) == enc_entry_list(es),
    ensures
        dec_entry_list(s, i, es.len() as nat) == Some((es, i + enc_entry_list(es).len())),
    decreases es.len(),
{
    if es.len() == 0 {
        assert(es =~= Seq::<(u128, PortConfig)>::empty());
    } else {
        let h = es[0];
        let rest = es.skip(1);
        assert(enc_entry_list(es) == enc_entry(h) + enc_entry_list(rest));
        lemma_subrange_split(s, i, enc_entry(h), enc_entry_list(rest));
        lemma_rt_entry(s, i, h);
        lemma_rt_entry_list(s, i + enc_entry(h).len(), rest);
        assert(seq![h] + rest =~= es);
    }
}

#[verifier::rlimit(100)]
proof fn lemma_rt_network_at(s: Seq<char>, i: int, nv: NetworkV)
    requires
        network_ok(nv),
        0 <= i,
        i + enc_network(nv).len() <= s.len(),
        s.subrange(i, i + enc_network(nv).len()) == enc_network(nv),
    ensures
        dec_network_at(s, i) == Some((nv, i + enc_network(nv).len())),
{
    let p1 = enc_u128(nv.id);
    let p2 = enc_str(nv.name);
    let p3 = enc_status(nv.status);
    let p4 = enc_len(nv.nodes.len() as int);
    let p5 = enc_node_list(nv.nodes);
    let p6 = enc_opt_str(nv.lnd_version);
    let p7 = enc_opt_str(nv.btc_version);
    let p8 = enc_opt_str(nv.alias_prefix);
    let p9 = enc_len(nv.port_mappings.len() as int);
    let p10 = enc_entry_list(nv.port_mappings);
    lemma_enc_u128_len(nv.id);
    lemma_enc_len_len(nv.name.len() as int);
    lemma_enc_len_len(nv.nodes.len() as int);
    lemma_enc_len_len(nv.port_mappings.len() as int);
    assert(p2.len() == 16 + nv.name.len());
    assert(p3.len() == 1);
    assert(p4.len() == 16);
    assert(p9.len() == 16);
    let t10 = p10;
    let t9 = p9 + t10;
    let t8 = p8 + t9;
    let t7 = p7 + t8;
    let t6 = p6 + t7;
    let t5 = p5 + t6;
    let t4 = p4 + t5;
    let t3 = p3 + t4;
    let t2 = p2 + t3;
    assert(enc_network(nv) =~= p1 + t2);
    let j1 = i;
    lemma_subrange_split(s, j1, p1, t2);
    lemma_rt_u128(s, j1, nv.id);
    let j2 = j1 + 32;
    lemma_subrange_split(s, j2, p2, t3);
    lemma_rt_str(s, j2, nv.name);
    let j3 = j2 + p2.len();
    lemma_subrange_split(s, j3, p3, t4);
    lemma_rt_status(s, j3, nv.status);
    let j4 = j3 + 1;
    lemma_subrange_split(s, j4, p4, t5);
    lemma_rt_len(s, j4, nv.nodes.len() as int);
    let j5 = j4 + 16;
    lemma_subrange_split(s, j5, p5, t6);
    lemma_rt_node_list(s, j5, nv.nodes);
    let j6 = j5 + p5.len();
    lemma_subrange_split(s, j6, p6, t7);
    lemma_rt_opt_str(s, j6, nv.lnd_version);
    let j7 = j6 + p6.len();
    lemma_subrange_split(s, j7, p7, t8);
    lemma_rt_opt_str(s, j7, nv.btc_version);
    let j8 = j7 + p7.len();
    lemma_subrange_split(s, j8, p8, t9);
    lemma_rt_opt_str(s, j8, nv.alias_prefix);
    let j9 = j8 + p8.len();
    lemma_subrange_split(s, j9, p9, t10);
    lemma_rt_len(s, j9, nv.port_mappings.len() as int);
    let j10 = j9 + 16;
    lemma_rt_entry_list(s, j10, nv.port_mappings);
}

/// Round-trip persistence: a network record, rendered and read back, is the
/// identical record. Holds of every record whose strings and lists fit the
/// format's length prefixes — everything a `Network` value can hold.
pub proof fn lemma_network_round_trip(nv: NetworkV)
    requires
        network_ok(nv),
    ensures
        dec_network(enc_network(nv)) == Some(nv),
{
    let s = enc_network(nv);
    assert(s.subrange(0, s.len() as int) =~= s);
    lemma_rt_network_at(s, 0, nv);
}

} // verus!
