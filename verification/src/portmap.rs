//! Port mapping abstraction for containers.
//!
//! A `PortMap` relates container ports to host ports. It abstracts over the
//! container runtime's own binding representation, which the unverified shell
//! derives from it.

use vstd::prelude::*;
use vstd::slice::SliceAdditionalExecFns;

verus! {

/// The map described by an association list: later entries override earlier
/// ones with the same container port.
pub open spec fn assoc_map(s: Seq<(u16, u16)>) -> Map<u16, u16>
    decreases s.len(),
{
    if s.len() == 0 {
        Map::empty()
    } else {
        assoc_map(s.drop_last()).insert(s.last().0, s.last().1)
    }
}

/// No two entries share a container port.
pub open spec fn assoc_keys_unique(s: Seq<(u16, u16)>) -> bool {
    forall|i: int, j: int| 0 <= i < j < s.len() ==> (#[trigger] s[i]).0 != (#[trigger] s[j]).0
}

proof fn lemma_assoc_map_dom(s: Seq<(u16, u16)>)
    ensures
        forall|k: u16|
            #[trigger] assoc_map(s).dom().contains(k) <==> exists|i: int|
                0 <= i < s.len() && (#[trigger] s[i]).0 == k,
    decreases s.len(),
{
    if s.len() > 0 {
        lemma_assoc_map_dom(s.drop_last());
        assert forall|k: u16| #[trigger] assoc_map(s).dom().contains(k) implies exists|i: int|
            0 <= i < s.len() && (#[trigger] s[i]).0 == k by {
            if k == s.last().0 {
                assert(s[s.len() - 1].0 == k);
            } else {
                assert(assoc_map(s.drop_last()).dom().contains(k));
                let i = choose|i: int|
                    0 <= i < s.drop_last().len() && (#[trigger] s.drop_last()[i]).0 == k;
                assert(s.drop_last()[i] == s[i]);
                assert(s[i].0 == k);
            }
        }
        assert forall|k: u16|
            exists|i: int| 0 <= i < s.len() && (#[trigger] s[i]).0 == k implies #[trigger] assoc_map(
            s,
        ).dom().contains(k) by {
            let i = choose|i: int| 0 <= i < s.len() && (#[trigger] s[i]).0 == k;
            if i < s.len() - 1 {
                assert((s.drop_last()[i]).0 == k);
                assert(exists|j: int|
                    0 <= j < s.drop_last().len() && (#[trigger] s.drop_last()[j]).0 == k);
                assert(assoc_map(s.drop_last()).dom().contains(k));
            } else {
                assert(k == s.last().0);
            }
        }
    }
}

proof fn lemma_assoc_map_len(s: Seq<(u16, u16)>)
    requires
        assoc_keys_unique(s),
    ensures
        assoc_map(s).dom().finite(),
        assoc_map(s).dom().len() == s.len(),
    decreases s.len(),
{
    if s.len() > 0 {
        assert(assoc_keys_unique(s.drop_last())) by {
            assert forall|i: int, j: int|
                0 <= i < j < s.drop_last().len() implies (#[trigger] s.drop_last()[i]).0 != (
            #[trigger] s.drop_last()[j]).0 by {
                assert(s[i] == s.drop_last()[i]);
                assert(s[j] == s.drop_last()[j]);
            }
        }
        lemma_assoc_map_len(s.drop_last());
        lemma_assoc_map_dom(s.drop_last());
        assert(!assoc_map(s.drop_last()).dom().contains(s.last().0)) by {
            if exists|i: int| 0 <= i < s.drop_last().len() && (#[trigger] s.drop_last()[i]).0
                == s.last().0 {
                let i = choose|i: int|
                    0 <= i < s.drop_last().len() && (#[trigger] s.drop_last()[i]).0 == s.last().0;
                assert(s[i].0 == s[s.len() - 1].0);
            }
        }
    }
}

/// Index of the entry holding the given container port, if any.
fn find_port_index(v: &Vec<(u16, u16)>, container_port: u16) -> (r: Option<usize>)
    ensures
        match r {
            Some(i) => i < v@.len() && v@[i as int].0 == container_port,
            None => forall|m: int| 0 <= m < v@.len() ==> (#[trigger] v@[m]).0 != container_port,
        },
{
    let n = v.len();
    let mut i: usize = 0;
    while i < n
        invariant
            n == v@.len(),
            i <= n,
            forall|m: int| 0 <= m < i ==> (#[trigger] v@[m]).0 != container_port,
        decreases n - i,
    {
        if v[i].0 == container_port {
            return Some(i);
        }
        i += 1;
    }
    None
}

/// Simple port mapping: container port to host port.
#[derive(Debug)]
pub struct PortMap {
    mappings: Vec<(u16, u16)>,
}

impl View for PortMap {
    type V = Map<u16, u16>;

    closed spec fn view(&self) -> Map<u16, u16> {
        assoc_map(self.mappings@)
    }
}

impl PortMap {
    #[verifier::type_invariant]
    spec fn wf(self) -> bool {
        assoc_keys_unique(self.mappings@)
    }

    /// Create a new empty port map.
    pub fn new() -> (r: PortMap)
        ensures
            r@ == Map::<u16, u16>::empty(),
    {
        PortMap { mappings: Vec::new() }
    }

    /// Add a mapping from a container port to a host port, replacing any
    /// earlier mapping of the same container port.
    pub fn add(&mut self, container_port: u16, host_port: u16)
        ensures
            final(self)@ == old(self)@.insert(container_port, host_port),
    {
        proof {
            use_type_invariant(&*self);
        }
        let mut m: Vec<(u16, u16)> = Vec::new();
        core::mem::swap(&mut m, &mut self.mappings);
        match find_port_index(&m, container_port) {
            Some(i) => {
                proof {
                    lemma_assoc_update(m@, i as int, host_port);
                }
                m[i] = (container_port, host_port);
                proof {
                    assert(assoc_keys_unique(m@)) by {
                        assert forall|p: int, q: int|
                            0 <= p < q < m@.len() implies (#[trigger] m@[p]).0 != (
                        #[trigger] m@[q]).0 by {
                            assert(old(self).mappings@[p].0 == m@[p].0);
                            assert(old(self).mappings@[q].0 == m@[q].0);
                        }
                    }
                }
            },
            None => {
                m.push((container_port, host_port));
                proof {
                    assert(m@.drop_last() =~= old(self).mappings@);
                }
            },
        }
        self.mappings = m;
    }

    /// Check if the port map is empty.
    pub fn is_empty(&self) -> (r: bool)
        ensures
            r == (self@.dom().len() == 0),
    {
        proof {
            use_type_invariant(self);
            lemma_assoc_map_len(self.mappings@);
        }
        self.mappings.is_empty()
    }

    /// Get the number of port mappings.
    pub fn len(&self) -> (r: usize)
        ensures
            r == self@.dom().len(),
    {
        proof {
            use_type_invariant(self);
            lemma_assoc_map_len(self.mappings@);
        }
        self.mappings.len()
    }

    /// Build a port map from a list of `(container port, host port)` pairs;
    /// later pairs override earlier ones with the same container port.
    pub fn from(mappings: Vec<(u16, u16)>) -> (r: PortMap)
        ensures
            r@ == assoc_map(mappings@),
    {
        let mut pm = PortMap::new();
        let n = mappings.len();
        let mut i: usize = 0;
        while i < n
            invariant
                n == mappings@.len(),
                i <= n,
                pm@ == assoc_map(mappings@.take(i as int)),
            decreases n - i,
        {
            let (c, h) = mappings[i];
            pm.add(c, h);
            proof {
                assert(mappings@.take(i as int + 1).drop_last() =~= mappings@.take(i as int));
                assert(mappings@.take(i as int + 1).last() == mappings@[i as int]);
            }
            i += 1;
        }
        proof {
            assert(mappings@.take(n as int) =~= mappings@);
        }
        pm
    }

    /// The host port bound to a container port, if any.
    pub fn get(&self, container_port: u16) -> (r: Option<u16>)
        ensures
            match r {
                Some(h) => self@.dom().contains(container_port) && self@[container_port] == h,
                None => !self@.dom().contains(container_port),
            },
    {
        proof {
            use_type_invariant(self);
            lemma_assoc_map_dom(self.mappings@);
        }
        let n = self.mappings.len();
        let mut i: usize = 0;
        while i < n
            invariant
                n == self.mappings@.len(),
                i <= n,
                assoc_keys_unique(self.mappings@),
                forall|m: int| 0 <= m < i ==> (#[trigger] self.mappings@[m]).0 != container_port,
                forall|k: u16|
                    #[trigger] assoc_map(self.mappings@).dom().contains(k) <==> exists|j: int|
                        0 <= j < self.mappings@.len() && (#[trigger] self.mappings@[j]).0 == k,
            decreases n - i,
        {
            if self.mappings[i].0 == container_port {
                proof {
                    lemma_assoc_lookup(self.mappings@, i as int);
                }
                return Some(self.mappings[i].1);
            }
            i += 1;
        }
        None
    }

    /// All pairs held by the map, in insertion order.
    pub fn entries(&self) -> (r: Vec<(u16, u16)>)
        ensures
            assoc_keys_unique(r@),
            assoc_map(r@) == self@,
            r@.len() == self@.dom().len(),
    {
        proof {
            use_type_invariant(self);
            lemma_assoc_map_len(self.mappings@);
        }
        let mut out: Vec<(u16, u16)> = Vec::new();
        let n = self.mappings.len();
        let mut i: usize = 0;
        while i < n
            invariant
                n == self.mappings@.len(),
                i <= n,
                out@ =~= self.mappings@.take(i as int),
            decreases n - i,
        {
            out.push(self.mappings[i]);
            i += 1;
        }
        proof {
            assert(out@ =~= self.mappings@);
        }
        out
    }
}

/// Overwriting the entry at a key's index updates the described map at that
/// key alone.
proof fn lemma_assoc_update(s: Seq<(u16, u16)>, i: int, h: u16)
    requires
        assoc_keys_unique(s),
        0 <= i < s.len(),
    ensures
        assoc_map(s.update(i, (s[i].0, h))) == assoc_map(s).insert(s[i].0, h),
    decreases s.len(),
{
    let c = s[i].0;
    let t = s.update(i, (c, h));
    if i == s.len() - 1 {
        assert(t.drop_last() =~= s.drop_last());
        assert(assoc_map(t) =~= assoc_map(s).insert(c, h));
    } else {
        assert(assoc_keys_unique(s.drop_last())) by {
            assert forall|p: int, q: int|
                0 <= p < q < s.drop_last().len() implies (#[trigger] s.drop_last()[p]).0 != (
            #[trigger] s.drop_last()[q]).0 by {
                assert(s[p] == s.drop_last()[p]);
                assert(s[q] == s.drop_last()[q]);
            }
        }
        lemma_assoc_update(s.drop_last(), i, h);
        assert(t.drop_last() =~= s.drop_last().update(i, (c, h)));
        assert(s.drop_last()[i] == s[i]);
        assert(t.last() == s.last());
        // the keys differ, so the two inserts commute
        assert(c != s.last().0);
        assert(assoc_map(t) == assoc_map(s.drop_last()).insert(c, h).insert(
            s.last().0,
            s.last().1,
        ));
        assert(assoc_map(s.drop_last()).insert(c, h).insert(s.last().0, s.last().1)
            =~= assoc_map(s).insert(c, h));
    }
}

/// In an association list with unique keys, the value at a key's index is the
/// value the described map assigns to that key.
proof fn lemma_assoc_lookup(s: Seq<(u16, u16)>, i: int)
    requires
        assoc_keys_unique(s),
        0 <= i < s.len(),
    ensures
        assoc_map(s).dom().contains(s[i].0),
        assoc_map(s)[s[i].0] == s[i].1,
    decreases s.len(),
{
    if i == s.len() - 1 {
    } else {
        assert(assoc_keys_unique(s.drop_last())) by {
            assert forall|p: int, q: int|
                0 <= p < q < s.drop_last().len() implies (#[trigger] s.drop_last()[p]).0 != (
            #[trigger] s.drop_last()[q]).0 by {
                assert(s[p] == s.drop_last()[p]);
                assert(s[q] == s.drop_last()[q]);
            }
        }
        lemma_assoc_lookup(s.drop_last(), i);
        assert(s.drop_last()[i] == s[i]);
        assert(s[i].0 != s.last().0);
    }
}

} // verus!
