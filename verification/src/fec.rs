//! Forward error correction over packet groups, using the erasure codec.
//!
//! `encode` pads a batch of data packets to one length and derives parity
//! packets; `decode` recovers the missing data packets of a group, in index
//! order, whenever at least `k` packets are present — the loss-tolerance
//! law is its `ensures`.

use vstd::prelude::*;

use std::collections::HashMap;

use crate::codec::{
    rs_parity, rs_codeword, rs_encode, rs_reconstruct, present_count, agrees_with,
    restores_codewords,
};
use crate::errors::FecError;
use crate::types::{FecGroupId, Packet, ParityPacket};

verus! {

broadcast use vstd::std_specs::hash::group_hash_axioms;

/// The FEC algorithm; Reed-Solomon is the only variant.
#[derive(Debug, Clone, Copy, PartialEq, Eq, Structural)]
pub enum FecAlgorithm {
    ReedSolomon,
}

/// Engine configuration: `k` data packets and `m` parity packets a group.
#[derive(Debug, Clone)]
pub struct FecEngineConfig {
    pub block_size: usize,
    pub parity_count: usize,
    pub algorithm: FecAlgorithm,
}

impl Default for FecEngineConfig {
    /// Sixteen data packets, two parity packets.
    fn default() -> (r: FecEngineConfig)
        ensures
            r.block_size == 16,
            r.parity_count == 2,
            r.algorithm == FecAlgorithm::ReedSolomon,
    {
        FecEngineConfig { block_size: 16, parity_count: 2, algorithm: FecAlgorithm::ReedSolomon }
    }
}

/// A group of packets being gathered for recovery.
#[derive(Debug)]
pub struct FecGroup {
    pub id: FecGroupId,
    pub data_packets: Vec<Option<Packet>>,
    pub parity_packets: Vec<ParityPacket>,
    pub received_count: usize,
    pub expected_data_count: usize,
    pub expected_parity_count: usize,
}

impl FecGroup {
    /// An empty group expecting `data_count` data and `parity_count`
    /// parity packets.
    pub fn new(id: FecGroupId, data_count: usize, parity_count: usize) -> (r: FecGroup)
        ensures
            r.id == id,
            r.data_packets@.len() == data_count,
            forall|i: int| 0 <= i < data_count ==> r.data_packets@[i] is None,
            r.parity_packets@.len() == 0,
            r.received_count == 0,
            r.expected_data_count == data_count,
            r.expected_parity_count == parity_count,
    {
        let mut slots: Vec<Option<Packet>> = Vec::new();
        let mut i: usize = 0;
        while i < data_count
            invariant
                i <= data_count,
                slots@.len() == i,
                forall|j: int| 0 <= j < i ==> slots@[j] is None,
            decreases data_count - i,
        {
            slots.push(None);
            i = i + 1;
        }
        FecGroup {
            id,
            data_packets: slots,
            parity_packets: Vec::new(),
            received_count: 0,
            expected_data_count: data_count,
            expected_parity_count: parity_count,
        }
    }

    /// Whether every data slot is filled.
    pub fn is_complete(&self) -> (r: bool)
        ensures
            r == (forall|i: int| 0 <= i < self.data_packets@.len()
                ==> self.data_packets@[i] is Some),
    {
        let mut i: usize = 0;
        while i < self.data_packets.len()
            invariant
                i <= self.data_packets@.len(),
                forall|j: int| 0 <= j < i ==> self.data_packets@[j] is Some,
            decreases self.data_packets@.len() - i,
        {
            if self.data_packets[i].is_none() {
                return false;
            }
            i = i + 1;
        }
        true
    }
}

/// Zero bytes.
pub open spec fn zeros(l: nat) -> Seq<u8> {
    Seq::new(l, |i: int| 0u8)
}

/// A byte string padded with zeros to length `l`.
pub open spec fn pad_to(s: Seq<u8>, l: nat) -> Seq<u8> {
    s + zeros((l - s.len()) as nat)
}

/// The longest length among a list of byte strings.
pub open spec fn max_len(items: Seq<Seq<u8>>) -> nat
    decreases items.len(),
{
    if items.len() == 0 {
        0
    } else {
        let rest = max_len(items.drop_last());
        if items.last().len() > rest {
            items.last().len()
        } else {
            rest
        }
    }
}

/// A correct parity batch: `m` packets carrying the batch's group id,
/// parity indices in order, and exactly the named Reed-Solomon parity of
/// the padded data shards, each payload as long as the batch's longest.
pub open spec fn parity_packets_ok(
    par: Seq<ParityPacket>,
    k: nat,
    m: nat,
    views: Seq<Seq<u8>>,
    gid: FecGroupId,
) -> bool {
    &&& par.len() == m
    &&& forall|i: int| #![trigger par[i]]
        0 <= i < m ==> (par[i].index == i && par[i].group_id == gid && par[i].data@.len()
            == max_len(views) && par[i].data@ == rs_parity(
            k,
            m,
            fec_data_shards(views, k, max_len(views)),
        )[i])
}

/// The `k` data shards of an encoding batch: the packets padded to length
/// `l`, then zero shards up to `k`.
pub open spec fn fec_data_shards(packets: Seq<Seq<u8>>, k: nat, l: nat) -> Seq<Seq<u8>> {
    Seq::new(k, |i: int| if i < packets.len() {
        pad_to(packets[i], l)
    } else {
        zeros(l)
    })
}

/// The view of a group's slots as optional shards of length `l`: data
/// slots first, then parity slots placed by parity index, first writer
/// winning.
pub open spec fn group_opt_shards(g: &FecGroup, l: nat) -> Seq<Option<Seq<u8>>> {
    Seq::new(
        (g.expected_data_count + g.expected_parity_count) as nat,
        |i: int| if i < g.expected_data_count {
            match g.data_packets@[i] {
                Some(p) => Some(pad_to(p.data@, l)),
                None => None,
            }
        } else {
            match first_parity_at(g.parity_packets@, i - g.expected_data_count) {
                Some(d) => Some(pad_to(d, l)),
                None => None,
            }
        },
    )
}

/// The payload of the first parity packet in the list carrying index
/// `idx`, if any.
pub open spec fn first_parity_at(parity: Seq<ParityPacket>, idx: int) -> Option<Seq<u8>>
    decreases parity.len(),
{
    if parity.len() == 0 {
        None
    } else if parity[0].index == idx {
        Some(parity[0].data@)
    } else {
        first_parity_at(parity.drop_first(), idx)
    }
}

/// The engine: gathering groups, keyed by group id.
pub struct FecEngine {
    active_groups: HashMap<u64, FecGroup>,
    config: FecEngineConfig,
}

impl FecEngine {
    /// The gathered groups.
    pub closed spec fn spec_groups(self) -> Map<u64, FecGroup> {
        self.active_groups@
    }

    /// The configuration.
    pub closed spec fn spec_config(self) -> FecEngineConfig {
        self.config
    }

    /// Hash-map reasoning holds for this engine's map.
    pub closed spec fn inv(self) -> bool {
        &&& vstd::std_specs::hash::obeys_key_model::<u64>()
        &&& vstd::std_specs::hash::builds_valid_hashers::<std::hash::RandomState>()
    }

    /// A fresh engine with no groups.
    pub fn new(config: FecEngineConfig) -> (r: FecEngine)
        ensures
            r.inv(),
            r.spec_groups() == Map::<u64, FecGroup>::empty(),
            r.spec_config() == config,
    {
        FecEngine { active_groups: HashMap::new(), config }
    }

    /// Derive the parity packets of a batch of data packets.
    ///
    /// The batch must be nonempty, at most `k` long, with at least one
    /// nonempty payload, and `(k, m)` must be a usable codec shape; then
    /// the result is exactly the named Reed-Solomon parity of the padded
    /// batch, carried in packets with the batch's group id and parity
    /// indices in order.
    pub fn encode(&self, packets: &Vec<Packet>, config: &FecEngineConfig) -> (r: Result<
        Vec<ParityPacket>,
        FecError,
    >)
        ensures
            ({
                let k = config.block_size;
                let m = config.parity_count;
                let views = Seq::new(packets@.len(), |i: int| packets@[i].data@);
                let l = max_len(views);
                let shape_ok = 1 <= packets@.len() <= k && 1 <= m && k + m <= 256 && l >= 1;
                if shape_ok {
                    r matches Ok(par) && parity_packets_ok(
                        par@,
                        k as nat,
                        m as nat,
                        views,
                        packets@[0].group_id,
                    )
                } else {
                    r is Err
                }
            }),
    {
        let k: usize = config.block_size;
        let m: usize = config.parity_count;
        let ghost views = Seq::new(packets@.len(), |i: int| packets@[i].data@);
        if packets.len() == 0 || packets.len() > k {
            return Err(FecError::GroupSizeInvalid);
        }
        if m == 0 || m > 256 || k > 256 - m {
            return Err(FecError::GroupSizeInvalid);
        }
        let mut l: usize = 0;
        let mut i: usize = 0;
        while i < packets.len()
            invariant
                i <= packets@.len(),
                views == Seq::new(packets@.len(), |t: int| packets@[t].data@),
                l == max_len(views.take(i as int)),
            decreases packets@.len() - i,
        {
            if packets[i].data.len() > l {
                l = packets[i].data.len();
            }
            i = i + 1;
            proof {
                assert(views.take(i as int).drop_last() =~= views.take(i - 1));
                assert(views.take(i as int).last() == packets@[i - 1].data@);
            }
        }
        proof {
            assert(views.take(views.len() as int) =~= views);
        }
        if l == 0 {
            return Err(FecError::GroupSizeInvalid);
        }
        proof {
            lemma_max_len_bounds(views);
        }
        let ghost shards_spec = fec_data_shards(views, k as nat, l as nat);
        let mut shards: Vec<Vec<u8>> = Vec::new();
        let mut i: usize = 0;
        while i < packets.len()
            invariant
                i <= packets@.len(),
                packets@.len() <= k,
                views == Seq::new(packets@.len(), |t: int| packets@[t].data@),
                shards_spec == fec_data_shards(views, k as nat, l as nat),
                forall|t: int| 0 <= t < views.len() ==> #[trigger] views[t].len() <= l,
                shards.deep_view() =~~= shards_spec.take(i as int),
            decreases packets@.len() - i,
        {
            let ghost sh0 = shards.deep_view();
            proof {
                assert(views[i as int] == packets@[i as int].data@);
                assert(views[i as int].len() <= l);
            }
            let padded = pad_packet(&packets[i].data, l);
            shards.push(padded);
            i = i + 1;
            proof {
                assert(shards.deep_view() =~~= sh0.push(pad_to(views[i - 1], l as nat)));
                assert(shards_spec[i - 1] == pad_to(views[i - 1], l as nat));
                assert(shards.deep_view() =~~= shards_spec.take(i as int));
            }
        }
        while i < k + m
            invariant
                packets@.len() <= i <= k + m,
                shards_spec == fec_data_shards(views, k as nat, l as nat),
                l >= 1,
                k + m <= 256,
                m >= 1,
                1 <= packets@.len() <= k,
                views.len() == packets@.len(),
                shards.deep_view() =~~= if i <= k {
                    shards_spec.take(i as int)
                } else {
                    shards_spec + Seq::new((i - k) as nat, |t: int| zeros(l as nat))
                },
            decreases k + m - i,
        {
            let ghost sh0 = shards.deep_view();
            let z = zero_bytes(l);
            shards.push(z);
            i = i + 1;
            proof {
                assert(shards.deep_view() =~~= sh0.push(zeros(l as nat)));
                if i <= k {
                    assert(shards_spec[i - 1] == zeros(l as nat));
                    assert(shards.deep_view() =~~= shards_spec.take(i as int));
                } else {
                    if i - 1 == k {
                        assert(shards_spec.take(k as int) =~= shards_spec);
                    }
                    assert(shards.deep_view() =~~= shards_spec + Seq::new(
                        (i - k) as nat,
                        |t: int| zeros(l as nat),
                    ));
                }
            }
        }
        proof {
            assert(shards.deep_view().len() == k + m);
            assert(forall|t: int| 0 <= t < k ==> #[trigger] shards.deep_view()[t]
                == shards_spec[t]);
            assert(forall|t: int| 0 <= t < k + m ==> #[trigger] shards.deep_view()[t].len()
                == l);
            assert(shards.deep_view()[0].len() == l);
            assert(crate::codec::shards_uniform(shards.deep_view(), l as nat));
        }
        let enc = rs_encode(k, m, &mut shards);
        if enc.is_err() {
            return Err(FecError::GroupSizeInvalid);
        }
        proof {
            assert(shards.deep_view().take(k as int) =~= shards_spec);
        }
        proof {
            assert(shards_spec.len() == k);
        }
        let group_id = packets[0].group_id;
        let mut parity: Vec<ParityPacket> = Vec::new();
        let mut t: usize = 0;
        while t < m
            invariant
                t <= m,
                k + m <= 256,
                k + m == shards@.len(),
                shards_spec.len() == k,
                shards.deep_view() == rs_codeword(k as nat, m as nat, shards_spec),
                parity@.len() == t,
                forall|j: int| 0 <= j < t ==> (#[trigger] parity@[j].index == j
                    && parity@[j].group_id == group_id && parity@[j].data@ == rs_parity(
                    k as nat,
                    m as nat,
                    shards_spec,
                )[j]),
            decreases m - t,
        {
            let shard_copy = copy_bytes(&shards[k + t]);
            parity.push(ParityPacket { group_id, index: t, data: shard_copy });
            t = t + 1;
            proof {
                let cw = rs_codeword(k as nat, m as nat, shards_spec);
                assert(cw.len() == k + m);
                assert(rs_parity(k as nat, m as nat, shards_spec).len() == m);
                assert(shards.deep_view()[k + t - 1] == cw[k + t - 1]);
                assert(cw[k + t - 1] == rs_parity(k as nat, m as nat, shards_spec)[t - 1]);
            }
        }
        proof {
            let vv = Seq::new(packets@.len(), |t: int| packets@[t].data@);
            assert(vv =~~= views);
            assert(l == max_len(views));
            assert(shards_spec == fec_data_shards(views, k as nat, l as nat));
            let cw = rs_codeword(k as nat, m as nat, shards_spec);
            assert forall|j: int| 0 <= j < m implies #[trigger] parity@[j].data@.len() == l by {
                assert(parity@[j].index == j);
                assert(parity@[j].data@ == rs_parity(k as nat, m as nat, shards_spec)[j]);
                assert(rs_parity(k as nat, m as nat, shards_spec)[j] == cw[k + j]);
                assert(cw[k + j] == shards.deep_view()[k + j]);
                assert(shards.deep_view()[k + j].len() == l);
            }
            assert(parity_packets_ok(parity@, k as nat, m as nat, views, group_id));
        }
        Ok(parity)
    }

    /// Whether a group has gathered enough packets to recover.
    pub fn can_recover(&self, group: &FecGroup) -> (r: bool)
        ensures
            r == (group.received_count >= group.expected_data_count),
    {
        group.received_count >= group.expected_data_count
    }

    /// Recover the missing data packets of a group.
    ///
    /// Success needs a usable `(k, m)` shape, a gathered count and an
    /// actual slot count of at least `k`, and one nonzero payload length.
    /// The recovered packets carry the group's id and the missing indices
    /// in increasing order; and whenever the group's slots agree with a
    /// codeword — as the slots of any group gathered from `encode`'s
    /// output do — each recovered payload is exactly that codeword's data
    /// shard at its index.
    pub fn decode(&self, group: &FecGroup) -> (r: Result<Vec<Packet>, FecError>)
        ensures
            group.received_count < group.expected_data_count ==> r == Err::<Vec<Packet>, FecError>(
                FecError::InsufficientPackets,
            ),
            ({
                let k = group.expected_data_count;
                let m = group.expected_parity_count;
                let l = group_max_len(group);
                let opts = group_opt_shards(group, l);
                (group.received_count >= k && 1 <= k && 1 <= m && k + m <= 256 && l >= 1
                    && group.data_packets@.len() == k) ==> {
                    &&& (r is Ok <==> present_count(opts) >= k)
                    &&& (r matches Ok(rec) ==> {
                        &&& (forall|t: int| #![trigger rec@[t]]
                            0 <= t < rec@.len() ==> (rec@[t].group_id == group.id && rec@[t].index
                                < k && group.data_packets@[rec@[t].index as int] is None))
                        &&& (forall|t1: int, t2: int| #![trigger rec@[t1], rec@[t2]]
                            0 <= t1 < t2 < rec@.len() ==> rec@[t1].index < rec@[t2].index)
                        &&& (forall|i: int|
                            0 <= i < k && group.data_packets@[i] is None ==> exists|t: int|
                                0 <= t < rec@.len() && #[trigger] rec@[t].index == i)
                        &&& (forall|data: Seq<Seq<u8>>|
                            (data.len() == k && agrees_with(
                                opts,
                                #[trigger] rs_codeword(k as nat, m as nat, data),
                            )) ==> (forall|t: int| #![trigger rec@[t]]
                                0 <= t < rec@.len() ==> rec@[t].data@ == data[rec@[t].index as int]))
                    })
                }
            }),
    {
        let k: usize = group.expected_data_count;
        let m: usize = group.expected_parity_count;
        if group.received_count < k {
            return Err(FecError::InsufficientPackets);
        }
        if k == 0 || m == 0 || m > 256 || k > 256 - m || group.data_packets.len() != k {
            return Err(FecError::GroupSizeInvalid);
        }
        let l = group_max_len_exec(group);
        if l == 0 {
            return Err(FecError::GroupSizeInvalid);
        }
        let ghost opts_spec = group_opt_shards(group, l as nat);
        let mut opts: Vec<Option<Vec<u8>>> = Vec::new();
        let mut i: usize = 0;
        while i < k
            invariant
                i <= k,
                k == group.expected_data_count,
                group.data_packets@.len() == k,
                opts_spec == group_opt_shards(group, l as nat),
                forall|t: int| 0 <= t < k ==> (#[trigger] group.data_packets@[t] matches Some(p)
                    ==> p.data@.len() <= l),
                opts.deep_view() =~~= opts_spec.take(i as int),
            decreases k - i,
        {
            let ghost o0 = opts.deep_view();
            let slot = &group.data_packets[i];
            match slot {
                Some(p) => {
                    let padded = pad_packet(&p.data, l);
                    opts.push(Some(padded));
                    proof {
                        assert(opts.deep_view() =~~= o0.push(Some(pad_to(p.data@, l as nat))));
                    }
                },
                None => {
                    opts.push(None);
                    proof {
                        assert(opts.deep_view() =~~= o0.push(None::<Seq<u8>>));
                    }
                },
            }
            i = i + 1;
            proof {
                assert(opts.deep_view() =~~= opts_spec.take(i as int));
            }
        }
        let mut j: usize = 0;
        while j < m
            invariant
                j <= m,
                k == group.expected_data_count,
                m == group.expected_parity_count,
                group.data_packets@.len() == k,
                opts_spec == group_opt_shards(group, l as nat),
                forall|t: int| 0 <= t < group.parity_packets@.len()
                    ==> #[trigger] group.parity_packets@[t].data@.len() <= l,
                opts.deep_view() =~~= opts_spec.take((k + j) as int),
            decreases m - j,
        {
            let ghost o0 = opts.deep_view();
            let found = find_parity(&group.parity_packets, j, l);
            opts.push(found);
            j = j + 1;
            proof {
                assert(opts.deep_view() =~~= o0.push(opts_spec[(k + j - 1) as int]));
                assert(opts.deep_view() =~~= opts_spec.take((k + j) as int));
            }
        }
        proof {
            assert(opts_spec.take((k + m) as int) =~= opts_spec);
            lemma_opt_shards_uniform(group, l as nat);
        }
        let rec_result = rs_reconstruct(k, m, &mut opts);
        if rec_result.is_err() {
            return Err(FecError::InsufficientPackets);
        }
        let mut recovered: Vec<Packet> = Vec::new();
        let mut i: usize = 0;
        while i < k
            invariant
                i <= k,
                k == group.expected_data_count,
                group.data_packets@.len() == k,
                opts@.len() == k + m,
                forall|t: int| 0 <= t < k + m ==> #[trigger] opts.deep_view()[t] is Some,
                forall|t: int| #![trigger recovered@[t]]
                    0 <= t < recovered@.len() ==> (recovered@[t].group_id == group.id
                        && recovered@[t].index < i
                        && group.data_packets@[recovered@[t].index as int] is None
                        && Some(recovered@[t].data@) == opts.deep_view()[recovered@[t].index as int]),
                forall|t1: int, t2: int| #![trigger recovered@[t1], recovered@[t2]]
                    0 <= t1 < t2 < recovered@.len() ==> recovered@[t1].index
                        < recovered@[t2].index,
                forall|t: int|
                    0 <= t < i && group.data_packets@[t] is None ==> exists|u: int|
                        0 <= u < recovered@.len() && #[trigger] recovered@[u].index == t,
            decreases k - i,
        {
            let ghost r0 = recovered@;
            if group.data_packets[i].is_none() {
                proof {
                    assert(opts.deep_view()[i as int] is Some);
                    assert(opts.deep_view()[i as int] == match opts@[i as int] {
                        Some(v) => Some(v@),
                        None => None::<Seq<u8>>,
                    });
                }
                let shard = match opts[i].as_ref() {
                    Some(s) => copy_bytes(s),
                    None => {
                        proof {
                            assert(false);
                        }
                        Vec::new()
                    },
                };
                let ghost sv = shard@;
                proof {
                    assert(Some(sv) == opts.deep_view()[i as int]);
                }
                recovered.push(Packet { group_id: group.id, index: i, data: shard });
                proof {
                    assert(recovered@ =~= r0.push(recovered@[r0.len() as int]));
                    assert(recovered@[r0.len() as int].index == i);
                    assert(recovered@[r0.len() as int].data@ == sv);
                }
            }
            i = i + 1;
            proof {
                assert(forall|t: int| #![trigger r0[t]] 0 <= t < r0.len() ==> recovered@[t] == r0[t]);
                assert(forall|t: int| #![trigger r0[t]] 0 <= t < r0.len() ==> r0[t].index < i - 1);
                assert forall|t1: int, t2: int| #![trigger recovered@[t1], recovered@[t2]]
                    0 <= t1 < t2 < recovered@.len()
                    implies recovered@[t1].index < recovered@[t2].index by {
                    if t2 < r0.len() {
                    } else if t2 == r0.len() && recovered@.len() > r0.len() {
                        assert(recovered@[t1] == r0[t1]);
                        assert(r0[t1].index < i - 1);
                        assert(recovered@[t2].index == i - 1);
                    }
                }
                assert forall|t: int| 0 <= t < i && group.data_packets@[t] is None
                    implies exists|u: int| 0 <= u < recovered@.len()
                    && #[trigger] recovered@[u].index == t by {
                    if t < i - 1 {
                        let u0 = choose|u: int| 0 <= u < r0.len() && #[trigger] r0[u].index == t;
                        assert(recovered@[u0].index == t);
                    } else {
                        assert(recovered@[recovered@.len() - 1].index == t);
                    }
                }
            }
        }
        proof {
            let ghost kk = k as nat;
            let ghost mm = m as nat;
            assert forall|data: Seq<Seq<u8>>|
                data.len() == kk && agrees_with(
                    opts_spec,
                    #[trigger] rs_codeword(kk, mm, data),
                ) implies (forall|t: int| #![trigger recovered@[t]]
                0 <= t < recovered@.len() ==> recovered@[t].data@ == data[recovered@[t].index as int]) by {
                assert(restores_codewords(kk, mm, opts_spec, opts.deep_view()));
                assert forall|t: int| #![trigger recovered@[t]] 0 <= t < recovered@.len()
                    implies recovered@[t].data@ == data[recovered@[t].index as int] by {
                    let idx = recovered@[t].index as int;
                    assert(0 <= idx < kk);
                    assert(opts.deep_view().len() == kk + mm);
                    assert(opts.deep_view()[idx] == Some(rs_codeword(kk, mm, data)[idx]));
                    assert(rs_codeword(kk, mm, data)[idx] == data[idx]);
                    assert(Some(recovered@[t].data@) == opts.deep_view()[idx]);
                }
            }
        }
        Ok(recovered)
    }

    /// Carry a data packet toward its group, creating the group with the
    /// engine's configured shape if it is new; a fresh in-range index
    /// fills its slot and counts, anything else is ignored.
    pub fn add_packet(&mut self, packet: Packet) -> (r: Result<(), FecError>)
        requires
            old(self).inv(),
        ensures
            final(self).inv(),
            r is Ok,
            final(self).spec_config() == old(self).spec_config(),
            final(self).spec_groups().contains_key(packet.group_id.0),
            ({
                let g = final(self).spec_groups()[packet.group_id.0];
                &&& g.id == packet.group_id
                &&& (packet.index < g.data_packets@.len()
                    ==> g.data_packets@[packet.index as int] is Some)
            }),
    {
        let gid: u64 = packet.group_id.0;
        let mut group = match self.active_groups.remove(&gid) {
            Some(g) => g,
            None => FecGroup::new(packet.group_id, self.config.block_size, self.config.parity_count),
        };
        let group_ok: bool = group.id.0 == gid;
        let mut group = if group_ok {
            group
        } else {
            FecGroup::new(packet.group_id, self.config.block_size, self.config.parity_count)
        };
        let idx: usize = packet.index;
        if idx < group.data_packets.len() {
            if group.data_packets[idx].is_none() {
                group.data_packets.set(idx, Some(packet));
                group.received_count = if group.received_count == usize::MAX {
                    usize::MAX
                } else {
                    group.received_count + 1
                };
            }
        }
        self.active_groups.insert(gid, group);
        Ok(())
    }

    /// Carry a parity packet toward its group, creating the group with the
    /// engine's configured shape if it is new; the packet is appended and
    /// counted.
    pub fn add_parity(&mut self, parity: ParityPacket) -> (r: Result<(), FecError>)
        requires
            old(self).inv(),
        ensures
            final(self).inv(),
            r is Ok,
            final(self).spec_config() == old(self).spec_config(),
            final(self).spec_groups().contains_key(parity.group_id.0),
            ({
                let g = final(self).spec_groups()[parity.group_id.0];
                &&& g.id == parity.group_id
                &&& g.parity_packets@.len() >= 1
                &&& g.parity_packets@.last() == parity
            }),
    {
        let gid: u64 = parity.group_id.0;
        let group0 = match self.active_groups.remove(&gid) {
            Some(g) => g,
            None => FecGroup::new(parity.group_id, self.config.block_size, self.config.parity_count),
        };
        let group_ok: bool = group0.id.0 == gid;
        let mut group = if group_ok {
            group0
        } else {
            FecGroup::new(parity.group_id, self.config.block_size, self.config.parity_count)
        };
        group.parity_packets.push(parity);
        group.received_count = if group.received_count == usize::MAX {
            usize::MAX
        } else {
            group.received_count + 1
        };
        self.active_groups.insert(gid, group);
        Ok(())
    }

    /// The gathered group with this id, if any.
    pub fn get_group(&self, group_id: &FecGroupId) -> (r: Option<&FecGroup>)
        requires
            self.inv(),
        ensures
            r matches Some(g) ==> self.spec_groups().contains_key(group_id.0) && *g
                == self.spec_groups()[group_id.0],
            r is None <==> !self.spec_groups().contains_key(group_id.0),
    {
        self.active_groups.get(&group_id.0)
    }

    /// Retire a group.
    pub fn remove_group(&mut self, group_id: &FecGroupId)
        requires
            old(self).inv(),
        ensures
            final(self).inv(),
            final(self).spec_config() == old(self).spec_config(),
            final(self).spec_groups() == old(self).spec_groups().remove(group_id.0),
    {
        self.active_groups.remove(&group_id.0);
        proof {
            assert(self.spec_groups() =~= old(self).spec_groups().remove(group_id.0));
        }
    }
}

/// The longest payload among a group's present data and parity packets.
pub open spec fn group_max_len(g: &FecGroup) -> nat {
    let dl = max_len(Seq::new(g.data_packets@.len(), |i: int| match g.data_packets@[i] {
        Some(p) => p.data@,
        None => Seq::empty(),
    }));
    let pl = max_len(Seq::new(g.parity_packets@.len(), |i: int| g.parity_packets@[i].data@));
    if dl > pl {
        dl
    } else {
        pl
    }
}

/// Compute the longest payload among a group's packets.
fn group_max_len_exec(g: &FecGroup) -> (r: usize)
    ensures
        r == group_max_len(g),
        forall|t: int| 0 <= t < g.data_packets@.len() ==> (#[trigger] g.data_packets@[t] matches Some(
            p,
        ) ==> p.data@.len() <= r),
        forall|t: int| 0 <= t < g.parity_packets@.len()
            ==> #[trigger] g.parity_packets@[t].data@.len() <= r,
{
    let ghost dviews = Seq::new(g.data_packets@.len(), |i: int| match g.data_packets@[i] {
        Some(p) => p.data@,
        None => Seq::<u8>::empty(),
    });
    let ghost pviews = Seq::new(g.parity_packets@.len(), |i: int| g.parity_packets@[i].data@);
    let mut l: usize = 0;
    let mut i: usize = 0;
    while i < g.data_packets.len()
        invariant
            i <= g.data_packets@.len(),
            dviews == Seq::new(g.data_packets@.len(), |t: int| match g.data_packets@[t] {
                Some(p) => p.data@,
                None => Seq::<u8>::empty(),
            }),
            l == max_len(dviews.take(i as int)),
        decreases g.data_packets@.len() - i,
    {
        let slot = &g.data_packets[i];
        match slot {
            Some(p) => {
                if p.data.len() > l {
                    l = p.data.len();
                }
            },
            None => {},
        }
        i = i + 1;
        proof {
            assert(dviews.take(i as int).drop_last() =~= dviews.take(i - 1));
            assert(dviews.take(i as int).last() == dviews[i - 1]);
        }
    }
    proof {
        assert(dviews.take(dviews.len() as int) =~= dviews);
    }
    let mut j: usize = 0;
    let ghost dl = l as nat;
    while j < g.parity_packets.len()
        invariant
            j <= g.parity_packets@.len(),
            pviews == Seq::new(g.parity_packets@.len(), |t: int| g.parity_packets@[t].data@),
            ({
                let sofar = max_len(pviews.take(j as int));
                l == if dl > sofar {
                    dl
                } else {
                    sofar
                }
            }),
            dl == max_len(dviews),
        decreases g.parity_packets@.len() - j,
    {
        if g.parity_packets[j].data.len() > l {
            l = g.parity_packets[j].data.len();
        }
        j = j + 1;
        proof {
            assert(pviews.take(j as int).drop_last() =~= pviews.take(j - 1));
            assert(pviews.take(j as int).last() == pviews[j - 1]);
        }
    }
    proof {
        assert(pviews.take(pviews.len() as int) =~= pviews);
        lemma_max_len_bounds(dviews);
        lemma_max_len_bounds(pviews);
        assert forall|t: int| 0 <= t < g.data_packets@.len() implies (#[trigger] g.data_packets@[t] matches Some(
            p,
        ) ==> p.data@.len() <= l) by {
            if g.data_packets@[t] is Some {
                assert(dviews[t] == g.data_packets@[t]->Some_0.data@);
                assert(dviews[t].len() <= max_len(dviews));
            }
        }
        assert forall|t: int| 0 <= t < g.parity_packets@.len()
            implies #[trigger] g.parity_packets@[t].data@.len() <= l by {
            assert(pviews[t] == g.parity_packets@[t].data@);
            assert(pviews[t].len() <= max_len(pviews));
        }
    }
    l
}

/// Every item is no longer than the longest.
proof fn lemma_max_len_bounds(items: Seq<Seq<u8>>)
    ensures
        forall|i: int| 0 <= i < items.len() ==> #[trigger] items[i].len() <= max_len(items),
    decreases items.len(),
{
    if items.len() == 0 {
    } else {
        lemma_max_len_bounds(items.drop_last());
        assert forall|i: int| 0 <= i < items.len() implies #[trigger] items[i].len() <= max_len(
            items,
        ) by {
            if i < items.len() - 1 {
                assert(items.drop_last()[i] == items[i]);
                assert(items[i].len() <= max_len(items.drop_last()));
            } else {
                assert(items[i] == items.last());
            }
        }
    }
}

/// The slot views of a group are uniform at its maximal length.
proof fn lemma_opt_shards_uniform(g: &FecGroup, l: nat)
    requires
        forall|t: int| 0 <= t < g.data_packets@.len() ==> (#[trigger] g.data_packets@[t] matches Some(
            p,
        ) ==> p.data@.len() <= l),
        forall|t: int| 0 <= t < g.parity_packets@.len()
            ==> #[trigger] g.parity_packets@[t].data@.len() <= l,
        g.data_packets@.len() == g.expected_data_count,
    ensures
        forall|i: int|
            0 <= i < group_opt_shards(g, l).len() ==> (#[trigger] group_opt_shards(g, l)[i] matches Some(
                v,
            ) ==> v.len() == l),
{
    let opts = group_opt_shards(g, l);
    assert forall|i: int| 0 <= i < opts.len() implies (#[trigger] opts[i] matches Some(v)
        ==> v.len() == l) by {
        if i >= g.expected_data_count {
            lemma_first_parity_len(g.parity_packets@, i - g.expected_data_count, l);
        }
    }
}

/// A found parity payload respects the packets' length bound.
proof fn lemma_first_parity_len(parity: Seq<ParityPacket>, idx: int, l: nat)
    requires
        forall|t: int| 0 <= t < parity.len() ==> #[trigger] parity[t].data@.len() <= l,
    ensures
        first_parity_at(parity, idx) matches Some(d) ==> d.len() <= l,
    decreases parity.len(),
{
    if parity.len() == 0 {
    } else if parity[0].index == idx {
    } else {
        lemma_first_parity_len(parity.drop_first(), idx, l);
        assert(forall|t: int| 0 <= t < parity.len() - 1 ==> parity.drop_first()[t]
            == #[trigger] parity[t + 1]);
    }
}

/// Find the first parity packet with index `idx` and pad it to `l`.
fn find_parity(parity: &Vec<ParityPacket>, idx: usize, l: usize) -> (r: Option<Vec<u8>>)
    requires
        forall|t: int| 0 <= t < parity@.len() ==> #[trigger] parity@[t].data@.len() <= l,
    ensures
        r matches Some(v) ==> first_parity_at(parity@, idx as int) matches Some(d) && v@ == pad_to(
            d,
            l as nat,
        ),
        r is None <==> first_parity_at(parity@, idx as int) is None,
{
    let mut t: usize = 0;
    proof {
        assert(parity@.skip(0) =~= parity@);
    }
    while t < parity.len()
        invariant
            t <= parity@.len(),
            forall|u: int| 0 <= u < parity@.len() ==> #[trigger] parity@[u].data@.len() <= l,
            first_parity_at(parity@, idx as int) == first_parity_at(
                parity@.skip(t as int),
                idx as int,
            ),
        decreases parity@.len() - t,
    {
        proof {
            assert(parity@.skip(t as int)[0] == parity@[t as int]);
            assert(parity@.skip(t as int).drop_first() =~= parity@.skip(t as int + 1));
        }
        if parity[t].index == idx {
            return Some(pad_packet(&parity[t].data, l));
        }
        t = t + 1;
    }
    proof {
        assert(parity@.skip(parity@.len() as int).len() == 0);
    }
    None
}

/// Copy a byte vector.
pub fn copy_bytes(v: &Vec<u8>) -> (r: Vec<u8>)
    ensures
        r@ == v@,
{
    vstd::slice::slice_to_vec(v.as_slice())
}

/// A vector of `l` zero bytes.
pub fn zero_bytes(l: usize) -> (r: Vec<u8>)
    ensures
        r@ == zeros(l as nat),
{
    let mut out: Vec<u8> = Vec::new();
    let mut i: usize = 0;
    while i < l
        invariant
            i <= l,
            out@ =~= zeros(i as nat),
        decreases l - i,
    {
        out.push(0);
        i = i + 1;
        proof {
            assert(out@ =~= zeros(i as nat));
        }
    }
    out
}

/// Pad a payload with zeros to length `l`.
pub fn pad_packet(data: &Vec<u8>, l: usize) -> (r: Vec<u8>)
    requires
        data@.len() <= l,
    ensures
        r@ == pad_to(data@, l as nat),
{
    let mut out = copy_bytes(data);
    let mut i: usize = data.len();
    while i < l
        invariant
            data@.len() <= i <= l,
            out@ =~= data@ + zeros((i - data@.len()) as nat),
        decreases l - i,
    {
        out.push(0);
        i = i + 1;
        proof {
            assert(out@ =~= data@ + zeros((i - data@.len()) as nat));
        }
    }
    proof {
        assert(out@ =~= pad_to(data@, l as nat));
    }
    out
}

} // verus!
