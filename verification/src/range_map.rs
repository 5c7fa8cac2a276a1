//! An append-only map from disjoint, ascending key ranges to values, and
//! the address-information map built from two of them (one for addresses
//! that fit in 32 bits, one for the rest).

use vstd::prelude::*;
use crate::country::IpInfo;
use crate::s2c::IpAddrBytes;
use crate::wire::be_value;

verus! {

/// A map from inclusive key ranges `[min, max]` to values. Ranges are
/// appended in ascending order and never overlap.
pub struct RangeMap {
    mins: Vec<u128>,
    maxs: Vec<u128>,
    values: Vec<u32>,
}

impl RangeMap {
    /// The ranges as a sequence of `(min, max, value)` triples.
    pub closed spec fn view_ranges(&self) -> Seq<(u128, u128, u32)> {
        Seq::new(self.mins@.len(), |i: int| (self.mins@[i], self.maxs@[i], self.values@[i]))
    }

    /// The three columns hold one entry per range.
    pub closed spec fn columns_even(&self) -> bool {
        self.mins@.len() == self.maxs@.len() && self.mins@.len() == self.values@.len()
    }

    /// Ranges are well formed and strictly ascending.
    pub open spec fn wf(&self) -> bool {
        &&& self.columns_even()
        &&& forall|i: int|
            0 <= i < self.view_ranges().len() ==> (#[trigger] self.view_ranges()[i]).0
                <= self.view_ranges()[i].1
        &&& forall|i: int|
            0 < i < self.view_ranges().len() ==> (#[trigger] self.view_ranges()[i - 1]).1
                < self.view_ranges()[i].0
    }

    /// True when some range holds the key, with the matching value.
    pub open spec fn spec_lookup(&self, key: u128) -> Option<u32> {
        if exists|i: int|
            0 <= i < self.view_ranges().len() && (#[trigger] self.view_ranges()[i]).0 <= key
                && key <= self.view_ranges()[i].1 {
            let i = choose|i: int|
                0 <= i < self.view_ranges().len() && (#[trigger] self.view_ranges()[i]).0 <= key
                    && key <= self.view_ranges()[i].1;
            Some(self.view_ranges()[i].2)
        } else {
            None
        }
    }

    pub fn new() -> (r: RangeMap)
        ensures
            r.wf(),
            r.view_ranges().len() == 0,
    {
        RangeMap { mins: Vec::new(), maxs: Vec::new(), values: Vec::new() }
    }

    /// Number of ranges held.
    pub fn len(&self) -> (r: usize)
        ensures
            r == self.view_ranges().len(),
    {
        self.mins.len()
    }

    /// Releases spare capacity; the contents do not change.
    pub fn shrink_to_fit(&mut self)
        ensures
            final(self).view_ranges() == old(self).view_ranges(),
            final(self).wf() == old(self).wf(),
    {
        shrink_vec_u128(&mut self.mins);
        shrink_vec_u128(&mut self.maxs);
        shrink_vec_u32(&mut self.values);
        proof {
            assert(final(self).view_ranges() =~= old(self).view_ranges());
        }
    }

    /// Appends the range `[min, max]` mapping to `value`. The range is
    /// dropped when it is not well formed or does not lie strictly above
    /// the last range already held.
    pub fn put(&mut self, min: u128, max: u128, value: u32)
        requires
            old(self).wf(),
        ensures
            final(self).wf(),
            ({
                let n = old(self).view_ranges().len();
                if min <= max && (n == 0 || old(self).view_ranges()[n - 1].1 < min) {
                    final(self).view_ranges() == old(self).view_ranges().push((min, max, value))
                } else {
                    final(self).view_ranges() == old(self).view_ranges()
                }
            }),
    {
        if min > max {
            return;
        }
        if self.mins.len() > 0 {
            let prev_max = self.maxs[self.maxs.len() - 1];
            if min <= prev_max {
                return;
            }
        }
        self.mins.push(min);
        self.maxs.push(max);
        self.values.push(value);
        proof {
            assert(final(self).view_ranges() =~= old(self).view_ranges().push((min, max, value)));
        }
    }

    /// Looks the key up by binary search over the ranges.
    pub fn get(&self, key: u128) -> (r: Option<u32>)
        requires
            self.wf(),
        ensures
            r == self.spec_lookup(key),
    {
        let ghost ranges = self.view_ranges();
        let mut lo: usize = 0;
        let mut hi: usize = self.mins.len();
        while lo < hi
            invariant
                self.wf(),
                ranges == self.view_ranges(),
                lo <= hi <= ranges.len(),
                forall|i: int| 0 <= i < lo ==> (#[trigger] ranges[i]).1 < key,
                forall|i: int| hi <= i < ranges.len() ==> key < (#[trigger] ranges[i]).0,
            decreases hi - lo,
        {
            let mid = lo + (hi - lo) / 2;
            let min = self.mins[mid];
            let max = self.maxs[mid];
            if key < min {
                proof {
                    assert forall|i: int| mid <= i < ranges.len() implies key < (
                    #[trigger] ranges[i]).0 by {
                        lemma_ranges_ascending(ranges, mid as int, i);
                    }
                }
                hi = mid;
            } else if key > max {
                proof {
                    assert forall|i: int| 0 <= i <= mid implies (#[trigger] ranges[i]).1 < key by {
                        lemma_ranges_ascending(ranges, i, mid as int);
                    }
                }
                lo = mid + 1;
            } else {
                proof {
                    assert(ranges[mid as int].0 <= key && key <= ranges[mid as int].1);
                    let w = choose|i: int|
                        0 <= i < ranges.len() && (#[trigger] ranges[i]).0 <= key && key
                            <= ranges[i].1;
                    if w < mid {
                        lemma_ranges_ascending(ranges, w, mid as int);
                    } else if w > mid {
                        lemma_ranges_ascending(ranges, mid as int, w);
                    }
                    assert(w == mid);
                }
                return Some(self.values[mid]);
            }
        }
        proof {
            assert forall|i: int|
                0 <= i < ranges.len() implies !((#[trigger] ranges[i]).0 <= key && key
                <= ranges[i].1) by {
                if i < lo {
                } else {
                }
            }
        }
        None
    }
}

/// In a well-formed range sequence, an earlier range lies entirely below a
/// later one.
proof fn lemma_ranges_ascending(ranges: Seq<(u128, u128, u32)>, i: int, j: int)
    requires
        forall|k: int| 0 <= k < ranges.len() ==> (#[trigger] ranges[k]).0 <= ranges[k].1,
        forall|k: int| 0 < k < ranges.len() ==> (#[trigger] ranges[k - 1]).1 < ranges[k].0,
        0 <= i <= j < ranges.len(),
    ensures
        ranges[i].0 <= ranges[j].1,
        i < j ==> ranges[i].1 < ranges[j].0,
    decreases j - i,
{
    if i < j {
        lemma_ranges_ascending(ranges, i, j - 1);
        assert(ranges[(j - 1) + 1].0 > ranges[j - 1].1);
    }
}

/// Relies on `Vec::shrink_to_fit`: it only releases spare capacity and
/// leaves the contents unchanged.
#[verifier::external_body]
fn shrink_vec_u128(v: &mut Vec<u128>)
    ensures
        final(v)@ == old(v)@,
{
    v.shrink_to_fit()
}

/// Relies on `Vec::shrink_to_fit`: it only releases spare capacity and
/// leaves the contents unchanged.
#[verifier::external_body]
fn shrink_vec_u32(v: &mut Vec<u32>)
    ensures
        final(v)@ == old(v)@,
{
    v.shrink_to_fit()
}

/// The location map for all addresses: ranges over the 32-bit space for
/// IPv4, ranges over the 128-bit space for IPv6.
pub struct IpInfoMap {
    pub four_map: RangeMap,
    pub six_map: RangeMap,
}

impl IpInfoMap {
    pub open spec fn wf(&self) -> bool {
        self.four_map.wf() && self.six_map.wf()
    }

    pub fn new() -> (r: IpInfoMap)
        ensures
            r.wf(),
            r.four_map.view_ranges().len() == 0,
            r.six_map.view_ranges().len() == 0,
    {
        IpInfoMap { four_map: RangeMap::new(), six_map: RangeMap::new() }
    }

    /// Total number of ranges held.
    pub fn len(&self) -> (r: usize)
        requires
            self.four_map.view_ranges().len() + self.six_map.view_ranges().len() <= usize::MAX,
        ensures
            r == self.four_map.view_ranges().len() + self.six_map.view_ranges().len(),
    {
        self.four_map.len() + self.six_map.len()
    }

    /// Appends a range: a range that ends within the 32-bit space belongs
    /// to the IPv4 map, any other to the IPv6 map; within its map the
    /// range is kept or dropped as `RangeMap::put` says.
    pub fn put(&mut self, start: u128, end: u128, value: u32)
        requires
            old(self).wf(),
        ensures
            final(self).wf(),
            end <= u32::MAX ==> ({
                let n = old(self).four_map.view_ranges().len();
                &&& final(self).six_map.view_ranges() == old(self).six_map.view_ranges()
                &&& if start <= end && (n == 0 || old(self).four_map.view_ranges()[n - 1].1
                    < start) {
                    final(self).four_map.view_ranges() == old(
                        self,
                    ).four_map.view_ranges().push((start, end, value))
                } else {
                    final(self).four_map.view_ranges() == old(self).four_map.view_ranges()
                }
            }),
            end > u32::MAX ==> ({
                let n = old(self).six_map.view_ranges().len();
                &&& final(self).four_map.view_ranges() == old(self).four_map.view_ranges()
                &&& if start <= end && (n == 0 || old(self).six_map.view_ranges()[n - 1].1
                    < start) {
                    final(self).six_map.view_ranges() == old(
                        self,
                    ).six_map.view_ranges().push((start, end, value))
                } else {
                    final(self).six_map.view_ranges() == old(self).six_map.view_ranges()
                }
            }),
    {
        if end <= u32::MAX as u128 {
            self.four_map.put(start, end, value);
        } else {
            self.six_map.put(start, end, value);
        }
    }

    /// The numeric value of an address: its octets read as one big-endian
    /// integer.
    pub open spec fn spec_addr_bits(addr: IpAddrBytes) -> nat {
        be_value(addr@)
    }

    /// Looks an address up: in the 32-bit map when its value fits in 32
    /// bits, in the 128-bit map otherwise. A record whose letter fields do
    /// not land on letters is dropped.
    pub fn get(&self, addr: &IpAddrBytes) -> (r: Option<IpInfo>)
        requires
            self.wf(),
        ensures
            ({
                let bits = Self::spec_addr_bits(*addr);
                let packed = if bits <= u32::MAX {
                    self.four_map.spec_lookup(bits as u128)
                } else {
                    self.six_map.spec_lookup(bits as u128)
                };
                match packed {
                    None => r is None,
                    Some(p) => {
                        &&& (r is Some <==> crate::country::spec_packed_ok(p))
                        &&& (r matches Some(info) ==> info.wf() && info.spec_packed() == p)
                    },
                }
            }),
    {
        let bits = addr_bits(addr);
        let packed = if bits <= u32::MAX as u128 {
            self.four_map.get(bits)
        } else {
            self.six_map.get(bits)
        };
        match packed {
            Some(p) => match IpInfo::from_u32(p) {
                Ok(info) => Some(info),
                Err(_) => None,
            },
            None => None,
        }
    }
}

/// The octets of an address read as one big-endian integer.
pub fn addr_bits(addr: &IpAddrBytes) -> (r: u128)
    ensures
        r == IpInfoMap::spec_addr_bits(*addr),
{
    let bytes: &[u8] = match addr {
        IpAddrBytes::V4(a) => a.as_slice(),
        IpAddrBytes::V6(a) => a.as_slice(),
    };
    let mut rd = crate::wire::Reader::new(bytes);
    proof {
        crate::wire::lemma_be_value_bound(bytes@);
        crate::wire::lemma_pow256_values();
        if bytes@.len() == 4 {
            crate::wire::lemma_pow256_le(4, 16);
        }
    }
    let n = bytes.len();
    match rd.be_read(n) {
        Ok(v) => {
            proof {
                assert(bytes@.subrange(0, bytes@.len() as int) =~= bytes@);
            }
            v
        },
        Err(_) => {
            proof {
                assert(false);
            }
            0
        },
    }
}

} // verus!
