//! How a reactor is identified.

use crate::text::{all_digits, decimal, digits_value, law_decimal, push_decimal};
use vstd::prelude::*;

verus! {

/// Only 64-bit platforms are supported: an id fills a poller key.
pub open spec fn keys_hold_ids() -> bool {
    usize::MAX == u64::MAX
}

/// A reactor's id: the slot of its socket, and a version, which is the number of sockets that there
/// were once it was added. No two reactors that are there at the same time have the same id.
#[derive(Debug, Clone, Copy, PartialEq, Eq, Structural)]
pub struct ReactorID {
    pub sockslot: u32,
    pub ver: u32,
}

/// The id of no reactor.
pub open spec fn spec_invalid_reactor_id() -> ReactorID {
    ReactorID { sockslot: u32::MAX, ver: u32::MAX }
}

#[verifier::when_used_as_spec(spec_invalid_reactor_id)]
pub fn invalid_reactor_id() -> (r: ReactorID)
    ensures
        r == invalid_reactor_id(),
{
    ReactorID { sockslot: u32::MAX, ver: u32::MAX }
}

/// The poller key of an id: the version in the upper half, the slot in the lower.
pub open spec fn id_key(id: ReactorID) -> int {
    id.ver * 0x1_0000_0000 + id.sockslot
}

/// The id of a poller key.
pub open spec fn key_id(key: usize) -> ReactorID {
    ReactorID {
        sockslot: (key as u64 % 0x1_0000_0000) as u32,
        ver: (key as u64 / 0x1_0000_0000) as u32,
    }
}

/// How an id is shown: slot and version, with a colon between them.
pub open spec fn id_text(id: ReactorID) -> Seq<char> {
    decimal(id.sockslot as nat) + seq![':'] + decimal(id.ver as nat)
}

impl ReactorID {
    /// The poller key.
    pub fn to_usize(&self) -> (r: usize)
        ensures
            keys_hold_ids() ==> r == id_key(*self),
    {
        let (ver, slot): (u32, u32) = (self.ver, self.sockslot);
        assert(((ver as u64) << 32u64) | (slot as u64) == ver * 0x1_0000_0000 + slot)
            by (bit_vector);
        (((ver as u64) << 32) | (slot as u64)) as usize
    }

    /// The id of a poller key.
    pub fn from_usize(val: usize) -> (r: Self)
        ensures
            r == key_id(val),
    {
        let key: u64 = val as u64;
        assert(key as u32 == (key % 0x1_0000_0000) as u32) by (bit_vector);
        assert(key >> 32u64 == key / 0x1_0000_0000) by (bit_vector);
        Self { sockslot: key as u32, ver: (key >> 32) as u32 }
    }

    /// Appends the id as it is shown.
    pub fn push_to(&self, s: &mut String)
        ensures
            final(s)@ == old(s)@ + id_text(*self),
    {
        push_decimal(s, self.sockslot as u64);
        proof {
            reveal_strlit(":");
        }
        s.append(":");
        push_decimal(s, self.ver as u64);
        assert(s@ =~= old(s)@ + id_text(*self));
    }

    /// The id as it is shown.
    pub fn to_text(&self) -> (r: String)
        ensures
            r@ == id_text(*self),
    {
        let mut s = String::new();
        self.push_to(&mut s);
        assert(s@ =~= id_text(*self));
        s
    }
}

/// An id comes back from its poller key, and a poller key from its id.
pub proof fn law_key_round_trip(id: ReactorID, key: usize)
    requires
        keys_hold_ids(),
    ensures
        0 <= id_key(id) <= usize::MAX,
        key_id(id_key(id) as usize) == id,
        id_key(key_id(key)) == key,
{
    assert((id.ver * 0x1_0000_0000 + id.sockslot) % 0x1_0000_0000 == id.sockslot) by (nonlinear_arith)
        requires
            0 <= id.sockslot < 0x1_0000_0000,
    ;
    assert((id.ver * 0x1_0000_0000 + id.sockslot) / 0x1_0000_0000 == id.ver) by (nonlinear_arith)
        requires
            0 <= id.sockslot < 0x1_0000_0000,
    ;
}

/// The version is the upper half of a poller key, and the slot the lower: keys of 64 bits hold all
/// ids. The invalid id has all bits set.
pub proof fn law_key_layout(id: ReactorID, key: usize)
    ensures
        id_key(id) / 0x1_0000_0000 == id.ver,
        id_key(id) % 0x1_0000_0000 == id.sockslot,
        usize::MAX == 0xffff_ffff_ffff_ffff ==> keys_hold_ids() && key_id(key).ver == key as int
            / 0x1_0000_0000 && key_id(key).sockslot == key as int % 0x1_0000_0000,
        id_key(invalid_reactor_id()) == 0xffff_ffff_ffff_ffff,
{
    assert((id.ver * 0x1_0000_0000 + id.sockslot) % 0x1_0000_0000 == id.sockslot) by (nonlinear_arith)
        requires
            0 <= id.sockslot < 0x1_0000_0000,
    ;
    assert((id.ver * 0x1_0000_0000 + id.sockslot) / 0x1_0000_0000 == id.ver) by (nonlinear_arith)
        requires
            0 <= id.sockslot < 0x1_0000_0000,
    ;
}

/// The text of an id is its slot, a colon and its version, each in decimal.
pub proof fn law_id_text(id: ReactorID)
    ensures
        ({
            let text = id_text(id);
            exists|n: int|
                {
                    &&& 0 < n < text.len() - 1
                    &&& #[trigger] text[n] == ':'
                    &&& all_digits(text.take(n))
                    &&& all_digits(text.skip(n + 1))
                    &&& digits_value(text.take(n)) == id.sockslot
                    &&& digits_value(text.skip(n + 1)) == id.ver
                }
        }),
{
    let (slot, ver) = (decimal(id.sockslot as nat), decimal(id.ver as nat));
    let text = id_text(id);
    let n = slot.len() as int;
    law_decimal(id.sockslot as nat);
    law_decimal(id.ver as nat);
    assert(text.take(n) =~= slot);
    assert(text.skip(n + 1) =~= ver);
    assert(text[n] == ':');
}

} // verus!
