//! Register writes that configure the camera sensor over SCCB: each
//! 16-bit register address is sent big-endian, followed by the value.
use crate::chunk::be_u16_bytes;
use vstd::prelude::*;

verus! {

/// The two address bytes sent for register `reg`, high byte first.
pub fn register_address_bytes(reg: u16) -> (r: [u8; 2])
    ensures
        r@ == be_u16_bytes(reg),
{
    let r = [(reg / 256) as u8, (reg % 256) as u8];
    assert(r@ =~= be_u16_bytes(reg));
    r
}

/// The SCCB writes, in order, that load a table of `(register, value)`
/// settings into the sensor.
pub fn register_writes(table: &[(u16, u8)]) -> (writes: Vec<([u8; 2], u8)>)
    ensures
        writes@.len() == table@.len(),
        forall|i: int|
            0 <= i < table@.len() ==> (#[trigger] writes@[i]).0@ == be_u16_bytes(table@[i].0)
                && writes@[i].1 == table@[i].1,
{
    let mut writes: Vec<([u8; 2], u8)> = Vec::new();
    let mut j: usize = 0;
    while j < table.len()
        invariant
            j <= table@.len(),
            writes@.len() == j,
            forall|i: int|
                0 <= i < j ==> (#[trigger] writes@[i]).0@ == be_u16_bytes(table@[i].0)
                    && writes@[i].1 == table@[i].1,
        decreases table@.len() - j,
    {
        let (reg, value) = table[j];
        let addr = register_address_bytes(reg);
        writes.push((addr, value));
        assert(writes@[j as int] == (addr, value));
        j = j + 1;
    }
    writes
}

} // verus!
