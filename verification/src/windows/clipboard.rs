//! What Windows keeps on its clipboard, byte for byte.

use vstd::bytes::*;
use vstd::prelude::*;

verus! {

/// Units of 16 bits as they lie in memory, the lower byte first.
pub open spec fn laid_out(units: Seq<u16>) -> Seq<u8>
    decreases units.len(),
{
    if units.len() == 0 {
        Seq::empty()
    } else {
        laid_out(units.drop_last()) + spec_u16_to_le_bytes(units.last())
    }
}

/// How long the header of a list of files is.
pub const HEADER_BYTES: u32 = 20;

/// The header of a list of files: how long it is, a point and a flag that
/// do not matter here, and that the names are in units of 16 bits.
pub open spec fn list_header() -> Seq<u8> {
    spec_u32_to_le_bytes(HEADER_BYTES) + spec_u32_to_le_bytes(0) + spec_u32_to_le_bytes(0)
        + spec_u32_to_le_bytes(0) + spec_u32_to_le_bytes(1)
}

fn push_units(out: &mut Vec<u8>, units: &Vec<u16>)
    ensures
        final(out)@ == old(out)@ + laid_out(units@),
{
    let ghost start = out@;
    let mut i: usize = 0;
    assert(units@.take(0) =~= Seq::<u16>::empty());
    assert(start + laid_out(units@.take(0)) =~= start);
    while i < units.len()
        invariant
            i <= units@.len(),
            out@ == start + laid_out(units@.take(i as int)),
        decreases units@.len() - i,
    {
        let mut pair: Vec<u8> = u16_to_le_bytes(units[i]);
        let ghost before = out@;
        let ghost two = pair@;
        out.append(&mut pair);
        proof {
            assert(units@.take(i + 1).drop_last() =~= units@.take(i as int));
            assert(before + two =~= start + (laid_out(units@.take(i as int)) + two));
        }
        i = i + 1;
    }
    assert(units@.take(i as int) =~= units@);
}

/// Text as the clipboard keeps it: its units, and a zero at the end.
pub fn text_bytes(units: &Vec<u16>) -> (r: Vec<u8>)
    ensures
        r@ == laid_out(units@.push(0)),
{
    let mut ended: Vec<u16> = units.clone();
    assert(ended@ =~= units@);
    ended.push(0);
    let mut out: Vec<u8> = Vec::new();
    push_units(&mut out, &ended);
    assert(out@ =~= laid_out(units@.push(0)));
    out
}

/// A single file as the clipboard keeps it: a list of one path. A zero
/// ends the path, and another one the list.
pub fn file_bytes(path: &Vec<u16>) -> (r: Vec<u8>)
    ensures
        r@ == list_header() + laid_out(path@.push(0).push(0)),
{
    let mut ended: Vec<u16> = path.clone();
    assert(ended@ =~= path@);
    ended.push(0);
    ended.push(0);
    let mut out: Vec<u8> = u32_to_le_bytes(HEADER_BYTES);
    let mut part: Vec<u8> = u32_to_le_bytes(0);
    out.append(&mut part);
    let mut part: Vec<u8> = u32_to_le_bytes(0);
    out.append(&mut part);
    let mut part: Vec<u8> = u32_to_le_bytes(0);
    out.append(&mut part);
    let mut part: Vec<u8> = u32_to_le_bytes(1);
    out.append(&mut part);
    assert(out@ =~= list_header());
    push_units(&mut out, &ended);
    out
}

/// Every unit takes two bytes, where it stands, the lower one first.
pub proof fn law_units_lie_two_bytes_apart(units: Seq<u16>, i: int)
    requires
        0 <= i < units.len(),
    ensures
        laid_out(units).len() == 2 * units.len(),
        laid_out(units)[2 * i] == spec_u16_to_le_bytes(units[i])[0],
        laid_out(units)[2 * i + 1] == spec_u16_to_le_bytes(units[i])[1],
    decreases units.len(),
{
    lemma_auto_spec_u16_to_from_le_bytes();
    let start = units.drop_last();
    if start.len() > 0 {
        law_units_lie_two_bytes_apart(start, if i < start.len() { i } else { 0 });
        if i < start.len() {
            assert(start[i] == units[i]);
        }
    } else {
        assert(laid_out(start).len() == 0);
    }
    assert(units[units.len() - 1] == units.last());
}

/// The header of a list of files says in its first four bytes that the list
/// begins behind it, at the twentieth byte, and in its last four that its
/// names are in units of 16 bits. The rest of it is zero.
pub proof fn law_a_list_begins_behind_its_header()
    ensures
        list_header().len() == 20,
        list_header().subrange(0, 4) == spec_u32_to_le_bytes(20),
        list_header().subrange(4, 8) == spec_u32_to_le_bytes(0),
        list_header().subrange(8, 12) == spec_u32_to_le_bytes(0),
        list_header().subrange(12, 16) == spec_u32_to_le_bytes(0),
        list_header().subrange(16, 20) == spec_u32_to_le_bytes(1),
{
    lemma_auto_spec_u32_to_from_le_bytes();
    assert(spec_u32_to_le_bytes(20).len() == 4);
    assert(spec_u32_to_le_bytes(0).len() == 4);
    assert(spec_u32_to_le_bytes(1).len() == 4);
    assert(list_header().subrange(0, 4) =~= spec_u32_to_le_bytes(20));
    assert(list_header().subrange(4, 8) =~= spec_u32_to_le_bytes(0));
    assert(list_header().subrange(8, 12) =~= spec_u32_to_le_bytes(0));
    assert(list_header().subrange(12, 16) =~= spec_u32_to_le_bytes(0));
    assert(list_header().subrange(16, 20) =~= spec_u32_to_le_bytes(1));
}

} // verus!
