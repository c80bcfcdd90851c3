//! Lookup tables as bytes: the tables are stored as the machine's in-memory image of
//! their `u16` and `u32` entries, and read back the same way.

use vstd::prelude::*;
use crate::phase_one::G1Tables;
use crate::phase_two::G2Tables;

verus! {

/// `v` is `raw` read as two-byte entries in one byte order shared by all of them:
/// entry `i` from bytes `2i` and `2i + 1`, either low byte first throughout or high
/// byte first throughout.
pub open spec fn reads_u16(raw: Seq<u8>, v: Seq<u16>) -> bool {
    &&& raw.len() == v.len() * 2
    &&& (forall|i: int| 0 <= i < v.len() ==> #[trigger] v[i] == raw[2 * i] + 256 * raw[2 * i + 1])
        || (forall|i: int| 0 <= i < v.len() ==> #[trigger] v[i] == 256 * raw[2 * i] + raw[2 * i + 1])
}

/// `v` is `raw` read as four-byte entries in one byte order shared by all of them.
pub open spec fn reads_u32(raw: Seq<u8>, v: Seq<u32>) -> bool {
    &&& raw.len() == v.len() * 4
    &&& (forall|i: int|
        0 <= i < v.len() ==> #[trigger] v[i] == raw[4 * i] + 256 * raw[4 * i + 1] + 65536 * raw[4
            * i + 2] + 16777216 * raw[4 * i + 3]) || (forall|i: int|
        0 <= i < v.len() ==> #[trigger] v[i] == 16777216 * raw[4 * i] + 65536 * raw[4 * i + 1]
            + 256 * raw[4 * i + 2] + raw[4 * i + 3])
}

/// Calls `bytemuck::try_cast_slice::<u8, u16>` and copies the result. bytemuck only
/// reinterprets the memory of the bytes: the cast fails when the byte count is odd, and
/// a cast that succeeds gives the entries whose in-memory bytes are `raw`, two per
/// entry, in the machine's byte order (low byte first or high byte first, the same for
/// every entry). The cast can also fail when the bytes are not aligned for `u16`, which
/// depends on where they lie in memory; when that happens is not stated.
#[verifier::external_body]
fn cast_to_u16(raw: &[u8]) -> (r: Option<Vec<u16>>)
    ensures
        raw@.len() % 2 != 0 ==> r is None,
        r matches Some(v) ==> reads_u16(raw@, v@),
{
    match bytemuck::try_cast_slice::<u8, u16>(raw) {
        Ok(s) => Some(s.to_vec()),
        Err(_) => None,
    }
}

/// Calls `bytemuck::try_cast_slice::<u8, u32>` and copies the result. As for `u16`: it
/// fails when the byte count is not a multiple of four, and a success gives the entries
/// whose in-memory bytes are `raw`, four per entry, in the machine's byte order; failure
/// on alignment is not stated.
#[verifier::external_body]
fn cast_to_u32(raw: &[u8]) -> (r: Option<Vec<u32>>)
    ensures
        raw@.len() % 4 != 0 ==> r is None,
        r matches Some(v) ==> reads_u32(raw@, v@),
{
    match bytemuck::try_cast_slice::<u8, u32>(raw) {
        Ok(s) => Some(s.to_vec()),
        Err(_) => None,
    }
}

/// Calls `bytemuck::cast_slice::<u16, u8>` and copies the result: the in-memory bytes of
/// the entries, two per entry, in the machine's byte order (a cast to bytes cannot
/// fail).
#[verifier::external_body]
fn u16_bytes(data: &[u16]) -> (r: Vec<u8>)
    ensures
        reads_u16(r@, data@),
{
    bytemuck::cast_slice::<u16, u8>(data).to_vec()
}

/// Calls `bytemuck::cast_slice::<u32, u8>` and copies the result: four in-memory bytes
/// per entry, in the machine's byte order.
#[verifier::external_body]
fn u32_bytes(data: &[u32]) -> (r: Vec<u8>)
    ensures
        reads_u32(r@, data@),
{
    bytemuck::cast_slice::<u32, u8>(data).to_vec()
}

/// The bytes that store a table of `u16` entries: each entry's two bytes, in the
/// machine's byte order.
pub fn table_bytes_u16(data: &Vec<u16>) -> (r: Vec<u8>)
    ensures
        r@.len() == data@.len() * 2,
        reads_u16(r@, data@),
{
    u16_bytes(data.as_slice())
}

/// The bytes that store a table of `u32` entries: each entry's four bytes, in the
/// machine's byte order.
pub fn table_bytes_u32(data: &Vec<u32>) -> (r: Vec<u8>)
    ensures
        r@.len() == data@.len() * 4,
        reads_u32(r@, data@),
{
    u32_bytes(data.as_slice())
}

/// Reads a table of `u16` entries from its bytes; `None` when the bytes cannot be read
/// as such a table (an odd count, or bytes not aligned in memory for `u16`).
pub fn table_from_bytes_u16(raw: &[u8]) -> (r: Option<Vec<u16>>)
    ensures
        raw@.len() % 2 != 0 ==> r is None,
        r matches Some(v) ==> v@.len() * 2 == raw@.len() && reads_u16(raw@, v@),
{
    cast_to_u16(raw)
}

/// Reads a table of `u32` entries from its bytes; `None` when the bytes cannot be read
/// as such a table.
pub fn table_from_bytes_u32(raw: &[u8]) -> (r: Option<Vec<u32>>)
    ensures
        raw@.len() % 4 != 0 ==> r is None,
        r matches Some(v) ==> v@.len() * 4 == raw@.len() && reads_u32(raw@, v@),
{
    cast_to_u32(raw)
}

/// Whether every entry is below `bound`.
pub fn all_below(v: &Vec<u16>, bound: u16) -> (b: bool)
    ensures
        b == (forall|i: int| 0 <= i < v@.len() ==> #[trigger] v@[i] < bound),
{
    let mut i: usize = 0;
    while i < v.len()
        invariant
            i <= v@.len(),
            forall|j: int| 0 <= j < i ==> #[trigger] v@[j] < bound,
        decreases v@.len() - i,
    {
        if v[i] >= bound {
            return false;
        }
        i = i + 1;
    }
    true
}

impl G2Tables {
    /// The tables made of these parts, when they have the sizes and entries that the
    /// solver reads.
    pub fn from_parts(
        cp_move: Vec<u16>,
        ep_no_uds_move: Vec<u16>,
        ep_uds_move: Vec<u16>,
        cp_uds_table: Vec<u8>,
        ep_table: Vec<u8>,
    ) -> (r: Option<G2Tables>)
        ensures
            r matches Some(t) ==> t.wf() && t.cp_move@ == cp_move@ && t.ep_no_uds_move@
                == ep_no_uds_move@ && t.ep_uds_move@ == ep_uds_move@ && t.cp_uds_table@
                == cp_uds_table@ && t.ep_table@ == ep_table@,
            r is None <==> !(G2Tables { cp_move, ep_no_uds_move, ep_uds_move, cp_uds_table, ep_table }).wf(),
    {
        if cp_move.len() == 403200 && ep_no_uds_move.len() == 403200 && ep_uds_move.len() == 240
            && cp_uds_table.len() == 967680 && ep_table.len() == 967680 && all_below(
            &cp_move,
            40320,
        ) && all_below(&ep_no_uds_move, 40320) && all_below(&ep_uds_move, 24) {
            Some(G2Tables { cp_move, ep_no_uds_move, ep_uds_move, cp_uds_table, ep_table })
        } else {
            None
        }
    }

    /// The tables read from their stored bytes: the three move tables as `u16` entries,
    /// the two pruning tables as they are. `None` when a table cannot be read or does not
    /// have the sizes and entries that the solver reads.
    pub fn from_bytes(
        cp_move: &[u8],
        ep_no_uds_move: &[u8],
        ep_uds_move: &[u8],
        cp_uds_table: Vec<u8>,
        ep_table: Vec<u8>,
    ) -> (r: Option<G2Tables>)
        ensures
            r matches Some(t) ==> t.wf() && t.cp_uds_table@ == cp_uds_table@ && t.ep_table@
                == ep_table@ && t.cp_move@.len() * 2 == cp_move@.len() && t.ep_no_uds_move@.len()
                * 2 == ep_no_uds_move@.len() && t.ep_uds_move@.len() * 2 == ep_uds_move@.len(),
            r matches Some(t) ==> reads_u16(cp_move@, t.cp_move@) && reads_u16(
                ep_no_uds_move@,
                t.ep_no_uds_move@,
            ) && reads_u16(ep_uds_move@, t.ep_uds_move@),
            cp_move@.len() != 806400 || ep_no_uds_move@.len() != 806400 || ep_uds_move@.len()
                != 480 || cp_uds_table@.len() != 967680 || ep_table@.len() != 967680 ==> r is None,
    {
        let a = match table_from_bytes_u16(cp_move) {
            Some(v) => v,
            None => {
                return None;
            },
        };
        let b = match table_from_bytes_u16(ep_no_uds_move) {
            Some(v) => v,
            None => {
                return None;
            },
        };
        let c = match table_from_bytes_u16(ep_uds_move) {
            Some(v) => v,
            None => {
                return None;
            },
        };
        G2Tables::from_parts(a, b, c, cp_uds_table, ep_table)
    }
}

impl G1Tables {
    /// The tables made of these parts, when they have the sizes and entries that the
    /// solver reads.
    pub fn from_parts(
        eo_move: Vec<u16>,
        co_move: Vec<u16>,
        uds_move: Vec<u16>,
        eo_uds_table: Vec<u8>,
        co_uds_table: Vec<u8>,
    ) -> (r: Option<G1Tables>)
        ensures
            r matches Some(t) ==> t.wf() && t.eo_move@ == eo_move@ && t.co_move@ == co_move@
                && t.uds_move@ == uds_move@ && t.eo_uds_table@ == eo_uds_table@
                && t.co_uds_table@ == co_uds_table@,
            r is None <==> !(G1Tables { eo_move, co_move, uds_move, eo_uds_table, co_uds_table }).wf(),
    {
        if eo_move.len() == 36864 && co_move.len() == 39366 && uds_move.len() == 8910
            && eo_uds_table.len() == 1013760 && co_uds_table.len() == 1082565 && all_below(
            &eo_move,
            2048,
        ) && all_below(&co_move, 2187) && all_below(&uds_move, 495) {
            Some(G1Tables { eo_move, co_move, uds_move, eo_uds_table, co_uds_table })
        } else {
            None
        }
    }

    /// The tables read from their stored bytes: the three move tables as `u16` entries,
    /// the two pruning tables as they are. `None` when a table cannot be read or does not
    /// have the sizes and entries that the solver reads.
    pub fn from_bytes(
        eo_move: &[u8],
        co_move: &[u8],
        uds_move: &[u8],
        eo_uds_table: Vec<u8>,
        co_uds_table: Vec<u8>,
    ) -> (r: Option<G1Tables>)
        ensures
            r matches Some(t) ==> t.wf() && t.eo_uds_table@ == eo_uds_table@ && t.co_uds_table@
                == co_uds_table@ && t.eo_move@.len() * 2 == eo_move@.len() && t.co_move@.len() * 2
                == co_move@.len() && t.uds_move@.len() * 2 == uds_move@.len(),
            r matches Some(t) ==> reads_u16(eo_move@, t.eo_move@) && reads_u16(co_move@, t.co_move@)
                && reads_u16(uds_move@, t.uds_move@),
            eo_move@.len() != 73728 || co_move@.len() != 78732 || uds_move@.len() != 17820
                || eo_uds_table@.len() != 1013760 || co_uds_table@.len() != 1082565 ==> r is None,
    {
        let a = match table_from_bytes_u16(eo_move) {
            Some(v) => v,
            None => {
                return None;
            },
        };
        let b = match table_from_bytes_u16(co_move) {
            Some(v) => v,
            None => {
                return None;
            },
        };
        let c = match table_from_bytes_u16(uds_move) {
            Some(v) => v,
            None => {
                return None;
            },
        };
        G1Tables::from_parts(a, b, c, eo_uds_table, co_uds_table)
    }
}

} // verus!
