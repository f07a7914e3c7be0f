//! Cells: the fixed-size units that carry stream data. A cell names its stream
//! and the length of its data; random bytes fill the rest. A cell without data
//! closes its stream.
use crate::bytes::extend;
use rand::rngs::StdRng;
use rand::{RngCore, SeedableRng};
use vstd::prelude::*;
use vstd::slice::slice_subrange;

verus! {

/// Bytes in a cell.
pub const CELL_BYTES: usize = 514;

/// Bytes in a cell's header.
pub const CELL_HEADER: usize = 4;

/// Most data bytes in a cell.
pub const CELL_PAYLOAD: usize = 510;

/// The stream of a connection that carries only one.
pub const STREAM_ID_SINGLE: u16 = 0;

/// The generator of cell padding.
#[verifier::external_type_specification]
#[verifier::external_body]
pub struct ExStdRng(StdRng);

/// `StdRng::from_entropy`: a generator seeded by the operating system, of which
/// nothing is claimed. The call panics where the operating system has no seed
/// to give.
#[verifier::external_body]
fn std_rng_from_entropy() -> (r: StdRng) {
    StdRng::from_entropy()
}

/// `RngCore::fill_bytes` on a buffer of `len` bytes. Which bytes come is left
/// to chance; only their number is claimed.
#[verifier::external_body]
fn std_rng_bytes(rng: &mut StdRng, len: usize) -> (bytes: Vec<u8>)
    ensures
        bytes@.len() == len,
{
    let mut bytes: Vec<u8> = vec![0u8; len];
    rng.fill_bytes(&mut bytes);
    bytes
}

/// A generator of cell padding.
pub fn padding_rng() -> (r: StdRng) {
    std_rng_from_entropy()
}

/// A number as two bytes, the more significant first.
pub open spec fn be16(n: nat) -> Seq<u8> {
    seq![(n / 256 % 256) as u8, (n % 256) as u8]
}

/// Data bytes that a cell takes of `len`.
pub open spec fn cell_share(len: nat) -> nat {
    if len < CELL_PAYLOAD {
        len
    } else {
        CELL_PAYLOAD as nat
    }
}

/// The cell with this data and padding.
pub open spec fn cell_of(stream_id: u16, data: Seq<u8>, pad: Seq<u8>) -> Seq<u8> {
    be16(stream_id as nat) + be16(data.len()) + data + pad
}

/// Whether `cell` is a cell of this stream with this data, whatever fills it
/// up.
pub open spec fn is_cell(cell: Seq<u8>, stream_id: u16, data: Seq<u8>) -> bool {
    exists|pad: Seq<u8>|
        cell == #[trigger] cell_of(stream_id, data, pad) && data.len() + pad.len() == CELL_PAYLOAD
}

/// The cell with this data and padding.
pub fn make_cell(stream_id: u16, data: &[u8], pad: &[u8]) -> (cell: Vec<u8>)
    requires
        data@.len() + pad@.len() == CELL_PAYLOAD,
    ensures
        cell@ == cell_of(stream_id, data@, pad@),
        cell@.len() == CELL_BYTES,
{
    let n: u16 = data.len() as u16;
    let mut cell: Vec<u8> = Vec::new();
    cell.push((stream_id / 256 % 256) as u8);
    cell.push((stream_id % 256) as u8);
    cell.push((n / 256 % 256) as u8);
    cell.push((n % 256) as u8);
    assert(cell@ =~= be16(stream_id as nat) + be16(data@.len()));
    extend(&mut cell, data);
    extend(&mut cell, pad);
    cell
}

/// A cell with as much of `data` as fits.
pub fn encode_real_cell(stream_id: u16, data: &[u8], pad_rng: &mut StdRng) -> (cell: Vec<u8>)
    ensures
        cell@.len() == CELL_BYTES,
        is_cell(cell@, stream_id, data@.take(cell_share(data@.len()) as int)),
{
    let n: usize = if data.len() < CELL_PAYLOAD {
        data.len()
    } else {
        CELL_PAYLOAD
    };
    let pad = std_rng_bytes(pad_rng, CELL_PAYLOAD - n);
    let taken = slice_subrange(data, 0, n);
    assert(taken@ =~= data@.take(n as int));
    make_cell(stream_id, taken, pad.as_slice())
}

/// A cell that closes its stream.
pub fn encode_close_cell(stream_id: u16, pad_rng: &mut StdRng) -> (cell: Vec<u8>)
    ensures
        cell@.len() == CELL_BYTES,
        is_cell(cell@, stream_id, Seq::empty()),
{
    let pad = std_rng_bytes(pad_rng, CELL_PAYLOAD);
    let nothing: Vec<u8> = Vec::new();
    assert(nothing@ =~= Seq::empty());
    make_cell(stream_id, nothing.as_slice(), pad.as_slice())
}

/// The number that two bytes write, the more significant first.
pub open spec fn number16(a: u8, b: u8) -> nat {
    a as nat * 256 + b as nat
}

/// The stream and the data of a cell. A length beyond the cell's end is cut,
/// and what is too short for a header is an empty cell of stream 0.
pub open spec fn decoded_cell(cell: Seq<u8>) -> (u16, Seq<u8>) {
    if cell.len() < CELL_HEADER {
        (0, Seq::empty())
    } else {
        let end = CELL_HEADER + number16(cell[2], cell[3]);
        (
            number16(cell[0], cell[1]) as u16,
            cell.subrange(
                CELL_HEADER as int,
                if end < cell.len() {
                    end as int
                } else {
                    cell.len() as int
                },
            ),
        )
    }
}

/// The stream and the data of a cell.
pub fn decode_real_cell(cell: &[u8]) -> (r: (u16, &[u8]))
    ensures
        (r.0, r.1@) == decoded_cell(cell@),
{
    if cell.len() < CELL_HEADER {
        let nothing = slice_subrange(cell, 0, 0);
        assert(nothing@ =~= Seq::empty());
        return (0, nothing);
    }
    let stream_id: u16 = cell[0] as u16 * 256 + cell[1] as u16;
    let n: usize = cell[2] as usize * 256 + cell[3] as usize;
    let end: usize = if n < cell.len() - CELL_HEADER {
        CELL_HEADER + n
    } else {
        cell.len()
    };
    (stream_id, slice_subrange(cell, CELL_HEADER, end))
}

/// A cell gives back the stream and the data it was made with.
pub proof fn law_cells_read_back(cell: Seq<u8>, stream_id: u16, data: Seq<u8>)
    requires
        is_cell(cell, stream_id, data),
    ensures
        decoded_cell(cell) == (stream_id, data),
        cell.len() == CELL_BYTES,
{
    let pad = choose|pad: Seq<u8>|
        cell == #[trigger] cell_of(stream_id, data, pad) && data.len() + pad.len() == CELL_PAYLOAD;
    assert(number16(cell[0], cell[1]) == stream_id);
    assert(number16(cell[2], cell[3]) == data.len());
    assert(cell.subrange(CELL_HEADER as int, CELL_HEADER + data.len()) =~= data);
}

/// The data of a run of cells, one after the other.
pub open spec fn cells_data(cells: Seq<Seq<u8>>) -> Seq<u8>
    decreases cells.len(),
{
    if cells.len() == 0 {
        Seq::empty()
    } else {
        cells_data(cells.drop_last()) + decoded_cell(cells.last()).1
    }
}

/// The contents of a sequence of vectors.
pub open spec fn contents(v: Seq<Vec<u8>>) -> Seq<Seq<u8>> {
    v.map_values(|c: Vec<u8>| c@)
}

/// What cell number `i` carries of `data` when each cell is as full as possible.
pub open spec fn chunk_of(data: Seq<u8>, i: int) -> Seq<u8> {
    let end = (i + 1) * CELL_PAYLOAD;
    data.subrange(
        i * CELL_PAYLOAD,
        if end < data.len() {
            end
        } else {
            data.len() as int
        },
    )
}

/// Cuts `data` into cells of one stream, each as full as possible. The cells
/// carry the data in order, none of it lost, and none of them is empty.
pub fn split_into_cells(stream_id: u16, data: &[u8], pad_rng: &mut StdRng) -> (cells: Vec<Vec<u8>>)
    ensures
        cells_data(contents(cells@)) == data@,
        cells@.len() == (data@.len() + CELL_PAYLOAD - 1) / (CELL_PAYLOAD as int),
        forall|i: int|
            0 <= i < cells@.len() ==> (#[trigger] cells@[i])@.len() == CELL_BYTES && is_cell(
                cells@[i]@,
                stream_id,
                chunk_of(data@, i),
            ) && chunk_of(data@, i).len() > 0,
{
    let mut cells: Vec<Vec<u8>> = Vec::new();
    let total: usize = data.len();
    let mut from: usize = 0;
    assert(contents(cells@) =~= Seq::empty());
    assert(data@.take(0) =~= Seq::empty());
    while from < total
        invariant
            total == data@.len(),
            from <= total,
            cells_data(contents(cells@)) == data@.take(from as int),
            from < total ==> from == cells@.len() * CELL_PAYLOAD,
            from == total ==> cells@.len() == (total + CELL_PAYLOAD - 1) / (CELL_PAYLOAD as int),
            forall|i: int|
                0 <= i < cells@.len() ==> (#[trigger] cells@[i])@.len() == CELL_BYTES && is_cell(
                    cells@[i]@,
                    stream_id,
                    chunk_of(data@, i),
                ) && chunk_of(data@, i).len() > 0,
        decreases total - from,
    {
        let ghost before = cells@;
        let rest = slice_subrange(data, from, total);
        let cell = encode_real_cell(stream_id, rest, pad_rng);
        let n: usize = if total - from < CELL_PAYLOAD {
            total - from
        } else {
            CELL_PAYLOAD
        };
        let ghost chunk = rest@.take(n as int);
        assert(chunk =~= chunk_of(data@, before.len() as int));
        proof {
            law_cells_read_back(cell@, stream_id, chunk);
        }
        cells.push(cell);
        proof {
            assert(contents(cells@).drop_last() =~= contents(before));
            assert(contents(cells@).last() == cell@);
            assert(data@.take(from + n) =~= data@.take(from as int) + chunk);
        }
        from = from + n;
    }
    assert(data@.take(total as int) =~= data@);
    cells
}

/// Where things stand in a cell: the stream's number and the length of the data,
/// each in two bytes, the more significant first, then the data.
pub proof fn law_cells_have_a_header(cell: Seq<u8>, stream_id: u16, data: Seq<u8>)
    requires
        is_cell(cell, stream_id, data),
    ensures
        cell.len() == 514,
        cell[0] * 256 + cell[1] == stream_id,
        cell[2] * 256 + cell[3] == data.len(),
        data.len() <= 510,
        cell.subrange(4, 4 + data.len() as int) == data,
{
    law_cells_read_back(cell, stream_id, data);
    assert(cell.subrange(4, 4 + data.len() as int) =~= data);
}

/// What is read from a cell never reaches beyond it, and is all that its length
/// promises as far as the cell goes.
pub proof fn law_data_is_cut_at_the_end(cell: Seq<u8>)
    requires
        cell.len() >= 4,
    ensures
        decoded_cell(cell).0 == cell[0] * 256 + cell[1],
        decoded_cell(cell).1.len() == if cell[2] * 256 + cell[3] <= cell.len() - 4 {
            cell[2] * 256 + cell[3]
        } else {
            cell.len() - 4
        },
        forall|i: int|
            0 <= i < decoded_cell(cell).1.len() ==> #[trigger] decoded_cell(cell).1[i] == cell[4 + i],
{
}

/// A cell takes as much of the data as fits, at most 510 bytes: where data is cut
/// into cells, every cell but the last is full, and each takes up where the one
/// before it ended. What is too short for a header carries nothing.
pub proof fn law_cells_are_filled_in_turn(data: Seq<u8>, i: int)
    requires
        0 <= i,
        i * 510 < data.len(),
    ensures
        data.len() <= 510 ==> cell_share(data.len()) == data.len(),
        data.len() > 510 ==> cell_share(data.len()) == 510,
        chunk_of(data, i).len() == cell_share((data.len() - i * 510) as nat),
        forall|j: int|
            0 <= j < chunk_of(data, i).len() ==> #[trigger] chunk_of(data, i)[j] == data[i * 510
                + j],
        data.len() < 4 ==> decoded_cell(data) == (0u16, Seq::<u8>::empty()),
{
}

} // verus!
