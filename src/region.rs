//! The region grid: which chunk positions are written back, and in what order.

use vstd::prelude::*;

verus! {

/// Positions along each side of a region.
pub const REGION_SIDE: usize = 32;

/// Positions in a region.
pub const REGION_CHUNKS: usize = 1024;

/// The position at index `i` of the grid order: `x` outer, `z` inner.
pub open spec fn grid_position(i: int) -> (usize, usize) {
    ((i / 32) as usize, (i % 32) as usize)
}

/// The index of a position in the grid order.
pub open spec fn grid_index(p: (usize, usize)) -> int {
    p.0 * 32 + p.1
}

/// How many positions are marked present.
pub open spec fn count_present(present: Seq<bool>) -> nat
    decreases present.len(),
{
    if present.len() == 0 {
        0
    } else {
        count_present(present.drop_last()) + if present.last() {
            1nat
        } else {
            0nat
        }
    }
}

/// Every position of a region, `x` outer and `z` inner.
pub fn get_chunk_positions() -> (r: Vec<(usize, usize)>)
    ensures
        r@.len() == REGION_CHUNKS,
        forall|i: int| 0 <= i < REGION_CHUNKS ==> #[trigger] r@[i] == grid_position(i),
{
    let mut positions: Vec<(usize, usize)> = Vec::new();
    let mut x: usize = 0;
    while x < REGION_SIDE
        invariant
            x <= REGION_SIDE,
            positions@.len() == x * 32,
            forall|i: int| 0 <= i < x * 32 ==> #[trigger] positions@[i] == grid_position(i),
        decreases REGION_SIDE - x,
    {
        let mut z: usize = 0;
        while z < REGION_SIDE
            invariant
                x < REGION_SIDE,
                z <= REGION_SIDE,
                positions@.len() == x * 32 + z,
                forall|i: int| 0 <= i < x * 32 + z ==> #[trigger] positions@[i] == grid_position(i),
            decreases REGION_SIDE - z,
        {
            assert((x * 32 + z) / 32 == x && (x * 32 + z) % 32 == z) by (nonlinear_arith)
                requires
                    z < 32,
            ;
            positions.push((x, z));
            z = z + 1;
        }
        x = x + 1;
    }
    positions
}

/// The positions to write back into a rebuilt region, given which of the
/// grid positions hold a chunk (`present`, in grid order): exactly the
/// present ones, each once, in grid order.
pub fn chunks_to_write(present: &Vec<bool>) -> (r: Vec<(usize, usize)>)
    requires
        present@.len() == REGION_CHUNKS,
    ensures
        r@.len() == count_present(present@),
        forall|j: int|
            0 <= j < r@.len() ==> {
                &&& #[trigger] r@[j].0 < REGION_SIDE
                &&& r@[j].1 < REGION_SIDE
                &&& present@[grid_index(r@[j])]
            },
        forall|j: int, k: int|
            0 <= j < k < r@.len() ==> grid_index(#[trigger] r@[j]) < grid_index(#[trigger] r@[k]),
        forall|i: int|
            0 <= i < REGION_CHUNKS && #[trigger] present@[i] ==> exists|j: int|
                0 <= j < r@.len() && #[trigger] r@[j] == grid_position(i),
{
    let positions = get_chunk_positions();
    let mut r: Vec<(usize, usize)> = Vec::new();
    let mut i: usize = 0;
    while i < REGION_CHUNKS
        invariant
            i <= REGION_CHUNKS,
            present@.len() == REGION_CHUNKS,
            positions@.len() == REGION_CHUNKS,
            forall|n: int| 0 <= n < REGION_CHUNKS ==> #[trigger] positions@[n] == grid_position(n),
            r@.len() == count_present(present@.take(i as int)),
            forall|j: int|
                0 <= j < r@.len() ==> {
                    &&& #[trigger] r@[j].0 < REGION_SIDE
                    &&& r@[j].1 < REGION_SIDE
                    &&& 0 <= grid_index(r@[j]) < i
                    &&& present@[grid_index(r@[j])]
                },
            forall|j: int, k: int|
                0 <= j < k < r@.len() ==> grid_index(#[trigger] r@[j]) < grid_index(#[trigger] r@[k]),
            forall|n: int|
                0 <= n < i && #[trigger] present@[n] ==> exists|j: int|
                    0 <= j < r@.len() && #[trigger] r@[j] == grid_position(n),
        decreases REGION_CHUNKS - i,
    {
        assert(present@.take(i + 1).drop_last() =~= present@.take(i as int));
        let p = positions[i];
        assert(grid_index(p) == i && p.0 < 32 && p.1 < 32) by (nonlinear_arith)
            requires
                p == grid_position(i as int),
                i < 1024,
        ;
        if present[i] {
            let ghost old_r = r@;
            r.push(p);
            assert forall|n: int|
                0 <= n < i + 1 && #[trigger] present@[n] implies exists|j: int|
                    0 <= j < r@.len() && #[trigger] r@[j] == grid_position(n) by {
                if n < i {
                    let j = choose|j: int| 0 <= j < old_r.len() && #[trigger] old_r[j] == grid_position(n);
                    assert(r@[j] == grid_position(n));
                } else {
                    assert(r@[old_r.len() as int] == grid_position(n));
                }
            }
        }
        i = i + 1;
    }
    assert(present@.take(REGION_CHUNKS as int) =~= present@);
    r
}

#[verifier::external_type_specification]
#[verifier::external_body]
pub struct ExMcaError(mca::McaError);

/// A region file being assembled, chunk by chunk.
#[verifier::external_body]
pub struct RegionBuilder {
    writer: mca::RegionWriter<'static, ()>,
}

/// A region file that could not be read or written.
#[derive(Clone, Copy, Debug, PartialEq, Eq, Structural)]
pub enum RegionError {
    /// The header or a chunk of the file is malformed.
    Unreadable,
    /// The rebuilt file could not be produced.
    Unwritable,
}

/// What a region file holds at a position: `Some(None)` for an empty
/// position, `Some(Some(payload))` for a stored chunk, `None` when the file
/// or the chunk cannot be read.
pub uninterp spec fn region_chunk_of(region: Seq<u8>, x: u8, z: u8) -> Option<Option<Seq<u8>>>;

/// The payloads a region builder holds, by position.
pub uninterp spec fn builder_chunks(b: RegionBuilder) -> Map<(u8, u8), Seq<u8>>;

/// The chunks a region builder holds as stored, by position: compression
/// byte and compressed bytes, written back as they are.
pub uninterp spec fn builder_stored(b: RegionBuilder) -> Map<(u8, u8), (u8, Seq<u8>)>;

/// What a region file stores at a position before decompression: the
/// compression byte and the compressed bytes; `Some(None)` for an empty
/// position, `None` when the header or the chunk view is malformed.
pub uninterp spec fn region_stored_of(region: Seq<u8>, x: u8, z: u8) -> Option<
    Option<(u8, Seq<u8>)>,
>;

/// How many payloads have been set on a region builder; the writer counts
/// them in a `u16`.
pub uninterp spec fn builder_sets(b: RegionBuilder) -> nat;

/// The index of the header entry of `(x, z)`.
pub open spec fn header_at(x: u8, z: u8) -> int {
    4 * (x as int + z as int * 32)
}

/// Whether the chunk view of `(x, z)`, when the file has one, is long enough
/// for the name of a custom compression it announces (a first byte of 127 or
/// more). A view that is too short makes the region reader index past its end.
pub open spec fn chunk_view_safe(region: Seq<u8>, x: u8, z: u8) -> bool {
    let h = header_at(x, z);
    if region.len() < 8192 || x >= 32 || z >= 32 {
        true
    } else if region[h] == 0 && region[h + 1] == 0 && region[h + 2] == 0 && region[h + 3] == 0 {
        true
    } else {
        let offset = (region[h] as int * 65536 + region[h + 1] as int * 256 + region[h
            + 2] as int) * 4096;
        if region.len() < offset + 4 {
            true
        } else {
            let len = region[offset] as int * 16777216 + region[offset + 1] as int * 65536
                + region[offset + 2] as int * 256 + region[offset + 3] as int;
            if len == 0 || region.len() < offset + 4 + len {
                true
            } else {
                region[offset + 4] < 127 || 3 + region[offset + 5] as int * 256 + region[offset
                    + 6] as int <= len
            }
        }
    }
}

fn chunk_view_fits(region: &Vec<u8>, x: u8, z: u8) -> (r: bool)
    requires
        x < 32,
        z < 32,
    ensures
        r == chunk_view_safe(region@, x, z),
{
    let n = region.len();
    if n < 8192 {
        return true;
    }
    let h: usize = 4 * (x as usize + z as usize * 32);
    if region[h] == 0 && region[h + 1] == 0 && region[h + 2] == 0 && region[h + 3] == 0 {
        return true;
    }
    let offset: u64 = (region[h] as u64 * 65536 + region[h + 1] as u64 * 256 + region[h
        + 2] as u64) * 4096;
    if (n as u64) < offset + 4 {
        return true;
    }
    let o = offset as usize;
    let len: u64 = region[o] as u64 * 16777216 + region[o + 1] as u64 * 65536 + region[o + 2] as u64
        * 256 + region[o + 3] as u64;
    if len == 0 || (n as u64) < offset + 4 + len {
        return true;
    }
    region[o + 4] < 127 || (len >= 3 && 3 + region[o + 5] as u64 * 256 + region[o + 6] as u64
        <= len)
}

/// Relies on `mca::RegionReader::new` and `RegionReader::chunk`: the
/// decompressed payload stored at `(x, z)`, `None` for an empty position, an
/// error for a malformed header or chunk.
#[verifier::external_body]
fn region_chunk(region: &Vec<u8>, x: u8, z: u8) -> (r: Result<Option<Vec<u8>>, mca::McaError>)
    requires
        x < 32,
        z < 32,
        chunk_view_safe(region@, x, z),
    ensures
        match r {
            Ok(Some(c)) => region_chunk_of(region@, x, z) == Some(Some(c@)),
            Ok(None) => region_chunk_of(region@, x, z) == Some(None::<Seq<u8>>),
            Err(_) => region_chunk_of(region@, x, z) == None::<Option<Seq<u8>>>,
        },
{
    let mut reader = mca::RegionReader::new(&region[..])?;
    match reader.chunk(x, z)? {
        Some(c) => Ok(Some(c.to_vec())),
        None => Ok(None),
    }
}

/// Relies on `mca::RegionWriter::new`: a writer with no chunks.
#[verifier::external_body]
fn new_region_writer() -> (r: RegionBuilder)
    ensures
        forall|k: (u8, u8)| !(#[trigger] builder_chunks(r).contains_key(k)),
        forall|k: (u8, u8)| !(#[trigger] builder_stored(r).contains_key(k)),
        builder_sets(r) == 0,
{
    RegionBuilder { writer: mca::RegionWriter::new() }
}

/// Relies on `mca::RegionWriter::set_chunk`: stores a payload at `(x, z)`,
/// to be compressed with zlib, in place of any earlier one there.
#[verifier::external_body]
fn set_region_chunk(builder: &mut RegionBuilder, x: u8, z: u8, payload: Vec<u8>) -> (r: Result<
    (),
    mca::McaError,
>)
    requires
        x < 32,
        z < 32,
        builder_sets(*old(builder)) < 65535,
    ensures
        r is Ok,
        builder_chunks(*final(builder)) == builder_chunks(*old(builder)).insert((x, z), payload@),
        builder_sets(*final(builder)) == builder_sets(*old(builder)) + 1,
        builder_stored(*final(builder)) == builder_stored(*old(builder)).remove((x, z)),
{
    builder.writer.set_chunk(x, z, payload, mca::Compression::ZLib)
}

/// Relies on `mca::RegionReader::chunk_data`: the compression byte
/// (`Compression::to_u8`) and the compressed bytes stored at `(x, z)`.
#[verifier::external_body]
fn region_stored_chunk(region: &Vec<u8>, x: u8, z: u8) -> (r: Result<
    Option<(u8, Vec<u8>)>,
    mca::McaError,
>)
    requires
        x < 32,
        z < 32,
        chunk_view_safe(region@, x, z),
    ensures
        match r {
            Ok(Some(c)) => region_stored_of(region@, x, z) == Some(Some((c.0, c.1@))),
            Ok(None) => region_stored_of(region@, x, z) == Some(None::<(u8, Seq<u8>)>),
            Err(_) => region_stored_of(region@, x, z) == None::<Option<(u8, Seq<u8>)>>,
        },
{
    let reader = mca::RegionReader::new(&region[..])?;
    match reader.chunk_data(x, z)? {
        Some(c) => Ok(Some((c.compression.to_u8(), c.data.as_ref().to_vec()))),
        None => Ok(None),
    }
}

/// Relies on `mca::RegionWriter::chunk_mut` with a `WritableChunk` whose
/// data is `PendingData::new_compressed` (as `RegionReader::into_writer`
/// does): the chunk is written back with its bytes and compression as given,
/// in place of any payload set there. The setting does not count as a set.
#[verifier::external_body]
fn set_region_stored_chunk(
    builder: &mut RegionBuilder,
    x: u8,
    z: u8,
    compression: u8,
    data: Vec<u8>,
) -> (r: Result<(), mca::McaError>)
    requires
        x < 32,
        z < 32,
        1 <= compression <= 4,
    ensures
        r is Ok,
        builder_stored(*final(builder)) == builder_stored(*old(builder)).insert(
            (x, z),
            (compression, data@),
        ),
        builder_chunks(*final(builder)) == builder_chunks(*old(builder)).remove((x, z)),
        builder_sets(*final(builder)) == builder_sets(*old(builder)),
{
    *builder.writer.chunk_mut(x, z)? = Some(mca::write::WritableChunk {
        data: mca::write::PendingData::new_compressed(data, mca::Compression::from_u8(compression)),
        chunk: (x, z),
        timestamp: None,
    });
    Ok(())
}

/// Relies on `mca::RegionWriter::write` into a `Vec`: a region file from
/// which `RegionReader` reads back each non-empty payload at its position,
/// and nothing at the other positions.
#[verifier::external_body]
fn finish_region_writer(builder: RegionBuilder) -> (r: Result<Vec<u8>, mca::McaError>)
    ensures
        r is Ok,
        forall|x: u8, z: u8|
            x < 32 && z < 32 ==> {
                &&& (builder_chunks(builder).contains_key((x, z)) && builder_chunks(builder)[(
                x,
                z,
            )].len() > 0) ==> #[trigger] region_chunk_of(r->Ok_0@, x, z) == Some(
                    Some(builder_chunks(builder)[(x, z)]),
                )
                &&& (!builder_chunks(builder).contains_key((x, z)) && builder_stored(
                    builder,
                ).contains_key((x, z))) ==> region_stored_of(r->Ok_0@, x, z) == Some(
                    Some(builder_stored(builder)[(x, z)]),
                )
                &&& (!builder_chunks(builder).contains_key((x, z)) && !builder_stored(
                    builder,
                ).contains_key((x, z))) ==> region_chunk_of(r->Ok_0@, x, z) == Some(
                    None::<Seq<u8>>,
                )
            },
{
    let mut buf = Vec::new();
    builder.writer.write(&mut buf)?;
    Ok(buf)
}

pub open spec fn view_payload(c: Option<Vec<u8>>) -> Option<Seq<u8>> {
    match c {
        Some(p) => Some(p@),
        None => None,
    }
}

/// The model of one position's outcome: `None` when it could not be read.
pub open spec fn view_read(r: Result<Option<Vec<u8>>, RegionError>) -> Option<Option<Seq<u8>>> {
    match r {
        Ok(c) => Some(view_payload(c)),
        Err(_) => None,
    }
}

/// What reading `(x, z)` gives: the file's content there, or a failure where
/// the chunk view is too short for the reader.
pub open spec fn readable_chunk(region: Seq<u8>, x: u8, z: u8) -> Option<Option<Seq<u8>>> {
    if chunk_view_safe(region, x, z) {
        region_chunk_of(region, x, z)
    } else {
        None
    }
}

/// The payloads of a region file, one outcome for each position in grid
/// order, so that a position that cannot be read leaves the others readable.
pub fn read_region(region: &Vec<u8>) -> (r: Vec<Result<Option<Vec<u8>>, RegionError>>)
    ensures
        r@.len() == REGION_CHUNKS,
        forall|i: int|
            0 <= i < REGION_CHUNKS ==> view_read(#[trigger] r@[i]) == readable_chunk(
                region@,
                grid_position(i).0 as u8,
                grid_position(i).1 as u8,
            ),
{
    let positions = get_chunk_positions();
    let mut chunks: Vec<Result<Option<Vec<u8>>, RegionError>> = Vec::new();
    let mut i: usize = 0;
    while i < REGION_CHUNKS
        invariant
            i <= REGION_CHUNKS,
            positions@.len() == REGION_CHUNKS,
            forall|n: int| 0 <= n < REGION_CHUNKS ==> #[trigger] positions@[n] == grid_position(n),
            chunks@.len() == i,
            forall|n: int|
                0 <= n < i ==> view_read(#[trigger] chunks@[n]) == readable_chunk(
                    region@,
                    grid_position(n).0 as u8,
                    grid_position(n).1 as u8,
                ),
        decreases REGION_CHUNKS - i,
    {
        let (x, z) = positions[i];
        assert(x < 32 && z < 32) by (nonlinear_arith)
            requires
                (x, z) == grid_position(i as int),
                i < 1024,
        ;
        if !chunk_view_fits(region, x as u8, z as u8) {
            chunks.push(Err(RegionError::Unreadable));
        } else {
            match region_chunk(region, x as u8, z as u8) {
                Ok(c) => chunks.push(Ok(c)),
                Err(_) => chunks.push(Err(RegionError::Unreadable)),
            }
        }
        i = i + 1;
    }
    chunks
}

/// The payloads given for each position, a later one replacing an earlier one.
pub open spec fn payload_map(chunks: Seq<(usize, usize, Vec<u8>)>) -> Map<(u8, u8), Seq<u8>>
    decreases chunks.len(),
{
    if chunks.len() == 0 {
        Map::empty()
    } else {
        let c = chunks.last();
        payload_map(chunks.drop_last()).insert((c.0 as u8, c.1 as u8), c.2@)
    }
}

/// The stored chunks given for each position, a later one replacing an
/// earlier one.
pub open spec fn stored_map(stored: Seq<(usize, usize, u8, Vec<u8>)>) -> Map<
    (u8, u8),
    (u8, Seq<u8>),
>
    decreases stored.len(),
{
    if stored.len() == 0 {
        Map::empty()
    } else {
        let c = stored.last();
        stored_map(stored.drop_last()).insert((c.0 as u8, c.1 as u8), (c.2, c.3@))
    }
}

/// Builds a region file holding each payload at its position, and each
/// stored chunk, as it was stored, at a position given no payload; a later
/// entry for the same position replaces an earlier one.
pub fn write_region(
    chunks: Vec<(usize, usize, Vec<u8>)>,
    stored: Vec<(usize, usize, u8, Vec<u8>)>,
) -> (r: Result<Vec<u8>, RegionError>)
    requires
        chunks@.len() <= REGION_CHUNKS,
        forall|i: int|
            0 <= i < chunks@.len() ==> (#[trigger] chunks@[i]).0 < REGION_SIDE && chunks@[i].1
                < REGION_SIDE,
        forall|i: int|
            0 <= i < stored@.len() ==> {
                &&& (#[trigger] stored@[i]).0 < REGION_SIDE
                &&& stored@[i].1 < REGION_SIDE
                &&& 1 <= stored@[i].2 <= 4
            },
    ensures
        r is Ok,
        forall|x: u8, z: u8|
            x < 32 && z < 32 ==> {
                &&& (payload_map(chunks@).contains_key((x, z)) && payload_map(chunks@)[(
                x,
                z,
            )].len() > 0) ==> #[trigger] region_chunk_of(r->Ok_0@, x, z) == Some(
                    Some(payload_map(chunks@)[(x, z)]),
                )
                &&& (!payload_map(chunks@).contains_key((x, z)) && stored_map(
                    stored@,
                ).contains_key((x, z))) ==> region_stored_of(r->Ok_0@, x, z) == Some(
                    Some(stored_map(stored@)[(x, z)]),
                )
                &&& (!payload_map(chunks@).contains_key((x, z)) && !stored_map(
                    stored@,
                ).contains_key((x, z))) ==> region_chunk_of(r->Ok_0@, x, z) == Some(
                    None::<Seq<u8>>,
                )
            },
{
    let ghost orig = chunks@;
    let ghost sorig = stored@;
    let mut builder = new_region_writer();
    assert(builder_stored(builder) =~= stored_map(sorig.take(0)));
    let mut srest = stored;
    let ghost mut j: int = 0;
    while srest.len() > 0
        invariant
            0 <= j <= sorig.len(),
            srest@ == sorig.skip(j),
            builder_stored(builder) == stored_map(sorig.take(j)),
            forall|k: (u8, u8)| !(#[trigger] builder_chunks(builder).contains_key(k)),
            builder_sets(builder) == 0,
            forall|n: int|
                0 <= n < sorig.len() ==> {
                    &&& (#[trigger] sorig[n]).0 < REGION_SIDE
                    &&& sorig[n].1 < REGION_SIDE
                    &&& 1 <= sorig[n].2 <= 4
                },
        decreases srest.len(),
    {
        let ghost before = srest@;
        let (x, z, c, data) = srest.remove(0);
        assert(before[0] == sorig[j]);
        assert(sorig.take(j + 1).drop_last() =~= sorig.take(j));
        assert(sorig.take(j + 1).last() == sorig[j]);
        let _ = set_region_stored_chunk(&mut builder, x as u8, z as u8, c, data);
        proof {
            j = j + 1;
        }
        assert(srest@ =~= sorig.skip(j));
    }
    assert(sorig.take(j) =~= sorig);
    assert(builder_chunks(builder) =~= payload_map(orig.take(0)));
    assert(builder_stored(builder) =~= stored_map(sorig).remove_keys(
        payload_map(orig.take(0)).dom(),
    ));
    let mut rest = chunks;
    let ghost mut i: int = 0;
    while rest.len() > 0
        invariant
            0 <= i <= orig.len(),
            rest@ == orig.skip(i),
            builder_chunks(builder) == payload_map(orig.take(i)),
            builder_stored(builder) == stored_map(sorig).remove_keys(
                payload_map(orig.take(i)).dom(),
            ),
            builder_sets(builder) == i,
            orig.len() <= REGION_CHUNKS,
            forall|n: int| 0 <= n < orig.len() ==> (#[trigger] orig[n]).0 < REGION_SIDE && orig[n].1
                < REGION_SIDE,
        decreases rest.len(),
    {
        let ghost before = rest@;
        let (x, z, payload) = rest.remove(0);
        assert(before[0] == orig[i]);
        assert(orig.take(i + 1).drop_last() =~= orig.take(i));
        assert(orig.take(i + 1).last() == orig[i]);
        let _ = set_region_chunk(&mut builder, x as u8, z as u8, payload);
        proof {
            i = i + 1;
        }
        assert(builder_stored(builder) =~= stored_map(sorig).remove_keys(
            payload_map(orig.take(i)).dom(),
        ));
        assert(rest@ =~= orig.skip(i));
    }
    assert(orig.take(i) =~= orig);
    match finish_region_writer(builder) {
        Ok(bytes) => Ok(bytes),
        Err(_) => Err(RegionError::Unwritable),
    }
}

/// The stored form of the chunk at `(x, z)`, to carry it over unchanged into
/// a rebuilt file: present when the file can be read there and the chunk
/// uses one of the four standard compressions.
pub open spec fn carried_chunk(region: Seq<u8>, x: u8, z: u8) -> Option<(u8, Seq<u8>)> {
    if chunk_view_safe(region, x, z) {
        match region_stored_of(region, x, z) {
            Some(Some(c)) => if 1 <= c.0 <= 4 {
                Some(c)
            } else {
                None
            },
            _ => None,
        }
    } else {
        None
    }
}

/// The stored form of one chunk, when it can be carried over unchanged.
pub fn stored_chunk(region: &Vec<u8>, x: usize, z: usize) -> (r: Option<(u8, Vec<u8>)>)
    requires
        x < REGION_SIDE,
        z < REGION_SIDE,
    ensures
        match r {
            Some(c) => carried_chunk(region@, x as u8, z as u8) == Some((c.0, c.1@)),
            None => carried_chunk(region@, x as u8, z as u8) == None::<(u8, Seq<u8>)>,
        },
{
    if !chunk_view_fits(region, x as u8, z as u8) {
        return None;
    }
    match region_stored_chunk(region, x as u8, z as u8) {
        Ok(Some((c, data))) => if 1 <= c && c <= 4 {
            Some((c, data))
        } else {
            None
        },
        _ => None,
    }
}

} // verus!
