//! Voxel models in the chunked VOX format.
//!
//! A file starts with the four bytes `VOX ` and a version. Chunks follow:
//! each starts with an identifier of four bytes and two sizes of four
//! bytes. A `MAIN` chunk comes first, then an optional `PACK` chunk with
//! the number of models, then a `SIZE` and an `XYZI` chunk for every
//! model, then optional chunks, of which `RGBA` holds a palette.

use vstd::prelude::*;
use byteorder::{ByteOrder, LittleEndian};

verus! {

/// A point with three whole coordinates.
#[derive(Clone, Copy, Debug, PartialEq, Eq, Structural)]
pub struct Point3 {
    pub x: i32,
    pub y: i32,
    pub z: i32,
}

/// A point with four coordinates of one byte each.
#[derive(Clone, Copy, Debug, PartialEq, Eq, Structural)]
pub struct Point4 {
    pub x: u8,
    pub y: u8,
    pub z: u8,
    pub w: u8,
}

/// One voxel: where it is, and its colour as an index into the palette.
#[derive(Clone, Copy, Debug, PartialEq, Eq, Structural)]
pub struct Voxel {
    pub position: Point3,
    pub color: u8,
}

/// The voxels of one model.
#[derive(Debug)]
pub struct SubObject {
    pub voxels: Vec<Voxel>,
}

/// Why a file is no voxel model.
#[derive(Clone, Copy, Debug, PartialEq, Eq, Structural)]
pub enum VoxError {
    /// `length` bytes from `start` on were needed where only `total` are.
    TooShort { start: u64, length: u64, total: u64 },
    /// The byte at `position` is not that of the header `VOX `.
    BadHeader { position: u64 },
    /// A chunk gives a negative number of voxels or a negative size.
    NegativeLength,
    /// The first chunk is no `MAIN` chunk.
    ExpectedMain,
    /// A model does not start with a `SIZE` chunk.
    ExpectedSize,
    /// The `SIZE` chunk of a model is not followed by an `XYZI` chunk.
    ExpectedVoxels,
}

/// What a chunk holds.
pub enum Chunk {
    Main,
    /// The number of models in the file.
    Pack(i32),
    /// The extent of a model.
    Size(Point3),
    /// The voxels of a model.
    Voxels(Seq<Voxel>),
    /// The 256 colours of a palette.
    Palette(Seq<Point4>),
    /// A chunk of another kind, with its identifier.
    Unknown(Seq<u8>),
}

/// A chunk as it was read.
#[derive(Debug)]
pub enum ChunkType {
    Main,
    Pack(i32),
    Size(Point3),
    Voxels(SubObject),
    Palette(Vec<Point4>),
    Unknown(Vec<u8>),
}

impl View for ChunkType {
    type V = Chunk;

    open spec fn view(&self) -> Chunk {
        match self {
            ChunkType::Main => Chunk::Main,
            ChunkType::Pack(models) => Chunk::Pack(*models),
            ChunkType::Size(size) => Chunk::Size(*size),
            ChunkType::Voxels(sub_object) => Chunk::Voxels(sub_object.voxels@),
            ChunkType::Palette(colors) => Chunk::Palette(colors@),
            ChunkType::Unknown(id) => Chunk::Unknown(id@),
        }
    }
}

impl ChunkType {
    /// Whether this is anything but a `MAIN` chunk.
    pub fn is_not_main(&self) -> (other: bool)
        ensures
            other == !(self@ is Main),
    {
        match self {
            ChunkType::Main => false,
            _ => true,
        }
    }

    /// Whether this is anything but a `SIZE` chunk.
    pub fn is_not_size(&self) -> (other: bool)
        ensures
            other == !(self@ is Size),
    {
        match self {
            ChunkType::Size(_) => false,
            _ => true,
        }
    }
}

/// The identifier of the chunk that comes first.
pub open spec fn main_id() -> Seq<u8> {
    seq![77u8, 65u8, 73u8, 78u8]
}

/// The identifier of the chunk with the number of models.
pub open spec fn pack_id() -> Seq<u8> {
    seq![80u8, 65u8, 67u8, 75u8]
}

/// The identifier of the chunk with the extent of a model.
pub open spec fn size_id() -> Seq<u8> {
    seq![83u8, 73u8, 90u8, 69u8]
}

/// The identifier of the chunk with the voxels of a model.
pub open spec fn xyzi_id() -> Seq<u8> {
    seq![88u8, 89u8, 90u8, 73u8]
}

/// The identifier of the chunk with a palette.
pub open spec fn rgba_id() -> Seq<u8> {
    seq![82u8, 71u8, 66u8, 65u8]
}

/// The four bytes that every file starts with: `VOX `.
pub open spec fn header() -> Seq<u8> {
    seq![86u8, 79u8, 88u8, 32u8]
}

/// The four bytes from `at` on as an unsigned number, least byte first.
pub open spec fn le_u32(data: Seq<u8>, at: int) -> int {
    data[at] + data[at + 1] * 0x100 + data[at + 2] * 0x1_0000 + data[at + 3] * 0x100_0000
}

/// The four bytes from `at` on as a signed number in two's complement,
/// least byte first.
pub open spec fn le_i32(data: Seq<u8>, at: int) -> int {
    if le_u32(data, at) >= 0x8000_0000 {
        le_u32(data, at) - 0x1_0000_0000
    } else {
        le_u32(data, at)
    }
}

/// The voxel in the four bytes from `at` on: three coordinates and a
/// colour.
pub open spec fn voxel_at(data: Seq<u8>, at: int) -> Voxel {
    Voxel {
        position: Point3 { x: data[at] as i32, y: data[at + 1] as i32, z: data[at + 2] as i32 },
        color: data[at + 3],
    }
}

/// The `count` voxels that an `XYZI` chunk lists from its byte 16 on.
pub open spec fn voxels_of(data: Seq<u8>, count: int) -> Seq<Voxel> {
    Seq::new(count as nat, |k: int| voxel_at(data, 16 + 4 * k))
}

/// The colour with the number `slot` of the palette of an `RGBA` chunk.
/// The chunk lists red, green, blue and alpha of 256 colours from its byte
/// 12 on; the colour that it lists as number `i` takes the slot `i + 1`,
/// and the last one the slot 0. A colour holds alpha, blue, green and red,
/// in this order.
pub open spec fn palette_color(data: Seq<u8>, slot: int) -> Point4 {
    let at = 12 + 4 * ((slot + 255) % 256);
    Point4 { x: data[at + 3], y: data[at + 2], z: data[at + 1], w: data[at] }
}

/// The palette of an `RGBA` chunk.
pub open spec fn palette_of(data: Seq<u8>) -> Seq<Point4> {
    Seq::new(256, |slot: int| palette_color(data, slot))
}

/// What is wrong where `length` bytes from `start` on are needed of
/// `total`.
pub open spec fn too_short(start: int, length: int, total: int) -> VoxError {
    VoxError::TooShort { start: start as u64, length: length as u64, total: total as u64 }
}

/// The chunk that `data` starts with, and the number of bytes to the next
/// chunk.
#[verifier::opaque]
pub open spec fn chunk_at(data: Seq<u8>) -> Result<(Chunk, int), VoxError> {
    let total = data.len() as int;
    let id = data.subrange(0, 4);
    if total < 4 {
        Err(too_short(0, 4, total))
    } else if total < 12 {
        Err(too_short(4, 8, total))
    } else if id == main_id() {
        Ok((Chunk::Main, 12))
    } else if id == pack_id() {
        if total < 16 {
            Err(too_short(12, 4, total))
        } else {
            Ok((Chunk::Pack(le_i32(data, 12) as i32), 16))
        }
    } else if id == size_id() {
        if total < 24 {
            Err(too_short(12, 12, total))
        } else {
            Ok(
                (
                    Chunk::Size(
                        Point3 {
                            x: le_i32(data, 12) as i32,
                            y: le_i32(data, 16) as i32,
                            z: le_i32(data, 20) as i32,
                        },
                    ),
                    24,
                ),
            )
        }
    } else if id == xyzi_id() {
        if total < 16 {
            Err(too_short(12, 4, total))
        } else if le_i32(data, 12) < 0 {
            Err(VoxError::NegativeLength)
        } else if total < 16 + 4 * le_i32(data, 12) {
            Err(too_short(16, 4 * le_i32(data, 12), total))
        } else {
            Ok((Chunk::Voxels(voxels_of(data, le_i32(data, 12))), 16 + 4 * le_i32(data, 12)))
        }
    } else if id == rgba_id() {
        if total < 1036 {
            Err(too_short(12, 1024, total))
        } else {
            Ok((Chunk::Palette(palette_of(data)), 1036))
        }
    } else if le_i32(data, 4) < 0 {
        Err(VoxError::NegativeLength)
    } else {
        Ok((Chunk::Unknown(id), 12 + le_i32(data, 4)))
    }
}

/// Reads four bytes as a signed number, least byte first, with
/// `LittleEndian::read_i32` of the byteorder crate. That function takes the
/// first four bytes of the slice it is given, makes an unsigned number of
/// them with the least byte first and casts it to `i32`; it panics on fewer
/// than four bytes.
#[verifier::external_body]
fn read_i32(data: &[u8], at: usize) -> (value: i32)
    requires
        at + 4 <= data@.len(),
    ensures
        value == le_i32(data@, at as int),
{
    LittleEndian::read_i32(&data[at..at + 4])
}

/// Whether `length` bytes from `start` on lie within `data`; the error
/// says what is missing.
pub fn check_length(start: usize, length: usize, data: &[u8]) -> (res: Result<(), VoxError>)
    ensures
        start + length <= data@.len() ==> res is Ok,
        start + length > data@.len() ==> res == Err::<(), VoxError>(
            too_short(start as int, length as int, data@.len() as int),
        ),
{
    if start as u128 + length as u128 > data.len() as u128 {
        Err(VoxError::TooShort { start: start as u64, length: length as u64, total: data.len() as u64 })
    } else {
        Ok(())
    }
}

/// What is wrong with the first four bytes of `data` as a header, if
/// anything: the first byte that differs from `VOX `.
pub open spec fn header_error(data: Seq<u8>) -> Option<VoxError> {
    if data.len() < 4 {
        Some(too_short(0, 4, data.len() as int))
    } else if data[0] != header()[0] {
        Some(VoxError::BadHeader { position: 0 })
    } else if data[1] != header()[1] {
        Some(VoxError::BadHeader { position: 1 })
    } else if data[2] != header()[2] {
        Some(VoxError::BadHeader { position: 2 })
    } else if data[3] != header()[3] {
        Some(VoxError::BadHeader { position: 3 })
    } else {
        None
    }
}

/// Checks that `data` starts with the header `VOX `.
pub fn check_header(data: &[u8]) -> (res: Result<(), VoxError>)
    ensures
        res is Ok <==> header_error(data@) is None,
        res matches Err(e) ==> header_error(data@) == Some(e),
{
    match check_length(0, 4, data) {
        Err(e) => return Err(e),
        Ok(_) => {},
    }
    let expected: [u8; 4] = [86, 79, 88, 32];
    let mut i: usize = 0;
    while i < 4
        invariant
            i <= 4,
            data@.len() >= 4,
            expected@ == header(),
            forall|k: int| 0 <= k < i ==> data@[k] == header()[k],
        decreases 4 - i,
    {
        if expected[i] != data[i] {
            return Err(VoxError::BadHeader { position: i as u64 });
        }
        i += 1;
    }
    Ok(())
}

/// Whether `data` starts with the identifier `id`.
fn starts_with(data: &[u8], id: [u8; 4]) -> (same: bool)
    requires
        data@.len() >= 4,
    ensures
        same == (data@.subrange(0, 4) == id@),
{
    let mut i: usize = 0;
    while i < 4
        invariant
            i <= 4,
            data@.len() >= 4,
            forall|k: int| 0 <= k < i ==> data@[k] == id@[k],
        decreases 4 - i,
    {
        if data[i] != id[i] {
            assert(data@.subrange(0, 4)[i as int] != id@[i as int]);
            return false;
        }
        i += 1;
    }
    assert(data@.subrange(0, 4) =~= id@);
    true
}

/// The voxels that an `XYZI` chunk lists.
fn read_voxels(data: &[u8], count: usize) -> (voxels: Vec<Voxel>)
    requires
        16 + 4 * count <= data@.len(),
    ensures
        voxels@ == voxels_of(data@, count as int),
{
    let total = data.len();
    let mut voxels: Vec<Voxel> = Vec::new();
    let mut k: usize = 0;
    while k < count
        invariant
            k <= count,
            total == data@.len(),
            16 + 4 * count <= data@.len(),
            voxels@.len() == k,
            forall|v: int| 0 <= v < k ==> voxels@[v] == voxel_at(data@, 16 + 4 * v),
        decreases count - k,
    {
        let at = 16 + 4 * k;
        voxels.push(
            Voxel {
                position: Point3 {
                    x: data[at] as i32,
                    y: data[at + 1] as i32,
                    z: data[at + 2] as i32,
                },
                color: data[at + 3],
            },
        );
        k += 1;
    }
    assert(voxels@ =~= voxels_of(data@, count as int));
    voxels
}

/// The palette that an `RGBA` chunk lists.
fn read_palette(data: &[u8]) -> (colors: Vec<Point4>)
    requires
        1036 <= data@.len(),
    ensures
        colors@ == palette_of(data@),
{
    let mut colors: Vec<Point4> = Vec::new();
    let mut slot: usize = 0;
    while slot < 256
        invariant
            slot <= 256,
            1036 <= data@.len(),
            colors@.len() == slot,
            forall|s: int| 0 <= s < slot ==> colors@[s] == palette_color(data@, s),
        decreases 256 - slot,
    {
        let at = 12 + 4 * ((slot + 255) % 256);
        colors.push(Point4 { x: data[at + 3], y: data[at + 2], z: data[at + 1], w: data[at] });
        slot += 1;
    }
    assert(colors@ =~= palette_of(data@));
    colors
}

/// Whether `res` is what `chunk_at` says of `data`.
pub open spec fn is_chunk_at(data: Seq<u8>, res: Result<(ChunkType, usize), VoxError>) -> bool {
    match res {
        Ok((chunk, read)) => chunk_at(data) == Ok::<(Chunk, int), VoxError>((chunk@, read as int)),
        Err(e) => chunk_at(data) == Err::<(Chunk, int), VoxError>(e),
    }
}

/// Reads the chunk that `data` starts with, and says how many bytes lie
/// between its start and the next chunk.
pub fn parse_chunk(data: &[u8]) -> (res: Result<(ChunkType, usize), VoxError>)
    ensures
        is_chunk_at(data@, res),
{
    reveal(chunk_at);
    match check_length(0, 4, data) {
        Err(e) => return Err(e),
        Ok(_) => {},
    }
    match check_length(4, 8, data) {
        Err(e) => return Err(e),
        Ok(_) => {},
    }
    if starts_with(data, [77, 65, 73, 78]) {
        Ok((ChunkType::Main, 12))
    } else if starts_with(data, [80, 65, 67, 75]) {
        match check_length(12, 4, data) {
            Err(e) => return Err(e),
            Ok(_) => {},
        }
        Ok((ChunkType::Pack(read_i32(data, 12)), 16))
    } else if starts_with(data, [83, 73, 90, 69]) {
        match check_length(12, 12, data) {
            Err(e) => return Err(e),
            Ok(_) => {},
        }
        let x = read_i32(data, 12);
        let y = read_i32(data, 16);
        let z = read_i32(data, 20);
        Ok((ChunkType::Size(Point3 { x, y, z }), 24))
    } else if starts_with(data, [88, 89, 90, 73]) {
        match check_length(12, 4, data) {
            Err(e) => return Err(e),
            Ok(_) => {},
        }
        let voxel_count = read_i32(data, 12);
        if voxel_count < 0 {
            return Err(VoxError::NegativeLength);
        }
        let needed: u64 = 4 * (voxel_count as u64);
        if needed > (data.len() - 16) as u64 {
            return Err(
                VoxError::TooShort { start: 16, length: needed, total: data.len() as u64 },
            );
        }
        let count = voxel_count as usize;
        let voxels = read_voxels(data, count);
        Ok((ChunkType::Voxels(SubObject { voxels }), 16 + 4 * count))
    } else if starts_with(data, [82, 71, 66, 65]) {
        match check_length(12, 1024, data) {
            Err(e) => return Err(e),
            Ok(_) => {},
        }
        Ok((ChunkType::Palette(read_palette(data)), 1036))
    } else {
        let size = read_i32(data, 4);
        if size < 0 {
            return Err(VoxError::NegativeLength);
        }
        let mut id: Vec<u8> = Vec::new();
        id.push(data[0]);
        id.push(data[1]);
        id.push(data[2]);
        id.push(data[3]);
        assert(id@ =~= data@.subrange(0, 4));
        Ok((ChunkType::Unknown(id), 12 + size as usize))
    }
}

/// The colours of a model.
#[derive(Debug)]
pub struct Palette {
    pub colors: Vec<Point4>,
}

/// A voxel model: its sub-objects, its bounds, and its palette where the
/// file holds one.
#[derive(Debug)]
pub struct Object {
    pub objects: Vec<SubObject>,
    pub min_bounds: Point3,
    pub max_bounds: Point3,
    pub palette: Option<Palette>,
}

/// What a model holds: the voxels of every sub-object, and the colours of
/// the palette if there is one.
pub struct Model {
    pub objects: Seq<Seq<Voxel>>,
    pub palette: Option<Seq<Point4>>,
}

/// The voxels of every sub-object.
pub open spec fn voxels_of_all(objects: Seq<SubObject>) -> Seq<Seq<Voxel>> {
    Seq::new(objects.len(), |k: int| objects[k].voxels@)
}

impl View for Object {
    type V = Model;

    open spec fn view(&self) -> Model {
        Model {
            objects: voxels_of_all(self.objects@),
            palette: match self.palette {
                Some(palette) => Some(palette.colors@),
                None => None,
            },
        }
    }
}

/// The bytes of `data` from `at` on; none where `at` lies behind them.
pub open spec fn rest(data: Seq<u8>, at: int) -> Seq<u8> {
    if 0 <= at < data.len() {
        data.subrange(at, data.len() as int)
    } else {
        Seq::empty()
    }
}

/// The place `read` bytes behind `at`, or the end of `data` where that
/// lies behind it.
pub open spec fn advance(data: Seq<u8>, at: int, read: int) -> int {
    if at + read > data.len() {
        data.len() as int
    } else {
        at + read
    }
}

/// The models that follow `found`: `count` times a `SIZE` chunk and an
/// `XYZI` chunk, read from `at` on. Gives all models and the place behind
/// the last.
pub open spec fn models_from(data: Seq<u8>, at: int, count: int, found: Seq<Seq<Voxel>>) -> Result<
    (Seq<Seq<Voxel>>, int),
    VoxError,
>
    decreases count,
{
    if count <= 0 {
        Ok((found, at))
    } else {
        match chunk_at(rest(data, at)) {
            Err(e) => Err(e),
            Ok((Chunk::Size(_), read)) => {
                let then = advance(data, at, read);
                match chunk_at(rest(data, then)) {
                    Err(e) => Err(e),
                    Ok((Chunk::Voxels(voxels), read)) => models_from(
                        data,
                        advance(data, then, read),
                        count - 1,
                        found.push(voxels),
                    ),
                    Ok(_) => Err(VoxError::ExpectedVoxels),
                }
            },
            Ok(_) => Err(VoxError::ExpectedSize),
        }
    }
}

/// The palette of the last `RGBA` chunk among the chunks from `at` to the
/// end of `data`, or `found` where there is none.
pub open spec fn palette_from(data: Seq<u8>, at: int, found: Option<Seq<Point4>>) -> Result<
    Option<Seq<Point4>>,
    VoxError,
>
    decreases data.len() - at,
{
    if at < 0 || at >= data.len() {
        Ok(found)
    } else {
        match chunk_at(rest(data, at)) {
            Err(e) => Err(e),
            Ok((chunk, read)) => if advance(data, at, read) <= at {
                Ok(found)
            } else {
                palette_from(
                    data,
                    advance(data, at, read),
                    match chunk {
                        Chunk::Palette(colors) => Some(colors),
                        _ => found,
                    },
                )
            },
        }
    }
}

/// The model of the given sub-objects with the palette of the optional
/// chunks from `end` on.
pub open spec fn with_palette(data: Seq<u8>, objects: Seq<Seq<Voxel>>, end: int) -> Result<
    Model,
    VoxError,
> {
    match palette_from(data, end, None) {
        Err(e) => Err(e),
        Ok(palette) => Ok(Model { objects, palette }),
    }
}

/// The chunks of a file after its `MAIN` chunk, which ends at `at`: an
/// optional `PACK` chunk, the models (one without it), and the optional
/// chunks to the end.
pub open spec fn body_from(data: Seq<u8>, at: int) -> Result<Model, VoxError> {
    match chunk_at(rest(data, at)) {
        Err(e) => Err(e),
        Ok((chunk, read)) => {
            let (count, start) = match chunk {
                Chunk::Pack(count) => (count as int, advance(data, at, read)),
                _ => (1, at),
            };
            match models_from(data, start, count, Seq::empty()) {
                Err(e) => Err(e),
                Ok((objects, end)) => with_palette(data, objects, end),
            }
        },
    }
}

/// The model that the bytes of a file hold, or what is wrong with them.
pub open spec fn parsed_object(data: Seq<u8>) -> Result<Model, VoxError> {
    if header_error(data) is Some {
        Err(header_error(data)->Some_0)
    } else if data.len() < 12 {
        Err(too_short(4, 4, data.len() - 4))
    } else {
        match chunk_at(rest(data, 8)) {
            Err(e) => Err(e),
            Ok((Chunk::Main, read)) => body_from(data, advance(data, 8, read)),
            Ok(_) => Err(VoxError::ExpectedMain),
        }
    }
}

/// The number of models that a file announces behind its `MAIN` chunk,
/// which ends at `at`: that of its `PACK` chunk, none where that is
/// negative, and one where there is no such chunk.
pub open spec fn announced_models(data: Seq<u8>, at: int) -> int {
    match chunk_at(rest(data, at)) {
        Ok((Chunk::Pack(count), _)) => if count < 0 {
            0
        } else {
            count as int
        },
        _ => 1,
    }
}

/// Models that are read follow those that were found, and there are
/// `count` of them.
pub proof fn lemma_models_from(data: Seq<u8>, at: int, count: int, found: Seq<Seq<Voxel>>)
    ensures
        models_from(data, at, count, found) matches Ok((objects, _)) ==> {
            &&& objects.len() == found.len() + if count < 0 {
                0
            } else {
                count
            }
            &&& objects.take(found.len() as int) == found
        },
    decreases count,
{
    if count <= 0 {
        assert(found.take(found.len() as int) =~= found);
    } else {
        match chunk_at(rest(data, at)) {
            Ok((Chunk::Size(_), read)) => {
                let then = advance(data, at, read);
                match chunk_at(rest(data, then)) {
                    Ok((Chunk::Voxels(voxels), read)) => {
                        let next = found.push(voxels);
                        lemma_models_from(data, advance(data, then, read), count - 1, next);
                        match models_from(data, advance(data, then, read), count - 1, next) {
                            Ok((objects, _)) => {
                                assert(objects.take(found.len() as int) =~= objects.take(
                                    next.len() as int,
                                ).take(found.len() as int));
                                assert(next.take(found.len() as int) =~= found);
                            },
                            Err(_) => {},
                        }
                    },
                    _ => {},
                }
            },
            _ => {},
        }
    }
}

/// A file that holds a model holds as many sub-objects as it announces.
pub proof fn lemma_model_count(data: Seq<u8>)
    ensures
        parsed_object(data) matches Ok(model) ==> chunk_at(rest(data, 8)) matches Ok((_, read))
            && model.objects.len() == announced_models(data, advance(data, 8, read)),
{
    match chunk_at(rest(data, 8)) {
        Ok((Chunk::Main, read)) => {
            let at = advance(data, 8, read);
            match chunk_at(rest(data, at)) {
                Ok((chunk, read)) => {
                    let (count, start) = match chunk {
                        Chunk::Pack(count) => (count as int, advance(data, at, read)),
                        _ => (1, at),
                    };
                    lemma_models_from(data, start, count, Seq::empty());
                },
                Err(_) => {},
            }
        },
        _ => {},
    }
}

/// Every chunk takes at least twelve bytes.
pub proof fn lemma_chunk_advances(data: Seq<u8>)
    ensures
        chunk_at(data) matches Ok((_, read)) ==> read >= 12,
{
    reveal(chunk_at);
}

/// The chunk at `at`, and the place of the next.
fn next_chunk(bytes: &[u8], at: usize) -> (res: Result<(ChunkType, usize), VoxError>)
    requires
        at <= bytes@.len(),
    ensures
        match res {
            Ok((chunk, then)) => chunk_at(rest(bytes@, at as int)) matches Ok((c, read)) && c
                == chunk@ && then == advance(bytes@, at as int, read) && then <= bytes@.len(),
            Err(e) => chunk_at(rest(bytes@, at as int)) == Err::<(Chunk, int), VoxError>(e),
        },
{
    let total = bytes.len();
    let tail = &bytes[at..total];
    assert(tail@ =~= rest(bytes@, at as int));
    match parse_chunk(tail) {
        Err(e) => Err(e),
        Ok((chunk, read)) => {
            let then = if read > total - at {
                total
            } else {
                at + read
            };
            Ok((chunk, then))
        },
    }
}

/// Reads `count` models from `at` on: a `SIZE` chunk and an `XYZI` chunk
/// each. Gives them with the place behind the last.
fn read_models(bytes: &[u8], at: usize, count: i32) -> (res: Result<(Vec<SubObject>, usize), VoxError>)
    requires
        at <= bytes@.len(),
    ensures
        match res {
            Ok((objects, end)) => {
                &&& models_from(bytes@, at as int, count as int, Seq::empty()) == Ok::<
                    (Seq<Seq<Voxel>>, int),
                    VoxError,
                >((voxels_of_all(objects@), end as int))
                &&& end <= bytes@.len()
            },
            Err(e) => models_from(bytes@, at as int, count as int, Seq::empty()) == Err::<
                (Seq<Seq<Voxel>>, int),
                VoxError,
            >(e),
        },
{
    let mut objects: Vec<SubObject> = Vec::new();
    let mut place: usize = at;
    let mut model: i32 = 0;
    assert(voxels_of_all(objects@) =~= Seq::empty());
    while model < count
        invariant
            place <= bytes@.len(),
            0 <= model,
            count > 0 ==> model <= count,
            models_from(bytes@, at as int, count as int, Seq::empty()) == models_from(
                bytes@,
                place as int,
                count - model,
                voxels_of_all(objects@),
            ),
        decreases count - model,
    {
        let ghost found = voxels_of_all(objects@);
        let then = match next_chunk(bytes, place) {
            Err(e) => return Err(e),
            Ok((chunk, then)) => {
                if chunk.is_not_size() {
                    return Err(VoxError::ExpectedSize);
                }
                then
            },
        };
        match next_chunk(bytes, then) {
            Err(e) => return Err(e),
            Ok((chunk, after)) => match chunk {
                ChunkType::Voxels(sub_object) => {
                    assert(voxels_of_all(objects@.push(sub_object)) =~= found.push(
                        sub_object.voxels@,
                    ));
                    objects.push(sub_object);
                    place = after;
                },
                _ => return Err(VoxError::ExpectedVoxels),
            },
        }
        model += 1;
    }
    Ok((objects, place))
}

/// The colours of `palette`, if there is one.
pub open spec fn colors_of(palette: Option<Palette>) -> Option<Seq<Point4>> {
    match palette {
        Some(p) => Some(p.colors@),
        None => None,
    }
}

/// Reads the optional chunks from `at` to the end and gives the palette of
/// the last `RGBA` chunk among them.
fn read_optional(bytes: &[u8], at: usize) -> (res: Result<Option<Palette>, VoxError>)
    requires
        at <= bytes@.len(),
    ensures
        match res {
            Ok(palette) => palette_from(bytes@, at as int, None) == Ok::<
                Option<Seq<Point4>>,
                VoxError,
            >(colors_of(palette)),
            Err(e) => palette_from(bytes@, at as int, None) == Err::<Option<Seq<Point4>>, VoxError>(
                e,
            ),
        },
{
    let total = bytes.len();
    let mut place: usize = at;
    let mut palette: Option<Palette> = None;
    while place < total
        invariant
            total == bytes@.len(),
            place <= total,
            palette_from(bytes@, at as int, None) == palette_from(
                bytes@,
                place as int,
                colors_of(palette),
            ),
        decreases total - place,
    {
        proof {
            lemma_chunk_advances(rest(bytes@, place as int));
        }
        match next_chunk(bytes, place) {
            Err(e) => return Err(e),
            Ok((chunk, then)) => {
                match chunk {
                    ChunkType::Palette(colors) => {
                        palette = Some(Palette { colors });
                    },
                    _ => {},
                }
                place = then;
            },
        }
    }
    Ok(palette)
}

/// Reads a voxel model from the bytes of a file.
pub fn load(bytes: &[u8]) -> (res: Result<Object, VoxError>)
    ensures
        match res {
            Ok(object) => {
                &&& parsed_object(bytes@) == Ok::<Model, VoxError>(object@)
                &&& object.min_bounds == (Point3 { x: -1i32, y: -1i32, z: -1i32 })
                &&& object.max_bounds == (Point3 { x: 1, y: 1, z: 1 })
            },
            Err(e) => parsed_object(bytes@) == Err::<Model, VoxError>(e),
        },
        res matches Ok(object) ==> chunk_at(rest(bytes@, 8)) matches Ok((_, read))
            && object.objects.len() == announced_models(bytes@, advance(bytes@, 8, read)),
{
    proof {
        lemma_model_count(bytes@);
    }
    match check_header(bytes) {
        Err(e) => return Err(e),
        Ok(_) => {},
    }
    let total = bytes.len();
    if total < 12 {
        return Err(VoxError::TooShort { start: 4, length: 4, total: (total - 4) as u64 });
    }
    let body: usize = match next_chunk(bytes, 8) {
        Err(e) => return Err(e),
        Ok((chunk, then)) => {
            if chunk.is_not_main() {
                return Err(VoxError::ExpectedMain);
            }
            then
        },
    };
    let (model_count, start) = match next_chunk(bytes, body) {
        Err(e) => return Err(e),
        Ok((chunk, then)) => match chunk {
            ChunkType::Pack(count) => (count, then),
            _ => (1, body),
        },
    };
    let (objects, end) = match read_models(bytes, start, model_count) {
        Err(e) => return Err(e),
        Ok(read) => read,
    };
    let palette = match read_optional(bytes, end) {
        Err(e) => return Err(e),
        Ok(palette) => palette,
    };
    Ok(
        Object {
            objects,
            min_bounds: Point3 { x: -1, y: -1, z: -1 },
            max_bounds: Point3 { x: 1, y: 1, z: 1 },
            palette,
        },
    )
}

} // verus!
