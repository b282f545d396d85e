use vstd::prelude::*;

use crate::addresses::{
    at, MAP_HEADER_BANKS_BANK, MAP_HEADER_BANKS_OFFSET, MAP_HEADER_POINTERS_BANK,
    MAP_HEADER_POINTERS_OFFSET, MAP_TILESETS_BANK, MAP_TILESETS_OFFSET, MAP_WILD_PKMN_BANK,
    MAP_WILD_PKMN_OFFSET,
};
use crate::entities::{EntityData, EntityInfo};
use crate::hiddens::{HiddenInfo, HiddensIndex};
use crate::image::{
    ElementType, Image24bpp, Image2bpp, Marker, SpritePosition, BLOCK_PIXELS_1D, BLOCK_SIZE,
    TILE_SIZE,
};
use crate::reader::{
    advanced, can_advance, rom_u16, rom_u8, span_readable, Addr, BlobSlicer, Reader, RomError,
};
use crate::structures::{
    active_directions, entity_decoded, entity_width, read_records, table_entry, table_readable,
    HiddenEntry,
    MapConnection, MapEntity, MapHeader, MapSign, MapWarp, RomStructure, RomStructureTable,
    Tileset,
};
use crate::text::{append, command_text, get_text_command, hex2};
use crate::tiling::{blocks_to_map, tiles_to_4x4_rowmajor};
use crate::wild::WildPokemonsInfo;

verus! {

/// Compass direction of a connection.
#[derive(Debug, Clone, Copy, PartialEq, Eq, Structural)]
pub enum Orientation {
    E,
    W,
    S,
    N,
}

/// A world coordinate in sprite units (16x16 pixels).
#[derive(Default, Debug, Clone, Copy, PartialEq, Eq, Structural)]
pub struct SpriteCoords {
    pub x: i32,
    pub y: i32,
}

/// Signed value of an alignment byte.
pub open spec fn signed(b: u8) -> int {
    (b as i8) as int
}

/// Coordinate of the neighbour reached from `pos` through connection `con`
/// in direction `orient`, on a node of `h` x `w` blocks (a block is 2x2
/// sprites). North and West step back by the neighbour's extent; South and
/// East step forward by the current node's.
pub open spec fn neighbour_coords(
    pos: SpriteCoords,
    orient: Orientation,
    h: u8,
    w: u8,
    con: MapConnection,
) -> (int, int) {
    match orient {
        Orientation::N => (pos.x - signed(con.x_align), pos.y - (con.y_align + 1)),
        Orientation::S => (pos.x + signed(con.x_align), pos.y + 2 * h),
        Orientation::W => (pos.x - (con.x_align + 1), pos.y - signed(con.y_align)),
        Orientation::E => (pos.x + 2 * w, pos.y - signed(con.y_align)),
    }
}

proof fn lemma_neighbour_close(pos: SpriteCoords, o: Orientation, h: u8, w: u8, con: MapConnection)
    requires
        h <= 127 && w <= 127,
    ensures
        -256 <= neighbour_coords(pos, o, h, w, con).0 - pos.x <= 256,
        -256 <= neighbour_coords(pos, o, h, w, con).1 - pos.y <= 256,
{
    assert(-128 <= signed(con.x_align) <= 127);
    assert(-128 <= signed(con.y_align) <= 127);
    match o {
        Orientation::N => {},
        Orientation::S => {},
        Orientation::W => {},
        Orientation::E => {},
    }
}

/// The alignment bytes of a connection are consistent with its direction:
/// a South connection has no vertical alignment, an East one no horizontal.
pub open spec fn alignment_ok(orient: Orientation, con: MapConnection) -> bool {
    match orient {
        Orientation::S => con.y_align == 0,
        Orientation::E => con.x_align == 0,
        _ => true,
    }
}

pub open spec fn fits_i32(v: int) -> bool {
    i32::MIN <= v <= i32::MAX
}

impl SpriteCoords {
    /// The origin.
    pub fn new() -> (r: SpriteCoords)
        ensures
            r.x == 0,
            r.y == 0,
    {
        SpriteCoords { x: 0, y: 0 }
    }

    /// Coordinate of the neighbour reached through `con` in direction
    /// `orient`. Fails on alignment bytes that contradict the direction, and
    /// on a coordinate that leaves the 32-bit range.
    pub fn offset(&self, orient: Orientation, header: &MapHeader, con: &MapConnection) -> (r:
        Result<SpriteCoords, RomError>)
        ensures
            ({
                let (nx, ny) = neighbour_coords(*self, orient, header.h, header.w, *con);
                &&& r is Ok <==> alignment_ok(orient, *con) && fits_i32(nx) && fits_i32(ny)
                &&& r is Ok ==> r->Ok_0.x == nx && r->Ok_0.y == ny
                &&& r is Err ==> r->Err_0 == RomError::Consistency
            }),
    {
        let x = self.x as i64;
        let y = self.y as i64;
        let (nx, ny): (i64, i64) = match orient {
            Orientation::N => {
                let offset = con.x_align as i8 as i64;
                (x - offset, y - (con.y_align as i64 + 1))
            },
            Orientation::S => {
                if con.y_align != 0 {
                    return Err(RomError::Consistency);
                }
                let offset = con.x_align as i8 as i64;
                (x + offset, y + header.h as i64 * 2)
            },
            Orientation::W => {
                let offset = con.y_align as i8 as i64;
                (x - (con.x_align as i64 + 1), y - offset)
            },
            Orientation::E => {
                if con.x_align != 0 {
                    return Err(RomError::Consistency);
                }
                let offset = con.y_align as i8 as i64;
                (x + header.w as i64 * 2, y - offset)
            },
        };
        if nx < i32::MIN as i64 || nx > i32::MAX as i64 || ny < i32::MIN as i64 || ny
            > i32::MAX as i64 {
            return Err(RomError::Consistency);
        }
        Ok(SpriteCoords { x: nx as i32, y: ny as i32 })
    }
}

/// Bounding box of the placed nodes, in sprite units.
pub struct Boundaries {
    pub min: SpriteCoords,
    pub max: SpriteCoords,
}

impl Boundaries {
    /// An empty box: minimum at the largest value, maximum at the smallest.
    pub fn new() -> (r: Boundaries)
        ensures
            r.min.x == i32::MAX && r.min.y == i32::MAX,
            r.max.x == i32::MIN && r.max.y == i32::MIN,
    {
        Boundaries {
            min: SpriteCoords { x: i32::MAX, y: i32::MAX },
            max: SpriteCoords { x: i32::MIN, y: i32::MIN },
        }
    }

    /// Grows the box over a node at `pos` of `map_w` x `map_h` blocks.
    pub fn stretch(&mut self, pos: SpriteCoords, map_w: u8, map_h: u8)
        requires
            pos.x + 2 * map_w <= i32::MAX,
            pos.y + 2 * map_h <= i32::MAX,
        ensures
            final(self).min.x == min(old(self).min.x as int, pos.x as int),
            final(self).min.y == min(old(self).min.y as int, pos.y as int),
            final(self).max.x == max(old(self).max.x as int, pos.x + 2 * map_w),
            final(self).max.y == max(old(self).max.y as int, pos.y + 2 * map_h),
    {
        if pos.x < self.min.x {
            self.min.x = pos.x;
        }
        if pos.y < self.min.y {
            self.min.y = pos.y;
        }
        let ex = pos.x + 2 * map_w as i32;
        let ey = pos.y + 2 * map_h as i32;
        if ex > self.max.x {
            self.max.x = ex;
        }
        if ey > self.max.y {
            self.max.y = ey;
        }
    }
}

pub open spec fn min(a: int, b: int) -> int {
    if a < b {
        a
    } else {
        b
    }
}

pub open spec fn max(a: int, b: int) -> int {
    if a > b {
        a
    } else {
        b
    }
}

/// One slot of the memo table.
pub struct CacheElement<T>(pub Option<T>);

impl<T> CacheElement<T> {
    pub fn unwrap(&self) -> (r: &T)
        requires
            self.0 is Some,
        ensures
            *r == self.0->Some_0,
    {
        self.0.as_ref().unwrap()
    }
}

/// Number of ids in the table.
pub const CACHE_SLOTS: usize = 256;

/// Memo table from an 8-bit id to a value, filled at most once per id.
pub struct Cache<T> {
    pub data: Vec<CacheElement<T>>,
}

/// Number of empty slots.
pub open spec fn empty_slots<T>(s: Seq<CacheElement<T>>) -> nat
    decreases s.len(),
{
    if s.len() == 0 {
        0
    } else {
        empty_slots(s.drop_last()) + if s.last().0 is None {
            1nat
        } else {
            0nat
        }
    }
}

/// `b` keeps every filled slot of `a`, and its value.
pub open spec fn keeps_filled<T>(a: Seq<CacheElement<T>>, b: Seq<CacheElement<T>>) -> bool {
    &&& b.len() == a.len()
    &&& forall|i: int| 0 <= i < a.len() && (#[trigger] a[i]).0 is Some ==> b[i] == a[i]
}

proof fn lemma_empty_slots_fill<T>(s: Seq<CacheElement<T>>, i: int, v: CacheElement<T>)
    requires
        0 <= i < s.len(),
        s[i].0 is None,
        v.0 is Some,
    ensures
        empty_slots(s.update(i, v)) + 1 == empty_slots(s),
    decreases s.len(),
{
    let t = s.update(i, v);
    if i == s.len() - 1 {
        assert(t.drop_last() =~= s.drop_last());
    } else {
        lemma_empty_slots_fill(s.drop_last(), i, v);
        assert(t.drop_last() =~= s.drop_last().update(i, v));
    }
}

proof fn lemma_empty_slots_keep<T>(a: Seq<CacheElement<T>>, b: Seq<CacheElement<T>>)
    requires
        keeps_filled(a, b),
    ensures
        empty_slots(b) <= empty_slots(a),
    decreases a.len(),
{
    if a.len() > 0 {
        assert forall|i: int|
            0 <= i < a.drop_last().len() && (#[trigger] a.drop_last()[i]).0 is Some implies b.drop_last()[i]
            == a.drop_last()[i] by {
            assert(a.drop_last()[i] == a[i]);
        }
        lemma_empty_slots_keep(a.drop_last(), b.drop_last());
    }
}

impl<T> Cache<T> {
    pub open spec fn wf(&self) -> bool {
        self.data@.len() == CACHE_SLOTS
    }

    pub open spec fn filled(&self, key: int) -> bool {
        self.data@[key].0 is Some
    }

    /// A table with every slot empty.
    pub fn new() -> (r: Cache<T>)
        ensures
            r.wf(),
            forall|i: int| 0 <= i < CACHE_SLOTS ==> !r.filled(i),
    {
        let mut data: Vec<CacheElement<T>> = Vec::new();
        let mut i: usize = 0;
        while i < CACHE_SLOTS
            invariant
                i <= CACHE_SLOTS,
                data@.len() == i,
                forall|j: int| 0 <= j < i ==> (#[trigger] data@[j]).0 is None,
            decreases CACHE_SLOTS - i,
        {
            data.push(CacheElement(None));
            i = i + 1;
        }
        Cache { data }
    }

    /// The slot of `key`.
    pub fn entry(&self, key: u8) -> (r: &CacheElement<T>)
        requires
            self.wf(),
        ensures
            *r == self.data@[key as int],
    {
        &self.data[key as usize]
    }

    pub fn is_filled(&self, key: u8) -> (r: bool)
        requires
            self.wf(),
        ensures
            r == self.filled(key as int),
    {
        self.data[key as usize].0.is_some()
    }

    /// Fills an empty slot.
    pub fn fill(&mut self, key: u8, value: T)
        requires
            old(self).wf(),
            !old(self).filled(key as int),
        ensures
            final(self).wf(),
            final(self).data@ == old(self).data@.update(key as int, CacheElement(Some(value))),
            keeps_filled(old(self).data@, final(self).data@),
            empty_slots(final(self).data@) + 1 == empty_slots(old(self).data@),
    {
        proof {
            lemma_empty_slots_fill(self.data@, key as int, CacheElement(Some(value)));
        }
        self.data.set(key as usize, CacheElement(Some(value)));
    }
}


/// A decoded location: where its header lives, the header, its sub-tables
/// and the world coordinate it was first reached with.
pub struct ScannedMap {
    pub addr: Addr,
    pub header: MapHeader,
    pub connections: Vec<MapConnection>,
    pub warps: Vec<MapWarp>,
    pub signs: Vec<MapSign>,
    pub entities: Vec<MapEntity>,
    pub coords: SpriteCoords,
}

impl ScannedMap {
    /// Decodes the location whose header is at `addr`: the header, one
    /// connection per active direction right after it, then, through the
    /// extension pointer, the border tile, warps, signs and entities.
    /// Dimensions above 127 blocks are a format error.
    pub fn new(stream: &Vec<u8>, addr: Addr, coords: SpriteCoords) -> (r: Result<
        ScannedMap,
        RomError,
    >)
        ensures
            r is Ok <==> location_readable(stream@, addr),
            !span_readable(stream@, addr, 10) ==> r == Err::<ScannedMap, RomError>(
                RomError::Address,
            ),
            span_readable(stream@, addr, 10) && (MapHeader::decoded(stream@, addr).w > 127
                || MapHeader::decoded(stream@, addr).h > 127) ==> r == Err::<ScannedMap, RomError>(
                RomError::Format,
            ),
            r is Ok ==> ({
                let m = r->Ok_0;
                let s = stream@;
                let l = layout(s, addr);
                &&& m.addr == addr
                &&& m.coords == coords
                &&& m.header == MapHeader::decoded(s, addr)
                &&& m.connections@.len() == active_directions(m.header.connect_byte)
                &&& forall|i: int|
                    0 <= i < m.connections@.len() ==> #[trigger] m.connections@[i]
                        == MapConnection::decoded(s, advanced(advanced(addr, 10), i * 11))
                &&& m.warps@.len() == rom_u8(s, l.warps_count, 0)
                &&& forall|i: int|
                    0 <= i < m.warps@.len() ==> #[trigger] m.warps@[i] == MapWarp::decoded(
                        s,
                        advanced(advanced(l.warps_count, 1), i * 4),
                    )
                &&& m.signs@.len() == rom_u8(s, l.signs_count, 0)
                &&& forall|i: int|
                    0 <= i < m.signs@.len() ==> #[trigger] m.signs@[i] == MapSign::decoded(
                        s,
                        advanced(advanced(l.signs_count, 1), i * 3),
                    )
                &&& m.entities@.len() == rom_u8(s, l.entities_count, 0)
                &&& forall|i: int|
                    0 <= i < m.entities@.len() ==> #[trigger] m.entities@[i] == entity_decoded(
                        s,
                        entity_addr(s, advanced(l.entities_count, 1), i as nat),
                    )
            }),
    {
        let ghost s = stream@;
        let ghost l = layout(s, addr);
        let mut reader = Reader::new_at(stream, addr);
        let header = MapHeader::read(&mut reader)?;
        if header.w > 127 || header.h > 127 {
            return Err(RomError::Format);
        }
        let connections = read_records::<MapConnection>(&mut reader, header.n_cons())?;
        let data_addr = reader.read_u16()?;
        reader.seek(Addr::new(addr.bank, data_addr));
        reader.skip(1)?;
        let n_warps = reader.read_u8()?;
        let warps = read_records::<MapWarp>(&mut reader, n_warps)?;
        let n_signs = reader.read_u8()?;
        let signs = read_records::<MapSign>(&mut reader, n_signs)?;
        let n_entities = reader.read_u8()?;
        let ghost e0 = reader.addr;
        assert(e0 == advanced(l.entities_count, 1));
        let mut entities: Vec<MapEntity> = Vec::new();
        let mut i: u8 = 0;
        while i < n_entities
            invariant
                i <= n_entities,
                reader.stream == stream,
                s == stream@,
                l == layout(s, addr),
                e0 == advanced(l.entities_count, 1),
                n_entities == rom_u8(s, l.entities_count, 0),
                header == MapHeader::decoded(stream@, addr),
                header.w <= 127,
                header.h <= 127,
                span_readable(s, addr, 10),
                layout_prefix_readable(s, addr),
                reader.addr == entity_addr(s, e0, i as nat),
                entities@.len() == i,
                forall|j: int| 0 <= j < i ==> entity_readable(s, #[trigger] entity_addr(s, e0, j as nat)),
                forall|j: int|
                    0 <= j < i ==> #[trigger] entities@[j] == entity_decoded(s, entity_addr(s, e0, j as nat)),
                connections@.len() == active_directions(header.connect_byte),
                forall|j: int|
                    0 <= j < connections@.len() ==> #[trigger] connections@[j]
                        == MapConnection::decoded(s, advanced(advanced(addr, 10), j * 11)),
                warps@.len() == rom_u8(s, l.warps_count, 0),
                forall|j: int|
                    0 <= j < warps@.len() ==> #[trigger] warps@[j] == MapWarp::decoded(
                        s,
                        advanced(advanced(l.warps_count, 1), j * 4),
                    ),
                signs@.len() == rom_u8(s, l.signs_count, 0),
                forall|j: int|
                    0 <= j < signs@.len() ==> #[trigger] signs@[j] == MapSign::decoded(
                        s,
                        advanced(advanced(l.signs_count, 1), j * 3),
                    ),
            decreases n_entities - i,
        {
            let e = match MapEntity::read(&mut reader) {
                Ok(e) => e,
                Err(err) => {
                    let ghost j = i as int;
                    assert(!entity_readable(s, entity_addr(s, advanced(l.entities_count, 1), j as nat)));
                    assert(0 <= j < rom_u8(s, l.entities_count, 0));
                    assert(!location_readable(s, addr));
                    return Err(err);
                },
            };
            entities.push(e);
            i = i + 1;
        }
        assert(location_readable(s, addr));
        Ok(ScannedMap { addr, header, connections, warps, signs, entities, coords })
    }
}

/// Where the counted tables of a location start: the byte holding each
/// count, the records following it.
pub struct Layout {
    pub ext_ptr: Addr,
    pub warps_count: Addr,
    pub signs_count: Addr,
    pub entities_count: Addr,
}

/// The layout of the location whose header is at `addr`: the connections
/// follow the header, then the extension pointer; it points (in the
/// header's bank) at a border byte, then the warp count and warps, the sign
/// count and signs, the entity count and entities.
pub open spec fn layout(s: Seq<u8>, addr: Addr) -> Layout {
    let n = active_directions(MapHeader::decoded(s, addr).connect_byte);
    let ext_ptr = advanced(advanced(addr, 10), n * 11);
    let ext = at(addr.bank, rom_u16(s, ext_ptr, 0));
    let warps_count = advanced(ext, 1);
    let signs_count = advanced(advanced(warps_count, 1), rom_u8(s, warps_count, 0) * 4);
    let entities_count = advanced(advanced(signs_count, 1), rom_u8(s, signs_count, 0) * 3);
    Layout { ext_ptr, warps_count, signs_count, entities_count }
}

/// Address of entity `i` of a list that starts at `a`: each entity's width
/// depends on its kind byte.
pub open spec fn entity_addr(s: Seq<u8>, a: Addr, i: nat) -> Addr
    decreases i,
{
    if i == 0 {
        a
    } else {
        let p = entity_addr(s, a, (i - 1) as nat);
        advanced(p, entity_width(rom_u8(s, p, 5)))
    }
}

/// The entity record at `p` can be read.
pub open spec fn entity_readable(s: Seq<u8>, p: Addr) -> bool {
    span_readable(s, p, 6) && span_readable(s, p, entity_width(rom_u8(s, p, 5)))
}

/// Everything before the entities of the location at `addr` can be read,
/// and its dimensions are at most 127 blocks.
pub open spec fn layout_prefix_readable(s: Seq<u8>, addr: Addr) -> bool {
    let h = MapHeader::decoded(s, addr);
    let n = active_directions(h.connect_byte);
    let l = layout(s, addr);
    let ext = at(addr.bank, rom_u16(s, l.ext_ptr, 0));
    &&& span_readable(s, addr, 10)
    &&& h.w <= 127 && h.h <= 127
    &&& n > 0 ==> span_readable(s, advanced(addr, 10), n * 11)
    &&& span_readable(s, l.ext_ptr, 2)
    &&& can_advance(ext, 1)
    &&& span_readable(s, l.warps_count, 1)
    &&& rom_u8(s, l.warps_count, 0) > 0 ==> span_readable(
        s,
        advanced(l.warps_count, 1),
        rom_u8(s, l.warps_count, 0) * 4,
    )
    &&& span_readable(s, l.signs_count, 1)
    &&& rom_u8(s, l.signs_count, 0) > 0 ==> span_readable(
        s,
        advanced(l.signs_count, 1),
        rom_u8(s, l.signs_count, 0) * 3,
    )
    &&& span_readable(s, l.entities_count, 1)
}

/// The whole location at `addr` can be decoded: everything up to the
/// entities, then every entity in turn.
pub open spec fn location_readable(s: Seq<u8>, addr: Addr) -> bool {
    let l = layout(s, addr);
    &&& layout_prefix_readable(s, addr)
    &&& forall|j: int|
        0 <= j < rom_u8(s, l.entities_count, 0) ==> entity_readable(
            s,
            #[trigger] entity_addr(s, advanced(l.entities_count, 1), j as nat),
        )
}

/// Ids that end a walk without naming a location: "last overworld map" and
/// a special script target.
pub open spec fn is_sentinel(id: u8) -> bool {
    id == 0xed || id == 0xff
}

/// Address of the header of location `id`, from the bank and offset tables.
pub open spec fn node_addr(s: Seq<u8>, id: u8) -> Addr {
    at(
        table_entry::<u8>(s, at(MAP_HEADER_BANKS_BANK, MAP_HEADER_BANKS_OFFSET), id as int),
        table_entry::<u16>(s, at(MAP_HEADER_POINTERS_BANK, MAP_HEADER_POINTERS_OFFSET), id as int),
    )
}

/// Directions of the connections, in the order the connections are stored:
/// bits 3 down to 0 of the bitmask stand for North, South, West and East.
pub open spec fn active_orients(cb: u8) -> Seq<Orientation> {
    (if cb & 8 != 0 { seq![Orientation::N] } else { seq![] }) + (if cb & 4 != 0 {
        seq![Orientation::S]
    } else {
        seq![]
    }) + (if cb & 2 != 0 { seq![Orientation::W] } else { seq![] }) + (if cb & 1 != 0 {
        seq![Orientation::E]
    } else {
        seq![]
    })
}

/// Every location a node links to: warp targets first, then connections.
pub open spec fn link_targets(m: ScannedMap) -> Seq<u8> {
    m.warps@.map_values(|w: MapWarp| w.to_map) + m.connections@.map_values(
        |c: MapConnection| c.map_id,
    )
}

/// Every link of the location in slot `t` (if any) leads to a sentinel or
/// to a filled slot.
pub open spec fn closed(slots: Seq<CacheElement<ScannedMap>>, t: int) -> bool {
    slots[t].0 is Some ==> forall|j: int|
        0 <= j < link_targets(slots[t].0->Some_0).len() ==> is_sentinel(
            #[trigger] link_targets(slots[t].0->Some_0)[j],
        ) || slots[link_targets(slots[t].0->Some_0)[j] as int].0 is Some
}

/// Coordinate with which link `j` of location `m`, placed at `pos`, is
/// followed: the origin for a warp, the neighbour coordinate of its
/// direction for a connection.
pub open spec fn link_coords(m: ScannedMap, pos: SpriteCoords, j: int) -> (int, int) {
    let nw = m.warps@.len() as int;
    if j < nw {
        (0, 0)
    } else {
        neighbour_coords(
            pos,
            active_orients(m.header.connect_byte)[j - nw],
            m.header.h,
            m.header.w,
            m.connections@[j - nw],
        )
    }
}

/// The directions match the connections, and every connection's
/// alignment and neighbour coordinate are valid.
pub open spec fn links_fit(m: ScannedMap, pos: SpriteCoords) -> bool {
    &&& m.connections@.len() == active_orients(m.header.connect_byte).len()
    &&& forall|k: int|
        0 <= k < m.connections@.len() ==> alignment_ok(
            active_orients(m.header.connect_byte)[k],
            #[trigger] m.connections@[k],
        ) && fits_i32(link_coords(m, pos, m.warps@.len() + k).0) && fits_i32(
            link_coords(m, pos, m.warps@.len() + k).1,
        )
}

proof fn lemma_closed_keep(a: Seq<CacheElement<ScannedMap>>, b: Seq<CacheElement<ScannedMap>>, t: int)
    requires
        0 <= t < a.len(),
        keeps_filled(a, b),
        closed(a, t),
        a[t].0 is Some,
        a.len() == CACHE_SLOTS,
    ensures
        closed(b, t),
{
    assert(b[t] == a[t]);
    {
        let m = a[t].0->Some_0;
        assert forall|j: int| 0 <= j < link_targets(m).len() implies is_sentinel(
            #[trigger] link_targets(m)[j],
        ) || b[link_targets(m)[j] as int].0 is Some by {
            let u = link_targets(m)[j] as int;
            if !is_sentinel(link_targets(m)[j]) {
                assert(a[u].0 is Some);
                assert(b[u] == a[u]);
            }
        }
    }
}

/// Location `t` decodes: its table entries and its records can be read,
/// and each connection's alignment agrees with its direction.
pub open spec fn node_ok(s: Seq<u8>, t: u8) -> bool {
    let a = node_addr(s, t);
    let cb = MapHeader::decoded(s, a).connect_byte;
    &&& table_readable::<u8>(s, at(MAP_HEADER_BANKS_BANK, MAP_HEADER_BANKS_OFFSET), t as int)
    &&& table_readable::<u16>(s, at(MAP_HEADER_POINTERS_BANK, MAP_HEADER_POINTERS_OFFSET), t as int)
    &&& location_readable(s, a)
    &&& forall|k: int|
        0 <= k < active_directions(cb) ==> alignment_ok(
            active_orients(cb)[k],
            #[trigger] MapConnection::decoded(s, advanced(advanced(a, 10), k * 11)),
        )
}

/// Every location id of the image decodes.
pub open spec fn all_nodes_ok(s: Seq<u8>) -> bool {
    forall|t: u8| !is_sentinel(t) ==> #[trigger] node_ok(s, t)
}

/// A coordinate the walk can start from with `e` empty slots left: within
/// `2^30` of the origin, plus 256 for each location already decoded.
pub open spec fn start_fits(pos: SpriteCoords, e: int) -> bool {
    let b = 0x4000_0000 + 256 * (CACHE_SLOTS - e);
    -b <= pos.x <= b && -b <= pos.y <= b
}

proof fn lemma_empty_slots_le<T>(s: Seq<CacheElement<T>>)
    ensures
        empty_slots(s) <= s.len(),
    decreases s.len(),
{
    if s.len() > 0 {
        lemma_empty_slots_le(s.drop_last());
    }
}

/// Location `t` of `slots`, empty in `base`, was entered through a link of
/// another location that is filled in `slots` and was empty in `base`, with
/// that link's coordinate.
pub open spec fn entered_by_link(
    slots: Seq<CacheElement<ScannedMap>>,
    base: Seq<CacheElement<ScannedMap>>,
    t: int,
) -> bool {
    exists|u: int, j: int|
        #![trigger link_targets(slots[u].0->Some_0)[j]]
        0 <= u < CACHE_SLOTS && base[u].0 is None && slots[u].0 is Some && 0 <= j
            < link_targets(slots[u].0->Some_0).len() && link_targets(slots[u].0->Some_0)[j] == t
            && link_coords(slots[u].0->Some_0, slots[u].0->Some_0.coords, j) == (
            slots[t].0->Some_0.coords.x as int,
            slots[t].0->Some_0.coords.y as int,
        )
}

/// After `k` links of `m` (stored at `map_id`, placed at `pos`) were
/// followed: when `k > 0`, the first link's target, if it was new, holds
/// that link's coordinate.
pub open spec fn first_link_kept(
    slots: Seq<CacheElement<ScannedMap>>,
    entry: Seq<CacheElement<ScannedMap>>,
    m: ScannedMap,
    pos: SpriteCoords,
    map_id: u8,
    k: int,
) -> bool {
    let t = link_targets(m)[0];
    k > 0 && link_targets(m).len() > 0 && !is_sentinel(t) && t != map_id && entry[t as int].0 is None
        ==> slots[t as int].0 is Some && slots[t as int].0->Some_0.coords.x == link_coords(m, pos, 0).0
        && slots[t as int].0->Some_0.coords.y == link_coords(m, pos, 0).1
}

proof fn lemma_closed_step(
    entry: Seq<CacheElement<ScannedMap>>,
    before: Seq<CacheElement<ScannedMap>>,
    after: Seq<CacheElement<ScannedMap>>,
    map_id: int,
)
    requires
        entry.len() == CACHE_SLOTS,
        before.len() == CACHE_SLOTS,
        keeps_filled(before, after),
        forall|t: int|
            0 <= t < CACHE_SLOTS && (#[trigger] entry[t]).0 is None && t != map_id ==> closed(before, t),
        forall|t: int| 0 <= t < CACHE_SLOTS && (#[trigger] before[t]).0 is None ==> closed(after, t),
    ensures
        forall|t: int|
            0 <= t < CACHE_SLOTS && (#[trigger] entry[t]).0 is None && t != map_id ==> closed(after, t),
{
    assert forall|t: int|
        0 <= t < CACHE_SLOTS && (#[trigger] entry[t]).0 is None && t != map_id implies closed(after, t) by {
        if before[t].0 is Some {
            lemma_closed_keep(before, after, t);
        }
    }
}

proof fn lemma_entered_step(
    entry: Seq<CacheElement<ScannedMap>>,
    before: Seq<CacheElement<ScannedMap>>,
    after: Seq<CacheElement<ScannedMap>>,
    map_id: int,
    k: int,
    id: int,
    p: SpriteCoords,
)
    requires
        entry.len() == CACHE_SLOTS,
        keeps_filled(before, after),
        before.len() == CACHE_SLOTS,
        0 <= map_id < CACHE_SLOTS,
        entry[map_id].0 is None,
        before[map_id].0 is Some,
        forall|u: int| 0 <= u < CACHE_SLOTS && (#[trigger] entry[u]).0 is Some ==> before[u].0 is Some,
        forall|t: int|
            0 <= t < CACHE_SLOTS && (#[trigger] entry[t]).0 is None && t != map_id
                && before[t].0 is Some ==> entered_by_link(before, entry, t),
        forall|t: int|
            0 <= t < CACHE_SLOTS && (#[trigger] before[t]).0 is None && t != id
                && after[t].0 is Some ==> entered_by_link(after, before, t),
        0 <= k < link_targets(before[map_id].0->Some_0).len(),
        link_targets(before[map_id].0->Some_0)[k] == id,
        link_coords(before[map_id].0->Some_0, before[map_id].0->Some_0.coords, k) == (
            p.x as int,
            p.y as int,
        ),
        0 <= id < CACHE_SLOTS && before[id].0 is None && after[id].0 is Some ==> after[id].0->Some_0.coords == p,
    ensures
        forall|t: int|
            0 <= t < CACHE_SLOTS && (#[trigger] entry[t]).0 is None && t != map_id
                && after[t].0 is Some ==> entered_by_link(after, entry, t),
{
    assert forall|t: int|
        0 <= t < CACHE_SLOTS && (#[trigger] entry[t]).0 is None && t != map_id && after[t].0 is Some
            implies entered_by_link(after, entry, t) by {
        if before[t].0 is Some {
            let (u, j) = choose|u: int, j: int|
                #![trigger link_targets(before[u].0->Some_0)[j]]
                0 <= u < CACHE_SLOTS && entry[u].0 is None && before[u].0 is Some && 0 <= j
                    < link_targets(before[u].0->Some_0).len() && link_targets(before[u].0->Some_0)[j]
                    == t && link_coords(before[u].0->Some_0, before[u].0->Some_0.coords, j) == (
                    before[t].0->Some_0.coords.x as int,
                    before[t].0->Some_0.coords.y as int,
                );
            assert(after[u] == before[u]);
            assert(after[t] == before[t]);
            assert(link_targets(after[u].0->Some_0)[j] == t);
        } else if t == id {
            assert(after[map_id] == before[map_id]);
            assert(link_targets(after[map_id].0->Some_0)[k] == t);
        } else {
            let (u, j) = choose|u: int, j: int|
                #![trigger link_targets(after[u].0->Some_0)[j]]
                0 <= u < CACHE_SLOTS && before[u].0 is None && after[u].0 is Some && 0 <= j
                    < link_targets(after[u].0->Some_0).len() && link_targets(after[u].0->Some_0)[j]
                    == t && link_coords(after[u].0->Some_0, after[u].0->Some_0.coords, j) == (
                    after[t].0->Some_0.coords.x as int,
                    after[t].0->Some_0.coords.y as int,
                );
            assert(entry[u].0 is None);
            assert(link_targets(after[u].0->Some_0)[j] == t);
        }
    }
}

/// Walks the location graph from a root, decoding each location once.
pub struct MapsScanner<'a> {
    pub stream: &'a Vec<u8>,
    pub hiddens: HiddensIndex,
    pub maps: Cache<ScannedMap>,
}

impl<'a> MapsScanner<'a> {
    /// The slots of the memo table.
    pub open spec fn slots(&self) -> Seq<CacheElement<ScannedMap>> {
        self.maps.data@
    }

    pub fn new(stream: &'a Vec<u8>) -> (r: Result<MapsScanner<'a>, RomError>)
        ensures
            r is Ok ==> r->Ok_0.stream == stream && r->Ok_0.maps.wf() && forall|i: int|
                0 <= i < CACHE_SLOTS ==> !r->Ok_0.maps.filled(i),
    {
        Ok(MapsScanner { stream, hiddens: HiddensIndex::new(stream)?, maps: Cache::new() })
    }

    /// Directions of the connections of a header, in storage order.
    pub fn orientations(header: &MapHeader) -> (r: Vec<Orientation>)
        ensures
            r@ == active_orients(header.connect_byte),
    {
        let cb = header.connect_byte;
        let mut orients: Vec<Orientation> = Vec::new();
        if cb & 8 != 0 {
            orients.push(Orientation::N);
        }
        if cb & 4 != 0 {
            orients.push(Orientation::S);
        }
        if cb & 2 != 0 {
            orients.push(Orientation::W);
        }
        if cb & 1 != 0 {
            orients.push(Orientation::E);
        }
        assert(orients@ =~= active_orients(cb));
        orients
    }

    /// Visits location `map_id`, reached with coordinate `pos`. A sentinel id
    /// or a location already in the memo table is a no-op. Otherwise the
    /// location is decoded, stored with `pos`, and every warp target (with a
    /// fresh origin) and every connection (with the neighbour coordinate of
    /// its direction) is visited in turn.
    #[verifier::spinoff_prover]
    #[verifier::rlimit(50)]
    pub fn recursive_scan(&mut self, map_id: u8, pos: SpriteCoords) -> (r: Result<(), RomError>)
        requires
            old(self).maps.wf(),
        ensures
            final(self).maps.wf(),
            final(self).stream == old(self).stream,
            keeps_filled(old(self).slots(), final(self).slots()),
            is_sentinel(map_id) || old(self).maps.filled(map_id as int) ==> r is Ok
                && final(self).slots() == old(self).slots(),
            r is Ok && !is_sentinel(map_id) ==> final(self).maps.filled(map_id as int),
            r is Ok && !is_sentinel(map_id) && !old(self).maps.filled(map_id as int) ==> ({
                let m = final(self).slots()[map_id as int].0->Some_0;
                &&& m.coords == pos
                &&& m.addr == node_addr(old(self).stream@, map_id)
                &&& m.header == MapHeader::decoded(old(self).stream@, m.addr)
                &&& m.connections@.len() == active_orients(m.header.connect_byte).len()
                &&& forall|j: int|
                    0 <= j < link_targets(m).len() ==> is_sentinel(#[trigger] link_targets(m)[j])
                        || final(self).maps.filled(link_targets(m)[j] as int)
                &&& links_fit(m, pos)
            }),
            r is Ok ==> forall|t: int|
                0 <= t < CACHE_SLOTS && (#[trigger] old(self).slots()[t]).0 is None ==> closed(
                    final(self).slots(),
                    t,
                ),
            all_nodes_ok(old(self).stream@) && start_fits(pos, empty_slots(old(self).slots()) as int)
                ==> r is Ok,
            r is Ok && !is_sentinel(map_id) && !old(self).maps.filled(map_id as int) ==> ({
                // The first link is followed first: its target, when new, is
                // entered with that link's coordinate.
                let m = final(self).slots()[map_id as int].0->Some_0;
                let t = link_targets(m)[0];
                link_targets(m).len() > 0 && !is_sentinel(t) && t != map_id && !old(self).maps.filled(
                    t as int,
                ) ==> final(self).slots()[t as int].0->Some_0.coords.x == link_coords(m, pos, 0).0
                    && final(self).slots()[t as int].0->Some_0.coords.y == link_coords(m, pos, 0).1
            }),
            r is Ok ==> forall|t: int|
                0 <= t < CACHE_SLOTS && (#[trigger] old(self).slots()[t]).0 is None && t != map_id
                    && final(self).slots()[t].0 is Some ==> entered_by_link(
                    final(self).slots(),
                    old(self).slots(),
                    t,
                ),
        decreases empty_slots(old(self).slots()),
    {
        if map_id == 0xed || map_id == 0xff {
            return Ok(());
        }
        if self.maps.is_filled(map_id) {
            return Ok(());
        }
        let table_banks = RomStructureTable::<u8>::new_at(
            self.stream,
            Addr::new(MAP_HEADER_BANKS_BANK, MAP_HEADER_BANKS_OFFSET),
        );
        let table_addrs = RomStructureTable::<u16>::new_at(
            self.stream,
            Addr::new(MAP_HEADER_POINTERS_BANK, MAP_HEADER_POINTERS_OFFSET),
        );
        proof {
            if all_nodes_ok(self.stream@) {
                assert(node_ok(self.stream@, map_id));
            }
        }
        let header_bank = table_banks.entry_at(map_id)?;
        let header_addr = table_addrs.entry_at(map_id)?;
        let addr = Addr::new(header_bank, header_addr);
        let ghost good = all_nodes_ok(self.stream@) && start_fits(pos, empty_slots(self.slots()) as int);
        let ghost e_entry = empty_slots(self.slots()) as int;
        proof {
            lemma_empty_slots_le(self.slots());
            if good {
                assert(node_ok(self.stream@, map_id));
            }
        }
        let node = ScannedMap::new(self.stream, addr, pos)?;

        // The masks are in the reverse order of the declared directions.
        let orients = Self::orientations(&node.header);
        if orients.len() != node.connections.len() {
            return Err(RomError::Consistency);
        }

        // Warps (doors) lead to a fresh origin; connections stitch the
        // neighbour next to this location.
        let mut links: Vec<(u8, SpriteCoords)> = Vec::new();
        let mut k: usize = 0;
        while k < node.warps.len()
            invariant
                self.maps.wf(),
                self.stream == old(self).stream,
                self.slots() == old(self).slots(),
                !is_sentinel(map_id),
                !old(self).maps.filled(map_id as int),
                good == (all_nodes_ok(self.stream@) && start_fits(pos, e_entry)),
                e_entry == empty_slots(old(self).slots()) as int,
                e_entry <= CACHE_SLOTS,
                good ==> node_ok(self.stream@, map_id),
                addr == node_addr(self.stream@, map_id),
                node.header == MapHeader::decoded(self.stream@, addr),
                node.header.w <= 127 && node.header.h <= 127,
                node.connections@.len() == active_directions(node.header.connect_byte),
                forall|i: int|
                    0 <= i < node.connections@.len() ==> #[trigger] node.connections@[i]
                        == MapConnection::decoded(self.stream@, advanced(advanced(addr, 10), i * 11)),
                k <= node.warps@.len(),
                links@.len() == k,
                forall|j: int| 0 <= j < k ==> (#[trigger] links@[j]).0 == node.warps@[j].to_map,
                forall|j: int| 0 <= j < k ==> (#[trigger] links@[j]).1 == (SpriteCoords { x: 0, y: 0 }),
            decreases node.warps@.len() - k,
        {
            links.push((node.warps[k].to_map, SpriteCoords::new()));
            k = k + 1;
        }
        let n_warps = node.warps.len();
        k = 0;
        while k < node.connections.len()
            invariant
                self.maps.wf(),
                self.stream == old(self).stream,
                self.slots() == old(self).slots(),
                !is_sentinel(map_id),
                !old(self).maps.filled(map_id as int),
                good == (all_nodes_ok(self.stream@) && start_fits(pos, e_entry)),
                e_entry == empty_slots(old(self).slots()) as int,
                e_entry <= CACHE_SLOTS,
                good ==> node_ok(self.stream@, map_id),
                addr == node_addr(self.stream@, map_id),
                node.header == MapHeader::decoded(self.stream@, addr),
                node.header.w <= 127 && node.header.h <= 127,
                node.connections@.len() == active_directions(node.header.connect_byte),
                forall|i: int|
                    0 <= i < node.connections@.len() ==> #[trigger] node.connections@[i]
                        == MapConnection::decoded(self.stream@, advanced(advanced(addr, 10), i * 11)),
                forall|j: int|
                    0 <= j < n_warps + k ==> -256 <= (#[trigger] links@[j]).1.x - pos.x <= 256 || links@[j].1
                        == (SpriteCoords { x: 0, y: 0 }),
                forall|j: int|
                    0 <= j < n_warps + k ==> -256 <= (#[trigger] links@[j]).1.y - pos.y <= 256 || links@[j].1
                        == (SpriteCoords { x: 0, y: 0 }),
                k <= node.connections@.len(),
                orients@.len() == node.connections@.len(),
                n_warps == node.warps@.len(),
                links@.len() == n_warps + k,
                forall|j: int| 0 <= j < n_warps ==> (#[trigger] links@[j]).0 == node.warps@[j].to_map,
                forall|j: int| 0 <= j < n_warps ==> (#[trigger] links@[j]).1 == (SpriteCoords { x: 0, y: 0 }),
                forall|j: int|
                    0 <= j < k ==> (#[trigger] links@[n_warps + j]).0 == node.connections@[j].map_id,
                orients@ == active_orients(node.header.connect_byte),
                forall|j: int|
                    0 <= j < k ==> alignment_ok(orients@[j], #[trigger] node.connections@[j])
                        && fits_i32(link_coords(node, pos, n_warps + j).0) && fits_i32(
                        link_coords(node, pos, n_warps + j).1,
                    ) && links@[n_warps + j].1.x == link_coords(node, pos, n_warps + j).0
                        && links@[n_warps + j].1.y == link_coords(node, pos, n_warps + j).1,
            decreases node.connections@.len() - k,
        {
            proof {
                if good {
                    assert(node.connections@[k as int] == MapConnection::decoded(
                        self.stream@,
                        advanced(advanced(addr, 10), k * 11),
                    ));
                }
            }
            proof {
                lemma_neighbour_close(pos, orients@[k as int], node.header.h, node.header.w, node.connections@[k as int]);
            }
            let p = pos.offset(orients[k], &node.header, &node.connections[k])?;
            links.push((node.connections[k].map_id, p));
            k = k + 1;
        }
        let ghost targets = link_targets(node);
        assert forall|j: int| 0 <= j < links@.len() implies (#[trigger] links@[j]).0 == targets[j] by {
            if j >= n_warps {
                assert(links@[n_warps + (j - n_warps)] == links@[j]);
            }
        }
        assert(links@.len() == targets.len());

        let ghost entry_slots = self.slots();
        let ghost node_g = node;
        assert(links_fit(node_g, pos));
        self.maps.fill(map_id, node);
        let ghost filled_slots = self.slots();
        k = 0;
        while k < links.len()
            invariant
                self.maps.wf(),
                self.stream == old(self).stream,
                keeps_filled(filled_slots, self.slots()),
                keeps_filled(entry_slots, filled_slots),
                filled_slots[map_id as int].0 is Some,
                empty_slots(self.slots()) < empty_slots(entry_slots),
                entry_slots == old(self).slots(),
                !is_sentinel(map_id),
                !old(self).maps.filled(map_id as int),
                links@.len() == targets.len(),
                k <= links@.len(),
                forall|j: int| 0 <= j < links@.len() ==> (#[trigger] links@[j]).0 == targets[j],
                forall|j: int|
                    0 <= j < k ==> is_sentinel(#[trigger] targets[j]) || self.maps.filled(
                        targets[j] as int,
                    ),
                forall|t: int|
                    0 <= t < CACHE_SLOTS && (#[trigger] entry_slots[t]).0 is None && t != map_id
                        ==> closed(self.slots(), t),
                filled_slots[map_id as int].0->Some_0 == node_g,
                good == (all_nodes_ok(self.stream@) && start_fits(pos, e_entry)),
                e_entry == empty_slots(entry_slots) as int,
                e_entry <= CACHE_SLOTS,
                forall|j: int|
                    0 <= j < links@.len() ==> -256 <= (#[trigger] links@[j]).1.x - pos.x <= 256 || links@[j].1
                        == (SpriteCoords { x: 0, y: 0 }),
                forall|j: int|
                    0 <= j < links@.len() ==> -256 <= (#[trigger] links@[j]).1.y - pos.y <= 256 || links@[j].1
                        == (SpriteCoords { x: 0, y: 0 }),
                targets == link_targets(node_g),
                links_fit(node_g, pos),
                node_g.coords == pos,
                forall|j: int|
                    0 <= j < links@.len() ==> link_coords(node_g, pos, j) == (
                        (#[trigger] links@[j]).1.x as int,
                        links@[j].1.y as int,
                    ),
                forall|t: int|
                    0 <= t < CACHE_SLOTS && (#[trigger] entry_slots[t]).0 is None && t != map_id
                        && self.slots()[t].0 is Some ==> entered_by_link(self.slots(), entry_slots, t),
                first_link_kept(self.slots(), entry_slots, node_g, pos, map_id, k as int),
                k == 0 ==> self.slots() == filled_slots,
                filled_slots == entry_slots.update(map_id as int, CacheElement(Some(node_g))),
            decreases links@.len() - k,
        {
            let (id, p) = links[k];
            let ghost before = self.slots();
            proof {
                if good {
                    assert(start_fits(p, empty_slots(before) as int));
                }
            }
            self.recursive_scan(id, p)?;
            proof {
                let after = self.slots();
                assert(after[map_id as int] == filled_slots[map_id as int]);
                let t0 = targets[0];
                if !is_sentinel(t0) && t0 != map_id && entry_slots[t0 as int].0 is None {
                    if k == 0 {
                        assert(before[t0 as int] == filled_slots[t0 as int]);
                        assert(id == t0);
                        assert(after[t0 as int].0->Some_0.coords == p);
                    } else {
                        assert(before[t0 as int].0 is Some);
                        assert(after[t0 as int] == before[t0 as int]);
                    }
                }
                assert(first_link_kept(after, entry_slots, node_g, pos, map_id, k + 1));
                assert forall|u: int|
                    0 <= u < CACHE_SLOTS && (#[trigger] entry_slots[u]).0 is Some implies before[u].0 is Some by {
                    assert(filled_slots[u] == entry_slots[u]);
                }
                lemma_entered_step(entry_slots, before, after, map_id as int, k as int, id as int, p);
                lemma_closed_step(entry_slots, before, self.slots(), map_id as int);
                lemma_empty_slots_keep(before, self.slots());
                assert forall|j: int|
                    0 <= j < k + 1 implies is_sentinel(#[trigger] targets[j]) || self.maps.filled(
                        targets[j] as int,
                    ) by {
                    if j < k && !is_sentinel(targets[j]) {
                        assert(before[targets[j] as int].0 is Some);
                    }
                }
                assert forall|i: int|
                    0 <= i < filled_slots.len() && (#[trigger] filled_slots[i]).0 is Some implies self.slots()[i]
                    == filled_slots[i] by {
                    assert(before[i] == filled_slots[i]);
                }
            }
            k = k + 1;
        }
        proof {
            assert forall|i: int|
                0 <= i < entry_slots.len() && (#[trigger] entry_slots[i]).0 is Some implies self.slots()[i]
                == entry_slots[i] by {
                assert(filled_slots[i] == entry_slots[i]);
            }
            assert(self.slots()[map_id as int] == filled_slots[map_id as int]);
            assert(closed(self.slots(), map_id as int));
        }
        Ok(())
    }
}


/// A location's place in the overworld: its coordinate (none for locations
/// reached only through warps) and its size in blocks.
#[derive(Debug, Clone, Copy, PartialEq, Eq, Structural)]
pub struct Placement {
    pub coords: Option<SpriteCoords>,
    pub width: u8,
    pub height: u8,
}

/// Smallest x of the placed locations (`i32::MAX` when none is placed).
pub open spec fn bbox_min_x(s: Seq<Placement>) -> int
    decreases s.len(),
{
    if s.len() == 0 {
        i32::MAX as int
    } else {
        let r = bbox_min_x(s.drop_last());
        match s.last().coords {
            Some(c) => min(r, c.x as int),
            None => r,
        }
    }
}

/// Smallest y of the placed locations.
pub open spec fn bbox_min_y(s: Seq<Placement>) -> int
    decreases s.len(),
{
    if s.len() == 0 {
        i32::MAX as int
    } else {
        let r = bbox_min_y(s.drop_last());
        match s.last().coords {
            Some(c) => min(r, c.y as int),
            None => r,
        }
    }
}

/// Largest right edge (x plus width in sprites) of the placed locations.
pub open spec fn bbox_max_x(s: Seq<Placement>) -> int
    decreases s.len(),
{
    if s.len() == 0 {
        i32::MIN as int
    } else {
        let r = bbox_max_x(s.drop_last());
        match s.last().coords {
            Some(c) => max(r, c.x + 2 * s.last().width),
            None => r,
        }
    }
}

/// Largest bottom edge of the placed locations.
pub open spec fn bbox_max_y(s: Seq<Placement>) -> int
    decreases s.len(),
{
    if s.len() == 0 {
        i32::MIN as int
    } else {
        let r = bbox_max_y(s.drop_last());
        match s.last().coords {
            Some(c) => max(r, c.y + 2 * s.last().height),
            None => r,
        }
    }
}

/// Some location is placed.
pub open spec fn any_placed(s: Seq<Placement>) -> bool {
    exists|i: int| 0 <= i < s.len() && (#[trigger] s[i]).coords is Some
}

/// Every placed coordinate lies within 2^29 of the origin.
pub open spec fn moderate(s: Seq<Placement>) -> bool {
    forall|i: int|
        0 <= i < s.len() && (#[trigger] s[i]).coords is Some ==> -0x2000_0000 <= s[i].coords->Some_0.x
            <= 0x2000_0000 && -0x2000_0000 <= s[i].coords->Some_0.y <= 0x2000_0000
}

proof fn lemma_bbox_prefix(s: Seq<Placement>, i: int)
    requires
        0 <= i < s.len(),
    ensures
        s.subrange(0, i + 1).drop_last() == s.subrange(0, i),
        s.subrange(0, i + 1).last() == s[i],
{
    assert(s.subrange(0, i + 1).drop_last() =~= s.subrange(0, i));
}

proof fn lemma_bbox_bounds(s: Seq<Placement>)
    ensures
        bbox_min_x(s) <= i32::MAX,
        bbox_min_y(s) <= i32::MAX,
        bbox_max_x(s) >= i32::MIN,
        bbox_max_y(s) >= i32::MIN,
        forall|i: int|
            0 <= i < s.len() && (#[trigger] s[i]).coords is Some ==> bbox_min_x(s)
                <= s[i].coords->Some_0.x && bbox_min_y(s) <= s[i].coords->Some_0.y
                && s[i].coords->Some_0.x + 2 * s[i].width <= bbox_max_x(s)
                && s[i].coords->Some_0.y + 2 * s[i].height <= bbox_max_y(s),
        !any_placed(s) ==> bbox_min_x(s) == i32::MAX && bbox_min_y(s) == i32::MAX && bbox_max_x(s)
            == i32::MIN && bbox_max_y(s) == i32::MIN,
        any_placed(s) ==> exists|i: int|
            0 <= i < s.len() && (#[trigger] s[i]).coords is Some && s[i].coords->Some_0.x
                == bbox_min_x(s),
        any_placed(s) ==> exists|i: int|
            0 <= i < s.len() && (#[trigger] s[i]).coords is Some && s[i].coords->Some_0.y
                == bbox_min_y(s),
        any_placed(s) ==> exists|i: int|
            0 <= i < s.len() && (#[trigger] s[i]).coords is Some && s[i].coords->Some_0.x + 2
                * s[i].width == bbox_max_x(s),
        any_placed(s) ==> exists|i: int|
            0 <= i < s.len() && (#[trigger] s[i]).coords is Some && s[i].coords->Some_0.y + 2
                * s[i].height == bbox_max_y(s),
    decreases s.len(),
{
    if s.len() > 0 {
        let t = s.drop_last();
        lemma_bbox_bounds(t);
        assert forall|i: int| 0 <= i < t.len() implies #[trigger] s[i] == t[i] by {}
        if !any_placed(s) {
            assert(s[s.len() - 1].coords is None);
            if any_placed(t) {
                let k = choose|k: int| 0 <= k < t.len() && (#[trigger] t[k]).coords is Some;
                assert(s[k] == t[k]);
            }
        }
        if any_placed(s) && !any_placed(t) {
            assert(s.last().coords is Some) by {
                let i = choose|i: int| 0 <= i < s.len() && (#[trigger] s[i]).coords is Some;
                if i < t.len() {
                    assert(t[i] == s[i]);
                }
            }
        }
        if any_placed(t) {
            let i0 = choose|i: int|
                0 <= i < t.len() && (#[trigger] t[i]).coords is Some && t[i].coords->Some_0.x
                    == bbox_min_x(t);
            let i1 = choose|i: int|
                0 <= i < t.len() && (#[trigger] t[i]).coords is Some && t[i].coords->Some_0.y
                    == bbox_min_y(t);
            let i2 = choose|i: int|
                0 <= i < t.len() && (#[trigger] t[i]).coords is Some && t[i].coords->Some_0.x + 2
                    * t[i].width == bbox_max_x(t);
            let i3 = choose|i: int|
                0 <= i < t.len() && (#[trigger] t[i]).coords is Some && t[i].coords->Some_0.y + 2
                    * t[i].height == bbox_max_y(t);
            assert(s[i0] == t[i0] && s[i1] == t[i1] && s[i2] == t[i2] && s[i3] == t[i3]);
            assert(s[s.len() - 1] == s.last());
            let l = s.len() - 1;
            if s.last().coords is Some {
                let c = s.last().coords->Some_0;
                if c.x < bbox_min_x(t) {
                    assert(s[l].coords->Some_0.x == bbox_min_x(s));
                } else {
                    assert(s[i0].coords->Some_0.x == bbox_min_x(s));
                }
                if c.y < bbox_min_y(t) {
                    assert(s[l].coords->Some_0.y == bbox_min_y(s));
                } else {
                    assert(s[i1].coords->Some_0.y == bbox_min_y(s));
                }
            }
        } else {
            assert(s[s.len() - 1] == s.last());
            let l = s.len() - 1;
            if s.last().coords is Some {
                assert(s[l].coords->Some_0.x == bbox_min_x(s));
                assert(s[l].coords->Some_0.y == bbox_min_y(s));
            }
        }
    }
}

/// Normalises the overworld: the bounding box of the placed locations is
/// computed, every placed coordinate is shifted so that its smallest corner
/// is the origin, and the box size (in sprites) is returned. Fails when no
/// location is placed or the coordinates leave the 32-bit range.
#[verifier::rlimit(50)]
pub fn fit_overworld(places: &mut Vec<Placement>) -> (r: Result<(usize, usize), RomError>)
    ensures
        final(places)@.len() == old(places)@.len(),
        any_placed(old(places)@) && moderate(old(places)@) ==> r is Ok,
        r is Ok ==> ({
            let (w, h) = r->Ok_0;
            let s = old(places)@;
            let f = final(places)@;
            &&& any_placed(s)
            &&& w == bbox_max_x(s) - bbox_min_x(s)
            &&& h == bbox_max_y(s) - bbox_min_y(s)
            &&& forall|i: int|
                0 <= i < s.len() ==> (#[trigger] f[i]).width == s[i].width && f[i].height
                    == s[i].height && (f[i].coords is Some <==> s[i].coords is Some) && (
                s[i].coords is Some ==> f[i].coords->Some_0.x == s[i].coords->Some_0.x
                    - bbox_min_x(s) && f[i].coords->Some_0.y == s[i].coords->Some_0.y
                    - bbox_min_y(s))
            &&& forall|i: int|
                0 <= i < f.len() && (#[trigger] f[i]).coords is Some ==> 0 <= f[i].coords->Some_0.x
                    && f[i].coords->Some_0.x + 2 * f[i].width <= w && 0 <= f[i].coords->Some_0.y
                    && f[i].coords->Some_0.y + 2 * f[i].height <= h
            &&& any_placed(f)
            &&& bbox_min_x(f) == 0 && bbox_min_y(f) == 0
            &&& bbox_max_x(f) == w && bbox_max_y(f) == h
        }),
        r is Err ==> r->Err_0 == RomError::Consistency && final(places)@ == old(places)@,
{
    let ghost s = places@;
    proof {
        lemma_bbox_bounds(s);
    }
    let mut bounds = Boundaries::new();
    let mut placed = false;
    let mut i: usize = 0;
    while i < places.len()
        invariant
            places@ == s,
            i <= s.len(),
            bounds.min.x == bbox_min_x(s.subrange(0, i as int)),
            bounds.min.y == bbox_min_y(s.subrange(0, i as int)),
            bounds.max.x == bbox_max_x(s.subrange(0, i as int)),
            bounds.max.y == bbox_max_y(s.subrange(0, i as int)),
            placed == any_placed(s.subrange(0, i as int)),
            moderate(s) ==> forall|j: int|
                0 <= j < s.len() && (#[trigger] s[j]).coords is Some ==> -0x2000_0000
                    <= s[j].coords->Some_0.x <= 0x2000_0000,
        decreases s.len() - i,
    {
        let p = places[i];
        proof {
            lemma_bbox_prefix(s, i as int);
            let t = s.subrange(0, i as int);
            let u = s.subrange(0, i + 1);
            if any_placed(u) && !any_placed(t) {
                let k = choose|k: int| 0 <= k < u.len() && (#[trigger] u[k]).coords is Some;
                if k < t.len() {
                    assert(t[k] == u[k]);
                }
            }
            if any_placed(t) {
                let k = choose|k: int| 0 <= k < t.len() && (#[trigger] t[k]).coords is Some;
                assert(u[k] == t[k]);
            }
            if p.coords is Some {
                assert(u[i as int] == p);
            }
        }
        match p.coords {
            Some(c) => {
                if c.x > i32::MAX - 2 * (p.width as i32) || c.y > i32::MAX - 2 * (p.height as i32) {
                    return Err(RomError::Consistency);
                }
                bounds.stretch(c, p.width, p.height);
                placed = true;
            },
            None => {},
        }
        i = i + 1;
    }
    assert(s.subrange(0, s.len() as int) =~= s);
    if !placed {
        return Err(RomError::Consistency);
    }
    let min = bounds.min;
    let width = bounds.max.x as i64 - min.x as i64;
    let height = bounds.max.y as i64 - min.y as i64;
    proof {
        let i0 = choose|i: int|
            0 <= i < s.len() && (#[trigger] s[i]).coords is Some && s[i].coords->Some_0.x
                == bbox_min_x(s);
        assert(bbox_min_x(s) + 2 * s[i0].width <= bbox_max_x(s));
        let i1 = choose|i: int|
            0 <= i < s.len() && (#[trigger] s[i]).coords is Some && s[i].coords->Some_0.y
                == bbox_min_y(s);
        assert(bbox_min_y(s) + 2 * s[i1].height <= bbox_max_y(s));
        if moderate(s) {
            assert(bbox_min_x(s) >= -0x2000_0000);
            assert(bbox_min_y(s) >= -0x2000_0000);
        }
    }
    // Every placed coordinate is at least the minimum, and the difference
    // must stay a valid coordinate.
    let mut k: usize = 0;
    while k < places.len()
        invariant
            places@ == s,
            k <= s.len(),
            min.x == bbox_min_x(s),
            min.y == bbox_min_y(s),
            moderate(s) ==> min.x >= -0x2000_0000 && min.y >= -0x2000_0000,
            any_placed(s) && moderate(s) ==> forall|j: int|
                0 <= j < s.len() && (#[trigger] s[j]).coords is Some ==> s[j].coords->Some_0.x
                    <= 0x2000_0000 && s[j].coords->Some_0.y <= 0x2000_0000,
            forall|j: int|
                0 <= j < k && (#[trigger] s[j]).coords is Some ==> s[j].coords->Some_0.x - min.x
                    <= i32::MAX && s[j].coords->Some_0.y - min.y <= i32::MAX,
        decreases s.len() - k,
    {
        match places[k].coords {
            Some(c) => {
                if c.x as i64 - min.x as i64 > i32::MAX as i64 || c.y as i64 - min.y as i64
                    > i32::MAX as i64 {
                    return Err(RomError::Consistency);
                }
            },
            None => {},
        }
        k = k + 1;
    }
    k = 0;
    while k < places.len()
        invariant
            places@.len() == s.len(),
            k <= s.len(),
            min.x == bbox_min_x(s),
            min.y == bbox_min_y(s),
            forall|j: int|
                0 <= j < s.len() && (#[trigger] s[j]).coords is Some ==> s[j].coords->Some_0.x - min.x
                    <= i32::MAX && s[j].coords->Some_0.y - min.y <= i32::MAX && min.x
                    <= s[j].coords->Some_0.x && min.y <= s[j].coords->Some_0.y
                    && s[j].coords->Some_0.x + 2 * s[j].width <= bbox_max_x(s)
                    && s[j].coords->Some_0.y + 2 * s[j].height <= bbox_max_y(s),
            width == bbox_max_x(s) - bbox_min_x(s),
            height == bbox_max_y(s) - bbox_min_y(s),
            forall|j: int| k <= j < s.len() ==> #[trigger] places@[j] == s[j],
            forall|j: int|
                0 <= j < k ==> (#[trigger] places@[j]).width == s[j].width && places@[j].height
                    == s[j].height && (places@[j].coords is Some <==> s[j].coords is Some) && (
                s[j].coords is Some ==> places@[j].coords->Some_0.x == s[j].coords->Some_0.x
                    - min.x && places@[j].coords->Some_0.y == s[j].coords->Some_0.y - min.y),
        decreases s.len() - k,
    {
        let p = places[k];
        match p.coords {
            Some(c) => {
                let shifted = SpriteCoords { x: c.x - min.x, y: c.y - min.y };
                let moved = Placement { coords: Some(shifted), width: p.width, height: p.height };
                places.set(k, moved);
            },
            None => {},
        }
        k = k + 1;
    }
    proof {
        let f = places@;
        lemma_bbox_bounds(f);
        let i0 = choose|i: int|
            0 <= i < s.len() && (#[trigger] s[i]).coords is Some && s[i].coords->Some_0.x
                == bbox_min_x(s);
        let i1 = choose|i: int|
            0 <= i < s.len() && (#[trigger] s[i]).coords is Some && s[i].coords->Some_0.y
                == bbox_min_y(s);
        let i2 = choose|i: int|
            0 <= i < s.len() && (#[trigger] s[i]).coords is Some && s[i].coords->Some_0.x + 2
                * s[i].width == bbox_max_x(s);
        let i3 = choose|i: int|
            0 <= i < s.len() && (#[trigger] s[i]).coords is Some && s[i].coords->Some_0.y + 2
                * s[i].height == bbox_max_y(s);
        assert(f[i0].coords is Some && f[i1].coords is Some);
        assert(any_placed(f));
        let j0 = choose|i: int|
            0 <= i < f.len() && (#[trigger] f[i]).coords is Some && f[i].coords->Some_0.x
                == bbox_min_x(f);
        let j1 = choose|i: int|
            0 <= i < f.len() && (#[trigger] f[i]).coords is Some && f[i].coords->Some_0.y
                == bbox_min_y(f);
        let j2 = choose|i: int|
            0 <= i < f.len() && (#[trigger] f[i]).coords is Some && f[i].coords->Some_0.x + 2
                * f[i].width == bbox_max_x(f);
        let j3 = choose|i: int|
            0 <= i < f.len() && (#[trigger] f[i]).coords is Some && f[i].coords->Some_0.y + 2
                * f[i].height == bbox_max_y(f);
        assert(s[j0].coords is Some && s[j1].coords is Some && s[j2].coords is Some && s[j3].coords is Some);
        assert(f[i2].coords is Some && f[i3].coords is Some);
    }
    Ok((width as usize, height as usize))
}


/// A warp as exported: where it is and where it leads.
pub struct WarpInfo {
    pub pos: SpritePosition,
    pub to_map: u8,
    pub to_warp: u8,
}

impl WarpInfo {
    pub fn new(raw: &MapWarp) -> (r: WarpInfo)
        ensures
            r.pos == SpritePosition(raw.x, raw.y) && r.to_map == raw.to_map && r.to_warp
                == raw.to_warp,
    {
        WarpInfo { pos: SpritePosition(raw.x, raw.y), to_map: raw.to_map, to_warp: raw.to_warp }
    }
}

/// Text of entry `text_id` (from 1) of a location's text pointer table at
/// `text_addr`: the command its pointer (in the table's bank) leads to.
pub open spec fn sign_text(s: Seq<u8>, text_addr: Addr, text_id: u8) -> Option<Seq<char>> {
    if table_readable::<u16>(s, text_addr, text_id - 1) {
        command_text(s, at(text_addr.bank, table_entry::<u16>(s, text_addr, text_id - 1)))
    } else {
        None
    }
}

/// A sign as exported: where it is and what it says.
pub struct SignInfo {
    pub pos: SpritePosition,
    pub text: String,
}

impl SignInfo {
    /// The sign's text is entry `text_id` (counting from 1) of the
    /// location's text pointer table at `text_addr`.
    pub fn new(raw: &MapSign, stream: &Vec<u8>, text_addr: Addr) -> (r: Result<SignInfo, RomError>)
        ensures
            raw.text_id == 0 ==> r is Err,
            r is Ok ==> r->Ok_0.pos == SpritePosition(raw.x, raw.y),
            raw.text_id != 0 ==> (r is Ok <==> sign_text(stream@, text_addr, raw.text_id) is Some),
            r is Ok ==> r->Ok_0.text@ == sign_text(stream@, text_addr, raw.text_id)->Some_0,
    {
        if raw.text_id == 0 {
            return Err(RomError::Format);
        }
        let table = RomStructureTable::<u16>::new_at(stream, text_addr);
        let addr = Addr::new(text_addr.bank, table.entry_at(raw.text_id - 1)?);
        let mut reader = Reader::new_at(stream, addr);
        let text = get_text_command(&mut reader)?;
        Ok(SignInfo { pos: SpritePosition(raw.x, raw.y), text })
    }
}

/// Everything exported of a location.
pub struct MapInfo {
    pub warps: Vec<WarpInfo>,
    pub signs: Vec<SignInfo>,
    pub entities: Vec<EntityInfo>,
    pub wild_pkmn: WildPokemonsInfo,
    pub hiddens: Vec<HiddenInfo>,
    /// World coordinate; none when the location is not part of the
    /// stitched overworld.
    pub coords: Option<SpriteCoords>,
    /// Size in blocks.
    pub width: u8,
    pub height: u8,
    pub pic_path: String,
}

/// Reads hidden-object records until one whose `y` is 0xff.
fn read_hiddens(stream: &Vec<u8>, addr: Addr) -> (r: Result<Vec<HiddenEntry>, RomError>)
    ensures
        r is Ok ==> forall|i: int| 0 <= i < r->Ok_0@.len() ==> (#[trigger] r->Ok_0@[i]).y != 0xff,
{
    let mut table = RomStructureTable::<HiddenEntry>::new_at(stream, addr);
    let mut out: Vec<HiddenEntry> = Vec::new();
    loop
        invariant
            table.index <= 0xff,
            forall|i: int| 0 <= i < out@.len() ==> (#[trigger] out@[i]).y != 0xff,
        decreases 0xff - table.index,
    {
        match table.next() {
            Some(entry) => {
                let hidden = entry?;
                if hidden.y == 0xff {
                    return Ok(out);
                }
                out.push(hidden);
            },
            None => {
                return Ok(out);
            },
        }
    }
}

impl MapInfo {
    /// Exported information of location `id`, decoded as `smap`:
    /// warps, signs and entities with their texts, wild encounters, hidden
    /// objects (from `hiddens_addr` when the location has any), and the
    /// coordinate when the location has direct connections.
    pub fn new(smap: &ScannedMap, stream: &Vec<u8>, hiddens_addr: Option<Addr>, id: u8) -> (r:
        Result<MapInfo, RomError>)
        ensures
            r is Ok ==> ({
                let info = r->Ok_0;
                &&& info.width == smap.header.w && info.height == smap.header.h
                &&& info.coords is Some <==> smap.connections@.len() > 0
                &&& info.coords is Some ==> info.coords->Some_0 == smap.coords
                &&& info.warps@.len() == smap.warps@.len()
                &&& forall|i: int|
                    0 <= i < info.warps@.len() ==> (#[trigger] info.warps@[i]).pos == SpritePosition(
                        smap.warps@[i].x,
                        smap.warps@[i].y,
                    ) && info.warps@[i].to_map == smap.warps@[i].to_map && info.warps@[i].to_warp
                        == smap.warps@[i].to_warp
                &&& info.signs@.len() == smap.signs@.len()
                &&& forall|i: int|
                    0 <= i < info.signs@.len() ==> (#[trigger] info.signs@[i]).pos == SpritePosition(
                        smap.signs@[i].x,
                        smap.signs@[i].y,
                    )
                &&& info.entities@.len() == smap.entities@.len()
                &&& forall|i: int|
                    0 <= i < info.entities@.len() ==> (#[trigger] info.entities@[i]).pos
                        == SpritePosition((smap.entities@[i].x - 4) as u8, (smap.entities@[i].y - 4) as u8)
                &&& hiddens_addr is None ==> info.hiddens@.len() == 0
                &&& ({
                    let w = at(
                        MAP_WILD_PKMN_BANK,
                        table_entry::<u16>(stream@, at(MAP_WILD_PKMN_BANK, MAP_WILD_PKMN_OFFSET), id as int),
                    );
                    (info.wild_pkmn.grass is Some <==> rom_u8(stream@, w, 0) != 0)
                })
            }),
    {
        let mut warps: Vec<WarpInfo> = Vec::new();
        let mut i: usize = 0;
        while i < smap.warps.len()
            invariant
                i <= smap.warps@.len(),
                warps@.len() == i,
                forall|j: int|
                    0 <= j < i ==> (#[trigger] warps@[j]).pos == SpritePosition(
                        smap.warps@[j].x,
                        smap.warps@[j].y,
                    ) && warps@[j].to_map == smap.warps@[j].to_map && warps@[j].to_warp
                        == smap.warps@[j].to_warp,
            decreases smap.warps@.len() - i,
        {
            warps.push(WarpInfo::new(&smap.warps[i]));
            i = i + 1;
        }
        let text_addr = Addr::new(smap.addr.bank, smap.header.text_ptr);
        let mut signs: Vec<SignInfo> = Vec::new();
        i = 0;
        while i < smap.signs.len()
            invariant
                i <= smap.signs@.len(),
                signs@.len() == i,
                forall|j: int|
                    0 <= j < i ==> (#[trigger] signs@[j]).pos == SpritePosition(
                        smap.signs@[j].x,
                        smap.signs@[j].y,
                    ),
            decreases smap.signs@.len() - i,
        {
            signs.push(SignInfo::new(&smap.signs[i], stream, text_addr)?);
            i = i + 1;
        }
        let mut entities: Vec<EntityInfo> = Vec::new();
        i = 0;
        while i < smap.entities.len()
            invariant
                i <= smap.entities@.len(),
                entities@.len() == i,
                forall|j: int|
                    0 <= j < i ==> (#[trigger] entities@[j]).pos == SpritePosition(
                        (smap.entities@[j].x - 4) as u8,
                        (smap.entities@[j].y - 4) as u8,
                    ),
            decreases smap.entities@.len() - i,
        {
            entities.push(EntityInfo::new(&smap.entities[i], stream, text_addr)?);
            i = i + 1;
        }
        let mut hiddens: Vec<HiddenInfo> = Vec::new();
        match hiddens_addr {
            Some(addr) => {
                let raw = read_hiddens(stream, addr)?;
                i = 0;
                while i < raw.len()
                    invariant
                        i <= raw@.len(),
                    decreases raw@.len() - i,
                {
                    hiddens.push(HiddenInfo::new(&raw[i], stream)?);
                    i = i + 1;
                }
            },
            None => {},
        }
        let table = RomStructureTable::<u16>::new_at(
            stream,
            Addr::new(MAP_WILD_PKMN_BANK, MAP_WILD_PKMN_OFFSET),
        );
        let wild_addr = Addr::new(MAP_WILD_PKMN_BANK, table.entry_at(id)?);
        let wild_pkmn = WildPokemonsInfo::new(wild_addr, stream)?;
        let coords = if smap.connections.len() > 0 {
            Some(smap.coords)
        } else {
            None
        };
        let mut pic_path = String::new();
        append(&mut pic_path, "maps/map-");
        let hex = hex2(id);
        append(&mut pic_path, hex.as_str());
        append(&mut pic_path, ".png");
        Ok(MapInfo {
            warps,
            signs,
            entities,
            wild_pkmn,
            hiddens,
            coords,
            width: smap.header.w,
            height: smap.header.h,
            pic_path,
        })
    }
}

/// A location: its exported information, its picture, and the trainer
/// classes met there.
pub struct LoadedMap {
    pub info: MapInfo,
    pub pic: Image24bpp,
    pub trainer_class_ids: Vec<u8>,
    /// Squares where a marker was drawn over another one.
    pub conflicting_markers: Vec<SpritePosition>,
    /// Markers that fell outside the picture and were not drawn.
    pub outside_markers: Vec<SpritePosition>,
}

impl LoadedMap {
    /// Builds the background from the tileset (each block id of the map
    /// names 4x4 tile ids), converts it to RGB and draws warps, signs,
    /// entities and hidden objects over it. Entity facings are drawn from a
    /// generator seeded with the location id.
    pub fn load(stream: &Vec<u8>, smap: &ScannedMap, id: u8, hiddens_addr: Option<Addr>) -> (r:
        Result<LoadedMap, RomError>)
        requires
            smap.header.w <= 127,
            smap.header.h <= 127,
        ensures
            r is Ok ==> r->Ok_0.pic.wf() && r->Ok_0.pic.width == smap.header.w * 32
                && r->Ok_0.pic.height == smap.header.h * 32,
            r is Ok ==> placement_of(Some(r->Ok_0)) == slot_placement(*smap),
            r is Ok ==> r->Ok_0.trainer_class_ids@ == trainer_ids(r->Ok_0.info.entities@),
    {
        let info = MapInfo::new(smap, stream, hiddens_addr, id)?;
        let width = smap.header.w as usize;
        let height = smap.header.h as usize;

        let tileset_table = RomStructureTable::<Tileset>::new_at(
            stream,
            Addr::new(MAP_TILESETS_BANK, MAP_TILESETS_OFFSET),
        );
        let tileset = tileset_table.entry_at(smap.header.tileset_id)?;
        let reader_datablk = BlobSlicer::<16>::new_at(
            stream,
            Addr::new(tileset.bank, tileset.blocks_addr),
        );
        let reader_tiles = BlobSlicer::<TILE_SIZE>::new_at(
            stream,
            Addr::new(tileset.bank, tileset.tiles_addr),
        );
        let blkids_addr = Addr::new(smap.addr.bank, smap.header.map_ptr);
        let mut reader_blkids = Reader::new_at(stream, blkids_addr);

        // Background picture, without the markers.
        assert(width * 32 % 4 == 0 && (width * 32 / 4) * (height * 32) <= 127 * 8 * 127 * 32
            && width * height <= 127 * 127) by (nonlinear_arith)
            requires
                width <= 127,
                height <= 127,
        ;
        let mut pic_bg = Image2bpp::new(width * BLOCK_PIXELS_1D, height * BLOCK_PIXELS_1D);
        let mut blocks: Vec<u8> = Vec::new();
        let mut b: usize = 0;
        while b < width * height
            invariant
                width <= 127 && height <= 127,
                width * height <= 127 * 127,
                b <= width * height,
                blocks@.len() == b * BLOCK_SIZE,
                reader_blkids.stream == stream,
            decreases width * height - b,
        {
            let block_id = reader_blkids.read_u8()?;
            let tile_ids = reader_datablk.slice_at(block_id)?;
            let mut block_tiles: Vec<u8> = Vec::new();
            let mut t: usize = 0;
            while t < 16
                invariant
                    t <= 16,
                    tile_ids@.len() == 16,
                    block_tiles@.len() == t * TILE_SIZE,
                decreases 16 - t,
            {
                let tile = reader_tiles.slice_at(tile_ids[t])?;
                let mut j: usize = 0;
                while j < TILE_SIZE
                    invariant
                        j <= TILE_SIZE,
                        tile@.len() == TILE_SIZE,
                        block_tiles@.len() == t * TILE_SIZE + j,
                    decreases TILE_SIZE - j,
                {
                    block_tiles.push(tile[j]);
                    j = j + 1;
                }
                t = t + 1;
            }
            let block = tiles_to_4x4_rowmajor(&block_tiles);
            let mut j: usize = 0;
            while j < BLOCK_SIZE
                invariant
                    j <= BLOCK_SIZE,
                    block@.len() == BLOCK_SIZE,
                    blocks@.len() == b * BLOCK_SIZE + j,
                decreases BLOCK_SIZE - j,
            {
                blocks.push(block[j]);
                j = j + 1;
            }
            b = b + 1;
        }
        assert(width * 32 / 4 == width * 8);
        assert((width * 8) * (height * 32) == width * height * 256) by (nonlinear_arith);
        assert(pic_bg.data@.len() == width * 8 * (height * 32) && blocks@.len()
            == pic_bg.data@.len());
        blocks_to_map(&mut pic_bg.data, &blocks, width, height);

        // Markers: warps, signs, entities and hidden objects.
        let mut markers: Vec<Marker> = Vec::new();
        let mut i: usize = 0;
        while i < info.warps.len()
            invariant
                i <= info.warps@.len(),
            decreases info.warps@.len() - i,
        {
            markers.push(Marker::new(info.warps[i].pos, ElementType::Warp, None));
            i = i + 1;
        }
        i = 0;
        while i < info.signs.len()
            invariant
                i <= info.signs@.len(),
            decreases info.signs@.len() - i,
        {
            markers.push(Marker::new(info.signs[i].pos, ElementType::Sign, None));
            i = i + 1;
        }
        let mut seed = id as u32;
        i = 0;
        while i < smap.entities.len() && i < info.entities.len()
            invariant
                i <= smap.entities@.len(),
            decreases smap.entities@.len() - i,
        {
            let sprite = smap.entities[i].get_sprite(stream, &mut seed)?;
            markers.push(Marker::new(info.entities[i].pos, ElementType::Entity, Some(sprite)));
            i = i + 1;
        }
        i = 0;
        while i < info.hiddens.len()
            invariant
                i <= info.hiddens@.len(),
            decreases info.hiddens@.len() - i,
        {
            let hidden = &info.hiddens[i];
            let palette_id: u8 = if hidden.content.is_some() {
                1
            } else {
                2
            };
            let sprite = hidden.get_sprite(palette_id);
            markers.push(Marker::new(hidden.pos, ElementType::Hidden, Some(sprite)));
            i = i + 1;
        }

        assert(pic_bg.width % 8 == 0 && pic_bg.width * 3 <= 127 * 32 * 3 && pic_bg.width * 3
            * pic_bg.height <= 127 * 32 * 3 * 127 * 32) by (nonlinear_arith)
            requires
                pic_bg.width == width * 32,
                pic_bg.height == height * 32,
                width <= 127,
                height <= 127,
        ;
        // Markers that share a square: the later one is drawn over the
        // earlier; report the square.
        let mut conflicting_markers: Vec<SpritePosition> = Vec::new();
        let mut a: usize = 0;
        while a < markers.len()
            invariant
                a <= markers@.len(),
            decreases markers@.len() - a,
        {
            let mut b: usize = 0;
            while b < a
                invariant
                    b <= a,
                    a < markers@.len(),
                decreases a - b,
            {
                if markers[a].pos == markers[b].pos {
                    conflicting_markers.push(markers[a].pos);
                    break;
                }
                b = b + 1;
            }
            a = a + 1;
        }

        let mut pic = Image24bpp::from_2bpp(&pic_bg);
        let outside_markers = pic.apply_markers(markers, &pic_bg);

        // Trainer classes in use here.
        let mut trainer_class_ids: Vec<u8> = Vec::new();
        i = 0;
        while i < info.entities.len()
            invariant
                i <= info.entities@.len(),
                trainer_class_ids@ == trainer_ids(info.entities@.subrange(0, i as int)),
            decreases info.entities@.len() - i,
        {
            proof {
                assert(info.entities@.subrange(0, i + 1).drop_last() =~= info.entities@.subrange(0, i as int));
            }
            match &info.entities[i].data {
                EntityData::Trainer { class_id, .. } => trainer_class_ids.push(*class_id),
                _ => {},
            }
            i = i + 1;
        }
        assert(info.entities@.subrange(0, info.entities@.len() as int) =~= info.entities@);
        Ok(LoadedMap { info, pic, trainer_class_ids, conflicting_markers, outside_markers })
    }
}

impl<'a> MapsScanner<'a> {
    /// Walks the graph from location 0 at the origin, then builds every
    /// location found, in id order, up to the last one found.
    pub fn scan(&mut self) -> (r: Result<Vec<Option<LoadedMap>>, RomError>)
        requires
            old(self).maps.wf(),
        ensures
            r is Ok ==> r->Ok_0@.len() <= CACHE_SLOTS && forall|i: int|
                0 <= i < r->Ok_0@.len() ==> ((#[trigger] r->Ok_0@[i]) is Some
                    <==> final(self).maps.filled(i)),
            r is Ok ==> (forall|i: int|
                r->Ok_0@.len() <= i < CACHE_SLOTS ==> !#[trigger] final(self).maps.filled(i)) && (
            r->Ok_0@.len() > 0 ==> final(self).maps.filled(r->Ok_0@.len() - 1)),
            r is Ok ==> final(self).maps.filled(0),
            final(self).maps.wf(),
            r is Ok ==> forall|i: int|
                0 <= i < r->Ok_0@.len() && (#[trigger] r->Ok_0@[i]) is Some ==> placement_of(
                    r->Ok_0@[i],
                ) == slot_placement(final(self).maps.data@[i].0->Some_0),
    {
        self.recursive_scan(0, SpriteCoords::new())?;
        let mut last: usize = 0;
        let mut id: usize = 0;
        while id < CACHE_SLOTS
            invariant
                self.maps.wf(),
                self.maps.filled(0),
                id <= CACHE_SLOTS,
                last <= id,
                forall|j: int| last <= j < id ==> !#[trigger] self.maps.filled(j),
                last > 0 ==> self.maps.filled(last - 1),
            decreases CACHE_SLOTS - id,
        {
            if self.maps.is_filled(id as u8) {
                last = id + 1;
            }
            id = id + 1;
        }
        let mut maps: Vec<Option<LoadedMap>> = Vec::new();
        id = 0;
        while id < last
            invariant
                self.maps.wf(),
                id <= last,
                last <= CACHE_SLOTS,
                maps@.len() == id,
                forall|j: int|
                    0 <= j < id ==> ((#[trigger] maps@[j]) is Some <==> self.maps.filled(j)),
                forall|j: int|
                    0 <= j < id && (#[trigger] maps@[j]) is Some ==> placement_of(maps@[j])
                        == slot_placement(self.maps.data@[j].0->Some_0),
                forall|j: int| last <= j < CACHE_SLOTS ==> !#[trigger] self.maps.filled(j),
                last > 0 ==> self.maps.filled(last - 1),
                self.maps.filled(0),
            decreases last - id,
        {
            let slot = self.maps.entry(id as u8);
            match &slot.0 {
                Some(smap) => {
                    if smap.header.w > 127 || smap.header.h > 127 {
                        return Err(RomError::Format);
                    }
                    let hiddens_addr = self.hiddens.get(id as u8);
                    maps.push(Some(LoadedMap::load(self.stream, smap, id as u8, hiddens_addr)?));
                },
                None => maps.push(None),
            }
            id = id + 1;
        }
        Ok(maps)
    }
}

/// Largest value of a list (0 when empty).
pub open spec fn max_of(ids: Seq<u8>) -> int
    decreases ids.len(),
{
    if ids.len() == 0 {
        0
    } else {
        max(max_of(ids.drop_last()), ids.last() as int)
    }
}

/// Largest trainer class id met in any location (0 when none).
pub open spec fn max_class_id(maps: Seq<Option<LoadedMap>>) -> int
    decreases maps.len(),
{
    if maps.len() == 0 {
        0
    } else {
        match maps.last() {
            Some(m) => max(max_class_id(maps.drop_last()), max_of(m.trainer_class_ids@)),
            None => max_class_id(maps.drop_last()),
        }
    }
}

/// Where a decoded location stands: its coordinate when it has direct
/// connections (none otherwise), and its size in blocks.
pub open spec fn slot_placement(m: ScannedMap) -> Placement {
    Placement {
        coords: if m.connections@.len() > 0 {
            Some(m.coords)
        } else {
            None
        },
        width: m.header.w,
        height: m.header.h,
    }
}

/// The trainer classes of the trainer entities, in order.
pub open spec fn trainer_ids(entities: Seq<EntityInfo>) -> Seq<u8>
    decreases entities.len(),
{
    if entities.len() == 0 {
        Seq::empty()
    } else {
        let rest = trainer_ids(entities.drop_last());
        match entities.last().data {
            EntityData::Trainer { class_id, .. } => rest.push(class_id),
            _ => rest,
        }
    }
}

/// `p` is `pre` with every placed coordinate shifted by the smallest corner
/// of `pre`, sizes and placedness kept.
pub open spec fn shifted_to_origin(pre: Seq<Placement>, p: Seq<Placement>) -> bool {
    &&& p.len() == pre.len()
    &&& forall|i: int|
        0 <= i < pre.len() ==> (#[trigger] p[i]).width == pre[i].width && p[i].height == pre[i].height
            && (p[i].coords is Some <==> pre[i].coords is Some) && (pre[i].coords is Some
            ==> p[i].coords->Some_0.x == pre[i].coords->Some_0.x - bbox_min_x(pre)
            && p[i].coords->Some_0.y == pre[i].coords->Some_0.y - bbox_min_y(pre))
}

/// Where a location stands in the overworld; a missing location is an
/// unplaced one of size 0.
pub open spec fn placement_of(m: Option<LoadedMap>) -> Placement {
    match m {
        Some(map) => Placement {
            coords: map.info.coords,
            width: map.info.width,
            height: map.info.height,
        },
        None => Placement { coords: None, width: 0, height: 0 },
    }
}

/// Placements of the first `n` slots of a memo table; an empty slot is an
/// unplaced location of size 0.
pub open spec fn scanned_placements(slots: Seq<CacheElement<ScannedMap>>, n: int) -> Seq<Placement> {
    Seq::new(
        n as nat,
        |i: int|
            if slots[i].0 is Some {
                slot_placement(slots[i].0->Some_0)
            } else {
                Placement { coords: None, width: 0, height: 0 }
            },
    )
}

pub open spec fn placements_of(maps: Seq<Option<LoadedMap>>) -> Seq<Placement> {
    Seq::new(maps.len(), |i: int| placement_of(maps[i]))
}

/// Size of the overworld picture, in sprite units.
pub struct OverworldInfo {
    pub width: usize,
    pub height: usize,
    pub pic_path: String,
}

/// All locations, by id, and the overworld they stitch into.
pub struct Maps {
    pub maps: Vec<Option<LoadedMap>>,
    pub overworld_info: OverworldInfo,
}

impl Maps {
    /// Scans and builds every location, then normalises the overworld:
    /// coordinates are shifted so the bounding box starts at the origin, and
    /// the box size becomes the overworld size.
    pub fn load(stream: &Vec<u8>) -> (r: Result<Maps, RomError>)
        ensures
            r is Ok ==> ({
                let m = r->Ok_0;
                let p = placements_of(m.maps@);
                &&& m.maps@.len() <= CACHE_SLOTS
                &&& any_placed(p)
                &&& bbox_min_x(p) == 0 && bbox_min_y(p) == 0
                &&& m.overworld_info.width == bbox_max_x(p)
                &&& m.overworld_info.height == bbox_max_y(p)
                &&& exists|slots: Seq<CacheElement<ScannedMap>>|
                    #![trigger scanned_placements(slots, m.maps@.len() as int)]
                    slots.len() == CACHE_SLOTS && slots[0].0 is Some && (forall|i: int|
                        0 <= i < m.maps@.len() ==> ((#[trigger] m.maps@[i]) is Some
                            <==> slots[i].0 is Some)) && shifted_to_origin(
                        scanned_placements(slots, m.maps@.len() as int),
                        p,
                    ) && m.overworld_info.width == bbox_max_x(
                        scanned_placements(slots, m.maps@.len() as int),
                    ) - bbox_min_x(scanned_placements(slots, m.maps@.len() as int))
                        && m.overworld_info.height == bbox_max_y(
                        scanned_placements(slots, m.maps@.len() as int),
                    ) - bbox_min_y(scanned_placements(slots, m.maps@.len() as int))
            }),
    {
        let mut scanner = MapsScanner::new(stream)?;
        let maps = scanner.scan()?;
        let ghost slots = scanner.maps.data@;
        let ghost n = maps@.len() as int;
        assert(placements_of(maps@) =~= scanned_placements(slots, n));
        let r = Self::from_scanned(maps);
        proof {
            if r is Ok {
                let m = r->Ok_0;
                assert(m.maps@.len() == n);
                assert(scanned_placements(slots, m.maps@.len() as int) == placements_of(maps@));
                assert(slots.len() == CACHE_SLOTS && slots[0].0 is Some);
                assert(forall|i: int|
                    0 <= i < m.maps@.len() ==> ((#[trigger] m.maps@[i]) is Some <==> slots[i].0 is Some));
            }
        }
        r
    }

    /// Normalises the overworld of scanned locations: every placed
    /// coordinate is shifted by the smallest corner of the placed
    /// locations, and the overworld size is their bounding box. Fails when
    /// no location is placed or the coordinates leave the 32-bit range.
    pub fn from_scanned(maps: Vec<Option<LoadedMap>>) -> (r: Result<Maps, RomError>)
        requires
            maps@.len() <= CACHE_SLOTS,
        ensures
            any_placed(placements_of(maps@)) && moderate(placements_of(maps@)) ==> r is Ok,
            r is Err ==> r->Err_0 == RomError::Consistency,
            r is Ok ==> ({
                let m = r->Ok_0;
                let pre = placements_of(maps@);
                let p = placements_of(m.maps@);
                &&& m.maps@.len() == maps@.len()
                &&& forall|i: int| 0 <= i < maps@.len() ==> ((#[trigger] m.maps@[i]) is Some
                    <==> maps@[i] is Some)
                &&& shifted_to_origin(pre, p)
                &&& m.overworld_info.width == bbox_max_x(pre) - bbox_min_x(pre)
                &&& m.overworld_info.height == bbox_max_y(pre) - bbox_min_y(pre)
                &&& any_placed(p)
                &&& bbox_min_x(p) == 0 && bbox_min_y(p) == 0
                &&& m.overworld_info.width == bbox_max_x(p)
                &&& m.overworld_info.height == bbox_max_y(p)
                &&& forall|i: int|
                    0 <= i < p.len() && (#[trigger] p[i]).coords is Some ==> 0
                        <= p[i].coords->Some_0.x && p[i].coords->Some_0.x + 2 * p[i].width
                        <= m.overworld_info.width && 0 <= p[i].coords->Some_0.y
                        && p[i].coords->Some_0.y + 2 * p[i].height <= m.overworld_info.height
            }),
    {
        let mut maps = maps;
        let ghost orig = maps@;
        let mut places: Vec<Placement> = Vec::new();
        let mut i: usize = 0;
        while i < maps.len()
            invariant
                i <= maps@.len(),
                maps@ == orig,
                maps@.len() <= CACHE_SLOTS,
                places@.len() == i,
                forall|j: int| 0 <= j < i ==> #[trigger] places@[j] == placement_of(maps@[j]),
            decreases maps@.len() - i,
        {
            let p = match &maps[i] {
                Some(map) => Placement {
                    coords: map.info.coords,
                    width: map.info.width,
                    height: map.info.height,
                },
                None => Placement { coords: None, width: 0, height: 0 },
            };
            places.push(p);
            i = i + 1;
        }
        assert(places@ =~= placements_of(orig));
        let ghost pre = places@;
        let (width, height) = fit_overworld(&mut places)?;
        let ghost fitted = places@;
        let mut out: Vec<Option<LoadedMap>> = Vec::new();
        let n = places.len();
        let mut k: usize = 0;
        while maps.len() > 0
            invariant
                n == places@.len(),
                n <= CACHE_SLOTS,
                places@ == fitted,
                pre.len() == n,
                k + maps@.len() == n,
                out@.len() == k,
                forall|j: int|
                    0 <= j < n ==> (#[trigger] fitted[j]).width == pre[j].width && fitted[j].height
                        == pre[j].height && (fitted[j].coords is Some <==> pre[j].coords is Some),
                forall|j: int| 0 <= j < maps@.len() ==> placement_of(#[trigger] maps@[j]) == pre[k + j],
                forall|j: int| 0 <= j < maps@.len() ==> (#[trigger] maps@[j] is Some <==> orig[k + j] is Some),
                forall|j: int| 0 <= j < k ==> (#[trigger] out@[j] is Some <==> orig[j] is Some),
                orig.len() == n,
                forall|j: int| 0 <= j < k ==> placement_of(#[trigger] out@[j]) == fitted[j],
            decreases maps@.len(),
        {
            let ghost before = maps@;
            let m = maps.remove(0);
            proof {
                assert(placement_of(before[0]) == pre[k as int]);
                assert forall|j: int| 0 <= j < maps@.len() implies placement_of(#[trigger] maps@[j])
                    == pre[k + 1 + j] && (maps@[j] is Some <==> orig[k + 1 + j] is Some) by {
                    assert(maps@[j] == before[j + 1]);
                }
                assert(before[0] is Some <==> orig[k as int] is Some);
            }
            let m = match m {
                Some(mut map) => {
                    map.info.coords = places[k].coords;
                    Some(map)
                },
                None => None,
            };
            out.push(m);
            proof {
                assert(placement_of(out@[k as int]) == fitted[k as int]);
            }
            k = k + 1;
        }
        assert(placements_of(out@) =~= fitted);
        let mut pic_path = String::new();
        append(&mut pic_path, "maps/overworld.png");
        Ok(Maps { maps: out, overworld_info: OverworldInfo { width, height, pic_path } })
    }

    /// Number of trainer classes: one more than the largest class id met
    /// in any location, which must be between 1 and 254.
    pub fn get_trainers_count(&self) -> (r: Result<usize, RomError>)
        ensures
            r is Ok <==> 0 < max_class_id(self.maps@) < 255,
            r is Ok ==> r->Ok_0 == max_class_id(self.maps@) + 1,
            r is Err ==> r->Err_0 == RomError::Consistency,
    {
        let mut max_id: usize = 0;
        let mut i: usize = 0;
        while i < self.maps.len()
            invariant
                i <= self.maps@.len(),
                max_id == max_class_id(self.maps@.subrange(0, i as int)),
            decreases self.maps@.len() - i,
        {
            proof {
                assert(self.maps@.subrange(0, i + 1).drop_last() =~= self.maps@.subrange(0, i as int));
            }
            match &self.maps[i] {
                Some(map) => {
                    let mut j: usize = 0;
                    let ghost before = max_id;
                    while j < map.trainer_class_ids.len()
                        invariant
                            j <= map.trainer_class_ids@.len(),
                            max_id == max(before as int, max_of(map.trainer_class_ids@.subrange(0, j as int))),
                            before >= 0,
                        decreases map.trainer_class_ids@.len() - j,
                    {
                        proof {
                            assert(map.trainer_class_ids@.subrange(0, j + 1).drop_last()
                                =~= map.trainer_class_ids@.subrange(0, j as int));
                        }
                        if map.trainer_class_ids[j] as usize > max_id {
                            max_id = map.trainer_class_ids[j] as usize;
                        }
                        j = j + 1;
                    }
                    assert(map.trainer_class_ids@.subrange(0, map.trainer_class_ids@.len() as int)
                        =~= map.trainer_class_ids@);
                },
                None => {},
            }
            i = i + 1;
        }
        assert(self.maps@.subrange(0, self.maps@.len() as int) =~= self.maps@);
        if max_id == 0 || max_id >= 255 {
            return Err(RomError::Consistency);
        }
        Ok(max_id + 1)
    }

    /// The exported information of each location id, `None` where no
    /// location was found.
    pub fn export_maps_info(&self) -> (r: Vec<Option<&MapInfo>>)
        ensures
            r@.len() == self.maps@.len(),
            forall|i: int|
                0 <= i < r@.len() ==> (#[trigger] r@[i] is Some <==> self.maps@[i] is Some),
    {
        let mut out: Vec<Option<&MapInfo>> = Vec::new();
        let mut i: usize = 0;
        while i < self.maps.len()
            invariant
                i <= self.maps@.len(),
                out@.len() == i,
                forall|j: int| 0 <= j < i ==> (#[trigger] out@[j] is Some <==> self.maps@[j] is Some),
            decreases self.maps@.len() - i,
        {
            let m = match &self.maps[i] {
                Some(map) => Some(&map.info),
                None => None,
            };
            out.push(m);
            i = i + 1;
        }
        out
    }
}

} // verus!
