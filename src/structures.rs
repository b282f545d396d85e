use vstd::prelude::*;

use crate::reader::{
    advanced, can_advance, rom_u16, rom_u8, span_readable, Addr, Reader, RomError,
};
use core::marker::PhantomData;

verus! {

/// A record of fixed byte width that decodes from a cursor.
pub trait RomStructure: Sized {
    /// Byte width of the record.
    spec fn width() -> int;

    /// The record whose bytes start at `a`.
    spec fn decoded(s: Seq<u8>, a: Addr) -> Self;

    /// Decodes one record and moves the cursor over it.
    fn read(reader: &mut Reader) -> (r: Result<Self, RomError>)
        ensures
            final(reader).stream == old(reader).stream,
            r is Ok <==> old(reader).can_read(Self::width()),
            r is Ok ==> r->Ok_0 == Self::decoded(old(reader).stream@, old(reader).addr)
                && final(reader).moved_from(*old(reader), Self::width()),
            r is Err ==> r->Err_0 == RomError::Address,
    ;

    fn size() -> (n: usize)
        ensures
            n == Self::width(),
    ;
}

/// Where record `index` of a table at `base` starts.
pub open spec fn entry_addr(base: Addr, index: int, width: int) -> Addr {
    advanced(base, index * width)
}

/// Record `index` of a table at `base` can be decoded.
pub open spec fn entry_readable(s: Seq<u8>, base: Addr, index: int, width: int) -> bool {
    &&& can_advance(base, index * width)
    &&& span_readable(s, entry_addr(base, index, width), width)
}

/// Record `index` of a table of `T` at `base` can be decoded.
pub open spec fn table_readable<T: RomStructure>(s: Seq<u8>, base: Addr, index: int) -> bool {
    entry_readable(s, base, index, T::width())
}

/// Record `index` of a table of `T` at `base`.
pub open spec fn table_entry<T: RomStructure>(s: Seq<u8>, base: Addr, index: int) -> T {
    T::decoded(s, entry_addr(base, index, T::width()))
}

/// A table of fixed-width records at `addr`, accessed at random by index.
/// `index` is the next entry handed out by sequential access.
pub struct RomStructureTable<'a, T> {
    pub stream: &'a Vec<u8>,
    pub addr: Addr,
    pub index: usize,
    pub _data_type: PhantomData<T>,
}

impl<'a, T: RomStructure> RomStructureTable<'a, T> {
    pub open spec fn readable(&self, index: int) -> bool {
        table_readable::<T>(self.stream@, self.addr, index)
    }

    pub open spec fn entry(&self, index: int) -> T {
        table_entry::<T>(self.stream@, self.addr, index)
    }

    pub fn new_at(stream: &'a Vec<u8>, addr: Addr) -> (r: RomStructureTable<'a, T>)
        ensures
            r.stream == stream,
            r.addr == addr,
            r.index == 0,
    {
        RomStructureTable { stream, addr, index: 0, _data_type: PhantomData }
    }

    /// Record `index`, decoded at `base + index * width` with no state of its
    /// own: the result depends on the image, the base and the index alone.
    pub fn entry_at(&self, index: u8) -> (r: Result<T, RomError>)
        ensures
            r is Ok <==> self.readable(index as int),
            r is Ok ==> r->Ok_0 == self.entry(index as int),
            r is Err ==> r->Err_0 == RomError::Address,
    {
        let size = T::size();
        if size >= 0x8000 {
            proof {
                assert(index * size >= 0 ) by (nonlinear_arith);
                if index > 0 {
                    assert(index * size >= size) by (nonlinear_arith) requires index > 0, size >= 0;
                } else {
                    assert(index * size == 0) by (nonlinear_arith) requires index == 0;
                }
            }
            return Err(RomError::Address);
        }
        assert(index * size <= 255 * 0x8000) by (nonlinear_arith)
            requires
                index <= 255,
                size < 0x8000,
        ;
        assert(index * size >= 0) by (nonlinear_arith);
        let skip = index as usize * size;
        let mut reader = Reader::new_at(self.stream, self.addr);
        if skip >= 0x8000 {
            return Err(RomError::Address);
        }
        match reader.skip(skip as u16) {
            Ok(()) => T::read(&mut reader),
            Err(e) => Err(e),
        }
    }

    /// The next record of a sequential walk: `None` once the index reaches
    /// 0xff, the largest table an 8-bit index can address.
    pub fn next(&mut self) -> (r: Option<Result<T, RomError>>)
        ensures
            final(self).stream == old(self).stream,
            final(self).addr == old(self).addr,
            old(self).index >= 0xff ==> r is None && final(self).index == old(self).index,
            old(self).index < 0xff ==> r is Some && final(self).index == old(self).index + 1
                && (r->Some_0 is Ok <==> old(self).readable(old(self).index as int))
                && (r->Some_0 is Ok ==> r->Some_0->Ok_0 == old(self).entry(old(self).index as int)),
    {
        if self.index >= 0xff {
            None
        } else {
            let ret = self.entry_at(self.index as u8);
            self.index = self.index + 1;
            Some(ret)
        }
    }
}

/// Random access does not depend on what was read before: two tables over
/// the same image and base, whatever their sequential positions, hold the
/// same record at every index.
pub proof fn lemma_entry_independent<'a, T: RomStructure>(
    t1: RomStructureTable<'a, T>,
    t2: RomStructureTable<'a, T>,
    index: int,
)
    requires
        t1.stream == t2.stream,
        t1.addr == t2.addr,
    ensures
        t1.readable(index) == t2.readable(index),
        t1.entry(index) == t2.entry(index),
{
}

/// Reads `n` consecutive records.
pub fn read_records<T: RomStructure>(reader: &mut Reader, n: u8) -> (r: Result<Vec<T>, RomError>)
    ensures
        final(reader).stream == old(reader).stream,
        n > 0 ==> (r is Ok <==> old(reader).can_read(n * T::width())),
        n == 0 ==> r is Ok,
        r is Ok ==> r->Ok_0@.len() == n && final(reader).moved_from(*old(reader), n * T::width())
            && forall|i: int|
            0 <= i < n ==> #[trigger] r->Ok_0@[i] == T::decoded(
                old(reader).stream@,
                advanced(old(reader).addr, i * T::width()),
            ),
        r is Err ==> r->Err_0 == RomError::Address,
{
    let ghost a0 = reader.addr;
    let ghost w = T::width();
    let ghost s = reader.stream@;
    let mut out: Vec<T> = Vec::new();
    let mut i: u8 = 0;
    let size = T::size();
    assert(i * w == 0) by (nonlinear_arith)
        requires
            i == 0,
    ;
    while i < n
        invariant
            w == T::width(),
            w >= 0,
            size == w,
            i <= n,
            reader.stream == old(reader).stream,
            s == reader.stream@,
            a0 == old(reader).addr,
            i > 0 ==> can_advance(a0, i * w),
            i * w >= 0,
            reader.addr == advanced(a0, i * w),
            out@.len() == i,
            forall|j: int| 0 <= j < i ==> #[trigger] out@[j] == T::decoded(s, advanced(a0, j * w)),
            i > 0 ==> span_readable(s, a0, i * w),
        decreases n - i,
    {
        let ghost before = *reader;
        match T::read(reader) {
            Ok(v) => {
                proof {
                    assert((i + 1) * w == i * w + w) by (nonlinear_arith);
                }
                out.push(v);
                i = i + 1;
            },
            Err(e) => {
                proof {
                    assert(n * w >= (i + 1) * w) by (nonlinear_arith)
                        requires
                            i < n,
                            w >= 0,
                    ;
                    assert((i + 1) * w == i * w + w) by (nonlinear_arith);
                }
                return Err(e);
            },
        }
    }
    Ok(out)
}

impl RomStructure for u8 {
    open spec fn width() -> int {
        1
    }

    open spec fn decoded(s: Seq<u8>, a: Addr) -> u8 {
        rom_u8(s, a, 0)
    }

    fn read(reader: &mut Reader) -> (r: Result<u8, RomError>) {
        reader.read_u8()
    }

    fn size() -> (n: usize) {
        1
    }
}

impl RomStructure for u16 {
    open spec fn width() -> int {
        2
    }

    open spec fn decoded(s: Seq<u8>, a: Addr) -> u16 {
        rom_u16(s, a, 0)
    }

    fn read(reader: &mut Reader) -> (r: Result<u16, RomError>) {
        reader.read_u16()
    }

    fn size() -> (n: usize) {
        2
    }
}

/// A wild creature slot: level, then species id.
#[derive(Debug, Clone, Copy, PartialEq, Eq, Structural)]
pub struct WildPokemon {
    pub level: u8,
    pub id: u8,
}

impl RomStructure for WildPokemon {
    open spec fn width() -> int {
        2
    }

    open spec fn decoded(s: Seq<u8>, a: Addr) -> WildPokemon {
        WildPokemon {
            level: rom_u8(s, a, 0),
            id: rom_u8(s, a, 1),
        }
    }

    fn read(reader: &mut Reader) -> (r: Result<WildPokemon, RomError>) {
        if !reader.check_read(2) {
            return Err(RomError::Address);
        }
        let v = WildPokemon {
            level: reader.peek_u8(0),
            id: reader.peek_u8(1),
        };
        reader.advance(2);
        Ok(v)
    }

    fn size() -> (n: usize) {
        2
    }
}

/// Cumulative encounter probability of one slot, and twice the slot number.
#[derive(Debug, Clone, Copy, PartialEq, Eq, Structural)]
pub struct WildProbability {
    pub proba: u8,
    pub slot_num_x2: u8,
}

impl RomStructure for WildProbability {
    open spec fn width() -> int {
        2
    }

    open spec fn decoded(s: Seq<u8>, a: Addr) -> WildProbability {
        WildProbability {
            proba: rom_u8(s, a, 0),
            slot_num_x2: rom_u8(s, a, 1),
        }
    }

    fn read(reader: &mut Reader) -> (r: Result<WildProbability, RomError>) {
        if !reader.check_read(2) {
            return Err(RomError::Address);
        }
        let v = WildProbability {
            proba: reader.peek_u8(0),
            slot_num_x2: reader.peek_u8(1),
        };
        reader.advance(2);
        Ok(v)
    }

    fn size() -> (n: usize) {
        2
    }
}

/// Picture pointer and base prize money (3 BCD bytes) of a trainer class.
#[derive(Debug, Clone, Copy, PartialEq, Eq)]
pub struct TrainerHeader {
    pub pic_addr: u16,
    pub money: [u8; 3],
}

impl RomStructure for TrainerHeader {
    open spec fn width() -> int {
        5
    }

    open spec fn decoded(s: Seq<u8>, a: Addr) -> TrainerHeader {
        TrainerHeader {
            pic_addr: rom_u16(s, a, 0),
            money: [rom_u8(s, a, 2), rom_u8(s, a, 3), rom_u8(s, a, 4)],
        }
    }

    fn read(reader: &mut Reader) -> (r: Result<TrainerHeader, RomError>) {
        if !reader.check_read(5) {
            return Err(RomError::Address);
        }
        let v = TrainerHeader {
            pic_addr: reader.peek_u16(0),
            money: [reader.peek_u8(2), reader.peek_u8(3), reader.peek_u8(4)],
        };
        reader.advance(5);
        Ok(v)
    }

    fn size() -> (n: usize) {
        5
    }
}

/// Base statistics and sprite pointers of one species.
#[derive(Debug, Clone, Copy, PartialEq, Eq)]
pub struct PokemonHeader {
    pub id: u8,
    pub hp: u8,
    pub atk: u8,
    pub def: u8,
    pub spd: u8,
    pub spe: u8,
    pub types: [u8; 2],
    pub capture_rate: u8,
    pub base_exp_yield: u8,
    pub sprite_front_dim: u8,
    pub sprite_front_addr: u16,
    pub sprite_back_addr: u16,
    pub initial_atk: [u8; 4],
    pub growth_rate: u8,
    pub tmhm_flags: [u8; 8],
}

impl RomStructure for PokemonHeader {
    open spec fn width() -> int {
        28
    }

    open spec fn decoded(s: Seq<u8>, a: Addr) -> PokemonHeader {
        PokemonHeader {
            id: rom_u8(s, a, 0),
            hp: rom_u8(s, a, 1),
            atk: rom_u8(s, a, 2),
            def: rom_u8(s, a, 3),
            spd: rom_u8(s, a, 4),
            spe: rom_u8(s, a, 5),
            types: [rom_u8(s, a, 6), rom_u8(s, a, 7)],
            capture_rate: rom_u8(s, a, 8),
            base_exp_yield: rom_u8(s, a, 9),
            sprite_front_dim: rom_u8(s, a, 10),
            sprite_front_addr: rom_u16(s, a, 11),
            sprite_back_addr: rom_u16(s, a, 13),
            initial_atk: [rom_u8(s, a, 15), rom_u8(s, a, 16), rom_u8(s, a, 17), rom_u8(s, a, 18)],
            growth_rate: rom_u8(s, a, 19),
            tmhm_flags: [
                rom_u8(s,
                a,
                20),
                rom_u8(s,
                a,
                21),
                rom_u8(s,
                a,
                22),
                rom_u8(s,
                a,
                23),
                rom_u8(s,
                a,
                24),
                rom_u8(s,
                a,
                25),
                rom_u8(s,
                a,
                26),
                rom_u8(s,
                a,
                27),
            ],
        }
    }

    fn read(reader: &mut Reader) -> (r: Result<PokemonHeader, RomError>) {
        if !reader.check_read(28) {
            return Err(RomError::Address);
        }
        let v = PokemonHeader {
            id: reader.peek_u8(0),
            hp: reader.peek_u8(1),
            atk: reader.peek_u8(2),
            def: reader.peek_u8(3),
            spd: reader.peek_u8(4),
            spe: reader.peek_u8(5),
            types: [reader.peek_u8(6), reader.peek_u8(7)],
            capture_rate: reader.peek_u8(8),
            base_exp_yield: reader.peek_u8(9),
            sprite_front_dim: reader.peek_u8(10),
            sprite_front_addr: reader.peek_u16(11),
            sprite_back_addr: reader.peek_u16(13),
            initial_atk: [
                reader.peek_u8(15),
                reader.peek_u8(16),
                reader.peek_u8(17),
                reader.peek_u8(18),
            ],
            growth_rate: reader.peek_u8(19),
            tmhm_flags: [
                reader.peek_u8(20),
                reader.peek_u8(21),
                reader.peek_u8(22),
                reader.peek_u8(23),
                reader.peek_u8(24),
                reader.peek_u8(25),
                reader.peek_u8(26),
                reader.peek_u8(27),
            ],
        };
        reader.advance(28);
        Ok(v)
    }

    fn size() -> (n: usize) {
        28
    }
}

/// Header of a location: tileset, height and width in blocks, pointers, and the
/// connection-direction bitmask.
#[derive(Default, Debug, Clone, Copy, PartialEq, Eq, Structural)]
pub struct MapHeader {
    pub tileset_id: u8,
    pub h: u8,
    pub w: u8,
    pub map_ptr: u16,
    pub text_ptr: u16,
    pub script_ptr: u16,
    pub connect_byte: u8,
}

impl RomStructure for MapHeader {
    open spec fn width() -> int {
        10
    }

    open spec fn decoded(s: Seq<u8>, a: Addr) -> MapHeader {
        MapHeader {
            tileset_id: rom_u8(s, a, 0),
            h: rom_u8(s, a, 1),
            w: rom_u8(s, a, 2),
            map_ptr: rom_u16(s, a, 3),
            text_ptr: rom_u16(s, a, 5),
            script_ptr: rom_u16(s, a, 7),
            connect_byte: rom_u8(s, a, 9),
        }
    }

    fn read(reader: &mut Reader) -> (r: Result<MapHeader, RomError>) {
        if !reader.check_read(10) {
            return Err(RomError::Address);
        }
        let v = MapHeader {
            tileset_id: reader.peek_u8(0),
            h: reader.peek_u8(1),
            w: reader.peek_u8(2),
            map_ptr: reader.peek_u16(3),
            text_ptr: reader.peek_u16(5),
            script_ptr: reader.peek_u16(7),
            connect_byte: reader.peek_u8(9),
        };
        reader.advance(10);
        Ok(v)
    }

    fn size() -> (n: usize) {
        10
    }
}

/// One directional connection to a neighbouring location.
#[derive(Debug, Clone, Copy, PartialEq, Eq, Structural)]
pub struct MapConnection {
    pub map_id: u8,
    pub blocks_src: u16,
    pub blocks_dst: u16,
    pub length: u8,
    pub width: u8,
    pub y_align: u8,
    pub x_align: u8,
    pub window: u16,
}

impl RomStructure for MapConnection {
    open spec fn width() -> int {
        11
    }

    open spec fn decoded(s: Seq<u8>, a: Addr) -> MapConnection {
        MapConnection {
            map_id: rom_u8(s, a, 0),
            blocks_src: rom_u16(s, a, 1),
            blocks_dst: rom_u16(s, a, 3),
            length: rom_u8(s, a, 5),
            width: rom_u8(s, a, 6),
            y_align: rom_u8(s, a, 7),
            x_align: rom_u8(s, a, 8),
            window: rom_u16(s, a, 9),
        }
    }

    fn read(reader: &mut Reader) -> (r: Result<MapConnection, RomError>) {
        if !reader.check_read(11) {
            return Err(RomError::Address);
        }
        let v = MapConnection {
            map_id: reader.peek_u8(0),
            blocks_src: reader.peek_u16(1),
            blocks_dst: reader.peek_u16(3),
            length: reader.peek_u8(5),
            width: reader.peek_u8(6),
            y_align: reader.peek_u8(7),
            x_align: reader.peek_u8(8),
            window: reader.peek_u16(9),
        };
        reader.advance(11);
        Ok(v)
    }

    fn size() -> (n: usize) {
        11
    }
}

/// A portal to a warp point of another location.
#[derive(Debug, Clone, Copy, PartialEq, Eq, Structural)]
pub struct MapWarp {
    pub y: u8,
    pub x: u8,
    pub to_warp: u8,
    pub to_map: u8,
}

impl RomStructure for MapWarp {
    open spec fn width() -> int {
        4
    }

    open spec fn decoded(s: Seq<u8>, a: Addr) -> MapWarp {
        MapWarp {
            y: rom_u8(s, a, 0),
            x: rom_u8(s, a, 1),
            to_warp: rom_u8(s, a, 2),
            to_map: rom_u8(s, a, 3),
        }
    }

    fn read(reader: &mut Reader) -> (r: Result<MapWarp, RomError>) {
        if !reader.check_read(4) {
            return Err(RomError::Address);
        }
        let v = MapWarp {
            y: reader.peek_u8(0),
            x: reader.peek_u8(1),
            to_warp: reader.peek_u8(2),
            to_map: reader.peek_u8(3),
        };
        reader.advance(4);
        Ok(v)
    }

    fn size() -> (n: usize) {
        4
    }
}

/// A sign and the text it shows.
#[derive(Debug, Clone, Copy, PartialEq, Eq, Structural)]
pub struct MapSign {
    pub y: u8,
    pub x: u8,
    pub text_id: u8,
}

impl RomStructure for MapSign {
    open spec fn width() -> int {
        3
    }

    open spec fn decoded(s: Seq<u8>, a: Addr) -> MapSign {
        MapSign {
            y: rom_u8(s, a, 0),
            x: rom_u8(s, a, 1),
            text_id: rom_u8(s, a, 2),
        }
    }

    fn read(reader: &mut Reader) -> (r: Result<MapSign, RomError>) {
        if !reader.check_read(3) {
            return Err(RomError::Address);
        }
        let v = MapSign {
            y: reader.peek_u8(0),
            x: reader.peek_u8(1),
            text_id: reader.peek_u8(2),
        };
        reader.advance(3);
        Ok(v)
    }

    fn size() -> (n: usize) {
        3
    }
}

/// Where the blocks and tiles of a tileset live.
#[derive(Debug, Clone, Copy, PartialEq, Eq, Structural)]
pub struct Tileset {
    pub bank: u8,
    pub blocks_addr: u16,
    pub tiles_addr: u16,
    pub collisions_addr: u16,
    pub counter_tile0: u8,
    pub counter_tile1: u8,
    pub counter_tile2: u8,
    pub grass_tile: u8,
    pub animation_tile: u8,
}

impl RomStructure for Tileset {
    open spec fn width() -> int {
        12
    }

    open spec fn decoded(s: Seq<u8>, a: Addr) -> Tileset {
        Tileset {
            bank: rom_u8(s, a, 0),
            blocks_addr: rom_u16(s, a, 1),
            tiles_addr: rom_u16(s, a, 3),
            collisions_addr: rom_u16(s, a, 5),
            counter_tile0: rom_u8(s, a, 7),
            counter_tile1: rom_u8(s, a, 8),
            counter_tile2: rom_u8(s, a, 9),
            grass_tile: rom_u8(s, a, 10),
            animation_tile: rom_u8(s, a, 11),
        }
    }

    fn read(reader: &mut Reader) -> (r: Result<Tileset, RomError>) {
        if !reader.check_read(12) {
            return Err(RomError::Address);
        }
        let v = Tileset {
            bank: reader.peek_u8(0),
            blocks_addr: reader.peek_u16(1),
            tiles_addr: reader.peek_u16(3),
            collisions_addr: reader.peek_u16(5),
            counter_tile0: reader.peek_u8(7),
            counter_tile1: reader.peek_u8(8),
            counter_tile2: reader.peek_u8(9),
            grass_tile: reader.peek_u8(10),
            animation_tile: reader.peek_u8(11),
        };
        reader.advance(12);
        Ok(v)
    }

    fn size() -> (n: usize) {
        12
    }
}

/// Where the frames of an entity picture live.
#[derive(Debug, Clone, Copy, PartialEq, Eq, Structural)]
pub struct EntityDecal {
    pub addr: u16,
    pub nb_tiles: u8,
    pub bank: u8,
}

impl RomStructure for EntityDecal {
    open spec fn width() -> int {
        4
    }

    open spec fn decoded(s: Seq<u8>, a: Addr) -> EntityDecal {
        EntityDecal {
            addr: rom_u16(s, a, 0),
            nb_tiles: rom_u8(s, a, 2),
            bank: rom_u8(s, a, 3),
        }
    }

    fn read(reader: &mut Reader) -> (r: Result<EntityDecal, RomError>) {
        if !reader.check_read(4) {
            return Err(RomError::Address);
        }
        let v = EntityDecal {
            addr: reader.peek_u16(0),
            nb_tiles: reader.peek_u8(2),
            bank: reader.peek_u8(3),
        };
        reader.advance(4);
        Ok(v)
    }

    fn size() -> (n: usize) {
        4
    }
}

/// A hidden object: position, content id and the script that handles it.
#[derive(Debug, Clone, Copy, PartialEq, Eq, Structural)]
pub struct HiddenEntry {
    pub y: u8,
    pub x: u8,
    pub id: u8,
    pub bank: u8,
    pub addr: u16,
}

impl RomStructure for HiddenEntry {
    open spec fn width() -> int {
        6
    }

    open spec fn decoded(s: Seq<u8>, a: Addr) -> HiddenEntry {
        HiddenEntry {
            y: rom_u8(s, a, 0),
            x: rom_u8(s, a, 1),
            id: rom_u8(s, a, 2),
            bank: rom_u8(s, a, 3),
            addr: rom_u16(s, a, 4),
        }
    }

    fn read(reader: &mut Reader) -> (r: Result<HiddenEntry, RomError>) {
        if !reader.check_read(6) {
            return Err(RomError::Address);
        }
        let v = HiddenEntry {
            y: reader.peek_u8(0),
            x: reader.peek_u8(1),
            id: reader.peek_u8(2),
            bank: reader.peek_u8(3),
            addr: reader.peek_u16(4),
        };
        reader.advance(6);
        Ok(v)
    }

    fn size() -> (n: usize) {
        6
    }
}

/// Number of active directions among bits 3..0 of a connection bitmask.
pub open spec fn active_directions(cb: u8) -> int {
    (if cb & 8 != 0 { 1int } else { 0 }) + (if cb & 4 != 0 { 1int } else { 0 })
        + (if cb & 2 != 0 { 1int } else { 0 }) + (if cb & 1 != 0 { 1int } else { 0 })
}

impl MapHeader {
    /// Number of directional connections that follow the header.
    pub fn n_cons(&self) -> (r: u8)
        ensures
            r == active_directions(self.connect_byte),
    {
        let cb = self.connect_byte;
        let mut n: u8 = 0;
        if cb & 8 != 0 {
            n = n + 1;
        }
        if cb & 4 != 0 {
            n = n + 1;
        }
        if cb & 2 != 0 {
            n = n + 1;
        }
        if cb & 1 != 0 {
            n = n + 1;
        }
        n
    }
}

/// A person, trainer or object placed on a location. Its width varies: the
/// item or trainer id is present only when bit 7 or 6 of `text_id` is set,
/// and the trainer's party number only when bit 6 is set, so entities are
/// decoded by a sequential walk and never addressed by index.
#[derive(Debug, Clone, Copy, PartialEq, Eq, Structural)]
pub struct MapEntity {
    pub pic_id: u8,
    pub y: u8,
    pub x: u8,
    /// Walking (0xfe) or still (0xff).
    pub movement: u8,
    /// Walking pattern or facing direction.
    pub orientation: u8,
    /// Text id, with the entity kind in bits 7 and 6.
    pub text_id: u8,
    /// Item id (items) or trainer class (trainers).
    pub extra_id: u8,
    /// Party number (trainers).
    pub extra_num: u8,
}

pub open spec fn has_extra_id(text_id: u8) -> bool {
    text_id & 0xc0 != 0
}

pub open spec fn has_extra_num(text_id: u8) -> bool {
    text_id & 0x40 != 0
}

/// Byte width of an entity record whose kind byte is `text_id`.
pub open spec fn entity_width(text_id: u8) -> int {
    6 + (if has_extra_id(text_id) { 1int } else { 0 }) + (if has_extra_num(text_id) { 1int } else { 0 })
}

/// The entity whose record starts at `a`.
pub open spec fn entity_decoded(s: Seq<u8>, a: Addr) -> MapEntity {
    let text_id = rom_u8(s, a, 5);
    MapEntity {
        pic_id: rom_u8(s, a, 0),
        y: rom_u8(s, a, 1),
        x: rom_u8(s, a, 2),
        movement: rom_u8(s, a, 3),
        orientation: rom_u8(s, a, 4),
        text_id,
        extra_id: if has_extra_id(text_id) { rom_u8(s, a, 6) } else { 0 },
        extra_num: if has_extra_num(text_id) { rom_u8(s, a, entity_width(text_id) - 1) } else { 0 },
    }
}

impl MapEntity {
    /// Decodes one entity record of variable width and moves the cursor over it.
    pub fn read(reader: &mut Reader) -> (r: Result<MapEntity, RomError>)
        ensures
            r is Ok <==> old(reader).can_read(6)
                && old(reader).can_read(entity_width(old(reader).byte(5))),
            r is Ok ==> r->Ok_0 == entity_decoded(old(reader).stream@, old(reader).addr)
                && final(reader).moved_from(*old(reader), entity_width(r->Ok_0.text_id)),
            r is Err ==> r->Err_0 == RomError::Address,
    {
        if !reader.check_read(6) {
            return Err(RomError::Address);
        }
        let text_id = reader.peek_u8(5);
        let with_id = text_id & 0xc0 != 0;
        let with_num = text_id & 0x40 != 0;
        let width: usize = 6 + (if with_id { 1usize } else { 0 }) + (if with_num { 1usize } else { 0 });
        if !reader.check_read(width) {
            return Err(RomError::Address);
        }
        let extra_id = if with_id { reader.peek_u8(6) } else { 0 };
        let extra_num = if with_num { reader.peek_u8(width - 1) } else { 0 };
        let v = MapEntity {
            pic_id: reader.peek_u8(0),
            y: reader.peek_u8(1),
            x: reader.peek_u8(2),
            movement: reader.peek_u8(3),
            orientation: reader.peek_u8(4),
            text_id,
            extra_id,
            extra_num,
        };
        reader.advance(width);
        Ok(v)
    }
}

} // verus!
