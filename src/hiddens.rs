use vstd::prelude::*;

use std::collections::HashMap;

use crate::addresses::{
    MAP_HIDDENS_BANK, MAP_HIDDENS_OFFSET, MAP_HIDDEN_COINS_SCRIPT_BANK,
    MAP_HIDDEN_COINS_SCRIPT_OFFSET, MAP_HIDDEN_ITEMS_SCRIPT_BANK, MAP_HIDDEN_ITEMS_SCRIPT_OFFSET,
};
use crate::image::{Image2bpp, SpritePosition, SPRITE_PIXELS_1D, SPRITE_SIZE};
use crate::reader::{Addr, Reader, RomError};
use crate::structures::HiddenEntry;
use crate::text::{append, decimal, get_item_name};

verus! {

broadcast use vstd::std_specs::hash::group_hash_axioms;

/// A hidden object: where it is and, for items and coins, what it holds.
pub struct HiddenInfo {
    pub pos: SpritePosition,
    pub content: Option<String>,
}

/// Byte `k` of the frame drawn around a hidden object, in colour
/// `palette_id`: a full top and bottom row, and a one-pixel border on the
/// left and right of the rows between.
pub open spec fn frame_byte(palette_id: u8, k: int) -> u8 {
    let b = if k % 2 == 0 {
        palette_id >> 1u8
    } else {
        palette_id & 1
    };
    let row = k / 4;
    if row == 0 || row == 15 {
        (b * 0xff) as u8
    } else if k % 4 < 2 {
        b << 7u8
    } else {
        b
    }
}

impl HiddenInfo {
    /// Item scripts name their item, coin scripts their amount; other
    /// hidden objects hold nothing that can be named.
    pub fn new(raw: &HiddenEntry, stream: &Vec<u8>) -> (r: Result<HiddenInfo, RomError>)
        ensures
            r is Ok ==> r->Ok_0.pos == SpritePosition(raw.x, raw.y),
            r is Ok ==> (r->Ok_0.content is None <==> !(raw.bank == MAP_HIDDEN_ITEMS_SCRIPT_BANK
                && raw.addr == MAP_HIDDEN_ITEMS_SCRIPT_OFFSET) && !(raw.bank
                == MAP_HIDDEN_COINS_SCRIPT_BANK && raw.addr == MAP_HIDDEN_COINS_SCRIPT_OFFSET)),
    {
        let pos = SpritePosition(raw.x, raw.y);
        let content = if raw.bank == MAP_HIDDEN_ITEMS_SCRIPT_BANK && raw.addr
            == MAP_HIDDEN_ITEMS_SCRIPT_OFFSET {
            Some(get_item_name(stream, raw.id)?)
        } else if raw.bank == MAP_HIDDEN_COINS_SCRIPT_BANK && raw.addr
            == MAP_HIDDEN_COINS_SCRIPT_OFFSET {
            let mut s = decimal(raw.id);
            append(&mut s, " coins");
            Some(s)
        } else {
            None
        };
        Ok(HiddenInfo { pos, content })
    }

    /// A 16x16 frame to blend over the object's square; `palette_id` (1 to
    /// 3) is the border colour.
    pub fn get_sprite(&self, palette_id: u8) -> (r: Image2bpp)
        requires
            1 <= palette_id <= 3,
        ensures
            r.wf(),
            r.width == SPRITE_PIXELS_1D && r.height == SPRITE_PIXELS_1D,
            forall|k: int| 0 <= k < SPRITE_SIZE ==> #[trigger] r.data@[k] == frame_byte(palette_id, k),
    {
        let b0 = palette_id >> 1;
        let b1 = palette_id & 1;
        assert(b0 <= 1 && b1 <= 1) by (bit_vector)
            requires
                b0 == palette_id >> 1u8,
                b1 == palette_id & 1,
                palette_id <= 3,
        ;
        let mut sprite: Vec<u8> = Vec::new();
        let mut k: usize = 0;
        while k < SPRITE_SIZE
            invariant
                k <= SPRITE_SIZE,
                sprite@.len() == k,
                b0 == palette_id >> 1u8,
                b1 == palette_id & 1,
                b0 <= 1 && b1 <= 1,
                forall|i: int| 0 <= i < k ==> #[trigger] sprite@[i] == frame_byte(palette_id, i),
            decreases SPRITE_SIZE - k,
        {
            let b = if k % 2 == 0 {
                b0
            } else {
                b1
            };
            let row = k / 4;
            let v = if row == 0 || row == 15 {
                b * 0xff
            } else if k % 4 < 2 {
                b << 7
            } else {
                b
            };
            sprite.push(v);
            k = k + 1;
        }
        Image2bpp::from_data(SPRITE_PIXELS_1D, SPRITE_PIXELS_1D, sprite)
    }
}

/// The locations that hold hidden objects, and where their tables are.
pub struct HiddensIndex(pub HashMap<u8, Addr>);

impl HiddensIndex {
    /// Reads the list of location ids, ended by 0xff, then one table
    /// offset per id (in the bank of the list). More than 254 ids is a
    /// consistency error.
    pub fn new(stream: &Vec<u8>) -> (r: Result<HiddensIndex, RomError>)
        ensures
            r is Ok ==> forall|k: u8| #[trigger] r->Ok_0.0@.contains_key(k) ==> k != 0xff,
            r is Ok ==> forall|k: u8| #[trigger] r->Ok_0.0@.contains_key(k) ==> r->Ok_0.0@[k].bank
                == MAP_HIDDENS_BANK,
    {
        let mut reader = Reader::new_at(stream, Addr::new(MAP_HIDDENS_BANK, MAP_HIDDENS_OFFSET));
        let mut map_ids: Vec<u8> = Vec::new();
        loop
            invariant
                reader.stream == stream,
                map_ids@.len() <= 254,
                forall|i: int| 0 <= i < map_ids@.len() ==> #[trigger] map_ids@[i] != 0xff,
            decreases 254 - map_ids@.len(),
        {
            let id = reader.read_u8()?;
            if id == 0xff {
                break;
            }
            if map_ids.len() >= 254 {
                return Err(RomError::Consistency);
            }
            map_ids.push(id);
        }
        let mut hm: HashMap<u8, Addr> = HashMap::new();
        let mut i: usize = 0;
        while i < map_ids.len()
            invariant
                i <= map_ids@.len(),
                reader.stream == stream,
                forall|j: int| 0 <= j < map_ids@.len() ==> #[trigger] map_ids@[j] != 0xff,
                forall|k: u8| #[trigger] hm@.contains_key(k) ==> k != 0xff,
                forall|k: u8| #[trigger] hm@.contains_key(k) ==> hm@[k].bank == MAP_HIDDENS_BANK,
            decreases map_ids@.len() - i,
        {
            let offset = reader.read_u16()?;
            hm.insert(map_ids[i], Addr::new(MAP_HIDDENS_BANK, offset));
            i = i + 1;
        }
        Ok(HiddensIndex(hm))
    }

    /// Where the hidden objects of location `map_id` are listed, if any.
    pub fn get(&self, map_id: u8) -> (r: Option<Addr>)
        ensures
            r is Some <==> self.0@.contains_key(map_id),
            r is Some ==> r->Some_0 == self.0@[map_id],
    {
        match self.0.get(&map_id) {
            Some(a) => Some(*a),
            None => None,
        }
    }
}

} // verus!
