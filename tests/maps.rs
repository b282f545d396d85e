use std::collections::HashMap;

use rom_extractor::hiddens::HiddensIndex;
use rom_extractor::maps::{
    fit_overworld, Boundaries, Cache, MapsScanner, Orientation, Placement, ScannedMap, SpriteCoords,
};
use rom_extractor::reader::{Addr, RomError};
use rom_extractor::structures::{MapConnection, MapHeader};

fn header(h: u8, w: u8) -> MapHeader {
    MapHeader { tileset_id: 0, h, w, map_ptr: 0, text_ptr: 0, script_ptr: 0, connect_byte: 0 }
}

fn connection(y_align: u8, x_align: u8) -> MapConnection {
    MapConnection {
        map_id: 1,
        blocks_src: 0,
        blocks_dst: 0,
        length: 0,
        width: 0,
        y_align,
        x_align,
        window: 0,
    }
}

#[test]
fn south_connection_offset() {
    let pos = SpriteCoords { x: 10, y: 10 };
    let r = pos.offset(Orientation::S, &header(4, 5), &connection(0, (-3i8) as u8)).unwrap();
    assert_eq!(r, SpriteCoords { x: 7, y: 18 });
}

#[test]
fn other_direction_offsets() {
    let pos = SpriteCoords { x: 10, y: 10 };
    let n = pos.offset(Orientation::N, &header(4, 5), &connection(5, 2)).unwrap();
    assert_eq!(n, SpriteCoords { x: 8, y: 4 });
    let w = pos.offset(Orientation::W, &header(4, 5), &connection(0xfe, 7)).unwrap();
    assert_eq!(w, SpriteCoords { x: 2, y: 12 });
    let e = pos.offset(Orientation::E, &header(4, 5), &connection(1, 0)).unwrap();
    assert_eq!(e, SpriteCoords { x: 20, y: 9 });
}

#[test]
fn misaligned_connection_is_rejected() {
    let pos = SpriteCoords::new();
    assert_eq!(
        pos.offset(Orientation::S, &header(1, 1), &connection(1, 0)),
        Err(RomError::Consistency)
    );
    assert_eq!(
        pos.offset(Orientation::E, &header(1, 1), &connection(0, 1)),
        Err(RomError::Consistency)
    );
}

#[test]
fn bounding_box_normalisation() {
    let mut places = vec![
        Placement { coords: Some(SpriteCoords { x: -5, y: 2 }), width: 4, height: 4 },
        Placement { coords: None, width: 9, height: 9 },
        Placement { coords: Some(SpriteCoords { x: 10, y: 20 }), width: 4, height: 4 },
    ];
    assert_eq!(fit_overworld(&mut places), Ok((23, 26)));
    assert_eq!(places[0].coords, Some(SpriteCoords { x: 0, y: 0 }));
    assert_eq!(places[1].coords, None);
    assert_eq!(places[2].coords, Some(SpriteCoords { x: 15, y: 18 }));
}

#[test]
fn no_placed_location_is_an_error() {
    let mut places = vec![Placement { coords: None, width: 1, height: 1 }];
    assert_eq!(fit_overworld(&mut places), Err(RomError::Consistency));
}

#[test]
fn boundaries_stretch() {
    let mut b = Boundaries::new();
    b.stretch(SpriteCoords { x: -5, y: 2 }, 4, 4);
    b.stretch(SpriteCoords { x: 10, y: 20 }, 4, 4);
    assert_eq!(b.min, SpriteCoords { x: -5, y: 2 });
    assert_eq!(b.max, SpriteCoords { x: 18, y: 28 });
}

/// An image with two locations: 0 has a South connection to 1 and a warp
/// to 1; 1 has a warp back to 0.
fn two_location_rom() -> Vec<u8> {
    let mut rom = vec![0u8; 0x10000];
    // Banks (0x03:0x423d) and header pointers (0x00:0x01ae).
    rom[0xc23d] = 0;
    rom[0xc23e] = 0;
    rom[0x1ae] = 0x00;
    rom[0x1af] = 0x10;
    rom[0x1b0] = 0x00;
    rom[0x1b1] = 0x12;
    // Location 0 at 0x1000: 1x1 blocks, South connection.
    rom[0x1000..0x100a].copy_from_slice(&[0, 1, 1, 0, 0, 0, 0, 0, 0, 0b0100]);
    rom[0x100a..0x1015].copy_from_slice(&[1, 0, 0, 0, 0, 0, 0, 0, 0xfd, 0, 0]);
    rom[0x1015] = 0x00;
    rom[0x1016] = 0x11;
    // Extension at 0x1100: border, one warp to 1, no sign, no entity.
    rom[0x1100..0x1108].copy_from_slice(&[0, 1, 3, 4, 0, 1, 0, 0]);
    // Location 1 at 0x1200: no connection; extension at 0x1300.
    rom[0x1200..0x120a].copy_from_slice(&[0, 2, 2, 0, 0, 0, 0, 0, 0, 0]);
    rom[0x120a] = 0x00;
    rom[0x120b] = 0x13;
    rom[0x1300..0x1308].copy_from_slice(&[0, 1, 5, 6, 0, 0, 0, 0]);
    rom
}

#[test]
fn scanned_location_decodes_header_and_tables() {
    let rom = two_location_rom();
    let m = ScannedMap::new(&rom, Addr::new(0, 0x1000), SpriteCoords::new()).unwrap();
    assert_eq!(m.header.connect_byte, 0b0100);
    assert_eq!(m.connections.len(), 1);
    assert_eq!(m.connections[0].x_align, 0xfd);
    assert_eq!(m.warps.len(), 1);
    assert_eq!(m.warps[0].to_map, 1);
    assert_eq!(m.signs.len(), 0);
    assert_eq!(m.entities.len(), 0);
}

#[test]
fn location_reached_twice_is_decoded_once() {
    let rom = two_location_rom();
    let mut scanner = MapsScanner {
        stream: &rom,
        hiddens: HiddensIndex(HashMap::new()),
        maps: Cache::new(),
    };
    assert_eq!(scanner.recursive_scan(0, SpriteCoords::new()), Ok(()));
    assert!(scanner.maps.is_filled(0));
    assert!(scanner.maps.is_filled(1));
    // The warp is followed first: location 1 keeps the origin it was first
    // reached with, and the connection finds it already decoded.
    assert_eq!(scanner.maps.entry(1).unwrap().coords, SpriteCoords { x: 0, y: 0 });
    assert_eq!(scanner.maps.entry(0).unwrap().coords, SpriteCoords { x: 0, y: 0 });
    for id in 2..=255u8 {
        assert!(!scanner.maps.is_filled(id));
    }
    // A second visit is a no-op.
    assert_eq!(scanner.recursive_scan(1, SpriteCoords { x: 50, y: 50 }), Ok(()));
    assert_eq!(scanner.maps.entry(1).unwrap().coords, SpriteCoords { x: 0, y: 0 });
}

#[test]
fn sentinel_ids_end_the_walk() {
    let rom = two_location_rom();
    let mut scanner = MapsScanner {
        stream: &rom,
        hiddens: HiddensIndex(HashMap::new()),
        maps: Cache::new(),
    };
    assert_eq!(scanner.recursive_scan(0xff, SpriteCoords::new()), Ok(()));
    assert_eq!(scanner.recursive_scan(0xed, SpriteCoords::new()), Ok(()));
    for id in 0..=255u8 {
        assert!(!scanner.maps.is_filled(id));
    }
}

#[test]
fn orientations_follow_reversed_bits() {
    let mut h = header(1, 1);
    h.connect_byte = 0b1001;
    assert_eq!(MapsScanner::orientations(&h), vec![Orientation::N, Orientation::E]);
    h.connect_byte = 0b0110;
    assert_eq!(MapsScanner::orientations(&h), vec![Orientation::S, Orientation::W]);
}

use rom_extractor::image::Image24bpp;
use rom_extractor::maps::{LoadedMap, MapInfo, Maps};
use rom_extractor::wild::WildPokemonsInfo;

fn loaded(coords: Option<SpriteCoords>, width: u8, height: u8) -> LoadedMap {
    LoadedMap {
        info: MapInfo {
            warps: Vec::new(),
            signs: Vec::new(),
            entities: Vec::new(),
            wild_pkmn: WildPokemonsInfo { grass: None, water: None },
            hiddens: Vec::new(),
            coords,
            width,
            height,
            pic_path: String::new(),
        },
        pic: Image24bpp::new(8, 8),
        trainer_class_ids: Vec::new(),
        conflicting_markers: Vec::new(),
        outside_markers: Vec::new(),
    }
}

#[test]
fn scanned_locations_shifted_to_origin() {
    let maps = vec![
        Some(loaded(Some(SpriteCoords { x: -5, y: 2 }), 4, 4)),
        None,
        Some(loaded(None, 7, 3)),
        Some(loaded(Some(SpriteCoords { x: 10, y: 20 }), 4, 4)),
    ];
    let world = Maps::from_scanned(maps).unwrap();
    assert_eq!((world.overworld_info.width, world.overworld_info.height), (23, 26));
    assert_eq!(world.maps[0].as_ref().unwrap().info.coords, Some(SpriteCoords { x: 0, y: 0 }));
    assert!(world.maps[1].is_none());
    assert_eq!(world.maps[2].as_ref().unwrap().info.coords, None);
    assert_eq!(world.maps[3].as_ref().unwrap().info.coords, Some(SpriteCoords { x: 15, y: 18 }));
}
