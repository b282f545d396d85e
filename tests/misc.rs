use rom_extractor::addresses::get_pic_bank_from_rom_pkmn_id;
use rom_extractor::entities::reverse_bits;
use rom_extractor::hiddens::HiddenInfo;
use rom_extractor::image::{Image24bpp, Image2bpp, SpritePosition};
use rom_extractor::structures::MapEntity;

#[test]
fn picture_banks() {
    assert_eq!(get_pic_bank_from_rom_pkmn_id(0x15), 0x01);
    assert_eq!(get_pic_bank_from_rom_pkmn_id(0xb6), 0x0b);
    assert_eq!(get_pic_bank_from_rom_pkmn_id(0x1e), 0x09);
    assert_eq!(get_pic_bank_from_rom_pkmn_id(0x1f), 0x0a);
    assert_eq!(get_pic_bank_from_rom_pkmn_id(0x98), 0x0c);
    assert_eq!(get_pic_bank_from_rom_pkmn_id(0x99), 0x0d);
}

#[test]
fn generator_and_choice() {
    let mut rng: u32 = 1;
    let v = MapEntity::random_choice(&mut rng, vec![10, 20, 30]);
    assert_eq!(rng, 1664525u32.wrapping_add(1013904223));
    assert_eq!(v, [10, 20, 30][(rng as usize) % 3]);
}

#[test]
fn mirrored_sprite() {
    let mut sprite: Vec<u8> = vec![0u8; 64];
    sprite[0] = 0b1000_0000;
    sprite[3] = 0b0000_0011;
    MapEntity::hflip_sprite(&mut sprite);
    assert_eq!(sprite[2], 0b0000_0001);
    assert_eq!(sprite[1], 0b1100_0000);
    assert_eq!(reverse_bits(0b1011_0000), 0b0000_1101);
}

#[test]
fn hidden_object_frame() {
    let h = HiddenInfo { pos: SpritePosition(1, 2), content: None };
    let img = h.get_sprite(2);
    assert_eq!(img.width, 16);
    assert_eq!(&img.data[0..4], &[0xff, 0, 0xff, 0]);
    assert_eq!(&img.data[4..8], &[0x80, 0, 0x01, 0]);
    assert_eq!(&img.data[60..64], &[0xff, 0, 0xff, 0]);
}

#[test]
fn grey_conversion_and_blend() {
    let mut img = Image2bpp::new(8, 1);
    img.data[0] = 0b1000_0000;
    img.data[1] = 0b1100_0000;
    let rgb = Image24bpp::from_2bpp(&img);
    assert_eq!(rgb.data.len(), 24);
    assert_eq!(&rgb.data[0..3], &[0x10, 0x10, 0x10]);
    assert_eq!(&rgb.data[3..6], &[0x58, 0x58, 0x58]);
    assert_eq!(&rgb.data[6..9], &[0xe8, 0xe8, 0xe8]);
    let mut canvas = Image24bpp::new(16, 2);
    canvas.blend(&rgb, 8, 1);
    assert_eq!(&canvas.data[16 * 3 + 24..16 * 3 + 27], &[0x10, 0x10, 0x10]);
    assert_eq!(&canvas.data[0..3], &[0, 0, 0]);
}
