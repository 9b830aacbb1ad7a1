use raytrace::colour::{pack_rgb24, unpack_rgb24};

#[test]
fn red_packs_into_the_high_byte() {
    assert_eq!(pack_rgb24(255, 0, 0), 0xFF0000);
}

#[test]
fn green_packs_into_the_middle_byte() {
    assert_eq!(pack_rgb24(0, 255, 0), 0x00FF00);
}

#[test]
fn blue_packs_into_the_low_byte() {
    assert_eq!(pack_rgb24(0, 0, 255), 0x0000FF);
}

#[test]
fn packing_orders_the_channels() {
    assert_eq!(pack_rgb24(0x12, 0x34, 0x56), 0x123456);
    assert_eq!(pack_rgb24(0, 0, 0), 0);
    assert_eq!(pack_rgb24(255, 255, 255), 0xFFFFFF);
}

#[test]
fn unpacking_orders_the_channels() {
    assert_eq!(unpack_rgb24(0x123456), (0x12, 0x34, 0x56));
    assert_eq!(unpack_rgb24(0xFF0000), (255, 0, 0));
}

#[test]
fn unpacking_ignores_the_top_byte() {
    assert_eq!(unpack_rgb24(0xAB123456), (0x12, 0x34, 0x56));
}

#[test]
fn unpack_undoes_pack() {
    let samples: [(u8, u8, u8); 5] =
        [(0, 0, 0), (255, 255, 255), (1, 2, 3), (200, 100, 50), (0, 255, 0)];
    for (r, g, b) in samples {
        assert_eq!(unpack_rgb24(pack_rgb24(r, g, b)), (r, g, b));
    }
}

#[test]
fn pack_undoes_unpack() {
    let samples: [u32; 4] = [0, 0xFFFFFF, 0x010203, 0x7F00FF];
    for rgb24 in samples {
        let (r, g, b) = unpack_rgb24(rgb24);
        assert_eq!(pack_rgb24(r, g, b), rgb24);
    }
}
