use stellar_guesser::textures::{Cubemap, Rectangle, Textures};

#[test]
fn mipmaps_of_a_four_by_four_texture() {
    let data: Vec<u8> = (0u8..16).collect();
    let r = Rectangle::new(4, 4, data.clone());
    assert_eq!(r.mip_map_count(), 3);
    let levels = r.generate_mipmaps();
    assert_eq!(levels.len(), 3);
    assert_eq!((levels[0].width, levels[0].height), (4, 4));
    assert_eq!(levels[0].data, data);
    assert_eq!((levels[1].width, levels[1].height), (2, 2));
    assert_eq!(levels[1].data, vec![3u8, 5, 11, 13]);
    assert_eq!((levels[2].width, levels[2].height), (1, 1));
    assert_eq!(levels[2].data, vec![8u8]);
}

#[test]
fn averages_round_to_nearest() {
    let r = Rectangle::new(2, 2, vec![1u8, 1, 1, 2]);
    assert_eq!(r.generate_mipmaps()[1].data, vec![1u8]);
    let r = Rectangle::new(2, 2, vec![1u8, 2, 2, 2]);
    assert_eq!(r.generate_mipmaps()[1].data, vec![2u8]);
    let r = Rectangle::new(2, 2, vec![255u8, 255, 255, 255]);
    assert_eq!(r.generate_mipmaps()[1].data, vec![255u8]);
}

#[test]
fn chain_stops_at_odd_or_unit_sides() {
    let r = Rectangle::new(6, 4, vec![0u8; 24]);
    assert_eq!(r.mip_map_count(), 2);
    let levels = r.generate_mipmaps();
    assert_eq!(levels.len(), 2);
    assert_eq!((levels[1].width, levels[1].height), (3, 2));
    assert_eq!(levels[1].data.len(), 6);

    let r = Rectangle::new(8, 2, vec![0u8; 16]);
    assert_eq!(r.mip_map_count(), 2);
    assert_eq!(r.generate_mipmaps().len(), 2);

    let r = Rectangle::new(5, 5, Vec::new());
    assert_eq!(r.mip_map_count(), 1);
    assert_eq!(r.generate_mipmaps().len(), 1);
}

#[test]
fn empty_rectangle() {
    let r: Rectangle<u8> = Rectangle::empty();
    assert_eq!((r.width, r.height, r.data.len()), (0, 0, 0));
    assert_eq!(r.mip_map_count(), 1);
    let levels = r.generate_mipmaps();
    assert_eq!(levels.len(), 1);
    assert_eq!(levels[0].width, 0);
}

#[test]
fn count_matches_chain_length() {
    for (w, h) in [(16u32, 16u32), (32, 8), (12, 12), (1, 64), (64, 64)] {
        let r = Rectangle::new(w, h, vec![7u8; (w * h) as usize]);
        let count = r.mip_map_count();
        assert_eq!(r.generate_mipmaps().len() as u32, count);
    }
}

#[test]
fn defaults() {
    let c: Cubemap<u8> = Cubemap::default();
    assert_eq!(c.texture_size, 0);
    assert!(!c.changed);
    for face in c.texture_data.iter() {
        assert_eq!((face.width, face.height, face.data.len()), (0, 0, 0));
    }
    let t = Textures::default();
    assert!(t.clouds_texture_to_upload.is_none());
}
