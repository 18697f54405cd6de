use studio_core::library::{texture_url, textures, TextureMap};

#[test]
fn texture_urls_point_at_poly_haven_for_photo_sets_only() {
    assert_eq!(
        texture_url("brown_leather", TextureMap::Color).unwrap(),
        "https://dl.polyhaven.org/file/ph-assets/Textures/jpg/2k/brown_leather/brown_leather_albedo_2k.jpg"
    );
    assert_eq!(
        texture_url("red_brick", TextureMap::Color).unwrap(),
        "https://dl.polyhaven.org/file/ph-assets/Textures/jpg/2k/red_brick/red_brick_diff_2k.jpg"
    );
    assert_eq!(
        texture_url("red_brick", TextureMap::Roughness).unwrap(),
        "https://dl.polyhaven.org/file/ph-assets/Textures/jpg/2k/red_brick/red_brick_rough_2k.jpg"
    );
    assert!(texture_url("../../etc", TextureMap::Color).is_none());
    assert!(texture_url("not_in_library", TextureMap::Color).is_none());
    for t in textures() {
        if t.starts_with("proc:") {
            assert!(texture_url(t, TextureMap::Color).is_none());
        } else {
            let u = texture_url(t, TextureMap::Normal).unwrap();
            assert!(u.starts_with("https://dl.polyhaven.org/") && u.ends_with("_nor_gl_2k.jpg"));
        }
    }
}
