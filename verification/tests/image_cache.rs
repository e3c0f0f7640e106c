use makepad::image::{
    cached_image, image_format, image_lookup, keep_texture, load_outcome, remember_image, texture_desc_for,
    ImageBuffer, ImageFormat, ImageLoadError, ImageLookup, LRUCache,
};
use makepad::widget::{Texture, TextureDesc, TextureFormat};

#[test]
fn new_buffer_is_black() {
    let b = ImageBuffer::new(3, 2);
    assert_eq!(b.width, 3);
    assert_eq!(b.height, 2);
    assert_eq!(b.data, vec![0u32; 6]);
}

#[test]
fn get_after_put_returns_value() {
    let mut c = LRUCache::new(2);
    let mut b = ImageBuffer::new(1, 1);
    b.data[0] = 7;
    c.put("a.png", b);
    let got = c.get("a.png").unwrap();
    assert_eq!(got.data, vec![7]);
    assert!(c.get("b.png").is_none());
}

fn buffer(tag: u32) -> ImageBuffer {
    let mut b = ImageBuffer::new(1, 1);
    b.data[0] = tag;
    b
}

#[test]
fn full_cache_evicts_least_recently_used() {
    let mut c = LRUCache::new(2);
    c.put("a", buffer(1));
    c.put("b", buffer(2));
    // Reading `a` makes `b` the least recently used.
    assert_eq!(c.get("a").unwrap().data, vec![1]);
    c.put("c", buffer(3));
    assert!(c.get("b").is_none());
    assert_eq!(c.get("a").unwrap().data, vec![1]);
    assert_eq!(c.get("c").unwrap().data, vec![3]);
}

#[test]
fn put_replaces_value() {
    let mut c = LRUCache::new(3);
    c.put("a", buffer(1));
    c.put("a", buffer(2));
    assert_eq!(c.get("a").unwrap().data, vec![2]);
}

#[test]
fn repeated_keys_can_overfill_the_cache() {
    // A key put twice sits twice in the recency order; evicting its stale
    // copy removes nothing, so the cache ends up over its capacity.
    let mut c = LRUCache::new(2);
    c.put("a", buffer(1));
    c.put("a", buffer(1));
    c.put("b", buffer(2));
    c.put("c", buffer(3));
    c.put("d", buffer(4));
    assert!(c.get("a").is_none());
    assert_eq!(c.get("b").unwrap().data, vec![2]);
    assert_eq!(c.get("c").unwrap().data, vec![3]);
    assert_eq!(c.get("d").unwrap().data, vec![4]);
}

#[test]
fn zero_capacity_cache_still_stores() {
    let mut c = LRUCache::new(0);
    c.put("a", buffer(1));
    assert_eq!(c.get("a").unwrap().data, vec![1]);
}

#[test]
fn duplicate_copies_buffer() {
    let b = buffer(9);
    let d = b.duplicate();
    assert_eq!(d.width, 1);
    assert_eq!(d.height, 1);
    assert_eq!(d.data, vec![9]);
}

#[test]
fn image_format_by_extension() {
    assert_eq!(image_format("x/photo.jpg"), ImageFormat::Jpeg);
    assert_eq!(image_format("icon.png"), ImageFormat::Png);
    assert_eq!(image_format("icon.PNG"), ImageFormat::Unsupported);
    assert_eq!(image_format("a.jpeg"), ImageFormat::Unsupported);
    assert_eq!(image_format(".png"), ImageFormat::Png);
    assert_eq!(image_format("png"), ImageFormat::Unsupported);
    assert_eq!(image_format(""), ImageFormat::Unsupported);
}

#[test]
fn cached_image_skips_empty_path() {
    let mut c = LRUCache::new(2);
    c.put("", buffer(1));
    assert!(cached_image(&mut c, "").is_none());
    assert!(cached_image(&mut c, "b.png").is_none());
    let kept = remember_image(&mut c, "b.png", buffer(5));
    assert_eq!(kept.data, vec![5]);
    assert_eq!(cached_image(&mut c, "b.png").unwrap().data, vec![5]);
}

#[test]
fn default_buffer_is_empty() {
    let b = ImageBuffer::default();
    assert_eq!(b.width, 0);
    assert_eq!(b.height, 0);
    assert!(b.data.is_empty());
}

#[test]
fn image_lookup_steps() {
    let mut c = LRUCache::new(2);
    assert!(matches!(image_lookup(&mut c, true, "a.png"), ImageLookup::Skip));
    assert!(matches!(image_lookup(&mut c, false, ""), ImageLookup::Skip));
    assert!(matches!(image_lookup(&mut c, false, "a.png"), ImageLookup::Load));
    remember_image(&mut c, "a.png", buffer(4));
    match image_lookup(&mut c, false, "a.png") {
        ImageLookup::Cached(b) => assert_eq!(b.data, vec![4]),
        other => panic!("unexpected {:?}", other),
    }
    assert!(matches!(image_lookup(&mut c, true, "a.png"), ImageLookup::Skip));
}

#[test]
fn texture_desc_has_image_size() {
    let b = ImageBuffer::new(3, 5);
    assert_eq!(
        texture_desc_for(&b),
        TextureDesc { format: TextureFormat::ImageBGRA, width: Some(3), height: Some(5) }
    );
}

#[test]
fn load_outcome_reports_errors() {
    assert_eq!(load_outcome("a.png", false, Some(buffer(1))).unwrap_err(), ImageLoadError::ResourceNotLoaded);
    assert_eq!(load_outcome("a.gif", true, Some(buffer(1))).unwrap_err(), ImageLoadError::TypeNotSupported);
    assert_eq!(load_outcome("a.jpg", true, None).unwrap_err(), ImageLoadError::DecodingFailed);
    assert_eq!(load_outcome("a.png", true, Some(buffer(6))).unwrap().data, vec![6]);
}

#[test]
fn keep_texture_keeps_the_first() {
    let mut slot = None;
    let img = ImageBuffer::new(2, 3);
    let (t, desc) = keep_texture(&mut slot, Texture { texture_id: 1 }, &img);
    assert_eq!(t, Texture { texture_id: 1 });
    assert_eq!(slot, Some(Texture { texture_id: 1 }));
    assert_eq!(desc, TextureDesc { format: TextureFormat::ImageBGRA, width: Some(2), height: Some(3) });
    let (t, _) = keep_texture(&mut slot, Texture { texture_id: 2 }, &img);
    assert_eq!(t, Texture { texture_id: 1 });
    assert_eq!(slot, Some(Texture { texture_id: 1 }));
}

#[test]
fn full_cache_drops_least_recently_used_after_lookups() {
    let mut c = LRUCache::new(3);
    c.put("a", buffer(1));
    c.put("b", buffer(2));
    c.put("c", buffer(3));
    assert!(c.get("a").is_some());
    assert!(c.get("x").is_none());
    assert!(c.get("b").is_some());
    c.put("d", buffer(4));
    assert!(c.get("c").is_none());
    assert_eq!(c.get("a").unwrap().data, vec![1]);
    assert_eq!(c.get("b").unwrap().data, vec![2]);
    assert_eq!(c.get("d").unwrap().data, vec![4]);
}
