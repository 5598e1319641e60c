use leptos_image::{Blur, CachedImage, CachedImageOption, Resize};

fn resize(src: &str, quality: u8, width: u32, height: u32) -> CachedImage {
    CachedImage {
        src: src.to_string(),
        option: CachedImageOption::Resize(Resize { quality, width, height }),
    }
}

fn blur(src: &str, width: u32, height: u32, svg_width: u32, svg_height: u32, sigma: u32) -> CachedImage {
    CachedImage {
        src: src.to_string(),
        option: CachedImageOption::Blur(Blur { width, height, svg_width, svg_height, sigma }),
    }
}

#[test]
fn resize_url_is_exact() {
    let img = resize("/hero.png", 75, 800, 600);
    assert_eq!(img.get_url_encoded(), "/cache/image/resize/%2Fhero.png?w=800&h=600&q=75");
}

#[test]
fn blur_url_is_exact() {
    let img = blur("/hero.png", 25, 25, 100, 100, 15);
    assert_eq!(
        img.get_url_encoded(),
        "/cache/image/blur/%2Fhero.png?w=25&h=25&sw=100&sh=100&s=15"
    );
}

#[test]
fn source_is_percent_encoded_as_utf8() {
    let img = resize("caf\u{e9} 1.png", 0, 0, 0);
    assert_eq!(img.get_url_encoded(), "/cache/image/resize/caf%C3%A9%201.png?w=0&h=0&q=0");
}

#[test]
fn unreserved_bytes_stay() {
    let img = resize("aZ09-._~", 100, 4294967295, 10);
    assert_eq!(img.get_url_encoded(), "/cache/image/resize/aZ09-._~?w=4294967295&h=10&q=100");
}

#[test]
fn encoding_is_deterministic() {
    let a = blur("hero.png", 25, 25, 100, 100, 15);
    let b = blur("hero.png", 25, 25, 100, 100, 15);
    assert_eq!(a.get_url_encoded(), a.get_url_encoded());
    assert_eq!(a.get_url_encoded(), b.get_url_encoded());
}

#[test]
fn differing_fields_give_differing_urls() {
    let base = resize("hero.png", 75, 800, 600);
    let others = vec![
        resize("hero.jpg", 75, 800, 600),
        resize("hero.png", 76, 800, 600),
        resize("hero.png", 75, 801, 600),
        resize("hero.png", 75, 800, 601),
        resize("hero.png", 75, 600, 800),
        blur("hero.png", 75, 800, 600, 0, 0),
    ];
    for o in &others {
        assert_ne!(base.get_url_encoded(), o.get_url_encoded());
    }
    let b = blur("hero.png", 25, 25, 100, 100, 15);
    let bs = vec![
        blur("hero.png", 26, 25, 100, 100, 15),
        blur("hero.png", 25, 26, 100, 100, 15),
        blur("hero.png", 25, 25, 101, 100, 15),
        blur("hero.png", 25, 25, 100, 101, 15),
        blur("hero.png", 25, 25, 100, 100, 16),
        blur("hero%2Epng", 25, 25, 100, 100, 15),
    ];
    for o in &bs {
        assert_ne!(b.get_url_encoded(), o.get_url_encoded());
    }
    // an escaped and an unescaped spelling stay apart
    assert_ne!(
        resize("a.png", 1, 1, 1).get_url_encoded(),
        resize("a%2Epng", 1, 1, 1).get_url_encoded()
    );
}

#[test]
fn equality_is_over_all_fields() {
    assert_eq!(resize("a", 1, 2, 3), resize("a", 1, 2, 3));
    assert_ne!(resize("a", 1, 2, 3), resize("b", 1, 2, 3));
    assert_ne!(resize("a", 1, 2, 3), resize("a", 1, 3, 2));
    assert_eq!(resize("a", 1, 2, 3).clone(), resize("a", 1, 2, 3));
}
