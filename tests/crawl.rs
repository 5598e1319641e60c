use leptos_image::cache::blur_targets;
use leptos_image::image::{
    background_image, blur_image, inline_background, is_external_source, placeholder_for,
    placeholder_style, plan_image, register_image, request_background, resize_image, ImagePlan,
    SvgImage,
};
use leptos_image::introspect::{is_static_route, request_url, static_paths};
use leptos_image::{Crawl, ImageRegistry, PlaceholderCache, RenderOutcome};

fn strings(v: &[&str]) -> Vec<String> {
    v.iter().map(|s| s.to_string()).collect()
}

/// The images that the page at `path` of a small site references.
fn render(path: &str) -> Vec<leptos_image::CachedImage> {
    let mut registry = ImageRegistry::new();
    if path == "/" {
        register_image(&mut registry, &"hero.png".to_string(), 800, 600, 75, true);
    }
    registry.contents()
}

#[test]
fn variable_segments_are_dropped() {
    let routes = strings(&["/", "/about", "/post/:id", "/files/*rest", "/a:b", ":x", "/x/y"]);
    assert_eq!(static_paths(&routes), strings(&["/", "/about", "/a:b", "/x/y"]));
    assert!(!is_static_route("/user/:id/edit"));
    assert!(is_static_route(""));
}

#[test]
fn synthetic_request_targets_path() {
    assert_eq!(request_url(&"/about".to_string()), "http://leptos.dev/about");
}

#[test]
fn registry_records_in_order() {
    let mut registry = ImageRegistry::new();
    assert!(registry.contents().is_empty());
    register_image(&mut registry, &"a.png".to_string(), 10, 20, 75, false);
    register_image(&mut registry, &"b.png".to_string(), 30, 40, 50, true);
    register_image(&mut registry, &"https://example.com/c.png".to_string(), 1, 1, 1, true);
    let got = registry.contents();
    assert_eq!(got.len(), 3);
    assert_eq!(got[0], resize_image(&"a.png".to_string(), 10, 20, 75));
    assert_eq!(got[1], resize_image(&"b.png".to_string(), 30, 40, 50));
    assert_eq!(got[2], blur_image(&"b.png".to_string()));
}

#[test]
fn registries_do_not_leak_between_renders() {
    let home = render("/");
    let about = render("/about");
    assert_eq!(home.len(), 2);
    assert!(about.is_empty());
}

#[test]
fn example_site_warm_up() {
    let paths = static_paths(&strings(&["/", "/about"]));
    assert_eq!(paths, strings(&["/", "/about"]));
    let mut crawl = Crawl::new();
    for p in &paths {
        crawl.record(p, &RenderOutcome::Rendered(render(p)));
    }
    let found = crawl.images();
    let hero = "hero.png".to_string();
    assert_eq!(found.len(), 2);
    assert!(found.contains(&blur_image(&hero)));
    assert!(found.contains(&resize_image(&hero, 800, 600, 75)));
    let targets = blur_targets(&found);
    assert_eq!(targets, vec![blur_image(&hero)]);
    let generated: Vec<_> = found.iter().map(|i| (i.clone(), Some("<svg/>".to_string()))).collect();
    let mut cache = PlaceholderCache::new();
    cache.warm_up(&generated);
    assert_eq!(cache.len(), 1);
    assert_eq!(cache.get(&blur_image(&hero)), Some(&"<svg/>".to_string()));
    assert_eq!(cache.get(&resize_image(&hero, 800, 600, 75)), None);
}

#[test]
fn duplicates_across_paths_are_merged() {
    let mut crawl = Crawl::new();
    crawl.record(&"/".to_string(), &RenderOutcome::Rendered(render("/")));
    crawl.record(&"/again".to_string(), &RenderOutcome::Rendered(render("/")));
    assert_eq!(crawl.images().len(), 2);
}

#[test]
fn failed_render_is_not_merged() {
    let mut crawl = Crawl::new();
    crawl.record(&"/broken".to_string(), &RenderOutcome::Failed);
    assert!(crawl.images().is_empty());
    assert_eq!(crawl.failed_paths(), strings(&["/broken"]));
}

#[test]
fn warm_up_twice_is_idempotent() {
    let hero = "hero.png".to_string();
    let generated = vec![
        (blur_image(&hero), Some("one".to_string())),
        (blur_image(&"x.png".to_string()), Some("two".to_string())),
        (resize_image(&hero, 1, 1, 1), Some("three".to_string())),
    ];
    let mut cache = PlaceholderCache::new();
    cache.warm_up(&generated);
    assert_eq!(cache.len(), 2);
    cache.warm_up(&generated);
    assert_eq!(cache.len(), 2);
    assert_eq!(cache.get(&blur_image(&hero)), Some(&"one".to_string()));
    assert_eq!(cache.get(&blur_image(&"x.png".to_string())), Some(&"two".to_string()));
}

#[test]
fn failed_transform_is_left_out() {
    let mut cache = PlaceholderCache::new();
    cache.warm_up(&vec![(blur_image(&"a.png".to_string()), None)]);
    assert_eq!(cache.len(), 0);
    assert_eq!(cache.get(&blur_image(&"a.png".to_string())), None);
}

#[test]
fn insert_is_write_once() {
    let mut cache = PlaceholderCache::new();
    let key = blur_image(&"a.png".to_string());
    assert!(cache.insert(key.clone(), "first".to_string()));
    assert!(!cache.insert(key.clone(), "second".to_string()));
    assert_eq!(cache.get(&key), Some(&"first".to_string()));
    assert_eq!(cache.len(), 1);
}

#[test]
fn external_sources_bypass() {
    assert!(is_external_source("https://example.com/a.png"));
    assert!(is_external_source("http"));
    assert!(!is_external_source("/http.png"));
    assert!(!is_external_source("htt"));
    let cache = PlaceholderCache::new();
    match plan_image(&"http://x/a.png".to_string(), 1, 1, 1, true, &cache) {
        ImagePlan::External(s) => assert_eq!(s, "http://x/a.png"),
        _ => panic!("external source was rewritten"),
    }
}

#[test]
fn plain_image_uses_resize_url() {
    let cache = PlaceholderCache::new();
    match plan_image(&"/a.png".to_string(), 800, 600, 75, false, &cache) {
        ImagePlan::Plain(u) => assert_eq!(u, "/cache/image/resize/%2Fa.png?w=800&h=600&q=75"),
        _ => panic!("expected a plain image"),
    }
}

#[test]
fn placeholder_inlined_on_hit() {
    let mut cache = PlaceholderCache::new();
    cache.insert(blur_image(&"a.png".to_string()), "<svg/>".to_string());
    match placeholder_for(&cache, &"a.png".to_string()) {
        SvgImage::InMemory(s) => assert_eq!(s, "<svg/>"),
        SvgImage::Request(_) => panic!("cached placeholder not used"),
    }
    match plan_image(&"a.png".to_string(), 8, 6, 75, true, &cache) {
        ImagePlan::Placeholder { src, style } => {
            assert_eq!(src, "/cache/image/resize/a.png?w=8&h=6&q=75");
            assert_eq!(
                style,
                "color:transparent;background-size:cover;background-position:50% 50%;background-repeat:no-repeat;background-image:url('data:image/svg+xml;base64,PHN2Zy8+');"
            );
        }
        _ => panic!("expected a placeholder"),
    }
}

#[test]
fn placeholder_requested_on_miss() {
    let cache = PlaceholderCache::new();
    match placeholder_for(&cache, &"a.png".to_string()) {
        SvgImage::Request(u) => {
            assert_eq!(u, "/cache/image/blur/a.png?w=25&h=25&sw=100&sh=100&s=15")
        }
        SvgImage::InMemory(_) => panic!("nothing was cached"),
    }
    let bg = background_image(&SvgImage::Request("/x".to_string()));
    assert_eq!(bg, "url('/x')");
}

#[test]
fn background_pieces_are_exact() {
    assert_eq!(inline_background("QUJD"), "url('data:image/svg+xml;base64,QUJD')");
    assert_eq!(request_background("/u"), "url('/u')");
    assert_eq!(placeholder_style("none"), "color:transparent;background-size:cover;background-position:50% 50%;background-repeat:no-repeat;background-image:none;");
    assert_eq!(
        background_image(&SvgImage::InMemory("ABC".to_string())),
        "url('data:image/svg+xml;base64,QUJD')"
    );
    assert_eq!(
        background_image(&SvgImage::InMemory("".to_string())),
        "url('data:image/svg+xml;base64,')"
    );
}
