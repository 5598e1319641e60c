//! What an image element needs: its registry entries, its URLs and its placeholder style.
use vstd::prelude::*;
use vstd::string::*;
use base64::Engine as _;
use crate::cache::PlaceholderCache;
use crate::introspect::ImageRegistry;
use crate::optimizer::{Blur, CachedImage, CachedImageOption, ImageId, Resize, url_of};

verus! {

/// Base64, standard alphabet with padding, of a byte string.
pub uninterp spec fn base64_of(bytes: Seq<u8>) -> Seq<char>;

/// Relies on `base64::engine::general_purpose::STANDARD.encode`: the padded standard
/// Base64 of the bytes, four characters for each started group of three bytes. It panics
/// only when that length overflows `usize`.
#[verifier::external_body]
fn base64_standard(bytes: &[u8]) -> (r: String)
    requires
        bytes@.len() <= usize::MAX / 2,
    ensures
        r@ == base64_of(bytes@),
        r@.len() == 4 * ((bytes@.len() + 2) / 3),
{
    base64::engine::general_purpose::STANDARD.encode(bytes)
}

/// A source that names an external resource; such images bypass the pipeline.
pub open spec fn is_external(src: Seq<char>) -> bool {
    src.len() >= 4 && src[0] == 'h' && src[1] == 't' && src[2] == 't' && src[3] == 'p'
}

/// The blur every placeholder is generated with.
pub open spec fn placeholder_blur() -> Blur {
    Blur { width: 25, height: 25, svg_width: 100, svg_height: 100, sigma: 15 }
}

pub open spec fn blur_id(src: Seq<char>) -> ImageId {
    ImageId { src, option: CachedImageOption::Blur(placeholder_blur()) }
}

pub open spec fn resize_id(src: Seq<char>, width: u32, height: u32, quality: u8) -> ImageId {
    ImageId {
        src,
        option: CachedImageOption::Resize(Resize { quality, width, height }),
    }
}

/// Whether a source names an external resource.
pub fn is_external_source(src: &str) -> (r: bool)
    ensures
        r == is_external(src@),
{
    if src.unicode_len() < 4 {
        return false;
    }
    src.get_char(0) == 'h' && src.get_char(1) == 't' && src.get_char(2) == 't' && src.get_char(3)
        == 'p'
}

/// The placeholder variant of a source.
pub fn blur_image(src: &String) -> (r: CachedImage)
    ensures
        r@ == blur_id(src@),
{
    CachedImage {
        src: src.clone(),
        option: CachedImageOption::Blur(
            Blur { width: 25, height: 25, svg_width: 100, svg_height: 100, sigma: 15 },
        ),
    }
}

/// The full-resolution variant of a source.
pub fn resize_image(src: &String, width: u32, height: u32, quality: u8) -> (r: CachedImage)
    ensures
        r@ == resize_id(src@, width, height, quality),
{
    CachedImage {
        src: src.clone(),
        option: CachedImageOption::Resize(Resize { quality, width, height }),
    }
}

/// Records in a render's registry the variants that an image element requires: the resized
/// image, then its placeholder when one is wanted. External sources require nothing.
pub fn register_image(
    registry: &mut ImageRegistry,
    src: &String,
    width: u32,
    height: u32,
    quality: u8,
    blur: bool,
)
    ensures
        is_external(src@) ==> final(registry)@ == old(registry)@,
        !is_external(src@) && !blur ==> final(registry)@ == old(registry)@.push(
            resize_id(src@, width, height, quality),
        ),
        !is_external(src@) && blur ==> final(registry)@ == old(registry)@.push(
            resize_id(src@, width, height, quality),
        ).push(blur_id(src@)),
{
    if is_external_source(src.as_str()) {
        return;
    }
    registry.push(resize_image(src, width, height, quality));
    if blur {
        registry.push(blur_image(src));
    }
}

/// Where the placeholder of an image comes from.
pub enum SvgImage {
    /// The generated payload, to be inlined.
    InMemory(String),
    /// The URL from which the client fetches it.
    Request(String),
}

pub enum SvgView {
    InMemory(Seq<char>),
    Request(Seq<char>),
}

impl View for SvgImage {
    type V = SvgView;

    open spec fn view(&self) -> SvgView {
        match self {
            SvgImage::InMemory(s) => SvgView::InMemory(s@),
            SvgImage::Request(u) => SvgView::Request(u@),
        }
    }
}

/// The placeholder of a source: the cached payload on a hit, else the URL of its blur variant.
pub fn placeholder_for(cache: &PlaceholderCache, src: &String) -> (r: SvgImage)
    requires
        cache.wf(),
    ensures
        cache@.contains_key(blur_id(src@)) ==> r@ == SvgView::InMemory(cache@[blur_id(src@)]),
        !cache@.contains_key(blur_id(src@)) ==> r@ == SvgView::Request(url_of(blur_id(src@))),
{
    let key = blur_image(src);
    match cache.get(&key) {
        Some(payload) => SvgImage::InMemory(payload.clone()),
        None => SvgImage::Request(key.get_url_encoded()),
    }
}

/// A CSS background that inlines a Base64 SVG payload.
pub open spec fn inline_background_of(encoded: Seq<char>) -> Seq<char> {
    "url('data:image/svg+xml;base64,"@ + encoded + "')"@
}

/// A CSS background fetched from a URL.
pub open spec fn request_background_of(url: Seq<char>) -> Seq<char> {
    "url('"@ + url + "')"@
}

/// The inline style that shows a placeholder behind an image until it has loaded.
pub open spec fn placeholder_style_of(background: Seq<char>) -> Seq<char> {
    "color:transparent;background-size:cover;background-position:50% 50%;background-repeat:no-repeat;background-image:"@
        + background + ";"@
}

/// The background for a placeholder, given its payload already in Base64.
pub fn inline_background(encoded: &str) -> (r: String)
    ensures
        r@ == inline_background_of(encoded@),
{
    let mut r = String::from_str("url('data:image/svg+xml;base64,");
    r.append(encoded);
    r.append("')");
    r
}

/// The background for a placeholder fetched from `url`.
pub fn request_background(url: &str) -> (r: String)
    ensures
        r@ == request_background_of(url@),
{
    let mut r = String::from_str("url('");
    r.append(url);
    r.append("')");
    r
}

/// The background of a placeholder: its payload inlined as Base64, or its URL.
pub fn background_image(svg: &SvgImage) -> (r: String)
    requires
        svg matches SvgImage::InMemory(s) ==> vstd::utf8::encode_utf8(s@).len() <= usize::MAX / 2,
    ensures
        match svg@ {
            SvgView::InMemory(s) => r@ == inline_background_of(
                base64_of(vstd::utf8::encode_utf8(s)),
            ),
            SvgView::Request(u) => r@ == request_background_of(u),
        },
{
    match svg {
        SvgImage::InMemory(data) => {
            let encoded = base64_standard(data.as_str().as_bytes());
            inline_background(encoded.as_str())
        },
        SvgImage::Request(url) => request_background(url.as_str()),
    }
}

/// The inline style of an image shown over its placeholder.
pub fn placeholder_style(background: &str) -> (r: String)
    ensures
        r@ == placeholder_style_of(background@),
{
    let mut r = String::from_str(
        "color:transparent;background-size:cover;background-position:50% 50%;background-repeat:no-repeat;background-image:",
    );
    r.append(background);
    r.append(";");
    r
}

/// How an image element is rendered.
pub enum ImagePlan {
    /// An external source, shown as it is.
    External(String),
    /// The optimized image, without a placeholder.
    Plain(String),
    /// The optimized image over a placeholder background.
    Placeholder { src: String, style: String },
}

pub enum PlanView {
    External(Seq<char>),
    Plain(Seq<char>),
    Placeholder { src: Seq<char>, style: Seq<char> },
}

impl View for ImagePlan {
    type V = PlanView;

    open spec fn view(&self) -> PlanView {
        match self {
            ImagePlan::External(s) => PlanView::External(s@),
            ImagePlan::Plain(u) => PlanView::Plain(u@),
            ImagePlan::Placeholder { src, style } => PlanView::Placeholder {
                src: src@,
                style: style@,
            },
        }
    }
}

/// How an image element with these properties renders against a cache.
pub open spec fn plan_of(
    cache: Map<ImageId, Seq<char>>,
    src: Seq<char>,
    width: u32,
    height: u32,
    quality: u8,
    blur: bool,
) -> PlanView {
    if is_external(src) {
        PlanView::External(src)
    } else if !blur {
        PlanView::Plain(url_of(resize_id(src, width, height, quality)))
    } else {
        PlanView::Placeholder {
            src: url_of(resize_id(src, width, height, quality)),
            style: placeholder_style_for(cache, src),
        }
    }
}

/// The payloads of a cache are small enough to encode.
pub open spec fn encodable(cache: Map<ImageId, Seq<char>>) -> bool {
    forall|k: ImageId| #[trigger]
        cache.contains_key(k) ==> vstd::utf8::encode_utf8(cache[k]).len() <= usize::MAX / 2
}

/// The style of the placeholder of a source, as the cache decides it.
pub open spec fn placeholder_style_for(cache: Map<ImageId, Seq<char>>, src: Seq<char>) -> Seq<char> {
    if cache.contains_key(blur_id(src)) {
        placeholder_style_of(inline_background_of(base64_of(vstd::utf8::encode_utf8(cache[blur_id(src)]))))
    } else {
        placeholder_style_of(request_background_of(url_of(blur_id(src))))
    }
}

/// Decides how an image element renders: an external source as it is; otherwise the
/// resized image's URL, over a placeholder when `blur` asks for one. A cached placeholder is
/// inlined; a missing one is fetched by URL.
pub fn plan_image(
    src: &String,
    width: u32,
    height: u32,
    quality: u8,
    blur: bool,
    cache: &PlaceholderCache,
) -> (r: ImagePlan)
    requires
        cache.wf(),
        encodable(cache@),
    ensures
        r@ == plan_of(cache@, src@, width, height, quality, blur),
{
    if is_external_source(src.as_str()) {
        return ImagePlan::External(src.clone());
    }
    let url = resize_image(src, width, height, quality).get_url_encoded();
    if !blur {
        return ImagePlan::Plain(url);
    }
    let svg = placeholder_for(cache, src);
    let background = background_image(&svg);
    let style = placeholder_style(background.as_str());
    ImagePlan::Placeholder { src: url, style }
}

} // verus!
