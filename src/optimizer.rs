//! The identity of one required image variant and its canonical URL encoding.
use vstd::prelude::*;

verus! {

/// Full-resolution delivery of an image, resized to the given bounds.
#[derive(Clone, Copy, Debug, PartialEq, Eq, Structural, Hash)]
pub struct Resize {
    pub quality: u8,
    pub width: u32,
    pub height: u32,
}

/// A tiny blurred placeholder, rendered inside an SVG of the given size.
#[derive(Clone, Copy, Debug, PartialEq, Eq, Structural, Hash)]
pub struct Blur {
    pub width: u32,
    pub height: u32,
    pub svg_width: u32,
    pub svg_height: u32,
    pub sigma: u32,
}

/// The transform applied to a source image.
#[derive(Clone, Copy, Debug, PartialEq, Eq, Structural, Hash)]
pub enum CachedImageOption {
    Resize(Resize),
    Blur(Blur),
}

/// A site-local image source together with the transform it needs.
#[derive(Debug, Eq, Hash)]
pub struct CachedImage {
    pub src: String,
    pub option: CachedImageOption,
}

/// The mathematical identity of a `CachedImage`.
pub struct ImageId {
    pub src: Seq<char>,
    pub option: CachedImageOption,
}

/// The identities of a sequence of images, in order.
pub open spec fn ids(v: Seq<CachedImage>) -> Seq<ImageId> {
    v.map_values(|i: CachedImage| i@)
}

/// Whether an image is a blur placeholder.
pub open spec fn is_blur(id: ImageId) -> bool {
    id.option is Blur
}

impl View for CachedImage {
    type V = ImageId;

    open spec fn view(&self) -> ImageId {
        ImageId { src: self.src@, option: self.option }
    }
}

impl PartialEq for CachedImage {
    fn eq(&self, other: &CachedImage) -> (r: bool)
        ensures
            r == (self@ == other@),
    {
        self.src == other.src && self.option == other.option
    }
}

impl vstd::std_specs::cmp::PartialEqSpecImpl for CachedImage {
    open spec fn obeys_eq_spec() -> bool {
        true
    }

    open spec fn eq_spec(&self, other: &CachedImage) -> bool {
        self@ == other@
    }
}

impl Clone for CachedImage {
    fn clone(&self) -> (r: CachedImage)
        ensures
            r@ == self@,
    {
        CachedImage { src: self.src.clone(), option: self.option }
    }
}

impl CachedImage {
    /// The canonical URL of this image variant; it doubles as its textual cache key.
    pub fn get_url_encoded(&self) -> (r: String)
        ensures
            r@ == url_of(self@),
    {
        let mut out: Vec<char> = Vec::new();
        push_prefix(&mut out, matches!(self.option, CachedImageOption::Resize(_)));
        push_escaped(&mut out, self.src.as_str());
        let ghost head = out@;
        match self.option {
            CachedImageOption::Resize(r) => {
                push_resize_query(&mut out, &r);
            },
            CachedImageOption::Blur(b) => {
                push_blur_query(&mut out, &b);
            },
        }
        assert(out@ =~= url_of(self@));
        chars_to_string(out)
    }
}

/// Relies on `String::from_iter` over chars: the string holds exactly those chars, in order.
#[verifier::external_body]
fn chars_to_string(v: Vec<char>) -> (r: String)
    ensures
        r@ == v@,
{
    String::from_iter(v)
}

// ---- the encoding, as mathematics ----

/// Bytes kept as they are inside an encoded path segment.
pub open spec fn is_unreserved(b: u8) -> bool {
    (65 <= b <= 90) || (97 <= b <= 122) || (48 <= b <= 57) || b == 45 || b == 46 || b == 95
        || b == 126
}

/// The upper-case hexadecimal digit of a value below sixteen.
pub open spec fn hex_char(d: nat) -> char {
    if d < 10 {
        ((d + 48) as u8) as char
    } else {
        ((d + 55) as u8) as char
    }
}

/// The decimal digit of a value below ten.
pub open spec fn digit_char(d: nat) -> char {
    ((d + 48) as u8) as char
}

/// The characters that stand for one byte of the source.
pub open spec fn escape_byte(b: u8) -> Seq<char> {
    if is_unreserved(b) {
        seq![b as char]
    } else {
        seq!['%', hex_char(b as nat / 16), hex_char(b as nat % 16)]
    }
}

/// Percent-encoding of a byte string as one path segment.
pub open spec fn escape(bytes: Seq<u8>) -> Seq<char>
    decreases bytes.len(),
{
    if bytes.len() == 0 {
        Seq::empty()
    } else {
        escape_byte(bytes[0]) + escape(bytes.drop_first())
    }
}

/// Decimal notation of a natural number, without leading zeros.
pub open spec fn decimal(n: nat) -> Seq<char>
    decreases n,
{
    if n < 10 {
        seq![digit_char(n)]
    } else {
        decimal(n / 10).push(digit_char(n % 10))
    }
}

/// A query parameter `key` followed by the number `n` and what comes after it.
pub open spec fn param(key: Seq<char>, n: nat, rest: Seq<char>) -> Seq<char> {
    key + decimal(n) + rest
}

pub open spec fn resize_prefix() -> Seq<char> {
    seq!['/', 'c', 'a', 'c', 'h', 'e', '/', 'i', 'm', 'a', 'g', 'e', '/', 'r', 'e', 's', 'i', 'z', 'e', '/']
}

pub open spec fn blur_prefix() -> Seq<char> {
    seq!['/', 'c', 'a', 'c', 'h', 'e', '/', 'i', 'm', 'a', 'g', 'e', '/', 'b', 'l', 'u', 'r', '/']
}

/// The canonical URL of an image variant:
/// `/cache/image/resize/<source>?w=<width>&h=<height>&q=<quality>` or
/// `/cache/image/blur/<source>?w=<width>&h=<height>&sw=<svg width>&sh=<svg height>&s=<sigma>`,
/// where `<source>` is the percent-encoded UTF-8 of the source reference.
pub open spec fn url_of(img: ImageId) -> Seq<char> {
    let src = escape(vstd::utf8::encode_utf8(img.src));
    match img.option {
        CachedImageOption::Resize(r) => resize_prefix() + src + resize_query(r),
        CachedImageOption::Blur(b) => blur_prefix() + src + blur_query(b),
    }
}

pub open spec fn resize_query(r: Resize) -> Seq<char> {
    param(
        seq!['?', 'w', '='],
        r.width as nat,
        param(seq!['&', 'h', '='], r.height as nat, param(seq!['&', 'q', '='], r.quality as nat, Seq::empty())),
    )
}

pub open spec fn blur_query(b: Blur) -> Seq<char> {
    param(
        seq!['?', 'w', '='],
        b.width as nat,
        param(
            seq!['&', 'h', '='],
            b.height as nat,
            param(
                seq!['&', 's', 'w', '='],
                b.svg_width as nat,
                param(
                    seq!['&', 's', 'h', '='],
                    b.svg_height as nat,
                    param(seq!['&', 's', '='], b.sigma as nat, Seq::empty()),
                ),
            ),
        ),
    )
}

// ---- executable pieces ----

fn push_key(out: &mut Vec<char>, a: char, b: char, c: char)
    ensures
        final(out)@ == old(out)@ + seq![a, b, c],
{
    out.push(a);
    out.push(b);
    out.push(c);
    assert(out@ =~= old(out)@ + seq![a, b, c]);
}

fn push_key4(out: &mut Vec<char>, a: char, b: char, c: char, d: char)
    ensures
        final(out)@ == old(out)@ + seq![a, b, c, d],
{
    out.push(a);
    out.push(b);
    out.push(c);
    out.push(d);
    assert(out@ =~= old(out)@ + seq![a, b, c, d]);
}

fn push_resize_query(out: &mut Vec<char>, r: &Resize)
    ensures
        final(out)@ == old(out)@ + resize_query(*r),
{
    let ghost s0 = out@;
    push_key(out, '?', 'w', '=');
    push_decimal(out, r.width);
    let ghost s1 = out@;
    push_key(out, '&', 'h', '=');
    push_decimal(out, r.height);
    let ghost s2 = out@;
    push_key(out, '&', 'q', '=');
    push_decimal(out, r.quality as u32);
    let ghost t3 = param(seq!['&', 'q', '='], r.quality as nat, Seq::empty());
    let ghost t2 = param(seq!['&', 'h', '='], r.height as nat, t3);
    assert(out@ =~= s2 + t3);
    assert(out@ =~= s1 + t2);
    assert(out@ =~= s0 + resize_query(*r));
}

fn push_blur_query(out: &mut Vec<char>, b: &Blur)
    ensures
        final(out)@ == old(out)@ + blur_query(*b),
{
    let ghost s0 = out@;
    push_key(out, '?', 'w', '=');
    push_decimal(out, b.width);
    let ghost s1 = out@;
    push_key(out, '&', 'h', '=');
    push_decimal(out, b.height);
    let ghost s2 = out@;
    push_key4(out, '&', 's', 'w', '=');
    push_decimal(out, b.svg_width);
    let ghost s3 = out@;
    push_key4(out, '&', 's', 'h', '=');
    push_decimal(out, b.svg_height);
    let ghost s4 = out@;
    push_key(out, '&', 's', '=');
    push_decimal(out, b.sigma);
    let ghost t5 = param(seq!['&', 's', '='], b.sigma as nat, Seq::empty());
    let ghost t4 = param(seq!['&', 's', 'h', '='], b.svg_height as nat, t5);
    let ghost t3 = param(seq!['&', 's', 'w', '='], b.svg_width as nat, t4);
    let ghost t2 = param(seq!['&', 'h', '='], b.height as nat, t3);
    assert(out@ =~= s4 + t5);
    assert(out@ =~= s3 + t4);
    assert(out@ =~= s2 + t3);
    assert(out@ =~= s1 + t2);
    assert(out@ =~= s0 + blur_query(*b));
}

fn push_prefix(out: &mut Vec<char>, resize: bool)
    ensures
        final(out)@ == old(out)@ + (if resize { resize_prefix() } else { blur_prefix() }),
{
    let ghost start = out@;
    out.push('/');
    out.push('c');
    out.push('a');
    out.push('c');
    out.push('h');
    out.push('e');
    out.push('/');
    out.push('i');
    out.push('m');
    out.push('a');
    out.push('g');
    out.push('e');
    out.push('/');
    if resize {
        out.push('r');
        out.push('e');
        out.push('s');
        out.push('i');
        out.push('z');
        out.push('e');
    } else {
        out.push('b');
        out.push('l');
        out.push('u');
        out.push('r');
    }
    out.push('/');
    assert(out@ =~= start + (if resize { resize_prefix() } else { blur_prefix() }));
}

fn hex_digit(d: u8) -> (c: char)
    requires
        d < 16,
    ensures
        c == hex_char(d as nat),
{
    if d < 10 {
        (d + 48) as char
    } else {
        (d + 55) as char
    }
}

fn push_decimal(out: &mut Vec<char>, n: u32)
    ensures
        final(out)@ == old(out)@ + decimal(n as nat),
    decreases n,
{
    if n >= 10 {
        push_decimal(out, n / 10);
    }
    out.push(((n % 10) as u8 + 48) as char);
    assert(out@ =~= old(out)@ + decimal(n as nat));
}

proof fn lemma_escape_push(bytes: Seq<u8>, b: u8)
    ensures
        escape(bytes.push(b)) == escape(bytes) + escape_byte(b),
    decreases bytes.len(),
{
    if bytes.len() == 0 {
        assert(bytes.push(b).drop_first() =~= Seq::<u8>::empty());
        assert(bytes.push(b)[0] == b);
        assert(escape(Seq::<u8>::empty()) == Seq::<char>::empty());
        assert(escape(bytes.push(b)) == escape_byte(b) + escape(Seq::<u8>::empty()));
        assert(escape(bytes.push(b)) =~= escape(bytes) + escape_byte(b));
    } else {
        lemma_escape_push(bytes.drop_first(), b);
        assert(bytes.push(b).drop_first() =~= bytes.drop_first().push(b));
        assert(bytes.push(b)[0] == bytes[0]);
        assert(escape(bytes.push(b)) == escape_byte(bytes[0]) + escape(bytes.drop_first().push(b)));
        assert(escape(bytes.push(b)) =~= escape(bytes) + escape_byte(b));
    }
}

fn push_escaped(out: &mut Vec<char>, src: &str)
    ensures
        final(out)@ == old(out)@ + escape(vstd::utf8::encode_utf8(src@)),
{
    let bytes = src.as_bytes();
    let ghost start = out@;
    let mut i: usize = 0;
    assert(bytes@.take(0) =~= Seq::<u8>::empty());
    while i < bytes.len()
        invariant
            i <= bytes@.len(),
            bytes@ == vstd::utf8::encode_utf8(src@),
            out@ == start + escape(bytes@.take(i as int)),
        decreases bytes@.len() - i,
    {
        let b = bytes[i];
        proof {
            lemma_escape_push(bytes@.take(i as int), b);
            assert(bytes@.take(i as int + 1) =~= bytes@.take(i as int).push(b));
        }
        if (65 <= b && b <= 90) || (97 <= b && b <= 122) || (48 <= b && b <= 57) || b == 45
            || b == 46 || b == 95 || b == 126 {
            out.push(b as char);
        } else {
            out.push('%');
            out.push(hex_digit(b / 16));
            out.push(hex_digit(b % 16));
        }
        assert(out@ =~= start + escape(bytes@.take(i as int + 1)));
        i = i + 1;
    }
    assert(bytes@.take(i as int) =~= bytes@);
}

// ---- the encoding is injective ----

proof fn lemma_decimal_digits(n: nat)
    ensures
        decimal(n).len() >= 1,
        forall|i: int| 0 <= i < decimal(n).len() ==> 48 <= (#[trigger] decimal(n)[i]) as u32 <= 57,
    decreases n,
{
    if n >= 10 {
        lemma_decimal_digits(n / 10);
    }
}

proof fn lemma_digit_char(d: nat)
    requires
        d < 10,
    ensures
        digit_char(d) as u32 == d + 48,
{
}

proof fn lemma_decimal_injective(n: nat, m: nat)
    requires
        decimal(n) == decimal(m),
    ensures
        n == m,
    decreases n,
{
    lemma_decimal_digits(n / 10);
    lemma_decimal_digits(m / 10);
    if n < 10 && m < 10 {
        assert(decimal(n)[0] == digit_char(n));
        assert(decimal(m)[0] == digit_char(m));
        lemma_digit_char(n);
        lemma_digit_char(m);
    } else if n < 10 {
        assert(decimal(n).len() == 1);
        assert(decimal(m).len() >= 2);
    } else if m < 10 {
        assert(decimal(m).len() == 1);
        assert(decimal(n).len() >= 2);
    } else {
        let dn = decimal(n);
        assert(dn.last() == digit_char(n % 10));
        assert(decimal(m).last() == digit_char(m % 10));
        lemma_digit_char(n % 10);
        lemma_digit_char(m % 10);
        assert(dn.drop_last() =~= decimal(n / 10));
        assert(decimal(m).drop_last() =~= decimal(m / 10));
        lemma_decimal_injective(n / 10, m / 10);
        assert(n % 10 == m % 10);
        vstd::arithmetic::div_mod::lemma_fundamental_div_mod(n as int, 10);
        vstd::arithmetic::div_mod::lemma_fundamental_div_mod(m as int, 10);
    }
}

proof fn lemma_escape_no_query(bytes: Seq<u8>)
    ensures
        forall|i: int| 0 <= i < escape(bytes).len() ==> #[trigger] escape(bytes)[i] != '?',
    decreases bytes.len(),
{
    if bytes.len() > 0 {
        lemma_escape_no_query(bytes.drop_first());
        let head = escape_byte(bytes[0]);
        let tail = escape(bytes.drop_first());
        assert forall|i: int| 0 <= i < escape(bytes).len() implies #[trigger] escape(bytes)[i]
            != '?' by {
            if i >= head.len() {
                assert(escape(bytes)[i] == tail[i - head.len()]);
            }
        }
    }
}

proof fn lemma_escape_injective(b1: Seq<u8>, b2: Seq<u8>)
    requires
        escape(b1) == escape(b2),
    ensures
        b1 == b2,
    decreases b1.len(),
{
    if b1.len() == 0 && b2.len() == 0 {
        assert(b1 =~= b2);
    } else if b1.len() == 0 {
        assert(escape(b2).len() > 0);
    } else if b2.len() == 0 {
        assert(escape(b1).len() > 0);
    } else {
        let h1 = escape_byte(b1[0]);
        let h2 = escape_byte(b2[0]);
        let e = escape(b1);
        assert(e[0] == h1[0]);
        assert(escape(b2)[0] == h2[0]);
        if is_unreserved(b1[0]) {
            assert(h1[0] == b1[0] as char);
            assert(b1[0] == b2[0]);
        } else {
            assert(!is_unreserved(b2[0]));
            assert(e[1] == h1[1]);
            assert(escape(b2)[1] == h2[1]);
            assert(e[2] == h1[2]);
            assert(escape(b2)[2] == h2[2]);
            assert(b1[0] == b2[0]);
        }
        assert(escape(b1.drop_first()) =~= e.subrange(h1.len() as int, e.len() as int));
        assert(escape(b2.drop_first()) =~= e.subrange(h1.len() as int, e.len() as int));
        lemma_escape_injective(b1.drop_first(), b2.drop_first());
        assert forall|i: int| 0 <= i < b1.len() implies b1[i] == b2[i] by {
            if i > 0 {
                assert(b1[i] == b1.drop_first()[i - 1]);
                assert(b2[i] == b2.drop_first()[i - 1]);
            }
        }
        assert(b1 =~= b2);
    }
}

/// Two strings, each a part free of `sep` followed by a rest that is empty or starts with
/// `sep`, are equal only if the parts and the rests are.
proof fn lemma_split_at(a1: Seq<char>, r1: Seq<char>, a2: Seq<char>, r2: Seq<char>, sep: char)
    requires
        forall|i: int| 0 <= i < a1.len() ==> #[trigger] a1[i] != sep,
        forall|i: int| 0 <= i < a2.len() ==> #[trigger] a2[i] != sep,
        r1.len() == 0 || r1[0] == sep,
        r2.len() == 0 || r2[0] == sep,
        a1 + r1 == a2 + r2,
    ensures
        a1 == a2,
        r1 == r2,
{
    let s = a1 + r1;
    if a1.len() < a2.len() {
        assert(s[a1.len() as int] == a2[a1.len() as int]);
    } else if a2.len() < a1.len() {
        assert(s[a2.len() as int] == a1[a2.len() as int]);
    } else {
        assert(a1 =~= s.subrange(0, a1.len() as int));
        assert(a2 =~= s.subrange(0, a1.len() as int));
        assert(r1 =~= s.subrange(a1.len() as int, s.len() as int));
        assert(r2 =~= s.subrange(a1.len() as int, s.len() as int));
    }
}

proof fn lemma_param_injective(key: Seq<char>, n1: nat, r1: Seq<char>, n2: nat, r2: Seq<char>)
    requires
        r1.len() == 0 || r1[0] == '&',
        r2.len() == 0 || r2[0] == '&',
        param(key, n1, r1) == param(key, n2, r2),
    ensures
        n1 == n2,
        r1 == r2,
{
    let s = param(key, n1, r1);
    lemma_decimal_digits(n1);
    lemma_decimal_digits(n2);
    assert(decimal(n1) + r1 =~= s.subrange(key.len() as int, s.len() as int));
    assert(decimal(n2) + r2 =~= s.subrange(key.len() as int, s.len() as int));
    lemma_split_at(decimal(n1), r1, decimal(n2), r2, '&');
    lemma_decimal_injective(n1, n2);
}

/// Strips a common prefix off two equal strings.
proof fn lemma_drop_prefix(p: Seq<char>, x: Seq<char>, y: Seq<char>)
    requires
        p + x == p + y,
    ensures
        x == y,
{
    assert(x =~= (p + x).subrange(p.len() as int, (p + x).len() as int));
    assert(y =~= (p + y).subrange(p.len() as int, (p + y).len() as int));
}

proof fn lemma_resize_query_injective(a: Resize, b: Resize)
    requires
        resize_query(a) == resize_query(b),
    ensures
        a == b,
{
    let a3 = param(seq!['&', 'q', '='], a.quality as nat, Seq::empty());
    let b3 = param(seq!['&', 'q', '='], b.quality as nat, Seq::empty());
    let a2 = param(seq!['&', 'h', '='], a.height as nat, a3);
    let b2 = param(seq!['&', 'h', '='], b.height as nat, b3);
    lemma_param_injective(seq!['?', 'w', '='], a.width as nat, a2, b.width as nat, b2);
    lemma_param_injective(seq!['&', 'h', '='], a.height as nat, a3, b.height as nat, b3);
    lemma_param_injective(seq!['&', 'q', '='], a.quality as nat, Seq::empty(), b.quality as nat, Seq::empty());
}

proof fn lemma_blur_query_injective(a: Blur, b: Blur)
    requires
        blur_query(a) == blur_query(b),
    ensures
        a == b,
{
    let a5 = param(seq!['&', 's', '='], a.sigma as nat, Seq::empty());
    let b5 = param(seq!['&', 's', '='], b.sigma as nat, Seq::empty());
    let a4 = param(seq!['&', 's', 'h', '='], a.svg_height as nat, a5);
    let b4 = param(seq!['&', 's', 'h', '='], b.svg_height as nat, b5);
    let a3 = param(seq!['&', 's', 'w', '='], a.svg_width as nat, a4);
    let b3 = param(seq!['&', 's', 'w', '='], b.svg_width as nat, b4);
    let a2 = param(seq!['&', 'h', '='], a.height as nat, a3);
    let b2 = param(seq!['&', 'h', '='], b.height as nat, b3);
    lemma_param_injective(seq!['?', 'w', '='], a.width as nat, a2, b.width as nat, b2);
    lemma_param_injective(seq!['&', 'h', '='], a.height as nat, a3, b.height as nat, b3);
    lemma_param_injective(seq!['&', 's', 'w', '='], a.svg_width as nat, a4, b.svg_width as nat, b4);
    lemma_param_injective(seq!['&', 's', 'h', '='], a.svg_height as nat, a5, b.svg_height as nat, b5);
    lemma_param_injective(seq!['&', 's', '='], a.sigma as nat, Seq::empty(), b.sigma as nat, Seq::empty());
}

/// The encoding is a function of the image's fields: equal images get equal URLs.
pub proof fn lemma_url_deterministic(a: ImageId, b: ImageId)
    requires
        a == b,
    ensures
        url_of(a) == url_of(b),
{
}

/// Distinct images get distinct URLs, whichever field tells them apart.
pub proof fn lemma_url_injective(a: ImageId, b: ImageId)
    requires
        a != b,
    ensures
        url_of(a) != url_of(b),
{
    if url_of(a) == url_of(b) {
        let ea = escape(vstd::utf8::encode_utf8(a.src));
        let eb = escape(vstd::utf8::encode_utf8(b.src));
        lemma_escape_no_query(vstd::utf8::encode_utf8(a.src));
        lemma_escape_no_query(vstd::utf8::encode_utf8(b.src));
        match (a.option, b.option) {
            (CachedImageOption::Resize(ra), CachedImageOption::Resize(rb)) => {
                assert(resize_prefix() + ea + resize_query(ra) =~= resize_prefix() + (ea + resize_query(ra)));
                assert(resize_prefix() + eb + resize_query(rb) =~= resize_prefix() + (eb + resize_query(rb)));
                lemma_drop_prefix(resize_prefix(), ea + resize_query(ra), eb + resize_query(rb));
                lemma_split_at(ea, resize_query(ra), eb, resize_query(rb), '?');
                lemma_resize_query_injective(ra, rb);
            },
            (CachedImageOption::Blur(ba), CachedImageOption::Blur(bb)) => {
                assert(blur_prefix() + ea + blur_query(ba) =~= blur_prefix() + (ea + blur_query(ba)));
                assert(blur_prefix() + eb + blur_query(bb) =~= blur_prefix() + (eb + blur_query(bb)));
                lemma_drop_prefix(blur_prefix(), ea + blur_query(ba), eb + blur_query(bb));
                lemma_split_at(ea, blur_query(ba), eb, blur_query(bb), '?');
                lemma_blur_query_injective(ba, bb);
            },
            (CachedImageOption::Resize(ra), CachedImageOption::Blur(bb)) => {
                assert(url_of(a)[13] == 'r');
                assert(url_of(b)[13] == 'b');
            },
            (CachedImageOption::Blur(ba), CachedImageOption::Resize(rb)) => {
                assert(url_of(a)[13] == 'b');
                assert(url_of(b)[13] == 'r');
            },
        }
        lemma_escape_injective(vstd::utf8::encode_utf8(a.src), vstd::utf8::encode_utf8(b.src));
        vstd::utf8::encode_utf8_decode_utf8(a.src);
        vstd::utf8::encode_utf8_decode_utf8(b.src);
        assert(a == b);
    }
}

} // verus!
