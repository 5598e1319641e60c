//! Route enumeration, the per-render image registry and the crawl accumulator.
use vstd::prelude::*;
use vstd::string::*;
use crate::optimizer::{CachedImage, ImageId, ids};

verus! {

/// Whether position `i` of a path template opens a variable segment (`:id` or `*rest`).
pub open spec fn opens_variable_segment(p: Seq<char>, i: int) -> bool {
    (p[i] == ':' || p[i] == '*') && (i == 0 || p[i - 1] == '/')
}

/// A path template without variable segments.
pub open spec fn is_static_path(p: Seq<char>) -> bool {
    forall|i: int| 0 <= i < p.len() ==> !#[trigger] opens_variable_segment(p, i)
}

pub open spec fn paths_view(v: Seq<String>) -> Seq<Seq<char>> {
    v.map_values(|s: String| s@)
}

/// The static templates of a route table, in table order.
pub open spec fn static_only(ps: Seq<Seq<char>>) -> Seq<Seq<char>>
    decreases ps.len(),
{
    if ps.len() == 0 {
        Seq::empty()
    } else {
        let rest = static_only(ps.drop_last());
        if is_static_path(ps.last()) {
            rest.push(ps.last())
        } else {
            rest
        }
    }
}

/// Whether a route template can be rendered without request data.
pub fn is_static_route(path: &str) -> (r: bool)
    ensures
        r == is_static_path(path@),
{
    let n = path.unicode_len();
    let mut i: usize = 0;
    while i < n
        invariant
            n == path@.len(),
            i <= n,
            forall|j: int| 0 <= j < i ==> !#[trigger] opens_variable_segment(path@, j),
        decreases n - i,
    {
        let c = path.get_char(i);
        if c == ':' || c == '*' {
            if i == 0 || path.get_char(i - 1) == '/' {
                assert(opens_variable_segment(path@, i as int));
                return false;
            }
        }
        i = i + 1;
    }
    true
}

/// The route templates that name a single page, in the order of the table.
pub fn static_paths(routes: &Vec<String>) -> (r: Vec<String>)
    ensures
        paths_view(r@) == static_only(paths_view(routes@)),
{
    let mut out: Vec<String> = Vec::new();
    let mut i: usize = 0;
    while i < routes.len()
        invariant
            i <= routes@.len(),
            paths_view(out@) == static_only(paths_view(routes@).take(i as int)),
        decreases routes@.len() - i,
    {
        let ghost before = paths_view(routes@).take(i as int);
        let ghost after = paths_view(routes@).take(i as int + 1);
        assert(after.drop_last() =~= before);
        assert(after.last() == routes@[i as int]@);
        if is_static_route(routes[i].as_str()) {
            out.push(routes[i].clone());
            assert(paths_view(out@) =~= static_only(after));
        } else {
            assert(paths_view(out@) =~= static_only(after));
        }
        i = i + 1;
    }
    assert(paths_view(routes@).take(i as int) =~= paths_view(routes@));
    out
}

/// The address of the synthetic request that renders one path.
pub open spec fn request_url_of(path: Seq<char>) -> Seq<char> {
    "http://leptos.dev"@ + path
}

/// The synthetic request address under which a path is rendered.
pub fn request_url(path: &String) -> (r: String)
    ensures
        r@ == request_url_of(path@),
{
    let mut url = String::from_str("http://leptos.dev");
    url.append(path.as_str());
    url
}

/// The images that one render requires, in the order they were pushed.
pub struct ImageRegistry {
    images: Vec<CachedImage>,
}

impl View for ImageRegistry {
    type V = Seq<ImageId>;

    closed spec fn view(&self) -> Seq<ImageId> {
        ids(self.images@)
    }
}

impl ImageRegistry {
    /// A registry for a fresh render: it holds nothing.
    pub fn new() -> (r: ImageRegistry)
        ensures
            r@ == Seq::<ImageId>::empty(),
    {
        let r = ImageRegistry { images: Vec::new() };
        assert(r@ =~= Seq::<ImageId>::empty());
        r
    }

    /// Records one more image; nothing is ever removed.
    pub fn push(&mut self, image: CachedImage)
        ensures
            final(self)@ == old(self)@.push(image@),
    {
        self.images.push(image);
        assert(self@ =~= old(self)@.push(image@));
    }

    /// A copy of what the render recorded.
    pub fn contents(&self) -> (r: Vec<CachedImage>)
        ensures
            ids(r@) == self@,
    {
        let mut out: Vec<CachedImage> = Vec::new();
        let mut i: usize = 0;
        while i < self.images.len()
            invariant
                i <= self.images@.len(),
                out@.len() == i,
                forall|j: int| 0 <= j < i ==> out@[j]@ == self.images@[j]@,
            decreases self.images@.len() - i,
        {
            let item = self.images[i].clone();
            let ghost prev = out@;
            out.push(item);
            assert(out@ =~= prev.push(item));
            i = i + 1;
        }
        assert(ids(out@) =~= ids(self.images@));
        out
    }
}

/// What one isolated render of a path produced.
pub enum RenderOutcome {
    /// The render finished; these are the images its registry holds.
    Rendered(Vec<CachedImage>),
    /// The render failed; whatever it recorded is void.
    Failed,
}

/// The state of a crawl over the static paths: the distinct images found so far and
/// the paths whose render failed.
pub struct Crawl {
    images: Vec<CachedImage>,
    failed: Vec<String>,
}

impl Crawl {
    /// The images found, each once.
    pub closed spec fn found(&self) -> Seq<ImageId> {
        ids(self.images@)
    }

    /// The paths whose render failed, in crawl order.
    pub closed spec fn failures(&self) -> Seq<Seq<char>> {
        paths_view(self.failed@)
    }

    pub open spec fn wf(&self) -> bool {
        self.found().no_duplicates()
    }

    pub fn new() -> (r: Crawl)
        ensures
            r.wf(),
            r.found() == Seq::<ImageId>::empty(),
            r.failures() == Seq::<Seq<char>>::empty(),
    {
        let r = Crawl { images: Vec::new(), failed: Vec::new() };
        assert(r.found() =~= Seq::<ImageId>::empty());
        assert(r.failures() =~= Seq::<Seq<char>>::empty());
        r
    }

    fn contains(&self, image: &CachedImage) -> (r: bool)
        ensures
            r == self.found().contains(image@),
    {
        let mut i: usize = 0;
        while i < self.images.len()
            invariant
                i <= self.images@.len(),
                forall|j: int| 0 <= j < i ==> self.found()[j] != image@,
            decreases self.images@.len() - i,
        {
            if self.images[i] == *image {
                assert(self.found()[i as int] == image@);
                return true;
            }
            i = i + 1;
        }
        false
    }

    /// Adds the images of one successful render that were not found before.
    fn merge(&mut self, drained: &Vec<CachedImage>)
        requires
            old(self).wf(),
        ensures
            final(self).wf(),
            final(self).found().to_set() == old(self).found().to_set() + ids(drained@).to_set(),
            final(self).failures() == old(self).failures(),
    {
        let mut i: usize = 0;
        while i < drained.len()
            invariant
                self.wf(),
                i <= drained@.len(),
                self.found().to_set() == old(self).found().to_set() + ids(drained@).take(
                    i as int,
                ).to_set(),
                self.failures() == old(self).failures(),
            decreases drained@.len() - i,
        {
            let ghost prev = self.found();
            assert(ids(drained@).take(i as int + 1) =~= ids(drained@).take(i as int).push(
                drained@[i as int]@,
            ));
            if !self.contains(&drained[i]) {
                let item = drained[i].clone();
                let ghost before = self.images@;
                self.images.push(item);
                assert(self.images@ =~= before.push(item));
                assert(self.found() =~= prev.push(drained@[i as int]@));
                proof {
                    prev.lemma_push_to_set_commute(drained@[i as int]@);
                }
                assert(self.found().to_set() =~= prev.to_set().insert(drained@[i as int]@));
            } else {
                assert(prev.to_set().contains(drained@[i as int]@));
            }
            proof {
                ids(drained@).take(i as int).lemma_push_to_set_commute(drained@[i as int]@);
            }
            assert(self.found().to_set() =~= old(self).found().to_set() + ids(drained@).take(
                i as int + 1,
            ).to_set());
            i = i + 1;
        }
        assert(ids(drained@).take(i as int) =~= ids(drained@));
    }

    /// Folds in the outcome of rendering `path`: the images of a successful render join
    /// those found; a failed render adds none and is recorded against its path.
    pub fn record(&mut self, path: &String, outcome: &RenderOutcome)
        requires
            old(self).wf(),
        ensures
            final(self).wf(),
            match outcome {
                RenderOutcome::Rendered(v) => final(self).found().to_set() == old(
                    self,
                ).found().to_set() + ids(v@).to_set() && final(self).failures() == old(
                    self,
                ).failures(),
                RenderOutcome::Failed => final(self).found() == old(self).found()
                    && final(self).failures() == old(self).failures().push(path@),
            },
    {
        match outcome {
            RenderOutcome::Rendered(v) => {
                self.merge(v);
            },
            RenderOutcome::Failed => {
                self.failed.push(path.clone());
                assert(self.failures() =~= old(self).failures().push(path@));
            },
        }
    }

    /// The distinct images found, each once.
    pub fn images(&self) -> (r: Vec<CachedImage>)
        ensures
            ids(r@) == self.found(),
    {
        let mut out: Vec<CachedImage> = Vec::new();
        let mut i: usize = 0;
        while i < self.images.len()
            invariant
                i <= self.images@.len(),
                out@.len() == i,
                forall|j: int| 0 <= j < i ==> out@[j]@ == self.images@[j]@,
            decreases self.images@.len() - i,
        {
            let item = self.images[i].clone();
            let ghost prev = out@;
            out.push(item);
            assert(out@ =~= prev.push(item));
            i = i + 1;
        }
        assert(ids(out@) =~= ids(self.images@));
        out
    }

    /// The paths whose render failed, in crawl order.
    pub fn failed_paths(&self) -> (r: Vec<String>)
        ensures
            paths_view(r@) == self.failures(),
    {
        let mut out: Vec<String> = Vec::new();
        let mut i: usize = 0;
        while i < self.failed.len()
            invariant
                i <= self.failed@.len(),
                out@.len() == i,
                forall|j: int| 0 <= j < i ==> out@[j]@ == self.failed@[j]@,
            decreases self.failed@.len() - i,
        {
            let item = self.failed[i].clone();
            let ghost prev = out@;
            out.push(item);
            i = i + 1;
        }
        assert(paths_view(out@) =~= paths_view(self.failed@));
        out
    }
}

} // verus!
