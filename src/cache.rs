//! The placeholder cache and the warm-up that fills it.
use vstd::prelude::*;
use crate::optimizer::{CachedImage, CachedImageOption, ImageId, ids, is_blur};

verus! {

/// The map that parallel sequences of keys and payloads stand for.
pub open spec fn map_of(ks: Seq<ImageId>, vs: Seq<Seq<char>>) -> Map<ImageId, Seq<char>>
    decreases ks.len(),
{
    if ks.len() == 0 {
        Map::empty()
    } else {
        map_of(ks.drop_last(), vs).insert(ks.last(), vs[ks.len() - 1])
    }
}

proof fn lemma_map_of(ks: Seq<ImageId>, vs: Seq<Seq<char>>)
    requires
        ks.no_duplicates(),
        ks.len() <= vs.len(),
    ensures
        map_of(ks, vs).dom().finite(),
        map_of(ks, vs).dom().len() == ks.len(),
        forall|k: ImageId| #[trigger] map_of(ks, vs).contains_key(k) <==> ks.contains(k),
        forall|i: int| 0 <= i < ks.len() ==> #[trigger] map_of(ks, vs)[ks[i]] == vs[i],
    decreases ks.len(),
{
    if ks.len() > 0 {
        let init = ks.drop_last();
        lemma_map_of(init, vs);
        assert(!init.contains(ks.last())) by {
            if init.contains(ks.last()) {
                let j = choose|j: int| 0 <= j < init.len() && init[j] == ks.last();
                assert(ks[j] == ks[ks.len() - 1]);
            }
        }
        assert forall|k: ImageId| #[trigger] map_of(ks, vs).contains_key(k) <==> ks.contains(k) by {
            if ks.contains(k) && k != ks.last() {
                let j = choose|j: int| 0 <= j < ks.len() && ks[j] == k;
                assert(init[j] == k);
            }
            if init.contains(k) {
                let j = choose|j: int| 0 <= j < init.len() && init[j] == k;
                assert(ks[j] == k);
            }
        }
        assert forall|i: int| 0 <= i < ks.len() implies #[trigger] map_of(ks, vs)[ks[i]] == vs[i] by {
            if i < ks.len() - 1 {
                assert(init[i] == ks[i]);
                assert(ks[i] != ks.last());
            }
        }
    }
}

/// Generated placeholder payloads keyed by image identity. Each key is written at most once.
pub struct PlaceholderCache {
    keys: Vec<CachedImage>,
    payloads: Vec<String>,
}

impl View for PlaceholderCache {
    type V = Map<ImageId, Seq<char>>;

    closed spec fn view(&self) -> Map<ImageId, Seq<char>> {
        map_of(ids(self.keys@), self.payloads@.map_values(|p: String| p@))
    }
}

impl PlaceholderCache {
    pub closed spec fn wf(&self) -> bool {
        self.keys@.len() == self.payloads@.len() && ids(self.keys@).no_duplicates()
    }

    /// An empty cache.
    pub fn new() -> (r: PlaceholderCache)
        ensures
            r.wf(),
            r@ == Map::<ImageId, Seq<char>>::empty(),
    {
        PlaceholderCache { keys: Vec::new(), payloads: Vec::new() }
    }

    fn index_of(&self, key: &CachedImage) -> (r: Option<usize>)
        requires
            self.wf(),
        ensures
            match r {
                Some(i) => i < self.keys@.len() && self.keys@[i as int]@ == key@,
                None => !ids(self.keys@).contains(key@),
            },
    {
        let mut i: usize = 0;
        while i < self.keys.len()
            invariant
                i <= self.keys@.len(),
                forall|j: int| 0 <= j < i ==> self.keys@[j]@ != key@,
            decreases self.keys@.len() - i,
        {
            if self.keys[i] == *key {
                return Some(i);
            }
            i = i + 1;
        }
        assert(!ids(self.keys@).contains(key@)) by {
            if ids(self.keys@).contains(key@) {
                let j = choose|j: int| 0 <= j < ids(self.keys@).len() && ids(self.keys@)[j] == key@;
                assert(self.keys@[j]@ == key@);
            }
        }
        None
    }

    /// The number of cached placeholders.
    pub fn len(&self) -> (r: usize)
        requires
            self.wf(),
        ensures
            r == self@.dom().len(),
    {
        proof {
            lemma_map_of(ids(self.keys@), self.payloads@.map_values(|p: String| p@));
        }
        self.keys.len()
    }

    /// The placeholder cached for `key`, if any.
    pub fn get(&self, key: &CachedImage) -> (r: Option<&String>)
        requires
            self.wf(),
        ensures
            r.is_some() == self@.contains_key(key@),
            r.is_some() ==> r.unwrap()@ == self@[key@],
    {
        proof {
            lemma_map_of(ids(self.keys@), self.payloads@.map_values(|p: String| p@));
        }
        match self.index_of(key) {
            Some(i) => {
                assert(ids(self.keys@)[i as int] == key@);
                Some(&self.payloads[i])
            },
            None => None,
        }
    }

    /// Stores `payload` under `key` unless the key is present already; returns whether it
    /// stored.
    pub fn insert(&mut self, key: CachedImage, payload: String) -> (r: bool)
        requires
            old(self).wf(),
        ensures
            final(self).wf(),
            r == !old(self)@.contains_key(key@),
            r ==> final(self)@ == old(self)@.insert(key@, payload@),
            !r ==> final(self)@ == old(self)@,
    {
        proof {
            lemma_map_of(ids(self.keys@), self.payloads@.map_values(|p: String| p@));
        }
        match self.index_of(&key) {
            Some(i) => {
                assert(ids(self.keys@)[i as int] == key@);
                false
            },
            None => {
                let ghost ks = ids(self.keys@);
                let ghost vs = self.payloads@.map_values(|p: String| p@);
                let ghost k = key@;
                let ghost v = payload@;
                self.keys.push(key);
                self.payloads.push(payload);
                assert(ids(self.keys@) =~= ks.push(k));
                assert(self.payloads@.map_values(|p: String| p@) =~= vs.push(v));
                assert(ids(self.keys@).drop_last() =~= ks);
                proof {
                    assert forall|i: int| 0 <= i < ks.len() implies ks.push(k)[i] != k by {
                        assert(ks.contains(ks[i]));
                    }
                    assert(ids(self.keys@).no_duplicates());
                    lemma_map_of_extend(ks, vs, v);
                }
                true
            },
        }
    }
}

proof fn lemma_map_of_extend(ks: Seq<ImageId>, vs: Seq<Seq<char>>, v: Seq<char>)
    requires
        ks.len() <= vs.len(),
    ensures
        map_of(ks, vs.push(v)) == map_of(ks, vs),
    decreases ks.len(),
{
    if ks.len() > 0 {
        lemma_map_of_extend(ks.drop_last(), vs, v);
    }
}

// ---- warm-up ----

/// The blur placeholders among some images, in order.
pub open spec fn blur_only(s: Seq<ImageId>) -> Seq<ImageId>
    decreases s.len(),
{
    if s.len() == 0 {
        Seq::empty()
    } else if is_blur(s.last()) {
        blur_only(s.drop_last()).push(s.last())
    } else {
        blur_only(s.drop_last())
    }
}

/// The images for which a placeholder is generated ahead of traffic: the blur
/// variants, in order. Resize variants are produced on demand.
pub fn blur_targets(images: &Vec<CachedImage>) -> (r: Vec<CachedImage>)
    ensures
        ids(r@) == blur_only(ids(images@)),
{
    let mut out: Vec<CachedImage> = Vec::new();
    let mut i: usize = 0;
    while i < images.len()
        invariant
            i <= images@.len(),
            ids(out@) == blur_only(ids(images@).take(i as int)),
        decreases images@.len() - i,
    {
        let ghost after = ids(images@).take(i as int + 1);
        assert(after.drop_last() =~= ids(images@).take(i as int));
        assert(after.last() == images@[i as int]@);
        if matches!(images[i].option, CachedImageOption::Blur(_)) {
            let item = images[i].clone();
            let ghost prev = out@;
            out.push(item);
            assert(out@ =~= prev.push(item));
            assert(ids(out@) =~= ids(prev).push(item@));
        }
        i = i + 1;
    }
    assert(ids(images@).take(i as int) =~= ids(images@));
    out
}

pub open spec fn payload_view(o: Option<String>) -> Option<Seq<char>> {
    match o {
        Some(s) => Some(s@),
        None => None,
    }
}

/// What the transform engine gave back for each image: a payload, or nothing on failure.
pub open spec fn generated_view(g: Seq<(CachedImage, Option<String>)>) -> Seq<(ImageId, Option<Seq<char>>)> {
    g.map_values(|e: (CachedImage, Option<String>)| (e.0@, payload_view(e.1)))
}

/// Whether a generated result goes into the cache: a blur variant whose transform succeeded.
pub open spec fn storable(e: (ImageId, Option<Seq<char>>)) -> bool {
    is_blur(e.0) && e.1 is Some
}

/// The cache after warm-up has offered it each generated result in turn, write-once.
pub open spec fn warm_map(m: Map<ImageId, Seq<char>>, g: Seq<(ImageId, Option<Seq<char>>)>) -> Map<
    ImageId,
    Seq<char>,
>
    decreases g.len(),
{
    if g.len() == 0 {
        m
    } else {
        let prev = warm_map(m, g.drop_last());
        let e = g.last();
        if storable(e) && !prev.contains_key(e.0) {
            prev.insert(e.0, e.1.unwrap())
        } else {
            prev
        }
    }
}

impl PlaceholderCache {
    /// Stores the payload of each blur variant whose transform succeeded, unless its key
    /// is cached already. Failed transforms and resize variants leave the cache alone.
    pub fn warm_up(&mut self, generated: &Vec<(CachedImage, Option<String>)>)
        requires
            old(self).wf(),
        ensures
            final(self).wf(),
            final(self)@ == warm_map(old(self)@, generated_view(generated@)),
    {
        let mut i: usize = 0;
        while i < generated.len()
            invariant
                self.wf(),
                i <= generated@.len(),
                self@ == warm_map(old(self)@, generated_view(generated@).take(i as int)),
            decreases generated@.len() - i,
        {
            let ghost after = generated_view(generated@).take(i as int + 1);
            assert(after.drop_last() =~= generated_view(generated@).take(i as int));
            assert(after.last() == generated_view(generated@)[i as int]);
            let (image, outcome) = &generated[i];
            if matches!(image.option, CachedImageOption::Blur(_)) {
                match outcome {
                    Some(p) => {
                        self.insert(image.clone(), p.clone());
                    },
                    None => {},
                }
            }
            i = i + 1;
        }
        assert(generated_view(generated@).take(i as int) =~= generated_view(generated@));
    }
}

/// Warm-up writes nothing but blur variants, and never rewrites a key that was cached
/// before it ran.
pub proof fn lemma_warm_up_writes_only_blur(
    m: Map<ImageId, Seq<char>>,
    g: Seq<(ImageId, Option<Seq<char>>)>,
)
    ensures
        forall|k: ImageId| #[trigger]
            warm_map(m, g).contains_key(k) ==> m.contains_key(k) || is_blur(k),
        forall|k: ImageId|
            m.contains_key(k) ==> #[trigger] warm_map(m, g).contains_key(k) && warm_map(m, g)[k]
                == m[k],
    decreases g.len(),
{
    if g.len() > 0 {
        let init = g.drop_last();
        let prev = warm_map(m, init);
        lemma_warm_up_writes_only_blur(m, init);
        let e = g.last();
        assert forall|k: ImageId| #[trigger]
            warm_map(m, g).contains_key(k) implies m.contains_key(k) || is_blur(k) by {
            if k != e.0 || !storable(e) || prev.contains_key(e.0) {
                assert(prev.contains_key(k));
            }
        }
        assert forall|k: ImageId|
            m.contains_key(k) implies #[trigger] warm_map(m, g).contains_key(k) && warm_map(
            m,
            g,
        )[k] == m[k] by {
            assert(prev.contains_key(k) && prev[k] == m[k]);
        }
    }
}

/// After warm-up, every blur variant whose transform succeeded has a placeholder.
pub proof fn lemma_warm_up_covers(m: Map<ImageId, Seq<char>>, g: Seq<(ImageId, Option<Seq<char>>)>)
    ensures
        forall|j: int|
            0 <= j < g.len() && storable(g[j]) ==> #[trigger] warm_map(m, g).contains_key(g[j].0),
    decreases g.len(),
{
    if g.len() > 0 {
        let init = g.drop_last();
        lemma_warm_up_covers(m, init);
        lemma_warm_up_writes_only_blur(warm_map(m, init), seq![g.last()]);
        assert forall|j: int|
            0 <= j < g.len() && storable(g[j]) implies #[trigger] warm_map(m, g).contains_key(
            g[j].0,
        ) by {
            if j < g.len() - 1 {
                assert(init[j] == g[j]);
                assert(warm_map(m, init).contains_key(init[j].0));
            }
        }
    }
}

proof fn lemma_warm_up_settled(m: Map<ImageId, Seq<char>>, g: Seq<(ImageId, Option<Seq<char>>)>)
    requires
        forall|j: int| 0 <= j < g.len() && storable(g[j]) ==> m.contains_key(#[trigger] g[j].0),
    ensures
        warm_map(m, g) == m,
    decreases g.len(),
{
    if g.len() > 0 {
        let init = g.drop_last();
        assert forall|j: int| 0 <= j < init.len() && storable(init[j]) implies m.contains_key(
            #[trigger] init[j].0,
        ) by {
            assert(init[j] == g[j]);
        }
        lemma_warm_up_settled(m, init);
        assert(g.last() == g[g.len() - 1]);
    }
}

/// Running warm-up a second time with the same transform results leaves the cache as
/// the first run left it.
pub proof fn lemma_warm_up_idempotent(
    m: Map<ImageId, Seq<char>>,
    g: Seq<(ImageId, Option<Seq<char>>)>,
)
    ensures
        warm_map(warm_map(m, g), g) == warm_map(m, g),
{
    lemma_warm_up_covers(m, g);
    lemma_warm_up_settled(warm_map(m, g), g);
}

} // verus!
