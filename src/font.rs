use vstd::prelude::*;
use crate::arena::Arena;
use crate::scene::FontId;

verus! {

/// Where one glyph sits in the atlas, and how it is placed; `advance` is the
/// bit pattern of an `f32` in pixels.
#[derive(Clone, Copy, Debug)]
pub struct Glyph {
    pub ch: char,
    pub atlas_x: u32,
    pub atlas_y: u32,
    pub width: u32,
    pub height: u32,
    pub bearing_x: i32,
    pub bearing_y: i32,
    pub advance: u32,
}

/// A font rasterized at one size: its glyph table and its atlas texture
/// (one coverage byte per pixel, row-major).
pub struct FontAsset {
    pub glyphs: Vec<Glyph>,
    pub atlas_width: u32,
    pub atlas_height: u32,
    pub atlas: Vec<u8>,
}

#[derive(Clone, Copy, Debug, PartialEq, Eq, Structural)]
pub enum FontError {
    /// The asset could not be read.
    NotFound,
    /// The asset could not be parsed or rasterized.
    Unsupported,
    /// No handle is left for another font.
    CacheFull,
}

/// A cached font: its key (path, and size as `f32` bits), the number of
/// loads not yet matched by a clear, and the asset.
pub struct FontEntry {
    pub path: String,
    pub size: u32,
    pub refs: u64,
    pub asset: FontAsset,
}

pub open spec fn has_key(e: FontEntry, path: Seq<char>, size: u32) -> bool {
    e.path@ == path && e.size == size
}

pub open spec fn refs_after_load(refs: u64) -> u64 {
    if refs < u64::MAX { (refs + 1) as u64 } else { refs }
}

/// Fonts keyed by (path, size), each key held at most once.
pub struct FontCache {
    fonts: Arena<FontEntry>,
}

impl FontCache {
    pub closed spec fn view(&self) -> Map<FontId, FontEntry> {
        self.fonts@
    }

    pub closed spec fn issued(&self) -> Set<FontId> {
        self.fonts.issued()
    }

    pub closed spec fn is_full(&self) -> bool {
        self.fonts.is_full()
    }

    pub closed spec fn wf(&self) -> bool {
        &&& self.fonts.wf()
        &&& forall|h: FontId| #[trigger] self.fonts@.contains_key(h) ==> self.fonts@[h].refs >= 1
        &&& forall|h1: FontId, h2: FontId|
            #[trigger] self.fonts@.contains_key(h1) && #[trigger] self.fonts@.contains_key(h2) && h1 != h2
                ==> !has_key(self.fonts@[h2], self.fonts@[h1].path@, self.fonts@[h1].size)
    }

    /// The id that holds (`path`, `size`), if one does.
    pub open spec fn holder(&self, path: Seq<char>, size: u32) -> Option<FontId> {
        if exists|h: FontId| self@.contains_key(h) && has_key(self@[h], path, size) {
            Some(choose|h: FontId| self@.contains_key(h) && has_key(self@[h], path, size))
        } else {
            None
        }
    }

    /// What `load` does: a cached key gives its id back and counts one more
    /// load; otherwise a fetched asset is stored under a new id, never issued
    /// before, and a fetch error is passed on.
    pub open spec fn loaded(
        &self,
        after: &FontCache,
        path: Seq<char>,
        size: u32,
        fetched: Result<(), FontError>,
        r: Result<FontId, FontError>,
    ) -> bool {
        match self.holder(path, size) {
            Some(h) => {
                &&& r == Ok::<FontId, FontError>(h)
                &&& after@.dom() == self@.dom()
                &&& after@.remove(h) == self@.remove(h)
                &&& has_key(after@[h], path, size)
                &&& after@[h].refs == refs_after_load(self@[h].refs)
                &&& after@[h].asset == self@[h].asset
                &&& after.issued() == self.issued()
            },
            None => match fetched {
                Err(e) => r == Err::<FontId, FontError>(e) && after@ == self@ && after.issued() == self.issued(),
                Ok(_) => if self.is_full() {
                    r == Err::<FontId, FontError>(FontError::CacheFull) && after@ == self@
                        && after.issued() == self.issued()
                } else {
                    exists|h: FontId| {
                        &&& r == Ok::<FontId, FontError>(h)
                        &&& !self.issued().contains(h)
                        &&& after.issued() == self.issued().insert(h)
                        &&& after@.contains_key(h)
                        &&& after@.remove(h) == self@
                        &&& has_key(after@[h], path, size)
                        &&& after@[h].refs == 1
                    }
                },
            },
        }
    }

    /// What `clear` does: one load is matched; the last one releases the font.
    pub open spec fn cleared(&self, after: &FontCache, id: FontId) -> bool {
        &&& after.issued() == self.issued()
        &&& if !self@.contains_key(id) {
            after@ == self@
        } else if self@[id].refs <= 1 {
            after@ == self@.remove(id)
        } else {
            &&& after@.dom() == self@.dom()
            &&& after@.remove(id) == self@.remove(id)
            &&& after@[id].refs == self@[id].refs - 1
            &&& has_key(after@[id], self@[id].path@, self@[id].size)
            &&& after@[id].asset == self@[id].asset
        }
    }

    proof fn lemma_key_unique(&self, h1: FontId, h2: FontId)
        requires
            self.wf(),
            self@.contains_key(h1),
            self@.contains_key(h2),
            has_key(self@[h2], self@[h1].path@, self@[h1].size),
        ensures
            h1 == h2,
    {
        if h1 != h2 {
            assert(self.fonts@.contains_key(h1) && self.fonts@.contains_key(h2));
        }
    }

    /// Loading the same (path, size) twice gives the same id the second time.
    pub proof fn lemma_load_twice_same_id(
        c0: FontCache,
        c1: FontCache,
        c2: FontCache,
        path: Seq<char>,
        size: u32,
        f1: Result<(), FontError>,
        f2: Result<(), FontError>,
        r1: Result<FontId, FontError>,
        r2: Result<FontId, FontError>,
    )
        requires
            c1.wf(),
            c0.loaded(&c1, path, size, f1, r1),
            c1.loaded(&c2, path, size, f2, r2),
            r1 is Ok,
        ensures
            r2 == r1,
    {
        let h1 = r1->Ok_0;
        assert(c1@.contains_key(h1) && has_key(c1@[h1], path, size));
        let h = c1.holder(path, size)->0;
        c1.lemma_key_unique(h1, h);
    }

    /// Once as many clears as loads have come, the font is released: the id
    /// is gone, and loading the key again gives a new id.
    pub proof fn lemma_last_clear_releases(
        c0: FontCache,
        c1: FontCache,
        c2: FontCache,
        id: FontId,
        r: Result<FontId, FontError>,
    )
        requires
            c0.wf(),
            c0@.contains_key(id),
            c0@[id].refs == 1,
            c0.cleared(&c1, id),
            c1.loaded(&c2, c0@[id].path@, c0@[id].size, Ok(()), r),
        ensures
            !c1@.contains_key(id),
            r is Ok ==> r != Ok::<FontId, FontError>(id),
    {
        let path = c0@[id].path@;
        let size = c0@[id].size;
        c0.fonts.lemma_valid_issued(id);
        assert forall|h: FontId| c1@.contains_key(h) implies !has_key(c1@[h], path, size) by {
            if has_key(c1@[h], path, size) {
                c0.lemma_key_unique(id, h);
            }
        };
        assert(c1.holder(path, size) is None);
    }

    pub fn new() -> (r: Self)
        ensures
            r.wf(),
            r@ == Map::<FontId, FontEntry>::empty(),
    {
        FontCache { fonts: Arena::new() }
    }

    pub fn get(&self, id: FontId) -> (r: Option<&FontEntry>)
        ensures
            r is Some <==> self@.contains_key(id),
            r matches Some(e) ==> *e == self@[id],
    {
        self.fonts.get(id)
    }

    /// The id that holds (`path`, `size`), if one does.
    pub fn find(&self, path: &String, size: u32) -> (r: Option<FontId>)
        requires
            self.wf(),
        ensures
            r == self.holder(path@, size),
    {
        let n = self.fonts.slot_count_exec();
        let mut i: usize = 0;
        while i < n
            invariant
                self.wf(),
                n == self.fonts.slot_count(),
                i <= n,
                forall|j: int| 0 <= j < i ==> match #[trigger] self.fonts.handle_at(j) {
                    Some(h) => !has_key(self@[h], path@, size),
                    None => true,
                },
            decreases n - i,
        {
            if let Some(h) = self.fonts.handle_at_exec(i) {
                proof { self.fonts.lemma_handle_at(i as int); }
                let e = self.fonts.get(h).unwrap();
                if e.path == *path && e.size == size {
                    proof {
                        assert(self@.contains_key(h) && has_key(self@[h], path@, size));
                        let c = choose|c: FontId| self@.contains_key(c) && has_key(self@[c], path@, size);
                        if c != h {
                            assert(!has_key(self@[c], self@[h].path@, self@[h].size));
                        }
                    }
                    return Some(h);
                }
            }
            i = i + 1;
        }
        proof {
            assert forall|h: FontId| self@.contains_key(h) implies !has_key(self@[h], path@, size) by {
                self.fonts.lemma_handle_at(h.index as int);
                assert(self.fonts.handle_at(h.index as int) == Some(h));
                assert((h.index as int) < n);
            };
        }
        None
    }

    /// Loads the font at (`path`, `size`). A cached key is served from the
    /// cache and `fetched` is not used; otherwise `fetched` is what reading
    /// and rasterizing the asset gave.
    pub fn load(&mut self, path: String, size: u32, fetched: Result<FontAsset, FontError>) -> (r: Result<FontId, FontError>)
        requires
            old(self).wf(),
        ensures
            final(self).wf(),
            old(self).loaded(final(self), path@, size, match fetched { Ok(_) => Ok(()), Err(e) => Err(e) }, r),
    {
        match self.find(&path, size) {
            Some(h) => {
                let ghost pre = *self;
                let placeholder = FontEntry { path: String::new(), size: 0, refs: 0, asset: FontAsset { glyphs: Vec::new(), atlas_width: 0, atlas_height: 0, atlas: Vec::new() } };
                let e = self.fonts.replace(h, placeholder).unwrap();
                let refs = if e.refs < u64::MAX { e.refs + 1 } else { e.refs };
                self.fonts.replace(h, FontEntry { path: e.path, size: e.size, refs, asset: e.asset });
                proof {
                    assert(self@.remove(h) =~= pre@.remove(h));
                    assert(self@.dom() =~= pre@.dom());
                    assert forall|h1: FontId, h2: FontId|
                        #[trigger] self.fonts@.contains_key(h1) && #[trigger] self.fonts@.contains_key(h2) && h1 != h2
                        implies !has_key(self.fonts@[h2], self.fonts@[h1].path@, self.fonts@[h1].size) by {
                        assert(pre.fonts@.contains_key(h1) && pre.fonts@.contains_key(h2));
                    };
                    assert forall|h1: FontId| #[trigger] self.fonts@.contains_key(h1) implies self.fonts@[h1].refs >= 1 by {
                        assert(pre.fonts@.contains_key(h1));
                    };
                }
                Ok(h)
            },
            None => match fetched {
                Err(e) => Err(e),
                Ok(asset) => {
                    if self.fonts.is_full_exec() {
                        return Err(FontError::CacheFull);
                    }
                    let ghost pre = *self;
                    let h = self.fonts.insert(FontEntry { path, size, refs: 1, asset }).unwrap();
                    proof {
                        assert(!pre@.contains_key(h)) by {
                            if pre@.contains_key(h) { pre.fonts.lemma_valid_issued(h); }
                        };
                        assert(self@.remove(h) =~= pre@);
                        assert forall|h1: FontId, h2: FontId|
                            #[trigger] self.fonts@.contains_key(h1) && #[trigger] self.fonts@.contains_key(h2) && h1 != h2
                            implies !has_key(self.fonts@[h2], self.fonts@[h1].path@, self.fonts@[h1].size) by {
                            if h1 != h && h2 != h {
                                assert(pre.fonts@.contains_key(h1) && pre.fonts@.contains_key(h2));
                            } else if h1 == h {
                                assert(pre@.contains_key(h2));
                            } else {
                                assert(pre@.contains_key(h1));
                            }
                        };
                        assert forall|h1: FontId| #[trigger] self.fonts@.contains_key(h1) implies self.fonts@[h1].refs >= 1 by {
                            if h1 != h { assert(pre.fonts@.contains_key(h1)); }
                        };
                    }
                    Ok(h)
                },
            },
        }
    }

    /// Matches one load of `id`; the last one releases the font and its id.
    /// An id that is not loaded changes nothing.
    pub fn clear(&mut self, id: FontId)
        requires
            old(self).wf(),
        ensures
            final(self).wf(),
            old(self).cleared(final(self), id),
    {
        let ghost pre = *self;
        let refs = match self.fonts.get(id) {
            Some(e) => e.refs,
            None => { return; },
        };
        if refs <= 1 {
            self.fonts.remove(id);
        } else {
            let placeholder = FontEntry { path: String::new(), size: 0, refs: 0, asset: FontAsset { glyphs: Vec::new(), atlas_width: 0, atlas_height: 0, atlas: Vec::new() } };
            let e = self.fonts.replace(id, placeholder).unwrap();
            self.fonts.replace(id, FontEntry { path: e.path, size: e.size, refs: e.refs - 1, asset: e.asset });
            proof {
                assert(self@.remove(id) =~= pre@.remove(id));
                assert(self@.dom() =~= pre@.dom());
            }
        }
        proof {
            assert forall|h1: FontId, h2: FontId|
                #[trigger] self.fonts@.contains_key(h1) && #[trigger] self.fonts@.contains_key(h2) && h1 != h2
                implies !has_key(self.fonts@[h2], self.fonts@[h1].path@, self.fonts@[h1].size) by {
                assert(pre.fonts@.contains_key(h1) && pre.fonts@.contains_key(h2));
            };
            assert forall|h1: FontId| #[trigger] self.fonts@.contains_key(h1) implies self.fonts@[h1].refs >= 1 by {
                assert(pre.fonts@.contains_key(h1));
            };
        }
    }
}

} // verus!
