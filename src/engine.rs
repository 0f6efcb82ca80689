use vstd::prelude::*;
use crate::arena::Arena;
use crate::font::{FontAsset, FontCache, FontError};
use crate::scene::{
    F32_ONE, F32_ZERO, FontId, ObjectId, ShaderId, UniformEntry, UniformValue, Vec2, Vec4,
    names_unique, upsert_uniform, upserted,
};
use crate::shader::{ShaderError, ShaderProgram};

verus! {

#[derive(Clone, Copy, Debug, PartialEq, Eq, Structural)]
pub enum ObjectKind {
    Rect,
    Text,
}

/// A drawable object. Float fields are `f32` bit patterns; `rotation` is in
/// degrees, clockwise; `corner_radii` are top-left, top-right, bottom-right,
/// bottom-left and only shape a `Rect`. `created` is the object's place in
/// creation order.
pub struct DrawObject {
    pub kind: ObjectKind,
    pub position: Vec2,
    pub size: Vec2,
    pub rotation: u32,
    pub color: Vec4,
    pub z_index: u32,
    pub corner_radii: Vec4,
    pub shader: Option<ShaderId>,
    pub uniforms: Vec<UniformEntry>,
    pub text: String,
    pub font: Option<FontId>,
    pub created: u64,
}

pub open spec fn origin() -> Vec2 {
    Vec2 { x: F32_ZERO, y: F32_ZERO }
}

pub open spec fn opaque_white() -> Vec4 {
    Vec4 { x: F32_ONE, y: F32_ONE, z: F32_ONE, w: F32_ONE }
}

pub open spec fn no_radii() -> Vec4 {
    Vec4 { x: F32_ZERO, y: F32_ZERO, z: F32_ZERO, w: F32_ZERO }
}

/// A new object: at the origin, of zero size, unrotated, opaque white, at
/// z 0, square-cornered, with no shader or font and no uniforms or text.
pub open spec fn is_fresh(o: DrawObject, kind: ObjectKind, created: u64) -> bool {
    &&& o.kind == kind
    &&& o.position == origin()
    &&& o.size == origin()
    &&& o.rotation == F32_ZERO
    &&& o.color == opaque_white()
    &&& o.z_index == F32_ZERO
    &&& o.corner_radii == no_radii()
    &&& o.shader is None
    &&& o.uniforms@.len() == 0
    &&& o.text@.len() == 0
    &&& o.font is None
    &&& o.created == created
}

fn fresh_object(kind: ObjectKind, created: u64) -> (r: DrawObject)
    ensures
        is_fresh(r, kind, created),
{
    DrawObject {
        kind,
        position: Vec2 { x: F32_ZERO, y: F32_ZERO },
        size: Vec2 { x: F32_ZERO, y: F32_ZERO },
        rotation: F32_ZERO,
        color: Vec4 { x: F32_ONE, y: F32_ONE, z: F32_ONE, w: F32_ONE },
        z_index: F32_ZERO,
        corner_radii: Vec4 { x: F32_ZERO, y: F32_ZERO, z: F32_ZERO, w: F32_ZERO },
        shader: None,
        uniforms: Vec::new(),
        text: String::new(),
        font: None,
        created,
    }
}

/// The engine: the object registry, the font and shader caches, and the
/// viewport.
pub struct Engine {
    objects: Arena<DrawObject>,
    fonts: FontCache,
    shaders: Arena<ShaderProgram>,
    width: u32,
    height: u32,
    next_created: u64,
}

impl Engine {
    pub closed spec fn objects(&self) -> Map<ObjectId, DrawObject> {
        self.objects@
    }

    /// Every object id ever handed out.
    pub closed spec fn object_ids_issued(&self) -> Set<ObjectId> {
        self.objects.issued()
    }

    /// An object id that was handed out and whose object is gone.
    pub open spec fn is_stale(&self, id: ObjectId) -> bool {
        self.object_ids_issued().contains(id) && !self.objects().contains_key(id)
    }

    pub closed spec fn font_cache(&self) -> FontCache {
        self.fonts
    }

    pub closed spec fn shaders(&self) -> Map<ShaderId, ShaderProgram> {
        self.shaders@
    }

    pub closed spec fn shader_ids_issued(&self) -> Set<ShaderId> {
        self.shaders.issued()
    }

    pub closed spec fn viewport(&self) -> (u32, u32) {
        (self.width, self.height)
    }

    pub closed spec fn next_created(&self) -> u64 {
        self.next_created
    }

    /// No further object can be made: the registry has no slot left, or
    /// creation order is exhausted.
    pub closed spec fn objects_exhausted(&self) -> bool {
        self.objects.is_full() || self.next_created == u64::MAX
    }

    pub closed spec fn shaders_full(&self) -> bool {
        self.shaders.is_full()
    }

    pub closed spec fn wf(&self) -> bool {
        &&& self.objects.wf()
        &&& self.fonts.wf()
        &&& self.shaders.wf()
        &&& forall|h: ObjectId| #[trigger] self.objects@.contains_key(h) ==> {
            &&& self.objects@[h].created < self.next_created
            &&& names_unique(self.objects@[h].uniforms@)
            &&& (self.objects@[h].shader matches Some(s) ==> self.shaders@.contains_key(s))
        }
        &&& forall|h1: ObjectId, h2: ObjectId|
            #[trigger] self.objects@.contains_key(h1) && #[trigger] self.objects@.contains_key(h2) && h1 != h2
                ==> self.objects@[h1].created != self.objects@[h2].created
    }

    /// Everything but the objects is as it was.
    pub open spec fn same_resources(&self, other: &Engine) -> bool {
        &&& other.font_cache()@ == self.font_cache()@
        &&& other.font_cache().issued() == self.font_cache().issued()
        &&& other.font_cache().is_full() == self.font_cache().is_full()
        &&& other.shaders() == self.shaders()
        &&& other.shader_ids_issued() == self.shader_ids_issued()
        &&& other.shaders_full() == self.shaders_full()
        &&& other.viewport() == self.viewport()
    }

    /// From `self` to `after` no id was taken back: ids issued stay issued,
    /// and an object that appeared has an id never issued before.
    pub open spec fn keeps_stale_ids(&self, after: &Engine) -> bool {
        &&& self.object_ids_issued().subset_of(after.object_ids_issued())
        &&& forall|id: ObjectId|
            #[trigger] after.objects().contains_key(id) && !self.objects().contains_key(id)
                ==> !self.object_ids_issued().contains(id)
    }

    /// Only the object `id` may have changed, and only as `o` says.
    pub open spec fn object_set(&self, other: &Engine, id: ObjectId, o: DrawObject) -> bool {
        &&& self.keeps_stale_ids(other)
        &&& self.same_resources(other)
        &&& other.object_ids_issued() == self.object_ids_issued()
        &&& other.next_created() == self.next_created()
        &&& other.objects_exhausted() == self.objects_exhausted()
        &&& other.objects() == if self.objects().contains_key(id) {
            self.objects().insert(id, o)
        } else {
            self.objects()
        }
    }

    /// Live objects have distinct creation stamps.
    pub proof fn lemma_created_unique(&self, h1: ObjectId, h2: ObjectId)
        requires
            self.wf(),
            self.objects().contains_key(h1),
            self.objects().contains_key(h2),
            h1 != h2,
        ensures
            self.objects()[h1].created != self.objects()[h2].created,
    {
        assert(self.objects@.contains_key(h1) && self.objects@.contains_key(h2));
    }

    /// A shader bound to a live object is a compiled program.
    pub proof fn lemma_shaders_bound(&self, h: ObjectId)
        requires
            self.wf(),
            self.objects().contains_key(h),
        ensures
            self.objects()[h].shader matches Some(s) ==> self.shaders().contains_key(s),
    {
        assert(self.objects@.contains_key(h));
    }

    /// An id that names a live object was handed out by this engine.
    pub proof fn lemma_live_ids_issued(&self, id: ObjectId)
        requires
            self.wf(),
            self.objects().contains_key(id),
        ensures
            self.object_ids_issued().contains(id),
    {
        self.objects.lemma_valid_issued(id);
    }

    /// An id whose object is gone never refers to an object again, however
    /// many objects are made, changed, deleted or cleared after: a reused
    /// slot never passes the old id's generation check.
    pub proof fn lemma_stale_id_stays_stale(run: Seq<Engine>, id: ObjectId)
        requires
            run.len() > 0,
            run[0].is_stale(id),
            forall|i: int| 0 <= i < run.len() - 1 ==> (#[trigger] run[i]).keeps_stale_ids(&run[i + 1]),
        ensures
            forall|i: int| 0 <= i < run.len() ==> (#[trigger] run[i]).is_stale(id),
        decreases run.len(),
    {
        if run.len() > 1 {
            let prefix = run.drop_last();
            assert forall|i: int| 0 <= i < prefix.len() - 1 implies (#[trigger] prefix[i]).keeps_stale_ids(&prefix[i + 1]) by {
                assert(prefix[i] == run[i] && prefix[i + 1] == run[i + 1]);
            };
            Engine::lemma_stale_id_stays_stale(prefix, id);
            let k = run.len() - 2;
            assert(prefix[k].is_stale(id));
            assert(run[k].keeps_stale_ids(&run[k + 1]));
            assert forall|i: int| 0 <= i < run.len() implies (#[trigger] run[i]).is_stale(id) by {
                if i < run.len() - 1 {
                    assert(prefix[i] == run[i]);
                }
            };
        }
    }

    pub fn new(width: u32, height: u32) -> (r: Self)
        ensures
            r.wf(),
            r.objects() == Map::<ObjectId, DrawObject>::empty(),
            r.font_cache()@ == Map::<FontId, crate::font::FontEntry>::empty(),
            r.shaders() == Map::<ShaderId, ShaderProgram>::empty(),
            r.object_ids_issued() == Set::<ObjectId>::empty(),
            r.viewport() == (width, height),
            !r.objects_exhausted(),
            !r.shaders_full(),
    {
        Engine {
            objects: Arena::new(),
            fonts: FontCache::new(),
            shaders: Arena::new(),
            width,
            height,
            next_created: 0,
        }
    }

    pub fn objects_arena(&self) -> (r: &Arena<DrawObject>)
        ensures
            r@ == self.objects(),
            self.wf() ==> r.wf(),
    {
        &self.objects
    }

    pub fn font_cache_ref(&self) -> (r: &FontCache)
        ensures
            *r == self.font_cache(),
    {
        &self.fonts
    }

    pub fn shader(&self, id: ShaderId) -> (r: Option<&ShaderProgram>)
        ensures
            r is Some <==> self.shaders().contains_key(id),
            r matches Some(p) ==> *p == self.shaders()[id],
    {
        self.shaders.get(id)
    }

    pub fn viewport_exec(&self) -> (r: (u32, u32))
        ensures
            r == self.viewport(),
    {
        (self.width, self.height)
    }

    pub fn set_viewport(&mut self, width: u32, height: u32)
        ensures
            final(self).viewport() == (width, height),
            final(self).objects() == old(self).objects(),
            final(self).object_ids_issued() == old(self).object_ids_issued(),
            final(self).next_created() == old(self).next_created(),
            final(self).objects_exhausted() == old(self).objects_exhausted(),
            final(self).font_cache() == old(self).font_cache(),
            final(self).shaders() == old(self).shaders(),
            final(self).shader_ids_issued() == old(self).shader_ids_issued(),
            final(self).shaders_full() == old(self).shaders_full(),
            old(self).wf() ==> final(self).wf(),
    {
        self.width = width;
        self.height = height;
    }

    fn new_object(&mut self, kind: ObjectKind) -> (r: Option<ObjectId>)
        requires
            old(self).wf(),
        ensures
            final(self).wf(),
            old(self).same_resources(final(self)),
            r is None <==> old(self).objects_exhausted(),
            r is None ==> final(self).objects() == old(self).objects()
                && final(self).object_ids_issued() == old(self).object_ids_issued()
                && final(self).next_created() == old(self).next_created()
                && final(self).objects_exhausted() == old(self).objects_exhausted(),
            r matches Some(id) ==> {
                &&& !old(self).object_ids_issued().contains(id)
                &&& final(self).object_ids_issued() == old(self).object_ids_issued().insert(id)
                &&& final(self).objects().contains_key(id)
                &&& final(self).objects().remove(id) == old(self).objects()
                &&& is_fresh(final(self).objects()[id], kind, old(self).next_created())
                &&& final(self).next_created() == old(self).next_created() + 1
            },
    {
        if self.next_created == u64::MAX || self.objects.is_full_exec() {
            return None;
        }
        let ghost pre = *self;
        let created = self.next_created;
        let id = self.objects.insert(fresh_object(kind, created)).unwrap();
        self.next_created = created + 1;
        proof {
            assert(!pre.objects@.contains_key(id)) by {
                if pre.objects@.contains_key(id) { pre.objects.lemma_valid_issued(id); }
            };
            assert(self.objects@.remove(id) =~= pre.objects@);
            assert forall|h1: ObjectId, h2: ObjectId|
                #[trigger] self.objects@.contains_key(h1) && #[trigger] self.objects@.contains_key(h2) && h1 != h2
                implies self.objects@[h1].created != self.objects@[h2].created by {
                if h1 != id && h2 != id {
                    assert(pre.objects@.contains_key(h1) && pre.objects@.contains_key(h2));
                } else if h1 == id {
                    assert(pre.objects@.contains_key(h2));
                } else {
                    assert(pre.objects@.contains_key(h1));
                }
            };
            assert forall|h: ObjectId| #[trigger] self.objects@.contains_key(h) implies {
                &&& self.objects@[h].created < self.next_created
                &&& names_unique(self.objects@[h].uniforms@)
                &&& (self.objects@[h].shader matches Some(s) ==> self.shaders@.contains_key(s))
            } by {
                if h != id { assert(pre.objects@.contains_key(h)); }
            };
        }
        Some(id)
    }

    /// Makes a rectangle with the default properties.
    pub fn new_rect(&mut self) -> (r: Option<ObjectId>)
        requires
            old(self).wf(),
        ensures
            old(self).keeps_stale_ids(final(self)),
            final(self).wf(),
            old(self).same_resources(final(self)),
            r is None <==> old(self).objects_exhausted(),
            r is None ==> final(self).objects() == old(self).objects()
                && final(self).object_ids_issued() == old(self).object_ids_issued(),
            r matches Some(id) ==> {
                &&& !old(self).object_ids_issued().contains(id)
                &&& final(self).object_ids_issued() == old(self).object_ids_issued().insert(id)
                &&& final(self).objects().contains_key(id)
                &&& final(self).objects().remove(id) == old(self).objects()
                &&& is_fresh(final(self).objects()[id], ObjectKind::Rect, old(self).next_created())
                &&& final(self).next_created() == old(self).next_created() + 1
            },
    {
        self.new_object(ObjectKind::Rect)
    }

    /// Makes a text object with the default properties.
    pub fn new_text(&mut self) -> (r: Option<ObjectId>)
        requires
            old(self).wf(),
        ensures
            old(self).keeps_stale_ids(final(self)),
            final(self).wf(),
            old(self).same_resources(final(self)),
            r is None <==> old(self).objects_exhausted(),
            r is None ==> final(self).objects() == old(self).objects()
                && final(self).object_ids_issued() == old(self).object_ids_issued(),
            r matches Some(id) ==> {
                &&& !old(self).object_ids_issued().contains(id)
                &&& final(self).object_ids_issued() == old(self).object_ids_issued().insert(id)
                &&& final(self).objects().contains_key(id)
                &&& final(self).objects().remove(id) == old(self).objects()
                &&& is_fresh(final(self).objects()[id], ObjectKind::Text, old(self).next_created())
                &&& final(self).next_created() == old(self).next_created() + 1
            },
    {
        self.new_object(ObjectKind::Text)
    }

    /// Removes one object; an unknown or stale id changes nothing.
    pub fn delete_object(&mut self, id: ObjectId)
        requires
            old(self).wf(),
        ensures
            old(self).keeps_stale_ids(final(self)),
            final(self).wf(),
            old(self).same_resources(final(self)),
            final(self).objects() == old(self).objects().remove(id),
            final(self).object_ids_issued() == old(self).object_ids_issued(),
            final(self).next_created() == old(self).next_created(),
            !final(self).objects_exhausted() || old(self).objects_exhausted(),
    {
        let ghost pre = *self;
        self.objects.remove(id);
        proof {
            assert forall|h: ObjectId| #[trigger] self.objects@.contains_key(h) implies pre.objects@.contains_key(h) by {};
        }
    }

    /// Drops every object; fonts and shaders stay.
    pub fn clear_all(&mut self)
        requires
            old(self).wf(),
        ensures
            old(self).keeps_stale_ids(final(self)),
            final(self).wf(),
            old(self).same_resources(final(self)),
            final(self).objects() == Map::<ObjectId, DrawObject>::empty(),
            final(self).object_ids_issued() == old(self).object_ids_issued(),
            final(self).next_created() == old(self).next_created(),
            !final(self).objects_exhausted() || old(self).objects_exhausted(),
    {
        self.objects.clear();
    }

    /// Takes the object `id` out for a change, leaving a stand-in with the
    /// same creation stamp.
    fn take_object(&mut self, id: ObjectId) -> (r: Option<DrawObject>)
        requires
            old(self).wf(),
        ensures
            final(self).wf(),
            old(self).same_resources(final(self)),
            final(self).object_ids_issued() == old(self).object_ids_issued(),
            final(self).next_created() == old(self).next_created(),
            final(self).objects_exhausted() == old(self).objects_exhausted(),
            r is Some <==> old(self).objects().contains_key(id),
            r is None ==> final(self).objects() == old(self).objects(),
            r matches Some(o) ==> {
                &&& o == old(self).objects()[id]
                &&& final(self).objects().dom() == old(self).objects().dom()
                &&& final(self).objects().remove(id) == old(self).objects().remove(id)
                &&& final(self).objects()[id].created == o.created
                &&& final(self).objects() == old(self).objects().insert(id, final(self).objects()[id])
            },
    {
        let created = match self.objects.get(id) {
            Some(o) => o.created,
            None => { return None; },
        };
        let ghost pre = *self;
        let r = self.objects.replace(id, fresh_object(ObjectKind::Rect, created));
        proof {
            assert(self.objects@.dom() =~= pre.objects@.dom());
            assert(self.objects@.remove(id) =~= pre.objects@.remove(id));
            assert(self.objects@ =~= pre.objects@.insert(id, self.objects@[id]));
            assert forall|h1: ObjectId, h2: ObjectId|
                #[trigger] self.objects@.contains_key(h1) && #[trigger] self.objects@.contains_key(h2) && h1 != h2
                implies self.objects@[h1].created != self.objects@[h2].created by {
                assert(pre.objects@.contains_key(h1) && pre.objects@.contains_key(h2));
            };
            assert forall|h: ObjectId| #[trigger] self.objects@.contains_key(h) implies {
                &&& self.objects@[h].created < self.next_created
                &&& names_unique(self.objects@[h].uniforms@)
                &&& (self.objects@[h].shader matches Some(s) ==> self.shaders@.contains_key(s))
            } by {
                assert(pre.objects@.contains_key(h));
            };
        }
        r
    }

    /// Puts a changed object back under `id`.
    fn put_object(&mut self, id: ObjectId, o: DrawObject)
        requires
            old(self).wf(),
            old(self).objects().contains_key(id),
            o.created == old(self).objects()[id].created,
            names_unique(o.uniforms@),
            o.shader matches Some(s) ==> old(self).shaders().contains_key(s),
        ensures
            final(self).wf(),
            old(self).same_resources(final(self)),
            final(self).object_ids_issued() == old(self).object_ids_issued(),
            final(self).next_created() == old(self).next_created(),
            final(self).objects_exhausted() == old(self).objects_exhausted(),
            final(self).objects() == old(self).objects().insert(id, o),
    {
        let ghost pre = *self;
        self.objects.replace(id, o);
        proof {
            assert forall|h1: ObjectId, h2: ObjectId|
                #[trigger] self.objects@.contains_key(h1) && #[trigger] self.objects@.contains_key(h2) && h1 != h2
                implies self.objects@[h1].created != self.objects@[h2].created by {
                assert(pre.objects@.contains_key(h1) && pre.objects@.contains_key(h2));
            };
            assert forall|h: ObjectId| #[trigger] self.objects@.contains_key(h) implies {
                &&& self.objects@[h].created < self.next_created
                &&& names_unique(self.objects@[h].uniforms@)
                &&& (self.objects@[h].shader matches Some(s) ==> self.shaders@.contains_key(s))
            } by {
                assert(pre.objects@.contains_key(h));
            };
        }
    }

    /// Moves the object. An unknown or stale id changes nothing.
    pub fn config_position(&mut self, id: ObjectId, position: Vec2)
        requires
            old(self).wf(),
        ensures
            final(self).wf(),
            old(self).object_set(final(self), id, (DrawObject { position, ..old(self).objects()[id] })),
    {
        if let Some(mut o) = self.take_object(id) {
            o.position = position;
            self.put_object(id, o);
            assert(self.objects() =~= old(self).objects().insert(id, (DrawObject { position, ..old(self).objects()[id] })));
        }
    }

    /// Sets the object's size; it is clamped to zero or more when drawn. An unknown or stale id changes nothing.
    pub fn config_size(&mut self, id: ObjectId, size: Vec2)
        requires
            old(self).wf(),
        ensures
            final(self).wf(),
            old(self).object_set(final(self), id, (DrawObject { size, ..old(self).objects()[id] })),
    {
        if let Some(mut o) = self.take_object(id) {
            o.size = size;
            self.put_object(id, o);
            assert(self.objects() =~= old(self).objects().insert(id, (DrawObject { size, ..old(self).objects()[id] })));
        }
    }

    /// Sets the rotation, in degrees clockwise. An unknown or stale id changes nothing.
    pub fn config_rotation(&mut self, id: ObjectId, rotation: u32)
        requires
            old(self).wf(),
        ensures
            final(self).wf(),
            old(self).object_set(final(self), id, (DrawObject { rotation, ..old(self).objects()[id] })),
    {
        if let Some(mut o) = self.take_object(id) {
            o.rotation = rotation;
            self.put_object(id, o);
            assert(self.objects() =~= old(self).objects().insert(id, (DrawObject { rotation, ..old(self).objects()[id] })));
        }
    }

    /// Sets the RGBA color. An unknown or stale id changes nothing.
    pub fn config_color(&mut self, id: ObjectId, color: Vec4)
        requires
            old(self).wf(),
        ensures
            final(self).wf(),
            old(self).object_set(final(self), id, (DrawObject { color, ..old(self).objects()[id] })),
    {
        if let Some(mut o) = self.take_object(id) {
            o.color = color;
            self.put_object(id, o);
            assert(self.objects() =~= old(self).objects().insert(id, (DrawObject { color, ..old(self).objects()[id] })));
        }
    }

    /// Sets the render-order key; lower values are drawn first. An unknown or stale id changes nothing.
    pub fn config_z_index(&mut self, id: ObjectId, z_index: u32)
        requires
            old(self).wf(),
        ensures
            final(self).wf(),
            old(self).object_set(final(self), id, (DrawObject { z_index, ..old(self).objects()[id] })),
    {
        if let Some(mut o) = self.take_object(id) {
            o.z_index = z_index;
            self.put_object(id, o);
            assert(self.objects() =~= old(self).objects().insert(id, (DrawObject { z_index, ..old(self).objects()[id] })));
        }
    }

    /// Sets the corner radii (top-left, top-right, bottom-right, bottom-left). Only a `Rect` shows them. An unknown or stale id changes nothing.
    pub fn set_rounded(&mut self, id: ObjectId, corner_radii: Vec4)
        requires
            old(self).wf(),
        ensures
            final(self).wf(),
            old(self).object_set(final(self), id, (DrawObject { corner_radii, ..old(self).objects()[id] })),
    {
        if let Some(mut o) = self.take_object(id) {
            o.corner_radii = corner_radii;
            self.put_object(id, o);
            assert(self.objects() =~= old(self).objects().insert(id, (DrawObject { corner_radii, ..old(self).objects()[id] })));
        }
    }

    /// Sets the text content. An unknown or stale id changes nothing.
    pub fn config_text(&mut self, id: ObjectId, text: String)
        requires
            old(self).wf(),
        ensures
            final(self).wf(),
            old(self).object_set(final(self), id, (DrawObject { text, ..old(self).objects()[id] })),
    {
        if let Some(mut o) = self.take_object(id) {
            o.text = text;
            self.put_object(id, o);
            assert(self.objects() =~= old(self).objects().insert(id, (DrawObject { text, ..old(self).objects()[id] })));
        }
    }

    /// Sets the object's font. An unknown or stale object id, or a font id
    /// that is not loaded, changes nothing.
    pub fn config_font(&mut self, id: ObjectId, font: FontId)
        requires
            old(self).wf(),
        ensures
            final(self).wf(),
            old(self).object_set(final(self), id, (DrawObject {
                font: if old(self).font_cache()@.contains_key(font) { Some(font) } else { old(self).objects()[id].font },
                ..old(self).objects()[id]
            })),
    {
        if self.fonts.get(font).is_none() {
            assert(old(self).objects().contains_key(id) ==> self.objects() =~= old(self).objects().insert(id, old(self).objects()[id]));
            return;
        }
        if let Some(mut o) = self.take_object(id) {
            o.font = Some(font);
            self.put_object(id, o);
            assert(self.objects() =~= old(self).objects().insert(id, (DrawObject { font: Some(font), ..old(self).objects()[id] })));
        }
    }

    /// Binds a compiled shader to the object. An unknown or stale object id,
    /// or a shader id that names no compiled program, changes nothing.
    pub fn set_object_shader(&mut self, id: ObjectId, shader: ShaderId)
        requires
            old(self).wf(),
        ensures
            final(self).wf(),
            old(self).object_set(final(self), id, (DrawObject {
                shader: if old(self).shaders().contains_key(shader) { Some(shader) } else { old(self).objects()[id].shader },
                ..old(self).objects()[id]
            })),
    {
        if self.shaders.get(shader).is_none() {
            assert(old(self).objects().contains_key(id) ==> self.objects() =~= old(self).objects().insert(id, old(self).objects()[id]));
            return;
        }
        if let Some(mut o) = self.take_object(id) {
            o.shader = Some(shader);
            self.put_object(id, o);
            assert(self.objects() =~= old(self).objects().insert(id, (DrawObject { shader: Some(shader), ..old(self).objects()[id] })));
        }
    }

    /// Sets the uniform `name` of the object to `value`. Nothing is checked
    /// against the bound shader here: that happens when a frame is planned.
    /// An unknown or stale id changes nothing.
    pub fn set_uniform(&mut self, id: ObjectId, name: String, value: UniformValue)
        requires
            old(self).wf(),
        ensures
            old(self).keeps_stale_ids(final(self)),
            final(self).wf(),
            old(self).same_resources(final(self)),
            final(self).object_ids_issued() == old(self).object_ids_issued(),
            final(self).next_created() == old(self).next_created(),
            final(self).objects_exhausted() == old(self).objects_exhausted(),
            !old(self).objects().contains_key(id) ==> final(self).objects() == old(self).objects(),
            old(self).objects().contains_key(id) ==> {
                let o = old(self).objects()[id];
                let n = final(self).objects()[id];
                &&& final(self).objects().dom() == old(self).objects().dom()
                &&& final(self).objects().remove(id) == old(self).objects().remove(id)
                &&& n == (DrawObject { uniforms: n.uniforms, ..o })
                &&& upserted(o.uniforms@, name@, value, n.uniforms@)
            },
    {
        if let Some(mut o) = self.take_object(id) {
            upsert_uniform(&mut o.uniforms, name, value);
            self.put_object(id, o);
            assert(self.objects().remove(id) =~= old(self).objects().remove(id));
            assert(self.objects().dom() =~= old(self).objects().dom());
        }
    }

    /// Registers what compiling a shader gave: a program is stored under a
    /// new id; a failure is reported with the compiler's diagnostics, or with
    /// a fixed message where those are empty.
    pub fn install_shader(&mut self, compiled: Result<ShaderProgram, String>) -> (r: Result<ShaderId, ShaderError>)
        requires
            old(self).wf(),
        ensures
            final(self).wf(),
            final(self).objects() == old(self).objects(),
            final(self).object_ids_issued() == old(self).object_ids_issued(),
            final(self).next_created() == old(self).next_created(),
            final(self).objects_exhausted() == old(self).objects_exhausted(),
            final(self).font_cache() == old(self).font_cache(),
            final(self).viewport() == old(self).viewport(),
            compiled is Err ==> final(self).shaders() == old(self).shaders()
                && final(self).shader_ids_issued() == old(self).shader_ids_issued(),
            compiled matches Err(d) ==> (r matches Err(ShaderError::CompileFailed(m)) && m@.len() > 0
                && (d@.len() > 0 ==> m@ == d@)),
            compiled is Ok && old(self).shaders_full() ==> r is Err
                && final(self).shaders() == old(self).shaders()
                && final(self).shader_ids_issued() == old(self).shader_ids_issued(),
            !old(self).shaders_full() ==> (compiled matches Ok(p) ==> (r matches Ok(id) && {
                &&& !old(self).shader_ids_issued().contains(id)
                &&& final(self).shader_ids_issued() == old(self).shader_ids_issued().insert(id)
                &&& final(self).shaders() == old(self).shaders().insert(id, p)
            })),
    {
        match compiled {
            Err(d) => {
                if d.as_str().unicode_len() == 0 {
                    proof { reveal_strlit("shader compilation failed"); }
                    Err(ShaderError::CompileFailed(String::from_str("shader compilation failed")))
                } else {
                    Err(ShaderError::CompileFailed(d))
                }
            },
            Ok(p) => {
                let ghost pre = *self;
                match self.shaders.insert(p) {
                    Some(id) => {
                        proof {
                            assert forall|h: ObjectId| #[trigger] self.objects@.contains_key(h) implies {
                                &&& self.objects@[h].created < self.next_created
                                &&& names_unique(self.objects@[h].uniforms@)
                                &&& (self.objects@[h].shader matches Some(s) ==> self.shaders@.contains_key(s))
                            } by {
                                assert(pre.objects@.contains_key(h));
                            };
                        }
                        Ok(id)
                    },
                    None => Err(ShaderError::CompileFailed(String::from_str("no shader slot is left"))),
                }
            },
        }
    }

    /// Loads the font at (`path`, `size`): a cached key is served from the
    /// cache, otherwise `fetched` (what reading and rasterizing the asset
    /// gave) is stored. Objects and shaders are untouched.
    pub fn load_font(&mut self, path: String, size: u32, fetched: Result<FontAsset, FontError>) -> (r: Result<FontId, FontError>)
        requires
            old(self).wf(),
        ensures
            final(self).wf(),
            old(self).font_cache().loaded(&final(self).font_cache(), path@, size, match fetched { Ok(_) => Ok(()), Err(e) => Err(e) }, r),
            final(self).objects() == old(self).objects(),
            final(self).object_ids_issued() == old(self).object_ids_issued(),
            final(self).next_created() == old(self).next_created(),
            final(self).objects_exhausted() == old(self).objects_exhausted(),
            final(self).shaders() == old(self).shaders(),
            final(self).shader_ids_issued() == old(self).shader_ids_issued(),
            final(self).shaders_full() == old(self).shaders_full(),
            final(self).viewport() == old(self).viewport(),
    {
        self.fonts.load(path, size, fetched)
    }

    /// The font cached for (`path`, `size`), if any: a caller reads the
    /// asset only when this is `None`.
    pub fn find_font(&self, path: &String, size: u32) -> (r: Option<FontId>)
        requires
            self.wf(),
        ensures
            r == self.font_cache().holder(path@, size),
    {
        self.fonts.find(path, size)
    }

    /// Matches one `load_font` of `id`; the last one releases the font.
    pub fn clear_font(&mut self, id: FontId)
        requires
            old(self).wf(),
        ensures
            final(self).wf(),
            old(self).font_cache().cleared(&final(self).font_cache(), id),
            final(self).objects() == old(self).objects(),
            final(self).object_ids_issued() == old(self).object_ids_issued(),
            final(self).next_created() == old(self).next_created(),
            final(self).objects_exhausted() == old(self).objects_exhausted(),
            final(self).shaders() == old(self).shaders(),
            final(self).shader_ids_issued() == old(self).shader_ids_issued(),
            final(self).shaders_full() == old(self).shaders_full(),
            final(self).viewport() == old(self).viewport(),
    {
        self.fonts.clear(id)
    }
}

} // verus!
