use vstd::prelude::*;
use crate::arena::Handle;
use crate::engine::{DrawObject, Engine, ObjectKind, no_radii};
use crate::font::Glyph;
use crate::scene::{
    FontId, ObjectId, ShaderId, UniformEntry, Vec2, Vec4, clamp_non_negative, clamped_spec, z_key,
    z_key_spec,
};
use crate::shader::{bind_uniforms, bound_spec};

verus! {

/// The program an object is drawn with: its own, or the default of its kind.
#[derive(Clone, Copy, Debug, PartialEq, Eq, Structural)]
pub enum EffectiveShader {
    DefaultRect,
    DefaultText,
    Custom(ShaderId),
}

pub open spec fn effective_shader(o: DrawObject) -> EffectiveShader {
    match o.shader {
        Some(s) => EffectiveShader::Custom(s),
        None => if o.kind == ObjectKind::Rect {
            EffectiveShader::DefaultRect
        } else {
            EffectiveShader::DefaultText
        },
    }
}

/// The index of the first glyph for `c`, or -1.
pub open spec fn glyph_index(g: Seq<Glyph>, c: char) -> int
    decreases g.len(),
{
    if g.len() == 0 {
        -1
    } else if g[0].ch == c {
        0
    } else {
        let r = glyph_index(g.skip(1), c);
        if r < 0 { -1 } else { r + 1 }
    }
}

/// The glyphs a text is drawn with, one per character that the font has,
/// in text order; characters the font lacks are left out.
pub open spec fn text_glyphs(g: Seq<Glyph>, t: Seq<char>) -> Seq<usize>
    decreases t.len(),
{
    if t.len() == 0 {
        Seq::empty()
    } else {
        let rest = text_glyphs(g, t.drop_last());
        let k = glyph_index(g, t.last());
        if k >= 0 { rest.push(k as usize) } else { rest }
    }
}

/// The glyph table of the font `f`.
pub open spec fn font_glyphs(e: &Engine, f: FontId) -> Seq<Glyph> {
    e.font_cache()@[f].asset.glyphs@
}

/// An object that produces geometry: every rectangle, and a text with a
/// loaded font and at least one glyph to show.
pub open spec fn drawable(e: &Engine, o: DrawObject) -> bool {
    o.kind == ObjectKind::Rect || (o.font matches Some(f) && e.font_cache()@.contains_key(f)
        && text_glyphs(font_glyphs(e, f), o.text@).len() > 0)
}

/// `o1` is drawn before `o2`: lower z first, then earlier creation.
pub open spec fn precedes(o1: DrawObject, o2: DrawObject) -> bool {
    z_key_spec(o1.z_index) < z_key_spec(o2.z_index) || (z_key_spec(o1.z_index) == z_key_spec(
        o2.z_index,
    ) && o1.created < o2.created)
}

/// The work of drawing one object.
pub struct Draw {
    pub object: ObjectId,
    pub kind: ObjectKind,
    pub shader: EffectiveShader,
    pub position: Vec2,
    pub size: Vec2,
    pub rotation: u32,
    pub color: Vec4,
    pub corner_radii: Vec4,
    /// The object's uniforms that its program declares, by name and kind.
    pub uniforms: Vec<UniformEntry>,
    pub font: Option<FontId>,
    /// Indices into the font's glyph table, one quad each.
    pub glyphs: Vec<usize>,
}

/// A run of consecutive draws, `start..end`, sharing one program.
#[derive(Clone, Copy, Debug, PartialEq, Eq, Structural)]
pub struct Batch {
    pub shader: EffectiveShader,
    pub start: usize,
    pub end: usize,
}

/// One frame: clear to `clear`, issue each batch in order, then present.
pub struct FramePlan {
    pub clear: Vec4,
    pub draws: Vec<Draw>,
    pub batches: Vec<Batch>,
}

/// `d` is the draw of its object as `e` holds it.
pub open spec fn draw_of(e: &Engine, d: Draw) -> bool {
    let o = e.objects()[d.object];
    &&& e.objects().contains_key(d.object)
    &&& d.kind == o.kind
    &&& d.shader == effective_shader(o)
    &&& d.position == o.position
    &&& d.size == Vec2 { x: clamped_spec(o.size.x), y: clamped_spec(o.size.y) }
    &&& d.rotation == o.rotation
    &&& d.color == o.color
    &&& d.corner_radii == if o.kind == ObjectKind::Rect { o.corner_radii } else { no_radii() }
    &&& d.uniforms@ == match effective_shader(o) {
        EffectiveShader::Custom(s) => bound_spec(e.shaders()[s].uniforms@, o.uniforms@),
        _ => Seq::empty(),
    }
    &&& d.font == if o.kind == ObjectKind::Text { o.font } else { None }
    &&& d.glyphs@ == if o.kind == ObjectKind::Text {
        text_glyphs(font_glyphs(e, o.font->0), o.text@)
    } else {
        Seq::empty()
    }
}

/// `b` cuts the draws into maximal runs that share a program, in order.
pub open spec fn batched(draws: Seq<Draw>, b: Seq<Batch>) -> bool {
    &&& (b.len() == 0 <==> draws.len() == 0)
    &&& b.len() > 0 ==> b[0].start == 0 && b.last().end == draws.len()
    &&& forall|k: int| 0 <= k < b.len() ==> (#[trigger] b[k]).start < b[k].end
    &&& forall|k: int| 0 <= k < b.len() - 1 ==> (#[trigger] b[k]).end == b[k + 1].start
    &&& forall|k: int| 0 <= k < b.len() - 1 ==> (#[trigger] b[k]).shader != b[k + 1].shader
    &&& forall|k: int, i: int|
        0 <= k < b.len() && b[k].start <= i < b[k].end ==> (#[trigger] draws[i]).shader == (
        #[trigger] b[k]).shader
}

/// What a frame of `e` with clear color `clear` is: nothing drawn on a
/// viewport with a zero side; otherwise each drawable object once, in
/// (z, creation) order, in maximal same-program batches.
pub open spec fn planned(e: &Engine, clear: Vec4, p: &FramePlan) -> bool {
    let draws = p.draws@;
    &&& p.clear == clear
    &&& (e.viewport().0 == 0 || e.viewport().1 == 0) ==> draws.len() == 0 && p.batches@.len() == 0
    &&& !(e.viewport().0 == 0 || e.viewport().1 == 0) ==> {
        &&& forall|i: int| 0 <= i < draws.len() ==> draw_of(e, #[trigger] draws[i])
        &&& forall|i: int, j: int|
            0 <= i < j < draws.len() ==> precedes(
                e.objects()[(#[trigger] draws[i]).object],
                e.objects()[(#[trigger] draws[j]).object],
            )
        &&& forall|id: ObjectId|
            (e.objects().contains_key(id) && drawable(e, e.objects()[id])) <==> exists|i: int|
                0 <= i < draws.len() && (#[trigger] draws[i]).object == id
        &&& batched(draws, p.batches@)
    }
}

proof fn lemma_glyph_index(g: Seq<Glyph>, c: char, i: int)
    requires
        0 <= i <= g.len(),
        forall|j: int| 0 <= j < i ==> g[j].ch != c,
    ensures
        i < g.len() && g[i].ch == c ==> glyph_index(g, c) == i,
        i == g.len() ==> glyph_index(g, c) == -1,
    decreases i,
{
    if i > 0 {
        assert forall|j: int| 0 <= j < i - 1 implies g.skip(1)[j].ch != c by {
            assert(g.skip(1)[j] == g[j + 1]);
        };
        lemma_glyph_index(g.skip(1), c, i - 1);
        if i < g.len() {
            assert(g.skip(1)[i - 1] == g[i]);
        }
    } else if g.len() > 0 {
    }
}

proof fn lemma_glyph_index_range(g: Seq<Glyph>, c: char)
    ensures
        -1 <= glyph_index(g, c) < g.len(),
    decreases g.len(),
{
    if g.len() > 0 {
        lemma_glyph_index_range(g.skip(1), c);
    }
}

/// The first glyph of the table for `c`.
pub fn find_glyph(g: &Vec<Glyph>, c: char) -> (r: Option<usize>)
    ensures
        match r {
            Some(k) => glyph_index(g@, c) == k as int,
            None => glyph_index(g@, c) == -1,
        },
{
    let mut i: usize = 0;
    while i < g.len()
        invariant
            i <= g@.len(),
            forall|j: int| 0 <= j < i ==> g@[j].ch != c,
        decreases g@.len() - i,
    {
        if g[i].ch == c {
            proof { lemma_glyph_index(g@, c, i as int); }
            return Some(i);
        }
        i = i + 1;
    }
    proof { lemma_glyph_index(g@, c, i as int); }
    None
}

/// The glyph indices a text is drawn with.
pub fn glyphs_for_text(g: &Vec<Glyph>, t: &String) -> (r: Vec<usize>)
    ensures
        r@ == text_glyphs(g@, t@),
{
    let n = t.as_str().unicode_len();
    let mut r: Vec<usize> = Vec::new();
    let mut i: usize = 0;
    while i < n
        invariant
            n == t@.len(),
            i <= n,
            r@ == text_glyphs(g@, t@.subrange(0, i as int)),
        decreases n - i,
    {
        let c = t.as_str().get_char(i);
        assert(t@.subrange(0, i as int + 1).drop_last() =~= t@.subrange(0, i as int));
        assert(t@.subrange(0, i as int + 1).last() == c);
        match find_glyph(g, c) {
            Some(k) => r.push(k),
            None => {},
        }
        i = i + 1;
    }
    assert(t@.subrange(0, n as int) =~= t@);
    r
}

proof fn lemma_batches_ordered(b: Seq<Batch>, q: int, r: int)
    requires
        0 <= q <= r < b.len(),
        forall|k: int| 0 <= k < b.len() ==> (#[trigger] b[k]).start < b[k].end,
        forall|k: int| 0 <= k < b.len() - 1 ==> (#[trigger] b[k]).end == b[k + 1].start,
    ensures
        b[q].end <= b[r].end,
        q < r ==> b[q].end <= b[r].start,
    decreases r - q,
{
    if q < r {
        lemma_batches_ordered(b, q + 1, r);
    }
}

pub open spec fn key_lt(a: (u32, u64, Handle), b: (u32, u64, Handle)) -> bool {
    a.0 < b.0 || (a.0 == b.0 && a.1 < b.1)
}

/// `x` is the order key of a live, drawable object.
pub open spec fn keyed(e: &Engine, x: (u32, u64, Handle)) -> bool {
    &&& e.objects().contains_key(x.2)
    &&& drawable(e, e.objects()[x.2])
    &&& x.0 == z_key_spec(e.objects()[x.2].z_index)
    &&& x.1 == e.objects()[x.2].created
}

impl Engine {
    fn is_drawable(&self, o: &DrawObject) -> (r: bool)
        ensures
            r == drawable(self, *o),
    {
        match o.kind {
            ObjectKind::Rect => true,
            ObjectKind::Text => match o.font {
                Some(f) => match self.font_cache_ref().get(f) {
                    Some(entry) => glyphs_for_text(&entry.asset.glyphs, &o.text).len() > 0,
                    None => false,
                },
                None => false,
            },
        }
    }

    /// The live drawable objects as order keys, sorted by (z, creation).
    fn draw_order(&self) -> (r: Vec<(u32, u64, Handle)>)
        requires
            self.wf(),
        ensures
            forall|k: int| 0 <= k < r@.len() ==> keyed(self, #[trigger] r@[k]),
            forall|k: int, l: int| 0 <= k < l < r@.len() ==> key_lt(#[trigger] r@[k], #[trigger] r@[l]),
            forall|id: ObjectId|
                self.objects().contains_key(id) && drawable(self, self.objects()[id]) ==> exists|k: int|
                    0 <= k < r@.len() && (#[trigger] r@[k]).2 == id,
    {
        let arena = self.objects_arena();
        let n = arena.slot_count_exec();
        let mut order: Vec<(u32, u64, Handle)> = Vec::new();
        let mut i: usize = 0;
        while i < n
            invariant
                self.wf(),
                arena.wf(),
                arena@ == self.objects(),
                n == arena.slot_count(),
                i <= n,
                forall|k: int| 0 <= k < order@.len() ==> keyed(self, #[trigger] order@[k]),
                forall|k: int| 0 <= k < order@.len() ==> (#[trigger] order@[k]).2.index < i,
                forall|k: int, l: int| 0 <= k < l < order@.len() ==> key_lt(#[trigger] order@[k], #[trigger] order@[l]),
                forall|id: ObjectId|
                    self.objects().contains_key(id) && drawable(self, self.objects()[id]) && id.index < i
                        ==> exists|k: int| 0 <= k < order@.len() && (#[trigger] order@[k]).2 == id,
            decreases n - i,
        {
            proof { arena.lemma_handle_at(i as int); }
            if let Some(h) = arena.handle_at_exec(i) {
                let o = arena.get(h).unwrap();
                if self.is_drawable(o) {
                    let x = (z_key(o.z_index), o.created, h);
                    let mut p: usize = 0;
                    while p < order.len() && !(x.0 < order[p].0 || (x.0 == order[p].0 && x.1 < order[p].1))
                        invariant
                            p <= order@.len(),
                            forall|k: int| 0 <= k < p ==> key_lt(#[trigger] order@[k], x),
                            forall|k: int| 0 <= k < order@.len() ==> keyed(self, #[trigger] order@[k]),
                            forall|k: int| 0 <= k < order@.len() ==> (#[trigger] order@[k]).2.index < i,
                            keyed(self, x),
                            x.2.index == i,
                            self.wf(),
                        decreases order@.len() - p,
                    {
                        proof {
                            let y = order@[p as int];
                            assert(keyed(self, y));
                            assert(y.2 != x.2);
                            self.lemma_created_unique(y.2, x.2);
                        }
                        p = p + 1;
                    }
                    let ghost pre = order@;
                    order.insert(p, x);
                    proof {
                        assert(order@ == pre.insert(p as int, x));
                        assert forall|k: int, l: int| 0 <= k < l < order@.len() implies key_lt(#[trigger] order@[k], #[trigger] order@[l]) by {
                            if p < pre.len() {
                                assert(key_lt(x, pre[p as int]));
                            }
                            if k < p && l == p {
                            } else if k == p && l > p {
                                assert(order@[l] == pre[l - 1]);
                                if l - 1 > p { assert(key_lt(pre[p as int], pre[l - 1])); }
                            } else if k < p && l > p {
                                assert(order@[l] == pre[l - 1]);
                            } else if k > p {
                                assert(order@[k] == pre[k - 1] && order@[l] == pre[l - 1]);
                            }
                        };
                        assert forall|id: ObjectId|
                            self.objects().contains_key(id) && drawable(self, self.objects()[id]) && id.index < i + 1
                            implies exists|k: int| 0 <= k < order@.len() && (#[trigger] order@[k]).2 == id by {
                            if id.index < i {
                                let k = choose|k: int| 0 <= k < pre.len() && (#[trigger] pre[k]).2 == id;
                                if k < p { assert(order@[k] == pre[k]); } else { assert(order@[k + 1] == pre[k]); }
                            } else {
                                assert(id == h);
                                assert(order@[p as int].2 == id);
                            }
                        };
                        assert forall|k: int| 0 <= k < order@.len() implies keyed(self, #[trigger] order@[k]) && order@[k].2.index < i + 1 by {
                            if k < p { assert(order@[k] == pre[k]); } else if k > p { assert(order@[k] == pre[k - 1]); }
                        };
                    }
                } else {
                    proof {
                        assert forall|id: ObjectId|
                            self.objects().contains_key(id) && drawable(self, self.objects()[id]) && id.index < i + 1
                            implies exists|k: int| 0 <= k < order@.len() && (#[trigger] order@[k]).2 == id by {
                            if id.index == i { assert(id == h); }
                        };
                    }
                }
            } else {
                proof {
                    assert forall|id: ObjectId|
                        self.objects().contains_key(id) && drawable(self, self.objects()[id]) && id.index < i + 1
                        implies exists|k: int| 0 <= k < order@.len() && (#[trigger] order@[k]).2 == id by {
                        if id.index == i { assert(arena.handle_at(id.index as int) == Some(id)); }
                    };
                }
            }
            i = i + 1;
        }
        proof {
            assert forall|id: ObjectId|
                self.objects().contains_key(id) && drawable(self, self.objects()[id])
                implies exists|k: int| 0 <= k < order@.len() && (#[trigger] order@[k]).2 == id by {
                arena.lemma_handle_at(id.index as int);
            };
        }
        order
    }

    fn make_draw(&self, h: ObjectId, o: &DrawObject) -> (d: Draw)
        requires
            self.wf(),
            self.objects().contains_key(h),
            *o == self.objects()[h],
            drawable(self, *o),
        ensures
            d.object == h,
            draw_of(self, d),
    {
        proof { self.lemma_shaders_bound(h); }
        let shader = match o.shader {
            Some(s) => EffectiveShader::Custom(s),
            None => match o.kind {
                ObjectKind::Rect => EffectiveShader::DefaultRect,
                ObjectKind::Text => EffectiveShader::DefaultText,
            },
        };
        let uniforms = match o.shader {
            Some(s) => bind_uniforms(&self.shader(s).unwrap().uniforms, &o.uniforms),
            None => Vec::new(),
        };
        let (corner_radii, font, glyphs) = match o.kind {
            ObjectKind::Rect => (o.corner_radii, None, Vec::new()),
            ObjectKind::Text => {
                let f = o.font.unwrap();
                let entry = self.font_cache_ref().get(f).unwrap();
                (Vec4 { x: 0, y: 0, z: 0, w: 0 }, o.font, glyphs_for_text(&entry.asset.glyphs, &o.text))
            },
        };
        let d = Draw {
            object: h,
            kind: o.kind,
            shader,
            position: o.position,
            size: Vec2 { x: clamp_non_negative(o.size.x), y: clamp_non_negative(o.size.y) },
            rotation: o.rotation,
            color: o.color,
            corner_radii,
            uniforms,
            font,
            glyphs,
        };
        assert(d.uniforms@ =~= match effective_shader(*o) {
            EffectiveShader::Custom(s) => bound_spec(self.shaders()[s].uniforms@, o.uniforms@),
            _ => Seq::empty(),
        });
        d
    }

    /// Plans one frame: on a viewport with a zero side nothing is drawn;
    /// otherwise every drawable object is drawn once, lower z first and, at
    /// equal z, in creation order, in maximal runs sharing a program. The
    /// surface is cleared to `clear` before and presented after.
    pub fn render_frame(&self, clear: Vec4) -> (p: FramePlan)
        requires
            self.wf(),
        ensures
            planned(self, clear, &p),
    {
        let (w, hgt) = self.viewport_exec();
        if w == 0 || hgt == 0 {
            return FramePlan { clear, draws: Vec::new(), batches: Vec::new() };
        }
        let order = self.draw_order();
        let arena = self.objects_arena();
        let mut draws: Vec<Draw> = Vec::new();
        let mut batches: Vec<Batch> = Vec::new();
        let mut k: usize = 0;
        while k < order.len()
            invariant
                self.wf(),
                arena@ == self.objects(),
                k <= order@.len(),
                draws@.len() == k,
                forall|j: int| 0 <= j < order@.len() ==> keyed(self, #[trigger] order@[j]),
                forall|j: int| 0 <= j < k ==> (#[trigger] draws@[j]).object == order@[j].2 && draw_of(self, draws@[j]),
                batched(draws@, batches@),
            decreases order@.len() - k,
        {
            let h = order[k].2;
            assert(keyed(self, order@[k as int]));
            let o = arena.get(h).unwrap();
            let d = self.make_draw(h, o);
            let s = d.shader;
            let ghost pre_d = draws@;
            let ghost pre_b = batches@;
            let nb = batches.len();
            if nb > 0 && batches[nb - 1].shader == s {
                let last = batches.pop().unwrap();
                batches.push(Batch { shader: s, start: last.start, end: k + 1 });
                draws.push(d);
                proof {
                    assert(batches@ == pre_b.update(nb - 1, Batch { shader: s, start: pre_b[nb - 1].start, end: (k + 1) as usize }));
                    assert forall|q: int, i: int|
                        0 <= q < batches@.len() && batches@[q].start <= i < batches@[q].end implies (#[trigger] draws@[i]).shader == (#[trigger] batches@[q]).shader by {
                        if i < k {
                            assert(draws@[i] == pre_d[i]);
                            if q == nb - 1 && i < pre_b[q].start {
                            } else if q < nb - 1 {
                                assert(pre_b[q] == batches@[q]);
                            } else {
                                assert(pre_b[q].start <= i < pre_b[q].end);
                            }
                        } else {
                            if q < nb - 1 {
                                assert(batches@[q].end <= pre_b[nb - 1].start) by {
                                    assert(pre_b[q] == batches@[q]);
                                    lemma_batches_ordered(pre_b, q, nb - 1);
                                };
                            }
                        }
                    };
                }
            } else {
                batches.push(Batch { shader: s, start: k, end: k + 1 });
                draws.push(d);
                proof {
                    assert forall|q: int, i: int|
                        0 <= q < batches@.len() && batches@[q].start <= i < batches@[q].end implies (#[trigger] draws@[i]).shader == (#[trigger] batches@[q]).shader by {
                        if q < nb {
                            assert(batches@[q] == pre_b[q]);
                            lemma_batches_ordered(pre_b, q, nb - 1);
                            assert(draws@[i] == pre_d[i]);
                            assert(pre_b[q].start <= i < pre_b[q].end);
                        }
                    };
                }
            }
            proof {
                assert forall|j: int| 0 <= j < k + 1 implies (#[trigger] draws@[j]).object == order@[j].2 && draw_of(self, draws@[j]) by {
                    if j < k { assert(draws@[j] == pre_d[j]); }
                };
            }
            k = k + 1;
        }
        proof {
            assert forall|i: int, j: int| 0 <= i < j < draws@.len() implies precedes(
                self.objects()[(#[trigger] draws@[i]).object],
                self.objects()[(#[trigger] draws@[j]).object],
            ) by {
                assert(key_lt(order@[i], order@[j]));
                assert(keyed(self, order@[i]) && keyed(self, order@[j]));
            };
            assert forall|id: ObjectId|
                (self.objects().contains_key(id) && drawable(self, self.objects()[id])) <==> exists|i: int|
                    0 <= i < draws@.len() && (#[trigger] draws@[i]).object == id by {
                if self.objects().contains_key(id) && drawable(self, self.objects()[id]) {
                    let q = choose|q: int| 0 <= q < order@.len() && (#[trigger] order@[q]).2 == id;
                    assert(draws@[q].object == id);
                }
                if exists|i: int| 0 <= i < draws@.len() && (#[trigger] draws@[i]).object == id {
                    let i = choose|i: int| 0 <= i < draws@.len() && (#[trigger] draws@[i]).object == id;
                    assert(keyed(self, order@[i]));
                }
            };
        }
        FramePlan { clear, draws, batches }
    }
}

pub open spec fn draw_objects(p: &FramePlan) -> Seq<ObjectId> {
    p.draws@.map_values(|d: Draw| d.object)
}

/// Objects at equal z are drawn in creation order, whatever programs they
/// use and however the frame is batched.
pub proof fn lemma_equal_z_in_creation_order(e: &Engine, clear: Vec4, p: &FramePlan, i: int, j: int)
    requires
        planned(e, clear, p),
        0 <= i < j < p.draws@.len(),
        e.objects()[p.draws@[i].object].z_index == e.objects()[p.draws@[j].object].z_index,
    ensures
        e.objects()[p.draws@[i].object].created < e.objects()[p.draws@[j].object].created,
{
    assert(precedes(e.objects()[p.draws@[i].object], e.objects()[p.draws@[j].object]));
}

spec fn sorted_by(m: Map<ObjectId, DrawObject>, s: Seq<ObjectId>) -> bool {
    forall|i: int, j: int| 0 <= i < j < s.len() ==> precedes(m[#[trigger] s[i]], m[#[trigger] s[j]])
}

proof fn lemma_sorted_unique(m: Map<ObjectId, DrawObject>, s1: Seq<ObjectId>, s2: Seq<ObjectId>)
    requires
        sorted_by(m, s1),
        sorted_by(m, s2),
        forall|x: ObjectId| s1.contains(x) <==> s2.contains(x),
    ensures
        s1 == s2,
    decreases s1.len(),
{
    if s1.len() == 0 {
        if s2.len() > 0 { assert(s2.contains(s2[0])); }
        assert(s1 =~= s2);
    } else if s2.len() == 0 {
        assert(s1.contains(s1[0]));
    } else {
        assert(s1.contains(s1[0]));
        let k = choose|k: int| 0 <= k < s2.len() && s2[k] == s1[0];
        assert(s2.contains(s2[0]));
        let l = choose|l: int| 0 <= l < s1.len() && s1[l] == s2[0];
        if k > 0 {
            assert(precedes(m[s2[0]], m[s2[k]]));
            if l > 0 {
                assert(precedes(m[s1[0]], m[s1[l]]));
            }
        }
        assert(s1[0] == s2[0]);
        let t1 = s1.skip(1);
        let t2 = s2.skip(1);
        assert forall|x: ObjectId| t1.contains(x) <==> t2.contains(x) by {
            if t1.contains(x) {
                let a = choose|a: int| 0 <= a < t1.len() && t1[a] == x;
                assert(s1[a + 1] == x);
                assert(precedes(m[s1[0]], m[s1[a + 1]]));
                assert(s2.contains(x));
                let b = choose|b: int| 0 <= b < s2.len() && s2[b] == x;
                if b == 0 {
                    assert(false);
                }
                assert(t2[b - 1] == x);
            }
            if t2.contains(x) {
                let a = choose|a: int| 0 <= a < t2.len() && t2[a] == x;
                assert(s2[a + 1] == x);
                assert(precedes(m[s2[0]], m[s2[a + 1]]));
                assert(s1.contains(x));
                let b = choose|b: int| 0 <= b < s1.len() && s1[b] == x;
                if b == 0 {
                    assert(false);
                }
                assert(t1[b - 1] == x);
            }
        };
        assert forall|i: int, j: int| 0 <= i < j < t1.len() implies precedes(m[#[trigger] t1[i]], m[#[trigger] t1[j]]) by {
            assert(t1[i] == s1[i + 1] && t1[j] == s1[j + 1]);
        };
        assert forall|i: int, j: int| 0 <= i < j < t2.len() implies precedes(m[#[trigger] t2[i]], m[#[trigger] t2[j]]) by {
            assert(t2[i] == s2[i + 1] && t2[j] == s2[j + 1]);
        };
        lemma_sorted_unique(m, t1, t2);
        assert(s1 =~= seq![s1[0]] + t1);
        assert(s2 =~= seq![s2[0]] + t2);
    }
}

/// Two frames of the same scene draw the same objects in the same order:
/// the order of equal-z objects is stable from frame to frame.
pub proof fn lemma_frames_agree(e: &Engine, c1: Vec4, c2: Vec4, p1: &FramePlan, p2: &FramePlan)
    requires
        planned(e, c1, p1),
        planned(e, c2, p2),
    ensures
        draw_objects(p1) == draw_objects(p2),
{
    let s1 = draw_objects(p1);
    let s2 = draw_objects(p2);
    if e.viewport().0 == 0 || e.viewport().1 == 0 {
        assert(s1 =~= s2);
    } else {
        let m = e.objects();
        assert forall|i: int, j: int| 0 <= i < j < s1.len() implies precedes(m[#[trigger] s1[i]], m[#[trigger] s1[j]]) by {
            assert(precedes(m[p1.draws@[i].object], m[p1.draws@[j].object]));
        };
        assert forall|i: int, j: int| 0 <= i < j < s2.len() implies precedes(m[#[trigger] s2[i]], m[#[trigger] s2[j]]) by {
            assert(precedes(m[p2.draws@[i].object], m[p2.draws@[j].object]));
        };
        assert forall|x: ObjectId| s1.contains(x) <==> s2.contains(x) by {
            if s1.contains(x) {
                let a = choose|a: int| 0 <= a < s1.len() && s1[a] == x;
                assert(p1.draws@[a].object == x);
                let b = choose|b: int| 0 <= b < p2.draws@.len() && (#[trigger] p2.draws@[b]).object == x;
                assert(s2[b] == x);
            }
            if s2.contains(x) {
                let a = choose|a: int| 0 <= a < s2.len() && s2[a] == x;
                assert(p2.draws@[a].object == x);
                let b = choose|b: int| 0 <= b < p1.draws@.len() && (#[trigger] p1.draws@[b]).object == x;
                assert(s1[b] == x);
            }
        };
        lemma_sorted_unique(m, s1, s2);
    }
}

} // verus!
