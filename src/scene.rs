use vstd::prelude::*;
use crate::arena::Handle;

verus! {

/// Names a drawable object of the registry.
pub type ObjectId = Handle;

/// Names a loaded font.
pub type FontId = Handle;

/// Names a compiled shader program.
pub type ShaderId = Handle;

/// Two `f32` components, each held as its IEEE-754 bit pattern.
#[derive(Clone, Copy, Debug, PartialEq, Eq, Structural)]
pub struct Vec2 {
    pub x: u32,
    pub y: u32,
}

/// Four `f32` components (a color, or four corner radii), as bit patterns.
#[derive(Clone, Copy, Debug, PartialEq, Eq, Structural)]
pub struct Vec4 {
    pub x: u32,
    pub y: u32,
    pub z: u32,
    pub w: u32,
}

/// Bit pattern of `0.0f32`.
pub const F32_ZERO: u32 = 0;

/// Bit pattern of `1.0f32`.
pub const F32_ONE: u32 = 0x3f80_0000;

/// Bit pattern of `-0.0f32`; its bit is set on every negative value.
pub const F32_SIGN: u32 = 0x8000_0000;

/// A size component made usable: a value with its sign bit set (a negative
/// number, or negative zero) becomes `0.0`; others pass unchanged.
pub open spec fn clamped_spec(bits: u32) -> u32 {
    if bits >= F32_SIGN { F32_ZERO } else { bits }
}

pub fn clamp_non_negative(bits: u32) -> (r: u32)
    ensures
        r == clamped_spec(bits),
{
    if bits >= F32_SIGN { F32_ZERO } else { bits }
}

/// The render-order key of a z value: an unsigned integer whose order is
/// the order of the floats it came from (negatives below positives, more
/// negative lower).
pub open spec fn z_key_spec(bits: u32) -> u32 {
    if bits >= F32_SIGN { (u32::MAX - bits) as u32 } else { (bits + F32_SIGN) as u32 }
}

pub fn z_key(bits: u32) -> (r: u32)
    ensures
        r == z_key_spec(bits),
{
    if bits >= F32_SIGN { u32::MAX - bits } else { bits + F32_SIGN }
}

/// The kind of value a uniform holds.
#[derive(Clone, Copy, Debug, PartialEq, Eq, Structural)]
pub enum UniformKind {
    Int,
    Float,
    Vec2,
    Vec3,
    Vec4,
    Bool,
    Mat4,
}

/// A uniform value; float components are bit patterns, a matrix is
/// sixteen of them in column-major order.
#[derive(Clone, Copy, Debug)]
pub enum UniformValue {
    Int(i32),
    Float(u32),
    Vec2(u32, u32),
    Vec3(u32, u32, u32),
    Vec4(u32, u32, u32, u32),
    Bool(bool),
    Mat4([u32; 16]),
}

pub open spec fn kind_of(v: UniformValue) -> UniformKind {
    match v {
        UniformValue::Int(_) => UniformKind::Int,
        UniformValue::Float(_) => UniformKind::Float,
        UniformValue::Vec2(..) => UniformKind::Vec2,
        UniformValue::Vec3(..) => UniformKind::Vec3,
        UniformValue::Vec4(..) => UniformKind::Vec4,
        UniformValue::Bool(_) => UniformKind::Bool,
        UniformValue::Mat4(_) => UniformKind::Mat4,
    }
}

impl UniformValue {
    pub fn kind(&self) -> (r: UniformKind)
        ensures
            r == kind_of(*self),
    {
        match self {
            UniformValue::Int(_) => UniformKind::Int,
            UniformValue::Float(_) => UniformKind::Float,
            UniformValue::Vec2(..) => UniformKind::Vec2,
            UniformValue::Vec3(..) => UniformKind::Vec3,
            UniformValue::Vec4(..) => UniformKind::Vec4,
            UniformValue::Bool(_) => UniformKind::Bool,
            UniformValue::Mat4(_) => UniformKind::Mat4,
        }
    }
}

/// One named value of an object's uniform table.
pub struct UniformEntry {
    pub name: String,
    pub value: UniformValue,
}

/// The index of the entry named `n`, or -1.
pub open spec fn entry_index(s: Seq<UniformEntry>, n: Seq<char>) -> int
    decreases s.len(),
{
    if s.len() == 0 {
        -1
    } else if s.last().name@ == n {
        s.len() - 1
    } else {
        entry_index(s.drop_last(), n)
    }
}

pub open spec fn names_unique(s: Seq<UniformEntry>) -> bool {
    forall|i: int, j: int| 0 <= i < s.len() && 0 <= j < s.len() && i != j ==> s[i].name@ != s[j].name@
}

/// `t` is the table `s` after setting `n` to `v`: an entry of that name is
/// updated in place, otherwise one is appended at the end.
pub open spec fn upserted(s: Seq<UniformEntry>, n: Seq<char>, v: UniformValue, t: Seq<UniformEntry>) -> bool {
    let i = entry_index(s, n);
    if i >= 0 {
        t == s.update(i, UniformEntry { name: s[i].name, value: v })
    } else {
        &&& t.len() == s.len() + 1
        &&& t.drop_last() == s
        &&& t.last().name@ == n
        &&& t.last().value == v
    }
}

pub proof fn lemma_entry_index(s: Seq<UniformEntry>, n: Seq<char>)
    ensures
        -1 <= entry_index(s, n) < s.len(),
        entry_index(s, n) >= 0 ==> s[entry_index(s, n)].name@ == n,
        entry_index(s, n) < 0 ==> forall|i: int| 0 <= i < s.len() ==> s[i].name@ != n,
    decreases s.len(),
{
    if s.len() > 0 {
        lemma_entry_index(s.drop_last(), n);
        if entry_index(s, n) < 0 {
            assert forall|i: int| 0 <= i < s.len() implies s[i].name@ != n by {
                if i < s.len() - 1 {
                    assert(s.drop_last()[i] == s[i]);
                }
            };
        }
    }
}

/// Sets `name` to `value` in `table`.
pub fn upsert_uniform(table: &mut Vec<UniformEntry>, name: String, value: UniformValue)
    requires
        names_unique(old(table)@),
    ensures
        names_unique(final(table)@),
        upserted(old(table)@, name@, value, final(table)@),
{
    let mut i: usize = 0;
    while i < table.len()
        invariant
            i <= table@.len(),
            table@ == old(table)@,
            names_unique(table@),
            forall|j: int| 0 <= j < i ==> table@[j].name@ != name@,
        decreases table@.len() - i,
    {
        if table[i].name == name {
            proof {
                lemma_entry_index(table@, name@);
                assert(table@[i as int].name@ == name@);
                assert(entry_index(table@, name@) >= 0);
                let k = entry_index(table@, name@);
                if k != i as int {
                    assert(table@[k].name@ == name@);
                    assert(names_unique(table@));
                    assert(table@[k].name@ != table@[i as int].name@);
                }
                assert(entry_index(old(table)@, name@) == i as int);
            }
            let ghost pre = table@;
            let mut e = UniformEntry { name: String::new(), value };
            table.set_and_swap(i, &mut e);
            assert(e == pre[i as int]);
            table.set(i, UniformEntry { name: e.name, value });
            assert(table@ =~= pre.update(i as int, UniformEntry { name: pre[i as int].name, value }));
            assert forall|a: int, b: int| 0 <= a < table@.len() && 0 <= b < table@.len() && a != b
                implies table@[a].name@ != table@[b].name@ by {
                assert(table@[a].name == pre[a].name);
                assert(table@[b].name == pre[b].name);
                assert(names_unique(pre));
                assert(pre[a].name@ != pre[b].name@);
            };
            return;
        }
        i = i + 1;
    }
    proof {
        lemma_entry_index(table@, name@);
    }
    table.push(UniformEntry { name, value });
    assert(table@.drop_last() =~= old(table)@);
}

} // verus!
