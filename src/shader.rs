use vstd::prelude::*;
use crate::scene::{UniformEntry, UniformKind, UniformValue, kind_of, upserted, entry_index, lemma_entry_index};

verus! {

/// A uniform that a linked shader program declares.
pub struct UniformDecl {
    pub name: String,
    pub kind: UniformKind,
}

/// What the shader compiler reports of a linked program.
pub struct ShaderProgram {
    pub uniforms: Vec<UniformDecl>,
}

pub enum ShaderError {
    /// The compiler's diagnostics.
    CompileFailed(String),
}

/// The program declares a uniform of `e`'s name and of its value's kind.
pub open spec fn declares(decls: Seq<UniformDecl>, e: UniformEntry) -> bool {
    exists|i: int| 0 <= i < decls.len() && decls[i].name@ == e.name@ && decls[i].kind == kind_of(e.value)
}

/// The entries of an object's table that a program binds, in table order;
/// the others are skipped.
pub open spec fn bound_spec(decls: Seq<UniformDecl>, s: Seq<UniformEntry>) -> Seq<UniformEntry>
    decreases s.len(),
{
    if s.len() == 0 {
        s
    } else if declares(decls, s.last()) {
        bound_spec(decls, s.drop_last()).push(s.last())
    } else {
        bound_spec(decls, s.drop_last())
    }
}

pub fn declares_exec(decls: &Vec<UniformDecl>, e: &UniformEntry) -> (r: bool)
    ensures
        r == declares(decls@, *e),
{
    let k = e.value.kind();
    let mut i: usize = 0;
    while i < decls.len()
        invariant
            i <= decls@.len(),
            k == kind_of(e.value),
            forall|j: int| 0 <= j < i ==> !(decls@[j].name@ == e.name@ && decls@[j].kind == kind_of(e.value)),
        decreases decls@.len() - i,
    {
        if decls[i].name == e.name && decls[i].kind == k {
            return true;
        }
        i = i + 1;
    }
    false
}

/// The uniform bindings of one draw: the entries the program declares.
pub fn bind_uniforms(decls: &Vec<UniformDecl>, entries: &Vec<UniformEntry>) -> (r: Vec<UniformEntry>)
    ensures
        r@ == bound_spec(decls@, entries@),
{
    let mut r: Vec<UniformEntry> = Vec::new();
    let mut i: usize = 0;
    while i < entries.len()
        invariant
            i <= entries@.len(),
            r@ == bound_spec(decls@, entries@.subrange(0, i as int)),
        decreases entries@.len() - i,
    {
        assert(entries@.subrange(0, i as int + 1).drop_last() =~= entries@.subrange(0, i as int));
        if declares_exec(decls, &entries[i]) {
            r.push(UniformEntry { name: entries[i].name.clone(), value: entries[i].value });
        }
        i = i + 1;
    }
    assert(entries@.subrange(0, entries@.len() as int) =~= entries@);
    r
}

proof fn lemma_bound_update(decls: Seq<UniformDecl>, s: Seq<UniformEntry>, i: int, e: UniformEntry)
    requires
        0 <= i < s.len(),
        !declares(decls, s[i]),
        !declares(decls, e),
    ensures
        bound_spec(decls, s.update(i, e)) == bound_spec(decls, s),
    decreases s.len(),
{
    let t = s.update(i, e);
    if i == s.len() - 1 {
        assert(t.drop_last() =~= s.drop_last());
    } else {
        assert(t.drop_last() =~= s.drop_last().update(i, e));
        lemma_bound_update(decls, s.drop_last(), i, e);
    }
}

/// Setting a uniform that the bound program does not declare leaves the
/// bindings of the object's other uniforms as they were.
pub proof fn lemma_undeclared_uniform_keeps_bindings(
    decls: Seq<UniformDecl>,
    s: Seq<UniformEntry>,
    n: Seq<char>,
    v: UniformValue,
    t: Seq<UniformEntry>,
)
    requires
        upserted(s, n, v, t),
        forall|i: int| 0 <= i < decls.len() ==> decls[i].name@ != n,
    ensures
        bound_spec(decls, t) == bound_spec(decls, s),
{
    lemma_entry_index(s, n);
    let k = entry_index(s, n);
    if k >= 0 {
        lemma_bound_update(decls, s, k, UniformEntry { name: s[k].name, value: v });
    } else {
        assert(!declares(decls, t.last()));
    }
}

} // verus!
