//! The binding environment: the name-to-type facts of one scope during a
//! walk, and the immutable [`Interface`] a checked module publishes for the
//! modules that load it.

use vstd::prelude::*;

use crate::text::str_eq;
use crate::ty::Field;
use crate::ty::SpecBasic;
use crate::ty::SpecField;
use crate::ty::Ty;
use crate::ty::copy_ty;
use crate::ty::spec_union;
use crate::views::fields_view;
use crate::views::ty_view;

verus! {

/// The map a list of declarations denotes: later declarations of a name
/// overwrite earlier ones (rebinding is not an error in the checked
/// language).
pub open spec fn env_map(s: Seq<SpecField>) -> Map<Seq<char>, Seq<SpecBasic>>
    decreases s.len(),
{
    if s.len() == 0 {
        Map::empty()
    } else {
        env_map(s.drop_last()).insert(s.last().name, s.last().ty)
    }
}

proof fn lemma_env_agree(s: Seq<SpecField>, j: int, k: Seq<char>)
    requires
        0 <= j <= s.len(),
        forall|l: int| j <= l < s.len() ==> (#[trigger] s[l]).name != k,
    ensures
        env_map(s).contains_key(k) == env_map(s.take(j)).contains_key(k),
        env_map(s).contains_key(k) ==> env_map(s)[k] == env_map(s.take(j))[k],
    decreases s.len() - j,
{
    if j == s.len() {
        assert(s.take(j) =~= s);
    } else {
        lemma_env_agree(s, j + 1, k);
        let pre = s.take(j + 1);
        assert(pre.drop_last() =~= s.take(j));
        assert(pre.last() == s[j]);
        assert(env_map(pre) == env_map(s.take(j)).insert(s[j].name, s[j].ty));
    }
}

/// The name-to-type facts of one scope.  Declaring a name again overwrites
/// its type; looking up an undeclared name yields nothing (the walker turns
/// that into a not-in-scope diagnostic).
pub struct Bindings {
    pub entries: Vec<Field>,
}

impl View for Bindings {
    type V = Map<Seq<char>, Seq<SpecBasic>>;

    open spec fn view(&self) -> Map<Seq<char>, Seq<SpecBasic>> {
        env_map(fields_view(self.entries@))
    }
}

/// The published, immutable summary of a checked module: the types of its
/// exported names.  Produced once at the end of a walk and only read
/// afterwards.
pub struct Interface {
    pub entries: Vec<Field>,
}

impl View for Interface {
    type V = Map<Seq<char>, Seq<SpecBasic>>;

    open spec fn view(&self) -> Map<Seq<char>, Seq<SpecBasic>> {
        env_map(fields_view(self.entries@))
    }
}

/// The type a scope gives a name, or `Never` (the empty union) where the
/// name is unbound; `Never` vanishes under union, so an unbound branch
/// contributes nothing when branches are merged.
pub open spec fn ty_or_never(
    m: Map<Seq<char>, Seq<SpecBasic>>,
    k: Seq<char>,
) -> Seq<SpecBasic> {
    if m.contains_key(k) {
        m[k]
    } else {
        Seq::empty()
    }
}

fn lookup_entries(entries: &Vec<Field>, name: &str) -> (r: Option<Ty>)
    ensures
        match r {
            Option::Some(t) => env_map(fields_view(entries@)).contains_key(name@) && ty_view(t)
                == env_map(fields_view(entries@))[name@],
            Option::None => !env_map(fields_view(entries@)).contains_key(name@),
        },
{
    let ghost fv = fields_view(entries@);
    proof {
        crate::views::fields_view_len(entries@);
    }
    let mut j = entries.len();
    while j > 0
        invariant
            0 <= j <= entries@.len(),
            fv == fields_view(entries@),
            fv.len() == entries@.len(),
            forall|l: int| j <= l < fv.len() ==> (#[trigger] fv[l]).name != name@,
        decreases j,
    {
        j = j - 1;
        proof {
            crate::views::fields_view_index(entries@, j as int);
        }
        if str_eq(entries[j].name.as_str(), name) {
            let t = copy_ty(&entries[j].ty);
            proof {
                lemma_env_agree(fv, j + 1, name@);
                assert(fv.take(j + 1).drop_last() =~= fv.take(j as int));
                assert(fv.take(j + 1).last() == fv[j as int]);
                assert(env_map(fv.take(j + 1)) == env_map(fv.take(j as int)).insert(
                    fv[j as int].name,
                    fv[j as int].ty,
                ));
            }
            return Option::Some(t);
        }
    }
    proof {
        lemma_env_agree(fv, 0, name@);
        assert(fv.take(0) =~= Seq::<SpecField>::empty());
    }
    Option::None
}

impl Bindings {
    /// The empty scope.
    pub fn new() -> (r: Bindings)
        ensures
            r@ == Map::<Seq<char>, Seq<SpecBasic>>::empty(),
    {
        let r = Bindings { entries: Vec::new() };
        proof {
            assert(fields_view(r.entries@) =~= Seq::<SpecField>::empty());
        }
        r
    }

    /// Record the type of a name.  Redeclaration overwrites: the last writer
    /// wins, matching the checked language's own rebinding rule.
    pub fn declare(&mut self, name: String, ty: Ty)
        ensures
            final(self)@ == old(self)@.insert(name@, ty_view(ty)),
    {
        let ghost before = self.entries@;
        let ghost nv = name@;
        let ghost tv = ty_view(ty);
        self.entries.push(Field { name, ty });
        proof {
            assert(self.entries@.drop_last() =~= before);
            crate::views::fields_view_len(before);
            assert(fields_view(self.entries@) == fields_view(before).push(
                SpecField {
                    name: self.entries@.last().name@,
                    ty: ty_view(self.entries@.last().ty),
                },
            ));
            assert(fields_view(self.entries@).drop_last() =~= fields_view(before));
        }
    }

    /// The current type of a name, or nothing where it is not in scope (the
    /// walker turns that into a not-in-scope diagnostic).  A loader that sees
    /// a wildcard or unresolved import declares the affected names as `Any`
    /// here, so that uses of them stay permissive rather than erroneous.
    pub fn lookup(&self, name: &str) -> (r: Option<Ty>)
        ensures
            match r {
                Option::Some(t) => self@.contains_key(name@) && ty_view(t) == self@[name@],
                Option::None => !self@.contains_key(name@),
            },
    {
        lookup_entries(&self.entries, name)
    }

    /// Deep copy of the scope, for walking one branch of a conditional
    /// against its own environment.
    pub fn duplicate(&self) -> (r: Bindings)
        ensures
            r@ == self@,
    {
        let n = self.entries.len();
        let mut entries: Vec<Field> = Vec::new();
        let mut i: usize = 0;
        proof {
            crate::views::fields_view_len(self.entries@);
        }
        while i < n
            invariant
                0 <= i <= n,
                n == self.entries@.len(),
                entries@.len() == i,
                forall|k: int|
                    0 <= k < i ==> fields_view(entries@)[k] == fields_view(self.entries@)[k],
            decreases n - i,
        {
            let f = &self.entries[i];
            let c = Field { name: f.name.clone(), ty: copy_ty(&f.ty) };
            proof {
                crate::views::fields_view_index(self.entries@, i as int);
            }
            let ghost before = entries@;
            entries.push(c);
            proof {
                assert(entries@.drop_last() =~= before);
                assert forall|k: int| 0 <= k < i + 1 implies fields_view(entries@)[k]
                    == fields_view(self.entries@)[k] by {
                    crate::views::fields_view_len(entries@);
                    crate::views::fields_view_index(entries@, k);
                    if k < i {
                        crate::views::fields_view_index(before, k);
                        assert(entries@[k] == before[k]);
                    }
                }
            }
            i += 1;
        }
        let r = Bindings { entries };
        proof {
            crate::views::fields_view_len(r.entries@);
            assert(fields_view(r.entries@) =~= fields_view(self.entries@));
        }
        r
    }

    /// Merge the environments of two branches: every name bound in either
    /// branch gets the union of its types, a branch that does not bind it
    /// contributing `Never`, which vanishes.
    pub fn merge_branches(a: &Bindings, b: &Bindings) -> (r: Bindings)
        ensures
            forall|k: Seq<char>|
                r@.contains_key(k) <==> (a@.contains_key(k) || b@.contains_key(k)),
            forall|k: Seq<char>|
                #[trigger] r@.contains_key(k) ==> r@[k] == spec_union(
                    ty_or_never(a@, k),
                    ty_or_never(b@, k),
                ),
    {
        let mut out = Bindings { entries: Vec::new() };
        proof {
            assert(fields_view(out.entries@) =~= Seq::<SpecField>::empty());
        }
        let na = a.entries.len();
        let mut i: usize = 0;
        proof {
            crate::views::fields_view_len(a.entries@);
        }
        while i < na
            invariant
                0 <= i <= na,
                na == a.entries@.len(),
                forall|k: Seq<char>|
                    #[trigger] out@.contains_key(k) ==> a@.contains_key(k),
                forall|k: Seq<char>|
                    #[trigger] out@.contains_key(k) ==> out@[k] == spec_union(
                        ty_or_never(a@, k),
                        ty_or_never(b@, k),
                    ),
                forall|l: int|
                    0 <= l < i ==> out@.contains_key((#[trigger] fields_view(a.entries@)[l]).name),
            decreases na - i,
        {
            proof {
                crate::views::fields_view_index(a.entries@, i as int);
            }
            let name = &a.entries[i].name;
            proof {
                crate::views::fields_view_len(a.entries@);
                lemma_env_entry_key(fields_view(a.entries@), i as int);
            }
            let ta = a.lookup(name.as_str());
            let tb = b.lookup(name.as_str());
            match ta {
                Option::Some(t1) => {
                    let merged = match tb {
                        Option::Some(t2) => t1.union(&t2),
                        Option::None => t1.union(&Ty::never()),
                    };
                    out.declare(name.clone(), merged);
                },
                Option::None => {
                    proof {
                        assert(false);
                    }
                },
            }
            i += 1;
        }
        let nb = b.entries.len();
        let mut j: usize = 0;
        proof {
            crate::views::fields_view_len(b.entries@);
        }
        while j < nb
            invariant
                0 <= j <= nb,
                nb == b.entries@.len(),
                forall|k: Seq<char>|
                    #[trigger] out@.contains_key(k) ==> (a@.contains_key(k) || b@.contains_key(k)),
                forall|k: Seq<char>|
                    #[trigger] out@.contains_key(k) ==> out@[k] == spec_union(
                        ty_or_never(a@, k),
                        ty_or_never(b@, k),
                    ),
                forall|l: int|
                    0 <= l < a.entries@.len() ==> out@.contains_key(
                        (#[trigger] fields_view(a.entries@)[l]).name,
                    ),
                forall|l: int|
                    0 <= l < j ==> out@.contains_key((#[trigger] fields_view(b.entries@)[l]).name),
            decreases nb - j,
        {
            proof {
                crate::views::fields_view_index(b.entries@, j as int);
            }
            let name = &b.entries[j].name;
            proof {
                crate::views::fields_view_len(b.entries@);
                lemma_env_entry_key(fields_view(b.entries@), j as int);
            }
            let ta = a.lookup(name.as_str());
            let tb = b.lookup(name.as_str());
            match tb {
                Option::Some(t2) => {
                    let merged = match ta {
                        Option::Some(t1) => t1.union(&t2),
                        Option::None => Ty::never().union(&t2),
                    };
                    out.declare(name.clone(), merged);
                },
                Option::None => {
                    proof {
                        assert(false);
                    }
                },
            }
            j += 1;
        }
        proof {
            assert forall|k: Seq<char>| a@.contains_key(k) || b@.contains_key(k) implies
                out@.contains_key(k) by {
                if a@.contains_key(k) {
                    lemma_env_key_entry(fields_view(a.entries@), k);
                } else {
                    lemma_env_key_entry(fields_view(b.entries@), k);
                }
            }
        }
        out
    }
}

proof fn lemma_env_entry_key(s: Seq<SpecField>, l: int)
    requires
        0 <= l < s.len(),
    ensures
        env_map(s).contains_key(s[l].name),
    decreases s.len(),
{
    if l == s.len() - 1 {
    } else {
        assert(s.drop_last()[l] == s[l]);
        lemma_env_entry_key(s.drop_last(), l);
    }
}

proof fn lemma_env_key_entry(s: Seq<SpecField>, k: Seq<char>)
    requires
        env_map(s).contains_key(k),
    ensures
        exists|l: int| 0 <= l < s.len() && (#[trigger] s[l]).name == k,
    decreases s.len(),
{
    if s.len() > 0 {
        if s.last().name == k {
            assert(s[s.len() - 1].name == k);
        } else {
            lemma_env_key_entry(s.drop_last(), k);
            let l = choose|l: int| 0 <= l < s.drop_last().len() && (#[trigger] s.drop_last()[l]).name == k;
            assert(s[l].name == k);
        }
    }
}

/// Snapshot the exported subset of a scope at end of module: the published
/// interface maps every exported, bound name to its final type, and nothing
/// else.
pub fn interface_of(bindings: &Bindings, exports: &Vec<String>) -> (r: Interface)
    ensures
        forall|k: Seq<char>|
            #[trigger] r@.contains_key(k) <==> (bindings@.contains_key(k) && exists|l: int|
                0 <= l < exports@.len() && (#[trigger] exports@[l])@ == k),
        forall|k: Seq<char>| #[trigger] r@.contains_key(k) ==> r@[k] == bindings@[k],
{
    let mut entries: Vec<Field> = Vec::new();
    let ghost empty_out = fields_view(entries@);
    proof {
        assert(fields_view(entries@) =~= Seq::<SpecField>::empty());
    }
    let n = exports.len();
    let mut i: usize = 0;
    while i < n
        invariant
            0 <= i <= n,
            n == exports@.len(),
            forall|k: Seq<char>|
                #[trigger] env_map(fields_view(entries@)).contains_key(k) ==> (
                bindings@.contains_key(k) && exists|l: int|
                    0 <= l < exports@.len() && (#[trigger] exports@[l])@ == k),
            forall|k: Seq<char>|
                #[trigger] env_map(fields_view(entries@)).contains_key(k) ==> env_map(
                    fields_view(entries@),
                )[k] == bindings@[k],
            forall|l: int|
                0 <= l < i && bindings@.contains_key((#[trigger] exports@[l])@) ==> env_map(
                    fields_view(entries@),
                ).contains_key(exports@[l]@),
        decreases n - i,
    {
        let name = &exports[i];
        let found = bindings.lookup(name.as_str());
        match found {
            Option::Some(t) => {
                let ghost before = entries@;
                let ghost nv = name@;
                entries.push(Field { name: name.clone(), ty: t });
                proof {
                    assert(entries@.drop_last() =~= before);
                    crate::views::fields_view_len(before);
                    assert(fields_view(entries@) == fields_view(before).push(
                        SpecField {
                            name: entries@.last().name@,
                            ty: ty_view(entries@.last().ty),
                        },
                    ));
                    assert(fields_view(entries@).drop_last() =~= fields_view(before));
                    assert(env_map(fields_view(entries@)) == env_map(fields_view(before)).insert(
                        nv,
                        ty_view(entries@.last().ty),
                    ));
                }
            },
            Option::None => {},
        }
        i += 1;
    }
    Interface { entries }
}

impl Interface {
    /// The exported type of a name, or nothing where the module does not
    /// export it.
    pub fn lookup(&self, name: &str) -> (r: Option<Ty>)
        ensures
            match r {
                Option::Some(t) => self@.contains_key(name@) && ty_view(t) == self@[name@],
                Option::None => !self@.contains_key(name@),
            },
    {
        lookup_entries(&self.entries, name)
    }
}

} // verus!
