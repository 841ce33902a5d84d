//! Imports kernel objects into the persistent arena.
//!
//! Every node is interned, so a constant's type and value are imported once;
//! a later declaration that mentions the constant only builds a leaf. Within
//! one import a memo, keyed on the object's address, skips shared subterms.

use crate::arena::{
    lemma_expr_settles, lemma_expr_wf, lemma_extends_refl, lemma_extends_trans, lemma_fits_down,
    lemma_level_seq_wf, lemma_level_settles, lemma_level_wf, lemma_name_settles, lemma_name_wf,
    lemma_put_bignum, lemma_put_expr, lemma_put_level, lemma_put_levels, lemma_put_name,
    lemma_put_string, lemma_valid_extends,
};
use crate::big::{law_limbs_roundtrip, limbs_of, limbs_value, BigNat};
use crate::expr::{BinderStyle, Expr};
use crate::lean_sys::{nat_to_biguint, nat_value, LeanObj};
use crate::level::Level;
use crate::memory::{Bytes, Memory};
use crate::model::{
    add_expr, add_level, add_level_seq, add_levels, add_name, app_node, binding_node, expr_ok,
    extends, fits, lemma_add_expr, let_node, level_ok, levels_ok, name_ok, params_of, proj_node,
    put_bignum, put_expr, put_level, put_levels, put_name, put_string, style_of, valid_biguint,
    valid_expr, valid_level, valid_levels, valid_name, valid_string, wf, DagModel,
};
use crate::name::Name;
use crate::term::{
    self, expr_of, is_expr, is_level, is_levels, is_name, is_names, is_nat, lemma_expr_parts,
    lemma_level_parts, lemma_levels_parts, lemma_name_parts, lemma_nat_parts, level_of, levels_of,
    list_objs, list_of, name_of, names_of, nat_of, BinderInfo, ExprTree, LevelKind, LevelTree, Lit,
    NameKind, TermKind,
};
use crate::util::{BigUintPtr, DagMarker, ExprPtr, LeanDag, LevelPtr, LevelsPtr, NamePtr, StringPtr};
use std::collections::HashMap;
use vstd::prelude::*;

verus! {

broadcast use vstd::std_specs::hash::group_hash_axioms;

/// A malformed or unsupported node that an import stopped on.
#[derive(Debug, Clone)]
pub struct ImportError(pub String);

impl ImportError {
    /// The error with the message `msg`.
    pub fn new(msg: &str) -> (r: ImportError)
        ensures
            r.0@ == msg@,
    {
        ImportError(msg.to_owned())
    }

    /// The text under which the error is shown.
    pub fn message(&self) -> (r: String)
        ensures
            r@ == "external checker import error: "@ + self.0@,
    {
        let mut out = "external checker import error: ".to_owned();
        out.append(self.0.as_str());
        out
    }
}

/// Whether `r` is the pointer, or the error with the message, that `s` says.
pub open spec fn agrees<T>(r: Result<T, ImportError>, s: Result<T, Seq<char>>) -> bool {
    match (r, s) {
        (Ok(a), Ok(b)) => a == b,
        (Err(e), Err(msg)) => e.0@ == msg,
        _ => false,
    }
}

/// The arena's word for a binder annotation.
pub fn binder_style(bi: BinderInfo) -> (r: BinderStyle)
    ensures
        r == style_of(bi),
{
    match bi {
        BinderInfo::Default => BinderStyle::Default,
        BinderInfo::Implicit => BinderStyle::Implicit,
        BinderInfo::StrictImplicit => BinderStyle::StrictImplicit,
        BinderInfo::InstImplicit => BinderStyle::InstanceImplicit,
    }
}

/// The objects that were imported already, with the pointers that came out.
pub struct Memo {
    exprs: HashMap<LeanObj, ExprPtr>,
    levels: HashMap<LeanObj, LevelPtr>,
    names: HashMap<LeanObj, NamePtr>,
}

impl Memo {
    /// Whether each object in the memo is live, and the arena `d` holds what it
    /// stands for already, behind the pointer in the memo.
    #[verifier::opaque]
    spec fn known(&self, m: Bytes, d: DagModel, nat_ext: bool, str_ext: bool) -> bool {
        &&& forall|o: LeanObj| #[trigger]
            self.names@.contains_key(o) ==> is_name(m, o) && add_name(d, name_of(m, o)) == (
                d,
                Ok::<NamePtr, Seq<char>>(self.names@[o]),
            )
        &&& forall|o: LeanObj| #[trigger]
            self.levels@.contains_key(o) ==> is_level(m, o) && add_level(d, level_of(m, o)) == (
                d,
                Ok::<LevelPtr, Seq<char>>(self.levels@[o]),
            )
        &&& forall|o: LeanObj| #[trigger]
            self.exprs@.contains_key(o) ==> is_expr(m, o) && add_expr(
                d,
                nat_ext,
                str_ext,
                expr_of(m, o),
            ) == (d, Ok::<ExprPtr, Seq<char>>(self.exprs@[o]))
    }

    /// What is in the memo stays true while the arena grows.
    proof fn lemma_known_grows(
        &self,
        m: Bytes,
        d: DagModel,
        e: DagModel,
        nat_ext: bool,
        str_ext: bool,
    )
        requires
            self.known(m, d, nat_ext, str_ext),
            wf(d),
            fits(d),
            extends(d, e),
            wf(e),
        ensures
            self.known(m, e, nat_ext, str_ext),
    {
        reveal(Memo::known);
        assert forall|o: LeanObj| #[trigger] self.names@.contains_key(o) implies is_name(m, o)
            && add_name(e, name_of(m, o)) == (e, Ok::<NamePtr, Seq<char>>(self.names@[o])) by {
            lemma_name_settles(d, name_of(m, o), e);
        }
        assert forall|o: LeanObj| #[trigger] self.levels@.contains_key(o) implies is_level(m, o)
            && add_level(e, level_of(m, o)) == (e, Ok::<LevelPtr, Seq<char>>(self.levels@[o])) by {
            lemma_level_settles(d, level_of(m, o), e);
        }
        assert forall|o: LeanObj| #[trigger] self.exprs@.contains_key(o) implies is_expr(m, o)
            && add_expr(e, nat_ext, str_ext, expr_of(m, o)) == (
            e,
            Ok::<ExprPtr, Seq<char>>(self.exprs@[o]),
        ) by {
            lemma_expr_settles(d, nat_ext, str_ext, expr_of(m, o), e);
        }
    }
}

/// Walks kernel objects into an arena.
///
/// One importer serves one declaration: its memos are keyed on addresses, and
/// hold while the memory that it reads does not change.
pub struct Importer<'m, 'd, M: Memory> {
    pub mem: &'m M,
    pub dag: &'d mut LeanDag,
    pub nat_extension: bool,
    pub string_extension: bool,
    pub memo: Memo,
}

impl<'m, 'd, M: Memory> Importer<'m, 'd, M> {
    /// The memory that is read.
    pub open spec fn bytes(&self) -> Bytes {
        self.mem.bytes()
    }

    /// Whether the arena is well-formed and the memo is true of it.
    pub closed spec fn wf(&self) -> bool {
        &&& self.dag.wf()
        &&& self.memo.known(self.bytes(), self.dag@, self.nat_extension, self.string_extension)
    }

    /// The arena of a well-formed importer is well-formed.
    pub proof fn lemma_wf(&self)
        requires
            self.wf(),
        ensures
            old(self.dag).wf(),
    {
    }

    /// Whether two importers read the same memory under the same settings.
    pub open spec fn same_setup(&self, other: &Self) -> bool {
        &&& self.mem == other.mem
        &&& self.nat_extension == other.nat_extension
        &&& self.string_extension == other.string_extension
    }

    /// Whether two importers differ in their arenas only.
    spec fn same_but_dag(&self, other: &Self) -> bool {
        &&& self.same_setup(other)
        &&& self.memo == other.memo
    }

    /// An importer from `mem` into `dag`.
    pub fn new(
        mem: &'m M,
        dag: &'d mut LeanDag,
        nat_extension: bool,
        string_extension: bool,
    ) -> (r: Self)
        requires
            old(dag).wf(),
        ensures
            r.wf(),
            r.mem == mem,
            *r.dag == *old(dag),
            *final(r.dag) == *final(dag),
            r.nat_extension == nat_extension,
            r.string_extension == string_extension,
    {
        proof {
            reveal(Memo::known);
        }
        Importer {
            mem,
            dag,
            nat_extension,
            string_extension,
            memo: Memo { exprs: HashMap::new(), levels: HashMap::new(), names: HashMap::new() },
        }
    }

    // ----- interning one node -----

    /// Interns a name.
    fn intern_name(&mut self, n: Name) -> (r: NamePtr)
        requires
            old(self).wf(),
            name_ok(old(self).dag@, n, old(self).dag@.names.len() as int),
        ensures
            final(self).wf(),
            final(self).same_but_dag(old(self)),
            *final(final(self).dag) == *final(old(self).dag),
            (final(self).dag@, r) == put_name(old(self).dag@, n),
            extends(old(self).dag@, final(self).dag@),
            valid_name(final(self).dag@, r),
    {
        let ghost d = self.dag@;
        let r = NamePtr { marker: DagMarker::ExportFile, idx: self.dag.names.insert_full(n) };
        proof {
            self.dag.lemma_fits();
            lemma_put_name(d, n);
            lemma_fits_down(d, self.dag@);
            self.memo.lemma_known_grows(
                self.bytes(),
                d,
                self.dag@,
                self.nat_extension,
                self.string_extension,
            );
        }
        r
    }

    /// Interns a level.
    fn intern_level(&mut self, l: Level) -> (r: LevelPtr)
        requires
            old(self).wf(),
            level_ok(old(self).dag@, l, old(self).dag@.levels.len() as int),
        ensures
            final(self).wf(),
            final(self).same_but_dag(old(self)),
            *final(final(self).dag) == *final(old(self).dag),
            (final(self).dag@, r) == put_level(old(self).dag@, l),
            extends(old(self).dag@, final(self).dag@),
            valid_level(final(self).dag@, r),
    {
        let ghost d = self.dag@;
        let r = LevelPtr { marker: DagMarker::ExportFile, idx: self.dag.levels.insert_full(l) };
        proof {
            self.dag.lemma_fits();
            lemma_put_level(d, l);
            lemma_fits_down(d, self.dag@);
            self.memo.lemma_known_grows(
                self.bytes(),
                d,
                self.dag@,
                self.nat_extension,
                self.string_extension,
            );
        }
        r
    }

    /// Interns an expression.
    fn intern_expr(&mut self, e: Expr) -> (r: ExprPtr)
        requires
            old(self).wf(),
            expr_ok(old(self).dag@, e, old(self).dag@.exprs.len() as int),
        ensures
            final(self).wf(),
            final(self).same_but_dag(old(self)),
            *final(final(self).dag) == *final(old(self).dag),
            (final(self).dag@, r) == put_expr(old(self).dag@, e),
            extends(old(self).dag@, final(self).dag@),
            valid_expr(final(self).dag@, r),
    {
        let ghost d = self.dag@;
        let r = ExprPtr { marker: DagMarker::ExportFile, idx: self.dag.exprs.insert_full(e) };
        proof {
            self.dag.lemma_fits();
            lemma_put_expr(d, e);
            lemma_fits_down(d, self.dag@);
            self.memo.lemma_known_grows(
                self.bytes(),
                d,
                self.dag@,
                self.nat_extension,
                self.string_extension,
            );
        }
        r
    }

    /// Interns a string.
    fn intern_string(&mut self, s: String) -> (r: StringPtr)
        requires
            old(self).wf(),
        ensures
            final(self).wf(),
            final(self).same_but_dag(old(self)),
            *final(final(self).dag) == *final(old(self).dag),
            (final(self).dag@, r) == put_string(old(self).dag@, s@),
            extends(old(self).dag@, final(self).dag@),
            valid_string(final(self).dag@, r),
    {
        let ghost d = self.dag@;
        let r = StringPtr { marker: DagMarker::ExportFile, idx: self.dag.strings.insert_full(s) };
        proof {
            self.dag.lemma_fits();
            lemma_put_string(d, s@);
            lemma_fits_down(d, self.dag@);
            self.memo.lemma_known_grows(
                self.bytes(),
                d,
                self.dag@,
                self.nat_extension,
                self.string_extension,
            );
        }
        r
    }

    /// Interns a sequence of levels.
    fn intern_levels(&mut self, ls: Vec<LevelPtr>) -> (r: LevelsPtr)
        requires
            old(self).wf(),
            levels_ok(old(self).dag@, ls@),
        ensures
            final(self).wf(),
            final(self).same_but_dag(old(self)),
            *final(final(self).dag) == *final(old(self).dag),
            (final(self).dag@, r) == put_levels(old(self).dag@, ls@),
            extends(old(self).dag@, final(self).dag@),
            valid_levels(final(self).dag@, r),
    {
        let ghost d = self.dag@;
        let r = LevelsPtr { marker: DagMarker::ExportFile, idx: self.dag.uparams.insert_full(ls) };
        proof {
            self.dag.lemma_fits();
            lemma_put_levels(d, ls@);
            lemma_fits_down(d, self.dag@);
            self.memo.lemma_known_grows(
                self.bytes(),
                d,
                self.dag@,
                self.nat_extension,
                self.string_extension,
            );
        }
        r
    }

    /// Interns a big natural number, where the arena keeps any.
    fn intern_bignum(&mut self, n: BigNat) -> (r: Result<BigUintPtr, ImportError>)
        requires
            old(self).wf(),
            n@ == limbs_of(limbs_value(n@)),
        ensures
            final(self).wf(),
            final(self).same_but_dag(old(self)),
            *final(final(self).dag) == *final(old(self).dag),
            final(self).dag@ == put_bignum(old(self).dag@, n@).0,
            agrees(r, put_bignum(old(self).dag@, n@).1),
            extends(old(self).dag@, final(self).dag@),
            r matches Ok(p) ==> valid_biguint(final(self).dag@, p),
    {
        let ghost d = self.dag@;
        let r = match self.dag.bignums.as_mut() {
            Some(set) => Ok(BigUintPtr { marker: DagMarker::ExportFile, idx: set.insert_full(n) }),
            None => Err(ImportError::new("bignum store disabled")),
        };
        proof {
            self.dag.lemma_fits();
            lemma_put_bignum(d, limbs_value(n@));
            lemma_fits_down(d, self.dag@);
            self.memo.lemma_known_grows(
                self.bytes(),
                d,
                self.dag@,
                self.nat_extension,
                self.string_extension,
            );
        }
        r
    }

    /// Reads back an expression of the arena.
    fn expr_at(&self, p: ExprPtr) -> (r: Expr)
        requires
            valid_expr(old(self.dag)@, p),
        ensures
            r == old(self.dag)@.exprs[p.idx as int],
    {
        *self.dag.exprs.get_index(p.idx)
    }

    // ----- building nodes -----

    fn mk_app(&mut self, fun: ExprPtr, arg: ExprPtr) -> (r: ExprPtr)
        requires
            old(self).wf(),
            valid_expr(old(self).dag@, fun),
            valid_expr(old(self).dag@, arg),
        ensures
            final(self).wf(),
            extends(old(self).dag@, final(self).dag@),
            valid_expr(final(self).dag@, r),
            (final(self).dag@, r) == put_expr(
                old(self).dag@,
                app_node(old(self).dag@, fun, arg),
            ),
            final(self).same_but_dag(old(self)),
            *final(final(self).dag) == *final(old(self).dag),
    {
        let f = self.expr_at(fun);
        let a = self.expr_at(arg);
        let num_loose_bvars = max_u32(f.num_loose_bvars(), a.num_loose_bvars());
        let has_fvars = f.has_fvars() || a.has_fvars();
        self.intern_expr(Expr::App { fun, arg, num_loose_bvars, has_fvars })
    }

    fn mk_binding(
        &mut self,
        is_pi: bool,
        name: NamePtr,
        style: BinderStyle,
        ty: ExprPtr,
        body: ExprPtr,
    ) -> (r: ExprPtr)
        requires
            old(self).wf(),
            valid_name(old(self).dag@, name),
            valid_expr(old(self).dag@, ty),
            valid_expr(old(self).dag@, body),
        ensures
            final(self).wf(),
            extends(old(self).dag@, final(self).dag@),
            valid_expr(final(self).dag@, r),
            (final(self).dag@, r) == put_expr(
                old(self).dag@,
                binding_node(old(self).dag@, is_pi, name, style, ty, body),
            ),
            final(self).same_but_dag(old(self)),
            *final(final(self).dag) == *final(old(self).dag),
    {
        let t = self.expr_at(ty);
        let b = self.expr_at(body);
        let num_loose_bvars = max_u32(t.num_loose_bvars(), b.num_loose_bvars().saturating_sub(1));
        let has_fvars = t.has_fvars() || b.has_fvars();
        let e = if is_pi {
            Expr::Pi {
                binder_name: name,
                binder_style: style,
                binder_type: ty,
                body,
                num_loose_bvars,
                has_fvars,
            }
        } else {
            Expr::Lambda {
                binder_name: name,
                binder_style: style,
                binder_type: ty,
                body,
                num_loose_bvars,
                has_fvars,
            }
        };
        self.intern_expr(e)
    }

    fn mk_let(
        &mut self,
        name: NamePtr,
        ty: ExprPtr,
        val: ExprPtr,
        body: ExprPtr,
        nondep: bool,
    ) -> (r: ExprPtr)
        requires
            old(self).wf(),
            valid_name(old(self).dag@, name),
            valid_expr(old(self).dag@, ty),
            valid_expr(old(self).dag@, val),
            valid_expr(old(self).dag@, body),
        ensures
            final(self).wf(),
            extends(old(self).dag@, final(self).dag@),
            valid_expr(final(self).dag@, r),
            (final(self).dag@, r) == put_expr(
                old(self).dag@,
                let_node(old(self).dag@, name, ty, val, body, nondep),
            ),
            final(self).same_but_dag(old(self)),
            *final(final(self).dag) == *final(old(self).dag),
    {
        let t = self.expr_at(ty);
        let v = self.expr_at(val);
        let b = self.expr_at(body);
        let num_loose_bvars = max_u32(
            t.num_loose_bvars(),
            max_u32(v.num_loose_bvars(), b.num_loose_bvars().saturating_sub(1)),
        );
        let has_fvars = t.has_fvars() || v.has_fvars() || b.has_fvars();
        self.intern_expr(
            Expr::Let {
                binder_name: name,
                binder_type: ty,
                val,
                body,
                num_loose_bvars,
                has_fvars,
                nondep,
            },
        )
    }

    fn mk_proj(&mut self, ty_name: NamePtr, idx: u64, structure: ExprPtr) -> (r: ExprPtr)
        requires
            old(self).wf(),
            valid_name(old(self).dag@, ty_name),
            valid_expr(old(self).dag@, structure),
        ensures
            final(self).wf(),
            extends(old(self).dag@, final(self).dag@),
            valid_expr(final(self).dag@, r),
            (final(self).dag@, r) == put_expr(
                old(self).dag@,
                proj_node(old(self).dag@, ty_name, idx, structure),
            ),
            final(self).same_but_dag(old(self)),
            *final(final(self).dag) == *final(old(self).dag),
    {
        let s = self.expr_at(structure);
        let num_loose_bvars = s.num_loose_bvars();
        let has_fvars = s.has_fvars();
        self.intern_expr(Expr::Proj { ty_name, idx, structure, num_loose_bvars, has_fvars })
    }

    // ----- remembering -----

    /// Notes that the object `o` was imported as `p`.
    fn remember_name(&mut self, o: LeanObj, p: NamePtr)
        requires
            old(self).wf(),
            is_name(old(self).bytes(), o),
            add_name(old(self).dag@, name_of(old(self).bytes(), o)) == (
                old(self).dag@,
                Ok::<NamePtr, Seq<char>>(p),
            ),
        ensures
            final(self).wf(),
            final(self).same_setup(old(self)),
            *final(self).dag == *old(self).dag,
            *final(final(self).dag) == *final(old(self).dag),
            final(self).memo.names@ == old(self).memo.names@.insert(o, p),
            final(self).memo.levels@ == old(self).memo.levels@,
            final(self).memo.exprs@ == old(self).memo.exprs@,
    {
        self.memo.names.insert(o, p);
        proof {
            reveal(Memo::known);
        }
    }

    /// Notes that the object `o` was imported as `p`.
    fn remember_level(&mut self, o: LeanObj, p: LevelPtr)
        requires
            old(self).wf(),
            is_level(old(self).bytes(), o),
            add_level(old(self).dag@, level_of(old(self).bytes(), o)) == (
                old(self).dag@,
                Ok::<LevelPtr, Seq<char>>(p),
            ),
        ensures
            final(self).wf(),
            final(self).same_setup(old(self)),
            *final(self).dag == *old(self).dag,
            *final(final(self).dag) == *final(old(self).dag),
            final(self).memo.levels@ == old(self).memo.levels@.insert(o, p),
            final(self).memo.names@ == old(self).memo.names@,
            final(self).memo.exprs@ == old(self).memo.exprs@,
    {
        self.memo.levels.insert(o, p);
        proof {
            reveal(Memo::known);
        }
    }

    /// Notes that the object `o` was imported as `p`.
    fn remember_expr(&mut self, o: LeanObj, p: ExprPtr)
        requires
            old(self).wf(),
            is_expr(old(self).bytes(), o),
            add_expr(
                old(self).dag@,
                old(self).nat_extension,
                old(self).string_extension,
                expr_of(old(self).bytes(), o),
            ) == (old(self).dag@, Ok::<ExprPtr, Seq<char>>(p)),
        ensures
            final(self).wf(),
            final(self).same_setup(old(self)),
            *final(self).dag == *old(self).dag,
            *final(final(self).dag) == *final(old(self).dag),
            final(self).memo.exprs@ == old(self).memo.exprs@.insert(o, p),
            final(self).memo.names@ == old(self).memo.names@,
            final(self).memo.levels@ == old(self).memo.levels@,
    {
        self.memo.exprs.insert(o, p);
        proof {
            reveal(Memo::known);
        }
    }

    // ----- walking -----

    /// Imports a name.
    pub fn import_name(&mut self, n: term::Name) -> (r: Result<NamePtr, ImportError>)
        requires
            old(self).wf(),
            is_name(old(self).bytes(), n.0),
        ensures
            final(self).wf(),
            final(self).same_setup(old(self)),
            *final(final(self).dag) == *final(old(self).dag),
            extends(old(self).dag@, final(self).dag@),
            final(self).dag@ == add_name(old(self).dag@, name_of(old(self).bytes(), n.0)).0,
            agrees(r, add_name(old(self).dag@, name_of(old(self).bytes(), n.0)).1),
            r matches Ok(p) ==> valid_name(final(self).dag@, p),
        decreases name_of(old(self).bytes(), n.0),
    {
        let ghost m = self.bytes();
        let ghost d = self.dag@;
        let ghost t = name_of(m, n.0);
        proof {
            lemma_name_parts(m, n.0);
            lemma_extends_refl(d);
            self.dag.lemma_fits();
            reveal(Memo::known);
        }
        if let Some(p) = self.memo.names.get(&n.0) {
            proof {
                lemma_name_wf(d, t);
            }
            return Ok(*p);
        }
        let out = match n.kind(self.mem) {
            NameKind::Anon => {
                proof {
                    lemma_name_wf(d, t);
                }
                self.dag.anonymous()
            },
            NameKind::Str(pre, s) => {
                let pre = match self.import_name(pre) {
                    Ok(p) => p,
                    Err(e) => return Err(e),
                };
                let ghost d1 = self.dag@;
                let sfx = self.intern_string(s);
                let ghost d2 = self.dag@;
                proof {
                    lemma_valid_extends(d1, d2);
                    lemma_extends_trans(d, d1, d2);
                }
                let r = self.intern_name(Name::Str(pre, sfx));
                proof {
                    lemma_extends_trans(d, d2, self.dag@);
                }
                r
            },
            NameKind::Num(pre, i) => {
                proof {
                    lemma_nat_parts(m, i.0);
                }
                let pre = match self.import_name(pre) {
                    Ok(p) => p,
                    Err(e) => return Err(e),
                };
                let ghost d1 = self.dag@;
                let i: u64 = match i.as_usize() {
                    Some(i) => i,
                    None => return Err(ImportError::new("bignum name component")),
                };
                let r = self.intern_name(Name::Num(pre, i));
                proof {
                    lemma_extends_trans(d, d1, self.dag@);
                }
                r
            },
        };
        proof {
            self.dag.lemma_fits();
            lemma_extends_refl(self.dag@);
            lemma_name_settles(d, t, self.dag@);
        }
        self.remember_name(n.0, out);
        Ok(out)
    }

    /// Imports a level.
    pub fn import_level(&mut self, l: term::Level) -> (r: Result<LevelPtr, ImportError>)
        requires
            old(self).wf(),
            is_level(old(self).bytes(), l.0),
        ensures
            final(self).wf(),
            final(self).same_setup(old(self)),
            *final(final(self).dag) == *final(old(self).dag),
            extends(old(self).dag@, final(self).dag@),
            final(self).dag@ == add_level(old(self).dag@, level_of(old(self).bytes(), l.0)).0,
            agrees(r, add_level(old(self).dag@, level_of(old(self).bytes(), l.0)).1),
            r matches Ok(p) ==> valid_level(final(self).dag@, p),
        decreases level_of(old(self).bytes(), l.0),
    {
        let ghost m = self.bytes();
        let ghost d = self.dag@;
        let ghost t = level_of(m, l.0);
        proof {
            lemma_level_parts(m, l.0);
            lemma_extends_refl(d);
            self.dag.lemma_fits();
            reveal(Memo::known);
        }
        if let Some(p) = self.memo.levels.get(&l.0) {
            proof {
                lemma_level_wf(d, t);
            }
            return Ok(*p);
        }
        let out = match l.kind(self.mem) {
            LevelKind::Zero => {
                proof {
                    lemma_level_wf(d, t);
                }
                self.dag.zero()
            },
            LevelKind::Succ(x) => {
                assert(t is Succ && *t->Succ_0 == level_of(m, x.0));
                assert(decreases_to!(t => t->Succ_0));
                let x = match self.import_level(x) {
                    Ok(p) => p,
                    Err(e) => return Err(e),
                };
                let ghost d1 = self.dag@;
                let r = self.intern_level(Level::Succ(x));
                proof {
                    lemma_extends_trans(d, d1, self.dag@);
                }
                r
            },
            LevelKind::Max(x, y) => {
                assert(t is Max && *t->Max_0 == level_of(m, x.0));
                assert(*t->Max_1 == level_of(m, y.0));
                assert(decreases_to!(t => t->Max_0));
                assert(decreases_to!(t => t->Max_1));
                let x = match self.import_level(x) {
                    Ok(p) => p,
                    Err(e) => return Err(e),
                };
                let ghost d1 = self.dag@;
                let y = match self.import_level(y) {
                    Ok(p) => p,
                    Err(e) => {
                        proof {
                            lemma_extends_trans(d, d1, self.dag@);
                        }
                        return Err(e);
                    },
                };
                let ghost d2 = self.dag@;
                proof {
                    lemma_valid_extends(d1, d2);
                    assert(valid_level(d2, x));
                    lemma_extends_trans(d, d1, d2);
                }
                let r = self.intern_level(Level::Max(x, y));
                proof {
                    lemma_extends_trans(d, d2, self.dag@);
                }
                r
            },
            LevelKind::IMax(x, y) => {
                assert(t is IMax && *t->IMax_0 == level_of(m, x.0));
                assert(*t->IMax_1 == level_of(m, y.0));
                assert(decreases_to!(t => t->IMax_0));
                assert(decreases_to!(t => t->IMax_1));
                let x = match self.import_level(x) {
                    Ok(p) => p,
                    Err(e) => return Err(e),
                };
                let ghost d1 = self.dag@;
                let y = match self.import_level(y) {
                    Ok(p) => p,
                    Err(e) => {
                        proof {
                            lemma_extends_trans(d, d1, self.dag@);
                        }
                        return Err(e);
                    },
                };
                let ghost d2 = self.dag@;
                proof {
                    lemma_valid_extends(d1, d2);
                    assert(valid_level(d2, x));
                    lemma_extends_trans(d, d1, d2);
                }
                let r = self.intern_level(Level::IMax(x, y));
                proof {
                    lemma_extends_trans(d, d2, self.dag@);
                }
                r
            },
            LevelKind::Param(n) => {
                let n = match self.import_name(n) {
                    Ok(p) => p,
                    Err(e) => return Err(e),
                };
                let ghost d1 = self.dag@;
                let r = self.intern_level(Level::Param(n));
                proof {
                    lemma_extends_trans(d, d1, self.dag@);
                }
                r
            },
            LevelKind::MVar(_) => return Err(
                ImportError::new("universe metavariable in declaration"),
            ),
        };
        proof {
            self.dag.lemma_fits();
            lemma_extends_refl(self.dag@);
            lemma_level_settles(d, t, self.dag@);
        }
        self.remember_level(l.0, out);
        Ok(out)
    }

    /// Imports levels one after the other, up to the first error.
    fn import_level_seq(&mut self, raw: &Vec<term::Level>) -> (r: Result<
        Vec<LevelPtr>,
        ImportError,
    >)
        requires
            old(self).wf(),
            forall|i: int|
                0 <= i < raw@.len() ==> is_level(old(self).bytes(), (#[trigger] raw@[i]).0),
        ensures
            final(self).wf(),
            final(self).same_setup(old(self)),
            *final(final(self).dag) == *final(old(self).dag),
            extends(old(self).dag@, final(self).dag@),
            ({
                let ls = Seq::new(raw@.len(), |i: int| level_of(old(self).bytes(), raw@[i].0));
                &&& final(self).dag@ == add_level_seq(old(self).dag@, ls).0
                &&& agrees_seq(r, add_level_seq(old(self).dag@, ls).1)
            }),
            r matches Ok(ps) ==> levels_ok(final(self).dag@, ps@),
    {
        let ghost m = self.bytes();
        let ghost d = self.dag@;
        let ghost ls = Seq::new(raw@.len(), |i: int| level_of(m, raw@[i].0));
        let mut out: Vec<LevelPtr> = Vec::new();
        let mut i: usize = 0;
        proof {
            lemma_extends_refl(d);
        }
        while i < raw.len()
            invariant
                i <= raw.len(),
                self.wf(),
                self.same_setup(old(self)),
                *final(self.dag) == *final(old(self).dag),
                m == self.bytes(),
                d == old(self).dag@,
                wf(d),
                extends(d, self.dag@),
                ls == Seq::new(raw@.len(), |i: int| level_of(m, raw@[i].0)),
                forall|i: int| 0 <= i < raw@.len() ==> is_level(m, (#[trigger] raw@[i]).0),
                add_level_seq(d, ls.take(i as int)) == (
                    self.dag@,
                    Ok::<Seq<LevelPtr>, Seq<char>>(out@),
                ),
            decreases raw.len() - i,
        {
            let ghost d1 = self.dag@;
            let l = raw[i];
            proof {
                assert(ls.take(i + 1).drop_last() =~= ls.take(i as int));
                assert(ls.take(i + 1).last() == level_of(m, l.0));
            }
            match self.import_level(l) {
                Ok(p) => {
                    out.push(p);
                },
                Err(e) => {
                    proof {
                        lemma_extends_trans(d, d1, self.dag@);
                        lemma_level_seq_stops(d, ls, i + 1);
                    }
                    return Err(e);
                },
            }
            proof {
                lemma_extends_trans(d, d1, self.dag@);
            }
            i = i + 1;
        }
        proof {
            assert(ls.take(i as int) =~= ls);
            self.dag.lemma_fits();
            lemma_level_seq_wf(d, ls);
        }
        Ok(out)
    }

    /// Imports a list of levels.
    pub fn import_levels(&mut self, ls: term::Levels) -> (r: Result<LevelsPtr, ImportError>)
        requires
            old(self).wf(),
            is_levels(old(self).bytes(), ls.0),
        ensures
            final(self).wf(),
            final(self).same_setup(old(self)),
            *final(final(self).dag) == *final(old(self).dag),
            extends(old(self).dag@, final(self).dag@),
            final(self).dag@ == add_levels(old(self).dag@, levels_of(old(self).bytes(), ls.0)).0,
            agrees(r, add_levels(old(self).dag@, levels_of(old(self).bytes(), ls.0)).1),
            r matches Ok(p) ==> valid_levels(final(self).dag@, p),
    {
        let ghost m = self.bytes();
        let ghost d = self.dag@;
        proof {
            lemma_levels_parts(m, ls.0);
        }
        let raw = ls.collect(self.mem);
        proof {
            assert(levels_of(m, ls.0) =~= Seq::new(raw@.len(), |i: int| level_of(m, raw@[i].0)));
            assert forall|i: int| 0 <= i < raw@.len() implies is_level(
                m,
                (#[trigger] raw@[i]).0,
            ) by {
                assert(is_level(m, list_of(m, ls.0)[i]));
            }
        }
        match self.import_level_seq(&raw) {
            Ok(out) => {
                let ghost d1 = self.dag@;
                let r = self.intern_levels(out);
                proof {
                    lemma_extends_trans(d, d1, self.dag@);
                }
                Ok(r)
            },
            Err(e) => Err(e),
        }
    }

    /// Imports the level parameter with the name `n`.
    fn import_param(&mut self, n: term::Name) -> (r: Result<LevelPtr, ImportError>)
        requires
            old(self).wf(),
            is_name(old(self).bytes(), n.0),
        ensures
            final(self).wf(),
            final(self).same_setup(old(self)),
            *final(final(self).dag) == *final(old(self).dag),
            extends(old(self).dag@, final(self).dag@),
            ({
                let t = LevelTree::Param(name_of(old(self).bytes(), n.0));
                &&& final(self).dag@ == add_level(old(self).dag@, t).0
                &&& agrees(r, add_level(old(self).dag@, t).1)
            }),
            r matches Ok(p) ==> valid_level(final(self).dag@, p),
    {
        let ghost d = self.dag@;
        let name = match self.import_name(n) {
            Ok(p) => p,
            Err(e) => return Err(e),
        };
        let ghost d1 = self.dag@;
        let r = self.intern_level(Level::Param(name));
        proof {
            lemma_extends_trans(d, d1, self.dag@);
        }
        Ok(r)
    }

    /// Imports a list of level parameters, given by their names, as a sequence
    /// of levels.
    pub fn import_uparams(&mut self, list: LeanObj) -> (r: Result<LevelsPtr, ImportError>)
        requires
            old(self).wf(),
            is_names(old(self).bytes(), list),
        ensures
            final(self).wf(),
            final(self).same_setup(old(self)),
            *final(final(self).dag) == *final(old(self).dag),
            extends(old(self).dag@, final(self).dag@),
            ({
                let ls = params_of(names_of(old(self).bytes(), list));
                &&& final(self).dag@ == add_levels(old(self).dag@, ls).0
                &&& agrees(r, add_levels(old(self).dag@, ls).1)
            }),
            r matches Ok(p) ==> valid_levels(final(self).dag@, p),
    {
        let ghost m = self.bytes();
        let ghost d = self.dag@;
        let ghost ls = params_of(names_of(m, list));
        let objs = list_objs(self.mem, list);
        let mut out: Vec<LevelPtr> = Vec::new();
        let mut i: usize = 0;
        proof {
            lemma_extends_refl(d);
        }
        while i < objs.len()
            invariant
                i <= objs.len(),
                self.wf(),
                self.same_setup(old(self)),
                *final(self.dag) == *final(old(self).dag),
                m == self.bytes(),
                d == old(self).dag@,
                wf(d),
                extends(d, self.dag@),
                is_names(m, list),
                objs@ == list_of(m, list),
                ls == params_of(names_of(m, list)),
                add_level_seq(d, ls.take(i as int)) == (
                    self.dag@,
                    Ok::<Seq<LevelPtr>, Seq<char>>(out@),
                ),
            decreases objs.len() - i,
        {
            let ghost d1 = self.dag@;
            let n = objs[i];
            proof {
                assert(ls.take(i + 1).drop_last() =~= ls.take(i as int));
                assert(ls.take(i + 1).last() == LevelTree::Param(name_of(m, n)));
            }
            match self.import_param(term::Name(n)) {
                Ok(p) => {
                    out.push(p);
                },
                Err(e) => {
                    proof {
                        lemma_extends_trans(d, d1, self.dag@);
                        lemma_level_seq_stops(d, ls, i + 1);
                    }
                    return Err(e);
                },
            }
            proof {
                lemma_extends_trans(d, d1, self.dag@);
            }
            i = i + 1;
        }
        let ghost d2 = self.dag@;
        proof {
            assert(ls.take(i as int) =~= ls);
            self.dag.lemma_fits();
            lemma_level_seq_wf(d, ls);
        }
        let r = self.intern_levels(out);
        proof {
            lemma_extends_trans(d, d2, self.dag@);
        }
        Ok(r)
    }

    /// Imports a bound variable.
    fn import_bvar(&mut self, i: term::Nat) -> (r: Result<ExprPtr, ImportError>)
        requires
            old(self).wf(),
            is_nat(old(self).bytes(), i.0),
        ensures
            final(self).wf(),
            final(self).same_setup(old(self)),
            *final(final(self).dag) == *final(old(self).dag),
            extends(old(self).dag@, final(self).dag@),
            ({
                let out = add_expr(
                    old(self).dag@,
                    old(self).nat_extension,
                    old(self).string_extension,
                    ExprTree::BVar(nat_of(old(self).bytes(), i.0)),
                );
                &&& final(self).dag@ == out.0
                &&& agrees(r, out.1)
            }),
            r matches Ok(p) ==> valid_expr(final(self).dag@, p),
    {
        let ghost m = self.bytes();
        let ghost d = self.dag@;
        proof {
            lemma_extends_refl(d);
            lemma_add_expr(
                d,
                self.nat_extension,
                self.string_extension,
                ExprTree::BVar(nat_of(m, i.0)),
            );
        }
        proof {
            lemma_nat_parts(m, i.0);
        }
        let idx: u64 = match i.as_usize() {
            Some(idx) => idx,
            None => return Err(ImportError::new("bignum bvar index")),
        };
        if idx > 0xffff {
            return Err(ImportError::new("bvar index exceeds u16"));
        }
        Ok(self.intern_expr(Expr::Var { dbj_idx: idx as u16 }))
    }

    /// Imports a sort.
    fn import_sort(&mut self, l: term::Level) -> (r: Result<ExprPtr, ImportError>)
        requires
            old(self).wf(),
            is_level(old(self).bytes(), l.0),
        ensures
            final(self).wf(),
            final(self).same_setup(old(self)),
            *final(final(self).dag) == *final(old(self).dag),
            extends(old(self).dag@, final(self).dag@),
            ({
                let out = add_expr(
                    old(self).dag@,
                    old(self).nat_extension,
                    old(self).string_extension,
                    ExprTree::Sort(level_of(old(self).bytes(), l.0)),
                );
                &&& final(self).dag@ == out.0
                &&& agrees(r, out.1)
            }),
            r matches Ok(p) ==> valid_expr(final(self).dag@, p),
    {
        let ghost m = self.bytes();
        let ghost d = self.dag@;
        proof {
            lemma_extends_refl(d);
            lemma_add_expr(
                d,
                self.nat_extension,
                self.string_extension,
                ExprTree::Sort(level_of(m, l.0)),
            );
        }
        let level = match self.import_level(l) {
            Ok(p) => p,
            Err(e) => return Err(e),
        };
        let ghost d1 = self.dag@;
        let r = self.intern_expr(Expr::Sort { level });
        proof {
            lemma_extends_trans(d, d1, self.dag@);
        }
        Ok(r)
    }

    /// Imports a constant.
    fn import_const(&mut self, n: term::Name, ls: term::Levels) -> (r: Result<ExprPtr, ImportError>)
        requires
            old(self).wf(),
            is_name(old(self).bytes(), n.0),
            is_levels(old(self).bytes(), ls.0),
        ensures
            final(self).wf(),
            final(self).same_setup(old(self)),
            *final(final(self).dag) == *final(old(self).dag),
            extends(old(self).dag@, final(self).dag@),
            ({
                let out = add_expr(
                    old(self).dag@,
                    old(self).nat_extension,
                    old(self).string_extension,
                    ExprTree::Const(
                        name_of(old(self).bytes(), n.0),
                        levels_of(old(self).bytes(), ls.0),
                    ),
                );
                &&& final(self).dag@ == out.0
                &&& agrees(r, out.1)
            }),
            r matches Ok(p) ==> valid_expr(final(self).dag@, p),
    {
        let ghost m = self.bytes();
        let ghost d = self.dag@;
        proof {
            lemma_extends_refl(d);
            lemma_add_expr(
                d,
                self.nat_extension,
                self.string_extension,
                ExprTree::Const(name_of(m, n.0), levels_of(m, ls.0)),
            );
        }
        let name = match self.import_name(n) {
            Ok(p) => p,
            Err(e) => return Err(e),
        };
        let ghost d1 = self.dag@;
        let levels = match self.import_levels(ls) {
            Ok(p) => p,
            Err(e) => {
                proof {
                    lemma_extends_trans(d, d1, self.dag@);
                }
                return Err(e);
            },
        };
        let ghost d2 = self.dag@;
        proof {
            lemma_valid_extends(d1, d2);
            lemma_extends_trans(d, d1, d2);
        }
        let r = self.intern_expr(Expr::Const { name, levels });
        proof {
            lemma_extends_trans(d, d2, self.dag@);
        }
        Ok(r)
    }

    /// Imports a natural number literal.
    fn import_nat_lit(&mut self, n: term::Nat) -> (r: Result<ExprPtr, ImportError>)
        requires
            old(self).wf(),
            is_nat(old(self).bytes(), n.0),
        ensures
            final(self).wf(),
            final(self).same_setup(old(self)),
            *final(final(self).dag) == *final(old(self).dag),
            extends(old(self).dag@, final(self).dag@),
            ({
                let out = add_expr(
                    old(self).dag@,
                    old(self).nat_extension,
                    old(self).string_extension,
                    ExprTree::NatLit(nat_of(old(self).bytes(), n.0)),
                );
                &&& final(self).dag@ == out.0
                &&& agrees(r, out.1)
            }),
            r matches Ok(p) ==> valid_expr(final(self).dag@, p),
    {
        let ghost m = self.bytes();
        let ghost d = self.dag@;
        proof {
            lemma_extends_refl(d);
            lemma_add_expr(
                d,
                self.nat_extension,
                self.string_extension,
                ExprTree::NatLit(nat_of(m, n.0)),
            );
        }
        if !self.nat_extension {
            return Err(ImportError::new("Nat literal but nat_extension disabled"));
        }
        proof {
            lemma_nat_parts(m, n.0);
            law_limbs_roundtrip(nat_value(m, n.0));
        }
        let ptr = match self.intern_bignum(nat_to_biguint(self.mem, n.0)) {
            Ok(p) => p,
            Err(e) => return Err(e),
        };
        let ghost d1 = self.dag@;
        let r = self.intern_expr(Expr::NatLit { ptr });
        proof {
            lemma_extends_trans(d, d1, self.dag@);
        }
        Ok(r)
    }

    /// Imports a string literal.
    fn import_str_lit(&mut self, s: String) -> (r: Result<ExprPtr, ImportError>)
        requires
            old(self).wf(),
        ensures
            final(self).wf(),
            final(self).same_setup(old(self)),
            *final(final(self).dag) == *final(old(self).dag),
            extends(old(self).dag@, final(self).dag@),
            ({
                let out = add_expr(
                    old(self).dag@,
                    old(self).nat_extension,
                    old(self).string_extension,
                    ExprTree::StrLit(s@),
                );
                &&& final(self).dag@ == out.0
                &&& agrees(r, out.1)
            }),
            r matches Ok(p) ==> valid_expr(final(self).dag@, p),
    {
        let ghost m = self.bytes();
        let ghost d = self.dag@;
        proof {
            lemma_extends_refl(d);
            lemma_add_expr(
                d,
                self.nat_extension,
                self.string_extension,
                ExprTree::StrLit(s@),
            );
        }
        if !self.string_extension {
            return Err(ImportError::new("String literal but string_extension disabled"));
        }
        let ptr = self.intern_string(s);
        let ghost d1 = self.dag@;
        let r = self.intern_expr(Expr::StringLit { ptr });
        proof {
            lemma_extends_trans(d, d1, self.dag@);
        }
        Ok(r)
    }

    /// Imports an application.
    fn import_app(&mut self, f: term::Term, a: term::Term) -> (r: Result<ExprPtr, ImportError>)
        requires
            old(self).wf(),
            is_expr(old(self).bytes(), f.0),
            is_expr(old(self).bytes(), a.0),
        ensures
            final(self).wf(),
            final(self).same_setup(old(self)),
            *final(final(self).dag) == *final(old(self).dag),
            extends(old(self).dag@, final(self).dag@),
            ({
                let out = add_expr(
                    old(self).dag@,
                    old(self).nat_extension,
                    old(self).string_extension,
                    ExprTree::App(
                        Box::new(expr_of(old(self).bytes(), f.0)),
                        Box::new(expr_of(old(self).bytes(), a.0)),
                    ),
                );
                &&& final(self).dag@ == out.0
                &&& agrees(r, out.1)
            }),
            r matches Ok(p) ==> valid_expr(final(self).dag@, p),
        decreases
            ExprTree::App(
                Box::new(expr_of(old(self).bytes(), f.0)),
                Box::new(expr_of(old(self).bytes(), a.0)),
            ),
            0int,
    {
        let ghost m = self.bytes();
        let ghost d = self.dag@;
        proof {
            lemma_extends_refl(d);
            lemma_add_expr(
                d,
                self.nat_extension,
                self.string_extension,
                ExprTree::App(Box::new(expr_of(m, f.0)), Box::new(expr_of(m, a.0))),
            );
        }
        let f = match self.import_expr(f) {
            Ok(p) => p,
            Err(e) => return Err(e),
        };
        let ghost d1 = self.dag@;
        let a = match self.import_expr(a) {
            Ok(p) => p,
            Err(e) => {
                proof {
                    lemma_extends_trans(d, d1, self.dag@);
                }
                return Err(e);
            },
        };
        let ghost d2 = self.dag@;
        proof {
            lemma_valid_extends(d1, d2);
            lemma_extends_trans(d, d1, d2);
        }
        let r = self.mk_app(f, a);
        proof {
            lemma_extends_trans(d, d2, self.dag@);
        }
        Ok(r)
    }

    /// Imports a lambda.
    fn import_lambda(
        &mut self,
        n: term::Name,
        bi: BinderInfo,
        ty: term::Term,
        body: term::Term,
    ) -> (r: Result<ExprPtr, ImportError>)
        requires
            old(self).wf(),
            is_name(old(self).bytes(), n.0),
            is_expr(old(self).bytes(), ty.0),
            is_expr(old(self).bytes(), body.0),
        ensures
            final(self).wf(),
            final(self).same_setup(old(self)),
            *final(final(self).dag) == *final(old(self).dag),
            extends(old(self).dag@, final(self).dag@),
            ({
                let out = add_expr(
                    old(self).dag@,
                    old(self).nat_extension,
                    old(self).string_extension,
                    ExprTree::Lambda(
                        name_of(old(self).bytes(), n.0),
                        bi,
                        Box::new(expr_of(old(self).bytes(), ty.0)),
                        Box::new(expr_of(old(self).bytes(), body.0)),
                    ),
                );
                &&& final(self).dag@ == out.0
                &&& agrees(r, out.1)
            }),
            r matches Ok(p) ==> valid_expr(final(self).dag@, p),
        decreases
            ExprTree::Lambda(
                name_of(old(self).bytes(), n.0),
                bi,
                Box::new(expr_of(old(self).bytes(), ty.0)),
                Box::new(expr_of(old(self).bytes(), body.0)),
            ),
            0int,
    {
        let ghost m = self.bytes();
        let ghost d = self.dag@;
        proof {
            lemma_extends_refl(d);
            lemma_add_expr(
                d,
                self.nat_extension,
                self.string_extension,
                ExprTree::Lambda(
                    name_of(m, n.0),
                    bi,
                    Box::new(expr_of(m, ty.0)),
                    Box::new(expr_of(m, body.0)),
                ),
            );
        }
        let name = match self.import_name(n) {
            Ok(p) => p,
            Err(e) => return Err(e),
        };
        let ghost d1 = self.dag@;
        let ty = match self.import_expr(ty) {
            Ok(p) => p,
            Err(e) => {
                proof {
                    lemma_extends_trans(d, d1, self.dag@);
                }
                return Err(e);
            },
        };
        let ghost d2 = self.dag@;
        proof {
            lemma_valid_extends(d1, d2);
            lemma_extends_trans(d, d1, d2);
        }
        let body = match self.import_expr(body) {
            Ok(p) => p,
            Err(e) => {
                proof {
                    lemma_extends_trans(d, d2, self.dag@);
                }
                return Err(e);
            },
        };
        let ghost d3 = self.dag@;
        proof {
            lemma_valid_extends(d2, d3);
            lemma_extends_trans(d, d2, d3);
        }
        let r = self.mk_binding(false, name, binder_style(bi), ty, body);
        proof {
            lemma_extends_trans(d, d3, self.dag@);
        }
        Ok(r)
    }

    /// Imports a pi.
    fn import_pi(
        &mut self,
        n: term::Name,
        bi: BinderInfo,
        ty: term::Term,
        body: term::Term,
    ) -> (r: Result<ExprPtr, ImportError>)
        requires
            old(self).wf(),
            is_name(old(self).bytes(), n.0),
            is_expr(old(self).bytes(), ty.0),
            is_expr(old(self).bytes(), body.0),
        ensures
            final(self).wf(),
            final(self).same_setup(old(self)),
            *final(final(self).dag) == *final(old(self).dag),
            extends(old(self).dag@, final(self).dag@),
            ({
                let out = add_expr(
                    old(self).dag@,
                    old(self).nat_extension,
                    old(self).string_extension,
                    ExprTree::Pi(
                        name_of(old(self).bytes(), n.0),
                        bi,
                        Box::new(expr_of(old(self).bytes(), ty.0)),
                        Box::new(expr_of(old(self).bytes(), body.0)),
                    ),
                );
                &&& final(self).dag@ == out.0
                &&& agrees(r, out.1)
            }),
            r matches Ok(p) ==> valid_expr(final(self).dag@, p),
        decreases
            ExprTree::Pi(
                name_of(old(self).bytes(), n.0),
                bi,
                Box::new(expr_of(old(self).bytes(), ty.0)),
                Box::new(expr_of(old(self).bytes(), body.0)),
            ),
            0int,
    {
        let ghost m = self.bytes();
        let ghost d = self.dag@;
        proof {
            lemma_extends_refl(d);
            lemma_add_expr(
                d,
                self.nat_extension,
                self.string_extension,
                ExprTree::Pi(
                    name_of(m, n.0),
                    bi,
                    Box::new(expr_of(m, ty.0)),
                    Box::new(expr_of(m, body.0)),
                ),
            );
        }
        let name = match self.import_name(n) {
            Ok(p) => p,
            Err(e) => return Err(e),
        };
        let ghost d1 = self.dag@;
        let ty = match self.import_expr(ty) {
            Ok(p) => p,
            Err(e) => {
                proof {
                    lemma_extends_trans(d, d1, self.dag@);
                }
                return Err(e);
            },
        };
        let ghost d2 = self.dag@;
        proof {
            lemma_valid_extends(d1, d2);
            lemma_extends_trans(d, d1, d2);
        }
        let body = match self.import_expr(body) {
            Ok(p) => p,
            Err(e) => {
                proof {
                    lemma_extends_trans(d, d2, self.dag@);
                }
                return Err(e);
            },
        };
        let ghost d3 = self.dag@;
        proof {
            lemma_valid_extends(d2, d3);
            lemma_extends_trans(d, d2, d3);
        }
        let r = self.mk_binding(true, name, binder_style(bi), ty, body);
        proof {
            lemma_extends_trans(d, d3, self.dag@);
        }
        Ok(r)
    }

    /// Imports a let.
    fn import_let(
        &mut self,
        n: term::Name,
        ty: term::Term,
        val: term::Term,
        body: term::Term,
        nondep: bool,
    ) -> (r: Result<ExprPtr, ImportError>)
        requires
            old(self).wf(),
            is_name(old(self).bytes(), n.0),
            is_expr(old(self).bytes(), ty.0),
            is_expr(old(self).bytes(), val.0),
            is_expr(old(self).bytes(), body.0),
        ensures
            final(self).wf(),
            final(self).same_setup(old(self)),
            *final(final(self).dag) == *final(old(self).dag),
            extends(old(self).dag@, final(self).dag@),
            ({
                let out = add_expr(
                    old(self).dag@,
                    old(self).nat_extension,
                    old(self).string_extension,
                    ExprTree::Let(
                        name_of(old(self).bytes(), n.0),
                        Box::new(expr_of(old(self).bytes(), ty.0)),
                        Box::new(expr_of(old(self).bytes(), val.0)),
                        Box::new(expr_of(old(self).bytes(), body.0)),
                        nondep,
                    ),
                );
                &&& final(self).dag@ == out.0
                &&& agrees(r, out.1)
            }),
            r matches Ok(p) ==> valid_expr(final(self).dag@, p),
        decreases
            ExprTree::Let(
                name_of(old(self).bytes(), n.0),
                Box::new(expr_of(old(self).bytes(), ty.0)),
                Box::new(expr_of(old(self).bytes(), val.0)),
                Box::new(expr_of(old(self).bytes(), body.0)),
                nondep,
            ),
            0int,
    {
        let ghost m = self.bytes();
        let ghost d = self.dag@;
        proof {
            lemma_extends_refl(d);
            lemma_add_expr(
                d,
                self.nat_extension,
                self.string_extension,
                ExprTree::Let(
                    name_of(m, n.0),
                    Box::new(expr_of(m, ty.0)),
                    Box::new(expr_of(m, val.0)),
                    Box::new(expr_of(m, body.0)),
                    nondep,
                ),
            );
        }
        let name = match self.import_name(n) {
            Ok(p) => p,
            Err(e) => return Err(e),
        };
        let ghost d1 = self.dag@;
        let ty = match self.import_expr(ty) {
            Ok(p) => p,
            Err(e) => {
                proof {
                    lemma_extends_trans(d, d1, self.dag@);
                }
                return Err(e);
            },
        };
        let ghost d2 = self.dag@;
        proof {
            lemma_valid_extends(d1, d2);
            lemma_extends_trans(d, d1, d2);
        }
        let val = match self.import_expr(val) {
            Ok(p) => p,
            Err(e) => {
                proof {
                    lemma_extends_trans(d, d2, self.dag@);
                }
                return Err(e);
            },
        };
        let ghost d3 = self.dag@;
        proof {
            lemma_valid_extends(d2, d3);
            lemma_extends_trans(d, d2, d3);
        }
        let body = match self.import_expr(body) {
            Ok(p) => p,
            Err(e) => {
                proof {
                    lemma_extends_trans(d, d3, self.dag@);
                }
                return Err(e);
            },
        };
        let ghost d4 = self.dag@;
        proof {
            lemma_valid_extends(d3, d4);
            lemma_extends_trans(d, d3, d4);
        }
        let r = self.mk_let(name, ty, val, body, nondep);
        proof {
            lemma_extends_trans(d, d4, self.dag@);
        }
        Ok(r)
    }

    /// Imports a projection.
    fn import_proj(
        &mut self,
        n: term::Name,
        i: term::Nat,
        structure: term::Term,
    ) -> (r: Result<ExprPtr, ImportError>)
        requires
            old(self).wf(),
            is_name(old(self).bytes(), n.0),
            is_nat(old(self).bytes(), i.0),
            is_expr(old(self).bytes(), structure.0),
        ensures
            final(self).wf(),
            final(self).same_setup(old(self)),
            *final(final(self).dag) == *final(old(self).dag),
            extends(old(self).dag@, final(self).dag@),
            ({
                let out = add_expr(
                    old(self).dag@,
                    old(self).nat_extension,
                    old(self).string_extension,
                    ExprTree::Proj(
                        name_of(old(self).bytes(), n.0),
                        nat_of(old(self).bytes(), i.0),
                        Box::new(expr_of(old(self).bytes(), structure.0)),
                    ),
                );
                &&& final(self).dag@ == out.0
                &&& agrees(r, out.1)
            }),
            r matches Ok(p) ==> valid_expr(final(self).dag@, p),
        decreases
            ExprTree::Proj(
                name_of(old(self).bytes(), n.0),
                nat_of(old(self).bytes(), i.0),
                Box::new(expr_of(old(self).bytes(), structure.0)),
            ),
            0int,
    {
        let ghost m = self.bytes();
        let ghost d = self.dag@;
        proof {
            lemma_extends_refl(d);
            lemma_add_expr(
                d,
                self.nat_extension,
                self.string_extension,
                ExprTree::Proj(name_of(m, n.0), nat_of(m, i.0), Box::new(expr_of(m, structure.0))),
            );
        }
        proof {
            lemma_nat_parts(m, i.0);
        }
        let ty_name = match self.import_name(n) {
            Ok(p) => p,
            Err(e) => return Err(e),
        };
        let ghost d1 = self.dag@;
        let idx: u64 = match i.as_usize() {
            Some(idx) => idx,
            None => return Err(ImportError::new("bignum proj index")),
        };
        let structure = match self.import_expr(structure) {
            Ok(p) => p,
            Err(e) => {
                proof {
                    lemma_extends_trans(d, d1, self.dag@);
                }
                return Err(e);
            },
        };
        let ghost d2 = self.dag@;
        proof {
            lemma_valid_extends(d1, d2);
            lemma_extends_trans(d, d1, d2);
        }
        let r = self.mk_proj(ty_name, idx, structure);
        proof {
            lemma_extends_trans(d, d2, self.dag@);
        }
        Ok(r)
    }

    /// Imports an expression.
    pub fn import_expr(&mut self, t: term::Term) -> (r: Result<ExprPtr, ImportError>)
        requires
            old(self).wf(),
            is_expr(old(self).bytes(), t.0),
        ensures
            final(self).wf(),
            final(self).same_setup(old(self)),
            *final(final(self).dag) == *final(old(self).dag),
            extends(old(self).dag@, final(self).dag@),
            ({
                let out = add_expr(
                    old(self).dag@,
                    old(self).nat_extension,
                    old(self).string_extension,
                    expr_of(old(self).bytes(), t.0),
                );
                &&& final(self).dag@ == out.0
                &&& agrees(r, out.1)
            }),
            r matches Ok(p) ==> valid_expr(final(self).dag@, p),
        decreases expr_of(old(self).bytes(), t.0), 1int,
    {
        let ghost m = self.bytes();
        let ghost d = self.dag@;
        let ghost tree = expr_of(m, t.0);
        proof {
            lemma_expr_parts(m, t.0);
            self.dag.lemma_fits();
        }
        if let Some(p) = self.memo.exprs.get(&t.0) {
            proof {
                reveal(Memo::known);
                lemma_extends_refl(d);
                lemma_expr_wf(d, self.nat_extension, self.string_extension, tree);
            }
            return Ok(*p);
        }
        let out = match t.kind(self.mem) {
            TermKind::BVar(i) => self.import_bvar(i),
            TermKind::Sort(l) => self.import_sort(l),
            TermKind::Const(n, ls) => self.import_const(n, ls),
            TermKind::App(f, a) => self.import_app(f, a),
            TermKind::Lambda(n, bi, ty, body) => self.import_lambda(n, bi, ty, body),
            TermKind::Pi(n, bi, ty, body) => self.import_pi(n, bi, ty, body),
            TermKind::Let(n, ty, val, body, nondep) => self.import_let(n, ty, val, body, nondep),
            TermKind::Lit(Lit::Nat(n)) => self.import_nat_lit(n),
            TermKind::Lit(Lit::Str(s)) => self.import_str_lit(s),
            TermKind::MData(inner) => {
                proof {
                    lemma_add_expr(d, self.nat_extension, self.string_extension, tree);
                }
                self.import_expr(inner)
            },
            TermKind::Proj(n, i, structure) => self.import_proj(n, i, structure),
            TermKind::FVar(_) | TermKind::MVar(_) => {
                proof {
                    lemma_extends_refl(d);
                    lemma_add_expr(d, self.nat_extension, self.string_extension, tree);
                }
                Err(ImportError::new("free/meta variable in closed declaration"))
            },
        };
        match out {
            Ok(p) => {
                proof {
                    self.dag.lemma_fits();
                    lemma_extends_refl(self.dag@);
                    lemma_expr_settles(
                        d,
                        self.nat_extension,
                        self.string_extension,
                        tree,
                        self.dag@,
                    );
                }
                self.remember_expr(t.0, p);
                Ok(p)
            },
            Err(e) => Err(e),
        }
    }
}

/// Whether `r` holds the pointers, or the error with the message, that `s`
/// says.
pub open spec fn agrees_seq<T>(
    r: Result<Vec<T>, ImportError>,
    s: Result<Seq<T>, Seq<char>>,
) -> bool {
    match (r, s) {
        (Ok(a), Ok(b)) => a@ == b,
        (Err(e), Err(msg)) => e.0@ == msg,
        _ => false,
    }
}

/// An import that stops in the first `n` levels does not reach the others.
proof fn lemma_level_seq_stops(d: DagModel, ls: Seq<LevelTree>, n: int)
    requires
        0 <= n <= ls.len(),
        add_level_seq(d, ls.take(n)).1 is Err,
    ensures
        add_level_seq(d, ls) == add_level_seq(d, ls.take(n)),
    decreases ls.len(),
{
    if n == ls.len() {
        assert(ls.take(n) =~= ls);
    } else {
        assert(ls.drop_last().take(n) =~= ls.take(n));
        lemma_level_seq_stops(d, ls.drop_last(), n);
    }
}

/// The larger of two numbers.
fn max_u32(a: u32, b: u32) -> (r: u32)
    ensures
        r == crate::model::max(a, b),
{
    if a >= b {
        a
    } else {
        b
    }
}

/// A result agrees with what was to come out exactly where it is that value, or
/// an error with exactly that message.
pub proof fn law_agreement<T>(
    p: T,
    ps: Vec<T>,
    err: ImportError,
    one: Result<T, Seq<char>>,
    many: Result<Seq<T>, Seq<char>>,
)
    ensures
        agrees(Ok(p), one) <==> one == Ok::<T, Seq<char>>(p),
        agrees(Err::<T, ImportError>(err), one) <==> one == Err::<T, Seq<char>>(err.0@),
        agrees_seq(Ok(ps), many) <==> many == Ok::<Seq<T>, Seq<char>>(ps@),
        agrees_seq(Err::<Vec<T>, ImportError>(err), many) <==> many == Err::<Seq<T>, Seq<char>>(
            err.0@,
        ),
{
}

} // verus!
