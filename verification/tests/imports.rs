use sokonanoda::expr::{BinderStyle, Expr};
use sokonanoda::importer::{binder_style, Importer};
use sokonanoda::level::Level;
use sokonanoda::memory::Snapshot;
use sokonanoda::name::Name;
use sokonanoda::term::{BinderInfo, Level as TLevel, Levels, Name as TName, Term};
use sokonanoda::util::{ExprPtr, InternSet, LeanDag};

/// A heap that objects are laid out in.
struct Heap {
    data: Vec<u8>,
}

const BASE: u64 = 0x10000;

fn scalar(n: u64) -> u64 {
    2 * n + 1
}

impl Heap {
    fn new() -> Heap {
        Heap { data: Vec::new() }
    }

    fn top(&self) -> u64 {
        BASE + self.data.len() as u64
    }

    fn word(&mut self, w: u64) {
        self.data.extend_from_slice(&w.to_le_bytes());
    }

    fn header(&mut self, num_objs: u8, tag: u8) {
        self.data.extend_from_slice(&[1, 0, 0, 0, 0, 0, num_objs, tag]);
    }

    fn pad(&mut self) {
        while self.data.len() % 8 != 0 {
            self.data.push(0);
        }
    }

    fn ctor(&mut self, tag: u8, objs: &[u64], scalars: &[u8]) -> u64 {
        let o = self.top();
        self.header(objs.len() as u8, tag);
        for x in objs {
            self.word(*x);
        }
        self.data.extend_from_slice(scalars);
        self.pad();
        o
    }

    fn string(&mut self, s: &str) -> u64 {
        let o = self.top();
        self.header(0, 249);
        self.word(s.len() as u64 + 1);
        self.word(s.len() as u64 + 1);
        self.word(s.chars().count() as u64);
        self.data.extend_from_slice(s.as_bytes());
        self.data.push(0);
        self.pad();
        o
    }

    fn mpz(&mut self, size: i32, limbs: &[u64]) -> u64 {
        let at = self.top();
        for l in limbs {
            self.word(*l);
        }
        let o = self.top();
        self.header(0, 250);
        self.data.extend_from_slice(&(limbs.len() as i32).to_le_bytes());
        self.data.extend_from_slice(&size.to_le_bytes());
        self.word(at);
        o
    }

    fn name(&mut self, parts: &[&str]) -> u64 {
        let mut n = scalar(0);
        for p in parts {
            let s = self.string(p);
            n = self.ctor(1, &[n, s], &[0; 8]);
        }
        n
    }

    fn list(&mut self, items: &[u64]) -> u64 {
        let mut l = scalar(0);
        for x in items.iter().rev() {
            l = self.ctor(1, &[*x, l], &[]);
        }
        l
    }
}

impl Heap {
    fn bvar(&mut self, i: u64) -> u64 {
        self.ctor(0, &[scalar(i)], &[0; 8])
    }

    fn sort(&mut self, l: u64) -> u64 {
        self.ctor(3, &[l], &[0; 8])
    }

    fn constant(&mut self, parts: &[&str], levels: &[u64]) -> u64 {
        let n = self.name(parts);
        let ls = self.list(levels);
        self.ctor(4, &[n, ls], &[0; 8])
    }

    fn app(&mut self, f: u64, a: u64) -> u64 {
        self.ctor(5, &[f, a], &[0; 8])
    }

    fn lam(&mut self, n: u64, bi: u8, ty: u64, body: u64) -> u64 {
        self.ctor(6, &[n, ty, body], &[0, 0, 0, 0, 0, 0, 0, 0, bi])
    }

    fn pi(&mut self, n: u64, bi: u8, ty: u64, body: u64) -> u64 {
        self.ctor(7, &[n, ty, body], &[0, 0, 0, 0, 0, 0, 0, 0, bi])
    }

    fn let_(&mut self, n: u64, ty: u64, val: u64, body: u64, nondep: u8) -> u64 {
        self.ctor(8, &[n, ty, val, body], &[0, 0, 0, 0, 0, 0, 0, 0, nondep])
    }

    fn nat_lit(&mut self, n: u64) -> u64 {
        let lit = self.ctor(0, &[n], &[]);
        self.ctor(9, &[lit], &[0; 8])
    }

    fn str_lit(&mut self, s: &str) -> u64 {
        let s = self.string(s);
        let lit = self.ctor(1, &[s], &[]);
        self.ctor(9, &[lit], &[0; 8])
    }

    fn mdata(&mut self, e: u64) -> u64 {
        self.ctor(10, &[scalar(0), e], &[0; 8])
    }

    fn proj(&mut self, n: u64, i: u64, e: u64) -> u64 {
        self.ctor(11, &[n, i, e], &[0; 8])
    }

    fn param(&mut self, s: &str) -> u64 {
        let n = self.name(&[s]);
        self.ctor(4, &[n], &[0; 8])
    }

    fn snapshot(&self) -> Snapshot {
        Snapshot { base: BASE, data: self.data.clone() }
    }
}

fn fail(dag: &mut LeanDag, mem: &Snapshot, e: u64) -> String {
    match Importer::new(mem, dag, true, true).import_expr(Term(e)) {
        Ok(_) => panic!("imported"),
        Err(e) => e.0,
    }
}

#[test]
fn a_new_arena_holds_the_anonymous_name_and_zero() {
    let dag = LeanDag::new(true);
    assert_eq!(dag.names.len(), 1);
    assert_eq!(dag.levels.len(), 1);
    assert_eq!(dag.exprs.len(), 0);
    assert_eq!(*dag.names.get_index(0), Name::Anon);
    assert_eq!(*dag.levels.get_index(0), Level::Zero);
    assert_eq!(dag.anonymous().idx, 0);
    assert_eq!(dag.zero().idx, 0);
    assert!(dag.bignums.is_some());
    assert!(LeanDag::new(false).bignums.is_none());
}

#[test]
fn sets_keep_one_copy_in_order() {
    let mut set: InternSet<String> = InternSet::new();
    assert_eq!(set.insert_full("a".to_string()), 0);
    assert_eq!(set.insert_full("b".to_string()), 1);
    assert_eq!(set.insert_full("a".to_string()), 0);
    assert_eq!(set.len(), 2);
    assert_eq!(set.get_index_of(&"b".to_string()), Some(1));
    assert_eq!(set.get_index_of(&"c".to_string()), None);
    assert_eq!(set.get_index(1), "b");
}

#[test]
fn names_are_imported_part_by_part() {
    let mut h = Heap::new();
    let ab = h.name(&["a", "b"]);
    let num = h.ctor(2, &[ab, scalar(7)], &[0; 8]);
    let mem = h.snapshot();
    let mut dag = LeanDag::new(true);
    let mut imp = Importer::new(&mem, &mut dag, true, true);
    let anon = imp.import_name(TName(scalar(0))).unwrap();
    let p = imp.import_name(TName(num)).unwrap();
    assert_eq!(anon.idx, 0);
    assert_eq!(p.idx, 3);
    let q = match *dag.names.get_index(p.idx) {
        Name::Num(q, 7) => q,
        _ => panic!("not a numeric name"),
    };
    match *dag.names.get_index(q.idx) {
        Name::Str(r, s) => {
            assert_eq!(r.idx, 1);
            assert_eq!(dag.strings.get_index(s.idx), "b");
        }
        _ => panic!("not a string name"),
    }
}

#[test]
fn big_name_components_are_refused() {
    let mut h = Heap::new();
    let big = h.mpz(1, &[1 << 63]);
    let n = h.ctor(2, &[scalar(0), big], &[0; 8]);
    let mem = h.snapshot();
    let mut dag = LeanDag::new(true);
    let e = Importer::new(&mem, &mut dag, true, true).import_name(TName(n)).unwrap_err();
    assert_eq!(e.0, "bignum name component");
    assert_eq!(e.message(), "external checker import error: bignum name component");
}

#[test]
fn levels_are_imported() {
    let mut h = Heap::new();
    let u = h.param("u");
    let s = h.ctor(1, &[u], &[0; 8]);
    let max = h.ctor(2, &[s, u], &[0; 8]);
    let imax = h.ctor(3, &[max, scalar(0)], &[0; 8]);
    let n = h.name(&["m"]);
    let mvar = h.ctor(5, &[n], &[0; 8]);
    let mem = h.snapshot();
    let mut dag = LeanDag::new(true);
    let mut imp = Importer::new(&mem, &mut dag, true, true);
    let p = imp.import_level(TLevel(imax)).unwrap();
    assert_eq!(imp.import_level(TLevel(scalar(0))).unwrap().idx, 0);
    let e = imp.import_level(TLevel(mvar)).unwrap_err();
    assert_eq!(e.0, "universe metavariable in declaration");
    match *dag.levels.get_index(p.idx) {
        Level::IMax(a, b) => {
            assert_eq!(b.idx, 0);
            assert!(matches!(*dag.levels.get_index(a.idx), Level::Max(x, y) if x.idx == 2 && y.idx == 1));
        }
        _ => panic!("not an imax"),
    }
    assert!(matches!(*dag.levels.get_index(1), Level::Param(_)));
    assert!(matches!(*dag.levels.get_index(2), Level::Succ(x) if x.idx == 1));
}

#[test]
fn expressions_are_imported_with_their_loose_variables() {
    let mut h = Heap::new();
    let x = h.name(&["x"]);
    let ty = h.sort(scalar(0));
    let v0 = h.bvar(0);
    let v3 = h.bvar(3);
    let body = h.app(v0, v3);
    let lam = h.lam(x, 1, ty, body);
    let pi = h.pi(x, 3, ty, v0);
    let l = h.let_(x, ty, v3, v0, 1);
    let pr = h.proj(x, scalar(5), v3);
    let mem = h.snapshot();
    let mut dag = LeanDag::new(true);
    let mut imp = Importer::new(&mem, &mut dag, true, true);
    let body = imp.import_expr(Term(body)).unwrap();
    let lam = imp.import_expr(Term(lam)).unwrap();
    let pi = imp.import_expr(Term(pi)).unwrap();
    let l = imp.import_expr(Term(l)).unwrap();
    let pr = imp.import_expr(Term(pr)).unwrap();
    let at = |p: ExprPtr| *dag.exprs.get_index(p.idx);
    assert_eq!(at(body).num_loose_bvars(), 4);
    assert_eq!(at(lam).num_loose_bvars(), 3);
    assert_eq!(at(pi).num_loose_bvars(), 0);
    assert_eq!(at(l).num_loose_bvars(), 4);
    assert_eq!(at(pr).num_loose_bvars(), 4);
    assert!(!at(lam).has_fvars());
    assert!(matches!(at(lam), Expr::Lambda { binder_style: BinderStyle::Implicit, body: b, .. } if b == body));
    assert!(matches!(at(pi), Expr::Pi { binder_style: BinderStyle::InstanceImplicit, .. }));
    assert!(matches!(at(l), Expr::Let { nondep: true, .. }));
    assert!(matches!(at(pr), Expr::Proj { idx: 5, .. }));
}

#[test]
fn the_largest_variable_index_counts_one_more_binder() {
    let mut h = Heap::new();
    let v = h.bvar(0xffff);
    let mem = h.snapshot();
    let mut dag = LeanDag::new(true);
    let p = Importer::new(&mem, &mut dag, true, true).import_expr(Term(v)).unwrap();
    assert_eq!(dag.exprs.get_index(p.idx).num_loose_bvars(), 0x10000);
}

#[test]
fn shared_and_repeated_terms_get_one_pointer() {
    let mut h = Heap::new();
    let c1 = h.constant(&["Nat"], &[]);
    let c2 = h.constant(&["Nat"], &[]);
    let f = h.app(c1, c1);
    let g = h.app(c1, c2);
    let md = h.mdata(g);
    let other = h.app(f, c1);
    let mem = h.snapshot();
    let mut dag = LeanDag::new(true);
    let mut imp = Importer::new(&mem, &mut dag, true, true);
    let p = imp.import_expr(Term(f)).unwrap();
    let size = imp.dag.exprs.len();
    assert_eq!(size, 2);
    assert_eq!(imp.import_expr(Term(f)).unwrap(), p);
    assert_eq!(imp.import_expr(Term(g)).unwrap(), p);
    assert_eq!(imp.import_expr(Term(md)).unwrap(), p);
    assert_eq!(imp.dag.exprs.len(), size);
    assert_ne!(imp.import_expr(Term(other)).unwrap(), p);
    let again = Importer::new(&mem, &mut dag, true, true).import_expr(Term(md)).unwrap();
    assert_eq!(again, p);
    assert_eq!(dag.exprs.len(), size + 1);
}

#[test]
fn what_was_imported_stays_while_the_arena_grows() {
    let mut h = Heap::new();
    let c = h.constant(&["A"], &[]);
    let d = h.constant(&["B"], &[scalar(0)]);
    let f = h.app(d, c);
    let mem = h.snapshot();
    let mut dag = LeanDag::new(true);
    let p = Importer::new(&mem, &mut dag, true, true).import_expr(Term(c)).unwrap();
    let before = *dag.exprs.get_index(p.idx);
    Importer::new(&mem, &mut dag, true, true).import_expr(Term(f)).unwrap();
    assert_eq!(*dag.exprs.get_index(p.idx), before);
}

#[test]
fn literals_small_and_big_are_imported() {
    let mut h = Heap::new();
    let small = h.nat_lit(scalar(42));
    let forty_two = h.mpz(1, &[42]);
    let stored = h.nat_lit(forty_two);
    let huge = h.mpz(2, &[3, 4]);
    let big = h.nat_lit(huge);
    let zero = h.nat_lit(scalar(0));
    let text = h.str_lit("hé");
    let mem = h.snapshot();
    let mut dag = LeanDag::new(true);
    let mut imp = Importer::new(&mem, &mut dag, true, true);
    let p = imp.import_expr(Term(small)).unwrap();
    assert_eq!(imp.import_expr(Term(stored)).unwrap(), p);
    let q = imp.import_expr(Term(big)).unwrap();
    let z = imp.import_expr(Term(zero)).unwrap();
    let t = imp.import_expr(Term(text)).unwrap();
    let limbs = |p: ExprPtr| match *dag.exprs.get_index(p.idx) {
        Expr::NatLit { ptr } => dag.bignums.as_ref().unwrap().get_index(ptr.idx).limbs.clone(),
        _ => panic!("not a natural number literal"),
    };
    assert_eq!(limbs(p), vec![42u64]);
    assert_eq!(limbs(q), vec![3u64, 4]);
    assert_eq!(limbs(z), Vec::<u64>::new());
    match *dag.exprs.get_index(t.idx) {
        Expr::StringLit { ptr } => assert_eq!(dag.strings.get_index(ptr.idx), "hé"),
        _ => panic!("not a string literal"),
    }
}

#[test]
fn literals_of_a_disabled_kind_are_refused() {
    let mut h = Heap::new();
    let n = h.nat_lit(scalar(1));
    let s = h.str_lit("s");
    let mem = h.snapshot();
    let mut dag = LeanDag::new(true);
    let e = Importer::new(&mem, &mut dag, false, true).import_expr(Term(n)).unwrap_err();
    assert_eq!(e.0, "Nat literal but nat_extension disabled");
    let e = Importer::new(&mem, &mut dag, true, false).import_expr(Term(s)).unwrap_err();
    assert_eq!(e.0, "String literal but string_extension disabled");
    let mut bare = LeanDag::new(false);
    assert_eq!(fail(&mut bare, &mem, n), "bignum store disabled");
    assert!(Importer::new(&mem, &mut bare, true, true).import_expr(Term(s)).is_ok());
}

#[test]
fn unsupported_nodes_are_refused() {
    let mut h = Heap::new();
    let n = h.name(&["x"]);
    let big = h.mpz(1, &[1 << 63]);
    let c = h.constant(&["A"], &[]);
    let far = h.bvar(0x10000);
    let huge = h.ctor(0, &[big], &[0; 8]);
    let proj = h.proj(n, big, c);
    let fvar = h.ctor(1, &[n], &[0; 8]);
    let mvar = h.ctor(2, &[n], &[0; 8]);
    let deep = h.app(c, fvar);
    let mem = h.snapshot();
    let mut dag = LeanDag::new(true);
    assert_eq!(fail(&mut dag, &mem, far), "bvar index exceeds u16");
    assert_eq!(fail(&mut dag, &mem, huge), "bignum bvar index");
    assert_eq!(fail(&mut dag, &mem, proj), "bignum proj index");
    assert_eq!(fail(&mut dag, &mem, fvar), "free/meta variable in closed declaration");
    assert_eq!(fail(&mut dag, &mem, mvar), "free/meta variable in closed declaration");
    assert_eq!(dag.exprs.len(), 0);
    assert_eq!(fail(&mut dag, &mem, deep), "free/meta variable in closed declaration");
    assert_eq!(dag.exprs.len(), 1);
}

#[test]
fn level_lists_are_imported_in_order() {
    let mut h = Heap::new();
    let u = h.param("u");
    let v = h.param("v");
    let ls = h.list(&[v, u, v]);
    let un = h.name(&["u"]);
    let vn = h.name(&["v"]);
    let names = h.list(&[vn, un, vn]);
    let mem = h.snapshot();
    let mut dag = LeanDag::new(true);
    let mut imp = Importer::new(&mem, &mut dag, true, true);
    let p = imp.import_levels(Levels(ls)).unwrap();
    let q = imp.import_uparams(names).unwrap();
    let empty = imp.import_levels(Levels(scalar(0))).unwrap();
    assert_eq!(p, q);
    assert_ne!(p, empty);
    let size = imp.dag.uparams.len();
    let mut later = Importer::new(&mem, &mut dag, true, true);
    assert_eq!(later.import_levels(Levels(ls)).unwrap(), p);
    assert_eq!(dag.uparams.len(), size);
    let got = dag.uparams.get_index(p.idx);
    assert_eq!(got.len(), 3);
    assert_eq!(got[0], got[2]);
    assert_ne!(got[0], got[1]);
    assert!(matches!(*dag.levels.get_index(got[1].idx), Level::Param(_)));
    assert_eq!(dag.uparams.get_index(empty.idx).len(), 0);
}

#[test]
fn binder_styles_follow_annotations() {
    assert_eq!(binder_style(BinderInfo::Default), BinderStyle::Default);
    assert_eq!(binder_style(BinderInfo::Implicit), BinderStyle::Implicit);
    assert_eq!(binder_style(BinderInfo::StrictImplicit), BinderStyle::StrictImplicit);
    assert_eq!(binder_style(BinderInfo::InstImplicit), BinderStyle::InstanceImplicit);
}
