use sokonanoda::decode::{
    ci_expr_roots, ci_related_names, collect_consts, collect_deps, decl_expr_roots,
    decode_constant_info, decode_declaration, Decoded,
};
use sokonanoda::env::{Declar, ReducibilityHint};
use sokonanoda::expr::Expr;
use sokonanoda::importer::Importer;
use sokonanoda::lean_sys::ctor_get;
use sokonanoda::level::Level;
use sokonanoda::memory::Snapshot;
use sokonanoda::name::Name;
use sokonanoda::term::Term;
use sokonanoda::util::{LeanDag, NamePtr};

/// A heap that objects are laid out in.
struct Heap {
    data: Vec<u8>,
}

const BASE: u64 = 0x10000;

fn scalar(n: u64) -> u64 {
    2 * n + 1
}

impl Heap {
    fn new() -> Heap {
        Heap { data: Vec::new() }
    }

    fn top(&self) -> u64 {
        BASE + self.data.len() as u64
    }

    fn word(&mut self, w: u64) {
        self.data.extend_from_slice(&w.to_le_bytes());
    }

    fn header(&mut self, num_objs: u8, tag: u8) {
        self.data.extend_from_slice(&[1, 0, 0, 0, 0, 0, num_objs, tag]);
    }

    fn pad(&mut self) {
        while self.data.len() % 8 != 0 {
            self.data.push(0);
        }
    }

    fn ctor(&mut self, tag: u8, objs: &[u64], scalars: &[u8]) -> u64 {
        let o = self.top();
        self.header(objs.len() as u8, tag);
        for x in objs {
            self.word(*x);
        }
        self.data.extend_from_slice(scalars);
        self.pad();
        o
    }

    fn string(&mut self, s: &str) -> u64 {
        let o = self.top();
        self.header(0, 249);
        self.word(s.len() as u64 + 1);
        self.word(s.len() as u64 + 1);
        self.word(s.chars().count() as u64);
        self.data.extend_from_slice(s.as_bytes());
        self.data.push(0);
        self.pad();
        o
    }

    fn mpz(&mut self, size: i32, limbs: &[u64]) -> u64 {
        let at = self.top();
        for l in limbs {
            self.word(*l);
        }
        let o = self.top();
        self.header(0, 250);
        self.data.extend_from_slice(&(limbs.len() as i32).to_le_bytes());
        self.data.extend_from_slice(&size.to_le_bytes());
        self.word(at);
        o
    }

    fn name(&mut self, parts: &[&str]) -> u64 {
        let mut n = scalar(0);
        for p in parts {
            let s = self.string(p);
            n = self.ctor(1, &[n, s], &[0; 8]);
        }
        n
    }

    fn list(&mut self, items: &[u64]) -> u64 {
        let mut l = scalar(0);
        for x in items.iter().rev() {
            l = self.ctor(1, &[*x, l], &[]);
        }
        l
    }
}

impl Heap {
    #[allow(dead_code)]
    fn bvar(&mut self, i: u64) -> u64 {
        self.ctor(0, &[scalar(i)], &[0; 8])
    }

    fn sort(&mut self, l: u64) -> u64 {
        self.ctor(3, &[l], &[0; 8])
    }

    fn constant(&mut self, parts: &[&str], levels: &[u64]) -> u64 {
        let n = self.name(parts);
        let ls = self.list(levels);
        self.ctor(4, &[n, ls], &[0; 8])
    }

    fn app(&mut self, f: u64, a: u64) -> u64 {
        self.ctor(5, &[f, a], &[0; 8])
    }

    fn lam(&mut self, n: u64, bi: u8, ty: u64, body: u64) -> u64 {
        self.ctor(6, &[n, ty, body], &[0, 0, 0, 0, 0, 0, 0, 0, bi])
    }

    fn pi(&mut self, n: u64, bi: u8, ty: u64, body: u64) -> u64 {
        self.ctor(7, &[n, ty, body], &[0, 0, 0, 0, 0, 0, 0, 0, bi])
    }

    fn let_(&mut self, n: u64, ty: u64, val: u64, body: u64, nondep: u8) -> u64 {
        self.ctor(8, &[n, ty, val, body], &[0, 0, 0, 0, 0, 0, 0, 0, nondep])
    }

    fn nat_lit(&mut self, n: u64) -> u64 {
        let lit = self.ctor(0, &[n], &[]);
        self.ctor(9, &[lit], &[0; 8])
    }

    fn str_lit(&mut self, s: &str) -> u64 {
        let s = self.string(s);
        let lit = self.ctor(1, &[s], &[]);
        self.ctor(9, &[lit], &[0; 8])
    }

    fn mdata(&mut self, e: u64) -> u64 {
        self.ctor(10, &[scalar(0), e], &[0; 8])
    }

    fn proj(&mut self, n: u64, i: u64, e: u64) -> u64 {
        self.ctor(11, &[n, i, e], &[0; 8])
    }

    fn param(&mut self, s: &str) -> u64 {
        let n = self.name(&[s]);
        self.ctor(4, &[n], &[0; 8])
    }

    fn snapshot(&self) -> Snapshot {
        Snapshot { base: BASE, data: self.data.clone() }
    }
}

/// What all constants have: a name, level parameters, a type.
fn cv(h: &mut Heap, name: &str, params: &[&str], ty: u64) -> u64 {
    let n = h.name(&[name]);
    let ps: Vec<u64> = params.iter().map(|p| h.name(&[p])).collect();
    let ps = h.list(&ps);
    h.ctor(0, &[n, ps, ty], &[])
}

fn decode(dag: &mut LeanDag, h: &Heap, ci: u64) -> Result<Declar, String> {
    let mem = h.snapshot();
    let mut imp = Importer::new(&mem, dag, true, true);
    decode_constant_info(&mut imp, ci).map_err(|e| e.0)
}

fn shown(dag: &LeanDag, p: NamePtr) -> String {
    match *dag.names.get_index(p.idx) {
        Name::Anon => String::new(),
        Name::Str(q, s) => format!("{}.{}", shown(dag, q), dag.strings.get_index(s.idx)),
        Name::Num(q, n) => format!("{}.{}", shown(dag, q), n),
    }
}

#[test]
fn axioms_and_quotients_are_decoded() {
    let mut h = Heap::new();
    let ty = h.sort(scalar(0));
    let c = cv(&mut h, "ax", &["u", "v"], ty);
    let v = h.ctor(0, &[c], &[0]);
    let ax = h.ctor(0, &[v], &[]);
    let quot = h.ctor(4, &[v], &[]);
    let mut dag = LeanDag::new(true);
    let info = match decode(&mut dag, &h, ax) {
        Ok(Declar::Axiom { info }) => info,
        _ => panic!("not an axiom"),
    };
    assert_eq!(shown(&dag, info.name), ".ax");
    assert!(matches!(*dag.exprs.get_index(info.ty.idx), Expr::Sort { .. }));
    let params = dag.uparams.get_index(info.uparams.idx).clone();
    assert_eq!(params.len(), 2);
    let mut names = Vec::new();
    for p in params {
        match *dag.levels.get_index(p.idx) {
            Level::Param(n) => names.push(shown(&dag, n)),
            _ => panic!("not a level parameter"),
        }
    }
    assert_eq!(names, vec![".u".to_string(), ".v".to_string()]);
    assert!(matches!(decode(&mut dag, &h, quot), Ok(Declar::Quot { info: i }) if i == info));
}

#[test]
fn definitions_carry_their_hint() {
    let mut h = Heap::new();
    let ty = h.sort(scalar(0));
    let val = h.constant(&["c"], &[]);
    let c = cv(&mut h, "d", &[], ty);
    let regular = h.ctor(2, &[], &300u32.to_le_bytes());
    let tall = h.ctor(2, &[], &70000u32.to_le_bytes());
    let cases = vec![
        (scalar(0), ReducibilityHint::Opaque),
        (scalar(1), ReducibilityHint::Abbrev),
        (regular, ReducibilityHint::Regular(300)),
        (tall, ReducibilityHint::Regular(0xffff)),
    ];
    let mut dag = LeanDag::new(true);
    for (hint, expected) in cases {
        let v = h.ctor(0, &[c, val, hint], &[0]);
        let ci = h.ctor(1, &[v], &[]);
        match decode(&mut dag, &h, ci) {
            Ok(Declar::Definition { val, hint, .. }) => {
                assert_eq!(hint, expected);
                assert!(matches!(*dag.exprs.get_index(val.idx), Expr::Const { .. }));
            }
            _ => panic!("not a definition"),
        }
    }
}

#[test]
fn theorems_and_opaques_are_decoded() {
    let mut h = Heap::new();
    let ty = h.sort(scalar(0));
    let val = h.constant(&["c"], &[]);
    let c = cv(&mut h, "t", &[], ty);
    let v = h.ctor(0, &[c, val], &[0]);
    let thm = h.ctor(2, &[v], &[]);
    let opaque = h.ctor(3, &[v], &[]);
    let mut dag = LeanDag::new(true);
    let (i, x) = match decode(&mut dag, &h, thm) {
        Ok(Declar::Theorem { info, val }) => (info, val),
        _ => panic!("not a theorem"),
    };
    assert!(matches!(decode(&mut dag, &h, opaque), Ok(Declar::Opaque { info, val }) if info == i && val == x));
}

fn inductive(h: &mut Heap, c: u64, nested: u64, params: u64, is_rec: u8) -> u64 {
    let a = h.name(&["A"]);
    let b = h.name(&["B"]);
    let k = h.name(&["A", "mk"]);
    let all = h.list(&[a, b]);
    let ctors = h.list(&[k]);
    let v = h.ctor(0, &[c, params, scalar(1), all, ctors, nested], &[is_rec, 0, 0]);
    h.ctor(5, &[v], &[])
}

#[test]
fn inductive_types_are_decoded() {
    let mut h = Heap::new();
    let ty = h.sort(scalar(0));
    let c = cv(&mut h, "A", &[], ty);
    let big = h.mpz(1, &[1 << 63]);
    let plain = inductive(&mut h, c, scalar(0), scalar(2), 0);
    let nested = inductive(&mut h, c, scalar(1), scalar(2), 1);
    let huge = inductive(&mut h, c, big, scalar(2), 1);
    let mut dag = LeanDag::new(true);
    match decode(&mut dag, &h, plain) {
        Ok(Declar::Inductive(x)) => {
            assert_eq!((x.num_params, x.num_indices), (2, 1));
            assert!(!x.is_recursive && !x.is_nested);
            let all: Vec<String> = x.all_ind_names.iter().map(|n| shown(&dag, *n)).collect();
            assert_eq!(all, vec![".A".to_string(), ".B".to_string()]);
            let ctors: Vec<String> = x.all_ctor_names.iter().map(|n| shown(&dag, *n)).collect();
            assert_eq!(ctors, vec![".A.mk".to_string()]);
        }
        _ => panic!("not an inductive type"),
    }
    assert!(matches!(decode(&mut dag, &h, nested), Ok(Declar::Inductive(x)) if x.is_recursive && x.is_nested));
    assert!(matches!(decode(&mut dag, &h, huge), Ok(Declar::Inductive(x)) if x.is_nested));
}

#[test]
fn fields_that_are_not_small_are_refused() {
    let mut h = Heap::new();
    let ty = h.sort(scalar(0));
    let c = cv(&mut h, "A", &[], ty);
    let big = h.mpz(1, &[1 << 63]);
    let wide = inductive(&mut h, c, scalar(0), scalar(0x10000), 0);
    let huge = inductive(&mut h, c, scalar(0), big, 0);
    let edge = inductive(&mut h, c, scalar(0), scalar(0xffff), 0);
    let mut dag = LeanDag::new(true);
    assert_eq!(decode(&mut dag, &h, wide).unwrap_err(), "Nat field exceeds u16");
    assert_eq!(decode(&mut dag, &h, huge).unwrap_err(), "bignum where small Nat field expected");
    assert!(matches!(decode(&mut dag, &h, edge), Ok(Declar::Inductive(x)) if x.num_params == 0xffff));
}

#[test]
fn constructors_are_decoded() {
    let mut h = Heap::new();
    let ty = h.sort(scalar(0));
    let c = cv(&mut h, "mk", &[], ty);
    let a = h.name(&["A"]);
    let v = h.ctor(0, &[c, a, scalar(1), scalar(2), scalar(3)], &[0]);
    let ci = h.ctor(6, &[v], &[]);
    let mut dag = LeanDag::new(true);
    match decode(&mut dag, &h, ci) {
        Ok(Declar::Constructor(x)) => {
            assert_eq!(shown(&dag, x.inductive_name), ".A");
            assert_eq!((x.ctor_idx, x.num_params, x.num_fields), (1, 2, 3));
        }
        _ => panic!("not a constructor"),
    }
}

fn recursor(h: &mut Heap, k: u8) -> (u64, u64, u64, Vec<u64>) {
    let ty = h.sort(scalar(0));
    let c = cv(h, "rec", &["u"], ty);
    let a = h.name(&["A"]);
    let all = h.list(&[a]);
    let (k0, k1) = (h.name(&["A", "zero"]), h.name(&["A", "succ"]));
    let (r0, r1) = (h.constant(&["x"], &[]), h.constant(&["y"], &[]));
    let rule0 = h.ctor(0, &[k0, scalar(0), r0], &[]);
    let rule1 = h.ctor(0, &[k1, scalar(4), r1], &[]);
    let rules = h.list(&[rule0, rule1]);
    let v = h.ctor(0, &[c, all, scalar(1), scalar(2), scalar(3), scalar(4), rules], &[k, 0]);
    (h.ctor(7, &[v], &[]), ty, a, vec![k0, k1, r0, r1])
}

#[test]
fn recursors_are_decoded() {
    let mut h = Heap::new();
    let (ci, _, _, _) = recursor(&mut h, 1);
    let mut dag = LeanDag::new(true);
    match decode(&mut dag, &h, ci) {
        Ok(Declar::Recursor(x)) => {
            assert_eq!((x.num_params, x.num_indices, x.num_motives, x.num_minors), (1, 2, 3, 4));
            assert!(x.is_k);
            assert_eq!(x.all_inductives.len(), 1);
            assert_eq!(x.rec_rules.len(), 2);
            assert_eq!(shown(&dag, x.rec_rules[0].ctor_name), ".A.zero");
            assert_eq!(x.rec_rules[1].ctor_telescope_size_wo_params, 4);
            assert!(matches!(*dag.exprs.get_index(x.rec_rules[1].val.idx),
                Expr::Const { name, .. } if shown(&dag, name) == ".y"));
        }
        _ => panic!("not a recursor"),
    }
}

#[test]
fn unknown_constant_infos_are_refused() {
    let mut h = Heap::new();
    let ci = h.ctor(8, &[scalar(0)], &[]);
    let odd = h.ctor(137, &[scalar(0)], &[]);
    let mut dag = LeanDag::new(true);
    assert_eq!(decode(&mut dag, &h, ci).unwrap_err(), "unknown ConstantInfo tag 8");
    assert_eq!(decode(&mut dag, &h, odd).unwrap_err(), "unknown ConstantInfo tag 137");
}

#[test]
fn declarations_are_checked_or_delegated() {
    let mut h = Heap::new();
    let ty = h.sort(scalar(0));
    let val = h.constant(&["c"], &[]);
    let c = cv(&mut h, "d", &[], ty);
    let v = h.ctor(0, &[c, val, scalar(1)], &[0]);
    let decls: Vec<u64> = (0u8..7).map(|t| h.ctor(t, &[v], &[])).collect();
    let mem = h.snapshot();
    let mut dag = LeanDag::new(true);
    let mut imp = Importer::new(&mem, &mut dag, true, true);
    for t in 4..7 {
        assert!(matches!(decode_declaration(&mut imp, decls[t]), Ok(Decoded::Delegate)));
    }
    assert!(matches!(decode_declaration(&mut imp, scalar(4)), Ok(Decoded::Delegate)));
    assert_eq!(imp.dag.exprs.len(), 0);
    assert!(matches!(decode_declaration(&mut imp, decls[0]), Ok(Decoded::Check(Declar::Axiom { .. }))));
    assert!(matches!(decode_declaration(&mut imp, decls[1]),
        Ok(Decoded::Check(Declar::Definition { hint: ReducibilityHint::Abbrev, .. }))));
    assert!(matches!(decode_declaration(&mut imp, decls[2]), Ok(Decoded::Check(Declar::Theorem { .. }))));
    assert!(matches!(decode_declaration(&mut imp, decls[3]), Ok(Decoded::Check(Declar::Opaque { .. }))));
}

#[test]
fn errors_below_a_declaration_come_through() {
    let mut h = Heap::new();
    let n = h.name(&["x"]);
    let fvar = h.ctor(1, &[n], &[0; 8]);
    let c = cv(&mut h, "bad", &[], fvar);
    let v = h.ctor(0, &[c], &[0]);
    let decl = h.ctor(0, &[v], &[]);
    let mem = h.snapshot();
    let mut dag = LeanDag::new(true);
    let mut imp = Importer::new(&mem, &mut dag, true, true);
    let e = decode_declaration(&mut imp, decl).unwrap_err();
    assert_eq!(e.0, "free/meta variable in closed declaration");
}

#[test]
fn constants_are_collected_once_per_object() {
    let mut h = Heap::new();
    let a = h.constant(&["a"], &[]);
    let b = h.constant(&["b"], &[]);
    let a2 = h.constant(&["a"], &[]);
    let x = h.name(&["x"]);
    let s = h.name(&["S"]);
    let f = h.app(a, b);
    let g = h.lam(x, 0, f, a2);
    let p = h.proj(s, scalar(0), g);
    let md = h.mdata(p);
    let l = h.let_(x, f, md, b, 0);
    let mem = h.snapshot();
    let name_of = |c: u64| ctor_get(&mem, c, 0);
    let mut out = vec![7u64];
    collect_consts(&mem, &[f, l], &mut out);
    assert_eq!(out, vec![7, name_of(b), name_of(a2), name_of(a)]);
    let mut deps = Vec::new();
    collect_deps(&mem, &[f, l], &mut deps);
    assert_eq!(deps, vec![name_of(b), s, name_of(a2), name_of(a)]);
    let mut none = Vec::new();
    collect_consts(&mem, &[], &mut none);
    assert_eq!(none, Vec::<u64>::new());
}

#[test]
fn walks_take_the_last_part_first() {
    let mut h = Heap::new();
    let a = h.constant(&["a"], &[]);
    let b = h.constant(&["b"], &[]);
    let c = h.constant(&["c"], &[]);
    let f = h.app(a, b);
    let g = h.pi(scalar(0), 0, f, c);
    let mem = h.snapshot();
    let name_of = |c: u64| ctor_get(&mem, c, 0);
    let mut out = Vec::new();
    collect_consts(&mem, &[g], &mut out);
    assert_eq!(out, vec![name_of(c), name_of(b), name_of(a)]);
}

#[test]
fn roots_are_types_values_and_right_hand_sides() {
    let mut h = Heap::new();
    let ty = h.sort(scalar(0));
    let val = h.constant(&["c"], &[]);
    let c = cv(&mut h, "d", &[], ty);
    let v = h.ctor(0, &[c, val, scalar(1)], &[0]);
    let ax = h.ctor(0, &[v], &[]);
    let def = h.ctor(1, &[v], &[]);
    let thm = h.ctor(2, &[v], &[]);
    let opaque = h.ctor(3, &[v], &[]);
    let (rec, rec_ty, _, parts) = recursor(&mut h, 0);
    let mem = h.snapshot();
    assert_eq!(decl_expr_roots(&mem, ax), vec![ty]);
    for d in [def, thm, opaque] {
        assert_eq!(decl_expr_roots(&mem, d), vec![ty, val]);
        assert_eq!(ci_expr_roots(&mem, d), vec![ty, val]);
    }
    assert_eq!(ci_expr_roots(&mem, ax), vec![ty]);
    assert_eq!(ci_expr_roots(&mem, rec), vec![rec_ty, parts[2], parts[3]]);
}

#[test]
fn related_constants_are_named() {
    let mut h = Heap::new();
    let (rec, ty, a, parts) = recursor(&mut h, 0);
    let c = cv(&mut h, "k", &[], ty);
    let v = h.ctor(0, &[c, a, scalar(0), scalar(0), scalar(0)], &[0]);
    let ctor = h.ctor(6, &[v], &[]);
    let all = h.list(&[a]);
    let ctors = h.list(&[parts[0], parts[1]]);
    let iv = h.ctor(0, &[c, scalar(0), scalar(0), all, ctors, scalar(0)], &[0, 0, 0]);
    let ind = h.ctor(5, &[iv], &[]);
    let av = h.ctor(0, &[c], &[0]);
    let ax = h.ctor(0, &[av], &[]);
    let mem = h.snapshot();
    assert_eq!(ci_related_names(&mem, rec), vec![a, parts[0], parts[1]]);
    assert_eq!(ci_related_names(&mem, ctor), vec![a]);
    assert_eq!(ci_related_names(&mem, ind), vec![a, parts[0], parts[1]]);
    assert_eq!(ci_related_names(&mem, ax), Vec::<u64>::new());
}

#[test]
fn roots_are_complete() {
    let mut h = Heap::new();
    let ty = h.sort(scalar(0));
    let val = h.constant(&["c"], &[]);
    let c = cv(&mut h, "d", &[], ty);
    let v = h.ctor(0, &[c, val, scalar(1)], &[0]);
    let thm = h.ctor(2, &[v], &[]);
    let (rec, _, _, _) = recursor(&mut h, 0);
    let mem = h.snapshot();
    let mut dag = LeanDag::new(true);
    for ci in [thm, rec] {
        let mut imp = Importer::new(&mem, &mut dag, true, true);
        let held: Vec<usize> = match decode_constant_info(&mut imp, ci) {
            Ok(Declar::Theorem { info, val }) => vec![info.ty.idx, val.idx],
            Ok(Declar::Recursor(x)) => {
                let mut ps = vec![x.info.ty.idx];
                for r in x.rec_rules {
                    ps.push(r.val.idx);
                }
                ps
            }
            _ => panic!("of another kind"),
        };
        let size = imp.dag.exprs.len();
        let mut got = Vec::new();
        for root in ci_expr_roots(&mem, ci) {
            got.push(imp.import_expr(Term(root)).unwrap().idx);
        }
        assert_eq!(got, held);
        assert_eq!(imp.dag.exprs.len(), size);
    }
}
