use num_bigint::BigUint;
use sokonanoda::big::BigNat;
use sokonanoda::lean_sys::{
    ctor_get, ctor_get_uint32, ctor_get_uint64, ctor_get_uint8, ctor_num_objs, is_scalar,
    nat_as_usize, nat_to_biguint, ptr_tag, string_bytes, string_str, unbox,
};
use sokonanoda::memory::Snapshot;
use sokonanoda::term::{
    list_objs, BinderInfo, Level, LevelKind, Levels, Lit, Name, NameKind, Nat, Term, TermKind,
};

/// A heap that objects are laid out in.
struct Heap {
    data: Vec<u8>,
}

const BASE: u64 = 0x10000;

fn scalar(n: u64) -> u64 {
    2 * n + 1
}

impl Heap {
    fn new() -> Heap {
        Heap { data: Vec::new() }
    }

    fn top(&self) -> u64 {
        BASE + self.data.len() as u64
    }

    fn word(&mut self, w: u64) {
        self.data.extend_from_slice(&w.to_le_bytes());
    }

    fn header(&mut self, num_objs: u8, tag: u8) {
        self.data.extend_from_slice(&[1, 0, 0, 0, 0, 0, num_objs, tag]);
    }

    fn pad(&mut self) {
        while self.data.len() % 8 != 0 {
            self.data.push(0);
        }
    }

    fn ctor(&mut self, tag: u8, objs: &[u64], scalars: &[u8]) -> u64 {
        let o = self.top();
        self.header(objs.len() as u8, tag);
        for x in objs {
            self.word(*x);
        }
        self.data.extend_from_slice(scalars);
        self.pad();
        o
    }

    fn string(&mut self, s: &str) -> u64 {
        let o = self.top();
        self.header(0, 249);
        self.word(s.len() as u64 + 1);
        self.word(s.len() as u64 + 1);
        self.word(s.chars().count() as u64);
        self.data.extend_from_slice(s.as_bytes());
        self.data.push(0);
        self.pad();
        o
    }

    fn mpz(&mut self, size: i32, limbs: &[u64]) -> u64 {
        let at = self.top();
        for l in limbs {
            self.word(*l);
        }
        let o = self.top();
        self.header(0, 250);
        self.data.extend_from_slice(&(limbs.len() as i32).to_le_bytes());
        self.data.extend_from_slice(&size.to_le_bytes());
        self.word(at);
        o
    }

    fn name(&mut self, parts: &[&str]) -> u64 {
        let mut n = scalar(0);
        for p in parts {
            let s = self.string(p);
            n = self.ctor(1, &[n, s], &[0; 8]);
        }
        n
    }

    fn list(&mut self, items: &[u64]) -> u64 {
        let mut l = scalar(0);
        for x in items.iter().rev() {
            l = self.ctor(1, &[*x, l], &[]);
        }
        l
    }
}

impl Heap {
    fn bvar(&mut self, i: u64) -> u64 {
        self.ctor(0, &[scalar(i)], &[0; 8])
    }

    fn sort(&mut self, l: u64) -> u64 {
        self.ctor(3, &[l], &[0; 8])
    }

    fn constant(&mut self, parts: &[&str], levels: &[u64]) -> u64 {
        let n = self.name(parts);
        let ls = self.list(levels);
        self.ctor(4, &[n, ls], &[0; 8])
    }

    fn app(&mut self, f: u64, a: u64) -> u64 {
        self.ctor(5, &[f, a], &[0; 8])
    }

    fn lam(&mut self, n: u64, bi: u8, ty: u64, body: u64) -> u64 {
        self.ctor(6, &[n, ty, body], &[0, 0, 0, 0, 0, 0, 0, 0, bi])
    }

    fn pi(&mut self, n: u64, bi: u8, ty: u64, body: u64) -> u64 {
        self.ctor(7, &[n, ty, body], &[0, 0, 0, 0, 0, 0, 0, 0, bi])
    }

    fn let_(&mut self, n: u64, ty: u64, val: u64, body: u64, nondep: u8) -> u64 {
        self.ctor(8, &[n, ty, val, body], &[0, 0, 0, 0, 0, 0, 0, 0, nondep])
    }

    fn nat_lit(&mut self, n: u64) -> u64 {
        let lit = self.ctor(0, &[n], &[]);
        self.ctor(9, &[lit], &[0; 8])
    }

    fn str_lit(&mut self, s: &str) -> u64 {
        let s = self.string(s);
        let lit = self.ctor(1, &[s], &[]);
        self.ctor(9, &[lit], &[0; 8])
    }

    fn mdata(&mut self, e: u64) -> u64 {
        self.ctor(10, &[scalar(0), e], &[0; 8])
    }

    fn proj(&mut self, n: u64, i: u64, e: u64) -> u64 {
        self.ctor(11, &[n, i, e], &[0; 8])
    }

    fn param(&mut self, s: &str) -> u64 {
        let n = self.name(&[s]);
        self.ctor(4, &[n], &[0; 8])
    }

    fn snapshot(&self) -> Snapshot {
        Snapshot { base: BASE, data: self.data.clone() }
    }
}

#[test]
fn scalars_carry_their_value() {
    assert!(is_scalar(1));
    assert!(is_scalar(scalar(41)));
    assert!(!is_scalar(BASE));
    assert_eq!(unbox(1), 0);
    assert_eq!(unbox(scalar(41)), 41);
    assert_eq!(unbox(u64::MAX), u64::MAX / 2);
}

#[test]
fn constructor_fields_are_read() {
    let mut h = Heap::new();
    let o = h.ctor(5, &[scalar(1), scalar(2)], &[7, 0, 0, 0, 0x78, 0x56, 0x34, 0x12, 1, 2, 3, 4, 5, 6, 7, 8]);
    let mem = Snapshot { base: BASE, data: h.data.clone() };
    assert_eq!(ptr_tag(&mem, o), 5);
    assert_eq!(ctor_num_objs(&mem, o), 2);
    assert_eq!(ctor_get(&mem, o, 0), scalar(1));
    assert_eq!(ctor_get(&mem, o, 1), scalar(2));
    assert_eq!(ctor_get_uint8(&mem, o, 16), 7);
    assert_eq!(ctor_get_uint32(&mem, o, 20), 0x12345678);
    assert_eq!(ctor_get_uint64(&mem, o, 24), 0x0807060504030201);
}

#[test]
fn strings_are_read_without_their_nul() {
    let mut h = Heap::new();
    let o = h.string("añb");
    let e = h.string("");
    let zero = h.top();
    h.header(0, 249);
    h.word(0);
    let mem = Snapshot { base: BASE, data: h.data.clone() };
    assert_eq!(string_bytes(&mem, o), "añb".as_bytes().to_vec());
    assert_eq!(string_str(&mem, o), "añb".to_string());
    assert_eq!(string_str(&mem, e), String::new());
    assert_eq!(string_bytes(&mem, zero), Vec::<u8>::new());
}

#[test]
fn small_naturals_are_scalars() {
    let mut h = Heap::new();
    let big = h.mpz(1, &[1 << 63]);
    assert_eq!(nat_as_usize(scalar(12)), Some(12));
    assert_eq!(nat_as_usize(big), None);
    assert_eq!(Nat(scalar(12)).as_usize(), Some(12));
    assert_eq!(Nat(big).as_usize(), None);
}

#[test]
fn naturals_of_any_size_are_decoded() {
    let mut h = Heap::new();
    let two = h.mpz(2, &[5, 9]);
    let negative = h.mpz(-2, &[5, 9]);
    let padded = h.mpz(3, &[5, 9, 0]);
    let none = h.mpz(0, &[]);
    let mem = Snapshot { base: BASE, data: h.data.clone() };
    let expected = BigUint::from(9u64) * BigUint::from(2u64).pow(64) + BigUint::from(5u64);
    assert_eq!(nat_to_biguint(&mem, two).limbs, expected.to_u64_digits());
    assert_eq!(nat_to_biguint(&mem, two).limbs, vec![5u64, 9]);
    assert_eq!(nat_to_biguint(&mem, negative).limbs, vec![5u64, 9]);
    assert_eq!(nat_to_biguint(&mem, padded).limbs, vec![5u64, 9]);
    assert_eq!(nat_to_biguint(&mem, none).limbs, Vec::<u64>::new());
    assert_eq!(nat_to_biguint(&mem, scalar(77)).limbs, vec![77u64]);
    assert_eq!(nat_to_biguint(&mem, scalar(0)).limbs, Vec::<u64>::new());
}

#[test]
fn words_make_up_a_number() {
    assert_eq!(BigNat::from_u64(0).limbs, Vec::<u64>::new());
    assert_eq!(BigNat::from_u64(3).limbs, vec![3u64]);
    assert_eq!(BigNat::from_words_le(&vec![0, 0, 7, 0]).limbs, vec![0u64, 0, 7]);
}

#[test]
fn names_are_decoded() {
    let mut h = Heap::new();
    let foo = h.name(&["Foo"]);
    let num = h.ctor(2, &[foo, scalar(3)], &[0; 8]);
    let mem = Snapshot { base: BASE, data: h.data.clone() };
    assert!(matches!(Name(scalar(0)).kind(&mem), NameKind::Anon));
    match Name(foo).kind(&mem) {
        NameKind::Str(pre, s) => {
            assert_eq!(pre.0, scalar(0));
            assert_eq!(s, "Foo".to_string());
        }
        _ => panic!("not a string name"),
    }
    match Name(num).kind(&mem) {
        NameKind::Num(pre, n) => {
            assert_eq!(pre.0, foo);
            assert_eq!(n.as_usize(), Some(3));
        }
        _ => panic!("not a numeric name"),
    }
}

#[test]
fn levels_are_decoded() {
    let mut h = Heap::new();
    let u = h.name(&["u"]);
    let mvar = h.ctor(5, &[u], &[0; 8]);
    let param = h.ctor(4, &[u], &[0; 8]);
    let succ = h.ctor(1, &[param], &[0; 8]);
    let max = h.ctor(2, &[succ, scalar(0)], &[0; 8]);
    let imax = h.ctor(3, &[scalar(0), succ], &[0; 8]);
    let mem = Snapshot { base: BASE, data: h.data.clone() };
    assert!(matches!(Level(scalar(0)).kind(&mem), LevelKind::Zero));
    assert!(matches!(Level(succ).kind(&mem), LevelKind::Succ(a) if a.0 == param));
    assert!(matches!(Level(max).kind(&mem), LevelKind::Max(a, b) if a.0 == succ && b.0 == scalar(0)));
    assert!(matches!(Level(imax).kind(&mem), LevelKind::IMax(a, b) if a.0 == scalar(0) && b.0 == succ));
    assert!(matches!(Level(param).kind(&mem), LevelKind::Param(n) if n.0 == u));
    assert!(matches!(Level(mvar).kind(&mem), LevelKind::MVar(n) if n.0 == u));
}

#[test]
fn lists_are_collected_in_order() {
    let mut h = Heap::new();
    let a = h.ctor(1, &[scalar(0)], &[0; 8]);
    let b = h.ctor(1, &[a], &[0; 8]);
    let l = h.list(&[a, b, a]);
    let mem = Snapshot { base: BASE, data: h.data.clone() };
    assert_eq!(list_objs(&mem, l), vec![a, b, a]);
    assert_eq!(list_objs(&mem, scalar(0)), Vec::<u64>::new());
    let levels: Vec<u64> = Levels(l).collect(&mem).iter().map(|x| x.0).collect();
    assert_eq!(levels, vec![a, b, a]);
}

#[test]
fn binder_annotations_are_decoded() {
    assert_eq!(BinderInfo::from_u8(0), BinderInfo::Default);
    assert_eq!(BinderInfo::from_u8(1), BinderInfo::Implicit);
    assert_eq!(BinderInfo::from_u8(2), BinderInfo::StrictImplicit);
    assert_eq!(BinderInfo::from_u8(3), BinderInfo::InstImplicit);
    assert_eq!(BinderInfo::from_u8(200), BinderInfo::InstImplicit);
}

#[test]
fn expressions_are_decoded() {
    let mut h = Heap::new();
    let n = h.name(&["x"]);
    let zero = h.sort(scalar(0));
    let v = h.bvar(4);
    let c = h.constant(&["Nat", "succ"], &[scalar(0)]);
    let f = h.app(c, v);
    let lam = h.lam(n, 1, zero, v);
    let pi = h.pi(n, 2, zero, v);
    let let_ = h.let_(n, zero, c, v, 1);
    let dep = h.let_(n, zero, c, v, 0);
    let nat = h.nat_lit(scalar(9));
    let text = h.str_lit("hi");
    let md = h.mdata(f);
    let proj = h.proj(n, scalar(2), v);
    let fvar = h.ctor(1, &[n], &[0; 8]);
    let mvar = h.ctor(2, &[n], &[0; 8]);
    let mem = h.snapshot();
    assert!(matches!(Term(v).kind(&mem), TermKind::BVar(i) if i.as_usize() == Some(4)));
    assert!(matches!(Term(fvar).kind(&mem), TermKind::FVar(k) if k.0 == n));
    assert!(matches!(Term(mvar).kind(&mem), TermKind::MVar(k) if k.0 == n));
    assert!(matches!(Term(zero).kind(&mem), TermKind::Sort(l) if l.0 == scalar(0)));
    match Term(c).kind(&mem) {
        TermKind::Const(k, ls) => {
            assert!(matches!(k.kind(&mem), NameKind::Str(_, s) if s == "succ"));
            assert_eq!(ls.collect(&mem).len(), 1);
        }
        _ => panic!("not a constant"),
    }
    assert!(matches!(Term(f).kind(&mem), TermKind::App(a, b) if a.0 == c && b.0 == v));
    assert!(matches!(Term(lam).kind(&mem),
        TermKind::Lambda(k, BinderInfo::Implicit, t, b) if k.0 == n && t.0 == zero && b.0 == v));
    assert!(matches!(Term(pi).kind(&mem),
        TermKind::Pi(k, BinderInfo::StrictImplicit, t, b) if k.0 == n && t.0 == zero && b.0 == v));
    assert!(matches!(Term(let_).kind(&mem),
        TermKind::Let(k, t, x, b, true) if k.0 == n && t.0 == zero && x.0 == c && b.0 == v));
    assert!(matches!(Term(dep).kind(&mem), TermKind::Let(_, _, _, _, false)));
    assert!(matches!(Term(nat).kind(&mem), TermKind::Lit(Lit::Nat(k)) if k.as_usize() == Some(9)));
    assert!(matches!(Term(text).kind(&mem), TermKind::Lit(Lit::Str(s)) if s == "hi"));
    assert!(matches!(Term(md).kind(&mem), TermKind::MData(e) if e.0 == f));
    assert!(matches!(Term(proj).kind(&mem),
        TermKind::Proj(k, i, e) if k.0 == n && i.as_usize() == Some(2) && e.0 == v));
}
