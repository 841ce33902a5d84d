use sokonanoda::lean_sys::{
    expr_bvar, expr_forall, expr_lam, expr_let, expr_lit_nat, expr_sort, level_succ, level_zero,
    list_cons, list_nil, mk_name, mk_string, name_anon, name_mk_num, name_mk_str, nat_to_biguint,
    string_bytes,
};
use sokonanoda::memory::Snapshot;
use sokonanoda::plan::{Build, Fn1, Fn2, Fn3, Fn4};
use sokonanoda::term::{BinderInfo, Levels, Name, NameKind, Term, TermKind};

/// A heap that objects are laid out in.
struct Heap {
    data: Vec<u8>,
}

const BASE: u64 = 0x10000;

fn scalar(n: u64) -> u64 {
    2 * n + 1
}

impl Heap {
    fn new() -> Heap {
        Heap { data: Vec::new() }
    }

    fn top(&self) -> u64 {
        BASE + self.data.len() as u64
    }

    fn word(&mut self, w: u64) {
        self.data.extend_from_slice(&w.to_le_bytes());
    }

    fn header(&mut self, num_objs: u8, tag: u8) {
        self.data.extend_from_slice(&[1, 0, 0, 0, 0, 0, num_objs, tag]);
    }

    fn pad(&mut self) {
        while self.data.len() % 8 != 0 {
            self.data.push(0);
        }
    }

    fn ctor(&mut self, tag: u8, objs: &[u64], scalars: &[u8]) -> u64 {
        let o = self.top();
        self.header(objs.len() as u8, tag);
        for x in objs {
            self.word(*x);
        }
        self.data.extend_from_slice(scalars);
        self.pad();
        o
    }

    fn string(&mut self, s: &str) -> u64 {
        let o = self.top();
        self.header(0, 249);
        self.word(s.len() as u64 + 1);
        self.word(s.len() as u64 + 1);
        self.word(s.chars().count() as u64);
        self.data.extend_from_slice(s.as_bytes());
        self.data.push(0);
        self.pad();
        o
    }

    fn mpz(&mut self, size: i32, limbs: &[u64]) -> u64 {
        let at = self.top();
        for l in limbs {
            self.word(*l);
        }
        let o = self.top();
        self.header(0, 250);
        self.data.extend_from_slice(&(limbs.len() as i32).to_le_bytes());
        self.data.extend_from_slice(&size.to_le_bytes());
        self.word(at);
        o
    }

    fn name(&mut self, parts: &[&str]) -> u64 {
        let mut n = scalar(0);
        for p in parts {
            let s = self.string(p);
            n = self.ctor(1, &[n, s], &[0; 8]);
        }
        n
    }
}

impl Heap {
    /// Lays out the object that `b` describes.
    fn carry_out(&mut self, b: &Build) -> u64 {
        match b {
            Build::Object(o) => *o,
            Build::Str(s) => self.string(s),
            Build::Nat(s) => {
                let n: u64 = s.parse().unwrap();
                self.mpz(1, &[n])
            }
            Build::Call1(f, a) => {
                let a = self.carry_out(a);
                match f {
                    Fn1::LevelZero => scalar(0),
                    Fn1::LevelSucc => self.ctor(1, &[a], &[0; 8]),
                    Fn1::LevelParam => self.ctor(4, &[a], &[0; 8]),
                    Fn1::ExprBVar => self.ctor(0, &[a], &[0; 8]),
                    Fn1::ExprFVar => self.ctor(1, &[a], &[0; 8]),
                    Fn1::ExprSort => self.ctor(3, &[a], &[0; 8]),
                    Fn1::ExprLit => self.ctor(9, &[a], &[0; 8]),
                    Fn1::Ctor(tag) => self.ctor(*tag as u8, &[a], &[]),
                }
            }
            Build::Call2(f, a, b) => {
                let a = self.carry_out(a);
                let b = self.carry_out(b);
                let tag = match f {
                    Fn2::NameStr => 1,
                    Fn2::NameNum => 2,
                    Fn2::LevelMax => 2,
                    Fn2::LevelIMax => 3,
                    Fn2::ExprConst => 4,
                    Fn2::ExprApp => 5,
                    Fn2::Ctor(tag) => *tag as u8,
                };
                self.ctor(tag, &[a, b], &[0; 8])
            }
            Build::Call3(f, a, b, c) => {
                let parts = [self.carry_out(a), self.carry_out(b), self.carry_out(c)];
                match f {
                    Fn3::ExprLambda(bi) => self.ctor(6, &parts, &[0, 0, 0, 0, 0, 0, 0, 0, *bi]),
                    Fn3::ExprForall(bi) => self.ctor(7, &parts, &[0, 0, 0, 0, 0, 0, 0, 0, *bi]),
                    Fn3::ExprProj => self.ctor(11, &parts, &[0; 8]),
                }
            }
            Build::Call4(Fn4::ExprLet(nondep), a, b, c, d) => {
                let parts =
                    [self.carry_out(a), self.carry_out(b), self.carry_out(c), self.carry_out(d)];
                self.ctor(8, &parts, &[0, 0, 0, 0, 0, 0, 0, 0, *nondep])
            }
        }
    }

    fn snapshot(&self) -> Snapshot {
        Snapshot { base: BASE, data: self.data.clone() }
    }
}

#[test]
fn built_binders_hold_the_given_objects() {
    let mut h = Heap::new();
    let n = h.name(&["x"]);
    let t = h.carry_out(&expr_sort(level_zero()));
    let v = h.carry_out(&expr_lit_nat("7"));
    let b = h.carry_out(&expr_bvar(0));
    let (on, ot, ov, ob) =
        (|| Build::Object(n), || Build::Object(t), || Build::Object(v), || Build::Object(b));
    for bi in 0u8..4 {
        let x = h.carry_out(&expr_lam(on(), ot(), ob(), bi));
        let y = h.carry_out(&expr_forall(on(), ot(), ob(), bi));
        let mem = h.snapshot();
        let info = BinderInfo::from_u8(bi);
        assert!(matches!(Term(x).kind(&mem), TermKind::Lambda(p, i, q, r)
            if p.0 == n && i == info && q.0 == t && r.0 == b));
        assert!(matches!(Term(y).kind(&mem), TermKind::Pi(p, i, q, r)
            if p.0 == n && i == info && q.0 == t && r.0 == b));
    }
    for nondep in [false, true] {
        let z = h.carry_out(&expr_let(on(), ot(), ov(), ob(), nondep));
        let mem = h.snapshot();
        assert!(matches!(Term(z).kind(&mem), TermKind::Let(p, q, r, s, d)
            if p.0 == n && q.0 == t && r.0 == v && s.0 == b && d == nondep));
    }
}

#[test]
fn built_names_hold_the_given_prefix() {
    let mut h = Heap::new();
    let p = h.carry_out(&mk_name(&["a", "b"]));
    let anon = h.carry_out(&name_anon());
    let x = h.carry_out(&name_mk_str(Build::Object(p), "c"));
    let nul = h.carry_out(&name_mk_str(Build::Object(p), "c\u{0}d"));
    let y = h.carry_out(&name_mk_num(Build::Object(p), 9));
    let z = h.carry_out(&name_mk_num(Build::Object(p), u64::MAX));
    let mem = h.snapshot();
    assert!(matches!(Name(anon).kind(&mem), NameKind::Anon));
    assert!(matches!(Name(x).kind(&mem), NameKind::Str(q, s) if q.0 == p && s == "c"));
    assert!(matches!(Name(nul).kind(&mem), NameKind::Str(q, s) if q.0 == p && s == "c\u{0}d"));
    match Name(y).kind(&mem) {
        NameKind::Num(q, n) => {
            assert_eq!(q.0, p);
            assert_eq!(nat_to_biguint(&mem, n.0).limbs, vec![9u64]);
        }
        _ => panic!("not a numeric name"),
    }
    match Name(z).kind(&mem) {
        NameKind::Num(q, n) => {
            assert_eq!(q.0, p);
            assert_eq!(nat_to_biguint(&mem, n.0).limbs, vec![u64::MAX]);
        }
        _ => panic!("not a numeric name"),
    }
}

#[test]
fn built_strings_hold_their_bytes() {
    let mut h = Heap::new();
    let s = h.carry_out(&mk_string("a\u{0}b"));
    let mem = h.snapshot();
    assert_eq!(string_bytes(&mem, s), vec![97u8, 0, 98]);
}

#[test]
fn built_lists_hold_the_given_objects() {
    let mut h = Heap::new();
    let a = h.carry_out(&level_succ(level_zero()));
    let b = h.carry_out(&level_succ(Build::Object(a)));
    let l = list_cons(
        Build::Object(a),
        list_cons(Build::Object(b), list_cons(Build::Object(a), list_nil())),
    );
    let o = h.carry_out(&l);
    let nil = h.carry_out(&list_nil());
    let mem = h.snapshot();
    let got: Vec<u64> = Levels(o).collect(&mem).iter().map(|x| x.0).collect();
    assert_eq!(got, vec![a, b, a]);
    assert_eq!(Levels(nil).collect(&mem).len(), 0);
}
