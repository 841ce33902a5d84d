use sokonanoda::extck::{populate, reply, Filled, Reply, ABI_VERSION, REJECTED};
use sokonanoda::kernel_err::{KernelErr, SendObj};
use sokonanoda::lean_sys::{
    expr_app, expr_bvar, expr_const, expr_forall, expr_fvar, expr_lam, expr_let, expr_lit_nat,
    expr_lit_str, expr_proj, expr_sort, is_scalar, level_imax, level_max, level_param, level_succ,
    level_zero, list_cons, list_nil, mk_name, mk_nat, mk_nat_str, mk_string, name_anon,
    name_mk_num, name_mk_str, unbox,
};
use sokonanoda::plan::Build;
use sokonanoda::text::{decimal, hex};

fn shown(b: Build) -> String {
    format!("{:?}", b)
}

#[test]
fn numbers_are_written_out() {
    assert_eq!(decimal(0), "0");
    assert_eq!(decimal(1234567890), "1234567890");
    assert_eq!(decimal(u64::MAX), "18446744073709551615");
    assert_eq!(hex(0), "0x0");
    assert_eq!(hex(0xdeadbeef), "0xdeadbeef");
}

#[test]
fn small_numbers_are_boxed() {
    for n in [0u64, 1, 41, u64::MAX >> 1] {
        match mk_nat(n) {
            Build::Object(o) => {
                assert!(is_scalar(o));
                assert_eq!(unbox(o), n);
            }
            _ => panic!("not boxed"),
        }
    }
}

#[test]
fn big_numbers_go_through_their_decimal() {
    assert_eq!(shown(mk_nat(1 << 63)), "Nat(\"9223372036854775808\")");
    assert_eq!(shown(mk_nat(u64::MAX)), "Nat(\"18446744073709551615\")");
    assert_eq!(shown(mk_nat_str("123")), "Nat(\"123\")");
    assert_eq!(shown(mk_nat_str("1\u{0}2")), "Nat(\"\")");
}

#[test]
fn strings_are_built_whole() {
    assert_eq!(shown(mk_string("añb")), "Str(\"añb\")");
    assert_eq!(shown(mk_string("")), "Str(\"\")");
    assert_eq!(shown(mk_string("a\u{0}b")), "Str(\"a\\0b\")");
    match mk_string("a\u{0}b") {
        Build::Str(s) => assert_eq!(s.as_bytes().to_vec(), vec![97u8, 0, 98]),
        _ => panic!("not a string"),
    }
}

#[test]
fn names_are_built_part_by_part() {
    assert_eq!(shown(mk_name(&[])), "Object(1)");
    assert_eq!(shown(name_anon()), "Object(1)");
    assert_eq!(
        shown(mk_name(&["String", "ofList"])),
        "Call2(NameStr, Call2(NameStr, Object(1), Str(\"String\")), Str(\"ofList\"))"
    );
    assert_eq!(shown(name_mk_str(name_anon(), "a")), "Call2(NameStr, Object(1), Str(\"a\"))");
    assert_eq!(shown(name_mk_num(name_anon(), 3)), "Call2(NameNum, Object(1), Object(7))");
}

#[test]
fn expressions_are_built() {
    let n = || Build::Object(8);
    let t = || Build::Object(16);
    let b = || Build::Object(24);
    let v = || Build::Object(32);
    assert_eq!(shown(expr_bvar(2)), "Call1(ExprBVar, Object(5))");
    assert_eq!(shown(expr_fvar(n())), "Call1(ExprFVar, Call1(Ctor(0), Object(8)))");
    assert_eq!(shown(expr_sort(t())), "Call1(ExprSort, Object(16))");
    assert_eq!(shown(expr_const(n(), t())), "Call2(ExprConst, Object(8), Object(16))");
    assert_eq!(shown(expr_app(n(), t())), "Call2(ExprApp, Object(8), Object(16))");
    assert_eq!(shown(expr_lam(n(), t(), b(), 2)), "Call3(ExprLambda(2), Object(8), Object(16), Object(24))");
    assert_eq!(shown(expr_forall(n(), t(), b(), 1)), "Call3(ExprForall(1), Object(8), Object(16), Object(24))");
    assert_eq!(
        shown(expr_let(n(), t(), v(), b(), true)),
        "Call4(ExprLet(1), Object(8), Object(16), Object(32), Object(24))"
    );
    assert_eq!(
        shown(expr_let(n(), t(), v(), b(), false)),
        "Call4(ExprLet(0), Object(8), Object(16), Object(32), Object(24))"
    );
    assert_eq!(shown(expr_proj(n(), 1, b())), "Call3(ExprProj, Object(8), Object(3), Object(24))");
    assert_eq!(shown(expr_lit_nat("77")), "Call1(ExprLit, Call1(Ctor(0), Nat(\"77\")))");
    assert_eq!(shown(expr_lit_str("hi")), "Call1(ExprLit, Call1(Ctor(1), Str(\"hi\")))");
}

#[test]
fn levels_and_lists_are_built() {
    let a = || Build::Object(8);
    let b = || Build::Object(16);
    assert_eq!(shown(level_zero()), "Call1(LevelZero, Object(1))");
    assert_eq!(shown(level_succ(a())), "Call1(LevelSucc, Object(8))");
    assert_eq!(shown(level_max(a(), b())), "Call2(LevelMax, Object(8), Object(16))");
    assert_eq!(shown(level_imax(a(), b())), "Call2(LevelIMax, Object(8), Object(16))");
    assert_eq!(shown(level_param(a())), "Call1(LevelParam, Object(8))");
    assert_eq!(shown(list_nil()), "Object(1)");
    assert_eq!(shown(list_cons(a(), list_nil())), "Call2(Ctor(1), Object(8), Object(1))");
}

#[test]
fn kernel_errors_have_their_codes() {
    let name = || "n".to_string();
    assert_eq!(KernelErr::UnknownConstant { name: name() }.code(), 0);
    assert_eq!(KernelErr::AlreadyDeclared { name: name() }.code(), 1);
    assert_eq!(KernelErr::DeclTypeMismatch { given_type: SendObj(8) }.code(), 2);
    assert_eq!(KernelErr::DeclHasMVars { name: name() }.code(), 3);
    assert_eq!(KernelErr::DeclHasFVars { name: name(), e: SendObj(8) }.code(), 4);
    assert_eq!(KernelErr::LetTypeMismatch { name: name() }.code(), 7);
    let mismatch = KernelErr::AppTypeMismatch { app: SendObj(8), fn_type: SendObj(8), arg_type: SendObj(8) };
    assert_eq!(mismatch.code(), 9);
    assert_eq!(KernelErr::ThmTypeIsNotProp { name: name(), ty: SendObj(8) }.code(), 11);
    assert_eq!(KernelErr::Aborted { reason: 13 }.code(), 13);
    assert_eq!(KernelErr::Aborted { reason: 16 }.code(), 16);
}

#[test]
fn exported_objects_are_shown_by_address() {
    assert_eq!(SendObj(0).text(), "SendObj(0x0)");
    assert_eq!(SendObj(0x7f3a_90).text(), "SendObj(0x7f3a90)");
}

#[test]
fn hosts_of_another_version_are_rejected() {
    assert_eq!(populate(None), Err(REJECTED));
    assert_eq!(populate(Some(0)), Err(REJECTED));
    assert_eq!(populate(Some(2)), Err(1));
    let filled = Filled {
        abi_version: 1,
        add_decl: true,
        whnf: false,
        check: false,
        is_def_eq: false,
        release: false,
    };
    assert_eq!(populate(Some(ABI_VERSION)), Ok(filled));
}

#[test]
fn a_panic_becomes_an_exception() {
    assert!(matches!(reply(Some(24)), Reply::Object(24)));
    match reply(None) {
        Reply::Exception { code, msg } => {
            assert_eq!(code, 12);
            assert_eq!(shown(msg), "Str(\"sokonanoda external checker panicked\")");
        }
        _ => panic!("no exception"),
    }
}
