use solc_range::analyzer::{Analyzer, EVAL_DEPTH};
use solc_range::concrete::{Builtin, Concrete, Loc, RangeConcrete};
use solc_range::elem::{ContextNode, ContextVarNode, DynSide, Dynamic, Elem, RangeOp};
use solc_range::range::{Range, RangeEval, SolcRange};
use solc_range::word::{Int256, Uint256};

fn uint(w: u16, v: u128) -> Concrete {
    Concrete::Uint(w, Uint256 { hi: 0, lo: v })
}

fn leaf(c: Concrete) -> Elem {
    Elem::Concrete(RangeConcrete { val: c, loc: Loc::Implicit })
}

fn span(lo: Concrete, hi: Concrete) -> SolcRange {
    SolcRange { min: leaf(lo), max: leaf(hi) }
}

fn dynamic(v: usize, side: DynSide) -> Elem {
    Elem::Dynamic(Dynamic::new(ContextVarNode(v), side, Loc::Implicit))
}

fn empty_analyzer() -> Analyzer {
    Analyzer { ranges: Vec::new(), versions: Vec::new() }
}

#[test]
fn it_works() {}

#[test]
fn from_concrete_gives_point_range() {
    let r = SolcRange::from(uint(8, 5)).unwrap();
    assert_eq!(r.min, leaf(uint(8, 5)));
    assert_eq!(r.max, leaf(uint(8, 5)));
}

#[test]
fn uint8_domain() {
    let r = SolcRange::try_from_builtin(&Builtin::Uint(8)).unwrap();
    assert_eq!(r, span(uint(8, 0), uint(8, 255)));
}

#[test]
fn uint256_domain() {
    let r = SolcRange::try_from_builtin(&Builtin::Uint(256)).unwrap();
    assert_eq!(r.min, leaf(uint(256, 0)));
    assert_eq!(r.max, leaf(Concrete::Uint(256, Uint256 { hi: u128::MAX, lo: u128::MAX })));
}

#[test]
fn uint128_domain() {
    let r = SolcRange::try_from_builtin(&Builtin::Uint(128)).unwrap();
    assert_eq!(r.max, leaf(Concrete::Uint(128, Uint256 { hi: 0, lo: u128::MAX })));
    let r = SolcRange::try_from_builtin(&Builtin::Uint(136)).unwrap();
    assert_eq!(r.max, leaf(Concrete::Uint(136, Uint256 { hi: 255, lo: u128::MAX })));
}

#[test]
fn int8_domain() {
    let r = SolcRange::try_from_builtin(&Builtin::Int(8)).unwrap();
    assert_eq!(r.max, leaf(Concrete::Int(8, Int256 { hi: 0, lo: 127 })));
    assert_eq!(r.min, leaf(Concrete::Int(8, Int256 { hi: -1, lo: u128::MAX - 127 })));
}

#[test]
fn int16_domain() {
    let r = SolcRange::try_from_builtin(&Builtin::Int(16)).unwrap();
    assert_eq!(r.max, leaf(Concrete::Int(16, Int256 { hi: 0, lo: 32767 })));
    assert_eq!(r.min, leaf(Concrete::Int(16, Int256 { hi: -1, lo: u128::MAX - 32767 })));
}

#[test]
fn int256_domain() {
    let r = SolcRange::try_from_builtin(&Builtin::Int(256)).unwrap();
    assert_eq!(r.min, leaf(Concrete::Int(256, Int256 { hi: i128::MIN, lo: 0 })));
    assert_eq!(r.max, leaf(Concrete::Int(256, Int256 { hi: i128::MAX, lo: u128::MAX })));
}

#[test]
fn bool_and_address_domains() {
    let r = SolcRange::try_from_builtin(&Builtin::Bool).unwrap();
    assert_eq!(r, span(Concrete::Bool(false), Concrete::Bool(true)));
    let r = SolcRange::try_from_builtin(&Builtin::Address).unwrap();
    assert_eq!(r, span(Concrete::Address([0x00; 20]), Concrete::Address([0xff; 20])));
}

#[test]
fn unsupported_builtins_have_no_domain() {
    assert!(SolcRange::try_from_builtin(&Builtin::String).is_none());
    assert!(SolcRange::try_from_builtin(&Builtin::DynamicBytes).is_none());
    assert!(SolcRange::try_from_builtin(&Builtin::Bytes(4)).is_none());
}

#[test]
fn default_bool_and_from_bool() {
    assert_eq!(SolcRange::default_bool(), span(Concrete::Bool(false), Concrete::Bool(true)));
    assert_eq!(SolcRange::from_bool(true), span(Concrete::Bool(true), Concrete::Bool(true)));
}

#[test]
fn sat_of_constant_ranges() {
    let a = empty_analyzer();
    assert!(span(uint(8, 5), uint(8, 10)).sat(&a));
    assert!(span(uint(8, 5), uint(8, 5)).sat(&a));
    assert!(!span(uint(8, 10), uint(8, 5)).sat(&a));
    assert!(span(uint(8, 10), uint(8, 5)).unsat(&a));
    assert!(!span(uint(8, 5), uint(8, 10)).unsat(&a));
}

#[test]
fn sat_is_optimistic_on_unknown() {
    let a = empty_analyzer();
    let r = SolcRange { min: dynamic(1, DynSide::Min), max: leaf(uint(8, 0)) };
    assert!(r.sat(&a));
    let mixed = span(uint(8, 9), Concrete::Bool(false));
    assert!(mixed.sat(&a));
}

#[test]
fn contains_checks_both_bounds() {
    let a = empty_analyzer();
    assert!(span(uint(8, 0), uint(8, 100)).contains(&span(uint(8, 10), uint(8, 20)), &a));
    assert!(!span(uint(8, 0), uint(8, 10)).contains(&span(uint(8, 5), uint(8, 20)), &a));
    assert!(!span(uint(8, 10), uint(8, 100)).contains(&span(uint(8, 5), uint(8, 20)), &a));
}

#[test]
fn contains_is_pessimistic_on_unknown() {
    let a = empty_analyzer();
    let unknown = SolcRange { min: dynamic(1, DynSide::Min), max: leaf(uint(8, 100)) };
    assert!(!unknown.contains(&span(uint(8, 10), uint(8, 20)), &a));
}

#[test]
fn set_then_get_round_trip() {
    let mut r = span(uint(8, 1), uint(8, 2));
    let e = leaf(uint(8, 7)).add(dynamic(3, DynSide::Max));
    r.set_range_min(e.clone());
    assert_eq!(r.range_min(), e);
    assert_eq!(r.range_max(), leaf(uint(8, 2)));
    r.set_range_max(e.clone());
    assert_eq!(r.range_max(), e);
}

#[test]
fn constant_range_has_no_deps() {
    assert!(span(uint(8, 1), uint(8, 2)).dependent_on().is_empty());
}

#[test]
fn add_dyn_depends_on_other() {
    let r = span(uint(8, 1), uint(8, 2)).add_dyn(ContextVarNode(4), (DynSide::Min, DynSide::Max), Loc::Implicit);
    assert_eq!(r.dependent_on(), vec![ContextVarNode(4), ContextVarNode(4)]);
}

#[test]
fn update_deps_moves_to_latest_version() {
    let mut r = SolcRange { min: dynamic(1, DynSide::Min).add(dynamic(2, DynSide::Min)), max: dynamic(2, DynSide::Max) };
    let a = Analyzer {
        ranges: Vec::new(),
        versions: vec![(ContextVarNode(1), ContextNode(0), ContextVarNode(11)), (ContextVarNode(1), ContextNode(9), ContextVarNode(99))],
    };
    r.update_deps(ContextNode(0), &a);
    assert_eq!(r.min, dynamic(11, DynSide::Min).add(dynamic(2, DynSide::Min)));
    assert_eq!(r.max, dynamic(2, DynSide::Max));
}

#[test]
fn elem_update_deps_uses_mapping() {
    let e = dynamic(1, DynSide::Min).sub(dynamic(5, DynSide::Max));
    let m = vec![(ContextVarNode(1), ContextVarNode(2)), (ContextVarNode(7), ContextVarNode(8))];
    assert_eq!(e.update_deps(&m), dynamic(2, DynSide::Min).sub(dynamic(5, DynSide::Max)));
}

#[test]
fn sub_dyn_of_point_ranges() {
    let a = Analyzer { ranges: vec![(ContextVarNode(2), span(uint(8, 3), uint(8, 3)))], versions: Vec::new() };
    let (f, sides) = SolcRange::dyn_fn_from_op(RangeOp::Sub);
    assert_eq!(sides, (DynSide::Max, DynSide::Min));
    let r = f.call(span(uint(8, 7), uint(8, 7)), ContextVarNode(2), sides, Loc::Implicit);
    assert_eq!(r.min.eval(&a, EVAL_DEPTH), leaf(uint(8, 4)));
    assert_eq!(r.max.eval(&a, EVAL_DEPTH), leaf(uint(8, 4)));
}

#[test]
fn signed_sub_through_reference() {
    let three = Concrete::Int(16, Int256 { hi: 0, lo: 3 });
    let ten = Concrete::Int(16, Int256 { hi: 0, lo: 10 });
    let a = Analyzer { ranges: vec![(ContextVarNode(2), span(ten, ten))], versions: Vec::new() };
    let r = span(three, three).sub_dyn(ContextVarNode(2), (DynSide::Max, DynSide::Min), Loc::Implicit);
    assert_eq!(r.min.eval(&a, EVAL_DEPTH), leaf(Concrete::Int(16, Int256 { hi: -1, lo: u128::MAX - 6 })));
}

#[test]
fn default_sides_per_operator() {
    assert_eq!(SolcRange::dyn_fn_from_op(RangeOp::Add).1, (DynSide::Min, DynSide::Max));
    assert_eq!(SolcRange::dyn_fn_from_op(RangeOp::Div).1, (DynSide::Max, DynSide::Min));
    assert_eq!(SolcRange::dyn_fn_from_op(RangeOp::Shr).1, (DynSide::Max, DynSide::Min));
    assert_eq!(SolcRange::dyn_fn_from_op(RangeOp::Mod).1, (DynSide::Min, DynSide::Max));
    assert_eq!(SolcRange::dyn_fn_from_op(RangeOp::Neq).0.op, RangeOp::Neq);
}

#[test]
fn add_overflow_stays_unresolved() {
    let max = Concrete::Uint(256, Uint256 { hi: u128::MAX, lo: u128::MAX });
    let a = Analyzer { ranges: vec![(ContextVarNode(1), span(uint(256, 1), uint(256, 1)))], versions: Vec::new() };
    let r = span(max, max).add_dyn(ContextVarNode(1), (DynSide::Min, DynSide::Max), Loc::Implicit);
    let ev = r.max.eval(&a, EVAL_DEPTH);
    assert_eq!(ev, leaf(max).add(leaf(uint(256, 1))));
    assert!(r.sat(&a));
}

#[test]
fn carry_into_high_half() {
    let a = Analyzer { ranges: vec![(ContextVarNode(1), span(uint(256, 1), uint(256, 1)))], versions: Vec::new() };
    let r = span(uint(256, u128::MAX), uint(256, u128::MAX)).add_dyn(ContextVarNode(1), (DynSide::Min, DynSide::Max), Loc::Implicit);
    assert_eq!(r.min.eval(&a, EVAL_DEPTH), leaf(Concrete::Uint(256, Uint256 { hi: 1, lo: 0 })));
}

#[test]
fn lt_dyn_narrows_upper_bound() {
    let a = Analyzer { ranges: vec![(ContextVarNode(1), span(uint(256, 0), uint(256, 50)))], versions: Vec::new() };
    let r = span(uint(256, 0), uint(256, 100)).lt_dyn(ContextVarNode(1), (DynSide::Min, DynSide::Max), Loc::Implicit);
    assert_eq!(r.max.eval(&a, EVAL_DEPTH), leaf(uint(256, 49)));
    let r = span(uint(256, 0), uint(256, 100)).gt_dyn(ContextVarNode(1), (DynSide::Min, DynSide::Max), Loc::Implicit);
    assert_eq!(r.min.eval(&a, EVAL_DEPTH), leaf(uint(256, 1)));
}

#[test]
fn eq_dyn_collapses_to_greater_candidate() {
    let a = Analyzer { ranges: vec![(ContextVarNode(1), span(uint(256, 20), uint(256, 30)))], versions: Vec::new() };
    let r = span(uint(256, 0), uint(256, 100)).eq_dyn(ContextVarNode(1), (DynSide::Min, DynSide::Max), Loc::Implicit);
    assert_eq!(r.min.eval(&a, EVAL_DEPTH), leaf(uint(256, 30)));
    assert_eq!(r.max.eval(&a, EVAL_DEPTH), leaf(uint(256, 30)));
}

#[test]
fn neq_dyn_defers() {
    let a = Analyzer { ranges: vec![(ContextVarNode(1), span(uint(256, 20), uint(256, 30)))], versions: Vec::new() };
    let r = span(uint(256, 0), uint(256, 100)).neq_dyn(ContextVarNode(1), (DynSide::Min, DynSide::Max), Loc::Implicit);
    assert_eq!(r.min, leaf(uint(256, 0)).neq(dynamic(1, DynSide::Min)));
    assert_eq!(r.max, leaf(uint(256, 100)).neq(dynamic(1, DynSide::Max)));
    assert_ne!(r.min, r.max);
    assert!(matches!(r.min.eval(&a, EVAL_DEPTH), Elem::Expr(_, RangeOp::Neq, _)));
    assert!(r.sat(&a));
}

#[test]
fn cyclic_references_stop_at_depth() {
    let a = Analyzer {
        ranges: vec![(ContextVarNode(1), SolcRange { min: dynamic(1, DynSide::Min), max: dynamic(1, DynSide::Max) })],
        versions: Vec::new(),
    };
    assert_eq!(dynamic(1, DynSide::Min).eval(&a, EVAL_DEPTH), dynamic(1, DynSide::Min));
}

#[test]
fn address_and_bytes_order() {
    let a = empty_analyzer();
    let mut hi = [0u8; 20];
    hi[3] = 1;
    assert!(!span(Concrete::Address(hi), Concrete::Address([0u8; 20])).sat(&a));
    let mut b = [0u8; 32];
    b[0] = 2;
    assert!(span(Concrete::Bytes(1, [0u8; 32]), Concrete::Bytes(1, b)).sat(&a));
    assert!(!span(Concrete::Bytes(1, b), Concrete::Bytes(1, [0u8; 32])).sat(&a));
}

#[test]
fn signed_add_carries_across_halves() {
    let minus_one = Concrete::Int(256, Int256 { hi: -1, lo: u128::MAX });
    let one = Concrete::Int(256, Int256 { hi: 0, lo: 1 });
    let a = Analyzer { ranges: vec![(ContextVarNode(1), span(one, one))], versions: Vec::new() };
    let r = span(minus_one, minus_one).add_dyn(ContextVarNode(1), (DynSide::Min, DynSide::Max), Loc::Implicit);
    assert_eq!(r.min.eval(&a, EVAL_DEPTH), leaf(Concrete::Int(256, Int256 { hi: 0, lo: 0 })));
}

#[test]
fn signed_sub_below_minimum_stays_unresolved() {
    let min = Concrete::Int(256, Int256 { hi: i128::MIN, lo: 0 });
    let one = Concrete::Int(256, Int256 { hi: 0, lo: 1 });
    let a = Analyzer { ranges: vec![(ContextVarNode(1), span(one, one))], versions: Vec::new() };
    let r = span(min, min).sub_dyn(ContextVarNode(1), (DynSide::Max, DynSide::Min), Loc::Implicit);
    assert_eq!(r.min.eval(&a, EVAL_DEPTH), leaf(min).sub(leaf(one)));
}

fn point_of(v: usize, c: Concrete) -> Analyzer {
    Analyzer { ranges: vec![(ContextVarNode(v), span(c, c))], versions: Vec::new() }
}

#[test]
fn div_dyn_of_point_ranges() {
    let a = point_of(2, uint(256, 4));
    let (f, sides) = SolcRange::dyn_fn_from_op(RangeOp::Div);
    let r = f.call(span(uint(256, 17), uint(256, 17)), ContextVarNode(2), sides, Loc::Implicit);
    assert_eq!(r.min.eval(&a, EVAL_DEPTH), leaf(uint(256, 4)));
    assert_eq!(r.max.eval(&a, EVAL_DEPTH), leaf(uint(256, 4)));
}

#[test]
fn div_by_zero_stays_unresolved() {
    let a = point_of(2, uint(256, 0));
    let r = span(uint(256, 17), uint(256, 17)).div_dyn(ContextVarNode(2), (DynSide::Max, DynSide::Min), Loc::Implicit);
    assert_eq!(r.min.eval(&a, EVAL_DEPTH), leaf(uint(256, 17)).div(leaf(uint(256, 0))));
}

#[test]
fn mul_mod_and_shifts_evaluate() {
    let a = point_of(2, uint(256, 3));
    let r = span(uint(256, 7), uint(256, 7)).mul_dyn(ContextVarNode(2), (DynSide::Min, DynSide::Max), Loc::Implicit);
    assert_eq!(r.max.eval(&a, EVAL_DEPTH), leaf(uint(256, 21)));
    let r = span(uint(256, 7), uint(256, 7)).mod_dyn(ContextVarNode(2), (DynSide::Min, DynSide::Max), Loc::Implicit);
    assert_eq!(r.min.eval(&a, EVAL_DEPTH), leaf(uint(256, 1)));
    assert_eq!(r.max.eval(&a, EVAL_DEPTH), leaf(uint(256, 1)));
    let r = span(uint(256, 5), uint(256, 5)).shl_dyn(ContextVarNode(2), (DynSide::Min, DynSide::Max), Loc::Implicit);
    assert_eq!(r.min.eval(&a, EVAL_DEPTH), leaf(uint(256, 40)));
    let r = span(uint(256, 40), uint(256, 40)).shr_dyn(ContextVarNode(2), (DynSide::Max, DynSide::Min), Loc::Implicit);
    assert_eq!(r.min.eval(&a, EVAL_DEPTH), leaf(uint(256, 5)));
}

#[test]
fn mul_crosses_into_high_half() {
    let big = uint(256, u128::MAX);
    let a = point_of(2, uint(256, 2));
    let r = span(big, big).mul_dyn(ContextVarNode(2), (DynSide::Min, DynSide::Max), Loc::Implicit);
    assert_eq!(r.min.eval(&a, EVAL_DEPTH), leaf(Concrete::Uint(256, Uint256 { hi: 1, lo: u128::MAX - 1 })));
}

#[test]
fn mul_overflow_stays_unresolved() {
    let top = Concrete::Uint(256, Uint256 { hi: 1, lo: 0 });
    let a = point_of(2, top);
    let r = span(top, top).mul_dyn(ContextVarNode(2), (DynSide::Min, DynSide::Max), Loc::Implicit);
    assert_eq!(r.min.eval(&a, EVAL_DEPTH), leaf(top).mul(leaf(top)));
}

#[test]
fn full_width_mul_of_halves() {
    let x = Concrete::Uint(256, Uint256 { hi: 0, lo: u128::MAX });
    let a = point_of(2, x);
    let r = span(x, x).mul_dyn(ContextVarNode(2), (DynSide::Min, DynSide::Max), Loc::Implicit);
    assert_eq!(r.min.eval(&a, EVAL_DEPTH), leaf(Concrete::Uint(256, Uint256 { hi: u128::MAX - 1, lo: 1 })));
}

#[test]
fn div_of_wide_dividend() {
    let x = Concrete::Uint(256, Uint256 { hi: 1, lo: 0 });
    let a = point_of(2, uint(256, 1));
    let (f, sides) = SolcRange::dyn_fn_from_op(RangeOp::Div);
    let r = f.call(span(x, x), ContextVarNode(2), sides, Loc::Implicit);
    assert_eq!(r.min.eval(&a, EVAL_DEPTH), leaf(x));
    assert_eq!(r.max.eval(&a, EVAL_DEPTH), leaf(x));
    let max = Concrete::Uint(256, Uint256 { hi: u128::MAX, lo: u128::MAX });
    let a = point_of(2, uint(256, 3));
    let r = span(max, max).div_dyn(ContextVarNode(2), sides, Loc::Implicit);
    assert_eq!(r.min.eval(&a, EVAL_DEPTH), leaf(Concrete::Uint(256, Uint256 { hi: u128::MAX / 3, lo: u128::MAX / 3 })));
    let r = span(max, max).mod_dyn(ContextVarNode(2), (DynSide::Min, DynSide::Max), Loc::Implicit);
    assert_eq!(r.max.eval(&a, EVAL_DEPTH), leaf(uint(256, 0)));
}

#[test]
fn wide_shifts() {
    let a = point_of(2, uint(256, 200));
    let r = span(uint(256, 1), uint(256, 1)).shl_dyn(ContextVarNode(2), (DynSide::Min, DynSide::Max), Loc::Implicit);
    assert_eq!(r.min.eval(&a, EVAL_DEPTH), leaf(Concrete::Uint(256, Uint256 { hi: 1 << 72, lo: 0 })));
    let x = Concrete::Uint(256, Uint256 { hi: 1 << 72, lo: 0 });
    let r = span(x, x).shr_dyn(ContextVarNode(2), (DynSide::Max, DynSide::Min), Loc::Implicit);
    assert_eq!(r.min.eval(&a, EVAL_DEPTH), leaf(uint(256, 1)));
}

#[test]
fn signed_lt_and_gt_narrow() {
    let int8 = |v: u128| Concrete::Int(8, Int256 { hi: 0, lo: v });
    let a = point_of(1, int8(50));
    let r = span(int8(0), int8(100)).lt_dyn(ContextVarNode(1), (DynSide::Min, DynSide::Max), Loc::Implicit);
    assert_eq!(r.max.eval(&a, EVAL_DEPTH), leaf(int8(49)));
    let r = span(int8(0), int8(100)).gt_dyn(ContextVarNode(1), (DynSide::Min, DynSide::Max), Loc::Implicit);
    assert_eq!(r.min.eval(&a, EVAL_DEPTH), leaf(int8(51)));
    assert!(span(int8(0), int8(100)).contains(&r, &a));
}

fn sint(w: u16, v: i128) -> Concrete {
    if v < 0 {
        Concrete::Int(w, Int256 { hi: -1, lo: v as u128 })
    } else {
        Concrete::Int(w, Int256 { hi: 0, lo: v as u128 })
    }
}

#[test]
fn signed_mul_div_mod() {
    let a = point_of(2, sint(32, -3));
    let r = span(sint(32, 7), sint(32, 7)).mul_dyn(ContextVarNode(2), (DynSide::Min, DynSide::Max), Loc::Implicit);
    assert_eq!(r.min.eval(&a, EVAL_DEPTH), leaf(sint(32, -21)));
    let r = span(sint(32, -7), sint(32, -7)).div_dyn(ContextVarNode(2), (DynSide::Max, DynSide::Min), Loc::Implicit);
    assert_eq!(r.min.eval(&a, EVAL_DEPTH), leaf(sint(32, 2)));
    let r = span(sint(32, 7), sint(32, 7)).div_dyn(ContextVarNode(2), (DynSide::Max, DynSide::Min), Loc::Implicit);
    assert_eq!(r.min.eval(&a, EVAL_DEPTH), leaf(sint(32, -2)));
    let a = point_of(2, sint(32, 3));
    let r = span(sint(32, -7), sint(32, -7)).mod_dyn(ContextVarNode(2), (DynSide::Min, DynSide::Max), Loc::Implicit);
    assert_eq!(r.min.eval(&a, EVAL_DEPTH), leaf(sint(32, -7)));
    assert_eq!(r.max.eval(&a, EVAL_DEPTH), leaf(sint(32, -1)));
}

#[test]
fn signed_min_div_minus_one_stays_unresolved() {
    let min = Concrete::Int(256, Int256 { hi: i128::MIN, lo: 0 });
    let a = point_of(2, sint(256, -1));
    let r = span(min, min).div_dyn(ContextVarNode(2), (DynSide::Max, DynSide::Min), Loc::Implicit);
    assert_eq!(r.min.eval(&a, EVAL_DEPTH), leaf(min).div(leaf(sint(256, -1))));
}

#[test]
fn operator_nesting_counts_toward_depth() {
    let a = empty_analyzer();
    let mut shallow = leaf(uint(256, 0));
    for _ in 0..10 {
        shallow = shallow.add(leaf(uint(256, 1)));
    }
    assert_eq!(shallow.eval(&a, EVAL_DEPTH), leaf(uint(256, 10)));
    let mut deep = leaf(uint(256, 0));
    for _ in 0..300 {
        deep = deep.add(leaf(uint(256, 1)));
    }
    assert!(matches!(deep.eval(&a, EVAL_DEPTH), Elem::Expr(_, RangeOp::Add, _)));
}
