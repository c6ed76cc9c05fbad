use locks::{LevelId, Order, OrderError};

fn three_levels() -> (Order, LevelId, LevelId, LevelId) {
    let mut order = Order::new();
    let a = order.define_level();
    let b = order.define_level();
    let c = order.define_level();
    (order, a, b, c)
}

#[test]
fn new_order_is_empty() {
    let order = Order::new();
    assert_eq!(order.count(), 0);
    assert!(!order.is_defined(LevelId::main()));
    assert!(!order.is_defined(LevelId { index: 1 }));
}

#[test]
fn levels_are_numbered_from_one_and_distinct() {
    let (order, a, b, c) = three_levels();
    assert_eq!(a, LevelId { index: 1 });
    assert_eq!(b, LevelId { index: 2 });
    assert_eq!(c, LevelId { index: 3 });
    assert_ne!(a, b);
    assert_ne!(b, c);
    assert_eq!(order.count(), 3);
    assert!(order.is_defined(a) && order.is_defined(b) && order.is_defined(c));
    assert!(!order.is_defined(LevelId { index: 4 }));
}

#[test]
fn main_level_is_index_zero() {
    assert_eq!(LevelId::main(), LevelId { index: 0 });
    assert!(LevelId::main().is_main());
    assert!(!LevelId { index: 1 }.is_main());
}

#[test]
fn declare_records_exactly_one_fact() {
    let (mut order, a, b, c) = three_levels();
    assert_eq!(order.declare(b, a), Ok(()));
    assert!(order.is_declared(b, a));
    assert!(!order.is_declared(a, b));
    assert!(!order.is_declared(c, a));
    assert!(!order.is_declared(c, b));
    assert_eq!(order.count(), 3);
}

#[test]
fn declare_rejects_undefined_levels() {
    let (mut order, a, _b, _c) = three_levels();
    let stranger = LevelId { index: 9 };
    assert_eq!(order.declare(stranger, a), Err(OrderError::Undefined(stranger)));
    assert_eq!(order.declare(a, stranger), Err(OrderError::Undefined(stranger)));
    assert!(!order.is_declared(stranger, a));
    assert!(!order.is_declared(a, stranger));
}

#[test]
fn declare_names_the_lower_level_when_both_are_undefined() {
    let mut order = Order::new();
    let lower = LevelId { index: 5 };
    let higher = LevelId { index: 6 };
    assert_eq!(order.declare(lower, higher), Err(OrderError::Undefined(lower)));
}

#[test]
fn declare_rejects_the_main_level_on_either_side() {
    let (mut order, a, _b, _c) = three_levels();
    let main = LevelId::main();
    assert_eq!(order.declare(a, main), Err(OrderError::Undefined(main)));
    assert_eq!(order.declare(main, a), Err(OrderError::Undefined(main)));
}

#[test]
fn declare_rejects_a_level_below_itself() {
    let (mut order, a, _b, _c) = three_levels();
    assert_eq!(order.declare(a, a), Err(OrderError::Reflexive));
    assert!(!order.is_declared(a, a));
}

#[test]
fn declare_rejects_a_repeated_fact() {
    let (mut order, a, b, _c) = three_levels();
    assert_eq!(order.declare(b, a), Ok(()));
    assert_eq!(order.declare(b, a), Err(OrderError::Duplicate));
    assert!(order.is_declared(b, a));
}

#[test]
fn declare_rejects_the_reverse_of_a_fact() {
    let (mut order, a, b, _c) = three_levels();
    assert_eq!(order.declare(b, a), Ok(()));
    assert_eq!(order.declare(a, b), Err(OrderError::Cyclic));
    assert!(!order.is_declared(a, b));
}

#[test]
fn declare_rejects_a_fact_that_closes_a_long_cycle() {
    let mut order = Order::new();
    let mut ids = Vec::new();
    for _ in 0..6 {
        ids.push(order.define_level());
    }
    // ids[5] < ids[4] < ... < ids[0], declared out of sequence
    assert_eq!(order.declare(ids[5], ids[4]), Ok(()));
    assert_eq!(order.declare(ids[2], ids[1]), Ok(()));
    assert_eq!(order.declare(ids[4], ids[3]), Ok(()));
    assert_eq!(order.declare(ids[1], ids[0]), Ok(()));
    assert_eq!(order.declare(ids[3], ids[2]), Ok(()));
    assert_eq!(order.declare(ids[0], ids[5]), Err(OrderError::Cyclic));
    assert_eq!(order.declare(ids[1], ids[4]), Err(OrderError::Cyclic));
    assert!(!order.is_declared(ids[0], ids[5]));
    // a shortcut downward closes no cycle
    assert_eq!(order.declare(ids[5], ids[0]), Ok(()));
    assert_eq!(order.declare(ids[4], ids[1]), Ok(()));
}

#[test]
fn rejected_declarations_change_nothing() {
    let (mut order, a, b, c) = three_levels();
    assert_eq!(order.declare(b, a), Ok(()));
    assert_eq!(order.declare(c, b), Ok(()));
    assert_eq!(order.declare(a, c), Err(OrderError::Cyclic));
    assert_eq!(order.declare(b, b), Err(OrderError::Reflexive));
    assert_eq!(order.declare(c, b), Err(OrderError::Duplicate));
    assert_eq!(order.count(), 3);
    assert!(order.is_declared(b, a));
    assert!(order.is_declared(c, b));
    assert!(!order.is_declared(a, c));
    assert!(!order.is_declared(c, a));
    // the fact that was refused as a cycle is still refused, and the sound one still accepted
    assert_eq!(order.declare(c, a), Ok(()));
}

#[test]
fn diamond_is_no_cycle() {
    let mut order = Order::new();
    let top = order.define_level();
    let left = order.define_level();
    let right = order.define_level();
    let bottom = order.define_level();
    assert_eq!(order.declare(left, top), Ok(()));
    assert_eq!(order.declare(right, top), Ok(()));
    assert_eq!(order.declare(bottom, left), Ok(()));
    assert_eq!(order.declare(bottom, right), Ok(()));
    assert!(order.leads_up(bottom, top));
    assert!(!order.leads_up(left, right));
    assert!(!order.leads_up(right, left));
    assert!(!order.leads_up(top, bottom));
}

#[test]
fn lower_level_may_be_defined_first() {
    let mut order = Order::new();
    let checking = order.define_level();
    let savings = order.define_level();
    assert_eq!(order.declare(checking, savings), Ok(()));
    assert!(order.is_below(checking, savings));
    assert!(!order.is_below(savings, checking));
}

#[test]
fn leads_up_follows_declared_steps_only() {
    let (mut order, a, b, c) = three_levels();
    assert!(!order.leads_up(c, a));
    assert_eq!(order.declare(b, a), Ok(()));
    assert_eq!(order.declare(c, b), Ok(()));
    assert!(order.leads_up(b, a));
    assert!(order.leads_up(c, b));
    assert!(order.leads_up(c, a));
    assert!(!order.leads_up(a, c));
    assert!(!order.leads_up(a, a));
    assert!(!order.leads_up(c, c));
    assert!(!order.leads_up(c, LevelId::main()));
    assert!(!order.leads_up(LevelId::main(), a));
    assert!(!order.leads_up(LevelId { index: 7 }, a));
    assert!(!order.leads_up(c, LevelId { index: 7 }));
}

#[test]
fn is_below_is_the_declared_fact_or_the_main_level() {
    let (mut order, a, b, c) = three_levels();
    assert_eq!(order.declare(b, a), Ok(()));
    assert_eq!(order.declare(c, b), Ok(()));
    let main = LevelId::main();
    assert!(order.is_below(a, main));
    assert!(order.is_below(b, main));
    assert!(order.is_below(c, main));
    assert!(order.is_below(b, a));
    assert!(order.is_below(c, b));
    // reachable through b, but never declared
    assert!(!order.is_below(c, a));
    assert!(!order.is_below(a, b));
    assert!(!order.is_below(a, a));
    assert!(!order.is_below(main, main));
    assert!(!order.is_below(main, a));
    assert!(!order.is_below(LevelId { index: 8 }, main));
    assert!(!order.is_below(LevelId { index: 8 }, a));
}

#[test]
fn is_admitted_is_the_same_level_or_one_it_is_below() {
    let (mut order, a, b, c) = three_levels();
    assert_eq!(order.declare(b, a), Ok(()));
    assert_eq!(order.declare(c, b), Ok(()));
    let main = LevelId::main();
    // base b: from b itself, from a, from main; not from c
    assert!(order.is_admitted(b, b));
    assert!(order.is_admitted(b, a));
    assert!(order.is_admitted(b, main));
    assert!(!order.is_admitted(b, c));
    // base a: c is below it only through b, and stays out either way
    assert!(!order.is_admitted(a, c));
    assert!(!order.is_admitted(c, a));
    // base main: from main only
    assert!(order.is_admitted(main, main));
    assert!(!order.is_admitted(main, a));
    // a level the order does not know admits only itself
    let stranger = LevelId { index: 9 };
    assert!(order.is_admitted(stranger, stranger));
    assert!(!order.is_admitted(stranger, main));
    assert!(!order.is_admitted(stranger, a));
}

#[test]
fn many_levels_in_one_line() {
    let mut order = Order::new();
    let mut ids = Vec::new();
    for _ in 0..40 {
        ids.push(order.define_level());
    }
    for i in 1..40 {
        assert_eq!(order.declare(ids[i], ids[i - 1]), Ok(()));
    }
    assert!(order.leads_up(ids[39], ids[0]));
    assert!(!order.leads_up(ids[0], ids[39]));
    assert_eq!(order.declare(ids[0], ids[39]), Err(OrderError::Cyclic));
    assert!(!order.is_below(ids[39], ids[0]));
    assert!(order.is_below(ids[39], ids[38]));
}
