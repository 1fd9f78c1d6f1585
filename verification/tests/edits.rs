//! Edits of a context: what they change, what they keep, and what takes them back.
use tir::builder::OpBuilder;
use tir::context::Context;
use tir::dialects::builtin::arith::{AddIOp, AndIOp, MulIOp, OrIOp, XOrIOp};
use tir::dialects::builtin::float::{AddFOp, MulFOp};
use tir::ids::{OpId, RegionId, TypeId, ValueId};
use tir::interfaces::{Commutative, Interface, OpCost};
use tir::lists::{RegionIds, ValueIds};
use tir::op_tree::verify_op_tree;
use tir::ty::{IntegerType, TokenType, Type};

fn integer(context: &mut Context) -> TypeId {
    context.get_type_id(Type::Integer(IntegerType { width: 32 }))
}

/// An op that reads `operands` and gives one value.
fn op(context: &mut Context, operands: Vec<ValueId>, ty: TypeId) -> OpId {
    OpBuilder::new("test", "op").operands(operands).result_type(ty).build(context).id
}

/// An op that holds `region`.
fn owner(context: &mut Context, region: RegionId) -> OpId {
    OpBuilder::new("test", "owner").region(region).build(context).id
}

#[test]
fn committing_changes_no_read() {
    let mut context = Context::with_default_dialects();
    let ty = integer(&mut context);
    let a = context.create_value(ty, None).id;
    let first = op(&mut context, vec![a, a], ty);
    assert!(context.is_pending_op(first));
    context.commit();
    assert!(!context.is_pending_op(first));
    assert!(!context.has_pending_edits());
    assert_eq!(context.operands_of(first), &vec![a, a]);
    assert_eq!(context.use_count(a), 2);
    assert_eq!(context.epoch(), 1);
}

#[test]
fn discarding_takes_everything_back() {
    let mut context = Context::with_default_dialects();
    let ty = integer(&mut context);
    let a = context.create_value(ty, None).id;
    let b = context.create_value(ty, None).id;
    let first = op(&mut context, vec![a], ty);
    context.commit();
    context.set_op_operand(first, 0, b);
    let second = op(&mut context, vec![a], ty);
    assert_eq!(context.overlay_census().shadows, 1);
    assert_eq!(context.users_of(a), vec![second]);
    context.discard();
    assert_eq!(context.operands_of(first), &vec![a]);
    assert!(!context.has_operation(second));
    assert_eq!(context.users_of(a), vec![first]);
    assert!(!context.is_used(b));
}

#[test]
fn replacing_a_value_moves_its_uses() {
    let mut context = Context::with_default_dialects();
    let ty = integer(&mut context);
    let a = context.create_value(ty, None).id;
    let b = context.create_value(ty, None).id;
    let first = op(&mut context, vec![a, b, a], ty);
    context.replace_value_uses(a, b);
    assert_eq!(context.operands_of(first), &vec![b, b, b]);
    assert_eq!(context.use_count(b), 3);
    assert!(!context.is_used(a));
    assert!(context.verify_use_lists().is_ok());
}

#[test]
fn short_lists_hold_what_they_were_given() {
    let ids: Vec<ValueId> = (0..9).map(ValueId::from_number).collect();
    let mut list = ValueIds::from_slice(&ids);
    assert_eq!((list.len(), list.is_empty()), (9, false));
    assert_eq!(list.at(8), ids[8]);
    list.truncate(20);
    assert_eq!(list.to_vec(), ids);
    list.truncate(2);
    assert_eq!(list.to_vec(), ids[..2].to_vec());
    assert!(ValueIds::new().is_empty());
    let regions: Vec<RegionId> = (4..7).map(RegionId::from_number).collect();
    let list = RegionIds::from_slice(&regions);
    assert_eq!((list.len(), list.at(2)), (3, regions[2]));
    assert_eq!(list.to_vec(), regions);
}

#[test]
fn states_are_told_from_values() {
    let mut context = Context::with_default_dialects();
    let ty = integer(&mut context);
    let a = context.create_value(ty, None).id;
    let s = context.create_state();
    assert_eq!(context.states_among(&[a, s, a]).to_vec(), vec![s]);
    assert_eq!(context.values_among(&[a, s, a]).to_vec(), vec![a, a]);
}

#[test]
fn an_op_goes_where_its_operands_are() {
    let mut context = Context::with_default_dialects();
    let ty = integer(&mut context);
    let outer_port = context.create_value(ty, None);
    let inner_port = context.create_value(ty, None);
    let (x, y) = (outer_port.id, inner_port.id);
    let inner = context.create_nodes_region(vec![inner_port], vec![], vec![y]);
    let holder = owner(&mut context, inner);
    let outer = context.create_nodes_region(vec![outer_port], vec![holder], vec![x]);
    let root = owner(&mut context, outer);
    assert_eq!(context.region_ancestors(inner), vec![inner, outer]);
    assert_eq!(context.nested_regions(outer), vec![outer, inner]);
    assert!(context.op_under(holder, &vec![root]));
    assert!(!context.op_under(root, &vec![holder]));
    assert_eq!(context.defining_region(x), Some(outer));

    let shallow = op(&mut context, vec![x], ty);
    assert_eq!(context.add_auto(shallow), outer);
    let deep = op(&mut context, vec![x, y], ty);
    assert_eq!(context.add_auto(deep), inner);
    assert_eq!(context.parent_nodes_region(deep), Some(inner));
    assert!(context.is_sound());

    context.rename_region_results(outer, x, y, &vec![]);
    assert_eq!(context.region_results(outer), vec![y]);
    context.rename_region_results(outer, y, x, &vec![holder]);
    assert_eq!(context.region_results(outer), vec![x]);
    assert_eq!(context.region_results(inner), vec![y]);
    let z = context.create_value(ty, None).id;
    context.rename_region_results_batch(outer, &vec![(x, y), (y, z)]);
    assert_eq!(context.region_results(outer), vec![z]);
    assert_eq!(context.region_results(inner), vec![z]);
}

#[test]
fn a_tree_is_checked_op_by_op() {
    let mut context = Context::with_default_dialects();
    let ty = integer(&mut context);
    let a = context.create_value(ty, None).id;
    let first = op(&mut context, vec![a], ty);
    assert!(context.is_sound());
    assert!(verify_op_tree(&context, first, &vec![], None, &vec![]).is_ok());
    let own = vec![(first, "no good".to_string())];
    let error = verify_op_tree(&context, first, &vec![], None, &own).expect_err("own word");
    assert_eq!(error.message(), "Operation verification failed: no good");
    let error = verify_op_tree(&context, OpId::from_number(77), &vec![], None, &vec![])
        .expect_err("no such op");
    assert_eq!(
        error.message(),
        "Operation verification failed: operation OpId(77) does not exist"
    );
}

#[test]
fn a_state_among_the_values_is_reported() {
    let mut context = Context::with_default_dialects();
    let ty = integer(&mut context);
    let s = context.create_state();
    let wrong = op(&mut context, vec![s], ty);
    let error = verify_op_tree(&context, wrong, &vec![], None, &vec![]).expect_err("a state");
    assert_eq!(
        error.message(),
        format!(
            "Operation verification failed: dependency %{} sits in a value operand slot",
            s.number()
        )
    );
}

#[test]
fn a_token_enters_only_where_a_loop_body_starts() {
    let mut context = Context::with_default_dialects();
    let token = context.get_type_id(Type::Token(TokenType));
    let value = context.create_value(token, None);
    let block = context.create_block(vec![value]);
    let region = context.create_region();
    context.add_block_to_region(region, block);
    let holder = owner(&mut context, region);
    assert!(verify_op_tree(&context, holder, &vec![region], None, &vec![]).is_ok());
    let error = verify_op_tree(&context, holder, &vec![], None, &vec![]).expect_err("a token");
    assert_eq!(
        error.message(),
        "Operation verification failed: token values are only allowed as loop body entry arguments"
    );
}

#[test]
fn two_ops_that_change_one_memory_are_reported() {
    let mut context = Context::with_default_dialects();
    let s = context.create_state();
    let a = OpBuilder::new("test", "write").dep_operands(vec![s]).build(&mut context).id;
    let b = OpBuilder::new("test", "write").dep_operands(vec![s]).build(&mut context).id;
    let region = context.create_nodes_region(vec![], vec![a, b], vec![]);
    let holder = owner(&mut context, region);
    let error = verify_op_tree(&context, holder, &vec![], None, &vec![]).expect_err("a conflict");
    assert_eq!(
        error.message(),
        format!(
            "Operation verification failed: dependency %{} is both observed and changed",
            s.number()
        )
    );
}

#[test]
fn replaced_uses_add_up_with_those_there() {
    let mut context = Context::with_default_dialects();
    let ty = integer(&mut context);
    let a = context.create_value(ty, None).id;
    let b = context.create_value(ty, None).id;
    let both = op(&mut context, vec![a, b, a], ty);
    let one = op(&mut context, vec![b], ty);
    context.replace_value_uses(a, b);
    assert!(context.uses_of(a).is_empty());
    assert_eq!(context.uses_of(b).len(), 4);
    assert_eq!(context.operands_of(both).clone(), vec![b, b, b]);
    assert_eq!(context.operands_of(one).clone(), vec![b]);
}

#[test]
fn a_handle_lives_until_its_operation_is_erased() {
    let mut context = Context::with_default_dialects();
    let ty = integer(&mut context);
    let id = op(&mut context, vec![], ty);
    let handle = context.get_op(id);
    assert!(handle.is_live(&context));
    context.commit();
    assert!(handle.is_live(&context));
    context.remove_operation(id);
    assert!(!handle.is_live(&context));
}

#[test]
fn a_product_costs_more_than_a_sum() {
    let mut context = Context::with_default_dialects();
    let ty = integer(&mut context);
    let id = op(&mut context, vec![], ty);
    let handle = context.get_op(id);
    assert_eq!(MulIOp(handle).cost(), 4);
    assert!(AddIOp(handle).is_commutative() && MulIOp(handle).is_commutative());
    assert!(AndIOp(handle).is_commutative() && OrIOp(handle).is_commutative());
    assert!(XOrIOp(handle).is_commutative() && AddFOp(handle).is_commutative());
    assert!(MulFOp(handle).is_commutative());
}

#[test]
fn a_replaced_value_answers_by_its_replacement() {
    let mut context = Context::with_default_dialects();
    let ty = integer(&mut context);
    let a = context.create_value(ty, None).id;
    let b = context.create_value(ty, None).id;
    let c = context.create_value(ty, None).id;
    let first = op(&mut context, vec![a], ty);
    let second = op(&mut context, vec![c], ty);
    context.commit();
    context.replace_value_uses(a, b);
    assert_eq!(context.resolved_value(a), b);
    context.replace_value_uses(c, a);
    assert_eq!(context.operands_of(second), &vec![b]);
    let d = context.create_value(ty, None).id;
    context.replace_value_uses(b, d);
    assert_eq!((context.resolved_value(a), context.resolved_value(c)), (d, d));
    assert_eq!(context.operands_of(first), &vec![d]);
    assert_eq!(context.operands_of(second), &vec![d]);
    assert_eq!(context.uses_of(d).len(), 2);
    context.discard();
    assert_eq!(context.resolved_value(a), a);
    assert_eq!(context.operands_of(second), &vec![c]);
}

#[test]
fn a_handle_stays_dead_when_another_takes_its_id() {
    let mut context = Context::with_default_dialects();
    let ty = integer(&mut context);
    let id = op(&mut context, vec![], ty);
    let handle = context.get_op(id);
    context.discard();
    assert!(!handle.is_live(&context));
    let again = op(&mut context, vec![], ty);
    assert_eq!(again, id);
    assert!(!handle.is_live(&context));
    context.commit();
    assert!(!handle.is_live(&context));
    let other = context.get_op(again);
    context.remove_operation(again);
    assert!(!other.is_live(&context));
    context.discard();
    assert!(other.is_live(&context));
}

/// A loop that carries `init`, and the body's port.
fn carrying(context: &mut Context, ty: TypeId, init: ValueId) -> (OpId, RegionId, ValueId) {
    let i1 = context.get_type_id(Type::Integer(IntegerType { width: 1 }));
    let port = context.create_value(ty, None);
    let exit = OpBuilder::new("test", "exit").build(context).id;
    let goes_on = OpBuilder::new("test", "cond").result_type(i1).build(context).id;
    let again = context.results_of(goes_on)[0];
    let results = vec![again, port.id, port.id];
    let body = context.create_nodes_region(vec![port], vec![goes_on, exit], results);
    let carrier = OpBuilder::new("scf", "loop").operand(init).result_type(ty).region(body);
    (carrier.build(context).id, body, port.id)
}

#[test]
fn a_port_enters_before_it_is_handed_back() {
    let mut context = Context::with_default_dialects();
    let ty = integer(&mut context);
    let init = context.create_value(ty, None).id;
    let (carrier, body, port) = carrying(&mut context, ty, init);
    context.register_op_interface("test", "exit", Interface::NonLocalExit);
    let ops = context.region_op_ids(body);
    let (goes_on, exit) = (ops[0], ops[1]);
    assert!(context.is_sound());
    let targets = vec![(exit, carrier)];
    assert_eq!(context.exits_leaving(&ops, &targets, carrier), vec![exit]);
    assert!(context.exits_leaving(&ops, &targets, goes_on).is_empty());

    let more = context.create_value(ty, None).id;
    let entered = context.enter_port(carrier, ty, Some(more));
    assert_eq!(context.operands_of(carrier), &vec![init, more]);
    let fresh = entered.ports[0];
    let ports: Vec<ValueId> = context.region_ports(body).iter().map(|p| p.id).collect();
    assert_eq!(ports, vec![port, fresh]);
    let next = op(&mut context, vec![fresh], ty);
    context.add(body, next);
    let next = context.results_of(next)[0];
    let result = context.latch_port(carrier, &entered, &vec![Some(next)], &targets);
    let cond = context.results_of(goes_on)[0];
    assert_eq!(context.region_results(body), vec![cond, port, next, port, fresh]);
    assert_eq!(context.operands_of(exit), &vec![fresh]);
    assert_eq!(context.results_of(carrier)[1], result);
}

#[test]
fn a_port_grown_at_once_names_values_there_before() {
    let mut context = Context::with_default_dialects();
    let ty = integer(&mut context);
    let init = context.create_value(ty, None).id;
    let (carrier, body, port) = carrying(&mut context, ty, init);
    context.register_op_interface("test", "exit", Interface::NonLocalExit);
    let exit = context.region_op_ids(body)[1];
    let more = context.create_value(ty, None).id;
    let targets = vec![(exit, carrier)];
    let result = context.grow_port(carrier, ty, Some(more), &vec![None], &targets);
    let fresh = context.region_ports(body)[1].id;
    let results = context.region_results(body);
    assert_eq!(results[1..].to_vec(), vec![port, fresh, port, fresh]);
    assert_eq!(context.operands_of(exit), &vec![fresh]);
    assert_eq!(context.results_of(carrier)[1], result);
}

#[test]
fn a_subtree_is_listed_level_by_level() {
    let mut context = Context::with_default_dialects();
    let ty = integer(&mut context);
    let deep = op(&mut context, vec![], ty);
    let region = context.create_nodes_region(vec![], vec![deep], vec![]);
    let holder = owner(&mut context, region);
    let beside = op(&mut context, vec![], ty);
    assert!(context.is_sound());
    assert_eq!(context.subtree_ops(&vec![holder, beside]), vec![holder, beside, deep]);
}
