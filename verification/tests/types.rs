//! Types, effect rows, substitutions, schemes and names.

use saga_typechecker::ast::NodeId;
use saga_typechecker::names::{
    arity_keyed_target_name, bare_type_name, canonicalize_type_name, is_builtin_canonical,
    make_dict_name, mangle_type_name,
};
use saga_typechecker::patterns::{
    direct_target_var_index, match_type_pattern, substitute_pattern_vars, target_key_for_type,
};
use saga_typechecker::schemes::{Scheme, TypeEnv};
use saga_typechecker::sorting::{ordered_set, sort_texts};
use saga_typechecker::subst::Substitution;
use saga_typechecker::table::Table;
use saga_typechecker::text::{
    after_last_dot, dot_join, dots_to_underscores, has_char, is_number, join_text, number_text,
    split_last_dot, starts_with, text_at_most,
};
use saga_typechecker::type_vars::{collect_free_vars, replace_vars};
use saga_typechecker::types::{EffectEntry, EffectRow, Type};
use saga_typechecker::values::Dup;

fn con(name: &str, args: Vec<Type>) -> Type {
    Type::Con(name.to_string(), args)
}

fn entry(name: &str, args: Vec<Type>) -> EffectEntry {
    EffectEntry::unnamed(name.to_string(), args)
}

fn open_row(effects: Vec<EffectEntry>, tails: Vec<Type>) -> EffectRow {
    EffectRow { effects, tails }
}

fn fun(a: Type, b: Type, row: EffectRow) -> Type {
    Type::Fun(Box::new(a), Box::new(b), row)
}

fn effect_names(row: &EffectRow) -> Vec<String> {
    row.effects.iter().map(|e| e.name.clone()).collect()
}

fn strings(names: &[&str]) -> Vec<String> {
    names.iter().map(|n| n.to_string()).collect()
}

#[test]
fn types_are_shown_by_their_bare_names() {
    assert_eq!(Type::int_type().display(), "Int");
    assert_eq!(Type::Var(7).display(), "?7");
    assert_eq!(Type::Symbol("Foo".to_string()).display(), "'Foo");
    assert_eq!(Type::Error.display(), "<error>");
    let list = con("Std.List.List", vec![con("Std.Maybe.Maybe", vec![Type::int_type()])]);
    assert_eq!(list.display(), "List (Maybe Int)");
    let pair = con("Std.Base.Tuple", vec![Type::int_type(), Type::string()]);
    assert_eq!(pair.display(), "(Int, String)");
    assert_eq!(con("Std.List.List", vec![pair]).display(), "List (Int, String)");
    let single = con("Std.Base.Tuple", vec![Type::bool()]);
    assert_eq!(single.display(), "Tuple Bool");
}

#[test]
fn functions_are_shown_with_their_effects() {
    let pure = Type::arrow(Type::int_type(), Type::bool());
    assert_eq!(pure.display(), "Int -> Bool");
    let row = open_row(
        vec![entry("Std.Log.Log", vec![]), entry("State", vec![Type::int_type()])],
        vec![Type::Var(3)],
    );
    let effectful = fun(pure.dup(), Type::unit(), row);
    assert_eq!(effectful.display(), "(Int -> Bool) -> Unit needs {Std.Log.Log, State Int, ..?3}");
    let only_tail = fun(Type::Var(0), Type::Var(1), open_row(vec![], vec![Type::Var(2)]));
    assert_eq!(only_tail.display(), "?0 -> ?1 needs {..?2}");
}

#[test]
fn records_are_shown_with_their_fields() {
    let record = Type::Record(vec![
        ("city".to_string(), Type::string()),
        ("zip".to_string(), Type::int_type()),
    ]);
    assert_eq!(record.display(), "{ city: String, zip: Int }");
}

#[test]
fn builtin_names_have_one_home() {
    assert_eq!(canonicalize_type_name("Dict"), "Std.Dict.Dict");
    assert_eq!(canonicalize_type_name("ExitReason"), "Std.Actor.ExitReason");
    assert_eq!(canonicalize_type_name("Mine"), "Mine");
    assert!(is_builtin_canonical("Std.Base.Tuple"));
    assert!(!is_builtin_canonical("Tuple"));
    assert_eq!(bare_type_name("Std.Int.Int"), "Int");
    assert_eq!(bare_type_name("MyMod.Foo"), "Foo");
    assert_eq!(bare_type_name("Handler"), "Handler");
    assert_eq!(mangle_type_name("Std.Int.Int"), "Std_Int_Int");
}

#[test]
fn tuples_are_keyed_by_their_arity() {
    assert_eq!(arity_keyed_target_name("Std.Base.Tuple", 2), "Std.Base.Tuple.2");
    assert_eq!(arity_keyed_target_name("Std.Base.Tuple", 12), "Std.Base.Tuple.12");
    assert_eq!(arity_keyed_target_name("Std.List.List", 1), "Std.List.List");
}

#[test]
fn dictionary_names_hold_trait_arguments_module_and_target() {
    assert_eq!(
        make_dict_name("Std.Base.Show", &vec![], "", "Std.Int.Int"),
        "__dict_Std_Base_Show_Std_Int_Int"
    );
    assert_eq!(
        make_dict_name("M.ConvertTo", &strings(&["A", "B"]), "m", "M.T"),
        "__dict_M_ConvertTo_A_B_m_M_T"
    );
}

#[test]
fn effects_match_by_family_and_by_instantiation() {
    let ints = entry("State", vec![Type::int_type()]);
    let texts = entry("State", vec![Type::string()]);
    assert!(ints.matches(&texts));
    assert!(!ints.same_instantiation(&texts));
    assert!(ints.same_instantiation(&entry("State", vec![Type::int_type()])));
    assert!(!ints.matches(&entry("Log", vec![])));
}

#[test]
fn merging_rows_is_a_union_and_closes_them() {
    let a = open_row(vec![entry("Log", vec![]), entry("State", vec![Type::int_type()])], vec![Type::Var(1)]);
    let b = EffectRow::closed(vec![entry("State", vec![Type::string()]), entry("Log", vec![])]);
    let merged = a.merge(&b);
    assert_eq!(effect_names(&merged), strings(&["Log", "State", "State"]));
    assert!(!merged.is_open());
    assert_eq!(effect_names(&merged.merge(&b)), strings(&["Log", "State", "State"]));
}

#[test]
fn subtracting_leaves_the_unhandled_effects() {
    let row = open_row(
        vec![entry("Log", vec![]), entry("State", vec![Type::int_type()]), entry("State", vec![Type::string()])],
        vec![Type::Var(4)],
    );
    let by_family = row.subtract(&strings(&["State"]));
    assert_eq!(effect_names(&by_family), strings(&["Log"]));
    assert_eq!(by_family.tail_var_ids(), vec![4]);
    let by_entry = row.subtract_entries(&vec![entry("State", vec![Type::string()])]);
    assert_eq!(effect_names(&by_entry), strings(&["Log", "State"]));
    assert!(EffectRow::empty().is_empty());
    assert!(!by_family.is_empty());
}

#[test]
fn tails_that_are_no_variables_have_no_id() {
    let row = open_row(vec![], vec![Type::Var(2), Type::Error, Type::Var(5)]);
    assert_eq!(row.tail_var_ids(), vec![2, 5]);
}

#[test]
fn applying_a_substitution_follows_chains() {
    let mut sub = Substitution::new();
    sub.bind(0, &Type::Var(1)).unwrap();
    sub.bind(1, &con("Std.List.List", vec![Type::Var(2)])).unwrap();
    sub.bind(2, &Type::int_type()).unwrap();
    assert_eq!(sub.solved_count(), 3);
    let t = Type::arrow(Type::Var(0), Type::Var(3));
    let once = sub.apply(&t);
    assert_eq!(once.display(), "List Int -> ?3");
    assert_eq!(sub.apply(&once).display(), once.display());
    assert_eq!(sub.resolve_var(&Type::Var(0)).display(), "List ?2");
    assert_eq!(sub.resolve_var(&Type::Var(3)).display(), "?3");
}

#[test]
fn a_variable_is_not_solved_to_a_type_that_holds_it() {
    let mut sub = Substitution::new();
    sub.bind(1, &Type::Var(0)).unwrap();
    let holding = con("Std.List.List", vec![Type::Var(1)]);
    let e = sub.bind(0, &holding).unwrap_err();
    assert_eq!(e.message, "infinite type: ?0 occurs in List ?1");
    assert!(e.span.is_none());
    assert!(sub.bind(0, &Type::Var(0)).is_ok());
    assert_eq!(sub.solved_count(), 1);
}

#[test]
fn a_bound_variable_and_its_type_become_the_same() {
    let mut sub = Substitution::new();
    let t = Type::arrow(Type::Var(1), Type::string());
    sub.bind(0, &t).unwrap();
    assert_eq!(sub.apply(&Type::Var(0)).display(), sub.apply(&t).display());
}

#[test]
fn row_variables_are_chased_one_by_one() {
    let mut sub = Substitution::new();
    sub.bind_row(10, open_row(vec![entry("Log", vec![])], vec![Type::Var(12)])).unwrap();
    sub.bind_row(11, EffectRow::closed(vec![entry("Log", vec![]), entry("Fail", vec![])])).unwrap();
    let row = open_row(vec![entry("State", vec![])], vec![Type::Var(10), Type::Var(11), Type::Var(12)]);
    let applied = sub.apply_effect_row(&row);
    assert_eq!(effect_names(&applied), strings(&["State", "Log", "Fail"]));
    assert_eq!(applied.tail_var_ids(), vec![12]);
}

#[test]
fn a_row_variable_is_not_bound_to_a_row_that_holds_it() {
    let mut sub = Substitution::new();
    assert!(sub.bind_row(3, open_row(vec![], vec![Type::Var(3)])).is_ok());
    let e = sub.bind_row(3, open_row(vec![entry("Log", vec![])], vec![Type::Var(3)])).unwrap_err();
    assert_eq!(e.message, "infinite effect row: ?3 occurs in its own binding");
}

#[test]
fn schemes_are_shown_with_letters_and_bounds() {
    let scheme = Scheme {
        forall: vec![8, 9],
        constraints: vec![
            ("Show".to_string(), 8, vec![]),
            ("ConvertTo".to_string(), 9, vec![Type::Var(8)]),
            ("Eq".to_string(), 8, vec![]),
        ],
        ty: Type::arrow(Type::Var(8), Type::arrow(Type::Var(9), Type::Var(10))),
    };
    let sub = Substitution::new();
    assert_eq!(
        scheme.display_with_constraints(&sub),
        "a -> b -> ?10 where {a: Show + Eq, b: ConvertTo a}"
    );
    let plain = Scheme { forall: vec![], constraints: vec![], ty: Type::Var(1) };
    assert_eq!(plain.display_with_constraints(&sub), "?1");
    assert_eq!(scheme.display_type(&sub).display(), "a -> b -> ?10");
}

#[test]
fn environments_find_what_was_bound_last() {
    let mut env = TypeEnv::new();
    let of = |ty: Type| Scheme { forall: vec![], constraints: vec![], ty };
    env.insert("x".to_string(), of(Type::int_type()));
    env.insert("y".to_string(), of(Type::Var(5)));
    env.insert("x".to_string(), of(Type::bool()));
    assert_eq!(env.get("x").unwrap().ty.display(), "Bool");
    assert_eq!(env.get("y").unwrap().ty.display(), "?5");
    assert!(env.get("z").is_none());
    assert_eq!(env.iter().len(), 2);
    assert_eq!(env.free_vars(&Substitution::new()), vec![5]);
    env.remove("y");
    assert!(env.get("y").is_none());
}

#[test]
fn a_name_that_is_taken_out_keeps_its_place() {
    let mut env = TypeEnv::new();
    let of = |ty: Type| Scheme { forall: vec![], constraints: vec![], ty };
    env.insert_with_def("x".to_string(), of(Type::int_type()), NodeId(4));
    env.insert_with_def("y".to_string(), of(Type::bool()), NodeId(5));
    env.remove("x");
    assert!(env.get("x").is_none());
    assert_eq!(env.def_id("x"), Some(NodeId(4)));
    assert_eq!(env.get("y").unwrap().ty.display(), "Bool");
    assert_eq!(env.def_id("y"), Some(NodeId(5)));
}

#[test]
fn solving_a_variable_counts_it_once() {
    let mut sub = Substitution::new();
    assert_eq!(sub.solved_count(), 0);
    sub.bind(0, &Type::int_type()).unwrap();
    assert_eq!(sub.solved_count(), 1);
    sub.bind(0, &Type::bool()).unwrap();
    sub.bind(7, &Type::Var(7)).unwrap();
    assert!(sub.bind(8, &con("Std.List.List", vec![Type::Var(8)])).is_err());
    sub.bind_row(9, EffectRow::closed(vec![])).unwrap();
    assert_eq!(sub.solved_count(), 1);
}

#[test]
fn types_and_rows_may_have_variables_of_one_number() {
    let mut sub = Substitution::new();
    sub.bind_row(5, EffectRow::closed(vec![entry("State", vec![Type::Var(1)])])).unwrap();
    sub.bind(1, &Type::Var(5)).unwrap();
    assert_eq!(sub.apply(&Type::Var(1)).display(), "?5");
    let row = sub.apply_effect_row(&open_row(vec![], vec![Type::Var(5)]));
    assert_eq!(row.effects[0].args[0].display(), "?5");
}

#[test]
fn free_variables_come_in_order_once() {
    let row = open_row(vec![entry("State", vec![Type::Var(4)])], vec![Type::Var(2)]);
    let t = fun(Type::Var(3), con("Std.List.List", vec![Type::Var(3), Type::Var(1)]), row);
    let mut vars = vec![];
    collect_free_vars(&t, &mut vars);
    assert_eq!(vars, vec![3, 1, 4, 2]);
}

#[test]
fn replacing_variables_fills_in_types() {
    let mut m: Table<u32, Type> = Table::new();
    m.insert(0, Type::string());
    let t = con("Std.Dict.Dict", vec![Type::Var(0), Type::Var(1)]);
    assert_eq!(replace_vars(&t, &m).display(), "Dict String ?1");
    assert_eq!(replace_vars(&Type::Var(9), &m).display(), "?9");
}

#[test]
fn a_pattern_that_matches_is_the_type_once_filled_in() {
    let pattern = con("Std.Base.Tuple", vec![Type::Var(0), con("Std.List.List", vec![Type::Var(1)])]);
    let actual = con("Std.Base.Tuple", vec![Type::int_type(), con("Std.List.List", vec![Type::bool()])]);
    let mut m: Table<u32, Type> = Table::new();
    assert!(match_type_pattern(&pattern, &actual, &mut m));
    assert_eq!(substitute_pattern_vars(&pattern, &m).display(), actual.display());
    let twice = con("Std.Base.Tuple", vec![Type::Var(0), Type::Var(0)]);
    let mut m: Table<u32, Type> = Table::new();
    assert!(!match_type_pattern(&twice, &actual, &mut m));
}

#[test]
fn a_match_fills_just_the_variables_of_the_pattern() {
    let pattern = con("Std.Base.Tuple", vec![Type::Var(3), Type::Var(7), Type::Var(3)]);
    let actual = con("Std.Base.Tuple", vec![Type::int_type(), Type::Var(9), Type::int_type()]);
    let mut m: Table<u32, Type> = Table::new();
    assert!(match_type_pattern(&pattern, &actual, &mut m));
    assert_eq!(m.len(), 2);
    assert_eq!(m.get(&3).unwrap().display(), "Int");
    assert_eq!(m.get(&7).unwrap().display(), "?9");
}

#[test]
fn impl_targets_have_keys() {
    let pair = con("Std.Base.Tuple", vec![Type::Var(0), Type::Var(1)]);
    assert_eq!(target_key_for_type(&pair), Some("Std.Base.Tuple.2".to_string()));
    assert_eq!(target_key_for_type(&Type::int_type()), Some("Std.Int.Int".to_string()));
    assert_eq!(target_key_for_type(&Type::Var(0)), None);
    assert_eq!(direct_target_var_index(&pair, 1), Some(1));
    assert_eq!(direct_target_var_index(&pair, 7), None);
}

#[test]
fn names_are_taken_apart_at_their_dots() {
    assert_eq!(dot_join("Std.Log", "Log"), "Std.Log.Log");
    assert_eq!(after_last_dot("Std.Log.Log"), "Log");
    assert_eq!(after_last_dot("Log"), "Log");
    assert_eq!(split_last_dot("Std.Log.Log"), Some(("Std.Log".to_string(), "Log".to_string())));
    assert_eq!(split_last_dot("Log"), None);
    assert_eq!(dots_to_underscores("a.b.c"), "a_b_c");
    assert!(has_char("a.b", '.'));
    assert!(!has_char("ab", '.'));
    assert!(starts_with("Std.Int", "Std."));
    assert!(!starts_with("Std", "Std."));
    assert_eq!(join_text(&strings(&["a", "b", "c"]), ", "), "a, b, c");
    assert_eq!(join_text(&vec![], ", "), "");
    assert_eq!(number_text(0), "0");
    assert_eq!(number_text(40960), "40960");
}

#[test]
fn numbers_are_told_by_their_digits() {
    assert!(is_number("0") && is_number("7") && is_number("10") && is_number("2048"));
    assert!(!is_number("") && !is_number("x") && !is_number("1x") && !is_number("07"));
}

#[test]
fn names_are_sorted_by_their_characters() {
    assert_eq!(sort_texts(&strings(&["b", "a", "B", "ab", "a"])), strings(&["B", "a", "a", "ab", "b"]));
    assert_eq!(ordered_set(&strings(&["b", "a", "b"])), strings(&["a", "b"]));
    assert!(text_at_most("a", "ab"));
    assert!(text_at_most("ab", "ab"));
    assert!(!text_at_most("b", "ab"));
}
