use roboprec::identifier::{IdSize, Identifier, VarType};
use roboprec::naming::{add_name, clear_all_names, gen_unique_id, generate_name_if_needed, Namer};

#[test]
fn test_add_name_returns_new_name_unchanged() {
    let mut namer = Namer::new();
    assert_eq!(add_name(&mut namer, "tmp"), "tmp");
    assert_eq!(add_name(&mut namer, "other"), "other");
}

#[test]
fn test_add_name_twice_never_repeats() {
    let mut namer = Namer::new();
    let first = add_name(&mut namer, "tmp");
    let second = add_name(&mut namer, "tmp");
    let third = add_name(&mut namer, "tmp");
    assert_eq!(first, "tmp");
    assert_eq!(second, "r_1_tmp");
    assert_eq!(third, "r_2_tmp");
    assert_ne!(first, second);
    assert_ne!(second, third);
}

#[test]
fn test_add_name_keeps_leading_underscores() {
    let mut namer = Namer::new();
    assert_eq!(add_name(&mut namer, "_x"), "_x");
    assert_eq!(add_name(&mut namer, "__x_"), "__x_");
    assert_eq!(add_name(&mut namer, "x"), "x");
    assert_eq!(add_name(&mut namer, "_x"), "r_1__x");
}

#[test]
fn test_add_name_of_empty_name() {
    let mut namer = Namer::new();
    assert_eq!(add_name(&mut namer, ""), "");
    assert_eq!(add_name(&mut namer, "___"), "___");
    assert_eq!(add_name(&mut namer, ""), "r_1");
    assert_eq!(add_name(&mut namer, ""), "r_2");
}

#[test]
fn test_add_name_goes_on_to_a_free_variant() {
    let mut namer = Namer::new();
    assert_eq!(add_name(&mut namer, "x"), "x");
    assert_eq!(add_name(&mut namer, "r_1_x"), "r_1_x");
    assert_eq!(add_name(&mut namer, "r_2_x"), "r_2_x");
    assert_eq!(add_name(&mut namer, "x"), "r_3_x");
    assert_eq!(add_name(&mut namer, "x"), "r_4_x");
    assert_eq!(add_name(&mut namer, "y"), "y");
    assert_eq!(add_name(&mut namer, "y"), "r_5_y");
}

#[test]
fn test_add_name_of_an_overlong_name_whose_variants_are_taken() {
    let mut namer = Namer::new();
    let long = "b".repeat(45);
    assert_eq!(add_name(&mut namer, "r_2_var_1"), "r_2_var_1");
    assert_eq!(add_name(&mut namer, "var_1"), "var_1");
    assert_eq!(add_name(&mut namer, &long), "r_3_var_1");
    assert_eq!(add_name(&mut namer, &long), "var_4");
}

#[test]
fn test_add_name_replaces_overlong_names() {
    let mut namer = Namer::new();
    let forty = "a".repeat(40);
    let forty_one = "a".repeat(41);
    assert_eq!(add_name(&mut namer, &forty), forty);
    assert_eq!(add_name(&mut namer, &forty_one), "var_1");
    assert_eq!(add_name(&mut namer, &forty_one), "var_2");
    assert_eq!(add_name(&mut namer, "var_3"), "var_3");
    assert_eq!(add_name(&mut namer, &forty_one), "r_4_var_3");
}

#[test]
fn test_generate_name_does_not_record() {
    let mut namer = Namer::new();
    assert_eq!(generate_name_if_needed(&mut namer, "x"), "x");
    assert_eq!(generate_name_if_needed(&mut namer, "x"), "x");
    assert_eq!(add_name(&mut namer, "x"), "x");
    assert_eq!(generate_name_if_needed(&mut namer, "x"), "r_1_x");
}

#[test]
fn test_clear_all_names_forgets_names_but_not_ids() {
    let mut namer = Namer::new();
    assert_eq!(gen_unique_id(&mut namer), 1);
    assert_eq!(add_name(&mut namer, "x"), "x");
    assert_eq!(add_name(&mut namer, "x"), "r_1_x");
    clear_all_names(&mut namer);
    assert_eq!(add_name(&mut namer, "x"), "x");
    assert_eq!(add_name(&mut namer, "x"), "r_1_x");
    assert_eq!(gen_unique_id(&mut namer), 2);
}

#[test]
fn test_reset_starts_over() {
    let mut namer = Namer::new();
    assert_eq!(gen_unique_id(&mut namer), 1);
    assert_eq!(gen_unique_id(&mut namer), 2);
    add_name(&mut namer, "x");
    namer.reset();
    assert_eq!(gen_unique_id(&mut namer), 1);
    assert_eq!(add_name(&mut namer, "x"), "x");
}

#[test]
fn test_has_room() {
    let namer = Namer::new();
    assert!(namer.has_room(0));
    assert!(namer.has_room(1000));
    assert!(namer.has_room(usize::MAX));
    let mut used = Namer::new();
    let first = gen_unique_id(&mut used);
    assert_eq!(first, 1);
    assert!(used.has_room(usize::MAX - 1));
    assert!(!used.has_room(usize::MAX));
}

#[test]
fn test_identifiers_are_numbered_in_order() {
    let mut namer = Namer::new();
    let a = Identifier::new_scalar(&mut namer, "a");
    let b = Identifier::new_vector(&mut namer, "b", 3);
    let c = Identifier::new_matrix(&mut namer, "a", 2, 4);
    assert_eq!(a.id, 1);
    assert_eq!(b.id, 2);
    assert_eq!(c.id, 3);
    assert_eq!(a.name(), "a");
    assert_eq!(b.name(), "b");
    assert_eq!(c.name(), "r_1_a");
    assert_eq!(a.var_type, VarType::Scalar);
    assert_eq!(b.var_type, VarType::Vector);
    assert_eq!(c.var_type, VarType::Matrix);
    assert_eq!(a.size, IdSize::Scalar);
    assert_eq!(b.size, IdSize::Vector { len: 3 });
    assert_eq!(c.size, IdSize::Matrix { row_size: 2, col_size: 4 });
}

#[test]
fn test_identifiers_are_equal_by_number() {
    let mut namer = Namer::new();
    let a = Identifier::new_scalar(&mut namer, "a");
    let b = Identifier::new_scalar(&mut namer, "a");
    let mut renamed = a.clone();
    renamed.name = "something_else".to_string();
    assert!(a == renamed);
    assert!(a != b);
    assert!(a == a.clone());
}

#[test]
fn test_shape_gives_kind() {
    assert_eq!(IdSize::Scalar.var_type(), VarType::Scalar);
    assert_eq!(IdSize::Vector { len: 0 }.var_type(), VarType::Vector);
    assert_eq!(IdSize::Matrix { row_size: 1, col_size: 1 }.var_type(), VarType::Matrix);
}

#[test]
fn test_names_stay_distinct_over_many_requests() {
    let mut namer = Namer::new();
    let mut seen = std::collections::HashSet::new();
    for request in ["x", "x", "y", "x", "", "", "y", "tmp", "x"] {
        let name = add_name(&mut namer, request);
        assert!(seen.insert(name.clone()), "{} was handed out twice", name);
    }
    assert_eq!(seen.len(), 9);
}

#[test]
fn test_names_stay_distinct_when_variants_are_asked_for_by_name() {
    let mut namer = Namer::new();
    let mut seen = std::collections::HashSet::new();
    let long = "c".repeat(50);
    for request in [
        "x", "r_1_x", "x", "r_2_x", "x", "var_1", long.as_str(), "r_4_var_1", long.as_str(), "_x",
        "_x", "", "r_1", "",
    ] {
        let name = add_name(&mut namer, request);
        assert!(name.chars().count() <= 40);
        assert!(seen.insert(name.clone()), "{} was handed out twice", name);
    }
}
