use lcm::schema::{calculate_hash, combine_hash, Dim, Field, Ty};

fn field(name: &str, base_type: Ty, dims: Vec<Dim>) -> Field {
    Field { name: name.to_string(), base_type, dims }
}

fn hash_of(fields: &Vec<Field>, referents: &Vec<u64>) -> u64 {
    combine_hash(calculate_hash(fields), referents)
}

#[test]
fn hashes() {
    let member_group = vec![
        field("x", Ty::Double, vec![]),
        field("y", Ty::Double, vec![]),
        field("z", Ty::Double, vec![]),
    ];
    let my_constants: Vec<Field> = vec![];
    let my_struct = vec![field("x", Ty::Int32, vec![]), field("y", Ty::Int32, vec![])];
    let point2d_list = vec![
        field("npoints", Ty::Int32, vec![]),
        field(
            "points",
            Ty::Double,
            vec![Dim::Variable("npoints".to_string()), Dim::Fixed(2)],
        ),
    ];
    let temperature =
        vec![field("utime", Ty::Int64, vec![]), field("degCelsius", Ty::Double, vec![])];
    assert_eq!(hash_of(&member_group, &vec![]), 0xae7e5fba5eeca11e);
    assert_eq!(hash_of(&my_constants, &vec![]), 0x000000002468acf0);
    assert_eq!(hash_of(&my_struct, &vec![]), 0x4fab8e09620e9ec9);
    assert_eq!(hash_of(&point2d_list, &vec![]), 0x4f85d1e7da2fc594);
    assert_eq!(hash_of(&temperature, &vec![]), 0xa07fa3d64cbea6ea);
}

#[test]
fn hash_changes_with_field_name_type_and_dims() {
    let base = vec![
        field("npoints", Ty::Int32, vec![]),
        field("points", Ty::Double, vec![Dim::Variable("npoints".to_string()), Dim::Fixed(2)]),
    ];
    let h = calculate_hash(&base);
    let renamed = vec![
        field("npoints", Ty::Int32, vec![]),
        field("pts", Ty::Double, vec![Dim::Variable("npoints".to_string()), Dim::Fixed(2)]),
    ];
    let retyped = vec![
        field("npoints", Ty::Int32, vec![]),
        field("points", Ty::Float, vec![Dim::Variable("npoints".to_string()), Dim::Fixed(2)]),
    ];
    let fixed_changed = vec![
        field("npoints", Ty::Int32, vec![]),
        field("points", Ty::Double, vec![Dim::Variable("npoints".to_string()), Dim::Fixed(3)]),
    ];
    let referent_changed = vec![
        field("npoints", Ty::Int32, vec![]),
        field("points", Ty::Double, vec![Dim::Variable("count".to_string()), Dim::Fixed(2)]),
    ];
    assert_ne!(calculate_hash(&renamed), h);
    assert_ne!(calculate_hash(&retyped), h);
    assert_ne!(calculate_hash(&fixed_changed), h);
    assert_ne!(calculate_hash(&referent_changed), h);
}

#[test]
fn hash_ignores_referenced_type_names() {
    let a = vec![field("pose", Ty::User("pose_t".to_string()), vec![])];
    let b = vec![field("pose", Ty::User("position_t".to_string()), vec![])];
    assert_eq!(calculate_hash(&a), calculate_hash(&b));
    let referent = 0x1234_5678_9abc_def0u64;
    assert_eq!(hash_of(&a, &vec![referent]), hash_of(&b, &vec![referent]));
    assert_ne!(hash_of(&a, &vec![referent]), hash_of(&a, &vec![]));
}

#[test]
fn type_tags_and_dimension_text() {
    assert_eq!(Ty::Int8.as_str(), "int8_t");
    assert_eq!(Ty::Boolean.as_str(), "boolean");
    assert_eq!(Ty::User("pose_t".to_string()).as_str(), "pose_t");
    assert!(Ty::Double.is_primitive_type());
    assert!(!Ty::User("x".to_string()).is_primitive_type());
    assert_eq!(Ty::Int16.size(), Some(2));
    assert_eq!(Ty::String.size(), None);
    assert_eq!(Dim::Fixed(120).as_cow(), "120");
    assert_eq!(Dim::Variable("n".to_string()).as_cow(), "n");
    assert_eq!(Dim::Fixed(0).mode(), 0);
    assert_eq!(Dim::Variable("n".to_string()).mode(), 1);
}
