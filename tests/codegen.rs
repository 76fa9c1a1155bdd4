use lcm::ast::{Comment, Constant, Field, File, Module, Multiplicity, Namespace, Struct, Type};
use lcm::codegen::{self, make_struct_name, Config};

#[test]
fn simple_struct() {
    let module = Module {
        submodules: vec![],
        structs: vec![Struct {
            comment: None,
            name: "MyType".into(),
            fields: vec![Field {
                comment: None,
                name: "field".into(),
                ty: Type::Double,
                multiplicity: vec![],
            }],
            constants: vec![],
        }],
    };

    let generated = codegen::generate(&module);

    let expected = r#"#[derive(Clone, Debug, Message)]
pub struct MyType {
    pub field: f64,
}
"#;

    assert_eq!(generated, expected);
}

#[test]
fn optional_traits() {
    let module = Module {
        submodules: vec![],
        structs: vec![Struct {
            comment: None,
            name: "MyType".into(),
            fields: vec![],
            constants: vec![],
        }],
    };

    let config = Config {
        additional_traits: vec!["Serialize".into(), "Deserialize".into(), "PartialEq".into()],
        ..Config::new()
    };
    let generated = codegen::generate_with_config(&module, &config);

    let expected = r#"#[derive(Clone, Debug, Deserialize, Message, PartialEq, Serialize)]
pub struct MyType {
}
"#;

    assert_eq!(generated, expected);
}

#[test]
fn arrays_constants_comments_and_modules() {
    let mut root = Module::new();
    root.add_struct(
        &[Namespace("foo".into()), Namespace("bar".into())],
        Struct {
            comment: Some(Comment(" Points.".into())),
            name: "point_list_t".into(),
            fields: vec![
                Field { comment: None, name: "n".into(), ty: Type::Int32, multiplicity: vec![] },
                Field {
                    comment: Some(Comment(" xy".into())),
                    name: "pts".into(),
                    ty: Type::Struct(vec![Namespace("geo".into())], "point_t".into()),
                    multiplicity: vec![Multiplicity::Variable("n".into()), Multiplicity::Constant(2)],
                },
            ],
            constants: vec![Constant {
                comment: None,
                name: "MAX".into(),
                ty: Type::Int8,
                value: "3".into(),
            }],
        },
    );
    let generated = codegen::generate(&root);
    let expected = r##"pub mod foo {
    pub mod bar {
        #[doc = r#" Points."#]
        #[derive(Clone, Debug, Message)]
        pub struct PointList {
            pub n: i32,
            #[doc = r#" xy"#]
            #[lcm(length = "n")]
            pub pts: Vec<[geo::Point; 2]>,
        }
        impl PointList {
            pub const MAX: i8 = 3;
        }
    }
}
"##;
    assert_eq!(generated, expected);
}

#[test]
fn struct_names() {
    assert_eq!(make_struct_name("temperature_t"), "Temperature");
    assert_eq!(make_struct_name("point2d_list_t"), "Point2dList");
    assert_eq!(make_struct_name("MyType"), "MyType");
}

#[test]
fn add_package_prefix() {
    let mut file = File { namespaces: vec![Namespace("ns".into())], structs: vec![] };
    file.add_package_prefix("one.two");
    assert_eq!(
        file.namespaces,
        vec![Namespace("one".into()), Namespace("two".into()), Namespace("ns".into())]
    );
}

#[test]
fn struct_with_namespace_creates_submodules() {
    let mut root_module = Module::new();

    let path = vec![Namespace("foo".into()), Namespace("bar".into())];
    root_module.add_struct(
        &path,
        Struct { comment: None, name: "S".into(), fields: vec![], constants: vec![] },
    );

    assert!(root_module.structs.is_empty());
    assert_eq!(root_module.submodules.len(), 1);
    assert_eq!(root_module.submodules[0].0, Namespace("foo".into()));
    let foo_module = &root_module.submodules[0].1;
    assert_eq!(foo_module.submodules[0].0, Namespace("bar".into()));
    let bar_module = &foo_module.submodules[0].1;
    assert_eq!(bar_module.structs.len(), 1);
}
