use lcm::parser::{parse_file, LcmParser, Pair, Rule};
use lcm::ast::{Comment, Constant, Field, File, Multiplicity, Namespace, Struct, Type};

fn t(rule: Rule, start: usize, end: usize, children: Vec<Pair>) -> Pair {
    Pair { rule, start, end, children }
}

fn leaf(rule: Rule, start: usize, end: usize) -> Pair {
    t(rule, start, end, vec![])
}

fn parses_to(rule: Rule, input: &str, expected: Pair) {
    let got = LcmParser::parse(rule, input).expect("input should parse");
    assert_eq!(got, vec![expected]);
}

#[test]
fn package() {
    parses_to(
        Rule::lcm_package,
        "package exlcm ;",
        t(Rule::lcm_package, 0, 15, vec![leaf(Rule::package_name, 8, 13)]),
    );
}

#[test]
fn float_literal() {
    parses_to(Rule::float_literal, "1.23", leaf(Rule::float_literal, 0, 4));
}

#[test]
fn exponents() {
    parses_to(Rule::float_literal, "1e6", leaf(Rule::float_literal, 0, 3));
}

#[test]
fn member_type() {
    parses_to(Rule::lcm_type, "int32_t", t(Rule::lcm_type, 0, 7, vec![leaf(Rule::int32_t, 0, 7)]));
}

#[test]
fn member() {
    parses_to(
        Rule::member,
        "int32_t foo ;",
        t(
            Rule::member,
            0,
            13,
            vec![
                t(Rule::lcm_type, 0, 7, vec![leaf(Rule::int32_t, 0, 7)]),
                leaf(Rule::member_name, 8, 11),
            ],
        ),
    );
}

#[test]
fn multiplicity_constant() {
    parses_to(
        Rule::multiplicity,
        "[16]",
        t(Rule::multiplicity, 0, 4, vec![leaf(Rule::unsigned_int_literal, 1, 3)]),
    );
}

#[test]
fn multiplicity_variable() {
    parses_to(
        Rule::multiplicity,
        "[num_elements]",
        t(Rule::multiplicity, 0, 14, vec![leaf(Rule::member_name, 1, 13)]),
    );
}

#[test]
fn member_2d_array() {
    parses_to(
        Rule::member,
        "int32_t foo[3][count];",
        t(
            Rule::member,
            0,
            22,
            vec![
                t(Rule::lcm_type, 0, 7, vec![leaf(Rule::int32_t, 0, 7)]),
                leaf(Rule::member_name, 8, 11),
                t(Rule::multiplicity, 11, 14, vec![leaf(Rule::unsigned_int_literal, 12, 13)]),
                t(Rule::multiplicity, 14, 21, vec![leaf(Rule::member_name, 15, 20)]),
            ],
        ),
    );
}

#[test]
fn constant() {
    parses_to(
        Rule::constant,
        "E=2.8718",
        t(
            Rule::constant,
            0,
            8,
            vec![
                leaf(Rule::constant_name, 0, 1),
                t(Rule::constant_value, 2, 8, vec![leaf(Rule::float_literal, 2, 8)]),
            ],
        ),
    );
}

#[test]
fn simple_constant() {
    parses_to(
        Rule::constant_group,
        "const double E=2.8718;",
        t(
            Rule::constant_group,
            0,
            22,
            vec![
                t(Rule::lcm_type, 6, 12, vec![leaf(Rule::double, 6, 12)]),
                t(
                    Rule::constant,
                    13,
                    21,
                    vec![
                        leaf(Rule::constant_name, 13, 14),
                        t(Rule::constant_value, 15, 21, vec![leaf(Rule::float_literal, 15, 21)]),
                    ],
                ),
            ],
        ),
    );
}

fn int_constant(start: usize, name_end: usize, value: usize, end: usize) -> Pair {
    t(
        Rule::constant,
        start,
        end,
        vec![
            leaf(Rule::constant_name, start, name_end),
            t(Rule::constant_value, value, end, vec![leaf(Rule::int_literal, value, end)]),
        ],
    )
}

#[test]
fn multiple_constants() {
    parses_to(
        Rule::constant_group,
        "const int32_t YELLOW=1, GOLDENROD=2, CANARY=3;",
        t(
            Rule::constant_group,
            0,
            46,
            vec![
                t(Rule::lcm_type, 6, 13, vec![leaf(Rule::int32_t, 6, 13)]),
                int_constant(14, 20, 21, 22),
                int_constant(24, 33, 34, 35),
                int_constant(37, 43, 44, 45),
            ],
        ),
    );
}

#[test]
fn lcm_struct() {
    parses_to(
        Rule::lcm_struct,
        "struct foo_t {}",
        t(Rule::lcm_struct, 0, 15, vec![leaf(Rule::struct_name, 7, 12)]),
    );
}

#[test]
fn line_comment() {
    parses_to(
        Rule::comment,
        "// comment",
        t(Rule::comment, 0, 10, vec![leaf(Rule::line_comment, 0, 10)]),
    );
}

#[test]
fn multiline_comment() {
    parses_to(
        Rule::comment,
        r#"// line 1
    // line 2"#,
        t(
            Rule::comment,
            0,
            23,
            vec![leaf(Rule::line_comment, 0, 9), leaf(Rule::line_comment, 14, 23)],
        ),
    );
}

#[test]
fn block_comment() {
    parses_to(
        Rule::comment,
        r#"/* A comment
on multiple
lines */"#,
        t(Rule::comment, 0, 33, vec![leaf(Rule::block_comment, 0, 33)]),
    );
}

#[test]
fn blank_line_separates_comments() {
    let input = "// a\n\n// b\nstruct s_t {}\n";
    let got = LcmParser::parse(Rule::lcm_file, input).unwrap();
    assert_eq!(
        got,
        vec![t(
            Rule::lcm_file,
            0,
            25,
            vec![
                t(Rule::comment, 0, 4, vec![leaf(Rule::line_comment, 0, 4)]),
                t(Rule::comment, 6, 10, vec![leaf(Rule::line_comment, 6, 10)]),
                t(Rule::lcm_struct, 11, 24, vec![leaf(Rule::struct_name, 18, 21)]),
            ],
        )]
    );
}

#[test]
fn rejects_malformed_input() {
    assert!(LcmParser::parse(Rule::member, "int32_t ;").is_err());
    assert!(LcmParser::parse(Rule::lcm_struct, "struct foo_t {").is_err());
    assert!(LcmParser::parse(Rule::lcm_file, "struct a {} garbage").is_err());
    assert!(LcmParser::parse(Rule::float_literal, "12").is_err());
}

#[test]
fn parse_file_builds_the_tree() {
    let input = "package mycorp;\n\n// A point list.\nstruct point2d_list_t {\n    int32_t npoints;\n    // The points.\n    double points[npoints][2];\n    const int32_t YELLOW=1, RED=2;\n    mit.pose_t pose;\n}\n";
    let file = parse_file(input).unwrap();
    assert_eq!(file.namespaces.len(), 1);
    assert_eq!(file.namespaces[0].0, "mycorp");
    assert_eq!(file.structs.len(), 1);
    let s = &file.structs[0];
    assert_eq!(s.name, "point2d_list_t");
    assert_eq!(s.comment.as_ref().unwrap().0, " A point list.");
    assert_eq!(s.fields.len(), 3);
    assert_eq!(s.fields[0].name, "npoints");
    assert_eq!(s.fields[0].ty, Type::Int32);
    assert_eq!(s.fields[1].comment.as_ref().unwrap().0, " The points.");
    assert_eq!(
        s.fields[1].multiplicity,
        vec![Multiplicity::Variable("npoints".to_string()), Multiplicity::Constant(2)]
    );
    assert_eq!(s.constants.len(), 2);
    assert_eq!(s.constants[1].name, "RED");
    assert_eq!(s.constants[1].value, "2");
    match &s.fields[2].ty {
        Type::Struct(ns, name) => {
            assert_eq!(ns.len(), 1);
            assert_eq!(ns[0].0, "mit");
            assert_eq!(name, "pose_t");
        }
        other => panic!("unexpected type {:?}", other),
    }
}

const POINT2D_LIST: &str =
    "struct point2d_list_t {\n    int32_t npoints;\n    double  points[npoints][2];\n}";
const MY_CONSTANTS: &str = "struct my_constants_t {\n    const int32_t YELLOW=1, GOLDENROD=2, CANARY=3;\n    const double E=2.8718;\n}";
const CAMERA_IMAGE: &str = "package mycorp;\n struct camera_image_t {\n    int64_t      utime;\n    string       camera_name;\n    jpeg.image_t jpeg_image;\n    mit.pose_t   pose;\n}\n";
const MULTIPLE_STRUCTS: &str = "struct A {\n        B b;\n        C c;\n}\n struct B {\n        A a;\n}\n struct C {\n        B b;\n}\n";

fn record_member(start: usize, name: usize, end: usize) -> Pair {
    t(
        Rule::member,
        start,
        end,
        vec![
            t(
                Rule::lcm_type,
                start,
                start + 1,
                vec![t(Rule::message_t, start, start + 1, vec![leaf(Rule::struct_name, start, start + 1)])],
            ),
            leaf(Rule::member_name, name, name + 1),
        ],
    )
}

#[test]
fn struct_with_array() {
    parses_to(
        Rule::lcm_struct,
        POINT2D_LIST,
        t(
            Rule::lcm_struct,
            0,
            78,
            vec![
                leaf(Rule::struct_name, 7, 21),
                t(
                    Rule::member,
                    28,
                    44,
                    vec![
                        t(Rule::lcm_type, 28, 35, vec![leaf(Rule::int32_t, 28, 35)]),
                        leaf(Rule::member_name, 36, 43),
                    ],
                ),
                t(
                    Rule::member,
                    49,
                    76,
                    vec![
                        t(Rule::lcm_type, 49, 55, vec![leaf(Rule::double, 49, 55)]),
                        leaf(Rule::member_name, 57, 63),
                        t(Rule::multiplicity, 63, 72, vec![leaf(Rule::member_name, 64, 71)]),
                        t(Rule::multiplicity, 72, 75, vec![leaf(Rule::unsigned_int_literal, 73, 74)]),
                    ],
                ),
            ],
        ),
    );
}

#[test]
fn struct_with_constants() {
    parses_to(
        Rule::lcm_struct,
        MY_CONSTANTS,
        t(
            Rule::lcm_struct,
            0,
            103,
            vec![
                leaf(Rule::struct_name, 7, 21),
                t(
                    Rule::constant_group,
                    28,
                    74,
                    vec![
                        t(Rule::lcm_type, 34, 41, vec![leaf(Rule::int32_t, 34, 41)]),
                        int_constant(42, 48, 49, 50),
                        int_constant(52, 61, 62, 63),
                        int_constant(65, 71, 72, 73),
                    ],
                ),
                t(
                    Rule::constant_group,
                    79,
                    101,
                    vec![
                        t(Rule::lcm_type, 85, 91, vec![leaf(Rule::double, 85, 91)]),
                        t(
                            Rule::constant,
                            92,
                            100,
                            vec![
                                leaf(Rule::constant_name, 92, 93),
                                t(Rule::constant_value, 94, 100, vec![leaf(Rule::float_literal, 94, 100)]),
                            ],
                        ),
                    ],
                ),
            ],
        ),
    );
}

#[test]
fn struct_with_namespace() {
    let namespaced = |start: usize, dot: usize, end: usize, name: usize, name_end: usize, m_end: usize| {
        t(
            Rule::member,
            start,
            m_end,
            vec![
                t(
                    Rule::lcm_type,
                    start,
                    end,
                    vec![t(
                        Rule::message_t,
                        start,
                        end,
                        vec![leaf(Rule::package_name, start, dot), leaf(Rule::struct_name, dot + 1, end)],
                    )],
                ),
                leaf(Rule::member_name, name, name_end),
            ],
        )
    };
    parses_to(
        Rule::lcm_file,
        CAMERA_IMAGE,
        t(
            Rule::lcm_file,
            0,
            149,
            vec![
                t(Rule::lcm_package, 0, 15, vec![leaf(Rule::package_name, 8, 14)]),
                t(
                    Rule::lcm_struct,
                    17,
                    148,
                    vec![
                        leaf(Rule::struct_name, 24, 38),
                        t(
                            Rule::member,
                            45,
                            64,
                            vec![
                                t(Rule::lcm_type, 45, 52, vec![leaf(Rule::int64_t, 45, 52)]),
                                leaf(Rule::member_name, 58, 63),
                            ],
                        ),
                        t(
                            Rule::member,
                            69,
                            94,
                            vec![
                                t(Rule::lcm_type, 69, 75, vec![leaf(Rule::string, 69, 75)]),
                                leaf(Rule::member_name, 82, 93),
                            ],
                        ),
                        namespaced(99, 103, 111, 112, 122, 123),
                        namespaced(128, 131, 138, 141, 145, 146),
                    ],
                ),
            ],
        ),
    );
}

#[test]
fn multiple_structs() {
    parses_to(
        Rule::lcm_file,
        MULTIPLE_STRUCTS,
        t(
            Rule::lcm_file,
            0,
            93,
            vec![
                t(
                    Rule::lcm_struct,
                    0,
                    38,
                    vec![leaf(Rule::struct_name, 7, 8), record_member(19, 21, 23), record_member(32, 34, 36)],
                ),
                t(
                    Rule::lcm_struct,
                    40,
                    65,
                    vec![leaf(Rule::struct_name, 47, 48), record_member(59, 61, 63)],
                ),
                t(
                    Rule::lcm_struct,
                    67,
                    92,
                    vec![leaf(Rule::struct_name, 74, 75), record_member(86, 88, 90)],
                ),
            ],
        ),
    );
}

fn record_field(name: &str, ty: Type) -> Field {
    Field { comment: None, name: name.into(), ty, multiplicity: vec![] }
}

#[test]
fn parse_multiple_structs() {
    let file = parse_file(MULTIPLE_STRUCTS).expect("Failed to parse file.");
    assert_eq!(
        file,
        File {
            namespaces: vec![],
            structs: vec![
                Struct {
                    comment: None,
                    name: "A".into(),
                    fields: vec![
                        record_field("b", Type::Struct(vec![], "B".into())),
                        record_field("c", Type::Struct(vec![], "C".into())),
                    ],
                    constants: vec![],
                },
                Struct {
                    comment: None,
                    name: "B".into(),
                    fields: vec![record_field("a", Type::Struct(vec![], "A".into()))],
                    constants: vec![],
                },
                Struct {
                    comment: None,
                    name: "C".into(),
                    fields: vec![record_field("b", Type::Struct(vec![], "B".into()))],
                    constants: vec![],
                },
            ],
        }
    );
}

#[test]
fn parse_point2d_list() {
    let file = parse_file(POINT2D_LIST).expect("Failed to parse file.");
    assert_eq!(
        file,
        File {
            namespaces: vec![],
            structs: vec![Struct {
                comment: None,
                name: "point2d_list_t".into(),
                fields: vec![
                    record_field("npoints", Type::Int32),
                    Field {
                        comment: None,
                        name: "points".into(),
                        ty: Type::Double,
                        multiplicity: vec![
                            Multiplicity::Variable("npoints".into()),
                            Multiplicity::Constant(2),
                        ],
                    },
                ],
                constants: vec![],
            }],
        }
    );
}

#[test]
fn parse_camera_image() {
    let file = parse_file(CAMERA_IMAGE).expect("Failed to parse file.");
    assert_eq!(
        file,
        File {
            namespaces: vec![Namespace("mycorp".into())],
            structs: vec![Struct {
                comment: None,
                name: "camera_image_t".into(),
                fields: vec![
                    record_field("utime", Type::Int64),
                    record_field("camera_name", Type::String),
                    record_field(
                        "jpeg_image",
                        Type::Struct(vec![Namespace("jpeg".into())], "image_t".into()),
                    ),
                    record_field("pose", Type::Struct(vec![Namespace("mit".into())], "pose_t".into())),
                ],
                constants: vec![],
            }],
        }
    );
}

#[test]
fn parse_my_constants() {
    let file = parse_file(MY_CONSTANTS).expect("Failed to parse file.");
    let constant = |name: &str, ty: Type, value: &str| Constant {
        comment: None,
        name: name.into(),
        ty,
        value: value.into(),
    };
    assert_eq!(
        file,
        File {
            namespaces: vec![],
            structs: vec![Struct {
                comment: None,
                name: "my_constants_t".into(),
                fields: vec![],
                constants: vec![
                    constant("YELLOW", Type::Int32, "1"),
                    constant("GOLDENROD", Type::Int32, "2"),
                    constant("CANARY", Type::Int32, "3"),
                    constant("E", Type::Double, "2.8718"),
                ],
            }],
        }
    );
}

const TEMPERATURE: &str = "struct temperature_t {\n    int64_t   utime;\n        // Time of the sample, in us.\n     /* Temperature in degrees Celsius. A \"float\" would probably\n     * be good enough, unless we're measuring temperatures during\n     * the big bang. Note that the asterisk on the beginning of this\n     * line is not syntactically necessary, it's just pretty.\n     */\n    double    degCelsius;\n}";
const COMMENTS: &str = "// An example of comments in an LCM type definition.\n\n// This is a comment\n// that spans multiple lines\nstruct my_struct_t {\n    // Horizontal position in meters.\n    int32_t x;\n    // Vertical position in meters.\n    int32_t y;\n}\n";

fn int32_member(start: usize, name: usize) -> Pair {
    t(
        Rule::member,
        start,
        name + 2,
        vec![
            t(Rule::lcm_type, start, start + 7, vec![leaf(Rule::int32_t, start, start + 7)]),
            leaf(Rule::member_name, name, name + 1),
        ],
    )
}

fn line_comment_group(start: usize, end: usize) -> Pair {
    t(Rule::comment, start, end, vec![leaf(Rule::line_comment, start, end)])
}

#[test]
fn struct_with_comments() {
    parses_to(
        Rule::lcm_struct,
        TEMPERATURE,
        t(
            Rule::lcm_struct,
            0,
            379,
            vec![
                leaf(Rule::struct_name, 7, 20),
                t(
                    Rule::member,
                    27,
                    43,
                    vec![
                        t(Rule::lcm_type, 27, 34, vec![leaf(Rule::int64_t, 27, 34)]),
                        leaf(Rule::member_name, 37, 42),
                    ],
                ),
                line_comment_group(52, 81),
                t(Rule::comment, 87, 351, vec![leaf(Rule::block_comment, 87, 351)]),
                t(
                    Rule::member,
                    356,
                    377,
                    vec![
                        t(Rule::lcm_type, 356, 362, vec![leaf(Rule::double, 356, 362)]),
                        leaf(Rule::member_name, 366, 376),
                    ],
                ),
            ],
        ),
    );
}

#[test]
fn comments() {
    parses_to(
        Rule::lcm_file,
        COMMENTS,
        t(
            Rule::lcm_file,
            0,
            231,
            vec![
                line_comment_group(0, 52),
                t(
                    Rule::comment,
                    54,
                    103,
                    vec![leaf(Rule::line_comment, 54, 74), leaf(Rule::line_comment, 75, 103)],
                ),
                t(
                    Rule::lcm_struct,
                    104,
                    230,
                    vec![
                        leaf(Rule::struct_name, 111, 122),
                        line_comment_group(129, 162),
                        int32_member(167, 175),
                        line_comment_group(182, 213),
                        int32_member(218, 226),
                    ],
                ),
            ],
        ),
    );
}

#[test]
fn parse_temperature() {
    let file = parse_file(TEMPERATURE).expect("Failed to parse file.");
    assert_eq!(
        file,
        File {
            namespaces: vec![],
            structs: vec![Struct {
                comment: None,
                name: "temperature_t".into(),
                fields: vec![
                    record_field("utime", Type::Int64),
                    Field {
                        comment: Some(Comment(
                            r#" Temperature in degrees Celsius. A "float" would probably
     * be good enough, unless we're measuring temperatures during
     * the big bang. Note that the asterisk on the beginning of this
     * line is not syntactically necessary, it's just pretty.
     "#
                            .into(),
                        )),
                        name: "degCelsius".into(),
                        ty: Type::Double,
                        multiplicity: vec![],
                    },
                ],
                constants: vec![],
            }],
        }
    );
}

#[test]
fn parse_struct_with_comments() {
    let file = parse_file(COMMENTS).expect("Failed to parse file.");
    assert_eq!(
        file,
        File {
            namespaces: vec![],
            structs: vec![Struct {
                comment: Some(Comment(
                    r#" This is a comment
 that spans multiple lines"#
                        .into(),
                )),
                name: "my_struct_t".into(),
                fields: vec![
                    Field {
                        comment: Some(Comment(" Horizontal position in meters.".into())),
                        name: "x".into(),
                        ty: Type::Int32,
                        multiplicity: vec![],
                    },
                    Field {
                        comment: Some(Comment(" Vertical position in meters.".into())),
                        name: "y".into(),
                        ty: Type::Int32,
                        multiplicity: vec![],
                    },
                ],
                constants: vec![],
            }],
        }
    );
}
