use rand::RngCore;
use heel_gun::target::{ArgGenerator, ArgSample, Method, TestArg, TestTarget};
use rand_pcg::Pcg64Mcg;

fn rng() -> Pcg64Mcg {
    Pcg64Mcg::new(0xcafe_f00d_d15e_a5e5)
}

fn fixed(v: &str) -> ArgGenerator {
    ArgGenerator::Fixed { value: v.to_string() }
}

#[test]
fn method_names_in_three_spellings() {
    for (names, m) in [
        (["GET", "get", "Get"], Method::Get),
        (["PUT", "put", "Put"], Method::Put),
        (["POST", "post", "Post"], Method::Post),
        (["DELETE", "delete", "Delete"], Method::Delete),
    ] {
        for n in names.iter() {
            assert_eq!(Method::from_name(n), Ok(m));
            assert_eq!(n.parse::<Method>(), Ok(m));
        }
    }
    assert_eq!(Method::from_name("gEt"), Err("Invalid method"));
    assert_eq!(Method::from_name("PATCH"), Err("Invalid method"));
    assert_eq!(Method::from_name(""), Err("Invalid method"));
}

#[test]
fn method_name_round_trip() {
    for m in [Method::Get, Method::Put, Method::Post, Method::Delete] {
        assert_eq!(Method::from_name(m.as_str()), Ok(m));
    }
    assert_eq!(Method::Delete.as_str(), "DELETE");
}

#[test]
fn fixed_always_gives_its_value() {
    let mut r = rng();
    for _ in 0..10 {
        assert_eq!(fixed("lBtY2g18").sample(&mut r), "lBtY2g18");
    }
}

#[test]
fn choice_gives_one_of_its_values() {
    let mut r = rng();
    let values = vec!["null".to_string(), "undefined".to_string(), "false".to_string()];
    let g = ArgGenerator::Choice { values: values.clone() };
    let mut seen = std::collections::HashSet::new();
    for _ in 0..200 {
        let s = g.sample(&mut r);
        assert!(values.contains(&s));
        seen.insert(s);
    }
    assert_eq!(seen.len(), 3);
}

#[test]
fn empty_choice_and_union_give_empty_text() {
    let mut r = rng();
    assert_eq!(ArgGenerator::Choice { values: vec![] }.sample(&mut r), "");
    assert_eq!(ArgGenerator::Union { generators: vec![] }.sample(&mut r), "");
}

#[test]
fn int_range_gives_decimal_numbers_in_range() {
    let mut r = rng();
    let g = ArgGenerator::IntRange { low: -3, high: 4 };
    for _ in 0..200 {
        let s = g.sample(&mut r);
        let n: i64 = s.parse().unwrap();
        assert!((-3..4).contains(&n));
        assert_eq!(n.to_string(), s);
    }
}

#[test]
fn int_range_extremes() {
    let mut r = rng();
    let low = ArgGenerator::IntRange { low: i64::MIN, high: i64::MIN + 1 };
    assert_eq!(low.sample(&mut r), "-9223372036854775808");
    let high = ArgGenerator::IntRange { low: i64::MAX - 1, high: i64::MAX };
    assert_eq!(high.sample(&mut r), "9223372036854775806");
    let zero = ArgGenerator::IntRange { low: 0, high: 1 };
    assert_eq!(zero.sample(&mut r), "0");
    let tens = ArgGenerator::IntRange { low: -10, high: -9 };
    assert_eq!(tens.sample(&mut r), "-10");
}

#[test]
fn numeric_gives_digits_of_the_length() {
    let mut r = rng();
    for len in [0u32, 1, 6, 25] {
        let s = ArgGenerator::Numeric { len }.sample(&mut r);
        assert_eq!(s.chars().count(), len as usize);
        assert!(s.chars().all(|c| c.is_ascii_digit()));
    }
}

#[test]
fn alphanumeric_gives_letters_and_digits_of_the_length() {
    let mut r = rng();
    for len in [0u32, 1, 8, 40] {
        let s = ArgGenerator::AlphaNumeric { len }.sample(&mut r);
        assert_eq!(s.chars().count(), len as usize);
        assert!(s.chars().all(|c| c.is_ascii_alphanumeric()));
    }
}

#[test]
fn union_gives_a_sample_of_one_generator() {
    let mut r = rng();
    let g = ArgGenerator::Union {
        generators: vec![fixed("a"), ArgGenerator::Numeric { len: 3 }],
    };
    let mut saw_fixed = false;
    let mut saw_numeric = false;
    for _ in 0..200 {
        let s = g.sample(&mut r);
        if s == "a" {
            saw_fixed = true;
        } else {
            assert_eq!(s.len(), 3);
            assert!(s.chars().all(|c| c.is_ascii_digit()));
            saw_numeric = true;
        }
    }
    assert!(saw_fixed && saw_numeric);
}

#[test]
fn magic_gives_a_troublesome_value() {
    let mut r = rng();
    let allowed = ["0", "-1", "null", "undefined", "", "false"];
    for _ in 0..200 {
        let s = ArgGenerator::Magic.sample(&mut r);
        assert!(allowed.contains(&s.as_str()));
    }
}

#[test]
fn validity_of_generators() {
    assert!(ArgGenerator::IntRange { low: 1, high: 2 }.is_valid());
    assert!(!ArgGenerator::IntRange { low: 2, high: 2 }.is_valid());
    assert!(!ArgGenerator::Union {
        generators: vec![fixed("x"), ArgGenerator::IntRange { low: 5, high: 1 }]
    }
    .is_valid());
    let t = TestTarget::new(
        "e".to_string(),
        Method::Get,
        vec![TestArg::QueryString { name: fixed("n"), value: ArgGenerator::IntRange { low: 3, high: 3 } }],
    );
    assert!(!t.is_valid());
    let t = TestTarget::new("e".to_string(), Method::Get, vec![TestArg::Path { generator: ArgGenerator::Magic }]);
    assert!(t.is_valid());
}

fn readme_target() -> TestTarget {
    TestTarget::new(
        "cool-endpoint".to_string(),
        Method::Get,
        vec![
            TestArg::Path { generator: ArgGenerator::AlphaNumeric { len: 8 } },
            TestArg::QueryString { name: fixed("id"), value: ArgGenerator::Magic },
            TestArg::QueryString { name: fixed("more"), value: ArgGenerator::Numeric { len: 6 } },
        ],
    )
}

#[test]
fn build_uri_as_in_the_readme() {
    let t = readme_target();
    let draws = vec![
        ArgSample::Path { value: "lBtY2g18".to_string() },
        ArgSample::Query { name: "id".to_string(), value: "0".to_string() },
        ArgSample::Query { name: "more".to_string(), value: "891134".to_string() },
    ];
    assert_eq!(
        t.build_uri("http://testmachine.myspot.net:8080", &draws),
        "http://testmachine.myspot.net:8080/cool-endpoint/lBtY2g18?id=0&more=891134"
    );
}

#[test]
fn build_uri_without_value_and_with_leading_slash() {
    let t = TestTarget::new("/user".to_string(), Method::Post, vec![]);
    let draws = vec![
        ArgSample::Path { value: "pkgagTBnem".to_string() },
        ArgSample::Query { name: "admin".to_string(), value: "".to_string() },
    ];
    assert_eq!(
        t.build_uri("http://testmachine.myspot.net:8080", &draws),
        "http://testmachine.myspot.net:8080/user/pkgagTBnem?admin"
    );
    assert_eq!(t.build_uri("http://h", &[]), "http://h/user");
    let empty = TestTarget::new("".to_string(), Method::Get, vec![]);
    assert_eq!(empty.build_uri("http://h", &[]), "http://h/");
}

#[test]
fn build_uri_path_after_query_goes_to_the_path() {
    let t = TestTarget::new("a".to_string(), Method::Get, vec![]);
    let draws = vec![
        ArgSample::Query { name: "q".to_string(), value: "1".to_string() },
        ArgSample::Path { value: "b".to_string() },
        ArgSample::Query { name: "r".to_string(), value: "2".to_string() },
    ];
    assert_eq!(t.build_uri("http://h", &draws), "http://h/a/b?q=1&r=2");
}

#[test]
fn draws_follow_the_arguments() {
    let mut r = rng();
    let t = readme_target();
    for _ in 0..50 {
        let d = t.draw_samples(&mut r);
        assert_eq!(d.len(), 3);
        match &d[0] {
            ArgSample::Path { value } => {
                assert_eq!(value.len(), 8);
                assert!(value.chars().all(|c| c.is_ascii_alphanumeric()));
            }
            _ => panic!("expected a path draw"),
        }
        match &d[2] {
            ArgSample::Query { name, value } => {
                assert_eq!(name, "more");
                assert_eq!(value.len(), 6);
            }
            _ => panic!("expected a query draw"),
        }
    }
}

#[test]
fn sample_parses_into_a_uri() {
    let mut r = rng();
    let t = readme_target();
    for _ in 0..50 {
        let uri = t.sample("http://testmachine.myspot.net:8080", &mut r).unwrap();
        let text = uri.to_string();
        assert!(text.starts_with("http://testmachine.myspot.net:8080/cool-endpoint/"));
        assert!(text.contains("&more="));
        assert_eq!(uri.path().len(), "/cool-endpoint/".len() + 8);
    }
}

#[test]
fn sample_refuses_an_invalid_uri() {
    let mut r = rng();
    let t = TestTarget::new("has space".to_string(), Method::Get, vec![]);
    assert!(t.sample("http://h", &mut r).is_err());
    let t = TestTarget::new("ok".to_string(), Method::Get, vec![]);
    assert!(t.sample("http://h", &mut r).is_ok());
}

#[test]
fn getters_give_the_parts() {
    let t = readme_target();
    assert_eq!(t.endpoint(), "cool-endpoint");
    assert_eq!(t.method(), Method::Get);
    assert_eq!(t.args().len(), 3);
}

#[test]
fn no_query_draw_means_no_query_string() {
    let t = TestTarget::new("a".to_string(), Method::Get, vec![]);
    let draws = vec![
        ArgSample::Path { value: "b".to_string() },
        ArgSample::Path { value: "c".to_string() },
    ];
    let uri = t.build_uri("http://h", &draws);
    assert_eq!(uri, "http://h/a/b/c");
    assert!(!uri.contains('?'));
}

#[test]
fn fixed_target_is_requested_with_one_uri() {
    let mut r = rng();
    let t = TestTarget::new(
        "fixed".to_string(),
        Method::Put,
        vec![
            TestArg::Path { generator: fixed("x") },
            TestArg::QueryString { name: fixed("k"), value: fixed("v") },
        ],
    );
    let first = t.sample("http://h", &mut r).unwrap().to_string();
    assert_eq!(first, "http://h/fixed/x?k=v");
    for _ in 0..20 {
        assert_eq!(t.sample("http://h", &mut r).unwrap().to_string(), first);
    }
}

#[test]
fn fixed_and_empty_generators_leave_the_generator_alone() {
    for g in [
        fixed("abc"),
        ArgGenerator::Choice { values: vec![] },
        ArgGenerator::Union { generators: vec![] },
    ] {
        let mut r = Pcg64Mcg::new(7);
        let mut untouched = Pcg64Mcg::new(7);
        let _ = g.sample(&mut r);
        assert_eq!(r.next_u64(), untouched.next_u64());
    }
    let mut r = Pcg64Mcg::new(7);
    let mut untouched = Pcg64Mcg::new(7);
    let _ = ArgGenerator::Numeric { len: 4 }.sample(&mut r);
    assert_ne!(r.next_u64(), untouched.next_u64());
}

#[test]
fn sample_is_the_parse_of_the_built_text() {
    let mut r = rng();
    let t = TestTarget::new(
        "user".to_string(),
        Method::Post,
        vec![
            TestArg::Path { generator: fixed("pkgagTBnem") },
            TestArg::QueryString { name: fixed("admin"), value: fixed("") },
        ],
    );
    let uri = t.sample("http://testmachine.myspot.net:8080", &mut r).unwrap();
    assert_eq!(uri.to_string(), "http://testmachine.myspot.net:8080/user/pkgagTBnem?admin");
    let t = TestTarget::new(
        "/a".to_string(),
        Method::Get,
        vec![
            TestArg::QueryString { name: fixed("id"), value: fixed("1") },
            TestArg::Path { generator: fixed("x") },
            TestArg::QueryString { name: fixed("more"), value: fixed("2") },
        ],
    );
    let uri = t.sample("http://h", &mut r).unwrap();
    assert_eq!(uri.to_string(), "http://h/a/x?id=1&more=2");
    let built = t.build_uri("http://h", &t.draw_samples(&mut r));
    assert_eq!(uri, built.parse::<http::Uri>().unwrap());
}

#[test]
fn clones_are_the_same_rules() {
    let g = ArgGenerator::Union {
        generators: vec![
            fixed("a"),
            ArgGenerator::Choice { values: vec!["x".to_string(), "y".to_string()] },
            ArgGenerator::IntRange { low: 1, high: 9 },
            ArgGenerator::Magic,
        ],
    };
    assert_eq!(g.clone(), g);
    let t = readme_target();
    let c = t.clone();
    assert_eq!(c, t);
    let config = heel_gun::config::Config { targets: vec![t] };
    assert_eq!(config.clone().targets, config.targets);
}
