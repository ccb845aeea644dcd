use form_loadtester::config::parse_config;
use form_loadtester::generator::{
    date_value, join, max_day, phone_value, pick_marked, take_first, yes_no,
};
use form_loadtester::params::ParameterMap;
use form_loadtester::text::{decimal_len, from_chars, push_decimal, push_padded, to_chars};
use form_loadtester::Parameter;

fn pair(k: &str, v: &str) -> (String, String) {
    (k.to_string(), v.to_string())
}

const ALNUM: &str = "abcdefghijklmnopqrstuvwxyzABCDEFGHIJKLMNOPQRSTUVWXYZ0123456789";

#[test]
fn decimal_text_is_exact() {
    let mut s = String::from("x");
    push_decimal(&mut s, 0);
    push_decimal(&mut s, 907);
    assert_eq!(s, "x0907");
    let mut p = String::new();
    push_padded(&mut p, 7, 2);
    push_padded(&mut p, 12345, 4);
    push_padded(&mut p, 0, 3);
    assert_eq!(p, "0712345000");
    assert_eq!(decimal_len(0), 1);
    assert_eq!(decimal_len(9999), 4);
    assert_eq!(to_chars("a\u{e9}"), vec!['a', '\u{e9}']);
    assert_eq!(from_chars(&vec!['o', 'k']), "ok");
}

#[test]
fn date_value_is_zero_padded() {
    assert_eq!(date_value(2, 9, 2024), "02/09/2024");
    assert_eq!(date_value(12, 31, 44), "12/31/0044");
    assert_eq!(date_value(1, 1, 12345), "01/01/12345");
}

#[test]
fn max_day_follows_the_four_year_rule() {
    assert_eq!(max_day(2024, 2), 29);
    assert_eq!(max_day(2023, 2), 28);
    assert_eq!(max_day(1900, 2), 29);
    assert_eq!(max_day(2023, 4), 30);
    assert_eq!(max_day(2023, 6), 30);
    assert_eq!(max_day(2023, 9), 30);
    assert_eq!(max_day(2023, 11), 30);
    assert_eq!(max_day(2023, 1), 31);
    assert_eq!(max_day(2023, 12), 31);
}

#[test]
fn phone_and_join_and_yes_no_are_exact() {
    assert_eq!(phone_value(100, 998, 1000), "(100) 998-1000");
    assert_eq!(join("user", '@', "x.org"), "user@x.org");
    assert_eq!(yes_no(true), "Yes");
    assert_eq!(yes_no(false), "No");
}

#[test]
fn pick_marked_and_take_first_keep_order() {
    let pairs = vec![pair("a", "1"), pair("b", "2"), pair("c", "3")];
    assert_eq!(pick_marked(&pairs, &vec![true, false, true]), vec![pair("a", "1"), pair("c", "3")]);
    assert_eq!(pick_marked(&pairs, &vec![false, false, false]), vec![]);
    assert_eq!(take_first(&pairs, 2), vec![pair("a", "1"), pair("b", "2")]);
    assert_eq!(take_first(&pairs, 0), vec![]);
}

#[test]
fn parameter_map_keeps_the_last_value() {
    let mut map = ParameterMap::new();
    assert_eq!(map.len(), 0);
    map.insert("a".to_string(), "1".to_string());
    map.insert("b".to_string(), "2".to_string());
    map.insert("a".to_string(), "3".to_string());
    assert_eq!(map.len(), 2);
    assert_eq!(map.get("a"), Some("3".to_string()));
    assert_eq!(map.get("b"), Some("2".to_string()));
    assert_eq!(map.get("c"), None);
    assert_eq!(map.entries(), vec![pair("a", "3"), pair("b", "2")]);
    map.insert_all(&vec![pair("c", "4"), pair("b", "5")]);
    assert_eq!(map.entries(), vec![pair("a", "3"), pair("b", "5"), pair("c", "4")]);
}

#[test]
fn static_and_string_scenario() {
    let fields = parse_config("static(\"a\",\"1\")\nstring(\"b\",3)").unwrap();
    for _ in 0..200 {
        let map = Parameter::gen_param_map(&fields);
        assert_eq!(map.len(), 2);
        assert_eq!(map.get("a"), Some("1".to_string()));
        let b = map.get("b").unwrap();
        let n = b.chars().count();
        assert!(1 <= n && n <= 3);
        assert!(b.chars().all(|c| ALNUM.contains(c) || c == '.' || c == ',' || c == ' '));
    }
}

#[test]
fn later_fields_overwrite_earlier_names() {
    let fields = vec![
        Parameter::Static { name: "a".to_string(), val: "1".to_string() },
        Parameter::Static { name: "a".to_string(), val: "2".to_string() },
    ];
    let map = Parameter::gen_param_map(&fields);
    assert_eq!(map.entries(), vec![pair("a", "2")]);
    assert_eq!(Parameter::gen_param_map(&vec![]).len(), 0);
}

#[test]
fn dates_lie_in_their_ranges() {
    let field = Parameter::Date { name: "d".to_string(), min: 2019, max: 2024 };
    let mut years = std::collections::BTreeSet::new();
    for _ in 0..2000 {
        let out = field.gen_entries();
        assert_eq!(out.len(), 1);
        assert_eq!(out[0].0, "d");
        let parts: Vec<&str> = out[0].1.split('/').collect();
        assert_eq!(parts.len(), 3);
        assert_eq!(parts[0].len(), 2);
        assert_eq!(parts[1].len(), 2);
        assert_eq!(parts[2].len(), 4);
        let month: usize = parts[0].parse().unwrap();
        let day: usize = parts[1].parse().unwrap();
        let year: usize = parts[2].parse().unwrap();
        assert!(2019 <= year && year <= 2024);
        assert!(1 <= month && month <= 12);
        assert!(1 <= day && day <= max_day(year, month));
        years.insert(year);
    }
    assert!(years.len() > 1);
    let one = Parameter::Date { name: "d".to_string(), min: 7, max: 7 };
    assert!(one.gen_entries()[0].1.ends_with("/0007"));
}

#[test]
fn choose_n_gives_n_distinct_pairs() {
    let kvps = vec![pair("a", "1"), pair("b", "2"), pair("c", "3"), pair("d", "4")];
    let mut first_keys = std::collections::BTreeSet::new();
    for n in 0..=4 {
        let field = Parameter::ChooseN { n, kvps: kvps.clone() };
        for _ in 0..200 {
            let out = field.gen_entries();
            assert_eq!(out.len(), n);
            let keys: std::collections::BTreeSet<&String> = out.iter().map(|p| &p.0).collect();
            assert_eq!(keys.len(), n);
            assert!(out.iter().all(|p| kvps.contains(p)));
            assert_eq!(field.gen_params().len(), n);
            if n == 1 {
                first_keys.insert(out[0].0.clone());
            }
        }
    }
    assert!(first_keys.len() > 1);
}

#[test]
fn choose_any_gives_one_of_the_pairs() {
    let options = vec![pair("a", "1"), pair("b", "2"), pair("c", "3")];
    let field = Parameter::ChooseAny { options: options.clone() };
    let mut seen = std::collections::BTreeSet::new();
    for _ in 0..500 {
        let out = field.gen_entries();
        assert_eq!(out.len(), 1);
        assert!(options.contains(&out[0]));
        seen.insert(out[0].0.clone());
    }
    assert_eq!(seen.len(), 3);
    assert_eq!(Parameter::ChooseAny { options: vec![] }.gen_entries(), vec![]);
}

#[test]
fn check_boxes_and_optional_strings_are_even() {
    let boxes = Parameter::CheckBoxes { kvps: vec![pair("a", "1"), pair("b", "2")] };
    let optional = Parameter::OptionalString { name: "o".to_string() };
    let mut a = 0;
    let mut b = 0;
    let mut o = 0;
    for _ in 0..10000 {
        let out = boxes.gen_entries();
        if out.contains(&pair("a", "1")) {
            a += 1;
        }
        if out.contains(&pair("b", "2")) {
            b += 1;
        }
        assert!(out.len() <= 2);
        if out.len() == 2 {
            assert_eq!(out, vec![pair("a", "1"), pair("b", "2")]);
        }
        let opt = optional.gen_entries();
        if !opt.is_empty() {
            assert_eq!(opt, vec![pair("o", "")]);
            o += 1;
        }
    }
    for count in [a, b, o] {
        assert!(4500 < count && count < 5500, "{}", count);
    }
}

#[test]
fn emails_phones_names_and_answers_have_their_shape() {
    let email = Parameter::Email {
        name: "e".to_string(),
        domains: vec!["x.org".to_string(), "y.net".to_string()],
    };
    let phone = Parameter::CellPhone { name: "p".to_string() };
    let name = Parameter::Name { name: "n".to_string(), max_len: 6 };
    let answer = Parameter::YesNo { name: "y".to_string() };
    let mut domains = std::collections::BTreeSet::new();
    let mut answers = std::collections::BTreeSet::new();
    for _ in 0..500 {
        let out = email.gen_entries();
        assert_eq!(out[0].0, "e");
        let (user, domain) = out[0].1.split_once('@').unwrap();
        assert!(5 <= user.len() && user.len() <= 14);
        assert!(user.chars().all(|c| c.is_ascii_lowercase() || c.is_ascii_digit()));
        assert!(domain == "x.org" || domain == "y.net");
        domains.insert(domain.to_string());

        let out = phone.gen_entries();
        let text = &out[0].1;
        assert_eq!(text.len(), 14);
        let area: usize = text[1..4].parse().unwrap();
        let middle: usize = text[6..9].parse().unwrap();
        let end: usize = text[10..14].parse().unwrap();
        assert_eq!(*text, format!("({}) {}-{}", area, middle, end));
        assert!(100 <= area && area <= 998);
        assert!(100 <= middle && middle <= 998);
        assert!(1000 <= end && end <= 9998);

        let out = name.gen_entries();
        let (first, last) = out[0].1.split_once(' ').unwrap();
        assert!(1 <= first.len() && first.len() <= 6);
        assert_eq!(first.len(), last.len());
        assert!(first.chars().all(|c| ALNUM.contains(c)));
        assert!(last.chars().all(|c| ALNUM.contains(c)));

        let out = answer.gen_entries();
        assert!(out[0].1 == "Yes" || out[0].1 == "No");
        answers.insert(out[0].1.clone());
    }
    assert_eq!(domains.len(), 2);
    assert_eq!(answers.len(), 2);
}

#[test]
fn well_formed_fields_are_told_apart() {
    assert!(Parameter::ChooseN { n: 1, kvps: vec![pair("a", "b")] }.is_well_formed());
    assert!(!Parameter::ChooseN { n: 2, kvps: vec![pair("a", "b")] }.is_well_formed());
    assert!(!Parameter::Email { name: "e".to_string(), domains: vec![] }.is_well_formed());
    assert!(!Parameter::Date { name: "d".to_string(), min: 3, max: 2 }.is_well_formed());
    assert!(!Parameter::String { name: "s".to_string(), max_len: 0 }.is_well_formed());
    assert!(Parameter::YesNo { name: "y".to_string() }.is_well_formed());
}
