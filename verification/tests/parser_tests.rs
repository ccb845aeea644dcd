use form_loadtester::config::{parse_config, ConfigError};
use form_loadtester::parser::{
    parse_cellphone, parse_choose_any, parse_choose_n, parse_date, parse_email, parse_kvp,
    parse_line, parse_name, parse_static, parse_string, parse_string_entry, ParseError,
};
use form_loadtester::Parameter;

fn malformed(line: &str) -> ParseError {
    ParseError::Malformed(line.to_string())
}

#[test]
fn test_parse_string() {
    println!("{:?}", parse_string("\"hello\""));
    assert_eq!(parse_string("\"hello\""), Ok(("", "hello".to_string())));
    assert_eq!(
        parse_string("\"esca\\\"ped\\(chars\\)\""),
        Ok(("", "esca\"ped(chars)".to_string()))
    );
    assert_eq!(parse_string("\"newline\\n\""), Ok(("", "newline\n".to_string())));
}

#[test]
fn test_parse_static() {
    assert_eq!(
        parse_static("static(\"name\",\"value\")"),
        Ok(("", Parameter::Static { name: "name".to_string(), val: "value".to_string() }))
    );
}

#[test]
fn test_parse_email() {
    assert_eq!(
        parse_email("email(\"user\",[\"gmail.com\",\"yahoo.com\"])"),
        Ok((
            "",
            Parameter::Email {
                name: "user".to_string(),
                domains: vec!["gmail.com".to_string(), "yahoo.com".to_string()]
            }
        ))
    );
}

#[test]
fn test_parse_choose_any() {
    assert_eq!(
        parse_choose_any("choose_any([(\"key1\",\"val1\"),(\"key2\",\"val2\")])"),
        Ok((
            "",
            Parameter::ChooseAny {
                options: vec![
                    ("key1".to_string(), "val1".to_string()),
                    ("key2".to_string(), "val2".to_string())
                ]
            }
        ))
    );
}

#[test]
fn test_parse_choose_n() {
    assert_eq!(
        parse_choose_n("choose_n(2,[(\"key1\",\"val1\"),(\"key2\",\"val2\")])"),
        Ok((
            "",
            Parameter::ChooseN {
                n: 2,
                kvps: vec![
                    ("key1".to_string(), "val1".to_string()),
                    ("key2".to_string(), "val2".to_string())
                ]
            }
        ))
    );
}

#[test]
fn test_parse_cellphone() {
    assert_eq!(
        parse_cellphone("cellphone(\"myphone\")"),
        Ok(("", Parameter::CellPhone { name: "myphone".to_string() }))
    );
}

#[test]
fn test_parse_date() {
    assert_eq!(
        parse_date("date(\"name\",11,44)"),
        Ok(("", Parameter::Date { name: "name".to_string(), min: 11, max: 44 }))
    );
}

#[test]
fn test_parse_string_entry() {
    assert_eq!(
        parse_string_entry("string(\"name\",11)"),
        Ok(("", Parameter::String { name: "name".to_string(), max_len: 11 }))
    );
}

#[test]
fn parse_name_reads_name_and_length() {
    assert_eq!(
        parse_name("name(\"who\",7)"),
        Ok(("", Parameter::Name { name: "who".to_string(), max_len: 7 }))
    );
}

#[test]
fn parse_kvp_reads_both_strings() {
    assert_eq!(
        parse_kvp("(\"k\",\"v\")rest"),
        Ok(("rest", ("k".to_string(), "v".to_string())))
    );
    assert_eq!(parse_kvp("(\"k\";\"v\")"), Err(malformed("(\"k\";\"v\")")));
}

#[test]
fn parse_string_keeps_what_follows() {
    assert_eq!(parse_string("\"a\",\"b\""), Ok((",\"b\"", "a".to_string())));
    assert_eq!(parse_string("\"\""), Ok(("", String::new())));
    assert_eq!(parse_string("\"back\\\\slash\""), Ok(("", "back\\slash".to_string())));
    assert_eq!(parse_string("\"h\u{e9}llo\"x"), Ok(("x", "h\u{e9}llo".to_string())));
}

#[test]
fn parse_string_refuses_other_escapes_and_open_strings() {
    assert_eq!(parse_string("\"tab\\t\""), Err(malformed("\"tab\\t\"")));
    assert_eq!(parse_string("\"open"), Err(malformed("\"open")));
    assert_eq!(parse_string("\"open\\"), Err(malformed("\"open\\")));
    assert_eq!(parse_string("plain"), Err(malformed("plain")));
    assert_eq!(parse_string(""), Err(malformed("")));
}

#[test]
fn parse_line_reads_each_kind() {
    assert_eq!(
        parse_line("static(\"k\",\"v\")"),
        Ok(Parameter::Static { name: "k".to_string(), val: "v".to_string() })
    );
    assert_eq!(
        parse_line("date(\"d\",11,44)"),
        Ok(Parameter::Date { name: "d".to_string(), min: 11, max: 44 })
    );
    assert_eq!(
        parse_line("email(\"e\",[\"x.org\"])"),
        Ok(Parameter::Email { name: "e".to_string(), domains: vec!["x.org".to_string()] })
    );
    assert_eq!(
        parse_line("cellphone(\"p\")"),
        Ok(Parameter::CellPhone { name: "p".to_string() })
    );
    assert_eq!(
        parse_line("choose_any([(\"a\",\"b\")])"),
        Ok(Parameter::ChooseAny { options: vec![("a".to_string(), "b".to_string())] })
    );
    assert_eq!(
        parse_line("choose_n(0,[(\"a\",\"b\")])"),
        Ok(Parameter::ChooseN { n: 0, kvps: vec![("a".to_string(), "b".to_string())] })
    );
    assert_eq!(
        parse_line("string(\"s\",003)"),
        Ok(Parameter::String { name: "s".to_string(), max_len: 3 })
    );
    assert_eq!(
        parse_line("name(\"n\",12)"),
        Ok(Parameter::Name { name: "n".to_string(), max_len: 12 })
    );
    assert_eq!(
        Parameter::try_parse("name(\"n\",12)"),
        Ok(Parameter::Name { name: "n".to_string(), max_len: 12 })
    );
}

#[test]
fn parse_line_refuses_malformed_lines() {
    let lines = [
        "",
        "static(\"a\",\"b\"",
        "static(\"a\")",
        "static(\"a\",\"b\",\"c\")",
        "static(\"a\",\"b\"))",
        "static(\"a\",\"b\") ",
        " static(\"a\",\"b\")",
        "date(\"d\",x,44)",
        "date(\"d\",11)",
        "date(\"d\",-1,4)",
        "string(\"s\",)",
        "string(\"s\",99999999999999999999999999999999)",
        "email(\"e\",[])",
        "email(\"e\",[\"a\",])",
        "choose_any([])",
        "choose_any([(\"a\")])",
        "choose_n(1,(\"a\",\"b\"))",
        "yesno(\"b\")",
        "cellphone(myphone)",
    ];
    for line in lines {
        assert_eq!(parse_line(line), Err(malformed(line)), "{}", line);
        assert_eq!(Parameter::try_parse(line), Err(malformed(line)), "{}", line);
    }
}

#[test]
fn parse_static_reports_the_rest() {
    assert_eq!(
        parse_static("static(\"a\",\"b\")tail"),
        Ok(("tail", Parameter::Static { name: "a".to_string(), val: "b".to_string() }))
    );
    assert_eq!(parse_static("email(\"a\",[\"b\"])"), Err(malformed("email(\"a\",[\"b\"])")));
}

#[test]
fn parse_config_skips_blank_lines_and_keeps_order() {
    let text = "\n  static(\"a\",\"1\")  \r\n\n\tstring(\"b\",3)\n   \n";
    assert_eq!(
        parse_config(text),
        Ok(vec![
            Parameter::Static { name: "a".to_string(), val: "1".to_string() },
            Parameter::String { name: "b".to_string(), max_len: 3 },
        ])
    );
    assert_eq!(parse_config(""), Ok(vec![]));
}

#[test]
fn parse_config_reports_the_first_refused_line() {
    let text = "static(\"a\",\"1\")\n\n  yesno(\"b\") \nnonsense";
    assert_eq!(
        parse_config(text),
        Err(ConfigError { line_number: 3, line: "yesno(\"b\")".to_string() })
    );
}

#[test]
fn parse_config_refuses_fields_without_values() {
    assert_eq!(
        parse_config("choose_n(2,[(\"a\",\"b\")])"),
        Err(ConfigError { line_number: 1, line: "choose_n(2,[(\"a\",\"b\")])".to_string() })
    );
    assert_eq!(
        parse_config("static(\"a\",\"b\")\ndate(\"d\",5,4)"),
        Err(ConfigError { line_number: 2, line: "date(\"d\",5,4)".to_string() })
    );
    assert_eq!(
        parse_config("string(\"s\",0)"),
        Err(ConfigError { line_number: 1, line: "string(\"s\",0)".to_string() })
    );
    assert_eq!(
        parse_config("name(\"s\",0)"),
        Err(ConfigError { line_number: 1, line: "name(\"s\",0)".to_string() })
    );
}

#[test]
fn parse_config_trims_every_kind_of_white_space() {
    let text = "\u{a0}static(\"a\",\"1\")\u{3000}\r\n\u{2003}\u{85}\n\u{b}name(\"n\",2)\u{c}";
    assert_eq!(
        parse_config(text),
        Ok(vec![
            Parameter::Static { name: "a".to_string(), val: "1".to_string() },
            Parameter::Name { name: "n".to_string(), max_len: 2 },
        ])
    );
    assert_eq!(
        parse_config("\n\n \u{feff}static(\"a\",\"1\")"),
        Err(ConfigError { line_number: 3, line: "\u{feff}static(\"a\",\"1\")".to_string() })
    );
}

#[test]
fn written_lines_are_read_back() {
    assert_eq!(
        parse_line("static(\"a\\\"b\\\\c\\nd\\(e\\)\",\"\")"),
        Ok(Parameter::Static { name: "a\"b\\c\nd(e)".to_string(), val: String::new() })
    );
    assert_eq!(
        parse_line("static(\"plain (brackets)\",\"x\")"),
        Ok(Parameter::Static { name: "plain (brackets)".to_string(), val: "x".to_string() })
    );
    assert_eq!(
        parse_line("choose_n(18446744073709551615,[(\"a\",\"b\"),(\"c\",\"d\")])"),
        Ok(Parameter::ChooseN {
            n: usize::MAX,
            kvps: vec![
                ("a".to_string(), "b".to_string()),
                ("c".to_string(), "d".to_string())
            ]
        })
    );
    assert_eq!(
        parse_line("string(\"s\",18446744073709551616)"),
        Err(malformed("string(\"s\",18446744073709551616)"))
    );
}
