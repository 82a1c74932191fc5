use wiki_parser::parse;
use wiki_parser::Wiki;
use wiki_parser::WikiField;

fn expected_wiki() -> Wiki {
    Wiki {
        wiki_type: "Crt".to_string(),
        wiki_fields: vec![
            WikiField::Single(("简体中文名".to_string(), "水树奈奈".to_string())),
            WikiField::Multiple((
                "别名".to_string(),
                vec![
                    ("".to_string(), "第二中文名".to_string()),
                    ("".to_string(), "英文名".to_string()),
                    ("日文名".to_string(), "近藤奈々 (こんどう なな)".to_string()),
                    ("纯假名".to_string(), "みずき なな".to_string()),
                    ("罗马字".to_string(), "Mizuki Nana".to_string()),
                    (
                        "昵称".to_string(),
                        "奈々ちゃん、奈々さん、奈々様、お奈々、ヘッド".to_string(),
                    ),
                    ("其他名义".to_string(), "".to_string()),
                ],
            )),
        ],
    }
}

/// `needle1` occurs, and `needle2` occurs somewhere after it.
fn ordered_match(haystack: &str, needle1: &str, needle2: &str) -> bool {
    match haystack.find(needle1) {
        None => false,
        Some(i) => haystack[i..].contains(needle2),
    }
}

#[test]
fn test_parse_full() {
    let wiki_str = r#"{{Infobox Crt
|简体中文名= 水树奈奈
|官网= https://www.mizukinana.jp
|FanClub= https://fanclub.mizukinana.jp
|Twitter= https://twitter.com/NM_NANAPARTY
}}"#;

    let result = parse(wiki_str.to_string()).unwrap();
    let expected = Wiki {
        wiki_type: "Crt".to_string(),
        wiki_fields: vec![
            WikiField::Single(("简体中文名".to_string(), "水树奈奈".to_string())),
            WikiField::Single(("官网".to_string(), "https://www.mizukinana.jp".to_string())),
            WikiField::Single((
                "FanClub".to_string(),
                "https://fanclub.mizukinana.jp".to_string(),
            )),
            WikiField::Single((
                "Twitter".to_string(),
                "https://twitter.com/NM_NANAPARTY".to_string(),
            )),
        ],
    };
    assert_eq!(result, expected);
}

#[test]
fn test_parse_full_array() {
    let wiki_str = r#"{{Infobox Crt
|简体中文名= 水树奈奈
|别名={
[第二中文名]
[英文名]
[日文名|近藤奈々 (こんどう なな)]
[纯假名|みずき なな]
[罗马字|Mizuki Nana]
[昵称|奈々ちゃん、奈々さん、奈々様、お奈々、ヘッド]
[其他名义|]
}
}}"#;

    let result = parse(wiki_str.to_string()).unwrap();
    assert_eq!(result, expected_wiki());
}

#[test]
fn test_parse_empty_line() {
    let wiki_str = r#"{{Infobox Crt
|简体中文名= 水树奈奈
|别名={


[第二中文名]
[英文名]
[日文名|近藤奈々 (こんどう なな)]

[纯假名|みずき なな]
[罗马字|Mizuki Nana]
[昵称|奈々ちゃん、奈々さん、奈々様、お奈々、ヘッド]
[其他名义|]

}
}}"#;

    let result = parse(wiki_str.to_string()).unwrap();
    assert_eq!(result, expected_wiki());
}

#[test]
fn test_parse_extra_space() {
    let wiki_str = r#"{{Infobox Crt
|简体中文名= 水树奈奈
| 别名 = {
[第二中文名]
[ 英文名]
[日文名|近藤奈々 (こんどう なな)]
[纯假名 |みずき なな]
[罗马字|Mizuki Nana]
[昵称|奈々ちゃん、奈々さん、奈々様、お奈々、ヘッド]
[其他名义|]

 }
}}"#;

    let result = parse(wiki_str.to_string()).unwrap();
    assert_eq!(result, expected_wiki());
}

#[test]
fn test_array_no_close() {
    let wiki_str = r#"{{Infobox Crt
| 别名 = {

[昵称|奈々ちゃん、奈々さん、奈々様、お奈々、ヘッド]
[其他名义|]
}}"#;

    let err = parse(wiki_str.to_string()).unwrap_err();
    assert!(ordered_match(&err.message(), "array", "close"));
}

#[test]
fn test_array_no_close2() {
    let wiki_str = r#"{{Infobox Crt
| 别名 = {

[昵称|奈々ちゃん、奈々さん、奈々様、お奈々、ヘッド]
[其他名义|]
|简体中文名= 水树奈奈
}}"#;

    let err = parse(wiki_str.to_string()).unwrap_err();
    let err_str = err.message();
    assert!(ordered_match(&err_str, "array", "closed"));
    assert!(err_str.contains("line: 6"));
}

#[test]
fn test_array_no_close_empty_item() {
    let wiki_str = r#"{{Infobox Crt
| 别名 = {
}}"#;

    let err = parse(wiki_str.to_string()).unwrap_err();
    let err_str = err.message();
    assert!(ordered_match(&err_str, "array", "closed"));
    assert!(err_str.contains("line: 3"));
}

#[test]
fn test_scalar_no_sign_equal() {
    let wiki_str = "{{Infobox Crt\n| 别名 \n}}";

    let err = parse(wiki_str.to_string()).unwrap_err();
    assert!(err.message().contains("sign equal"));
}

#[test]
fn test_type_no_line_break() {
    let wiki_str = "{{Infobox Crt}}";
    let w = parse(wiki_str.to_string()).unwrap();
    assert_eq!(w.wiki_type, "Crt");
}

#[test]
fn test_error_missing_prefix() {
    let wiki_str = "\n\nNotPrefix Crt\n}}";
    let err = parse(wiki_str.to_string()).unwrap_err();
    assert!(err.message().contains("Invalid prefix"));
}

#[test]
fn test_error_missing_suffix() {
    let wiki_str = "\n\n{{Infobox Crt\n\n\n";
    let err = parse(wiki_str.to_string()).unwrap_err();
    let err = err.message();
    println!("{}", err);
    assert!(err.contains("Invalid suffix"));
}
