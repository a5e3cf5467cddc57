use cosmwasm_simulate::analyzer::{Analyzer, Member};
use cosmwasm_simulate::json::JsonValue;
use cosmwasm_simulate::strmap::StrMap;

fn members_of<'a>(analyzer: &'a Analyzer, title: &str, variant: &str) -> Vec<(&'a str, &'a str)> {
    analyzer
        .map_of_member
        .get(title)
        .unwrap()
        .get(variant)
        .unwrap()
        .iter()
        .map(|m| (m.member_name.as_str(), m.member_def.as_str()))
        .collect()
}

#[test]
fn default_analyzer_has_empty_tables() {
    let analyzer = Analyzer::default();
    assert_eq!(analyzer.map_of_basetype.len(), 0);
    assert_eq!(analyzer.map_of_struct.len(), 0);
    assert_eq!(analyzer.map_of_member.len(), 0);
}

#[test]
fn flat_schema_gives_one_variant_named_by_the_title() {
    let schema = b"{
        \"title\": \"T\",
        \"type\": \"object\",
        \"required\": [\"a\", \"b\"],
        \"properties\": {
            \"a\": {\"type\": \"string\"},
            \"b\": {\"$ref\": \"#/definitions/X\"}
        }
    }";
    let mut analyzer = Analyzer::default();
    assert!(analyzer.analyze_schema(schema));
    assert_eq!(analyzer.map_of_member.len(), 1);
    let variants = analyzer.map_of_member.get("T").unwrap();
    assert_eq!(variants.len(), 1);
    assert_eq!(members_of(&analyzer, "T", "T"), vec![("a", "string"), ("b", "X")]);
}

#[test]
fn tagged_union_gives_one_variant_for_each_alternative() {
    let schema = b"{
        \"title\": \"HandleMsg\",
        \"anyOf\": [
            {
                \"type\": \"object\",
                \"required\": [\"increment\"],
                \"properties\": {
                    \"increment\": {
                        \"type\": \"object\",
                        \"required\": [\"by\"],
                        \"properties\": {\"by\": {\"type\": \"integer\"}}
                    }
                }
            },
            {
                \"type\": \"object\",
                \"required\": [\"reset\"],
                \"properties\": {
                    \"reset\": {
                        \"type\": \"object\",
                        \"required\": [\"count\", \"owner\"],
                        \"properties\": {
                            \"count\": {\"type\": \"integer\"},
                            \"owner\": {\"$ref\": \"#/definitions/HumanAddr\"}
                        }
                    }
                }
            }
        ]
    }";
    let mut analyzer = Analyzer::default();
    assert!(analyzer.analyze_schema(schema));
    let variants = analyzer.map_of_member.get("HandleMsg").unwrap();
    assert_eq!(variants.len(), 2);
    assert!(variants.contains_key("increment"));
    assert!(variants.contains_key("reset"));
    assert_eq!(members_of(&analyzer, "HandleMsg", "increment"), vec![("by", "integer")]);
    assert_eq!(
        members_of(&analyzer, "HandleMsg", "reset"),
        vec![("count", "integer"), ("owner", "HumanAddr")]
    );
}

#[test]
fn the_null_variant_is_left_out() {
    let schema = b"{
        \"title\": \"M\",
        \"anyOf\": [
            {\"required\": [\"null\"], \"properties\": {\"null\": {
                \"required\": [], \"properties\": {}}}},
            {\"required\": [\"go\"], \"properties\": {\"go\": {
                \"required\": [], \"properties\": {}}}}
        ]
    }";
    let mut analyzer = Analyzer::default();
    assert!(analyzer.analyze_schema(schema));
    let variants = analyzer.map_of_member.get("M").unwrap();
    assert_eq!(variants.len(), 1);
    assert_eq!(members_of(&analyzer, "M", "go"), Vec::<(&str, &str)>::new());
}

#[test]
fn arrays_resolve_to_the_struct_of_their_items() {
    let schema = b"{
        \"title\": \"InitMsg\",
        \"required\": [\"balances\", \"name\", \"plain\", \"other\", \"missing\", 5],
        \"properties\": {
            \"balances\": {\"type\": \"array\", \"items\": {\"$ref\": \"#/definitions/Balance\"}},
            \"name\": {\"type\": \"string\"},
            \"plain\": {\"type\": \"array\", \"items\": {\"type\": \"string\"}},
            \"other\": {\"$ref\": \"elsewhere/Thing\"}
        }
    }";
    let mut analyzer = Analyzer::default();
    assert!(analyzer.analyze_schema(schema));
    assert_eq!(
        members_of(&analyzer, "InitMsg", "InitMsg"),
        vec![("balances", "Balance"), ("name", "string"), ("other", "elsewhere/Thing")]
    );
}

#[test]
fn definitions_fill_the_tables_of_structs_and_base_types() {
    let schema = b"{
        \"title\": \"T\",
        \"definitions\": {
            \"Balance\": {
                \"type\": \"object\",
                \"properties\": {
                    \"address\": {\"$ref\": \"#/definitions/HumanAddr\"},
                    \"amount\": {\"$ref\": \"#/definitions/Uint128\"},
                    \"memo\": {\"type\": \"string\"}
                }
            },
            \"Empty\": {\"type\": \"object\"},
            \"HumanAddr\": {\"type\": \"string\"},
            \"Uint128\": {\"type\": \"string\"},
            \"Odd\": {\"description\": \"no type\"}
        }
    }";
    let mut analyzer = Analyzer::default();
    assert!(analyzer.analyze_schema(schema));
    assert_eq!(analyzer.map_of_basetype.len(), 2);
    assert_eq!(analyzer.map_of_basetype.get("HumanAddr").unwrap(), "string");
    assert_eq!(analyzer.map_of_basetype.get("Uint128").unwrap(), "string");
    assert_eq!(analyzer.map_of_struct.len(), 1);
    let balance = analyzer.map_of_struct.get("Balance").unwrap();
    assert_eq!(balance.len(), 2);
    assert_eq!(balance.get("address").unwrap(), "HumanAddr");
    assert_eq!(balance.get("amount").unwrap(), "Uint128");
    assert!(balance.get("memo").is_none());
    // the title is recorded, with no variant
    assert_eq!(analyzer.map_of_member.get("T").unwrap().len(), 0);
}

#[test]
fn a_document_without_title_changes_nothing() {
    let mut analyzer = Analyzer::default();
    assert!(!analyzer.analyze_schema(b"{\"required\": [\"a\"], \"properties\": {}}"));
    assert!(!analyzer.analyze_schema(b"{\"title\": 5}"));
    assert!(!analyzer.analyze_schema(b"[]"));
    assert!(!analyzer.analyze_schema(b"nonsense"));
    assert_eq!(analyzer.map_of_member.len(), 0);
    assert_eq!(analyzer.map_of_basetype.len(), 0);
    assert_eq!(analyzer.map_of_struct.len(), 0);
}

#[test]
fn malformed_parts_are_passed_over() {
    let schema = b"{
        \"title\": \"T\",
        \"definitions\": 7,
        \"required\": \"no list\",
        \"properties\": {},
        \"anyOf\": [
            5,
            {\"required\": []},
            {\"required\": [\"x\"]},
            {\"required\": [\"x\"], \"properties\": {}},
            {\"required\": [\"x\"], \"properties\": {\"x\": {\"properties\": {}}}},
            {\"required\": [\"y\"], \"properties\": {\"y\": {
                \"properties\": {}, \"required\": 3}}},
            {\"required\": [\"ok\"], \"properties\": {\"ok\": {
                \"properties\": {\"f\": {\"type\": \"boolean\"}}, \"required\": [\"f\"]}}}
        ]
    }";
    let mut analyzer = Analyzer::default();
    assert!(analyzer.analyze_schema(schema));
    let variants = analyzer.map_of_member.get("T").unwrap();
    assert_eq!(variants.len(), 1);
    assert_eq!(members_of(&analyzer, "T", "ok"), vec![("f", "boolean")]);
}

#[test]
fn a_second_document_with_the_same_title_replaces_the_first() {
    let mut analyzer = Analyzer::default();
    assert!(analyzer.analyze_schema(
        b"{\"title\": \"T\", \"required\": [\"a\"], \"properties\": {\"a\": {\"type\": \"string\"}}}"
    ));
    assert!(analyzer.analyze_schema(b"{\"title\": \"T\"}"));
    assert_eq!(analyzer.map_of_member.len(), 1);
    assert_eq!(analyzer.map_of_member.get("T").unwrap().len(), 0);
}

#[test]
fn build_member_records_under_the_given_name() {
    let required = JsonValue::parse(b"[\"a\", \"b\"]").unwrap();
    let properties = JsonValue::parse(
        b"{\"a\": {\"type\": \"string\"}, \"b\": {\"$ref\": \"#/definitions/X\"}}",
    )
    .unwrap();
    let mut mapper: StrMap<Vec<Member>> = StrMap::new();
    assert!(Analyzer::build_member(&required, &properties, &"T".to_string(), &mut mapper));
    let members = mapper.get("T").unwrap();
    assert_eq!(members.len(), 2);
    assert_eq!(members[0].member_name, "a");
    assert_eq!(members[0].member_def, "string");
    assert_eq!(members[1].member_name, "b");
    assert_eq!(members[1].member_def, "X");
    // a `required` that is no list records nothing
    let bad = JsonValue::parse(b"{\"a\": 1}").unwrap();
    assert!(!Analyzer::build_member(&bad, &properties, &"U".to_string(), &mut mapper));
    assert_eq!(mapper.len(), 1);
}

#[test]
fn prepare_definitions_answers_whether_the_section_is_an_object() {
    let mut base: StrMap<String> = StrMap::new();
    let mut structs: StrMap<StrMap<String>> = StrMap::new();
    let good = JsonValue::parse(b"{\"N\": {\"type\": \"integer\"}}").unwrap();
    assert!(Analyzer::prepare_definitions(&good, &mut base, &mut structs));
    assert_eq!(base.get("N").unwrap(), "integer");
    let bad = JsonValue::parse(b"[1]").unwrap();
    assert!(!Analyzer::prepare_definitions(&bad, &mut base, &mut structs));
    assert_eq!(base.len(), 1);
    assert_eq!(structs.len(), 0);
}

#[test]
fn schema_dir_stands_beside_the_bytecode() {
    assert_eq!(
        Analyzer::schema_dir("contracts/erc20/contract.wasm"),
        Some("contracts/erc20/schema".to_string())
    );
    assert_eq!(Analyzer::schema_dir("/contract.wasm"), Some("/schema".to_string()));
    assert_eq!(Analyzer::schema_dir("contract.wasm"), None);
}

#[test]
fn str_map_keeps_one_entry_for_each_key() {
    let mut map: StrMap<String> = StrMap::new();
    map.insert("a".to_string(), "1".to_string());
    map.insert("b".to_string(), "2".to_string());
    map.insert("a".to_string(), "3".to_string());
    assert_eq!(map.len(), 2);
    assert_eq!(map.get("a").unwrap(), "3");
    assert_eq!(map.get("b").unwrap(), "2");
    assert!(map.get("c").is_none());
    assert!(map.contains_key("b"));
    assert_eq!(map.entries()[0].0, "a");
    assert_eq!(map.entries()[1].0, "b");
    *map.get_mut("b").unwrap() = "4".to_string();
    assert_eq!(map.get("b").unwrap(), "4");
    assert!(map.get_mut("z").is_none());
}

#[test]
fn analyze_document_reads_the_members_in_their_order() {
    let doc = JsonValue::Object(vec![
        ("title".to_string(), JsonValue::String("T".to_string())),
        (
            "anyOf".to_string(),
            JsonValue::parse(
                b"[{\"required\": [\"T\"], \"properties\": {\"T\": {
                    \"required\": [\"x\"], \"properties\": {\"x\": {\"type\": \"string\"}}}}}]",
            )
            .unwrap(),
        ),
        ("properties".to_string(), JsonValue::parse(b"{\"y\": {\"type\": \"boolean\"}}").unwrap()),
        ("required".to_string(), JsonValue::parse(b"[\"y\"]").unwrap()),
    ]);
    let mut analyzer = Analyzer::default();
    assert!(analyzer.analyze_document(&doc));
    // the variant of the `required` list is read last, and replaces the
    // variant of the same name that `anyOf` gave
    assert_eq!(analyzer.map_of_member.get("T").unwrap().len(), 1);
    assert_eq!(members_of(&analyzer, "T", "T"), vec![("y", "boolean")]);
}
